//! What holds of the library's operations, stated of their inputs and results.

pub mod actions;
pub mod arkade;
pub mod game;
pub mod gamelog;
pub mod packet;
pub mod pending;
pub mod play;
pub mod session;
pub mod text;
pub mod txbuild;
pub mod views;
pub mod wallet;
