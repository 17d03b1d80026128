//! Registration, burn-ledger and arena replay rules of Arkade City.

pub mod actions;
pub mod address;
pub mod arkade;
pub mod chain;
pub mod entry;
pub mod game;
pub mod gamelog;
pub mod laws;
pub mod match_;
pub mod pending;
pub mod psbt;
pub mod script;
pub mod seqs;
pub mod table;
pub mod text;
pub mod txbuild;
