//! What the browser's entry points decide: keys, storage names and labels.

use crate::arkade::Network;
use crate::gamelog;
use crate::psbt::Psbt;
use vstd::prelude::*;

verus! {

/// Shown in the interface so that stale caches are obvious.
pub const VERSION: &'static str = "0.2.5";

pub const KEY_W: u8 = 1;

pub const KEY_A: u8 = 2;

pub const KEY_S: u8 = 4;

pub const KEY_D: u8 = 8;

/// The mask of the keys that are down: each has its own bit.
pub open spec fn mask_of(w: bool, a: bool, s: bool, d: bool) -> u8 {
    ((if w { 1int } else { 0 }) + (if a { 2int } else { 0 }) + (if s { 4int } else { 0 }) + (if d {
        8int
    } else {
        0
    })) as u8
}

pub fn key_mask(w: bool, a: bool, s: bool, d: bool) -> (mask: u8)
    ensures
        mask == mask_of(w, a, s, d),
{
    let w: u8 = if w { KEY_W } else { 0 };
    let a: u8 = if a { KEY_A } else { 0 };
    let s: u8 = if s { KEY_S } else { 0 };
    let d: u8 = if d { KEY_D } else { 0 };
    assert(w | a | s | d == w + a + s + d) by (bit_vector)
        requires
            w == 0 || w == 1,
            a == 0 || a == 2,
            s == 0 || s == 4,
            d == 0 || d == 8,
    ;
    w | a | s | d
}

/// How a network is called: the main one, or any other.
pub open spec fn label_of(network: Network) -> Seq<char> {
    match network {
        Network::Bitcoin => "mainnet"@,
        _ => "signet"@,
    }
}

pub fn network_label(network: Network) -> (label: &'static str)
    ensures
        label@ == label_of(network),
{
    match network {
        Network::Bitcoin => "mainnet",
        _ => "signet",
    }
}

/// The name under which something is stored for a network. Keys are scoped per network, so that a
/// test key is never reused on the main network by accident.
pub fn storage_name(base: &str, network: Network) -> (name: String)
    ensures
        name@ == base@ + ":"@ + label_of(network),
{
    let mut name: String = base.to_owned();
    name.append(":");
    name.append(network_label(network));
    name
}

/// Names for the main network and for any other are different.
pub proof fn law_storage_is_scoped(base: Seq<char>, network: Network)
    requires
        network != Network::Bitcoin,
    ensures
        base + ":"@ + label_of(network) != base + ":"@ + label_of(Network::Bitcoin),
{
    reveal_strlit("mainnet");
    reveal_strlit("signet");
    let a = base + ":"@ + label_of(network);
    let b = base + ":"@ + label_of(Network::Bitcoin);
    assert(a.len() != b.len());
}

/// OP_RETURN payloads of a virtual transaction.
pub fn payloads_of(psbt: &Psbt) -> (payloads: Vec<Vec<u8>>)
    ensures
        gamelog::bytes_view(payloads@) == gamelog::payloads_of(psbt@.tx.output),
{
    gamelog::payloads_from_tx(psbt.unsigned_tx())
}

} // verus!
