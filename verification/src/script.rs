//! Reading and writing output scripts.

use crate::text;
use vstd::prelude::*;

verus! {

/// `OP_RETURN`, which marks an output as carrying data.
pub const OP_RETURN: u8 = 0x6a;

/// One step of a script.
#[derive(Debug)]
pub enum ScriptItem {
    /// An opcode other than a push.
    Op(u8),
    /// The bytes that a push puts on the stack.
    Push(Vec<u8>),
    /// The script ends in the middle of a push; nothing follows.
    Invalid,
}

/// What a `ScriptItem` says.
#[verifier::ext_equal]
pub enum Item {
    Op(u8),
    Push(Seq<u8>),
    Invalid,
}

impl View for ScriptItem {
    type V = Item;

    open spec fn view(&self) -> Item {
        match self {
            ScriptItem::Op(op) => Item::Op(*op),
            ScriptItem::Push(bytes) => Item::Push(bytes@),
            ScriptItem::Invalid => Item::Invalid,
        }
    }
}

pub open spec fn items_view(items: Seq<ScriptItem>) -> Seq<Item> {
    items.map_values(|i: ScriptItem| i@)
}

/// The steps of a script, as `bitcoin::Script::instructions` gives them.
pub uninterp spec fn script_items(script: Seq<u8>) -> Seq<Item>;

/// `bitcoin::Script::instructions`: the steps of the script in order. A failed step is
/// `Invalid`; what the steps of given bytes are is left to `script_items`.
#[verifier::external_body]
pub(crate) fn read_script(script: &[u8]) -> (items: Vec<ScriptItem>)
    ensures
        items_view(items@) == script_items(script@),
{
    let script = bitcoin::Script::from_bytes(script);
    script
        .instructions()
        .map(|step| match step {
            Ok(bitcoin::script::Instruction::Op(op)) => ScriptItem::Op(op.to_u8()),
            Ok(bitcoin::script::Instruction::PushBytes(b)) => ScriptItem::Push(b.as_bytes().to_vec()),
            Err(_) => ScriptItem::Invalid,
        })
        .collect()
}

/// The bytes of a script that returns `payload`: the opcode, the shortest push that can hold the
/// length, and the payload.
pub open spec fn op_return_bytes(payload: Seq<u8>) -> Seq<u8> {
    let n = payload.len() as int;
    let push = if n < 0x4c {
        seq![n as u8]
    } else if n < 0x100 {
        seq![0x4cu8, n as u8]
    } else if n < 0x10000 {
        seq![0x4du8, (n % 0x100) as u8, (n / 0x100) as u8]
    } else {
        seq![
            0x4eu8,
            (n % 0x100) as u8,
            (n / 0x100 % 0x100) as u8,
            (n / 0x10000 % 0x100) as u8,
            (n / 0x1000000) as u8,
        ]
    };
    seq![OP_RETURN] + push + payload
}

/// `bitcoin::script::Builder` with `push_opcode(OP_RETURN)` and `push_slice`: the script that
/// returns `payload`. `PushBytesBuf::try_from` refuses a payload of 2^32 bytes or more. Reading
/// the script gives back the opcode and one push of the payload, and nothing else.
#[verifier::external_body]
pub(crate) fn op_return_script(payload: &[u8]) -> (script: Option<Vec<u8>>)
    ensures
        match script {
            Some(script) => {
                &&& payload@.len() < 0x1_0000_0000
                &&& script@ == op_return_bytes(payload@)
                &&& script_items(script@) == seq![Item::Op(OP_RETURN), Item::Push(payload@)]
            },
            None => payload@.len() >= 0x1_0000_0000,
        },
{
    let data = bitcoin::script::PushBytesBuf::try_from(payload.to_vec()).ok()?;
    let script = bitcoin::script::Builder::new()
        .push_opcode(bitcoin::opcodes::all::OP_RETURN)
        .push_slice(&data)
        .into_script();
    Some(script.into_bytes())
}

/// Whether bytes start with the marker of an extension, `ARK`.
pub open spec fn has_extension_magic(bytes: Seq<u8>) -> bool {
    bytes.len() >= 3 && bytes[0] == 0x41 && bytes[1] == 0x52 && bytes[2] == 0x4b
}

/// The bytes that a data output returns: those of the push right behind its `OP_RETURN`.
pub open spec fn returned_data(items: Seq<Item>) -> Option<Seq<u8>> {
    if items.len() >= 2 && items[0] == Item::Op(OP_RETURN) {
        match items[1] {
            Item::Push(bytes) => Some(bytes),
            _ => None,
        }
    } else {
        None
    }
}

/// The bytes that an extension output returns, marker and all.
pub open spec fn extension_data(items: Seq<Item>) -> Option<Seq<u8>> {
    match returned_data(items) {
        Some(bytes) if has_extension_magic(bytes) => Some(bytes),
        _ => None,
    }
}

/// `ark_core::extension::extension_payload`: the pushed bytes of a script that starts with
/// `OP_RETURN` and a push that carries the extension marker.
#[verifier::external_body]
pub(crate) fn extension_payload(script: &[u8]) -> (payload: Option<Vec<u8>>)
    ensures
        match payload {
            Some(payload) => extension_data(script_items(script@)) == Some(payload@),
            None => extension_data(script_items(script@)) is None,
        },
{
    let script = bitcoin::Script::from_bytes(script);
    ark_core::extension::extension_payload(script).map(|bytes| bytes.to_vec())
}

/// The packets of an extension with their types, as `ark_core::extension::iter_packets` reads
/// them on a machine whose words have `word_bits` bits; nothing where it fails.
pub uninterp spec fn extension_packets(payload: Seq<u8>, word_bits: u32) -> Option<
    Seq<(u8, Seq<u8>)>,
>;

pub open spec fn packets_view(packets: Seq<(u8, Vec<u8>)>) -> Seq<(u8, Seq<u8>)> {
    packets.map_values(|p: (u8, Vec<u8>)| (p.0, p.1@))
}

/// `ark_core::extension::iter_packets`: the packets in order, each with its type. Which packets
/// given bytes hold is left to `extension_packets`.
#[verifier::external_body]
pub(crate) fn read_packets(payload: &[u8]) -> (packets: Option<Vec<(u8, Vec<u8>)>>)
    ensures
        match packets {
            Some(packets) => extension_packets(payload@, usize::BITS) == Some(
                packets_view(packets@),
            ),
            None => extension_packets(payload@, usize::BITS) is None,
        },
{
    let packets = ark_core::extension::iter_packets(payload).ok()?;
    Some(packets.into_iter().map(|(kind, bytes)| (kind, bytes.to_vec())).collect())
}

/// A taproot output script: version one and a push of 32 bytes.
pub open spec fn is_taproot(script: Seq<u8>) -> bool {
    script.len() == 34 && script[0] == 0x51 && script[1] == 0x20
}

/// Whether a script is a taproot output script.
pub fn is_p2tr(script: &[u8]) -> (result: bool)
    ensures
        result == is_taproot(script@),
{
    script.len() == 34 && script[0] == 0x51 && script[1] == 0x20
}

/// A script as lower-case hexadecimal text.
pub fn script_hex(script: &[u8]) -> (hex: String)
    ensures
        hex@ == text::hex_text(script@),
{
    text::hex_string(script)
}

} // verus!
