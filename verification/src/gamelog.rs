//! Registry and per-player move ledger.
//!
//! A game-address output registers each issuance and its player script. Native asset burns are
//! then discovered through that script. The burned asset identifies both the player (issuance
//! txid) and direction (group index), and a compact receipt supplies deterministic player-local
//! ordering.

use crate::chain;
use crate::chain::{AssetId, Output, Transaction, TxOut, Txid};
use crate::script;
use crate::script::ScriptItem;
use crate::table::{Key, Table};
use crate::text;
use vstd::prelude::*;

verus! {

pub const GAME_ID: &'static str = "arkade-maze-v2";

pub const RECEIPT_MAGIC: [u8; 2] = [0x41, 0x4d];

pub const RECEIPT_VERSION: u8 = 2;

pub const RECEIPT_LEN: usize = 7;

pub const MOVE_SUPPLY: u64 = 50;

pub const PLAYER_ASSET_OUTPUT_INDEX: u16 = 1;

/// The directions in group order.
pub const DIRECTIONS: [&'static str; 4] = ["w", "d", "s", "a"];

pub const DIR_UP: u8 = 0;

pub const DIR_RIGHT: u8 = 1;

pub const DIR_DOWN: u8 = 2;

pub const DIR_LEFT: u8 = 3;

#[derive(Clone, Copy, Debug, PartialEq, Eq, Structural)]
pub struct AssetAssignment {
    pub index: u16,
    pub amount: u64,
}

#[derive(Clone, Copy, Debug, PartialEq, Eq, Structural)]
pub struct MoveReceipt {
    pub sequence: u32,
}

/// The four bytes of a number, low byte first.
pub open spec fn u32_le(value: u32) -> Seq<u8> {
    seq![
        (value % 256) as u8,
        (value / 256 % 256) as u8,
        (value / 65536 % 256) as u8,
        (value / 16777216) as u8,
    ]
}

/// The number whose bytes these four are, low byte first.
pub open spec fn u32_of_le(b: Seq<u8>) -> u32 {
    (b[0] + b[1] * 256 + b[2] * 65536 + b[3] * 16777216) as u32
}

impl MoveReceipt {
    /// `AM`, the version, and the sequence number with its low byte first.
    pub open spec fn bytes(self) -> Seq<u8> {
        seq![0x41u8, 0x4du8, RECEIPT_VERSION] + u32_le(self.sequence)
    }

    /// The receipt in a payload of exactly this form.
    pub open spec fn of_bytes(raw: Seq<u8>) -> Option<MoveReceipt> {
        if raw.len() == RECEIPT_LEN && raw[0] == 0x41 && raw[1] == 0x4d && raw[2]
            == RECEIPT_VERSION {
            Some(MoveReceipt { sequence: u32_of_le(raw.skip(3)) })
        } else {
            None
        }
    }

    pub fn encode(self) -> (raw: [u8; 7])
        ensures
            raw@ == self.bytes(),
    {
        let n: u32 = self.sequence;
        let raw: [u8; 7] = [
            RECEIPT_MAGIC[0],
            RECEIPT_MAGIC[1],
            RECEIPT_VERSION,
            (n % 256) as u8,
            (n / 256 % 256) as u8,
            (n / 65536 % 256) as u8,
            (n / 16777216) as u8,
        ];
        assert(raw@ =~= self.bytes());
        raw
    }

    pub fn decode(raw: &[u8]) -> (receipt: Option<MoveReceipt>)
        ensures
            receipt == MoveReceipt::of_bytes(raw@),
    {
        if raw.len() != RECEIPT_LEN || raw[0] != RECEIPT_MAGIC[0] || raw[1] != RECEIPT_MAGIC[1]
            || raw[2] != RECEIPT_VERSION {
            return None;
        }
        let sequence: u32 = raw[3] as u32 + raw[4] as u32 * 256 + raw[5] as u32 * 65536
            + raw[6] as u32 * 16777216;
        Some(MoveReceipt { sequence })
    }
}

/// A receipt reads back from the bytes it was written to.
pub proof fn law_receipt_round_trip(receipt: MoveReceipt)
    ensures
        MoveReceipt::of_bytes(receipt.bytes()) == Some(receipt),
{
    let n = receipt.sequence;
    let tail = receipt.bytes().skip(3);
    assert(tail =~= u32_le(n));
}

proof fn lemma_u32_digits(n: int, b0: int, b1: int, b2: int, b3: int)
    requires
        n == b0 + b1 * 256 + b2 * 65536 + b3 * 16777216,
        0 <= b0 < 256,
        0 <= b1 < 256,
        0 <= b2 < 256,
        0 <= b3 < 256,
    ensures
        n % 256 == b0,
        n / 256 % 256 == b1,
        n / 65536 % 256 == b2,
        n / 16777216 == b3,
{
    let m1 = b1 + b2 * 256 + b3 * 65536;
    let m2 = b2 + b3 * 256;
    assert(n == 256 * m1 + b0);
    assert(n / 256 == m1 && n % 256 == b0);
    assert(n == 65536 * m2 + (b0 + b1 * 256));
    assert(n / 65536 == m2);
    assert(m1 == 256 * m2 + b1);
    assert(m1 % 256 == b1);
    assert(m2 % 256 == b2);
    assert(n / 16777216 == b3);
}

/// Only the bytes that a receipt is written to read as that receipt.
pub proof fn law_receipt_bytes_are_canonical(raw: Seq<u8>, receipt: MoveReceipt)
    requires
        MoveReceipt::of_bytes(raw) == Some(receipt),
    ensures
        raw == receipt.bytes(),
{
    let b = raw.skip(3);
    let (b0, b1, b2, b3) = (raw[3] as int, raw[4] as int, raw[5] as int, raw[6] as int);
    assert(b[0] == b0 && b[1] == b1 && b[2] == b2 && b[3] == b3);
    let n = receipt.sequence as int;
    lemma_u32_digits(n, b0, b1, b2, b3);
    assert(raw =~= receipt.bytes());
}

/// A number in base 128, least significant digit first, each digit but the last marked by the
/// top bit, that starts at `at`; with where it ends. `index` counts the digits read before. A
/// number has at most ten digits, of which the tenth is at most one.
pub open spec fn uvarint_from(bytes: Seq<u8>, at: int, index: nat) -> Option<(nat, int)>
    decreases 10 - index,
{
    if index > 9 || at < 0 || at >= bytes.len() || (index == 9 && bytes[at] > 1) {
        None
    } else if bytes[at] < 128 {
        Some((bytes[at] as nat, at + 1))
    } else {
        match uvarint_from(bytes, at + 1, index + 1) {
            Some((rest, end)) => Some(((bytes[at] - 128 + 128 * rest) as nat, end)),
            None => None,
        }
    }
}

pub open spec fn uvarint(bytes: Seq<u8>, at: int) -> Option<(nat, int)> {
    uvarint_from(bytes, at, 0)
}

/// Where the reading of bytes that are no number stops: behind the tenth digit, or where the bytes
/// end before that.
pub open spec fn uvarint_stop(bytes: Seq<u8>, at: int) -> int {
    if at + 10 <= bytes.len() {
        at + 10
    } else if at <= bytes.len() {
        bytes.len() as int
    } else {
        at
    }
}

/// 128 to the power of `n`, for `n` up to nine.
spec fn weight(n: nat) -> nat
    decreases n,
{
    if n == 0 {
        1
    } else {
        128 * weight((n - 1) as nat)
    }
}

proof fn lemma_uvarint_bound(bytes: Seq<u8>, at: int, index: nat)
    requires
        uvarint_from(bytes, at, index) is Some,
    ensures
        uvarint_from(bytes, at, index).unwrap().0 * weight(index) <= u64::MAX - (weight(index) - 1),
        at < uvarint_from(bytes, at, index).unwrap().1 <= bytes.len(),
        index <= 9,
        weight(index) >= 1,
    decreases 10 - index,
{
    reveal_with_fuel(weight, 11);
    let v = uvarint_from(bytes, at, index).unwrap().0;
    if bytes[at] < 128 {
        if index < 9 {
            assert(v * weight(index) <= 127 * weight(index)) by (nonlinear_arith)
                requires
                    v <= 127,
            ;
        } else {
            assert(v * weight(index) <= weight(index)) by (nonlinear_arith)
                requires
                    v <= 1,
            ;
        }
    } else {
        lemma_uvarint_bound(bytes, at + 1, index + 1);
        let rest = uvarint_from(bytes, at + 1, index + 1).unwrap().0;
        let w = weight(index);
        assert(weight(index + 1) == 128 * w);
        assert(v * w <= 127 * w + rest * (128 * w)) by (nonlinear_arith)
            requires
                v <= 127 + 128 * rest,
        ;
    }
}

/// Whether the shortest form of a number stands at a place.
pub open spec fn stands_at(bytes: Seq<u8>, at: int, value: u64) -> bool {
    let end = at + uvarint_bytes(value as nat).len();
    end <= bytes.len() && bytes.subrange(at, end) == uvarint_bytes(value as nat)
}

/// Reads a number in groups of seven bits, the lowest first, from where the cursor stands, and moves
/// the cursor behind it; where there is none, to where reading stops. A cursor within the bytes stays
/// within them and moves by at most ten.
pub fn read_uvarint(bytes: &[u8], cursor: &mut usize) -> (value: Option<u64>)
    ensures
        *old(cursor) <= bytes@.len() ==> *old(cursor) <= *final(cursor) <= *old(cursor) + 10
            && *final(cursor) <= bytes@.len(),
        forall|number: u64| #[trigger]
            stands_at(bytes@, *old(cursor) as int, number) ==> {
                &&& value == Some(number)
                &&& *final(cursor) == *old(cursor) + uvarint_bytes(number as nat).len()
            },
        match value {
            Some(value) => uvarint(bytes@, *old(cursor) as int) == Some(
                (value as nat, *final(cursor) as int),
            ),
            None => uvarint(bytes@, *old(cursor) as int) is None && *final(cursor)
                == uvarint_stop(bytes@, *old(cursor) as int),
        },
{
    let ghost start = *cursor as int;
    proof {
        assert forall|number: u64| #[trigger] stands_at(bytes@, start, number) implies uvarint(
            bytes@,
            start,
        ) == Some((number as nat, start + uvarint_bytes(number as nat).len())) by {
            law_uvarint_round_trip(bytes@, start, number);
        }
    }
    let mut value: u64 = 0;
    let mut scale: u64 = 1;
    let mut index: usize = 0;
    while index < 10
        invariant
            index <= 10,
            start == *old(cursor),
            start + index == *cursor,
            forall|number: u64| #[trigger]
                stands_at(bytes@, start, number) ==> uvarint(bytes@, start) == Some(
                    (number as nat, start + uvarint_bytes(number as nat).len()),
                ),
            0 < index ==> *cursor <= bytes@.len(),
            index < 10 ==> scale == weight(index as nat),
            index < 10 ==> value < weight(index as nat),
            index == 10 ==> uvarint(bytes@, start) is None,
            match uvarint_from(bytes@, *cursor as int, index as nat) {
                Some((rest, end)) => uvarint(bytes@, start) == Some(
                    ((value + weight(index as nat) * rest) as nat, end),
                ),
                None => uvarint(bytes@, start) is None,
            },
        decreases 10 - index,
    {
        if *cursor >= bytes.len() {
            return None;
        }
        let byte: u8 = bytes[*cursor];
        *cursor += 1;
        if index == 9 && byte > 1 {
            return None;
        }
        proof {
            reveal_with_fuel(weight, 11);
        }
        let digit: u64 = (byte % 128) as u64;
        proof {
            assert(digit * scale <= 127 * scale) by (nonlinear_arith)
                requires
                    digit <= 127,
            ;
            assert(digit <= 1 ==> digit * scale <= scale) by (nonlinear_arith);
            assert(byte < 128 ==> digit == byte);
            assert(byte >= 128 ==> digit == byte - 128);
        }
        let ghost was = value;
        value = value + digit * scale;
        if byte < 128 {
            proof {
                assert(scale * digit == digit * scale) by (nonlinear_arith);
            }
            return Some(value);
        }
        proof {
            let next = uvarint_from(bytes@, *cursor as int, (index + 1) as nat);
            if let Some((rest, end)) = next {
                let w = weight(index as nat);
                assert(was + w * (digit + 128 * rest) == was + digit * w + (128 * w) * rest)
                    by (nonlinear_arith);
            }
        }
        if index < 9 {
            scale = scale * 128;
        }
        index += 1;
    }
    None
}

/// The shortest form of a number in base 128.
pub open spec fn uvarint_bytes(value: nat) -> Seq<u8>
    decreases value,
{
    if value < 128 {
        seq![value as u8]
    } else {
        seq![(value % 128 + 128) as u8] + uvarint_bytes(value / 128)
    }
}

proof fn lemma_uvarint_bytes(bytes: Seq<u8>, at: int, index: nat, value: nat)
    requires
        0 <= at,
        index <= 9,
        value * weight(index) <= u64::MAX,
        at + uvarint_bytes(value).len() <= bytes.len(),
        bytes.subrange(at, at + uvarint_bytes(value).len()) == uvarint_bytes(value),
    ensures
        uvarint_from(bytes, at, index) == Some((value, at + uvarint_bytes(value).len())),
        1 <= uvarint_bytes(value).len() <= 10 - index,
    decreases value,
{
    reveal_with_fuel(weight, 11);
    let form = uvarint_bytes(value);
    assert(bytes.subrange(at, at + form.len())[0] == bytes[at]);
    if value < 128 {
        assert(form[0] == value);
        if index == 9 && value > 1 {
            let w = weight(index);
            assert(2 * w <= value * w) by (nonlinear_arith)
                requires
                    2 <= value,
            ;
        }
    } else {
        let rest = uvarint_bytes(value / 128);
        let w = weight(index);
        assert(form =~= seq![(value % 128 + 128) as u8] + rest);
        assert(form[0] == value % 128 + 128);
        assert(value / 128 * (128 * w) <= value * w) by (nonlinear_arith)
            requires
                value / 128 * 128 <= value,
        ;
        if index == 9 {
            assert(128 * w <= value * w) by (nonlinear_arith)
                requires
                    128 <= value,
            ;
        }
        assert(bytes.subrange(at + 1, at + 1 + rest.len()) =~= bytes.subrange(
            at,
            at + form.len(),
        ).skip(1));
        assert(form.skip(1) =~= rest);
        lemma_uvarint_bytes(bytes, at + 1, index + 1, value / 128);
    }
}

/// The shortest form of a number reads back as that number, wherever it stands and whatever
/// follows it.
pub proof fn law_uvarint_round_trip(bytes: Seq<u8>, at: int, value: u64)
    requires
        0 <= at,
        stands_at(bytes, at, value),
    ensures
        uvarint(bytes, at) == Some((value as nat, at + uvarint_bytes(value as nat).len())),
        uvarint_bytes(value as nat).len() <= 10,
{
    assert(value as nat * weight(0) == value) by (nonlinear_arith)
        requires
            weight(0) == 1,
    ;
    lemma_uvarint_bytes(bytes, at, 0, value as nat);
}

/// A number is read within ten bytes and within the bytes there are; so is what is none.
pub proof fn law_uvarint_stays_within(bytes: Seq<u8>, at: int)
    requires
        0 <= at <= bytes.len(),
    ensures
        match uvarint(bytes, at) {
            Some((_, end)) => at < end <= at + 10 && end <= bytes.len(),
            None => at <= uvarint_stop(bytes, at) <= at + 10 && uvarint_stop(bytes, at)
                <= bytes.len(),
        },
{
    lemma_uvarint_end(bytes, at, 0);
}

proof fn lemma_uvarint_end(bytes: Seq<u8>, at: int, index: nat)
    ensures
        uvarint_from(bytes, at, index) matches Some((_, end)) ==> at < end <= at + 10 - index && end
            <= bytes.len(),
    decreases 10 - index,
{
    if index <= 9 {
        lemma_uvarint_end(bytes, at + 1, index + 1);
    }
}

/// A length-prefixed text that starts at `at`; with where it ends.
pub open spec fn string_at(bytes: Seq<u8>, at: int) -> Option<(Seq<char>, int)> {
    match uvarint(bytes, at) {
        Some((len, start)) => {
            let end = start + len;
            if end <= bytes.len() && vstd::utf8::valid_utf8(bytes.subrange(start, end)) {
                Some((vstd::utf8::decode_utf8(bytes.subrange(start, end)), end))
            } else {
                None
            }
        },
        None => None,
    }
}

/// `count` pairs of texts.
pub open spec fn pairs_from(bytes: Seq<u8>, at: int, count: nat) -> Option<
    (Seq<(Seq<char>, Seq<char>)>, int),
>
    decreases count,
{
    if count == 0 {
        Some((Seq::empty(), at))
    } else {
        match string_at(bytes, at) {
            Some((key, mid)) => match string_at(bytes, mid) {
                Some((value, next)) => match pairs_from(bytes, next, (count - 1) as nat) {
                    Some((rest, end)) => Some((seq![(key, value)] + rest, end)),
                    None => None,
                },
                None => None,
            },
            None => None,
        }
    }
}

/// A number of pairs, at most a thousand, and the pairs.
pub open spec fn metadata_at(bytes: Seq<u8>, at: int) -> Option<
    (Seq<(Seq<char>, Seq<char>)>, int),
> {
    match uvarint(bytes, at) {
        Some((count, start)) if count <= 1_000 => pairs_from(bytes, start, count),
        _ => None,
    }
}

/// The pairs in hexadecimal text that holds metadata and nothing else.
pub open spec fn metadata_of(raw: Seq<char>) -> Option<Seq<(Seq<char>, Seq<char>)>> {
    match text::hex_bytes(raw) {
        Some(bytes) => match metadata_at(bytes, 0) {
            Some((pairs, end)) if end == bytes.len() => Some(pairs),
            _ => None,
        },
        None => None,
    }
}

pub open spec fn pairs_view(pairs: Seq<(String, String)>) -> Seq<(Seq<char>, Seq<char>)> {
    pairs.map_values(|p: (String, String)| (p.0@, p.1@))
}

/// Arkade's GetAsset endpoint returns metadata as hex-encoded uLEB128 fields.
pub fn decode_asset_metadata(raw: &str) -> (metadata: Option<Vec<(String, String)>>)
    ensures
        match metadata {
            Some(metadata) => metadata_of(raw@) == Some(pairs_view(metadata@)),
            None => metadata_of(raw@) is None,
        },
{
    let bytes: Vec<u8> = match text::parse_hex(raw) {
        Some(bytes) => bytes,
        None => {
            return None;
        },
    };
    let mut cursor: usize = 0;
    match read_metadata(&bytes, &mut cursor) {
        Some(metadata) => if cursor == bytes.len() {
            Some(metadata)
        } else {
            None
        },
        None => None,
    }
}

fn read_metadata(bytes: &[u8], cursor: &mut usize) -> (metadata: Option<Vec<(String, String)>>)
    ensures
        match metadata {
            Some(metadata) => metadata_at(bytes@, *old(cursor) as int) == Some(
                (pairs_view(metadata@), *final(cursor) as int),
            ),
            None => metadata_at(bytes@, *old(cursor) as int) is None,
        },
{
    let count: u64 = match read_uvarint(bytes, cursor) {
        Some(count) => count,
        None => {
            return None;
        },
    };
    if count > 1_000 {
        return None;
    }
    let ghost start = *cursor as int;
    let mut metadata: Vec<(String, String)> = Vec::new();
    let mut i: u64 = 0;
    proof {
        assert(pairs_view(metadata@) =~= Seq::empty());
        if let Some((rest, end)) = pairs_from(bytes@, start, count as nat) {
            assert(pairs_view(metadata@) + rest =~= rest);
        }
    }
    while i < count
        invariant
            i <= count <= 1_000,
            metadata_at(bytes@, *old(cursor) as int) == pairs_from(bytes@, start, count as nat),
            match pairs_from(bytes@, *cursor as int, (count - i) as nat) {
                Some((rest, end)) => pairs_from(bytes@, start, count as nat) == Some(
                    (pairs_view(metadata@) + rest, end),
                ),
                None => pairs_from(bytes@, start, count as nat) is None,
            },
        decreases count - i,
    {
        let ghost at = *cursor as int;
        let key: String = match read_string(bytes, cursor) {
            Some(key) => key,
            None => {
                return None;
            },
        };
        let value: String = match read_string(bytes, cursor) {
            Some(value) => value,
            None => {
                return None;
            },
        };
        let ghost was = pairs_view(metadata@);
        let ghost pair = (key@, value@);
        metadata.push((key, value));
        proof {
            assert(pairs_view(metadata@) =~= was.push(pair));
            if let Some((rest, end)) = pairs_from(bytes@, *cursor as int, (count - i - 1) as nat) {
                assert(was + (seq![pair] + rest) =~= was.push(pair) + rest);
            }
        }
        i += 1;
    }
    proof {
        assert(pairs_view(metadata@) + Seq::<(Seq<char>, Seq<char>)>::empty() =~= pairs_view(
            metadata@,
        ));
    }
    Some(metadata)
}

/// The part of a byte string between two places, where it has both.
fn slice_between(bytes: &[u8], start: usize, end: usize) -> (part: &[u8])
    requires
        start <= end <= bytes@.len(),
    ensures
        part@ == bytes@.subrange(start as int, end as int),
{
    vstd::slice::slice_subrange(bytes, start, end)
}

fn read_string(bytes: &[u8], cursor: &mut usize) -> (text: Option<String>)
    ensures
        match text {
            Some(text) => string_at(bytes@, *old(cursor) as int) == Some(
                (text@, *final(cursor) as int),
            ),
            None => string_at(bytes@, *old(cursor) as int) is None,
        },
{
    let len: u64 = match read_uvarint(bytes, cursor) {
        Some(len) => len,
        None => {
            return None;
        },
    };
    proof {
        lemma_uvarint_bound(bytes@, *old(cursor) as int, 0);
    }
    if len > (bytes.len() - *cursor) as u64 {
        return None;
    }
    let end: usize = *cursor + len as usize;
    match text::parse_utf8(slice_between(bytes, *cursor, end)) {
        Some(text) => {
            *cursor = end;
            Some(text)
        },
        None => None,
    }
}

/// A two-byte number, low byte first.
pub open spec fn u16_at(bytes: Seq<u8>, at: int) -> Option<(u16, int)> {
    if 0 <= at && at + 2 <= bytes.len() {
        Some(((bytes[at] + bytes[at + 1] * 256) as u16, at + 2))
    } else {
        None
    }
}

fn read_u16(bytes: &[u8], cursor: &mut usize) -> (value: Option<u16>)
    ensures
        match value {
            Some(value) => u16_at(bytes@, *old(cursor) as int) == Some(
                (value, *final(cursor) as int),
            ),
            None => u16_at(bytes@, *old(cursor) as int) is None,
        },
{
    if *cursor >= bytes.len() || bytes.len() - *cursor < 2 {
        return None;
    }
    let value: u16 = bytes[*cursor] as u16 + bytes[*cursor + 1] as u16 * 256;
    *cursor += 2;
    Some(value)
}

/// An asset id: the 32 bytes of the transaction id as its text shows them, and the group index.
pub open spec fn asset_id_at(bytes: Seq<u8>, at: int) -> Option<(AssetId, int)> {
    if 0 <= at && at + 34 <= bytes.len() {
        Some(
            (
                AssetId {
                    txid: Txid::of_bytes(bytes.subrange(at, at + 32).reverse()),
                    group_index: u16_at(bytes, at + 32).unwrap().0,
                },
                at + 34,
            ),
        )
    } else {
        None
    }
}

fn read_asset_id(bytes: &[u8], cursor: &mut usize) -> (id: Option<AssetId>)
    ensures
        match id {
            Some(id) => asset_id_at(bytes@, *old(cursor) as int) == Some(
                (id, *final(cursor) as int),
            ),
            None => asset_id_at(bytes@, *old(cursor) as int) is None,
        },
{
    if *cursor >= bytes.len() || bytes.len() - *cursor < 34 {
        return None;
    }
    let start: usize = *cursor;
    let mut reversed: [u8; 32] = [0u8;32];
    let mut i: usize = 0;
    while i < 32
        invariant
            i <= 32,
            start + 34 <= bytes@.len() <= usize::MAX,
            forall|k: int| 0 <= k < i ==> reversed[k] == bytes@[start + 31 - k],
        decreases 32 - i,
    {
        reversed[i] = bytes[start + 31 - i];
        i += 1;
    }
    let txid: Txid = Txid::from_byte_array(reversed);
    proof {
        assert(txid.bytes@ =~= bytes@.subrange(start as int, start + 32).reverse());
        txid.lemma_of_bytes();
    }
    *cursor = start + 32;
    match read_u16(bytes, cursor) {
        Some(group_index) => Some(AssetId { txid, group_index }),
        None => None,
    }
}

/// Where a reference to a control asset ends: an asset id behind a one, or a group index behind
/// a two.
pub open spec fn control_asset_end(bytes: Seq<u8>, at: int) -> Option<int> {
    if at < 0 || at >= bytes.len() {
        None
    } else if bytes[at] == 1 && asset_id_at(bytes, at + 1) is Some {
        Some(at + 35)
    } else if bytes[at] == 2 && u16_at(bytes, at + 1) is Some {
        Some(at + 3)
    } else {
        None
    }
}

fn read_control_asset(bytes: &[u8], cursor: &mut usize) -> (found: Option<()>)
    ensures
        match found {
            Some(_) => control_asset_end(bytes@, *old(cursor) as int) == Some(
                *final(cursor) as int,
            ),
            None => control_asset_end(bytes@, *old(cursor) as int) is None,
        },
{
    if *cursor >= bytes.len() {
        return None;
    }
    let kind: u8 = bytes[*cursor];
    *cursor += 1;
    if kind == 1 {
        match read_asset_id(bytes, cursor) {
            Some(_) => Some(()),
            None => None,
        }
    } else if kind == 2 {
        match read_u16(bytes, cursor) {
            Some(_) => Some(()),
            None => None,
        }
    } else {
        None
    }
}

/// `count` assignments: each a one, an index and an amount.
pub open spec fn assignments_from(bytes: Seq<u8>, at: int, count: nat) -> Option<
    (Seq<AssetAssignment>, int),
>
    decreases count,
{
    if count == 0 {
        Some((Seq::empty(), at))
    } else if at < 0 || at >= bytes.len() || bytes[at] != 1 {
        None
    } else {
        match u16_at(bytes, at + 1) {
            Some((index, mid)) => match uvarint(bytes, mid) {
                Some((amount, next)) => match assignments_from(bytes, next, (count - 1) as nat) {
                    Some((rest, end)) => Some(
                        (seq![AssetAssignment { index, amount: amount as u64 }] + rest, end),
                    ),
                    None => None,
                },
                None => None,
            },
            None => None,
        }
    }
}

/// A number of assignments, at most ten thousand, and the assignments.
pub open spec fn assignments_at(bytes: Seq<u8>, at: int) -> Option<(Seq<AssetAssignment>, int)> {
    match uvarint(bytes, at) {
        Some((count, start)) if count <= 10_000 => assignments_from(bytes, start, count),
        _ => None,
    }
}

fn read_assignments(bytes: &[u8], cursor: &mut usize) -> (found: Option<Vec<AssetAssignment>>)
    ensures
        match found {
            Some(found) => assignments_at(bytes@, *old(cursor) as int) == Some(
                (found@, *final(cursor) as int),
            ),
            None => assignments_at(bytes@, *old(cursor) as int) is None,
        },
{
    let count: u64 = match read_uvarint(bytes, cursor) {
        Some(count) => count,
        None => {
            return None;
        },
    };
    if count > 10_000 {
        return None;
    }
    let ghost start = *cursor as int;
    let mut assignments: Vec<AssetAssignment> = Vec::new();
    let mut i: u64 = 0;
    proof {
        if let Some((rest, end)) = assignments_from(bytes@, start, count as nat) {
            assert(assignments@ + rest =~= rest);
        }
    }
    while i < count
        invariant
            i <= count <= 10_000,
            assignments_at(bytes@, *old(cursor) as int) == assignments_from(
                bytes@,
                start,
                count as nat,
            ),
            match assignments_from(bytes@, *cursor as int, (count - i) as nat) {
                Some((rest, end)) => assignments_from(bytes@, start, count as nat) == Some(
                    (assignments@ + rest, end),
                ),
                None => assignments_from(bytes@, start, count as nat) is None,
            },
        decreases count - i,
    {
        if *cursor >= bytes.len() || bytes[*cursor] != 1 {
            return None;
        }
        *cursor += 1;
        let index: u16 = match read_u16(bytes, cursor) {
            Some(index) => index,
            None => {
                return None;
            },
        };
        let amount: u64 = match read_uvarint(bytes, cursor) {
            Some(amount) => amount,
            None => {
                return None;
            },
        };
        let ghost was = assignments@;
        let found: AssetAssignment = AssetAssignment { index, amount };
        assignments.push(found);
        proof {
            if let Some((rest, end)) = assignments_from(
                bytes@,
                *cursor as int,
                (count - i - 1) as nat,
            ) {
                assert(was + (seq![found] + rest) =~= was.push(found) + rest);
            }
        }
        i += 1;
    }
    proof {
        assert(assignments@ + Seq::<AssetAssignment>::empty() =~= assignments@);
    }
    Some(assignments)
}

#[derive(Debug)]
pub struct AssetPacketGroup {
    pub asset_id: Option<AssetId>,
    pub has_control_asset: bool,
    pub metadata: Option<Vec<(String, String)>>,
    pub inputs: Vec<AssetAssignment>,
    pub outputs: Vec<AssetAssignment>,
}

/// What an `AssetPacketGroup` says.
#[verifier::ext_equal]
pub struct Group {
    pub asset_id: Option<AssetId>,
    pub has_control_asset: bool,
    pub metadata: Option<Seq<(Seq<char>, Seq<char>)>>,
    pub inputs: Seq<AssetAssignment>,
    pub outputs: Seq<AssetAssignment>,
}

impl View for AssetPacketGroup {
    type V = Group;

    open spec fn view(&self) -> Group {
        Group {
            asset_id: self.asset_id,
            has_control_asset: self.has_control_asset,
            metadata: match self.metadata {
                Some(pairs) => Some(pairs_view(pairs@)),
                None => None,
            },
            inputs: self.inputs@,
            outputs: self.outputs@,
        }
    }
}

#[derive(Debug)]
pub struct AssetPacket {
    pub groups: Vec<AssetPacketGroup>,
}

pub open spec fn groups_view(groups: Seq<AssetPacketGroup>) -> Seq<Group> {
    groups.map_values(|g: AssetPacketGroup| g@)
}

impl View for AssetPacket {
    type V = Seq<Group>;

    open spec fn view(&self) -> Seq<Group> {
        groups_view(self.groups@)
    }
}

/// One group of a packet. Its first byte tells which optional parts follow: an asset id (1), a
/// control asset (2), metadata (4). The inputs and the outputs always follow.
pub open spec fn group_at(bytes: Seq<u8>, at: int) -> Option<(Group, int)> {
    if at < 0 || at >= bytes.len() || bytes[at] >= 8 {
        None
    } else {
        let with_id = bytes[at] % 2 == 1;
        let with_control = bytes[at] / 2 % 2 == 1;
        let with_metadata = bytes[at] / 4 % 2 == 1;
        let id = if with_id {
            match asset_id_at(bytes, at + 1) {
                Some((id, end)) => Some((Some(id), end)),
                None => None,
            }
        } else {
            Some((None, at + 1))
        };
        match id {
            None => None,
            Some((asset_id, after_id)) => {
                let control = if with_control {
                    control_asset_end(bytes, after_id)
                } else {
                    Some(after_id)
                };
                match control {
                    None => None,
                    Some(after_control) => {
                        let pairs = if with_metadata {
                            match metadata_at(bytes, after_control) {
                                Some((pairs, end)) => Some((Some(pairs), end)),
                                None => None,
                            }
                        } else {
                            Some((None, after_control))
                        };
                        match pairs {
                            None => None,
                            Some((metadata, after_pairs)) => match assignments_at(
                                bytes,
                                after_pairs,
                            ) {
                                None => None,
                                Some((inputs, mid)) => match assignments_at(bytes, mid) {
                                    None => None,
                                    Some((outputs, end)) => Some(
                                        (
                                            Group {
                                                asset_id,
                                                has_control_asset: with_control,
                                                metadata,
                                                inputs,
                                                outputs,
                                            },
                                            end,
                                        ),
                                    ),
                                },
                            },
                        }
                    },
                }
            },
        }
    }
}

pub open spec fn groups_from(bytes: Seq<u8>, at: int, count: nat) -> Option<(Seq<Group>, int)>
    decreases count,
{
    if count == 0 {
        Some((Seq::empty(), at))
    } else {
        match group_at(bytes, at) {
            Some((group, next)) => match groups_from(bytes, next, (count - 1) as nat) {
                Some((rest, end)) => Some((seq![group] + rest, end)),
                None => None,
            },
            None => None,
        }
    }
}

/// The groups of a packet: one to a thousand of them, and nothing behind.
pub open spec fn packet_of(bytes: Seq<u8>) -> Option<Seq<Group>> {
    match uvarint(bytes, 0) {
        Some((count, start)) if 1 <= count <= 1_000 => match groups_from(bytes, start, count) {
            Some((groups, end)) if end == bytes.len() => Some(groups),
            _ => None,
        },
        _ => None,
    }
}

fn read_group(bytes: &[u8], cursor: &mut usize) -> (group: Option<AssetPacketGroup>)
    ensures
        match group {
            Some(group) => group_at(bytes@, *old(cursor) as int) == Some(
                (group@, *final(cursor) as int),
            ),
            None => group_at(bytes@, *old(cursor) as int) is None,
        },
{
    if *cursor >= bytes.len() {
        return None;
    }
    let presence: u8 = bytes[*cursor];
    *cursor += 1;
    if presence >= 8 {
        return None;
    }
    let asset_id: Option<AssetId> = if presence % 2 == 1 {
        match read_asset_id(bytes, cursor) {
            Some(id) => Some(id),
            None => {
                return None;
            },
        }
    } else {
        None
    };
    let has_control_asset: bool = presence / 2 % 2 == 1;
    if has_control_asset {
        if read_control_asset(bytes, cursor).is_none() {
            return None;
        }
    }
    let metadata: Option<Vec<(String, String)>> = if presence / 4 % 2 == 1 {
        match read_metadata(bytes, cursor) {
            Some(metadata) => Some(metadata),
            None => {
                return None;
            },
        }
    } else {
        None
    };
    let inputs: Vec<AssetAssignment> = match read_assignments(bytes, cursor) {
        Some(inputs) => inputs,
        None => {
            return None;
        },
    };
    let outputs: Vec<AssetAssignment> = match read_assignments(bytes, cursor) {
        Some(outputs) => outputs,
        None => {
            return None;
        },
    };
    Some(AssetPacketGroup { asset_id, has_control_asset, metadata, inputs, outputs })
}

/// Reads an asset packet, which has to be all of the bytes: one to a thousand groups. Neither a
/// proper prefix of a packet nor a packet with anything behind it is one.
pub fn decode_asset_packet(bytes: &[u8]) -> (packet: Option<AssetPacket>)
    ensures
        packet matches Some(packet) ==> {
            &&& 1 <= packet@.len() <= 1_000
            &&& forall|more: Seq<u8>|
                more.len() > 0 ==> packet_of(#[trigger] (bytes@ + more)) is None
            &&& forall|n: int|
                0 <= n < bytes@.len() ==> packet_of(#[trigger] bytes@.take(n)) is None
        },
        match packet {
            Some(packet) => packet_of(bytes@) == Some(packet@),
            None => packet_of(bytes@) is None,
        },
{
    let mut cursor: usize = 0;
    let count: u64 = match read_uvarint(bytes, &mut cursor) {
        Some(count) => count,
        None => {
            return None;
        },
    };
    if count == 0 || count > 1_000 {
        return None;
    }
    let ghost start = cursor as int;
    let mut groups: Vec<AssetPacketGroup> = Vec::new();
    let mut i: u64 = 0;
    proof {
        assert(groups_view(groups@) =~= Seq::empty());
        if let Some((rest, end)) = groups_from(bytes@, start, count as nat) {
            assert(groups_view(groups@) + rest =~= rest);
        }
    }
    while i < count
        invariant
            i <= count,
            1 <= count <= 1_000,
            uvarint(bytes@, 0) == Some((count as nat, start)),
            match groups_from(bytes@, cursor as int, (count - i) as nat) {
                Some((rest, end)) => groups_from(bytes@, start, count as nat) == Some(
                    (groups_view(groups@) + rest, end),
                ),
                None => groups_from(bytes@, start, count as nat) is None,
            },
        decreases count - i,
    {
        let group: AssetPacketGroup = match read_group(bytes, &mut cursor) {
            Some(group) => group,
            None => {
                return None;
            },
        };
        let ghost was = groups_view(groups@);
        let ghost read = group@;
        groups.push(group);
        proof {
            assert(groups_view(groups@) =~= was.push(read));
            if let Some((rest, end)) = groups_from(bytes@, cursor as int, (count - i - 1) as nat) {
                assert(was + (seq![read] + rest) =~= was.push(read) + rest);
            }
        }
        i += 1;
    }
    proof {
        assert(groups_view(groups@) + Seq::<Group>::empty() =~= groups_view(groups@));
    }
    if cursor == bytes.len() {
        let packet: AssetPacket = AssetPacket { groups };
        proof {
            lemma_packet_ends(bytes@);
        }
        Some(packet)
    } else {
        None
    }
}

proof fn lemma_uvarint_extends(bytes: Seq<u8>, more: Seq<u8>, at: int, index: nat)
    requires
        uvarint_from(bytes, at, index) is Some,
    ensures
        uvarint_from(bytes + more, at, index) == uvarint_from(bytes, at, index),
        at < uvarint_from(bytes, at, index).unwrap().1 <= bytes.len(),
    decreases 10 - index,
{
    assert((bytes + more)[at] == bytes[at]);
    if bytes[at] >= 128 {
        lemma_uvarint_extends(bytes, more, at + 1, index + 1);
    }
}

proof fn lemma_string_extends(bytes: Seq<u8>, more: Seq<u8>, at: int)
    requires
        0 <= at,
        string_at(bytes, at) is Some,
    ensures
        string_at(bytes + more, at) == string_at(bytes, at),
        at <= string_at(bytes, at).unwrap().1 <= bytes.len(),
{
    lemma_uvarint_extends(bytes, more, at, 0);
    let (len, start) = uvarint(bytes, at).unwrap();
    assert((bytes + more).subrange(start, start + len) =~= bytes.subrange(start, start + len));
}

proof fn lemma_pairs_extend(bytes: Seq<u8>, more: Seq<u8>, at: int, count: nat)
    requires
        0 <= at <= bytes.len(),
        pairs_from(bytes, at, count) is Some,
    ensures
        pairs_from(bytes + more, at, count) == pairs_from(bytes, at, count),
        at <= pairs_from(bytes, at, count).unwrap().1 <= bytes.len(),
    decreases count,
{
    if count > 0 {
        lemma_string_extends(bytes, more, at);
        let mid = string_at(bytes, at).unwrap().1;
        lemma_string_extends(bytes, more, mid);
        let next = string_at(bytes, mid).unwrap().1;
        lemma_pairs_extend(bytes, more, next, (count - 1) as nat);
    }
}

proof fn lemma_assignments_extend(bytes: Seq<u8>, more: Seq<u8>, at: int, count: nat)
    requires
        0 <= at <= bytes.len(),
        assignments_from(bytes, at, count) is Some,
    ensures
        assignments_from(bytes + more, at, count) == assignments_from(bytes, at, count),
        at <= assignments_from(bytes, at, count).unwrap().1 <= bytes.len(),
    decreases count,
{
    if count > 0 {
        assert((bytes + more)[at] == bytes[at]);
        lemma_u16_extends(bytes, more, at + 1);
        lemma_uvarint_extends(bytes, more, at + 3, 0);
        let next = uvarint(bytes, at + 3).unwrap().1;
        lemma_assignments_extend(bytes, more, next, (count - 1) as nat);
    }
}

proof fn lemma_u16_extends(bytes: Seq<u8>, more: Seq<u8>, at: int)
    requires
        u16_at(bytes, at) is Some,
    ensures
        u16_at(bytes + more, at) == u16_at(bytes, at),
        u16_at(bytes, at).unwrap().1 == at + 2 <= bytes.len(),
{
    assert((bytes + more)[at] == bytes[at]);
    assert((bytes + more)[at + 1] == bytes[at + 1]);
}

proof fn lemma_asset_id_extends(bytes: Seq<u8>, more: Seq<u8>, at: int)
    requires
        asset_id_at(bytes, at) is Some,
    ensures
        asset_id_at(bytes + more, at) == asset_id_at(bytes, at),
        asset_id_at(bytes, at).unwrap().1 == at + 34 <= bytes.len(),
{
    lemma_u16_extends(bytes, more, at + 32);
    assert((bytes + more).subrange(at, at + 32) =~= bytes.subrange(at, at + 32));
}

proof fn lemma_control_asset_extends(bytes: Seq<u8>, more: Seq<u8>, at: int)
    requires
        control_asset_end(bytes, at) is Some,
    ensures
        control_asset_end(bytes + more, at) == control_asset_end(bytes, at),
        at <= control_asset_end(bytes, at).unwrap() <= bytes.len(),
{
    assert((bytes + more)[at] == bytes[at]);
    if bytes[at] == 1 {
        lemma_asset_id_extends(bytes, more, at + 1);
    } else {
        lemma_u16_extends(bytes, more, at + 1);
    }
}

proof fn lemma_listed_assignments_extend(bytes: Seq<u8>, more: Seq<u8>, at: int)
    requires
        0 <= at,
        assignments_at(bytes, at) is Some,
    ensures
        assignments_at(bytes + more, at) == assignments_at(bytes, at),
        at <= assignments_at(bytes, at).unwrap().1 <= bytes.len(),
{
    lemma_uvarint_extends(bytes, more, at, 0);
    let (count, start) = uvarint(bytes, at).unwrap();
    lemma_assignments_extend(bytes, more, start, count);
}

proof fn lemma_metadata_extends(bytes: Seq<u8>, more: Seq<u8>, at: int)
    requires
        0 <= at,
        metadata_at(bytes, at) is Some,
    ensures
        metadata_at(bytes + more, at) == metadata_at(bytes, at),
        at <= metadata_at(bytes, at).unwrap().1 <= bytes.len(),
{
    lemma_uvarint_extends(bytes, more, at, 0);
    let (count, start) = uvarint(bytes, at).unwrap();
    lemma_pairs_extend(bytes, more, start, count);
}

proof fn lemma_group_extends(bytes: Seq<u8>, more: Seq<u8>, at: int)
    requires
        0 <= at,
        group_at(bytes, at) is Some,
    ensures
        group_at(bytes + more, at) == group_at(bytes, at),
        at <= group_at(bytes, at).unwrap().1 <= bytes.len(),
{
    assert((bytes + more)[at] == bytes[at]);
    let after_id = if bytes[at] % 2 == 1 {
        lemma_asset_id_extends(bytes, more, at + 1);
        at + 35
    } else {
        at + 1
    };
    let after_control = if bytes[at] / 2 % 2 == 1 {
        lemma_control_asset_extends(bytes, more, after_id);
        control_asset_end(bytes, after_id).unwrap()
    } else {
        after_id
    };
    let after_pairs = if bytes[at] / 4 % 2 == 1 {
        lemma_metadata_extends(bytes, more, after_control);
        metadata_at(bytes, after_control).unwrap().1
    } else {
        after_control
    };
    lemma_listed_assignments_extend(bytes, more, after_pairs);
    let mid = assignments_at(bytes, after_pairs).unwrap().1;
    lemma_listed_assignments_extend(bytes, more, mid);
}

proof fn lemma_groups_extend(bytes: Seq<u8>, more: Seq<u8>, at: int, count: nat)
    requires
        0 <= at <= bytes.len(),
        groups_from(bytes, at, count) is Some,
    ensures
        groups_from(bytes + more, at, count) == groups_from(bytes, at, count),
        groups_from(bytes, at, count).unwrap().0.len() == count,
        at <= groups_from(bytes, at, count).unwrap().1 <= bytes.len(),
    decreases count,
{
    if count > 0 {
        lemma_group_extends(bytes, more, at);
        let next = group_at(bytes, at).unwrap().1;
        lemma_groups_extend(bytes, more, next, (count - 1) as nat);
    }
}

/// A packet is accepted only where it is consumed exactly: it has one to a thousand groups, and
/// with anything behind it, it is no packet.
pub proof fn law_packets_do_not_extend(bytes: Seq<u8>, more: Seq<u8>)
    requires
        packet_of(bytes) is Some,
        more.len() > 0,
    ensures
        1 <= packet_of(bytes).unwrap().len() <= 1_000,
        packet_of(bytes + more) is None,
{
    lemma_uvarint_extends(bytes, more, 0, 0);
    let (count, start) = uvarint(bytes, 0).unwrap();
    lemma_groups_extend(bytes, more, start, count);
}

/// No proper prefix of a packet is a packet.
#[verifier::spinoff_prover]
pub proof fn law_packet_prefixes_are_refused(bytes: Seq<u8>, n: int)
    requires
        packet_of(bytes) is Some,
        0 <= n < bytes.len(),
    ensures
        packet_of(bytes.take(n)) is None,
{
    let (short, rest) = (bytes.take(n), bytes.skip(n));
    assert(short + rest =~= bytes);
    if packet_of(short) is Some {
        law_packets_do_not_extend(short, rest);
    }
}

proof fn lemma_packet_ends(bytes: Seq<u8>)
    requires
        packet_of(bytes) is Some,
    ensures
        1 <= packet_of(bytes).unwrap().len() <= 1_000,
        forall|more: Seq<u8>| more.len() > 0 ==> packet_of(#[trigger] (bytes + more)) is None,
        forall|n: int| 0 <= n < bytes.len() ==> packet_of(#[trigger] bytes.take(n)) is None,
{
    law_packets_do_not_extend(bytes, seq![0u8]);
    assert forall|more: Seq<u8>| more.len() > 0 implies packet_of(
        #[trigger] (bytes + more),
    ) is None by {
        law_packets_do_not_extend(bytes, more);
    }
    assert forall|n: int| 0 <= n < bytes.len() implies packet_of(#[trigger] bytes.take(n)) is None by {
        law_packet_prefixes_are_refused(bytes, n);
    }
}

/// The data that an output carries outside extensions: a worthless output that returns bytes
/// without the extension marker.
pub open spec fn payload_of(output: Output) -> Option<Seq<u8>> {
    match script::returned_data(script::script_items(output.script)) {
        Some(data) if output.value == 0 && !script::has_extension_magic(data) => Some(data),
        _ => None,
    }
}

/// The data of all outputs, in their order.
pub open spec fn payloads_of(outputs: Seq<Output>) -> Seq<Seq<u8>> {
    outputs.filter_map(|o: Output| payload_of(o))
}

pub open spec fn bytes_view(list: Seq<Vec<u8>>) -> Seq<Seq<u8>> {
    list.map_values(|b: Vec<u8>| b@)
}

fn output_payload(output: &TxOut) -> (payload: Option<Vec<u8>>)
    ensures
        match payload {
            Some(payload) => payload_of(output@) == Some(payload@),
            None => payload_of(output@) is None,
        },
{
    let items: Vec<ScriptItem> = script::read_script(&output.script_pubkey);
    let ghost steps = script::items_view(items@);
    if output.value != 0 || items.len() < 2 {
        return None;
    }
    assert(steps[0] == items@[0]@ && steps[1] == items@[1]@);
    match &items[0] {
        ScriptItem::Op(op) => if *op != script::OP_RETURN {
            return None;
        },
        _ => {
            return None;
        },
    }
    match &items[1] {
        ScriptItem::Push(data) => if data.len() >= 3 && data[0] == 0x41 && data[1] == 0x52
            && data[2] == 0x4b {
            None
        } else {
            Some(chain::copy_bytes(data))
        },
        _ => None,
    }
}

/// Extract non-extension OP_RETURN payloads from a virtual transaction.
pub fn payloads_from_tx(tx: &Transaction) -> (payloads: Vec<Vec<u8>>)
    ensures
        bytes_view(payloads@) == payloads_of(tx@.output),
{
    let mut payloads: Vec<Vec<u8>> = Vec::new();
    let ghost outputs = tx@.output;
    let ghost f = |o: Output| payload_of(o);
    let mut i: usize = 0;
    proof {
        assert(outputs.take(0) =~= Seq::empty());
        assert(outputs.take(0).filter_map(f) =~= Seq::<Seq<u8>>::empty());
        assert(bytes_view(payloads@) =~= Seq::<Seq<u8>>::empty());
    }
    while i < tx.output.len()
        invariant
            i <= tx.output@.len(),
            outputs == tx@.output,
            outputs.len() == tx.output@.len(),
            f == (|o: Output| payload_of(o)),
            bytes_view(payloads@) == outputs.take(i as int).filter_map(f),
        decreases tx.output@.len() - i,
    {
        proof {
            outputs.lemma_filter_map_take_succ(f, i as int);
            assert(outputs[i as int] == tx.output@[i as int]@);
        }
        let ghost was = payloads@;
        match output_payload(&tx.output[i]) {
            Some(payload) => {
                let ghost data = payload@;
                payloads.push(payload);
                assert(bytes_view(payloads@) =~= bytes_view(was) + seq![data]);
            },
            None => {
                assert(bytes_view(was) + Seq::<Seq<u8>>::empty() =~= bytes_view(was));
            },
        }
        i += 1;
    }
    assert(outputs.take(outputs.len() as int) =~= outputs);
    payloads
}

/// Every receipt among the data of the outputs.
pub open spec fn receipts_of(outputs: Seq<Output>) -> Seq<MoveReceipt> {
    payloads_of(outputs).filter_map(|data: Seq<u8>| MoveReceipt::of_bytes(data))
}

/// The receipt of a transaction that carries exactly one.
pub open spec fn receipt_of(outputs: Seq<Output>) -> Option<MoveReceipt> {
    if receipts_of(outputs).len() == 1 {
        Some(receipts_of(outputs)[0])
    } else {
        None
    }
}

pub fn receipt_from_tx(tx: &Transaction) -> (receipt: Option<MoveReceipt>)
    ensures
        receipt == receipt_of(tx@.output),
{
    let payloads: Vec<Vec<u8>> = payloads_from_tx(tx);
    let ghost all = payloads_of(tx@.output);
    let ghost f = |data: Seq<u8>| MoveReceipt::of_bytes(data);
    let mut receipts: Vec<MoveReceipt> = Vec::new();
    let mut i: usize = 0;
    proof {
        assert(all.take(0) =~= Seq::empty());
        assert(all.take(0).filter_map(f) =~= Seq::<MoveReceipt>::empty());
    }
    while i < payloads.len()
        invariant
            i <= payloads@.len(),
            all == bytes_view(payloads@),
            f == (|data: Seq<u8>| MoveReceipt::of_bytes(data)),
            receipts@ == all.take(i as int).filter_map(f),
        decreases payloads@.len() - i,
    {
        proof {
            all.lemma_filter_map_take_succ(f, i as int);
            assert(all[i as int] == payloads@[i as int]@);
        }
        let ghost was = receipts@;
        match MoveReceipt::decode(&payloads[i]) {
            Some(receipt) => {
                receipts.push(receipt);
                assert(receipts@ =~= was + seq![receipt]);
            },
            None => {
                assert(was + Seq::<MoveReceipt>::empty() =~= was);
            },
        }
        i += 1;
    }
    assert(all.take(all.len() as int) =~= all);
    if receipts.len() == 1 {
        Some(receipts[0])
    } else {
        None
    }
}

/// The asset packets among the packets of an extension: those of type zero.
pub open spec fn asset_payloads(packets: Seq<(u8, Seq<u8>)>) -> Seq<Seq<u8>> {
    packets.filter_map(
        |p: (u8, Seq<u8>)|
            if p.0 == 0 {
                Some(p.1)
            } else {
                None
            },
    )
}

/// The asset packets of all extension outputs, in order; nothing where an extension cannot be
/// read.
pub open spec fn asset_payloads_of(outputs: Seq<Output>) -> Option<Seq<Seq<u8>>>
    decreases outputs.len(),
{
    if outputs.len() == 0 {
        Some(Seq::empty())
    } else {
        match (
            asset_payloads_of(outputs.drop_last()),
            script::extension_data(script::script_items(outputs.last().script)),
        ) {
            (Some(found), Some(data)) => match script::extension_packets(data, usize::BITS) {
                Some(packets) => Some(found + asset_payloads(packets)),
                None => None,
            },
            (Some(found), None) => Some(found),
            (None, _) => None,
        }
    }
}

/// The groups of the asset packet of a transaction that carries exactly one.
pub open spec fn asset_packet_of(outputs: Seq<Output>) -> Option<Seq<Group>> {
    match asset_payloads_of(outputs) {
        Some(found) if found.len() == 1 => packet_of(found[0]),
        _ => None,
    }
}

proof fn lemma_asset_payloads_take(outputs: Seq<Output>, n: int)
    requires
        0 <= n <= outputs.len(),
        asset_payloads_of(outputs.take(n)) is None,
    ensures
        asset_payloads_of(outputs) is None,
    decreases outputs.len() - n,
{
    if n < outputs.len() {
        assert(outputs.take(n + 1).drop_last() =~= outputs.take(n));
        lemma_asset_payloads_take(outputs, n + 1);
    } else {
        assert(outputs.take(n) =~= outputs);
    }
}

pub fn asset_packet_from_tx(tx: &Transaction) -> (packet: Option<AssetPacket>)
    ensures
        match packet {
            Some(packet) => asset_packet_of(tx@.output) == Some(packet@),
            None => asset_packet_of(tx@.output) is None,
        },
{
    let ghost outputs = tx@.output;
    let mut found: Vec<Vec<u8>> = Vec::new();
    let mut i: usize = 0;
    proof {
        assert(outputs.take(0) =~= Seq::empty());
        assert(bytes_view(found@) =~= Seq::<Seq<u8>>::empty());
    }
    while i < tx.output.len()
        invariant
            i <= tx.output@.len(),
            outputs == tx@.output,
            outputs.len() == tx.output@.len(),
            asset_payloads_of(outputs.take(i as int)) == Some(bytes_view(found@)),
        decreases tx.output@.len() - i,
    {
        proof {
            assert(outputs.take(i + 1).drop_last() =~= outputs.take(i as int));
            assert(outputs.take(i + 1).last() == tx.output@[i as int]@);
        }
        let ghost was = bytes_view(found@);
        if let Some(payload) = script::extension_payload(&tx.output[i].script_pubkey) {
            let packets: Vec<(u8, Vec<u8>)> = match script::read_packets(&payload) {
                Some(packets) => packets,
                None => {
                    proof {
                        lemma_asset_payloads_take(outputs, i + 1);
                    }
                    return None;
                },
            };
            let ghost all = script::packets_view(packets@);
            let ghost f = |p: (u8, Seq<u8>)|
                if p.0 == 0 {
                    Some(p.1)
                } else {
                    None
                };
            let mut j: usize = 0;
            proof {
                assert(all.take(0) =~= Seq::empty());
                assert(all.take(0).filter_map(f) =~= Seq::<Seq<u8>>::empty());
                assert(was + Seq::<Seq<u8>>::empty() =~= was);
            }
            while j < packets.len()
                invariant
                    j <= packets@.len(),
                    all == script::packets_view(packets@),
                    f == (|p: (u8, Seq<u8>)|
                        if p.0 == 0 {
                            Some(p.1)
                        } else {
                            None
                        }),
                    bytes_view(found@) == was + all.take(j as int).filter_map(f),
                decreases packets@.len() - j,
            {
                proof {
                    all.lemma_filter_map_take_succ(f, j as int);
                    assert(all[j as int] == (packets@[j as int].0, packets@[j as int].1@));
                }
                let ghost so_far = found@;
                if packets[j].0 == 0 {
                    found.push(chain::copy_bytes(&packets[j].1));
                    proof {
                        assert(bytes_view(found@) =~= bytes_view(so_far).push(
                            packets@[j as int].1@,
                        ));
                        assert(bytes_view(found@) =~= was + all.take(j + 1).filter_map(f));
                    }
                } else {
                    assert(all.take(j + 1).filter_map(f) =~= all.take(j as int).filter_map(f));
                }
                j += 1;
            }
            proof {
                assert(all.take(all.len() as int) =~= all);
                assert(all.filter_map(f) == asset_payloads(all));
            }
        }
        i += 1;
    }
    assert(outputs.take(outputs.len() as int) =~= outputs);
    if found.len() == 1 {
        assert(bytes_view(found@)[0] == found@[0]@);
        decode_asset_packet(&found[0])
    } else {
        None
    }
}

/// The metadata that every move asset of a group carries: the game and the direction.
pub open spec fn move_metadata(group_index: int) -> Seq<(Seq<char>, Seq<char>)> {
    seq![("game"@, GAME_ID@), ("move"@, DIRECTIONS[group_index]@)]
}

/// The direction of an asset with this metadata in this group of its issuance.
pub open spec fn direction_of(metadata: Seq<(Seq<char>, Seq<char>)>, group_index: u16) -> Option<
    u8,
> {
    if group_index < 4 && metadata == move_metadata(group_index as int) {
        Some(group_index as u8)
    } else {
        None
    }
}

fn direction_from_pairs(metadata: &[(String, String)], group_index: u16) -> (direction: Option<u8>)
    ensures
        direction == direction_of(pairs_view(metadata@), group_index),
{
    let ghost pairs = pairs_view(metadata@);
    assert(move_metadata(group_index as int).len() == 2);
    if group_index >= 4 || metadata.len() != 2 {
        return None;
    }
    proof {
        assert(pairs[0] == (metadata@[0].0@, metadata@[0].1@));
        assert(pairs[1] == (metadata@[1].0@, metadata@[1].1@));
    }
    let expected: &str = DIRECTIONS[group_index as usize];
    if text::same_text(metadata[0].0.as_str(), "game") && text::same_text(
        metadata[0].1.as_str(),
        GAME_ID,
    ) && text::same_text(metadata[1].0.as_str(), "move") && text::same_text(
        metadata[1].1.as_str(),
        expected,
    ) {
        assert(pairs =~= move_metadata(group_index as int));
        Some(group_index as u8)
    } else {
        None
    }
}

/// One group of a canonical issuance: it creates the whole supply of the direction in the
/// player's output, and nothing can ever add to it.
pub open spec fn issues_direction(group: Group, index: int) -> bool {
    &&& group.asset_id is None
    &&& !group.has_control_asset
    &&& group.inputs.len() == 0
    &&& group.outputs == seq![
        AssetAssignment { index: PLAYER_ASSET_OUTPUT_INDEX, amount: MOVE_SUPPLY },
    ]
    &&& group.metadata == Some(move_metadata(index))
}

/// A canonical issuance: one group for each direction, in order.
pub open spec fn issues_moves(outputs: Seq<Output>) -> bool {
    match asset_packet_of(outputs) {
        Some(groups) => groups.len() == 4 && forall|i: int|
            0 <= i < 4 ==> issues_direction(#[trigger] groups[i], i),
        None => false,
    }
}

fn is_valid_move_issuance(tx: &Transaction) -> (valid: bool)
    ensures
        valid == issues_moves(tx@.output),
{
    let packet: AssetPacket = match asset_packet_from_tx(tx) {
        Some(packet) => packet,
        None => {
            return false;
        },
    };
    let ghost groups = packet@;
    if packet.groups.len() != DIRECTIONS.len() {
        return false;
    }
    let mut index: usize = 0;
    while index < 4
        invariant
            index <= 4,
            groups == packet@,
            groups.len() == 4,
            packet.groups@.len() == 4,
            asset_packet_of(tx@.output) == Some(groups),
            forall|i: int| 0 <= i < index ==> issues_direction(#[trigger] groups[i], i),
        decreases 4 - index,
    {
        let group: &AssetPacketGroup = &packet.groups[index];
        assert(groups[index as int] == group@);
        let canonical: bool = group.asset_id.is_none() && !group.has_control_asset
            && group.inputs.len() == 0 && group.outputs.len() == 1 && group.outputs[0].index
            == PLAYER_ASSET_OUTPUT_INDEX && group.outputs[0].amount == MOVE_SUPPLY
            && match &group.metadata {
            Some(metadata) => direction_from_pairs(metadata, index as u16) == Some(index as u8),
            None => false,
        };
        if !canonical {
            proof {
                if issues_direction(groups[index as int], index as int) {
                    assert(group.outputs@[0] == AssetAssignment {
                        index: PLAYER_ASSET_OUTPUT_INDEX,
                        amount: MOVE_SUPPLY,
                    });
                }
            }
            return false;
        }
        proof {
            assert(group.outputs@ =~= seq![
                AssetAssignment { index: PLAYER_ASSET_OUTPUT_INDEX, amount: MOVE_SUPPLY },
            ]);
        }
        index += 1;
    }
    true
}

/// The script that carries the assets of a player that registers itself: a canonical issuance
/// without other data, whose first output alone pays dust to the game script, and whose second
/// pays dust to a taproot script of the player.
pub open spec fn registered_script(
    outputs: Seq<Output>,
    game_script_hex: Seq<char>,
    dust_sats: u64,
) -> Option<Seq<char>> {
    if payloads_of(outputs).len() == 0 && issues_moves(outputs) && outputs.len() >= 2
        && text::hex_text(outputs[0].script) == game_script_hex && outputs[0].value == dust_sats
        && (forall|i: int|
        1 <= i < outputs.len() ==> text::hex_text(#[trigger] outputs[i].script)
            != game_script_hex) && outputs[1].value == dust_sats && script::is_taproot(
        outputs[1].script,
    ) {
        Some(text::hex_text(outputs[1].script))
    } else {
        None
    }
}

/// Validate a canonical issuance that permanently registers itself at the game script, and return
/// the script carrying the new player's assets.
pub fn registration_player_script(
    tx: &Transaction,
    game_script_hex: &str,
    dust_sats: u64,
) -> (script_hex: Option<String>)
    ensures
        match script_hex {
            Some(script_hex) => registered_script(tx@.output, game_script_hex@, dust_sats) == Some(
                script_hex@,
            ),
            None => registered_script(tx@.output, game_script_hex@, dust_sats) is None,
        },
{
    let ghost outputs = tx@.output;
    let payloads: Vec<Vec<u8>> = payloads_from_tx(tx);
    if payloads.len() != 0 || !is_valid_move_issuance(tx) || tx.output.len() < 2 {
        return None;
    }
    assert(payloads_of(outputs) =~= Seq::empty());
    assert(outputs[0] == tx.output@[0]@ && outputs[1] == tx.output@[1]@);
    let first: String = script::script_hex(&tx.output[0].script_pubkey);
    if !text::same_text(first.as_str(), game_script_hex) || tx.output[0].value != dust_sats {
        return None;
    }
    let mut i: usize = 1;
    while i < tx.output.len()
        invariant
            1 <= i <= tx.output@.len(),
            outputs == tx@.output,
            forall|k: int|
                1 <= k < i ==> text::hex_text(#[trigger] outputs[k].script) != game_script_hex@,
        decreases tx.output@.len() - i,
    {
        let hex: String = script::script_hex(&tx.output[i].script_pubkey);
        assert(outputs[i as int] == tx.output@[i as int]@);
        if text::same_text(hex.as_str(), game_script_hex) {
            assert(text::hex_text(outputs[i as int].script) == game_script_hex@);
            assert(outputs.len() == tx.output@.len());
            return None;
        }
        i += 1;
    }
    if tx.output[1].value != dust_sats || !script::is_p2tr(&tx.output[1].script_pubkey) {
        return None;
    }
    Some(script::script_hex(&tx.output[1].script_pubkey))
}

/// Validate the metadata and canonical group index of a move asset.
pub fn direction_from_metadata(raw: &str, group_index: u16) -> (direction: Option<u8>)
    ensures
        direction == match metadata_of(raw@) {
            Some(metadata) => direction_of(metadata, group_index),
            None => None,
        },
{
    match decode_asset_metadata(raw) {
        Some(metadata) => direction_from_pairs(&metadata, group_index),
        None => None,
    }
}

/// A one-unit burn of a player's move asset.
#[derive(Debug)]
pub struct MoveBurn {
    pub receipt: MoveReceipt,
    pub asset_id: AssetId,
    pub preserved_output_indexes: Vec<u16>,
}

/// What a `MoveBurn` says.
#[verifier::ext_equal]
pub struct Burn {
    pub receipt: MoveReceipt,
    pub asset_id: AssetId,
    pub preserved_output_indexes: Seq<u16>,
}

impl View for MoveBurn {
    type V = Burn;

    open spec fn view(&self) -> Burn {
        Burn {
            receipt: self.receipt,
            asset_id: self.asset_id,
            preserved_output_indexes: self.preserved_output_indexes@,
        }
    }
}

/// The sum of the amounts.
pub open spec fn total(assignments: Seq<AssetAssignment>) -> nat
    decreases assignments.len(),
{
    if assignments.len() == 0 {
        0
    } else {
        total(assignments.drop_last()) + assignments.last().amount as nat
    }
}

/// A group that moves units of an existing move asset and destroys at most one: its amounts are
/// positive and its outputs exist.
pub open spec fn moves_units(group: Group, output_count: nat) -> bool {
    &&& group.asset_id is Some
    &&& group.asset_id.unwrap().group_index < 4
    &&& !group.has_control_asset
    &&& group.metadata is None
    &&& group.inputs.len() > 0
    &&& forall|i: int| 0 <= i < group.inputs.len() ==> #[trigger] group.inputs[i].amount > 0
    &&& forall|i: int| 0 <= i < group.outputs.len() ==> #[trigger] group.outputs[i].amount > 0
    &&& forall|i: int|
        0 <= i < group.outputs.len() ==> (#[trigger] group.outputs[i]).index < output_count
    &&& total(group.inputs) <= u64::MAX
    &&& total(group.outputs) <= total(group.inputs) <= total(group.outputs) + 1
}

/// A group that destroys exactly one unit.
pub open spec fn burns_unit(group: Group) -> bool {
    total(group.inputs) == total(group.outputs) + 1
}

/// All groups move units of different assets of one player, and exactly one of them burns a unit.
pub open spec fn burns_one_unit(groups: Seq<Group>, output_count: nat) -> bool {
    &&& forall|i: int| 0 <= i < groups.len() ==> moves_units(#[trigger] groups[i], output_count)
    &&& forall|i: int, j: int|
        0 <= i < j < groups.len() ==> {
            let a = (#[trigger] groups[i]).asset_id.unwrap();
            let b = (#[trigger] groups[j]).asset_id.unwrap();
            a.txid == b.txid && a.group_index != b.group_index
        }
    &&& exists|k: int| 0 <= k < groups.len() && burns_unit(#[trigger] groups[k])
    &&& forall|i: int, j: int|
        0 <= i < j < groups.len() ==> !(burns_unit(#[trigger] groups[i]) && burns_unit(
            #[trigger] groups[j],
        ))
}

/// Indexes in the order in which they first occur.
pub open spec fn with_indexes(known: Seq<u16>, outputs: Seq<AssetAssignment>) -> Seq<u16>
    decreases outputs.len(),
{
    if outputs.len() == 0 {
        known
    } else {
        let before = with_indexes(known, outputs.drop_last());
        let index = outputs.last().index;
        if before.contains(index) {
            before
        } else {
            before.push(index)
        }
    }
}

/// The outputs that receive units in any of the groups, in the order in which they first occur.
pub open spec fn preserved_indexes(groups: Seq<Group>) -> Seq<u16>
    decreases groups.len(),
{
    if groups.len() == 0 {
        Seq::empty()
    } else {
        with_indexes(preserved_indexes(groups.drop_last()), groups.last().outputs)
    }
}

/// The asset of which a unit is burned.
pub open spec fn burned_asset(groups: Seq<Group>) -> AssetId {
    groups[choose|k: int| 0 <= k < groups.len() && burns_unit(#[trigger] groups[k])].asset_id.unwrap()
}

/// The burn that a transaction makes: it carries one receipt and one asset packet, and burns one
/// unit.
pub open spec fn burn_of(outputs: Seq<Output>) -> Option<Burn> {
    match (receipt_of(outputs), asset_packet_of(outputs)) {
        (Some(receipt), Some(groups)) if burns_one_unit(groups, outputs.len()) => Some(
            Burn {
                receipt,
                asset_id: burned_asset(groups),
                preserved_output_indexes: preserved_indexes(groups),
            },
        ),
        _ => None,
    }
}

proof fn lemma_total_grows(assignments: Seq<AssetAssignment>, n: int)
    requires
        0 <= n <= assignments.len(),
    ensures
        total(assignments.take(n)) <= total(assignments),
    decreases assignments.len() - n,
{
    if n < assignments.len() {
        assert(assignments.take(n + 1).drop_last() =~= assignments.take(n));
        lemma_total_grows(assignments, n + 1);
    } else {
        assert(assignments.take(n) =~= assignments);
    }
}

/// The sum of positive amounts, where each is positive and the sum fits.
fn positive_total(assignments: &[AssetAssignment]) -> (sum: Option<u64>)
    ensures
        match sum {
            Some(sum) => sum == total(assignments@) && forall|i: int|
                0 <= i < assignments@.len() ==> #[trigger] assignments@[i].amount > 0,
            None => total(assignments@) > u64::MAX || exists|i: int|
                0 <= i < assignments@.len() && #[trigger] assignments@[i].amount == 0,
        },
{
    let mut sum: u64 = 0;
    let mut i: usize = 0;
    while i < assignments.len()
        invariant
            i <= assignments@.len(),
            sum == total(assignments@.take(i as int)),
            forall|k: int| 0 <= k < i ==> #[trigger] assignments@[k].amount > 0,
        decreases assignments@.len() - i,
    {
        let amount: u64 = assignments[i].amount;
        proof {
            assert(assignments@.take(i + 1).drop_last() =~= assignments@.take(i as int));
            lemma_total_grows(assignments@, i + 1);
        }
        if amount == 0 || amount > u64::MAX - sum {
            return None;
        }
        sum += amount;
        i += 1;
    }
    assert(assignments@.take(assignments@.len() as int) =~= assignments@);
    Some(sum)
}

/// Whether a group moves units, and whether it burns one.
fn checked_group(group: &AssetPacketGroup, output_count: usize) -> (burns: Option<bool>)
    ensures
        match burns {
            Some(burns) => moves_units(group@, output_count as nat) && burns == burns_unit(group@),
            None => !moves_units(group@, output_count as nat),
        },
{
    let in_range: bool = match group.asset_id {
        Some(id) => id.group_index < 4,
        None => false,
    };
    if !in_range || group.has_control_asset || group.metadata.is_some() || group.inputs.len()
        == 0 {
        return None;
    }
    let input_amount: u64 = match positive_total(&group.inputs) {
        Some(sum) => sum,
        None => {
            return None;
        },
    };
    let output_amount: u64 = match positive_total(&group.outputs) {
        Some(sum) => sum,
        None => {
            return None;
        },
    };
    if output_amount > input_amount || input_amount - output_amount > 1 {
        return None;
    }
    let mut i: usize = 0;
    while i < group.outputs.len()
        invariant
            i <= group.outputs@.len(),
            forall|k: int|
                0 <= k < i ==> (#[trigger] group.outputs@[k]).index < output_count,
        decreases group.outputs@.len() - i,
    {
        if group.outputs[i].index as usize >= output_count {
            assert(!moves_units(group@, output_count as nat)) by {
                assert(group@.outputs[i as int].index >= output_count);
            }
            return None;
        }
        i += 1;
    }
    Some(input_amount != output_amount)
}

fn add_indexes(known: &mut Vec<u16>, outputs: &[AssetAssignment])
    ensures
        final(known)@ == with_indexes(old(known)@, outputs@),
{
    let mut i: usize = 0;
    assert(outputs@.take(0) =~= Seq::empty());
    while i < outputs.len()
        invariant
            i <= outputs@.len(),
            known@ == with_indexes(old(known)@, outputs@.take(i as int)),
        decreases outputs@.len() - i,
    {
        let index: u16 = outputs[i].index;
        assert(outputs@.take(i + 1).drop_last() =~= outputs@.take(i as int));
        let mut found: bool = false;
        let mut j: usize = 0;
        while j < known.len()
            invariant
                j <= known@.len(),
                found ==> known@.contains(index),
                !found ==> forall|k: int| 0 <= k < j ==> known@[k] != index,
            decreases known@.len() - j,
        {
            if known[j] == index {
                found = true;
            }
            j += 1;
        }
        if !found {
            known.push(index);
        }
        i += 1;
    }
    assert(outputs@.take(outputs@.len() as int) =~= outputs@);
}

/// Parse a native one-unit move-asset burn. Destination-script checks happen after lookup of the
/// registered player script.
pub fn move_burn_from_tx(tx: &Transaction) -> (burn: Option<MoveBurn>)
    ensures
        match burn {
            Some(burn) => burn_of(tx@.output) == Some(burn@),
            None => burn_of(tx@.output) is None,
        },
{
    let receipt: MoveReceipt = match receipt_from_tx(tx) {
        Some(receipt) => receipt,
        None => {
            return None;
        },
    };
    let packet: AssetPacket = match asset_packet_from_tx(tx) {
        Some(packet) => packet,
        None => {
            return None;
        },
    };
    let ghost groups = packet@;
    let ghost n = tx@.output.len();
    let mut burned: Option<AssetId> = None;
    let ghost mut burner: int = 0;
    let mut preserved_output_indexes: Vec<u16> = Vec::new();
    let mut i: usize = 0;
    assert(groups.take(0) =~= Seq::empty());
    while i < packet.groups.len()
        invariant
            i <= packet.groups@.len(),
            groups == packet@,
            n == tx@.output.len() == tx.output@.len(),
            receipt_of(tx@.output) == Some(receipt),
            asset_packet_of(tx@.output) == Some(groups),
            preserved_output_indexes@ == preserved_indexes(groups.take(i as int)),
            forall|k: int| 0 <= k < i ==> moves_units(#[trigger] groups[k], n),
            forall|k: int, m: int|
                0 <= k < m < i ==> {
                    let a = (#[trigger] groups[k]).asset_id.unwrap();
                    let b = (#[trigger] groups[m]).asset_id.unwrap();
                    a.txid == b.txid && a.group_index != b.group_index
                },
            match burned {
                Some(id) => 0 <= burner < i && burns_unit(groups[burner])
                    && groups[burner].asset_id == Some(id) && forall|k: int|
                    0 <= k < i && k != burner ==> !burns_unit(#[trigger] groups[k]),
                None => forall|k: int| 0 <= k < i ==> !burns_unit(#[trigger] groups[k]),
            },
        decreases packet.groups@.len() - i,
    {
        let group: &AssetPacketGroup = &packet.groups[i];
        assert(groups[i as int] == group@);
        let burns: bool = match checked_group(group, tx.output.len()) {
            Some(burns) => burns,
            None => {
                return None;
            },
        };
        let asset_id: AssetId = match group.asset_id {
            Some(asset_id) => asset_id,
            None => {
                return None;
            },
        };
        let mut j: usize = 0;
        while j < i
            invariant
                j <= i < packet.groups@.len(),
                groups == packet@,
                groups[i as int].asset_id == Some(asset_id),
                asset_packet_of(tx@.output) == Some(groups),
                n == tx@.output.len(),
                forall|k: int| 0 <= k < i ==> moves_units(#[trigger] groups[k], n),
                forall|k: int|
                    0 <= k < j ==> {
                        let a = (#[trigger] groups[k]).asset_id.unwrap();
                        a.txid == asset_id.txid && a.group_index != asset_id.group_index
                    },
            decreases i - j,
        {
            assert(groups[j as int] == packet.groups@[j as int]@);
            match packet.groups[j].asset_id {
                Some(other) => if other.txid != asset_id.txid || other.group_index
                    == asset_id.group_index {
                    assert(!burns_one_unit(groups, n)) by {
                        assert(groups[j as int].asset_id.unwrap() == other);
                        assert(groups[i as int].asset_id.unwrap() == asset_id);
                    }
                    return None;
                },
                None => {
                    return None;
                },
            }
            j += 1;
        }
        if burns {
            if burned.is_some() {
                assert(!burns_one_unit(groups, n)) by {
                    assert(burns_unit(groups[burner]) && burns_unit(groups[i as int]));
                }
                return None;
            }
            burned = Some(asset_id);
            proof {
                burner = i as int;
            }
        }
        assert(groups.take(i + 1).drop_last() =~= groups.take(i as int));
        add_indexes(&mut preserved_output_indexes, &group.outputs);
        i += 1;
    }
    assert(groups.take(groups.len() as int) =~= groups);
    match burned {
        Some(asset_id) => {
            assert(burns_unit(groups[burner]));
            Some(MoveBurn { receipt, asset_id, preserved_output_indexes })
        },
        None => None,
    }
}

/// One move of a player.
#[derive(Clone, Copy, Debug)]
pub struct MoveEvent {
    pub txid: Txid,
    pub player: Txid,
    pub sequence: u32,
    pub direction: u8,
}

/// Order of a player's moves: by sequence number, then by transaction id.
pub open spec fn move_less(a: MoveEvent, b: MoveEvent) -> bool {
    a.sequence < b.sequence || a.sequence == b.sequence && a.txid.before(b.txid)
}

/// A sorted sequence with one move more, placed behind those it does not precede.
pub open spec fn insert_move(sorted: Seq<MoveEvent>, event: MoveEvent) -> Seq<MoveEvent>
    decreases sorted.len(),
{
    if sorted.len() > 0 && move_less(event, sorted.last()) {
        insert_move(sorted.drop_last(), event).push(sorted.last())
    } else {
        sorted.push(event)
    }
}

/// The moves of a player in order; equal ones stay as given.
pub open spec fn moves_in_order(events: Seq<MoveEvent>, player: Txid) -> Seq<MoveEvent>
    decreases events.len(),
{
    if events.len() == 0 {
        Seq::empty()
    } else if events.last().player == player {
        insert_move(moves_in_order(events.drop_last(), player), events.last())
    } else {
        moves_in_order(events.drop_last(), player)
    }
}

/// The directions of ordered moves as long as each sequence number follows the one before; of
/// moves with the same number the first counts. The number after the highest one is itself.
pub open spec fn stream_from(sorted: Seq<MoveEvent>, expected: u32) -> Seq<u8>
    decreases sorted.len(),
{
    if sorted.len() == 0 || sorted[0].sequence > expected {
        Seq::empty()
    } else if sorted[0].sequence < expected {
        stream_from(sorted.drop_first(), expected)
    } else {
        let next = if expected < u32::MAX {
            (expected + 1) as u32
        } else {
            expected
        };
        seq![sorted[0].direction] + stream_from(sorted.drop_first(), next)
    }
}

/// The canonical moves of a player.
pub open spec fn canonical_stream(events: Seq<MoveEvent>, player: Txid) -> Seq<u8> {
    stream_from(moves_in_order(events, player), 0)
}

/// Whether a player has any move.
pub open spec fn has_moves(events: Seq<MoveEvent>, player: Txid) -> bool {
    exists|i: int| 0 <= i < events.len() && (#[trigger] events[i]).player == player
}

fn move_precedes(a: &MoveEvent, b: &MoveEvent) -> (result: bool)
    ensures
        result == move_less(*a, *b),
{
    a.sequence < b.sequence || a.sequence == b.sequence && a.txid.precedes(&b.txid)
}

proof fn lemma_insert_move_split(sorted: Seq<MoveEvent>, event: MoveEvent, n: int)
    requires
        0 <= n <= sorted.len(),
        forall|k: int| n <= k < sorted.len() ==> move_less(event, #[trigger] sorted[k]),
    ensures
        insert_move(sorted, event) == insert_move(sorted.take(n), event) + sorted.skip(n),
    decreases sorted.len() - n,
{
    if n == sorted.len() {
        assert(sorted.take(n) =~= sorted);
        assert(insert_move(sorted, event) + sorted.skip(n) =~= insert_move(sorted, event));
    } else {
        let shorter = sorted.drop_last();
        assert(move_less(event, sorted[sorted.len() - 1]));
        assert forall|k: int| n <= k < shorter.len() implies move_less(
            event,
            #[trigger] shorter[k],
        ) by {
            assert(shorter[k] == sorted[k]);
        }
        lemma_insert_move_split(shorter, event, n);
        assert(shorter.take(n) =~= sorted.take(n));
        assert(shorter.skip(n).push(sorted.last()) =~= sorted.skip(n));
        assert(insert_move(sorted, event) =~= insert_move(sorted.take(n), event) + sorted.skip(n));
    }
}

fn insert_in_move_order(sorted: &mut Vec<MoveEvent>, event: MoveEvent)
    ensures
        final(sorted)@ == insert_move(old(sorted)@, event),
{
    let mut i: usize = sorted.len();
    while i > 0 && move_precedes(&event, &sorted[i - 1])
        invariant
            i <= sorted@.len(),
            sorted@ == old(sorted)@,
            forall|k: int| i <= k < sorted@.len() ==> move_less(event, #[trigger] sorted@[k]),
        decreases i,
    {
        i -= 1;
    }
    proof {
        lemma_insert_move_split(sorted@, event, i as int);
        let head = sorted@.take(i as int);
        if i > 0 {
            assert(head.last() == sorted@[i - 1]);
        }
        assert(sorted@.insert(i as int, event) =~= head.push(event) + sorted@.skip(i as int));
    }
    sorted.insert(i, event);
}

fn player_stream(events: &[MoveEvent], player: Txid) -> (directions: Vec<u8>)
    ensures
        directions@ == canonical_stream(events@, player),
{
    let mut sorted: Vec<MoveEvent> = Vec::new();
    let mut i: usize = 0;
    assert(events@.take(0) =~= Seq::empty());
    while i < events.len()
        invariant
            i <= events@.len(),
            sorted@ == moves_in_order(events@.take(i as int), player),
        decreases events@.len() - i,
    {
        assert(events@.take(i + 1).drop_last() =~= events@.take(i as int));
        if events[i].player == player {
            insert_in_move_order(&mut sorted, events[i]);
        }
        i += 1;
    }
    assert(events@.take(events@.len() as int) =~= events@);
    let mut expected: u32 = 0;
    let mut directions: Vec<u8> = Vec::new();
    let mut j: usize = 0;
    proof {
        assert(sorted@.skip(0) =~= sorted@);
        assert(directions@ + stream_from(sorted@, 0) =~= stream_from(sorted@, 0));
    }
    while j < sorted.len()
        invariant
            j <= sorted@.len(),
            sorted@ == moves_in_order(events@, player),
            stream_from(sorted@, 0) == directions@ + stream_from(sorted@.skip(j as int), expected),
        decreases sorted@.len() - j,
    {
        let event: MoveEvent = sorted[j];
        proof {
            assert(sorted@.skip(j as int)[0] == event);
            assert(sorted@.skip(j as int).drop_first() =~= sorted@.skip(j + 1));
        }
        if event.sequence > expected {
            assert(directions@ + Seq::<u8>::empty() =~= directions@);
            return directions;
        }
        if event.sequence == expected {
            let ghost was = directions@;
            let ghost rest = stream_from(
                sorted@.skip(j + 1),
                if expected < u32::MAX {
                    (expected + 1) as u32
                } else {
                    expected
                },
            );
            directions.push(event.direction);
            assert(was + (seq![event.direction] + rest) =~= directions@ + rest);
            expected = expected.saturating_add(1);
        }
        j += 1;
    }
    assert(directions@ + Seq::<u8>::empty() =~= directions@);
    directions
}

/// Return contiguous, deduplicated move streams keyed by issuance txid.
pub fn canonical_moves(events: &[MoveEvent]) -> (streams: Table<Txid, Vec<u8>>)
    ensures
        forall|player: Txid| #[trigger]
            streams@.contains_key(player) <==> has_moves(events@, player),
        forall|player: Txid| #[trigger]
            streams@.contains_key(player) ==> streams@[player] == canonical_stream(
                events@,
                player,
            ),
{
    let mut streams: Table<Txid, Vec<u8>> = Table::new();
    let mut i: usize = 0;
    while i < events.len()
        invariant
            i <= events@.len(),
            forall|player: Txid| #[trigger]
                streams@.contains_key(player) <==> exists|k: int|
                    0 <= k < i && (#[trigger] events@[k]).player == player,
            forall|player: Txid| #[trigger]
                streams@.contains_key(player) ==> streams@[player] == canonical_stream(
                    events@,
                    player,
                ),
        decreases events@.len() - i,
    {
        let player: Txid = events[i].player;
        if !streams.contains_key(player) {
            let ghost was = streams@;
            let _ = streams.insert(player, player_stream(events, player));
            assert forall|p: Txid| #[trigger]
                streams@.contains_key(p) <==> exists|k: int|
                    0 <= k < i + 1 && (#[trigger] events@[k]).player == p by {
                if p == player {
                    assert(events@[i as int].player == p);
                } else if was.contains_key(p) {
                    let k = choose|k: int| 0 <= k < i && (#[trigger] events@[k]).player == p;
                    assert(0 <= k < i + 1 && events@[k].player == p);
                }
            }
        }
        i += 1;
    }
    streams
}

/// Of a player's moves with a sequence number, the one that counts: the lowest transaction id.
pub open spec fn is_canonical_move(
    events: Seq<MoveEvent>,
    player: Txid,
    sequence: int,
    event: MoveEvent,
) -> bool {
    &&& events.contains(event)
    &&& event.player == player
    &&& event.sequence == sequence
    &&& forall|other: MoveEvent| #[trigger]
        events.contains(other) && other.player == player && other.sequence == sequence
            ==> !other.txid.before(event.txid)
}

spec fn moves_sorted(sorted: Seq<MoveEvent>) -> bool {
    forall|i: int, j: int|
        0 <= i < j < sorted.len() ==> !move_less(#[trigger] sorted[j], #[trigger] sorted[i])
}

proof fn lemma_move_order_is_weak(a: MoveEvent, b: MoveEvent, c: MoveEvent)
    ensures
        move_less(a, b) ==> !move_less(b, a),
        !move_less(b, a) && !move_less(c, b) ==> !move_less(c, a),
{
    Txid::lemma_before_total(a.txid, b.txid);
    Txid::lemma_before_total(b.txid, c.txid);
    if c.txid.before(a.txid) && a.txid.before(b.txid) {
        Txid::lemma_before_transitive(c.txid, a.txid, b.txid);
    }
}

proof fn lemma_insert_move(sorted: Seq<MoveEvent>, event: MoveEvent)
    requires
        moves_sorted(sorted),
    ensures
        moves_sorted(insert_move(sorted, event)),
        insert_move(sorted, event).len() == sorted.len() + 1,
        forall|a: MoveEvent| #[trigger]
            insert_move(sorted, event).contains(a) <==> a == event || sorted.contains(a),
    decreases sorted.len(),
{
    let now = insert_move(sorted, event);
    if sorted.len() > 0 && move_less(event, sorted.last()) {
        let rest = sorted.drop_last();
        let inner = insert_move(rest, event);
        lemma_insert_move(rest, event);
        assert forall|a: MoveEvent| #[trigger] now.contains(a) <==> a == event || sorted.contains(
            a,
        ) by {
            if now.contains(a) {
                let k = now.index_of(a);
                if k < inner.len() {
                    assert(inner[k] == a);
                    assert(inner.contains(a));
                    if rest.contains(a) {
                        assert(sorted[rest.index_of(a)] == a);
                    }
                } else {
                    assert(sorted[sorted.len() - 1] == a);
                }
            }
            if a == event || rest.contains(a) {
                assert(inner.contains(a));
                assert(now[inner.index_of(a)] == a);
            }
            if sorted.contains(a) {
                let k = sorted.index_of(a);
                if k < rest.len() {
                    assert(rest[k] == a);
                } else {
                    assert(now[now.len() - 1] == a);
                }
            }
        }
        assert forall|i: int, j: int| 0 <= i < j < now.len() implies !move_less(
            #[trigger] now[j],
            #[trigger] now[i],
        ) by {
            assert(now[i] == inner[i]);
            if j < sorted.len() {
                assert(now[j] == inner[j]);
            } else {
                assert(inner.contains(inner[i]));
                if inner[i] == event {
                    lemma_move_order_is_weak(event, sorted.last(), event);
                } else {
                    let m = rest.index_of(inner[i]);
                    assert(sorted[m] == inner[i]);
                }
            }
        }
    } else {
        assert forall|a: MoveEvent| #[trigger] now.contains(a) <==> a == event || sorted.contains(
            a,
        ) by {
            if now.contains(a) && a != event {
                assert(sorted[now.index_of(a)] == a);
            }
            if sorted.contains(a) {
                assert(now[sorted.index_of(a)] == a);
            }
            assert(now[sorted.len() as int] == event);
        }
        assert forall|i: int, j: int| 0 <= i < j < now.len() implies !move_less(
            #[trigger] now[j],
            #[trigger] now[i],
        ) by {
            if j == sorted.len() && i < sorted.len() - 1 {
                lemma_move_order_is_weak(sorted[i], sorted.last(), event);
            }
        }
    }
}

proof fn lemma_moves_in_order(events: Seq<MoveEvent>, player: Txid)
    ensures
        moves_sorted(moves_in_order(events, player)),
        moves_in_order(events, player).len() <= events.len(),
        forall|a: MoveEvent| #[trigger]
            moves_in_order(events, player).contains(a) <==> events.contains(a) && a.player == player,
    decreases events.len(),
{
    if events.len() > 0 {
        let rest = events.drop_last();
        lemma_moves_in_order(rest, player);
        if events.last().player == player {
            lemma_insert_move(moves_in_order(rest, player), events.last());
        }
        assert forall|a: MoveEvent| #[trigger] moves_in_order(events, player).contains(a)
            <==> events.contains(a) && a.player == player by {
            if events.contains(a) {
                let k = events.index_of(a);
                if k < rest.len() {
                    assert(rest[k] == a);
                }
            }
            if rest.contains(a) {
                assert(events[rest.index_of(a)] == a);
            }
            assert(events[events.len() - 1] == events.last());
        }
    }
}

/// Whether the ordered move at `i` is the first of its number.
spec fn lowest_at(sorted: Seq<MoveEvent>, i: int, sequence: int) -> bool {
    &&& 0 <= i < sorted.len()
    &&& sorted[i].sequence == sequence
    &&& forall|j: int|
        0 <= j < sorted.len() && (#[trigger] sorted[j]).sequence == sequence
            ==> !sorted[j].txid.before(sorted[i].txid)
}

spec fn lowest_direction(sorted: Seq<MoveEvent>, sequence: int, direction: u8) -> bool {
    exists|i: int| #[trigger] lowest_at(sorted, i, sequence) && sorted[i].direction == direction
}

/// The number that `stream_from` looks for when it has passed all numbers below `from`.
spec fn awaited(from: int) -> u32 {
    if from <= u32::MAX {
        from as u32
    } else {
        u32::MAX
    }
}

/// What `stream_from` takes from a suffix of ordered moves whose numbers below `from` are done.
proof fn lemma_stream(sorted: Seq<MoveEvent>, n: int, from: int)
    requires
        moves_sorted(sorted),
        0 <= n <= sorted.len(),
        0 <= from <= u32::MAX + 1,
        forall|i: int| 0 <= i < n ==> (#[trigger] sorted[i]).sequence < from,
    ensures
        forall|k: int|
            0 <= k < stream_from(sorted.skip(n), awaited(from)).len() && from + k <= u32::MAX
                ==> lowest_direction(
                sorted,
                from + k,
                #[trigger] stream_from(sorted.skip(n), awaited(from))[k],
            ),
        forall|i: int|
            0 <= i < sorted.len() ==> (#[trigger] sorted[i]).sequence != from + stream_from(
                sorted.skip(n),
                awaited(from),
            ).len(),
    decreases sorted.len() - n,
{
    let tail = sorted.skip(n);
    let s = stream_from(tail, awaited(from));
    if n < sorted.len() && from <= u32::MAX {
        assert(tail[0] == sorted[n]);
        assert(tail.drop_first() =~= sorted.skip(n + 1));
        if sorted[n].sequence > from {
            assert forall|i: int| 0 <= i < sorted.len() implies (#[trigger] sorted[i]).sequence
                != from + s.len() by {
                if i > n {
                    assert(!move_less(sorted[i], sorted[n]));
                }
            }
        } else if sorted[n].sequence < from {
            lemma_stream(sorted, n + 1, from);
        } else {
            lemma_stream(sorted, n + 1, from + 1);
            let rest = stream_from(sorted.skip(n + 1), awaited(from + 1));
            assert(s =~= seq![sorted[n].direction] + rest);
            assert forall|k: int|
                0 <= k < s.len() && from + k <= u32::MAX implies lowest_direction(
                sorted,
                from + k,
                #[trigger] s[k],
            ) by {
                if k == 0 {
                    assert forall|j: int|
                        0 <= j < sorted.len() && (#[trigger] sorted[j]).sequence == from
                            + k implies !sorted[j].txid.before(sorted[n].txid) by {
                        if j > n {
                            assert(!move_less(sorted[j], sorted[n]));
                        } else if j == n {
                            Txid::lemma_before_total(sorted[n].txid, sorted[n].txid);
                        }
                    }
                    assert(lowest_at(sorted, n, from + k));
                } else {
                    assert(s[k] == rest[k - 1]);
                    assert(lowest_direction(sorted, (from + 1) + (k - 1), rest[k - 1]));
                }
            }
        }
    }
}

/// `stream_from` does not pass a number that no move has.
proof fn lemma_stream_stops(moves: Seq<MoveEvent>, expected: u32, gap: u32)
    requires
        expected <= gap,
        forall|i: int| 0 <= i < moves.len() ==> (#[trigger] moves[i]).sequence != gap,
    ensures
        expected + stream_from(moves, expected).len() <= gap,
    decreases moves.len(),
{
    if moves.len() > 0 && moves[0].sequence <= expected {
        assert forall|i: int| 0 <= i < moves.drop_first().len() implies (
        #[trigger] moves.drop_first()[i]).sequence != gap by {
            assert(moves.drop_first()[i] == moves[i + 1]);
        }
        if moves[0].sequence < expected {
            lemma_stream_stops(moves.drop_first(), expected, gap);
        } else {
            lemma_stream_stops(moves.drop_first(), (expected + 1) as u32, gap);
        }
    }
}

/// Whether the move that counts for a sequence number has this direction.
pub open spec fn canonical_direction(
    events: Seq<MoveEvent>,
    player: Txid,
    sequence: int,
    direction: u8,
) -> bool {
    exists|event: MoveEvent| #[trigger]
        is_canonical_move(events, player, sequence, event) && event.direction == direction
}

/// Whether a player has no move of a number.
pub open spec fn lacks_move(events: Seq<MoveEvent>, player: Txid, sequence: u32) -> bool {
    forall|event: MoveEvent| #[trigger]
        events.contains(event) && event.player == player ==> event.sequence != sequence
}

/// A player's canonical moves are numbered from zero without a gap, up to the first number that the
/// player has no move of; each is the one with the lowest transaction id among the player's moves of
/// its number; and the player has no move whose number would continue the stream.
pub proof fn law_canonical_stream_is_contiguous(events: Seq<MoveEvent>, player: Txid)
    ensures
        forall|k: int|
            0 <= k < canonical_stream(events, player).len() && k <= u32::MAX ==> canonical_direction(
                events,
                player,
                k,
                #[trigger] canonical_stream(events, player)[k],
            ),
        forall|event: MoveEvent| #[trigger]
            events.contains(event) && event.player == player ==> event.sequence
                != canonical_stream(events, player).len(),
        forall|gap: u32| #[trigger]
            lacks_move(events, player, gap) ==> canonical_stream(events, player).len() <= gap,
{
    let sorted = moves_in_order(events, player);
    let s = canonical_stream(events, player);
    lemma_moves_in_order(events, player);
    assert(sorted.skip(0) =~= sorted);
    lemma_stream(sorted, 0, 0);
    assert forall|k: int| 0 <= k < s.len() && k <= u32::MAX implies canonical_direction(
        events,
        player,
        k,
        #[trigger] s[k],
    ) by {
        assert(lowest_direction(sorted, 0 + k, s[k]));
        let i = choose|i: int| #[trigger]
            lowest_at(sorted, i, 0 + k) && sorted[i].direction == s[k];
        let event = sorted[i];
        assert(sorted.contains(event));
        assert forall|other: MoveEvent| #[trigger]
            events.contains(other) && other.player == player && other.sequence
                == k implies !other.txid.before(event.txid) by {
            assert(sorted.contains(other));
            let j = sorted.index_of(other);
            assert(sorted[j].sequence == 0 + k);
        }
        assert(is_canonical_move(events, player, k, event));
    }
    assert forall|event: MoveEvent| #[trigger]
        events.contains(event) && event.player == player implies event.sequence != s.len() by {
        assert(sorted.contains(event));
        let j = sorted.index_of(event);
        assert(sorted[j].sequence != 0 + s.len());
    }
    assert forall|gap: u32| #[trigger] lacks_move(events, player, gap) implies s.len() <= gap by {
        assert forall|i: int| 0 <= i < sorted.len() implies (#[trigger] sorted[i]).sequence
            != gap by {
            assert(sorted.contains(sorted[i]));
        }
        lemma_stream_stops(sorted, 0, gap);
    }
}

/// Whether moves with the same player, number and transaction id also have the same direction.
pub open spec fn moves_agree(events: Seq<MoveEvent>) -> bool {
    forall|a: MoveEvent, b: MoveEvent|
        #![trigger events.contains(a), events.contains(b)]
        events.contains(a) && events.contains(b) && a.player == b.player && a.sequence == b.sequence
            && a.txid == b.txid ==> a.direction == b.direction
}

proof fn lemma_insert_move_multiset(sorted: Seq<MoveEvent>, event: MoveEvent)
    ensures
        insert_move(sorted, event).to_multiset() == sorted.to_multiset().insert(event),
    decreases sorted.len(),
{
    broadcast use vstd::seq_lib::group_to_multiset_ensures;

    if sorted.len() > 0 && move_less(event, sorted.last()) {
        lemma_insert_move_multiset(sorted.drop_last(), event);
        assert(sorted.drop_last().push(sorted.last()) =~= sorted);
        assert(insert_move(sorted, event).to_multiset() =~= sorted.to_multiset().insert(event));
    }
}

proof fn lemma_moves_count(events: Seq<MoveEvent>, player: Txid, event: MoveEvent)
    ensures
        moves_in_order(events, player).to_multiset().count(event) == if event.player == player {
            events.to_multiset().count(event)
        } else {
            0
        },
    decreases events.len(),
{
    broadcast use vstd::seq_lib::group_to_multiset_ensures;

    if events.len() > 0 {
        let rest = events.drop_last();
        lemma_moves_count(rest, player, event);
        assert(rest.push(events.last()) =~= events);
        if events.last().player == player {
            lemma_insert_move_multiset(moves_in_order(rest, player), events.last());
        }
    }
}

proof fn lemma_same_move_order(a: Seq<MoveEvent>, b: Seq<MoveEvent>, player: Txid)
    requires
        moves_sorted(a),
        moves_sorted(b),
        moves_agree(a),
        forall|event: MoveEvent| #[trigger] a.contains(event) ==> event.player == player,
        a.to_multiset() == b.to_multiset(),
    ensures
        a == b,
    decreases a.len(),
{
    broadcast use vstd::seq_lib::group_to_multiset_ensures;

    assert(a.to_multiset().len() == a.len());
    assert(b.to_multiset().len() == b.len());
    if a.len() == 0 {
        assert(a =~= b);
    } else {
        let x = a.last();
        let y = b.last();
        assert(a[a.len() - 1] == x);
        assert(b[b.len() - 1] == y);
        assert(a.contains(x) && b.contains(y));
        assert(b.to_multiset().count(x) > 0 && a.to_multiset().count(y) > 0);
        assert(b.contains(x) && a.contains(y));
        let i = b.index_of(x);
        let j = a.index_of(y);
        if x != y {
            assert(!move_less(b[b.len() - 1], b[i]));
            assert(!move_less(a[a.len() - 1], a[j]));
            Txid::lemma_before_total(x.txid, y.txid);
            assert(x.direction == y.direction);
        }
        assert(a.drop_last().push(x) =~= a);
        assert(b.drop_last().push(x) =~= b);
        assert(a.drop_last().to_multiset() =~= a.to_multiset().remove(x));
        assert(b.drop_last().to_multiset() =~= b.to_multiset().remove(x));
        assert forall|event: MoveEvent| #[trigger] a.drop_last().contains(event) implies a.contains(
            event,
        ) by {
            assert(a[a.drop_last().index_of(event)] == event);
        }
        lemma_same_move_order(a.drop_last(), b.drop_last(), player);
    }
}

/// The canonical moves do not depend on the order in which the events are given, as long as those
/// with the same player, number and transaction id say the same: the same players have moves, and
/// each has the same ones.
pub proof fn law_canonical_moves_ignore_arrival_order(
    events: Seq<MoveEvent>,
    arrived: Seq<MoveEvent>,
    player: Txid,
)
    requires
        events.to_multiset() == arrived.to_multiset(),
        moves_agree(events),
    ensures
        has_moves(events, player) == has_moves(arrived, player),
        canonical_stream(events, player) == canonical_stream(arrived, player),
{
    broadcast use vstd::seq_lib::group_to_multiset_ensures;

    let a = moves_in_order(events, player);
    let b = moves_in_order(arrived, player);
    lemma_moves_in_order(events, player);
    lemma_moves_in_order(arrived, player);
    assert forall|event: MoveEvent| a.to_multiset().count(event) == b.to_multiset().count(event) by {
        lemma_moves_count(events, player, event);
        lemma_moves_count(arrived, player, event);
    }
    assert(a.to_multiset() =~= b.to_multiset());
    lemma_same_move_order(a, b, player);
    if has_moves(events, player) {
        let i = choose|i: int| 0 <= i < events.len() && (#[trigger] events[i]).player == player;
        assert(events.to_multiset().contains(events[i]));
        assert(arrived.contains(events[i]));
        assert(arrived[arrived.index_of(events[i])].player == player);
    }
    if has_moves(arrived, player) {
        let i = choose|i: int| 0 <= i < arrived.len() && (#[trigger] arrived[i]).player == player;
        assert(arrived.to_multiset().contains(arrived[i]));
        assert(events.contains(arrived[i]));
        assert(events[events.index_of(arrived[i])].player == player);
    }
}

/// The units that enter and leave all groups.
pub open spec fn units_in(groups: Seq<Group>) -> nat
    decreases groups.len(),
{
    if groups.len() == 0 {
        0
    } else {
        units_in(groups.drop_last()) + total(groups.last().inputs)
    }
}

pub open spec fn units_out(groups: Seq<Group>) -> nat
    decreases groups.len(),
{
    if groups.len() == 0 {
        0
    } else {
        units_out(groups.drop_last()) + total(groups.last().outputs)
    }
}

/// A burn destroys exactly one unit in all.
pub proof fn law_burn_destroys_one_unit(groups: Seq<Group>, output_count: nat)
    requires
        burns_one_unit(groups, output_count),
    ensures
        units_in(groups) == units_out(groups) + 1,
{
    let k = choose|k: int| 0 <= k < groups.len() && burns_unit(#[trigger] groups[k]);
    lemma_units(groups, groups.len() as int, k, output_count);
    assert(groups.take(groups.len() as int) =~= groups);
}

proof fn lemma_units(groups: Seq<Group>, n: int, k: int, output_count: nat)
    requires
        burns_one_unit(groups, output_count),
        0 <= n <= groups.len(),
        0 <= k < groups.len(),
        burns_unit(groups[k]),
    ensures
        units_in(groups.take(n)) == units_out(groups.take(n)) + if k < n {
            1int
        } else {
            0
        },
    decreases n,
{
    if n > 0 {
        lemma_units(groups, n - 1, k, output_count);
        assert(groups.take(n).drop_last() =~= groups.take(n - 1));
        assert(groups.take(n).last() == groups[n - 1]);
        assert(moves_units(groups[n - 1], output_count));
        if n - 1 != k && burns_unit(groups[n - 1]) {
            if n - 1 < k {
                assert(!(burns_unit(groups[n - 1]) && burns_unit(groups[k])));
            } else {
                assert(!(burns_unit(groups[k]) && burns_unit(groups[n - 1])));
            }
        }
    } else {
        assert(groups.take(n) =~= Seq::empty());
    }
}

/// The outputs that a burn preserves are listed once each and exist.
pub proof fn law_preserved_outputs_exist(groups: Seq<Group>, output_count: nat)
    requires
        burns_one_unit(groups, output_count),
    ensures
        preserved_indexes(groups).no_duplicates(),
        forall|i: int|
            0 <= i < preserved_indexes(groups).len() ==> #[trigger] preserved_indexes(groups)[i]
                < output_count,
{
    lemma_preserved(groups, groups.len() as int, output_count);
    assert(groups.take(groups.len() as int) =~= groups);
}

proof fn lemma_preserved(groups: Seq<Group>, n: int, output_count: nat)
    requires
        burns_one_unit(groups, output_count),
        0 <= n <= groups.len(),
    ensures
        preserved_indexes(groups.take(n)).no_duplicates(),
        forall|i: int|
            0 <= i < preserved_indexes(groups.take(n)).len() ==> #[trigger] preserved_indexes(
                groups.take(n),
            )[i] < output_count,
    decreases n,
{
    if n > 0 {
        lemma_preserved(groups, n - 1, output_count);
        assert(groups.take(n).drop_last() =~= groups.take(n - 1));
        assert(groups.take(n).last() == groups[n - 1]);
        assert(moves_units(groups[n - 1], output_count));
        lemma_with_indexes(
            preserved_indexes(groups.take(n - 1)),
            groups[n - 1].outputs,
            output_count,
        );
    } else {
        assert(groups.take(n) =~= Seq::empty());
    }
}

proof fn lemma_with_indexes(known: Seq<u16>, outputs: Seq<AssetAssignment>, output_count: nat)
    requires
        known.no_duplicates(),
        forall|i: int| 0 <= i < known.len() ==> #[trigger] known[i] < output_count,
        forall|i: int| 0 <= i < outputs.len() ==> (#[trigger] outputs[i]).index < output_count,
    ensures
        with_indexes(known, outputs).no_duplicates(),
        forall|i: int|
            0 <= i < with_indexes(known, outputs).len() ==> #[trigger] with_indexes(
                known,
                outputs,
            )[i] < output_count,
    decreases outputs.len(),
{
    if outputs.len() > 0 {
        lemma_with_indexes(known, outputs.drop_last(), output_count);
        assert(outputs[outputs.len() - 1] == outputs.last());
    }
}

} // verus!
