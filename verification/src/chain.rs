//! Transaction identifiers, output references, asset identifiers and plain transactions.

use crate::table::Key;
use crate::text;
use vstd::prelude::*;

verus! {

/// A transaction id, in the byte order in which the transaction hash is computed. Its text shows
/// the bytes in reverse.
#[derive(Clone, Copy, Debug)]
pub struct Txid {
    pub bytes: [u8; 32],
}

impl Txid {
    /// Sixty-four lower-case hexadecimal digits, last byte first.
    pub open spec fn text(self) -> Seq<char> {
        text::hex_text(self.bytes@.reverse())
    }

    /// The id with these 32 bytes.
    pub open spec fn of_bytes(bytes: Seq<u8>) -> Txid {
        choose|id: Txid| id.bytes@ == bytes
    }

    /// The id whose text this is, digits of either case; nothing for any other text.
    pub open spec fn of_text(text: Seq<char>) -> Option<Txid> {
        match text::hex_bytes(text) {
            Some(bytes) if bytes.len() == 32 => Some(Txid::of_bytes(bytes.reverse())),
            _ => None,
        }
    }

    pub proof fn lemma_of_bytes(self)
        ensures
            Txid::of_bytes(self.bytes@) == self,
    {
        let id = choose|id: Txid| id.bytes@ == self.bytes@;
        assert(id.bytes =~= self.bytes);
    }

    pub fn from_byte_array(bytes: [u8; 32]) -> (id: Txid)
        ensures
            id.bytes@ == bytes@,
    {
        Txid { bytes }
    }

    pub fn to_byte_array(&self) -> (bytes: [u8; 32])
        ensures
            bytes@ == self.bytes@,
    {
        self.bytes
    }

    /// The id as text.
    pub fn to_string(&self) -> (text: String)
        ensures
            text@ == self.text(),
    {
        let reversed: [u8; 32] = reverse_bytes(&self.bytes);
        assert(reversed@ =~= self.bytes@.reverse());
        text::hex_string(reversed.as_slice())
    }

    /// Reads an id from its text.
    pub fn from_text(text: &str) -> (id: Option<Txid>)
        ensures
            id == Txid::of_text(text@),
    {
        match text::parse_hex(text) {
            Some(bytes) => if bytes.len() == 32 {
                let mut shown: [u8; 32] = [0u8;32];
                let mut i: usize = 0;
                while i < 32
                    invariant
                        i <= 32,
                        bytes@.len() == 32,
                        forall|k: int| 0 <= k < i ==> shown[k] == bytes@[k],
                    decreases 32 - i,
                {
                    shown[i] = bytes[i];
                    i += 1;
                }
                assert(shown@ =~= bytes@);
                let reversed: [u8; 32] = reverse_bytes(&shown);
                assert(reversed@ =~= bytes@.reverse());
                let id: Txid = Txid { bytes: reversed };
                proof {
                    id.lemma_of_bytes();
                }
                Some(id)
            } else {
                None
            },
            None => None,
        }
    }

    /// Whether the text of this id sorts before that of `other`.
    pub fn shows_before(&self, other: &Txid) -> (result: bool)
        ensures
            result == text::text_less(self.text(), other.text()),
    {
        let a: [u8; 32] = reverse_bytes(&self.bytes);
        let b: [u8; 32] = reverse_bytes(&other.bytes);
        proof {
            assert(a@ =~= self.bytes@.reverse());
            assert(b@ =~= other.bytes@.reverse());
            text::law_hex_text_order(a@, b@);
        }
        array_less(&a, &b)
    }
}

/// The text of an id reads back as the id.
pub proof fn law_txid_text_round_trip(id: Txid)
    ensures
        Txid::of_text(id.text()) == Some(id),
{
    text::law_hex_round_trip(id.bytes@.reverse());
    assert(id.bytes@.reverse().reverse() =~= id.bytes@);
    id.lemma_of_bytes();
}

/// Different ids have different texts.
pub proof fn law_txid_text_injective(a: Txid, b: Txid)
    requires
        a.text() == b.text(),
    ensures
        a == b,
{
    law_txid_text_round_trip(a);
    law_txid_text_round_trip(b);
}

fn reverse_bytes(bytes: &[u8; 32]) -> (reversed: [u8; 32])
    ensures
        reversed@ == bytes@.reverse(),
{
    let mut reversed: [u8; 32] = [0u8;32];
    let mut i: usize = 0;
    while i < 32
        invariant
            i <= 32,
            forall|k: int| 0 <= k < i ==> reversed[k] == bytes[31 - k],
        decreases 32 - i,
    {
        reversed[i] = bytes[31 - i];
        i += 1;
    }
    assert(reversed@ =~= bytes@.reverse());
    reversed
}

/// Lexicographic comparison of two ids' bytes.
fn array_less(a: &[u8; 32], b: &[u8; 32]) -> (result: bool)
    ensures
        result == text::bytes_less(a@, b@),
{
    let mut i: usize = 0;
    while i < 32
        invariant
            i <= 32,
            forall|k: int| 0 <= k < i ==> a[k] == b[k],
        decreases 32 - i,
    {
        if a[i] != b[i] {
            proof {
                text::lemma_bytes_less_skip(a@, b@, i as int);
                assert(a@.skip(i as int)[0] == a[i as int]);
                assert(b@.skip(i as int)[0] == b[i as int]);
            }
            return a[i] < b[i];
        }
        i += 1;
    }
    proof {
        assert(a@ =~= b@);
        text::lemma_bytes_less_total(a@, b@);
    }
    false
}

fn same_id(a: &Txid, b: &Txid) -> (same: bool)
    ensures
        same == (*a == *b),
{
    let mut i: usize = 0;
    while i < 32
        invariant
            i <= 32,
            forall|k: int| 0 <= k < i ==> a.bytes[k] == b.bytes[k],
        decreases 32 - i,
    {
        if a.bytes[i] != b.bytes[i] {
            return false;
        }
        i += 1;
    }
    assert(a.bytes =~= b.bytes);
    true
}

impl vstd::std_specs::cmp::PartialEqSpecImpl for Txid {
    open spec fn obeys_eq_spec() -> bool {
        true
    }

    open spec fn eq_spec(&self, other: &Txid) -> bool {
        *self == *other
    }
}

impl PartialEq for Txid {
    fn eq(&self, other: &Txid) -> (same: bool) {
        same_id(self, other)
    }
}

impl Eq for Txid {

}

impl Key for Txid {
    open spec fn before(self, other: Txid) -> bool {
        text::bytes_less(self.bytes@, other.bytes@)
    }

    proof fn lemma_before_total(a: Txid, b: Txid) {
        text::lemma_bytes_less_total(a.bytes@, b.bytes@);
        if a.bytes@ == b.bytes@ {
            assert(a.bytes =~= b.bytes);
        }
    }

    proof fn lemma_before_transitive(a: Txid, b: Txid, c: Txid) {
        text::lemma_bytes_less_transitive(a.bytes@, b.bytes@, c.bytes@);
    }

    fn precedes(&self, other: &Txid) -> (result: bool) {
        array_less(&self.bytes, &other.bytes)
    }
}

/// An output of a transaction.
#[derive(Clone, Copy, Debug)]
pub struct OutPoint {
    pub txid: Txid,
    pub vout: u32,
}

impl vstd::std_specs::cmp::PartialEqSpecImpl for OutPoint {
    open spec fn obeys_eq_spec() -> bool {
        true
    }

    open spec fn eq_spec(&self, other: &OutPoint) -> bool {
        *self == *other
    }
}

impl PartialEq for OutPoint {
    fn eq(&self, other: &OutPoint) -> (same: bool) {
        self.txid == other.txid && self.vout == other.vout
    }
}

impl Eq for OutPoint {

}

impl Key for OutPoint {
    open spec fn before(self, other: OutPoint) -> bool {
        self.txid.before(other.txid) || self.txid == other.txid && self.vout < other.vout
    }

    proof fn lemma_before_total(a: OutPoint, b: OutPoint) {
        Txid::lemma_before_total(a.txid, b.txid);
        Txid::lemma_before_total(b.txid, a.txid);
    }

    proof fn lemma_before_transitive(a: OutPoint, b: OutPoint, c: OutPoint) {
        if a.txid.before(b.txid) && b.txid.before(c.txid) {
            Txid::lemma_before_transitive(a.txid, b.txid, c.txid);
        }
    }

    fn precedes(&self, other: &OutPoint) -> (result: bool) {
        proof {
            Txid::lemma_before_total(self.txid, other.txid);
        }
        self.txid.precedes(&other.txid) || !other.txid.precedes(&self.txid) && self.vout
            < other.vout
    }
}

impl OutPoint {
    /// `txid:vout`.
    pub open spec fn text(self) -> Seq<char> {
        self.txid.text() + seq![':'] + text::decimal_text(self.vout as nat)
    }
}

/// An asset, named by the transaction that issued it and its group in that transaction's packet.
#[derive(Clone, Copy, Debug)]
pub struct AssetId {
    pub txid: Txid,
    pub group_index: u16,
}

impl vstd::std_specs::cmp::PartialEqSpecImpl for AssetId {
    open spec fn obeys_eq_spec() -> bool {
        true
    }

    open spec fn eq_spec(&self, other: &AssetId) -> bool {
        *self == *other
    }
}

impl PartialEq for AssetId {
    fn eq(&self, other: &AssetId) -> (same: bool) {
        self.txid == other.txid && self.group_index == other.group_index
    }
}

impl Eq for AssetId {

}

/// The two bytes of a number, low byte first.
pub open spec fn u16_le(value: u16) -> Seq<u8> {
    seq![(value % 256) as u8, (value / 256) as u8]
}

impl AssetId {
    /// The transaction's text, then the group index as two bytes of digits, low byte first.
    pub open spec fn text(self) -> Seq<char> {
        self.txid.text() + text::hex_text(u16_le(self.group_index))
    }

    /// The asset as text.
    pub fn to_string(&self) -> (text: String)
        ensures
            text@ == self.text(),
    {
        let mut shown: String = self.txid.to_string();
        let group: [u8; 2] = [(self.group_index % 256) as u8, (self.group_index / 256) as u8];
        assert(group@ =~= u16_le(self.group_index));
        let tail: String = text::hex_string(group.as_slice());
        shown.append(tail.as_str());
        shown
    }
}

/// The asset that a text names: digits of either case for the 32 bytes of the transaction id, last
/// byte first, and for the two bytes of the group index, low byte first.
pub open spec fn asset_id_of(text: Seq<char>) -> Option<AssetId> {
    match text::hex_bytes(text) {
        Some(bytes) if bytes.len() == 34 => Some(
            AssetId {
                txid: Txid::of_bytes(bytes.take(32).reverse()),
                group_index: (bytes[32] + bytes[33] * 256) as u16,
            },
        ),
        _ => None,
    }
}

/// The text of an asset names the asset.
pub proof fn law_asset_id_round_trip(id: AssetId)
    ensures
        asset_id_of(id.text()) == Some(id),
{
    let shown = id.txid.bytes@.reverse();
    let tail = u16_le(id.group_index);
    let bytes = shown + tail;
    text::lemma_hex_text_add(shown, tail);
    text::law_hex_round_trip(bytes);
    assert(bytes.take(32) =~= shown);
    assert(shown.reverse() =~= id.txid.bytes@);
    id.txid.lemma_of_bytes();
    assert(bytes[32] == tail[0] && bytes[33] == tail[1]);
}

/// Reads the text of an asset.
pub fn parse_asset_id(text: &str) -> (id: Option<AssetId>)
    ensures
        id == asset_id_of(text@),
{
    match text::parse_hex(text) {
        Some(bytes) => if bytes.len() == 34 {
            let mut reversed: [u8; 32] = [0u8;32];
            let mut i: usize = 0;
            while i < 32
                invariant
                    i <= 32,
                    bytes@.len() == 34,
                    forall|k: int| 0 <= k < i ==> reversed[k] == bytes@[31 - k],
                decreases 32 - i,
            {
                reversed[i] = bytes[31 - i];
                i += 1;
            }
            let txid: Txid = Txid { bytes: reversed };
            proof {
                assert(reversed@ =~= bytes@.take(32).reverse());
                txid.lemma_of_bytes();
            }
            let group_index: u16 = bytes[32] as u16 + bytes[33] as u16 * 256;
            Some(AssetId { txid, group_index })
        } else {
            None
        },
        None => None,
    }
}

impl OutPoint {
    /// The output as text.
    pub fn to_string(&self) -> (text: String)
        ensures
            text@ == self.text(),
    {
        let mut shown: String = self.txid.to_string();
        proof {
            reveal_strlit(":");
            assert(":"@ =~= seq![':']);
        }
        shown.append(":");
        let index: String = text::decimal_string(self.vout as u64);
        shown.append(index.as_str());
        shown
    }
}

/// An input of a transaction without signatures.
#[derive(Clone, Copy, Debug)]
pub struct TxIn {
    pub previous_output: OutPoint,
    pub sequence: u32,
}

/// An output of a transaction: satoshis and the script that receives them.
#[derive(Debug)]
pub struct TxOut {
    pub value: u64,
    pub script_pubkey: Vec<u8>,
}

/// What a `TxOut` holds.
#[verifier::ext_equal]
pub struct Output {
    pub value: u64,
    pub script: Seq<u8>,
}

impl View for TxOut {
    type V = Output;

    open spec fn view(&self) -> Output {
        Output { value: self.value, script: self.script_pubkey@ }
    }
}

pub open spec fn outputs_view(outputs: Seq<TxOut>) -> Seq<Output> {
    outputs.map_values(|o: TxOut| o@)
}

impl Clone for TxOut {
    fn clone(&self) -> (copy: TxOut)
        ensures
            copy@ == self@,
    {
        TxOut { value: self.value, script_pubkey: copy_bytes(&self.script_pubkey) }
    }
}

/// A transaction without signatures.
#[derive(Debug)]
pub struct Transaction {
    pub version: i32,
    pub lock_time: u32,
    pub input: Vec<TxIn>,
    pub output: Vec<TxOut>,
}

/// What a `Transaction` holds.
#[verifier::ext_equal]
pub struct Tx {
    pub version: i32,
    pub lock_time: u32,
    pub input: Seq<TxIn>,
    pub output: Seq<Output>,
}

impl View for Transaction {
    type V = Tx;

    open spec fn view(&self) -> Tx {
        Tx {
            version: self.version,
            lock_time: self.lock_time,
            input: self.input@,
            output: outputs_view(self.output@),
        }
    }
}

impl Clone for Transaction {
    fn clone(&self) -> (copy: Transaction)
        ensures
            copy@ == self@,
    {
        let mut input: Vec<TxIn> = Vec::new();
        let mut i: usize = 0;
        while i < self.input.len()
            invariant
                i <= self.input@.len(),
                input@ == self.input@.take(i as int),
            decreases self.input@.len() - i,
        {
            input.push(self.input[i]);
            assert(self.input@.take(i + 1) =~= self.input@.take(i as int).push(self.input@[i as int]));
            i += 1;
        }
        let mut output: Vec<TxOut> = Vec::new();
        let mut j: usize = 0;
        while j < self.output.len()
            invariant
                j <= self.output@.len(),
                outputs_view(output@) == outputs_view(self.output@).take(j as int),
            decreases self.output@.len() - j,
        {
            let ghost was = output@;
            output.push(self.output[j].clone());
            assert(outputs_view(output@) =~= outputs_view(was).push(self.output@[j as int]@));
            assert(outputs_view(self.output@).take(j + 1) =~= outputs_view(self.output@).take(
                j as int,
            ).push(self.output@[j as int]@));
            j += 1;
        }
        assert(self.input@.take(self.input@.len() as int) =~= self.input@);
        assert(outputs_view(self.output@).take(self.output@.len() as int) =~= outputs_view(
            self.output@,
        ));
        Transaction { version: self.version, lock_time: self.lock_time, input, output }
    }
}

/// A copy of a byte string.
pub fn copy_bytes(bytes: &[u8]) -> (copy: Vec<u8>)
    ensures
        copy@ == bytes@,
{
    let mut copy: Vec<u8> = Vec::new();
    copy.extend_from_slice(bytes);
    assert(copy@ =~= bytes@);
    copy
}

} // verus!
