//! Partially signed transactions, and their base64 notation.

use crate::chain::{OutPoint, Output, Transaction, Tx, TxIn, TxOut, Txid};
use bitcoin::absolute::LockTime;
use bitcoin::transaction::Version;
use bitcoin::{Amount, Psbt as PartialTx, Sequence};
use vstd::prelude::*;

verus! {

/// The type of a partially signed transaction of `bitcoin`.
#[verifier::external_type_specification]
#[verifier::external_body]
pub struct ExPsbt(PartialTx);

/// What a PSBT holds: what `bitcoin::Psbt::serialize` writes of it, and its unsigned transaction.
#[verifier::ext_equal]
pub struct Signed {
    pub raw: Seq<u8>,
    pub tx: Tx,
}

/// A PSBT as `bitcoin` holds it.
pub struct PsbtData {
    pub(crate) inner: PartialTx,
    pub(crate) held: Ghost<Signed>,
}

impl View for PsbtData {
    type V = Signed;

    closed spec fn view(&self) -> Signed {
        self.held@
    }
}

pub open spec fn data_view(list: Seq<PsbtData>) -> Seq<Signed> {
    list.map_values(|data: PsbtData| data@)
}

/// What `bitcoin::Psbt::deserialize` reads from bytes: the same transaction as
/// `bitcoin::Psbt::serialize` writes it, and its unsigned transaction. Nothing where it fails.
pub uninterp spec fn psbt_parts(bytes: Seq<u8>) -> Option<(Seq<u8>, Tx)>;

/// `bitcoin::Psbt::deserialize`. Reading what `serialize` writes of the result gives the same again.
/// Which bytes are accepted, and what they hold, is left to `psbt_parts`.
#[verifier::external_body]
fn read_psbt(bytes: &[u8]) -> (data: Option<PsbtData>)
    ensures
        match data {
            Some(data) => {
                &&& psbt_parts(bytes@) == Some((data@.raw, data@.tx))
                &&& psbt_parts(data@.raw) == Some((data@.raw, data@.tx))
            },
            None => psbt_parts(bytes@) is None,
        },
{
    let inner = bitcoin::Psbt::deserialize(bytes).ok()?;
    Some(PsbtData { inner, held: Ghost(arbitrary()) })
}

/// A serialized PSBT of at most so many bytes can be read, as `bitcoin::Psbt::deserialize` takes no
/// more of what stands before the inputs.
pub const MAX_READABLE_BYTES: usize = 4_000_000;

/// `bitcoin::Psbt::serialize`: the serialized form. Where it is not too large, `deserialize` reads
/// from it a PSBT with the same serialized form and the same unsigned transaction.
#[verifier::external_body]
fn write_psbt(data: &PsbtData) -> (bytes: Vec<u8>)
    ensures
        bytes@ == data@.raw,
        bytes@.len() <= MAX_READABLE_BYTES ==> psbt_parts(bytes@) == Some((bytes@, data@.tx)),
{
    data.inner.serialize()
}

/// The `unsigned_tx` of a `bitcoin::Psbt`, value by value.
#[verifier::external_body]
fn unsigned_of(data: &PsbtData) -> (tx: Transaction)
    ensures
        tx@ == data@.tx,
{
    let tx = &data.inner.unsigned_tx;
    let previous = |o: bitcoin::OutPoint| OutPoint { txid: Txid { bytes: *o.txid.as_ref() }, vout: o.vout };
    let input = tx.input.iter().map(|i| TxIn { previous_output: previous(i.previous_output), sequence: i.sequence.0 });
    let output = tx.output.iter().map(|o| TxOut { value: o.value.to_sat(), script_pubkey: o.script_pubkey.to_bytes() });
    Transaction {
        version: tx.version.0,
        lock_time: tx.lock_time.to_consensus_u32(),
        input: input.collect(),
        output: output.collect(),
    }
}

/// `bitcoin::Psbt::clone`: the same PSBT.
#[verifier::external_body]
fn copy_data(data: &PsbtData) -> (copy: PsbtData)
    ensures
        copy@ == data@,
{
    PsbtData { inner: data.inner.clone(), held: Ghost(arbitrary()) }
}

/// What a consensus-encoded transaction becomes: nothing where the bytes do not decode, nothing
/// inside where `bitcoin::Psbt::from_unsigned_tx` refuses the transaction as signed, else the PSBT.
pub uninterp spec fn wrapped_transaction(raw: Seq<u8>) -> Option<Option<Signed>>;

/// `bitcoin::consensus::encode::deserialize` and `bitcoin::Psbt::from_unsigned_tx`. What given
/// bytes become is left to `wrapped_transaction`.
#[verifier::external_body]
pub(crate) fn wrap_transaction(raw: &[u8]) -> (data: Option<Option<PsbtData>>)
    ensures
        match data {
            Some(Some(data)) => wrapped_transaction(raw@) == Some(Some(data@)),
            Some(None) => wrapped_transaction(raw@) == Some(None::<Signed>),
            None => wrapped_transaction(raw@) is None,
        },
{
    let tx: bitcoin::Transaction = bitcoin::consensus::encode::deserialize(raw).ok()?;
    let psbt = bitcoin::Psbt::from_unsigned_tx(tx).ok();
    Some(psbt.map(|inner| PsbtData { inner, held: Ghost(arbitrary()) }))
}

/// The id of a transaction, as `bitcoin::Transaction::compute_txid` hashes it.
pub uninterp spec fn transaction_id(tx: Tx) -> Txid;

/// `bitcoin::Transaction::compute_txid` on the transaction without signatures. What the id of a
/// given transaction is, is left to `transaction_id`.
#[verifier::external_body]
pub(crate) fn compute_txid(tx: &Transaction) -> (id: Txid)
    ensures
        id == transaction_id(tx@),
{
    let previous = |o: OutPoint| bitcoin::OutPoint::new(bitcoin::hashes::Hash::from_byte_array(o.txid.bytes), o.vout);
    let input = tx.input.iter().map(|i| bitcoin::TxIn {
        previous_output: previous(i.previous_output),
        sequence: Sequence(i.sequence),
        ..Default::default()
    });
    let output = tx.output.iter().map(|o| bitcoin::TxOut {
        value: Amount::from_sat(o.value),
        script_pubkey: o.script_pubkey.clone().into(),
    });
    let version = Version(tx.version);
    let lock_time = LockTime::from_consensus(tx.lock_time);
    let tx = bitcoin::Transaction { version, lock_time, input: input.collect(), output: output.collect() };
    Txid { bytes: *tx.compute_txid().as_ref() }
}

/// Bytes in base64, as `base64::engine::general_purpose::STANDARD` writes them.
pub uninterp spec fn base64_text(bytes: Seq<u8>) -> Seq<char>;

/// The bytes that a base64 text stands for, as `base64::engine::general_purpose::STANDARD` reads
/// it; nothing for any other text.
pub uninterp spec fn base64_bytes(text: Seq<char>) -> Option<Seq<u8>>;

/// `base64::engine::general_purpose::STANDARD.encode`: the base64 text of the bytes, which
/// decodes to the same bytes. Which characters it has is left to `base64_text`.
#[verifier::external_body]
pub(crate) fn encode_base64(bytes: &[u8]) -> (text: String)
    ensures
        text@ == base64_text(bytes@),
        base64_bytes(text@) == Some(bytes@),
{
    base64::Engine::encode(&base64::engine::general_purpose::STANDARD, bytes)
}

/// `base64::engine::general_purpose::STANDARD.decode`: the bytes of a base64 text. Which texts
/// are accepted is left to `base64_bytes`.
#[verifier::external_body]
pub(crate) fn decode_base64(text: &str) -> (bytes: Option<Vec<u8>>)
    ensures
        match bytes {
            Some(bytes) => base64_bytes(text@) == Some(bytes@),
            None => base64_bytes(text@) is None,
        },
{
    base64::Engine::decode(&base64::engine::general_purpose::STANDARD, text).ok()
}

/// A partially signed transaction, with its unsigned transaction at hand.
pub struct Psbt {
    data: PsbtData,
    unsigned_tx: Transaction,
}

impl Signed {
    pub open spec fn txid(self) -> Txid {
        transaction_id(self.tx)
    }

    /// Whether the serialized form reads back as itself.
    pub open spec fn reads_back(self) -> bool {
        psbt_parts(self.raw) == Some((self.raw, self.tx))
    }

    /// Whether the serialized form is not too large to be read, or reads back anyway.
    pub open spec fn is_readable(self) -> bool {
        self.raw.len() <= MAX_READABLE_BYTES || self.reads_back()
    }
}

/// The partially signed transaction in serialized bytes.
pub open spec fn psbt_of(bytes: Seq<u8>) -> Option<Signed> {
    match psbt_parts(bytes) {
        Some((raw, tx)) => Some(Signed { raw, tx }),
        None => None,
    }
}

impl View for Psbt {
    type V = Signed;

    closed spec fn view(&self) -> Signed {
        self.data@
    }
}

pub open spec fn psbts_view(list: Seq<Psbt>) -> Seq<Signed> {
    list.map_values(|p: Psbt| p@)
}

impl Psbt {
    #[verifier::type_invariant]
    spec fn wf(self) -> bool {
        self.unsigned_tx@ == self.data@.tx
    }
}

impl Clone for Psbt {
    fn clone(&self) -> (copy: Psbt)
        ensures
            copy@ == self@,
    {
        proof {
            use_type_invariant(self);
        }
        Psbt { data: copy_data(&self.data), unsigned_tx: self.unsigned_tx.clone() }
    }
}

impl Psbt {
    /// The PSBT that `bitcoin` holds.
    pub(crate) fn of(data: PsbtData) -> (psbt: Psbt)
        ensures
            psbt@ == data@,
    {
        let unsigned_tx: Transaction = unsigned_of(&data);
        Psbt { data, unsigned_tx }
    }

    /// Reads a serialized PSBT.
    pub fn deserialize(bytes: &[u8]) -> (psbt: Option<Psbt>)
        ensures
            match psbt {
                Some(psbt) => psbt_of(bytes@) == Some(psbt@) && psbt@.reads_back(),
                None => psbt_of(bytes@) is None,
            },
    {
        match read_psbt(bytes) {
            Some(data) => Some(Psbt::of(data)),
            None => None,
        }
    }

    /// The serialized PSBT, which reads back as the same where it is not too large.
    pub fn serialize(&self) -> (bytes: Vec<u8>)
        ensures
            bytes@ == self@.raw,
            self@.is_readable() ==> psbt_of(bytes@) == Some(self@),
    {
        write_psbt(&self.data)
    }

    /// The transaction without signatures.
    pub fn unsigned_tx(&self) -> (tx: &Transaction)
        ensures
            tx@ == self@.tx,
    {
        proof {
            use_type_invariant(self);
        }
        &self.unsigned_tx
    }

    /// The id of the transaction.
    pub fn compute_txid(&self) -> (id: Txid)
        ensures
            id == self@.txid(),
    {
        proof {
            use_type_invariant(self);
        }
        compute_txid(&self.unsigned_tx)
    }

    /// The serialized PSBT in base64, which reads back as the same where it is not too large.
    pub fn to_base64(&self) -> (text: String)
        ensures
            text@ == base64_text(self@.raw),
            self@.is_readable() ==> psbt_of_text(text@) == Ok::<Signed, PsbtFault>(self@),
    {
        encode_base64(&self.serialize())
    }
}

/// A serialized PSBT with one output more at a place of its transaction, and an empty map of output
/// data with it.
pub uninterp spec fn psbt_with_output(
    raw: Seq<u8>,
    index: nat,
    value: u64,
    script: Seq<u8>,
) -> Seq<u8>;

/// An insertion into the `unsigned_tx.output` of a `bitcoin::Psbt`, and of a
/// `bitcoin::psbt::Output::default()` into its `outputs`. How it is serialized then is left to
/// `psbt_with_output`.
#[verifier::external_body]
fn insert_output(data: PsbtData, index: usize, output: &TxOut) -> (inserted: PsbtData)
    requires
        index <= data@.tx.output.len(),
    ensures
        inserted@ == (Signed {
            raw: psbt_with_output(data@.raw, index as nat, output@.value, output@.script),
            tx: Tx { output: data@.tx.output.insert(index as int, output@), ..data@.tx },
        }),
{
    let mut inner = data.inner;
    let value = Amount::from_sat(output.value);
    let script_pubkey = bitcoin::ScriptBuf::from_bytes(output.script_pubkey.clone());
    inner.unsigned_tx.output.insert(index, bitcoin::TxOut { value, script_pubkey });
    inner.outputs.insert(index, bitcoin::psbt::Output::default());
    PsbtData { inner, held: Ghost(arbitrary()) }
}

/// A transaction with one output more before the last.
pub open spec fn tx_with_output(tx: Tx, output: Output) -> Tx {
    Tx { output: tx.output.insert(tx.output.len() - 1, output), ..tx }
}

/// A PSBT with one output more before the last.
pub open spec fn with_output(psbt: Signed, output: Output) -> Signed {
    Signed {
        raw: psbt_with_output(
            psbt.raw,
            (psbt.tx.output.len() - 1) as nat,
            output.value,
            output.script,
        ),
        tx: tx_with_output(psbt.tx, output),
    }
}

impl Psbt {
    /// Inserts one output more before the last.
    pub fn insert_before_last(&mut self, output: TxOut)
        requires
            old(self)@.tx.output.len() > 0,
        ensures
            final(self)@ == with_output(old(self)@, output@),
    {
        proof {
            use_type_invariant(&*self);
        }
        let index: usize = self.unsigned_tx.output.len() - 1;
        let data: PsbtData = insert_output(copy_data(&self.data), index, &output);
        *self = Psbt::of(data);
    }
}

/// PSBTs that `bitcoin` holds.
pub(crate) fn psbts_from(list: Vec<PsbtData>) -> (psbts: Vec<Psbt>)
    ensures
        psbts_view(psbts@) == data_view(list@),
{
    let mut psbts: Vec<Psbt> = Vec::new();
    let mut i: usize = 0;
    assert(psbts_view(psbts@) =~= data_view(list@).take(0));
    while i < list.len()
        invariant
            i <= list@.len(),
            psbts_view(psbts@) == data_view(list@).take(i as int),
        decreases list@.len() - i,
    {
        let ghost was = psbts_view(psbts@);
        psbts.push(Psbt::of(copy_data(&list[i])));
        proof {
            assert(psbts_view(psbts@) =~= was.push(list@[i as int]@));
            assert(data_view(list@).take(i + 1) =~= data_view(list@).take(i as int).push(
                list@[i as int]@,
            ));
        }
        i += 1;
    }
    assert(data_view(list@).take(list@.len() as int) =~= data_view(list@));
    psbts
}

/// A copy of a list of PSBTs.
pub fn copy_psbts(list: &[Psbt]) -> (copy: Vec<Psbt>)
    ensures
        psbts_view(copy@) == psbts_view(list@),
{
    let mut copy: Vec<Psbt> = Vec::new();
    let mut i: usize = 0;
    while i < list.len()
        invariant
            i <= list@.len(),
            psbts_view(copy@) == psbts_view(list@).take(i as int),
        decreases list@.len() - i,
    {
        let ghost was = psbts_view(copy@);
        copy.push(list[i].clone());
        proof {
            assert(psbts_view(copy@) =~= was.push(list@[i as int]@));
            assert(psbts_view(list@).take(i + 1) =~= psbts_view(list@).take(i as int).push(
                list@[i as int]@,
            ));
        }
        i += 1;
    }
    assert(psbts_view(list@).take(list@.len() as int) =~= psbts_view(list@));
    copy
}

/// Why a text is not a PSBT in base64.
#[derive(Clone, Copy, Debug, PartialEq, Eq, Structural)]
pub enum PsbtFault {
    /// It is not base64.
    Base64,
    /// Its bytes are not a PSBT.
    Psbt,
}

/// The PSBT in a base64 text.
pub open spec fn psbt_of_text(text: Seq<char>) -> Result<Signed, PsbtFault> {
    match base64_bytes(text) {
        Some(bytes) => match psbt_of(bytes) {
            Some(psbt) => Ok(psbt),
            None => Err(PsbtFault::Psbt),
        },
        None => Err(PsbtFault::Base64),
    }
}

/// Reads a PSBT from base64.
pub fn parse_psbt(text: &str) -> (psbt: Result<Psbt, PsbtFault>)
    ensures
        match psbt {
            Ok(psbt) => psbt_of_text(text@) == Ok::<Signed, PsbtFault>(psbt@)
                && psbt@.reads_back(),
            Err(fault) => psbt_of_text(text@) == Err::<Signed, PsbtFault>(fault),
        },
{
    match decode_base64(text) {
        Some(bytes) => match Psbt::deserialize(&bytes) {
            Some(psbt) => Ok(psbt),
            None => Err(PsbtFault::Psbt),
        },
        None => Err(PsbtFault::Base64),
    }
}

/// The PSBTs in base64 texts; the fault of the first text that is none.
pub open spec fn psbts_of_texts(texts: Seq<Seq<char>>) -> Result<Seq<Signed>, PsbtFault>
    decreases texts.len(),
{
    if texts.len() == 0 {
        Ok(Seq::empty())
    } else {
        match psbts_of_texts(texts.drop_last()) {
            Ok(done) => match psbt_of_text(texts.last()) {
                Ok(psbt) => Ok(done.push(psbt)),
                Err(fault) => Err(fault),
            },
            Err(fault) => Err(fault),
        }
    }
}

proof fn lemma_first_fault(texts: Seq<Seq<char>>, n: int, fault: PsbtFault)
    requires
        0 <= n <= texts.len(),
        psbts_of_texts(texts.take(n)) == Err::<Seq<Signed>, PsbtFault>(fault),
    ensures
        psbts_of_texts(texts) == Err::<Seq<Signed>, PsbtFault>(fault),
    decreases texts.len() - n,
{
    if n < texts.len() {
        assert(texts.take(n + 1).drop_last() =~= texts.take(n));
        lemma_first_fault(texts, n + 1, fault);
    } else {
        assert(texts.take(n) =~= texts);
    }
}

/// Reads PSBTs from base64 texts, up to the first fault.
pub fn parse_psbts(list: &[String]) -> (psbts: Result<Vec<Psbt>, PsbtFault>)
    ensures
        match psbts {
            Ok(psbts) => psbts_of_texts(crate::text::texts(list@)) == Ok::<
                Seq<Signed>,
                PsbtFault,
            >(psbts_view(psbts@)),
            Err(fault) => psbts_of_texts(crate::text::texts(list@)) == Err::<
                Seq<Signed>,
                PsbtFault,
            >(fault),
        },
{
    let ghost all = crate::text::texts(list@);
    let mut psbts: Vec<Psbt> = Vec::new();
    let mut i: usize = 0;
    proof {
        assert(all.take(0) =~= Seq::empty());
        assert(psbts_view(psbts@) =~= Seq::<Signed>::empty());
    }
    while i < list.len()
        invariant
            i <= list@.len(),
            all == crate::text::texts(list@),
            psbts_of_texts(all.take(i as int)) == Ok::<Seq<Signed>, PsbtFault>(psbts_view(psbts@)),
        decreases list@.len() - i,
    {
        proof {
            assert(all.take(i + 1).drop_last() =~= all.take(i as int));
            assert(all.take(i + 1).last() == list@[i as int]@);
        }
        match parse_psbt(list[i].as_str()) {
            Ok(psbt) => {
                let ghost was = psbts_view(psbts@);
                let ghost read = psbt@;
                psbts.push(psbt);
                assert(psbts_view(psbts@) =~= was.push(read));
            },
            Err(fault) => {
                proof {
                    lemma_first_fault(all, i + 1, fault);
                }
                return Err(fault);
            },
        }
        i += 1;
    }
    assert(all.take(all.len() as int) =~= all);
    Ok(psbts)
}

} // verus!
