//! Transactions that are on their way, and the journal that keeps them across restarts.

use crate::arkade;
use crate::arkade::{Record, VtxoRecord};
use crate::chain;
use crate::chain::{AssetId, OutPoint, Tx, Txid};
use crate::gamelog;
use crate::gamelog::MoveBurn;
use crate::psbt;
use crate::psbt::{Psbt, PsbtFault, Signed};
use crate::table::Table;
use crate::text;
use vstd::prelude::*;

verus! {

/// A signed transaction that was prepared; whether the operator has it is not known.
pub struct UnknownSubmission {
    pub txid: Txid,
    pub signed_ark: Psbt,
    pub checkpoints: Vec<Psbt>,
    pub last_error: String,
}

/// A transaction that the operator has cosigned and that waits for its checkpoints.
pub struct PendingFinalize {
    pub txid: Txid,
    pub signed_ark: Psbt,
    pub checkpoints: Vec<Psbt>,
    pub last_error: String,
}

/// What an `UnknownSubmission` or a `PendingFinalize` holds.
#[verifier::ext_equal]
pub struct Prepared {
    pub txid: Txid,
    pub signed_ark: Signed,
    pub checkpoints: Seq<Signed>,
    pub last_error: Seq<char>,
}

impl View for UnknownSubmission {
    type V = Prepared;

    open spec fn view(&self) -> Prepared {
        Prepared {
            txid: self.txid,
            signed_ark: self.signed_ark@,
            checkpoints: psbt::psbts_view(self.checkpoints@),
            last_error: self.last_error@,
        }
    }
}

impl View for PendingFinalize {
    type V = Prepared;

    open spec fn view(&self) -> Prepared {
        Prepared {
            txid: self.txid,
            signed_ark: self.signed_ark@,
            checkpoints: psbt::psbts_view(self.checkpoints@),
            last_error: self.last_error@,
        }
    }
}

impl Clone for UnknownSubmission {
    fn clone(&self) -> (copy: UnknownSubmission)
        ensures
            copy@ == self@,
    {
        UnknownSubmission {
            txid: self.txid,
            signed_ark: self.signed_ark.clone(),
            checkpoints: psbt::copy_psbts(&self.checkpoints),
            last_error: self.last_error.clone(),
        }
    }
}

impl Clone for PendingFinalize {
    fn clone(&self) -> (copy: PendingFinalize)
        ensures
            copy@ == self@,
    {
        PendingFinalize {
            txid: self.txid,
            signed_ark: self.signed_ark.clone(),
            checkpoints: psbt::copy_psbts(&self.checkpoints),
            last_error: self.last_error.clone(),
        }
    }
}

/// The transaction that the game is completing.
pub enum PendingAction {
    Issuance { pending: PendingFinalize, asset_ids: [AssetId; 6] },
    Move { pending: PendingFinalize, direction: u8, sequence: u32 },
    UnknownIssuance { submission: UnknownSubmission, asset_ids: [AssetId; 6] },
    UnknownMove { submission: UnknownSubmission, direction: u8, sequence: u32 },
    Sweep { pending: PendingFinalize },
    UnknownSweep { submission: UnknownSubmission },
}

/// What a pending transaction is for.
#[verifier::ext_equal]
pub enum Purpose {
    Issuance(Seq<AssetId>),
    Move(u8, u32),
    Sweep,
}

/// What a `PendingAction` holds: whether its submission is unknown, the transaction, and what it
/// is for.
#[verifier::ext_equal]
pub struct Pending {
    pub unknown: bool,
    pub tx: Prepared,
    pub purpose: Purpose,
}

impl View for PendingAction {
    type V = Pending;

    open spec fn view(&self) -> Pending {
        match self {
            PendingAction::Issuance { pending, asset_ids } => Pending {
                unknown: false,
                tx: pending@,
                purpose: Purpose::Issuance(asset_ids@),
            },
            PendingAction::Move { pending, direction, sequence } => Pending {
                unknown: false,
                tx: pending@,
                purpose: Purpose::Move(*direction, *sequence),
            },
            PendingAction::UnknownIssuance { submission, asset_ids } => Pending {
                unknown: true,
                tx: submission@,
                purpose: Purpose::Issuance(asset_ids@),
            },
            PendingAction::UnknownMove { submission, direction, sequence } => Pending {
                unknown: true,
                tx: submission@,
                purpose: Purpose::Move(*direction, *sequence),
            },
            PendingAction::Sweep { pending } => Pending {
                unknown: false,
                tx: pending@,
                purpose: Purpose::Sweep,
            },
            PendingAction::UnknownSweep { submission } => Pending {
                unknown: true,
                tx: submission@,
                purpose: Purpose::Sweep,
            },
        }
    }
}

pub open spec fn opt_pending(action: Option<PendingAction>) -> Option<Pending> {
    match action {
        Some(action) => Some(action@),
        None => None,
    }
}

impl Clone for PendingAction {
    fn clone(&self) -> (copy: PendingAction)
        ensures
            copy@ == self@,
    {
        match self {
            PendingAction::Issuance { pending, asset_ids } => PendingAction::Issuance {
                pending: pending.clone(),
                asset_ids: *asset_ids,
            },
            PendingAction::Move { pending, direction, sequence } => PendingAction::Move {
                pending: pending.clone(),
                direction: *direction,
                sequence: *sequence,
            },
            PendingAction::UnknownIssuance { submission, asset_ids } =>
                PendingAction::UnknownIssuance {
                submission: submission.clone(),
                asset_ids: *asset_ids,
            },
            PendingAction::UnknownMove { submission, direction, sequence } =>
                PendingAction::UnknownMove {
                submission: submission.clone(),
                direction: *direction,
                sequence: *sequence,
            },
            PendingAction::Sweep { pending } => PendingAction::Sweep { pending: pending.clone() },
            PendingAction::UnknownSweep { submission } => PendingAction::UnknownSweep {
                submission: submission.clone(),
            },
        }
    }
}

pub fn pending_action_psbt(action: &PendingAction) -> (psbt: &Psbt)
    ensures
        psbt@ == action@.tx.signed_ark,
{
    match action {
        PendingAction::Issuance { pending, .. } => &pending.signed_ark,
        PendingAction::Move { pending, .. } => &pending.signed_ark,
        PendingAction::Sweep { pending } => &pending.signed_ark,
        PendingAction::UnknownIssuance { submission, .. } => &submission.signed_ark,
        PendingAction::UnknownMove { submission, .. } => &submission.signed_ark,
        PendingAction::UnknownSweep { submission } => &submission.signed_ark,
    }
}

pub fn pending_action_checkpoints(action: &PendingAction) -> (checkpoints: &Vec<Psbt>)
    ensures
        psbt::psbts_view(checkpoints@) == action@.tx.checkpoints,
{
    match action {
        PendingAction::Issuance { pending, .. } => &pending.checkpoints,
        PendingAction::Move { pending, .. } => &pending.checkpoints,
        PendingAction::Sweep { pending } => &pending.checkpoints,
        PendingAction::UnknownIssuance { submission, .. } => &submission.checkpoints,
        PendingAction::UnknownMove { submission, .. } => &submission.checkpoints,
        PendingAction::UnknownSweep { submission } => &submission.checkpoints,
    }
}

pub fn pending_action_txid(action: &PendingAction) -> (txid: Txid)
    ensures
        txid == action@.tx.txid,
{
    match action {
        PendingAction::Issuance { pending, .. } => pending.txid,
        PendingAction::Move { pending, .. } => pending.txid,
        PendingAction::Sweep { pending } => pending.txid,
        PendingAction::UnknownIssuance { submission, .. } => submission.txid,
        PendingAction::UnknownMove { submission, .. } => submission.txid,
        PendingAction::UnknownSweep { submission } => submission.txid,
    }
}

/// Whether the action was prepared in this run and has not been submitted before.
pub open spec fn is_fresh(action: Option<Pending>, needs_recovery: bool) -> bool {
    !needs_recovery && action is Some && action.unwrap().unknown
}

pub fn is_fresh_prepared_action(action: Option<&PendingAction>, needs_recovery: bool) -> (fresh: bool)
    ensures
        fresh == is_fresh(
            match action {
                Some(action) => Some(action@),
                None => None,
            },
            needs_recovery,
        ),
{
    !needs_recovery && match action {
        Some(PendingAction::UnknownIssuance { .. }) => true,
        Some(PendingAction::UnknownMove { .. }) => true,
        Some(PendingAction::UnknownSweep { .. }) => true,
        _ => false,
    }
}

/// How far a journaled transaction had come.
#[derive(Clone, Copy, Debug, PartialEq, Eq, Structural)]
pub enum JournalStage {
    Prepared,
    Finalizing,
}

/// A transaction as the journal keeps it.
#[derive(Debug)]
pub struct JournalTransaction {
    pub stage: JournalStage,
    pub txid: String,
    pub signed_ark: String,
    pub checkpoints: Vec<String>,
    pub last_error: String,
}

/// What a `JournalTransaction` says.
#[verifier::ext_equal]
pub struct JournalTx {
    pub stage: JournalStage,
    pub txid: Seq<char>,
    pub signed_ark: Seq<char>,
    pub checkpoints: Seq<Seq<char>>,
    pub last_error: Seq<char>,
}

impl View for JournalTransaction {
    type V = JournalTx;

    open spec fn view(&self) -> JournalTx {
        JournalTx {
            stage: self.stage,
            txid: self.txid@,
            signed_ark: self.signed_ark@,
            checkpoints: text::texts(self.checkpoints@),
            last_error: self.last_error@,
        }
    }
}

/// A pending action as the journal keeps it.
#[derive(Debug)]
pub enum PendingJournalAction {
    Issuance { transaction: JournalTransaction, asset_ids: [String; 6] },
    Move { transaction: JournalTransaction, direction: u8, sequence: u32 },
    Sweep { transaction: JournalTransaction },
}

#[verifier::ext_equal]
pub enum JournalPurpose {
    Issuance(Seq<Seq<char>>),
    Move(u8, u32),
    Sweep,
}

/// What a `PendingJournalAction` says.
#[verifier::ext_equal]
pub struct Journaled {
    pub tx: JournalTx,
    pub purpose: JournalPurpose,
}

impl View for PendingJournalAction {
    type V = Journaled;

    open spec fn view(&self) -> Journaled {
        match self {
            PendingJournalAction::Issuance { transaction, asset_ids } => Journaled {
                tx: transaction@,
                purpose: JournalPurpose::Issuance(text::texts(asset_ids@)),
            },
            PendingJournalAction::Move { transaction, direction, sequence } => Journaled {
                tx: transaction@,
                purpose: JournalPurpose::Move(*direction, *sequence),
            },
            PendingJournalAction::Sweep { transaction } => Journaled {
                tx: transaction@,
                purpose: JournalPurpose::Sweep,
            },
        }
    }
}

/// The journal of one wallet at one operator.
#[derive(Debug)]
pub struct PendingJournal {
    pub version: u8,
    pub server: String,
    pub address: String,
    pub signer: String,
    pub action: PendingJournalAction,
}

/// Why a journal cannot be taken up again.
#[derive(Clone, Copy, Debug, PartialEq, Eq, Structural)]
pub enum JournalError {
    TooLarge,
    UnsupportedVersion(u8),
    DifferentServer,
    DifferentWallet,
    DifferentSigner,
    Txid,
    ArkTx(PsbtFault),
    ArkTxid,
    CheckpointCount,
    Checkpoint(PsbtFault),
    InconsistentCheckpoints,
    ActionCode,
    NotABurn,
    BurnMismatch,
    AssetId,
    AssetIdMismatch,
    NotARegistration,
}

/// A transaction in the form of the journal.
pub open spec fn journal_tx(unknown: bool, tx: Prepared) -> JournalTx {
    JournalTx {
        stage: if unknown {
            JournalStage::Prepared
        } else {
            JournalStage::Finalizing
        },
        txid: tx.txid.text(),
        signed_ark: psbt::base64_text(tx.signed_ark.raw),
        checkpoints: tx.checkpoints.map_values(|c: Signed| psbt::base64_text(c.raw)),
        last_error: tx.last_error,
    }
}

pub open spec fn asset_texts(ids: Seq<AssetId>) -> Seq<Seq<char>> {
    ids.map_values(|id: AssetId| id.text())
}

/// A pending action in the form of the journal.
pub open spec fn journal_of(action: Pending) -> Journaled {
    Journaled {
        tx: journal_tx(action.unknown, action.tx),
        purpose: match action.purpose {
            Purpose::Issuance(ids) => JournalPurpose::Issuance(asset_texts(ids)),
            Purpose::Move(direction, sequence) => JournalPurpose::Move(direction, sequence),
            Purpose::Sweep => JournalPurpose::Sweep,
        },
    }
}

/// The transaction that a journal holds, or why it is not accepted: the texts have to be well
/// formed, the transaction has to have the journaled id, and there have to be one to twenty
/// checkpoints, one for each input of the transaction, each with a single input.
pub open spec fn restored_tx(tx: JournalTx) -> Result<Prepared, JournalError> {
    match Txid::of_text(tx.txid) {
        None => Err(JournalError::Txid),
        Some(txid) => match psbt::psbt_of_text(tx.signed_ark) {
            Err(fault) => Err(JournalError::ArkTx(fault)),
            Ok(signed_ark) => if signed_ark.txid() != txid {
                Err(JournalError::ArkTxid)
            } else if tx.checkpoints.len() == 0 || tx.checkpoints.len() > 20 {
                Err(JournalError::CheckpointCount)
            } else {
                match psbt::psbts_of_texts(tx.checkpoints) {
                    Err(fault) => Err(JournalError::Checkpoint(fault)),
                    Ok(checkpoints) => if signed_ark.tx.input.len() != checkpoints.len()
                        || !single_inputs(checkpoints) {
                        Err(JournalError::InconsistentCheckpoints)
                    } else {
                        Ok(Prepared { txid, signed_ark, checkpoints, last_error: tx.last_error })
                    },
                }
            },
        },
    }
}

/// Each of the transactions has exactly one input.
pub open spec fn single_inputs(checkpoints: Seq<Signed>) -> bool {
    forall|i: int| 0 <= i < checkpoints.len() ==> (#[trigger] checkpoints[i]).tx.input.len() == 1
}

/// The assets that texts name, where each names one.
pub open spec fn assets_of_texts(texts: Seq<Seq<char>>) -> Option<Seq<AssetId>> {
    if forall|i: int|
        0 <= i < texts.len() ==> chain::asset_id_of(#[trigger] texts[i]) is Some {
        Some(texts.map_values(|t: Seq<char>| chain::asset_id_of(t).unwrap()))
    } else {
        None
    }
}

/// The assets are those of the groups of one issuance, in order.
pub open spec fn groups_of(ids: Seq<AssetId>, txid: Txid) -> bool {
    forall|i: int|
        0 <= i < ids.len() ==> (#[trigger] ids[i]).txid == txid && ids[i].group_index == i
}

/// What a journal stands for, or why it is not accepted.
pub open spec fn restored(journal: Journaled) -> Result<Pending, JournalError> {
    let unknown = journal.tx.stage == JournalStage::Prepared;
    match journal.purpose {
        JournalPurpose::Issuance(texts) => match restored_tx(journal.tx) {
            Err(error) => Err(error),
            Ok(tx) => match assets_of_texts(texts) {
                None => Err(JournalError::AssetId),
                Some(ids) => if groups_of(ids, tx.txid) {
                    Ok(Pending { unknown, tx, purpose: Purpose::Issuance(ids) })
                } else {
                    Err(JournalError::AssetIdMismatch)
                },
            },
        },
        JournalPurpose::Move(direction, sequence) => if direction >= 6 {
            Err(JournalError::ActionCode)
        } else {
            match restored_tx(journal.tx) {
                Err(error) => Err(error),
                Ok(tx) => match gamelog::burn_of(tx.signed_ark.tx.output) {
                    None => Err(JournalError::NotABurn),
                    Some(burn) => if burn.asset_id.group_index != direction
                        || burn.receipt.sequence != sequence {
                        Err(JournalError::BurnMismatch)
                    } else {
                        Ok(Pending { unknown, tx, purpose: Purpose::Move(direction, sequence) })
                    },
                },
            }
        },
        JournalPurpose::Sweep => match restored_tx(journal.tx) {
            Err(error) => Err(error),
            Ok(tx) => Ok(Pending { unknown, tx, purpose: Purpose::Sweep }),
        },
    }
}

/// A pending action that is consistent in itself: what the journal checks when it takes one up.
pub open spec fn consistent(action: Pending) -> bool {
    let tx = action.tx;
    &&& tx.txid == tx.signed_ark.txid()
    &&& 1 <= tx.checkpoints.len() <= 20
    &&& tx.signed_ark.tx.input.len() == tx.checkpoints.len()
    &&& single_inputs(tx.checkpoints)
    &&& match action.purpose {
        Purpose::Issuance(ids) => groups_of(ids, tx.txid),
        Purpose::Move(direction, sequence) => direction < 6 && match gamelog::burn_of(
            tx.signed_ark.tx.output,
        ) {
            Some(burn) => burn.asset_id.group_index == direction && burn.receipt.sequence
                == sequence,
            None => false,
        },
        Purpose::Sweep => true,
    }
}

/// Whether the transactions of a pending action are written so that they can be read.
pub open spec fn readable(tx: Prepared) -> bool {
    &&& tx.signed_ark.is_readable()
    &&& forall|i: int| 0 <= i < tx.checkpoints.len() ==> (#[trigger] tx.checkpoints[i]).is_readable()
}

fn journal_transaction(
    stage: JournalStage,
    txid: Txid,
    signed_ark: &Psbt,
    checkpoints: &[Psbt],
    last_error: &str,
) -> (transaction: JournalTransaction)
    ensures
        transaction@ == journal_tx(
            stage == JournalStage::Prepared,
            (Prepared {
                txid,
                signed_ark: signed_ark@,
                checkpoints: psbt::psbts_view(checkpoints@),
                last_error: last_error@,
            }),
        ),
        signed_ark@.is_readable() ==> psbt::psbt_of_text(transaction@.signed_ark) == Ok::<
            Signed,
            PsbtFault,
        >(signed_ark@),
        forall|i: int|
            0 <= i < checkpoints@.len() && checkpoints@[i]@.is_readable() ==> psbt::psbt_of_text(
                #[trigger] transaction@.checkpoints[i],
            ) == Ok::<Signed, PsbtFault>(checkpoints@[i]@),
{
    let ghost all = psbt::psbts_view(checkpoints@);
    let ghost expected = all.map_values(|c: Signed| psbt::base64_text(c.raw));
    let mut list: Vec<String> = Vec::new();
    let mut i: usize = 0;
    while i < checkpoints.len()
        invariant
            i <= checkpoints@.len(),
            all == psbt::psbts_view(checkpoints@),
            expected == all.map_values(|c: Signed| psbt::base64_text(c.raw)),
            text::texts(list@) == expected.take(i as int),
            list@.len() == i,
            forall|k: int|
                0 <= k < i && checkpoints@[k]@.is_readable() ==> psbt::psbt_of_text(
                    #[trigger] text::texts(list@)[k],
                ) == Ok::<Signed, PsbtFault>(checkpoints@[k]@),
        decreases checkpoints@.len() - i,
    {
        let ghost was = list@;
        let shown: String = checkpoints[i].to_base64();
        list.push(shown);
        proof {
            assert(text::texts(list@) =~= text::texts(was).push(shown@));
            assert(expected.take(i + 1) =~= expected.take(i as int).push(expected[i as int]));
            assert forall|k: int|
                0 <= k < i + 1 && checkpoints@[k]@.is_readable() implies psbt::psbt_of_text(
                #[trigger] text::texts(list@)[k],
            ) == Ok::<Signed, PsbtFault>(checkpoints@[k]@) by {
                if k < i {
                    assert(text::texts(list@)[k] == text::texts(was)[k]);
                }
            }
        }
        i += 1;
    }
    assert(expected.take(expected.len() as int) =~= expected);
    JournalTransaction {
        stage,
        txid: txid.to_string(),
        signed_ark: signed_ark.to_base64(),
        checkpoints: list,
        last_error: last_error.to_owned(),
    }
}

fn asset_strings(ids: &[AssetId; 6]) -> (texts: [String; 6])
    ensures
        text::texts(texts@) == asset_texts(ids@),
{
    let texts: [String; 6] = [
        ids[0].to_string(),
        ids[1].to_string(),
        ids[2].to_string(),
        ids[3].to_string(),
        ids[4].to_string(),
        ids[5].to_string(),
    ];
    assert(text::texts(texts@) =~= asset_texts(ids@));
    texts
}

proof fn lemma_texts_read_back(checkpoints: Seq<Signed>, texts: Seq<Seq<char>>)
    requires
        texts.len() == checkpoints.len(),
        forall|i: int|
            0 <= i < texts.len() ==> psbt::psbt_of_text(#[trigger] texts[i]) == Ok::<
                Signed,
                PsbtFault,
            >(checkpoints[i]),
    ensures
        psbt::psbts_of_texts(texts) == Ok::<Seq<Signed>, PsbtFault>(checkpoints),
    decreases texts.len(),
{
    if texts.len() == 0 {
        assert(checkpoints =~= Seq::empty());
    } else {
        let n = texts.len() - 1;
        assert forall|i: int| 0 <= i < n implies psbt::psbt_of_text(
            #[trigger] texts.drop_last()[i],
        ) == Ok::<Signed, PsbtFault>(checkpoints.drop_last()[i]) by {
            assert(texts.drop_last()[i] == texts[i]);
        }
        lemma_texts_read_back(checkpoints.drop_last(), texts.drop_last());
        assert(texts.last() == texts[n]);
        assert(checkpoints.drop_last().push(checkpoints.last()) =~= checkpoints);
    }
}

proof fn lemma_assets_read_back(ids: Seq<AssetId>)
    ensures
        assets_of_texts(asset_texts(ids)) == Some(ids),
{
    let texts = asset_texts(ids);
    assert forall|i: int| 0 <= i < texts.len() implies chain::asset_id_of(#[trigger] texts[i])
        == Some(ids[i]) by {
        chain::law_asset_id_round_trip(ids[i]);
    }
    assert(texts.map_values(|t: Seq<char>| chain::asset_id_of(t).unwrap()) =~= ids);
}

proof fn lemma_journal_round_trip(action: Pending, journal: Journaled)
    requires
        journal == journal_of(action),
        consistent(action),
        psbt::psbt_of_text(journal.tx.signed_ark) == Ok::<Signed, PsbtFault>(action.tx.signed_ark),
        forall|i: int|
            0 <= i < action.tx.checkpoints.len() ==> psbt::psbt_of_text(
                #[trigger] journal.tx.checkpoints[i],
            ) == Ok::<Signed, PsbtFault>(action.tx.checkpoints[i]),
    ensures
        restored(journal) == Ok::<Pending, JournalError>(action),
{
    chain::law_txid_text_round_trip(action.tx.txid);
    lemma_texts_read_back(action.tx.checkpoints, journal.tx.checkpoints);
    if let Purpose::Issuance(ids) = action.purpose {
        lemma_assets_read_back(ids);
    }
}

/// Writes a pending action to the journal. A consistent action is restored from it exactly, unless a
/// transaction of it is too large to be read.
pub fn pending_action_to_journal(action: &PendingAction) -> (journal: PendingJournalAction)
    ensures
        journal@ == journal_of(action@),
        consistent(action@) && readable(action@.tx) ==> restored(journal@) == Ok::<
            Pending,
            JournalError,
        >(action@),
{
    let stage: JournalStage = match action {
        PendingAction::UnknownIssuance { .. } => JournalStage::Prepared,
        PendingAction::UnknownMove { .. } => JournalStage::Prepared,
        PendingAction::UnknownSweep { .. } => JournalStage::Prepared,
        _ => JournalStage::Finalizing,
    };
    let last_error: &str = match action {
        PendingAction::Issuance { pending, .. } => pending.last_error.as_str(),
        PendingAction::Move { pending, .. } => pending.last_error.as_str(),
        PendingAction::Sweep { pending } => pending.last_error.as_str(),
        PendingAction::UnknownIssuance { submission, .. } => submission.last_error.as_str(),
        PendingAction::UnknownMove { submission, .. } => submission.last_error.as_str(),
        PendingAction::UnknownSweep { submission } => submission.last_error.as_str(),
    };
    let transaction: JournalTransaction = journal_transaction(
        stage,
        pending_action_txid(action),
        pending_action_psbt(action),
        pending_action_checkpoints(action),
        last_error,
    );
    let journal: PendingJournalAction = match action {
        PendingAction::Issuance { asset_ids, .. } => PendingJournalAction::Issuance {
            transaction,
            asset_ids: asset_strings(asset_ids),
        },
        PendingAction::UnknownIssuance { asset_ids, .. } => PendingJournalAction::Issuance {
            transaction,
            asset_ids: asset_strings(asset_ids),
        },
        PendingAction::Move { direction, sequence, .. } => PendingJournalAction::Move {
            transaction,
            direction: *direction,
            sequence: *sequence,
        },
        PendingAction::UnknownMove { direction, sequence, .. } => PendingJournalAction::Move {
            transaction,
            direction: *direction,
            sequence: *sequence,
        },
        PendingAction::Sweep { .. } => PendingJournalAction::Sweep { transaction },
        PendingAction::UnknownSweep { .. } => PendingJournalAction::Sweep { transaction },
    };
    proof {
        assert(journal@ =~= journal_of(action@));
        if consistent(action@) && readable(action@.tx) {
            assert forall|i: int| 0 <= i < action@.tx.checkpoints.len() implies psbt::psbt_of_text(
                #[trigger] journal@.tx.checkpoints[i],
            ) == Ok::<Signed, PsbtFault>(action@.tx.checkpoints[i]) by {
                assert(action@.tx.checkpoints[i].is_readable());
            }
            lemma_journal_round_trip(action@, journal@);
        }
    }
    journal
}

/// A transaction taken up from the journal.
pub enum RestoredTransaction {
    Prepared(UnknownSubmission),
    Finalizing(PendingFinalize),
}

impl View for RestoredTransaction {
    type V = (bool, Prepared);

    open spec fn view(&self) -> (bool, Prepared) {
        match self {
            RestoredTransaction::Prepared(submission) => (true, submission@),
            RestoredTransaction::Finalizing(pending) => (false, pending@),
        }
    }
}

fn restored_transaction_psbt(transaction: &RestoredTransaction) -> (psbt: &Psbt)
    ensures
        psbt@ == transaction@.1.signed_ark,
{
    match transaction {
        RestoredTransaction::Prepared(submission) => &submission.signed_ark,
        RestoredTransaction::Finalizing(pending) => &pending.signed_ark,
    }
}

fn restored_transaction_txid(transaction: &RestoredTransaction) -> (txid: Txid)
    ensures
        txid == transaction@.1.txid,
{
    match transaction {
        RestoredTransaction::Prepared(submission) => submission.txid,
        RestoredTransaction::Finalizing(pending) => pending.txid,
    }
}

/// Whether each of the transactions has exactly one input.
fn have_single_inputs(checkpoints: &[Psbt]) -> (result: bool)
    ensures
        result == single_inputs(psbt::psbts_view(checkpoints@)),
{
    let ghost all = psbt::psbts_view(checkpoints@);
    let mut i: usize = 0;
    while i < checkpoints.len()
        invariant
            i <= checkpoints@.len(),
            all == psbt::psbts_view(checkpoints@),
            forall|k: int| 0 <= k < i ==> (#[trigger] all[k]).tx.input.len() == 1,
        decreases checkpoints@.len() - i,
    {
        assert(all[i as int] == checkpoints@[i as int]@);
        if checkpoints[i].unsigned_tx().input.len() != 1 {
            return false;
        }
        i += 1;
    }
    true
}

/// Takes up a transaction from the journal.
fn restore_transaction(transaction: JournalTransaction) -> (restored: Result<
    RestoredTransaction,
    JournalError,
>)
    ensures
        match restored {
            Ok(restored) => restored@.0 == (transaction.stage == JournalStage::Prepared)
                && restored_tx(transaction@) == Ok::<Prepared, JournalError>(restored@.1),
            Err(error) => restored_tx(transaction@) == Err::<Prepared, JournalError>(error),
        },
{
    let txid: Txid = match Txid::from_text(transaction.txid.as_str()) {
        Some(txid) => txid,
        None => {
            return Err(JournalError::Txid);
        },
    };
    let signed_ark: Psbt = match psbt::parse_psbt(transaction.signed_ark.as_str()) {
        Ok(psbt) => psbt,
        Err(fault) => {
            return Err(JournalError::ArkTx(fault));
        },
    };
    if signed_ark.compute_txid() != txid {
        return Err(JournalError::ArkTxid);
    }
    if transaction.checkpoints.len() == 0 || transaction.checkpoints.len() > 20 {
        return Err(JournalError::CheckpointCount);
    }
    let checkpoints: Vec<Psbt> = match psbt::parse_psbts(&transaction.checkpoints) {
        Ok(psbts) => psbts,
        Err(fault) => {
            return Err(JournalError::Checkpoint(fault));
        },
    };
    if signed_ark.unsigned_tx().input.len() != checkpoints.len() || !have_single_inputs(
        &checkpoints,
    ) {
        return Err(JournalError::InconsistentCheckpoints);
    }
    let last_error: String = transaction.last_error;
    match transaction.stage {
        JournalStage::Prepared => Ok(
            RestoredTransaction::Prepared(
                UnknownSubmission { txid, signed_ark, checkpoints, last_error },
            ),
        ),
        JournalStage::Finalizing => Ok(
            RestoredTransaction::Finalizing(
                PendingFinalize { txid, signed_ark, checkpoints, last_error },
            ),
        ),
    }
}

/// Reads the assets of a journaled issuance.
fn restore_asset_ids(raw: &[String; 6], txid: Txid) -> (ids: Result<[AssetId; 6], JournalError>)
    ensures
        match ids {
            Ok(ids) => assets_of_texts(text::texts(raw@)) == Some(ids@) && groups_of(ids@, txid),
            Err(JournalError::AssetId) => assets_of_texts(text::texts(raw@)) is None,
            Err(error) => error == JournalError::AssetIdMismatch && assets_of_texts(
                text::texts(raw@),
            ) is Some && !groups_of(assets_of_texts(text::texts(raw@)).unwrap(), txid),
        },
{
    let ghost texts = text::texts(raw@);
    let mut ids: [AssetId; 6] = [
        AssetId { txid, group_index: 0 },
        AssetId { txid, group_index: 0 },
        AssetId { txid, group_index: 0 },
        AssetId { txid, group_index: 0 },
        AssetId { txid, group_index: 0 },
        AssetId { txid, group_index: 0 },
    ];
    let mut i: usize = 0;
    while i < 6
        invariant
            i <= 6,
            texts == text::texts(raw@),
            texts.len() == 6,
            forall|k: int|
                0 <= k < i ==> chain::asset_id_of(#[trigger] texts[k]) == Some(ids@[k]),
        decreases 6 - i,
    {
        assert(texts[i as int] == raw@[i as int]@);
        match chain::parse_asset_id(raw[i].as_str()) {
            Some(id) => {
                ids[i] = id;
            },
            None => {
                return Err(JournalError::AssetId);
            },
        }
        i += 1;
    }
    proof {
        assert(texts.map_values(|t: Seq<char>| chain::asset_id_of(t).unwrap()) =~= ids@);
    }
    let mut j: usize = 0;
    while j < 6
        invariant
            j <= 6,
            assets_of_texts(texts) == Some(ids@),
            texts == text::texts(raw@),
            forall|k: int| 0 <= k < j ==> (#[trigger] ids@[k]).txid == txid && ids@[k].group_index == k,
        decreases 6 - j,
    {
        if ids[j].txid != txid || ids[j].group_index != j as u16 {
            assert(!groups_of(ids@, txid)) by {
                assert(ids@[j as int].txid != txid || ids@[j as int].group_index != j);
            }
            return Err(JournalError::AssetIdMismatch);
        }
        j += 1;
    }
    Ok(ids)
}

/// Takes up a pending action from the journal.
pub fn pending_action_from_journal(action: PendingJournalAction) -> (pending: Result<
    PendingAction,
    JournalError,
>)
    ensures
        match pending {
            Ok(pending) => restored(action@) == Ok::<Pending, JournalError>(pending@),
            Err(error) => restored(action@) == Err::<Pending, JournalError>(error),
        },
{
    match action {
        PendingJournalAction::Issuance { transaction, asset_ids } => {
            let transaction: RestoredTransaction = match restore_transaction(transaction) {
                Ok(transaction) => transaction,
                Err(error) => {
                    return Err(error);
                },
            };
            let txid: Txid = restored_transaction_txid(&transaction);
            let asset_ids: [AssetId; 6] = match restore_asset_ids(&asset_ids, txid) {
                Ok(asset_ids) => asset_ids,
                Err(error) => {
                    return Err(error);
                },
            };
            match transaction {
                RestoredTransaction::Prepared(submission) => Ok(
                    PendingAction::UnknownIssuance { submission, asset_ids },
                ),
                RestoredTransaction::Finalizing(pending) => Ok(
                    PendingAction::Issuance { pending, asset_ids },
                ),
            }
        },
        PendingJournalAction::Move { transaction, direction, sequence } => {
            if direction >= 6 {
                return Err(JournalError::ActionCode);
            }
            let transaction: RestoredTransaction = match restore_transaction(transaction) {
                Ok(transaction) => transaction,
                Err(error) => {
                    return Err(error);
                },
            };
            let burn: MoveBurn = match gamelog::move_burn_from_tx(
                restored_transaction_psbt(&transaction).unsigned_tx(),
            ) {
                Some(burn) => burn,
                None => {
                    return Err(JournalError::NotABurn);
                },
            };
            if burn.asset_id.group_index != direction as u16 || burn.receipt.sequence != sequence {
                return Err(JournalError::BurnMismatch);
            }
            match transaction {
                RestoredTransaction::Prepared(submission) => Ok(
                    PendingAction::UnknownMove { submission, direction, sequence },
                ),
                RestoredTransaction::Finalizing(pending) => Ok(
                    PendingAction::Move { pending, direction, sequence },
                ),
            }
        },
        PendingJournalAction::Sweep { transaction } => match restore_transaction(transaction) {
            Ok(RestoredTransaction::Prepared(submission)) => Ok(
                PendingAction::UnknownSweep { submission },
            ),
            Ok(RestoredTransaction::Finalizing(pending)) => Ok(PendingAction::Sweep { pending }),
            Err(error) => Err(error),
        },
    }
}

/// Whatever the journal accepts is consistent in itself.
pub proof fn law_restored_actions_are_consistent(journal: Journaled)
    requires
        restored(journal) is Ok,
    ensures
        consistent(restored(journal)->Ok_0),
{
    let tx = restored_tx(journal.tx)->Ok_0;
    lemma_psbts_len(journal.tx.checkpoints);
}

proof fn lemma_psbts_len(texts: Seq<Seq<char>>)
    ensures
        match psbt::psbts_of_texts(texts) {
            Ok(psbts) => psbts.len() == texts.len(),
            Err(_) => true,
        },
    decreases texts.len(),
{
    if texts.len() > 0 {
        lemma_psbts_len(texts.drop_last());
    }
}

/// The output that a transaction with a single input spends.
pub open spec fn only_input(tx: Tx) -> Option<OutPoint> {
    if tx.input.len() == 1 {
        Some(tx.input[0].previous_output)
    } else {
        None
    }
}

/// The output that an action spends.
pub fn action_predecessor(psbt: &Psbt) -> (outpoint: Option<OutPoint>)
    ensures
        outpoint == only_input(psbt@.tx),
{
    if psbt.unsigned_tx().input.len() == 1 {
        Some(psbt.unsigned_tx().input[0].previous_output)
    } else {
        None
    }
}

/// The output behind a carrier: the carrier is the first output of a transaction with a single
/// input, which is that output.
pub open spec fn parent_of(carrier: OutPoint, transactions: Map<Txid, Signed>) -> Option<OutPoint> {
    if carrier.vout == 0 && transactions.contains_key(carrier.txid) {
        only_input(transactions[carrier.txid].tx)
    } else {
        None
    }
}

/// The output that the transaction of a carrier spends.
pub fn carrier_parent(carrier: OutPoint, transactions: &Table<Txid, Psbt>) -> (outpoint: Option<
    OutPoint,
>)
    ensures
        outpoint == parent_of(carrier, transactions@),
{
    if carrier.vout != 0 {
        return None;
    }
    match transactions.get(carrier.txid) {
        Some(psbt) => action_predecessor(psbt),
        None => None,
    }
}

/// Whether a record reports that this transaction spent the output.
pub open spec fn spent_by(record: Record, outpoint: OutPoint, txid: Txid) -> bool {
    record.outpoint == outpoint && record.is_spent && record.ark_txid == Some(txid.text())
}

/// Whether every checkpoint has a single input and a record reports that the transaction spent
/// it; there has to be a checkpoint.
pub open spec fn inputs_spent(checkpoints: Seq<Signed>, txid: Txid, records: Seq<Record>) -> bool {
    checkpoints.len() > 0 && forall|i: int|
        0 <= i < checkpoints.len() ==> input_spent(#[trigger] checkpoints[i], txid, records)
}

pub open spec fn input_spent(checkpoint: Signed, txid: Txid, records: Seq<Record>) -> bool {
    checkpoint.tx.input.len() == 1 && exists|k: int|
        0 <= k < records.len() && spent_by(
            #[trigger] records[k],
            checkpoint.tx.input[0].previous_output,
            txid,
        )
}

fn is_input_spent(checkpoint: &Psbt, txid: Txid, records: &[VtxoRecord]) -> (spent: bool)
    ensures
        spent == input_spent(checkpoint@, txid, arkade::records_view(records@)),
{
    let ghost all = arkade::records_view(records@);
    let outpoint: OutPoint = match action_predecessor(checkpoint) {
        Some(outpoint) => outpoint,
        None => {
            return false;
        },
    };
    let shown: String = txid.to_string();
    let mut i: usize = 0;
    while i < records.len()
        invariant
            i <= records@.len(),
            all == arkade::records_view(records@),
            shown@ == txid.text(),
            checkpoint@.tx.input.len() == 1,
            outpoint == checkpoint@.tx.input[0].previous_output,
            forall|k: int| 0 <= k < i ==> !spent_by(#[trigger] all[k], outpoint, txid),
        decreases records@.len() - i,
    {
        assert(all[i as int] == records@[i as int]@);
        let reported: bool = match &records[i].ark_txid {
            Some(text) => *text == shown,
            None => false,
        };
        if records[i].outpoint == outpoint && records[i].is_spent && reported {
            assert(spent_by(all[i as int], outpoint, txid));
            return true;
        }
        i += 1;
    }
    false
}

/// Whether the records show that a transaction spent the inputs of all its checkpoints.
pub fn checkpoint_inputs_were_spent_by(
    checkpoints: &[Psbt],
    txid: Txid,
    records: &[VtxoRecord],
) -> (spent: bool)
    ensures
        spent == inputs_spent(
            psbt::psbts_view(checkpoints@),
            txid,
            arkade::records_view(records@),
        ),
{
    let ghost all = psbt::psbts_view(checkpoints@);
    if checkpoints.len() == 0 {
        return false;
    }
    let mut i: usize = 0;
    while i < checkpoints.len()
        invariant
            i <= checkpoints@.len(),
            all == psbt::psbts_view(checkpoints@),
            forall|k: int|
                0 <= k < i ==> input_spent(
                    #[trigger] all[k],
                    txid,
                    arkade::records_view(records@),
                ),
        decreases checkpoints@.len() - i,
    {
        assert(all[i as int] == checkpoints@[i as int]@);
        if !is_input_spent(&checkpoints[i], txid, records) {
            return false;
        }
        i += 1;
    }
    true
}

/// Whether a record holds one of the assets.
pub open spec fn holds_any(record: Record, ids: Seq<AssetId>) -> bool {
    exists|i: int, j: int|
        0 <= i < record.assets.len() && 0 <= j < ids.len() && (#[trigger] record.assets[i]).0
            == (#[trigger] ids[j]).text()
}

fn record_holds_any(record: &VtxoRecord, ids: &[AssetId; 6]) -> (holds: bool)
    ensures
        holds == holds_any(record@, ids@),
{
    let mut j: usize = 0;
    while j < 6
        invariant
            j <= 6,
            forall|i: int, k: int|
                0 <= i < record@.assets.len() && 0 <= k < j ==> (#[trigger] record@.assets[i]).0
                    != (#[trigger] ids@[k]).text(),
        decreases 6 - j,
    {
        let shown: String = ids[j].to_string();
        let mut i: usize = 0;
        while i < record.assets.len()
            invariant
                i <= record.assets@.len(),
                j < 6,
                shown@ == ids@[j as int].text(),
                forall|m: int| 0 <= m < i ==> (#[trigger] record@.assets[m]).0 != shown@,
            decreases record.assets@.len() - i,
        {
            assert(record@.assets[i as int].0 == record.assets@[i as int].0@);
            if record.assets[i].0 == shown {
                assert(record@.assets[i as int].0 == ids@[j as int].text());
                return true;
            }
            i += 1;
        }
        j += 1;
    }
    false
}

/// Whether a record shows the effect of a pending issuance or move.
pub open spec fn shows_effect(record: Record, action: Pending) -> bool {
    record.outpoint.txid == action.tx.txid && record.is_preconfirmed && match action.purpose {
        Purpose::Issuance(ids) => holds_any(record, ids),
        _ => true,
    }
}

/// Whether the wallet's records show the effect of a pending action.
pub open spec fn effect_observed(action: Pending, records: Seq<Record>) -> bool {
    match action.purpose {
        Purpose::Sweep => inputs_spent(action.tx.checkpoints, action.tx.txid, records),
        _ => exists|i: int| 0 <= i < records.len() && shows_effect(#[trigger] records[i], action),
    }
}

/// Whether the wallet's records show the effect of the pending action.
pub fn pending_wallet_effect_observed(action: &PendingAction, records: &[VtxoRecord]) -> (seen: bool)
    ensures
        seen == effect_observed(action@, arkade::records_view(records@)),
{
    let ghost all = arkade::records_view(records@);
    let txid: Txid = pending_action_txid(action);
    let assets: Option<&[AssetId; 6]> = match action {
        PendingAction::Sweep { pending } => {
            return checkpoint_inputs_were_spent_by(&pending.checkpoints, txid, records);
        },
        PendingAction::UnknownSweep { submission } => {
            return checkpoint_inputs_were_spent_by(&submission.checkpoints, txid, records);
        },
        PendingAction::Issuance { asset_ids, .. } => Some(asset_ids),
        PendingAction::UnknownIssuance { asset_ids, .. } => Some(asset_ids),
        _ => None,
    };
    let mut i: usize = 0;
    while i < records.len()
        invariant
            i <= records@.len(),
            all == arkade::records_view(records@),
            txid == action@.tx.txid,
            match assets {
                Some(ids) => action@.purpose == Purpose::Issuance(ids@),
                None => action@.purpose is Move,
            },
            forall|k: int| 0 <= k < i ==> !shows_effect(#[trigger] all[k], action@),
        decreases records@.len() - i,
    {
        assert(all[i as int] == records@[i as int]@);
        let record: &VtxoRecord = &records[i];
        if record.outpoint.txid == txid && record.is_preconfirmed {
            let shown: bool = match assets {
                Some(ids) => record_holds_any(record, ids),
                None => true,
            };
            if shown {
                assert(shows_effect(all[i as int], action@));
                return true;
            }
        }
        i += 1;
    }
    false
}

} // verus!
