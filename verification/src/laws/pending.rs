//! The pending action: what its journal brings back, and how its effect shows.

use crate::arkade::Record;
use crate::chain;
use crate::chain::{AssetId, OutPoint, Tx, Txid};
use crate::gamelog;
use crate::pending;
use crate::pending::{
    JournalError, JournalPurpose, JournalStage, JournalTx, Journaled, Pending, PendingAction,
    Prepared, Purpose,
};
use crate::psbt;
use crate::psbt::{PsbtFault, Signed};
use vstd::prelude::*;

verus! {

/// Whether a journaled transaction is complete: its texts can be read, it has the journaled id, and
/// one to twenty checkpoints, one for each of its inputs, each with a single input.
pub open spec fn is_complete(tx: JournalTx) -> bool {
    &&& Txid::of_text(tx.txid) is Some
    &&& psbt::psbt_of_text(tx.signed_ark) matches Ok(ark) && {
        &&& ark.txid() == Txid::of_text(tx.txid).unwrap()
        &&& ark.tx.input.len() == tx.checkpoints.len()
    }
    &&& 1 <= tx.checkpoints.len() <= 20
    &&& forall|i: int|
        0 <= i < tx.checkpoints.len() ==> (psbt::psbt_of_text(#[trigger] tx.checkpoints[i])
            matches Ok(checkpoint) && checkpoint.tx.input.len() == 1)
}

proof fn lemma_texts(texts: Seq<Seq<char>>)
    ensures
        psbt::psbts_of_texts(texts) is Ok <==> forall|i: int|
            0 <= i < texts.len() ==> psbt::psbt_of_text(#[trigger] texts[i]) is Ok,
        psbt::psbts_of_texts(texts) matches Ok(psbts) ==> psbts.len() == texts.len() && forall|i: int|
            0 <= i < texts.len() ==> psbt::psbt_of_text(#[trigger] texts[i]) == Ok::<
                Signed,
                PsbtFault,
            >(psbts[i]),
    decreases texts.len(),
{
    if texts.len() > 0 {
        let rest = texts.drop_last();
        let n = texts.len() - 1;
        lemma_texts(rest);
        assert(texts.last() == texts[n]);
        if forall|i: int| 0 <= i < texts.len() ==> psbt::psbt_of_text(#[trigger] texts[i]) is Ok {
            assert forall|i: int| 0 <= i < rest.len() implies psbt::psbt_of_text(
                #[trigger] rest[i],
            ) is Ok by {
                assert(rest[i] == texts[i]);
            }
        }
        if let Ok(psbts) = psbt::psbts_of_texts(texts) {
            assert forall|i: int| 0 <= i < texts.len() implies psbt::psbt_of_text(
                #[trigger] texts[i],
            ) == Ok::<Signed, PsbtFault>(psbts[i]) by {
                if i < n {
                    assert(rest[i] == texts[i]);
                }
            }
        }
    }
}

/// A journaled transaction is restored exactly where it is complete, with the id, the transactions
/// and the error that the journal holds.
pub proof fn law_complete_transactions_are_restored(tx: JournalTx)
    ensures
        pending::restored_tx(tx) is Ok <==> is_complete(tx),
        pending::restored_tx(tx) matches Ok(restored) ==> {
            &&& Txid::of_text(tx.txid) == Some(restored.txid)
            &&& psbt::psbt_of_text(tx.signed_ark) == Ok::<Signed, PsbtFault>(restored.signed_ark)
            &&& restored.checkpoints.len() == tx.checkpoints.len()
            &&& forall|i: int|
                0 <= i < tx.checkpoints.len() ==> psbt::psbt_of_text(#[trigger] tx.checkpoints[i])
                    == Ok::<Signed, PsbtFault>(restored.checkpoints[i])
            &&& restored.last_error == tx.last_error
        },
{
    lemma_texts(tx.checkpoints);
    if is_complete(tx) {
        assert forall|i: int| 0 <= i < tx.checkpoints.len() implies psbt::psbt_of_text(
            #[trigger] tx.checkpoints[i],
        ) is Ok by {
            assert(psbt::psbt_of_text(tx.checkpoints[i]) matches Ok(checkpoint)
                && checkpoint.tx.input.len() == 1);
        }
        let checkpoints = psbt::psbts_of_texts(tx.checkpoints)->Ok_0;
        assert forall|i: int| 0 <= i < checkpoints.len() implies (
        #[trigger] checkpoints[i]).tx.input.len() == 1 by {
            assert(psbt::psbt_of_text(tx.checkpoints[i]) matches Ok(checkpoint)
                && checkpoint.tx.input.len() == 1);
        }
    }
    if let Ok(restored) = pending::restored_tx(tx) {
        assert forall|i: int| 0 <= i < tx.checkpoints.len() implies (psbt::psbt_of_text(
            #[trigger] tx.checkpoints[i],
        ) matches Ok(checkpoint) && checkpoint.tx.input.len() == 1) by {
            assert(psbt::psbt_of_text(tx.checkpoints[i]) == Ok::<Signed, PsbtFault>(
                restored.checkpoints[i],
            ));
        }
    }
}

/// A journal is restored exactly where its transaction is complete and what it says of itself fits:
/// an issuance names the groups of its transaction in order; an action is one of six, and the
/// transaction burns its asset with its number.
pub proof fn law_fitting_journals_are_restored(journal: Journaled)
    ensures
        ({
            let complete = is_complete(journal.tx);
            let ark = psbt::psbt_of_text(journal.tx.signed_ark)->Ok_0;
            let fits = match journal.purpose {
                JournalPurpose::Issuance(texts) => forall|i: int|
                    0 <= i < texts.len() ==> (chain::asset_id_of(#[trigger] texts[i]) matches Some(
                        id,
                    ) && Some(id.txid) == Txid::of_text(journal.tx.txid) && id.group_index == i),
                JournalPurpose::Move(direction, sequence) => direction <= 5 && (gamelog::burn_of(
                    ark.tx.output,
                ) matches Some(burn) && burn.asset_id.group_index == direction
                    && burn.receipt.sequence == sequence),
                JournalPurpose::Sweep => true,
            };
            &&& pending::restored(journal) is Ok <==> complete && fits
            &&& pending::restored(journal) matches Ok(action) ==> {
                &&& action.unknown <==> journal.tx.stage == JournalStage::Prepared
                &&& pending::restored_tx(journal.tx) == Ok::<Prepared, JournalError>(action.tx)
                &&& journal.purpose is Sweep ==> action.purpose is Sweep
                &&& journal.purpose matches JournalPurpose::Move(direction, sequence)
                    ==> action.purpose == Purpose::Move(direction, sequence)
                &&& journal.purpose matches JournalPurpose::Issuance(texts) ==> (
                action.purpose matches Purpose::Issuance(ids) && ids.len() == texts.len()
                    && forall|i: int|
                    0 <= i < texts.len() ==> chain::asset_id_of(#[trigger] texts[i]) == Some(ids[i]))
            }
        }),
{
    law_complete_transactions_are_restored(journal.tx);
    if let JournalPurpose::Issuance(texts) = journal.purpose {
        if let Ok(tx) = pending::restored_tx(journal.tx) {
            if let Some(ids) = pending::assets_of_texts(texts) {
                assert forall|i: int| 0 <= i < texts.len() implies chain::asset_id_of(
                    #[trigger] texts[i],
                ) == Some(ids[i]) by {}
                if pending::groups_of(ids, tx.txid) {
                    assert forall|i: int| 0 <= i < texts.len() implies (chain::asset_id_of(
                        #[trigger] texts[i],
                    ) matches Some(id) && Some(id.txid) == Txid::of_text(journal.tx.txid)
                        && id.group_index == i) by {
                        assert(ids[i].txid == tx.txid && ids[i].group_index == i);
                    }
                }
                if forall|i: int|
                    0 <= i < texts.len() ==> (chain::asset_id_of(#[trigger] texts[i]) matches Some(
                        id,
                    ) && Some(id.txid) == Txid::of_text(journal.tx.txid) && id.group_index == i) {
                    assert forall|i: int| 0 <= i < ids.len() implies (#[trigger] ids[i]).txid
                        == tx.txid && ids[i].group_index == i by {
                        assert(chain::asset_id_of(texts[i]) == Some(ids[i]));
                    }
                }
            } else {
                let i = choose|i: int|
                    0 <= i < texts.len() && !(chain::asset_id_of(#[trigger] texts[i]) is Some);
                assert(chain::asset_id_of(texts[i]) is None);
            }
        }
    }
}

/// A journal says of an action its stage, its id, its transactions in base64, its error, and what it
/// is for.
pub proof fn law_journals_say_what_is_pending(action: Pending, i: int)
    requires
        0 <= i < action.tx.checkpoints.len(),
    ensures
        ({
            let journal = pending::journal_of(action);
            &&& action.unknown ==> journal.tx.stage == JournalStage::Prepared
            &&& !action.unknown ==> journal.tx.stage == JournalStage::Finalizing
            &&& Txid::of_text(journal.tx.txid) == Some(action.tx.txid)
            &&& journal.tx.signed_ark == psbt::base64_text(action.tx.signed_ark.raw)
            &&& journal.tx.checkpoints.len() == action.tx.checkpoints.len()
            &&& journal.tx.checkpoints[i] == psbt::base64_text(action.tx.checkpoints[i].raw)
            &&& journal.tx.last_error == action.tx.last_error
            &&& action.purpose matches Purpose::Move(direction, sequence) ==> journal.purpose
                == JournalPurpose::Move(direction, sequence)
            &&& action.purpose is Sweep ==> journal.purpose is Sweep
            &&& action.purpose matches Purpose::Issuance(ids) ==> (
            journal.purpose matches JournalPurpose::Issuance(texts) && texts.len() == ids.len()
                && forall|k: int|
                0 <= k < ids.len() ==> chain::asset_id_of(texts[k]) == Some(#[trigger] ids[k]))
        }),
{
    chain::law_txid_text_round_trip(action.tx.txid);
    if let Purpose::Issuance(ids) = action.purpose {
        assert forall|k: int| 0 <= k < ids.len() implies chain::asset_id_of(
            pending::asset_texts(ids)[k],
        ) == Some(#[trigger] ids[k]) by {
            chain::law_asset_id_round_trip(ids[k]);
        }
    }
}

/// Whether a record shows that a transaction spent an output: the record of the output says so and
/// names the transaction.
pub open spec fn shows_spent(record: Record, output: OutPoint, txid: Txid) -> bool {
    record.is_spent && record.outpoint == output && record.ark_txid == Some(txid.text())
}

/// The effect of a sweep shows once every input of it is shown as spent by it.
pub proof fn law_sweeps_show_by_their_inputs(action: Pending, records: Seq<Record>)
    requires
        action.purpose is Sweep,
    ensures
        pending::effect_observed(action, records) <==> action.tx.checkpoints.len() > 0 && forall|i: int|
            0 <= i < action.tx.checkpoints.len() ==> {
                let checkpoint = (#[trigger] action.tx.checkpoints[i]).tx;
                &&& checkpoint.input.len() == 1
                &&& exists|k: int|
                    0 <= k < records.len() && shows_spent(
                        #[trigger] records[k],
                        checkpoint.input[0].previous_output,
                        action.tx.txid,
                    )
            },
{
    let checkpoints = action.tx.checkpoints;
    let txid = action.tx.txid;
    assert forall|c: Signed| #[trigger] pending::input_spent(c, txid, records) <==> (c.tx.input.len()
        == 1 && exists|k: int|
        0 <= k < records.len() && shows_spent(
            #[trigger] records[k],
            c.tx.input[0].previous_output,
            txid,
        )) by {
        if c.tx.input.len() == 1 {
            let output = c.tx.input[0].previous_output;
            if exists|k: int| 0 <= k < records.len() && shows_spent(#[trigger] records[k], output, txid) {
                let k = choose|k: int|
                    0 <= k < records.len() && shows_spent(#[trigger] records[k], output, txid);
                assert(pending::spent_by(records[k], output, txid));
            }
            if exists|k: int|
                0 <= k < records.len() && pending::spent_by(#[trigger] records[k], output, txid) {
                let k = choose|k: int|
                    0 <= k < records.len() && pending::spent_by(#[trigger] records[k], output, txid);
                assert(shows_spent(records[k], output, txid));
            }
        }
    }
    if pending::effect_observed(action, records) {
        assert forall|i: int| 0 <= i < checkpoints.len() implies {
            let checkpoint = (#[trigger] checkpoints[i]).tx;
            &&& checkpoint.input.len() == 1
            &&& exists|k: int|
                0 <= k < records.len() && shows_spent(
                    #[trigger] records[k],
                    checkpoint.input[0].previous_output,
                    txid,
                )
        } by {
            assert(pending::input_spent(checkpoints[i], txid, records));
        }
    }
}

/// The effect of an action shows once a preconfirmed output of its transaction is there; that of an
/// issuance, once such an output holds one of its assets.
pub proof fn law_actions_show_by_their_outputs(action: Pending, records: Seq<Record>)
    ensures
        action.purpose is Move ==> (pending::effect_observed(action, records) <==> exists|i: int|
            0 <= i < records.len() && (#[trigger] records[i]).outpoint.txid == action.tx.txid
                && records[i].is_preconfirmed),
        action.purpose matches Purpose::Issuance(ids) ==> (pending::effect_observed(action, records)
            <==> exists|i: int|
            0 <= i < records.len() && (#[trigger] records[i]).outpoint.txid == action.tx.txid
                && records[i].is_preconfirmed && lists_any(records[i], ids)),
{
    assert forall|r: Record, ids: Seq<AssetId>| lists_any(r, ids) == #[trigger] pending::holds_any(
        r,
        ids,
    ) by {
        if lists_any(r, ids) {
            let (i, j) = choose|i: int, j: int|
                0 <= i < r.assets.len() && 0 <= j < ids.len() && (#[trigger] ids[j]).text() == (
                #[trigger] r.assets[i]).0;
            assert(r.assets[i].0 == ids[j].text());
        }
        if pending::holds_any(r, ids) {
            let (i, j) = choose|i: int, j: int|
                0 <= i < r.assets.len() && 0 <= j < ids.len() && (#[trigger] r.assets[i]).0 == (
                #[trigger] ids[j]).text();
            assert(ids[j].text() == r.assets[i].0);
        }
    }
    if pending::effect_observed(action, records) && !(action.purpose is Sweep) {
        let i = choose|i: int|
            0 <= i < records.len() && pending::shows_effect(#[trigger] records[i], action);
        assert(records[i].outpoint.txid == action.tx.txid);
    }
    if !(action.purpose is Sweep) {
        assert forall|i: int|
            0 <= i < records.len() && (#[trigger] records[i]).outpoint.txid == action.tx.txid
                && records[i].is_preconfirmed && (match action.purpose {
                Purpose::Issuance(ids) => lists_any(records[i], ids),
                _ => true,
            }) implies pending::shows_effect(records[i], action) by {}
    }
}

/// Whether an output lists one of some assets.
pub open spec fn lists_any(record: Record, ids: Seq<AssetId>) -> bool {
    exists|i: int, j: int|
        0 <= i < record.assets.len() && 0 <= j < ids.len() && (#[trigger] ids[j]).text() == (
        #[trigger] record.assets[i]).0
}

/// The carrier that an action spends is the only input of its transaction; the carrier's own parent
/// is found only through output zero of a known transaction.
pub proof fn law_carriers_are_single_inputs(
    tx: Tx,
    carrier: OutPoint,
    transactions: Map<Txid, Signed>,
)
    ensures
        tx.input.len() == 1 ==> pending::only_input(tx) == Some(tx.input[0].previous_output),
        tx.input.len() != 1 ==> pending::only_input(tx) is None,
        carrier.vout != 0 ==> pending::parent_of(carrier, transactions) is None,
        !transactions.contains_key(carrier.txid) ==> pending::parent_of(carrier, transactions)
            is None,
        carrier.vout == 0 && transactions.contains_key(carrier.txid) && transactions[
            carrier.txid
        ].tx.input.len() == 1 ==> pending::parent_of(carrier, transactions) == Some(
            transactions[carrier.txid].tx.input[0].previous_output,
        ),
{
}

/// The view of a pending action tells what kind it is and whether the operator has it.
pub proof fn law_views_tell_actions_apart(action: PendingAction)
    ensures
        action matches PendingAction::Issuance { pending: tx, asset_ids } ==> action@ == (Pending {
            unknown: false,
            tx: tx@,
            purpose: Purpose::Issuance(asset_ids@),
        }),
        action matches PendingAction::Move { pending: tx, direction, sequence } ==> action@ == (
        Pending { unknown: false, tx: tx@, purpose: Purpose::Move(direction, sequence) }),
        action matches PendingAction::Sweep { pending: tx } ==> action@ == (Pending {
            unknown: false,
            tx: tx@,
            purpose: Purpose::Sweep,
        }),
        action matches PendingAction::UnknownIssuance { submission, asset_ids } ==> action@ == (
        Pending { unknown: true, tx: submission@, purpose: Purpose::Issuance(asset_ids@) }),
        action matches PendingAction::UnknownMove { submission, direction, sequence } ==> action@
            == (Pending {
            unknown: true,
            tx: submission@,
            purpose: Purpose::Move(direction, sequence),
        }),
        action matches PendingAction::UnknownSweep { submission } ==> action@ == (Pending {
            unknown: true,
            tx: submission@,
            purpose: Purpose::Sweep,
        }),
        ({
            let fresh = pending::is_fresh(Some(action@), false);
            &&& fresh <==> action is UnknownIssuance || action is UnknownMove
                || action is UnknownSweep
            &&& !pending::is_fresh(Some(action@), true)
            &&& !pending::is_fresh(None, false)
        }),
{
}

} // verus!
