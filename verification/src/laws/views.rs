//! What values hold: each part of a value is the part of that name.

use crate::address;
use crate::address::Contract;
use crate::arkade::{AddressCheck, CheckedAddress, CosignedTx, VtxoPage};
use crate::chain::{Transaction, TxOut};
use crate::game::ShotTrace;
use crate::gamelog::{AssetPacket, AssetPacketGroup, MoveBurn};
use crate::match_;
use crate::match_::snapshot::{PlayerSnapshot, WalletVtxoSnapshot};
use crate::match_::sync::{IssuanceLookup, Lookup};
use crate::match_::transfer::MovePlan;
use crate::match_::{Resume, ResumeAction, RunTxStatus, Submitted};
use crate::pending::{
    JournalPurpose, JournalTransaction, PendingFinalize, PendingJournalAction, UnknownSubmission,
};
use vstd::prelude::*;

verus! {

/// A transaction has the inputs and outputs that it lists, with their values and scripts.
pub proof fn law_transactions_hold_their_parts(tx: Transaction, output: TxOut, i: int)
    ensures
        tx@.version == tx.version,
        tx@.lock_time == tx.lock_time,
        tx@.input == tx.input@,
        tx@.output.len() == tx.output.len(),
        0 <= i < tx.output.len() ==> tx@.output[i].value == tx.output[i].value,
        0 <= i < tx.output.len() ==> tx@.output[i].script == tx.output[i].script_pubkey@,
        output@.value == output.value,
        output@.script == output.script_pubkey@,
{
}

/// A packet has its groups in order, and each group its own parts.
pub proof fn law_groups_hold_their_parts(packet: AssetPacket, group: AssetPacketGroup, i: int)
    ensures
        packet@.len() == packet.groups.len(),
        0 <= i < packet.groups.len() ==> packet@[i] == packet.groups[i]@,
        group@.asset_id == group.asset_id,
        group@.has_control_asset == group.has_control_asset,
        group@.inputs == group.inputs@,
        group@.outputs == group.outputs@,
        group@.metadata is Some <==> group.metadata is Some,
        group.metadata matches Some(pairs) ==> {
            let shown = group@.metadata.unwrap();
            &&& shown.len() == pairs.len()
            &&& 0 <= i < pairs.len() ==> shown[i].0 == pairs[i].0@ && shown[i].1 == pairs[i].1@
        },
{
}

/// A burn, a step to build and a shot have their own parts.
pub proof fn law_actions_hold_their_parts(burn: MoveBurn, plan: MovePlan, shot: ShotTrace)
    ensures
        burn@.receipt == burn.receipt,
        burn@.asset_id == burn.asset_id,
        burn@.preserved_output_indexes == burn.preserved_output_indexes@,
        plan@.carrier == plan.carrier@,
        plan@.asset_id == plan.asset_id,
        plan@.sequence == plan.sequence,
        plan@.direction == plan.direction,
        shot@.id == shot.id@,
        shot@.shooter == shot.shooter@,
        shot@.start.0 == shot.start[0] && shot@.start.1 == shot.start[1],
        shot@.end.0 == shot.end[0] && shot@.end.1 == shot.end[1],
        shot@.hit_player is Some <==> shot.hit_player is Some,
        shot.hit_player matches Some(id) ==> shot@.hit_player == Some(id@),
{
}

/// Players and outputs are shown with their own parts.
pub proof fn law_shown_values_hold_their_parts(
    player: PlayerSnapshot,
    output: WalletVtxoSnapshot,
    i: int,
)
    ensures
        player@.id == player.id@,
        player@.state.x == player.x,
        player@.state.y == player.y,
        player@.state.facing == player.facing,
        player@.state.hp == player.hp,
        player@.state.kills == player.kills,
        player@.is_me == player.is_me,
        output@.outpoint == output.outpoint@,
        output@.amount == output.amount,
        output@.status == output.status@,
        output@.expires_at == output.expires_at,
        output@.spent_by is Some <==> output.spent_by is Some,
        output.spent_by matches Some(txid) ==> output@.spent_by == Some(txid@),
        output@.assets.len() == output.assets.len(),
        0 <= i < output.assets.len() ==> output@.assets[i] == (
            output.assets[i].asset_id@,
            output.assets[i].amount,
        ),
{
}

/// Transactions under way have their own parts.
pub proof fn law_prepared_values_hold_their_parts(
    submission: UnknownSubmission,
    finalizing: PendingFinalize,
    cosigned: CosignedTx,
    i: int,
)
    ensures
        submission@.txid == submission.txid,
        submission@.signed_ark == submission.signed_ark@,
        submission@.checkpoints.len() == submission.checkpoints.len(),
        0 <= i < submission.checkpoints.len() ==> submission@.checkpoints[i]
            == submission.checkpoints[i]@,
        submission@.last_error == submission.last_error@,
        finalizing@.txid == finalizing.txid,
        finalizing@.signed_ark == finalizing.signed_ark@,
        finalizing@.checkpoints.len() == finalizing.checkpoints.len(),
        0 <= i < finalizing.checkpoints.len() ==> finalizing@.checkpoints[i]
            == finalizing.checkpoints[i]@,
        finalizing@.last_error == finalizing.last_error@,
        cosigned@.txid == cosigned.txid,
        cosigned@.signed_ark == cosigned.signed_ark@,
        cosigned@.checkpoints.len() == cosigned.checkpoints.len(),
        0 <= i < cosigned.checkpoints.len() ==> cosigned@.checkpoints[i]
            == cosigned.checkpoints[i]@,
{
}

/// A journal has its own parts, and says what kind of action it keeps.
pub proof fn law_journals_hold_their_parts(
    tx: JournalTransaction,
    action: PendingJournalAction,
    i: int,
)
    ensures
        tx@.stage == tx.stage,
        tx@.txid == tx.txid@,
        tx@.signed_ark == tx.signed_ark@,
        tx@.checkpoints.len() == tx.checkpoints.len(),
        0 <= i < tx.checkpoints.len() ==> tx@.checkpoints[i] == tx.checkpoints[i]@,
        tx@.last_error == tx.last_error@,
        action matches PendingJournalAction::Issuance { transaction, asset_ids } ==> {
            &&& action@.tx == transaction@
            &&& action@.purpose matches JournalPurpose::Issuance(ids) && ids.len() == 6 && (0 <= i
                < 6 ==> ids[i] == asset_ids[i]@)
        },
        action matches PendingJournalAction::Move { transaction, direction, sequence } ==> action@.tx
            == transaction@ && action@.purpose == JournalPurpose::Move(direction, sequence),
        action matches PendingJournalAction::Sweep { transaction } ==> action@.tx == transaction@
            && action@.purpose == JournalPurpose::Sweep,
{
}

/// Answers say what they are.
pub proof fn law_answers_say_what_they_are(
    lookup: IssuanceLookup,
    status: RunTxStatus,
    action: ResumeAction,
    check: AddressCheck,
    page: VtxoPage,
    contract: Contract,
    i: int,
)
    ensures
        lookup matches IssuanceLookup::Registered(script) ==> lookup@ == Lookup::Registered(script@),
        lookup is Invalid ==> lookup@ is Invalid,
        lookup is Unknown ==> lookup@ is Unknown,
        status matches RunTxStatus::Finalized(txid) ==> status@ == Submitted::Finalized(txid),
        status matches RunTxStatus::Pending(tx) ==> status@ == Submitted::Pending(tx@),
        status matches RunTxStatus::SubmissionUnknown(tx) ==> status@ == Submitted::Unknown(tx@),
        action is Nothing ==> action@ is Nothing,
        action matches ResumeAction::Submit(tx) ==> action@ == Resume::Submit(tx@),
        action matches ResumeAction::Retry(tx) ==> action@ == Resume::Retry(tx@),
        action matches ResumeAction::Finalize(tx) ==> action@ == Resume::Finalize(tx@),
        check is Invalid ==> check@ is Invalid,
        check is OtherNetwork ==> check@ is OtherNetwork,
        check matches AddressCheck::Valid(text) ==> check@ == CheckedAddress::Valid(text@),
        page@.current == page.current,
        page@.next == page.next,
        page@.total == page.total,
        page@.vtxos.len() == page.vtxos.len(),
        0 <= i < page.vtxos.len() ==> page@.vtxos[i] == page.vtxos[i]@,
        address::contract_view(None) is None,
        address::contract_view(Some(contract)) == Some((contract.address@, contract.script@)),
{
}

/// Numbers follow each other up to the largest one, which stays.
pub proof fn law_the_largest_number_stays(sequence: u32)
    ensures
        sequence < 4_294_967_295 ==> match_::following(sequence) == sequence + 1,
        sequence == 4_294_967_295 ==> match_::following(sequence) == sequence,
{
}

} // verus!
