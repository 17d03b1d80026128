//! What holds of the game across its operations.

use super::discovery;
use super::players;
use super::registry;
use super::snapshot;
use super::sync;
use super::tick::{Beginning, PlayStep, WalletStep, WalletSynced, Wishes};
use super::{App, Phase, Resume};
use crate::actions::ActionEvent;
use crate::arkade;
use crate::arkade::Record;
use crate::chain::{AssetId, OutPoint, Txid};
use crate::game::TimedArenaAction;
use crate::pending;
use crate::pending::{JournalError, Pending, PendingJournal, Prepared};
use crate::seqs;
use crate::table::Key;
use vstd::prelude::*;

verus! {

/// Whether a transaction waits that was prepared in this run and never submitted.
pub open spec fn awaits_submission(app: App, tx: Prepared) -> bool {
    &&& app.pending_action matches Some(action) && action.unknown && action.tx == tx
    &&& !app.pending_needs_recovery
}

/// A prepared issuance, action or sweep is not submitted in the tick that prepared it: it waits,
/// and whatever the player does, the next tick does nothing but submit this very transaction.
pub proof fn law_prepared_is_submitted_by_the_next_tick(
    app: App,
    tx: Prepared,
    dirs: Seq<u8>,
    wishes: Wishes,
    now_ms: u64,
)
    requires
        awaits_submission(app, tx),
    ensures
        app.queued(dirs) == app,
        app.beginning(wishes, now_ms) == Beginning::Resume,
        app.resume_action() == Resume::Submit(tx),
        app.resumed() == (App { sending: true, ..app }),
{
}

/// A prepared transaction waits to be submitted.
pub proof fn law_preparing_waits(
    app: App,
    tx: Prepared,
    ids: Seq<AssetId>,
    direction: u8,
    resets_player: bool,
)
    ensures
        awaits_submission(app.issuance_prepared(Ok((tx, ids)), resets_player), tx),
        awaits_submission(app.move_prepared(direction, Ok(tx)), tx),
        awaits_submission(app.sweep_prepared(Ok(tx)), tx),
{
}

/// What is taken up from a journal is never rebuilt: unless the wallet shows its effect, the same
/// transaction is finalized, or looked for and submitted again.
pub proof fn law_restored_is_retried(app: App, journal: PendingJournal, restored: App)
    requires
        app.journal_restored(journal) == Ok::<App, JournalError>(restored),
    ensures
        pending::restored(journal.action@) matches Ok(action) && {
            &&& restored.pending_action == Some(action)
            &&& !restored.has_fresh_action()
            &&& restored.resume_action() == Resume::Nothing || restored.resume_action()
                == Resume::Retry(action.tx) || restored.resume_action() == Resume::Finalize(
                action.tx,
            )
            &&& restored.resume_action() == Resume::Nothing <==> pending::effect_observed(
                action,
                restored.wallet_records,
            )
        },
{
}

/// Whether two runs are of the same wallet at the same operator.
pub open spec fn same_wallet(app: App, other: App) -> bool {
    &&& other.server == app.server
    &&& other.player_address == app.player_address
    &&& other.params.signer_pk == app.params.signer_pk
}

/// What `GameApp::export_pending_journal` gives for a consistent pending action, restored in another
/// run of the same wallet at the same operator, gives the same pending action.
pub proof fn law_journal_keeps_the_pending_action(
    app: App,
    journal: PendingJournal,
    other: App,
    action: Pending,
)
    requires
        app.pending_action == Some(action),
        pending::consistent(action),
        journal.version == super::PENDING_JOURNAL_VERSION,
        journal.server@ == app.server,
        journal.address@ == app.player_address,
        journal.signer@ == app.signer_text(),
        pending::restored(journal.action@) == Ok::<Pending, JournalError>(action),
        same_wallet(app, other),
        other.registers_wallet(action),
    ensures
        other.journal_restored(journal) matches Ok(restored) && restored.pending_action == Some(
            action,
        ),
{
}

/// While a transaction is pending, a tick prepares no other one: it takes up the pending one, or
/// stops.
pub proof fn law_pending_comes_first(app: App, wishes: Wishes, synced: WalletSynced)
    requires
        app.pending_action is Some,
    ensures
        app.wallet_step(wishes, synced) == WalletStep::Resume || app.wallet_step(wishes, synced)
            == WalletStep::Stop,
{
}

/// An action is sent only by a player whose own history is completely known, who has a pack that
/// is visible in the wallet and not exhausted.
pub proof fn law_actions_wait_for_the_history(
    app: App,
    wishes: Wishes,
    game_ready: bool,
    diagnostics_ready: bool,
)
    requires
        app.played(wishes, game_ready, diagnostics_ready).1 == PlayStep::Move,
    ensures
        ({
            let after = app.played(wishes, game_ready, diagnostics_ready).0;
            &&& after.phase == Phase::Playing
            &&& after.history_ready()
            &&& after.issuance_visible
            &&& !after.is_exhausted()
            &&& !after.sending
        }),
{
    let calm = app.reconciled().error_over(diagnostics_ready);
    let after = app.played(wishes, game_ready, diagnostics_ready).0;
    assert(calm.phase_found().1);
    assert(after == App { phase: Phase::Playing, ..calm });
    assert(calm.history_ready());
    assert(after.player_id() == calm.player_id());
    assert(after.move_balances == calm.move_balances);
    assert(after.is_exhausted() ==> calm.is_exhausted());
}

/// A player can act only while playing, with nothing queued, sent or pending.
pub proof fn law_nothing_is_queued_behind_another_action(app: App, dirs: Seq<u8>)
    requires
        app.queued(dirs) != app,
    ensures
        app.phase == Phase::Playing,
        !app.sending,
        app.pending_action is None,
        app.pending_dirs.len() == 0,
        app.queued(dirs).pending_dirs.len() == 1,
        app.carrier_available,
{
}

/// A finished action is no longer pending, and the sequence number never goes back.
pub proof fn law_finishing_settles(app: App, action: Pending, confirmed: bool)
    ensures
        app.finished(action, confirmed).pending_action is None,
        !app.finished(action, confirmed).pending_needs_recovery,
        app.finished(action, confirmed).next_sequence >= app.next_sequence,
{
}

/// Reconciling never takes the sequence number back.
pub proof fn law_reconciling_never_goes_back(app: App)
    ensures
        app.reconciled().next_sequence >= app.next_sequence,
{
}

/// A failed submission loses nothing: the same action stays pending and is looked for again.
pub proof fn law_failed_submissions_stay_pending(app: App, error: Seq<char>)
    ensures
        app.submission_done(Err(error)).pending_action == app.pending_action,
        app.submission_done(Err(error)).pending_needs_recovery,
        !app.submission_done(Err(error)).sending,
{
}

/// A failed finalization loses nothing either.
pub proof fn law_failed_finalizations_stay_pending(app: App, error: Seq<char>)
    ensures
        app.finalization_done(Some(error)).pending_action == app.pending_action,
        app.finalization_done(Some(error)).pending_needs_recovery == app.pending_needs_recovery,
        !app.finalization_done(Some(error)).sending,
{
}

/// Whether each transaction has at most one event, and that is noted.
pub open spec fn events_are_noted(app: App) -> bool {
    &&& forall|i: int, j: int|
        0 <= i < j < app.events.len() ==> (#[trigger] app.events[i]).txid != (
        #[trigger] app.events[j]).txid
    &&& forall|i: int|
        0 <= i < app.events.len() ==> app.seen_move_txs.contains((#[trigger] app.events[i]).txid)
}

proof fn lemma_with_event_at(events: Seq<ActionEvent>, event: ActionEvent)
    requires
        players::lists_event(events, event.txid),
        forall|i: int, j: int|
            0 <= i < j < events.len() ==> (#[trigger] events[i]).txid != (#[trigger] events[j]).txid,
    ensures
        exists|i: int|
            0 <= i < events.len() && (#[trigger] events[i]).txid == event.txid
                && players::with_event(events, event) == events.update(i, event),
    decreases events.len(),
{
    let shorter = events.drop_last();
    if players::lists_event(shorter, event.txid) {
        assert forall|i: int, j: int| 0 <= i < j < shorter.len() implies (#[trigger] shorter[i]).txid
            != (#[trigger] shorter[j]).txid by {
            assert(shorter[i] == events[i] && shorter[j] == events[j]);
        }
        lemma_with_event_at(shorter, event);
        let i = choose|i: int|
            0 <= i < shorter.len() && (#[trigger] shorter[i]).txid == event.txid
                && players::with_event(shorter, event) == shorter.update(i, event);
        assert(events[i].txid == event.txid);
        assert(shorter.update(i, event).push(events.last()) =~= events.update(i, event));
    } else {
        let k = choose|k: int| 0 <= k < events.len() && (#[trigger] events[k]).txid == event.txid;
        if k < shorter.len() {
            assert(shorter[k] == events[k]);
        }
        assert(events[k].txid == event.txid);
        assert(shorter.push(event) =~= events.update(k, event));
    }
}

/// An indexed action is listed once, in place of what was known of it: it is no longer tentative,
/// and no other event changes.
pub proof fn law_rediscovery_replaces_the_event(app: App, event: ActionEvent)
    requires
        events_are_noted(app),
    ensures
        events_are_noted(app.action_indexed(event).0),
        players::lists_event(app.events, event.txid) ==> {
            &&& app.action_indexed(event).1
            &&& app.action_indexed(event).0.events.len() == app.events.len()
            &&& app.action_indexed(event).0.events.contains(event)
            &&& forall|i: int|
                0 <= i < app.events.len() && (#[trigger] app.events[i]).txid != event.txid
                    ==> app.action_indexed(event).0.events[i] == app.events[i]
        },
{
    let after = app.action_indexed(event).0;
    if players::lists_event(app.events, event.txid) {
        lemma_with_event_at(app.events, event);
        let k = choose|k: int|
            0 <= k < app.events.len() && (#[trigger] app.events[k]).txid == event.txid
                && players::with_event(app.events, event) == app.events.update(k, event);
        assert(after.events == app.events.update(k, event));
        assert(after.events[k] == event);
        assert forall|i: int, j: int| 0 <= i < j < after.events.len() implies (
        #[trigger] after.events[i]).txid != (#[trigger] after.events[j]).txid by {
            assert(app.events[i].txid != app.events[j].txid);
        }
        assert forall|i: int| 0 <= i < after.events.len() implies after.seen_move_txs.contains(
            (#[trigger] after.events[i]).txid,
        ) by {
            assert(app.seen_move_txs.contains(app.events[i].txid));
        }
    } else if !app.seen_move_txs.contains(event.txid) {
        assert forall|i: int, j: int| 0 <= i < j < after.events.len() implies (
        #[trigger] after.events[i]).txid != (#[trigger] after.events[j]).txid by {
            assert(app.events[i].txid != event.txid);
            if j < app.events.len() {
                assert(app.events[i].txid != app.events[j].txid);
            }
        }
        assert forall|i: int| 0 <= i < after.events.len() implies after.seen_move_txs.contains(
            (#[trigger] after.events[i]).txid,
        ) by {
            if i < app.events.len() {
                assert(app.seen_move_txs.contains(app.events[i].txid));
            }
        }
    }
}

/// A finalized action of the player is listed once.
pub proof fn law_recording_lists_once(
    app: App,
    direction: u8,
    sequence: u32,
    txid: Txid,
    predecessor: OutPoint,
)
    requires
        events_are_noted(app),
    ensures
        events_are_noted(app.move_recorded(direction, sequence, txid, predecessor)),
{
    let after = app.move_recorded(direction, sequence, txid, predecessor);
    if app.player_id() is Some && !app.seen_move_txs.contains(txid) {
        assert forall|i: int, j: int| 0 <= i < j < after.events.len() implies (
        #[trigger] after.events[i]).txid != (#[trigger] after.events[j]).txid by {
            assert(app.seen_move_txs.contains(app.events[i].txid));
            if j < app.events.len() {
                assert(app.events[i].txid != app.events[j].txid);
            }
        }
        assert forall|i: int| 0 <= i < after.events.len() implies after.seen_move_txs.contains(
            (#[trigger] after.events[i]).txid,
        ) by {
            if i < app.events.len() {
                assert(app.seen_move_txs.contains(app.events[i].txid));
            }
        }
    }
}

/// An indexed action as the arena takes it.
pub open spec fn as_played(event: ActionEvent) -> TimedArenaAction
    recommends
        event.created_at is Some,
{
    TimedArenaAction {
        txid: event.txid,
        player: event.player,
        action: event.action,
        created_at: event.created_at.unwrap(),
    }
}

/// Exactly the indexed actions enter the arena, each once: tentative ones are left out.
pub proof fn law_indexed_actions_are_played_once(events: Seq<ActionEvent>)
    ensures
        snapshot::timed(events) == events.filter(
            |e: ActionEvent| e.created_at is Some,
        ).map_values(|e: ActionEvent| as_played(e)),
    decreases events.len(),
{
    reveal(Seq::filter);
    let indexed = |e: ActionEvent| e.created_at is Some;
    if events.len() > 0 {
        law_indexed_actions_are_played_once(events.drop_last());
    }
    assert(snapshot::timed(events) =~= events.filter(indexed).map_values(
        |e: ActionEvent| as_played(e),
    ));
}

/// Resolved registry outputs are seen and no longer wait.
pub proof fn law_seen_registry_outputs_are_resolved(app: App, records: Seq<Record>, i: int)
    requires
        0 <= i < records.len(),
    ensures
        app.registry_seen(records).seen_registry_outputs.contains(records[i].outpoint),
        !app.registry_seen(records).unresolved_registry_outputs.contains_key(records[i].outpoint),
    decreases records.len(),
{
    if i < records.len() - 1 {
        law_seen_registry_outputs_are_resolved(app, records.drop_last(), i);
        assert(records.drop_last()[i] == records[i]);
    }
}

/// Resolved outputs of players are seen and no longer wait.
pub proof fn law_seen_player_outputs_are_resolved(app: App, records: Seq<Record>, i: int)
    requires
        0 <= i < records.len(),
    ensures
        app.player_seen(records).seen_player_outputs.contains(records[i].outpoint),
        !app.player_seen(records).unresolved_player_outputs.contains_key(records[i].outpoint),
    decreases records.len(),
{
    if i < records.len() - 1 {
        law_seen_player_outputs_are_resolved(app, records.drop_last(), i);
        assert(records.drop_last()[i] == records[i]);
    }
}

/// Candidates whose transaction could not be fetched stay unresolved, so that they are tried again.
pub proof fn law_missing_transactions_are_tried_again(
    app: App,
    txid: Txid,
    records: Seq<Record>,
    batch: players::Batch,
    script: Result<Option<Seq<char>>, Seq<char>>,
)
    requires
        !batch.txs.contains_key(txid),
    ensures
        app.registration_judged(txid, records, batch.txs) == (app, false),
        app.move_judged(txid, batch, script) == (app, false),
{
}

/// An output that the operator reported as spent is not used again: neither to pay for a
/// registration, nor in a sweep, nor as a carrier.
pub proof fn law_spent_outputs_are_not_used(app: App, record: Record, asset: Seq<char>, now_ms: u64)
    requires
        app.excludes(record.outpoint),
    ensures
        !app.can_fund(record, now_ms),
        !app.carries(record, asset, now_ms),
        forall|spendable: Seq<Record>| !#[trigger]
            app.sweepable(spendable, now_ms).contains(record),
{
    assert forall|spendable: Seq<Record>| !#[trigger]
        app.sweepable(spendable, now_ms).contains(record) by {
        let wanted = |r: Record| super::safe_input(r, now_ms) && !app.excludes(r.outpoint);
        if app.sweepable(spendable, now_ms).contains(record) {
            assert(spendable.filter(wanted).contains(record));
            seqs::lemma_filter_member(spendable, wanted, record);
        }
    }
}

/// A sweep takes one to twenty outputs: exactly those that are safe to spend and not reported as
/// spent.
pub proof fn law_sweeps_take_all_safe_outputs(
    app: App,
    spendable: Seq<Record>,
    destination: Seq<char>,
    now_ms: u64,
    selected: Seq<Record>,
    record: Record,
)
    requires
        app.sweep_inputs(spendable, destination, now_ms) == Ok::<Seq<Record>, Seq<char>>(selected),
    ensures
        1 <= selected.len() <= 20,
        selected.contains(record) <==> spendable.contains(record) && super::safe_input(
            record,
            now_ms,
        ) && !app.excludes(record.outpoint),
{
    let wanted = |r: Record| super::safe_input(r, now_ms) && !app.excludes(r.outpoint);
    assert(selected == spendable.filter(wanted));
    if selected.contains(record) {
        seqs::lemma_filter_member(spendable, wanted, record);
    }
    if spendable.contains(record) && wanted(record) {
        spendable.lemma_filter_contains(wanted, spendable.index_of(record));
    }
}

proof fn lemma_smallest_valid(candidates: Seq<Record>, required: u64, minimum_change: u64)
    ensures
        super::smallest_valid(candidates, required, minimum_change) matches Some(best)
            ==> candidates.contains(best) && super::total_is_valid(
            best.amount_sats,
            required,
            minimum_change,
        ) && forall|k: int|
            0 <= k < candidates.len() && super::total_is_valid(
                (#[trigger] candidates[k]).amount_sats,
                required,
                minimum_change,
            ) ==> best.amount_sats <= candidates[k].amount_sats,
        super::smallest_valid(candidates, required, minimum_change) is None ==> forall|k: int|
            0 <= k < candidates.len() ==> !super::total_is_valid(
                (#[trigger] candidates[k]).amount_sats,
                required,
                minimum_change,
            ),
    decreases candidates.len(),
{
    if candidates.len() > 0 {
        let shorter = candidates.drop_last();
        lemma_smallest_valid(shorter, required, minimum_change);
        assert(candidates[candidates.len() - 1] == candidates.last());
        assert forall|k: int| 0 <= k < candidates.len() - 1 implies #[trigger] candidates[k]
            == shorter[k] by {}
        if let Some(best) = super::smallest_valid(shorter, required, minimum_change) {
            let k = shorter.index_of(best);
            assert(candidates[k] == best);
        }
    }
}

proof fn lemma_insert_descending_members(sorted: Seq<Record>, record: Record, i: int)
    requires
        0 <= i < super::insert_descending(sorted, record).len(),
    ensures
        super::insert_descending(sorted, record)[i] == record || sorted.contains(
            super::insert_descending(sorted, record)[i],
        ),
    decreases sorted.len(),
{
    let placed = super::insert_descending(sorted, record);
    if sorted.len() > 0 && sorted.last().amount_sats < record.amount_sats {
        let shorter = sorted.drop_last();
        let inner = super::insert_descending(shorter, record);
        if i < inner.len() {
            lemma_insert_descending_members(shorter, record, i);
            if inner[i] != record {
                let k = shorter.index_of(inner[i]);
                assert(sorted[k] == inner[i]);
            }
        } else {
            assert(sorted[sorted.len() - 1] == placed[i]);
        }
    } else if i < sorted.len() {
        assert(sorted[i] == placed[i]);
    }
}

proof fn lemma_largest_first_members(records: Seq<Record>, i: int)
    requires
        0 <= i < super::largest_first(records).len(),
    ensures
        records.contains(super::largest_first(records)[i]),
    decreases records.len(),
{
    if records.len() > 0 {
        let shorter = records.drop_last();
        let sorted = super::largest_first(shorter);
        lemma_insert_descending_members(sorted, records.last(), i);
        let found = super::largest_first(records)[i];
        if found == records.last() {
            assert(records[records.len() - 1] == found);
        } else {
            let k = sorted.index_of(found);
            lemma_largest_first_members(shorter, k);
            let m = shorter.index_of(found);
            assert(records[m] == found);
        }
    }
}

proof fn lemma_first_cover(sorted: Seq<Record>, n: nat, required: u64, minimum_change: u64)
    requires
        n >= 1,
    ensures
        super::first_cover(sorted, n, required, minimum_change) matches Some(inputs) ==> {
            &&& 1 <= inputs.len() <= sorted.len()
            &&& inputs == sorted.take(inputs.len() as int)
            &&& super::total_is_valid(
                super::saturated(super::total_sats(inputs)),
                required,
                minimum_change,
            )
        },
    decreases sorted.len() + 1 - n,
{
    if n <= sorted.len() && !super::total_is_valid(
        super::saturated(super::total_sats(sorted.take(n as int))),
        required,
        minimum_change,
    ) {
        lemma_first_cover(sorted, n + 1, required, minimum_change);
    }
}

/// A registration is paid for by safe outputs without assets, which pay exactly what is required
/// or leave change that is not too small.
pub proof fn law_registrations_are_paid_exactly_or_with_change(
    app: App,
    spendable: Seq<Record>,
    now_ms: u64,
    inputs: Seq<Record>,
)
    requires
        app.funding(spendable, now_ms) == Some(inputs),
    ensures
        inputs.len() >= 1,
        forall|i: int|
            0 <= i < inputs.len() ==> spendable.contains(#[trigger] inputs[i]) && app.can_fund(
                inputs[i],
                now_ms,
            ),
        super::total_is_valid(
            super::saturated(super::total_sats(inputs)),
            app.required(),
            app.minimum_change(),
        ),
        super::total_sats(inputs) <= u64::MAX ==> super::total_sats(inputs) == app.required()
            || super::total_sats(inputs) - app.required() >= app.minimum_change(),
{
    let wanted = |r: Record| app.can_fund(r, now_ms);
    let candidates = app.funding_candidates(spendable, now_ms);
    assert(candidates == spendable.filter(wanted));
    assert forall|r: Record| #[trigger] candidates.contains(r) implies spendable.contains(r)
        && app.can_fund(r, now_ms) by {
        seqs::lemma_filter_member(spendable, wanted, r);
    }
    lemma_smallest_valid(candidates, app.required(), app.minimum_change());
    match super::smallest_valid(candidates, app.required(), app.minimum_change()) {
        Some(best) => {
            assert(inputs == seq![best]);
            assert(inputs.drop_last() =~= Seq::empty());
            assert(super::total_sats(inputs) == best.amount_sats) by {
                reveal_with_fuel(super::total_sats, 2);
            }
        },
        None => {
            let sorted = super::largest_first(candidates);
            lemma_first_cover(sorted, 1, app.required(), app.minimum_change());
            assert forall|i: int| 0 <= i < inputs.len() implies spendable.contains(
                #[trigger] inputs[i],
            ) && app.can_fund(inputs[i], now_ms) by {
                assert(inputs[i] == sorted[i]);
                lemma_largest_first_members(candidates, i);
            }
        },
    }
}

/// A selected pack is the wallet's own, and newer than the active one, if there is one.
pub proof fn law_selected_packs_are_newer(app: App, packs: Seq<(Txid, i64)>, next: int)
    requires
        app.searched(packs, next).0 != app,
    ensures
        ({
            let after = app.searched(packs, next).0;
            &&& after.move_pack_created_at is Some
            &&& app.move_assets is Some ==> after.move_pack_created_at.unwrap() > (
            match app.move_pack_created_at {
                Some(created_at) => created_at,
                None => i64::MIN,
            })
            &&& after.player_id() matches Some(player) && app.registered_players.contains_key(
                player,
            ) && app.registered_players[player] == app.player_script
        }),
    decreases packs.len() - next,
{
    if 0 <= next < packs.len() {
        if app.skips_pack(packs[next]) {
            law_selected_packs_are_newer(app, packs, next + 1);
        } else {
            match app.issuance_lookup(packs[next].0) {
                super::sync::Lookup::Registered(script) => {
                    if script == app.player_script {
                        assert(discovery::six_groups(packs[next].0)[0].txid == packs[next].0);
                    } else {
                        law_selected_packs_are_newer(app, packs, next + 1);
                    }
                },
                super::sync::Lookup::Invalid => {
                    law_selected_packs_are_newer(app, packs, next + 1);
                },
                super::sync::Lookup::Unknown => {},
            }
        }
    }
}

/// Whether a pack is known as the wallet's own.
pub open spec fn owns_pack(app: App, txid: Txid) -> bool {
    app.registered_players.contains_key(txid) && app.registered_players[txid] == app.player_script
}

proof fn lemma_search(app: App, packs: Seq<(Txid, i64)>, next: int) -> (place: int)
    requires
        0 <= next,
        app.searched(packs, next).0 != app,
    ensures
        next <= place < packs.len(),
        app.searched(packs, next).0 == app.pack_selected(packs[place]),
        !app.skips_pack(packs[place]),
        forall|k: int|
            next <= k < place ==> app.skips_pack(#[trigger] packs[k]) || !owns_pack(
                app,
                packs[k].0,
            ),
    decreases packs.len() - next,
{
    if app.skips_pack(packs[next]) || !owns_pack(app, packs[next].0) {
        lemma_search(app, packs, next + 1)
    } else {
        next
    }
}

/// Of the packs in the wallet that are known as its own, the newest is selected: where a search
/// that began with the spendable outputs selects a pack, none of those it still had to look at is
/// newer.
pub proof fn law_newest_own_pack_is_selected(
    app: App,
    spendable: Seq<Record>,
    packs: Seq<(Txid, i64)>,
    next: int,
    k: int,
)
    requires
        sync::newest_first(packs, sync::packs_in(spendable)),
        ({
            let searching = app.packs_seen(sync::packs_in(spendable));
            searching.searched(packs, next).0 != searching
        }),
        0 <= next <= k < packs.len(),
        owns_pack(app, packs[k].0),
    ensures
        ({
            let after = app.packs_seen(sync::packs_in(spendable)).searched(packs, next).0;
            after.move_pack_created_at matches Some(created_at) && packs[k].1 <= created_at
        }),
{
    let searching = app.packs_seen(sync::packs_in(spendable));
    let place = lemma_search(searching, packs, next);
    if k < place {
        assert(searching.skips_pack(packs[k]));
        assert(sync::packs_in(spendable).contains_key(packs[k].0));
    } else if place < k {
        assert(sync::newer(packs[place], packs[k]));
    }
}

/// Whether every output is kept under its own name.
pub open spec fn keyed_by_outpoint(map: Map<OutPoint, Record>) -> bool {
    forall|o: OutPoint| #[trigger] map.contains_key(o) ==> map[o].outpoint == o
}

/// Outputs that wait to be resolved are kept under their own names.
pub proof fn law_waiting_outputs_keep_their_names(app: App, candidates: Seq<Record>)
    requires
        keyed_by_outpoint(app.unresolved_registry_outputs),
        keyed_by_outpoint(app.unresolved_player_outputs),
    ensures
        keyed_by_outpoint(app.registry_noted(candidates).unresolved_registry_outputs),
        keyed_by_outpoint(app.candidates_noted(candidates).unresolved_player_outputs),
    decreases candidates.len(),
{
    if candidates.len() > 0 {
        law_waiting_outputs_keep_their_names(app, candidates.drop_last());
    }
}

/// A scan starts with outputs that are all different.
pub proof fn law_scans_start_with_different_outputs(
    values: Seq<Record>,
    map: Map<OutPoint, Record>,
)
    requires
        registry::lists_values(values, map),
        keyed_by_outpoint(map),
    ensures
        arkade::distinct_outputs(values),
{
    let keys = choose|keys: Seq<OutPoint>| #[trigger]
        crate::table::ascending(keys) && (forall|k: OutPoint|
            keys.contains(k) <==> #[trigger] map.contains_key(k)) && values
            == registry::values_in_order(keys, map);
    assert forall|i: int, j: int| 0 <= i < j < values.len() implies (
    #[trigger] values[i]).outpoint != (#[trigger] values[j]).outpoint by {
        assert(keys.contains(keys[i]) && keys.contains(keys[j]));
        assert(map.contains_key(keys[i]) && map.contains_key(keys[j]));
        assert(keys[i].before(keys[j]));
        OutPoint::lemma_before_total(keys[i], keys[j]);
    }
}

/// However often pages repeat an output, a scan of the registry lists it once.
pub proof fn law_registry_scans_do_not_repeat_outputs(
    records: Seq<Record>,
    page: Seq<Record>,
    seen: Set<OutPoint>,
)
    requires
        arkade::distinct_outputs(records),
    ensures
        arkade::distinct_outputs(registry::with_unseen(records, page, seen)),
    decreases page.len(),
{
    if page.len() > 0 {
        law_registry_scans_do_not_repeat_outputs(records, page.drop_last(), seen);
    }
}

proof fn lemma_with_time_outpoints(records: Seq<Record>, outpoint: OutPoint, created_at: Option<i64>)
    ensures
        players::with_time(records, outpoint, created_at).len() == records.len(),
        forall|i: int|
            0 <= i < records.len() ==> (#[trigger] players::with_time(
                records,
                outpoint,
                created_at,
            )[i]).outpoint == records[i].outpoint,
    decreases records.len(),
{
    if records.len() > 0 {
        lemma_with_time_outpoints(records.drop_last(), outpoint, created_at);
    }
}

/// However often pages repeat an output, a scan of the players lists it once.
pub proof fn law_player_scans_do_not_repeat_outputs(
    records: Seq<Record>,
    found: Seq<Record>,
    seen: Set<OutPoint>,
)
    requires
        arkade::distinct_outputs(records),
    ensures
        arkade::distinct_outputs(players::with_all_found(records, found, seen)),
    decreases found.len(),
{
    if found.len() > 0 {
        law_player_scans_do_not_repeat_outputs(records, found.drop_last(), seen);
        let before = players::with_all_found(records, found.drop_last(), seen);
        let last = found.last();
        lemma_with_time_outpoints(before, last.outpoint, last.created_at);
        if arkade::lists(before, last.outpoint) {
            let after = players::with_time(before, last.outpoint, last.created_at);
            assert forall|i: int, j: int| 0 <= i < j < after.len() implies (
            #[trigger] after[i]).outpoint != (#[trigger] after[j]).outpoint by {
                assert(after[i].outpoint == before[i].outpoint);
                assert(after[j].outpoint == before[j].outpoint);
            }
        }
    }
}

} // verus!
