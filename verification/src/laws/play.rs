//! The client: what it accepts as registrations and actions, and what it does next.

use crate::actions::ActionEvent;
use crate::arkade::Record;
use crate::chain::{AssetId, OutPoint, Output, Txid};
use crate::gamelog;
use crate::gamelog::Burn;
use crate::match_;
use crate::match_::discovery;
use crate::match_::players;
use crate::match_::players::Batch;
use crate::match_::registry;
use crate::match_::sync;
use crate::match_::sync::Lookup;
use crate::match_::tick;
use crate::match_::tick::{Beginning, PlayStep, WalletStep, WalletSynced, Wishes};
use crate::match_::{App, Phase};
use crate::pending;
use crate::pending::{JournalError, Pending, PendingJournal, Prepared, Purpose};
use crate::psbt::Signed;
use crate::seqs;
use crate::text;
use vstd::prelude::*;

verus! {

/// Whether a direction can be queued: it is one of the six actions, and a unit of it is left.
pub open spec fn is_left(app: App, direction: u8) -> bool {
    direction <= 5 && app.move_balances[direction as int] >= 1
}

/// Whether the player has a tentative action.
pub open spec fn has_tentative(app: App, player: Txid) -> bool {
    exists|i: int|
        0 <= i < app.events.len() && (#[trigger] app.events[i]).player == player
            && app.events[i].local_tentative
}

/// A player who plays, with a carrier at hand and nothing on the way, queues the first of the wanted
/// actions that is left; in every other state nothing is queued.
pub proof fn law_the_first_action_left_is_queued(app: App, dirs: Seq<u8>)
    ensures
        ({
            let free = {
                &&& app.phase == Phase::Playing
                &&& !app.sending
                &&& app.pending_action is None
                &&& app.pending_dirs.len() == 0
                &&& app.carrier_available
                &&& app.move_assets matches Some(assets) ==> !has_tentative(app, assets[0].txid)
            };
            &&& !free ==> app.queued(dirs) == app
            &&& free ==> forall|k: int|
                0 <= k < dirs.len() && is_left(app, #[trigger] dirs[k]) && (forall|i: int|
                    0 <= i < k ==> !is_left(app, #[trigger] dirs[i])) ==> app.queued(dirs)
                    == (App { pending_dirs: seq![dirs[k]], ..app })
            &&& (forall|k: int| 0 <= k < dirs.len() ==> !is_left(app, #[trigger] dirs[k]))
                ==> app.queued(dirs) == app
        }),
{
    if let Some(assets) = app.move_assets {
        lemma_first_tentative(app.events, assets[0].txid);
    }
    lemma_none_playable(dirs, app);
    assert forall|k: int|
        0 <= k < dirs.len() && is_left(app, #[trigger] dirs[k]) && (forall|i: int|
            0 <= i < k ==> !is_left(app, #[trigger] dirs[i])) implies match_::first_playable(
        dirs,
        app.move_balances,
    ) == Some(dirs[k]) by {
        lemma_first_playable(dirs, app, k);
    }
}

proof fn lemma_first_tentative(events: Seq<ActionEvent>, player: Txid)
    ensures
        match_::first_tentative(events, player) is Some <==> exists|i: int|
            0 <= i < events.len() && (#[trigger] events[i]).player == player
                && events[i].local_tentative,
    decreases events.len(),
{
    if events.len() > 0 {
        let rest = events.drop_first();
        lemma_first_tentative(rest, player);
        if exists|i: int|
            0 <= i < rest.len() && (#[trigger] rest[i]).player == player
                && rest[i].local_tentative {
            let i = choose|i: int|
                0 <= i < rest.len() && (#[trigger] rest[i]).player == player
                    && rest[i].local_tentative;
            assert(events[i + 1] == rest[i]);
        }
        if exists|i: int|
            0 <= i < events.len() && (#[trigger] events[i]).player == player
                && events[i].local_tentative {
            let i = choose|i: int|
                0 <= i < events.len() && (#[trigger] events[i]).player == player
                    && events[i].local_tentative;
            if i > 0 {
                assert(rest[i - 1] == events[i]);
            }
        }
    }
}

proof fn lemma_first_playable(dirs: Seq<u8>, app: App, k: int)
    requires
        0 <= k < dirs.len(),
        is_left(app, dirs[k]),
        forall|i: int| 0 <= i < k ==> !is_left(app, #[trigger] dirs[i]),
    ensures
        match_::first_playable(dirs, app.move_balances) == Some(dirs[k]),
    decreases dirs.len(),
{
    if k > 0 {
        assert(!is_left(app, dirs[0]));
        let rest = dirs.drop_first();
        assert(rest[k - 1] == dirs[k]);
        assert forall|i: int| 0 <= i < k - 1 implies !is_left(app, #[trigger] rest[i]) by {
            assert(rest[i] == dirs[i + 1]);
        }
        lemma_first_playable(rest, app, k - 1);
    }
}

proof fn lemma_none_playable(dirs: Seq<u8>, app: App)
    ensures
        (forall|k: int| 0 <= k < dirs.len() ==> !is_left(app, #[trigger] dirs[k]))
            ==> match_::first_playable(dirs, app.move_balances) is None,
    decreases dirs.len(),
{
    if dirs.len() > 0 && forall|k: int| 0 <= k < dirs.len() ==> !is_left(app, #[trigger] dirs[k]) {
        assert(!is_left(app, dirs[0]));
        let rest = dirs.drop_first();
        assert forall|k: int| 0 <= k < rest.len() implies !is_left(app, #[trigger] rest[k]) by {
            assert(rest[k] == dirs[k + 1]);
        }
        lemma_none_playable(rest, app);
    }
}

/// The carrier that an action has to spend is output one of the issuance for the first action, and
/// output zero of the action before for each other one.
pub proof fn law_predecessors_are_carriers(app: App, sequence: u32)
    ensures
        app.move_assets is None ==> app.predecessor(sequence) is None,
        app.move_assets matches Some(assets) ==> {
            let player = assets[0].txid;
            let chain = crate::actions::canonical_chain(app.events, player);
            &&& sequence == 0 ==> app.predecessor(0) == Some(OutPoint { txid: player, vout: 1 })
            &&& 1 <= sequence <= chain.len() ==> app.predecessor(sequence) == Some(
                OutPoint { txid: chain[sequence - 1].txid, vout: 0 },
            )
            &&& sequence > chain.len() ==> app.predecessor(sequence) is None
        },
{
}

/// A confirmed action of the player is listed as its own, not yet indexed; the next number lies
/// behind it, one unit of it is gone, and the carrier has to be seen again.
pub proof fn law_completed_actions_are_counted(
    app: App,
    direction: u8,
    sequence: u32,
    txid: Txid,
    predecessor: OutPoint,
)
    requires
        direction < app.move_balances.len(),
        app.move_assets is Some,
        !app.seen_move_txs.contains(txid),
        sequence < u32::MAX,
    ensures
        ({
            let after = app.move_completed(direction, sequence, txid, predecessor);
            &&& after.events == app.events.push(
                ActionEvent {
                    txid,
                    player: app.move_assets.unwrap()[0].txid,
                    sequence,
                    action: direction,
                    predecessor,
                    created_at: None,
                    local_tentative: true,
                },
            )
            &&& after.seen_move_txs.contains(txid)
            &&& after.next_sequence >= sequence + 1
            &&& after.next_sequence == sequence + 1 || after.next_sequence == app.next_sequence
            &&& app.move_balances[direction as int] > 0 ==> after.move_balances[direction as int]
                == app.move_balances[direction as int] - 1
            &&& app.move_balances[direction as int] == 0 ==> after.move_balances[direction as int]
                == 0
            &&& forall|d: int|
                0 <= d < app.move_balances.len() && d != direction
                    ==> #[trigger] after.move_balances[d] == app.move_balances[d]
            &&& !after.carrier_available
        }),
{
}

/// After the history is known, the next number is at least that of the player's actions, and it
/// never goes back.
pub proof fn law_the_next_number_follows_the_history(app: App)
    requires
        app.move_assets is Some,
    ensures
        ({
            let count = crate::actions::canonical_chain(
                app.events,
                app.move_assets.unwrap()[0].txid,
            ).len();
            &&& count <= u32::MAX && count >= app.next_sequence ==> app.reconciled().next_sequence
                == count
            &&& count < app.next_sequence ==> app.reconciled().next_sequence == app.next_sequence
            &&& app.reconciled().events == app.events
            &&& app.reconciled().pending_action == app.pending_action
        }),
{
}

/// A player's history is ready exactly where the player is registered, its script was scanned, and no
/// output of that script waits to be resolved.
pub proof fn law_histories_are_ready_when_nothing_waits(app: App)
    ensures
        app.history_ready() <==> (app.move_assets matches Some(assets) && {
            let player = assets[0].txid;
            &&& app.registered_players.contains_key(player)
            &&& app.fully_scanned_player_scripts.contains(app.registered_players[player])
            &&& forall|o: OutPoint| #[trigger]
                app.unresolved_player_outputs.contains_key(o) ==> text::lower(
                    app.unresolved_player_outputs[o].script,
                ) != text::lower(app.registered_players[player])
        }),
{
    if let Some(assets) = app.move_assets {
        let player = assets[0].txid;
        let script = app.registered_players[player];
        if app.history_ready() {
            assert forall|o: OutPoint| #[trigger]
                app.unresolved_player_outputs.contains_key(o) implies text::lower(
                app.unresolved_player_outputs[o].script,
            ) != text::lower(script) by {
                let r = app.unresolved_player_outputs[o];
            }
        }
    }
}

/// Whether all six balances are used up.
pub open spec fn nothing_is_left(app: App) -> bool {
    forall|d: int| 0 <= d < app.move_balances.len() ==> #[trigger] app.move_balances[d] == 0
}

/// What a tick does once the game is known. Without a pack it issues one where that is wished and
/// paid for. With one it mints another where that is wished and possible; else it plays, if the pack
/// is visible, not exhausted, and the history is ready.
pub proof fn law_ticks_end_as_wished(
    app: App,
    wishes: Wishes,
    game_ready: bool,
    diagnostics_ready: bool,
)
    ensures
        ({
            let (after, step) = app.played(wishes, game_ready, diagnostics_ready);
            let pack = app.move_assets is Some;
            &&& !game_ready ==> step == PlayStep::Stop
            &&& step == PlayStep::Issue <==> game_ready && !pack && wishes.enter_game
                && app.funding_ready && !app.sending
            &&& step == PlayStep::MintPack <==> game_ready && pack && wishes.mint_pack
                && app.funding_ready && !app.sending && app.pending_action is None
                && app.pending_dirs.len() == 0
            &&& step == PlayStep::Move <==> game_ready && pack && !wishes.mint_pack
                && app.issuance_visible && !nothing_is_left(app) && app.history_ready()
                && !app.sending
            &&& game_ready && pack && !wishes.mint_pack ==> {
                &&& app.issuance_visible && nothing_is_left(app) ==> after.phase
                    == Phase::OutOfMoves && after.pending_dirs.len() == 0
                &&& !app.issuance_visible ==> after.phase == Phase::Issuing
                &&& app.issuance_visible && !nothing_is_left(app) && !app.history_ready()
                    ==> after.phase == Phase::Syncing
                &&& app.issuance_visible && !nothing_is_left(app) && app.history_ready()
                    ==> after.phase == Phase::Playing
            }
            &&& after.pending_action == app.pending_action
            &&& after.events == app.events
        }),
{
    let known = app.reconciled();
    let calm = known.error_over(diagnostics_ready);
    law_histories_are_ready_when_nothing_waits(app);
    law_histories_are_ready_when_nothing_waits(calm);
    assert(calm.registered_players == app.registered_players);
    assert(calm.unresolved_player_outputs == app.unresolved_player_outputs);
    assert(calm.fully_scanned_player_scripts == app.fully_scanned_player_scripts);
    assert(calm.move_assets == app.move_assets);
    assert(calm.history_ready() == app.history_ready());
    assert(calm.move_balances == app.move_balances);
    assert(calm.is_exhausted() == nothing_is_left(app));
    let placed = calm.phase_found().0;
    assert(placed.sending == app.sending);
}

/// How a tick begins: a transaction that was just prepared is submitted before anything else. A tick
/// without anything to do reads wallet and game at the same time, the wallet's history once a second.
pub proof fn law_ticks_begin_with_what_is_fresh(app: App, wishes: Wishes, now_ms: u64)
    ensures
        ({
            let fresh = !app.pending_needs_recovery && (app.pending_action matches Some(action)
                && action.unknown);
            let busy = wishes.enter_game || wishes.mint_pack || wishes.sweep || app.pending_action
                is Some || app.pending_dirs.len() > 0;
            &&& fresh ==> app.beginning(wishes, now_ms) == Beginning::Resume
            &&& !fresh && !busy && app.move_assets is Some ==> (app.beginning(
                wishes,
                now_ms,
            ) matches Beginning::Synchronize { parallel_game, diagnostics } && parallel_game && (
            diagnostics <==> now_ms >= app.wallet_sync_ms + 1_000))
            &&& !fresh && (busy || app.move_assets is None) ==> (app.beginning(
                wishes,
                now_ms,
            ) matches Beginning::Synchronize { parallel_game, diagnostics } && !parallel_game && (
            diagnostics <==> !busy || app.pending_action is Some))
        }),
{
}

/// How a tick goes on: a pending transaction comes first, then a sweep, then the game; a queued
/// action does not wait for the game where the history is ready.
pub proof fn law_ticks_go_on_in_order(app: App, wishes: Wishes, synced: WalletSynced)
    ensures
        ({
            let step = app.wallet_step(wishes, synced);
            let pending = app.pending_action is Some;
            &&& pending && synced.diagnostics_ready ==> step == WalletStep::Resume
            &&& pending && !synced.diagnostics_ready ==> step == WalletStep::Stop
            &&& !pending && wishes.sweep ==> step == WalletStep::Sweep
            &&& !pending && !wishes.sweep ==> {
                &&& synced.game_ready matches Some(ready) ==> step == WalletStep::Game(ready)
                &&& synced.game_ready is None && app.pending_dirs.len() > 0 && app.history_ready()
                    ==> step == WalletStep::Game(true)
                &&& synced.game_ready is None && !(app.pending_dirs.len() > 0
                    && app.history_ready()) ==> step == WalletStep::RefreshGame
            }
        }),
{
}

/// The game is scanned completely every thirty seconds, and the registry is read twice a second; the
/// first time it comes before the players.
pub proof fn law_the_game_is_scanned_in_time(app: App, now_ms: u64, accepted: u32)
    requires
        app.full_game_sync_ms <= now_ms,
        app.registry_sync_ms <= now_ms,
    ensures
        ({
            let sync = app.game_sync(now_ms);
            let full = app.full_game_sync_ms == 0 || now_ms - app.full_game_sync_ms >= 30_000;
            &&& sync.periodic_full <==> full
            &&& sync.players_full <==> full || !app.initial_player_sync
            &&& sync.registry_first <==> !app.initial_registry_sync
            &&& sync.registry_due <==> full || !app.initial_registry_sync || now_ms
                - app.registry_sync_ms >= 500
            &&& tick::registry_follows(sync, accepted) <==> app.initial_registry_sync && (full
                || now_ms - app.registry_sync_ms >= 500) && accepted == 0
        }),
        app.registry_done(now_ms).initial_registry_sync,
        app.registry_done(now_ms).registry_sync_ms == now_ms,
{
}

/// A candidate registers a player exactly where its transaction is a canonical registration and the
/// registry shows one marker of it, output zero, without assets. Anything else is noted as invalid;
/// one whose transaction is missing is left for later.
pub proof fn law_registrations_need_one_clean_marker(
    app: App,
    txid: Txid,
    records: Seq<Record>,
    txs: Map<Txid, Signed>,
)
    ensures
        ({
            let (after, fresh) = app.registration_judged(txid, records, txs);
            let markers = records.filter(|r: Record| r.outpoint.vout == 0);
            let clean = markers.len() == 1 && markers[0].assets.len() == 0;
            let script = gamelog::registered_script(
                txs[txid].tx.output,
                app.game_script,
                app.params.dust_sats,
            );
            &&& !txs.contains_key(txid) ==> after == app && !fresh
            &&& txs.contains_key(txid) && script is Some && clean ==> {
                &&& after.registered_players.contains_key(txid)
                &&& after.registered_players[txid] == script.unwrap()
                &&& !after.invalid_registrations.contains(txid)
                &&& fresh == !app.registered_players.contains_key(txid)
            }
            &&& txs.contains_key(txid) && !(script is Some && clean) ==> {
                &&& after.registered_players == app.registered_players
                &&& after.invalid_registrations == app.invalid_registrations.insert(txid)
                &&& !fresh
            }
            &&& forall|other: Txid|
                other != txid ==> (#[trigger] after.registered_players.contains_key(other)
                    <==> app.registered_players.contains_key(other))
            &&& after.events == app.events
        }),
{
    lemma_registry_seen(app, records);
    let judged = App {
        invalid_registrations: app.invalid_registrations.remove(txid),
        registered_players: app.registered_players.insert(
            txid,
            gamelog::registered_script(
                txs[txid].tx.output,
                app.game_script,
                app.params.dust_sats,
            ).unwrap(),
        ),
        ..app
    };
    lemma_registry_seen(judged, records);
    let refused = App { invalid_registrations: app.invalid_registrations.insert(txid), ..app };
    lemma_registry_seen(refused, records);
}

proof fn lemma_registry_seen(app: App, records: Seq<Record>)
    ensures
        app.registry_seen(records) == (App {
            seen_registry_outputs: app.registry_seen(records).seen_registry_outputs,
            unresolved_registry_outputs: app.registry_seen(records).unresolved_registry_outputs,
            ..app
        }),
    decreases records.len(),
{
    if records.len() > 0 {
        lemma_registry_seen(app, records.drop_last());
    }
}

proof fn lemma_player_seen(app: App, records: Seq<Record>)
    ensures
        app.player_seen(records) == (App {
            seen_player_outputs: app.player_seen(records).seen_player_outputs,
            unresolved_player_outputs: app.player_seen(records).unresolved_player_outputs,
            ..app
        }),
    decreases records.len(),
{
    if records.len() > 0 {
        lemma_player_seen(app, records.drop_last());
    }
}

/// Whether a transaction leaves the carrier of a player: its first output pays exactly dust to the
/// player's script, and no other output pays anything to it.
pub open spec fn keeps_the_carrier(outputs: Seq<Output>, script: Seq<char>, dust: u64) -> bool {
    &&& outputs.len() >= 1
    &&& text::hex_text(outputs[0].script) == script
    &&& outputs[0].value == dust
    &&& dust > 0
    &&& forall|i: int|
        1 <= i < outputs.len() ==> text::hex_text((#[trigger] outputs[i]).script) != script
            || outputs[i].value == 0
}

/// Whether some record shows the carrier: output zero, worth exactly dust, on the player's script.
pub open spec fn carrier_shown(records: Seq<Record>, script: Seq<char>, dust: u64) -> bool {
    exists|i: int|
        0 <= i < records.len() && (#[trigger] records[i]).outpoint.vout == 0
            && records[i].amount_sats == dust && text::lower(records[i].script) == text::lower(script)
}

/// A burn is an action of the player exactly where it keeps the carrier, all preserved units go to
/// output zero, and the indexer shows the carrier.
pub proof fn law_actions_keep_the_carrier(
    tx: Signed,
    burn: Burn,
    records: Seq<Record>,
    script: Seq<char>,
    dust: u64,
)
    ensures
        players::is_players_action(tx, burn, records, script, dust) <==> {
            &&& keeps_the_carrier(tx.tx.output, script, dust)
            &&& forall|i: int|
                0 <= i < burn.preserved_output_indexes.len()
                    ==> #[trigger] burn.preserved_output_indexes[i] == 0
            &&& carrier_shown(records, script, dust)
        },
{
    let outputs = tx.tx.output;
    if players::leaves_carrier(outputs, script, dust) {
        assert forall|i: int| 1 <= i < outputs.len() implies text::hex_text(
            (#[trigger] outputs[i]).script,
        ) != script || outputs[i].value == 0 by {
            assert(!players::pays(outputs[i], script));
        }
    }
    if keeps_the_carrier(outputs, script, dust) {
        assert forall|i: int| 0 < i < outputs.len() implies !players::pays(
            #[trigger] outputs[i],
            script,
        ) by {
            assert(text::hex_text(outputs[i].script) != script || outputs[i].value == 0);
        }
    }
    if carrier_shown(records, script, dust) {
        let i = choose|i: int|
            0 <= i < records.len() && (#[trigger] records[i]).outpoint.vout == 0
                && records[i].amount_sats == dust && text::lower(records[i].script) == text::lower(
                script,
            );
        assert(players::is_indexed_carrier(records[i], script, dust));
    }
    if players::carrier_is_indexed(records, script, dust) {
        let i = choose|i: int|
            0 <= i < records.len() && players::is_indexed_carrier(
                #[trigger] records[i],
                script,
                dust,
            );
        assert(records[i].outpoint.vout == 0);
    }
}

/// An accepted burn is listed as the action it names: the player is the issuance of the burned asset,
/// the action its group, the number that of the receipt, and the time that of output zero.
pub proof fn law_accepted_burns_are_listed(
    app: App,
    txid: Txid,
    tx: Signed,
    burn: Burn,
    predecessor: OutPoint,
    records: Seq<Record>,
    script: Seq<char>,
)
    requires
        !app.seen_move_txs.contains(txid),
        !players::lists_event(app.events, txid),
        burn.asset_id.group_index <= 255,
    ensures
        ({
            let (after, accepted) = app.burn_judged(txid, tx, burn, predecessor, records, script);
            let fine = players::is_players_action(
                tx,
                burn,
                records,
                script,
                app.params.dust_sats,
            );
            let time = players::first_output_time(records);
            &&& !fine ==> after.events == app.events && !accepted
            &&& fine && time is None ==> after == app && !accepted
            &&& fine && time is Some ==> {
                &&& accepted
                &&& after.events.len() == app.events.len() + 1
                &&& forall|i: int|
                    0 <= i < app.events.len() ==> #[trigger] after.events[i] == app.events[i]
                &&& {
                    let event = after.events[app.events.len() as int];
                    &&& event.txid == txid
                    &&& event.player == burn.asset_id.txid
                    &&& event.sequence == burn.receipt.sequence
                    &&& event.action == burn.asset_id.group_index
                    &&& event.predecessor == predecessor
                    &&& event.created_at == time
                    &&& !event.local_tentative
                }
                &&& after.seen_move_txs.contains(txid)
            }
        }),
{
    lemma_player_seen(app, records);
    if let Some(created_at) = players::first_output_time(records) {
        let event = ActionEvent {
            txid,
            player: burn.asset_id.txid,
            sequence: burn.receipt.sequence,
            action: burn.asset_id.group_index as u8,
            predecessor,
            created_at: Some(created_at),
            local_tentative: false,
        };
        lemma_player_seen(app.action_indexed(event).0, records);
    }
}

/// The time of an action is that of the first record of its output zero.
pub proof fn law_times_are_those_of_output_zero(records: Seq<Record>, k: int)
    requires
        0 <= k < records.len(),
        records[k].outpoint.vout == 0,
        forall|i: int| 0 <= i < k ==> (#[trigger] records[i]).outpoint.vout != 0,
    ensures
        players::first_output_time(records) == records[k].created_at,
    decreases k,
{
    if k > 0 {
        assert(records[0].outpoint.vout != 0);
        let rest = records.drop_first();
        assert(rest[k - 1] == records[k]);
        assert forall|i: int| 0 <= i < k - 1 implies (#[trigger] rest[i]).outpoint.vout != 0 by {
            assert(rest[i] == records[i + 1]);
        }
        law_times_are_those_of_output_zero(rest, k - 1);
    }
}

/// An action is a burn in a transaction with one input, the carrier, which spends output zero of a
/// checkpoint with one input, the predecessor.
pub proof fn law_predecessors_are_found_through_the_checkpoint(txid: Txid, batch: Batch)
    ensures
        players::pending_burn(txid, batch) matches Some((burn, predecessor)) ==> {
            let tx = batch.txs[txid].tx;
            &&& batch.txs.contains_key(txid)
            &&& gamelog::burn_of(tx.output) == Some(burn)
            &&& tx.input.len() == 1
            &&& tx.input[0].previous_output.vout == 0
            &&& batch.carriers.contains_key(tx.input[0].previous_output.txid)
            &&& {
                let checkpoint = batch.carriers[tx.input[0].previous_output.txid].tx;
                &&& checkpoint.input.len() == 1
                &&& checkpoint.input[0].previous_output == predecessor
            }
        },
        players::pending_burn(txid, batch) is None && batch.txs.contains_key(txid) ==> {
            let tx = batch.txs[txid].tx;
            ||| gamelog::burn_of(tx.output) is None
            ||| tx.input.len() != 1
            ||| tx.input[0].previous_output.vout != 0
            ||| !batch.carriers.contains_key(tx.input[0].previous_output.txid)
            ||| batch.carriers[tx.input[0].previous_output.txid].tx.input.len() != 1
        },
        !batch.txs.contains_key(txid) ==> players::pending_burn(txid, batch) is None,
{
}

/// Ids that are asked for are those not known yet, each once, in the order of their first mention.
pub proof fn law_missing_ids_are_asked_for_once(txids: Seq<Txid>, known: Set<Txid>, txid: Txid)
    ensures
        sync::missing_ids(txids, known).contains(txid) <==> txids.contains(txid)
            && !known.contains(txid),
        sync::missing_ids(txids, known).no_duplicates(),
        sync::missing_ids(txids.push(txid), known) == if known.contains(txid) || txids.contains(
            txid,
        ) {
            sync::missing_ids(txids, known)
        } else {
            sync::missing_ids(txids, known).push(txid)
        },
    decreases txids.len(),
{
    assert(txids.push(txid).drop_last() =~= txids);
    if txids.len() > 0 {
        let rest = txids.drop_last();
        let last = txids.last();
        law_missing_ids_are_asked_for_once(rest, known, txid);
        law_missing_ids_are_asked_for_once(rest, known, last);
        let before = sync::missing_ids(rest, known);
        assert(txids[txids.len() - 1] == last);
        if rest.contains(txid) {
            assert(txids[rest.index_of(txid)] == txid);
        }
        if txids.contains(txid) && txid != last {
            assert(rest[txids.index_of(txid)] == txid);
        }
        if !known.contains(last) && !before.contains(last) {
            let after = before.push(last);
            assert(after[before.len() as int] == last);
            if before.contains(txid) {
                assert(after[before.index_of(txid)] == txid);
            }
            if after.contains(txid) && txid != last {
                assert(before[after.index_of(txid)] == txid);
            }
        }
    }
}

/// Whether a record shows a pack: a unit of one of its six assets.
pub open spec fn shows_pack(assets: Seq<(Seq<char>, u64)>, txid: Txid) -> bool {
    exists|i: int|
        0 <= i < assets.len() && (#[trigger] assets[i]).1 >= 1 && (crate::chain::asset_id_of(
            assets[i].0,
        ) matches Some(id) && id.txid == txid && id.group_index <= 5)
}

proof fn lemma_with_assets(
    packs: Map<Txid, i64>,
    assets: Seq<(Seq<char>, u64)>,
    created_at: i64,
    txid: Txid,
)
    ensures
        ({
            let after = sync::with_assets(packs, assets, created_at);
            &&& after.contains_key(txid) <==> packs.contains_key(txid) || shows_pack(assets, txid)
            &&& packs.contains_key(txid) && !shows_pack(assets, txid) ==> after[txid] == packs[txid]
            &&& !packs.contains_key(txid) && shows_pack(assets, txid) ==> after[txid] == created_at
            &&& packs.contains_key(txid) && shows_pack(assets, txid) ==> after[txid] == if packs[txid]
                > created_at {
                packs[txid]
            } else {
                created_at
            }
        }),
    decreases assets.len(),
{
    if assets.len() > 0 {
        let rest = assets.drop_last();
        let n = assets.len() - 1;
        lemma_with_assets(packs, rest, created_at, txid);
        if shows_pack(rest, txid) {
            let i = choose|i: int|
                0 <= i < rest.len() && (#[trigger] rest[i]).1 >= 1 && (crate::chain::asset_id_of(
                    rest[i].0,
                ) matches Some(id) && id.txid == txid && id.group_index <= 5);
            assert(assets[i] == rest[i]);
        }
        if shows_pack(assets, txid) {
            let i = choose|i: int|
                0 <= i < assets.len() && (#[trigger] assets[i]).1 >= 1
                    && (crate::chain::asset_id_of(assets[i].0) matches Some(id) && id.txid == txid
                    && id.group_index <= 5);
            if i < n {
                assert(rest[i] == assets[i]);
            }
        }
        if let Some(id) = crate::chain::asset_id_of(assets[n].0) {
            if assets[n].1 >= 1 && id.txid == txid && id.group_index <= 5 {
                assert(shows_pack(assets, txid));
            }
        }
        assert(assets.last() == assets[n]);
    }
}

/// A wallet holds a pack exactly where one of its outputs shows it; the pack is as new as the newest
/// such output.
pub proof fn law_packs_are_as_new_as_their_outputs(records: Seq<Record>, txid: Txid)
    ensures
        sync::packs_in(records).contains_key(txid) <==> exists|i: int|
            0 <= i < records.len() && shows_pack(#[trigger] records[i].assets, txid),
        sync::packs_in(records).contains_key(txid) ==> forall|i: int|
            0 <= i < records.len() && shows_pack(#[trigger] records[i].assets, txid) ==> (
            records[i].created_at matches Some(time) ==> time <= sync::packs_in(records)[txid]),
        sync::packs_in(records).contains_key(txid) ==> exists|i: int|
            0 <= i < records.len() && shows_pack(#[trigger] records[i].assets, txid)
                && sync::packs_in(records)[txid] == match records[i].created_at {
                Some(time) => time,
                None => i64::MIN,
            },
    decreases records.len(),
{
    if records.len() > 0 {
        let rest = records.drop_last();
        let n = records.len() - 1;
        law_packs_are_as_new_as_their_outputs(rest, txid);
        lemma_with_assets(
            sync::packs_in(rest),
            records.last().assets,
            sync::created_or_min(records.last()),
            txid,
        );
        let all = sync::packs_in(records);
        assert forall|i: int| 0 <= i < n implies rest[i] == #[trigger] records[i] by {}
        if sync::packs_in(rest).contains_key(txid) {
            let i = choose|i: int|
                0 <= i < rest.len() && shows_pack(#[trigger] rest[i].assets, txid)
                    && sync::packs_in(rest)[txid] == match rest[i].created_at {
                    Some(time) => time,
                    None => i64::MIN,
                };
            assert(shows_pack(records[i].assets, txid));
        }
        if shows_pack(records[n].assets, txid) {
            assert(all.contains_key(txid));
        }
        if exists|i: int| 0 <= i < records.len() && shows_pack(#[trigger] records[i].assets, txid) {
            let i = choose|i: int|
                0 <= i < records.len() && shows_pack(#[trigger] records[i].assets, txid);
            if i < n {
                assert(shows_pack(rest[i].assets, txid));
            }
        }
        if all.contains_key(txid) {
            assert forall|i: int|
                0 <= i < records.len() && shows_pack(#[trigger] records[i].assets, txid) implies (
            records[i].created_at matches Some(time) ==> time <= all[txid]) by {
                if i < n {
                    assert(shows_pack(rest[i].assets, txid));
                }
            }
            if shows_pack(records[n].assets, txid) && (!sync::packs_in(rest).contains_key(txid)
                || sync::packs_in(rest)[txid] <= sync::created_or_min(records[n])) {
                assert(all[txid] == sync::created_or_min(records[n]));
            }
        }
    }
}

/// Of two packs the one that was created later is newer; of the same time, the one whose id sorts
/// later as text.
pub proof fn law_later_packs_are_newer(a: (Txid, i64), b: (Txid, i64))
    ensures
        a.1 > b.1 ==> sync::newer(a, b),
        a.1 < b.1 ==> !sync::newer(a, b),
        a.1 == b.1 ==> (sync::newer(a, b) <==> text::text_less(b.0.text(), a.0.text())),
{
}

/// A selected pack is the active one, from its start: its six assets, nothing counted or seen of it
/// yet.
pub proof fn law_selected_packs_start_anew(app: App, pack: (Txid, i64), i: int)
    requires
        0 <= i < 6,
    ensures
        ({
            let after = app.pack_selected(pack);
            &&& after.move_assets matches Some(ids) && ids.len() == 6 && ids[i] == (AssetId {
                txid: pack.0,
                group_index: i as u16,
            })
            &&& after.move_balances.len() == 6 && after.move_balances[i] == 0
            &&& after.move_pack_created_at == Some(pack.1)
            &&& after.next_sequence == 0
            &&& !after.carrier_available
            &&& !after.issuance_visible
            &&& after.pending_action == app.pending_action
            &&& after.events == app.events
        }),
{
}

/// What is known of an issuance: a registered player's script, that it is invalid, or nothing; an
/// answer that holds its transaction settles which.
pub proof fn law_answers_settle_issuances(app: App, txid: Txid, psbts: Seq<Signed>, k: int)
    requires
        0 <= k < psbts.len(),
        psbts[k].txid() == txid,
        forall|i: int| 0 <= i < k ==> (#[trigger] psbts[i]).txid() != txid,
    ensures
        ({
            let script = gamelog::registered_script(
                psbts[k].tx.output,
                app.game_script,
                app.params.dust_sats,
            );
            let after = app.issuance_resolved(txid, Ok(psbts));
            &&& app.issuance_script(txid, Ok(psbts)) == Ok::<Option<Seq<char>>, Seq<char>>(script)
            &&& script matches Some(script) ==> after.issuance_lookup(txid) == Lookup::Registered(
                script,
            )
            &&& script is None && !app.registered_players.contains_key(txid)
                ==> after.issuance_lookup(txid) == Lookup::Invalid
            &&& after.tx_cache == app.tx_cache.insert(txid, psbts[k])
            &&& after.events == app.events
        }),
        app.issuance_lookup(txid) == Lookup::Unknown <==> !app.registered_players.contains_key(txid)
            && !app.invalid_registrations.contains(txid),
{
    lemma_first_with_id(psbts, txid, k);
}

proof fn lemma_first_with_id(psbts: Seq<Signed>, txid: Txid, k: int)
    requires
        0 <= k < psbts.len(),
        psbts[k].txid() == txid,
        forall|i: int| 0 <= i < k ==> (#[trigger] psbts[i]).txid() != txid,
    ensures
        sync::first_with_id(psbts, txid) == Some(psbts[k]),
    decreases k,
{
    if k > 0 {
        assert(psbts[0].txid() != txid);
        let rest = psbts.drop_first();
        assert(rest[k - 1] == psbts[k]);
        assert forall|i: int| 0 <= i < k - 1 implies (#[trigger] rest[i]).txid() != txid by {
            assert(rest[i] == psbts[i + 1]);
        }
        lemma_first_with_id(rest, txid, k - 1);
    }
}

/// A journal is taken up exactly where it is of this version, operator, wallet and signer, can be
/// restored, and, if it is an issuance, registers this wallet. What it holds is then pending, and
/// whether the operator has it is to be found out.
pub proof fn law_journals_of_this_wallet_are_taken_up(app: App, journal: PendingJournal)
    ensures
        ({
            let ours = journal.version == 3 && journal.server@ == app.server && journal.address@
                == app.player_address && journal.signer@ == text::hex_text(app.params.signer_pk);
            let action = pending::restored(journal.action@);
            let registers = action matches Ok(action) && (action.purpose is Issuance
                ==> gamelog::registered_script(
                action.tx.signed_ark.tx.output,
                app.game_script,
                app.params.dust_sats,
            ) == Some(app.player_script));
            &&& app.journal_restored(journal) is Ok <==> ours && registers
            &&& app.journal_restored(journal) matches Ok(after) ==> {
                &&& action == Ok::<Pending, JournalError>(after.pending_action.unwrap())
                &&& after.pending_needs_recovery
                &&& after.events == app.events
                &&& action->Ok_0.purpose matches Purpose::Issuance(ids) ==> {
                    &&& after.move_assets == Some(ids)
                    &&& after.phase == Phase::Issuing
                    &&& after.next_sequence == 0
                    &&& after.move_balances == seq![50u64, 50u64, 50u64, 50u64, 50u64, 5u64]
                    &&& after.registered_players == app.registered_players.insert(
                        action->Ok_0.tx.txid,
                        app.player_script,
                    )
                }
                &&& !(action->Ok_0.purpose is Issuance) ==> {
                    &&& after.move_assets == app.move_assets
                    &&& after.phase == app.phase
                    &&& after.next_sequence == app.next_sequence
                    &&& after.registered_players == app.registered_players
                }
            }
        }),
{
    let supplies = seq![50u64, 50u64, 50u64, 50u64, 50u64, 5u64];
    assert(crate::game::ACTION_SUPPLIES@ =~= supplies);
}

/// What a resumed client does: nothing without a pending action or once its effect shows; it
/// finalizes what the operator has cosigned, submits what was never submitted, and looks for what
/// may have been.
pub proof fn law_pending_actions_are_resumed(app: App)
    ensures
        app.pending_action is None ==> app.resume_action() == match_::Resume::Nothing,
        app.pending_action matches Some(action) ==> {
            let fresh = action.unknown && !app.pending_needs_recovery;
            let seen = !fresh && pending::effect_observed(action, app.wallet_records);
            &&& seen ==> app.resume_action() == match_::Resume::Nothing
                && app.resumed().pending_action is None
            &&& !seen ==> app.resumed() == (App { sending: true, ..app })
            &&& !seen && !action.unknown ==> app.resume_action() == match_::Resume::Finalize(
                action.tx,
            )
            &&& !seen && action.unknown && app.pending_needs_recovery ==> app.resume_action()
                == match_::Resume::Retry(action.tx)
            &&& !seen && action.unknown && !app.pending_needs_recovery ==> app.resume_action()
                == match_::Resume::Submit(action.tx)
        },
{
}

/// What came of a submission: finalized, it is finished; cosigned, it waits for its finalization;
/// unknown, it is looked for again. In each case it is the same action.
pub proof fn law_submissions_keep_the_action(app: App, action: Pending, tx: Prepared, txid: Txid)
    requires
        app.pending_action == Some(action),
        action.unknown,
    ensures
        app.submission_done(Ok(match_::Submitted::Finalized(txid))).pending_action is None,
        app.submission_done(Ok(match_::Submitted::Pending(tx))).pending_action == Some(
            Pending { unknown: false, tx, purpose: action.purpose },
        ),
        app.submission_done(Ok(match_::Submitted::Unknown(tx))).pending_action == Some(
            Pending { unknown: true, tx, purpose: action.purpose },
        ),
        app.submission_done(Ok(match_::Submitted::Unknown(tx))).pending_needs_recovery,
        !app.submission_done(Ok(match_::Submitted::Pending(tx))).sending,
        !app.submission_done(Ok(match_::Submitted::Unknown(tx))).sending,
{
}

/// A finished issuance makes its pack the active one and registers the player; a finished action is
/// listed; a finished sweep changes neither.
pub proof fn law_finished_actions_take_effect(app: App, action: Pending, confirmed: bool)
    ensures
        ({
            let after = app.finished(action, confirmed);
            &&& after.pending_action is None
            &&& action.purpose matches Purpose::Issuance(ids) ==> {
                &&& after.move_assets == Some(ids)
                &&& after.registered_players == app.registered_players.insert(
                    action.tx.txid,
                    app.player_script,
                )
                &&& after.events == app.events
            }
            &&& action.purpose is Sweep ==> after.events == app.events && after.move_assets
                == app.move_assets && after.registered_players == app.registered_players
            &&& action.purpose matches Purpose::Move(direction, sequence) ==> {
                &&& after.move_assets == app.move_assets
                &&& app.predecessor(sequence) is Some
                    && !app.seen_move_txs.contains(action.tx.txid) ==> after.events
                    == app.events.push(
                    ActionEvent {
                        txid: action.tx.txid,
                        player: app.move_assets.unwrap()[0].txid,
                        sequence,
                        action: direction,
                        predecessor: app.predecessor(sequence).unwrap(),
                        created_at: None,
                        local_tentative: true,
                    },
                )
                &&& app.predecessor(sequence) is None || app.seen_move_txs.contains(action.tx.txid)
                    ==> after.events == app.events
            }
        }),
{
    let cached = app.tx_cached(action.tx);
    assert(cached.events == app.events);
    if let Purpose::Move(direction, sequence) = action.purpose {
        assert(cached.predecessor(sequence) == app.predecessor(sequence));
    }
}

/// A page of the registry, or of the players, ends the scan only where a known history shows: not on
/// a full scan, not on the first one, and not where an output of it is new.
pub proof fn law_scans_stop_at_known_pages(
    app: App,
    page: crate::arkade::Page,
    full: bool,
)
    ensures
        ({
            let known = page.vtxos.len() > 0 && forall|i: int|
                0 <= i < page.vtxos.len() ==> app.seen_registry_outputs.contains(
                    (#[trigger] page.vtxos[i]).outpoint,
                ) || app.unresolved_registry_outputs.contains_key(page.vtxos[i].outpoint);
            &&& !full && app.initial_registry_sync && known ==> app.next_registry_page(page, full)
                is None
            &&& full || !app.initial_registry_sync || !known ==> app.next_registry_page(page, full)
                == crate::arkade::next_page(page)
        }),
        ({
            let known = page.vtxos.len() > 0 && forall|i: int|
                0 <= i < page.vtxos.len() ==> app.seen_player_outputs.contains(
                    (#[trigger] page.vtxos[i]).outpoint,
                ) || app.unresolved_player_outputs.contains_key(page.vtxos[i].outpoint);
            &&& !full && app.initial_player_sync && known ==> app.next_player_page(page, full)
                is None
            &&& full || !app.initial_player_sync || !known ==> app.next_player_page(page, full)
                == crate::arkade::next_page(page)
        }),
{
}

/// Candidates of the registry wait until they are resolved; one that waits already is kept as it was
/// found first.
pub proof fn law_candidates_wait(app: App, candidates: Seq<Record>, record: Record)
    ensures
        ({
            let before = app.registry_noted(candidates);
            let after = app.registry_noted(candidates.push(record));
            &&& after.unresolved_registry_outputs.contains_key(record.outpoint)
            &&& before.unresolved_registry_outputs.contains_key(record.outpoint) ==> after == before
            &&& !before.unresolved_registry_outputs.contains_key(record.outpoint)
                ==> after.unresolved_registry_outputs
                == before.unresolved_registry_outputs.insert(record.outpoint, record)
        }),
        ({
            let before = app.candidates_noted(candidates);
            let after = app.candidates_noted(candidates.push(record));
            &&& after.unresolved_player_outputs.contains_key(record.outpoint)
            &&& !before.unresolved_player_outputs.contains_key(record.outpoint)
                ==> after.unresolved_player_outputs == before.unresolved_player_outputs.insert(
                record.outpoint,
                record,
            )
            &&& before.unresolved_player_outputs.contains_key(record.outpoint) ==> {
                let known = before.unresolved_player_outputs[record.outpoint];
                &&& known.created_at is Some ==> after == before
                &&& known.created_at is None
                    ==> after.unresolved_player_outputs[record.outpoint].created_at
                    == record.created_at
            }
        }),
{
    assert(candidates.push(record).drop_last() =~= candidates);
}

/// The records of a transaction are those of its outputs, and every transaction among the records is
/// judged once.
pub proof fn law_transactions_are_judged_once(records: Seq<Record>, txid: Txid, record: Record)
    ensures
        registry::records_of(records, txid).contains(record) <==> records.contains(record)
            && record.outpoint.txid == txid,
        registry::txids_of(records).no_duplicates(),
        registry::txids_of(records).contains(txid) <==> exists|i: int|
            0 <= i < records.len() && (#[trigger] records[i]).outpoint.txid == txid,
    decreases records.len(),
{
    let wanted = |r: Record| r.outpoint.txid == txid;
    if records.filter(wanted).contains(record) {
        seqs::lemma_filter_member(records, wanted, record);
    }
    if records.contains(record) && record.outpoint.txid == txid {
        records.lemma_filter_contains(wanted, records.index_of(record));
    }
    if records.len() > 0 {
        let rest = records.drop_last();
        let last = records.last().outpoint.txid;
        let n = records.len() - 1;
        law_transactions_are_judged_once(rest, txid, record);
        let before = registry::txids_of(rest);
        if exists|i: int| 0 <= i < rest.len() && (#[trigger] rest[i]).outpoint.txid == txid {
            let i = choose|i: int|
                0 <= i < rest.len() && (#[trigger] rest[i]).outpoint.txid == txid;
            assert(records[i] == rest[i]);
        }
        if exists|i: int| 0 <= i < records.len() && (#[trigger] records[i]).outpoint.txid == txid {
            let i = choose|i: int|
                0 <= i < records.len() && (#[trigger] records[i]).outpoint.txid == txid;
            if i < n {
                assert(rest[i] == records[i]);
            }
        }
        assert(records[n].outpoint.txid == last);
        if !before.contains(last) {
            let after = before.push(last);
            assert(after[before.len() as int] == last);
            if before.contains(txid) {
                assert(after[before.index_of(txid)] == txid);
            }
            if after.contains(txid) && txid != last {
                assert(before[after.index_of(txid)] == txid);
            }
        }
    }
}

/// The pack of a registration has six assets, the groups of its transaction in order.
pub proof fn law_packs_have_six_assets(txid: Txid, i: int)
    requires
        0 <= i < 6,
    ensures
        discovery::six_groups(txid).len() == 6,
        discovery::six_groups(txid)[i].txid == txid,
        discovery::six_groups(txid)[i].group_index == i,
{
}

} // verus!
