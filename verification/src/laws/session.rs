//! A session: what a player is shown, and how synchronizations and requests end.

use crate::actions::ActionEvent;
use crate::arkade::{CosignedTx, Record};
use crate::chain::{OutPoint, Txid};
use crate::game;
use crate::game::PlayerState;
use crate::gamelog::Burn;
use crate::match_;
use crate::match_::players;
use crate::match_::players::Batch;
use crate::match_::registry;
use crate::match_::snapshot;
use crate::match_::snapshot::PlayerShown;
use crate::match_::tick::GameSync;
use crate::match_::{App, Phase};
use crate::pending::{Pending, Purpose};
use crate::psbt::Signed;
use crate::table::Key;
use crate::text;
use vstd::prelude::*;

verus! {

/// The preview shows the submitted action, or else the first queued one, or else the one of the
/// player that is not indexed yet; a submitted transaction of another kind is no action.
pub proof fn law_previews_show_the_next_action(app: App, action: Pending)
    ensures
        app.pending_action == Some(action) ==> (action.purpose matches Purpose::Move(
            direction,
            _,
        ) ==> app.projected_action() == Some(direction)),
        (app.pending_action is None || app.pending_action == Some(action)
            && !(action.purpose is Move)) && app.pending_dirs.len() > 0 ==> app.projected_action()
            == Some(app.pending_dirs[0]),
        (app.pending_action is None || app.pending_action == Some(action)
            && !(action.purpose is Move)) && app.pending_dirs.len() == 0 && app.player_id() is None
            ==> app.projected_action() is None,
        (app.pending_action is None || app.pending_action == Some(action)
            && !(action.purpose is Move)) && app.pending_dirs.len() == 0 ==> (
        app.player_id() matches Some(player) ==> app.projected_action()
            == match_::first_tentative(app.events, player)),
{
}

/// Phases and what the wallet does are told apart by name.
pub proof fn law_states_are_named(app: App, action: Pending)
    ensures
        app.phase == Phase::FundWallet ==> snapshot::phase_name(app.phase) == "fund-wallet"@,
        app.phase == Phase::Issuing ==> snapshot::phase_name(app.phase) == "issuing"@,
        app.phase == Phase::Syncing ==> snapshot::phase_name(app.phase) == "syncing"@,
        app.phase == Phase::Playing ==> snapshot::phase_name(app.phase) == "playing"@,
        app.phase == Phase::OutOfMoves ==> snapshot::phase_name(app.phase) == "out-of-moves"@,
        app.pending_action is None && app.sending ==> app.wallet_action() == "submitting"@,
        app.pending_action is None && !app.sending ==> app.wallet_action() == "idle"@,
        app.pending_action == Some(action) ==> {
            let name = app.wallet_action();
            &&& action.purpose is Sweep && action.unknown ==> name == "recovering-sweep"@
            &&& action.purpose is Sweep && !action.unknown ==> name == "finalizing-sweep"@
            &&& !(action.purpose is Sweep) && action.unknown ==> name == "recovering-game-tx"@
            &&& !(action.purpose is Sweep) && !action.unknown ==> name == "finalizing-game-tx"@
        },
{
}

/// The players are shown in the order of their ids, each once, with the state that each has in the
/// arena, and the player alone is marked.
pub proof fn law_players_are_shown_once(
    list: Seq<PlayerShown>,
    states: Map<Txid, PlayerState>,
    me: Option<Txid>,
    id: Txid,
)
    requires
        snapshot::shows_players(list, states, me),
    ensures
        states.contains_key(id) <==> exists|i: int|
            0 <= i < list.len() && (#[trigger] list[i]).id == id.text(),
        forall|i: int|
            0 <= i < list.len() && (#[trigger] list[i]).id == id.text() ==> list[i].state
                == states[id] && list[i].is_me == (me == Some(id)),
        forall|i: int, j: int|
            0 <= i < j < list.len() ==> (#[trigger] list[i]).id != (#[trigger] list[j]).id,
{
    let keys = choose|keys: Seq<Txid>| #[trigger]
        crate::table::ascending(keys) && (forall|k: Txid|
            keys.contains(k) <==> #[trigger] states.contains_key(k)) && list == keys.map_values(
            |id: Txid| PlayerShown { id: id.text(), state: states[id], is_me: me == Some(id) },
        );
    if states.contains_key(id) {
        assert(keys.contains(id));
        let i = keys.index_of(id);
        assert(list[i].id == id.text());
    }
    assert forall|i: int| 0 <= i < list.len() && (#[trigger] list[i]).id == id.text() implies keys[i]
        == id by {
        crate::chain::law_txid_text_injective(keys[i], id);
    }
    if exists|i: int| 0 <= i < list.len() && (#[trigger] list[i]).id == id.text() {
        let i = choose|i: int| 0 <= i < list.len() && (#[trigger] list[i]).id == id.text();
        assert(keys[i] == id);
        assert(keys.contains(id));
    }
    assert forall|i: int, j: int| 0 <= i < j < list.len() implies (#[trigger] list[i]).id != (
    #[trigger] list[j]).id by {
        if list[i].id == list[j].id {
            crate::chain::law_txid_text_injective(keys[i], keys[j]);
            assert(keys[i].before(keys[j]));
            Txid::lemma_before_total(keys[i], keys[j]);
        }
    }
}

/// The known balance is the sum over the outputs that are neither spent nor swept nor unrolled.
pub proof fn law_known_balances_leave_out_what_is_gone(app: App, more: App, record: Record)
    requires
        more.wallet_records == app.wallet_records.push(record),
    ensures
        app.wallet_records.len() == 0 ==> app.known_sats() == 0,
        record.is_spent || record.is_swept || record.is_unrolled ==> more.known_sats()
            == app.known_sats(),
        !record.is_spent && !record.is_swept && !record.is_unrolled ==> more.known_sats()
            == app.known_sats() + record.amount_sats,
{
    let known = |r: Record| snapshot::is_known(r);
    reveal(Seq::filter);
    assert(app.wallet_records.push(record).drop_last() =~= app.wallet_records);
    let kept = app.wallet_records.filter(known);
    assert(kept.push(record).drop_last() =~= kept);
}

/// Cells are listed row by row, all of the arena's 21 rows of 21 cells.
pub proof fn law_cells_are_listed_row_by_row(x: int, y: int)
    requires
        0 <= x < 21,
        0 <= y < 21,
    ensures
        game::arena_cells().len() == 441,
        game::arena_cells()[21 * y + x] == (x, y),
{
    assert((21 * y + x) % 21 == x && (21 * y + x) / 21 == y);
}

/// An issuance that can be paid for is begun; another is reported as failed, with what it costs.
pub proof fn law_payable_issuances_are_begun(
    app: App,
    spendable: Seq<Record>,
    resets_player: bool,
    now_ms: u64,
)
    requires
        app.params.dust_sats <= 1_000_000_000_000,
    ensures
        ({
            let begun = app.issuance_begun(spendable, resets_player, now_ms);
            let paid = app.funding(spendable, now_ms) is Some;
            let error = "need BTC-only inputs totaling exactly "@ + text::decimal_text(
                2 * app.params.dust_sats as nat,
            ) + " sats or leaving at least "@ + text::decimal_text(app.params.vtxo_min_sats as nat)
                + " sats of change"@;
            &&& paid ==> begun.phase == Phase::Issuing && begun.sending && begun.log == app.log
            &&& !paid ==> begun.phase == app.phase && begun.sending == app.sending
            &&& !paid && resets_player ==> begun.last_error == Some(
                "action pack mint"@ + ": "@ + error,
            )
            &&& !paid && !resets_player ==> begun.last_error == Some("issuance"@ + ": "@ + error)
            &&& begun.pending_dirs == app.pending_dirs && begun.pending_action
                == app.pending_action && begun.events == app.events && begun.move_assets
                == app.move_assets
        }),
{
    assert(app.required() == 2 * app.params.dust_sats);
}

/// A sweep that can be made is begun and told in the log; another is reported as failed.
pub proof fn law_possible_sweeps_are_begun(
    app: App,
    spendable: Seq<Record>,
    destination: Seq<char>,
    now_ms: u64,
)
    requires
        app.log.len() < 100,
    ensures
        ({
            let begun = app.sweep_begun(spendable, destination, now_ms);
            let inputs = app.sweep_inputs(spendable, destination, now_ms);
            &&& inputs matches Ok(selected) ==> {
                &&& begun.sending
                &&& begun.phase == app.phase
                &&& begun.last_error == app.last_error
                &&& begun.log == app.log.push(
                    "sweeping "@ + text::decimal_text(match_::total_sats(selected))
                        + " sats and all carried assets to "@ + text::trimmed(destination),
                )
            }
            &&& inputs matches Err(error) ==> {
                &&& begun.sending == app.sending
                &&& begun.last_error == Some("wallet sweep"@ + ": "@ + error)
            }
        }),
{
}

/// A search goes on to the next pack until one is the player's, which it selects; an error ends it.
pub proof fn law_searches_take_the_players_pack(
    app: App,
    packs: Seq<(Txid, i64)>,
    next: int,
    answer: Result<Seq<Signed>, Seq<char>>,
)
    requires
        0 <= next < packs.len(),
    ensures
        ({
            let found = app.search_fetched(packs, next, answer);
            let script = app.issuance_script(packs[next].0, answer);
            let resolved = app.issuance_resolved(packs[next].0, answer);
            &&& script matches Err(error) ==> found == (resolved, next, Some(error))
            &&& script matches Ok(script) ==> found.2 is None
            &&& script == Ok::<Option<Seq<char>>, Seq<char>>(Some(app.player_script)) ==> {
                &&& found.1 == packs.len()
                &&& found.0 == resolved.pack_selected(packs[next])
                &&& found.0.move_pack_created_at == Some(packs[next].1)
                &&& found.0.next_sequence == 0
            }
            &&& script is Ok && script->Ok_0 != Some(app.player_script) ==> found == (
                resolved,
                next + 1,
                None::<Seq<char>>,
            )
        }),
{
}

/// A search looks at every pack in turn: it passes over the active pack, over packs that are not newer
/// and over those of others; it selects the player's, and asks for an issuance that is not known.
pub proof fn law_searches_look_at_every_pack(app: App, packs: Seq<(Txid, i64)>, next: int)
    requires
        0 <= next <= packs.len(),
    ensures
        next == packs.len() ==> app.searched(packs, next) == (app, next, None::<Txid>),
        next < packs.len() ==> {
            let (pack, created_at) = packs[next];
            let found = app.searched(packs, next);
            let active = app.player_id() == Some(pack);
            let older = app.move_assets is Some && match app.move_pack_created_at {
                Some(known) => created_at <= known,
                None => created_at == i64::MIN,
            };
            let registered = app.registered_players.contains_key(pack);
            let own = registered && app.registered_players[pack] == app.player_script;
            let refused = app.invalid_registrations.contains(pack);
            &&& active || older ==> found == app.searched(packs, next + 1)
            &&& !active && !older && own ==> found == (
                app.pack_selected(packs[next]),
                packs.len() as int,
                None::<Txid>,
            )
            &&& !active && !older && !own && (registered || refused) ==> found == app.searched(
                packs,
                next + 1,
            )
            &&& !active && !older && !registered && !refused ==> found == (app, next, Some(pack))
        },
{
}

/// A pack is seen in the wallet once an output lists one of its assets, and stays seen.
pub proof fn law_listed_packs_are_seen(app: App, spendable: Seq<Record>, now_ms: u64)
    requires
        app.move_assets is Some,
    ensures
        app.wallet_refreshed(spendable, now_ms).issuance_visible <==> app.issuance_visible
            || exists|i: int, d: int, k: int|
            #![trigger spendable[i].assets[k], app.move_assets.unwrap()[d]]
            0 <= i < spendable.len() && 0 <= d < app.move_assets.unwrap().len() && 0 <= k
                < spendable[i].assets.len() && spendable[i].assets[k].0
                == app.move_assets.unwrap()[d].text(),
{
    let assets = app.move_assets.unwrap();
    if exists|i: int, d: int|
        0 <= i < spendable.len() && 0 <= d < assets.len() && match_::lists_asset(
            #[trigger] spendable[i],
            (#[trigger] assets[d]).text(),
        ) {
        let (i, d) = choose|i: int, d: int|
            0 <= i < spendable.len() && 0 <= d < assets.len() && match_::lists_asset(
                #[trigger] spendable[i],
                (#[trigger] assets[d]).text(),
            );
        let k = choose|k: int|
            0 <= k < spendable[i].assets.len() && (#[trigger] spendable[i].assets[k]).0
                == assets[d].text();
        assert(spendable[i].assets[k].0 == assets[d].text());
    }
    if exists|i: int, d: int, k: int|
        #![trigger spendable[i].assets[k], assets[d]]
        0 <= i < spendable.len() && 0 <= d < assets.len() && 0 <= k < spendable[i].assets.len()
            && spendable[i].assets[k].0 == assets[d].text() {
        let (i, d, k) = choose|i: int, d: int, k: int|
            #![trigger spendable[i].assets[k], assets[d]]
            0 <= i < spendable.len() && 0 <= d < assets.len() && 0 <= k
                < spendable[i].assets.len() && spendable[i].assets[k].0 == assets[d].text();
        assert(match_::lists_asset(spendable[i], assets[d].text()));
    }
}

/// An issuance is asked for exactly where the transaction burns a unit of one that is not known yet;
/// the player of a burn is the one that its issuance registered.
pub proof fn law_unknown_issuances_are_asked_for(
    app: App,
    txid: Txid,
    batch: Batch,
    burn: Burn,
    predecessor: OutPoint,
)
    requires
        players::pending_burn(txid, batch) == Some((burn, predecessor)),
    ensures
        ({
            let issuance = burn.asset_id.txid;
            let registered = app.registered_players.contains_key(issuance);
            let refused = app.invalid_registrations.contains(issuance);
            &&& !registered && !refused ==> app.wanted_issuance(txid, batch) == Some(issuance)
            &&& registered || refused ==> app.wanted_issuance(txid, batch) is None
            &&& registered ==> app.known_script(txid, batch) == Ok::<
                Option<Seq<char>>,
                Seq<char>,
            >(Some(app.registered_players[issuance]))
            &&& !registered ==> app.known_script(txid, batch) == Ok::<
                Option<Seq<char>>,
                Seq<char>,
            >(None)
        }),
{
}

/// A candidate is judged as a burn exactly where its transaction burns a unit, the carrier behind it is
/// known, and its issuance registered a player. It is settled without an action where the transaction
/// is there and burns nothing, or where the issuance registered nobody; else it waits.
pub proof fn law_candidates_are_judged_by_their_burns(
    app: App,
    txid: Txid,
    batch: Batch,
    script: Result<Option<Seq<char>>, Seq<char>>,
)
    ensures
        ({
            let judged = app.move_judged(txid, batch, script);
            let records = registry::records_of(batch.candidates, txid);
            let burn = players::pending_burn(txid, batch);
            let empty = batch.txs.contains_key(txid) && players::carried_burn(batch.txs[txid])
                is None;
            let nobody = burn is Some && script == Ok::<Option<Seq<char>>, Seq<char>>(None);
            let known = burn is Some && script is Ok && script->Ok_0 is Some;
            &&& known ==> judged == app.burn_judged(
                txid,
                batch.txs[txid],
                burn.unwrap().0,
                burn.unwrap().1,
                records,
                script->Ok_0.unwrap(),
            )
            &&& empty || nobody ==> judged == (app.player_seen(records), false)
            &&& !known && !empty && !nobody ==> judged == (app, false)
        }),
{
}

/// An event takes the place of the first one of its transaction; all others stay where they are.
pub proof fn law_events_are_replaced_in_place(
    events: Seq<ActionEvent>,
    event: ActionEvent,
    place: int,
)
    requires
        0 <= place < events.len(),
        events[place].txid == event.txid,
        forall|i: int| 0 <= i < place ==> (#[trigger] events[i]).txid != event.txid,
    ensures
        players::with_event(events, event) == events.update(place, event),
    decreases events.len(),
{
    let rest = events.drop_last();
    let n = events.len() - 1;
    assert(forall|i: int| 0 <= i < n ==> rest[i] == events[i]);
    if place < n {
        assert(rest[place].txid == event.txid);
        assert(players::lists_event(rest, event.txid));
        law_events_are_replaced_in_place(rest, event, place);
        assert(rest.update(place, event).push(events.last()) =~= events.update(place, event));
    } else {
        assert(!players::lists_event(rest, event.txid));
        assert(rest.push(event) =~= events.update(place, event));
    }
}

/// Transactions are judged one after the other, each with what is known of its player, until one
/// needs an issuance that has to be fetched.
pub proof fn law_moves_are_judged_in_turn(
    app: App,
    txids: Seq<Txid>,
    next: int,
    accepted: u32,
    batch: Batch,
)
    requires
        0 <= next <= txids.len(),
        accepted < 1_000_000,
    ensures
        next == txids.len() ==> app.moves_judged(txids, next, accepted, batch) == (
            app,
            next,
            accepted,
            None::<Txid>,
        ),
        next < txids.len() ==> (app.wanted_issuance(txids[next], batch) matches Some(id)
            ==> app.moves_judged(txids, next, accepted, batch) == (app, next, accepted, Some(id))),
        next < txids.len() && app.wanted_issuance(txids[next], batch) is None ==> {
            let judged = app.move_judged(
                txids[next],
                batch,
                app.known_script(txids[next], batch),
            );
            let count = if judged.1 {
                accepted + 1
            } else {
                accepted as int
            };
            app.moves_judged(txids, next, accepted, batch) == judged.0.moves_judged(
                txids,
                next + 1,
                count as u32,
                batch,
            )
        },
{
}

/// A fetched issuance is remembered, and the burn that needed it is judged with its answer.
pub proof fn law_fetched_issuances_are_judged(
    app: App,
    txid: Txid,
    batch: Batch,
    burn: Burn,
    predecessor: OutPoint,
    answer: Result<Seq<Signed>, Seq<char>>,
)
    ensures
        players::pending_burn(txid, batch) is None ==> app.move_fetched(txid, batch, answer) == (
            app,
            false,
        ),
        players::pending_burn(txid, batch) == Some((burn, predecessor)) ==> app.move_fetched(
            txid,
            batch,
            answer,
        ) == app.issuance_resolved(burn.asset_id.txid, answer).move_judged(
            txid,
            batch,
            app.issuance_script(burn.asset_id.txid, answer),
        ),
{
}

/// Scripts are asked for in batches of twenty, the last one with what is left.
pub proof fn law_scripts_are_asked_for_by_twenties(from: int, len: int)
    requires
        0 <= from <= len,
    ensures
        len - from >= 20 ==> players::batch_end(from, len) == from + 20,
        len - from < 20 ==> players::batch_end(from, len) == len,
{
}

/// A scan goes through all pages on request, or where one of the scripts was never scanned to the
/// end; afterwards they all were.
pub proof fn law_new_scripts_are_scanned_whole(
    app: App,
    scripts: Seq<Seq<char>>,
    force_full: bool,
    script: Seq<char>,
)
    ensures
        force_full ==> app.scans_all(scripts, force_full),
        scripts.contains(script) && !app.fully_scanned_player_scripts.contains(script)
            ==> app.scans_all(scripts, force_full),
        !force_full && (forall|i: int|
            0 <= i < scripts.len() ==> app.fully_scanned_player_scripts.contains(
                #[trigger] scripts[i],
            )) ==> !app.scans_all(scripts, force_full),
        app.scripts_scanned(scripts).fully_scanned_player_scripts.contains(script)
            <==> app.fully_scanned_player_scripts.contains(script) || scripts.contains(script),
        !app.scripts_scanned(scripts).scans_all(scripts, false),
{
    if scripts.contains(script) && !app.fully_scanned_player_scripts.contains(script) {
        assert(scripts[scripts.index_of(script)] == script);
    }
    let scanned = app.scripts_scanned(scripts);
    assert forall|i: int| 0 <= i < scripts.len() implies scanned.fully_scanned_player_scripts.contains(
        #[trigger] scripts[i],
    ) by {
        assert(scripts.to_set().contains(scripts[i]));
    }
}

/// The player's own registration is taken up exactly where the wallet knows of no pack: of those with
/// the player's script, whatever the case of its digits, the one with the lowest id.
pub proof fn law_own_registrations_are_recovered(app: App, own: Txid)
    requires
        app.log.len() < 100,
    ensures
        app.move_assets is Some ==> app.player_recovered() == app,
        app.move_assets is None && (forall|id: Txid| #[trigger]
            app.registered_players.contains_key(id) ==> text::lower(app.registered_players[id])
                != text::lower(app.player_script)) ==> app.player_recovered() == app,
        app.move_assets is None && app.registered_players.contains_key(own) && text::lower(
            app.registered_players[own],
        ) == text::lower(app.player_script) && (forall|id: Txid| #[trigger]
            app.registered_players.contains_key(id) && text::lower(app.registered_players[id])
                == text::lower(app.player_script) && id != own ==> own.before(id)) ==> {
            let after = app.player_recovered();
            &&& after.issuance_visible
            &&& after.move_assets matches Some(ids) && ids.len() == 6 && forall|i: int|
                0 <= i < 6 ==> (#[trigger] ids[i]).txid == own && ids[i].group_index == i
            &&& after.log == app.log.push(
                "recovered exhausted arena registration "@ + own.text().take(8),
            )
            &&& after.next_sequence == app.next_sequence && after.move_balances
                == app.move_balances && after.phase == app.phase
        },
{
    let registered = app.registered_players;
    let script = app.player_script;
    if registered.contains_key(own) && text::lower(registered[own]) == text::lower(script) && (
    forall|id: Txid| #[trigger]
        registered.contains_key(id) && text::lower(registered[id]) == text::lower(script) && id
            != own ==> own.before(id)) {
        assert forall|other: Txid| #[trigger]
            registered.contains_key(other) && text::lower(registered[other]) == text::lower(
                script,
            ) implies !other.before(own) by {
            Txid::lemma_before_total(other, own);
            if other != own {
                assert(own.before(other));
            }
        }
        assert(registry::is_own_registration(registered, script, own));
        let found = choose|txid: Txid| registry::is_own_registration(registered, script, txid);
        assert(found == own) by {
            assert(registry::is_own_registration(registered, script, found));
            assert(registered.contains_key(found));
            if found != own {
                assert(own.before(found));
                assert(registered.contains_key(own));
            }
        }
    }
}

/// The registry is read transaction by transaction, each once, and every new player is counted.
pub proof fn law_registrations_are_judged_in_turn(
    app: App,
    txids: Seq<Txid>,
    txid: Txid,
    candidates: Seq<Record>,
    txs: Map<Txid, Signed>,
)
    ensures
        app.registrations_judged(Seq::empty(), candidates, txs) == (app, 0nat),
        ({
            let before = app.registrations_judged(txids, candidates, txs);
            let judged = before.0.registration_judged(
                txid,
                registry::records_of(candidates, txid),
                txs,
            );
            let after = app.registrations_judged(txids.push(txid), candidates, txs);
            &&& after.0 == judged.0
            &&& judged.1 ==> after.1 == before.1 + 1
            &&& !judged.1 ==> after.1 == before.1
        }),
        ({
            let judged = app.registry_noted(candidates).registrations_judged(
                registry::txids_of(candidates),
                candidates,
                txs,
            );
            app.registry_read(candidates, txs) == (judged.0.player_recovered(), judged.1)
        }),
{
    assert(txids.push(txid).drop_last() =~= txids);
}

/// Counts stop at the largest number of 32 bits.
pub proof fn law_counts_stop_at_the_largest_number(count: nat, seen: u32)
    ensures
        count <= 4_294_967_295 ==> registry::at_most_u32(count) == count,
        count > 4_294_967_295 ==> registry::at_most_u32(count) == 4_294_967_295,
        players::counted(seen, false) == seen,
        seen < 4_294_967_295 ==> players::counted(seen, true) == seen + 1,
        seen == 4_294_967_295 ==> players::counted(seen, true) == seen,
{
}

/// The wallet's history is taken in with its time exactly where the spendable outputs and the history
/// were both read; whatever failed is reported.
pub proof fn law_histories_are_taken_in(
    app: App,
    spendable: Result<Seq<Record>, Seq<char>>,
    diagnostics: Option<Result<Seq<Record>, Seq<char>>>,
    now_ms: u64,
)
    ensures
        ({
            let after = app.wallet_synced(None, spendable, diagnostics, now_ms);
            &&& spendable matches Err(error) ==> {
                &&& after.last_error == Some("wallet sync"@ + ": "@ + error)
                &&& after.wallet_records == app.wallet_records
                &&& after.wallet_sync_ms == app.wallet_sync_ms
            }
            &&& spendable is Ok && diagnostics is None ==> after == app
            &&& spendable is Ok ==> (diagnostics matches Some(Ok(records)) ==> {
                &&& after.wallet_records == records
                &&& after.wallet_sync_ms == now_ms
                &&& after.last_error == app.last_error
                &&& after.log == app.log
            })
            &&& spendable is Ok ==> (diagnostics matches Some(Err(error)) ==> {
                &&& after.last_error == Some("wallet diagnostics"@ + ": "@ + error)
                &&& after.wallet_records == app.wallet_records
                &&& after.wallet_sync_ms == app.wallet_sync_ms
            })
        }),
{
}

/// An error of the game's synchronization is reported before what the wallet says.
pub proof fn law_game_errors_are_reported(
    app: App,
    error: Option<Seq<char>>,
    spendable: Result<Seq<Record>, Seq<char>>,
    diagnostics: Option<Result<Seq<Record>, Seq<char>>>,
    now_ms: u64,
)
    ensures
        error is None ==> app.game_reported(error) == app,
        error matches Some(text) ==> app.game_reported(error).last_error == Some(
            "game sync"@ + ": "@ + text,
        ),
        app.wallet_synced(Some(error), spendable, diagnostics, now_ms) == app.game_reported(
            error,
        ).wallet_synced(None, spendable, diagnostics, now_ms),
{
}

/// A finished synchronization of the game is noted with its time; a scan of everything counts only
/// where the registry was read too. New players and burns are told in the log.
pub proof fn law_finished_synchronizations_are_noted(
    app: App,
    sync: GameSync,
    registry_refreshed: bool,
    new_players: u32,
    accepted: u32,
    now_ms: u64,
)
    requires
        app.log.len() < 99,
    ensures
        ({
            let after = app.game_done(sync, registry_refreshed, new_players, accepted, now_ms);
            let players = "discovered "@ + text::decimal_text(new_players as nat)
                + " new players"@;
            let burns = "synced "@ + text::decimal_text(accepted as nat) + " protocol burns"@;
            &&& after.initial_player_sync
            &&& after.last_sync_ms == now_ms
            &&& sync.periodic_full && registry_refreshed ==> after.full_game_sync_ms == now_ms
            &&& !(sync.periodic_full && registry_refreshed) ==> after.full_game_sync_ms
                == app.full_game_sync_ms
            &&& new_players == 0 && accepted == 0 ==> after.log == app.log
            &&& new_players > 0 && accepted == 0 ==> after.log == app.log.push(players)
            &&& new_players == 0 && accepted > 0 ==> after.log == app.log.push(burns)
            &&& new_players > 0 && accepted > 0 ==> after.log == app.log.push(players).push(burns)
            &&& after.events == app.events && after.registered_players == app.registered_players
        }),
{
}

/// The transactions that hold carriers are those whose output a burn among the given ones spends as
/// its only input.
pub proof fn law_carriers_are_found_through_burns(
    txs: Map<Txid, Signed>,
    id: Txid,
    t: Txid,
    burn: Burn,
    carrier: OutPoint,
)
    ensures
        txs.contains_key(t) && players::carried_burn(txs[t]) == Some((burn, carrier))
            && carrier.txid == id ==> players::is_carrier_id(txs, id),
        (forall|other: Txid| #[trigger]
            txs.contains_key(other) ==> (players::carried_burn(txs[other]) matches Some(found)
                ==> found.1.txid != id)) ==> !players::is_carrier_id(txs, id),
{
    if txs.contains_key(t) && players::carried_burn(txs[t]) == Some((burn, carrier))
        && carrier.txid == id {
        assert(players::spends_carrier_of(txs[t], id));
    }
}

/// The scripts that are asked for are those of registered players, in the order of their texts, each
/// once.
pub proof fn law_scripts_are_asked_for_in_order(
    registered: Map<Txid, Seq<char>>,
    texts: Seq<Seq<char>>,
    id: Txid,
    script: Seq<char>,
    i: int,
    j: int,
)
    ensures
        registered.contains_key(id) ==> players::is_registered_script(registered, registered[id]),
        (forall|other: Txid| #[trigger]
            registered.contains_key(other) ==> registered[other] != script)
            ==> !players::is_registered_script(registered, script),
        players::in_text_order(texts) && 0 <= i < j < texts.len() ==> texts[i] != texts[j]
            && text::text_less(texts[i], texts[j]),
{
    text::lemma_text_less_total(script, script);
    if players::in_text_order(texts) && 0 <= i < j < texts.len() {
        assert(text::text_less(texts[i], texts[j]));
        text::lemma_text_less_total(texts[i], texts[j]);
    }
}

/// Of several copies of a transaction the first is taken.
pub proof fn law_the_first_copy_is_taken(txs: Seq<CosignedTx>, txid: Txid, place: int, other: int)
    requires
        crate::arkade::is_first_copy(txs, txid, place),
    ensures
        0 <= place < txs.len(),
        txs[place].txid == txid,
        0 <= other < txs.len() && txs[other].txid == txid ==> place <= other,
{
}

/// The arena has 21 by 21 cells, and players start with three hearts.
pub proof fn law_the_arena_has_its_size()
    ensures
        game::ARENA_W == 21,
        game::ARENA_H == 21,
        game::MAX_HP == 3,
        game::MAX_SHOT_TRACES == 64,
{
}

} // verus!
