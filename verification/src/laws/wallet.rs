//! The wallet: which outputs are safe, what pays for a registration, and what is swept.

use crate::address;
use crate::arkade::{Network, Record};
use crate::chain::AssetId;
use crate::match_;
use crate::match_::snapshot;
use crate::match_::App;
use crate::pending::{Pending, Prepared, Purpose};
use crate::seqs;
use crate::text;
use vstd::prelude::*;

verus! {

/// An output is safe to spend exactly where it is neither swept nor unrolled and stays alive for more
/// than another hour.
pub proof fn law_safe_outputs_live_an_hour(record: Record, now_ms: u64)
    ensures
        match_::safe_input(record, now_ms) <==> !record.is_swept && !record.is_unrolled && (
        record.expires_at matches Some(expires_at) && expires_at - 3_600 > now_ms / 1_000),
{
}

/// A registration costs twice the dust limit. A total pays for it exactly where it is that, or leaves
/// at least the operator's minimum, and at least one sat, as change.
pub proof fn law_registrations_cost_twice_the_dust(app: App, total: u64)
    requires
        app.params.dust_sats <= 0x7fff_ffff_ffff_ffff,
    ensures
        app.required() == 2 * app.params.dust_sats,
        match_::total_is_valid(total, app.required(), app.minimum_change()) <==> {
            ||| total == 2 * app.params.dust_sats
            ||| total > 2 * app.params.dust_sats && total - 2 * app.params.dust_sats
                >= app.params.vtxo_min_sats
        },
{
}

/// Sats add up, output by output.
pub proof fn law_sats_add_up(records: Seq<Record>, more: Seq<Record>, record: Record)
    ensures
        match_::total_sats(Seq::empty()) == 0,
        match_::total_sats(seq![record]) == record.amount_sats,
        match_::total_sats(records + more) == match_::total_sats(records) + match_::total_sats(more),
    decreases more.len(),
{
    assert(seq![record].drop_last() =~= Seq::empty());
    assert(match_::total_sats(seq![record]) == record.amount_sats) by {
        reveal_with_fuel(match_::total_sats, 2);
    }
    if more.len() == 0 {
        assert(records + more =~= records);
    } else {
        law_sats_add_up(records, more.drop_last(), record);
        assert((records + more).drop_last() =~= records + more.drop_last());
    }
}

/// Units of an asset add up, entry by entry and output by output.
pub proof fn law_units_add_up(
    assets: Seq<(Seq<char>, u64)>,
    asset: (Seq<char>, u64),
    records: Seq<Record>,
    record: Record,
    id: Seq<char>,
)
    ensures
        match_::units_of(Seq::empty(), id) == 0,
        asset.0 == id ==> match_::units_of(assets.push(asset), id) == match_::units_of(assets, id)
            + asset.1,
        asset.0 != id ==> match_::units_of(assets.push(asset), id) == match_::units_of(assets, id),
        match_::units_in_all(Seq::empty(), id) == 0,
        match_::units_in_all(records.push(record), id) == match_::units_in_all(records, id)
            + match_::units_of(record.assets, id),
{
    assert(assets.push(asset).drop_last() =~= assets);
    assert(records.push(record).drop_last() =~= records);
}

/// Whether an output can pay for a registration: it holds no assets, is safe to spend, and was not
/// reported as spent.
pub open spec fn can_pay(app: App, record: Record, now_ms: u64) -> bool {
    &&& record.assets.len() == 0
    &&& match_::safe_input(record, now_ms)
    &&& !app.excluded_outpoints.contains(record.outpoint.text())
}

/// Where one output alone can pay for a registration, one output pays: no other that could is worth
/// less.
pub proof fn law_the_smallest_single_output_pays(
    app: App,
    spendable: Seq<Record>,
    now_ms: u64,
    record: Record,
)
    requires
        spendable.contains(record),
        can_pay(app, record, now_ms),
        match_::total_is_valid(record.amount_sats, app.required(), app.minimum_change()),
    ensures
        app.funding(spendable, now_ms) matches Some(inputs) && {
            &&& inputs.len() == 1
            &&& spendable.contains(inputs[0])
            &&& can_pay(app, inputs[0], now_ms)
            &&& match_::total_is_valid(
                inputs[0].amount_sats,
                app.required(),
                app.minimum_change(),
            )
            &&& inputs[0].amount_sats <= record.amount_sats
        },
{
    let wanted = |r: Record| app.can_fund(r, now_ms);
    let candidates = app.funding_candidates(spendable, now_ms);
    assert(app.can_fund(record, now_ms));
    spendable.lemma_filter_contains(wanted, spendable.index_of(record));
    assert(candidates.contains(record));
    lemma_smallest(candidates, app.required(), app.minimum_change(), record);
    let best = match_::smallest_valid(candidates, app.required(), app.minimum_change()).unwrap();
    seqs::lemma_filter_member(spendable, wanted, best);
}

proof fn lemma_smallest(
    candidates: Seq<Record>,
    required: u64,
    minimum_change: u64,
    record: Record,
)
    requires
        candidates.contains(record),
        match_::total_is_valid(record.amount_sats, required, minimum_change),
    ensures
        match_::smallest_valid(candidates, required, minimum_change) matches Some(best) && {
            &&& candidates.contains(best)
            &&& match_::total_is_valid(best.amount_sats, required, minimum_change)
            &&& best.amount_sats <= record.amount_sats
        },
    decreases candidates.len(),
{
    let rest = candidates.drop_last();
    let last = candidates.last();
    let k = candidates.index_of(record);
    assert(candidates[candidates.len() - 1] == last);
    if k < rest.len() {
        assert(rest[k] == record);
        lemma_smallest(rest, required, minimum_change, record);
    } else {
        lemma_smallest_member(rest, required, minimum_change);
    }
    if let Some(best) = match_::smallest_valid(rest, required, minimum_change) {
        assert(candidates[rest.index_of(best)] == best);
    }
}

proof fn lemma_smallest_member(candidates: Seq<Record>, required: u64, minimum_change: u64)
    ensures
        match_::smallest_valid(candidates, required, minimum_change) matches Some(best) ==> {
            &&& candidates.contains(best)
            &&& match_::total_is_valid(best.amount_sats, required, minimum_change)
        },
    decreases candidates.len(),
{
    if candidates.len() > 0 {
        let rest = candidates.drop_last();
        lemma_smallest_member(rest, required, minimum_change);
        assert(candidates[candidates.len() - 1] == candidates.last());
        if let Some(best) = match_::smallest_valid(rest, required, minimum_change) {
            assert(candidates[rest.index_of(best)] == best);
        }
    }
}

/// Where all outputs that can pay are together worth what a registration costs, it is paid for.
pub proof fn law_all_outputs_together_pay(app: App, spendable: Seq<Record>, now_ms: u64)
    requires
        ({
            let all = spendable.filter(|r: Record| can_pay(app, r, now_ms));
            &&& all.len() >= 1
            &&& match_::total_sats(all) <= u64::MAX
            &&& match_::total_is_valid(
                match_::total_sats(all) as u64,
                app.required(),
                app.minimum_change(),
            )
        }),
    ensures
        app.funding(spendable, now_ms) is Some,
{
    let all = spendable.filter(|r: Record| can_pay(app, r, now_ms));
    let candidates = app.funding_candidates(spendable, now_ms);
    lemma_same_filter(
        spendable,
        |r: Record| can_pay(app, r, now_ms),
        |r: Record| app.can_fund(r, now_ms),
    );
    assert(candidates == all);
    let sorted = match_::largest_first(candidates);
    lemma_largest_first(candidates);
    assert(sorted.take(sorted.len() as int) =~= sorted);
    lemma_cover(sorted, 1, app.required(), app.minimum_change());
}

proof fn lemma_same_filter(
    records: Seq<Record>,
    p: spec_fn(Record) -> bool,
    q: spec_fn(Record) -> bool,
)
    requires
        forall|r: Record| #[trigger] p(r) == q(r),
    ensures
        records.filter(p) == records.filter(q),
    decreases records.len(),
{
    reveal(Seq::filter);
    if records.len() > 0 {
        lemma_same_filter(records.drop_last(), p, q);
        assert(p(records.last()) == q(records.last()));
    }
}

proof fn lemma_insert_descending(sorted: Seq<Record>, record: Record)
    ensures
        match_::insert_descending(sorted, record).len() == sorted.len() + 1,
        match_::total_sats(match_::insert_descending(sorted, record)) == match_::total_sats(sorted)
            + record.amount_sats,
    decreases sorted.len(),
{
    if sorted.len() > 0 && sorted.last().amount_sats < record.amount_sats {
        lemma_insert_descending(sorted.drop_last(), record);
        let some = match_::insert_descending(sorted.drop_last(), record);
        assert(some.push(sorted.last()).drop_last() =~= some);
    } else {
        assert(sorted.push(record).drop_last() =~= sorted);
    }
}

proof fn lemma_largest_first(records: Seq<Record>)
    ensures
        match_::largest_first(records).len() == records.len(),
        match_::total_sats(match_::largest_first(records)) == match_::total_sats(records),
    decreases records.len(),
{
    if records.len() > 0 {
        lemma_largest_first(records.drop_last());
        lemma_insert_descending(match_::largest_first(records.drop_last()), records.last());
    }
}

proof fn lemma_cover(sorted: Seq<Record>, n: nat, required: u64, minimum_change: u64)
    requires
        n <= sorted.len(),
        match_::total_sats(sorted) <= u64::MAX,
        match_::total_is_valid(match_::total_sats(sorted) as u64, required, minimum_change),
    ensures
        match_::first_cover(sorted, n, required, minimum_change) is Some,
    decreases sorted.len() - n,
{
    if n == sorted.len() {
        assert(sorted.take(n as int) =~= sorted);
    } else {
        lemma_cover(sorted, n + 1, required, minimum_change);
    }
}

/// The largest outputs come first.
pub proof fn law_the_largest_outputs_come_first(records: Seq<Record>)
    ensures
        forall|i: int, j: int|
            0 <= i < j < match_::largest_first(records).len() ==> (
            #[trigger] match_::largest_first(records)[i]).amount_sats >= (
            #[trigger] match_::largest_first(records)[j]).amount_sats,
        match_::largest_first(records).to_multiset() == records.to_multiset(),
    decreases records.len(),
{
    broadcast use vstd::seq_lib::group_to_multiset_ensures;

    if records.len() > 0 {
        law_the_largest_outputs_come_first(records.drop_last());
        lemma_insert_keeps_descending(
            match_::largest_first(records.drop_last()),
            records.last(),
        );
        assert(records.drop_last().push(records.last()) =~= records);
    }
}

proof fn lemma_insert_keeps_descending(sorted: Seq<Record>, record: Record)
    requires
        forall|i: int, j: int|
            0 <= i < j < sorted.len() ==> (#[trigger] sorted[i]).amount_sats >= (
            #[trigger] sorted[j]).amount_sats,
    ensures
        ({
            let more = match_::insert_descending(sorted, record);
            &&& forall|i: int, j: int|
                0 <= i < j < more.len() ==> (#[trigger] more[i]).amount_sats >= (
                #[trigger] more[j]).amount_sats
            &&& forall|i: int|
                0 <= i < more.len() ==> (#[trigger] more[i]) == record || sorted.contains(more[i])
            &&& more.to_multiset() == sorted.to_multiset().insert(record)
        }),
    decreases sorted.len(),
{
    broadcast use vstd::seq_lib::group_to_multiset_ensures;

    let more = match_::insert_descending(sorted, record);
    if sorted.len() > 0 && sorted.last().amount_sats < record.amount_sats {
        let rest = sorted.drop_last();
        assert forall|i: int, j: int| 0 <= i < j < rest.len() implies (
        #[trigger] rest[i]).amount_sats >= (#[trigger] rest[j]).amount_sats by {
            assert(rest[i] == sorted[i] && rest[j] == sorted[j]);
        }
        lemma_insert_keeps_descending(rest, record);
        let some = match_::insert_descending(rest, record);
        assert(more == some.push(sorted.last()));
        assert forall|i: int| 0 <= i < more.len() implies (#[trigger] more[i]) == record
            || sorted.contains(more[i]) by {
            if i < some.len() {
                assert(some[i] == record || rest.contains(some[i]));
                if rest.contains(some[i]) {
                    assert(sorted[rest.index_of(some[i])] == some[i]);
                }
            } else {
                assert(sorted[sorted.len() - 1] == more[i]);
            }
        }
        assert forall|i: int, j: int| 0 <= i < j < more.len() implies (
        #[trigger] more[i]).amount_sats >= (#[trigger] more[j]).amount_sats by {
            if j == some.len() {
                assert(some[i] == record || rest.contains(some[i]));
                if rest.contains(some[i]) {
                    let k = rest.index_of(some[i]);
                    assert(sorted[k].amount_sats >= sorted[sorted.len() - 1].amount_sats);
                }
            } else {
                assert(some[i].amount_sats >= some[j].amount_sats);
            }
        }
        assert(rest.push(sorted.last()) =~= sorted);
    } else {
        assert forall|i: int| 0 <= i < more.len() implies (#[trigger] more[i]) == record
            || sorted.contains(more[i]) by {
            if i < sorted.len() {
                assert(sorted[i] == more[i]);
            }
        }
        assert forall|i: int, j: int| 0 <= i < j < more.len() implies (
        #[trigger] more[i]).amount_sats >= (#[trigger] more[j]).amount_sats by {
            if j == sorted.len() {
                assert(sorted[i].amount_sats >= sorted[sorted.len() - 1].amount_sats);
            } else {
                assert(sorted[i].amount_sats >= sorted[j].amount_sats);
            }
        }
    }
}

/// A refreshed wallet shows its balance, whether a registration can be paid for, and of the active
/// pack the units of each action in all outputs; a carrier is an output of exactly dust that is safe
/// to spend and holds a unit of the pack.
pub proof fn law_refreshed_wallets_show_what_they_hold(
    app: App,
    spendable: Seq<Record>,
    now_ms: u64,
    d: int,
)
    requires
        match_::total_sats(spendable) <= u64::MAX,
        app.move_assets matches Some(assets) ==> 0 <= d < assets.len(),
    ensures
        ({
            let after = app.wallet_refreshed(spendable, now_ms);
            &&& after.balance_cache == match_::total_sats(spendable)
            &&& after.funding_ready <==> app.funding(spendable, now_ms) is Some
            &&& after.move_assets == app.move_assets
            &&& after.events == app.events
            &&& after.pending_action == app.pending_action
            &&& after.next_sequence == app.next_sequence
            &&& app.move_assets is None ==> !after.carrier_available && after.phase
                == match_::Phase::FundWallet
            &&& app.move_assets matches Some(assets) ==> {
                let units = match_::units_in_all(spendable, assets[d].text());
                &&& after.phase == app.phase
                &&& after.move_balances.len() == assets.len()
                &&& units <= u64::MAX ==> after.move_balances[d] == units
                &&& units > u64::MAX ==> after.move_balances[d] == u64::MAX
                &&& app.issuance_visible ==> after.issuance_visible
                &&& after.carrier_available <==> exists|i: int|
                    0 <= i < spendable.len() && is_carrier_of(#[trigger] spendable[i], app, now_ms)
            }
        }),
{
    if let Some(assets) = app.move_assets {
        assert forall|r: Record| is_carrier_of(r, app, now_ms) == #[trigger] match_::is_carrier(
            r,
            assets,
            app.params.dust_sats,
            now_ms,
        ) by {
            if is_carrier_of(r, app, now_ms) {
                let (k, i) = choose|k: int, i: int|
                    0 <= k < assets.len() && 0 <= i < r.assets.len() && (#[trigger] r.assets[i]).0 == (
                    #[trigger] assets[k]).text() && r.assets[i].1 >= 1;
                assert(match_::holds_unit(r, assets[k].text()));
            }
            if match_::is_carrier(r, assets, app.params.dust_sats, now_ms) {
                let k = choose|k: int|
                    0 <= k < assets.len() && match_::holds_unit(r, (#[trigger] assets[k]).text());
                let i = choose|i: int|
                    0 <= i < r.assets.len() && (#[trigger] r.assets[i]).0 == assets[k].text()
                        && r.assets[i].1 > 0;
                assert(r.assets[i].0 == assets[k].text() && r.assets[i].1 >= 1);
            }
        }
        let after = app.wallet_refreshed(spendable, now_ms);
        if after.carrier_available {
            let i = choose|i: int|
                0 <= i < spendable.len() && match_::is_carrier(
                    #[trigger] spendable[i],
                    assets,
                    app.params.dust_sats,
                    now_ms,
                );
            assert(is_carrier_of(spendable[i], app, now_ms));
        }
        if exists|i: int|
            0 <= i < spendable.len() && is_carrier_of(#[trigger] spendable[i], app, now_ms) {
            let i = choose|i: int|
                0 <= i < spendable.len() && is_carrier_of(#[trigger] spendable[i], app, now_ms);
            assert(match_::is_carrier(spendable[i], assets, app.params.dust_sats, now_ms));
        }
    }
}

/// Whether an output is a carrier of the active pack.
pub open spec fn is_carrier_of(record: Record, app: App, now_ms: u64) -> bool {
    &&& record.amount_sats == app.params.dust_sats
    &&& match_::safe_input(record, now_ms)
    &&& app.move_assets matches Some(assets) && exists|k: int, i: int|
        0 <= k < assets.len() && 0 <= i < record.assets.len() && (#[trigger] record.assets[i]).0 == (
        #[trigger] assets[k]).text() && record.assets[i].1 >= 1
}

/// A sweep goes to a valid address of the same operator that is not the wallet's own, and takes all
/// safe outputs that were not reported as spent, one to twenty of them.
pub proof fn law_sweeps_go_to_other_wallets_of_the_operator(
    app: App,
    spendable: Seq<Record>,
    destination: Seq<char>,
    now_ms: u64,
)
    ensures
        ({
            let target = text::trimmed(destination);
            let prefix = if app.params.network == Network::Bitcoin {
                "ark1"@
            } else {
                "tark1"@
            };
            let safe = spendable.filter(
                |r: Record|
                    match_::safe_input(r, now_ms) && !app.excluded_outpoints.contains(
                        r.outpoint.text(),
                    ),
            );
            let fine = {
                &&& prefix.is_prefix_of(text::lower(target))
                &&& address::ark_address(target) matches Ok((server, canonical)) && server
                    == app.params.signer_pk && canonical != app.player_address
                &&& 1 <= safe.len() <= 20
            };
            &&& fine ==> app.sweep_inputs(spendable, destination, now_ms) == Ok::<
                Seq<Record>,
                Seq<char>,
            >(safe)
            &&& !fine ==> app.sweep_inputs(spendable, destination, now_ms) is Err
        }),
{
    let p = |r: Record|
        match_::safe_input(r, now_ms) && !app.excluded_outpoints.contains(r.outpoint.text());
    let q = |r: Record| match_::safe_input(r, now_ms) && !app.excludes(r.outpoint);
    lemma_same_filter(spendable, p, q);
}

/// The carrier of an action is an output of exactly dust that is safe to spend, was not reported as
/// spent, and holds a unit of the action's asset; there is one wherever such an output is there.
pub proof fn law_carriers_hold_the_unit(
    app: App,
    spendable: Seq<Record>,
    asset: Seq<char>,
    now_ms: u64,
)
    ensures
        match app.carrier_for(spendable, asset, now_ms) {
            Some(carrier) => spendable.contains(carrier) && carries_unit(
                app,
                carrier,
                asset,
                now_ms,
            ),
            None => forall|record: Record| #[trigger]
                spendable.contains(record) ==> !carries_unit(app, record, asset, now_ms),
        },
    decreases spendable.len(),
{
    if spendable.len() > 0 {
        let rest = spendable.drop_last();
        let last = spendable.last();
        law_carriers_hold_the_unit(app, rest, asset, now_ms);
        assert(spendable[spendable.len() - 1] == last);
        assert(carries_unit(app, last, asset, now_ms) == app.carries(last, asset, now_ms));
        if let Some(carrier) = app.carrier_for(rest, asset, now_ms) {
            assert(spendable[rest.index_of(carrier)] == carrier);
        }
        if app.carrier_for(spendable, asset, now_ms) is None {
            assert forall|record: Record| #[trigger] spendable.contains(record) implies
                !carries_unit(app, record, asset, now_ms) by {
                let k = spendable.index_of(record);
                if k < rest.len() {
                    assert(rest[k] == record);
                    assert(rest.contains(record));
                }
            }
        }
    }
}

/// Whether an output can carry an action.
pub open spec fn carries_unit(app: App, record: Record, asset: Seq<char>, now_ms: u64) -> bool {
    &&& record.amount_sats == app.params.dust_sats
    &&& match_::safe_input(record, now_ms)
    &&& !app.excluded_outpoints.contains(record.outpoint.text())
    &&& exists|i: int|
        0 <= i < record.assets.len() && (#[trigger] record.assets[i]).0 == asset
            && record.assets[i].1 > 0
}

/// The next step burns the asset of the first queued action, with the next number.
pub proof fn law_the_queued_action_is_sent(app: App, spendable: Seq<Record>, now_ms: u64)
    requires
        app.pending_dirs.len() > 0,
        app.pending_dirs[0] < app.move_balances.len(),
        app.move_assets is Some,
    ensures
        app.move_balances[app.pending_dirs[0] as int] == 0 ==> app.next_step(spendable, now_ms)
            is None,
        app.next_step(spendable, now_ms) matches Some(step) ==> {
            &&& step.direction == app.pending_dirs[0]
            &&& step.sequence == app.next_sequence
            &&& step.asset_id == app.move_assets.unwrap()[app.pending_dirs[0] as int]
            &&& spendable.contains(step.carrier)
            &&& carries_unit(app, step.carrier, step.asset_id.text(), now_ms)
        },
        app.next_step(spendable, now_ms) is None && app.move_balances[app.pending_dirs[0] as int]
            > 0 ==> forall|record: Record| #[trigger]
            spendable.contains(record) ==> !carries_unit(
                app,
                record,
                app.move_assets.unwrap()[app.pending_dirs[0] as int].text(),
                now_ms,
            ),
        app.move_begun(spendable, now_ms).sending <==> app.sending || app.next_step(
            spendable,
            now_ms,
        ) is Some,
        app.next_step(spendable, now_ms) is Some ==> app.move_begun(spendable, now_ms).pending_dirs
            == app.pending_dirs.skip(1),
        app.next_step(spendable, now_ms) is None && app.move_balances[app.pending_dirs[0] as int]
            > 0 ==> app.move_begun(spendable, now_ms).pending_dirs == app.pending_dirs,
{
    let asset = app.move_assets.unwrap()[app.pending_dirs[0] as int];
    law_carriers_hold_the_unit(app, spendable, asset.text(), now_ms);
    assert(app.pending_dirs.drop_first() =~= app.pending_dirs.skip(1));
}

/// A prepared action is pending with its direction and the next number; a failed one is queued again,
/// before the others.
pub proof fn law_prepared_actions_are_pending(
    app: App,
    direction: u8,
    tx: Prepared,
    ids: Seq<AssetId>,
    error: Seq<char>,
    resets: bool,
)
    ensures
        app.move_prepared(direction, Ok(tx)).pending_action == Some(
            Pending { unknown: true, tx, purpose: Purpose::Move(direction, app.next_sequence) },
        ),
        app.sweep_prepared(Ok(tx)).pending_action == Some(
            Pending { unknown: true, tx, purpose: Purpose::Sweep },
        ),
        ({
            let issued = app.issuance_prepared(Ok((tx, ids)), resets);
            &&& issued.pending_action == Some(
                Pending { unknown: true, tx, purpose: Purpose::Issuance(ids) },
            )
            &&& issued.move_assets == Some(ids)
            &&& issued.move_balances == seq![50u64, 50u64, 50u64, 50u64, 50u64, 5u64]
            &&& issued.next_sequence == 0
            &&& issued.registered_players == app.registered_players.insert(
                tx.txid,
                app.player_script,
            )
            &&& !issued.carrier_available
            &&& !issued.issuance_visible
            &&& !issued.sending
        }),
        ({
            let failed = app.move_prepared(direction, Err(error));
            &&& failed.pending_action == app.pending_action
            &&& failed.pending_dirs == seq![direction] + app.pending_dirs
            &&& !failed.sending
        }),
        app.sweep_prepared(Err(error)).pending_action == app.pending_action,
        !app.sweep_prepared(Err(error)).sending,
        app.issuance_prepared(Err(error), resets).pending_action == app.pending_action,
        app.issuance_prepared(Err(error), resets).move_assets == app.move_assets,
        !app.issuance_prepared(Err(error), resets).sending,
{
    let supplies = seq![50u64, 50u64, 50u64, 50u64, 50u64, 5u64];
    assert(crate::game::ACTION_SUPPLIES@ =~= supplies);
}

/// The status of an output: what has left the wallet comes first, then what is too small or too old
/// to spend, then what will be within the hour.
pub proof fn law_statuses_are_told_in_order(record: Record, dust: u64, now_ms: u64)
    ensures
        ({
            let status = snapshot::output_status(record, dust, now_ms);
            let now = now_ms / 1_000;
            let over = record.expires_at matches Some(at) && at <= now;
            let soon = record.expires_at matches Some(at) && at <= now + 3_600;
            &&& record.is_unrolled ==> status == "unrolled"@
            &&& !record.is_unrolled && record.is_swept ==> status == "swept"@
            &&& !record.is_unrolled && !record.is_swept && record.is_spent ==> status == "spent"@
            &&& !record.is_unrolled && !record.is_swept && !record.is_spent ==> {
                &&& record.amount_sats < dust || over ==> status == "recoverable"@
                &&& record.amount_sats >= dust && !over && soon ==> status == "expiring"@
                &&& record.amount_sats >= dust && !soon && record.is_preconfirmed ==> status
                    == "preconfirmed"@
                &&& record.amount_sats >= dust && !soon && !record.is_preconfirmed ==> status
                    == "confirmed"@
            }
        }),
        snapshot::is_known(record) <==> !(record.is_spent || record.is_swept || record.is_unrolled),
        snapshot::output_shown(record, dust, now_ms).amount == record.amount_sats,
        snapshot::output_shown(record, dust, now_ms).outpoint == record.outpoint.text(),
        snapshot::output_shown(record, dust, now_ms).assets == record.assets,
        snapshot::output_shown(record, dust, now_ms).expires_at == record.expires_at,
        snapshot::output_shown(record, dust, now_ms).spent_by == record.spent_by,
{
}

/// An output that was reported as spent is not used again, and nothing else is excluded by that.
pub proof fn law_reported_outputs_are_excluded(app: App, action: Seq<char>, error: Seq<char>)
    ensures
        match_::spent_outpoint(error) matches Some(outpoint) ==> app.send_failed(
            action,
            error,
        ).excluded_outpoints == app.excluded_outpoints.insert(outpoint),
        match_::spent_outpoint(error) is None ==> app.send_failed(action, error).excluded_outpoints
            == app.excluded_outpoints,
        app.send_failed(action, error).pending_action == app.pending_action,
        app.send_failed(action, error).last_error == Some(action + ": "@ + error),
{
}

/// The log keeps the last hundred lines, the newest last; the same error is not logged twice in a
/// row.
pub proof fn law_the_log_keeps_a_hundred_lines(
    app: App,
    line: Seq<char>,
    action: Seq<char>,
    error: Seq<char>,
)
    requires
        app.log.len() <= 100,
    ensures
        ({
            let log = app.logged(line).log;
            &&& log.len() == if app.log.len() < 100 {
                app.log.len() + 1
            } else {
                100
            }
            &&& log[log.len() - 1] == line
            &&& forall|i: int|
                0 <= i < log.len() - 1 ==> #[trigger] log[i] == app.log[app.log.len() - log.len() + 1
                    + i]
        }),
        app.last_error == Some(action + ": "@ + error) ==> app.reported(action, error) == app,
        app.last_error != Some(action + ": "@ + error) ==> app.reported(action, error).log
            == app.logged(action + ": "@ + error).log,
        app.reported(action, error).last_error == Some(action + ": "@ + error),
{
}

} // verus!
