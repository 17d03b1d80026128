//! The chain of actions of each player.
//!
//! An action spends the carrier that the action before it left, the first one that of the
//! issuance. Candidates for the same place in the chain are ordered by when they were indexed,
//! then by transaction id; the chain starts at sequence zero and stops at a gap.

use crate::chain::{OutPoint, Txid};
use crate::gamelog::PLAYER_ASSET_OUTPUT_INDEX;
use crate::table;
use crate::table::{Key, Table};
use crate::text;
use vstd::prelude::*;

verus! {

/// An action that a player has taken.
#[derive(Clone, Copy, Debug)]
pub struct ActionEvent {
    pub txid: Txid,
    pub player: Txid,
    pub sequence: u32,
    pub action: u8,
    /// The output that the action spends.
    pub predecessor: OutPoint,
    /// When the action was indexed.
    pub created_at: Option<i64>,
    /// Finalized by this player and not indexed yet.
    pub local_tentative: bool,
}

/// Order of candidates: indexed ones first, by timestamp, then by transaction id text.
pub open spec fn event_less(a: ActionEvent, b: ActionEvent) -> bool {
    match (a.created_at, b.created_at) {
        (Some(x), Some(y)) => x < y || x == y && text::text_less(a.txid.text(), b.txid.text()),
        (Some(_), None) => true,
        (None, Some(_)) => false,
        (None, None) => text::text_less(a.txid.text(), b.txid.text()),
    }
}

/// Whether an event can take a place in a player's chain. One that is neither indexed nor the
/// player's own cannot.
pub open spec fn is_candidate(
    event: ActionEvent,
    player: Txid,
    sequence: int,
    predecessor: OutPoint,
) -> bool {
    &&& event.player == player
    &&& event.sequence == sequence
    &&& event.predecessor == predecessor
    &&& event.created_at is Some || event.local_tentative
}

/// The event that takes a place: the first candidate in order; of equal ones the first listed.
pub open spec fn best_candidate(
    events: Seq<ActionEvent>,
    player: Txid,
    sequence: int,
    predecessor: OutPoint,
) -> Option<ActionEvent>
    decreases events.len(),
{
    if events.len() == 0 {
        None
    } else {
        let best = best_candidate(events.drop_last(), player, sequence, predecessor);
        let last = events.last();
        if is_candidate(last, player, sequence, predecessor) && (best is None || event_less(
            last,
            best.unwrap(),
        )) {
            Some(last)
        } else {
            best
        }
    }
}

/// The first output of an action carries the player's assets on.
pub open spec fn carrier_of(txid: Txid) -> OutPoint {
    OutPoint { txid, vout: 0 }
}

/// The output of an issuance that carries the player's assets.
pub open spec fn first_carrier(player: Txid) -> OutPoint {
    OutPoint { txid: player, vout: PLAYER_ASSET_OUTPUT_INDEX as u32 }
}

/// The chain from a sequence number on, where the next action has to spend `predecessor`.
pub open spec fn chain_from(
    events: Seq<ActionEvent>,
    player: Txid,
    sequence: int,
    predecessor: OutPoint,
) -> Seq<ActionEvent>
    decreases u32::MAX + 1 - sequence,
{
    if sequence > u32::MAX {
        Seq::empty()
    } else {
        match best_candidate(events, player, sequence, predecessor) {
            Some(event) => seq![event] + chain_from(
                events,
                player,
                sequence + 1,
                carrier_of(event.txid),
            ),
            None => Seq::empty(),
        }
    }
}

/// The canonical actions of a player.
pub open spec fn canonical_chain(events: Seq<ActionEvent>, player: Txid) -> Seq<ActionEvent> {
    chain_from(events, player, 0, first_carrier(player))
}

fn event_precedes(a: &ActionEvent, b: &ActionEvent) -> (result: bool)
    ensures
        result == event_less(*a, *b),
{
    match (a.created_at, b.created_at) {
        (Some(x), Some(y)) => x < y || x == y && a.txid.shows_before(&b.txid),
        (Some(_), None) => true,
        (None, Some(_)) => false,
        (None, None) => a.txid.shows_before(&b.txid),
    }
}

fn find_best(
    events: &[ActionEvent],
    player: Txid,
    sequence: u32,
    predecessor: OutPoint,
) -> (best: Option<ActionEvent>)
    ensures
        best == best_candidate(events@, player, sequence as int, predecessor),
{
    let mut best: Option<ActionEvent> = None;
    let mut i: usize = 0;
    assert(events@.take(0) =~= Seq::empty());
    while i < events.len()
        invariant
            i <= events@.len(),
            best == best_candidate(events@.take(i as int), player, sequence as int, predecessor),
        decreases events@.len() - i,
    {
        assert(events@.take(i + 1).drop_last() =~= events@.take(i as int));
        let event: ActionEvent = events[i];
        if event.player == player && event.sequence == sequence && event.predecessor == predecessor
            && (event.created_at.is_some() || event.local_tentative) {
            let better: bool = match &best {
                Some(known) => event_precedes(&event, known),
                None => true,
            };
            if better {
                best = Some(event);
            }
        }
        i += 1;
    }
    assert(events@.take(events@.len() as int) =~= events@);
    best
}

/// The canonical actions of one player, in order.
pub fn player_chain(events: &[ActionEvent], player: Txid) -> (chain: Vec<ActionEvent>)
    ensures
        chain@ == canonical_chain(events@, player),
{
    let mut chain: Vec<ActionEvent> = Vec::new();
    let mut sequence: u32 = 0;
    let mut predecessor: OutPoint = OutPoint {
        txid: player,
        vout: PLAYER_ASSET_OUTPUT_INDEX as u32,
    };
    let mut open: bool = true;
    proof {
        assert(chain@ + canonical_chain(events@, player) =~= canonical_chain(events@, player));
    }
    while open
        invariant
            open ==> canonical_chain(events@, player) == chain@ + chain_from(
                events@,
                player,
                sequence as int,
                predecessor,
            ),
            !open ==> canonical_chain(events@, player) == chain@,
        decreases (u32::MAX - sequence) + if open {
            1int
        } else {
            0
        },
    {
        match find_best(events, player, sequence, predecessor) {
            Some(event) => {
                let ghost was = chain@;
                let ghost rest = chain_from(
                    events@,
                    player,
                    sequence + 1,
                    carrier_of(event.txid),
                );
                chain.push(event);
                assert(was + (seq![event] + rest) =~= chain@ + rest);
                predecessor = OutPoint { txid: event.txid, vout: 0 };
                if sequence == u32::MAX {
                    open = false;
                    assert(chain@ + Seq::<ActionEvent>::empty() =~= chain@);
                } else {
                    sequence += 1;
                }
            },
            None => {
                open = false;
                assert(chain@ + Seq::<ActionEvent>::empty() =~= chain@);
            },
        }
    }
    chain
}

/// Whether a player has any event.
pub open spec fn has_events(events: Seq<ActionEvent>, player: Txid) -> bool {
    exists|i: int| 0 <= i < events.len() && (#[trigger] events[i]).player == player
}

/// The players that have events, in ascending order.
pub open spec fn lists_players(events: Seq<ActionEvent>, players: Seq<Txid>) -> bool {
    table::ascending(players) && forall|p: Txid| #[trigger]
        players.contains(p) <==> has_events(events, p)
}

/// The chains of the players, one behind the other.
pub open spec fn chains_of(events: Seq<ActionEvent>, players: Seq<Txid>) -> Seq<ActionEvent>
    decreases players.len(),
{
    if players.len() == 0 {
        Seq::empty()
    } else {
        chains_of(events, players.drop_last()) + canonical_chain(events, players.last())
    }
}

/// The canonical actions of all players, in ascending order of the players.
pub open spec fn canonical(events: Seq<ActionEvent>) -> Seq<ActionEvent> {
    chains_of(events, choose|players: Seq<Txid>| lists_players(events, players))
}

/// The canonical actions of all players, in ascending order of the players.
pub fn canonical_actions(events: &[ActionEvent]) -> (actions: Vec<ActionEvent>)
    ensures
        actions@ == canonical(events@),
{
    let mut players: Table<Txid, ()> = Table::new();
    let mut i: usize = 0;
    while i < events.len()
        invariant
            i <= events@.len(),
            forall|p: Txid| #[trigger]
                players@.contains_key(p) <==> exists|k: int|
                    0 <= k < i && (#[trigger] events@[k]).player == p,
        decreases events@.len() - i,
    {
        let ghost was = players@;
        let player: Txid = events[i].player;
        let _ = players.insert(player, ());
        assert forall|p: Txid| #[trigger]
            players@.contains_key(p) <==> exists|k: int|
                0 <= k < i + 1 && (#[trigger] events@[k]).player == p by {
            if p == player {
                assert(events@[i as int].player == p);
            } else if was.contains_key(p) {
                let k = choose|k: int| 0 <= k < i && (#[trigger] events@[k]).player == p;
                assert(0 <= k < i + 1 && events@[k].player == p);
            }
        }
        i += 1;
    }
    let n: usize = players.len();
    let ghost keys = players.keys();
    proof {
        assert forall|p: Txid| #[trigger] keys.contains(p) <==> has_events(events@, p) by {
            assert(keys.contains(p) <==> players@.contains_key(p));
        }
        assert(lists_players(events@, keys));
        let chosen = choose|players: Seq<Txid>| lists_players(events@, players);
        table::lemma_ascending_unique(keys, chosen);
        assert(keys.take(0) =~= Seq::empty());
    }
    let mut actions: Vec<ActionEvent> = Vec::new();
    let mut j: usize = 0;
    while j < n
        invariant
            j <= n == players.keys().len(),
            keys == players.keys(),
            actions@ == chains_of(events@, keys.take(j as int)),
        decreases n - j,
    {
        assert(keys.take(j + 1).drop_last() =~= keys.take(j as int));
        let mut chain: Vec<ActionEvent> = player_chain(events, players.key_at(j));
        actions.append(&mut chain);
        j += 1;
    }
    assert(keys.take(keys.len() as int) =~= keys);
    actions
}

/// The event that takes a place is a candidate, and no candidate lies before it.
pub proof fn law_best_candidate_is_first(
    events: Seq<ActionEvent>,
    player: Txid,
    sequence: int,
    predecessor: OutPoint,
)
    ensures
        match best_candidate(events, player, sequence, predecessor) {
            Some(best) => events.contains(best) && is_candidate(
                best,
                player,
                sequence,
                predecessor,
            ) && forall|other: ActionEvent| #[trigger]
                events.contains(other) && is_candidate(other, player, sequence, predecessor)
                    ==> !event_less(other, best),
            None => forall|other: ActionEvent| #[trigger]
                events.contains(other) ==> !is_candidate(other, player, sequence, predecessor),
        },
    decreases events.len(),
{
    if events.len() > 0 {
        let rest = events.drop_last();
        let last = events.last();
        law_best_candidate_is_first(rest, player, sequence, predecessor);
        assert(events[events.len() - 1] == last);
        let earlier = best_candidate(rest, player, sequence, predecessor);
        if let Some(best) = earlier {
            assert(events[rest.index_of(best)] == best);
        }
        assert forall|other: ActionEvent| #[trigger]
            events.contains(other) && is_candidate(
                other,
                player,
                sequence,
                predecessor,
            ) implies match best_candidate(events, player, sequence, predecessor) {
            Some(best) => !event_less(other, best),
            None => false,
        } by {
            let k = events.index_of(other);
            if k < rest.len() {
                assert(rest[k] == other);
                assert(rest.contains(other));
            }
            lemma_event_order(other, last, last);
            if let Some(best) = earlier {
                lemma_event_order(other, last, best);
                lemma_event_order(last, best, best);
            }
        }
    }
}

proof fn lemma_event_order(a: ActionEvent, b: ActionEvent, c: ActionEvent)
    ensures
        event_less(a, b) ==> !event_less(b, a),
        event_less(a, b) && event_less(b, c) ==> event_less(a, c),
        !event_less(b, b),
{
    text::lemma_text_less_total(a.txid.text(), b.txid.text());
    text::lemma_text_less_total(b.txid.text(), b.txid.text());
    if text::text_less(a.txid.text(), b.txid.text()) && text::text_less(
        b.txid.text(),
        c.txid.text(),
    ) {
        text::lemma_text_less_transitive(a.txid.text(), b.txid.text(), c.txid.text());
    }
}

/// A player's canonical actions are numbered from zero without a gap. Each spends the carrier that
/// the one before it left, the first that of the issuance, and is indexed or the player's own.
pub proof fn law_chain_is_contiguous(events: Seq<ActionEvent>, player: Txid)
    ensures
        forall|k: int|
            0 <= k < canonical_chain(events, player).len() ==> {
                let event = #[trigger] canonical_chain(events, player)[k];
                &&& events.contains(event)
                &&& event.player == player
                &&& event.sequence == k
                &&& event.predecessor == if k == 0 {
                    first_carrier(player)
                } else {
                    carrier_of(canonical_chain(events, player)[k - 1].txid)
                }
                &&& event.created_at is Some || event.local_tentative
            },
{
    lemma_chain(events, player, 0, first_carrier(player));
}

proof fn lemma_chain(
    events: Seq<ActionEvent>,
    player: Txid,
    sequence: int,
    predecessor: OutPoint,
)
    requires
        0 <= sequence,
    ensures
        forall|k: int|
            0 <= k < chain_from(events, player, sequence, predecessor).len() ==> {
                let event = #[trigger] chain_from(events, player, sequence, predecessor)[k];
                &&& events.contains(event)
                &&& event.player == player
                &&& event.sequence == sequence + k
                &&& event.predecessor == if k == 0 {
                    predecessor
                } else {
                    carrier_of(chain_from(events, player, sequence, predecessor)[k - 1].txid)
                }
                &&& event.created_at is Some || event.local_tentative
            },
    decreases u32::MAX + 1 - sequence,
{
    let chain = chain_from(events, player, sequence, predecessor);
    if sequence <= u32::MAX {
        law_best_candidate_is_first(events, player, sequence, predecessor);
        if let Some(event) = best_candidate(events, player, sequence, predecessor) {
            let next = carrier_of(event.txid);
            lemma_chain(events, player, sequence + 1, next);
            let rest = chain_from(events, player, sequence + 1, next);
            assert(chain =~= seq![event] + rest);
            assert forall|k: int| 0 <= k < chain.len() implies {
                let e = #[trigger] chain[k];
                &&& events.contains(e)
                &&& e.player == player
                &&& e.sequence == sequence + k
                &&& e.predecessor == if k == 0 {
                    predecessor
                } else {
                    carrier_of(chain[k - 1].txid)
                }
                &&& e.created_at is Some || e.local_tentative
            } by {
                if k > 0 {
                    assert(chain[k] == rest[k - 1]);
                    if k > 1 {
                        assert(chain[k - 1] == rest[k - 2]);
                    }
                }
            }
        }
    }
}

/// The carrier that the next action has to spend behind a chain that started at `predecessor`.
pub open spec fn last_carrier(chain: Seq<ActionEvent>, predecessor: OutPoint) -> OutPoint {
    if chain.len() == 0 {
        predecessor
    } else {
        carrier_of(chain.last().txid)
    }
}

proof fn lemma_chain_end(
    events: Seq<ActionEvent>,
    player: Txid,
    sequence: int,
    predecessor: OutPoint,
)
    requires
        0 <= sequence <= u32::MAX + 1,
    ensures
        ({
            let chain = chain_from(events, player, sequence, predecessor);
            &&& sequence + chain.len() <= u32::MAX + 1
            &&& sequence + chain.len() <= u32::MAX ==> best_candidate(
                events,
                player,
                sequence + chain.len(),
                last_carrier(chain, predecessor),
            ) is None
        }),
    decreases u32::MAX + 1 - sequence,
{
    if sequence <= u32::MAX {
        if let Some(event) = best_candidate(events, player, sequence, predecessor) {
            let next = carrier_of(event.txid);
            lemma_chain_end(events, player, sequence + 1, next);
            let rest = chain_from(events, player, sequence + 1, next);
            let chain = chain_from(events, player, sequence, predecessor);
            assert(chain =~= seq![event] + rest);
            if rest.len() > 0 {
                assert(chain.last() == rest.last());
            }
        }
    }
}

/// A player's canonical actions stop only at a gap: no event could continue them.
pub proof fn law_chain_stops_at_a_gap(
    events: Seq<ActionEvent>,
    player: Txid,
    event: ActionEvent,
)
    requires
        events.contains(event),
    ensures
        !is_candidate(
            event,
            player,
            canonical_chain(events, player).len() as int,
            last_carrier(canonical_chain(events, player), first_carrier(player)),
        ),
{
    let chain = canonical_chain(events, player);
    lemma_chain_end(events, player, 0, first_carrier(player));
    law_best_candidate_is_first(
        events,
        player,
        chain.len() as int,
        last_carrier(chain, first_carrier(player)),
    );
}

proof fn lemma_insert_player(players: Seq<Txid>, player: Txid) -> (more: Seq<Txid>)
    requires
        table::ascending(players),
    ensures
        table::ascending(more),
        forall|p: Txid| #[trigger] more.contains(p) <==> players.contains(p) || p == player,
    decreases players.len(),
{
    if players.len() == 0 {
        let more = seq![player];
        assert(more[0] == player);
        more
    } else {
        let last = players.last();
        let rest = players.drop_last();
        assert(players[players.len() - 1] == last);
        Txid::lemma_before_total(last, player);
        if last == player {
            players
        } else if last.before(player) {
            let more = players.push(player);
            assert forall|i: int, j: int| 0 <= i < j < more.len() implies #[trigger] more[i].before(
                #[trigger] more[j],
            ) by {
                if j == players.len() && i < players.len() - 1 {
                    Txid::lemma_before_transitive(players[i], last, player);
                }
            }
            assert forall|p: Txid| #[trigger] more.contains(p) <==> players.contains(p) || p
                == player by {
                assert(more[players.len() as int] == player);
                if players.contains(p) {
                    assert(more[players.index_of(p)] == p);
                }
            }
            more
        } else {
            let some = lemma_insert_player(rest, player);
            let more = some.push(last);
            assert forall|i: int, j: int| 0 <= i < j < more.len() implies #[trigger] more[i].before(
                #[trigger] more[j],
            ) by {
                if j == some.len() {
                    assert(some.contains(some[i]));
                    if rest.contains(some[i]) {
                        let k = rest.index_of(some[i]);
                        assert(players[k].before(players[players.len() - 1]));
                    }
                }
            }
            assert forall|p: Txid| #[trigger] more.contains(p) <==> players.contains(p) || p
                == player by {
                assert(more[some.len() as int] == last);
                if some.contains(p) {
                    assert(more[some.index_of(p)] == p);
                    if rest.contains(p) {
                        assert(players[rest.index_of(p)] == p);
                    }
                }
                if players.contains(p) && p != last {
                    assert(rest[players.index_of(p)] == p);
                }
                if more.contains(p) && p != last {
                    assert(some[more.index_of(p)] == p);
                }
            }
            more
        }
    }
}

/// The players that have events can be listed.
proof fn lemma_players_are_listed(events: Seq<ActionEvent>) -> (players: Seq<Txid>)
    ensures
        lists_players(events, players),
    decreases events.len(),
{
    if events.len() == 0 {
        Seq::empty()
    } else {
        let rest = events.drop_last();
        let before = lemma_players_are_listed(rest);
        let players = lemma_insert_player(before, events.last().player);
        assert forall|p: Txid| #[trigger] players.contains(p) <==> has_events(events, p) by {
            if has_events(rest, p) {
                let i = choose|i: int| 0 <= i < rest.len() && (#[trigger] rest[i]).player == p;
                assert(events[i].player == p);
            }
            if p == events.last().player {
                assert(events[events.len() - 1].player == p);
            }
            if has_events(events, p) && p != events.last().player {
                let i = choose|i: int| 0 <= i < events.len() && (#[trigger] events[i]).player == p;
                assert(rest[i].player == p);
            }
        }
        players
    }
}

proof fn lemma_chains(events: Seq<ActionEvent>, players: Seq<Txid>)
    requires
        table::ascending(players),
    ensures
        chains_of(events, players).no_duplicates(),
        forall|event: ActionEvent| #[trigger]
            chains_of(events, players).contains(event) <==> players.contains(event.player)
                && canonical_chain(events, event.player).contains(event),
    decreases players.len(),
{
    let all = chains_of(events, players);
    if players.len() > 0 {
        let rest = players.drop_last();
        let last = players.last();
        let before = chains_of(events, rest);
        let chain = canonical_chain(events, last);
        lemma_chains(events, rest);
        law_chain_is_contiguous(events, last);
        assert(players[players.len() - 1] == last);
        assert(!rest.contains(last)) by {
            if rest.contains(last) {
                let k = rest.index_of(last);
                assert(players[k].before(players[players.len() - 1]));
                Txid::lemma_before_total(last, last);
            }
        }
        assert forall|event: ActionEvent| #[trigger] all.contains(event) <==> players.contains(
            event.player,
        ) && canonical_chain(events, event.player).contains(event) by {
            if all.contains(event) {
                let k = all.index_of(event);
                if k < before.len() {
                    assert(before[k] == event);
                    assert(before.contains(event));
                    assert(players[rest.index_of(event.player)] == event.player);
                } else {
                    assert(chain[k - before.len()] == event);
                }
            }
            if players.contains(event.player) && canonical_chain(events, event.player).contains(
                event,
            ) {
                if event.player == last {
                    let k = chain.index_of(event);
                    assert(all[before.len() + k] == event);
                } else {
                    assert(rest[players.index_of(event.player)] == event.player);
                    assert(before.contains(event));
                    assert(all[before.index_of(event)] == event);
                }
            }
        }
        assert forall|i: int, j: int| 0 <= i < j < all.len() implies all[i] != all[j] by {
            if j < before.len() {
            } else if i < before.len() {
                assert(before.contains(before[i]));
                assert(chain[j - before.len()].player == last);
            } else {
                assert(chain[i - before.len()].sequence == i - before.len());
                assert(chain[j - before.len()].sequence == j - before.len());
            }
        }
    }
}

/// The canonical actions are those of each player's chain, each listed once.
pub proof fn law_canonical_actions_are_listed_once(events: Seq<ActionEvent>)
    ensures
        canonical(events).no_duplicates(),
        forall|event: ActionEvent| #[trigger]
            canonical(events).contains(event) <==> canonical_chain(events, event.player).contains(
                event,
            ),
{
    let players = lemma_players_are_listed(events);
    let chosen = choose|players: Seq<Txid>| lists_players(events, players);
    assert(lists_players(events, chosen));
    lemma_chains(events, chosen);
    assert forall|event: ActionEvent| #[trigger] canonical(events).contains(event)
        <==> canonical_chain(events, event.player).contains(event) by {
        let chain = canonical_chain(events, event.player);
        if chain.contains(event) {
            law_chain_is_contiguous(events, event.player);
            let k = chain.index_of(event);
            assert(events.contains(chain[k]));
            assert(events[events.index_of(event)].player == event.player);
            assert(has_events(events, event.player));
        }
    }
}

} // verus!
