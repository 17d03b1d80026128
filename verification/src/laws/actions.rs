//! The chains of actions: who takes a place, and how far a chain goes.

use crate::actions;
use crate::actions::ActionEvent;
use crate::chain::{OutPoint, Txid};
use crate::text;
use vstd::prelude::*;

verus! {

/// Whether some events are an unbroken line of actions of a player: numbered from zero, each indexed
/// or the player's own, the first spending output one of the issuance and each other one output zero
/// of the one before.
pub open spec fn is_line(player: Txid, line: Seq<ActionEvent>) -> bool {
    forall|k: int|
        0 <= k < line.len() ==> {
            let event = #[trigger] line[k];
            &&& event.player == player
            &&& event.sequence == k
            &&& event.created_at is Some || event.local_tentative
            &&& event.predecessor.txid == if k == 0 {
                player
            } else {
                line[k - 1].txid
            }
            &&& event.predecessor.vout == if k == 0 {
                1u32
            } else {
                0u32
            }
        }
}

/// Whether nothing else among the events competes with a line for one of its places.
pub open spec fn is_alone(events: Seq<ActionEvent>, player: Txid, line: Seq<ActionEvent>) -> bool {
    forall|event: ActionEvent| #[trigger]
        events.contains(event) && event.player == player && event.sequence < line.len() ==> event
            == line[event.sequence as int]
}

/// However long an unbroken line of actions is, all of it is played, in its order.
pub proof fn law_unbroken_lines_are_played(
    events: Seq<ActionEvent>,
    player: Txid,
    line: Seq<ActionEvent>,
)
    requires
        is_line(player, line),
        is_alone(events, player, line),
        forall|k: int| 0 <= k < line.len() ==> events.contains(#[trigger] line[k]),
    ensures
        actions::canonical_chain(events, player).len() >= line.len(),
        forall|k: int|
            0 <= k < line.len() ==> #[trigger] actions::canonical_chain(events, player)[k] == line[k],
{
    lemma_line(events, player, line, 0, actions::first_carrier(player));
    let chain = actions::canonical_chain(events, player);
    assert forall|k: int| 0 <= k < line.len() implies #[trigger] chain[k] == line[k] by {
        assert(chain[k - 0] == line[k]);
    }
}

proof fn lemma_line(
    events: Seq<ActionEvent>,
    player: Txid,
    line: Seq<ActionEvent>,
    n: int,
    predecessor: OutPoint,
)
    requires
        is_line(player, line),
        is_alone(events, player, line),
        forall|k: int| 0 <= k < line.len() ==> events.contains(#[trigger] line[k]),
        0 <= n <= line.len(),
        n < line.len() ==> predecessor == line[n].predecessor,
    ensures
        actions::chain_from(events, player, n, predecessor).len() >= line.len() - n,
        forall|k: int|
            n <= k < line.len() ==> #[trigger] actions::chain_from(
                events,
                player,
                n,
                predecessor,
            )[k - n] == line[k],
    decreases line.len() - n,
{
    if n < line.len() {
        let event = line[n];
        actions::law_best_candidate_is_first(events, player, n, predecessor);
        assert(events.contains(event));
        let best = actions::best_candidate(events, player, n, predecessor);
        assert(best == Some(event));
        let next = actions::carrier_of(event.txid);
        if n + 1 < line.len() {
            assert(line[n + 1].predecessor == next);
        }
        lemma_line(events, player, line, n + 1, next);
        let chain = actions::chain_from(events, player, n, predecessor);
        let rest = actions::chain_from(events, player, n + 1, next);
        assert(chain == seq![event] + rest);
        assert forall|k: int| n <= k < line.len() implies #[trigger] chain[k - n] == line[k] by {
            if k > n {
                assert(chain[k - n] == rest[k - (n + 1)]);
            }
        }
    }
}

/// Whether an event could take a place: it is the player's, has the number, spends the carrier, and
/// is indexed or the player's own. Its action, its id and its time do not matter.
pub open spec fn could_take(
    event: ActionEvent,
    player: Txid,
    sequence: u32,
    txid: Txid,
    vout: u32,
) -> bool {
    &&& event.player == player
    &&& event.sequence == sequence
    &&& event.predecessor.txid == txid
    &&& event.predecessor.vout == vout
    &&& !(event.created_at is None && !event.local_tentative)
}

/// A place stays empty only where no event could take it; else it is taken by one that could, and
/// no other that could was indexed before it: one that is not indexed yields to every indexed one,
/// and of those indexed at the same time, or not at all, the id that sorts first as text wins.
pub proof fn law_the_earliest_action_takes_the_place(
    events: Seq<ActionEvent>,
    player: Txid,
    sequence: u32,
    txid: Txid,
    vout: u32,
)
    ensures
        match actions::best_candidate(events, player, sequence as int, (OutPoint { txid, vout })) {
            None => forall|event: ActionEvent| #[trigger]
                events.contains(event) ==> !could_take(event, player, sequence, txid, vout),
            Some(best) => events.contains(best) && could_take(best, player, sequence, txid, vout)
                && forall|event: ActionEvent| #[trigger]
                events.contains(event) && could_take(event, player, sequence, txid, vout) ==> {
                    &&& event.created_at is Some ==> best.created_at is Some
                        && best.created_at.unwrap() <= event.created_at.unwrap()
                    &&& event.created_at == best.created_at ==> !text::text_less(
                        event.txid.text(),
                        best.txid.text(),
                    )
                },
        },
{
    let predecessor = OutPoint { txid, vout };
    actions::law_best_candidate_is_first(events, player, sequence as int, predecessor);
    assert forall|event: ActionEvent| could_take(event, player, sequence, txid, vout)
        == #[trigger] actions::is_candidate(event, player, sequence as int, predecessor) by {}
    if let Some(best) = actions::best_candidate(events, player, sequence as int, predecessor) {
        assert(actions::is_candidate(best, player, sequence as int, predecessor));
        assert forall|event: ActionEvent| #[trigger]
            events.contains(event) && could_take(event, player, sequence, txid, vout) implies {
            &&& event.created_at is Some ==> best.created_at is Some && best.created_at.unwrap()
                <= event.created_at.unwrap()
            &&& event.created_at == best.created_at ==> !text::text_less(
                event.txid.text(),
                best.txid.text(),
            )
        } by {
            assert(actions::is_candidate(event, player, sequence as int, predecessor));
            assert(!actions::event_less(event, best));
        }
    }
}

/// The chain of a player does not change with what others do.
pub proof fn law_others_do_not_matter(
    events: Seq<ActionEvent>,
    other: ActionEvent,
    player: Txid,
    sequence: int,
    predecessor: OutPoint,
)
    requires
        other.player != player,
    ensures
        actions::chain_from(events.push(other), player, sequence, predecessor)
            == actions::chain_from(events, player, sequence, predecessor),
    decreases u32::MAX + 1 - sequence,
{
    assert(events.push(other).drop_last() =~= events);
    assert(actions::best_candidate(events.push(other), player, sequence, predecessor)
        == actions::best_candidate(events, player, sequence, predecessor));
    if sequence <= u32::MAX {
        if let Some(event) = actions::best_candidate(events, player, sequence, predecessor) {
            law_others_do_not_matter(
                events,
                other,
                player,
                sequence + 1,
                actions::carrier_of(event.txid),
            );
        }
    }
}

} // verus!
