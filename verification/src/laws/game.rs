//! The arena: where the cover stands, where players go, and whom shots hit.

use crate::chain::Txid;
use crate::game;
use crate::game::{PlayerState, Shot, TimedArenaAction};
use vstd::prelude::*;

verus! {

/// Whether a cell is one of the solid ones inside the border, row by row.
pub open spec fn is_drawn(x: int, y: int) -> bool {
    if y == 2 || y == 8 || y == 9 || y == 11 || y == 12 || y == 18 {
        x == 10
    } else if 3 <= y <= 5 {
        3 <= x <= 5 || 15 <= x <= 17 || x == 10 && y != 5
    } else if y == 6 || y == 14 {
        x == 10
    } else if y == 7 {
        2 <= x <= 4 || 6 <= x <= 8 || x == 10
    } else if y == 10 {
        x == 7 || x == 8 || x == 12 || x == 13
    } else if y == 13 {
        x == 10 || 12 <= x <= 14 || 16 <= x <= 18
    } else if 15 <= y <= 17 {
        3 <= x <= 5 || 15 <= x <= 17 || x == 10 && y != 15
    } else {
        false
    }
}

/// The arena has 19 by 19 cells inside its border, of which exactly the drawn ones are solid; turned
/// by half a circle it is the same arena.
pub proof fn law_the_arena_is_drawn(x: int, y: int)
    ensures
        game::wall(x, y) <==> !(1 <= x <= 19 && 1 <= y <= 19) || is_drawn(x, y),
        game::wall(x, y) == game::wall(20 - x, 20 - y),
        game::house(x, y) == game::house(20 - x, y),
        game::house(x, y) == game::house(x, 20 - y),
        game::house(x, y) <==> (x == 3 || x == 4 || x == 5 || x == 15 || x == 16 || x == 17) && (y
            == 3 || y == 4 || y == 5 || y == 15 || y == 16 || y == 17),
{
}

/// The cell that lies `n` cells before a player who faces up (0), right (1), down (2) or left (3).
pub open spec fn ahead(x: int, y: int, facing: u8, n: int) -> (int, int) {
    if facing == 0 {
        (x, y - n)
    } else if facing == 1 {
        (x + n, y)
    } else if facing == 2 {
        (x, y + n)
    } else {
        (x - n, y)
    }
}

/// A living player who moves up keeps x and has y one less; right, y and x one more; down, x and y
/// one more; left, y and x one less. Where cover stands in the way, the player only turns. Health and
/// kills stay, and nobody else changes.
pub proof fn law_moves_go_where_they_point(states: Map<Txid, PlayerState>, event: TimedArenaAction)
    requires
        states.contains_key(event.player),
        states[event.player].hp > 0,
        0 <= states[event.player].x <= 20,
        0 <= states[event.player].y <= 20,
        event.action <= 3,
    ensures
        ({
            let p = states[event.player];
            let q = game::acted(states, event)[event.player];
            &&& event.action == 0 && !game::wall(p.x as int, p.y - 1) ==> q.x == p.x && q.y == p.y
                - 1
            &&& event.action == 1 && !game::wall(p.x + 1, p.y as int) ==> q.x == p.x + 1 && q.y
                == p.y
            &&& event.action == 2 && !game::wall(p.x as int, p.y + 1) ==> q.x == p.x && q.y == p.y
                + 1
            &&& event.action == 3 && !game::wall(p.x - 1, p.y as int) ==> q.x == p.x - 1 && q.y
                == p.y
            &&& event.action == 0 && game::wall(p.x as int, p.y - 1) ==> q.x == p.x && q.y == p.y
            &&& event.action == 1 && game::wall(p.x + 1, p.y as int) ==> q.x == p.x && q.y == p.y
            &&& event.action == 2 && game::wall(p.x as int, p.y + 1) ==> q.x == p.x && q.y == p.y
            &&& event.action == 3 && game::wall(p.x - 1, p.y as int) ==> q.x == p.x && q.y == p.y
            &&& q.facing == event.action
            &&& q.hp == p.hp
            &&& q.kills == p.kills
        }),
        game::acted(states, event).dom() == states.dom(),
        forall|other: Txid|
            other != event.player && states.contains_key(other)
                ==> #[trigger] game::acted(states, event)[other] == states[other],
        game::fired(states, event) is None,
{
    assert(game::acted(states, event).dom() =~= states.dom());
}

/// Every step of the four directions goes to another neighbour, up and down and left and right undo
/// each other, and what is no direction goes nowhere.
pub proof fn law_steps_are_told_apart(direction: u8)
    ensures
        game::delta(0) == (0int, -1int),
        game::delta(1) == (1int, 0int),
        game::delta(2) == (0int, 1int),
        game::delta(3) == (-1int, 0int),
        direction > 3 ==> game::delta(direction) == (0int, 0int),
{
}

/// An action that is none of the six does nothing.
pub proof fn law_unknown_actions_do_nothing(states: Map<Txid, PlayerState>, event: TimedArenaAction)
    requires
        event.action > 5,
    ensures
        game::acted(states, event) == states,
        game::fired(states, event) is None,
{
}

/// Whether a living player other than the shooter stands on a cell.
pub open spec fn stands_on(
    states: Map<Txid, PlayerState>,
    shooter: Txid,
    cell: (int, int),
    id: Txid,
) -> bool {
    states.contains_key(id) && id != shooter && states[id].hp >= 1 && states[id].x as int == cell.0
        && states[id].y as int == cell.1
}

/// Whether a shot passes over a cell: no cover, and no living player other than the shooter.
pub open spec fn is_passed(states: Map<Txid, PlayerState>, shooter: Txid, cell: (int, int)) -> bool {
    !game::wall(cell.0, cell.1) && forall|id: Txid| !#[trigger]
        stands_on(states, shooter, cell, id)
}

proof fn lemma_flight_passes(
    states: Map<Txid, PlayerState>,
    shooter: Txid,
    x: int,
    y: int,
    facing: u8,
    n: int,
)
    requires
        facing <= 3,
        0 <= n,
        forall|k: int|
            0 <= k < n ==> is_passed(states, shooter, #[trigger] ahead(x, y, facing, k)),
    ensures
        game::flight(states, shooter, x, y, game::delta(facing)) == game::flight(
            states,
            shooter,
            ahead(x, y, facing, n).0,
            ahead(x, y, facing, n).1,
            game::delta(facing),
        ),
    decreases n,
{
    if n > 0 {
        let step = game::delta(facing);
        assert(ahead(x, y, facing, 0) == (x, y));
        assert(game::target_at(states, shooter, x, y) is None) by {
            assert forall|id: Txid| !game::is_target(states, shooter, x, y, id) by {
                assert(!stands_on(states, shooter, ahead(x, y, facing, 0), id));
            }
        }
        assert forall|k: int| 0 <= k < n - 1 implies is_passed(
            states,
            shooter,
            #[trigger] ahead(x + step.0, y + step.1, facing, k),
        ) by {
            assert(ahead(x + step.0, y + step.1, facing, k) == ahead(x, y, facing, k + 1));
        }
        lemma_flight_passes(states, shooter, x + step.0, y + step.1, facing, n - 1);
    }
}

/// A shot goes straight ahead over cells without cover and without living players, and hits the
/// first living player in its way; of several on the cell, the one whose id sorts first. The hit
/// takes one point of health. The shooter gets a kill exactly where it was the last point. Nothing
/// else changes.
pub proof fn law_shots_hit_straight_ahead(
    states: Map<Txid, PlayerState>,
    event: TimedArenaAction,
    victim: Txid,
    n: int,
)
    requires
        event.action == 4,
        states.contains_key(event.player),
        states[event.player].hp > 0,
        states[event.player].facing <= 3,
        n >= 1,
        ({
            let p = states[event.player];
            let cell = ahead(p.x as int, p.y as int, p.facing, n);
            &&& !game::wall(cell.0, cell.1)
            &&& stands_on(states, event.player, cell, victim)
            &&& forall|id: Txid| #[trigger]
                stands_on(states, event.player, cell, id) ==> !crate::text::text_less(
                    id.text(),
                    victim.text(),
                )
            &&& forall|k: int|
                1 <= k < n ==> is_passed(
                    states,
                    event.player,
                    #[trigger] ahead(p.x as int, p.y as int, p.facing, k),
                )
        }),
    ensures
        ({
            let p = states[event.player];
            let v = states[victim];
            let after = game::acted(states, event);
            &&& after.dom() == states.dom()
            &&& after[victim] == (PlayerState { hp: (v.hp - 1) as u8, ..v })
            &&& v.hp > 1 ==> after[event.player] == p
            &&& v.hp == 1 && p.kills < u32::MAX ==> after[event.player] == (PlayerState {
                kills: (p.kills + 1) as u32,
                ..p
            })
            &&& forall|id: Txid|
                id != victim && id != event.player && states.contains_key(id)
                    ==> #[trigger] after[id] == states[id]
            &&& game::fired(states, event) == Some(
                Shot {
                    id: event.txid.text(),
                    shooter: event.player.text(),
                    start: (p.x as int, p.y as int),
                    end: ahead(p.x as int, p.y as int, p.facing, n),
                    hit_player: Some(victim.text()),
                },
            )
        }),
{
    let p = states[event.player];
    let (x, y) = (p.x as int, p.y as int);
    let step = game::delta(p.facing);
    let cell = ahead(x, y, p.facing, n);
    assert forall|k: int| 0 <= k < n - 1 implies is_passed(
        states,
        event.player,
        #[trigger] ahead(x + step.0, y + step.1, p.facing, k),
    ) by {
        assert(ahead(x + step.0, y + step.1, p.facing, k) == ahead(x, y, p.facing, k + 1));
    }
    lemma_flight_passes(states, event.player, x + step.0, y + step.1, p.facing, n - 1);
    assert(ahead(x + step.0, y + step.1, p.facing, n - 1) == cell);
    assert forall|id: Txid| #[trigger]
        game::exposed(states, event.player, cell.0, cell.1, id) implies !crate::text::text_less(
        id.text(),
        victim.text(),
    ) by {
        assert(stands_on(states, event.player, cell, id));
    }
    assert(game::is_target(states, event.player, cell.0, cell.1, victim));
    game::lemma_target_unique(states, event.player, cell.0, cell.1, victim);
    assert(game::shot_of(states, event.player) == (cell.0, cell.1, Some(victim)));
    assert(game::acted(states, event).dom() =~= states.dom());
}

/// A shot that meets cover before any living player hits nobody and changes nothing; its trace ends
/// at the cover.
pub proof fn law_shots_stop_at_cover(
    states: Map<Txid, PlayerState>,
    event: TimedArenaAction,
    n: int,
)
    requires
        event.action == 4,
        states.contains_key(event.player),
        states[event.player].hp > 0,
        states[event.player].facing <= 3,
        n >= 1,
        ({
            let p = states[event.player];
            let cell = ahead(p.x as int, p.y as int, p.facing, n);
            &&& game::wall(cell.0, cell.1)
            &&& forall|k: int|
                1 <= k < n ==> is_passed(
                    states,
                    event.player,
                    #[trigger] ahead(p.x as int, p.y as int, p.facing, k),
                )
        }),
    ensures
        game::acted(states, event) == states,
        game::fired(states, event) matches Some(shot) && {
            let p = states[event.player];
            &&& shot.id == event.txid.text()
            &&& shot.shooter == event.player.text()
            &&& shot.start == (p.x as int, p.y as int)
            &&& shot.end == ahead(p.x as int, p.y as int, p.facing, n)
            &&& shot.hit_player is None
        },
{
    let p = states[event.player];
    let (x, y) = (p.x as int, p.y as int);
    let step = game::delta(p.facing);
    assert forall|k: int| 0 <= k < n - 1 implies is_passed(
        states,
        event.player,
        #[trigger] ahead(x + step.0, y + step.1, p.facing, k),
    ) by {
        assert(ahead(x + step.0, y + step.1, p.facing, k) == ahead(x, y, p.facing, k + 1));
    }
    lemma_flight_passes(states, event.player, x + step.0, y + step.1, p.facing, n - 1);
    assert(ahead(x + step.0, y + step.1, p.facing, n - 1) == ahead(x, y, p.facing, n));
}

/// Reviving brings a dead player back with three points of health, facing right, on the spawn cell,
/// with the kills it had; nobody else changes. A living player is not changed by it.
pub proof fn law_reviving_restarts_the_dead(
    states: Map<Txid, PlayerState>,
    event: TimedArenaAction,
)
    requires
        event.action == 5,
        states.contains_key(event.player),
    ensures
        ({
            let p = states[event.player];
            let after = game::acted(states, event);
            &&& p.hp > 0 ==> after == states
            &&& p.hp == 0 ==> {
                &&& after[event.player].hp == 3
                &&& after[event.player].facing == 1
                &&& after[event.player].kills == p.kills
                &&& after[event.player].x as int == game::spawn_at(event.player).0
                &&& after[event.player].y as int == game::spawn_at(event.player).1
                &&& after.dom() == states.dom()
                &&& forall|id: Txid|
                    id != event.player && states.contains_key(id)
                        ==> #[trigger] after[id] == states[id]
            }
        }),
        game::fired(states, event) is None,
{
    law_spawns_are_fresh(event.player);
    assert(states[event.player].hp == 0 ==> game::acted(states, event).dom() =~= states.dom());
}

/// The dead neither move nor shoot.
pub proof fn law_the_dead_wait(states: Map<Txid, PlayerState>, event: TimedArenaAction)
    requires
        states[event.player].hp == 0,
        event.action != 5,
    ensures
        game::acted(states, event) == states,
        game::fired(states, event) is None,
{
}

/// A fresh player stands on an open cell, at least two cells from every edge, faces right, and has
/// three points of health and no kills.
pub proof fn law_spawns_are_fresh(id: Txid)
    ensures
        PlayerState::fresh(id).hp == 3,
        PlayerState::fresh(id).facing == 1,
        PlayerState::fresh(id).kills == 0,
        PlayerState::fresh(id).x as int == game::spawn_at(id).0,
        PlayerState::fresh(id).y as int == game::spawn_at(id).1,
        2 <= game::spawn_at(id).0 <= 18,
        2 <= game::spawn_at(id).1 <= 18,
        !game::wall(game::spawn_at(id).0, game::spawn_at(id).1),
{
    game::lemma_spawn_cells();
    let hash = game::base_257(id.bytes@) as int % (usize::MAX + 1);
    let n = game::spawn_cells().len() as int;
    assert(0 <= hash % n < n);
    let cell = game::spawn_cells()[hash % n];
    assert(2 <= cell.0 <= 18);
}

/// Every open cell that lies at least two cells from every edge is a spawn cell.
pub proof fn law_every_inner_open_cell_is_a_spawn_cell(x: int, y: int)
    requires
        2 <= x <= 18,
        2 <= y <= 18,
        !game::wall(x, y),
    ensures
        game::spawn_cells().contains((x, y)),
{
    let open = |c: (int, int)| !game::wall(c.0, c.1);
    let grid = game::reading_order(2, 2, 17, 17);
    let k = (y - 2) * 17 + (x - 2);
    assert(0 <= k < 289 && k % 17 == x - 2 && k / 17 == y - 2) by (nonlinear_arith)
        requires
            2 <= x <= 18,
            2 <= y <= 18,
            k == (y - 2) * 17 + (x - 2),
    ;
    assert(grid[k] == (x, y));
    grid.lemma_filter_contains(open, k);
}

/// An id is read as a number in base 257, the first byte first: a part behind another part counts
/// units, the part before it as many times 257 as the other has bytes.
pub proof fn law_ids_are_read_in_base_257(high: Seq<u8>, low: Seq<u8>)
    ensures
        game::base_257(high + low) == game::base_257(high) * vstd::arithmetic::power::pow(
            257,
            low.len(),
        ) + game::base_257(low),
        forall|byte: u8| game::base_257(#[trigger] seq![byte]) == byte,
    decreases low.len(),
{
    assert forall|byte: u8| game::base_257(#[trigger] seq![byte]) == byte by {
        assert(seq![byte].drop_last() =~= Seq::empty());
        reveal_with_fuel(game::base_257, 2);
    }
    if low.len() == 0 {
        vstd::arithmetic::power::lemma_pow0(257);
        assert(high + low =~= high);
    } else {
        let rest = low.drop_last();
        law_ids_are_read_in_base_257(high, rest);
        assert((high + low).drop_last() =~= high + rest);
        let p = vstd::arithmetic::power::pow(257, rest.len());
        assert(vstd::arithmetic::power::pow(257, low.len()) == 257 * p) by {
            reveal(vstd::arithmetic::power::pow);
        }
        let h = game::base_257(high) as int;
        let l = game::base_257(rest) as int;
        assert((h * p + l) * 257 == h * (257 * p) + l * 257) by (nonlinear_arith);
    }
}

/// Playing some actions and then others is playing all of them.
pub proof fn law_play_goes_on(
    states: Map<Txid, PlayerState>,
    first: Seq<TimedArenaAction>,
    then_on: Seq<TimedArenaAction>,
)
    ensures
        game::played(states, first + then_on) == game::played(game::played(states, first), then_on),
        game::all_shots(states, first + then_on) == game::all_shots(states, first)
            + game::all_shots(game::played(states, first), then_on),
    decreases then_on.len(),
{
    let all = first + then_on;
    if then_on.len() == 0 {
        assert(all =~= first);
        assert(game::all_shots(states, first) + Seq::<Shot>::empty() =~= game::all_shots(
            states,
            first,
        ));
    } else {
        law_play_goes_on(states, first, then_on.drop_last());
        assert(all.drop_last() =~= first + then_on.drop_last());
        let before = game::all_shots(states, first);
        let rest = game::all_shots(game::played(states, first), then_on.drop_last());
        if let Some(shot) = game::fired(
            game::played(states, all.drop_last()),
            then_on.last(),
        ) {
            assert((before + rest).push(shot) =~= before + rest.push(shot));
        }
    }
}

/// One action is played by taking it, and leaves the trace of its shot, if it is one.
pub proof fn law_single_actions_are_taken(
    states: Map<Txid, PlayerState>,
    event: TimedArenaAction,
)
    ensures
        game::played(states, seq![event]) == game::acted(states, event),
        game::all_shots(states, seq![event]) == match game::fired(states, event) {
            Some(shot) => seq![shot],
            None => Seq::<Shot>::empty(),
        },
{
    assert(seq![event].drop_last() =~= Seq::empty());
    reveal_with_fuel(game::played, 2);
    reveal_with_fuel(game::all_shots, 2);
    if let Some(shot) = game::fired(states, event) {
        assert(Seq::<Shot>::empty().push(shot) =~= seq![shot]);
    }
}

/// What is replayed are the actions of the listed players, each as often as it was given, from the
/// earliest on; those of one time in the order of their ids as text.
pub proof fn law_replays_take_the_listed_players_actions(
    players: Seq<Txid>,
    actions: Seq<TimedArenaAction>,
)
    ensures
        forall|a: TimedArenaAction| #[trigger]
            game::counted(players, actions).contains(a) <==> actions.contains(a)
                && players.contains(a.player),
        game::counted(players, actions).len() == actions.filter(
            |a: TimedArenaAction| players.contains(a.player),
        ).len(),
        forall|i: int, j: int|
            0 <= i < j < game::counted(players, actions).len() ==> {
                let a = #[trigger] game::counted(players, actions)[i];
                let b = #[trigger] game::counted(players, actions)[j];
                &&& a.created_at <= b.created_at
                &&& a.created_at == b.created_at ==> !crate::text::text_less(
                    b.txid.text(),
                    a.txid.text(),
                )
            },
{
    let wanted = |a: TimedArenaAction| players.contains(a.player);
    let kept = actions.filter(wanted);
    let all = game::counted(players, actions);
    game::law_order_keeps_actions(kept);
    game::law_order_is_ascending(kept);
    assert(all.len() == kept.len()) by {
        broadcast use vstd::seq_lib::group_to_multiset_ensures;
        assert(all.to_multiset().len() == kept.to_multiset().len());
    }
    assert forall|a: TimedArenaAction| #[trigger] all.contains(a) <==> actions.contains(a)
        && players.contains(a.player) by {
        assert(all.contains(a) <==> kept.contains(a));
        if kept.contains(a) {
            crate::seqs::lemma_filter_member(actions, wanted, a);
        }
        if actions.contains(a) && wanted(a) {
            actions.lemma_filter_contains(wanted, actions.index_of(a));
        }
    }
    assert forall|i: int, j: int| 0 <= i < j < all.len() implies {
        let a = #[trigger] all[i];
        let b = #[trigger] all[j];
        &&& a.created_at <= b.created_at
        &&& a.created_at == b.created_at ==> !crate::text::text_less(b.txid.text(), a.txid.text())
    } by {
        assert(!game::action_less(all[j], all[i]));
    }
}

/// Of the shots the last sixty-four are kept, in their order.
pub proof fn law_sixty_four_shots_are_kept(all: Seq<Shot>)
    ensures
        ({
            let kept = game::last_shots(all, game::MAX_SHOT_TRACES as nat);
            &&& kept.len() == if all.len() < 64 {
                all.len() as int
            } else {
                64
            }
            &&& forall|i: int|
                0 <= i < kept.len() ==> #[trigger] kept[i] == all[all.len() - kept.len() + i]
        }),
{
}

} // verus!
