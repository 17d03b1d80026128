//! Deterministic finite arena simulation.

use crate::chain::Txid;
use crate::seqs;
use crate::table::Table;
use crate::text;
use vstd::prelude::*;

verus! {

pub const ARENA_W: i32 = 21;

pub const ARENA_H: i32 = 21;

pub const MAX_HP: u8 = 3;

pub const MAX_SHOT_TRACES: usize = 64;

pub const ACTION_UP: u8 = 0;

pub const ACTION_RIGHT: u8 = 1;

pub const ACTION_DOWN: u8 = 2;

pub const ACTION_LEFT: u8 = 3;

pub const ACTION_SHOOT: u8 = 4;

pub const ACTION_REVIVE: u8 = 5;

pub const ACTION_COUNT: usize = 6;

pub const ACTION_NAMES: [&'static str; 6] = ["w", "d", "s", "a", "bullet", "life"];

pub const ACTION_SUPPLIES: [u64; 6] = [50, 50, 50, 50, 50, 5];

/// The four solid houses: filled squares of three cells, one near each corner.
pub open spec fn house(x: int, y: int) -> bool {
    (3 <= x < 6 || 15 <= x < 18) && (3 <= y < 6 || 15 <= y < 18)
}

/// Solid cover: the border and all beyond it, the houses, four fences with a gap in the middle,
/// and six single cells around the centre.
pub open spec fn wall(x: int, y: int) -> bool {
    ||| x <= 0
    ||| y <= 0
    ||| x >= ARENA_W - 1
    ||| y >= ARENA_H - 1
    ||| house(x, y)
    ||| y == 7 && 2 <= x <= 8 && x != 5
    ||| x == 10 && 2 <= y <= 8 && y != 5
    ||| y == 13 && 12 <= x <= 18 && x != 15
    ||| x == 10 && 12 <= y <= 18 && y != 15
    ||| y == 10 && (x == 7 || x == 8 || x == 12 || x == 13)
    ||| x == 10 && (y == 9 || y == 11)
}

/// The step that a facing stands for.
pub open spec fn delta(direction: u8) -> (int, int) {
    if direction == ACTION_UP {
        (0, -1)
    } else if direction == ACTION_RIGHT {
        (1, 0)
    } else if direction == ACTION_DOWN {
        (0, 1)
    } else if direction == ACTION_LEFT {
        (-1, 0)
    } else {
        (0, 0)
    }
}

/// The cells of a rectangle in reading order, rows from top to bottom.
pub open spec fn reading_order(left: int, top: int, width: int, height: int) -> Seq<(int, int)> {
    Seq::new((width * height) as nat, |i: int| (left + i % width, top + i / width))
}

/// The cells of the whole arena in reading order.
pub open spec fn arena_cells() -> Seq<(int, int)> {
    reading_order(0, 0, 21, 21)
}

/// The cells on which a player can spawn: those two or more cells inside the arena that are not
/// solid, in reading order.
pub open spec fn spawn_cells() -> Seq<(int, int)> {
    reading_order(2, 2, 17, 17).filter(|c: (int, int)| !wall(c.0, c.1))
}

/// A byte string read as a number in base 257, first byte most significant.
pub open spec fn base_257(bytes: Seq<u8>) -> nat
    decreases bytes.len(),
{
    if bytes.len() == 0 {
        0
    } else {
        base_257(bytes.drop_last()) * 257 + bytes.last() as nat
    }
}

/// Where a player spawns: the id, taken as a number modulo the machine's word, picks the cell.
pub open spec fn spawn_at(id: Txid) -> (int, int) {
    let hash = base_257(id.bytes@) as int % (usize::MAX + 1);
    spawn_cells()[hash % spawn_cells().len() as int]
}

pub open spec fn cell_pairs(cells: Seq<[i32; 2]>) -> Seq<(int, int)> {
    cells.map_values(|c: [i32; 2]| (c[0] as int, c[1] as int))
}

pub fn direction_delta(direction: u8) -> (step: (i32, i32))
    ensures
        (step.0 as int, step.1 as int) == delta(direction),
{
    match direction {
        0 => (0, -1),
        1 => (1, 0),
        2 => (0, 1),
        3 => (-1, 0),
        _ => (0, 0),
    }
}

pub fn is_house(x: i32, y: i32) -> (result: bool)
    ensures
        result == house(x as int, y as int),
{
    (x >= 3 && x < 6 || x >= 15 && x < 18) && (y >= 3 && y < 6 || y >= 15 && y < 18)
}

pub fn is_wall(x: i32, y: i32) -> (result: bool)
    ensures
        result == wall(x as int, y as int),
{
    if x <= 0 || y <= 0 || x >= ARENA_W - 1 || y >= ARENA_H - 1 {
        return true;
    }
    is_house(x, y) || (y == 7 && x >= 2 && x <= 8 && x != 5) || (x == 10 && y >= 2 && y <= 8 && y
        != 5) || (y == 13 && x >= 12 && x <= 18 && x != 15) || (x == 10 && y >= 12 && y <= 18 && y
        != 15) || (y == 10 && (x == 7 || x == 8 || x == 12 || x == 13)) || (x == 10 && (y == 9 || y
        == 11))
}

/// Every solid cell of the arena, in reading order.
pub fn walls() -> (cells: Vec<[i32; 2]>)
    ensures
        cell_pairs(cells@) == arena_cells().filter(|c: (int, int)| wall(c.0, c.1)),
{
    cells_matching(is_wall, Ghost(|c: (int, int)| wall(c.0, c.1)))
}

/// Every house cell of the arena, in reading order.
pub fn houses() -> (cells: Vec<[i32; 2]>)
    ensures
        cell_pairs(cells@) == arena_cells().filter(|c: (int, int)| house(c.0, c.1)),
{
    cells_matching(is_house, Ghost(|c: (int, int)| house(c.0, c.1)))
}

fn cells_matching(
    predicate: impl Fn(i32, i32) -> bool,
    Ghost(wanted): Ghost<spec_fn((int, int)) -> bool>,
) -> (cells: Vec<[i32; 2]>)
    requires
        forall|x: i32, y: i32| call_requires(predicate, (x, y)),
        forall|x: i32, y: i32, r: bool|
            call_ensures(predicate, (x, y), r) ==> r == wanted((x as int, y as int)),
    ensures
        cell_pairs(cells@) == arena_cells().filter(wanted),
{
    let mut cells: Vec<[i32; 2]> = Vec::new();
    let ghost grid = arena_cells();
    proof {
        seqs::lemma_filter_none(grid, wanted);
        assert(cell_pairs(cells@) =~= grid.take(0).filter(wanted));
    }
    let mut i: i32 = 0;
    while i < 441
        invariant
            0 <= i <= 441,
            grid == arena_cells(),
            cell_pairs(cells@) == grid.take(i as int).filter(wanted),
            forall|x: i32, y: i32| call_requires(predicate, (x, y)),
            forall|x: i32, y: i32, r: bool|
                call_ensures(predicate, (x, y), r) ==> r == wanted((x as int, y as int)),
        decreases 441 - i,
    {
        let x: i32 = i % ARENA_W;
        let y: i32 = i / ARENA_W;
        proof {
            assert(grid[i as int] == (x as int, y as int));
            seqs::lemma_filter_next(grid, i as int, wanted);
        }
        let ghost was = cells@;
        if predicate(x, y) {
            cells.push([x, y]);
            assert(cell_pairs(cells@) =~= cell_pairs(was).push((x as int, y as int)));
        }
        i += 1;
    }
    assert(grid.take(441) =~= grid);
    cells
}

/// There is room to spawn, and every spawn cell lies inside the arena and is not solid.
pub proof fn lemma_spawn_cells()
    ensures
        spawn_cells().len() > 0,
        forall|i: int|
            0 <= i < spawn_cells().len() ==> {
                let c = #[trigger] spawn_cells()[i];
                2 <= c.0 <= 18 && 2 <= c.1 <= 18 && !wall(c.0, c.1)
            },
{
    let open = |c: (int, int)| !wall(c.0, c.1);
    let grid = reading_order(2, 2, 17, 17);
    broadcast use vstd::seq_lib::group_filter_ensures;
    assert(grid[0] == (2int, 2int));
    assert(open(grid[0]));
    assert(grid.filter(open).contains(grid[0]));
    assert forall|i: int| 0 <= i < spawn_cells().len() implies {
        let c = #[trigger] spawn_cells()[i];
        2 <= c.0 <= 18 && 2 <= c.1 <= 18 && !wall(c.0, c.1)
    } by {
        let c = spawn_cells()[i];
        assert(open(grid.filter(open)[i]));
        grid.lemma_filter_contains_rev(open, c);
        let k = grid.index_of(c);
        assert(grid[k] == c);
    }
}

pub fn spawn_cell(id: Txid) -> (cell: (i32, i32))
    ensures
        (cell.0 as int, cell.1 as int) == spawn_at(id),
{
    let ghost open = |c: (int, int)| !wall(c.0, c.1);
    let ghost grid = reading_order(2, 2, 17, 17);
    let mut cells: Vec<(i32, i32)> = Vec::new();
    proof {
        seqs::lemma_filter_none(grid, open);
    }
    let mut i: i32 = 0;
    while i < 289
        invariant
            0 <= i <= 289,
            grid == reading_order(2, 2, 17, 17),
            open == (|c: (int, int)| !wall(c.0, c.1)),
            cells@.len() == grid.take(i as int).filter(open).len(),
            forall|k: int|
                0 <= k < cells@.len() ==> (cells@[k].0 as int, cells@[k].1 as int)
                    == #[trigger] grid.take(i as int).filter(open)[k],
        decreases 289 - i,
    {
        let x: i32 = 2 + i % 17;
        let y: i32 = 2 + i / 17;
        proof {
            assert(grid[i as int] == (x as int, y as int));
            seqs::lemma_filter_next(grid, i as int, open);
        }
        if !is_wall(x, y) {
            cells.push((x, y));
        }
        i += 1;
    }
    proof {
        assert(grid.take(289) =~= grid);
        lemma_spawn_cells();
    }
    let bytes: [u8; 32] = id.to_byte_array();
    let mut hash: usize = 0;
    let mut n: usize = 0;
    proof {
        assert(bytes@.take(0) =~= Seq::<u8>::empty());
        vstd::arithmetic::div_mod::lemma_small_mod(0, (usize::MAX + 1) as nat);
    }
    while n < 32
        invariant
            n <= 32,
            hash as int == base_257(bytes@.take(n as int)) as int % (usize::MAX + 1),
        decreases 32 - n,
    {
        proof {
            let m: int = usize::MAX + 1;
            let prefix = bytes@.take(n as int);
            let next = bytes@.take(n + 1);
            assert(next.drop_last() =~= prefix);
            assert(next.last() == bytes[n as int]);
            let v = base_257(prefix) as int;
            vstd::arithmetic::div_mod::lemma_mul_mod_noop_left(v, 257, m);
            vstd::arithmetic::div_mod::lemma_add_mod_noop(v * 257, bytes[n as int] as int, m);
            assert((hash as int * 257) % m == (v * 257) % m);
            vstd::arithmetic::div_mod::lemma_small_mod(bytes[n as int] as nat, m as nat);
            let p = (hash as int * 257) % m;
            let s = p + bytes[n as int];
            if s > usize::MAX {
                vstd::arithmetic::div_mod::lemma_mod_sub_multiples_vanish(s, m);
                vstd::arithmetic::div_mod::lemma_small_mod((s - m) as nat, m as nat);
            } else {
                vstd::arithmetic::div_mod::lemma_small_mod(s as nat, m as nat);
            }
        }
        hash = hash.wrapping_mul(257).wrapping_add(bytes[n] as usize);
        n += 1;
    }
    assert(bytes@.take(32) =~= id.bytes@);
    cells[hash % cells.len()]
}

#[derive(Clone, Copy, Debug, PartialEq, Eq, Structural)]
pub struct PlayerState {
    pub x: i32,
    pub y: i32,
    pub facing: u8,
    pub hp: u8,
    pub kills: u32,
}

impl View for PlayerState {
    type V = PlayerState;

    open spec fn view(&self) -> PlayerState {
        *self
    }
}

impl PlayerState {
    /// A fresh player: on its spawn cell, facing right, at full health, without kills.
    pub open spec fn fresh(id: Txid) -> PlayerState {
        PlayerState {
            x: spawn_at(id).0 as i32,
            y: spawn_at(id).1 as i32,
            facing: ACTION_RIGHT,
            hp: MAX_HP,
            kills: 0,
        }
    }

    pub fn spawn(id: Txid) -> (state: PlayerState)
        ensures
            state == PlayerState::fresh(id),
    {
        let (x, y): (i32, i32) = spawn_cell(id);
        PlayerState { x, y, facing: ACTION_RIGHT, hp: MAX_HP, kills: 0 }
    }
}

#[derive(Clone, Copy, Debug)]
pub struct TimedArenaAction {
    pub txid: Txid,
    pub player: Txid,
    pub action: u8,
    pub created_at: i64,
}

/// The path of one shot.
#[derive(Debug)]
pub struct ShotTrace {
    pub id: String,
    pub shooter: String,
    pub start: [i32; 2],
    pub end: [i32; 2],
    pub hit_player: Option<String>,
}

impl Clone for ShotTrace {
    fn clone(&self) -> (copy: ShotTrace)
        ensures
            copy@ == self@,
    {
        ShotTrace {
            id: self.id.clone(),
            shooter: self.shooter.clone(),
            start: self.start,
            end: self.end,
            hit_player: match &self.hit_player {
                Some(text) => Some(text.clone()),
                None => None,
            },
        }
    }
}

/// What a `ShotTrace` says.
#[verifier::ext_equal]
pub struct Shot {
    pub id: Seq<char>,
    pub shooter: Seq<char>,
    pub start: (int, int),
    pub end: (int, int),
    pub hit_player: Option<Seq<char>>,
}

impl View for ShotTrace {
    type V = Shot;

    open spec fn view(&self) -> Shot {
        Shot {
            id: self.id@,
            shooter: self.shooter@,
            start: (self.start[0] as int, self.start[1] as int),
            end: (self.end[0] as int, self.end[1] as int),
            hit_player: match self.hit_player {
                Some(text) => Some(text@),
                None => None,
            },
        }
    }
}

pub open spec fn shots(traces: Seq<ShotTrace>) -> Seq<Shot> {
    traces.map_values(|t: ShotTrace| t@)
}

/// Whether a shot of `shooter` that reaches the cell can hit `id` there.
pub open spec fn exposed(
    states: Map<Txid, PlayerState>,
    shooter: Txid,
    x: int,
    y: int,
    id: Txid,
) -> bool {
    states.contains_key(id) && id != shooter && states[id].hp > 0 && states[id].x == x
        && states[id].y == y
}

/// Of the players exposed on the cell, the one whose id text sorts first.
pub open spec fn is_target(
    states: Map<Txid, PlayerState>,
    shooter: Txid,
    x: int,
    y: int,
    id: Txid,
) -> bool {
    exposed(states, shooter, x, y, id) && forall|other: Txid| #[trigger]
        exposed(states, shooter, x, y, other) ==> !text::text_less(other.text(), id.text())
}

pub open spec fn target_at(
    states: Map<Txid, PlayerState>,
    shooter: Txid,
    x: int,
    y: int,
) -> Option<Txid> {
    if exists|id: Txid| is_target(states, shooter, x, y, id) {
        Some(choose|id: Txid| is_target(states, shooter, x, y, id))
    } else {
        None
    }
}

/// A step to one of the four neighbouring cells.
pub open spec fn unit_step(step: (int, int)) -> bool {
    ||| step.0 == 0 && (step.1 == 1 || step.1 == -1)
    ||| step.1 == 0 && (step.0 == 1 || step.0 == -1)
}

/// Steps that can be taken from an open cell before the border is reached.
pub open spec fn steps_left(x: int, y: int, step: (int, int)) -> int {
    if step.0 > 0 {
        ARENA_W - x
    } else if step.0 < 0 {
        x
    } else if step.1 > 0 {
        ARENA_H - y
    } else {
        y
    }
}

/// Where a shot that has reached the cell ends, and whom it hits: it flies on until it meets
/// cover or a player.
pub open spec fn flight(
    states: Map<Txid, PlayerState>,
    shooter: Txid,
    x: int,
    y: int,
    step: (int, int),
) -> (int, int, Option<Txid>)
    decreases steps_left(x, y, step),
{
    if wall(x, y) {
        (x, y, None)
    } else if target_at(states, shooter, x, y) is Some {
        (x, y, target_at(states, shooter, x, y))
    } else if !unit_step(step) {
        (x, y, None)
    } else {
        flight(states, shooter, x + step.0, y + step.1, step)
    }
}

/// Where the shot of a player ends, and whom it hits.
pub open spec fn shot_of(states: Map<Txid, PlayerState>, shooter: Txid) -> (int, int, Option<Txid>) {
    let p = states[shooter];
    let step = delta(p.facing);
    flight(states, shooter, p.x + step.0, p.y + step.1, step)
}

/// The player after turning to a direction and stepping there if the way is open.
pub open spec fn moved(p: PlayerState, direction: u8) -> PlayerState {
    let x = p.x + delta(direction).0;
    let y = p.y + delta(direction).1;
    if wall(x, y) {
        PlayerState { facing: direction, ..p }
    } else {
        PlayerState { facing: direction, x: x as i32, y: y as i32, ..p }
    }
}

/// The players after `victim` was hit: one health point less, and a kill for the shooter if it
/// was the last.
pub open spec fn wounded(
    states: Map<Txid, PlayerState>,
    shooter: Txid,
    victim: Txid,
) -> Map<Txid, PlayerState> {
    let v = states[victim];
    let p = states[shooter];
    let hit = states.insert(victim, PlayerState { hp: (v.hp - 1) as u8, ..v });
    if v.hp == 1 {
        hit.insert(
            shooter,
            PlayerState { kills: if p.kills < u32::MAX { (p.kills + 1) as u32 } else { p.kills }, ..p },
        )
    } else {
        hit
    }
}

/// The players after one action.
pub open spec fn acted(
    states: Map<Txid, PlayerState>,
    event: TimedArenaAction,
) -> Map<Txid, PlayerState> {
    let p = states[event.player];
    if event.action <= ACTION_LEFT && p.hp > 0 {
        states.insert(event.player, moved(p, event.action))
    } else if event.action == ACTION_SHOOT && p.hp > 0 {
        match shot_of(states, event.player).2 {
            Some(victim) => wounded(states, event.player, victim),
            None => states,
        }
    } else if event.action == ACTION_REVIVE && p.hp == 0 {
        states.insert(
            event.player,
            PlayerState { kills: p.kills, ..PlayerState::fresh(event.player) },
        )
    } else {
        states
    }
}

/// The trace that one action leaves.
pub open spec fn fired(states: Map<Txid, PlayerState>, event: TimedArenaAction) -> Option<Shot> {
    let p = states[event.player];
    if event.action == ACTION_SHOOT && p.hp > 0 {
        let (x, y, hit) = shot_of(states, event.player);
        Some(
            Shot {
                id: event.txid.text(),
                shooter: event.player.text(),
                start: (p.x as int, p.y as int),
                end: (x, y),
                hit_player: match hit {
                    Some(id) => Some(id.text()),
                    None => None,
                },
            },
        )
    } else {
        None
    }
}

pub open spec fn with_shot(traces: Seq<Shot>, shot: Option<Shot>) -> Seq<Shot> {
    match shot {
        Some(shot) => traces.push(shot),
        None => traces,
    }
}

/// The actions on which the simulation is defined: the player is known, its next cell has
/// coordinates, and a shot comes to an end.
pub open spec fn applicable(states: Map<Txid, PlayerState>, event: TimedArenaAction) -> bool {
    let p = states[event.player];
    let direction = if event.action <= ACTION_LEFT { event.action } else { p.facing };
    let x = p.x + delta(direction).0;
    let y = p.y + delta(direction).1;
    &&& event.action <= ACTION_REVIVE ==> states.contains_key(event.player)
    &&& event.action <= ACTION_SHOOT && p.hp > 0 ==> i32::MIN <= x <= i32::MAX && i32::MIN <= y
        <= i32::MAX
    &&& event.action == ACTION_SHOOT && p.hp > 0 ==> p.facing <= ACTION_LEFT || wall(x, y)
        || target_at(states, event.player, x, y) is Some
}

pub proof fn lemma_target_unique(
    states: Map<Txid, PlayerState>,
    shooter: Txid,
    x: int,
    y: int,
    id: Txid,
)
    requires
        is_target(states, shooter, x, y, id),
    ensures
        target_at(states, shooter, x, y) == Some(id),
{
    let chosen = choose|id: Txid| is_target(states, shooter, x, y, id);
    text::lemma_text_less_total(chosen.text(), id.text());
    if chosen != id {
        if chosen.text() == id.text() {
            crate::chain::law_txid_text_injective(chosen, id);
        }
        assert(exposed(states, shooter, x, y, chosen));
        assert(exposed(states, shooter, x, y, id));
    }
}

fn find_target(states: &Table<Txid, PlayerState>, shooter: Txid, x: i32, y: i32) -> (target: Option<
    Txid,
>)
    ensures
        target == target_at(states@, shooter, x as int, y as int),
{
    let mut best: Option<Txid> = None;
    let n: usize = states.len();
    let mut i: usize = 0;
    while i < n
        invariant
            i <= n == states.keys().len(),
            forall|k: Txid| states.keys().contains(k) <==> #[trigger] states@.contains_key(k),
            match best {
                Some(id) => exposed(states@, shooter, x as int, y as int, id) && forall|j: int|
                    0 <= j < i && exposed(
                        states@,
                        shooter,
                        x as int,
                        y as int,
                        #[trigger] states.keys()[j],
                    ) ==> !text::text_less(states.keys()[j].text(), id.text()),
                None => forall|j: int|
                    0 <= j < i ==> !exposed(
                        states@,
                        shooter,
                        x as int,
                        y as int,
                        #[trigger] states.keys()[j],
                    ),
            },
        decreases n - i,
    {
        let id: Txid = states.key_at(i);
        let player: PlayerState = *states.value_at(i);
        if id != shooter && player.hp > 0 && player.x == x && player.y == y {
            let ghost was = best;
            best = match best {
                Some(known) => if id.shows_before(&known) {
                    Some(id)
                } else {
                    Some(known)
                },
                None => Some(id),
            };
            proof {
                let now = best.unwrap();
                text::lemma_text_less_total(id.text(), id.text());
                if was is Some && now == id {
                    let known = was.unwrap();
                    assert forall|j: int|
                        0 <= j < i && exposed(
                            states@,
                            shooter,
                            x as int,
                            y as int,
                            #[trigger] states.keys()[j],
                        ) implies !text::text_less(states.keys()[j].text(), id.text()) by {
                        let other = states.keys()[j];
                        if text::text_less(other.text(), id.text()) && known != id {
                            text::lemma_text_less_transitive(
                                other.text(),
                                id.text(),
                                known.text(),
                            );
                        }
                    }
                }
            }
        }
        i += 1;
    }
    proof {
        match best {
            Some(id) => {
                assert forall|other: Txid| #[trigger]
                    exposed(states@, shooter, x as int, y as int, other) implies !text::text_less(
                    other.text(),
                    id.text(),
                ) by {
                    let j = states.keys().index_of(other);
                    assert(states.keys()[j] == other);
                }
                lemma_target_unique(states@, shooter, x as int, y as int, id);
            },
            None => {
                assert forall|other: Txid| !is_target(
                    states@,
                    shooter,
                    x as int,
                    y as int,
                    other,
                ) by {
                    if exposed(states@, shooter, x as int, y as int, other) {
                        let j = states.keys().index_of(other);
                        assert(states.keys()[j] == other);
                    }
                }
            },
        }
    }
    best
}

/// Applies one action to the players.
pub fn apply_action(
    states: &mut Table<Txid, PlayerState>,
    event: TimedArenaAction,
    traces: &mut Vec<ShotTrace>,
)
    requires
        applicable(old(states)@, event),
    ensures
        final(states)@ == acted(old(states)@, event),
        shots(final(traces)@) == with_shot(shots(old(traces)@), fired(old(states)@, event)),
{
    let ghost before = states@;
    if event.action > ACTION_REVIVE {
        return ;
    }
    let player: PlayerState = match states.get(event.player) {
        Some(player) => *player,
        None => {
            return ;
        },
    };
    if event.action <= ACTION_LEFT {
        if player.hp == 0 {
            return ;
        }
        let (dx, dy): (i32, i32) = direction_delta(event.action);
        let x: i32 = player.x + dx;
        let y: i32 = player.y + dy;
        let mut next: PlayerState = player;
        next.facing = event.action;
        if !is_wall(x, y) {
            next.x = x;
            next.y = y;
        }
        let _ = states.insert(event.player, next);
    } else if event.action == ACTION_SHOOT {
        if player.hp == 0 {
            return ;
        }
        let (dx, dy): (i32, i32) = direction_delta(player.facing);
        let ghost step = delta(player.facing);
        let mut x: i32 = player.x + dx;
        let mut y: i32 = player.y + dy;
        let mut target: Option<Txid> = None;
        while !is_wall(x, y)
            invariant_except_break
                target is None,
                states@ == before,
                step == (dx as int, dy as int),
                unit_step(step) || wall(x as int, y as int) || target_at(
                    before,
                    event.player,
                    x as int,
                    y as int,
                ) is Some,
                shot_of(before, event.player) == flight(
                    before,
                    event.player,
                    x as int,
                    y as int,
                    step,
                ),
            ensures
                states@ == before,
                shot_of(before, event.player) == (x as int, y as int, target),
            decreases steps_left(x as int, y as int, step),
        {
            target = find_target(states, event.player, x, y);
            if target.is_some() {
                break;
            }
            x += dx;
            y += dy;
        }
        if let Some(victim) = target {
            proof {
                lemma_flight_hits(
                    before,
                    event.player,
                    player.x + step.0,
                    player.y + step.1,
                    step,
                );
            }
            let mut hit: PlayerState = match states.get(victim) {
                Some(hit) => *hit,
                None => player,
            };
            let hp: u8 = hit.hp;
            hit.hp = hp - 1;
            let _ = states.insert(victim, hit);
            if hp == 1 {
                let mut scorer: PlayerState = player;
                scorer.kills = player.kills.saturating_add(1);
                let _ = states.insert(event.player, scorer);
            }
        }
        let trace: ShotTrace = ShotTrace {
            id: event.txid.to_string(),
            shooter: event.player.to_string(),
            start: [player.x, player.y],
            end: [x, y],
            hit_player: match target {
                Some(id) => Some(id.to_string()),
                None => None,
            },
        };
        proof {
            assert(Some(trace@) == fired(before, event));
            assert(shots(traces@.push(trace)) =~= shots(traces@).push(trace@));
        }
        traces.push(trace);
    } else if player.hp == 0 {
        let mut revived: PlayerState = PlayerState::spawn(event.player);
        revived.kills = player.kills;
        let _ = states.insert(event.player, revived);
    }
}

/// Whoever a shot hits was exposed on the cell where it ends.
proof fn lemma_flight_hits(
    states: Map<Txid, PlayerState>,
    shooter: Txid,
    x: int,
    y: int,
    step: (int, int),
)
    ensures
        ({
            let (ex, ey, hit) = flight(states, shooter, x, y, step);
            hit matches Some(id) ==> is_target(states, shooter, ex, ey, id)
        }),
    decreases steps_left(x, y, step),
{
    if wall(x, y) {
    } else if target_at(states, shooter, x, y) is Some {
    } else if unit_step(step) {
        lemma_flight_hits(states, shooter, x + step.0, y + step.1, step);
    }
}

/// Global action order: earlier timestamp first, then lower transaction id text.
pub open spec fn action_less(a: TimedArenaAction, b: TimedArenaAction) -> bool {
    a.created_at < b.created_at || a.created_at == b.created_at && text::text_less(
        a.txid.text(),
        b.txid.text(),
    )
}

/// A sorted sequence with one action more, placed behind those it does not precede.
pub open spec fn insert_action(sorted: Seq<TimedArenaAction>, event: TimedArenaAction) -> Seq<
    TimedArenaAction,
>
    decreases sorted.len(),
{
    if sorted.len() > 0 && action_less(event, sorted.last()) {
        insert_action(sorted.drop_last(), event).push(sorted.last())
    } else {
        sorted.push(event)
    }
}

/// Actions in global order; those with equal timestamp and id stay as given.
pub open spec fn in_order(actions: Seq<TimedArenaAction>) -> Seq<TimedArenaAction>
    decreases actions.len(),
{
    if actions.len() == 0 {
        actions
    } else {
        insert_action(in_order(actions.drop_last()), actions.last())
    }
}

/// The players after actions that are taken one after the other.
pub open spec fn played(
    states: Map<Txid, PlayerState>,
    actions: Seq<TimedArenaAction>,
) -> Map<Txid, PlayerState>
    decreases actions.len(),
{
    if actions.len() == 0 {
        states
    } else {
        acted(played(states, actions.drop_last()), actions.last())
    }
}

/// Every shot of actions that are taken one after the other.
pub open spec fn all_shots(
    states: Map<Txid, PlayerState>,
    actions: Seq<TimedArenaAction>,
) -> Seq<Shot>
    decreases actions.len(),
{
    if actions.len() == 0 {
        Seq::empty()
    } else {
        with_shot(
            all_shots(states, actions.drop_last()),
            fired(played(states, actions.drop_last()), actions.last()),
        )
    }
}

/// The last `n` elements, or all where there are fewer.
pub open spec fn last_shots(all: Seq<Shot>, n: nat) -> Seq<Shot> {
    if all.len() <= n {
        all
    } else {
        all.skip(all.len() - n)
    }
}

/// Every listed player, freshly spawned.
pub open spec fn spawned(players: Seq<Txid>) -> Map<Txid, PlayerState> {
    Map::new(|id: Txid| players.contains(id), |id: Txid| PlayerState::fresh(id))
}

/// The actions that count: those of listed players, in global order.
pub open spec fn counted(players: Seq<Txid>, actions: Seq<TimedArenaAction>) -> Seq<
    TimedArenaAction,
> {
    in_order(actions.filter(|a: TimedArenaAction| players.contains(a.player)))
}

/// A player that the simulation can reach: on an open cell of the arena, facing one of the four
/// directions, with at most full health.
pub open spec fn sound(p: PlayerState) -> bool {
    !wall(p.x as int, p.y as int) && p.facing <= ACTION_LEFT && p.hp <= MAX_HP
}

pub open spec fn all_sound(states: Map<Txid, PlayerState>) -> bool {
    forall|id: Txid| states.contains_key(id) ==> sound(#[trigger] states[id])
}

/// The arena after a replay.
pub struct ArenaReplay {
    pub players: Table<Txid, PlayerState>,
    pub shot_traces: Vec<ShotTrace>,
}

/// Moving, shooting and reviving keep every player sound, and no player is added or lost.
pub proof fn law_action_keeps_players_sound(
    states: Map<Txid, PlayerState>,
    event: TimedArenaAction,
)
    requires
        all_sound(states),
        states.contains_key(event.player),
    ensures
        all_sound(acted(states, event)),
        acted(states, event).dom() == states.dom(),
        applicable(states, event),
{
    let p = states[event.player];
    assert(sound(states[event.player]));
    let now = acted(states, event);
    lemma_fresh_sound(event.player);
    if event.action == ACTION_SHOOT && p.hp > 0 {
        let step = delta(p.facing);
        lemma_flight_hits(states, event.player, p.x + step.0, p.y + step.1, step);
        if let Some(victim) = shot_of(states, event.player).2 {
            assert(sound(states[victim]));
        }
    }
    assert forall|id: Txid| now.contains_key(id) implies sound(#[trigger] now[id]) by {
        if states.contains_key(id) {
            assert(sound(states[id]));
        }
    }
    assert(now.dom() =~= states.dom());
}

proof fn lemma_fresh_sound(id: Txid)
    ensures
        sound(PlayerState::fresh(id)),
{
    lemma_spawn_cells();
    let hash = base_257(id.bytes@) as int % (usize::MAX + 1);
    let n = spawn_cells().len() as int;
    assert(0 <= hash % n < n);
    assert(!wall(spawn_cells()[hash % n].0, spawn_cells()[hash % n].1));
}

/// A spawned player stands on an open cell of the arena, faces right, has full health and no
/// kills.
pub proof fn law_spawn_is_open(id: Txid)
    ensures
        !wall(PlayerState::fresh(id).x as int, PlayerState::fresh(id).y as int),
        PlayerState::fresh(id).facing == ACTION_RIGHT,
        PlayerState::fresh(id).hp == MAX_HP,
        PlayerState::fresh(id).kills == 0,
{
    lemma_fresh_sound(id);
}

fn action_precedes(a: &TimedArenaAction, b: &TimedArenaAction) -> (result: bool)
    ensures
        result == action_less(*a, *b),
{
    a.created_at < b.created_at || a.created_at == b.created_at && a.txid.shows_before(&b.txid)
}

proof fn lemma_insert_action_split(
    sorted: Seq<TimedArenaAction>,
    event: TimedArenaAction,
    n: int,
)
    requires
        0 <= n <= sorted.len(),
        forall|k: int| n <= k < sorted.len() ==> action_less(event, #[trigger] sorted[k]),
    ensures
        insert_action(sorted, event) == insert_action(sorted.take(n), event) + sorted.skip(n),
    decreases sorted.len() - n,
{
    if n == sorted.len() {
        assert(sorted.take(n) =~= sorted);
        assert(insert_action(sorted, event) + sorted.skip(n) =~= insert_action(sorted, event));
    } else {
        let shorter = sorted.drop_last();
        assert(action_less(event, sorted[sorted.len() - 1]));
        assert forall|k: int| n <= k < shorter.len() implies action_less(
            event,
            #[trigger] shorter[k],
        ) by {
            assert(shorter[k] == sorted[k]);
        }
        lemma_insert_action_split(shorter, event, n);
        assert(shorter.take(n) =~= sorted.take(n));
        assert(shorter.skip(n).push(sorted.last()) =~= sorted.skip(n));
        assert(insert_action(sorted, event) =~= insert_action(sorted.take(n), event)
            + sorted.skip(n));
    }
}

fn insert_in_order(sorted: &mut Vec<TimedArenaAction>, event: TimedArenaAction)
    ensures
        final(sorted)@ == insert_action(old(sorted)@, event),
{
    let mut i: usize = sorted.len();
    while i > 0 && action_precedes(&event, &sorted[i - 1])
        invariant
            i <= sorted@.len(),
            sorted@ == old(sorted)@,
            forall|k: int| i <= k < sorted@.len() ==> action_less(event, #[trigger] sorted@[k]),
        decreases i,
    {
        i -= 1;
    }
    proof {
        lemma_insert_action_split(sorted@, event, i as int);
        let head = sorted@.take(i as int);
        if i > 0 {
            assert(head.last() == sorted@[i - 1]);
        }
        assert(sorted@.insert(i as int, event) =~= head.push(event) + sorted@.skip(i as int));
    }
    sorted.insert(i, event);
}

/// Replays the actions of the listed players from fresh spawns, in global order. Actions of
/// anyone else are ignored. Of the shots, the last are kept.
pub fn replay(players: &[Txid], actions: &[TimedArenaAction]) -> (result: ArenaReplay)
    ensures
        result.players@ == played(spawned(players@), counted(players@, actions@)),
        shots(result.shot_traces@) == last_shots(
            all_shots(spawned(players@), counted(players@, actions@)),
            MAX_SHOT_TRACES as nat,
        ),
        forall|id: Txid| #[trigger] result.players@.contains_key(id) <==> players@.contains(id),
        all_sound(result.players@),
{
    let mut states: Table<Txid, PlayerState> = Table::new();
    let mut i: usize = 0;
    proof {
        assert(states@ =~= spawned(players@.take(0)));
    }
    while i < players.len()
        invariant
            i <= players@.len(),
            states@ == spawned(players@.take(i as int)),
        decreases players@.len() - i,
    {
        let id: Txid = players[i];
        let _ = states.insert(id, PlayerState::spawn(id));
        proof {
            let was = players@.take(i as int);
            let now = players@.take(i + 1);
            assert(now =~= was.push(id));
            assert(now[i as int] == id);
            assert forall|k: Txid| #[trigger] now.contains(k) <==> was.contains(k) || k == id by {
                if was.contains(k) {
                    let j = was.index_of(k);
                    assert(now[j] == k);
                }
                if now.contains(k) && k != id {
                    let j = now.index_of(k);
                    assert(was[j] == k);
                }
            }
            assert(states@ =~= spawned(now));
        }
        i += 1;
    }
    assert(players@.take(players@.len() as int) =~= players@);
    let ghost start = states@;
    let ghost wanted = |a: TimedArenaAction| players@.contains(a.player);
    let mut ordered: Vec<TimedArenaAction> = Vec::new();
    let mut j: usize = 0;
    proof {
        seqs::lemma_filter_none(actions@, wanted);
        assert(in_order(Seq::<TimedArenaAction>::empty()) =~= ordered@);
    }
    while j < actions.len()
        invariant
            j <= actions@.len(),
            wanted == (|a: TimedArenaAction| players@.contains(a.player)),
            states@ == spawned(players@),
            ordered@ == in_order(actions@.take(j as int).filter(wanted)),
        decreases actions@.len() - j,
    {
        let event: TimedArenaAction = actions[j];
        proof {
            seqs::lemma_filter_next(actions@, j as int, wanted);
            let was = actions@.take(j as int).filter(wanted);
            assert(was.push(event).drop_last() =~= was);
        }
        if states.contains_key(event.player) {
            insert_in_order(&mut ordered, event);
        }
        j += 1;
    }
    proof {
        assert(actions@.take(actions@.len() as int) =~= actions@);
        assert forall|id: Txid| start.contains_key(id) implies sound(#[trigger] start[id]) by {
            lemma_fresh_sound(id);
        }
        let filtered = actions@.filter(wanted);
        assert forall|a: TimedArenaAction| #[trigger] filtered.contains(a) implies players@.contains(
            a.player,
        ) by {
            broadcast use vstd::seq_lib::group_filter_ensures;
            let k = filtered.index_of(a);
            assert(wanted(filtered[k]));
        }
        law_order_keeps_actions(filtered);
        assert forall|k: int| 0 <= k < ordered@.len() implies start.contains_key(
            #[trigger] ordered@[k].player,
        ) by {
            assert(filtered.contains(in_order(filtered)[k]));
        }
    }
    let mut shot_traces: Vec<ShotTrace> = Vec::new();
    let mut n: usize = 0;
    proof {
        assert(ordered@.take(0) =~= Seq::<TimedArenaAction>::empty());
        assert(shots(shot_traces@) =~= Seq::<Shot>::empty());
    }
    while n < ordered.len()
        invariant
            n <= ordered@.len(),
            start.dom() == states@.dom(),
            all_sound(states@),
            states@ == played(start, ordered@.take(n as int)),
            shots(shot_traces@) == last_shots(all_shots(start, ordered@.take(n as int)), 64),
            forall|k: int| 0 <= k < ordered@.len() ==> start.contains_key(#[trigger] ordered@[k].player),
        decreases ordered@.len() - n,
    {
        let ghost was = states@;
        let ghost kept = shots(shot_traces@);
        let event: TimedArenaAction = ordered[n];
        proof {
            assert(start.dom().contains(ordered@[n as int].player));
            law_action_keeps_players_sound(states@, event);
            assert(ordered@.take(n + 1).drop_last() =~= ordered@.take(n as int));
        }
        apply_action(&mut states, event, &mut shot_traces);
        let ghost longer = shots(shot_traces@);
        if shot_traces.len() > MAX_SHOT_TRACES {
            let ghost traces = shot_traces@;
            let _ = shot_traces.remove(0);
            assert(shots(shot_traces@) =~= shots(traces).skip(1));
        }
        proof {
            let all = all_shots(start, ordered@.take(n as int));
            let grown = all_shots(start, ordered@.take(n + 1));
            assert(grown == with_shot(all, fired(was, event)));
            assert(longer == with_shot(kept, fired(was, event)));
            assert(longer.len() == shot_traces@.len() || longer.len() == 65);
            assert(shots(shot_traces@) =~= last_shots(grown, 64));
        }
        n += 1;
    }
    assert(ordered@.take(ordered@.len() as int) =~= ordered@);
    ArenaReplay { players: states, shot_traces }
}

/// Ordering actions neither adds nor drops any: the ordered sequence is a permutation.
pub proof fn law_order_keeps_actions(actions: Seq<TimedArenaAction>)
    ensures
        in_order(actions).to_multiset() == actions.to_multiset(),
        forall|a: TimedArenaAction| in_order(actions).contains(a) <==> #[trigger] actions.contains(a),
        forall|k: int|
            0 <= k < in_order(actions).len() ==> #[trigger] actions.contains(in_order(actions)[k]),
    decreases actions.len(),
{
    broadcast use vstd::seq_lib::group_to_multiset_ensures;
    if actions.len() > 0 {
        law_order_keeps_actions(actions.drop_last());
        lemma_insert_multiset(in_order(actions.drop_last()), actions.last());
        assert(actions.drop_last().push(actions.last()) =~= actions);
    }
    assert forall|a: TimedArenaAction| in_order(actions).contains(a) <==> #[trigger] actions.contains(
        a,
    ) by {
        assert(in_order(actions).contains(a) <==> in_order(actions).to_multiset().count(a) > 0);
        assert(actions.contains(a) <==> actions.to_multiset().count(a) > 0);
    }
    assert forall|k: int| 0 <= k < in_order(actions).len() implies #[trigger] actions.contains(
        in_order(actions)[k],
    ) by {
        assert(in_order(actions).contains(in_order(actions)[k]));
    }
}

proof fn lemma_insert_multiset(sorted: Seq<TimedArenaAction>, event: TimedArenaAction)
    ensures
        insert_action(sorted, event).to_multiset() == sorted.to_multiset().insert(event),
    decreases sorted.len(),
{
    broadcast use vstd::seq_lib::group_to_multiset_ensures;
    if sorted.len() > 0 && action_less(event, sorted.last()) {
        lemma_insert_multiset(sorted.drop_last(), event);
        assert(sorted.drop_last().push(sorted.last()) =~= sorted);
        assert(insert_action(sorted, event).to_multiset() =~= sorted.to_multiset().insert(event));
    }
}

proof fn lemma_order_is_weak(a: TimedArenaAction, b: TimedArenaAction, c: TimedArenaAction)
    ensures
        action_less(a, b) ==> !action_less(b, a),
        !action_less(b, a) && !action_less(c, b) ==> !action_less(c, a),
{
    text::lemma_text_less_total(a.txid.text(), b.txid.text());
    text::lemma_text_less_total(b.txid.text(), c.txid.text());
    if text::text_less(c.txid.text(), a.txid.text()) {
        if text::text_less(a.txid.text(), b.txid.text()) {
            text::lemma_text_less_transitive(c.txid.text(), a.txid.text(), b.txid.text());
        }
    }
}

/// No action lies before one that stands earlier in the sequence.
pub open spec fn is_ordered(actions: Seq<TimedArenaAction>) -> bool {
    forall|i: int, j: int|
        0 <= i < j < actions.len() ==> !action_less(#[trigger] actions[j], #[trigger] actions[i])
}

/// Ordered actions never step back in time, nor in the id text at the same time.
pub proof fn law_order_is_ascending(actions: Seq<TimedArenaAction>)
    ensures
        is_ordered(in_order(actions)),
    decreases actions.len(),
{
    if actions.len() > 0 {
        law_order_is_ascending(actions.drop_last());
        lemma_insert_keeps_order(in_order(actions.drop_last()), actions.last());
    }
}

proof fn lemma_insert_keeps_order(sorted: Seq<TimedArenaAction>, event: TimedArenaAction)
    requires
        is_ordered(sorted),
    ensures
        is_ordered(insert_action(sorted, event)),
        insert_action(sorted, event).len() == sorted.len() + 1,
        forall|k: int|
            0 <= k <= sorted.len() ==> {
                let a = #[trigger] insert_action(sorted, event)[k];
                a == event || sorted.contains(a)
            },
    decreases sorted.len(),
{
    let now = insert_action(sorted, event);
    if sorted.len() > 0 && action_less(event, sorted.last()) {
        let rest = sorted.drop_last();
        lemma_insert_keeps_order(rest, event);
        let inner = insert_action(rest, event);
        assert forall|k: int| 0 <= k <= sorted.len() implies {
            let a = #[trigger] now[k];
            a == event || sorted.contains(a)
        } by {
            if k < sorted.len() {
                assert(now[k] == inner[k]);
                if inner[k] != event {
                    let m = rest.index_of(inner[k]);
                    assert(sorted[m] == inner[k]);
                }
            } else {
                assert(now[k] == sorted[sorted.len() - 1]);
            }
        }
        assert forall|i: int, j: int| 0 <= i < j < now.len() implies !action_less(
            #[trigger] now[j],
            #[trigger] now[i],
        ) by {
            if j < sorted.len() {
                assert(now[i] == inner[i] && now[j] == inner[j]);
            } else {
                assert(now[i] == inner[i]);
                if inner[i] == event {
                    lemma_order_is_weak(event, sorted.last(), event);
                } else {
                    let m = rest.index_of(inner[i]);
                    assert(sorted[m] == inner[i]);
                }
            }
        }
    } else {
        assert forall|i: int, j: int| 0 <= i < j < now.len() implies !action_less(
            #[trigger] now[j],
            #[trigger] now[i],
        ) by {
            if j == sorted.len() {
                if i < sorted.len() - 1 {
                    lemma_order_is_weak(sorted[i], sorted.last(), event);
                }
            }
        }
        assert forall|k: int| 0 <= k <= sorted.len() implies {
            let a = #[trigger] now[k];
            a == event || sorted.contains(a)
        } by {
            if k < sorted.len() {
                assert(now[k] == sorted[k]);
            }
        }
    }
}

/// No two actions share both timestamp and transaction id.
pub open spec fn distinct_times(actions: Seq<TimedArenaAction>) -> bool {
    forall|a: TimedArenaAction, b: TimedArenaAction|
        #![trigger actions.contains(a), actions.contains(b)]
        actions.contains(a) && actions.contains(b) && a != b ==> action_less(a, b) || action_less(b, a)
}

proof fn lemma_same_order(a: Seq<TimedArenaAction>, b: Seq<TimedArenaAction>)
    requires
        is_ordered(a),
        is_ordered(b),
        distinct_times(a),
        a.to_multiset() == b.to_multiset(),
    ensures
        a == b,
    decreases a.len(),
{
    broadcast use vstd::seq_lib::group_to_multiset_ensures;
    assert(a.to_multiset().len() == a.len());
    assert(b.to_multiset().len() == b.len());
    if a.len() == 0 {
        assert(a =~= b);
    } else {
        let x = a.last();
        let y = b.last();
        assert(a[a.len() - 1] == x);
        assert(b[b.len() - 1] == y);
        assert(a.contains(x) && b.contains(y));
        assert(b.to_multiset().count(x) > 0 && a.to_multiset().count(y) > 0);
        assert(b.contains(x) && a.contains(y));
        let i = b.index_of(x);
        let j = a.index_of(y);
        if x != y {
            assert(!action_less(b[b.len() - 1], b[i]));
            assert(!action_less(a[a.len() - 1], a[j]));
        }
        assert(a.drop_last().push(x) =~= a);
        assert(b.drop_last().push(x) =~= b);
        assert(a.drop_last().to_multiset() =~= a.to_multiset().remove(x));
        assert(b.drop_last().to_multiset() =~= b.to_multiset().remove(x));
        assert forall|p: TimedArenaAction, q: TimedArenaAction|
            #![trigger a.drop_last().contains(p), a.drop_last().contains(q)]
            a.drop_last().contains(p) && a.drop_last().contains(q) && p != q implies action_less(
            p,
            q,
        ) || action_less(q, p) by {
            let m = a.drop_last().index_of(p);
            let n = a.drop_last().index_of(q);
            assert(a[m] == p && a[n] == q);
            assert(a.contains(p) && a.contains(q));
        }
        lemma_same_order(a.drop_last(), b.drop_last());
    }
}

proof fn lemma_filter_count(
    s: Seq<TimedArenaAction>,
    pred: spec_fn(TimedArenaAction) -> bool,
    x: TimedArenaAction,
)
    ensures
        s.filter(pred).to_multiset().count(x) == if pred(x) {
            s.to_multiset().count(x)
        } else {
            0
        },
    decreases s.len(),
{
    broadcast use vstd::seq_lib::group_to_multiset_ensures;
    reveal(Seq::filter);
    if s.len() > 0 {
        lemma_filter_count(s.drop_last(), pred, x);
        assert(s.drop_last().push(s.last()) =~= s);
    }
}

/// The result of a replay depends neither on the order in which the actions are given nor on how
/// the players are listed, as long as no two actions share both timestamp and transaction id.
pub proof fn law_replay_ignores_arrival_order(
    players: Seq<Txid>,
    listed: Seq<Txid>,
    actions: Seq<TimedArenaAction>,
    arrived: Seq<TimedArenaAction>,
)
    requires
        forall|id: Txid| players.contains(id) <==> #[trigger] listed.contains(id),
        actions.to_multiset() == arrived.to_multiset(),
        distinct_times(actions),
    ensures
        counted(players, actions) == counted(listed, arrived),
        spawned(players) == spawned(listed),
{
    broadcast use vstd::seq_lib::group_to_multiset_ensures;
    let p = |a: TimedArenaAction| players.contains(a.player);
    let q = |a: TimedArenaAction| listed.contains(a.player);
    let kept = actions.filter(p);
    let other = arrived.filter(q);
    assert forall|x: TimedArenaAction| kept.to_multiset().count(x) == other.to_multiset().count(
        x,
    ) by {
        lemma_filter_count(actions, p, x);
        lemma_filter_count(arrived, q, x);
        assert(p(x) == q(x));
    }
    assert(kept.to_multiset() =~= other.to_multiset());
    law_order_keeps_actions(kept);
    law_order_keeps_actions(other);
    law_order_is_ascending(kept);
    law_order_is_ascending(other);
    assert(distinct_times(in_order(kept))) by {
        assert forall|a: TimedArenaAction, b: TimedArenaAction|
            #![trigger in_order(kept).contains(a), in_order(kept).contains(b)]
            in_order(kept).contains(a) && in_order(kept).contains(b) && a
                != b implies action_less(a, b) || action_less(b, a) by {
            assert(kept.contains(a) && kept.contains(b));
            actions.lemma_filter_contains_rev(p, a);
            actions.lemma_filter_contains_rev(p, b);
        }
    }
    lemma_same_order(in_order(kept), in_order(other));
    assert(spawned(players) =~= spawned(listed));
}

/// A player without health neither moves, turns nor shoots.
pub proof fn law_dead_players_rest(states: Map<Txid, PlayerState>, event: TimedArenaAction)
    requires
        states[event.player].hp == 0,
        event.action != ACTION_REVIVE,
    ensures
        acted(states, event) == states,
        fired(states, event) is None,
{
}

/// Reviving puts a dead player back on its spawn cell at full health and keeps its kills; it does
/// nothing for a living one.
pub proof fn law_revive_keeps_kills(states: Map<Txid, PlayerState>, event: TimedArenaAction)
    requires
        states.contains_key(event.player),
        event.action == ACTION_REVIVE,
    ensures
        acted(states, event)[event.player].kills == states[event.player].kills,
        states[event.player].hp == 0 ==> {
            let p = acted(states, event)[event.player];
            p.hp == MAX_HP && p.facing == ACTION_RIGHT && (p.x as int, p.y as int) == spawn_at(
                event.player,
            )
        },
        states[event.player].hp > 0 ==> acted(states, event) == states,
{
    lemma_fresh_sound(event.player);
    lemma_spawn_cells();
    let hash = base_257(event.player.bytes@) as int % (usize::MAX + 1);
    let n = spawn_cells().len() as int;
    assert(0 <= hash % n < n);
    assert(2 <= spawn_cells()[hash % n].0 <= 18);
}

/// A shot moves no one; it takes health from at most one player, one point, and never from the
/// shooter.
pub proof fn law_shot_wounds_at_most_one(
    states: Map<Txid, PlayerState>,
    event: TimedArenaAction,
    a: Txid,
    b: Txid,
)
    requires
        event.action == ACTION_SHOOT,
        states.contains_key(event.player),
        states.contains_key(a),
        states.contains_key(b),
    ensures
        acted(states, event)[a].x == states[a].x && acted(states, event)[a].y == states[a].y,
        acted(states, event)[a].hp == states[a].hp || acted(states, event)[a].hp == states[a].hp
            - 1,
        acted(states, event)[event.player].hp == states[event.player].hp,
        acted(states, event)[a].hp != states[a].hp && acted(states, event)[b].hp != states[b].hp
            ==> a == b,
{
    let p = states[event.player];
    let step = delta(p.facing);
    lemma_flight_hits(states, event.player, p.x + step.0, p.y + step.1, step);
}

/// The border of the arena and every house cell are solid.
pub proof fn law_houses_and_border_are_walls(x: int, y: int)
    ensures
        house(x, y) ==> wall(x, y),
        x <= 0 || y <= 0 || x >= ARENA_W - 1 || y >= ARENA_H - 1 ==> wall(x, y),
{
}

/// The cell that lies `n` steps away.
pub open spec fn cell_on_ray(x: int, y: int, step: (int, int), n: int) -> (int, int) {
    (x + n * step.0, y + n * step.1)
}

/// Whether a shot flies over the cell: it is open, and nobody there can be hit.
pub open spec fn is_clear(
    states: Map<Txid, PlayerState>,
    shooter: Txid,
    cell: (int, int),
) -> bool {
    !wall(cell.0, cell.1) && forall|id: Txid| !#[trigger]
        exposed(states, shooter, cell.0, cell.1, id)
}

/// Whether a shot that has reached the cell ends `n` steps later: all cells before are clear.
pub open spec fn ends_after(
    states: Map<Txid, PlayerState>,
    shooter: Txid,
    x: int,
    y: int,
    step: (int, int),
    n: int,
) -> bool {
    let (ex, ey, _) = flight(states, shooter, x, y, step);
    &&& 0 <= n
    &&& (ex, ey) == cell_on_ray(x, y, step, n)
    &&& forall|k: int|
        0 <= k < n ==> is_clear(states, shooter, #[trigger] cell_on_ray(x, y, step, k))
}

/// Whether the shot of a player ends after it has left `n` clear cells behind.
pub open spec fn shot_ends_after(
    states: Map<Txid, PlayerState>,
    shooter: Txid,
    n: int,
) -> bool {
    let p = states[shooter];
    let step = delta(p.facing);
    ends_after(states, shooter, p.x + step.0, p.y + step.1, step, n)
}

proof fn lemma_lowest(ids: Set<Txid>) -> (low: Txid)
    requires
        ids.finite(),
        ids.len() > 0,
    ensures
        ids.contains(low),
        forall|other: Txid| #[trigger]
            ids.contains(other) ==> !text::text_less(other.text(), low.text()),
    decreases ids.len(),
{
    let some = ids.choose();
    let rest = ids.remove(some);
    text::lemma_text_less_total(some.text(), some.text());
    if rest.len() == 0 {
        assert forall|other: Txid| #[trigger] ids.contains(other) implies !text::text_less(
            other.text(),
            some.text(),
        ) by {
            if other != some {
                assert(rest.contains(other));
            }
        }
        some
    } else {
        let low = lemma_lowest(rest);
        text::lemma_text_less_total(some.text(), low.text());
        let lowest = if text::text_less(some.text(), low.text()) {
            some
        } else {
            low
        };
        assert forall|other: Txid| #[trigger] ids.contains(other) implies !text::text_less(
            other.text(),
            lowest.text(),
        ) by {
            if other != some {
                assert(rest.contains(other));
                if text::text_less(other.text(), some.text()) && text::text_less(
                    some.text(),
                    low.text(),
                ) {
                    text::lemma_text_less_transitive(other.text(), some.text(), low.text());
                }
            }
        }
        lowest
    }
}

proof fn lemma_target_exists(
    states: Map<Txid, PlayerState>,
    shooter: Txid,
    x: int,
    y: int,
    id: Txid,
)
    requires
        states.dom().finite(),
        exposed(states, shooter, x, y, id),
    ensures
        target_at(states, shooter, x, y) is Some,
{
    let ids = states.dom().filter(|id: Txid| exposed(states, shooter, x, y, id));
    assert(ids.contains(id));
    let low = lemma_lowest(ids);
    assert forall|other: Txid| #[trigger] exposed(states, shooter, x, y, other) implies
        !text::text_less(other.text(), low.text()) by {
        assert(ids.contains(other));
    }
    assert(is_target(states, shooter, x, y, low));
}

proof fn lemma_flight_path(
    states: Map<Txid, PlayerState>,
    shooter: Txid,
    x: int,
    y: int,
    step: (int, int),
) -> (n: int)
    requires
        states.dom().finite(),
        unit_step(step),
    ensures
        ends_after(states, shooter, x, y, step, n),
        flight(states, shooter, x, y, step).2 is None ==> wall(
            flight(states, shooter, x, y, step).0,
            flight(states, shooter, x, y, step).1,
        ),
        flight(states, shooter, x, y, step).2 is Some ==> !wall(
            flight(states, shooter, x, y, step).0,
            flight(states, shooter, x, y, step).1,
        ),
    decreases steps_left(x, y, step),
{
    assert(cell_on_ray(x, y, step, 0) == (x, y));
    if wall(x, y) || target_at(states, shooter, x, y) is Some {
        0
    } else {
        let m = lemma_flight_path(states, shooter, x + step.0, y + step.1, step);
        assert forall|id: Txid| !#[trigger] exposed(states, shooter, x, y, id) by {
            if exposed(states, shooter, x, y, id) {
                lemma_target_exists(states, shooter, x, y, id);
            }
        }
        assert forall|k: int| #[trigger]
            cell_on_ray(x, y, step, k) == cell_on_ray(x + step.0, y + step.1, step, k - 1) by {
            assert(k * step.0 == step.0 + (k - 1) * step.0) by (nonlinear_arith);
            assert(k * step.1 == step.1 + (k - 1) * step.1) by (nonlinear_arith);
        }
        assert forall|k: int| 0 <= k < m + 1 implies is_clear(
            states,
            shooter,
            #[trigger] cell_on_ray(x, y, step, k),
        ) by {
            if k > 0 {
                assert(is_clear(
                    states,
                    shooter,
                    cell_on_ray(x + step.0, y + step.1, step, k - 1),
                ));
            }
        }
        assert(cell_on_ray(x, y, step, m + 1) == cell_on_ray(x + step.0, y + step.1, step, m));
        m + 1
    }
}

/// A shot flies straight ahead over clear cells. It hits the nearest living player, of several on
/// one cell the one with the lowest id; a miss ends on the first cover.
pub proof fn law_shots_hit_the_nearest(states: Map<Txid, PlayerState>, shooter: Txid)
    requires
        states.dom().finite(),
        sound(states[shooter]),
    ensures
        ({
            let (x, y, hit) = shot_of(states, shooter);
            &&& exists|n: int| shot_ends_after(states, shooter, n)
            &&& match hit {
                Some(id) => !wall(x, y) && is_target(states, shooter, x, y, id),
                None => wall(x, y),
            }
        }),
{
    let p = states[shooter];
    let step = delta(p.facing);
    let n = lemma_flight_path(states, shooter, p.x + step.0, p.y + step.1, step);
    assert(shot_ends_after(states, shooter, n));
    lemma_flight_hits(states, shooter, p.x + step.0, p.y + step.1, step);
}

/// A hit takes one point of health. It counts as a kill for the shooter exactly where it took the
/// last one.
pub proof fn law_last_point_counts_as_a_kill(
    states: Map<Txid, PlayerState>,
    event: TimedArenaAction,
    victim: Txid,
)
    requires
        event.action == ACTION_SHOOT,
        states[event.player].hp > 0,
        states[event.player].kills < u32::MAX,
        shot_of(states, event.player).2 == Some(victim),
    ensures
        acted(states, event)[victim].hp == states[victim].hp - 1,
        acted(states, event)[event.player].kills == states[event.player].kills + if acted(
            states,
            event,
        )[victim].hp == 0 {
            1int
        } else {
            0
        },
{
    let p = states[event.player];
    let step = delta(p.facing);
    lemma_flight_hits(states, event.player, p.x + step.0, p.y + step.1, step);
}

/// A living player who moves faces that way even if the way is blocked, and is then one step
/// further exactly if the way is open. Nobody else is changed.
pub proof fn law_movement_turns_and_steps(
    states: Map<Txid, PlayerState>,
    event: TimedArenaAction,
    other: Txid,
)
    requires
        event.action <= ACTION_LEFT,
        applicable(states, event),
        states[event.player].hp > 0,
        other != event.player,
    ensures
        ({
            let p = states[event.player];
            let q = acted(states, event)[event.player];
            let (x, y) = (p.x + delta(event.action).0, p.y + delta(event.action).1);
            &&& q.facing == event.action
            &&& (q.x as int, q.y as int) == if wall(x, y) {
                (p.x as int, p.y as int)
            } else {
                (x, y)
            }
            &&& q.hp == p.hp
            &&& q.kills == p.kills
        }),
        acted(states, event)[other] == states[other],
        fired(states, event) is None,
{
}

/// Of the shots of a replay the latest are kept, at most as many as fit.
pub proof fn law_latest_shots_are_kept(all: Seq<Shot>, n: nat)
    ensures
        last_shots(all, n).len() <= n,
        last_shots(all, n).is_suffix_of(all),
        all.len() <= n ==> last_shots(all, n) == all,
{
}

} // verus!
