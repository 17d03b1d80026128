use arkade_city::chain::Txid;
use arkade_city::game::{
    apply_action, direction_delta, houses, is_house, is_wall, replay, spawn_cell, walls,
    PlayerState, ShotTrace, TimedArenaAction, ACTION_DOWN, ACTION_LEFT, ACTION_NAMES,
    ACTION_REVIVE, ACTION_RIGHT, ACTION_SHOOT, ACTION_SUPPLIES, ACTION_UP, MAX_HP,
    MAX_SHOT_TRACES,
};
use arkade_city::table::Table;

fn id(byte: u8) -> Txid {
    Txid::from_byte_array([byte; 32])
}

fn state(x: i32, y: i32, facing: u8) -> PlayerState {
    PlayerState {
        x,
        y,
        facing,
        hp: MAX_HP,
        kills: 0,
    }
}

fn action(tx: u8, player: u8, kind: u8, created_at: i64) -> TimedArenaAction {
    TimedArenaAction {
        txid: id(tx),
        player: id(player),
        action: kind,
        created_at,
    }
}

fn table(entries: &[(Txid, PlayerState)]) -> Table<Txid, PlayerState> {
    let mut states = Table::new();
    for (id, state) in entries {
        states.insert(*id, *state);
    }
    states
}

fn of(states: &Table<Txid, PlayerState>, id: Txid) -> PlayerState {
    *states.get(id).unwrap()
}

#[test]
fn deterministic_spawn_is_open_and_initially_faces_right() {
    assert_eq!(PlayerState::spawn(id(4)), PlayerState::spawn(id(4)));
    let player = PlayerState::spawn(id(4));
    assert!(!is_wall(player.x, player.y));
    assert_eq!(player.facing, ACTION_RIGHT);
    assert_eq!(player.hp, MAX_HP);
}

#[test]
fn replays_every_action_in_global_timestamp_and_txid_order() {
    let player = id(9);
    let spawn = spawn_cell(player);
    let result = replay(
        &[player],
        &[
            action(3, 9, ACTION_DOWN, 15),
            action(2, 9, ACTION_LEFT, 10),
            action(1, 9, ACTION_UP, 10),
        ],
    );
    assert_eq!(of(&result.players, player).facing, ACTION_DOWN);
    assert_eq!(
        (of(&result.players, player).x, of(&result.players, player).y),
        [ACTION_UP, ACTION_LEFT, ACTION_DOWN]
            .into_iter()
            .fold(spawn, |position, action| {
                let delta = direction_delta(action);
                let next = (position.0 + delta.0, position.1 + delta.1);
                if is_wall(next.0, next.1) {
                    position
                } else {
                    next
                }
            })
    );
}

#[test]
fn actions_are_sequential_and_shots_use_current_state() {
    let mover = id(1);
    let shooter = id(2);
    let mut states = table(&[
        (mover, state(3, 2, ACTION_UP)),
        (shooter, state(2, 2, ACTION_RIGHT)),
    ]);
    let mut traces = Vec::new();
    apply_action(&mut states, action(2, 2, ACTION_SHOOT, 1), &mut traces);
    apply_action(&mut states, action(1, 1, ACTION_UP, 1), &mut traces);
    assert_eq!(of(&states, mover).hp, MAX_HP - 1);

    let mut states = table(&[
        (mover, state(3, 2, ACTION_UP)),
        (shooter, state(2, 2, ACTION_RIGHT)),
    ]);
    apply_action(&mut states, action(1, 1, ACTION_UP, 1), &mut traces);
    apply_action(&mut states, action(2, 2, ACTION_SHOOT, 1), &mut traces);
    assert_eq!(of(&states, mover).hp, MAX_HP);
}

#[test]
fn shot_then_revive_preserves_kills() {
    let shooter = id(1);
    let victim = id(2);
    let mut target = state(3, 2, ACTION_LEFT);
    target.hp = 1;
    target.kills = 4;
    let mut states = table(&[(shooter, state(2, 2, ACTION_RIGHT)), (victim, target)]);
    let mut traces = Vec::new();
    apply_action(&mut states, action(1, 1, ACTION_SHOOT, 1), &mut traces);
    apply_action(&mut states, action(2, 2, ACTION_REVIVE, 1), &mut traces);
    assert_eq!(of(&states, shooter).kills, 1);
    assert_eq!(of(&states, victim).hp, MAX_HP);
    assert_eq!(of(&states, victim).facing, ACTION_RIGHT);
    assert_eq!(of(&states, victim).kills, 4);
    assert_eq!(
        (of(&states, victim).x, of(&states, victim).y),
        spawn_cell(victim)
    );
}

#[test]
fn miss_trace_ends_on_cover() {
    let shooter = id(1);
    let mut states = table(&[(shooter, state(2, 3, ACTION_RIGHT))]);
    let shot = action(7, 1, ACTION_SHOOT, 1);
    let mut traces: Vec<ShotTrace> = Vec::new();
    apply_action(&mut states, shot, &mut traces);
    assert_eq!(traces[0].id, shot.txid.to_string());
    assert_eq!(traces[0].start, [2, 3]);
    assert_eq!(traces[0].end, [3, 3]);
    assert_eq!(traces[0].hit_player, None);
}

#[test]
fn spawn_hash_picks_known_cells() {
    // Every byte is zero, so the hash is zero and the first open cell is taken.
    assert_eq!(spawn_cell(id(0)), (2, 2));
    // The hash of this id is one, and the cell right of the first is open too.
    let mut bytes = [0u8; 32];
    bytes[31] = 1;
    assert_eq!(spawn_cell(Txid::from_byte_array(bytes)), (3, 2));
    // 257 of the open cells are counted off; both neighbours differ.
    bytes[30] = 1;
    bytes[31] = 0;
    assert!(spawn_cell(Txid::from_byte_array(bytes)) != (2, 2));
}

#[test]
fn houses_are_solid_and_listed_in_reading_order() {
    let houses = houses();
    let walls = walls();
    assert_eq!(houses.len(), 36);
    assert_eq!(houses[0], [3, 3]);
    assert_eq!(houses[35], [17, 17]);
    for cell in &houses {
        assert!(is_house(cell[0], cell[1]));
        assert!(walls.contains(cell));
    }
    assert_eq!(walls[0], [0, 0]);
    assert_eq!(walls[21], [0, 1]);
    assert!(is_wall(-5, 3) && is_wall(3, 400) && is_wall(10, 9) && is_wall(7, 10));
    assert!(!is_wall(5, 7) && !is_wall(10, 5) && !is_wall(10, 10));
}

#[test]
fn arrival_order_does_not_matter() {
    let players = [id(1), id(2)];
    let actions = [
        action(1, 1, ACTION_DOWN, 4),
        action(2, 2, ACTION_UP, 3),
        action(3, 1, ACTION_SHOOT, 3),
        action(4, 2, ACTION_SHOOT, 9),
        action(5, 7, ACTION_SHOOT, 9),
    ];
    let mut reversed = actions;
    reversed.reverse();
    let a = replay(&players, &actions);
    let b = replay(&[id(2), id(1), id(2)], &reversed);
    for player in players {
        assert_eq!(of(&a.players, player), of(&b.players, player));
    }
    assert_eq!(a.players.len(), 2);
    assert_eq!(a.shot_traces.len(), 2);
    assert_eq!(a.shot_traces[0].id, id(3).to_string());
    assert_eq!(b.shot_traces[1].id, id(4).to_string());
}

#[test]
fn dead_players_rest() {
    let mut dead = state(2, 2, ACTION_RIGHT);
    dead.hp = 0;
    let mut states = table(&[(id(1), dead)]);
    let mut traces = Vec::new();
    apply_action(&mut states, action(1, 1, ACTION_DOWN, 1), &mut traces);
    apply_action(&mut states, action(2, 1, ACTION_SHOOT, 1), &mut traces);
    assert_eq!(of(&states, id(1)), dead);
    assert!(traces.is_empty());
}

#[test]
fn a_shot_hits_the_first_player_and_the_lowest_id_text() {
    let mut states = table(&[
        (id(1), state(2, 2, ACTION_RIGHT)),
        (id(2), state(5, 2, ACTION_UP)),
        (id(3), state(5, 2, ACTION_UP)),
        (id(4), state(7, 2, ACTION_UP)),
    ]);
    let mut traces = Vec::new();
    apply_action(&mut states, action(9, 1, ACTION_SHOOT, 1), &mut traces);
    assert_eq!(of(&states, id(2)).hp, MAX_HP - 1);
    assert_eq!(of(&states, id(3)).hp, MAX_HP);
    assert_eq!(of(&states, id(4)).hp, MAX_HP);
    assert_eq!(traces[0].end, [5, 2]);
    assert_eq!(traces[0].hit_player, Some(id(2).to_string()));
    let copy = traces[0].clone();
    assert_eq!(copy.shooter, id(1).to_string());
}

#[test]
fn only_the_last_shots_are_kept() {
    let mut actions = Vec::new();
    for n in 0..80u8 {
        actions.push(action(n, 1, ACTION_SHOOT, n as i64));
    }
    let result = replay(&[id(1)], &actions);
    assert_eq!(result.shot_traces.len(), MAX_SHOT_TRACES);
    assert_eq!(result.shot_traces[0].id, id(16).to_string());
    assert_eq!(result.shot_traces[63].id, id(79).to_string());
}

#[test]
fn action_tables_agree() {
    assert_eq!(ACTION_NAMES, ["w", "d", "s", "a", "bullet", "life"]);
    assert_eq!(ACTION_SUPPLIES, [50, 50, 50, 50, 50, 5]);
}

#[test]
fn tables_hold_one_value_per_key_in_key_order() {
    let mut entries: Table<Txid, Vec<u8>> = Table::new();
    assert!(entries.insert(id(3), vec![3]));
    assert!(entries.insert(id(1), vec![1]));
    assert!(!entries.insert(id(3), vec![4]));
    assert_eq!(entries.len(), 2);
    assert!(entries.key_at(0) == id(1));
    assert_eq!(entries.value_at(1), &vec![4]);
    assert!(entries.get(id(2)).is_none());
    assert!(entries.contains_key(id(1)));
}

#[test]
fn blocked_players_turn_without_moving() {
    let mut states = table(&[(id(1), state(1, 1, ACTION_RIGHT)), (id(2), state(3, 1, ACTION_UP))]);
    let mut traces: Vec<ShotTrace> = Vec::new();
    apply_action(&mut states, action(10, 1, ACTION_UP, 1), &mut traces);
    assert_eq!(of(&states, id(1)), state(1, 1, ACTION_UP));
    apply_action(&mut states, action(11, 1, ACTION_DOWN, 2), &mut traces);
    assert_eq!(of(&states, id(1)), state(1, 2, ACTION_DOWN));
    assert_eq!(of(&states, id(2)), state(3, 1, ACTION_UP));
    assert!(traces.is_empty());
}

#[test]
fn kills_are_counted_with_the_last_point() {
    let mut states = table(&[(id(1), state(1, 1, ACTION_RIGHT)), (id(2), state(4, 1, ACTION_UP))]);
    let mut traces: Vec<ShotTrace> = Vec::new();
    for shot in 1..=MAX_HP {
        apply_action(&mut states, action(shot, 1, ACTION_SHOOT, 1), &mut traces);
        assert_eq!(of(&states, id(2)).hp, MAX_HP - shot);
        assert_eq!(of(&states, id(1)).kills, u32::from(shot == MAX_HP));
    }
    assert_eq!(traces[0].end, [4, 1]);
    assert_eq!(traces[0].hit_player, Some(id(2).to_string()));
}
