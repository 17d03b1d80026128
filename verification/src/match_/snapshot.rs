//! What the player is shown.

use super::{App, GameApp, Phase, MIN_INPUT_LIFETIME_SECS};
use crate::actions;
use crate::actions::ActionEvent;
use crate::arkade;
use crate::arkade::{Record, VtxoRecord};
use crate::chain::Txid;
use crate::game;
use crate::game::{ArenaReplay, PlayerState, Shot, ShotTrace, TimedArenaAction};
use crate::pending;
use crate::pending::{PendingAction, Purpose};
use crate::seqs;
use crate::table;
use crate::table::Table;
use crate::text;
use vstd::prelude::*;

verus! {

#[derive(Debug)]
pub struct PlayerSnapshot {
    pub id: String,
    pub x: i32,
    pub y: i32,
    pub facing: u8,
    pub hp: u8,
    pub kills: u32,
    pub is_me: bool,
}

/// What a `PlayerSnapshot` shows.
#[verifier::ext_equal]
pub struct PlayerShown {
    pub id: Seq<char>,
    pub state: PlayerState,
    pub is_me: bool,
}

impl View for PlayerSnapshot {
    type V = PlayerShown;

    open spec fn view(&self) -> PlayerShown {
        PlayerShown {
            id: self.id@,
            state: PlayerState {
                x: self.x,
                y: self.y,
                facing: self.facing,
                hp: self.hp,
                kills: self.kills,
            },
            is_me: self.is_me,
        }
    }
}

#[derive(Debug)]
pub struct WalletAssetSnapshot {
    pub asset_id: String,
    pub amount: u64,
}

#[derive(Debug)]
pub struct WalletVtxoSnapshot {
    pub outpoint: String,
    pub amount: u64,
    pub status: String,
    pub assets: Vec<WalletAssetSnapshot>,
    pub expires_at: Option<i64>,
    pub spent_by: Option<String>,
}

/// What a `WalletVtxoSnapshot` shows.
#[verifier::ext_equal]
pub struct OutputShown {
    pub outpoint: Seq<char>,
    pub amount: u64,
    pub status: Seq<char>,
    pub assets: Seq<(Seq<char>, u64)>,
    pub expires_at: Option<i64>,
    pub spent_by: Option<Seq<char>>,
}

pub open spec fn assets_shown(assets: Seq<WalletAssetSnapshot>) -> Seq<(Seq<char>, u64)> {
    assets.map_values(|a: WalletAssetSnapshot| (a.asset_id@, a.amount))
}

impl View for WalletVtxoSnapshot {
    type V = OutputShown;

    open spec fn view(&self) -> OutputShown {
        OutputShown {
            outpoint: self.outpoint@,
            amount: self.amount,
            status: self.status@,
            assets: assets_shown(self.assets@),
            expires_at: self.expires_at,
            spent_by: text::opt_text(self.spent_by),
        }
    }
}

#[derive(Debug)]
pub struct Snapshot {
    pub version: String,
    pub server: String,
    pub operator_version: String,
    pub signer: String,
    pub network: String,
    pub phase: String,
    pub address: String,
    pub game_address: String,
    pub player_id: Option<String>,
    pub balance: u64,
    pub known_balance: u64,
    pub required_funding: u64,
    pub funding_ready: bool,
    pub registration_cost: u64,
    pub reusable_carrier: u64,
    pub mint_pack_funding: u64,
    pub move_balances: [u64; 6],
    pub sending: bool,
    pub pending: bool,
    pub pending_txid: Option<String>,
    pub wallet_action: String,
    pub wallet_vtxos: Vec<WalletVtxoSnapshot>,
    pub queued: u32,
    pub players: Vec<PlayerSnapshot>,
    pub max_hp: u8,
    pub arena_width: i32,
    pub arena_height: i32,
    pub walls: Vec<[i32; 2]>,
    pub houses: Vec<[i32; 2]>,
    pub can_act: bool,
    pub can_mint_pack: bool,
    pub projected_action: Option<u8>,
    pub shot_traces: Vec<ShotTrace>,
    pub events: u32,
    pub wallet_sync_ms: u64,
    pub last_sync_ms: u64,
    pub last_error: Option<String>,
    pub log: Vec<String>,
}

/// The name of a phase.
pub open spec fn phase_name(phase: Phase) -> Seq<char> {
    match phase {
        Phase::FundWallet => "fund-wallet"@,
        Phase::Issuing => "issuing"@,
        Phase::Syncing => "syncing"@,
        Phase::Playing => "playing"@,
        Phase::OutOfMoves => "out-of-moves"@,
    }
}

pub fn name_of_phase(phase: Phase) -> (name: &'static str)
    ensures
        name@ == phase_name(phase),
{
    match phase {
        Phase::FundWallet => "fund-wallet",
        Phase::Issuing => "issuing",
        Phase::Syncing => "syncing",
        Phase::Playing => "playing",
        Phase::OutOfMoves => "out-of-moves",
    }
}

/// Whether an output has expired by some time, in seconds.
pub open spec fn expired_by(record: Record, time: int) -> bool {
    match record.expires_at {
        Some(expires_at) => expires_at <= time,
        None => false,
    }
}

/// What can be done with an output of the wallet. One that is below dust or expired can only be
/// recovered.
pub open spec fn output_status(record: Record, dust: u64, now_ms: u64) -> Seq<char> {
    if record.is_unrolled {
        "unrolled"@
    } else if record.is_swept {
        "swept"@
    } else if record.is_spent {
        "spent"@
    } else if record.amount_sats < dust || expired_by(record, (now_ms / 1_000) as int) {
        "recoverable"@
    } else if expired_by(record, super::lifetime_end(now_ms)) {
        "expiring"@
    } else if record.is_preconfirmed {
        "preconfirmed"@
    } else {
        "confirmed"@
    }
}

fn expires_by(record: &VtxoRecord, time: i64) -> (expired: bool)
    ensures
        expired == expired_by(record@, time as int),
{
    match record.expires_at {
        Some(expires_at) => expires_at <= time,
        None => false,
    }
}

pub fn status_of_output(record: &VtxoRecord, dust: u64, now_ms: u64) -> (status: &'static str)
    ensures
        status@ == output_status(record@, dust, now_ms),
{
    let now: i64 = (now_ms / 1_000) as i64;
    if record.is_unrolled {
        "unrolled"
    } else if record.is_swept {
        "swept"
    } else if record.is_spent {
        "spent"
    } else if record.amount_sats < dust || expires_by(record, now) {
        "recoverable"
    } else if expires_by(record, now + MIN_INPUT_LIFETIME_SECS) {
        "expiring"
    } else if record.is_preconfirmed {
        "preconfirmed"
    } else {
        "confirmed"
    }
}

/// An output of the wallet as it is shown.
pub open spec fn output_shown(record: Record, dust: u64, now_ms: u64) -> OutputShown {
    OutputShown {
        outpoint: record.outpoint.text(),
        amount: record.amount_sats,
        status: output_status(record, dust, now_ms),
        assets: record.assets,
        expires_at: record.expires_at,
        spent_by: record.spent_by,
    }
}

/// Outputs in order with one more, placed behind those that do not come after it.
pub open spec fn insert_shown(sorted: Seq<OutputShown>, shown: OutputShown) -> Seq<OutputShown>
    decreases sorted.len(),
{
    if sorted.len() > 0 && text::text_less(shown.outpoint, sorted.last().outpoint) {
        insert_shown(sorted.drop_last(), shown).push(sorted.last())
    } else {
        sorted.push(shown)
    }
}

/// The outputs of the wallet as they are shown, by outpoint; equal ones stay as given.
pub open spec fn outputs_shown(records: Seq<Record>, dust: u64, now_ms: u64) -> Seq<OutputShown>
    decreases records.len(),
{
    if records.len() == 0 {
        Seq::empty()
    } else {
        insert_shown(
            outputs_shown(records.drop_last(), dust, now_ms),
            output_shown(records.last(), dust, now_ms),
        )
    }
}

/// Whether outputs are in the order of their outpoints.
pub open spec fn in_outpoint_order(shown: Seq<OutputShown>) -> bool {
    forall|i: int, j: int|
        0 <= i < j < shown.len() ==> !text::text_less(
            (#[trigger] shown[j]).outpoint,
            (#[trigger] shown[i]).outpoint,
        )
}

proof fn lemma_insert_shown(sorted: Seq<OutputShown>, shown: OutputShown)
    ensures
        insert_shown(sorted, shown).to_multiset() == sorted.to_multiset().insert(shown),
        in_outpoint_order(sorted) ==> in_outpoint_order(insert_shown(sorted, shown)),
        insert_shown(sorted, shown).len() == sorted.len() + 1,
        forall|k: int|
            0 <= k < insert_shown(sorted, shown).len() ==> #[trigger] insert_shown(
                sorted,
                shown,
            )[k] == shown || sorted.contains(insert_shown(sorted, shown)[k]),
    decreases sorted.len(),
{
    broadcast use vstd::seq_lib::group_to_multiset_ensures;

    let result = insert_shown(sorted, shown);
    if sorted.len() > 0 && text::text_less(shown.outpoint, sorted.last().outpoint) {
        let shorter = sorted.drop_last();
        let last = sorted.last();
        lemma_insert_shown(shorter, shown);
        let placed = insert_shown(shorter, shown);
        assert(shorter.push(last) =~= sorted);
        assert(result.to_multiset() =~= sorted.to_multiset().insert(shown));
        assert forall|k: int| 0 <= k < result.len() implies #[trigger] result[k] == shown
            || sorted.contains(result[k]) by {
            if k < placed.len() {
                assert(result[k] == placed[k]);
                if placed[k] != shown {
                    let m = shorter.index_of(placed[k]);
                    assert(sorted[m] == placed[k]);
                }
            } else {
                assert(sorted[sorted.len() - 1] == last);
            }
        }
        if in_outpoint_order(sorted) {
            assert forall|i: int, j: int| 0 <= i < j < shorter.len() implies !text::text_less(
                (#[trigger] shorter[j]).outpoint,
                (#[trigger] shorter[i]).outpoint,
            ) by {
                assert(shorter[i] == sorted[i] && shorter[j] == sorted[j]);
            }
            assert forall|i: int, j: int| 0 <= i < j < result.len() implies !text::text_less(
                (#[trigger] result[j]).outpoint,
                (#[trigger] result[i]).outpoint,
            ) by {
                if j < placed.len() {
                    assert(result[i] == placed[i] && result[j] == placed[j]);
                } else {
                    assert(result[i] == placed[i]);
                    if placed[i] == shown {
                        text::lemma_text_less_total(shown.outpoint, last.outpoint);
                    } else {
                        let m = shorter.index_of(placed[i]);
                        assert(sorted[m] == placed[i]);
                        assert(!text::text_less(
                            sorted[sorted.len() - 1].outpoint,
                            sorted[m].outpoint,
                        ));
                    }
                }
            }
        }
    } else {
        assert(result.to_multiset() =~= sorted.to_multiset().insert(shown));
        assert forall|k: int| 0 <= k < result.len() implies #[trigger] result[k] == shown
            || sorted.contains(result[k]) by {
            if k < sorted.len() {
                assert(sorted[k] == result[k]);
            }
        }
        if in_outpoint_order(sorted) {
            assert forall|i: int, j: int| 0 <= i < j < result.len() implies !text::text_less(
                (#[trigger] result[j]).outpoint,
                (#[trigger] result[i]).outpoint,
            ) by {
                if j < sorted.len() {
                    assert(result[i] == sorted[i] && result[j] == sorted[j]);
                } else {
                    assert(result[i] == sorted[i]);
                    let last = sorted[sorted.len() - 1];
                    if i < sorted.len() - 1 {
                        assert(!text::text_less(last.outpoint, sorted[i].outpoint));
                        if text::text_less(shown.outpoint, sorted[i].outpoint) {
                            text::lemma_text_less_total(last.outpoint, shown.outpoint);
                            text::lemma_text_less_total(last.outpoint, sorted[i].outpoint);
                            if last.outpoint != shown.outpoint {
                                text::lemma_text_less_transitive(
                                    last.outpoint,
                                    shown.outpoint,
                                    sorted[i].outpoint,
                                );
                            }
                        }
                    }
                }
            }
        }
    }
}

/// The wallet is shown in the order of the outpoints, each output once as it stands in the records.
pub proof fn law_wallet_is_shown_in_order(records: Seq<Record>, dust: u64, now_ms: u64)
    ensures
        in_outpoint_order(outputs_shown(records, dust, now_ms)),
        outputs_shown(records, dust, now_ms).to_multiset() == records.map_values(
            |r: Record| output_shown(r, dust, now_ms),
        ).to_multiset(),
    decreases records.len(),
{
    broadcast use vstd::seq_lib::group_to_multiset_ensures;

    let f = |r: Record| output_shown(r, dust, now_ms);
    if records.len() == 0 {
        assert(records.map_values(f) =~= Seq::<OutputShown>::empty());
    } else {
        law_wallet_is_shown_in_order(records.drop_last(), dust, now_ms);
        lemma_insert_shown(
            outputs_shown(records.drop_last(), dust, now_ms),
            output_shown(records.last(), dust, now_ms),
        );
        assert(records.map_values(f) =~= records.drop_last().map_values(f).push(
            output_shown(records.last(), dust, now_ms),
        ));
    }
}

pub open spec fn shown_view(list: Seq<WalletVtxoSnapshot>) -> Seq<OutputShown> {
    list.map_values(|v: WalletVtxoSnapshot| v@)
}

pub open spec fn players_view(list: Seq<PlayerSnapshot>) -> Seq<PlayerShown> {
    list.map_values(|p: PlayerSnapshot| p@)
}

proof fn lemma_insert_shown_split(sorted: Seq<OutputShown>, shown: OutputShown, n: int)
    requires
        0 <= n <= sorted.len(),
        forall|k: int|
            n <= k < sorted.len() ==> text::text_less(
                shown.outpoint,
                (#[trigger] sorted[k]).outpoint,
            ),
    ensures
        insert_shown(sorted, shown) == insert_shown(sorted.take(n), shown) + sorted.skip(n),
    decreases sorted.len() - n,
{
    if n == sorted.len() {
        assert(sorted.take(n) =~= sorted);
        assert(insert_shown(sorted, shown) + sorted.skip(n) =~= insert_shown(sorted, shown));
    } else {
        let shorter = sorted.drop_last();
        assert(text::text_less(shown.outpoint, sorted[sorted.len() - 1].outpoint));
        assert forall|k: int| n <= k < shorter.len() implies text::text_less(
            shown.outpoint,
            (#[trigger] shorter[k]).outpoint,
        ) by {
            assert(shorter[k] == sorted[k]);
        }
        lemma_insert_shown_split(shorter, shown, n);
        assert(shorter.take(n) =~= sorted.take(n));
        assert(shorter.skip(n).push(sorted.last()) =~= sorted.skip(n));
        assert(insert_shown(sorted, shown) =~= insert_shown(sorted.take(n), shown)
            + sorted.skip(n));
    }
}

fn insert_by_outpoint(sorted: &mut Vec<WalletVtxoSnapshot>, shown: WalletVtxoSnapshot)
    ensures
        shown_view(final(sorted)@) == insert_shown(shown_view(old(sorted)@), shown@),
{
    let ghost all = shown_view(sorted@);
    let mut i: usize = sorted.len();
    while i > 0 && text::text_precedes(shown.outpoint.as_str(), sorted[i - 1].outpoint.as_str())
        invariant
            i <= sorted@.len(),
            sorted@ == old(sorted)@,
            all == shown_view(sorted@),
            forall|k: int|
                i <= k < all.len() ==> text::text_less(
                    shown@.outpoint,
                    (#[trigger] all[k]).outpoint,
                ),
        decreases i,
    {
        assert(all[i - 1] == sorted@[i - 1]@);
        i -= 1;
    }
    let ghost added = shown@;
    proof {
        lemma_insert_shown_split(all, added, i as int);
        let head = all.take(i as int);
        if i > 0 {
            assert(head.last() == sorted@[i - 1]@);
        }
        assert(all.insert(i as int, added) =~= head.push(added) + all.skip(i as int));
    }
    sorted.insert(i, shown);
    assert(shown_view(sorted@) =~= all.insert(i as int, added));
}

fn show_assets(assets: &[(String, u64)]) -> (shown: Vec<WalletAssetSnapshot>)
    ensures
        assets_shown(shown@) == arkade::amounts_view(assets@),
{
    let ghost all = arkade::amounts_view(assets@);
    let mut shown: Vec<WalletAssetSnapshot> = Vec::new();
    let mut i: usize = 0;
    assert(assets_shown(shown@) =~= all.take(0));
    while i < assets.len()
        invariant
            i <= assets@.len(),
            all == arkade::amounts_view(assets@),
            assets_shown(shown@) == all.take(i as int),
        decreases assets@.len() - i,
    {
        let ghost was = assets_shown(shown@);
        shown.push(WalletAssetSnapshot { asset_id: assets[i].0.clone(), amount: assets[i].1 });
        proof {
            assert(assets_shown(shown@) =~= was.push((assets@[i as int].0@, assets@[i as int].1)));
            assert(all.take(i + 1) =~= all.take(i as int).push(all[i as int]));
        }
        i += 1;
    }
    assert(all.take(all.len() as int) =~= all);
    shown
}

/// Whether an output counts as known balance.
pub open spec fn is_known(record: Record) -> bool {
    !record.is_spent && !record.is_swept && !record.is_unrolled
}

/// The actions that have a time, with it.
pub open spec fn timed(events: Seq<ActionEvent>) -> Seq<TimedArenaAction>
    decreases events.len(),
{
    if events.len() == 0 {
        Seq::empty()
    } else {
        let before = timed(events.drop_last());
        let last = events.last();
        match last.created_at {
            Some(created_at) => before.push(
                TimedArenaAction {
                    txid: last.txid,
                    player: last.player,
                    action: last.action,
                    created_at,
                },
            ),
            None => before,
        }
    }
}

fn with_times(events: &[ActionEvent]) -> (actions: Vec<TimedArenaAction>)
    ensures
        actions@ == timed(events@),
{
    let mut actions: Vec<TimedArenaAction> = Vec::new();
    let mut i: usize = 0;
    assert(events@.take(0) =~= Seq::empty());
    while i < events.len()
        invariant
            i <= events@.len(),
            actions@ == timed(events@.take(i as int)),
        decreases events@.len() - i,
    {
        proof {
            assert(events@.take(i + 1).drop_last() =~= events@.take(i as int));
            assert(events@.take(i + 1).last() == events@[i as int]);
        }
        match events[i].created_at {
            Some(created_at) => {
                actions.push(
                    TimedArenaAction {
                        txid: events[i].txid,
                        player: events[i].player,
                        action: events[i].action,
                        created_at,
                    },
                );
            },
            None => {},
        }
        i += 1;
    }
    assert(events@.take(events@.len() as int) =~= events@);
    actions
}

/// Whether a list holds the players of a map in ascending order of their ids, with the one marked
/// that is the player.
pub open spec fn shows_players(
    list: Seq<PlayerShown>,
    states: Map<Txid, PlayerState>,
    me: Option<Txid>,
) -> bool {
    exists|keys: Seq<Txid>| #[trigger]
        table::ascending(keys) && (forall|k: Txid|
            keys.contains(k) <==> #[trigger] states.contains_key(k)) && list == keys.map_values(
            |id: Txid| PlayerShown { id: id.text(), state: states[id], is_me: me == Some(id) },
        )
}

fn show_players(states: &Table<Txid, PlayerState>, me: Option<Txid>) -> (list: Vec<PlayerSnapshot>)
    ensures
        shows_players(players_view(list@), states@, me),
{
    let n: usize = states.len();
    let ghost keys = states.keys();
    let ghost expected = keys.map_values(
        |id: Txid| PlayerShown { id: id.text(), state: states@[id], is_me: me == Some(id) },
    );
    let mut list: Vec<PlayerSnapshot> = Vec::new();
    let mut i: usize = 0;
    assert(players_view(list@) =~= expected.take(0));
    while i < n
        invariant
            i <= n == keys.len(),
            keys == states.keys(),
            expected == keys.map_values(
                |id: Txid| PlayerShown { id: id.text(), state: states@[id], is_me: me == Some(id) },
            ),
            players_view(list@) == expected.take(i as int),
        decreases n - i,
    {
        let id: Txid = states.key_at(i);
        let state: PlayerState = *states.value_at(i);
        let is_me: bool = match me {
            Some(me) => me == id,
            None => false,
        };
        let ghost was = players_view(list@);
        list.push(
            PlayerSnapshot {
                id: id.to_string(),
                x: state.x,
                y: state.y,
                facing: state.facing,
                hp: state.hp,
                kills: state.kills,
                is_me,
            },
        );
        proof {
            assert(players_view(list@) =~= was.push(expected[i as int]));
            assert(expected.take(i + 1) =~= expected.take(i as int).push(expected[i as int]));
        }
        i += 1;
    }
    assert(expected.take(expected.len() as int) =~= expected);
    list
}

impl App {
    /// Whether a list holds all players in the arena, in ascending order: the registered ones and
    /// the player.
    pub open spec fn lists_arena_players(self, players: Seq<Txid>) -> bool {
        table::ascending(players) && forall|id: Txid| #[trigger]
            players.contains(id) <==> self.registered_players.contains_key(id) || self.player_id()
                == Some(id)
    }

    pub open spec fn arena_players(self) -> Seq<Txid> {
        choose|players: Seq<Txid>| self.lists_arena_players(players)
    }

    /// The actions that count in the arena.
    pub open spec fn arena_actions(self) -> Seq<TimedArenaAction> {
        game::counted(self.arena_players(), timed(actions::canonical(self.events)))
    }

    /// The players in the arena after all actions.
    pub open spec fn arena(self) -> Map<Txid, PlayerState> {
        game::played(game::spawned(self.arena_players()), self.arena_actions())
    }

    /// The last shots in the arena.
    pub open spec fn arena_shots(self) -> Seq<Shot> {
        game::last_shots(
            game::all_shots(game::spawned(self.arena_players()), self.arena_actions()),
            game::MAX_SHOT_TRACES as nat,
        )
    }

    /// What the wallet does.
    pub open spec fn wallet_action(self) -> Seq<char> {
        match self.pending_action {
            Some(action) => match (action.purpose, action.unknown) {
                (Purpose::Sweep, false) => "finalizing-sweep"@,
                (Purpose::Sweep, true) => "recovering-sweep"@,
                (_, false) => "finalizing-game-tx"@,
                (_, true) => "recovering-game-tx"@,
            },
            None => if self.sending {
                "submitting"@
            } else {
                "idle"@
            },
        }
    }

    /// What the outputs that are not gone are worth together.
    pub open spec fn known_sats(self) -> nat {
        super::total_sats(self.wallet_records.filter(|r: Record| is_known(r)))
    }
}

impl GameApp {
    /// The arena after all canonical actions.
    pub fn arena_replay(&self) -> (arena: ArenaReplay)
        ensures
            arena.players@ == self@.arena(),
            game::shots(arena.shot_traces@) == self@.arena_shots(),
    {
        let mut ids: Table<Txid, ()> = Table::new();
        let n: usize = self.registered_players.len();
        let ghost keys = self.registered_players.keys();
        let mut i: usize = 0;
        while i < n
            invariant
                i <= n == keys.len(),
                keys == self.registered_players.keys(),
                forall|id: Txid| #[trigger]
                    ids@.contains_key(id) <==> keys.take(i as int).contains(id),
            decreases n - i,
        {
            let id: Txid = self.registered_players.key_at(i);
            let ghost was = ids@;
            let _ = ids.insert(id, ());
            proof {
                let now = keys.take(i + 1);
                let before = keys.take(i as int);
                assert(now =~= before.push(id));
                assert forall|k: Txid| #[trigger] ids@.contains_key(k) <==> now.contains(k) by {
                    if before.contains(k) {
                        assert(now[before.index_of(k)] == k);
                    }
                    if now.contains(k) && k != id {
                        assert(before[now.index_of(k)] == k);
                    }
                    assert(now[i as int] == id);
                    assert(was.contains_key(k) <==> before.contains(k));
                }
            }
            i += 1;
        }
        assert(keys.take(keys.len() as int) =~= keys);
        match self.player_id() {
            Some(me) => {
                let _ = ids.insert(me, ());
            },
            None => {},
        }
        let count: usize = ids.len();
        let ghost all = ids.keys();
        proof {
            assert forall|id: Txid| #[trigger]
                all.contains(id) <==> self@.registered_players.contains_key(id) || self@.player_id()
                    == Some(id) by {
                assert(all.contains(id) <==> ids@.contains_key(id));
                assert(keys.contains(id) <==> self.registered_players@.contains_key(id));
            }
            assert(self@.lists_arena_players(all));
            table::lemma_ascending_unique(all, self@.arena_players());
        }
        let mut players: Vec<Txid> = Vec::new();
        let mut j: usize = 0;
        while j < count
            invariant
                j <= count == all.len(),
                all == ids.keys(),
                players@ == all.take(j as int),
            decreases count - j,
        {
            players.push(ids.key_at(j));
            assert(all.take(j + 1) =~= all.take(j as int).push(all[j as int]));
            j += 1;
        }
        assert(all.take(all.len() as int) =~= all);
        let chains: Vec<ActionEvent> = actions::canonical_actions(&self.events);
        let actions: Vec<TimedArenaAction> = with_times(&chains);
        game::replay(&players, &actions)
    }

    /// The players in an arena as they are shown.
    pub fn player_snapshots(&self, states: &Table<Txid, PlayerState>) -> (list: Vec<PlayerSnapshot>)
        ensures
            shows_players(players_view(list@), states@, self@.player_id()),
    {
        show_players(states, self.player_id())
    }

    fn pending_txid(&self) -> (txid: Option<String>)
        ensures
            text::opt_text(txid) == match self@.pending_action {
                Some(action) => Some(action.tx.txid.text()),
                None => None,
            },
    {
        match &self.pending_action {
            Some(action) => Some(pending::pending_action_txid(action).to_string()),
            None => None,
        }
    }

    /// What the wallet does.
    pub fn wallet_action(&self) -> (action: &'static str)
        ensures
            action@ == self@.wallet_action(),
    {
        match &self.pending_action {
            Some(PendingAction::Sweep { .. }) => "finalizing-sweep",
            Some(PendingAction::UnknownSweep { .. }) => "recovering-sweep",
            Some(PendingAction::Issuance { .. }) => "finalizing-game-tx",
            Some(PendingAction::Move { .. }) => "finalizing-game-tx",
            Some(PendingAction::UnknownIssuance { .. }) => "recovering-game-tx",
            Some(PendingAction::UnknownMove { .. }) => "recovering-game-tx",
            None => if self.sending {
                "submitting"
            } else {
                "idle"
            },
        }
    }

    /// The outputs of the wallet as they are shown.
    pub fn wallet_snapshots(&self, now_ms: u64) -> (list: Vec<WalletVtxoSnapshot>)
        ensures
            shown_view(list@) == outputs_shown(
                self@.wallet_records,
                self@.params.dust_sats,
                now_ms,
            ),
    {
        let records: &Vec<VtxoRecord> = &self.wallet_records;
        let dust: u64 = self.params.dust_sats;
        let ghost all = self@.wallet_records;
        let mut list: Vec<WalletVtxoSnapshot> = Vec::new();
        let mut i: usize = 0;
        proof {
            assert(all.take(0) =~= Seq::empty());
            assert(shown_view(list@) =~= Seq::<OutputShown>::empty());
        }
        while i < records.len()
            invariant
                i <= records@.len(),
                all == arkade::records_view(records@),
                shown_view(list@) == outputs_shown(all.take(i as int), dust, now_ms),
            decreases records@.len() - i,
        {
            let record: &VtxoRecord = &records[i];
            proof {
                assert(all.take(i + 1).drop_last() =~= all.take(i as int));
                assert(all.take(i + 1).last() == record@);
            }
            let shown: WalletVtxoSnapshot = WalletVtxoSnapshot {
                outpoint: record.outpoint.to_string(),
                amount: record.amount_sats,
                status: status_of_output(record, dust, now_ms).to_owned(),
                assets: show_assets(&record.assets),
                expires_at: record.expires_at,
                spent_by: text::copy_opt_text(&record.spent_by),
            };
            assert(shown@ =~= output_shown(record@, dust, now_ms));
            insert_by_outpoint(&mut list, shown);
            i += 1;
        }
        assert(all.take(all.len() as int) =~= all);
        list
    }

    /// What the outputs that are not gone are worth together, where that fits.
    pub fn known_balance(&self) -> (total: Option<u64>)
        ensures
            match total {
                Some(total) => total == self@.known_sats(),
                None => self@.known_sats() > u64::MAX,
            },
    {
        let records: &Vec<VtxoRecord> = &self.wallet_records;
        let ghost all = self@.wallet_records;
        let ghost wanted = |r: Record| is_known(r);
        let mut known: Vec<VtxoRecord> = Vec::new();
        let mut i: usize = 0;
        proof {
            seqs::lemma_filter_none(all, wanted);
            assert(arkade::records_view(known@) =~= Seq::<Record>::empty());
        }
        while i < records.len()
            invariant
                i <= records@.len(),
                all == arkade::records_view(records@),
                wanted == (|r: Record| is_known(r)),
                arkade::records_view(known@) == all.take(i as int).filter(wanted),
            decreases records@.len() - i,
        {
            proof {
                seqs::lemma_filter_next(all, i as int, wanted);
                assert(all[i as int] == records@[i as int]@);
            }
            if !records[i].is_spent && !records[i].is_swept && !records[i].is_unrolled {
                let ghost was = arkade::records_view(known@);
                known.push(records[i].clone());
                assert(arkade::records_view(known@) =~= was.push(records@[i as int]@));
            }
            i += 1;
        }
        assert(all.take(all.len() as int) =~= all);
        super::total_amount(&known)
    }

    /// All that the player is shown.
    pub fn snapshot(&self, version: &str, now_ms: u64) -> (s: Snapshot)
        requires
            self@.wf(),
            self@.known_sats() <= u64::MAX,
        ensures
            s.version@ == version@,
            s.server@ == self@.server,
            s.operator_version@ == self@.params.server_version,
            s.signer@ == text::hex_text(self@.params.signer_pk),
            s.network@ == self@.params.network_name,
            s.phase@ == phase_name(self@.phase),
            s.address@ == self@.player_address,
            s.game_address@ == self@.game_address,
            text::opt_text(s.player_id) == match self@.player_id() {
                Some(id) => Some(id.text()),
                None => None,
            },
            s.balance == self@.balance_cache,
            s.known_balance == self@.known_sats(),
            s.required_funding == self@.required(),
            s.funding_ready == self@.funding_ready,
            s.registration_cost == self@.params.dust_sats,
            s.reusable_carrier == self@.params.dust_sats,
            s.mint_pack_funding == self@.required(),
            s.move_balances@ == self@.move_balances,
            s.sending == self@.sending,
            s.pending == self@.pending_action is Some,
            text::opt_text(s.pending_txid) == match self@.pending_action {
                Some(action) => Some(action.tx.txid.text()),
                None => None,
            },
            s.wallet_action@ == self@.wallet_action(),
            shown_view(s.wallet_vtxos@) == outputs_shown(
                self@.wallet_records,
                self@.params.dust_sats,
                now_ms,
            ),
            s.queued == self@.pending_dirs.len(),
            shows_players(players_view(s.players@), self@.arena(), self@.player_id()),
            s.max_hp == game::MAX_HP,
            s.arena_width == game::ARENA_W,
            s.arena_height == game::ARENA_H,
            game::cell_pairs(s.walls@) == game::arena_cells().filter(
                |c: (int, int)| game::wall(c.0, c.1),
            ),
            game::cell_pairs(s.houses@) == game::arena_cells().filter(
                |c: (int, int)| game::house(c.0, c.1),
            ),
            s.can_act == self@.can_act(),
            s.can_mint_pack == self@.can_mint_pack(),
            s.projected_action == self@.projected_action(),
            game::shots(s.shot_traces@) == self@.arena_shots(),
            s.events == self@.events.len() as u32,
            s.wallet_sync_ms == self@.wallet_sync_ms,
            s.last_sync_ms == self@.last_sync_ms,
            text::opt_text(s.last_error) == self@.last_error,
            text::texts(s.log@) == self@.log,
    {
        let arena: ArenaReplay = self.arena_replay();
        let players: Vec<PlayerSnapshot> = self.player_snapshots(&arena.players);
        let player_id: Option<String> = match self.player_id() {
            Some(id) => Some(id.to_string()),
            None => None,
        };
        let known_balance: u64 = match self.known_balance() {
            Some(total) => total,
            None => 0,
        };
        Snapshot {
            version: version.to_owned(),
            server: self.server.clone(),
            operator_version: self.params.server_version.clone(),
            signer: text::hex_string(&self.params.signer_pk),
            network: self.params.network_name.clone(),
            phase: name_of_phase(self.phase).to_owned(),
            address: self.player_address.clone(),
            game_address: self.game_address.clone(),
            player_id,
            balance: self.balance_cache,
            known_balance,
            required_funding: self.required_funding(),
            funding_ready: self.funding_ready,
            registration_cost: self.params.dust_sats,
            reusable_carrier: self.params.dust_sats,
            mint_pack_funding: self.required_funding(),
            move_balances: self.move_balances,
            sending: self.sending,
            pending: self.pending_action.is_some(),
            pending_txid: self.pending_txid(),
            wallet_action: self.wallet_action().to_owned(),
            wallet_vtxos: self.wallet_snapshots(now_ms),
            queued: self.pending_dirs.len() as u32,
            players,
            max_hp: game::MAX_HP,
            arena_width: game::ARENA_W,
            arena_height: game::ARENA_H,
            walls: game::walls(),
            houses: game::houses(),
            can_act: self.can_act(),
            can_mint_pack: self.can_mint_pack(),
            projected_action: self.projected_action(),
            shot_traces: arena.shot_traces,
            events: #[verifier::truncate] (self.events.len() as u32),
            wallet_sync_ms: self.wallet_sync_ms,
            last_sync_ms: self.last_sync_ms,
            last_error: text::copy_opt_text(&self.last_error),
            log: text::copy_texts(&self.log),
        }
    }
}

} // verus!
