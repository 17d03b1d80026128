//! One tick of the game: the wallet and the game are synchronized, then at most one transaction is
//! taken up or prepared.

use super::{
    App, GameApp, Phase, FULL_GAME_SCAN_INTERVAL_MS, REGISTRY_POLL_INTERVAL_MS,
    WALLET_DIAGNOSTICS_INTERVAL_MS,
};
use crate::arkade;
use crate::arkade::{Record, VtxoRecord};
use crate::text;
use vstd::prelude::*;

verus! {

/// What the player asks for in a tick, apart from actions.
#[derive(Clone, Copy, Debug)]
pub struct Wishes {
    pub enter_game: bool,
    pub mint_pack: bool,
    pub sweep: bool,
}

/// How a tick begins.
#[derive(Clone, Copy, Debug, PartialEq, Eq, Structural)]
pub enum Beginning {
    /// Take up the pending action; nothing else happens in this tick.
    Resume,
    /// Synchronize the wallet, at the same time the game where that is asked for. The history of
    /// the wallet is needed where diagnostics are asked for.
    Synchronize { parallel_game: bool, diagnostics: bool },
}

/// What became of the synchronization of the wallet.
#[derive(Clone, Copy, Debug, PartialEq, Eq, Structural)]
pub struct WalletSynced {
    /// Whether the game was synchronized, where that was asked for.
    pub game_ready: Option<bool>,
    pub diagnostics_ready: bool,
}

/// How a tick goes on after the wallet is known.
#[derive(Clone, Copy, Debug, PartialEq, Eq, Structural)]
pub enum WalletStep {
    /// The tick is over.
    Stop,
    /// Take up the pending action.
    Resume,
    /// Sweep the wallet.
    Sweep,
    /// Synchronize the game.
    RefreshGame,
    /// The game is known, or could not be synchronized.
    Game(bool),
}

/// How a tick ends.
#[derive(Clone, Copy, Debug, PartialEq, Eq, Structural)]
pub enum PlayStep {
    Stop,
    /// Issue the first pack of actions.
    Issue,
    /// Issue another pack of actions.
    MintPack,
    /// Send the queued action.
    Move,
}

pub open spec fn done_view(result: Option<Result<(), String>>) -> Option<Option<Seq<char>>> {
    match result {
        Some(result) => Some(super::error_view(result)),
        None => None,
    }
}

/// The records of an answer, or the error.
pub open spec fn answer_view(answer: Result<Vec<VtxoRecord>, String>) -> Result<
    Seq<Record>,
    Seq<char>,
> {
    match answer {
        Ok(records) => Ok(arkade::records_view(records@)),
        Err(error) => Err(error@),
    }
}

pub open spec fn opt_answer_view(answer: Option<Result<Vec<VtxoRecord>, String>>) -> Option<
    Result<Seq<Record>, Seq<char>>,
> {
    match answer {
        Some(answer) => Some(answer_view(answer)),
        None => None,
    }
}

/// The time between two moments, zero where the clock went back.
pub open spec fn elapsed(now_ms: u64, since_ms: u64) -> int {
    if now_ms >= since_ms {
        now_ms - since_ms
    } else {
        0
    }
}

impl App {
    /// Whether a tick is about an action, which the game does not wait for.
    pub open spec fn is_action_tick(self, wishes: Wishes) -> bool {
        wishes.enter_game || wishes.mint_pack || wishes.sweep || self.pending_action is Some
            || self.pending_dirs.len() > 0
    }

    /// How a tick begins, once the actions are queued. Idle ticks of a player synchronize the game
    /// at the same time, and look at the history of the wallet only once a second; a tick that
    /// prepares a new transaction needs no history.
    pub open spec fn beginning(self, wishes: Wishes, now_ms: u64) -> Beginning {
        if self.has_fresh_action() {
            Beginning::Resume
        } else if !self.is_action_tick(wishes) && self.move_assets is Some {
            Beginning::Synchronize {
                parallel_game: true,
                diagnostics: elapsed(now_ms, self.wallet_sync_ms)
                    >= WALLET_DIAGNOSTICS_INTERVAL_MS,
            }
        } else {
            Beginning::Synchronize {
                parallel_game: false,
                diagnostics: !self.is_action_tick(wishes) || self.pending_action is Some,
            }
        }
    }

    /// With the error of the synchronization of the game reported.
    pub open spec fn game_reported(self, error: Option<Seq<char>>) -> App {
        match error {
            Some(error) => self.reported("game sync"@, error),
            None => self,
        }
    }

    /// With the history of the wallet taken in, or its error reported.
    pub open spec fn diagnosed(
        self,
        diagnostics: Option<Result<Seq<Record>, Seq<char>>>,
        now_ms: u64,
    ) -> App {
        match diagnostics {
            None => self,
            Some(Ok(records)) => App { wallet_records: records, wallet_sync_ms: now_ms, ..self },
            Some(Err(error)) => self.reported("wallet diagnostics"@, error),
        }
    }

    /// The state after the synchronization of the wallet. Without the spendable outputs the tick is
    /// over.
    pub open spec fn wallet_synced(
        self,
        game: Option<Option<Seq<char>>>,
        spendable: Result<Seq<Record>, Seq<char>>,
        diagnostics: Option<Result<Seq<Record>, Seq<char>>>,
        now_ms: u64,
    ) -> App {
        let told = match game {
            Some(error) => self.game_reported(error),
            None => self,
        };
        match spendable {
            Err(error) => told.reported("wallet sync"@, error),
            Ok(_) => told.diagnosed(diagnostics, now_ms),
        }
    }

    /// How a tick goes on after the wallet is known: a pending action comes first, for which the
    /// history of the wallet is needed, then a sweep, then the game. A queued action does not wait
    /// for the game where all actions of the player are known.
    pub open spec fn wallet_step(self, wishes: Wishes, synced: WalletSynced) -> WalletStep {
        if self.pending_action is Some {
            if synced.diagnostics_ready {
                WalletStep::Resume
            } else {
                WalletStep::Stop
            }
        } else if wishes.sweep {
            WalletStep::Sweep
        } else {
            match synced.game_ready {
                Some(ready) => WalletStep::Game(ready),
                None => if self.pending_dirs.len() > 0 && self.history_ready() {
                    WalletStep::Game(true)
                } else {
                    WalletStep::RefreshGame
                },
            }
        }
    }

    /// The last error is over once the wallet and the game were both synchronized.
    pub open spec fn error_over(self, diagnostics_ready: bool) -> App {
        if diagnostics_ready {
            App { last_error: None, ..self }
        } else {
            self
        }
    }

    /// Whether no unit of any action is left.
    pub open spec fn is_exhausted(self) -> bool {
        forall|d: int| 0 <= d < self.move_balances.len() ==> #[trigger] self.move_balances[d] == 0
    }

    /// The phase of a player with a pack of actions, and whether the tick goes on.
    pub open spec fn phase_found(self) -> (App, bool) {
        if self.issuance_visible && self.is_exhausted() {
            (App { phase: Phase::OutOfMoves, pending_dirs: Seq::empty(), ..self }, false)
        } else if !self.issuance_visible {
            (App { phase: Phase::Issuing, ..self }, false)
        } else if !self.history_ready() {
            (App { phase: Phase::Syncing, ..self }, false)
        } else {
            (App { phase: Phase::Playing, ..self }, true)
        }
    }

    /// The state at the end of a tick, and what is to be sent.
    pub open spec fn played(
        self,
        wishes: Wishes,
        game_ready: bool,
        diagnostics_ready: bool,
    ) -> (App, PlayStep) {
        let known = self.reconciled();
        let calm = known.error_over(diagnostics_ready);
        if !game_ready {
            (known, PlayStep::Stop)
        } else if calm.move_assets is None {
            (
                calm,
                if wishes.enter_game && calm.funding_ready && !calm.sending {
                    PlayStep::Issue
                } else {
                    PlayStep::Stop
                },
            )
        } else if wishes.mint_pack {
            if calm.can_mint_pack() {
                (calm, PlayStep::MintPack)
            } else {
                (
                    calm.logged(
                        "mint requires "@ + text::decimal_text(calm.required() as nat)
                            + " sats in BTC-only inputs"@,
                    ),
                    PlayStep::Stop,
                )
            }
        } else {
            let (placed, goes_on) = calm.phase_found();
            (
                placed,
                if goes_on && !placed.sending {
                    PlayStep::Move
                } else {
                    PlayStep::Stop
                },
            )
        }
    }
}

impl GameApp {
    /// Begins a tick.
    pub fn begin_step(&mut self, dirs: &[u8], wishes: Wishes, now_ms: u64) -> (beginning: Beginning)
        requires
            old(self)@.wf(),
        ensures
            final(self)@ == old(self)@.queued(dirs@),
            final(self)@.wf(),
            beginning == old(self)@.queued(dirs@).beginning(wishes, now_ms),
    {
        self.queue_inputs(dirs);
        if self.has_fresh_prepared_action() {
            return Beginning::Resume;
        }
        let action_tick: bool = wishes.enter_game || wishes.mint_pack || wishes.sweep
            || self.pending_action.is_some() || self.pending_dirs.len() > 0;
        let parallel_game: bool = !action_tick && self.move_assets.is_some();
        let diagnostics: bool = if parallel_game {
            now_ms.saturating_sub(self.wallet_sync_ms) >= WALLET_DIAGNOSTICS_INTERVAL_MS
        } else {
            !(action_tick && self.pending_action.is_none())
        };
        Beginning::Synchronize { parallel_game, diagnostics }
    }

    /// Takes in what came of the synchronization of the game. Tells whether it succeeded.
    pub fn game_synced(&mut self, result: &Result<(), String>) -> (ready: bool)
        requires
            old(self)@.wf(),
        ensures
            final(self)@ == old(self)@.game_reported(super::error_view(*result)),
            final(self)@.wf(),
            ready == result is Ok,
    {
        match result {
            Ok(_) => true,
            Err(error) => {
                self.report_error("game sync", error.as_str());
                false
            },
        }
    }

    /// Takes in what came of the synchronization of the wallet. Gives nothing where the tick is
    /// over.
    pub fn wallet_synced(
        &mut self,
        game: Option<Result<(), String>>,
        spendable: &Result<Vec<VtxoRecord>, String>,
        diagnostics: Option<Result<Vec<VtxoRecord>, String>>,
        now_ms: u64,
    ) -> (synced: Option<WalletSynced>)
        requires
            old(self)@.wf(),
        ensures
            final(self)@ == old(self)@.wallet_synced(
                done_view(game),
                answer_view(*spendable),
                opt_answer_view(diagnostics),
                now_ms,
            ),
            final(self)@.wf(),
            synced == match *spendable {
                Err(_) => None,
                Ok(_) => Some(
                    WalletSynced {
                        game_ready: match game {
                            Some(result) => Some(result is Ok),
                            None => None,
                        },
                        diagnostics_ready: diagnostics matches Some(answer) && answer is Ok,
                    },
                ),
            },
    {
        let game_ready: Option<bool> = match &game {
            Some(result) => Some(self.game_synced(result)),
            None => None,
        };
        match spendable {
            Ok(_) => {},
            Err(error) => {
                self.report_error("wallet sync", error.as_str());
                return None;
            },
        }
        let ghost told = self@;
        let diagnostics_ready: bool = match diagnostics {
            Some(Ok(records)) => {
                let ghost found = arkade::records_view(records@);
                self.wallet_records = records;
                self.wallet_sync_ms = now_ms;
                assert(self@ =~= App { wallet_records: found, wallet_sync_ms: now_ms, ..told });
                true
            },
            Some(Err(error)) => {
                self.report_error("wallet diagnostics", error.as_str());
                false
            },
            None => false,
        };
        Some(WalletSynced { game_ready, diagnostics_ready })
    }

    /// Takes in the spendable outputs, after the search for the newest pack. Tells how the tick
    /// goes on.
    pub fn wallet_known(
        &mut self,
        spendable: &[VtxoRecord],
        wishes: Wishes,
        synced: WalletSynced,
        now_ms: u64,
    ) -> (step: WalletStep)
        requires
            old(self)@.wf(),
            super::total_sats(arkade::records_view(spendable@)) <= u64::MAX,
        ensures
            final(self)@ == old(self)@.wallet_refreshed(
                arkade::records_view(spendable@),
                now_ms,
            ).reconciled(),
            final(self)@.wf(),
            step == final(self)@.wallet_step(wishes, synced),
    {
        self.refresh_wallet_state(spendable, now_ms);
        self.reconcile_next_sequence();
        if self.pending_action.is_some() {
            if synced.diagnostics_ready {
                return WalletStep::Resume;
            }
            return WalletStep::Stop;
        }
        if wishes.sweep {
            return WalletStep::Sweep;
        }
        match synced.game_ready {
            Some(ready) => WalletStep::Game(ready),
            None => if self.pending_dirs.len() > 0 && self.local_history_ready() {
                WalletStep::Game(true)
            } else {
                WalletStep::RefreshGame
            },
        }
    }

    fn set_phase(&mut self, phase: Phase)
        requires
            old(self)@.wf(),
        ensures
            final(self)@ == (App { phase, ..old(self)@ }),
            final(self)@.wf(),
    {
        self.phase = phase;
        assert(self@ =~= App { phase, ..old(self)@ });
    }

    fn is_exhausted(&self) -> (exhausted: bool)
        requires
            self@.wf(),
        ensures
            exhausted == self@.is_exhausted(),
    {
        let mut d: usize = 0;
        while d < 6
            invariant
                d <= 6,
                self@.wf(),
                self@.move_balances == self.move_balances@,
                forall|k: int| 0 <= k < d ==> #[trigger] self@.move_balances[k] == 0,
            decreases 6 - d,
        {
            if self.move_balances[d] != 0 {
                assert(self@.move_balances[d as int] != 0);
                return false;
            }
            d += 1;
        }
        true
    }

    fn find_phase(&mut self) -> (goes_on: bool)
        requires
            old(self)@.wf(),
        ensures
            (final(self)@, goes_on) == old(self)@.phase_found(),
            final(self)@.wf(),
    {
        if self.issuance_visible && self.is_exhausted() {
            self.phase = Phase::OutOfMoves;
            self.pending_dirs = Vec::new();
            assert(self@ =~= App {
                phase: Phase::OutOfMoves,
                pending_dirs: Seq::empty(),
                ..old(self)@
            });
            return false;
        }
        if !self.issuance_visible {
            self.set_phase(Phase::Issuing);
            return false;
        }
        if !self.local_history_ready() {
            self.set_phase(Phase::Syncing);
            return false;
        }
        self.set_phase(Phase::Playing);
        true
    }

    /// Ends a tick. Tells what is to be sent.
    pub fn play(&mut self, wishes: Wishes, game_ready: bool, diagnostics_ready: bool) -> (step:
        PlayStep)
        requires
            old(self)@.wf(),
        ensures
            (final(self)@, step) == old(self)@.played(wishes, game_ready, diagnostics_ready),
            final(self)@.wf(),
    {
        self.reconcile_next_sequence();
        if !game_ready {
            return PlayStep::Stop;
        }
        if diagnostics_ready {
            self.clear_error();
        }
        if self.move_assets.is_none() {
            if wishes.enter_game && self.funding_ready && !self.sending {
                return PlayStep::Issue;
            }
            return PlayStep::Stop;
        }
        if wishes.mint_pack {
            if !self.can_mint_pack() {
                let required: String = text::decimal_string(self.required_funding());
                self.log_line(
                    super::line3("mint requires ", required.as_str(), " sats in BTC-only inputs"),
                );
                return PlayStep::Stop;
            }
            return PlayStep::MintPack;
        }
        if self.find_phase() && !self.sending {
            PlayStep::Move
        } else {
            PlayStep::Stop
        }
    }
}

/// What a synchronization of the game has to do.
#[derive(Clone, Copy, Debug, PartialEq, Eq, Structural)]
pub struct GameSync {
    /// It is time for a scan of everything.
    pub periodic_full: bool,
    /// It is time for the registry.
    pub registry_due: bool,
    /// The registry was never read, so it comes before the players.
    pub registry_first: bool,
    /// All outputs of the players are scanned.
    pub players_full: bool,
}

impl App {
    pub open spec fn game_sync(self, now_ms: u64) -> GameSync {
        let periodic_full = self.full_game_sync_ms == 0 || elapsed(now_ms, self.full_game_sync_ms)
            >= FULL_GAME_SCAN_INTERVAL_MS;
        GameSync {
            periodic_full,
            registry_due: !self.initial_registry_sync || periodic_full || elapsed(
                now_ms,
                self.registry_sync_ms,
            ) >= REGISTRY_POLL_INTERVAL_MS,
            registry_first: !self.initial_registry_sync,
            players_full: !self.initial_player_sync || periodic_full,
        }
    }

    /// With the registry read.
    pub open spec fn registry_done(self, now_ms: u64) -> App {
        App { initial_registry_sync: true, registry_sync_ms: now_ms, ..self }
    }

    /// With the game synchronized.
    pub open spec fn game_done(
        self,
        sync: GameSync,
        registry_refreshed: bool,
        new_players: u32,
        accepted: u32,
        now_ms: u64,
    ) -> App {
        let done = App {
            initial_player_sync: true,
            full_game_sync_ms: if sync.periodic_full && registry_refreshed {
                now_ms
            } else {
                self.full_game_sync_ms
            },
            last_sync_ms: now_ms,
            ..self
        };
        let greeted = if new_players > 0 {
            done.logged(
                "discovered "@ + text::decimal_text(new_players as nat) + " new players"@,
            )
        } else {
            done
        };
        if accepted > 0 {
            greeted.logged(
                "synced "@ + text::decimal_text(accepted as nat) + " protocol burns"@,
            )
        } else {
            greeted
        }
    }
}

/// Whether the registry is read after the players. An accepted action does not wait for the
/// registry, which then is read in the next tick.
pub open spec fn registry_follows(sync: GameSync, accepted: u32) -> bool {
    !sync.registry_first && sync.registry_due && accepted == 0
}

pub fn registry_is_next(sync: GameSync, accepted: u32) -> (next: bool)
    ensures
        next == registry_follows(sync, accepted),
{
    !sync.registry_first && sync.registry_due && accepted == 0
}

/// The registry is read first in the first synchronization, and never twice in one.
pub proof fn law_registry_is_read_once(app: App, now_ms: u64, accepted: u32)
    ensures
        !app.initial_registry_sync ==> app.game_sync(now_ms).registry_first,
        !(app.game_sync(now_ms).registry_first && registry_follows(
            app.game_sync(now_ms),
            accepted,
        )),
{
}

impl GameApp {
    /// What a synchronization of the game has to do now.
    pub fn plan_game_sync(&self, now_ms: u64) -> (sync: GameSync)
        ensures
            sync == self@.game_sync(now_ms),
    {
        let periodic_full: bool = self.full_game_sync_ms == 0 || now_ms.saturating_sub(
            self.full_game_sync_ms,
        ) >= FULL_GAME_SCAN_INTERVAL_MS;
        GameSync {
            periodic_full,
            registry_due: !self.initial_registry_sync || periodic_full || now_ms.saturating_sub(
                self.registry_sync_ms,
            ) >= REGISTRY_POLL_INTERVAL_MS,
            registry_first: !self.initial_registry_sync,
            players_full: !self.initial_player_sync || periodic_full,
        }
    }

    /// Notes that the registry was read.
    pub fn registry_synced(&mut self, now_ms: u64)
        requires
            old(self)@.wf(),
        ensures
            final(self)@ == old(self)@.registry_done(now_ms),
            final(self)@.wf(),
    {
        self.initial_registry_sync = true;
        self.registry_sync_ms = now_ms;
        assert(self@ =~= old(self)@.registry_done(now_ms));
    }

    /// Notes that the game was synchronized.
    #[verifier::spinoff_prover]
    pub fn finish_game_sync(
        &mut self,
        sync: GameSync,
        registry_refreshed: bool,
        new_players: u32,
        accepted: u32,
        now_ms: u64,
    )
        requires
            old(self)@.wf(),
        ensures
            final(self)@ == old(self)@.game_done(
                sync,
                registry_refreshed,
                new_players,
                accepted,
                now_ms,
            ),
            final(self)@.wf(),
    {
        self.initial_player_sync = true;
        if sync.periodic_full && registry_refreshed {
            self.full_game_sync_ms = now_ms;
        }
        self.last_sync_ms = now_ms;
        assert(self@ =~= App {
            initial_player_sync: true,
            full_game_sync_ms: if sync.periodic_full && registry_refreshed {
                now_ms
            } else {
                old(self)@.full_game_sync_ms
            },
            last_sync_ms: now_ms,
            ..old(self)@
        });
        if new_players > 0 {
            let count: String = text::decimal_string(new_players as u64);
            self.log_line(super::line3("discovered ", count.as_str(), " new players"));
        }
        if accepted > 0 {
            let count: String = text::decimal_string(accepted as u64);
            self.log_line(super::line3("synced ", count.as_str(), " protocol burns"));
        }
    }
}

} // verus!
