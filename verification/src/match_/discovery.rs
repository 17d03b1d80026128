//! Finding the newest pack of actions in the wallet.

use super::sync;
use super::sync::{IssuanceLookup, Lookup};
use super::{App, GameApp};
use crate::arkade;
use crate::arkade::VtxoRecord;
use crate::chain::{AssetId, Txid};
use crate::psbt::{Psbt, Signed};
use crate::table::Table;
use vstd::prelude::*;

verus! {

/// A search through the packs in the wallet, newest first.
#[derive(Debug)]
pub struct Discovery {
    packs: Vec<(Txid, i64)>,
    next: usize,
}

/// What a `Discovery` holds: the packs, and the place of the one to look at next.
#[verifier::ext_equal]
pub struct Search {
    pub packs: Seq<(Txid, i64)>,
    pub next: int,
}

impl View for Discovery {
    type V = Search;

    closed spec fn view(&self) -> Search {
        Search { packs: self.packs@, next: self.next as int }
    }
}

/// The assets of the six actions of an issuance.
pub open spec fn six_groups(txid: Txid) -> Seq<AssetId> {
    Seq::new(6, |i: int| AssetId { txid, group_index: i as u16 })
}

/// The assets of the six actions of an issuance.
pub fn pack_assets(txid: Txid) -> (assets: [AssetId; 6])
    ensures
        assets@ == six_groups(txid),
{
    let assets: [AssetId; 6] = [
        AssetId { txid, group_index: 0 },
        AssetId { txid, group_index: 1 },
        AssetId { txid, group_index: 2 },
        AssetId { txid, group_index: 3 },
        AssetId { txid, group_index: 4 },
        AssetId { txid, group_index: 5 },
    ];
    assert(assets@ =~= six_groups(txid));
    assets
}

impl App {
    /// With the time of the active pack at least that of its newest output.
    pub open spec fn packs_seen(self, packs: Map<Txid, i64>) -> App {
        match self.player_id() {
            Some(player) if packs.contains_key(player) => App {
                move_pack_created_at: Some(
                    match self.move_pack_created_at {
                        Some(known) if known > packs[player] => known,
                        _ => packs[player],
                    },
                ),
                ..self
            },
            _ => self,
        }
    }

    /// Whether a pack needs no look: it is the active one, or not newer than that.
    pub open spec fn skips_pack(self, pack: (Txid, i64)) -> bool {
        self.player_id() == Some(pack.0) || self.move_assets is Some && pack.1 <= (
        match self.move_pack_created_at {
            Some(created_at) => created_at,
            None => i64::MIN,
        })
    }

    /// With another pack active: nothing is known of its units and actions yet.
    pub open spec fn pack_selected(self, pack: (Txid, i64)) -> App {
        App {
            move_assets: Some(six_groups(pack.0)),
            move_pack_created_at: Some(pack.1),
            move_balances: seq![0u64, 0u64, 0u64, 0u64, 0u64, 0u64],
            carrier_available: false,
            issuance_visible: false,
            next_sequence: 0,
            ..self
        }.logged("selected newest action pack "@ + super::short(pack.0))
    }

    /// How the search goes on from a place: the state, the place it stops at, and the issuance
    /// that has to be fetched there. The first pack that is the wallet's own is selected.
    pub open spec fn searched(self, packs: Seq<(Txid, i64)>, next: int) -> (App, int, Option<Txid>)
        decreases packs.len() - next,
    {
        if next < 0 || next >= packs.len() {
            (self, packs.len() as int, None)
        } else if self.skips_pack(packs[next]) {
            self.searched(packs, next + 1)
        } else {
            match self.issuance_lookup(packs[next].0) {
                Lookup::Registered(script) => if script == self.player_script {
                    (self.pack_selected(packs[next]), packs.len() as int, None)
                } else {
                    self.searched(packs, next + 1)
                },
                Lookup::Invalid => self.searched(packs, next + 1),
                Lookup::Unknown => (self, next, Some(packs[next].0)),
            }
        }
    }

    /// The state after an issuance was fetched for the search, and the place where it goes on.
    /// Where the answer is an error, the search fails.
    pub open spec fn search_fetched(
        self,
        packs: Seq<(Txid, i64)>,
        next: int,
        answer: Result<Seq<Signed>, Seq<char>>,
    ) -> (App, int, Option<Seq<char>>) {
        let resolved = self.issuance_resolved(packs[next].0, answer);
        match self.issuance_script(packs[next].0, answer) {
            Err(error) => (resolved, next, Some(error)),
            Ok(script) => if script == Some(self.player_script) {
                (resolved.pack_selected(packs[next]), packs.len() as int, None)
            } else {
                (resolved, next + 1, None)
            },
        }
    }
}

impl GameApp {
    /// Begins a search for the newest pack.
    pub fn begin_discovery(&mut self, spendable: &[VtxoRecord]) -> (search: Discovery)
        requires
            old(self)@.wf(),
        ensures
            final(self)@ == old(self)@.packs_seen(sync::packs_in(arkade::records_view(spendable@))),
            final(self)@.wf(),
            search@.next == 0,
            sync::newest_first(
                search@.packs,
                sync::packs_in(arkade::records_view(spendable@)),
            ),
    {
        let packs: Table<Txid, i64> = sync::find_packs(spendable);
        match self.player_id() {
            Some(player) => match packs.get(player) {
                Some(created_at) => {
                    let newest: i64 = match self.move_pack_created_at {
                        Some(known) => if known > *created_at {
                            known
                        } else {
                            *created_at
                        },
                        None => *created_at,
                    };
                    self.move_pack_created_at = Some(newest);
                },
                None => {},
            },
            None => {},
        }
        assert(self@ =~= old(self)@.packs_seen(packs@));
        Discovery { packs: sync::sort_packs(&packs), next: 0 }
    }

    fn select_pack(&mut self, txid: Txid, created_at: i64)
        requires
            old(self)@.wf(),
        ensures
            final(self)@ == old(self)@.pack_selected((txid, created_at)),
            final(self)@.wf(),
    {
        self.move_assets = Some(pack_assets(txid));
        self.move_pack_created_at = Some(created_at);
        self.move_balances = [0, 0, 0, 0, 0, 0];
        self.carrier_available = false;
        self.issuance_visible = false;
        self.next_sequence = 0;
        proof {
            assert(self@.move_balances =~= seq![0u64, 0u64, 0u64, 0u64, 0u64, 0u64]);
            assert(self@ =~= App {
                move_assets: Some(six_groups(txid)),
                move_pack_created_at: Some(created_at),
                move_balances: seq![0u64, 0u64, 0u64, 0u64, 0u64, 0u64],
                carrier_available: false,
                issuance_visible: false,
                next_sequence: 0,
                ..old(self)@
            });
        }
        let shown: String = super::short_txid(&txid);
        let mut line: String = "selected newest action pack ".to_owned();
        line.append(shown.as_str());
        self.log_line(line);
    }

    fn needs_no_look(&self, txid: Txid, created_at: i64) -> (skips: bool)
        ensures
            skips == self@.skips_pack((txid, created_at)),
    {
        let active: bool = match self.player_id() {
            Some(player) => player == txid,
            None => false,
        };
        let newest: i64 = match self.move_pack_created_at {
            Some(known) => known,
            None => i64::MIN,
        };
        active || self.move_assets.is_some() && created_at <= newest
    }

    /// Goes on with a search. Gives the issuance that has to be fetched, or nothing at the end.
    pub fn continue_discovery(&mut self, search: &mut Discovery) -> (wanted: Option<Txid>)
        requires
            old(self)@.wf(),
            0 <= old(search)@.next,
        ensures
            old(self)@.searched(old(search)@.packs, old(search)@.next) == (
                final(self)@,
                final(search)@.next,
                wanted,
            ),
            final(search)@.packs == old(search)@.packs,
            final(self)@.wf(),
            wanted is Some ==> 0 <= final(search)@.next < final(search)@.packs.len(),
    {
        let ghost start = self@.searched(search@.packs, search@.next);
        if search.next > search.packs.len() {
            search.next = search.packs.len();
        }
        while search.next < search.packs.len()
            invariant
                search.next <= search.packs@.len(),
                search.packs@ == old(search)@.packs,
                self@ == old(self)@,
                old(self)@.wf(),
                start == old(self)@.searched(old(search)@.packs, old(search)@.next),
                start == self@.searched(search.packs@, search.next as int),
            decreases search.packs@.len() - search.next,
        {
            let (txid, created_at): (Txid, i64) = search.packs[search.next];
            if !self.needs_no_look(txid, created_at) {
                match self.lookup_issuance(txid) {
                    IssuanceLookup::Registered(script) => if script == self.player_script {
                        self.select_pack(txid, created_at);
                        search.next = search.packs.len();
                        return None;
                    },
                    IssuanceLookup::Invalid => {},
                    IssuanceLookup::Unknown => {
                        return Some(txid);
                    },
                }
            }
            search.next = search.next + 1;
        }
        None
    }

    /// Takes in the answer to the request for the issuance that the search stands at.
    pub fn discovery_fetched(
        &mut self,
        search: &mut Discovery,
        answer: &Result<Vec<Psbt>, String>,
    ) -> (result: Result<(), String>)
        requires
            old(self)@.wf(),
            0 <= old(search)@.next < old(search)@.packs.len(),
        ensures
            old(self)@.search_fetched(
                old(search)@.packs,
                old(search)@.next,
                sync::fetched_view(*answer),
            ) == (final(self)@, final(search)@.next, super::error_view(result)),
            final(search)@.packs == old(search)@.packs,
            0 <= final(search)@.next,
            final(self)@.wf(),
    {
        let count: usize = search.packs.len();
        let (txid, created_at): (Txid, i64) = search.packs[search.next];
        match self.resolve_issuance(txid, answer) {
            Err(error) => Err(error),
            Ok(script) => {
                let own: bool = match script {
                    Some(script) => script == self.player_script,
                    None => false,
                };
                if own {
                    self.select_pack(txid, created_at);
                    search.next = count;
                } else {
                    search.next = search.next + 1;
                }
                Ok(())
            },
        }
    }

    /// Reports that the search failed.
    pub fn discovery_failed(&mut self, error: &str)
        requires
            old(self)@.wf(),
        ensures
            final(self)@ == old(self)@.reported("asset recovery"@, error@),
            final(self)@.wf(),
    {
        self.report_error("asset recovery", error);
    }
}

} // verus!
