//! Reading the registry of players.

use super::{App, GameApp};
use super::discovery;
use crate::arkade;
use crate::arkade::{Page, Record, VtxoPage, VtxoRecord};
use crate::chain::{OutPoint, Txid};
use crate::gamelog;
use crate::psbt::{Psbt, Signed};
use crate::seqs;
use crate::table::{Key, KeySet, Table};
use crate::text;
use vstd::prelude::*;

verus! {

/// The values of a map in ascending order of their keys.
pub open spec fn values_in_order(keys: Seq<OutPoint>, map: Map<OutPoint, Record>) -> Seq<Record> {
    keys.map_values(|k: OutPoint| map[k])
}

/// Whether a sequence lists the values of a map in ascending order of the keys.
pub open spec fn lists_values(values: Seq<Record>, map: Map<OutPoint, Record>) -> bool {
    exists|keys: Seq<OutPoint>| #[trigger]
        crate::table::ascending(keys) && (forall|k: OutPoint|
            keys.contains(k) <==> #[trigger] map.contains_key(k)) && values == values_in_order(
            keys,
            map,
        )
}

/// A copy of the values of a table, in ascending order of the keys.
pub fn copy_values(table: &Table<OutPoint, VtxoRecord>) -> (values: Vec<VtxoRecord>)
    ensures
        lists_values(arkade::records_view(values@), table@),
{
    let n: usize = table.len();
    let ghost keys = table.keys();
    let ghost expected = values_in_order(keys, table@);
    let mut values: Vec<VtxoRecord> = Vec::new();
    let mut i: usize = 0;
    while i < n
        invariant
            i <= n == keys.len(),
            keys == table.keys(),
            expected == values_in_order(keys, table@),
            arkade::records_view(values@) == expected.take(i as int),
        decreases n - i,
    {
        let ghost was = arkade::records_view(values@);
        values.push(table.value_at(i).clone());
        proof {
            assert(arkade::records_view(values@) =~= was.push(table@[keys[i as int]]));
            assert(expected.take(i + 1) =~= expected.take(i as int).push(expected[i as int]));
        }
        i += 1;
    }
    assert(expected.take(expected.len() as int) =~= expected);
    values
}

/// Whether every output of a page is seen or waits to be resolved; an empty page tells nothing.
pub open spec fn page_known(
    page: Seq<Record>,
    seen: Set<OutPoint>,
    unresolved: Map<OutPoint, Record>,
) -> bool {
    page.len() > 0 && forall|i: int|
        0 <= i < page.len() ==> seen.contains((#[trigger] page[i]).outpoint)
            || unresolved.contains_key(page[i].outpoint)
}

pub(crate) fn is_page_known(
    page: &[VtxoRecord],
    seen: &KeySet<OutPoint>,
    unresolved: &Table<OutPoint, VtxoRecord>,
) -> (known: bool)
    ensures
        known == page_known(arkade::records_view(page@), seen@, unresolved@),
{
    let ghost all = arkade::records_view(page@);
    if page.len() == 0 {
        return false;
    }
    let mut i: usize = 0;
    while i < page.len()
        invariant
            i <= page@.len(),
            all == arkade::records_view(page@),
            forall|k: int|
                0 <= k < i ==> seen@.contains((#[trigger] all[k]).outpoint)
                    || unresolved@.contains_key(all[k].outpoint),
        decreases page@.len() - i,
    {
        assert(all[i as int] == page@[i as int]@);
        if !seen.contains(page[i].outpoint) && !unresolved.contains_key(page[i].outpoint) {
            return false;
        }
        i += 1;
    }
    true
}

/// Records with those of a page behind that are of outputs neither seen nor listed.
pub open spec fn with_unseen(records: Seq<Record>, page: Seq<Record>, seen: Set<OutPoint>) -> Seq<
    Record,
>
    decreases page.len(),
{
    if page.len() == 0 {
        records
    } else {
        let before = with_unseen(records, page.drop_last(), seen);
        let last = page.last();
        if seen.contains(last.outpoint) || arkade::lists(before, last.outpoint) {
            before
        } else {
            before.push(last)
        }
    }
}

fn add_unseen(records: &mut Vec<VtxoRecord>, page: &[VtxoRecord], seen: &KeySet<OutPoint>)
    ensures
        arkade::records_view(final(records)@) == with_unseen(
            arkade::records_view(old(records)@),
            arkade::records_view(page@),
            seen@,
        ),
{
    let ghost start = arkade::records_view(records@);
    let ghost all = arkade::records_view(page@);
    let mut i: usize = 0;
    assert(all.take(0) =~= Seq::empty());
    while i < page.len()
        invariant
            i <= page@.len(),
            all == arkade::records_view(page@),
            arkade::records_view(records@) == with_unseen(start, all.take(i as int), seen@),
        decreases page@.len() - i,
    {
        proof {
            assert(all.take(i + 1).drop_last() =~= all.take(i as int));
            assert(all.take(i + 1).last() == page@[i as int]@);
        }
        if !seen.contains(page[i].outpoint) && !arkade::is_listed(records, page[i].outpoint) {
            let ghost was = arkade::records_view(records@);
            records.push(page[i].clone());
            assert(arkade::records_view(records@) =~= was.push(page@[i as int]@));
        }
        i += 1;
    }
    assert(all.take(all.len() as int) =~= all);
}

impl App {
    /// The page of the registry to ask for after this one. A partial scan ends at a page of which
    /// everything is known.
    pub open spec fn next_registry_page(self, page: Page, force_full: bool) -> Option<i32> {
        if !force_full && self.initial_registry_sync && page_known(
            page.vtxos,
            self.seen_registry_outputs,
            self.unresolved_registry_outputs,
        ) {
            None
        } else {
            arkade::next_page(page)
        }
    }

    /// With candidates remembered until they are resolved.
    pub open spec fn registry_noted(self, candidates: Seq<Record>) -> App
        decreases candidates.len(),
    {
        if candidates.len() == 0 {
            self
        } else {
            let before = self.registry_noted(candidates.drop_last());
            let last = candidates.last();
            if before.unresolved_registry_outputs.contains_key(last.outpoint) {
                before
            } else {
                App {
                    unresolved_registry_outputs: before.unresolved_registry_outputs.insert(
                        last.outpoint,
                        last,
                    ),
                    ..before
                }
            }
        }
    }

    /// With outputs of the registry resolved.
    pub open spec fn registry_seen(self, records: Seq<Record>) -> App
        decreases records.len(),
    {
        if records.len() == 0 {
            self
        } else {
            let before = self.registry_seen(records.drop_last());
            let outpoint = records.last().outpoint;
            App {
                seen_registry_outputs: before.seen_registry_outputs.insert(outpoint),
                unresolved_registry_outputs: before.unresolved_registry_outputs.remove(outpoint),
                ..before
            }
        }
    }

    /// With the player's own registration taken up, where the wallet has no assets left of it: of
    /// several the one with the lowest id.
    pub open spec fn player_recovered(self) -> App {
        if self.move_assets is Some {
            self
        } else {
            match own_registration(self.registered_players, self.player_script) {
                None => self,
                Some(txid) => App {
                    move_assets: Some(discovery::six_groups(txid)),
                    issuance_visible: true,
                    ..self
                }.logged("recovered exhausted arena registration "@ + super::short(txid)),
            }
        }
    }

    /// Whether the registry outputs of a transaction fit a registration: exactly one of them is
    /// the first output, and it holds no assets.
    pub open spec fn one_clean_marker(self, records: Seq<Record>) -> bool {
        let markers = records.filter(|r: Record| r.outpoint.vout == 0);
        markers.len() == 1 && markers[0].assets.len() == 0
    }

    /// The state with a transaction at the registry judged, and whether it is a new player.
    pub open spec fn registration_judged(
        self,
        txid: Txid,
        records: Seq<Record>,
        txs: Map<Txid, Signed>,
    ) -> (App, bool) {
        if !txs.contains_key(txid) {
            (self, false)
        } else {
            match self.script_registered_by(txs[txid]) {
                Some(script) if self.one_clean_marker(records) => (
                    App {
                        invalid_registrations: self.invalid_registrations.remove(txid),
                        registered_players: self.registered_players.insert(txid, script),
                        ..self
                    }.registry_seen(records),
                    !self.registered_players.contains_key(txid),
                ),
                _ => (
                    App {
                        invalid_registrations: self.invalid_registrations.insert(txid),
                        ..self
                    }.registry_seen(records),
                    false,
                ),
            }
        }
    }

    /// The state with all transactions of the candidates judged, in order, and the number of new
    /// players.
    pub open spec fn registrations_judged(
        self,
        txids: Seq<Txid>,
        candidates: Seq<Record>,
        txs: Map<Txid, Signed>,
    ) -> (App, nat)
        decreases txids.len(),
    {
        if txids.len() == 0 {
            (self, 0)
        } else {
            let (before, count) = self.registrations_judged(txids.drop_last(), candidates, txs);
            let (after, fresh) = before.registration_judged(
                txids.last(),
                records_of(candidates, txids.last()),
                txs,
            );
            (
                after,
                if fresh {
                    count + 1
                } else {
                    count
                },
            )
        }
    }

    /// The state after the registry was read, and the number of new players.
    pub open spec fn registry_read(
        self,
        candidates: Seq<Record>,
        txs: Map<Txid, Signed>,
    ) -> (App, nat) {
        let (judged, count) = self.registry_noted(candidates).registrations_judged(
            txids_of(candidates),
            candidates,
            txs,
        );
        (judged.player_recovered(), count)
    }
}

/// The smaller of a count and the largest 32-bit number.
pub open spec fn at_most_u32(count: nat) -> u32 {
    if count <= u32::MAX {
        count as u32
    } else {
        u32::MAX
    }
}

/// The transactions of some records, each once, in the order in which they first occur.
pub open spec fn txids_of(records: Seq<Record>) -> Seq<Txid>
    decreases records.len(),
{
    if records.len() == 0 {
        Seq::empty()
    } else {
        let before = txids_of(records.drop_last());
        let txid = records.last().outpoint.txid;
        if before.contains(txid) {
            before
        } else {
            before.push(txid)
        }
    }
}

/// The records of one transaction.
pub open spec fn records_of(records: Seq<Record>, txid: Txid) -> Seq<Record> {
    records.filter(|r: Record| r.outpoint.txid == txid)
}

/// The transactions of some records, each once, in the order in which they first occur.
pub fn distinct_txids(records: &[VtxoRecord]) -> (txids: Vec<Txid>)
    ensures
        txids@ == txids_of(arkade::records_view(records@)),
        txids@.len() <= records@.len(),
{
    let ghost all = arkade::records_view(records@);
    let mut txids: Vec<Txid> = Vec::new();
    let mut i: usize = 0;
    assert(all.take(0) =~= Seq::empty());
    while i < records.len()
        invariant
            i <= records@.len(),
            all == arkade::records_view(records@),
            txids@ == txids_of(all.take(i as int)),
            txids@.len() <= i,
        decreases records@.len() - i,
    {
        proof {
            assert(all.take(i + 1).drop_last() =~= all.take(i as int));
            assert(all.take(i + 1).last() == records@[i as int]@);
        }
        if !super::sync::has_id(&txids, records[i].outpoint.txid) {
            txids.push(records[i].outpoint.txid);
        }
        i += 1;
    }
    assert(all.take(all.len() as int) =~= all);
    txids
}

/// The records of one transaction.
pub(crate) fn select_records(records: &[VtxoRecord], txid: Txid) -> (selected: Vec<VtxoRecord>)
    ensures
        arkade::records_view(selected@) == records_of(arkade::records_view(records@), txid),
{
    let ghost all = arkade::records_view(records@);
    let ghost wanted = |r: Record| r.outpoint.txid == txid;
    let mut selected: Vec<VtxoRecord> = Vec::new();
    let mut i: usize = 0;
    proof {
        seqs::lemma_filter_none(all, wanted);
        assert(arkade::records_view(selected@) =~= Seq::<Record>::empty());
    }
    while i < records.len()
        invariant
            i <= records@.len(),
            all == arkade::records_view(records@),
            wanted == (|r: Record| r.outpoint.txid == txid),
            arkade::records_view(selected@) == all.take(i as int).filter(wanted),
        decreases records@.len() - i,
    {
        proof {
            seqs::lemma_filter_next(all, i as int, wanted);
            assert(all[i as int] == records@[i as int]@);
        }
        if records[i].outpoint.txid == txid {
            let ghost was = arkade::records_view(selected@);
            selected.push(records[i].clone());
            assert(arkade::records_view(selected@) =~= was.push(records@[i as int]@));
        }
        i += 1;
    }
    assert(all.take(all.len() as int) =~= all);
    selected
}

/// Whether an issuance registered a script, whatever the case of its digits, and has the lowest id
/// of those that did.
pub open spec fn is_own_registration(
    registered: Map<Txid, Seq<char>>,
    script: Seq<char>,
    txid: Txid,
) -> bool {
    registered.contains_key(txid) && text::lower(registered[txid]) == text::lower(script)
        && forall|other: Txid| #[trigger]
        registered.contains_key(other) && text::lower(registered[other]) == text::lower(script)
            ==> !other.before(txid)
}

pub open spec fn own_registration(registered: Map<Txid, Seq<char>>, script: Seq<char>) -> Option<
    Txid,
> {
    if exists|txid: Txid| is_own_registration(registered, script, txid) {
        Some(choose|txid: Txid| is_own_registration(registered, script, txid))
    } else {
        None
    }
}

impl GameApp {
    /// Begins a scan of the registry with the outputs that wait to be resolved.
    pub fn begin_registry_scan(&self) -> (records: Vec<VtxoRecord>)
        ensures
            lists_values(
                arkade::records_view(records@),
                self@.unresolved_registry_outputs,
            ),
    {
        copy_values(&self.unresolved_registry_outputs)
    }

    /// Takes in a page of the registry, and gives the page to ask for next.
    pub fn absorb_registry_page(
        &self,
        records: &mut Vec<VtxoRecord>,
        page: &VtxoPage,
        force_full: bool,
    ) -> (next: Option<i32>)
        ensures
            arkade::records_view(final(records)@) == with_unseen(
                arkade::records_view(old(records)@),
                page@.vtxos,
                self@.seen_registry_outputs,
            ),
            next == self@.next_registry_page(page@, force_full),
    {
        let known: bool = is_page_known(
            &page.vtxos,
            &self.seen_registry_outputs,
            &self.unresolved_registry_outputs,
        );
        add_unseen(records, &page.vtxos, &self.seen_registry_outputs);
        if !force_full && self.initial_registry_sync && known {
            None
        } else {
            arkade::following_page(page)
        }
    }

    fn note_registry(&mut self, candidates: &[VtxoRecord])
        requires
            old(self)@.wf(),
        ensures
            final(self)@ == old(self)@.registry_noted(arkade::records_view(candidates@)),
            final(self)@.wf(),
    {
        let ghost all = arkade::records_view(candidates@);
        let mut i: usize = 0;
        assert(all.take(0) =~= Seq::empty());
        while i < candidates.len()
            invariant
                i <= candidates@.len(),
                all == arkade::records_view(candidates@),
                self@ == old(self)@.registry_noted(all.take(i as int)),
                self@.wf(),
            decreases candidates@.len() - i,
        {
            let ghost before = self@;
            proof {
                assert(all.take(i + 1).drop_last() =~= all.take(i as int));
                assert(all.take(i + 1).last() == candidates@[i as int]@);
            }
            let outpoint: OutPoint = candidates[i].outpoint;
            if !self.unresolved_registry_outputs.contains_key(outpoint) {
                let _ = self.unresolved_registry_outputs.insert(outpoint, candidates[i].clone());
                assert(self@ =~= App {
                    unresolved_registry_outputs: before.unresolved_registry_outputs.insert(
                        outpoint,
                        candidates@[i as int]@,
                    ),
                    ..before
                });
            }
            i += 1;
        }
        assert(all.take(all.len() as int) =~= all);
    }

    fn mark_registry_outputs_seen(&mut self, records: &[VtxoRecord])
        requires
            old(self)@.wf(),
        ensures
            final(self)@ == old(self)@.registry_seen(arkade::records_view(records@)),
            final(self)@.wf(),
    {
        let ghost all = arkade::records_view(records@);
        let mut i: usize = 0;
        assert(all.take(0) =~= Seq::empty());
        while i < records.len()
            invariant
                i <= records@.len(),
                all == arkade::records_view(records@),
                self@ == old(self)@.registry_seen(all.take(i as int)),
                self@.wf(),
            decreases records@.len() - i,
        {
            let ghost before = self@;
            let outpoint: OutPoint = records[i].outpoint;
            proof {
                assert(all.take(i + 1).drop_last() =~= all.take(i as int));
                assert(all.take(i + 1).last().outpoint == outpoint);
            }
            let _ = self.seen_registry_outputs.insert(outpoint);
            self.unresolved_registry_outputs.remove(outpoint);
            assert(self@ =~= App {
                seen_registry_outputs: before.seen_registry_outputs.insert(outpoint),
                unresolved_registry_outputs: before.unresolved_registry_outputs.remove(outpoint),
                ..before
            });
            i += 1;
        }
        assert(all.take(all.len() as int) =~= all);
    }

    fn find_own_registration(&self) -> (txid: Option<Txid>)
        ensures
            txid == own_registration(self@.registered_players, self@.player_script),
    {
        let ghost registered = self@.registered_players;
        let ghost script = self@.player_script;
        let ghost keys = self.registered_players.keys();
        let n: usize = self.registered_players.len();
        let mut i: usize = 0;
        while i < n
            invariant
                i <= n == keys.len(),
                keys == self.registered_players.keys(),
                registered == self.registered_players@,
                registered == self@.registered_players,
                script == self@.player_script,
                script == self.player_script@,
                crate::table::ascending(keys),
                forall|k: Txid| keys.contains(k) <==> #[trigger] registered.contains_key(k),
                forall|k: int|
                    0 <= k < i ==> text::lower(registered[#[trigger] keys[k]]) != text::lower(
                        script,
                    ),
            decreases n - i,
        {
            let txid: Txid = self.registered_players.key_at(i);
            let own: bool = text::same_ignoring_case(
                self.registered_players.value_at(i).as_str(),
                self.player_script.as_str(),
            );
            if own {
                proof {
                    assert forall|other: Txid| #[trigger]
                        registered.contains_key(other) && text::lower(registered[other])
                            == text::lower(script) implies !other.before(txid) by {
                        let k = keys.index_of(other);
                        assert(keys[k] == other);
                        Txid::lemma_before_total(other, txid);
                        if k > i {
                            assert(keys[i as int].before(keys[k]));
                            Txid::lemma_before_total(txid, other);
                        }
                    }
                    assert(is_own_registration(registered, script, txid));
                    let chosen = choose|t: Txid| is_own_registration(registered, script, t);
                    assert(!chosen.before(txid));
                    assert(!txid.before(chosen)) by {
                        assert(registered.contains_key(txid));
                    }
                    Txid::lemma_before_total(chosen, txid);
                }
                return Some(txid);
            }
            i += 1;
        }
        proof {
            assert forall|t: Txid| !is_own_registration(registered, script, t) by {
                if registered.contains_key(t) {
                    let k = keys.index_of(t);
                    assert(keys[k] == t);
                }
            }
        }
        None
    }

    fn recover_registered_player(&mut self)
        requires
            old(self)@.wf(),
        ensures
            final(self)@ == old(self)@.player_recovered(),
            final(self)@.wf(),
    {
        if self.move_assets.is_some() {
            return ;
        }
        match self.find_own_registration() {
            None => {},
            Some(txid) => {
                self.move_assets = Some(discovery::pack_assets(txid));
                self.issuance_visible = true;
                assert(self@ =~= App {
                    move_assets: Some(discovery::six_groups(txid)),
                    issuance_visible: true,
                    ..old(self)@
                });
                let shown: String = super::short_txid(&txid);
                let mut line: String = "recovered exhausted arena registration ".to_owned();
                line.append(shown.as_str());
                self.log_line(line);
            },
        }
    }

    fn has_one_clean_marker(&self, records: &[VtxoRecord]) -> (clean: bool)
        ensures
            clean == self@.one_clean_marker(arkade::records_view(records@)),
    {
        let ghost all = arkade::records_view(records@);
        let ghost wanted = |r: Record| r.outpoint.vout == 0;
        let mut count: usize = 0;
        let mut clean: bool = false;
        let mut i: usize = 0;
        proof {
            seqs::lemma_filter_none(all, wanted);
        }
        while i < records.len()
            invariant
                i <= records@.len(),
                count <= i,
                all == arkade::records_view(records@),
                wanted == (|r: Record| r.outpoint.vout == 0),
                count == all.take(i as int).filter(wanted).len(),
                count >= 1 ==> clean == (all.take(i as int).filter(wanted)[0].assets.len() == 0),
            decreases records@.len() - i,
        {
            proof {
                seqs::lemma_filter_next(all, i as int, wanted);
                assert(all[i as int] == records@[i as int]@);
                assert(all[i as int].assets.len() == records@[i as int].assets@.len());
            }
            if records[i].outpoint.vout == 0 {
                if count == 0 {
                    clean = records[i].assets.len() == 0;
                }
                count += 1;
            }
            i += 1;
        }
        assert(all.take(all.len() as int) =~= all);
        count == 1 && clean
    }

    fn judge_registration(
        &mut self,
        txid: Txid,
        records: &[VtxoRecord],
        txs: &Table<Txid, Psbt>,
    ) -> (fresh: bool)
        requires
            old(self)@.wf(),
        ensures
            (final(self)@, fresh) == old(self)@.registration_judged(
                txid,
                arkade::records_view(records@),
                txs@,
            ),
            final(self)@.wf(),
    {
        let psbt: &Psbt = match txs.get(txid) {
            Some(psbt) => psbt,
            None => {
                return false;
            },
        };
        let script: Option<String> = gamelog::registration_player_script(
            psbt.unsigned_tx(),
            self.game_script.as_str(),
            self.params.dust_sats,
        );
        let clean: bool = self.has_one_clean_marker(records);
        match script {
            Some(script) => if clean {
                self.invalid_registrations.remove(txid);
                let fresh: bool = self.registered_players.insert(txid, script);
                assert(self@ =~= App {
                    invalid_registrations: old(self)@.invalid_registrations.remove(txid),
                    registered_players: old(self)@.registered_players.insert(txid, script@),
                    ..old(self)@
                });
                self.mark_registry_outputs_seen(records);
                return fresh;
            },
            None => {},
        }
        let _ = self.invalid_registrations.insert(txid);
        assert(self@ =~= App {
            invalid_registrations: old(self)@.invalid_registrations.insert(txid),
            ..old(self)@
        });
        self.mark_registry_outputs_seen(records);
        false
    }

    /// Takes in the candidates of a scan of the registry, with the transactions of those that
    /// could be fetched. Tells how many players are new.
    pub fn read_registry(&mut self, candidates: &[VtxoRecord], txs: &Table<Txid, Psbt>) -> (count: u32)
        requires
            old(self)@.wf(),
        ensures
            final(self)@ == old(self)@.registry_read(arkade::records_view(candidates@), txs@).0,
            count == at_most_u32(
                old(self)@.registry_read(arkade::records_view(candidates@), txs@).1,
            ),
            final(self)@.wf(),
    {
        let ghost all = arkade::records_view(candidates@);
        self.note_registry(candidates);
        let ghost noted = self@;
        let txids: Vec<Txid> = distinct_txids(candidates);
        let ghost ids = txids@;
        let mut count: usize = 0;
        let mut i: usize = 0;
        assert(ids.take(0) =~= Seq::empty());
        while i < txids.len()
            invariant
                i <= txids@.len(),
                count <= i,
                ids == txids@,
                all == arkade::records_view(candidates@),
                (self@, count as nat) == noted.registrations_judged(
                    ids.take(i as int),
                    all,
                    txs@,
                ),
                self@.wf(),
            decreases txids@.len() - i,
        {
            proof {
                assert(ids.take(i + 1).drop_last() =~= ids.take(i as int));
                assert(ids.take(i + 1).last() == txids@[i as int]);
            }
            let records: Vec<VtxoRecord> = select_records(candidates, txids[i]);
            if self.judge_registration(txids[i], &records, txs) {
                count += 1;
            }
            i += 1;
        }
        assert(ids.take(ids.len() as int) =~= ids);
        self.recover_registered_player();
        if count <= u32::MAX as usize {
            count as u32
        } else {
            u32::MAX
        }
    }
}

} // verus!
