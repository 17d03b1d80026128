//! Reading the actions of all players.

use super::registry;
use super::sync;
use super::sync::{IssuanceLookup, Lookup};
use super::{App, GameApp, PLAYER_SCRIPT_BATCH_SIZE};
use crate::actions::ActionEvent;
use crate::arkade;
use crate::arkade::{Page, Record, VtxoPage, VtxoRecord};
use crate::chain::{OutPoint, Txid};
use crate::gamelog;
use crate::gamelog::{Burn, MoveBurn};
use crate::pending;
use crate::psbt::{Psbt, Signed};
use crate::script;
use crate::table::Table;
use crate::text;
use vstd::prelude::*;

verus! {

/// Whether each text lies before every later one; in particular no text occurs twice.
pub open spec fn in_text_order(texts: Seq<Seq<char>>) -> bool {
    forall|i: int, j: int|
        0 <= i < j < texts.len() ==> text::text_less(#[trigger] texts[i], #[trigger] texts[j])
}

/// Adds a text to texts in order, unless it is there.
fn insert_text(list: &mut Vec<String>, item: &str)
    requires
        in_text_order(text::texts(old(list)@)),
    ensures
        in_text_order(text::texts(final(list)@)),
        forall|t: Seq<char>| #[trigger]
            text::texts(final(list)@).contains(t) <==> text::texts(old(list)@).contains(t) || t
                == item@,
{
    let ghost was = text::texts(list@);
    let mut i: usize = list.len();
    while i > 0 && text::text_precedes(item, list[i - 1].as_str())
        invariant
            i <= list@.len(),
            list@ == old(list)@,
            was == text::texts(list@),
            forall|k: int| i <= k < was.len() ==> text::text_less(item@, #[trigger] was[k]),
        decreases i,
    {
        assert(was[i - 1] == list@[i - 1]@);
        i -= 1;
    }
    if i > 0 && text::same_text(list[i - 1].as_str(), item) {
        assert(was[i - 1] == item@);
        return ;
    }
    proof {
        assert forall|k: int| 0 <= k < i implies text::text_less(#[trigger] was[k], item@) by {
            assert(was[i - 1] == list@[i - 1]@);
            text::lemma_text_less_total(was[i - 1], item@);
            if k < i - 1 {
                assert(text::text_less(was[k], was[i - 1]));
                text::lemma_text_less_transitive(was[k], was[i - 1], item@);
            }
        }
    }
    list.insert(i, item.to_owned());
    proof {
        let now = text::texts(list@);
        assert(now =~= was.insert(i as int, item@));
        assert forall|t: Seq<char>| #[trigger] now.contains(t) <==> was.contains(t) || t
            == item@ by {
            if was.contains(t) {
                let k = was.index_of(t);
                assert(now[if k < i { k } else { k + 1 }] == t);
            }
            if now.contains(t) && t != item@ {
                let k = now.index_of(t);
                assert(was[if k < i { k } else { k - 1 }] == t);
            }
            assert(now[i as int] == item@);
        }
    }
}

/// Whether some issuance registered a script.
pub open spec fn is_registered_script(registered: Map<Txid, Seq<char>>, script: Seq<char>) -> bool {
    exists|id: Txid| #[trigger] registered.contains_key(id) && registered[id] == script
}

/// Where the next batch ends that starts at a place.
pub open spec fn batch_end(from: int, len: int) -> int {
    if from + PLAYER_SCRIPT_BATCH_SIZE <= len {
        from + PLAYER_SCRIPT_BATCH_SIZE
    } else {
        len
    }
}

/// The next scripts to ask for, from a place on: as many as are asked for at once.
pub fn script_batch(scripts: &[String], from: usize) -> (batch: Vec<String>)
    requires
        from <= scripts@.len(),
    ensures
        text::texts(batch@) == text::texts(scripts@).subrange(
            from as int,
            batch_end(from as int, scripts@.len() as int),
        ),
{
    let end: usize = if scripts.len() - from <= PLAYER_SCRIPT_BATCH_SIZE {
        scripts.len()
    } else {
        from + PLAYER_SCRIPT_BATCH_SIZE
    };
    let ghost all = text::texts(scripts@).subrange(from as int, end as int);
    let mut batch: Vec<String> = Vec::new();
    let mut i: usize = from;
    assert(text::texts(batch@) =~= all.take(0));
    while i < end
        invariant
            from <= i <= end <= scripts@.len(),
            all == text::texts(scripts@).subrange(from as int, end as int),
            text::texts(batch@) == all.take(i - from),
        decreases end - i,
    {
        let ghost was = text::texts(batch@);
        batch.push(scripts[i].clone());
        proof {
            assert(text::texts(batch@) =~= was.push(scripts@[i as int]@));
            assert(all[i - from] == scripts@[i as int]@);
            assert(all.take(i - from + 1) =~= all.take(i - from).push(all[i - from]));
        }
        i += 1;
    }
    assert(all.take(all.len() as int) =~= all);
    batch
}

/// Records with the time of an output filled in, where the first record of it has none.
pub open spec fn with_time(records: Seq<Record>, outpoint: OutPoint, created_at: Option<i64>) -> Seq<
    Record,
>
    decreases records.len(),
{
    if records.len() == 0 {
        records
    } else {
        let last = records.last();
        if arkade::lists(records.drop_last(), outpoint) {
            with_time(records.drop_last(), outpoint, created_at).push(last)
        } else if last.outpoint == outpoint && last.created_at is None {
            records.drop_last().push(Record { created_at, ..last })
        } else {
            records
        }
    }
}

/// Records with a found one taken in: it fills in the time of a listed output, and is added where
/// its output is neither listed nor seen.
pub open spec fn with_found(records: Seq<Record>, found: Record, seen: Set<OutPoint>) -> Seq<
    Record,
> {
    if arkade::lists(records, found.outpoint) {
        with_time(records, found.outpoint, found.created_at)
    } else if seen.contains(found.outpoint) {
        records
    } else {
        records.push(found)
    }
}

/// Records with all found ones taken in.
pub open spec fn with_all_found(records: Seq<Record>, found: Seq<Record>, seen: Set<OutPoint>) -> Seq<
    Record,
>
    decreases found.len(),
{
    if found.len() == 0 {
        records
    } else {
        with_found(with_all_found(records, found.drop_last(), seen), found.last(), seen)
    }
}

proof fn lemma_with_time(records: Seq<Record>, outpoint: OutPoint, created_at: Option<i64>, i: int)
    requires
        0 <= i < records.len(),
        records[i].outpoint == outpoint,
        forall|k: int| 0 <= k < i ==> (#[trigger] records[k]).outpoint != outpoint,
    ensures
        with_time(records, outpoint, created_at) == if records[i].created_at is None {
            records.update(i, Record { created_at, ..records[i] })
        } else {
            records
        },
    decreases records.len(),
{
    let shorter = records.drop_last();
    if i < records.len() - 1 {
        assert(shorter[i].outpoint == outpoint);
        assert forall|k: int| 0 <= k < i implies (#[trigger] shorter[k]).outpoint != outpoint by {
            assert(shorter[k] == records[k]);
        }
        lemma_with_time(shorter, outpoint, created_at, i);
        assert(shorter.push(records.last()) =~= records);
        assert(shorter.update(i, Record { created_at, ..records[i] }).push(records.last())
            =~= records.update(i, Record { created_at, ..records[i] }));
    } else {
        assert forall|k: int| 0 <= k < shorter.len() implies (#[trigger] shorter[k]).outpoint
            != outpoint by {
            assert(shorter[k] == records[k]);
        }
        assert(shorter.push(Record { created_at, ..records[i] }) =~= records.update(
            i,
            Record { created_at, ..records[i] },
        ));
    }
}

fn dated(record: &VtxoRecord, created_at: Option<i64>) -> (copy: VtxoRecord)
    ensures
        copy@ == (Record { created_at, ..record@ }),
{
    let mut copy: VtxoRecord = record.clone();
    copy.created_at = created_at;
    copy
}

fn take_found(records: &mut Vec<VtxoRecord>, found: &VtxoRecord, seen: bool)
    ensures
        arkade::records_view(final(records)@) == with_found(
            arkade::records_view(old(records)@),
            found@,
            if seen {
                Set::empty().insert(found@.outpoint)
            } else {
                Set::empty()
            },
        ),
{
    let ghost all = arkade::records_view(records@);
    let mut i: usize = 0;
    while i < records.len()
        invariant
            i <= records@.len(),
            records@ == old(records)@,
            all == arkade::records_view(records@),
            forall|k: int| 0 <= k < i ==> (#[trigger] all[k]).outpoint != found@.outpoint,
        decreases records@.len() - i,
    {
        assert(all[i as int] == records@[i as int]@);
        if records[i].outpoint == found.outpoint {
            proof {
                lemma_with_time(all, found@.outpoint, found@.created_at, i as int);
            }
            if records[i].created_at.is_none() {
                let copy: VtxoRecord = dated(&records[i], found.created_at);
                records.set(i, copy);
                assert(arkade::records_view(records@) =~= all.update(
                    i as int,
                    Record { created_at: found@.created_at, ..all[i as int] },
                ));
            }
            return ;
        }
        i += 1;
    }
    if !seen {
        records.push(found.clone());
        assert(arkade::records_view(records@) =~= all.push(found@));
    }
}

impl App {
    /// Whether a scan of some scripts has to go through all pages: on request, or because one of
    /// them was never scanned to the end.
    pub open spec fn scans_all(self, scripts: Seq<Seq<char>>, force_full: bool) -> bool {
        force_full || exists|i: int|
            0 <= i < scripts.len() && !self.fully_scanned_player_scripts.contains(
                #[trigger] scripts[i],
            )
    }

    /// The page of the players' outputs to ask for after this one. A partial scan ends at a page of
    /// which everything is known.
    pub open spec fn next_player_page(self, page: Page, scan_all: bool) -> Option<i32> {
        if !scan_all && self.initial_player_sync && registry::page_known(
            page.vtxos,
            self.seen_player_outputs,
            self.unresolved_player_outputs,
        ) {
            None
        } else {
            arkade::next_page(page)
        }
    }

    /// With scripts marked as scanned to the end.
    pub open spec fn scripts_scanned(self, scripts: Seq<Seq<char>>) -> App {
        App {
            fully_scanned_player_scripts: self.fully_scanned_player_scripts.union(scripts.to_set()),
            ..self
        }
    }

    /// With a candidate remembered until it is resolved, or its time filled in.
    pub open spec fn candidate_noted(self, record: Record) -> App {
        let o = record.outpoint;
        let unresolved = self.unresolved_player_outputs;
        if !unresolved.contains_key(o) {
            App { unresolved_player_outputs: unresolved.insert(o, record), ..self }
        } else if unresolved[o].created_at is None {
            App {
                unresolved_player_outputs: unresolved.insert(
                    o,
                    Record { created_at: record.created_at, ..unresolved[o] },
                ),
                ..self
            }
        } else {
            self
        }
    }

    /// With all candidates remembered.
    pub open spec fn candidates_noted(self, candidates: Seq<Record>) -> App
        decreases candidates.len(),
    {
        if candidates.len() == 0 {
            self
        } else {
            self.candidates_noted(candidates.drop_last()).candidate_noted(candidates.last())
        }
    }

    /// With outputs of players resolved.
    pub open spec fn player_seen(self, records: Seq<Record>) -> App
        decreases records.len(),
    {
        if records.len() == 0 {
            self
        } else {
            let before = self.player_seen(records.drop_last());
            let outpoint = records.last().outpoint;
            App {
                seen_player_outputs: before.seen_player_outputs.insert(outpoint),
                unresolved_player_outputs: before.unresolved_player_outputs.remove(outpoint),
                ..before
            }
        }
    }
}

impl GameApp {
    /// The scripts of all registered players, each once, in order.
    pub fn player_scripts(&self) -> (scripts: Vec<String>)
        ensures
            in_text_order(text::texts(scripts@)),
            forall|s: Seq<char>| #[trigger]
                text::texts(scripts@).contains(s) <==> is_registered_script(
                    self@.registered_players,
                    s,
                ),
    {
        let n: usize = self.registered_players.len();
        let ghost keys = self.registered_players.keys();
        let ghost registered = self.registered_players@;
        let mut scripts: Vec<String> = Vec::new();
        let mut i: usize = 0;
        while i < n
            invariant
                i <= n == keys.len(),
                keys == self.registered_players.keys(),
                registered == self.registered_players@,
                in_text_order(text::texts(scripts@)),
                forall|s: Seq<char>| #[trigger]
                    text::texts(scripts@).contains(s) <==> exists|k: int|
                        0 <= k < i && registered[#[trigger] keys[k]] == s,
            decreases n - i,
        {
            let ghost was = text::texts(scripts@);
            insert_text(&mut scripts, self.registered_players.value_at(i).as_str());
            proof {
                let now = text::texts(scripts@);
                assert forall|s: Seq<char>| #[trigger] now.contains(s) <==> exists|k: int|
                    0 <= k < i + 1 && registered[#[trigger] keys[k]] == s by {
                    if now.contains(s) {
                        if was.contains(s) {
                            let k = choose|k: int|
                                0 <= k < i && registered[#[trigger] keys[k]] == s;
                            assert(registered[keys[k]] == s);
                        } else {
                            assert(registered[keys[i as int]] == s);
                        }
                    }
                    if exists|k: int| 0 <= k < i + 1 && registered[#[trigger] keys[k]] == s {
                        let k = choose|k: int|
                            0 <= k < i + 1 && registered[#[trigger] keys[k]] == s;
                        if k < i {
                            assert(was.contains(s));
                        }
                    }
                }
            }
            i += 1;
        }
        proof {
            assert forall|s: Seq<char>| #[trigger]
                text::texts(scripts@).contains(s) <==> is_registered_script(registered, s) by {
                if text::texts(scripts@).contains(s) {
                    let k = choose|k: int| 0 <= k < n && registered[#[trigger] keys[k]] == s;
                    assert(registered.contains_key(keys[k]));
                }
                if is_registered_script(registered, s) {
                    let id = choose|id: Txid| #[trigger]
                        registered.contains_key(id) && registered[id] == s;
                    assert(keys.contains(id));
                    assert(registered[keys[keys.index_of(id)]] == s);
                }
            }
        }
        scripts
    }

    /// Whether a scan of some scripts has to go through all pages.
    pub fn scans_all(&self, scripts: &[String], force_full: bool) -> (all: bool)
        ensures
            all == self@.scans_all(text::texts(scripts@), force_full),
    {
        let ghost list = text::texts(scripts@);
        if force_full {
            return true;
        }
        let mut i: usize = 0;
        while i < scripts.len()
            invariant
                i <= scripts@.len(),
                list == text::texts(scripts@),
                forall|k: int|
                    0 <= k < i ==> self@.fully_scanned_player_scripts.contains(#[trigger] list[k]),
            decreases scripts@.len() - i,
        {
            assert(list[i as int] == scripts@[i as int]@);
            if !self.fully_scanned_player_scripts.contains(scripts[i].as_str()) {
                return true;
            }
            i += 1;
        }
        false
    }

    /// Takes in a page of a scan, and gives the page to ask for next.
    pub fn absorb_player_page(
        &self,
        found: &mut Vec<VtxoRecord>,
        page: &VtxoPage,
        scan_all: bool,
    ) -> (next: Option<i32>)
        ensures
            arkade::records_view(final(found)@) == arkade::records_view(old(found)@) + page@.vtxos,
            next == self@.next_player_page(page@, scan_all),
    {
        let ghost start = arkade::records_view(found@);
        let ghost all = arkade::records_view(page.vtxos@);
        let mut i: usize = 0;
        assert(start + all.take(0) =~= start);
        while i < page.vtxos.len()
            invariant
                i <= page.vtxos@.len(),
                all == arkade::records_view(page.vtxos@),
                arkade::records_view(found@) == start + all.take(i as int),
            decreases page.vtxos@.len() - i,
        {
            let ghost was = arkade::records_view(found@);
            found.push(page.vtxos[i].clone());
            proof {
                assert(arkade::records_view(found@) =~= was.push(page.vtxos@[i as int]@));
                assert(start + all.take(i + 1) =~= (start + all.take(i as int)).push(
                    all[i as int],
                ));
            }
            i += 1;
        }
        assert(all.take(all.len() as int) =~= all);
        if !scan_all && self.initial_player_sync && registry::is_page_known(
            &page.vtxos,
            &self.seen_player_outputs,
            &self.unresolved_player_outputs,
        ) {
            None
        } else {
            arkade::following_page(page)
        }
    }

    /// Begins a scan of the players' outputs with those that wait to be resolved.
    pub fn begin_player_scan(&self) -> (records: Vec<VtxoRecord>)
        ensures
            registry::lists_values(
                arkade::records_view(records@),
                self@.unresolved_player_outputs,
            ),
    {
        registry::copy_values(&self.unresolved_player_outputs)
    }

    /// Takes what the scan of some scripts found into the records of all.
    pub fn merge_player_records(&self, records: &mut Vec<VtxoRecord>, found: &[VtxoRecord])
        ensures
            arkade::records_view(final(records)@) == with_all_found(
                arkade::records_view(old(records)@),
                arkade::records_view(found@),
                self@.seen_player_outputs,
            ),
    {
        let ghost start = arkade::records_view(records@);
        let ghost all = arkade::records_view(found@);
        let ghost seen_outputs = self@.seen_player_outputs;
        let mut i: usize = 0;
        assert(all.take(0) =~= Seq::empty());
        while i < found.len()
            invariant
                i <= found@.len(),
                all == arkade::records_view(found@),
                seen_outputs == self@.seen_player_outputs,
                seen_outputs == self.seen_player_outputs@,
                arkade::records_view(records@) == with_all_found(
                    start,
                    all.take(i as int),
                    seen_outputs,
                ),
            decreases found@.len() - i,
        {
            proof {
                assert(all.take(i + 1).drop_last() =~= all.take(i as int));
                assert(all.take(i + 1).last() == found@[i as int]@);
            }
            let seen: bool = self.seen_player_outputs.contains(found[i].outpoint);
            take_found(records, &found[i], seen);
            i += 1;
        }
        assert(all.take(all.len() as int) =~= all);
    }

    /// Marks scripts as scanned to the end.
    pub fn note_scanned(&mut self, scripts: &[String])
        requires
            old(self)@.wf(),
        ensures
            final(self)@ == old(self)@.scripts_scanned(text::texts(scripts@)),
            final(self)@.wf(),
    {
        let ghost all = text::texts(scripts@);
        let ghost start = self@.fully_scanned_player_scripts;
        let mut i: usize = 0;
        proof {
            assert(self@ =~= App {
                fully_scanned_player_scripts: start.union(all.take(0).to_set()),
                ..old(self)@
            });
        }
        while i < scripts.len()
            invariant
                i <= scripts@.len(),
                all == text::texts(scripts@),
                self@ == (App {
                    fully_scanned_player_scripts: start.union(all.take(i as int).to_set()),
                    ..old(self)@
                }),
            decreases scripts@.len() - i,
        {
            let ghost was = all.take(i as int);
            let ghost now = all.take(i + 1);
            self.fully_scanned_player_scripts.insert(scripts[i].as_str());
            proof {
                let added = scripts@[i as int]@;
                assert(now =~= was.push(added));
                assert forall|t: Seq<char>| #[trigger] now.to_set().contains(t)
                    <==> was.to_set().contains(t) || t == added by {
                    if was.contains(t) {
                        assert(now[was.index_of(t)] == t);
                    }
                    if now.contains(t) && t != added {
                        assert(was[now.index_of(t)] == t);
                    }
                    assert(now[i as int] == added);
                }
                assert(start.union(was.to_set()).insert(added) =~= start.union(now.to_set()));
                assert(self@ =~= App {
                    fully_scanned_player_scripts: start.union(now.to_set()),
                    ..old(self)@
                });
            }
            i += 1;
        }
        assert(all.take(all.len() as int) =~= all);
    }

    /// Remembers candidates until they are resolved.
    pub fn note_player_candidates(&mut self, candidates: &[VtxoRecord])
        requires
            old(self)@.wf(),
        ensures
            final(self)@ == old(self)@.candidates_noted(arkade::records_view(candidates@)),
            final(self)@.wf(),
    {
        let ghost all = arkade::records_view(candidates@);
        let mut i: usize = 0;
        assert(all.take(0) =~= Seq::empty());
        while i < candidates.len()
            invariant
                i <= candidates@.len(),
                all == arkade::records_view(candidates@),
                self@ == old(self)@.candidates_noted(all.take(i as int)),
                self@.wf(),
            decreases candidates@.len() - i,
        {
            let ghost before = self@;
            proof {
                assert(all.take(i + 1).drop_last() =~= all.take(i as int));
                assert(all.take(i + 1).last() == candidates@[i as int]@);
            }
            let outpoint: OutPoint = candidates[i].outpoint;
            let noted: Option<VtxoRecord> = match self.unresolved_player_outputs.get(outpoint) {
                None => Some(candidates[i].clone()),
                Some(known) => if known.created_at.is_none() {
                    Some(dated(known, candidates[i].created_at))
                } else {
                    None
                },
            };
            match noted {
                Some(record) => {
                    let _ = self.unresolved_player_outputs.insert(outpoint, record);
                },
                None => {},
            }
            assert(self@ =~= before.candidate_noted(candidates@[i as int]@));
            i += 1;
        }
        assert(all.take(all.len() as int) =~= all);
    }

    fn mark_player_outputs_seen(&mut self, records: &[VtxoRecord])
        requires
            old(self)@.wf(),
        ensures
            final(self)@ == old(self)@.player_seen(arkade::records_view(records@)),
            final(self)@.wf(),
    {
        let ghost all = arkade::records_view(records@);
        let mut i: usize = 0;
        assert(all.take(0) =~= Seq::empty());
        while i < records.len()
            invariant
                i <= records@.len(),
                all == arkade::records_view(records@),
                self@ == old(self)@.player_seen(all.take(i as int)),
                self@.wf(),
            decreases records@.len() - i,
        {
            let ghost before = self@;
            let outpoint: OutPoint = records[i].outpoint;
            proof {
                assert(all.take(i + 1).drop_last() =~= all.take(i as int));
                assert(all.take(i + 1).last().outpoint == outpoint);
            }
            let _ = self.seen_player_outputs.insert(outpoint);
            self.unresolved_player_outputs.remove(outpoint);
            assert(self@ =~= App {
                seen_player_outputs: before.seen_player_outputs.insert(outpoint),
                unresolved_player_outputs: before.unresolved_player_outputs.remove(outpoint),
                ..before
            });
            i += 1;
        }
        assert(all.take(all.len() as int) =~= all);
    }
}

/// The candidates of a scan, their transactions, and the transactions of the carriers that those
/// spend, as far as they could be fetched.
pub struct MoveBatch {
    pub candidates: Vec<VtxoRecord>,
    pub txs: Table<Txid, Psbt>,
    pub carriers: Table<Txid, Psbt>,
}

/// What a `MoveBatch` holds.
#[verifier::ext_equal]
pub struct Batch {
    pub candidates: Seq<Record>,
    pub txs: Map<Txid, Signed>,
    pub carriers: Map<Txid, Signed>,
}

impl View for MoveBatch {
    type V = Batch;

    open spec fn view(&self) -> Batch {
        Batch {
            candidates: arkade::records_view(self.candidates@),
            txs: self.txs@,
            carriers: self.carriers@,
        }
    }
}

/// The burn that a transaction with a single input makes, with the carrier that it spends.
pub open spec fn carried_burn(tx: Signed) -> Option<(Burn, OutPoint)> {
    match (gamelog::burn_of(tx.tx.output), pending::only_input(tx.tx)) {
        (Some(burn), Some(carrier)) => Some((burn, carrier)),
        _ => None,
    }
}

fn find_burn(psbt: &Psbt) -> (burn: Option<(MoveBurn, OutPoint)>)
    ensures
        match burn {
            Some((burn, carrier)) => carried_burn(psbt@) == Some((burn@, carrier)),
            None => carried_burn(psbt@) is None,
        },
{
    match gamelog::move_burn_from_tx(psbt.unsigned_tx()) {
        None => None,
        Some(burn) => match pending::action_predecessor(psbt) {
            Some(carrier) => Some((burn, carrier)),
            None => None,
        },
    }
}

/// Whether a transaction burns a unit with a carrier of another one.
pub open spec fn spends_carrier_of(tx: Signed, id: Txid) -> bool {
    match carried_burn(tx) {
        Some((_, carrier)) => carrier.txid == id,
        None => false,
    }
}

/// Whether a transaction among some burns a unit with a carrier of this transaction.
pub open spec fn is_carrier_id(txs: Map<Txid, Signed>, id: Txid) -> bool {
    exists|t: Txid| txs.contains_key(t) && spends_carrier_of(#[trigger] txs[t], id)
}

fn add_id(ids: &mut Vec<Txid>, id: Txid)
    requires
        old(ids)@.no_duplicates(),
    ensures
        final(ids)@.no_duplicates(),
        forall|k: Txid| #[trigger]
            final(ids)@.contains(k) <==> old(ids)@.contains(k) || k == id,
{
    let ghost was = ids@;
    if sync::has_id(ids, id) {
        return ;
    }
    ids.push(id);
    proof {
        assert forall|k: Txid| #[trigger] ids@.contains(k) <==> was.contains(k) || k == id by {
            if was.contains(k) {
                assert(ids@[was.index_of(k)] == k);
            }
            if ids@.contains(k) && k != id {
                assert(was[ids@.index_of(k)] == k);
            }
            assert(ids@[was.len() as int] == id);
        }
    }
}

/// The transactions whose outputs the burns among some transactions spend, each once.
pub fn carrier_ids(txs: &Table<Txid, Psbt>) -> (ids: Vec<Txid>)
    ensures
        ids@.no_duplicates(),
        forall|id: Txid| #[trigger] ids@.contains(id) <==> is_carrier_id(txs@, id),
{
    let n: usize = txs.len();
    let ghost keys = txs.keys();
    let ghost list = Seq::new(keys.len(), |k: int| txs@[keys[k]]);
    let mut ids: Vec<Txid> = Vec::new();
    let mut i: usize = 0;
    while i < n
        invariant
            i <= n == keys.len(),
            keys == txs.keys(),
            list == Seq::new(keys.len(), |k: int| txs@[keys[k]]),
            ids@.no_duplicates(),
            forall|id: Txid| #[trigger]
                ids@.contains(id) <==> exists|k: int|
                    0 <= k < i && spends_carrier_of(#[trigger] list[k], id),
        decreases n - i,
    {
        let ghost was = ids@;
        match find_burn(txs.value_at(i)) {
            Some((_, carrier)) => {
                add_id(&mut ids, carrier.txid);
            },
            None => {},
        }
        proof {
            assert(list[i as int] == txs@[keys[i as int]]);
            assert forall|id: Txid| #[trigger] ids@.contains(id) <==> exists|k: int|
                0 <= k < i + 1 && spends_carrier_of(#[trigger] list[k], id) by {
                assert(ids@.contains(id) <==> was.contains(id) || spends_carrier_of(
                    list[i as int],
                    id,
                ));
                if was.contains(id) {
                    let k = choose|k: int|
                        0 <= k < i && spends_carrier_of(#[trigger] list[k], id);
                    assert(spends_carrier_of(list[k], id));
                }
            }
        }
        i += 1;
    }
    proof {
        assert forall|id: Txid| #[trigger] ids@.contains(id) <==> is_carrier_id(txs@, id) by {
            if ids@.contains(id) {
                let k = choose|k: int| 0 <= k < n && spends_carrier_of(#[trigger] list[k], id);
                assert(spends_carrier_of(txs@[keys[k]], id));
            }
            if is_carrier_id(txs@, id) {
                let t = choose|t: Txid|
                    txs@.contains_key(t) && spends_carrier_of(#[trigger] txs@[t], id);
                assert(keys.contains(t));
                assert(spends_carrier_of(list[keys.index_of(t)], id));
            }
        }
    }
    ids
}

/// The outputs of a transaction that pay to the player.
pub open spec fn pays(output: crate::chain::Output, script: Seq<char>) -> bool {
    text::hex_text(output.script) == script && output.value > 0
}

/// Whether a transaction leaves the player one carrier: its first output pays dust to the player,
/// and no other output pays to the player.
pub open spec fn leaves_carrier(
    outputs: Seq<crate::chain::Output>,
    script: Seq<char>,
    dust: u64,
) -> bool {
    &&& outputs.len() > 0
    &&& pays(outputs[0], script)
    &&& outputs[0].value == dust
    &&& forall|i: int| 0 < i < outputs.len() ==> !pays(#[trigger] outputs[i], script)
}

/// Whether a record is of a carrier of the player.
pub open spec fn is_indexed_carrier(record: Record, script: Seq<char>, dust: u64) -> bool {
    record.outpoint.vout == 0 && record.amount_sats == dust && text::lower(record.script)
        == text::lower(script)
}

/// Whether one of some records is of a carrier of the player.
pub open spec fn carrier_is_indexed(records: Seq<Record>, script: Seq<char>, dust: u64) -> bool {
    exists|i: int|
        0 <= i < records.len() && is_indexed_carrier(#[trigger] records[i], script, dust)
}

pub open spec fn all_zero(indexes: Seq<u16>) -> bool {
    forall|i: int| 0 <= i < indexes.len() ==> #[trigger] indexes[i] == 0
}

/// Whether a burn is an action of the player with this script: it leaves the player one carrier,
/// which is indexed and holds all units that are left.
pub open spec fn is_players_action(
    tx: Signed,
    burn: Burn,
    records: Seq<Record>,
    script: Seq<char>,
    dust: u64,
) -> bool {
    &&& leaves_carrier(tx.tx.output, script, dust)
    &&& all_zero(burn.preserved_output_indexes)
    &&& carrier_is_indexed(records, script, dust)
}

/// When the first output of a transaction was indexed, by the first record of it.
pub open spec fn first_output_time(records: Seq<Record>) -> Option<i64>
    decreases records.len(),
{
    if records.len() == 0 {
        None
    } else if records[0].outpoint.vout == 0 {
        records[0].created_at
    } else {
        first_output_time(records.drop_first())
    }
}

/// Whether an event of a transaction is listed.
pub open spec fn lists_event(events: Seq<ActionEvent>, txid: Txid) -> bool {
    exists|i: int| 0 <= i < events.len() && (#[trigger] events[i]).txid == txid
}

/// Events with the first one of the same transaction replaced.
pub open spec fn with_event(events: Seq<ActionEvent>, event: ActionEvent) -> Seq<ActionEvent>
    decreases events.len(),
{
    if events.len() == 0 {
        events
    } else if lists_event(events.drop_last(), event.txid) {
        with_event(events.drop_last(), event).push(events.last())
    } else if events.last().txid == event.txid {
        events.drop_last().push(event)
    } else {
        events
    }
}

proof fn lemma_with_event(events: Seq<ActionEvent>, event: ActionEvent, i: int)
    requires
        0 <= i < events.len(),
        events[i].txid == event.txid,
        forall|k: int| 0 <= k < i ==> (#[trigger] events[k]).txid != event.txid,
    ensures
        with_event(events, event) == events.update(i, event),
    decreases events.len(),
{
    let shorter = events.drop_last();
    if i < events.len() - 1 {
        assert(shorter[i].txid == event.txid);
        assert forall|k: int| 0 <= k < i implies (#[trigger] shorter[k]).txid != event.txid by {
            assert(shorter[k] == events[k]);
        }
        lemma_with_event(shorter, event, i);
        assert(shorter.update(i, event).push(events.last()) =~= events.update(i, event));
    } else {
        assert forall|k: int| 0 <= k < shorter.len() implies (#[trigger] shorter[k]).txid
            != event.txid by {
            assert(shorter[k] == events[k]);
        }
        assert(shorter.push(event) =~= events.update(i, event));
    }
}

/// The burn of a candidate's transaction that can be judged once its player is known, with the
/// output behind its carrier.
pub open spec fn pending_burn(txid: Txid, batch: Batch) -> Option<(Burn, OutPoint)> {
    if batch.txs.contains_key(txid) {
        match carried_burn(batch.txs[txid]) {
            Some((burn, carrier)) => match pending::parent_of(carrier, batch.carriers) {
                Some(predecessor) => Some((burn, predecessor)),
                None => None,
            },
            None => None,
        }
    } else {
        None
    }
}

impl App {
    /// The state with an indexed action taken in, and whether that is news: a listed action is
    /// replaced, another one is added unless it was listed before.
    pub open spec fn action_indexed(self, event: ActionEvent) -> (App, bool) {
        if lists_event(self.events, event.txid) {
            (App { events: with_event(self.events, event), ..self }, true)
        } else if self.seen_move_txs.contains(event.txid) {
            (self, false)
        } else {
            (
                App {
                    events: self.events.push(event),
                    seen_move_txs: self.seen_move_txs.insert(event.txid),
                    ..self
                },
                true,
            )
        }
    }

    /// The state with a burn judged, once the script of its player is known, and whether an action
    /// was accepted. One that is not indexed yet stays unresolved.
    pub open spec fn burn_judged(
        self,
        txid: Txid,
        tx: Signed,
        burn: Burn,
        predecessor: OutPoint,
        records: Seq<Record>,
        script: Seq<char>,
    ) -> (App, bool) {
        if !is_players_action(tx, burn, records, script, self.params.dust_sats) {
            (self.player_seen(records), false)
        } else {
            match first_output_time(records) {
                None => (self, false),
                Some(created_at) => {
                    let (indexed, accepted) = self.action_indexed(
                        ActionEvent {
                            txid,
                            player: burn.asset_id.txid,
                            sequence: burn.receipt.sequence,
                            action: burn.asset_id.group_index as u8,
                            predecessor,
                            created_at: Some(created_at),
                            local_tentative: false,
                        },
                    );
                    (indexed.player_seen(records), accepted)
                },
            }
        }
    }

    /// The state with a candidate's transaction judged, and whether an action was accepted. What is
    /// known of the issuance of its asset is given: the player's script, that it is no
    /// registration, or an error, which leaves the candidate unresolved.
    pub open spec fn move_judged(
        self,
        txid: Txid,
        batch: Batch,
        script: Result<Option<Seq<char>>, Seq<char>>,
    ) -> (App, bool) {
        let records = registry::records_of(batch.candidates, txid);
        match (pending_burn(txid, batch), script) {
            (Some((burn, predecessor)), Ok(Some(script))) => self.burn_judged(
                txid,
                batch.txs[txid],
                burn,
                predecessor,
                records,
                script,
            ),
            (Some(_), Ok(None)) => (self.player_seen(records), false),
            (Some(_), Err(_)) => (self, false),
            (None, _) => if batch.txs.contains_key(txid) && carried_burn(batch.txs[txid]) is None {
                (self.player_seen(records), false)
            } else {
                (self, false)
            },
        }
    }

    /// The issuance that has to be fetched before a candidate's transaction can be judged.
    pub open spec fn wanted_issuance(self, txid: Txid, batch: Batch) -> Option<Txid> {
        match pending_burn(txid, batch) {
            Some((burn, _)) => if self.issuance_lookup(burn.asset_id.txid) is Unknown {
                Some(burn.asset_id.txid)
            } else {
                None
            },
            None => None,
        }
    }

    /// What is known of the player of a candidate's transaction.
    pub open spec fn known_script(self, txid: Txid, batch: Batch) -> Result<
        Option<Seq<char>>,
        Seq<char>,
    > {
        match pending_burn(txid, batch) {
            Some((burn, _)) => match self.issuance_lookup(burn.asset_id.txid) {
                Lookup::Registered(script) => Ok(Some(script)),
                _ => Ok(None),
            },
            None => Ok(None),
        }
    }

    /// How the judging goes on from a place: the state, the place it stops at, the number of
    /// accepted actions, and the issuance that has to be fetched there.
    pub open spec fn moves_judged(
        self,
        txids: Seq<Txid>,
        next: int,
        accepted: u32,
        batch: Batch,
    ) -> (App, int, u32, Option<Txid>)
        decreases txids.len() - next,
    {
        if next < 0 || next >= txids.len() {
            (self, txids.len() as int, accepted, None)
        } else {
            match self.wanted_issuance(txids[next], batch) {
                Some(id) => (self, next, accepted, Some(id)),
                None => {
                    let (judged, fresh) = self.move_judged(
                        txids[next],
                        batch,
                        self.known_script(txids[next], batch),
                    );
                    judged.moves_judged(txids, next + 1, counted(accepted, fresh), batch)
                },
            }
        }
    }

    /// The state after the issuance of a burn was fetched and the burn was judged, and whether an
    /// action was accepted.
    pub open spec fn move_fetched(
        self,
        txid: Txid,
        batch: Batch,
        answer: Result<Seq<Signed>, Seq<char>>,
    ) -> (App, bool) {
        match pending_burn(txid, batch) {
            None => (self, false),
            Some((burn, _)) => self.issuance_resolved(burn.asset_id.txid, answer).move_judged(
                txid,
                batch,
                self.issuance_script(burn.asset_id.txid, answer),
            ),
        }
    }
}

/// One more, where there is something new.
pub open spec fn counted(count: u32, fresh: bool) -> u32 {
    if fresh && count < u32::MAX {
        (count + 1) as u32
    } else {
        count
    }
}

/// The judging of the transactions of some candidates, one after the other.
#[derive(Debug)]
pub struct MoveSync {
    txids: Vec<Txid>,
    next: usize,
    accepted: u32,
}

/// What a `MoveSync` holds: the transactions, the place of the one to judge next, and the number of
/// accepted actions.
#[verifier::ext_equal]
pub struct Judging {
    pub txids: Seq<Txid>,
    pub next: int,
    pub accepted: u32,
}

impl View for MoveSync {
    type V = Judging;

    closed spec fn view(&self) -> Judging {
        Judging { txids: self.txids@, next: self.next as int, accepted: self.accepted }
    }
}

impl MoveSync {
    /// Begins to judge the transactions of some candidates.
    pub fn new(candidates: &[VtxoRecord]) -> (sync: MoveSync)
        ensures
            sync@ == (Judging {
                txids: registry::txids_of(arkade::records_view(candidates@)),
                next: 0,
                accepted: 0,
            }),
    {
        MoveSync { txids: registry::distinct_txids(candidates), next: 0, accepted: 0 }
    }

    /// The number of accepted actions.
    pub fn accepted(&self) -> (count: u32)
        ensures
            count == self@.accepted,
    {
        self.accepted
    }

    fn count(&mut self, fresh: bool)
        requires
            old(self).next < old(self).txids@.len(),
        ensures
            final(self).txids@ == old(self).txids@,
            final(self).next == old(self).next + 1,
            final(self).accepted == counted(old(self).accepted, fresh),
    {
        assert(self.next < self.txids.len());
        if fresh {
            self.accepted = self.accepted.saturating_add(1);
        }
        self.next = self.next + 1;
    }
}

fn output_pays(output: &crate::chain::TxOut, script: &str) -> (result: bool)
    ensures
        result == pays(output@, script@),
{
    let shown: String = script::script_hex(&output.script_pubkey);
    text::same_text(shown.as_str(), script) && output.value > 0
}

fn has_one_carrier(psbt: &Psbt, script: &str, dust: u64) -> (result: bool)
    ensures
        result == leaves_carrier(psbt@.tx.output, script@, dust),
{
    let outputs: &Vec<crate::chain::TxOut> = &psbt.unsigned_tx().output;
    let ghost all = psbt@.tx.output;
    if outputs.len() == 0 {
        return false;
    }
    assert(all[0] == outputs@[0]@);
    if !output_pays(&outputs[0], script) || outputs[0].value != dust {
        return false;
    }
    let mut i: usize = 1;
    while i < outputs.len()
        invariant
            1 <= i <= outputs@.len(),
            all == crate::chain::outputs_view(outputs@),
            all == psbt@.tx.output,
            forall|k: int| 0 < k < i ==> !pays(#[trigger] all[k], script@),
        decreases outputs@.len() - i,
    {
        assert(all[i as int] == outputs@[i as int]@);
        if output_pays(&outputs[i], script) {
            assert(pays(all[i as int], script@));
            return false;
        }
        i += 1;
    }
    true
}

fn all_at_first(indexes: &[u16]) -> (result: bool)
    ensures
        result == all_zero(indexes@),
{
    let mut i: usize = 0;
    while i < indexes.len()
        invariant
            i <= indexes@.len(),
            forall|k: int| 0 <= k < i ==> #[trigger] indexes@[k] == 0,
        decreases indexes@.len() - i,
    {
        if indexes[i] != 0 {
            return false;
        }
        i += 1;
    }
    true
}

fn has_indexed_carrier(records: &[VtxoRecord], script: &str, dust: u64) -> (result: bool)
    ensures
        result == carrier_is_indexed(arkade::records_view(records@), script@, dust),
{
    let ghost all = arkade::records_view(records@);
    let mut i: usize = 0;
    while i < records.len()
        invariant
            i <= records@.len(),
            all == arkade::records_view(records@),
            forall|k: int| 0 <= k < i ==> !is_indexed_carrier(#[trigger] all[k], script@, dust),
        decreases records@.len() - i,
    {
        assert(all[i as int] == records@[i as int]@);
        if records[i].outpoint.vout == 0 && records[i].amount_sats == dust
            && text::same_ignoring_case(records[i].script.as_str(), script) {
            return true;
        }
        i += 1;
    }
    false
}

fn find_first_time(records: &[VtxoRecord]) -> (created_at: Option<i64>)
    ensures
        created_at == first_output_time(arkade::records_view(records@)),
{
    let ghost all = arkade::records_view(records@);
    let mut i: usize = 0;
    assert(all.skip(0) =~= all);
    while i < records.len()
        invariant
            i <= records@.len(),
            all == arkade::records_view(records@),
            first_output_time(all) == first_output_time(all.skip(i as int)),
        decreases records@.len() - i,
    {
        proof {
            assert(all.skip(i as int)[0] == records@[i as int]@);
            assert(all.skip(i as int).drop_first() =~= all.skip(i + 1));
        }
        if records[i].outpoint.vout == 0 {
            return records[i].created_at;
        }
        i += 1;
    }
    None
}

fn find_pending_burn(txid: Txid, batch: &MoveBatch) -> (burn: Option<(MoveBurn, OutPoint)>)
    ensures
        match burn {
            Some((burn, predecessor)) => pending_burn(txid, batch@) == Some((burn@, predecessor)),
            None => pending_burn(txid, batch@) is None,
        },
{
    match batch.txs.get(txid) {
        None => None,
        Some(psbt) => match find_burn(psbt) {
            None => None,
            Some((burn, carrier)) => match pending::carrier_parent(carrier, &batch.carriers) {
                Some(predecessor) => Some((burn, predecessor)),
                None => None,
            },
        },
    }
}

impl GameApp {
    fn index_action(&mut self, event: ActionEvent) -> (accepted: bool)
        requires
            old(self)@.wf(),
        ensures
            (final(self)@, accepted) == old(self)@.action_indexed(event),
            final(self)@.wf(),
    {
        let ghost events = self.events@;
        let mut i: usize = 0;
        while i < self.events.len()
            invariant
                i <= self.events@.len(),
                events == self.events@,
                self@ == old(self)@,
                old(self)@.wf(),
                forall|k: int| 0 <= k < i ==> (#[trigger] events[k]).txid != event.txid,
            decreases self.events@.len() - i,
        {
            if self.events[i].txid == event.txid {
                proof {
                    assert(events[i as int].txid == event.txid);
                    lemma_with_event(events, event, i as int);
                }
                self.events.set(i, event);
                assert(self@ =~= App { events: with_event(events, event), ..old(self)@ });
                return true;
            }
            i += 1;
        }
        assert(!lists_event(events, event.txid));
        if self.seen_move_txs.insert(event.txid) {
            self.events.push(event);
            assert(self@ =~= App {
                events: events.push(event),
                seen_move_txs: old(self)@.seen_move_txs.insert(event.txid),
                ..old(self)@
            });
            true
        } else {
            assert(self@.seen_move_txs =~= old(self)@.seen_move_txs);
            assert(self@ =~= old(self)@);
            false
        }
    }

    fn judge_burn(
        &mut self,
        txid: Txid,
        psbt: &Psbt,
        burn: &MoveBurn,
        predecessor: OutPoint,
        records: &[VtxoRecord],
        script: &str,
    ) -> (accepted: bool)
        requires
            old(self)@.wf(),
        ensures
            (final(self)@, accepted) == old(self)@.burn_judged(
                txid,
                psbt@,
                burn@,
                predecessor,
                arkade::records_view(records@),
                script@,
            ),
            final(self)@.wf(),
    {
        let dust: u64 = self.params.dust_sats;
        if !has_one_carrier(psbt, script, dust) || !all_at_first(&burn.preserved_output_indexes)
            || !has_indexed_carrier(records, script, dust) {
            self.mark_player_outputs_seen(records);
            return false;
        }
        match find_first_time(records) {
            None => false,
            Some(created_at) => {
                let action: u8 = #[verifier::truncate] (burn.asset_id.group_index as u8);
                let accepted: bool = self.index_action(
                    ActionEvent {
                        txid,
                        player: burn.asset_id.txid,
                        sequence: burn.receipt.sequence,
                        action,
                        predecessor,
                        created_at: Some(created_at),
                        local_tentative: false,
                    },
                );
                self.mark_player_outputs_seen(records);
                accepted
            },
        }
    }

    fn judge_move(
        &mut self,
        txid: Txid,
        batch: &MoveBatch,
        script: &Result<Option<String>, String>,
    ) -> (accepted: bool)
        requires
            old(self)@.wf(),
        ensures
            (final(self)@, accepted) == old(self)@.move_judged(
                txid,
                batch@,
                sync::script_view(*script),
            ),
            final(self)@.wf(),
    {
        let psbt: &Psbt = match batch.txs.get(txid) {
            Some(psbt) => psbt,
            None => {
                return false;
            },
        };
        let records: Vec<VtxoRecord> = registry::select_records(&batch.candidates, txid);
        match find_burn(psbt) {
            None => {
                self.mark_player_outputs_seen(&records);
                false
            },
            Some((burn, carrier)) => match pending::carrier_parent(carrier, &batch.carriers) {
                None => false,
                Some(predecessor) => match script {
                    Err(_) => false,
                    Ok(None) => {
                        self.mark_player_outputs_seen(&records);
                        false
                    },
                    Ok(Some(script)) => self.judge_burn(
                        txid,
                        psbt,
                        &burn,
                        predecessor,
                        &records,
                        script.as_str(),
                    ),
                },
            },
        }
    }

    /// Goes on with judging. Gives the issuance that has to be fetched, or nothing at the end.
    pub fn continue_move_sync(&mut self, sync: &mut MoveSync, batch: &MoveBatch) -> (wanted: Option<
        Txid,
    >)
        requires
            old(self)@.wf(),
            0 <= old(sync)@.next,
        ensures
            old(self)@.moves_judged(
                old(sync)@.txids,
                old(sync)@.next,
                old(sync)@.accepted,
                batch@,
            ) == (final(self)@, final(sync)@.next, final(sync)@.accepted, wanted),
            final(sync)@.txids == old(sync)@.txids,
            final(self)@.wf(),
            wanted is Some ==> 0 <= final(sync)@.next < final(sync)@.txids.len(),
    {
        let ghost start = self@.moves_judged(sync@.txids, sync@.next, sync@.accepted, batch@);
        if sync.next > sync.txids.len() {
            sync.next = sync.txids.len();
        }
        while sync.next < sync.txids.len()
            invariant
                sync.next <= sync.txids@.len(),
                sync.txids@ == old(sync)@.txids,
                self@.wf(),
                start == old(self)@.moves_judged(
                    old(sync)@.txids,
                    old(sync)@.next,
                    old(sync)@.accepted,
                    batch@,
                ),
                start == self@.moves_judged(
                    sync.txids@,
                    sync.next as int,
                    sync.accepted,
                    batch@,
                ),
            decreases sync.txids@.len() - sync.next,
        {
            let txid: Txid = sync.txids[sync.next];
            let script: Option<String> = match find_pending_burn(txid, batch) {
                None => None,
                Some((burn, _)) => match self.lookup_issuance(burn.asset_id.txid) {
                    IssuanceLookup::Registered(script) => Some(script),
                    IssuanceLookup::Invalid => None,
                    IssuanceLookup::Unknown => {
                        return Some(burn.asset_id.txid);
                    },
                },
            };
            let known: Result<Option<String>, String> = Ok(script);
            let fresh: bool = self.judge_move(txid, batch, &known);
            sync.count(fresh);
        }
        None
    }

    /// Takes in the answer to the request for the issuance that the judging stands at.
    pub fn move_sync_fetched(
        &mut self,
        sync: &mut MoveSync,
        batch: &MoveBatch,
        answer: &Result<Vec<Psbt>, String>,
    )
        requires
            old(self)@.wf(),
            0 <= old(sync)@.next < old(sync)@.txids.len(),
        ensures
            final(self)@ == old(self)@.move_fetched(
                old(sync)@.txids[old(sync)@.next],
                batch@,
                sync::fetched_view(*answer),
            ).0,
            final(sync)@ == (Judging {
                txids: old(sync)@.txids,
                next: old(sync)@.next + 1,
                accepted: counted(
                    old(sync)@.accepted,
                    old(self)@.move_fetched(
                        old(sync)@.txids[old(sync)@.next],
                        batch@,
                        sync::fetched_view(*answer),
                    ).1,
                ),
            }),
            final(self)@.wf(),
    {
        let txid: Txid = sync.txids[sync.next];
        let fresh: bool = match find_pending_burn(txid, batch) {
            None => false,
            Some((burn, _)) => {
                let script: Result<Option<String>, String> = self.resolve_issuance(
                    burn.asset_id.txid,
                    answer,
                );
                self.judge_move(txid, batch, &script)
            },
        };
        sync.count(fresh);
    }
}

} // verus!
