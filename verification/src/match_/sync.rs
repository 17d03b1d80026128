//! Looking up transactions, issuances and the player's own packs.

use super::{App, GameApp, TX_BATCH_SIZE};
use crate::arkade;
use crate::arkade::{Record, VtxoRecord};
use crate::chain;
use crate::chain::Txid;
use crate::gamelog;
use crate::psbt;
use crate::psbt::{Psbt, Signed};
use crate::table::{Key, Table};
use crate::text;
use vstd::prelude::*;

verus! {

/// What is known of an issuance without asking.
#[derive(Debug)]
pub enum IssuanceLookup {
    /// It registered the player with this script.
    Registered(String),
    /// It is no valid registration.
    Invalid,
    /// Its transaction has to be fetched.
    Unknown,
}

/// What an `IssuanceLookup` says.
#[verifier::ext_equal]
pub enum Lookup {
    Registered(Seq<char>),
    Invalid,
    Unknown,
}

impl View for IssuanceLookup {
    type V = Lookup;

    open spec fn view(&self) -> Lookup {
        match self {
            IssuanceLookup::Registered(script) => Lookup::Registered(script@),
            IssuanceLookup::Invalid => Lookup::Invalid,
            IssuanceLookup::Unknown => Lookup::Unknown,
        }
    }
}

/// The first of some transactions that has the id.
pub open spec fn first_with_id(psbts: Seq<Signed>, txid: Txid) -> Option<Signed>
    decreases psbts.len(),
{
    if psbts.len() == 0 {
        None
    } else if psbts[0].txid() == txid {
        Some(psbts[0])
    } else {
        first_with_id(psbts.drop_first(), txid)
    }
}

pub open spec fn fetched_view(answer: Result<Vec<Psbt>, String>) -> Result<
    Seq<Signed>,
    Seq<char>,
> {
    match answer {
        Ok(psbts) => Ok(psbt::psbts_view(psbts@)),
        Err(error) => Err(error@),
    }
}

pub open spec fn script_view(result: Result<Option<String>, String>) -> Result<
    Option<Seq<char>>,
    Seq<char>,
> {
    match result {
        Ok(script) => Ok(text::opt_text(script)),
        Err(error) => Err(error@),
    }
}

impl App {
    pub open spec fn issuance_lookup(self, txid: Txid) -> Lookup {
        if self.registered_players.contains_key(txid) {
            Lookup::Registered(self.registered_players[txid])
        } else if self.invalid_registrations.contains(txid) {
            Lookup::Invalid
        } else {
            Lookup::Unknown
        }
    }

    /// The player script that a transaction registers.
    pub open spec fn script_registered_by(self, tx: Signed) -> Option<Seq<char>> {
        gamelog::registered_script(tx.tx.output, self.game_script, self.params.dust_sats)
    }

    /// What an answer to the request for an issuance says: the script of the player that it
    /// registers, nothing where it is no registration, or an error.
    pub open spec fn issuance_script(
        self,
        txid: Txid,
        answer: Result<Seq<Signed>, Seq<char>>,
    ) -> Result<Option<Seq<char>>, Seq<char>> {
        match answer {
            Err(error) => Err(error),
            Ok(psbts) => match first_with_id(psbts, txid) {
                None => Err(
                    "player registration "@ + txid.text() + " is not indexed yet"@,
                ),
                Some(psbt) => Ok(self.script_registered_by(psbt)),
            },
        }
    }

    /// The state after such an answer: the issuance is remembered as a registration or as none.
    pub open spec fn issuance_resolved(
        self,
        txid: Txid,
        answer: Result<Seq<Signed>, Seq<char>>,
    ) -> App {
        match answer {
            Err(_) => self,
            Ok(psbts) => match first_with_id(psbts, txid) {
                None => self,
                Some(psbt) => {
                    let cached = App { tx_cache: self.tx_cache.insert(txid, psbt), ..self };
                    match self.script_registered_by(psbt) {
                        Some(script) => App {
                            registered_players: self.registered_players.insert(txid, script),
                            ..cached
                        },
                        None => App {
                            invalid_registrations: self.invalid_registrations.insert(txid),
                            ..cached
                        },
                    }
                },
            },
        }
    }
}

impl GameApp {
    /// What is known of an issuance.
    pub fn lookup_issuance(&self, txid: Txid) -> (lookup: IssuanceLookup)
        ensures
            lookup@ == self@.issuance_lookup(txid),
    {
        match self.registered_players.get(txid) {
            Some(script) => IssuanceLookup::Registered(script.clone()),
            None => if self.invalid_registrations.contains(txid) {
                IssuanceLookup::Invalid
            } else {
                IssuanceLookup::Unknown
            },
        }
    }

    /// Takes in the answer to the request for an issuance.
    pub fn resolve_issuance(&mut self, txid: Txid, answer: &Result<Vec<Psbt>, String>) -> (script: Result<
        Option<String>,
        String,
    >)
        requires
            old(self)@.wf(),
        ensures
            final(self)@ == old(self)@.issuance_resolved(txid, fetched_view(*answer)),
            final(self)@.wf(),
            script_view(script) == old(self)@.issuance_script(txid, fetched_view(*answer)),
    {
        let psbts: &Vec<Psbt> = match answer {
            Ok(psbts) => psbts,
            Err(error) => {
                return Err(error.clone());
            },
        };
        let ghost all = psbt::psbts_view(psbts@);
        let mut i: usize = 0;
        assert(all.skip(0) =~= all);
        while i < psbts.len()
            invariant
                i <= psbts@.len(),
                all == psbt::psbts_view(psbts@),
                *answer == Ok::<Vec<Psbt>, String>(*psbts),
                first_with_id(all, txid) == first_with_id(all.skip(i as int), txid),
                self@ == old(self)@,
                old(self)@.wf(),
            decreases psbts@.len() - i,
        {
            let psbt: &Psbt = &psbts[i];
            proof {
                assert(all.skip(i as int)[0] == psbt@);
                assert(all.skip(i as int).drop_first() =~= all.skip(i + 1));
            }
            if psbt.compute_txid() == txid {
                let script: Option<String> = gamelog::registration_player_script(
                    psbt.unsigned_tx(),
                    self.game_script.as_str(),
                    self.params.dust_sats,
                );
                let _ = self.tx_cache.insert(txid, psbt.clone());
                match &script {
                    Some(script) => {
                        let _ = self.registered_players.insert(txid, script.clone());
                    },
                    None => {
                        let _ = self.invalid_registrations.insert(txid);
                    },
                }
                assert(self@ =~= old(self)@.issuance_resolved(txid, fetched_view(*answer)));
                return Ok(script);
            }
            i += 1;
        }
        let shown: String = txid.to_string();
        Err(super::line3("player registration ", shown.as_str(), " is not indexed yet"))
    }
}

/// Distinct ids in the order in which they first occur, without those of `known`.
pub open spec fn missing_ids(txids: Seq<Txid>, known: Set<Txid>) -> Seq<Txid>
    decreases txids.len(),
{
    if txids.len() == 0 {
        Seq::empty()
    } else {
        let before = missing_ids(txids.drop_last(), known);
        let last = txids.last();
        if known.contains(last) || before.contains(last) {
            before
        } else {
            before.push(last)
        }
    }
}

/// Which transactions of a request are at hand, and which have to be fetched.
pub struct FetchPlan {
    pub found: Table<Txid, Psbt>,
    pub missing: Vec<Txid>,
}

/// Whether an id is among others.
pub fn has_id(txids: &[Txid], txid: Txid) -> (found: bool)
    ensures
        found == txids@.contains(txid),
{
    let mut i: usize = 0;
    while i < txids.len()
        invariant
            i <= txids@.len(),
            forall|k: int| 0 <= k < i ==> txids@[k] != txid,
        decreases txids@.len() - i,
    {
        if txids[i] == txid {
            assert(txids@[i as int] == txid);
            return true;
        }
        i += 1;
    }
    false
}

impl GameApp {
    /// Splits a request for transactions into those in the cache and those to be fetched.
    pub fn plan_fetch(&self, txids: &[Txid]) -> (plan: FetchPlan)
        ensures
            plan.found@ == self@.tx_cache.restrict(txids@.to_set()),
            plan.missing@ == missing_ids(txids@, self@.tx_cache.dom()),
    {
        let mut found: Table<Txid, Psbt> = Table::new();
        let mut missing: Vec<Txid> = Vec::new();
        let ghost cache = self@.tx_cache;
        let mut i: usize = 0;
        proof {
            assert(txids@.take(0) =~= Seq::empty());
            assert(found@ =~= cache.restrict(txids@.take(0).to_set()));
        }
        while i < txids.len()
            invariant
                i <= txids@.len(),
                cache == self@.tx_cache,
                cache == self.tx_cache@,
                found@ == cache.restrict(txids@.take(i as int).to_set()),
                missing@ == missing_ids(txids@.take(i as int), cache.dom()),
            decreases txids@.len() - i,
        {
            let txid: Txid = txids[i];
            let ghost was = found@;
            proof {
                assert(txids@.take(i + 1).drop_last() =~= txids@.take(i as int));
                assert(txids@.take(i + 1).last() == txid);
            }
            match self.tx_cache.get(txid) {
                Some(psbt) => {
                    let _ = found.insert(txid, psbt.clone());
                },
                None => {
                    if !has_id(&missing, txid) {
                        missing.push(txid);
                    }
                },
            }
            proof {
                let now = txids@.take(i + 1);
                let before = txids@.take(i as int);
                assert(now =~= before.push(txid));
                assert forall|k: Txid| #[trigger] now.to_set().contains(k)
                    <==> before.to_set().contains(k) || k == txid by {
                    if before.contains(k) {
                        assert(now[before.index_of(k)] == k);
                    }
                    if now.contains(k) && k != txid {
                        assert(before[now.index_of(k)] == k);
                    }
                    assert(now[i as int] == txid);
                }
                assert(found@ =~= cache.restrict(now.to_set()));
            }
            i += 1;
        }
        assert(txids@.take(txids@.len() as int) =~= txids@);
        FetchPlan { found, missing }
    }

    /// Takes in fetched transactions.
    pub fn store_fetched(&mut self, found: &mut Table<Txid, Psbt>, psbts: &[Psbt])
        requires
            old(self)@.wf(),
        ensures
            final(self)@ == (App {
                tx_cache: super::cached_all(old(self)@.tx_cache, psbt::psbts_view(psbts@)),
                ..old(self)@
            }),
            final(self)@.wf(),
            final(found)@ == super::cached_all(old(found)@, psbt::psbts_view(psbts@)),
    {
        super::store_all(&mut self.tx_cache, psbts);
        super::store_all(found, psbts);
        assert(self@ =~= App {
            tx_cache: super::cached_all(old(self)@.tx_cache, psbt::psbts_view(psbts@)),
            ..old(self)@
        });
    }
}

/// The texts of ids.
pub open spec fn id_texts(txids: Seq<Txid>) -> Seq<Seq<char>> {
    txids.map_values(|id: Txid| id.text())
}

/// The texts of the next ids to ask for, from a place on: as many as are asked for at once.
pub fn next_batch(missing: &[Txid], from: usize) -> (texts: Vec<String>)
    requires
        from <= missing@.len(),
    ensures
        text::texts(texts@) == id_texts(
            missing@.subrange(
                from as int,
                if from + TX_BATCH_SIZE <= missing@.len() {
                    from + TX_BATCH_SIZE
                } else {
                    missing@.len() as int
                },
            ),
        ),
{
    let end: usize = if missing.len() - from <= TX_BATCH_SIZE {
        missing.len()
    } else {
        from + TX_BATCH_SIZE
    };
    let ghost all = id_texts(missing@.subrange(from as int, end as int));
    let mut texts: Vec<String> = Vec::new();
    let mut i: usize = from;
    while i < end
        invariant
            from <= i <= end <= missing@.len(),
            all == id_texts(missing@.subrange(from as int, end as int)),
            text::texts(texts@) == all.take(i - from),
        decreases end - i,
    {
        let ghost was = text::texts(texts@);
        texts.push(missing[i].to_string());
        proof {
            assert(text::texts(texts@) =~= was.push(missing@[i as int].text()));
            assert(all.take(i - from + 1) =~= all.take(i - from).push(all[i - from]));
        }
        i += 1;
    }
    assert(all.take(all.len() as int) =~= all);
    texts
}

/// The packs that assets belong to, each with the time of its newest output. Only units of the six
/// actions count. An output without a time counts as the oldest.
pub open spec fn with_assets(
    packs: Map<Txid, i64>,
    assets: Seq<(Seq<char>, u64)>,
    created_at: i64,
) -> Map<Txid, i64>
    decreases assets.len(),
{
    if assets.len() == 0 {
        packs
    } else {
        let before = with_assets(packs, assets.drop_last(), created_at);
        match chain::asset_id_of(assets.last().0) {
            Some(id) if assets.last().1 > 0 && id.group_index < 6 => before.insert(
                id.txid,
                if before.contains_key(id.txid) && before[id.txid] > created_at {
                    before[id.txid]
                } else {
                    created_at
                },
            ),
            _ => before,
        }
    }
}

pub open spec fn created_or_min(record: Record) -> i64 {
    match record.created_at {
        Some(created_at) => created_at,
        None => i64::MIN,
    }
}

/// The packs in some records, each with the time of its newest output.
pub open spec fn packs_in(records: Seq<Record>) -> Map<Txid, i64>
    decreases records.len(),
{
    if records.len() == 0 {
        Map::empty()
    } else {
        with_assets(
            packs_in(records.drop_last()),
            records.last().assets,
            created_or_min(records.last()),
        )
    }
}

/// Order of packs: newer first, then higher id text.
pub open spec fn newer(a: (Txid, i64), b: (Txid, i64)) -> bool {
    a.1 > b.1 || a.1 == b.1 && text::text_less(b.0.text(), a.0.text())
}

/// Whether a list holds exactly the packs, newest first.
pub open spec fn newest_first(list: Seq<(Txid, i64)>, packs: Map<Txid, i64>) -> bool {
    &&& forall|i: int, j: int|
        0 <= i < j < list.len() ==> newer(#[trigger] list[i], #[trigger] list[j])
    &&& forall|i: int|
        0 <= i < list.len() ==> packs.contains_key((#[trigger] list[i]).0) && packs[list[i].0]
            == list[i].1
    &&& forall|id: Txid| #[trigger]
        packs.contains_key(id) ==> list.contains((id, packs[id]))
}

fn note_assets(packs: &mut Table<Txid, i64>, record: &VtxoRecord)
    ensures
        final(packs)@ == with_assets(old(packs)@, record@.assets, created_or_min(record@)),
{
    let created_at: i64 = match record.created_at {
        Some(created_at) => created_at,
        None => i64::MIN,
    };
    let ghost assets = record@.assets;
    let mut i: usize = 0;
    assert(assets.take(0) =~= Seq::empty());
    while i < record.assets.len()
        invariant
            i <= record.assets@.len(),
            assets == record@.assets,
            assets == arkade::amounts_view(record.assets@),
            created_at == created_or_min(record@),
            packs@ == with_assets(old(packs)@, assets.take(i as int), created_at),
        decreases record.assets@.len() - i,
    {
        proof {
            assert(assets.take(i + 1).drop_last() =~= assets.take(i as int));
            assert(assets.take(i + 1).last() == (
                record.assets@[i as int].0@,
                record.assets@[i as int].1,
            ));
        }
        match chain::parse_asset_id(record.assets[i].0.as_str()) {
            Some(id) => if record.assets[i].1 > 0 && id.group_index < 6 {
                let newest: i64 = match packs.get(id.txid) {
                    Some(seen) => if *seen > created_at {
                        *seen
                    } else {
                        created_at
                    },
                    None => created_at,
                };
                let _ = packs.insert(id.txid, newest);
            },
            None => {},
        }
        i += 1;
    }
    assert(assets.take(assets.len() as int) =~= assets);
}

pub(crate) fn find_packs(records: &[VtxoRecord]) -> (packs: Table<Txid, i64>)
    ensures
        packs@ == packs_in(arkade::records_view(records@)),
{
    let ghost all = arkade::records_view(records@);
    let mut packs: Table<Txid, i64> = Table::new();
    let mut i: usize = 0;
    assert(all.take(0) =~= Seq::empty());
    while i < records.len()
        invariant
            i <= records@.len(),
            all == arkade::records_view(records@),
            packs@ == packs_in(all.take(i as int)),
        decreases records@.len() - i,
    {
        proof {
            assert(all.take(i + 1).drop_last() =~= all.take(i as int));
            assert(all.take(i + 1).last() == records@[i as int]@);
        }
        note_assets(&mut packs, &records[i]);
        i += 1;
    }
    assert(all.take(all.len() as int) =~= all);
    packs
}

proof fn lemma_newer_order(a: (Txid, i64), b: (Txid, i64), c: (Txid, i64))
    ensures
        newer(a, b) && newer(b, c) ==> newer(a, c),
        a.0 != b.0 ==> newer(a, b) || newer(b, a),
{
    text::lemma_text_less_total(a.0.text(), b.0.text());
    if a.0 != b.0 && a.0.text() == b.0.text() {
        chain::law_txid_text_injective(a.0, b.0);
    }
    if text::text_less(b.0.text(), a.0.text()) && text::text_less(c.0.text(), b.0.text()) {
        text::lemma_text_less_transitive(c.0.text(), b.0.text(), a.0.text());
    }
}

pub(crate) fn sort_packs(packs: &Table<Txid, i64>) -> (list: Vec<(Txid, i64)>)
    ensures
        newest_first(list@, packs@),
{
    let n: usize = packs.len();
    let ghost keys = packs.keys();
    let mut list: Vec<(Txid, i64)> = Vec::new();
    let mut i: usize = 0;
    while i < n
        invariant
            i <= n == keys.len(),
            keys == packs.keys(),
            crate::table::ascending(keys),
            forall|k: Txid| keys.contains(k) <==> #[trigger] packs@.contains_key(k),
            forall|a: int, b: int|
                0 <= a < b < list@.len() ==> newer(#[trigger] list@[a], #[trigger] list@[b]),
            forall|a: int|
                0 <= a < list@.len() ==> exists|k: int|
                    0 <= k < i && #[trigger] keys[k] == (#[trigger] list@[a]).0 && packs@[keys[k]]
                        == list@[a].1,
            forall|k: int|
                0 <= k < i ==> list@.contains((#[trigger] keys[k], packs@[keys[k]])),
        decreases n - i,
    {
        let key: Txid = packs.key_at(i);
        let entry: (Txid, i64) = (key, *packs.value_at(i));
        let mut j: usize = list.len();
        while j > 0 && pack_is_newer(&entry, &list[j - 1])
            invariant
                j <= list@.len(),
                forall|a: int| j <= a < list@.len() ==> newer(entry, #[trigger] list@[a]),
            decreases j,
        {
            j -= 1;
        }
        let ghost was = list@;
        proof {
            assert forall|a: int| 0 <= a < j implies newer(#[trigger] was[a], entry) by {
                let k = choose|k: int|
                    0 <= k < i && #[trigger] keys[k] == was[a].0 && packs@[keys[k]] == was[a].1;
                assert(keys[k] != keys[i as int]) by {
                    assert(keys[k].before(keys[i as int]));
                    Txid::lemma_before_total(keys[k], keys[i as int]);
                }
                let last = was[j - 1];
                let m = choose|m: int|
                    0 <= m < i && #[trigger] keys[m] == last.0 && packs@[keys[m]] == last.1;
                assert(keys[m] != keys[i as int]) by {
                    assert(keys[m].before(keys[i as int]));
                    Txid::lemma_before_total(keys[m], keys[i as int]);
                }
                lemma_newer_order(entry, last, last);
                if a < j - 1 {
                    assert(newer(was[a], was[j - 1]));
                    lemma_newer_order(was[a], last, entry);
                }
            }
        }
        list.insert(j, entry);
        proof {
            let now = list@;
            assert forall|a: int, b: int| 0 <= a < b < now.len() implies newer(
                #[trigger] now[a],
                #[trigger] now[b],
            ) by {
                let x = if a < j { a } else { a - 1 };
                let y = if b < j { b } else { b - 1 };
                if a != j && b != j {
                    assert(newer(was[x], was[y]));
                }
            }
            assert forall|a: int| 0 <= a < now.len() implies exists|k: int|
                0 <= k < i + 1 && #[trigger] keys[k] == (#[trigger] now[a]).0 && packs@[keys[k]]
                    == now[a].1 by {
                if a == j {
                    assert(keys[i as int] == now[a].0);
                } else {
                    let x = if a < j { a } else { a - 1 };
                    let k = choose|k: int|
                        0 <= k < i && #[trigger] keys[k] == was[x].0 && packs@[keys[k]] == was[x].1;
                    assert(keys[k] == now[a].0);
                }
            }
            assert forall|k: int| 0 <= k < i + 1 implies now.contains(
                (#[trigger] keys[k], packs@[keys[k]]),
            ) by {
                if k < i {
                    let x = was.index_of((keys[k], packs@[keys[k]]));
                    let y = if x < j { x } else { x + 1 };
                    assert(now[y] == was[x]);
                } else {
                    assert(now[j as int] == entry);
                }
            }
        }
        i += 1;
    }
    proof {
        assert forall|a: int| 0 <= a < list@.len() implies packs@.contains_key(
            (#[trigger] list@[a]).0,
        ) && packs@[list@[a].0] == list@[a].1 by {
            let k = choose|k: int|
                0 <= k < n && #[trigger] keys[k] == list@[a].0 && packs@[keys[k]] == list@[a].1;
            assert(keys.contains(keys[k]));
        }
        assert forall|id: Txid| #[trigger] packs@.contains_key(id) implies list@.contains(
            (id, packs@[id]),
        ) by {
            let k = keys.index_of(id);
            assert(keys[k] == id);
        }
    }
    list
}

fn pack_is_newer(a: &(Txid, i64), b: &(Txid, i64)) -> (result: bool)
    ensures
        result == newer(*a, *b),
{
    a.1 > b.1 || a.1 == b.1 && b.0.shows_before(&a.0)
}

} // verus!
