//! An ordered map, kept as a vector of entries with strictly ascending keys.

use vstd::prelude::*;

verus! {

/// A key with a strict total order.
pub trait Key: Copy {
    spec fn before(self, other: Self) -> bool;

    proof fn lemma_before_total(a: Self, b: Self)
        ensures
            a.before(b) ==> a != b && !b.before(a),
            a != b ==> a.before(b) || b.before(a),
    ;

    proof fn lemma_before_transitive(a: Self, b: Self, c: Self)
        requires
            a.before(b),
            b.before(c),
        ensures
            a.before(c),
    ;

    fn precedes(&self, other: &Self) -> (result: bool)
        ensures
            result == self.before(*other),
    ;
}

/// Each key lies before every later one; in particular no key occurs twice.
pub open spec fn ascending<K: Key>(keys: Seq<K>) -> bool {
    forall|i: int, j: int| 0 <= i < j < keys.len() ==> #[trigger] keys[i].before(#[trigger] keys[j])
}

/// Ascending sequences with the same keys are equal.
pub proof fn lemma_ascending_unique<K: Key>(a: Seq<K>, b: Seq<K>)
    requires
        ascending(a),
        ascending(b),
        forall|k: K| a.contains(k) <==> #[trigger] b.contains(k),
    ensures
        a == b,
    decreases a.len(),
{
    if a.len() == 0 {
        if b.len() > 0 {
            assert(b.contains(b[0]));
        }
        assert(a =~= b);
    } else {
        assert(a.contains(a[0]));
        let x = a.last();
        let y = if b.len() > 0 { b.last() } else { a[0] };
        assert(b.contains(a[0]));
        assert(b.contains(b[b.len() - 1]) && a.contains(a[a.len() - 1]));
        assert(b.contains(x) && a.contains(y));
        let i = b.index_of(x);
        let j = a.index_of(y);
        if x != y {
            assert(b[i].before(b[b.len() - 1]));
            assert(a[j].before(a[a.len() - 1]));
            K::lemma_before_total(x, y);
            assert(false);
        }
        let p = a.drop_last();
        let q = b.drop_last();
        assert forall|k: K| p.contains(k) <==> #[trigger] q.contains(k) by {
            if p.contains(k) {
                let m = p.index_of(k);
                assert(a[m] == k && a[m].before(a[a.len() - 1]));
                K::lemma_before_total(k, x);
                assert(a.contains(k));
                assert(b.contains(k));
                assert(q[b.index_of(k)] == k);
            }
            if q.contains(k) {
                let m = q.index_of(k);
                assert(b[m] == k && b[m].before(b[b.len() - 1]));
                K::lemma_before_total(k, x);
                assert(b.contains(k));
                assert(a.contains(k));
                assert(p[a.index_of(k)] == k);
            }
        }
        assert forall|m: int, n: int| 0 <= m < n < p.len() implies #[trigger] p[m].before(
            #[trigger] p[n],
        ) by {
            assert(a[m].before(a[n]));
        }
        assert forall|m: int, n: int| 0 <= m < n < q.len() implies #[trigger] q[m].before(
            #[trigger] q[n],
        ) by {
            assert(b[m].before(b[n]));
        }
        lemma_ascending_unique(p, q);
        assert(a =~= p.push(x));
        assert(b =~= q.push(x));
    }
}

/// Keys with their values, each key at most once, in ascending order of the keys.
pub struct Table<K: Key, V: View> {
    entries: Vec<(K, V)>,
}

impl<K: Key, V: View> View for Table<K, V> {
    type V = Map<K, V::V>;

    closed spec fn view(&self) -> Map<K, V::V> {
        Map::new(
            |k: K| self.keys().contains(k),
            |k: K| self.entries@[self.keys().index_of(k)].1@,
        )
    }
}

impl<K: Key, V: View> Table<K, V> {
    /// The keys in ascending order.
    pub closed spec fn keys(self) -> Seq<K> {
        self.entries@.map_values(|e: (K, V)| e.0)
    }

    #[verifier::type_invariant]
    spec fn wf(self) -> bool {
        ascending(self.keys())
    }

    proof fn lemma_at(self, i: int)
        requires
            self.wf(),
            0 <= i < self.entries@.len(),
        ensures
            self@.contains_key(self.entries@[i].0),
            self@[self.entries@[i].0] == self.entries@[i].1@,
    {
        let keys = self.keys();
        assert(keys[i] == self.entries@[i].0);
        let j = keys.index_of(keys[i]);
        assert(keys[j] == keys[i]);
        K::lemma_before_total(keys[i], keys[j]);
        K::lemma_before_total(keys[j], keys[i]);
    }

    pub fn new() -> (table: Self)
        ensures
            table@ == Map::<K, V::V>::empty(),
    {
        let table = Table { entries: Vec::new() };
        assert(table@ =~= Map::<K, V::V>::empty());
        table
    }

    /// The number of entries.
    pub fn len(&self) -> (n: usize)
        ensures
            n == self.keys().len(),
            ascending(self.keys()),
            forall|k: K| self.keys().contains(k) <==> #[trigger] self@.contains_key(k),
            forall|i: int|
                0 <= i < self.keys().len() ==> self@.contains_key(#[trigger] self.keys()[i]),
    {
        proof {
            use_type_invariant(self);
        }
        self.entries.len()
    }

    /// The key of the entry at a place in the order.
    pub fn key_at(&self, i: usize) -> (key: K)
        requires
            i < self.keys().len(),
        ensures
            key == self.keys()[i as int],
            self@.contains_key(key),
    {
        proof {
            use_type_invariant(self);
            self.lemma_at(i as int);
        }
        self.entries[i].0
    }

    /// The value of the entry at a place in the order.
    pub fn value_at(&self, i: usize) -> (value: &V)
        requires
            i < self.keys().len(),
        ensures
            self@.contains_key(self.keys()[i as int]),
            value@ == self@[self.keys()[i as int]],
    {
        proof {
            use_type_invariant(self);
            self.lemma_at(i as int);
        }
        &self.entries[i].1
    }

    /// The first place whose key does not lie before `key`.
    fn place(&self, key: K) -> (i: usize)
        ensures
            i <= self.entries@.len(),
            forall|j: int| 0 <= j < i ==> (#[trigger] self.entries@[j]).0.before(key),
            i < self.entries@.len() ==> !self.entries@[i as int].0.before(key),
    {
        let mut i: usize = 0;
        while i < self.entries.len() && self.entries[i].0.precedes(&key)
            invariant
                i <= self.entries@.len(),
                forall|j: int| 0 <= j < i ==> (#[trigger] self.entries@[j]).0.before(key),
            decreases self.entries@.len() - i,
        {
            i += 1;
        }
        i
    }

    /// The value stored for `key`.
    pub fn get(&self, key: K) -> (value: Option<&V>)
        ensures
            match value {
                Some(value) => self@.contains_key(key) && value@ == self@[key],
                None => !self@.contains_key(key),
            },
    {
        proof {
            use_type_invariant(self);
        }
        let i: usize = self.place(key);
        if i < self.entries.len() && !key.precedes(&self.entries[i].0) {
            proof {
                K::lemma_before_total(self.entries@[i as int].0, key);
                self.lemma_at(i as int);
            }
            Some(&self.entries[i].1)
        } else {
            proof {
                self.lemma_absent(key, i as int);
            }
            None
        }
    }

    pub fn contains_key(&self, key: K) -> (present: bool)
        ensures
            present == self@.contains_key(key),
    {
        self.get(key).is_some()
    }

    proof fn lemma_absent(self, key: K, i: int)
        requires
            self.wf(),
            0 <= i <= self.entries@.len(),
            forall|j: int| 0 <= j < i ==> (#[trigger] self.entries@[j]).0.before(key),
            i < self.entries@.len() ==> key.before(self.entries@[i].0),
        ensures
            forall|j: int| i <= j < self.entries@.len() ==> key.before((#[trigger] self.entries@[j]).0),
            !self@.contains_key(key),
    {
        let keys = self.keys();
        assert forall|j: int| i <= j < self.entries@.len() implies key.before(
            (#[trigger] self.entries@[j]).0,
        ) by {
            if j > i {
                assert(keys[i].before(keys[j]));
                K::lemma_before_transitive(key, keys[i], keys[j]);
            }
        }
        if keys.contains(key) {
            let j = keys.index_of(key);
            assert(keys[j] == self.entries@[j].0);
            K::lemma_before_total(key, key);
        }
    }

    /// Stores `value` for `key`, in place of an earlier value. Tells whether the key is new.
    pub fn insert(&mut self, key: K, value: V) -> (fresh: bool)
        ensures
            final(self)@ == old(self)@.insert(key, value@),
            fresh == !old(self)@.contains_key(key),
    {
        proof {
            use_type_invariant(&*self);
        }
        let ghost before = *self;
        let i: usize = self.place(key);
        let found: bool = i < self.entries.len() && !key.precedes(&self.entries[i].0);
        proof {
            if found {
                K::lemma_before_total(self.entries@[i as int].0, key);
                self.lemma_at(i as int);
            } else {
                self.lemma_absent(key, i as int);
            }
        }
        let mut entries: Vec<(K, V)> = Vec::new();
        std::mem::swap(&mut entries, &mut self.entries);
        if found {
            let _ = entries.remove(i);
        }
        entries.insert(i, (key, value));
        proof {
            let keys = entries@.map_values(|e: (K, V)| e.0);
            let was = before.keys();
            if found {
                assert(keys =~= was);
            } else {
                assert(keys =~= was.insert(i as int, key));
                assert(ascending(keys)) by {
                    assert forall|a: int, b: int| 0 <= a < b < keys.len() implies
                        #[trigger] keys[a].before(#[trigger] keys[b]) by {
                        if a < i && b < i {
                            assert(was[a].before(was[b]));
                        } else if a < i && b > i {
                            assert(was[a].before(was[b - 1]));
                        } else if a > i {
                            assert(was[a - 1].before(was[b - 1]));
                        } else if b == i {
                            assert(before.entries@[a].0.before(key));
                        } else {
                            assert(key.before(before.entries@[b - 1].0));
                        }
                    }
                }
            }
        }
        self.entries = entries;
        proof {
            let now = *self;
            assert(now.entries@[i as int] == (key, value));
            now.lemma_at(i as int);
            assert forall|k: K| #[trigger] now@.contains_key(k) <==> before@.insert(
                key,
                value@,
            ).contains_key(k) by {
                if now@.contains_key(k) && k != key {
                    let j = now.keys().index_of(k);
                    let m = if found || j < i { j } else { j - 1 };
                    assert(before.keys()[m] == k);
                }
                if before@.contains_key(k) && k != key {
                    let j = before.keys().index_of(k);
                    let m = if found || j < i { j } else { j + 1 };
                    assert(now.keys()[m] == k);
                }
            }
            assert forall|k: K| #[trigger] now@.contains_key(k) implies now@[k]
                == before@.insert(key, value@)[k] by {
                if k != key {
                    let j = now.keys().index_of(k);
                    assert(now.entries@[j].0 == k);
                    now.lemma_at(j);
                    let m = if found || j < i { j } else { j - 1 };
                    assert(before.entries@[m] == now.entries@[j]);
                    before.lemma_at(m);
                }
            }
            assert(now@ =~= before@.insert(key, value@));
        }
        !found
    }
}

impl<K: Key, V: View> Table<K, V> {
    /// Takes out the entry of `key`, if there is one.
    pub fn remove(&mut self, key: K)
        ensures
            final(self)@ == old(self)@.remove(key),
    {
        proof {
            use_type_invariant(&*self);
        }
        let ghost before = *self;
        let i: usize = self.place(key);
        if i < self.entries.len() && !key.precedes(&self.entries[i].0) {
            proof {
                K::lemma_before_total(self.entries@[i as int].0, key);
            }
            let mut entries: Vec<(K, V)> = Vec::new();
            std::mem::swap(&mut entries, &mut self.entries);
            let _ = entries.remove(i);
            proof {
                let keys = entries@.map_values(|e: (K, V)| e.0);
                let was = before.keys();
                assert forall|a: int, b: int| 0 <= a < b < keys.len() implies #[trigger] keys[a].before(
                    #[trigger] keys[b],
                ) by {
                    let x = if a < i { a } else { a + 1 };
                    let y = if b < i { b } else { b + 1 };
                    assert(was[x].before(was[y]));
                }
            }
            self.entries = entries;
            proof {
                let now = *self;
                assert forall|k: K| #[trigger] now@.contains_key(k) <==> before@.remove(
                    key,
                ).contains_key(k) by {
                    if now@.contains_key(k) {
                        let j = now.keys().index_of(k);
                        let m = if j < i { j } else { j + 1 };
                        assert(before.keys()[m] == k);
                        if m < i {
                            assert(before.keys()[m].before(before.keys()[i as int]));
                        } else {
                            assert(before.keys()[i as int].before(before.keys()[m]));
                        }
                        K::lemma_before_total(k, key);
                        K::lemma_before_total(key, k);
                    }
                    if before@.contains_key(k) && k != key {
                        let j = before.keys().index_of(k);
                        let m = if j < i { j } else { j - 1 };
                        assert(now.keys()[m] == k);
                    }
                }
                assert forall|k: K| #[trigger] now@.contains_key(k) implies now@[k]
                    == before@.remove(key)[k] by {
                    let j = now.keys().index_of(k);
                    assert(now.entries@[j].0 == k);
                    now.lemma_at(j);
                    let m = if j < i { j } else { j + 1 };
                    assert(before.entries@[m] == now.entries@[j]);
                    before.lemma_at(m);
                }
                assert(now@ =~= before@.remove(key));
            }
        } else {
            proof {
                self.lemma_absent(key, i as int);
                assert(self@ =~= before@.remove(key));
            }
        }
    }
}

/// A set of keys.
pub struct KeySet<K: Key> {
    entries: Table<K, ()>,
}

impl<K: Key> View for KeySet<K> {
    type V = Set<K>;

    closed spec fn view(&self) -> Set<K> {
        self.entries@.dom()
    }
}

impl<K: Key> KeySet<K> {
    pub fn new() -> (set: Self)
        ensures
            set@ == Set::<K>::empty(),
    {
        let set = KeySet { entries: Table::new() };
        assert(set@ =~= Set::<K>::empty());
        set
    }

    pub fn contains(&self, key: K) -> (present: bool)
        ensures
            present == self@.contains(key),
    {
        self.entries.contains_key(key)
    }

    /// Adds a key. Tells whether it is new.
    pub fn insert(&mut self, key: K) -> (fresh: bool)
        ensures
            final(self)@ == old(self)@.insert(key),
            fresh == !old(self)@.contains(key),
    {
        let fresh: bool = self.entries.insert(key, ());
        assert(self@ =~= old(self)@.insert(key));
        fresh
    }

    pub fn remove(&mut self, key: K)
        ensures
            final(self)@ == old(self)@.remove(key),
    {
        self.entries.remove(key);
        assert(self@ =~= old(self)@.remove(key));
    }
}

/// A set of texts.
pub struct TextSet {
    items: Vec<String>,
}

impl View for TextSet {
    type V = Set<Seq<char>>;

    closed spec fn view(&self) -> Set<Seq<char>> {
        crate::text::texts(self.items@).to_set()
    }
}

impl TextSet {
    pub fn new() -> (set: Self)
        ensures
            set@ == Set::<Seq<char>>::empty(),
    {
        let set = TextSet { items: Vec::new() };
        assert(set@ =~= Set::<Seq<char>>::empty());
        set
    }

    pub fn contains(&self, text: &str) -> (present: bool)
        ensures
            present == self@.contains(text@),
    {
        let ghost all = crate::text::texts(self.items@);
        let mut i: usize = 0;
        while i < self.items.len()
            invariant
                i <= self.items@.len(),
                all == crate::text::texts(self.items@),
                self@ == all.to_set(),
                forall|k: int| 0 <= k < i ==> all[k] != text@,
            decreases self.items@.len() - i,
        {
            if crate::text::same_text(self.items[i].as_str(), text) {
                assert(all[i as int] == text@);
                assert(all.contains(text@));
                return true;
            }
            assert(all[i as int] == self.items@[i as int]@);
            i += 1;
        }
        false
    }

    /// Adds a text.
    pub fn insert(&mut self, text: &str)
        ensures
            final(self)@ == old(self)@.insert(text@),
    {
        if self.contains(text) {
            assert(self@ =~= old(self)@.insert(text@));
            return ;
        }
        let ghost was = crate::text::texts(self.items@);
        self.items.push(text.to_owned());
        proof {
            let now = crate::text::texts(self.items@);
            assert(now =~= was.push(text@));
            assert forall|t: Seq<char>| #[trigger] now.to_set().contains(t)
                <==> was.to_set().insert(text@).contains(t) by {
                if was.contains(t) {
                    assert(now[was.index_of(t)] == t);
                }
                if now.contains(t) && t != text@ {
                    assert(was[now.index_of(t)] == t);
                }
                assert(now[was.len() as int] == text@);
            }
            assert(self@ =~= old(self)@.insert(text@));
        }
    }
}

} // verus!
