//! The keyed tables of the store: entries keyed by text, kept in the order in
//! which their keys first came, where a later write to a key replaces its
//! value in place and a removal moves the last entry into the freed place.

use vstd::prelude::*;

verus! {

/// A value that the store keeps and can hand out as an exact copy.
pub trait Record: View + Sized {
    fn duplicate(&self) -> (r: Self)
        ensures
            r@ == self@,
    ;
}

impl Record for u64 {
    fn duplicate(&self) -> (r: u64) {
        *self
    }
}

impl Record for u16 {
    fn duplicate(&self) -> (r: u16) {
        *self
    }
}

/// `k` is the key of some entry of `s`.
pub open spec fn has_key<V>(s: Seq<(Seq<char>, V)>, k: Seq<char>) -> bool {
    exists|i: int| 0 <= i < s.len() && #[trigger] s[i].0 == k
}

/// The position of the entry with key `k` (meaningful where `has_key(s, k)`).
pub open spec fn index_of<V>(s: Seq<(Seq<char>, V)>, k: Seq<char>) -> int {
    choose|i: int| 0 <= i < s.len() && #[trigger] s[i].0 == k
}

/// The value stored under `k`, if any.
pub open spec fn lookup<V>(s: Seq<(Seq<char>, V)>, k: Seq<char>) -> Option<V> {
    if has_key(s, k) {
        Some(s[index_of(s, k)].1)
    } else {
        None
    }
}

/// No key occurs twice.
pub open spec fn distinct_keys<V>(s: Seq<(Seq<char>, V)>) -> bool {
    forall|i: int, j: int| 0 <= i < s.len() && 0 <= j < s.len() && i != j ==> #[trigger] s[i].0 != #[trigger] s[j].0
}

/// Writing `v` under `k`: in place where `k` is present, else at the end.
pub open spec fn entries_insert<V>(s: Seq<(Seq<char>, V)>, k: Seq<char>, v: V) -> Seq<(Seq<char>, V)> {
    if has_key(s, k) {
        s.update(index_of(s, k), (k, v))
    } else {
        s.push((k, v))
    }
}

/// Removing the entry of `k`: the last entry takes its place.
pub open spec fn entries_remove<V>(s: Seq<(Seq<char>, V)>, k: Seq<char>) -> Seq<(Seq<char>, V)> {
    if has_key(s, k) {
        s.update(index_of(s, k), s.last()).drop_last()
    } else {
        s
    }
}

/// Writing each pair of `p` in turn, starting from `s`.
pub open spec fn entries_insert_all<V>(s: Seq<(Seq<char>, V)>, p: Seq<(Seq<char>, V)>) -> Seq<(Seq<char>, V)>
    decreases p.len(),
{
    if p.len() == 0 {
        s
    } else {
        let prev = entries_insert_all(s, p.drop_last());
        entries_insert(prev, p.last().0, p.last().1)
    }
}

/// Views of exec pairs.
pub open spec fn pairs_view<V: View>(p: Seq<(String, V)>) -> Seq<(Seq<char>, V::V)> {
    p.map_values(|e: (String, V)| (e.0@, e.1@))
}

/// A table of the store.
pub struct StoreMap<V: View> {
    entries: Vec<(String, V)>,
}

impl<V: View> View for StoreMap<V> {
    type V = Seq<(Seq<char>, V::V)>;

    closed spec fn view(&self) -> Seq<(Seq<char>, V::V)> {
        pairs_view(self.entries@)
    }
}

impl<V: View> StoreMap<V> {
    #[verifier::type_invariant]
    pub open spec fn keys_are_distinct(&self) -> bool {
        distinct_keys(self@)
    }

    /// An empty table.
    pub fn new() -> (r: Self)
        ensures
            r@ == Seq::<(Seq<char>, V::V)>::empty(),
    {
        let r = StoreMap { entries: Vec::new() };
        assert(r@ =~= Seq::<(Seq<char>, V::V)>::empty());
        r
    }

    /// Number of entries.
    pub fn len(&self) -> (n: usize)
        ensures
            n == self@.len(),
    {
        self.entries.len()
    }

    /// The entry at position `i`.
    pub fn entry(&self, i: usize) -> (r: (&String, &V))
        requires
            i < self@.len(),
        ensures
            r.0@ == self@[i as int].0,
            r.1@ == self@[i as int].1,
    {
        let e = &self.entries[i];
        (&e.0, &e.1)
    }

    /// Position of the entry of `key`, if there is one.
    pub fn find(&self, key: &String) -> (r: Option<usize>)
        ensures
            r is Some <==> has_key(self@, key@),
            r matches Some(i) ==> i < self@.len() && i as int == index_of(self@, key@) && self@[i as int].0 == key@,
    {
        proof {
            use_type_invariant(self);
        }
        let n = self.entries.len();
        let mut i: usize = 0;
        while i < n
            invariant
                n == self@.len(),
                i <= n,
                distinct_keys(self@),
                forall|j: int| 0 <= j < i ==> self@[j].0 != key@,
            decreases n - i,
        {
            let e = &self.entries[i];
            assert(self@[i as int].0 == e.0@);
            if e.0 == *key {
                proof {
                    lemma_index_of(self@, key@);
                }
                return Some(i);
            }
            i = i + 1;
        }
        proof {
            if has_key(self@, key@) {
                let j = choose|j: int| 0 <= j < self@.len() && #[trigger] self@[j].0 == key@;
                assert(self@[j].0 == key@);
            }
        }
        None
    }

    /// Whether `key` has an entry.
    pub fn contains_key(&self, key: &String) -> (r: bool)
        ensures
            r == has_key(self@, key@),
    {
        self.find(key).is_some()
    }

    /// The value stored under `key`, if any.
    pub fn get(&self, key: &String) -> (r: Option<&V>)
        ensures
            r is Some <==> has_key(self@, key@),
            r matches Some(v) ==> lookup(self@, key@) == Some(v@),
    {
        match self.find(key) {
            Some(i) => {
                let e = &self.entries[i];
                assert(self@[i as int].1 == e.1@);
                Some(&e.1)
            },
            None => None,
        }
    }

    /// Writes `value` under `key`, in place where `key` is present.
    pub fn insert(&mut self, key: String, value: V)
        ensures
            final(self)@ == entries_insert(old(self)@, key@, value@),
    {
        proof {
            use_type_invariant(&*self);
        }
        match self.find(&key) {
            Some(i) => {
                let ghost k = key@;
                let ghost v = value@;
                let mut entries: Vec<(String, V)> = Vec::new();
                std::mem::swap(&mut entries, &mut self.entries);
                entries.set(i, (key, value));
                proof {
                    lemma_insert_distinct(old(self)@, k, v);
                    assert(pairs_view(entries@) =~= entries_insert(old(self)@, k, v));
                }
                self.entries = entries;
            },
            None => {
                let ghost k = key@;
                let ghost v = value@;
                let mut entries: Vec<(String, V)> = Vec::new();
                std::mem::swap(&mut entries, &mut self.entries);
                entries.push((key, value));
                proof {
                    lemma_insert_distinct(old(self)@, k, v);
                    assert(pairs_view(entries@) =~= entries_insert(old(self)@, k, v));
                }
                self.entries = entries;
            },
        }
    }

    /// Removes the entry of `key`, moving the last entry into its place,
    /// and gives back its value.
    pub fn remove(&mut self, key: &String) -> (r: Option<V>)
        ensures
            final(self)@ == entries_remove(old(self)@, key@),
            r is Some <==> has_key(old(self)@, key@),
            r matches Some(v) ==> lookup(old(self)@, key@) == Some(v@),
    {
        proof {
            use_type_invariant(&*self);
        }
        match self.find(key) {
            Some(i) => {
                let ghost s = self@;
                proof {
                    lemma_remove_distinct(s, key@);
                }
                let mut entries: Vec<(String, V)> = Vec::new();
                std::mem::swap(&mut entries, &mut self.entries);
                let e = entries.swap_remove(i);
                assert(pairs_view(entries@) =~= entries_remove(s, key@));
                self.entries = entries;
                assert(final(self)@ =~= entries_remove(s, key@));
                Some(e.1)
            },
            None => None,
        }
    }

    /// Removes every entry.
    pub fn clear(&mut self)
        ensures
            final(self)@ == Seq::<(Seq<char>, V::V)>::empty(),
    {
        self.entries = Vec::new();
        assert(final(self)@ =~= Seq::<(Seq<char>, V::V)>::empty());
    }
}

impl<V: Record> StoreMap<V> {
    /// A copy of every entry, in table order.
    pub fn to_vec(&self) -> (r: Vec<(String, V)>)
        ensures
            pairs_view(r@) == self@,
    {
        let n = self.entries.len();
        let mut r: Vec<(String, V)> = Vec::new();
        let mut i: usize = 0;
        while i < n
            invariant
                n == self@.len(),
                i <= n,
                r@.len() == i,
                pairs_view(r@) =~= self@.subrange(0, i as int),
            decreases n - i,
        {
            let e = &self.entries[i];
            assert(self@[i as int] == (e.0@, e.1@));
            r.push((e.0.clone(), e.1.duplicate()));
            i = i + 1;
            assert(pairs_view(r@) =~= self@.subrange(0, i as int));
        }
        assert(self@.subrange(0, n as int) =~= self@);
        r
    }

    /// A table holding each pair of `pairs` written in turn, a later pair
    /// replacing an earlier one with the same key.
    pub fn from_pairs(pairs: Vec<(String, V)>) -> (r: Self)
        ensures
            r@ == entries_insert_all(Seq::<(Seq<char>, V::V)>::empty(), pairs_view(pairs@)),
    {
        let ghost p = pairs_view(pairs@);
        let mut r = Self::new();
        let n = pairs.len();
        let mut i: usize = 0;
        assert(p.subrange(0, 0) =~= Seq::<(Seq<char>, V::V)>::empty());
        while i < n
            invariant
                n == pairs@.len(),
                p == pairs_view(pairs@),
                i <= n,
                r@ == entries_insert_all(Seq::<(Seq<char>, V::V)>::empty(), p.subrange(0, i as int)),
            decreases n - i,
        {
            let e = &pairs[i];
            assert(p[i as int] == (e.0@, e.1@));
            assert(p.subrange(0, i + 1).drop_last() =~= p.subrange(0, i as int));
            r.insert(e.0.clone(), e.1.duplicate());
            i = i + 1;
        }
        assert(p.subrange(0, n as int) =~= p);
        r
    }
}

impl<V: Record> Record for StoreMap<V> {
    fn duplicate(&self) -> (r: Self) {
        proof {
            use_type_invariant(self);
        }
        let entries = self.to_vec();
        StoreMap { entries }
    }
}

/// What a read gives back of a write: after writing `v` under `k`, reading
/// `k` gives `v` and reading any other key gives what it gave before; the
/// keys stay distinct.
pub proof fn law_lookup_after_insert<V>(s: Seq<(Seq<char>, V)>, k: Seq<char>, v: V, k2: Seq<char>)
    requires
        distinct_keys(s),
    ensures
        distinct_keys(entries_insert(s, k, v)),
        lookup(entries_insert(s, k, v), k2) == (if k2 == k { Some(v) } else { lookup(s, k2) }),
{
    lemma_insert_distinct(s, k, v);
    let t = entries_insert(s, k, v);
    if has_key(s, k) {
        lemma_index_of(s, k);
        let i = index_of(s, k);
        assert(t[i].0 == k);
        if k2 == k {
            lemma_index_of(t, k2);
        } else {
            if has_key(s, k2) {
                lemma_index_of(s, k2);
                let j = index_of(s, k2);
                assert(t[j].0 == k2);
                lemma_index_of(t, k2);
            } else {
                if has_key(t, k2) {
                    lemma_index_of(t, k2);
                    let j = index_of(t, k2);
                    assert(s[j].0 == k2);
                }
            }
        }
    } else {
        let n = s.len() as int;
        assert(t[n].0 == k);
        if k2 == k {
            lemma_index_of(t, k2);
        } else {
            if has_key(s, k2) {
                lemma_index_of(s, k2);
                let j = index_of(s, k2);
                assert(t[j].0 == k2);
                lemma_index_of(t, k2);
            } else {
                if has_key(t, k2) {
                    lemma_index_of(t, k2);
                    let j = index_of(t, k2);
                    assert(s[j].0 == k2);
                }
            }
        }
    }
}

/// After removing `k`, reading `k` gives nothing and reading any other key
/// gives what it gave before; the keys stay distinct.
pub proof fn law_lookup_after_remove<V>(s: Seq<(Seq<char>, V)>, k: Seq<char>, k2: Seq<char>)
    requires
        distinct_keys(s),
    ensures
        distinct_keys(entries_remove(s, k)),
        lookup(entries_remove(s, k), k2) == (if k2 == k { None } else { lookup(s, k2) }),
{
    lemma_remove_distinct(s, k);
    let t = entries_remove(s, k);
    if has_key(s, k) {
        lemma_index_of(s, k);
        let i = index_of(s, k);
        let last = s.len() - 1;
        if k2 == k {
            if has_key(t, k2) {
                lemma_index_of(t, k2);
                let j = index_of(t, k2);
                if j == i {
                    assert(t[j] == s[last]);
                } else {
                    assert(t[j] == s[j]);
                }
            }
        } else {
            if has_key(s, k2) {
                lemma_index_of(s, k2);
                let j = index_of(s, k2);
                let j2 = if j == last { i } else { j };
                assert(t[j2] == s[j]);
                lemma_index_of(t, k2);
            } else {
                if has_key(t, k2) {
                    lemma_index_of(t, k2);
                    let j = index_of(t, k2);
                    if j == i {
                        assert(t[j] == s[last]);
                    } else {
                        assert(t[j] == s[j]);
                    }
                }
            }
        }
    }
}

/// Writing adds an entry exactly when the key was absent; removing takes one
/// away exactly when the key was present.
pub proof fn law_sizes<V>(s: Seq<(Seq<char>, V)>, k: Seq<char>, v: V)
    ensures
        entries_insert(s, k, v).len() == s.len() + (if has_key(s, k) { 0int } else { 1int }),
        entries_remove(s, k).len() == s.len() - (if has_key(s, k) { 1int } else { 0int }),
{
    if has_key(s, k) {
        let j = choose|j: int| 0 <= j < s.len() && #[trigger] s[j].0 == k;
        assert(s[j].0 == k);
    }
}

/// Writing the entries of a table with distinct keys, in order, into an
/// empty table gives the same table back.
pub proof fn law_insert_all_round_trip<V>(s: Seq<(Seq<char>, V)>)
    requires
        distinct_keys(s),
    ensures
        entries_insert_all(Seq::<(Seq<char>, V)>::empty(), s) == s,
    decreases s.len(),
{
    if s.len() > 0 {
        let p = s.drop_last();
        assert(distinct_keys(p));
        law_insert_all_round_trip(p);
        if has_key(p, s.last().0) {
            let j = choose|j: int| 0 <= j < p.len() && #[trigger] p[j].0 == s.last().0;
            assert(s[j].0 == s[s.len() - 1].0);
        }
        assert(p.push(s.last()) =~= s);
    }
}

/// Every entry after a write is the written pair or an entry from before.
pub proof fn lemma_insert_elements<V>(s: Seq<(Seq<char>, V)>, k: Seq<char>, v: V)
    ensures
        forall|i: int| 0 <= i < entries_insert(s, k, v).len() ==> #[trigger] entries_insert(s, k, v)[i] == (k, v)
            || s.contains(entries_insert(s, k, v)[i]),
{
    let t = entries_insert(s, k, v);
    assert forall|i: int| 0 <= i < t.len() implies #[trigger] t[i] == (k, v) || s.contains(t[i]) by {
        if t[i] != (k, v) {
            assert(t[i] == s[i]);
        }
    }
}

/// Every entry after a removal is an entry from before.
pub proof fn lemma_remove_elements<V>(s: Seq<(Seq<char>, V)>, k: Seq<char>)
    ensures
        forall|i: int| 0 <= i < entries_remove(s, k).len() ==> s.contains(#[trigger] entries_remove(s, k)[i]),
{
    let t = entries_remove(s, k);
    if has_key(s, k) {
        let j = index_of(s, k);
        assert forall|i: int| 0 <= i < t.len() implies s.contains(#[trigger] t[i]) by {
            if i == j {
                assert(t[i] == s[s.len() - 1]);
            } else {
                assert(t[i] == s[i]);
            }
        }
    } else {
        assert forall|i: int| 0 <= i < t.len() implies s.contains(#[trigger] t[i]) by {
            assert(t[i] == s[i]);
        }
    }
}

/// What a read gives is an entry of the table under the key read.
pub proof fn lemma_lookup_element<V>(s: Seq<(Seq<char>, V)>, k: Seq<char>)
    ensures
        lookup(s, k) matches Some(v) ==> s.contains((k, v)),
{
    if has_key(s, k) {
        let j = index_of(s, k);
        assert(s[j].0 == k);
        assert(s[j] == (k, s[j].1));
    }
}

/// Every entry of a table written from pairs is one of the pairs.
pub proof fn lemma_insert_all_elements<V>(p: Seq<(Seq<char>, V)>)
    ensures
        forall|i: int| 0 <= i < entries_insert_all(Seq::<(Seq<char>, V)>::empty(), p).len()
            ==> p.contains(#[trigger] entries_insert_all(Seq::<(Seq<char>, V)>::empty(), p)[i]),
    decreases p.len(),
{
    if p.len() > 0 {
        let q = p.drop_last();
        lemma_insert_all_elements(q);
        let prev = entries_insert_all(Seq::<(Seq<char>, V)>::empty(), q);
        let t = entries_insert_all(Seq::<(Seq<char>, V)>::empty(), p);
        lemma_insert_elements(prev, p.last().0, p.last().1);
        assert forall|i: int| 0 <= i < t.len() implies p.contains(#[trigger] t[i]) by {
            if t[i] == (p.last().0, p.last().1) {
                assert(p[p.len() - 1] == t[i]);
            } else {
                assert(prev.contains(t[i]));
                let j = choose|j: int| 0 <= j < prev.len() && prev[j] == t[i];
                assert(q.contains(prev[j]));
                let m = choose|m: int| 0 <= m < q.len() && q[m] == prev[j];
                assert(p[m] == q[m]);
            }
        }
    }
}

proof fn lemma_index_of<V>(s: Seq<(Seq<char>, V)>, k: Seq<char>)
    requires
        has_key(s, k),
        distinct_keys(s),
    ensures
        0 <= index_of(s, k) < s.len(),
        s[index_of(s, k)].0 == k,
        forall|i: int| 0 <= i < s.len() && #[trigger] s[i].0 == k ==> i == index_of(s, k),
{
}

proof fn lemma_insert_distinct<V>(s: Seq<(Seq<char>, V)>, k: Seq<char>, v: V)
    requires
        distinct_keys(s),
    ensures
        distinct_keys(entries_insert(s, k, v)),
{
    if has_key(s, k) {
        lemma_index_of(s, k);
    }
}

proof fn lemma_remove_distinct<V>(s: Seq<(Seq<char>, V)>, k: Seq<char>)
    requires
        distinct_keys(s),
    ensures
        distinct_keys(entries_remove(s, k)),
{
    if has_key(s, k) {
        lemma_index_of(s, k);
        let t = entries_remove(s, k);
        let i = index_of(s, k);
        assert forall|a: int, b: int| 0 <= a < t.len() && 0 <= b < t.len() && a != b implies #[trigger] t[a].0 != #[trigger] t[b].0 by {
            let a2 = if a == i { s.len() - 1 } else { a };
            let b2 = if b == i { s.len() - 1 } else { b };
            assert(t[a] == s[a2]);
            assert(t[b] == s[b2]);
        }
    }
}

} // verus!
