//! A small association table: keys kept unique, entries kept in the order in
//! which their keys were first inserted. Its view is the sequence of
//! (key, value) pairs; `to_map` gives the map that the pairs spell.
use vstd::prelude::*;

verus! {

/// A key whose executable equality agrees with equality of its view.
pub trait Key: View + Sized {
    fn same(&self, other: &Self) -> (b: bool)
        ensures
            b == (self@ == other@),
    ;
}

impl Key for u32 {
    fn same(&self, other: &Self) -> (b: bool) {
        *self == *other
    }
}

impl Key for usize {
    fn same(&self, other: &Self) -> (b: bool) {
        *self == *other
    }
}

impl Key for String {
    fn same(&self, other: &Self) -> (b: bool) {
        *self == *other
    }
}

/// The views of a sequence of pairs.
pub open spec fn views_of<K: View, V: View>(s: Seq<(K, V)>) -> Seq<(K::V, V::V)> {
    s.map_values(|e: (K, V)| e@)
}

/// The views of a sequence of keys.
pub open spec fn key_views<K: View>(s: Seq<K>) -> Seq<K::V> {
    s.map_values(|x: K| x@)
}

/// No key occurs twice.
pub open spec fn unique_keys<A, B>(s: Seq<(A, B)>) -> bool {
    forall|i: int, j: int|
        0 <= i < s.len() && 0 <= j < s.len() && i != j ==> #[trigger] s[i].0 != #[trigger] s[j].0
}

pub open spec fn has_key<A, B>(s: Seq<(A, B)>, k: A) -> bool {
    exists|i: int| 0 <= i < s.len() && #[trigger] s[i].0 == k
}

/// Where `k` stands (meaningful when `has_key(s, k)`).
pub open spec fn key_index<A, B>(s: Seq<(A, B)>, k: A) -> int {
    choose|i: int| 0 <= i < s.len() && #[trigger] s[i].0 == k
}

/// The value stored under `k`.
pub open spec fn lookup<A, B>(s: Seq<(A, B)>, k: A) -> Option<B> {
    if has_key(s, k) {
        Some(s[key_index(s, k)].1)
    } else {
        None
    }
}

/// `k` bound to `v`: in place where `k` is already present, at the end otherwise.
pub open spec fn with_entry<A, B>(s: Seq<(A, B)>, k: A, v: B) -> Seq<(A, B)> {
    if has_key(s, k) {
        s.update(key_index(s, k), (k, v))
    } else {
        s.push((k, v))
    }
}

/// The entry of `k` taken out, the others kept in order.
pub open spec fn without_key<A, B>(s: Seq<(A, B)>, k: A) -> Seq<(A, B)> {
    if has_key(s, k) {
        s.remove(key_index(s, k))
    } else {
        s
    }
}

/// The entries whose key occurs in `keep`, in order.
pub open spec fn keep_keys<A, B>(s: Seq<(A, B)>, keep: Seq<A>) -> Seq<(A, B)>
    decreases s.len(),
{
    if s.len() == 0 {
        s
    } else {
        let rest = keep_keys(s.drop_last(), keep);
        if keep.contains(s.last().0) {
            rest.push(s.last())
        } else {
            rest
        }
    }
}

/// The map that the pairs spell.
pub open spec fn to_map<A, B>(s: Seq<(A, B)>) -> Map<A, B> {
    Map::new(|k: A| has_key(s, k), |k: A| s[key_index(s, k)].1)
}

/// In a table with unique keys, the index of a key is the one place it occurs.
pub proof fn lemma_key_index<A, B>(s: Seq<(A, B)>, i: int)
    requires
        unique_keys(s),
        0 <= i < s.len(),
    ensures
        has_key(s, s[i].0),
        key_index(s, s[i].0) == i,
        lookup(s, s[i].0) == Some(s[i].1),
{
    let k = s[i].0;
    assert(has_key(s, k));
    let j = key_index(s, k);
    assert(s[j].0 == k);
}

/// Unique keys survive `with_entry`, `without_key` and `keep_keys`.
pub proof fn lemma_with_entry_unique<A, B>(s: Seq<(A, B)>, k: A, v: B)
    requires
        unique_keys(s),
    ensures
        unique_keys(with_entry(s, k, v)),
        has_key(with_entry(s, k, v), k),
        lookup(with_entry(s, k, v), k) == Some(v),
        forall|k2: A| k2 != k ==> lookup(with_entry(s, k, v), k2) == lookup(s, k2),
{
    let t = with_entry(s, k, v);
    if has_key(s, k) {
        let i = key_index(s, k);
        assert(s[i].0 == k);
        assert(unique_keys(t)) by {
            assert forall|a: int, b: int|
                0 <= a < t.len() && 0 <= b < t.len() && a != b implies #[trigger] t[a].0
                != #[trigger] t[b].0 by {
                assert(t[a].0 == s[a].0);
                assert(t[b].0 == s[b].0);
            }
        }
    } else {
        assert(unique_keys(t)) by {
            assert forall|a: int, b: int|
                0 <= a < t.len() && 0 <= b < t.len() && a != b implies #[trigger] t[a].0
                != #[trigger] t[b].0 by {
                if a == s.len() {
                    assert(s[b].0 == t[b].0);
                } else if b == s.len() {
                    assert(s[a].0 == t[a].0);
                } else {
                    assert(t[a] == s[a]);
                    assert(t[b] == s[b]);
                }
            }
        }
    }
    assert(t[key_index(t, k)].0 == k) by {
        if has_key(s, k) {
            assert(t[key_index(s, k)].0 == k);
        } else {
            assert(t[s.len() as int].0 == k);
        }
    }
    lemma_key_index(t, key_index(t, k));
    assert forall|k2: A| k2 != k implies lookup(t, k2) == lookup(s, k2) by {
        if has_key(s, k2) {
            let i = key_index(s, k2);
            lemma_key_index(s, i);
            assert(t[i] == s[i]);
            lemma_key_index(t, i);
        } else {
            if has_key(t, k2) {
                let j = key_index(t, k2);
                assert(s[j] == t[j]);
            }
        }
    }
}

pub proof fn lemma_without_key_unique<A, B>(s: Seq<(A, B)>, k: A)
    requires
        unique_keys(s),
    ensures
        unique_keys(without_key(s, k)),
        !has_key(without_key(s, k), k),
        forall|k2: A| k2 != k ==> lookup(without_key(s, k), k2) == lookup(s, k2),
{
    let t = without_key(s, k);
    if has_key(s, k) {
        let i = key_index(s, k);
        assert(s[i].0 == k);
        assert forall|a: int| 0 <= a < t.len() implies #[trigger] t[a] == (if a < i {
            s[a]
        } else {
            s[a + 1]
        }) by {}
        assert(unique_keys(t)) by {
            assert forall|a: int, b: int|
                0 <= a < t.len() && 0 <= b < t.len() && a != b implies #[trigger] t[a].0
                != #[trigger] t[b].0 by {
                let sa = if a < i {
                    a
                } else {
                    a + 1
                };
                let sb = if b < i {
                    b
                } else {
                    b + 1
                };
                assert(t[a] == s[sa]);
                assert(t[b] == s[sb]);
            }
        }
        if has_key(t, k) {
            let j = key_index(t, k);
            let sj = if j < i {
                j
            } else {
                j + 1
            };
            assert(t[j] == s[sj]);
        }
        assert forall|k2: A| k2 != k implies lookup(t, k2) == lookup(s, k2) by {
            if has_key(s, k2) {
                let m = key_index(s, k2);
                lemma_key_index(s, m);
                assert(m != i);
                let tm = if m < i {
                    m
                } else {
                    m - 1
                };
                assert(t[tm] == s[m]);
                lemma_key_index(t, tm);
            } else {
                if has_key(t, k2) {
                    let j = key_index(t, k2);
                    let sj = if j < i {
                        j
                    } else {
                        j + 1
                    };
                    assert(t[j] == s[sj]);
                }
            }
        }
    }
}

/// `keep_keys` keeps exactly the entries whose key is in `keep`.
pub proof fn lemma_keep_keys<A, B>(s: Seq<(A, B)>, keep: Seq<A>)
    requires
        unique_keys(s),
    ensures
        unique_keys(keep_keys(s, keep)),
        forall|k: A|
            lookup(keep_keys(s, keep), k) == (if keep.contains(k) {
                lookup(s, k)
            } else {
                None
            }),
        forall|p: (A, B)| keep_keys(s, keep).contains(p) ==> s.contains(p),
    decreases s.len(),
{
    if s.len() > 0 {
        let init = s.drop_last();
        assert(unique_keys(init)) by {
            assert forall|a: int, b: int|
                0 <= a < init.len() && 0 <= b < init.len() && a != b implies #[trigger] init[a].0
                != #[trigger] init[b].0 by {
                assert(init[a] == s[a]);
                assert(init[b] == s[b]);
            }
        }
        lemma_keep_keys(init, keep);
        let rest = keep_keys(init, keep);
        let last = s.last();
        let n = s.len() - 1;
        assert(s[n] == last);
        // `last.0` is not a key of `init`
        assert(!has_key(init, last.0)) by {
            if has_key(init, last.0) {
                let j = key_index(init, last.0);
                assert(s[j] == init[j]);
            }
        }
        assert(!has_key(rest, last.0)) by {
            if has_key(rest, last.0) {
                let j = key_index(rest, last.0);
                assert(rest.contains(rest[j]));
                assert(init.contains(rest[j]));
                let m = choose|m: int| 0 <= m < init.len() && init[m] == rest[j];
                assert(init[m].0 == last.0);
            }
        }
        assert forall|k: A| lookup(s, k) == (if k == last.0 {
            Some(last.1)
        } else {
            lookup(init, k)
        }) by {
            lemma_key_index(s, n);
            if k != last.0 {
                if has_key(s, k) {
                    let m = key_index(s, k);
                    lemma_key_index(s, m);
                    assert(m != n);
                    assert(init[m] == s[m]);
                    lemma_key_index(init, m);
                } else if has_key(init, k) {
                    let m = key_index(init, k);
                    assert(s[m] == init[m]);
                }
            }
        }
        if keep.contains(last.0) {
            let t = rest.push(last);
            assert(t == keep_keys(s, keep));
            assert(unique_keys(t)) by {
                assert forall|a: int, b: int|
                    0 <= a < t.len() && 0 <= b < t.len() && a != b implies #[trigger] t[a].0
                    != #[trigger] t[b].0 by {
                    if a == rest.len() {
                        assert(t[b] == rest[b]);
                        assert(rest[b].0 == t[b].0);
                    } else if b == rest.len() {
                        assert(t[a] == rest[a]);
                    } else {
                        assert(t[a] == rest[a]);
                        assert(t[b] == rest[b]);
                    }
                }
            }
            lemma_key_index(t, rest.len() as int);
            assert forall|k: A| lookup(t, k) == (if keep.contains(k) {
                lookup(s, k)
            } else {
                None
            }) by {
                assert(lookup(rest, k) == (if keep.contains(k) {
                    lookup(init, k)
                } else {
                    None
                }));
                if k != last.0 {
                    if has_key(rest, k) {
                        let m = key_index(rest, k);
                        lemma_key_index(rest, m);
                        assert(t[m] == rest[m]);
                        lemma_key_index(t, m);
                    } else if has_key(t, k) {
                        let m = key_index(t, k);
                        if m < rest.len() {
                            assert(t[m] == rest[m]);
                        }
                    }
                } else {
                    assert(lookup(t, k) == Some(last.1));
                }
            }
            assert forall|p: (A, B)| t.contains(p) implies s.contains(p) by {
                let m = choose|m: int| 0 <= m < t.len() && t[m] == p;
                if m == rest.len() {
                    assert(s[n] == p);
                } else {
                    assert(rest[m] == p);
                    assert(init.contains(p));
                    let q = choose|q: int| 0 <= q < init.len() && init[q] == p;
                    assert(s[q] == p);
                }
            }
        } else {
            assert(rest == keep_keys(s, keep));
            assert forall|p: (A, B)| rest.contains(p) implies s.contains(p) by {
                assert(init.contains(p));
                let q = choose|q: int| 0 <= q < init.len() && init[q] == p;
                assert(s[q] == p);
            }
        }
    }
}

/// The map of a table with unique keys agrees with `lookup`.
pub proof fn lemma_to_map<A, B>(s: Seq<(A, B)>, k: A)
    requires
        unique_keys(s),
    ensures
        to_map(s).contains_key(k) == (lookup(s, k) is Some),
        lookup(s, k) is Some ==> to_map(s)[k] == lookup(s, k)->Some_0,
{
}

/// An association table with unique keys, kept in insertion order.
pub struct Table<K: Key, V: View> {
    entries: Vec<(K, V)>,
}

impl<K: Key, V: View> View for Table<K, V> {
    type V = Seq<(K::V, V::V)>;

    closed spec fn view(&self) -> Seq<(K::V, V::V)> {
        views_of(self.entries@)
    }
}

impl<K: Key, V: View> Table<K, V> {
    #[verifier::type_invariant]
    pub open spec fn inv(&self) -> bool {
        unique_keys(self@)
    }

    /// An empty table.
    pub fn new() -> (t: Self)
        ensures
            t@ == Seq::<(K::V, V::V)>::empty(),
    {
        let t = Table { entries: Vec::new() };
        assert(t@ =~= Seq::<(K::V, V::V)>::empty());
        t
    }

    pub fn len(&self) -> (n: usize)
        ensures
            n == self@.len(),
    {
        self.entries.len()
    }

    pub fn key_at(&self, i: usize) -> (k: &K)
        requires
            i < self@.len(),
        ensures
            k@ == self@[i as int].0,
    {
        &self.entries[i].0
    }

    pub fn value_at(&self, i: usize) -> (v: &V)
        requires
            i < self@.len(),
        ensures
            v@ == self@[i as int].1,
    {
        &self.entries[i].1
    }

    /// Where `k` stands, if it is present.
    fn find(&self, k: &K) -> (r: Option<usize>)
        ensures
            match r {
                Some(i) => i < self@.len() && self@[i as int].0 == k@ && has_key(self@, k@)
                    && key_index(self@, k@) == i,
                None => !has_key(self@, k@),
            },
    {
        proof {
            use_type_invariant(self);
        }
        Self::find_in(&self.entries, k)
    }

    /// The value stored under `k`.
    pub fn get(&self, k: &K) -> (r: Option<&V>)
        ensures
            match r {
                Some(v) => lookup(self@, k@) == Some(v@),
                None => lookup(self@, k@) is None,
            },
    {
        match self.find(k) {
            Some(i) => Some(&self.entries[i].1),
            None => None,
        }
    }

    pub fn contains_key(&self, k: &K) -> (b: bool)
        ensures
            b == has_key(self@, k@),
    {
        self.find(k).is_some()
    }

    /// Binds `k` to `v`, in place if `k` is present, at the end otherwise.
    pub fn insert(&mut self, k: K, v: V)
        ensures
            final(self)@ == with_entry(old(self)@, k@, v@),
    {
        proof {
            use_type_invariant(&*self);
            lemma_with_entry_unique(self@, k@, v@);
        }
        let ghost old_view = self@;
        let mut entries: Vec<(K, V)> = Vec::new();
        std::mem::swap(&mut entries, &mut self.entries);
        assert(views_of(entries@) == old_view);
        match Self::find_in(&entries, &k) {
            Some(i) => {
                entries.set(i, (k, v));
            },
            None => {
                entries.push((k, v));
            },
        }
        assert(views_of(entries@) =~= with_entry(old_view, k@, v@));
        self.entries = entries;
    }

    /// Takes the entry of `k` out, keeping the others in order.
    pub fn remove(&mut self, k: &K)
        ensures
            final(self)@ == without_key(old(self)@, k@),
    {
        proof {
            use_type_invariant(&*self);
            lemma_without_key_unique(self@, k@);
        }
        let ghost old_view = self@;
        let mut entries: Vec<(K, V)> = Vec::new();
        std::mem::swap(&mut entries, &mut self.entries);
        assert(views_of(entries@) == old_view);
        match Self::find_in(&entries, k) {
            Some(i) => {
                entries.remove(i);
            },
            None => {},
        }
        assert(views_of(entries@) =~= without_key(old_view, k@));
        self.entries = entries;
    }

    fn find_in(entries: &Vec<(K, V)>, k: &K) -> (r: Option<usize>)
        requires
            unique_keys(views_of(entries@)),
        ensures
            ({
                let s = views_of(entries@);
                match r {
                    Some(i) => i < s.len() && s[i as int].0 == k@ && has_key(s, k@) && key_index(
                        s,
                        k@,
                    ) == i,
                    None => !has_key(s, k@),
                }
            }),
    {
        let ghost s = views_of(entries@);
        let n = entries.len();
        let mut i: usize = 0;
        while i < n
            invariant
                n == s.len(),
                s == views_of(entries@),
                unique_keys(s),
                i <= n,
                forall|j: int| 0 <= j < i ==> s[j].0 != k@,
            decreases n - i,
        {
            assert(s[i as int].0 == entries@[i as int].0@);
            if entries[i].0.same(k) {
                proof {
                    lemma_key_index(s, i as int);
                }
                return Some(i);
            }
            i = i + 1;
        }
        None
    }
}


/// Whether `k` occurs among `keys`.
pub fn occurs_in<K: Key>(keys: &Vec<K>, k: &K) -> (b: bool)
    ensures
        b == key_views(keys@).contains(k@),
{
    let ghost kv = key_views(keys@);
    let n = keys.len();
    let mut i: usize = 0;
    while i < n
        invariant
            n == keys@.len(),
            kv == key_views(keys@),
            i <= n,
            forall|j: int| 0 <= j < i ==> kv[j] != k@,
        decreases n - i,
    {
        if keys[i].same(k) {
            assert(kv[i as int] == k@);
            return true;
        }
        i = i + 1;
    }
    false
}

impl<K: Key, V: View> Table<K, V> {
    /// Keeps the entries whose key occurs in `keep`, in order.
    pub fn retain_in(&mut self, keep: &Vec<K>)
        ensures
            final(self)@ == keep_keys(old(self)@, key_views(keep@)),
    {
        proof {
            use_type_invariant(&*self);
            lemma_keep_keys(self@, key_views(keep@));
        }
        let ghost orig = self@;
        let ghost kv = key_views(keep@);
        let mut rest: Vec<(K, V)> = Vec::new();
        std::mem::swap(&mut rest, &mut self.entries);
        let mut kept: Vec<(K, V)> = Vec::new();
        let ghost mut i: int = 0;
        assert(views_of(rest@) =~= orig.skip(0));
        assert(views_of(kept@) =~= keep_keys(orig.take(0), kv));
        while rest.len() > 0
            invariant
                0 <= i <= orig.len(),
                views_of(rest@) == orig.skip(i),
                views_of(kept@) == keep_keys(orig.take(i), kv),
                kv == key_views(keep@),
            decreases rest.len(),
        {
            let ghost before = rest@;
            assert(views_of(before).len() == before.len());
            assert(views_of(before)[0] == before[0]@);
            let e = rest.remove(0);
            assert(orig.skip(i)[0] == orig[i]);
            assert(e@ == orig[i]);
            assert(orig.take(i + 1).drop_last() =~= orig.take(i));
            assert(orig.take(i + 1).last() == orig[i]);
            let keep_it = occurs_in(keep, &e.0);
            if keep_it {
                kept.push(e);
            }
            let ghost i0 = i;
            proof {
                i = i + 1;
            }
            assert forall|j: int| 0 <= j < rest@.len() implies #[trigger] views_of(rest@)[j] == orig.skip(i)[j] by {
                assert(rest@[j] == before[j + 1]);
                assert(views_of(before)[j + 1] == orig.skip(i0)[j + 1]);
            }
            assert(views_of(rest@) =~= orig.skip(i));
            assert(views_of(kept@) =~= keep_keys(orig.take(i), kv));
        }
        assert(orig.take(i) =~= orig);
        self.entries = kept;
    }
}

} // verus!
