use vstd::prelude::*;

verus! {

/// No key occurs twice among the pairs.
pub open spec fn ids_unique<K: View, V>(s: Seq<(K, V)>) -> bool {
    forall|i: int, j: int| 0 <= i < s.len() && 0 <= j < s.len() && i != j ==> s[i].0@ != s[j].0@
}

/// Some pair has key `k`.
pub open spec fn has_id<K: View, V>(s: Seq<(K, V)>, k: K::V) -> bool {
    exists|i: int| 0 <= i < s.len() && s[i].0@ == k
}

/// The map that a list of pairs with distinct keys denotes.
pub open spec fn id_map_of<K: View, V>(s: Seq<(K, V)>) -> Map<K::V, V> {
    Map::new(
        |k: K::V| has_id(s, k),
        |k: K::V| s[choose|i: int| 0 <= i < s.len() && s[i].0@ == k].1,
    )
}

pub proof fn lemma_at<K: View, V>(s: Seq<(K, V)>, i: int)
    requires
        ids_unique(s),
        0 <= i < s.len(),
    ensures
        id_map_of(s).contains_key(s[i].0@),
        id_map_of(s)[s[i].0@] == s[i].1,
{
    assert(has_id(s, s[i].0@));
    let j = choose|j: int| 0 <= j < s.len() && s[j].0@ == s[i].0@;
    assert(j == i);
}

/// The pairs that pass `pred`, kept in order, are pairs of `s`, have
/// distinct keys, pass `pred`, and hold every pair of `s` that passes it.
pub proof fn lemma_filter_pairs<K: View, V>(s: Seq<(K, V)>, pred: spec_fn((K, V)) -> bool)
    requires
        ids_unique(s),
    ensures
        ids_unique(s.filter(pred)),
        forall|i: int| 0 <= i < s.filter(pred).len() ==> pred(#[trigger] s.filter(pred)[i]) && exists|j: int|
            0 <= j < s.len() && s[j] == s.filter(pred)[i],
        forall|j: int| 0 <= j < s.len() && pred(#[trigger] s[j]) ==> exists|i: int|
            0 <= i < s.filter(pred).len() && s.filter(pred)[i] == s[j],
    decreases s.len(),
{
    reveal_with_fuel(Seq::<_>::filter, 1);
    if s.len() > 0 {
        let t = s.drop_last();
        let ft = t.filter(pred);
        let f = s.filter(pred);
        assert(ids_unique(t)) by {
            assert forall|a: int, b: int| 0 <= a < t.len() && 0 <= b < t.len() && a != b implies t[a].0@ != t[b].0@ by {
                assert(t[a] == s[a] && t[b] == s[b]);
            }
        }
        lemma_filter_pairs(t, pred);
        if pred(s.last()) {
            assert(f =~= ft.push(s.last()));
            assert forall|a: int, b: int| 0 <= a < f.len() && 0 <= b < f.len() && a != b implies f[a].0@ != f[b].0@ by {
                if a < ft.len() && b < ft.len() {
                    assert(f[a] == ft[a] && f[b] == ft[b]);
                } else if a < ft.len() {
                    let j = choose|j: int| 0 <= j < t.len() && t[j] == ft[a];
                    assert(s[j] == t[j]);
                    assert(f[b] == s[s.len() - 1]);
                } else {
                    let j = choose|j: int| 0 <= j < t.len() && t[j] == ft[b];
                    assert(s[j] == t[j]);
                    assert(f[a] == s[s.len() - 1]);
                }
            }
            assert forall|i: int| 0 <= i < f.len() implies pred(#[trigger] f[i]) && exists|j: int|
                0 <= j < s.len() && s[j] == f[i] by {
                if i < ft.len() {
                    assert(f[i] == ft[i]);
                    let j = choose|j: int| 0 <= j < t.len() && t[j] == ft[i];
                    assert(s[j] == t[j]);
                } else {
                    assert(f[i] == s[s.len() - 1]);
                }
            }
            assert forall|j: int| 0 <= j < s.len() && pred(#[trigger] s[j]) implies exists|i: int|
                0 <= i < f.len() && f[i] == s[j] by {
                if j < t.len() {
                    assert(pred(t[j]));
                    let i = choose|i: int| 0 <= i < ft.len() && ft[i] == t[j];
                    assert(f[i] == ft[i]);
                } else {
                    assert(f[ft.len() as int] == s[j]);
                }
            }
        } else {
            assert(f =~= ft);
            assert forall|i: int| 0 <= i < f.len() implies pred(#[trigger] f[i]) && exists|j: int|
                0 <= j < s.len() && s[j] == f[i] by {
                let j = choose|j: int| 0 <= j < t.len() && t[j] == ft[i];
                assert(s[j] == t[j]);
            }
            assert forall|j: int| 0 <= j < s.len() && pred(#[trigger] s[j]) implies exists|i: int|
                0 <= i < f.len() && f[i] == s[j] by {
                assert(j < t.len());
                assert(pred(t[j]));
            }
        }
    }
}

/// Keeping the elements that pass a test keeps a sequence free of
/// duplicates.
pub proof fn lemma_filter_no_dup<A>(s: Seq<A>, pred: spec_fn(A) -> bool)
    requires
        s.no_duplicates(),
    ensures
        s.filter(pred).no_duplicates(),
    decreases s.len(),
{
    reveal_with_fuel(Seq::<_>::filter, 1);
    if s.len() > 0 {
        let t = s.drop_last();
        assert(t.no_duplicates()) by {
            assert forall|a: int, b: int| 0 <= a < t.len() && 0 <= b < t.len() && a != b implies t[a] != t[b] by {
                assert(t[a] == s[a] && t[b] == s[b]);
            }
        }
        lemma_filter_no_dup(t, pred);
        let ft = t.filter(pred);
        let f = s.filter(pred);
        if pred(s.last()) {
            assert(f =~= ft.push(s.last()));
            assert(!ft.contains(s.last())) by {
                if ft.contains(s.last()) {
                    t.lemma_filter_contains_rev(pred, s.last());
                    let k = choose|k: int| 0 <= k < t.len() && t[k] == s.last();
                    assert(s[k] == s[s.len() - 1]);
                }
            }
            assert forall|a: int, b: int| 0 <= a < f.len() && 0 <= b < f.len() && a != b implies f[a] != f[b] by {
                if a < ft.len() && b < ft.len() {
                    assert(f[a] == ft[a] && f[b] == ft[b]);
                } else if a < ft.len() {
                    assert(f[a] == ft[a] && f[b] == s.last());
                    assert(ft.contains(ft[a]));
                } else {
                    assert(f[b] == ft[b] && f[a] == s.last());
                    assert(ft.contains(ft[b]));
                }
            }
        } else {
            assert(f =~= ft);
        }
    }
}

/// The pairs of `s` whose value passes `pred`, in order.
pub open spec fn pairs_where<K, V>(s: Seq<(K, V)>, pred: spec_fn(V) -> bool) -> Seq<(K, V)> {
    s.filter(|e: (K, V)| pred(e.1))
}

/// The keys of `m` whose value passes `pred`.
pub open spec fn keys_where<K, V>(m: Map<K, V>, pred: spec_fn(V) -> bool) -> Set<K> {
    m.dom().filter(|k: K| pred(m[k]))
}

/// Of pairs with distinct keys, those whose value passes `pred` are the
/// entries of the denoted map that pass it, each once.
pub proof fn lemma_pairs_where<K: View, V>(s: Seq<(K, V)>, pred: spec_fn(V) -> bool)
    requires
        ids_unique(s),
    ensures
        ids_unique(pairs_where(s, pred)),
        forall|i: int| 0 <= i < pairs_where(s, pred).len() ==> {
            let e = #[trigger] pairs_where(s, pred)[i];
            id_map_of(s).contains_key(e.0@) && id_map_of(s)[e.0@] == e.1 && pred(e.1)
        },
        forall|k: K::V| #[trigger] id_map_of(s).contains_key(k) && pred(id_map_of(s)[k]) ==> exists|i: int|
            0 <= i < pairs_where(s, pred).len() && pairs_where(s, pred)[i].0@ == k,
        keys_where(id_map_of(s), pred).finite(),
        pairs_where(s, pred).len() == keys_where(id_map_of(s), pred).len(),
{
    let vp = |e: (K, V)| pred(e.1);
    let f = s.filter(vp);
    let m = id_map_of(s);
    lemma_filter_pairs(s, vp);
    assert forall|i: int| 0 <= i < f.len() implies m.contains_key(#[trigger] f[i].0@) && m[f[i].0@] == f[i].1
        && pred(f[i].1) by {
        assert(vp(f[i]));
        let j = choose|j: int| 0 <= j < s.len() && s[j] == f[i];
        lemma_at(s, j);
    }
    assert forall|k: K::V| #[trigger] m.contains_key(k) && pred(m[k]) implies exists|i: int|
        0 <= i < f.len() && f[i].0@ == k by {
        let j = choose|j: int| 0 <= j < s.len() && s[j].0@ == k;
        lemma_at(s, j);
        assert(vp(s[j]));
        let i = choose|i: int| 0 <= i < f.len() && f[i] == s[j];
        assert(f[i].0@ == k);
    }
    let ks = f.map_values(|e: (K, V)| e.0@);
    assert(ks.no_duplicates()) by {
        assert forall|a: int, b: int| 0 <= a < ks.len() && 0 <= b < ks.len() && a != b implies ks[a] != ks[b] by {
            assert(ks[a] == f[a].0@ && ks[b] == f[b].0@);
        }
    }
    assert(ks.to_set() =~= keys_where(m, pred)) by {
        assert forall|k: K::V| ks.to_set().contains(k) implies keys_where(m, pred).contains(k) by {
            let i = choose|i: int| 0 <= i < ks.len() && ks[i] == k;
            assert(ks[i] == f[i].0@);
            assert(m.contains_key(f[i].0@));
        }
        assert forall|k: K::V| keys_where(m, pred).contains(k) implies ks.to_set().contains(k) by {
            assert(m.contains_key(k) && pred(m[k]));
            let i = choose|i: int| 0 <= i < f.len() && f[i].0@ == k;
            assert(ks[i] == k);
        }
    }
    ks.unique_seq_to_set();
    vstd::seq_lib::seq_to_set_is_finite(ks);
}

proof fn lemma_push<K: View, V>(s: Seq<(K, V)>, k: K, v: V)
    requires
        ids_unique(s),
        !has_id(s, k@),
    ensures
        ids_unique(s.push((k, v))),
        id_map_of(s.push((k, v))) == id_map_of(s).insert(k@, v),
{
    let t = s.push((k, v));
    assert(ids_unique(t)) by {
        assert forall|a: int, b: int| 0 <= a < t.len() && 0 <= b < t.len() && a != b implies t[a].0@
            != t[b].0@ by {
            if a < s.len() && b < s.len() {
                assert(t[a] == s[a] && t[b] == s[b]);
            } else if a < s.len() {
                assert(t[a] == s[a]);
            } else {
                assert(t[b] == s[b]);
            }
        }
    }
    assert forall|x: K::V| #[trigger] id_map_of(t).contains_key(x) == id_map_of(s).insert(
        k@,
        v,
    ).contains_key(x) by {
        if has_id(s, x) {
            let j = choose|j: int| 0 <= j < s.len() && s[j].0@ == x;
            assert(t[j] == s[j]);
        }
        if has_id(t, x) && x != k@ {
            let j = choose|j: int| 0 <= j < t.len() && t[j].0@ == x;
            assert(j < s.len());
            assert(s[j] == t[j]);
        }
        if x == k@ {
            assert(t[s.len() as int].0@ == k@);
        }
    }
    assert forall|x: K::V| #[trigger] id_map_of(t).contains_key(x) implies id_map_of(t)[x]
        == id_map_of(s).insert(k@, v)[x] by {
        if x == k@ {
            lemma_at(t, s.len() as int);
        } else {
            let j = choose|j: int| 0 <= j < t.len() && t[j].0@ == x;
            assert(j < s.len());
            assert(s[j] == t[j]);
            lemma_at(t, j);
            lemma_at(s, j);
        }
    }
    assert(id_map_of(t) =~= id_map_of(s).insert(k@, v));
}

proof fn lemma_update<K: View, V>(s: Seq<(K, V)>, i: int, k: K, v: V)
    requires
        ids_unique(s),
        0 <= i < s.len(),
        s[i].0@ == k@,
    ensures
        ids_unique(s.update(i, (k, v))),
        id_map_of(s.update(i, (k, v))) == id_map_of(s).insert(k@, v),
{
    let t = s.update(i, (k, v));
    assert(ids_unique(t)) by {
        assert forall|a: int, b: int| 0 <= a < t.len() && 0 <= b < t.len() && a != b implies t[a].0@
            != t[b].0@ by {
            assert(t[a].0@ == s[a].0@ && t[b].0@ == s[b].0@);
        }
    }
    assert forall|x: K::V| #[trigger] id_map_of(t).contains_key(x) == id_map_of(s).insert(k@, v).contains_key(x) by {
        if has_id(s, x) {
            let j = choose|j: int| 0 <= j < s.len() && s[j].0@ == x;
            assert(t[j].0@ == x);
        }
        if has_id(t, x) {
            let j = choose|j: int| 0 <= j < t.len() && t[j].0@ == x;
            assert(s[j].0@ == x);
        }
        if x == k@ {
            assert(t[i].0@ == x);
        }
    }
    assert forall|x: K::V| #[trigger] id_map_of(t).contains_key(x) implies id_map_of(t)[x]
        == id_map_of(s).insert(k@, v)[x] by {
        let j = choose|j: int| 0 <= j < t.len() && t[j].0@ == x;
        lemma_at(t, j);
        if j != i {
            assert(s[j] == t[j]);
            lemma_at(s, j);
        }
    }
    assert(id_map_of(t) =~= id_map_of(s).insert(k@, v));
}

proof fn lemma_remove<K: View, V>(s: Seq<(K, V)>, i: int)
    requires
        ids_unique(s),
        0 <= i < s.len(),
    ensures
        ids_unique(s.remove(i)),
        id_map_of(s.remove(i)) == id_map_of(s).remove(s[i].0@),
{
    let t = s.remove(i);
    let k = s[i].0@;
    assert(ids_unique(t)) by {
        assert forall|a: int, b: int| 0 <= a < t.len() && 0 <= b < t.len() && a != b implies t[a].0@
            != t[b].0@ by {
            let a2 = if a < i { a } else { a + 1 };
            let b2 = if b < i { b } else { b + 1 };
            assert(t[a] == s[a2] && t[b] == s[b2]);
        }
    }
    assert forall|x: K::V| #[trigger] id_map_of(t).contains_key(x) == id_map_of(s).remove(
        k,
    ).contains_key(x) by {
        if has_id(t, x) {
            let j = choose|j: int| 0 <= j < t.len() && t[j].0@ == x;
            let j2 = if j < i { j } else { j + 1 };
            assert(s[j2] == t[j]);
            assert(j2 != i);
        }
        if has_id(s, x) && x != k {
            let j = choose|j: int| 0 <= j < s.len() && s[j].0@ == x;
            assert(j != i);
            let j2 = if j < i { j } else { j - 1 };
            assert(t[j2] == s[j]);
        }
    }
    assert forall|x: K::V| #[trigger] id_map_of(t).contains_key(x) implies id_map_of(t)[x]
        == id_map_of(s).remove(k)[x] by {
        let j = choose|j: int| 0 <= j < t.len() && t[j].0@ == x;
        let j2 = if j < i { j } else { j + 1 };
        assert(s[j2] == t[j]);
        lemma_at(t, j);
        lemma_at(s, j2);
    }
    assert(id_map_of(t) =~= id_map_of(s).remove(k));
}

proof fn lemma_len<K: View, V>(s: Seq<(K, V)>)
    requires
        ids_unique(s),
    ensures
        id_map_of(s).dom().finite(),
        id_map_of(s).dom().len() == s.len(),
    decreases s.len(),
{
    if s.len() == 0 {
        assert(id_map_of(s).dom() =~= Set::empty());
    } else {
        let t = s.drop_last();
        assert(ids_unique(t)) by {
            assert forall|a: int, b: int| 0 <= a < t.len() && 0 <= b < t.len() && a != b implies t[a].0@
                != t[b].0@ by {
                assert(t[a] == s[a] && t[b] == s[b]);
            }
        }
        lemma_len(t);
        let e = s.last();
        assert(!has_id(t, e.0@)) by {
            if has_id(t, e.0@) {
                let j = choose|j: int| 0 <= j < t.len() && t[j].0@ == e.0@;
                assert(s[j].0@ == s[s.len() - 1].0@);
            }
        }
        lemma_push(t, e.0, e.1);
        assert(t.push(e) =~= s);
    }
}

/// Keys that executable code can compare by their views.
pub trait ViewEq: View + Sized {
    fn view_eq(&self, other: &Self) -> (r: bool)
        ensures
            r == (self@ == other@);
}

impl ViewEq for u128 {
    fn view_eq(&self, other: &Self) -> (r: bool) {
        *self == *other
    }
}

impl ViewEq for String {
    fn view_eq(&self, other: &Self) -> (r: bool) {
        crate::text::str_eq(self.as_str(), other.as_str())
    }
}

impl ViewEq for (String, String) {
    fn view_eq(&self, other: &Self) -> (r: bool) {
        crate::text::str_eq(self.0.as_str(), other.0.as_str()) && crate::text::str_eq(self.1.as_str(), other.1.as_str())
    }
}

/// A map kept as a list of pairs in which no key occurs twice.
#[derive(Debug)]
pub struct KeyedMap<K: ViewEq, V> {
    entries: Vec<(K, V)>,
}

/// A map keyed by 128-bit identifiers.
pub type IdMap<V> = KeyedMap<u128, V>;

impl<K: ViewEq, V> View for KeyedMap<K, V> {
    type V = Map<K::V, V>;

    closed spec fn view(&self) -> Map<K::V, V> {
        id_map_of(self.entries@)
    }
}

impl<K: ViewEq, V> KeyedMap<K, V> {
    #[verifier::type_invariant]
    closed spec fn inv(&self) -> bool {
        ids_unique(self.entries@)
    }

    /// The pairs of the map, in order.
    pub closed spec fn pairs(&self) -> Seq<(K, V)> {
        self.entries@
    }

    /// The pairs have distinct keys and denote the map.
    pub open spec fn consistent(&self) -> bool {
        ids_unique(self.pairs()) && id_map_of(self.pairs()) == self@
    }

    /// An empty map.
    pub fn new() -> (m: KeyedMap<K, V>)
        ensures
            m@ == Map::<K::V, V>::empty(),
            m.pairs().len() == 0,
            m.consistent(),
    {
        let m = KeyedMap { entries: Vec::new() };
        assert(id_map_of(m.entries@) =~= Map::<K::V, V>::empty());
        m
    }

    /// The number of keys.
    pub fn len(&self) -> (n: usize)
        ensures
            n == self@.len(),
            n == self.pairs().len(),
            self@.dom().finite(),
            ids_unique(self.pairs()),
            id_map_of(self.pairs()) == self@,
    {
        proof {
            use_type_invariant(self);
            lemma_len(self.entries@);
        }
        self.entries.len()
    }

    fn find(&self, k: &K) -> (r: Option<usize>)
        ensures
            match r {
                Some(i) => i < self.entries@.len() && self.entries@[i as int].0@ == k@,
                None => !has_id(self.entries@, k@),
            },
    {
        let mut i: usize = 0;
        while i < self.entries.len()
            invariant
                i <= self.entries.len(),
                forall|j: int| 0 <= j < i ==> self.entries@[j].0@ != k@,
            decreases self.entries.len() - i,
        {
            if self.entries[i].0.view_eq(k) {
                return Some(i);
            }
            i = i + 1;
        }
        None
    }

    /// Whether `k` is a key.
    pub fn contains_key(&self, k: &K) -> (r: bool)
        ensures
            r == self@.contains_key(k@),
    {
        self.find(k).is_some()
    }

    /// The value under `k`, if any.
    pub fn get(&self, k: &K) -> (r: Option<&V>)
        ensures
            r is Some == self@.contains_key(k@),
            r is Some ==> *r->0 == self@[k@],
    {
        proof {
            use_type_invariant(self);
        }
        match self.find(k) {
            Some(i) => {
                proof {
                    lemma_at(self.entries@, i as int);
                }
                Some(&self.entries[i].1)
            },
            None => None,
        }
    }

    /// The pair at position `i`.
    pub fn pair_at(&self, i: usize) -> (r: (&K, &V))
        requires
            i < self.pairs().len(),
        ensures
            *r.0 == self.pairs()[i as int].0,
            *r.1 == self.pairs()[i as int].1,
    {
        (&self.entries[i].0, &self.entries[i].1)
    }

    /// Removes the value under `k` and hands it back.
    pub fn remove(&mut self, k: &K) -> (r: Option<V>)
        ensures
            final(self)@ == old(self)@.remove(k@),
            old(self)@.contains_key(k@) ==> exists|i: int|
                0 <= i < old(self).pairs().len() && old(self).pairs()[i].0@ == k@ && final(self).pairs()
                    == old(self).pairs().remove(i),
            !old(self)@.contains_key(k@) ==> final(self).pairs() == old(self).pairs(),
            r is Some == old(self)@.contains_key(k@),
            r is Some ==> r->0 == old(self)@[k@],
            final(self).consistent(),
    {
        proof {
            use_type_invariant(&*self);
        }
        match self.find(k) {
            Some(i) => {
                let mut entries: Vec<(K, V)> = Vec::new();
                std::mem::swap(&mut entries, &mut self.entries);
                proof {
                    lemma_at(entries@, i as int);
                    lemma_remove(entries@, i as int);
                }
                let ghost before = entries@;
                let (_, v) = entries.remove(i);
                self.entries = entries;
                assert(before == old(self).pairs());
                assert(0 <= i < before.len() && before[i as int].0@ == k@ && self.pairs() == before.remove(i as int));
                Some(v)
            },
            None => {
                proof {
                    assert(id_map_of(self.entries@) =~= id_map_of(self.entries@).remove(k@));
                }
                None
            },
        }
    }

    /// Stores `v` under `k`, replacing any earlier value in place; a new
    /// key goes last.
    pub fn insert(&mut self, k: K, v: V)
        ensures
            final(self)@ == old(self)@.insert(k@, v),
            old(self)@.contains_key(k@) ==> exists|i: int|
                0 <= i < old(self).pairs().len() && old(self).pairs()[i].0@ == k@ && final(self).pairs()
                    == old(self).pairs().update(i, (k, v)),
            !old(self)@.contains_key(k@) ==> final(self).pairs() == old(self).pairs().push((k, v)),
            final(self).consistent(),
    {
        proof {
            use_type_invariant(&*self);
        }
        match self.find(&k) {
            Some(i) => {
                let mut entries: Vec<(K, V)> = Vec::new();
                std::mem::swap(&mut entries, &mut self.entries);
                proof {
                    lemma_at(entries@, i as int);
                    lemma_update(entries@, i as int, k, v);
                }
                let ghost before = entries@;
                entries.set(i, (k, v));
                self.entries = entries;
                assert(before == old(self).pairs());
                assert(0 <= i < before.len() && before[i as int].0@ == k@ && self.pairs() == before.update(i as int, (k, v)));
            },
            None => {
                let mut entries: Vec<(K, V)> = Vec::new();
                std::mem::swap(&mut entries, &mut self.entries);
                proof {
                    lemma_push(entries@, k, v);
                }
                entries.push((k, v));
                self.entries = entries;
            },
        }
    }
}

impl<V> KeyedMap<u128, V> {
    /// The keys, in order.
    pub fn keys(&self) -> (r: Vec<u128>)
        ensures
            r@ == self.pairs().map_values(|e: (u128, V)| e.0),
    {
        let mut out: Vec<u128> = Vec::new();
        let mut i: usize = 0;
        while i < self.entries.len()
            invariant
                i <= self.entries.len(),
                out@ == self.entries@.take(i as int).map_values(|e: (u128, V)| e.0),
            decreases self.entries.len() - i,
        {
            out.push(self.entries[i].0);
            proof {
                assert(out@ =~= self.entries@.take(i + 1).map_values(|e: (u128, V)| e.0));
            }
            i = i + 1;
        }
        assert(self.entries@.take(i as int) =~= self.entries@);
        out
    }
}

} // verus!
