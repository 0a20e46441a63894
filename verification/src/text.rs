use vstd::prelude::*;
use vstd::string::*;

verus! {

broadcast use vstd::string::group_string_axioms;

/// The characters of `s`, in order.
pub fn chars_of(s: &str) -> (v: Vec<char>)
    ensures
        v@ == s@,
{
    let mut v: Vec<char> = Vec::new();
    for c in it: s.chars()
        invariant
            v@ == it.seq().take(it.index() as int),
            it.seq() == s@,
    {
        v.push(c);
    }
    v
}

} // verus!

verus! {

/// Whether two strings hold the same characters.
pub fn str_eq(a: &str, b: &str) -> (r: bool)
    ensures
        r == (a@ == b@),
{
    let va = chars_of(a);
    let vb = chars_of(b);
    chars_eq(&va, &vb)
}

/// Whether two character vectors are equal.
pub fn chars_eq(a: &Vec<char>, b: &Vec<char>) -> (r: bool)
    ensures
        r == (a@ == b@),
{
    if a.len() != b.len() {
        return false;
    }
    let mut i: usize = 0;
    while i < a.len()
        invariant
            a.len() == b.len(),
            i <= a.len(),
            forall|j: int| 0 <= j < i ==> a@[j] == b@[j],
        decreases a.len() - i,
    {
        if a[i] != b[i] {
            return false;
        }
        i = i + 1;
    }
    assert(a@ =~= b@);
    true
}

/// The character of a decimal digit.
pub open spec fn digit_char(d: nat) -> char {
    if d == 0 { '0' }
    else if d == 1 { '1' }
    else if d == 2 { '2' }
    else if d == 3 { '3' }
    else if d == 4 { '4' }
    else if d == 5 { '5' }
    else if d == 6 { '6' }
    else if d == 7 { '7' }
    else if d == 8 { '8' }
    else { '9' }
}

/// The decimal representation of `n`, without leading zeros.
pub open spec fn decimal(n: nat) -> Seq<char>
    decreases n,
{
    if n < 10 {
        seq![digit_char(n)]
    } else {
        decimal(n / 10).push(digit_char(n % 10))
    }
}

fn digit_str(d: u64) -> (s: &'static str)
    requires
        d < 10,
    ensures
        s@ == seq![digit_char(d as nat)],
{
    proof {
        reveal_strlit("0");
        reveal_strlit("1");
        reveal_strlit("2");
        reveal_strlit("3");
        reveal_strlit("4");
        reveal_strlit("5");
        reveal_strlit("6");
        reveal_strlit("7");
        reveal_strlit("8");
        reveal_strlit("9");
    }
    if d == 0 { "0" }
    else if d == 1 { "1" }
    else if d == 2 { "2" }
    else if d == 3 { "3" }
    else if d == 4 { "4" }
    else if d == 5 { "5" }
    else if d == 6 { "6" }
    else if d == 7 { "7" }
    else if d == 8 { "8" }
    else { "9" }
}

/// The decimal representation of `n` as a string.
pub fn u64_to_decimal(n: u64) -> (s: String)
    ensures
        s@ == decimal(n as nat),
    decreases n,
{
    if n < 10 {
        digit_str(n).to_owned()
    } else {
        let mut s = u64_to_decimal(n / 10);
        s.append(digit_str(n % 10));
        s
    }
}

/// The lower-case form of an ASCII letter; other characters are kept.
pub open spec fn ascii_lower_char(c: char) -> char {
    if 'A' <= c && c <= 'Z' {
        ((c as u32) + 32) as char
    } else {
        c
    }
}

/// The ASCII lower-case form of a character sequence.
pub open spec fn ascii_lower(s: Seq<char>) -> Seq<char> {
    s.map_values(|c: char| ascii_lower_char(c))
}

/// Whether every character is ASCII.
pub open spec fn all_ascii(s: Seq<char>) -> bool {
    forall|i: int| 0 <= i < s.len() ==> (s[i] as u32) < 128
}

} // verus!

verus! {

/// The views of the key/value pairs of a list of string pairs.
pub open spec fn pair_views(s: Seq<(String, String)>) -> Seq<(Seq<char>, Seq<char>)> {
    s.map_values(|e: (String, String)| (e.0@, e.1@))
}

/// The map that a list of pairs denotes; a later pair overrides an earlier one.
pub open spec fn map_of(s: Seq<(Seq<char>, Seq<char>)>) -> Map<Seq<char>, Seq<char>>
    decreases s.len(),
{
    if s.len() == 0 {
        Map::empty()
    } else {
        map_of(s.drop_last()).insert(s.last().0, s.last().1)
    }
}

/// No key occurs twice in a list of pairs.
pub open spec fn keys_unique(s: Seq<(Seq<char>, Seq<char>)>) -> bool {
    forall|i: int, j: int| 0 <= i < s.len() && 0 <= j < s.len() && i != j ==> s[i].0 != s[j].0
}

proof fn lemma_map_of_dom(s: Seq<(Seq<char>, Seq<char>)>, k: Seq<char>)
    ensures
        map_of(s).contains_key(k) <==> exists|i: int| 0 <= i < s.len() && s[i].0 == k,
        map_of(s).dom().finite(),
    decreases s.len(),
{
    if s.len() > 0 {
        lemma_map_of_dom(s.drop_last(), k);
        if map_of(s).contains_key(k) && s.last().0 != k {
            let i = choose|i: int| 0 <= i < s.len() - 1 && s.drop_last()[i].0 == k;
            assert(s[i].0 == k);
        }
        if exists|i: int| 0 <= i < s.len() && s[i].0 == k {
            let i = choose|i: int| 0 <= i < s.len() && s[i].0 == k;
            if i < s.len() - 1 {
                assert(s.drop_last()[i].0 == k);
            }
        }
    }
}

proof fn lemma_map_of_value(s: Seq<(Seq<char>, Seq<char>)>, i: int)
    requires
        keys_unique(s),
        0 <= i < s.len(),
    ensures
        map_of(s).contains_key(s[i].0),
        map_of(s)[s[i].0] == s[i].1,
    decreases s.len(),
{
    if i < s.len() - 1 {
        let t = s.drop_last();
        assert(t[i] == s[i]);
        lemma_map_of_value(t, i);
    }
}

proof fn lemma_map_of_len(s: Seq<(Seq<char>, Seq<char>)>)
    requires
        keys_unique(s),
    ensures
        map_of(s).dom().len() == s.len(),
    decreases s.len(),
{
    if s.len() > 0 {
        let t = s.drop_last();
        lemma_map_of_len(t);
        lemma_map_of_dom(t, s.last().0);
        if map_of(t).contains_key(s.last().0) {
            let j = choose|j: int| 0 <= j < t.len() && t[j].0 == s.last().0;
            assert(s[j].0 == s[s.len() - 1].0);
        }
    }
}

/// The pairs whose key differs from `k`, in order.
pub open spec fn without_key(s: Seq<(Seq<char>, Seq<char>)>, k: Seq<char>) -> Seq<(Seq<char>, Seq<char>)>
    decreases s.len(),
{
    if s.len() == 0 {
        s
    } else if s.last().0 == k {
        without_key(s.drop_last(), k)
    } else {
        without_key(s.drop_last(), k).push(s.last())
    }
}

proof fn lemma_without_key(s: Seq<(Seq<char>, Seq<char>)>, k: Seq<char>)
    requires
        keys_unique(s),
    ensures
        map_of(without_key(s, k)) == map_of(s).remove(k),
        keys_unique(without_key(s, k)),
        forall|j: int| 0 <= j < without_key(s, k).len() ==> without_key(s, k)[j].0 != k,
        forall|j: int| 0 <= j < without_key(s, k).len() ==> s.contains(#[trigger] without_key(s, k)[j]),
    decreases s.len(),
{
    if s.len() > 0 {
        let t = s.drop_last();
        lemma_without_key(t, k);
        let w = without_key(t, k);
        if s.last().0 == k {
            assert(map_of(w) =~= map_of(s).remove(k));
            assert forall|j: int| 0 <= j < w.len() implies s.contains(#[trigger] w[j]) by {
                let m = choose|m: int| 0 <= m < t.len() && t[m] == w[j];
                assert(s[m] == w[j]);
            }
        } else {
            let ws = w.push(s.last());
            assert(ws.drop_last() =~= w);
            assert(map_of(ws) =~= map_of(s).remove(k));
            assert forall|j: int| 0 <= j < ws.len() implies s.contains(#[trigger] ws[j]) by {
                if j < w.len() {
                    let m = choose|m: int| 0 <= m < t.len() && t[m] == w[j];
                    assert(s[m] == ws[j]);
                } else {
                    assert(s[s.len() - 1] == ws[j]);
                }
            }
            assert forall|a: int, b: int| 0 <= a < ws.len() && 0 <= b < ws.len() && a != b implies ws[a].0 != ws[b].0 by {
                if a < w.len() && b == w.len() {
                    let m = choose|m: int| 0 <= m < t.len() && t[m] == w[a];
                    assert(s[m].0 != s[s.len() - 1].0);
                } else if b < w.len() && a == w.len() {
                    let m = choose|m: int| 0 <= m < t.len() && t[m] == w[b];
                    assert(s[m].0 != s[s.len() - 1].0);
                }
            }
        }
    }
}

/// A map from strings to strings, kept as a list of pairs in which no key
/// occurs twice.
#[derive(Debug)]
pub struct StringMap {
    entries: Vec<(String, String)>,
}

impl View for StringMap {
    type V = Map<Seq<char>, Seq<char>>;

    closed spec fn view(&self) -> Map<Seq<char>, Seq<char>> {
        map_of(pair_views(self.entries@))
    }
}

impl Clone for StringMap {
    fn clone(&self) -> (r: Self)
        ensures
            r@ == self@,
    {
        proof {
            use_type_invariant(self);
        }
        let mut out: Vec<(String, String)> = Vec::new();
        let mut i: usize = 0;
        while i < self.entries.len()
            invariant
                i <= self.entries.len(),
                out.len() == i,
                pair_views(out@) == pair_views(self.entries@).take(i as int),
            decreases self.entries.len() - i,
        {
            let k = self.entries[i].0.clone();
            let v = self.entries[i].1.clone();
            out.push((k, v));
            proof {
                assert(out@[i as int] == self.entries@[i as int]);
                assert(pair_views(out@) =~= pair_views(self.entries@).take(i + 1));
            }
            i = i + 1;
        }
        proof {
            assert(pair_views(out@) =~= pair_views(self.entries@));
        }
        StringMap { entries: out }
    }
}

impl StringMap {
    #[verifier::type_invariant]
    closed spec fn inv(&self) -> bool {
        keys_unique(pair_views(self.entries@))
    }

    /// An empty map.
    pub fn new() -> (m: StringMap)
        ensures
            m@ == Map::<Seq<char>, Seq<char>>::empty(),
    {
        let m = StringMap { entries: Vec::new() };
        assert(pair_views(m.entries@) =~= Seq::<(Seq<char>, Seq<char>)>::empty());
        m
    }

    /// The number of keys.
    pub fn len(&self) -> (n: usize)
        ensures
            n == self@.len(),
            self@.dom().finite(),
    {
        proof {
            use_type_invariant(self);
            lemma_map_of_len(pair_views(self.entries@));
            lemma_map_of_dom(pair_views(self.entries@), Seq::empty());
        }
        self.entries.len()
    }

    /// The value stored under `key`, if any.
    pub fn get(&self, key: &str) -> (r: Option<&String>)
        ensures
            r is Some == self@.contains_key(key@),
            r is Some ==> r->0@ == self@[key@],
    {
        proof {
            use_type_invariant(self);
        }
        let ghost pv = pair_views(self.entries@);
        let k = chars_of(key);
        let mut i: usize = 0;
        while i < self.entries.len()
            invariant
                pv == pair_views(self.entries@),
                keys_unique(pv),
                i <= self.entries.len(),
                k@ == key@,
                forall|j: int| 0 <= j < i ==> pv[j].0 != key@,
            decreases self.entries.len() - i,
        {
            let ek = chars_of(self.entries[i].0.as_str());
            if chars_eq(&ek, &k) {
                proof {
                    lemma_map_of_value(pv, i as int);
                }
                return Some(&self.entries[i].1);
            }
            i = i + 1;
        }
        proof {
            lemma_map_of_dom(pv, key@);
        }
        None
    }

    /// Stores `value` under `key`, replacing any earlier value.
    pub fn insert(&mut self, key: String, value: String)
        ensures
            final(self)@ == old(self)@.insert(key@, value@),
    {
        proof {
            use_type_invariant(&*self);
        }
        let ghost pv = pair_views(self.entries@);
        let mut out: Vec<(String, String)> = Vec::new();
        let mut i: usize = 0;
        while i < self.entries.len()
            invariant
                pv == pair_views(self.entries@),
                keys_unique(pv),
                i <= self.entries.len(),
                pair_views(out@) == without_key(pv.take(i as int), key@),
            decreases self.entries.len() - i,
        {
            proof {
                assert(pv.take(i + 1).drop_last() =~= pv.take(i as int));
            }
            if !str_eq(self.entries[i].0.as_str(), key.as_str()) {
                let k = self.entries[i].0.clone();
                let v = self.entries[i].1.clone();
                out.push((k, v));
                proof {
                    assert(pair_views(out@) =~= without_key(pv.take(i as int), key@).push(pv[i as int]));
                }
            }
            i = i + 1;
        }
        proof {
            assert(pv.take(i as int) =~= pv);
            lemma_without_key(pv, key@);
            lemma_map_of_dom(pair_views(out@), key@);
        }
        out.push((key, value));
        proof {
            assert(pair_views(out@).drop_last() =~= without_key(pv, key@));
            assert(map_of(pair_views(out@)) =~= map_of(pv).insert(key@, value@));
            let w = without_key(pv, key@);
            let o = pair_views(out@);
            assert forall|a: int, b: int| 0 <= a < o.len() && 0 <= b < o.len() && a != b implies o[a].0 != o[b].0 by {
                if a < w.len() && b < w.len() {
                    assert(o[a] == w[a] && o[b] == w[b]);
                } else if a < w.len() {
                    assert(o[a] == w[a]);
                } else {
                    assert(o[b] == w[b]);
                }
            }
        }
        self.entries = out;
    }

    /// Adds every pair of `other`, its values winning over those already here.
    pub fn extend(&mut self, other: &StringMap)
        ensures
            final(self)@ == old(self)@.union_prefer_right(other@),
    {
        proof {
            use_type_invariant(other);
        }
        let ghost start = self@;
        let ghost ov = pair_views(other.entries@);
        let mut i: usize = 0;
        while i < other.entries.len()
            invariant
                ov == pair_views(other.entries@),
                i <= other.entries.len(),
                self@ == start.union_prefer_right(map_of(ov.take(i as int))),
            decreases other.entries.len() - i,
        {
            let k = other.entries[i].0.clone();
            let v = other.entries[i].1.clone();
            self.insert(k, v);
            proof {
                assert(ov.take(i + 1).drop_last() =~= ov.take(i as int));
                assert(self@ =~= start.union_prefer_right(map_of(ov.take(i + 1))));
            }
            i = i + 1;
        }
        assert(ov.take(other.entries.len() as int) =~= ov);
    }

    /// The pairs of the map, each key once.
    pub fn entries(&self) -> (r: &Vec<(String, String)>)
        ensures
            map_of(pair_views(r@)) == self@,
            keys_unique(pair_views(r@)),
    {
        proof {
            use_type_invariant(self);
        }
        &self.entries
    }
}

} // verus!

verus! {

/// What `str::to_lowercase` returns for a string (Unicode lower-case mapping).
pub uninterp spec fn lowercase(s: Seq<char>) -> Seq<char>;

/// `str::to_lowercase`. The contract names its result; on an ASCII string,
/// as the standard library documents, it maps `A`-`Z` to `a`-`z` and keeps
/// every other character. Nothing more is stated of non-ASCII input.
#[verifier::external_body]
pub(crate) fn to_lowercase(s: &str) -> (r: String)
    ensures
        r@ == lowercase(s@),
        all_ascii(s@) ==> r@ == ascii_lower(s@),
{
    s.to_lowercase()
}

/// `prefix` followed by `s`.
pub fn prefixed(prefix: &str, s: &str) -> (r: String)
    ensures
        r@ == prefix@ + s@,
{
    let mut r = prefix.to_owned();
    r.append(s);
    r
}

} // verus!
