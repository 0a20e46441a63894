use vstd::prelude::*;

use crate::clock::copy_vec;
use crate::error::Result;
use crate::keyed::{has_id, id_map_of, ids_unique, KeyedMap};
use crate::text::str_eq;

verus! {

/// The texts of a sequence of strings.
pub open spec fn texts_of(v: Seq<String>) -> Seq<Seq<char>> {
    v.map_values(|s: String| s@)
}

/// The names, in order, of the keys that belong to `project`.
pub open spec fn names_in(order: Seq<(Seq<char>, Seq<char>)>, project: Seq<char>) -> Seq<Seq<char>> {
    order.filter(key_in(project)).map_values(|k: (Seq<char>, Seq<char>)| k.1)
}

/// Whether a (project, name) key belongs to `project`.
pub open spec fn key_in(project: Seq<char>) -> spec_fn((Seq<char>, Seq<char>)) -> bool {
    |k: (Seq<char>, Seq<char>)| k.0 == project
}

/// Secrets kept in memory, unencrypted, by project and name.
#[derive(Debug)]
pub struct PlaintextSecretStore {
    data: KeyedMap<(String, String), Vec<u8>>,
}

impl PlaintextSecretStore {
    /// The value of each secret, by project and name.
    pub closed spec fn secrets(&self) -> Map<(Seq<char>, Seq<char>), Seq<u8>> {
        Map::new(|k: (Seq<char>, Seq<char>)| self.data@.contains_key(k), |k: (Seq<char>, Seq<char>)| self.data@[k]@)
    }

    /// The (project, name) keys in the order the store walks them.
    pub closed spec fn key_order(&self) -> Seq<(Seq<char>, Seq<char>)> {
        self.data.pairs().map_values(|e: ((String, String), Vec<u8>)| e.0@)
    }

    /// An empty store.
    pub fn new() -> (s: PlaintextSecretStore)
        ensures
            s.secrets() == Map::<(Seq<char>, Seq<char>), Seq<u8>>::empty(),
    {
        let s = PlaintextSecretStore { data: KeyedMap::new() };
        assert(s.secrets() =~= Map::<(Seq<char>, Seq<char>), Seq<u8>>::empty());
        s
    }

    /// Stores `value` as secret `name` of `project`, replacing any earlier value.
    pub fn set(&mut self, project: &str, name: &str, value: &[u8]) -> (r: Result<()>)
        ensures
            r is Ok,
            final(self).secrets() == old(self).secrets().insert((project@, name@), value@),
    {
        let v = vstd::slice::slice_to_vec(value);
        self.data.insert((project.to_owned(), name.to_owned()), v);
        assert(self.secrets() =~= old(self).secrets().insert((project@, name@), value@));
        Ok(())
    }

    /// The value of secret `name` of `project`, if it is set.
    pub fn get(&self, project: &str, name: &str) -> (r: Result<Option<Vec<u8>>>)
        ensures
            r matches Ok(v) && match v {
                Some(b) => self.secrets().contains_key((project@, name@)) && b@ == self.secrets()[(project@, name@)],
                None => !self.secrets().contains_key((project@, name@)),
            },
    {
        let key = (project.to_owned(), name.to_owned());
        match self.data.get(&key) {
            Some(v) => Ok(Some(copy_vec(v))),
            None => Ok(None),
        }
    }

    /// The names of the secrets of `project`, in the store's order.
    pub fn list(&self, project: &str) -> (r: Result<Vec<String>>)
        ensures
            r matches Ok(v) && texts_of(v@) == names_in(self.key_order(), project@),
            r matches Ok(v) && forall|n: Seq<char>| #[trigger] texts_of(v@).contains(n)
                <==> self.secrets().contains_key((project@, n)),
            r matches Ok(v) && texts_of(v@).no_duplicates(),
    {
        let n = self.data.len();
        proof {
            assert forall|x: Seq<char>| #[trigger] names_in(self.key_order(), project@).contains(x)
                <==> self.secrets().contains_key((project@, x)) by {
                self.lemma_listed_names(project@, x);
            }
        }
        let ghost pairs = self.key_order();
        let ghost pred = key_in(project@);
        let mut out: Vec<String> = Vec::new();
        let mut i: usize = 0;
        while i < n
            invariant
                n == pairs.len(),
                pairs == self.key_order(),
                pred == key_in(project@),
                i <= n,
                out@.map_values(|s: String| s@) == pairs.take(i as int).filter(pred).map_values(
                    |k: (Seq<char>, Seq<char>)| k.1,
                ),
            decreases n - i,
        {
            let (key, _) = self.data.pair_at(i);
            proof {
                assert(pairs.take(i + 1).drop_last() =~= pairs.take(i as int));
                assert(pairs[i as int] == key@);
                reveal_with_fuel(Seq::<_>::filter, 1);
            }
            let ghost before = out@;
            if str_eq(key.0.as_str(), project) {
                let name = key.1.clone();
                out.push(name);
                proof {
                    assert(out@.map_values(|s: String| s@) =~= before.map_values(|s: String| s@).push(key.1@));
                }
            }
            proof {
                assert(out@.map_values(|s: String| s@) =~= pairs.take(i + 1).filter(pred).map_values(
                    |k: (Seq<char>, Seq<char>)| k.1,
                ));
            }
            i = i + 1;
        }
        assert(pairs.take(n as int) =~= pairs);
        assert(texts_of(out@) == names_in(pairs, project@));
        proof {
            let data = self.data.pairs();
            assert(pairs.no_duplicates()) by {
                assert forall|a: int, b: int| 0 <= a < pairs.len() && 0 <= b < pairs.len() && a != b implies pairs[a]
                    != pairs[b] by {
                    assert(pairs[a] == data[a].0@ && pairs[b] == data[b].0@);
                }
            }
            crate::keyed::lemma_filter_no_dup(pairs, pred);
            let f = pairs.filter(pred);
            let names = names_in(pairs, project@);
            assert forall|a: int, b: int| 0 <= a < names.len() && 0 <= b < names.len() && a != b implies names[a]
                != names[b] by {
                pairs.lemma_filter_pred(pred, a);
                pairs.lemma_filter_pred(pred, b);
                assert(names[a] == f[a].1 && names[b] == f[b].1);
                assert(f[a] != f[b]);
            }
        }
        Ok(out)
    }

    /// Removes secret `name` of `project`, if it is set.
    pub fn delete(&mut self, project: &str, name: &str) -> (r: Result<()>)
        ensures
            r is Ok,
            final(self).secrets() == old(self).secrets().remove((project@, name@)),
    {
        let key = (project.to_owned(), name.to_owned());
        let _ = self.data.remove(&key);
        assert(self.secrets() =~= old(self).secrets().remove((project@, name@)));
        Ok(())
    }

    /// The names listed for a project are exactly the names of its secrets.
    proof fn lemma_listed_names(&self, project: Seq<char>, n: Seq<char>)
        requires
            ids_unique(self.data.pairs()),
            id_map_of(self.data.pairs()) == self.data@,
        ensures
            names_in(self.key_order(), project).contains(n) <==> self.secrets().contains_key((project, n)),
    {
        broadcast use vstd::seq_lib::group_filter_ensures;

        let pred = key_in(project);
        let order = self.key_order();
        let f = order.filter(pred);
        let names = names_in(order, project);
        let pairs = self.data.pairs();
        if names.contains(n) {
            let j = choose|j: int| 0 <= j < names.len() && names[j] == n;
            assert(f.contains(f[j]));
            order.lemma_filter_contains_rev(pred, f[j]);
            let m = choose|m: int| 0 <= m < order.len() && order[m] == f[j];
            assert(pairs[m].0@ == (project, n));
            assert(has_id(pairs, (project, n)));
        }
        if self.secrets().contains_key((project, n)) {
            assert(has_id(pairs, (project, n)));
            let m = choose|m: int| 0 <= m < pairs.len() && pairs[m].0@ == (project, n);
            assert(order[m] == (project, n));
            assert(pred(order[m]));
            assert(f.contains(order[m]));
            let j = choose|j: int| 0 <= j < f.len() && f[j] == order[m];
            assert(names[j] == n);
        }
    }
}

/// A value set under a project and name is what a read there gives back;
/// a write to one project leaves every other project's secrets unchanged;
/// after a delete the secret is gone.
pub proof fn secret_store_read_write(
    secrets: Map<(Seq<char>, Seq<char>), Seq<u8>>,
    project: Seq<char>,
    other: Seq<char>,
    name: Seq<char>,
    value: Seq<u8>,
)
    requires
        project != other,
    ensures
        secrets.insert((project, name), value)[(project, name)] == value,
        secrets.insert((project, name), value).contains_key((other, name)) == secrets.contains_key((other, name)),
        secrets.contains_key((other, name)) ==> secrets.insert((project, name), value)[(other, name)] == secrets[(other, name)],
        !secrets.remove((project, name)).contains_key((project, name)),
{
}

} // verus!
