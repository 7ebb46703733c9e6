//! A small string-keyed map with insertion order, used for query strings,
//! route parameters and header maps.
//!
//! Keys are compared by their characters; no key occurs twice.

use vstd::prelude::*;

use crate::text::{chars_eq, chars_of};

verus! {

/// No key occurs twice.
pub open spec fn keys_unique<V>(ps: Seq<(String, V)>) -> bool {
    forall|i: int, j: int| 0 <= i < j < ps.len() ==> ps[i].0@ != ps[j].0@
}

/// `k` is the key of some pair.
pub open spec fn has_key<V>(ps: Seq<(String, V)>, k: Seq<char>) -> bool {
    exists|i: int| 0 <= i < ps.len() && ps[i].0@ == k
}

/// Map view of an association list.
pub open spec fn map_of<V>(ps: Seq<(String, V)>) -> Map<Seq<char>, V> {
    Map::new(
        |k: Seq<char>| has_key(ps, k),
        |k: Seq<char>| ps[choose|i: int| 0 <= i < ps.len() && ps[i].0@ == k].1,
    )
}

/// With unique keys, the pair at `i` gives the map entry of its key.
pub proof fn lemma_map_of_at<V>(ps: Seq<(String, V)>, i: int)
    requires
        keys_unique(ps),
        0 <= i < ps.len(),
    ensures
        map_of(ps).contains_key(ps[i].0@),
        map_of(ps)[ps[i].0@] == ps[i].1,
{
    let k = ps[i].0@;
    assert(has_key(ps, k));
    let j = choose|j: int| 0 <= j < ps.len() && ps[j].0@ == k;
    if j < i {
    } else if i < j {
    }
}

/// Pushing a fresh key inserts it into the map view.
pub proof fn lemma_map_of_push<V>(ps: Seq<(String, V)>, k: String, v: V)
    requires
        keys_unique(ps),
        !has_key(ps, k@),
    ensures
        keys_unique(ps.push((k, v))),
        map_of(ps.push((k, v))) == map_of(ps).insert(k@, v),
{
    let qs = ps.push((k, v));
    assert forall|x: Seq<char>| #[trigger] map_of(qs).contains_key(x) <==> map_of(ps).insert(
        k@,
        v,
    ).contains_key(x) by {
        if has_key(qs, x) && x != k@ {
            let i = choose|i: int| 0 <= i < qs.len() && qs[i].0@ == x;
            assert(ps[i].0@ == x);
        }
        if has_key(ps, x) {
            let i = choose|i: int| 0 <= i < ps.len() && ps[i].0@ == x;
            assert(qs[i].0@ == x);
        }
        if x == k@ {
            assert(qs[ps.len() as int].0@ == x);
        }
    }
    assert(keys_unique(qs));
    assert forall|x: Seq<char>| #[trigger] map_of(qs).contains_key(x) implies map_of(qs)[x]
        == map_of(ps).insert(k@, v)[x] by {
        if x == k@ {
            lemma_map_of_at(qs, ps.len() as int);
        } else {
            let i = choose|i: int| 0 <= i < qs.len() && qs[i].0@ == x;
            lemma_map_of_at(qs, i);
            lemma_map_of_at(ps, i);
        }
    }
    assert(map_of(qs) =~= map_of(ps).insert(k@, v));
}

/// Overwriting the value at the index of an existing key updates the map view.
pub proof fn lemma_map_of_update<V>(ps: Seq<(String, V)>, i: int, k: String, v: V)
    requires
        keys_unique(ps),
        0 <= i < ps.len(),
        ps[i].0@ == k@,
    ensures
        keys_unique(ps.update(i, (k, v))),
        map_of(ps.update(i, (k, v))) == map_of(ps).insert(k@, v),
{
    let qs = ps.update(i, (k, v));
    assert(keys_unique(qs));
    lemma_map_of_at(ps, i);
    assert forall|x: Seq<char>| #[trigger] map_of(qs).contains_key(x) <==> map_of(ps).insert(
        k@,
        v,
    ).contains_key(x) by {
        if has_key(qs, x) {
            let j = choose|j: int| 0 <= j < qs.len() && qs[j].0@ == x;
            assert(ps[j].0@ == x);
        }
        if has_key(ps, x) {
            let j = choose|j: int| 0 <= j < ps.len() && ps[j].0@ == x;
            assert(qs[j].0@ == x);
        }
    }
    assert forall|x: Seq<char>| #[trigger] map_of(qs).contains_key(x) implies map_of(qs)[x]
        == map_of(ps).insert(k@, v)[x] by {
        let j = choose|j: int| 0 <= j < qs.len() && qs[j].0@ == x;
        lemma_map_of_at(qs, j);
        if j != i {
            lemma_map_of_at(ps, j);
        }
    }
    assert(map_of(qs) =~= map_of(ps).insert(k@, v));
}

/// Insertion-ordered map from strings to `V` with unique keys.
#[derive(Debug)]
pub struct StrMap<V> {
    entries: Vec<(String, V)>,
}

impl<V> StrMap<V> {
    /// The stored pairs, in insertion order.
    pub closed spec fn pairs(&self) -> Seq<(String, V)> {
        self.entries@
    }

    #[verifier::type_invariant]
    closed spec fn unique(&self) -> bool {
        keys_unique(self.entries@)
    }

    /// The map that this value stands for.
    pub open spec fn view(&self) -> Map<Seq<char>, V> {
        map_of(self.pairs())
    }

    /// An empty map.
    pub fn new() -> (m: Self)
        ensures
            m.pairs() == Seq::<(String, V)>::empty(),
            m.view() == Map::<Seq<char>, V>::empty(),
    {
        let m = StrMap { entries: Vec::new() };
        assert(m.view() =~= Map::<Seq<char>, V>::empty());
        m
    }

    /// Number of keys.
    pub fn len(&self) -> (n: usize)
        ensures
            n == self.pairs().len(),
            keys_unique(self.pairs()),
    {
        proof {
            use_type_invariant(self);
        }
        self.entries.len()
    }

    /// Index of the pair whose key is `k`.
    fn find(&self, k: &Vec<char>) -> (r: Option<usize>)
        ensures
            match r {
                Some(i) => i < self.pairs().len() && self.pairs()[i as int].0@ == k@,
                None => !has_key(self.pairs(), k@),
            },
    {
        let mut i: usize = 0;
        while i < self.entries.len()
            invariant
                i <= self.entries@.len(),
                forall|j: int| 0 <= j < i ==> self.entries@[j].0@ != k@,
            decreases self.entries@.len() - i,
        {
            let key = chars_of(self.entries[i].0.as_str());
            if chars_eq(&key, k) {
                return Some(i);
            }
            i += 1;
        }
        None
    }

    /// Whether `k` is a key.
    pub fn contains_key(&self, k: &str) -> (b: bool)
        ensures
            b == self.view().contains_key(k@),
    {
        let kc = chars_of(k);
        self.find(&kc).is_some()
    }

    /// The value stored under `k`.
    pub fn get(&self, k: &str) -> (r: Option<&V>)
        ensures
            match r {
                Some(v) => self.view().contains_key(k@) && *v == self.view()[k@],
                None => !self.view().contains_key(k@),
            },
    {
        proof {
            use_type_invariant(self);
        }
        let kc = chars_of(k);
        match self.find(&kc) {
            Some(i) => {
                proof {
                    lemma_map_of_at(self.entries@, i as int);
                }
                Some(&self.entries[i].1)
            },
            None => None,
        }
    }

    /// Stores `v` under `k`, replacing an earlier value in place.
    pub fn insert(&mut self, k: String, v: V)
        ensures
            final(self).view() == old(self).view().insert(k@, v),
            has_key(old(self).pairs(), k@) ==> final(self).pairs().len() == old(self).pairs().len(),
            !has_key(old(self).pairs(), k@) ==> final(self).pairs() == old(self).pairs().push((k, v)),
    {
        proof {
            use_type_invariant(&*self);
        }
        let kc = chars_of(k.as_str());
        match self.find(&kc) {
            Some(i) => {
                proof {
                    lemma_map_of_update(self.entries@, i as int, k, v);
                }
                let mut es: Vec<(String, V)> = Vec::new();
                std::mem::swap(&mut es, &mut self.entries);
                es.set(i, (k, v));
                self.entries = es;
            },
            None => {
                proof {
                    lemma_map_of_push(self.entries@, k, v);
                }
                let mut es: Vec<(String, V)> = Vec::new();
                std::mem::swap(&mut es, &mut self.entries);
                es.push((k, v));
                self.entries = es;
            },
        }
    }

    /// Stores `v` under `k` only when `k` is not a key yet; returns whether it stored.
    pub fn insert_if_absent(&mut self, k: String, v: V) -> (stored: bool)
        ensures
            stored == !old(self).view().contains_key(k@),
            stored ==> final(self).view() == old(self).view().insert(k@, v),
            stored ==> final(self).pairs() == old(self).pairs().push((k, v)),
            !stored ==> final(self).pairs() == old(self).pairs(),
    {
        proof {
            use_type_invariant(&*self);
        }
        let kc = chars_of(k.as_str());
        match self.find(&kc) {
            Some(i) => {
                proof {
                    lemma_map_of_at(self.entries@, i as int);
                }
                false
            },
            None => {
                proof {
                    lemma_map_of_push(self.entries@, k, v);
                }
                let mut es: Vec<(String, V)> = Vec::new();
                std::mem::swap(&mut es, &mut self.entries);
                es.push((k, v));
                self.entries = es;
                true
            },
        }
    }

    /// Removes every key.
    pub fn clear(&mut self)
        ensures
            final(self).view() == Map::<Seq<char>, V>::empty(),
            final(self).pairs() == Seq::<(String, V)>::empty(),
    {
        self.entries = Vec::new();
        assert(map_of(self.entries@) =~= Map::<Seq<char>, V>::empty());
    }

    /// The pairs, in insertion order.
    pub fn entries(&self) -> (r: &Vec<(String, V)>)
        ensures
            r@ == self.pairs(),
            keys_unique(r@),
    {
        proof {
            use_type_invariant(self);
        }
        &self.entries
    }
}

impl Clone for StrMap<String> {
    fn clone(&self) -> (r: Self)
        ensures
            r.pairs() == self.pairs(),
    {
        proof {
            use_type_invariant(self);
        }
        let mut out: Vec<(String, String)> = Vec::new();
        let mut i: usize = 0;
        while i < self.entries.len()
            invariant
                i <= self.entries@.len(),
                out@ == self.entries@.take(i as int),
            decreases self.entries@.len() - i,
        {
            let k = self.entries[i].0.clone();
            let v = self.entries[i].1.clone();
            out.push((k, v));
            i += 1;
            assert(out@ =~= self.entries@.take(i as int));
        }
        assert(out@ =~= self.entries@);
        StrMap { entries: out }
    }
}

} // verus!
