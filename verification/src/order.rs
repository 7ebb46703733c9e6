//! The order of `String` keys (character by character, as `Ord` for `str`
//! compares them) and sorting of key/value pairs by it, which is the order in
//! which the framework's JSON objects and key sets list their keys.

use vstd::prelude::*;

use crate::strmap::{has_key, keys_unique, map_of};
use crate::text::chars_of;

verus! {

/// `a` comes strictly before `b` in lexicographic order of characters.
pub open spec fn seq_lt(a: Seq<char>, b: Seq<char>) -> bool
    decreases a.len(),
{
    if a.len() == 0 {
        b.len() > 0
    } else if b.len() == 0 {
        false
    } else if a[0] != b[0] {
        a[0] < b[0]
    } else {
        seq_lt(a.drop_first(), b.drop_first())
    }
}

/// The keys of `ps` are strictly increasing.
pub open spec fn sorted_keys<V>(ps: Seq<(String, V)>) -> bool {
    forall|i: int, j: int| 0 <= i < j < ps.len() ==> seq_lt(#[trigger] ps[i].0@, #[trigger] ps[j].0@)
}

/// No sequence comes before itself.
pub proof fn lemma_lt_irreflexive(a: Seq<char>)
    ensures
        !seq_lt(a, a),
    decreases a.len(),
{
    if a.len() > 0 {
        lemma_lt_irreflexive(a.drop_first());
    }
}

/// The order is transitive.
pub proof fn lemma_lt_transitive(a: Seq<char>, b: Seq<char>, c: Seq<char>)
    requires
        seq_lt(a, b),
        seq_lt(b, c),
    ensures
        seq_lt(a, c),
    decreases a.len(),
{
    if a.len() > 0 && a[0] == b[0] && b[0] == c[0] {
        lemma_lt_transitive(a.drop_first(), b.drop_first(), c.drop_first());
    }
}

/// Two different sequences are ordered one way or the other, and only one way.
pub proof fn lemma_lt_total(a: Seq<char>, b: Seq<char>)
    ensures
        a != b ==> (seq_lt(a, b) || seq_lt(b, a)),
        !(seq_lt(a, b) && seq_lt(b, a)),
    decreases a.len(),
{
    if a.len() == 0 {
        if b.len() == 0 {
            assert(a =~= b);
        }
    } else if b.len() == 0 {
    } else if a[0] != b[0] {
    } else {
        let (a1, b1) = (a.drop_first(), b.drop_first());
        lemma_lt_total(a1, b1);
        assert(seq_lt(a, b) == seq_lt(a1, b1));
        assert(seq_lt(b, a) == seq_lt(b1, a1));
        if a1 == b1 {
            assert(a =~= seq![a[0]] + a1);
            assert(b =~= seq![b[0]] + b1);
        }
    }
}

/// `s` lists the map `m` in increasing order of keys, each key once.
pub open spec fn is_listing<V>(s: Seq<(Seq<char>, V)>, m: Map<Seq<char>, V>) -> bool {
    &&& forall|i: int, j: int| 0 <= i < j < s.len() ==> seq_lt(#[trigger] s[i].0, #[trigger] s[j].0)
    &&& forall|i: int| 0 <= i < s.len() ==> #[trigger] m.contains_key(s[i].0) && m[s[i].0] == s[i].1
    &&& forall|k: Seq<char>| #[trigger] m.contains_key(k) ==> exists|i: int| 0 <= i < s.len() && s[i].0 == k
}

/// The entries of `m` in increasing order of keys.
pub open spec fn listing<V>(m: Map<Seq<char>, V>) -> Seq<(Seq<char>, V)> {
    choose|s: Seq<(Seq<char>, V)>| is_listing(s, m)
}

/// A map has at most one listing.
pub proof fn lemma_listing_unique<V>(s1: Seq<(Seq<char>, V)>, s2: Seq<(Seq<char>, V)>, m: Map<Seq<char>, V>)
    requires
        is_listing(s1, m),
        is_listing(s2, m),
    ensures
        s1 == s2,
    decreases s1.len(),
{
    if s1.len() == 0 {
        if s2.len() > 0 {
            assert(m.contains_key(s2[0].0));
        }
        assert(s1 =~= s2);
    } else {
        assert(m.contains_key(s1[0].0));
        let j = choose|j: int| 0 <= j < s2.len() && s2[j].0 == s1[0].0;
        assert(m.contains_key(s2[0].0));
        let i = choose|i: int| 0 <= i < s1.len() && s1[i].0 == s2[0].0;
        if j > 0 {
            assert(seq_lt(s2[0].0, s2[j].0));
            if i > 0 {
                assert(seq_lt(s1[0].0, s1[i].0));
                lemma_lt_transitive(s1[0].0, s2[0].0, s1[0].0);
            }
            lemma_lt_irreflexive(s1[0].0);
        }
        let k = s1[0].0;
        let m1 = m.remove(k);
        let (t1, t2) = (s1.drop_first(), s2.drop_first());
        assert forall|a: int| 0 <= a < t1.len() implies #[trigger] m1.contains_key(t1[a].0) && m1[t1[a].0] == t1[a].1 by {
            assert(seq_lt(s1[0].0, s1[a + 1].0));
            lemma_lt_irreflexive(k);
        }
        assert forall|a: int| 0 <= a < t2.len() implies #[trigger] m1.contains_key(t2[a].0) && m1[t2[a].0] == t2[a].1 by {
            assert(seq_lt(s2[0].0, s2[a + 1].0));
            lemma_lt_irreflexive(k);
        }
        assert forall|x: Seq<char>| #[trigger] m1.contains_key(x) implies exists|a: int| 0 <= a < t1.len() && t1[a].0 == x by {
            let a = choose|a: int| 0 <= a < s1.len() && s1[a].0 == x;
            assert(t1[a - 1].0 == x);
        }
        assert forall|x: Seq<char>| #[trigger] m1.contains_key(x) implies exists|a: int| 0 <= a < t2.len() && t2[a].0 == x by {
            let a = choose|a: int| 0 <= a < s2.len() && s2[a].0 == x;
            assert(t2[a - 1].0 == x);
        }
        assert(is_listing(t1, m1));
        assert(is_listing(t2, m1));
        lemma_listing_unique(t1, t2, m1);
        assert(s1 =~= seq![s1[0]] + t1);
        assert(s2 =~= seq![s2[0]] + t2);
    }
}

/// The pairs of `ps` with their keys as character sequences.
pub open spec fn keyed<V>(ps: Seq<(String, V)>) -> Seq<(Seq<char>, V)> {
    ps.map_values(|p: (String, V)| (p.0@, p.1))
}

/// Pairs with strictly increasing keys are the listing of their map.
pub proof fn lemma_sorted_listing<V>(ps: Seq<(String, V)>)
    requires
        sorted_keys(ps),
        keys_unique(ps),
    ensures
        listing(map_of(ps)) == keyed(ps),
{
    let m = map_of(ps);
    let s = keyed(ps);
    assert forall|i: int| 0 <= i < s.len() implies #[trigger] m.contains_key(s[i].0) && m[s[i].0] == s[i].1 by {
        crate::strmap::lemma_map_of_at(ps, i);
    }
    assert forall|k: Seq<char>| #[trigger] m.contains_key(k) implies exists|i: int| 0 <= i < s.len() && s[i].0 == k by {
        let i = choose|i: int| 0 <= i < ps.len() && ps[i].0@ == k;
        assert(s[i].0 == k);
    }
    assert forall|i: int, j: int| 0 <= i < j < s.len() implies seq_lt(#[trigger] s[i].0, #[trigger] s[j].0) by {
        assert(seq_lt(ps[i].0@, ps[j].0@));
    }
    assert(is_listing(s, m));
    lemma_listing_unique(listing(m), s, m);
}

/// Whether `a` comes strictly before `b`.
pub fn str_less(a: &str, b: &str) -> (r: bool)
    ensures
        r == seq_lt(a@, b@),
{
    let x = chars_of(a);
    let y = chars_of(b);
    let mut i: usize = 0;
    assert(x@.skip(0) =~= x@);
    assert(y@.skip(0) =~= y@);
    while i < x.len() && i < y.len()
        invariant
            i <= x.len(),
            i <= y.len(),
            x@ == a@,
            y@ == b@,
            seq_lt(x@, y@) == seq_lt(x@.skip(i as int), y@.skip(i as int)),
        decreases x.len() - i,
    {
        assert(x@.skip(i as int).len() > 0 && y@.skip(i as int).len() > 0);
        assert(x@.skip(i as int)[0] == x@[i as int]);
        assert(y@.skip(i as int)[0] == y@[i as int]);
        if x[i] != y[i] {
            return x[i] < y[i];
        }
        assert(x@.skip(i as int).drop_first() =~= x@.skip(i + 1));
        assert(y@.skip(i as int).drop_first() =~= y@.skip(i + 1));
        i += 1;
    }
    assert(x@.skip(i as int).len() == x.len() - i);
    assert(y@.skip(i as int).len() == y.len() - i);
    i == x.len() && i < y.len()
}

proof fn lemma_map_of_insert<V>(ps: Seq<(String, V)>, j: int, k: String, v: V)
    requires
        keys_unique(ps),
        !has_key(ps, k@),
        0 <= j <= ps.len(),
    ensures
        keys_unique(ps.insert(j, (k, v))),
        map_of(ps.insert(j, (k, v))) == map_of(ps).insert(k@, v),
{
    let qs = ps.insert(j, (k, v));
    assert forall|a: int, b: int| 0 <= a < b < qs.len() implies qs[a].0@ != qs[b].0@ by {
        if a < j && b == j {
            assert(ps[a].0@ == qs[a].0@);
        } else if a == j {
            assert(ps[b - 1].0@ == qs[b].0@);
        }
    }
    assert forall|x: Seq<char>| #[trigger] map_of(qs).contains_key(x) <==> map_of(ps).insert(
        k@,
        v,
    ).contains_key(x) by {
        if has_key(qs, x) && x != k@ {
            let i = choose|i: int| 0 <= i < qs.len() && qs[i].0@ == x;
            if i < j {
                assert(ps[i].0@ == x);
            } else {
                assert(ps[i - 1].0@ == x);
            }
        }
        if has_key(ps, x) {
            let i = choose|i: int| 0 <= i < ps.len() && ps[i].0@ == x;
            if i < j {
                assert(qs[i].0@ == x);
            } else {
                assert(qs[i + 1].0@ == x);
            }
        }
        if x == k@ {
            assert(qs[j].0@ == x);
        }
    }
    assert forall|x: Seq<char>| #[trigger] map_of(qs).contains_key(x) implies map_of(qs)[x]
        == map_of(ps).insert(k@, v)[x] by {
        let i = choose|i: int| 0 <= i < qs.len() && qs[i].0@ == x;
        crate::strmap::lemma_map_of_at(qs, i);
        if i < j {
            crate::strmap::lemma_map_of_at(ps, i);
        } else if i > j {
            crate::strmap::lemma_map_of_at(ps, i - 1);
        }
    }
    assert(map_of(qs) =~= map_of(ps).insert(k@, v));
}

/// The pairs of `ps` in increasing order of their keys.
pub fn sort_by_key<V>(ps: Vec<(String, V)>) -> (out: Vec<(String, V)>)
    requires
        keys_unique(ps@),
    ensures
        sorted_keys(out@),
        keys_unique(out@),
        map_of(out@) == map_of(ps@),
        out@.len() == ps@.len(),
{
    let ghost orig = ps@;
    let mut rest = ps;
    let mut out: Vec<(String, V)> = Vec::new();
    assert(map_of(out@) =~= Map::<Seq<char>, V>::empty());
    assert(map_of(rest@).union_prefer_right(map_of(out@)) =~= map_of(orig));
    while rest.len() > 0
        invariant
            keys_unique(rest@),
            keys_unique(out@),
            sorted_keys(out@),
            forall|a: int, b: int|
                0 <= a < rest@.len() && 0 <= b < out@.len() ==> rest@[a].0@ != out@[b].0@,
            map_of(rest@).union_prefer_right(map_of(out@)) == map_of(orig),
            rest@.len() + out@.len() == orig.len(),
        decreases rest@.len(),
    {
        let ghost before = rest@;
        let p = rest.pop().unwrap();
        let ghost k = p.0;
        let ghost v = p.1;
        assert(before =~= rest@.push((k, v)));
        assert(!has_key(rest@, k@)) by {
            if has_key(rest@, k@) {
                let i = choose|i: int| 0 <= i < rest@.len() && rest@[i].0@ == k@;
                assert(before[i].0@ == before[before.len() - 1].0@);
            }
        }
        proof {
            crate::strmap::lemma_map_of_push(rest@, k, v);
        }
        let mut j: usize = 0;
        while j < out.len() && str_less(out[j].0.as_str(), p.0.as_str())
            invariant
                j <= out@.len(),
                forall|i: int| 0 <= i < j ==> seq_lt(#[trigger] out@[i].0@, p.0@),
            decreases out@.len() - j,
        {
            j += 1;
        }
        assert(!has_key(out@, k@)) by {
            if has_key(out@, k@) {
                let i = choose|i: int| 0 <= i < out@.len() && out@[i].0@ == k@;
                assert(before[before.len() - 1].0@ == k@);
            }
        }
        let ghost old_out = out@;
        proof {
            lemma_map_of_insert(old_out, j as int, k, v);
        }
        out.insert(j, p);
        assert(out@ == old_out.insert(j as int, (k, v)));
        assert forall|a: int, b: int| 0 <= a < b < out@.len() implies seq_lt(
            #[trigger] out@[a].0@,
            #[trigger] out@[b].0@,
        ) by {
            if j < old_out.len() {
                lemma_lt_total(old_out[j as int].0@, k@);
                assert(old_out[j as int].0@ != k@);
            }
            if b < j {
            } else if a < j && b == j {
            } else if a < j && b > j {
                lemma_lt_transitive(out@[a].0@, k@, old_out[j as int].0@);
                if b - 1 > j {
                    lemma_lt_transitive(out@[a].0@, old_out[j as int].0@, old_out[b - 1].0@);
                }
            } else if a == j {
                if b - 1 > j {
                    lemma_lt_transitive(k@, old_out[j as int].0@, old_out[b - 1].0@);
                }
            } else {
                assert(out@[a] == old_out[a - 1]);
                assert(out@[b] == old_out[b - 1]);
            }
        }
        assert forall|a: int, b: int|
            0 <= a < rest@.len() && 0 <= b < out@.len() implies rest@[a].0@ != out@[b].0@ by {
            assert(before[a] == rest@[a]);
            if b < j {
                assert(out@[b] == old_out[b]);
            } else if b > j {
                assert(out@[b] == old_out[b - 1]);
            } else {
                assert(before[before.len() - 1].0@ == k@);
            }
        }
        assert(map_of(rest@).union_prefer_right(map_of(out@)) =~= map_of(orig));
    }
    assert(map_of(rest@) =~= Map::<Seq<char>, V>::empty());
    assert(map_of(out@) =~= map_of(orig));
    out
}

/// Strictly increasing keys are unique.
pub proof fn lemma_sorted_unique<V>(ps: Seq<(String, V)>)
    requires
        sorted_keys(ps),
    ensures
        keys_unique(ps),
{
    assert forall|i: int, j: int| 0 <= i < j < ps.len() implies ps[i].0@ != ps[j].0@ by {
        assert(seq_lt(ps[i].0@, ps[j].0@));
        lemma_lt_irreflexive(ps[i].0@);
    }
}

/// Stores `v` under `k` in pairs kept in increasing key order, replacing the
/// value of an equal key (what `insert` does on a `BTreeMap`).
pub fn sorted_insert<V>(ps: &mut Vec<(String, V)>, k: String, v: V)
    requires
        sorted_keys(old(ps)@),
    ensures
        sorted_keys(final(ps)@),
        map_of(final(ps)@) == map_of(old(ps)@).insert(k@, v),
{
    proof {
        lemma_sorted_unique(ps@);
    }
    let mut j: usize = 0;
    while j < ps.len() && str_less(ps[j].0.as_str(), k.as_str())
        invariant
            j <= ps@.len(),
            forall|i: int| 0 <= i < j ==> seq_lt(#[trigger] ps@[i].0@, k@),
        decreases ps@.len() - j,
    {
        j += 1;
    }
    let ghost old_ps = ps@;
    if j < ps.len() && !str_less(k.as_str(), ps[j].0.as_str()) {
        proof {
            lemma_lt_total(ps@[j as int].0@, k@);
            crate::strmap::lemma_map_of_update(old_ps, j as int, k, v);
        }
        ps.set(j, (k, v));
        assert forall|a: int, b: int| 0 <= a < b < ps@.len() implies seq_lt(
            #[trigger] ps@[a].0@,
            #[trigger] ps@[b].0@,
        ) by {
            assert(old_ps[a].0@ == ps@[a].0@);
            assert(old_ps[b].0@ == ps@[b].0@);
        }
    } else {
        assert(!has_key(old_ps, k@)) by {
            if has_key(old_ps, k@) {
                let i = choose|i: int| 0 <= i < old_ps.len() && old_ps[i].0@ == k@;
                if i < j {
                    lemma_lt_irreflexive(k@);
                } else if i > j {
                    lemma_lt_transitive(k@, old_ps[j as int].0@, old_ps[i].0@);
                    lemma_lt_irreflexive(k@);
                }
            }
        }
        proof {
            if j < old_ps.len() {
                lemma_lt_total(old_ps[j as int].0@, k@);
            }
            lemma_map_of_insert(old_ps, j as int, k, v);
        }
        ps.insert(j, (k, v));
        assert forall|a: int, b: int| 0 <= a < b < ps@.len() implies seq_lt(
            #[trigger] ps@[a].0@,
            #[trigger] ps@[b].0@,
        ) by {
            if b < j {
            } else if a < j && b == j {
            } else if a < j && b > j {
                lemma_lt_transitive(ps@[a].0@, k@, old_ps[j as int].0@);
                if b - 1 > j {
                    lemma_lt_transitive(ps@[a].0@, old_ps[j as int].0@, old_ps[b - 1].0@);
                }
            } else if a == j {
                if b - 1 > j {
                    lemma_lt_transitive(k@, old_ps[j as int].0@, old_ps[b - 1].0@);
                }
            } else {
                assert(ps@[a] == old_ps[a - 1]);
                assert(ps@[b] == old_ps[b - 1]);
            }
        }
    }
}

/// `s` with `p` put before the first pair whose key comes after `p`'s.
pub open spec fn insert_sorted<V>(s: Seq<(Seq<char>, V)>, p: (Seq<char>, V)) -> Seq<(Seq<char>, V)>
    decreases s.len(),
{
    if s.len() == 0 {
        seq![p]
    } else if seq_lt(p.0, s[0].0) {
        seq![p] + s
    } else {
        seq![s[0]] + insert_sorted(s.drop_first(), p)
    }
}

proof fn lemma_insert_sorted<V>(s: Seq<(Seq<char>, V)>, m: Map<Seq<char>, V>, k: Seq<char>, v: V)
    requires
        is_listing(s, m),
        !m.contains_key(k),
    ensures
        is_listing(insert_sorted(s, (k, v)), m.insert(k, v)),
        insert_sorted(s, (k, v)).len() == s.len() + 1,
        forall|i: int| 0 <= i < insert_sorted(s, (k, v)).len() ==> (#[trigger] insert_sorted(s, (k, v))[i].0 == k
            || exists|j: int| 0 <= j < s.len() && s[j].0 == insert_sorted(s, (k, v))[i].0),
    decreases s.len(),
{
    let r = insert_sorted(s, (k, v));
    let m2 = m.insert(k, v);
    if s.len() == 0 {
        assert forall|x: Seq<char>| #[trigger] m2.contains_key(x) implies exists|i: int| 0 <= i < r.len() && r[i].0 == x by {
            assert(r[0].0 == k);
        }
    } else if seq_lt(k, s[0].0) {
        assert forall|i: int, j: int| 0 <= i < j < r.len() implies seq_lt(#[trigger] r[i].0, #[trigger] r[j].0) by {
            if i == 0 && j > 1 {
                lemma_lt_transitive(k, s[0].0, s[j - 1].0);
            }
            if i > 0 {
                assert(r[i] == s[i - 1] && r[j] == s[j - 1]);
            }
        }
        assert forall|i: int| 0 <= i < r.len() implies #[trigger] m2.contains_key(r[i].0) && m2[r[i].0] == r[i].1 by {
            if i > 0 {
                assert(r[i] == s[i - 1]);
                assert(m.contains_key(s[i - 1].0));
            }
        }
        assert forall|x: Seq<char>| #[trigger] m2.contains_key(x) implies exists|i: int| 0 <= i < r.len() && r[i].0 == x by {
            if x == k {
                assert(r[0].0 == k);
            } else {
                let j = choose|j: int| 0 <= j < s.len() && s[j].0 == x;
                assert(r[j + 1].0 == x);
            }
        }
        assert forall|i: int| 0 <= i < r.len() implies (#[trigger] r[i].0 == k || exists|j: int| 0 <= j < s.len() && s[j].0 == r[i].0) by {
            if i > 0 {
                assert(r[i] == s[i - 1]);
            }
        }
    } else {
        let t = s.drop_first();
        let m1 = m.remove(s[0].0);
        assert(is_listing(t, m1)) by {
            assert forall|a: int, b: int| 0 <= a < b < t.len() implies seq_lt(#[trigger] t[a].0, #[trigger] t[b].0) by {
                assert(seq_lt(s[a + 1].0, s[b + 1].0));
            }
            assert forall|a: int| 0 <= a < t.len() implies #[trigger] m1.contains_key(t[a].0) && m1[t[a].0] == t[a].1 by {
                assert(seq_lt(s[0].0, s[a + 1].0));
                lemma_lt_irreflexive(s[0].0);
                assert(m.contains_key(s[a + 1].0));
            }
            assert forall|x: Seq<char>| #[trigger] m1.contains_key(x) implies exists|a: int| 0 <= a < t.len() && t[a].0 == x by {
                let j = choose|j: int| 0 <= j < s.len() && s[j].0 == x;
                assert(t[j - 1].0 == x);
            }
        }
        assert(!m1.contains_key(k));
        lemma_insert_sorted(t, m1, k, v);
        let rt = insert_sorted(t, (k, v));
        assert(r == seq![s[0]] + rt);
        assert(m.contains_key(s[0].0));
        assert(s[0].0 != k);
        lemma_lt_total(s[0].0, k);
        assert forall|i: int, j: int| 0 <= i < j < r.len() implies seq_lt(#[trigger] r[i].0, #[trigger] r[j].0) by {
            if i == 0 {
                assert(r[j] == rt[j - 1]);
                if rt[j - 1].0 != k {
                    let jj = choose|jj: int| 0 <= jj < t.len() && t[jj].0 == rt[j - 1].0;
                    assert(seq_lt(s[0].0, s[jj + 1].0));
                }
            } else {
                assert(r[i] == rt[i - 1] && r[j] == rt[j - 1]);
                assert(seq_lt(rt[i - 1].0, rt[j - 1].0));
            }
        }
        assert forall|i: int| 0 <= i < r.len() implies #[trigger] m2.contains_key(r[i].0) && m2[r[i].0] == r[i].1 by {
            if i > 0 {
                assert(r[i] == rt[i - 1]);
                assert(m1.insert(k, v).contains_key(rt[i - 1].0));
            }
        }
        assert forall|x: Seq<char>| #[trigger] m2.contains_key(x) implies exists|i: int| 0 <= i < r.len() && r[i].0 == x by {
            if x == s[0].0 {
                assert(r[0].0 == x);
            } else {
                assert(m1.insert(k, v).contains_key(x));
                let j = choose|j: int| 0 <= j < rt.len() && rt[j].0 == x;
                assert(r[j + 1].0 == x);
            }
        }
        assert forall|i: int| 0 <= i < r.len() implies (#[trigger] r[i].0 == k || exists|j: int| 0 <= j < s.len() && s[j].0 == r[i].0) by {
            if i > 0 {
                assert(r[i] == rt[i - 1]);
                if rt[i - 1].0 != k {
                    let jj = choose|jj: int| 0 <= jj < t.len() && t[jj].0 == rt[i - 1].0;
                    assert(s[jj + 1].0 == r[i].0);
                }
            } else {
                assert(s[0].0 == r[0].0);
            }
        }
    }
}

/// Every finite map has a listing.
pub proof fn lemma_listing_exists<V>(m: Map<Seq<char>, V>)
    requires
        m.dom().finite(),
    ensures
        is_listing(listing(m), m),
    decreases m.dom().len(),
{
    if m.dom().len() == 0 {
        assert(m.dom() =~= Set::<Seq<char>>::empty());
        assert(is_listing(Seq::<(Seq<char>, V)>::empty(), m));
    } else {
        let k = m.dom().choose();
        let m1 = m.remove(k);
        assert(m1.dom() =~= m.dom().remove(k));
        lemma_listing_exists(m1);
        lemma_insert_sorted(listing(m1), m1, k, m[k]);
        assert(m1.insert(k, m[k]) =~= m);
    }
}

} // verus!
