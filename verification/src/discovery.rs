//! Where a settings file is looked for: the file name for an environment,
//! the search roots without repeats, and the pick among the `fusion.*.json`
//! files of one directory when no file is named after the environment.

use vstd::prelude::*;

use crate::order::{lemma_lt_irreflexive, lemma_lt_transitive, seq_lt, str_less};
use crate::text::{chars_of, chars_eq, ends_with, extend, has_prefix, has_suffix, starts_with, to_string};

verus! {

/// `fusion.`
pub open spec fn name_head() -> Seq<char> {
    seq!['f', 'u', 's', 'i', 'o', 'n', '.']
}

/// `.json`
pub open spec fn name_tail() -> Seq<char> {
    seq!['.', 'j', 's', 'o', 'n']
}

/// The settings file of environment `env`: `fusion.<env>.json`.
pub open spec fn settings_file(env: Seq<char>) -> Seq<char> {
    name_head() + env + name_tail()
}

/// A file name of the settings family: it starts with `fusion.` and ends
/// with `.json`.
pub open spec fn is_settings_name(name: Seq<char>) -> bool {
    has_prefix(name, name_head()) && has_suffix(name, name_tail())
}

/// `roots` with every repeat after the first occurrence dropped.
pub open spec fn first_occurrences(roots: Seq<Seq<char>>) -> Seq<Seq<char>>
    decreases roots.len(),
{
    if roots.len() == 0 {
        Seq::empty()
    } else {
        let kept = first_occurrences(roots.drop_last());
        if kept.contains(roots.last()) {
            kept
        } else {
            kept.push(roots.last())
        }
    }
}

fn head_chars() -> (v: Vec<char>)
    ensures
        v@ == name_head(),
{
    let v = vec!['f', 'u', 's', 'i', 'o', 'n', '.'];
    assert(v@ =~= name_head());
    v
}

fn tail_chars() -> (v: Vec<char>)
    ensures
        v@ == name_tail(),
{
    let v = vec!['.', 'j', 's', 'o', 'n'];
    assert(v@ =~= name_tail());
    v
}

/// The name of the settings file of environment `env`.
pub fn settings_file_name(env: &str) -> (r: String)
    ensures
        r@ == settings_file(env@),
{
    let mut v = head_chars();
    extend(&mut v, &chars_of(env));
    extend(&mut v, &tail_chars());
    to_string(&v)
}

/// Whether `name` is a file name of the settings family.
pub fn is_settings_file_name(name: &str) -> (b: bool)
    ensures
        b == is_settings_name(name@),
{
    let n = chars_of(name);
    starts_with(&n, &head_chars()) && ends_with(&n, &tail_chars())
}

/// The search roots in order, each kept at its first occurrence only.
pub fn unique_roots(roots: &Vec<String>) -> (r: Vec<String>)
    ensures
        r@.map_values(|s: String| s@) == first_occurrences(roots@.map_values(|s: String| s@)),
{
    let ghost rs = roots@.map_values(|s: String| s@);
    let mut out: Vec<String> = Vec::new();
    let mut i: usize = 0;
    assert(rs.take(0) =~= Seq::<Seq<char>>::empty());
    assert(out@.map_values(|s: String| s@) =~= first_occurrences(rs.take(0)));
    while i < roots.len()
        invariant
            i <= roots.len(),
            rs == roots@.map_values(|s: String| s@),
            out@.map_values(|s: String| s@) == first_occurrences(rs.take(i as int)),
        decreases roots.len() - i,
    {
        let ghost kept = out@.map_values(|s: String| s@);
        assert(rs.take(i + 1).drop_last() =~= rs.take(i as int));
        assert(rs.take(i + 1).last() == roots@[i as int]@);
        let cand = chars_of(roots[i].as_str());
        let mut seen = false;
        let mut j: usize = 0;
        while j < out.len()
            invariant
                j <= out.len(),
                cand@ == roots@[i as int]@,
                kept == out@.map_values(|s: String| s@),
                seen == (exists|k: int| 0 <= k < j && #[trigger] kept[k] == cand@),
            decreases out.len() - j,
        {
            assert(kept[j as int] == out@[j as int]@);
            if chars_eq(&chars_of(out[j].as_str()), &cand) {
                seen = true;
            }
            j += 1;
        }
        assert(seen == kept.contains(cand@)) by {
            if kept.contains(cand@) {
                let k = choose|k: int| 0 <= k < kept.len() && kept[k] == cand@;
                assert(kept[k] == cand@);
            }
        }
        if !seen {
            out.push(roots[i].clone());
            assert(out@.map_values(|s: String| s@) =~= kept.push(cand@));
        }
        i += 1;
    }
    assert(rs.take(roots.len() as int) =~= rs);
    out
}

/// The least name of the settings family among `names`, in character order,
/// or `None` when `names` holds none.
pub fn first_settings_name(names: &Vec<String>) -> (r: Option<String>)
    ensures
        match r {
            None => forall|i: int| 0 <= i < names.len() ==> !is_settings_name(#[trigger] names@[i]@),
            Some(n) => {
                &&& is_settings_name(n@)
                &&& exists|i: int| 0 <= i < names.len() && #[trigger] names@[i]@ == n@
                &&& forall|i: int|
                    0 <= i < names.len() && is_settings_name(#[trigger] names@[i]@) ==> !seq_lt(names@[i]@, n@)
            },
        },
{
    let mut best: Option<usize> = None;
    let mut i: usize = 0;
    while i < names.len()
        invariant
            i <= names.len(),
            match best {
                None => forall|k: int| 0 <= k < i ==> !is_settings_name(#[trigger] names@[k]@),
                Some(b) => {
                    &&& b < i
                    &&& is_settings_name(names@[b as int]@)
                    &&& forall|k: int|
                        0 <= k < i && is_settings_name(#[trigger] names@[k]@) ==> !seq_lt(names@[k]@, names@[b as int]@)
                },
            },
        decreases names.len() - i,
    {
        if is_settings_file_name(names[i].as_str()) {
            match best {
                None => {
                    proof {
                        lemma_lt_irreflexive(names@[i as int]@);
                    }
                    best = Some(i);
                },
                Some(b) => {
                    if str_less(names[i].as_str(), names[b].as_str()) {
                        proof {
                            assert forall|k: int|
                                0 <= k <= i && is_settings_name(#[trigger] names@[k]@) implies !seq_lt(
                                names@[k]@,
                                names@[i as int]@,
                            ) by {
                                if k < i {
                                    if seq_lt(names@[k]@, names@[i as int]@) {
                                        lemma_lt_transitive(names@[k]@, names@[i as int]@, names@[b as int]@);
                                    }
                                } else {
                                    lemma_lt_irreflexive(names@[k]@);
                                }
                            }
                        }
                        best = Some(i);
                    }
                },
            }
        }
        i += 1;
    }
    match best {
        None => None,
        Some(b) => Some(names[b].clone()),
    }
}

/// The roots kept are exactly the roots given, each once.
pub proof fn law_unique_roots_once_each(roots: Seq<Seq<char>>)
    ensures
        forall|i: int, j: int|
            0 <= i < j < first_occurrences(roots).len() ==> #[trigger] first_occurrences(roots)[i]
                != #[trigger] first_occurrences(roots)[j],
        forall|x: Seq<char>| #[trigger] first_occurrences(roots).contains(x) <==> roots.contains(x),
    decreases roots.len(),
{
    if roots.len() > 0 {
        let rest = roots.drop_last();
        let kept = first_occurrences(rest);
        law_unique_roots_once_each(rest);
        assert forall|x: Seq<char>| #[trigger] roots.contains(x) <==> (rest.contains(x) || x == roots.last()) by {
            if roots.contains(x) {
                let k = choose|k: int| 0 <= k < roots.len() && roots[k] == x;
                if k < roots.len() - 1 {
                    assert(rest[k] == x);
                }
            }
            if rest.contains(x) {
                let k = choose|k: int| 0 <= k < rest.len() && rest[k] == x;
                assert(roots[k] == x);
            }
            if x == roots.last() {
                assert(roots[roots.len() - 1] == x);
            }
        }
        if !kept.contains(roots.last()) {
            let out = kept.push(roots.last());
            assert forall|x: Seq<char>| #[trigger] out.contains(x) <==> (kept.contains(x) || x == roots.last()) by {
                if out.contains(x) {
                    let k = choose|k: int| 0 <= k < out.len() && out[k] == x;
                    if k < kept.len() {
                        assert(kept[k] == x);
                    }
                }
                if kept.contains(x) {
                    let k = choose|k: int| 0 <= k < kept.len() && kept[k] == x;
                    assert(out[k] == x);
                }
                if x == roots.last() {
                    assert(out[kept.len() as int] == x);
                }
            }
            assert forall|i: int, j: int| 0 <= i < j < out.len() implies #[trigger] out[i] != #[trigger] out[j] by {
                if j == kept.len() {
                    assert(out[i] == kept[i]);
                    if out[i] == out[j] {
                        assert(kept.contains(roots.last()));
                    }
                } else {
                    assert(out[i] == kept[i]);
                    assert(out[j] == kept[j]);
                }
            }
        }
    }
}

} // verus!
