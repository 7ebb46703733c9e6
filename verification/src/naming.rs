//! Route naming shared by every language binding: resource and action names
//! derived from class and method names, `[module]` / `[action]` expansion and
//! joining of class and method route segments.

use vstd::prelude::*;

use crate::text::{
    chars_of, contains_seq, extend, has_prefix, occurs_at, replace, replace_all, starts_with,
    strip_suffix, strip_suffix_exec, to_lowercase, to_string, trim_char, trim_end_char,
    trim_end_matches, trim_matches, trim_start_char, trim_start_matches, unicode_lower,
};

verus! {

/// Canonical HTTP handler method names (lowercase).
pub fn http_methods() -> (r: Vec<&'static str>)
    ensures
        r.len() == 7,
        r@[0]@ == "get"@ && r@[1]@ == "post"@ && r@[2]@ == "put"@ && r@[3]@ == "patch"@,
        r@[4]@ == "delete"@ && r@[5]@ == "head"@ && r@[6]@ == "options"@,
{
    vec!["get", "post", "put", "patch", "delete", "head", "options"]
}

/// `s` without `suffix` when that leaves something, else `s` itself.
pub open spec fn stem_without(s: Seq<char>, suffix: Seq<char>) -> Option<Seq<char>> {
    match strip_suffix(s, suffix) {
        Some(stem) => if stem.len() > 0 {
            Some(stem)
        } else {
            Some(s)
        },
        None => None,
    }
}

/// `s` with a trailing `first` (or else `second`) removed, unless that would empty it.
pub open spec fn strip_name_suffix(s: Seq<char>, first: Seq<char>, second: Seq<char>) -> Seq<char> {
    match stem_without(s, first) {
        Some(stem) => stem,
        None => match stem_without(s, second) {
            Some(stem) => stem,
            None => s,
        },
    }
}

/// `ProductsModule` → `products`: the class name without `Module`/`MODULE`, lowercased.
pub open spec fn resource_name(class_name: Seq<char>) -> Seq<char> {
    unicode_lower(strip_name_suffix(class_name, "Module"@, "MODULE"@))
}

/// `UserAction` → `user`: the method name without `Action`/`ACTION`, lowercased.
pub open spec fn action_name(method_name: Seq<char>) -> Seq<char> {
    unicode_lower(strip_name_suffix(method_name, "Action"@, "ACTION"@))
}

/// `template` with `[module]` expanded.
pub open spec fn route_path(template: Seq<char>, class_name: Seq<char>) -> Seq<char> {
    replace_all(template, "[module]"@, resource_name(class_name))
}

/// `template` with `[module]` and then `[action]` expanded.
pub open spec fn method_route_path(
    template: Seq<char>,
    class_name: Seq<char>,
    method_name: Seq<char>,
) -> Seq<char> {
    replace_all(route_path(template, class_name), "[action]"@, action_name(method_name))
}

/// Class base path joined with a method segment.
pub open spec fn joined_path(base: Seq<char>, segment: Seq<char>) -> Seq<char> {
    let b = trim_end_char(base, '/');
    let s = trim_char(segment, '/');
    if s.len() == 0 {
        if b.len() == 0 {
            seq!['/']
        } else {
            b
        }
    } else if b.len() == 0 {
        seq!['/'] + s
    } else {
        b + seq!['/'] + s
    }
}

/// Handler route: absolute templates ignore the class base path.
pub open spec fn handler_route(
    class_base_path: Seq<char>,
    method_template: Seq<char>,
    class_name: Seq<char>,
    method_name: Seq<char>,
) -> Seq<char> {
    let resolved = method_route_path(method_template, class_name, method_name);
    if has_prefix(method_template, seq!['/']) {
        joined_path(Seq::empty(), trim_start_char(resolved, '/'))
    } else {
        joined_path(class_base_path, resolved)
    }
}

fn strip_name_suffix_exec(s: &Vec<char>, first: &str, second: &str) -> (r: Vec<char>)
    ensures
        r@ == strip_name_suffix(s@, first@, second@),
{
    let f = chars_of(first);
    match strip_suffix_exec(s, &f) {
        Some(stem) => {
            if stem.len() > 0 {
                stem
            } else {
                s.clone()
            }
        },
        None => {
            let g = chars_of(second);
            match strip_suffix_exec(s, &g) {
                Some(stem) => {
                    if stem.len() > 0 {
                        stem
                    } else {
                        s.clone()
                    }
                },
                None => s.clone(),
            }
        },
    }
}

/// `MyFirstModule` → `myfirst`; names without a `Module`/`MODULE` suffix are lowercased as-is.
pub fn api_resource_name(class_name: &str) -> (r: String)
    ensures
        r@ == resource_name(class_name@),
{
    let s = chars_of(class_name);
    let stem = strip_name_suffix_exec(&s, "Module", "MODULE");
    let stem_str = to_string(&stem);
    to_lowercase(stem_str.as_str())
}

/// `UserAction` → `user`; strips trailing `Action` / `ACTION` then lowercases.
pub fn api_action_name(method_name: &str) -> (r: String)
    ensures
        r@ == action_name(method_name@),
{
    let s = chars_of(method_name);
    let stem = strip_name_suffix_exec(&s, "Action", "ACTION");
    let stem_str = to_string(&stem);
    to_lowercase(stem_str.as_str())
}

/// Expand the reserved `[module]` token using the module class name.
///
/// Example: `/api/[module]/{id}` + `ProductsModule` → `/api/products/{id}`.
/// Other `{param}` / `[param]` segments are left for the router.
pub fn resolve_route_path(template: &str, class_name: &str) -> (r: String)
    ensures
        r@ == route_path(template@, class_name@),
{
    let name = api_resource_name(class_name);
    let t = chars_of(template);
    let pat = chars_of("[module]");
    proof {
        reveal_strlit("[module]");
    }
    let rep = chars_of(name.as_str());
    let out = replace(&t, &pat, &rep);
    to_string(&out)
}

/// Expand `[module]` and `[action]` tokens for a handler method route template.
pub fn resolve_method_route_path(template: &str, class_name: &str, method_name: &str) -> (r:
    String)
    ensures
        r@ == method_route_path(template@, class_name@, method_name@),
{
    let first = resolve_route_path(template, class_name);
    let action = api_action_name(method_name);
    let t = chars_of(first.as_str());
    let pat = chars_of("[action]");
    proof {
        reveal_strlit("[action]");
    }
    let rep = chars_of(action.as_str());
    let out = replace(&t, &pat, &rep);
    to_string(&out)
}

fn join_chars(base: &Vec<char>, segment: &Vec<char>) -> (r: Vec<char>)
    ensures
        r@ == joined_path(base@, segment@),
{
    let b = trim_end_matches(base, '/');
    let s = trim_matches(segment, '/');
    if s.len() == 0 {
        if b.len() == 0 {
            let mut r: Vec<char> = Vec::new();
            r.push('/');
            assert(r@ =~= seq!['/']);
            r
        } else {
            b
        }
    } else if b.len() == 0 {
        let mut r: Vec<char> = Vec::new();
        r.push('/');
        extend(&mut r, &s);
        assert(r@ =~= seq!['/'] + s@);
        r
    } else {
        let mut r = b;
        r.push('/');
        extend(&mut r, &s);
        r
    }
}

/// Join a class-level base path with a method route segment.
pub fn join_route_paths(base: &str, segment: &str) -> (r: String)
    ensures
        r@ == joined_path(base@, segment@),
{
    let b = chars_of(base);
    let s = chars_of(segment);
    let out = join_chars(&b, &s);
    to_string(&out)
}

/// Resolve a method-level route template against class context.
///
/// Absolute templates (leading `/`) ignore the class base path.
pub fn resolve_handler_route(
    class_base_path: &str,
    method_template: &str,
    class_name: &str,
    method_name: &str,
) -> (r: String)
    ensures
        r@ == handler_route(class_base_path@, method_template@, class_name@, method_name@),
{
    let resolved = resolve_method_route_path(method_template, class_name, method_name);
    let res = chars_of(resolved.as_str());
    let t = chars_of(method_template);
    let slash: Vec<char> = vec!['/'];
    assert(slash@ =~= seq!['/']);
    let out = if starts_with(&t, &slash) {
        let rest = trim_start_matches(&res, '/');
        let empty: Vec<char> = Vec::new();
        assert(empty@ =~= Seq::<char>::empty());
        join_chars(&empty, &rest)
    } else {
        let b = chars_of(class_base_path);
        join_chars(&b, &res)
    };
    to_string(&out)
}

// ─── Laws ───────────────────────────────────────────────────────────────────

/// Removing trailing `c` leaves a prefix of `s` that does not end in `c`.
pub proof fn lemma_trim_end_char(s: Seq<char>, c: char)
    ensures
        trim_end_char(s, c).len() <= s.len(),
        trim_end_char(s, c) == s.take(trim_end_char(s, c).len() as int),
        trim_end_char(s, c).len() == 0 || trim_end_char(s, c).last() != c,
    decreases s.len(),
{
    if s.len() > 0 && s.last() == c {
        lemma_trim_end_char(s.drop_last(), c);
        assert(s.drop_last().take(trim_end_char(s, c).len() as int) =~= s.take(
            trim_end_char(s, c).len() as int,
        ));
    } else {
        assert(s.take(s.len() as int) =~= s);
    }
}

/// Removing leading `c` leaves a suffix of `s` that does not start with `c`.
pub proof fn lemma_trim_start_char(s: Seq<char>, c: char)
    ensures
        trim_start_char(s, c).len() <= s.len(),
        trim_start_char(s, c) == s.skip(s.len() - trim_start_char(s, c).len()),
        trim_start_char(s, c).len() == 0 || trim_start_char(s, c)[0] != c,
    decreases s.len(),
{
    if s.len() > 0 && s[0] == c {
        lemma_trim_start_char(s.drop_first(), c);
        assert(s.drop_first().skip(s.drop_first().len() - trim_start_char(s, c).len()) =~= s.skip(
            s.len() - trim_start_char(s, c).len(),
        ));
    } else {
        assert(s.skip(0) =~= s);
    }
}

/// A sequence that does not end in `c` is unchanged by `trim_end_char`.
pub proof fn lemma_trim_end_char_noop(s: Seq<char>, c: char)
    requires
        s.len() == 0 || s.last() != c,
    ensures
        trim_end_char(s, c) == s,
{
}

/// The joined path is never empty and never ends in `/`, except for `/` itself.
pub proof fn law_joined_path_has_no_trailing_slash(base: Seq<char>, segment: Seq<char>)
    ensures
        joined_path(base, segment).len() > 0,
        joined_path(base, segment) == seq!['/'] || joined_path(base, segment).last() != '/',
{
    let b = trim_end_char(base, '/');
    let e = trim_end_char(segment, '/');
    let s = trim_start_char(e, '/');
    lemma_trim_end_char(base, '/');
    lemma_trim_end_char(segment, '/');
    lemma_trim_start_char(e, '/');
    if s.len() > 0 {
        assert(s.last() == e.last());
        if b.len() == 0 {
            assert((seq!['/'] + s).last() == s.last());
        } else {
            assert((b + seq!['/'] + s).last() == s.last());
        }
    }
}

/// Joining an already joined path with an empty segment changes nothing.
pub proof fn law_join_route_paths_idempotent(base: Seq<char>, segment: Seq<char>)
    ensures
        joined_path(joined_path(base, segment), Seq::empty()) == joined_path(base, segment),
{
    let r = joined_path(base, segment);
    law_joined_path_has_no_trailing_slash(base, segment);
    assert(trim_end_char(Seq::<char>::empty(), '/') =~= Seq::<char>::empty());
    assert(trim_char(Seq::<char>::empty(), '/') =~= Seq::<char>::empty());
    if r == seq!['/'] {
        assert(seq!['/'].drop_last() =~= Seq::<char>::empty());
        assert(trim_end_char(r, '/') =~= Seq::<char>::empty());
    } else {
        lemma_trim_end_char_noop(r, '/');
    }
}

/// Absolute method templates resolve the same whatever the class base path is.
pub proof fn law_absolute_template_ignores_base(
    base1: Seq<char>,
    base2: Seq<char>,
    method_template: Seq<char>,
    class_name: Seq<char>,
    method_name: Seq<char>,
)
    requires
        has_prefix(method_template, seq!['/']),
    ensures
        handler_route(base1, method_template, class_name, method_name) == handler_route(
            base2,
            method_template,
            class_name,
            method_name,
        ),
{
}

/// `replace_all` leaves a sequence without the pattern unchanged.
pub proof fn lemma_replace_absent(s: Seq<char>, pat: Seq<char>, rep: Seq<char>)
    requires
        pat.len() > 0,
        !contains_seq(s, pat),
    ensures
        replace_all(s, pat, rep) == s,
    decreases s.len(),
{
    if s.len() > 0 {
        if has_prefix(s, pat) {
            assert(occurs_at(s, pat, 0)) by {
                assert(s.subrange(0, pat.len() as int) =~= s.take(pat.len() as int));
            }
        }
        assert(!contains_seq(s.skip(1), pat)) by {
            assert forall|i: int| !occurs_at(s.skip(1), pat, i) by {
                if occurs_at(s.skip(1), pat, i) {
                    assert(s.skip(1).subrange(i, i + pat.len()) =~= s.subrange(
                        i + 1,
                        i + 1 + pat.len(),
                    ));
                    assert(occurs_at(s, pat, i + 1));
                }
            }
        }
        lemma_replace_absent(s.skip(1), pat, rep);
        assert(seq![s[0]] + s.skip(1) =~= s);
    }
}

/// Templates without `[module]` are returned unchanged by `resolve_route_path`.
pub proof fn law_route_path_without_token(template: Seq<char>, class_name: Seq<char>)
    requires
        !contains_seq(template, "[module]"@),
    ensures
        route_path(template, class_name) == template,
{
    reveal_strlit("[module]");
    lemma_replace_absent(template, "[module]"@, resource_name(class_name));
}

} // verus!
