//! The routing table: patterns with `{id}` and `[name]` parameter segments,
//! matched in registration order against the method and the path segments.
//!
//! A handler is whatever the host stores with a route; running it is the
//! host's part, so lookups return the matching route and its parameters.

use vstd::prelude::*;

use crate::request::{split_on, Request};
use crate::response::{utf8, Response, ResponseView};
use crate::strmap::StrMap;
use crate::text::{chars_eq, chars_of, split_char, to_string, to_uppercase, trim_char, trim_matches, unicode_upper};

verus! {

/// One segment of a route pattern.
#[derive(Debug)]
pub enum Segment {
    Static(String),
    Param(String),
}

/// A pattern segment as text.
pub enum SegmentView {
    Static(Seq<char>),
    Param(Seq<char>),
}

impl Segment {
    pub open spec fn view(&self) -> SegmentView {
        match self {
            Segment::Static(s) => SegmentView::Static(s@),
            Segment::Param(n) => SegmentView::Param(n@),
        }
    }
}

/// The non-empty parts among `ps`, in order.
pub open spec fn nonempty_parts(ps: Seq<Seq<char>>) -> Seq<Seq<char>>
    decreases ps.len(),
{
    if ps.len() == 0 {
        Seq::empty()
    } else if ps.last().len() == 0 {
        nonempty_parts(ps.drop_last())
    } else {
        nonempty_parts(ps.drop_last()).push(ps.last())
    }
}

/// The segments of a path: `/` trimmed from both ends, split on `/`, empty
/// pieces dropped.
pub open spec fn path_segments(path: Seq<char>) -> Seq<Seq<char>> {
    nonempty_parts(split_char(trim_char(path, '/'), '/'))
}

/// The parameter name of a `{name}` or `[name]` segment with a non-empty name.
pub open spec fn param_of(seg: Seq<char>) -> Option<Seq<char>> {
    if seg.len() > 2 && ((seg[0] == '{' && seg.last() == '}') || (seg[0] == '[' && seg.last() == ']')) {
        Some(seg.subrange(1, seg.len() - 1))
    } else {
        None
    }
}

/// The pattern a route path stands for.
pub open spec fn pattern_of(path: Seq<char>) -> Seq<SegmentView> {
    path_segments(path).map_values(
        |seg: Seq<char>|
            match param_of(seg) {
                Some(n) => SegmentView::Param(n),
                None => SegmentView::Static(seg),
            },
    )
}

/// Parameters bound by the first `n` segments, or `None` at a static mismatch.
pub open spec fn match_prefix(pat: Seq<SegmentView>, parts: Seq<Seq<char>>, n: nat) -> Option<Map<Seq<char>, Seq<char>>>
    decreases n,
{
    if n == 0 {
        Some(Map::empty())
    } else {
        match match_prefix(pat, parts, (n - 1) as nat) {
            None => None,
            Some(m) => match pat[n - 1] {
                SegmentView::Static(s) => if s == parts[n - 1] {
                    Some(m)
                } else {
                    None
                },
                SegmentView::Param(name) => Some(m.insert(name, parts[n - 1])),
            },
        }
    }
}

/// The parameters of `parts` under `pat`, when they match.
pub open spec fn matched(pat: Seq<SegmentView>, parts: Seq<Seq<char>>) -> Option<Map<Seq<char>, Seq<char>>> {
    if pat.len() != parts.len() {
        None
    } else {
        match_prefix(pat, parts, pat.len())
    }
}

/// The segments of `path`.
pub fn split_path(path: &str) -> (r: Vec<String>)
    ensures
        r@.map_values(|s: String| s@) == path_segments(path@),
{
    let t = trim_matches(&chars_of(path), '/');
    let pieces = split_on(&t, '/');
    let ghost ps = pieces@.map_values(|v: Vec<char>| v@);
    let mut r: Vec<String> = Vec::new();
    let mut i: usize = 0;
    assert(ps.take(0) =~= Seq::<Seq<char>>::empty());
    assert(r@.map_values(|s: String| s@) =~= nonempty_parts(ps.take(0)));
    while i < pieces.len()
        invariant
            i <= pieces.len(),
            ps == pieces@.map_values(|v: Vec<char>| v@),
            r@.map_values(|s: String| s@) == nonempty_parts(ps.take(i as int)),
        decreases pieces.len() - i,
    {
        assert(ps.take(i + 1).drop_last() =~= ps.take(i as int));
        assert(ps.take(i + 1).last() == pieces@[i as int]@);
        if pieces[i].len() > 0 {
            let ghost before = r@;
            r.push(to_string(&pieces[i]));
            assert(r@.map_values(|s: String| s@) =~= before.map_values(|s: String| s@).push(
                pieces@[i as int]@,
            ));
        }
        i += 1;
    }
    assert(ps.take(pieces.len() as int) =~= ps);
    r
}

/// The name of a parameter segment (`{id}` or `[name]`).
pub fn param_name(seg: &str) -> (r: Option<String>)
    ensures
        match r {
            Some(n) => param_of(seg@) == Some(n@),
            None => param_of(seg@) is None,
        },
{
    let s = chars_of(seg);
    let n = s.len();
    if n > 2 && ((s[0] == '{' && s[n - 1] == '}') || (s[0] == '[' && s[n - 1] == ']')) {
        let inner = crate::text::subvec(&s, 1, n - 1);
        Some(to_string(&inner))
    } else {
        None
    }
}

/// The pattern of a route path.
pub fn parse_pattern(path: &str) -> (r: Vec<Segment>)
    ensures
        r@.map_values(|s: Segment| s@) == pattern_of(path@),
{
    let segs = split_path(path);
    let ghost sv = segs@.map_values(|s: String| s@);
    let mut r: Vec<Segment> = Vec::new();
    let mut i: usize = 0;
    while i < segs.len()
        invariant
            i <= segs.len(),
            sv == segs@.map_values(|s: String| s@),
            sv == path_segments(path@),
            r@.len() == i,
            forall|j: int| 0 <= j < i ==> #[trigger] r@[j]@ == (match param_of(sv[j]) {
                Some(n) => SegmentView::Param(n),
                None => SegmentView::Static(sv[j]),
            }),
        decreases segs.len() - i,
    {
        let seg = match param_name(segs[i].as_str()) {
            Some(name) => Segment::Param(name),
            None => Segment::Static(segs[i].clone()),
        };
        r.push(seg);
        i += 1;
    }
    assert(r@.map_values(|s: Segment| s@) =~= pattern_of(path@));
    r
}

/// The parameters of `path` under `pattern`, when they match.
pub fn match_segments(pattern: &Vec<Segment>, path: &Vec<String>) -> (r: Option<StrMap<String>>)
    ensures
        match r {
            Some(m) => matched(pattern@.map_values(|s: Segment| s@), path@.map_values(|s: String| s@))
                == Some(crate::http_error::text_map(m@)),
            None => matched(pattern@.map_values(|s: Segment| s@), path@.map_values(|s: String| s@)) is None,
        },
{
    let ghost pat = pattern@.map_values(|s: Segment| s@);
    let ghost parts = path@.map_values(|s: String| s@);
    if pattern.len() != path.len() {
        return None;
    }
    let mut params: StrMap<String> = StrMap::new();
    assert(crate::http_error::text_map(params@) =~= Map::<Seq<char>, Seq<char>>::empty());
    let mut i: usize = 0;
    while i < pattern.len()
        invariant
            i <= pattern.len(),
            pattern@.len() == path@.len(),
            pat == pattern@.map_values(|s: Segment| s@),
            parts == path@.map_values(|s: String| s@),
            match_prefix(pat, parts, i as nat) == Some(crate::http_error::text_map(params@)),
        decreases pattern.len() - i,
    {
        assert(pat[i as int] == pattern@[i as int]@);
        assert(parts[i as int] == path@[i as int]@);
        match &pattern[i] {
            Segment::Static(expected) => {
                if !chars_eq(&chars_of(expected.as_str()), &chars_of(path[i].as_str())) {
                    proof {
                        lemma_match_stays_none(pat, parts, (i + 1) as nat, pat.len());
                    }
                    return None;
                }
            },
            Segment::Param(name) => {
                let ghost before = crate::http_error::text_map(params@);
                params.insert(name.clone(), path[i].clone());
                assert(crate::http_error::text_map(params@) =~= before.insert(name@, path@[i as int]@));
            },
        }
        i += 1;
    }
    Some(params)
}

proof fn lemma_match_stays_none(pat: Seq<SegmentView>, parts: Seq<Seq<char>>, i: nat, n: nat)
    requires
        i <= n,
        match_prefix(pat, parts, i) is None,
    ensures
        match_prefix(pat, parts, n) is None,
    decreases n - i,
{
    if i < n {
        lemma_match_stays_none(pat, parts, i, (n - 1) as nat);
    }
}

/// Adapts a synchronous `Request -> Response` function into a handler.
pub struct SyncHandler<F>(pub F);

/// A registered route: uppercase method, pattern, and the host's handler.
pub struct Route<H> {
    pub method: String,
    pub segments: Vec<Segment>,
    pub handler: H,
}

/// A route as text.
pub open spec fn route_view<H>(r: Route<H>) -> (Seq<char>, Seq<SegmentView>) {
    (r.method@, r.segments@.map_values(|s: Segment| s@))
}

/// Routes in registration order.
pub struct Router<H> {
    routes: Vec<Route<H>>,
}

/// Route `r` answers `method` (already uppercase) on the path segments `parts`.
pub open spec fn answers(r: (Seq<char>, Seq<SegmentView>), method: Seq<char>, parts: Seq<Seq<char>>) -> bool {
    r.0 == method && matched(r.1, parts) is Some
}

impl<H> Router<H> {
    /// The routes as text, in registration order.
    pub closed spec fn table(&self) -> Seq<(Seq<char>, Seq<SegmentView>)> {
        self.routes@.map_values(|r: Route<H>| route_view(r))
    }

    /// The handlers, in registration order.
    pub closed spec fn handlers(&self) -> Seq<H> {
        self.routes@.map_values(|r: Route<H>| r.handler)
    }

    /// An empty table.
    pub fn new() -> (r: Router<H>)
        ensures
            r.table() == Seq::<(Seq<char>, Seq<SegmentView>)>::empty(),
            r.handlers() == Seq::<H>::empty(),
    {
        let r = Router { routes: Vec::new() };
        assert(r.table() =~= Seq::<(Seq<char>, Seq<SegmentView>)>::empty());
        assert(r.handlers() =~= Seq::<H>::empty());
        r
    }

    /// Number of routes.
    pub fn len(&self) -> (n: usize)
        ensures
            n == self.table().len(),
            n == self.handlers().len(),
    {
        self.routes.len()
    }

    /// Registers `handler` for `method` (uppercased) on the pattern `path`.
    pub fn route(&mut self, method: &str, path: &str, handler: H)
        ensures
            final(self).table() == old(self).table().push((unicode_upper(method@), pattern_of(path@))),
            final(self).handlers() == old(self).handlers().push(handler),
    {
        let m = to_uppercase(method);
        let segments = parse_pattern(path);
        let ghost t = self.table();
        let ghost hs = self.handlers();
        self.routes.push(Route { method: m, segments, handler });
        assert(self.table() =~= t.push((unicode_upper(method@), pattern_of(path@))));
        assert(self.handlers() =~= hs.push(handler));
    }

    /// The handler of route `i`.
    pub fn handler(&self, i: usize) -> (h: &H)
        requires
            i < self.handlers().len(),
        ensures
            *h == self.handlers()[i as int],
    {
        &self.routes[i].handler
    }

    /// The first route, in registration order, that answers `method` on
    /// `path`, with the path parameters it binds.
    pub fn lookup(&self, method: &str, path: &str) -> (r: Option<(usize, StrMap<String>)>)
        ensures
            match r {
                Some((i, params)) => {
                    &&& i < self.table().len()
                    &&& answers(self.table()[i as int], unicode_upper(method@), path_segments(path@))
                    &&& forall|j: int| 0 <= j < i ==> !answers(#[trigger] self.table()[j], unicode_upper(method@), path_segments(path@))
                    &&& matched(self.table()[i as int].1, path_segments(path@)) == Some(crate::http_error::text_map(params@))
                },
                None => forall|j: int| 0 <= j < self.table().len() ==> !answers(#[trigger] self.table()[j], unicode_upper(method@), path_segments(path@)),
            },
    {
        let m = to_uppercase(method);
        let mc = chars_of(m.as_str());
        let parts = split_path(path);
        let mut i: usize = 0;
        while i < self.routes.len()
            invariant
                i <= self.routes@.len(),
                mc@ == unicode_upper(method@),
                parts@.map_values(|s: String| s@) == path_segments(path@),
                forall|j: int| 0 <= j < i ==> !answers(#[trigger] self.table()[j], unicode_upper(method@), path_segments(path@)),
            decreases self.routes@.len() - i,
        {
            let route = &self.routes[i];
            assert(self.table()[i as int] == route_view(self.routes@[i as int]));
            if chars_eq(&chars_of(route.method.as_str()), &mc) {
                if let Some(params) = match_segments(&route.segments, &parts) {
                    return Some((i, params));
                }
            }
            i += 1;
        }
        None
    }
}

/// The first route of `t`, in registration order, that answers `method` on
/// the path segments `parts`.
pub open spec fn first_route(t: Seq<(Seq<char>, Seq<SegmentView>)>, method: Seq<char>, parts: Seq<Seq<char>>) -> Option<int>
    decreases t.len(),
{
    if t.len() == 0 {
        None
    } else {
        match first_route(t.drop_last(), method, parts) {
            Some(i) => Some(i),
            None => if answers(t.last(), method, parts) {
                Some(t.len() - 1)
            } else {
                None
            },
        }
    }
}

proof fn lemma_first_route(t: Seq<(Seq<char>, Seq<SegmentView>)>, method: Seq<char>, parts: Seq<Seq<char>>, i: int)
    requires
        0 <= i <= t.len(),
        forall|j: int| 0 <= j < i ==> !answers(#[trigger] t[j], method, parts),
    ensures
        i < t.len() && answers(t[i], method, parts) ==> first_route(t, method, parts) == Some(i),
        i == t.len() ==> first_route(t, method, parts) is None,
    decreases t.len(),
{
    if t.len() > 0 {
        let u = t.drop_last();
        if i < t.len() {
            if i < u.len() {
                assert forall|j: int| 0 <= j < i implies !answers(#[trigger] u[j], method, parts) by {
                    assert(u[j] == t[j]);
                }
                lemma_first_route(u, method, parts, i);
                if answers(t[i], method, parts) {
                    assert(u[i] == t[i]);
                }
            } else {
                assert forall|j: int| 0 <= j < u.len() implies !answers(#[trigger] u[j], method, parts) by {
                    assert(u[j] == t[j]);
                }
                lemma_first_route(u, method, parts, u.len() as int);
            }
        } else {
            assert forall|j: int| 0 <= j < u.len() implies !answers(#[trigger] u[j], method, parts) by {
                assert(u[j] == t[j]);
            }
            lemma_first_route(u, method, parts, u.len() as int);
        }
    }
}

impl<F: Fn(Request) -> Response> Router<SyncHandler<F>> {
    /// Runs the handler of the first route that answers the request, with
    /// the path parameters it binds; `404 Not Found` when no route answers.
    pub fn dispatch(&self, req: Request) -> (r: Response)
        requires
            forall|i: int, q: Request| 0 <= i < self.handlers().len() ==> #[trigger] call_requires(self.handlers()[i].0, (q,)),
        ensures
            match first_route(self.table(), unicode_upper(req.method@), path_segments(req.path@)) {
                Some(i) => exists|q: Request| {
                    &&& q.method == req.method
                    &&& q.path == req.path
                    &&& q.headers == req.headers
                    &&& q.body == req.body
                    &&& q.query == req.query
                    &&& matched(self.table()[i].1, path_segments(req.path@)) == Some(crate::http_error::text_map(q.params@))
                    &&& call_ensures(self.handlers()[i].0, (q,), r)
                },
                None => r@ == (ResponseView {
                    status: 404,
                    headers: Seq::empty(),
                    body: utf8("Not Found"@),
                    suppress: Seq::empty(),
                }),
            },
    {
        match self.lookup(req.method.as_str(), req.path.as_str()) {
            Some((i, params)) => {
                proof {
                    lemma_first_route(self.table(), unicode_upper(req.method@), path_segments(req.path@), i as int);
                }
                let q = req.with_params(params);
                let h = &self.routes[i].handler;
                assert(self.handlers()[i as int] == *h);
                let r = (h.0)(q);
                r
            },
            None => {
                proof {
                    lemma_first_route(self.table(), unicode_upper(req.method@), path_segments(req.path@), self.table().len() as int);
                }
                Response::not_found()
            },
        }
    }
}

proof fn lemma_nonempty_parts(ps: Seq<Seq<char>>)
    ensures
        forall|i: int| 0 <= i < nonempty_parts(ps).len() ==> #[trigger] nonempty_parts(ps)[i].len() > 0,
    decreases ps.len(),
{
    if ps.len() > 0 {
        let rest = nonempty_parts(ps.drop_last());
        lemma_nonempty_parts(ps.drop_last());
        if ps.last().len() > 0 {
            assert forall|i: int| 0 <= i < rest.push(ps.last()).len() implies #[trigger] rest.push(ps.last())[i].len() > 0 by {
                if i < rest.len() {
                    assert(rest.push(ps.last())[i] == rest[i]);
                }
            }
        }
    }
}

/// Path segments are never empty.
pub proof fn law_path_segments_nonempty(path: Seq<char>)
    ensures
        forall|i: int| 0 <= i < path_segments(path).len() ==> #[trigger] path_segments(path)[i].len() > 0,
{
    lemma_nonempty_parts(split_char(trim_char(path, '/'), '/'));
}

proof fn lemma_static_prefix(pat: Seq<SegmentView>, parts: Seq<Seq<char>>, n: nat)
    requires
        n <= pat.len(),
        pat.len() == parts.len(),
        forall|i: int| 0 <= i < pat.len() ==> #[trigger] pat[i] == SegmentView::Static(parts[i]),
    ensures
        match_prefix(pat, parts, n) == Some(Map::<Seq<char>, Seq<char>>::empty()),
    decreases n,
{
    if n > 0 {
        lemma_static_prefix(pat, parts, (n - 1) as nat);
        assert(pat[n - 1] == SegmentView::Static(parts[n - 1]));
    }
}

/// A route whose pattern has no parameter segments answers exactly the path
/// it was registered with, binding nothing.
pub proof fn law_static_pattern_matches_its_path(path: Seq<char>)
    requires
        forall|i: int| 0 <= i < path_segments(path).len() ==> param_of(#[trigger] path_segments(path)[i]) is None,
    ensures
        matched(pattern_of(path), path_segments(path)) == Some(Map::<Seq<char>, Seq<char>>::empty()),
{
    let segs = path_segments(path);
    let pat = pattern_of(path);
    assert forall|i: int| 0 <= i < pat.len() implies #[trigger] pat[i] == SegmentView::Static(segs[i]) by {
        assert(param_of(segs[i]) is None);
    }
    lemma_static_prefix(pat, segs, pat.len());
}

/// The route `dispatch` and `lookup` pick is the first registered route that
/// answers: it answers, and no earlier one does; when none is picked, no
/// route answers.
pub proof fn law_first_answering_route_wins(t: Seq<(Seq<char>, Seq<SegmentView>)>, method: Seq<char>, parts: Seq<Seq<char>>)
    ensures
        match first_route(t, method, parts) {
            Some(i) => 0 <= i < t.len() && answers(t[i], method, parts) && forall|j: int|
                0 <= j < i ==> !answers(#[trigger] t[j], method, parts),
            None => forall|j: int| 0 <= j < t.len() ==> !answers(#[trigger] t[j], method, parts),
        },
    decreases t.len(),
{
    if t.len() > 0 {
        let u = t.drop_last();
        law_first_answering_route_wins(u, method, parts);
        assert forall|j: int| 0 <= j < u.len() implies #[trigger] u[j] == t[j] by {}
        match first_route(u, method, parts) {
            Some(i) => {
                assert forall|j: int| 0 <= j < i implies !answers(#[trigger] t[j], method, parts) by {
                    assert(u[j] == t[j]);
                }
                assert(u[i] == t[i]);
            },
            None => {
                assert forall|j: int| 0 <= j < t.len() - 1 implies !answers(#[trigger] t[j], method, parts) by {
                    assert(u[j] == t[j]);
                }
            },
        }
    }
}

} // verus!
