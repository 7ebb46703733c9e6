//! The request view handed to class-based API handlers.

use vstd::prelude::*;

use crate::dispatch::build_response;
use crate::headers::{map_of_pairs, text_map};
use crate::http_error::envelope;
use crate::json::JsonValue;
use crate::request::{utf8_lossy, Request};
use crate::strmap::StrMap;
use crate::text::{ascii_upper_seq, ascii_uppercase, chars_of, to_string};

verus! {

/// Language-neutral request context for class-based API handlers.
#[derive(Debug)]
pub struct ApiContext {
    pub method: String,
    pub path: String,
    pub body: String,
    pub headers: StrMap<String>,
    pub params: StrMap<String>,
    pub query: StrMap<String>,
    /// Values the host attaches for the handler; a request carries none.
    pub state: StrMap<JsonValue>,
}

/// The header pairs of a request as text.
pub open spec fn header_pairs(hs: Seq<(String, String)>) -> Seq<(Seq<char>, Seq<char>)> {
    hs.map_values(|p: (String, String)| (p.0@, p.1@))
}

fn header_lookup(hs: &Vec<(String, String)>) -> (m: StrMap<String>)
    ensures
        text_map(m@) == map_of_pairs(header_pairs(hs@)),
{
    let ghost ps = header_pairs(hs@);
    let mut map: StrMap<String> = StrMap::new();
    let mut i: usize = 0;
    assert(text_map(map@) =~= map_of_pairs(ps.take(0)));
    while i < hs.len()
        invariant
            i <= hs@.len(),
            ps == header_pairs(hs@),
            text_map(map@) == map_of_pairs(ps.take(i as int)),
        decreases hs@.len() - i,
    {
        assert(ps.take(i + 1).drop_last() =~= ps.take(i as int));
        map.insert(hs[i].0.clone(), hs[i].1.clone());
        assert(text_map(map@) =~= map_of_pairs(ps.take(i + 1)));
        i += 1;
    }
    assert(ps.take(hs@.len() as int) =~= ps);
    map
}

impl ApiContext {
    /// The context of `req`: its method in ASCII uppercase, path, body as
    /// text, headers by name (a later duplicate wins), path and query
    /// parameters, and no state.
    pub fn from_request(req: &Request) -> (c: ApiContext)
        ensures
            c.method@ == ascii_upper_seq(req.method@),
            c.path@ == req.path@,
            c.body@ == utf8_lossy(req.body@),
            text_map(c.headers@) == map_of_pairs(header_pairs(req.headers@)),
            c.params.pairs() == req.params.pairs(),
            c.query.pairs() == req.query.pairs(),
            c.state@ == Map::<Seq<char>, JsonValue>::empty(),
    {
        ApiContext {
            method: to_string(&ascii_uppercase(&chars_of(req.method.as_str()))),
            path: req.path.clone(),
            body: req.body_str(),
            headers: header_lookup(&req.headers),
            params: req.params.clone(),
            query: req.query.clone(),
            state: StrMap::new(),
        }
    }

    /// The response envelope of `body` with `status` and `headers`.
    pub fn response(body: JsonValue, status: u16, headers: StrMap<String>) -> (r: JsonValue)
        ensures
            r@ == envelope(status, body@, crate::http_error::text_map(headers@)),
    {
        build_response(body, status, headers)
    }
}

} // verus!
