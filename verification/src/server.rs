//! What the HTTP server decides around each request: the request a handler
//! sees, identity headers on the way out, and how the access log colours a
//! status. Listening, reading bodies and writing to the terminal are the
//! host's part.

use vstd::prelude::*;

use crate::headers::{add_all_missing, apply_fingerprint_headers, fingerprint_pairs, header_views};
use crate::request::{parsed_query, parse_query, Request};
use crate::response::Response;
use crate::strmap::StrMap;

verus! {

/// Options for serving a router.
#[derive(Debug)]
pub struct ListenOptions {
    /// Add Fusion identity headers (`X-Powered-By`, …) on every response. Default: false.
    pub fingerprint: bool,
}

impl Default for ListenOptions {
    fn default() -> (o: Self)
        ensures
            !o.fingerprint,
    {
        ListenOptions { fingerprint: false }
    }
}

/// How the access log colours a status.
#[derive(Debug, Clone, Copy, PartialEq, Eq, Structural)]
pub enum StatusColor {
    Green,
    Yellow,
    Red,
    Magenta,
}

/// The colour of a status: 2xx green, 3xx yellow, 4xx and 5xx red, anything
/// else magenta.
pub open spec fn status_color_of(status: u16) -> StatusColor {
    if 200 <= status <= 299 {
        StatusColor::Green
    } else if 300 <= status <= 399 {
        StatusColor::Yellow
    } else if 400 <= status <= 599 {
        StatusColor::Red
    } else {
        StatusColor::Magenta
    }
}

/// The access-log colour of `status`.
pub fn status_color(status: u16) -> (c: StatusColor)
    ensures
        c == status_color_of(status),
{
    if 200 <= status && status <= 299 {
        StatusColor::Green
    } else if 300 <= status && status <= 399 {
        StatusColor::Yellow
    } else if 400 <= status && status <= 599 {
        StatusColor::Red
    } else {
        StatusColor::Magenta
    }
}

/// The request a handler sees for an incoming one: its method, path,
/// headers and body, with the query string parsed (an absent query is empty).
pub fn incoming_request(
    method: &str,
    path: &str,
    query: Option<&str>,
    headers: Vec<(String, String)>,
    body: Vec<u8>,
) -> (r: Request)
    ensures
        r.method@ == method@,
        r.path@ == path@,
        r.headers == headers,
        r.body == body,
        r.params@ == Map::<Seq<char>, String>::empty(),
        r.query@.dom() == parsed_query(match query {
            Some(q) => q@,
            None => Seq::<char>::empty(),
        }).dom(),
        forall|k: Seq<char>| #[trigger] r.query@.contains_key(k) ==> r.query@[k]@ == parsed_query(match query {
            Some(q) => q@,
            None => Seq::<char>::empty(),
        })[k],
{
    let q = match query {
        Some(q) => parse_query(q),
        None => StrMap::new(),
    };
    assert(parsed_query(Seq::<char>::empty()) =~= Map::<Seq<char>, Seq<char>>::empty());
    Request::new(method, path, headers, body).with_query(q)
}

/// The response as sent: with the identity headers added that are missing,
/// when the options ask for them.
pub fn outgoing_response(response: Response, options: &ListenOptions) -> (r: Response)
    ensures
        r.status == response.status,
        r.body == response.body,
        r.suppress_headers == response.suppress_headers,
        options.fingerprint ==> header_views(r.headers@) == add_all_missing(
            header_views(response.headers@),
            Seq::empty(),
            fingerprint_pairs(),
        ),
        !options.fingerprint ==> r.headers == response.headers,
{
    let mut res = response;
    if options.fingerprint {
        apply_fingerprint_headers(&mut res.headers);
    }
    res
}

} // verus!
