//! The response a handler returns: status, headers in order, body bytes, and
//! the identity headers that wire-level fingerprinting must not add back.

use vstd::prelude::*;

verus! {

/// An HTTP response.
#[derive(Debug)]
pub struct Response {
    pub status: u16,
    pub headers: Vec<(String, String)>,
    pub body: Vec<u8>,
    /// Header names that must not be re-injected by wire-level fingerprinting.
    pub suppress_headers: Vec<String>,
}

/// The mathematical response: header pairs and suppressed names as text.
pub struct ResponseView {
    pub status: u16,
    pub headers: Seq<(Seq<char>, Seq<char>)>,
    pub body: Seq<u8>,
    pub suppress: Seq<Seq<char>>,
}

/// Header pairs as text.
pub open spec fn header_texts(hs: Seq<(String, String)>) -> Seq<(Seq<char>, Seq<char>)> {
    hs.map_values(|p: (String, String)| (p.0@, p.1@))
}

/// Names as text.
pub open spec fn name_texts(ns: Seq<String>) -> Seq<Seq<char>> {
    ns.map_values(|n: String| n@)
}

/// The UTF-8 bytes of a text.
pub open spec fn utf8(s: Seq<char>) -> Seq<u8> {
    vstd::utf8::encode_utf8(s)
}

impl Response {
    /// The mathematical response.
    pub open spec fn view(&self) -> ResponseView {
        ResponseView {
            status: self.status,
            headers: header_texts(self.headers@),
            body: self.body@,
            suppress: name_texts(self.suppress_headers@),
        }
    }

    /// A response with no headers.
    pub fn new(status: u16, body: Vec<u8>) -> (r: Response)
        ensures
            r@ == (ResponseView {
                status,
                headers: Seq::empty(),
                body: body@,
                suppress: Seq::empty(),
            }),
    {
        let r = Response { status, headers: Vec::new(), body, suppress_headers: Vec::new() };
        assert(header_texts(r.headers@) =~= Seq::empty());
        assert(name_texts(r.suppress_headers@) =~= Seq::empty());
        r
    }

    /// A `200` response.
    pub fn ok(body: Vec<u8>) -> (r: Response)
        ensures
            r@ == (ResponseView {
                status: 200,
                headers: Seq::empty(),
                body: body@,
                suppress: Seq::empty(),
            }),
    {
        Self::new(200, body)
    }

    /// `404 Not Found`.
    pub fn not_found() -> (r: Response)
        ensures
            r@ == (ResponseView {
                status: 404,
                headers: Seq::empty(),
                body: utf8("Not Found"@),
                suppress: Seq::empty(),
            }),
    {
        Self::new(404, "Not Found".as_bytes_vec())
    }

    /// A plain-text response (`text/plain; charset=utf-8`).
    pub fn text(status: u16, body: &str) -> (r: Response)
        ensures
            r@ == (ResponseView {
                status,
                headers: seq![("content-type"@, "text/plain; charset=utf-8"@)],
                body: utf8(body@),
                suppress: Seq::empty(),
            }),
    {
        let r = Self::new(status, body.as_bytes_vec());
        r.with_header("content-type", "text/plain; charset=utf-8")
    }

    /// The same response with one more header.
    pub fn with_header(self, name: &str, value: &str) -> (r: Response)
        ensures
            r@ == (ResponseView {
                headers: self@.headers.push((name@, value@)),
                ..self@
            }),
    {
        let mut res = self;
        let ghost hs = res.headers@;
        res.headers.push((name.to_string(), value.to_string()));
        assert(header_texts(res.headers@) =~= header_texts(hs).push((name@, value@)));
        res
    }
}

} // verus!
