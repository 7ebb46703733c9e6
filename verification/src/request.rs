//! The request as handlers see it, and query-string parsing: `&`-separated
//! pairs, first value of a key wins, best-effort percent decoding of keys and
//! values.

use vstd::prelude::*;

use crate::strmap::StrMap;
use crate::text::{chars_of, index_of, lemma_split_char_nonempty, split_char, subvec, to_string};

verus! {

/// Value of an ASCII hex digit.
pub open spec fn hex_value(b: u8) -> Option<u8> {
    if 48 <= b && b <= 57 {
        Some((b - 48) as u8)
    } else if 97 <= b && b <= 102 {
        Some((b - 97 + 10) as u8)
    } else if 65 <= b && b <= 70 {
        Some((b - 65 + 10) as u8)
    } else {
        None
    }
}

/// Percent decoding of bytes: `+` is a space, `%` followed by two hex digits
/// `X` and `Y` is the byte `0xXY`, and anything else (a `%` without two hex
/// digits after it among them) is kept.
pub open spec fn percent_decoded(b: Seq<u8>) -> Seq<u8>
    decreases b.len(),
{
    if b.len() == 0 {
        Seq::empty()
    } else if b[0] == 43 {
        seq![32u8] + percent_decoded(b.skip(1))
    } else if b[0] == 37 && 2 < b.len() && hex_value(b[1]) is Some && hex_value(b[2]) is Some {
        seq![(hex_value(b[1])->0 * 16 + hex_value(b[2])->0) as u8] + percent_decoded(b.skip(3))
    } else {
        seq![b[0]] + percent_decoded(b.skip(1))
    }
}

/// Text that `String::from_utf8_lossy` makes of `b`.
pub uninterp spec fn utf8_lossy(b: Seq<u8>) -> Seq<char>;

/// Percent decoding of text: UTF-8 bytes decoded, then read back lossily.
pub open spec fn decoded_text(s: Seq<char>) -> Seq<char> {
    utf8_lossy(percent_decoded(vstd::utf8::encode_utf8(s)))
}

/// Key part of a `key=value` piece.
pub open spec fn key_part(p: Seq<char>) -> Seq<char> {
    if index_of(p, '=') >= 0 {
        p.take(index_of(p, '='))
    } else {
        p
    }
}

/// Value part of a `key=value` piece (empty without `=`).
pub open spec fn value_part(p: Seq<char>) -> Seq<char> {
    if index_of(p, '=') >= 0 {
        p.skip(index_of(p, '=') + 1)
    } else {
        Seq::empty()
    }
}

/// The query map built from pieces, left to right; the first value of a key wins.
pub open spec fn query_map(ps: Seq<Seq<char>>) -> Map<Seq<char>, Seq<char>>
    decreases ps.len(),
{
    if ps.len() == 0 {
        Map::empty()
    } else {
        let m = query_map(ps.drop_last());
        let p = ps.last();
        let k = decoded_text(key_part(p));
        if p.len() == 0 || k.len() == 0 || m.contains_key(k) {
            m
        } else {
            m.insert(k, decoded_text(value_part(p)))
        }
    }
}

/// The map that `parse_query` returns for `raw`.
pub open spec fn parsed_query(raw: Seq<char>) -> Map<Seq<char>, Seq<char>> {
    if raw.len() == 0 {
        Map::empty()
    } else {
        query_map(split_char(raw, '&'))
    }
}

/// `String::from_utf8_lossy`: invalid sequences become U+FFFD; valid UTF-8 is decoded.
#[verifier::external_body]
pub(crate) fn string_from_utf8_lossy(b: &Vec<u8>) -> (s: String)
    ensures
        s@ == utf8_lossy(b@),
        vstd::utf8::valid_utf8(b@) ==> s@ == vstd::utf8::decode_utf8(b@),
{
    String::from_utf8_lossy(b).into_owned()
}

/// An HTTP request: method, path, headers, raw body, and the path and query
/// parameters found for it.
#[derive(Debug)]
pub struct Request {
    pub method: String,
    pub path: String,
    pub headers: Vec<(String, String)>,
    pub body: Vec<u8>,
    pub params: StrMap<String>,
    pub query: StrMap<String>,
}

impl Request {
    /// A request without path or query parameters.
    pub fn new(method: &str, path: &str, headers: Vec<(String, String)>, body: Vec<u8>) -> (r: Request)
        ensures
            r.method@ == method@,
            r.path@ == path@,
            r.headers == headers,
            r.body == body,
            r.params@ == Map::<Seq<char>, String>::empty(),
            r.query@ == Map::<Seq<char>, String>::empty(),
    {
        Request {
            method: method.to_string(),
            path: path.to_string(),
            headers,
            body,
            params: StrMap::new(),
            query: StrMap::new(),
        }
    }

    /// The same request with path parameters `params`.
    pub fn with_params(self, params: StrMap<String>) -> (r: Request)
        ensures
            r.method == self.method,
            r.path == self.path,
            r.headers == self.headers,
            r.body == self.body,
            r.params == params,
            r.query == self.query,
    {
        Request { params, ..self }
    }

    /// The same request with query parameters `query`.
    pub fn with_query(self, query: StrMap<String>) -> (r: Request)
        ensures
            r.method == self.method,
            r.path == self.path,
            r.headers == self.headers,
            r.body == self.body,
            r.params == self.params,
            r.query == query,
    {
        Request { query, ..self }
    }

    /// The body as text, invalid UTF-8 replaced (`String::from_utf8_lossy`).
    pub fn body_str(&self) -> (s: String)
        ensures
            s@ == utf8_lossy(self.body@),
    {
        string_from_utf8_lossy(&self.body)
    }
}

/// Value of an ASCII hex digit.
pub fn hex_nibble(b: u8) -> (r: Option<u8>)
    ensures
        r == hex_value(b),
{
    if 48 <= b && b <= 57 {
        Some(b - 48)
    } else if 97 <= b && b <= 102 {
        Some(b - 97 + 10)
    } else if 65 <= b && b <= 70 {
        Some(b - 65 + 10)
    } else {
        None
    }
}

fn percent_decode_bytes(bytes: &[u8]) -> (out: Vec<u8>)
    ensures
        out@ == percent_decoded(bytes@),
{
    let mut out: Vec<u8> = Vec::new();
    let mut i: usize = 0;
    assert(bytes@.skip(0) =~= bytes@);
    while i < bytes.len()
        invariant
            i <= bytes.len(),
            out@ + percent_decoded(bytes@.skip(i as int)) == percent_decoded(bytes@),
        decreases bytes.len() - i,
    {
        let ghost rest = bytes@.skip(i as int);
        let ghost prev = out@;
        let b = bytes[i];
        assert(rest[0] == b);
        if b == 43 {
            out.push(32);
            assert(rest.skip(1) =~= bytes@.skip(i + 1));
            assert(out@ + percent_decoded(bytes@.skip(i + 1)) =~= prev + percent_decoded(rest));
            i += 1;
        } else if b == 37 && 2 < bytes.len() - i {
            let h = hex_nibble(bytes[i + 1]);
            let l = hex_nibble(bytes[i + 2]);
            assert(rest[1] == bytes@[i + 1] && rest[2] == bytes@[i + 2]);
            match (h, l) {
                (Some(h), Some(l)) => {
                    let v = (h << 4) | l;
                    assert(v == h * 16 + l) by (bit_vector)
                        requires
                            h < 16 && l < 16 && v == (h << 4) | l,
                    ;
                    out.push(v);
                    assert(rest.skip(3) =~= bytes@.skip(i + 3));
                    assert(out@ + percent_decoded(bytes@.skip(i + 3)) =~= prev + percent_decoded(
                        rest,
                    ));
                    i += 3;
                },
                _ => {
                    out.push(b);
                    assert(rest.skip(1) =~= bytes@.skip(i + 1));
                    assert(out@ + percent_decoded(bytes@.skip(i + 1)) =~= prev + percent_decoded(
                        rest,
                    ));
                    i += 1;
                },
            }
        } else {
            out.push(b);
            assert(rest.skip(1) =~= bytes@.skip(i + 1));
            assert(out@ + percent_decoded(bytes@.skip(i + 1)) =~= prev + percent_decoded(rest));
            i += 1;
        }
    }
    assert(bytes@.skip(i as int) =~= Seq::<u8>::empty());
    assert(out@ + Seq::<u8>::empty() =~= out@);
    out
}

/// Best-effort percent decoding of a query key or value.
pub fn percent_decode(input: &str) -> (r: String)
    ensures
        r@ == decoded_text(input@),
{
    let bytes = input.as_bytes();
    let out = percent_decode_bytes(bytes);
    string_from_utf8_lossy(&out)
}

/// Splits `s` on every `c`.
pub fn split_on(s: &Vec<char>, c: char) -> (r: Vec<Vec<char>>)
    ensures
        r@.map_values(|v: Vec<char>| v@) == split_char(s@, c),
{
    let mut parts: Vec<Vec<char>> = Vec::new();
    let mut cur: Vec<char> = Vec::new();
    let mut i: usize = 0;
    assert(s@.take(0) =~= Seq::<char>::empty());
    assert(parts@.map_values(|v: Vec<char>| v@).push(cur@) =~= split_char(Seq::<char>::empty(), c));
    while i < s.len()
        invariant
            i <= s.len(),
            parts@.map_values(|v: Vec<char>| v@).push(cur@) == split_char(s@.take(i as int), c),
        decreases s.len() - i,
    {
        let ghost t = s@.take(i + 1);
        assert(t.drop_last() =~= s@.take(i as int));
        assert(t.last() == s@[i as int]);
        proof {
            lemma_split_char_nonempty(s@.take(i as int), c);
        }
        if s[i] == c {
            let done = cur;
            parts.push(done);
            cur = Vec::new();
            assert(parts@.map_values(|v: Vec<char>| v@).push(cur@) =~= split_char(t, c));
        } else {
            let ghost prev = parts@.map_values(|v: Vec<char>| v@).push(cur@);
            cur.push(s[i]);
            assert(parts@.map_values(|v: Vec<char>| v@).push(cur@) =~= prev.update(
                prev.len() - 1,
                prev.last().push(s@[i as int]),
            ));
        }
        i += 1;
    }
    assert(s@.take(s.len() as int) =~= s@);
    parts.push(cur);
    parts
}

/// `key=value` split of a piece at its first `=`.
fn split_pair(p: &Vec<char>) -> (r: (Vec<char>, Vec<char>))
    ensures
        r.0@ == key_part(p@),
        r.1@ == value_part(p@),
{
    let mut i: usize = 0;
    while i < p.len() && p[i] != '='
        invariant
            i <= p.len(),
            forall|j: int| 0 <= j < i ==> p@[j] != '=',
        decreases p.len() - i,
    {
        i += 1;
    }
    proof {
        crate::text::lemma_index_of_is(p@, '=', i as int);
    }
    if i < p.len() {
        assert(p@.take(i as int) =~= p@.subrange(0, i as int));
        assert(p@.skip(i + 1) =~= p@.subrange(i + 1, p@.len() as int));
        (subvec(p, 0, i), subvec(p, i + 1, p.len()))
    } else {
        assert(p@.subrange(0, p@.len() as int) =~= p@);
        (subvec(p, 0, p.len()), Vec::new())
    }
}

/// Parse an HTTP query string into key/value pairs.
/// Duplicate keys keep the first value; values are percent-decoded best-effort.
pub fn parse_query(raw: &str) -> (out: StrMap<String>)
    ensures
        out@.dom() == parsed_query(raw@).dom(),
        forall|k: Seq<char>| #[trigger] out@.contains_key(k) ==> out@[k]@ == parsed_query(raw@)[k],
{
    let mut out: StrMap<String> = StrMap::new();
    let r = chars_of(raw);
    if r.len() == 0 {
        assert(out@.dom() =~= parsed_query(raw@).dom());
        return out;
    }
    let pieces = split_on(&r, '&');
    let ghost ps = pieces@.map_values(|v: Vec<char>| v@);
    let mut i: usize = 0;
    assert(ps.take(0) =~= Seq::<Seq<char>>::empty());
    assert(out@.dom() =~= query_map(ps.take(0)).dom());
    while i < pieces.len()
        invariant
            i <= pieces.len(),
            ps == pieces@.map_values(|v: Vec<char>| v@),
            ps == split_char(raw@, '&'),
            out@.dom() == query_map(ps.take(i as int)).dom(),
            forall|k: Seq<char>| #[trigger]
                out@.contains_key(k) ==> out@[k]@ == query_map(ps.take(i as int))[k],
        decreases pieces.len() - i,
    {
        let ghost t = ps.take(i + 1);
        assert(t.drop_last() =~= ps.take(i as int));
        assert(t.last() == pieces@[i as int]@);
        let piece = &pieces[i];
        if piece.len() > 0 {
            let (k, v) = split_pair(piece);
            let ks = to_string(&k);
            let key = percent_decode(ks.as_str());
            let kc = chars_of(key.as_str());
            if kc.len() > 0 {
                let vs = to_string(&v);
                let value = percent_decode(vs.as_str());
                let ghost before = out@;
                let stored = out.insert_if_absent(key, value);
                proof {
                    if stored {
                        assert(out@.dom() =~= query_map(t).dom());
                    } else {
                        assert(out@ == before);
                    }
                }
            }
        }
        i += 1;
    }
    assert(ps.take(pieces.len() as int) =~= ps);
    out
}

/// Piece `p` of a query names the key `k`: it is not empty and its key part
/// decodes to `k`.
pub open spec fn piece_names(p: Seq<char>, k: Seq<char>) -> bool {
    p.len() > 0 && decoded_text(key_part(p)) == k
}

/// In the map built from query pieces, a key is present exactly when it is
/// non-empty and some piece names it, and its value is the decoded value of
/// the first piece that names it.
pub proof fn law_query_first_piece_wins(ps: Seq<Seq<char>>, k: Seq<char>)
    ensures
        query_map(ps).contains_key(k) <==> k.len() > 0 && exists|i: int| 0 <= i < ps.len() && piece_names(#[trigger] ps[i], k),
        query_map(ps).contains_key(k) ==> exists|i: int|
            0 <= i < ps.len() && piece_names(#[trigger] ps[i], k) && query_map(ps)[k] == decoded_text(value_part(ps[i]))
                && forall|j: int| 0 <= j < i ==> !piece_names(#[trigger] ps[j], k),
    decreases ps.len(),
{
    if ps.len() > 0 {
        let qs = ps.drop_last();
        law_query_first_piece_wins(qs, k);
        let p = ps.last();
        assert forall|j: int| 0 <= j < qs.len() implies #[trigger] qs[j] == ps[j] by {}
        if query_map(qs).contains_key(k) {
            let i = choose|i: int|
                0 <= i < qs.len() && piece_names(#[trigger] qs[i], k) && query_map(qs)[k] == decoded_text(value_part(qs[i]))
                    && forall|j: int| 0 <= j < i ==> !piece_names(#[trigger] qs[j], k);
            assert(ps[i] == qs[i]);
            assert forall|j: int| 0 <= j < i implies !piece_names(#[trigger] ps[j], k) by {
                assert(ps[j] == qs[j]);
            }
        } else {
            assert forall|j: int| 0 <= j < qs.len() implies !(k.len() > 0 && piece_names(#[trigger] ps[j], k)) by {
                assert(ps[j] == qs[j]);
                if k.len() > 0 && piece_names(ps[j], k) {
                    assert(piece_names(qs[j], k));
                }
            }
            if k.len() > 0 && piece_names(p, k) {
                assert(ps[ps.len() - 1] == p);
                assert(query_map(ps).contains_key(k));
            }
            if query_map(ps).contains_key(k) {
                assert(piece_names(ps[ps.len() - 1], k));
            }
        }
    }
}

/// `parse_query` reads `raw` as `&`-separated pieces: a key is present
/// exactly when it is non-empty and named by some piece, with the decoded
/// value of the first piece that names it; empty text has no keys.
pub proof fn law_parse_query_first_value_wins(raw: Seq<char>, k: Seq<char>)
    ensures
        raw.len() == 0 ==> !parsed_query(raw).contains_key(k),
        raw.len() > 0 ==> (parsed_query(raw).contains_key(k) <==> k.len() > 0 && exists|i: int|
            0 <= i < split_char(raw, '&').len() && piece_names(#[trigger] split_char(raw, '&')[i], k)),
        raw.len() > 0 && parsed_query(raw).contains_key(k) ==> exists|i: int|
            0 <= i < split_char(raw, '&').len() && piece_names(#[trigger] split_char(raw, '&')[i], k)
                && parsed_query(raw)[k] == decoded_text(value_part(split_char(raw, '&')[i])) && forall|j: int|
                0 <= j < i ==> !piece_names(#[trigger] split_char(raw, '&')[j], k),
{
    law_query_first_piece_wins(split_char(raw, '&'), k);
}

/// The lowercase hex digit of `n` (`0`-`9`, `a`-`f`) as an ASCII byte.
pub open spec fn lower_hex_digit(n: u8) -> u8
    recommends
        n < 16,
{
    if n < 10 {
        (48 + n) as u8
    } else {
        (97 + (n - 10)) as u8
    }
}

/// The uppercase hex digit of `n` (`0`-`9`, `A`-`F`) as an ASCII byte.
pub open spec fn upper_hex_digit(n: u8) -> u8
    recommends
        n < 16,
{
    if n < 10 {
        (48 + n) as u8
    } else {
        (65 + (n - 10)) as u8
    }
}

/// Every hex digit, lowercase or uppercase, reads as its value, and a letter
/// reads the same in either case.
pub proof fn law_hex_digits_any_case(n: u8, b: u8)
    ensures
        n < 16 ==> hex_value(lower_hex_digit(n)) == Some(n),
        n < 16 ==> hex_value(upper_hex_digit(n)) == Some(n),
        65 <= b <= 90 ==> hex_value((b + 32) as u8) == hex_value(b),
{
}

/// Percent decoding is case-insensitive in the hex digits: an escape `%XY`
/// of any byte `x`, written with lowercase or with uppercase digits, decodes
/// to `x`, and decoding goes on after it.
pub proof fn law_percent_escape_any_case(x: u8, rest: Seq<u8>)
    ensures
        percent_decoded(seq![37u8, lower_hex_digit(x / 16), lower_hex_digit(x % 16)] + rest) == seq![x]
            + percent_decoded(rest),
        percent_decoded(seq![37u8, upper_hex_digit(x / 16), upper_hex_digit(x % 16)] + rest) == seq![x]
            + percent_decoded(rest),
{
    let hi: u8 = x / 16;
    let lo: u8 = x % 16;
    assert(hi < 16 && lo < 16 && hi * 16 + lo == x) by (nonlinear_arith)
        requires
            hi == x / 16,
            lo == x % 16,
    ;
    law_hex_digits_any_case(hi, 0);
    law_hex_digits_any_case(lo, 0);
    let a = seq![37u8, lower_hex_digit(hi), lower_hex_digit(lo)] + rest;
    let b = seq![37u8, upper_hex_digit(hi), upper_hex_digit(lo)] + rest;
    assert(a.skip(3) =~= rest);
    assert(b.skip(3) =~= rest);
    assert(a[0] == 37u8 && a[1] == lower_hex_digit(hi) && a[2] == lower_hex_digit(lo));
    assert(b[0] == 37u8 && b[1] == upper_hex_digit(hi) && b[2] == upper_hex_digit(lo));
}

} // verus!
