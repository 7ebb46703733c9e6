//! HTTP header name constants and value helpers shared by all language bindings.
//!
//! Constants are canonical header *names* (e.g. `CONTENT_TYPE` → `"Content-Type"`)
//! and common media types. Helpers build values (or name/value maps) that need
//! arguments — downloads, content types, redirects, identity headers.

use vstd::prelude::*;

use crate::strmap::StrMap;
use crate::text::{
    ascii_lower_seq, ascii_lowercase, chars_of, contains, contains_seq, eq_ignore_ascii_case,
    eq_ignore_case, extend, to_string, trim, trim_ws,
};

verus! {

pub const ACCEPT: &'static str = "Accept";
pub const ACCEPT_ENCODING: &'static str = "Accept-Encoding";
pub const ACCEPT_LANGUAGE: &'static str = "Accept-Language";
pub const AUTHORIZATION: &'static str = "Authorization";
pub const CACHE_CONTROL: &'static str = "Cache-Control";
pub const CONNECTION: &'static str = "Connection";
pub const CONTENT_DISPOSITION: &'static str = "Content-Disposition";
pub const CONTENT_ENCODING: &'static str = "Content-Encoding";
pub const CONTENT_LENGTH: &'static str = "Content-Length";
pub const CONTENT_RANGE: &'static str = "Content-Range";
pub const CONTENT_TYPE: &'static str = "Content-Type";
pub const COOKIE: &'static str = "Cookie";
pub const DATE: &'static str = "Date";
pub const ETAG: &'static str = "ETag";
pub const EXPECT: &'static str = "Expect";
pub const EXPIRES: &'static str = "Expires";
pub const HOST: &'static str = "Host";
pub const IF_MATCH: &'static str = "If-Match";
pub const IF_MODIFIED_SINCE: &'static str = "If-Modified-Since";
pub const IF_NONE_MATCH: &'static str = "If-None-Match";
pub const IF_RANGE: &'static str = "If-Range";
pub const IF_UNMODIFIED_SINCE: &'static str = "If-Unmodified-Since";
pub const LAST_MODIFIED: &'static str = "Last-Modified";
pub const LOCATION: &'static str = "Location";
pub const ORIGIN: &'static str = "Origin";
pub const PRAGMA: &'static str = "Pragma";
pub const RANGE: &'static str = "Range";
pub const REFERER: &'static str = "Referer";
pub const RETRY_AFTER: &'static str = "Retry-After";
pub const SERVER: &'static str = "Server";
pub const SET_COOKIE: &'static str = "Set-Cookie";
pub const TE: &'static str = "TE";
pub const TRAILER: &'static str = "Trailer";
pub const TRANSFER_ENCODING: &'static str = "Transfer-Encoding";
pub const UPGRADE: &'static str = "Upgrade";
pub const USER_AGENT: &'static str = "User-Agent";
pub const VARY: &'static str = "Vary";
pub const VIA: &'static str = "Via";
pub const WARNING: &'static str = "Warning";
pub const WWW_AUTHENTICATE: &'static str = "WWW-Authenticate";
pub const X_CONTENT_TYPE_OPTIONS: &'static str = "X-Content-Type-Options";
pub const X_FRAME_OPTIONS: &'static str = "X-Frame-Options";
pub const X_XSS_PROTECTION: &'static str = "X-XSS-Protection";
pub const X_REQUESTED_WITH: &'static str = "X-Requested-With";
pub const X_FORWARDED_FOR: &'static str = "X-Forwarded-For";
pub const X_FORWARDED_PROTO: &'static str = "X-Forwarded-Proto";
pub const X_REAL_IP: &'static str = "X-Real-IP";
pub const X_REQUEST_ID: &'static str = "X-Request-Id";
pub const X_CORRELATION_ID: &'static str = "X-Correlation-Id";
pub const STRICT_TRANSPORT_SECURITY: &'static str = "Strict-Transport-Security";
pub const REFERRER_POLICY: &'static str = "Referrer-Policy";
pub const PERMISSIONS_POLICY: &'static str = "Permissions-Policy";
pub const CONTENT_SECURITY_POLICY: &'static str = "Content-Security-Policy";
pub const CROSS_ORIGIN_OPENER_POLICY: &'static str = "Cross-Origin-Opener-Policy";
pub const CROSS_ORIGIN_RESOURCE_POLICY: &'static str = "Cross-Origin-Resource-Policy";
pub const CROSS_ORIGIN_EMBEDDER_POLICY: &'static str = "Cross-Origin-Embedder-Policy";
pub const ACCESS_CONTROL_ALLOW_ORIGIN: &'static str = "Access-Control-Allow-Origin";
pub const ACCESS_CONTROL_ALLOW_METHODS: &'static str = "Access-Control-Allow-Methods";
pub const ACCESS_CONTROL_ALLOW_HEADERS: &'static str = "Access-Control-Allow-Headers";
pub const ACCESS_CONTROL_ALLOW_CREDENTIALS: &'static str = "Access-Control-Allow-Credentials";
pub const ACCESS_CONTROL_EXPOSE_HEADERS: &'static str = "Access-Control-Expose-Headers";
pub const ACCESS_CONTROL_MAX_AGE: &'static str = "Access-Control-Max-Age";
pub const ACCESS_CONTROL_REQUEST_METHOD: &'static str = "Access-Control-Request-Method";
pub const ACCESS_CONTROL_REQUEST_HEADERS: &'static str = "Access-Control-Request-Headers";
pub const X_POWERED_BY: &'static str = "X-Powered-By";
pub const X_FRAMEWORK: &'static str = "X-Framework";
pub const X_FUSION_VERSION: &'static str = "X-Fusion-Version";
pub const FRAMEWORK_POWERED_BY: &'static str = "Fusion Framework";
pub const FRAMEWORK_ID: &'static str = "Fusion";
pub const APPLICATION_JSON: &'static str = "application/json";
pub const APPLICATION_JSON_UTF8: &'static str = "application/json; charset=utf-8";
pub const APPLICATION_OCTET_STREAM: &'static str = "application/octet-stream";
pub const APPLICATION_PDF: &'static str = "application/pdf";
pub const APPLICATION_XML: &'static str = "application/xml";
pub const APPLICATION_FORM_URLENCODED: &'static str = "application/x-www-form-urlencoded";
pub const MULTIPART_FORM_DATA: &'static str = "multipart/form-data";
pub const TEXT_PLAIN: &'static str = "text/plain";
pub const TEXT_PLAIN_UTF8: &'static str = "text/plain; charset=utf-8";
pub const TEXT_HTML: &'static str = "text/html";
pub const TEXT_HTML_UTF8: &'static str = "text/html; charset=utf-8";
pub const TEXT_CSS: &'static str = "text/css";
pub const TEXT_CSV: &'static str = "text/csv";
pub const TEXT_JAVASCRIPT: &'static str = "text/javascript";
pub const IMAGE_PNG: &'static str = "image/png";
pub const IMAGE_JPEG: &'static str = "image/jpeg";
pub const IMAGE_GIF: &'static str = "image/gif";
pub const IMAGE_WEBP: &'static str = "image/webp";
pub const IMAGE_SVG: &'static str = "image/svg+xml";

/// All `(CONST_NAME, header_name_or_value)` pairs for language bindings.
/// Includes header names and common media-type values.
pub fn http_header_constants() -> (r: Vec<(&'static str, &'static str)>)
    ensures
        r.len() == 88,
        r@[0].0@ == "ACCEPT"@ && r@[0].1@ == ACCEPT@,
        r@[10].0@ == "CONTENT_TYPE"@ && r@[10].1@ == CONTENT_TYPE@,
{
    vec![
        ("ACCEPT", ACCEPT),
        ("ACCEPT_ENCODING", ACCEPT_ENCODING),
        ("ACCEPT_LANGUAGE", ACCEPT_LANGUAGE),
        ("AUTHORIZATION", AUTHORIZATION),
        ("CACHE_CONTROL", CACHE_CONTROL),
        ("CONNECTION", CONNECTION),
        ("CONTENT_DISPOSITION", CONTENT_DISPOSITION),
        ("CONTENT_ENCODING", CONTENT_ENCODING),
        ("CONTENT_LENGTH", CONTENT_LENGTH),
        ("CONTENT_RANGE", CONTENT_RANGE),
        ("CONTENT_TYPE", CONTENT_TYPE),
        ("COOKIE", COOKIE),
        ("DATE", DATE),
        ("ETAG", ETAG),
        ("EXPECT", EXPECT),
        ("EXPIRES", EXPIRES),
        ("HOST", HOST),
        ("IF_MATCH", IF_MATCH),
        ("IF_MODIFIED_SINCE", IF_MODIFIED_SINCE),
        ("IF_NONE_MATCH", IF_NONE_MATCH),
        ("IF_RANGE", IF_RANGE),
        ("IF_UNMODIFIED_SINCE", IF_UNMODIFIED_SINCE),
        ("LAST_MODIFIED", LAST_MODIFIED),
        ("LOCATION", LOCATION),
        ("ORIGIN", ORIGIN),
        ("PRAGMA", PRAGMA),
        ("RANGE", RANGE),
        ("REFERER", REFERER),
        ("RETRY_AFTER", RETRY_AFTER),
        ("SERVER", SERVER),
        ("SET_COOKIE", SET_COOKIE),
        ("TE", TE),
        ("TRAILER", TRAILER),
        ("TRANSFER_ENCODING", TRANSFER_ENCODING),
        ("UPGRADE", UPGRADE),
        ("USER_AGENT", USER_AGENT),
        ("VARY", VARY),
        ("VIA", VIA),
        ("WARNING", WARNING),
        ("WWW_AUTHENTICATE", WWW_AUTHENTICATE),
        ("X_CONTENT_TYPE_OPTIONS", X_CONTENT_TYPE_OPTIONS),
        ("X_FRAME_OPTIONS", X_FRAME_OPTIONS),
        ("X_XSS_PROTECTION", X_XSS_PROTECTION),
        ("X_REQUESTED_WITH", X_REQUESTED_WITH),
        ("X_FORWARDED_FOR", X_FORWARDED_FOR),
        ("X_FORWARDED_PROTO", X_FORWARDED_PROTO),
        ("X_REAL_IP", X_REAL_IP),
        ("X_REQUEST_ID", X_REQUEST_ID),
        ("X_CORRELATION_ID", X_CORRELATION_ID),
        ("STRICT_TRANSPORT_SECURITY", STRICT_TRANSPORT_SECURITY),
        ("REFERRER_POLICY", REFERRER_POLICY),
        ("PERMISSIONS_POLICY", PERMISSIONS_POLICY),
        ("CONTENT_SECURITY_POLICY", CONTENT_SECURITY_POLICY),
        ("CROSS_ORIGIN_OPENER_POLICY", CROSS_ORIGIN_OPENER_POLICY),
        ("CROSS_ORIGIN_RESOURCE_POLICY", CROSS_ORIGIN_RESOURCE_POLICY),
        ("CROSS_ORIGIN_EMBEDDER_POLICY", CROSS_ORIGIN_EMBEDDER_POLICY),
        ("ACCESS_CONTROL_ALLOW_ORIGIN", ACCESS_CONTROL_ALLOW_ORIGIN),
        ("ACCESS_CONTROL_ALLOW_METHODS", ACCESS_CONTROL_ALLOW_METHODS),
        ("ACCESS_CONTROL_ALLOW_HEADERS", ACCESS_CONTROL_ALLOW_HEADERS),
        ("ACCESS_CONTROL_ALLOW_CREDENTIALS", ACCESS_CONTROL_ALLOW_CREDENTIALS),
        ("ACCESS_CONTROL_EXPOSE_HEADERS", ACCESS_CONTROL_EXPOSE_HEADERS),
        ("ACCESS_CONTROL_MAX_AGE", ACCESS_CONTROL_MAX_AGE),
        ("ACCESS_CONTROL_REQUEST_METHOD", ACCESS_CONTROL_REQUEST_METHOD),
        ("ACCESS_CONTROL_REQUEST_HEADERS", ACCESS_CONTROL_REQUEST_HEADERS),
        ("X_POWERED_BY", X_POWERED_BY),
        ("X_FRAMEWORK", X_FRAMEWORK),
        ("X_FUSION_VERSION", X_FUSION_VERSION),
        ("FRAMEWORK_POWERED_BY", FRAMEWORK_POWERED_BY),
        ("FRAMEWORK_ID", FRAMEWORK_ID),
        ("APPLICATION_JSON", APPLICATION_JSON),
        ("APPLICATION_JSON_UTF8", APPLICATION_JSON_UTF8),
        ("APPLICATION_OCTET_STREAM", APPLICATION_OCTET_STREAM),
        ("APPLICATION_PDF", APPLICATION_PDF),
        ("APPLICATION_XML", APPLICATION_XML),
        ("APPLICATION_FORM_URLENCODED", APPLICATION_FORM_URLENCODED),
        ("MULTIPART_FORM_DATA", MULTIPART_FORM_DATA),
        ("TEXT_PLAIN", TEXT_PLAIN),
        ("TEXT_PLAIN_UTF8", TEXT_PLAIN_UTF8),
        ("TEXT_HTML", TEXT_HTML),
        ("TEXT_HTML_UTF8", TEXT_HTML_UTF8),
        ("TEXT_CSS", TEXT_CSS),
        ("TEXT_CSV", TEXT_CSV),
        ("TEXT_JAVASCRIPT", TEXT_JAVASCRIPT),
        ("IMAGE_PNG", IMAGE_PNG),
        ("IMAGE_JPEG", IMAGE_JPEG),
        ("IMAGE_GIF", IMAGE_GIF),
        ("IMAGE_WEBP", IMAGE_WEBP),
        ("IMAGE_SVG", IMAGE_SVG),
    ]
}

/// The fusion-core release that the identity headers announce.
pub open spec fn version_text() -> Seq<char> {
    "2.0.1"@
}

/// Current fusion-core package version (bindings share this via helpers).
pub fn framework_version() -> (r: &'static str)
    ensures
        r@ == version_text(),
{
    "2.0.1"
}

/// The identity headers: `X-Powered-By`, `X-Framework`, `X-Fusion-Version`.
pub open spec fn fingerprint_pairs() -> Seq<(Seq<char>, Seq<char>)> {
    seq![
        (X_POWERED_BY@, FRAMEWORK_POWERED_BY@),
        (X_FRAMEWORK@, FRAMEWORK_ID@),
        (X_FUSION_VERSION@, version_text()),
    ]
}

/// Default identity headers applied to every HTTP response (unless disabled).
pub fn fingerprint_header_pairs() -> (r: [(&'static str, String); 3])
    ensures
        r@[0].0@ == fingerprint_pairs()[0].0 && r@[0].1@ == fingerprint_pairs()[0].1,
        r@[1].0@ == fingerprint_pairs()[1].0 && r@[1].1@ == fingerprint_pairs()[1].1,
        r@[2].0@ == fingerprint_pairs()[2].0 && r@[2].1@ == fingerprint_pairs()[2].1,
{
    [
        (X_POWERED_BY, FRAMEWORK_POWERED_BY.to_string()),
        (X_FRAMEWORK, FRAMEWORK_ID.to_string()),
        (X_FUSION_VERSION, framework_version().to_string()),
    ]
}

/// Character views of a header list.
pub open spec fn header_views(hs: Seq<(String, String)>) -> Seq<(Seq<char>, Seq<char>)> {
    hs.map_values(|p: (String, String)| (p.0@, p.1@))
}

/// Some name in `names` equals `n` ignoring ASCII case.
pub open spec fn names_contain(names: Seq<Seq<char>>, n: Seq<char>) -> bool {
    exists|i: int| 0 <= i < names.len() && eq_ignore_ascii_case(names[i], n)
}

/// Header list after adding `(n, v)` unless `n` is suppressed or already present.
pub open spec fn add_missing(
    hs: Seq<(Seq<char>, Seq<char>)>,
    suppress: Seq<Seq<char>>,
    n: Seq<char>,
    v: Seq<char>,
) -> Seq<(Seq<char>, Seq<char>)> {
    if names_contain(suppress, n) || names_contain(hs.map_values(|p: (Seq<char>, Seq<char>)| p.0), n) {
        hs
    } else {
        hs.push((n, v))
    }
}

/// Header list after adding each of `pairs` in turn.
pub open spec fn add_all_missing(
    hs: Seq<(Seq<char>, Seq<char>)>,
    suppress: Seq<Seq<char>>,
    pairs: Seq<(Seq<char>, Seq<char>)>,
) -> Seq<(Seq<char>, Seq<char>)>
    decreases pairs.len(),
{
    if pairs.len() == 0 {
        hs
    } else {
        add_all_missing(add_missing(hs, suppress, pairs[0].0, pairs[0].1), suppress, pairs.drop_first())
    }
}

fn any_name_matches(names: &Vec<String>, n: &Vec<char>) -> (r: bool)
    ensures
        r == names_contain(names@.map_values(|s: String| s@), n@),
{
    let ghost ns = names@.map_values(|s: String| s@);
    let mut i: usize = 0;
    while i < names.len()
        invariant
            i <= names.len(),
            ns == names@.map_values(|s: String| s@),
            forall|j: int| 0 <= j < i ==> !eq_ignore_ascii_case(#[trigger] ns[j], n@),
        decreases names.len() - i,
    {
        let c = chars_of(names[i].as_str());
        if eq_ignore_case(&c, n) {
            assert(eq_ignore_ascii_case(ns[i as int], n@));
            return true;
        }
        i += 1;
    }
    false
}

fn any_header_named(headers: &Vec<(String, String)>, n: &Vec<char>) -> (r: bool)
    ensures
        r == names_contain(header_views(headers@).map_values(|p: (Seq<char>, Seq<char>)| p.0), n@),
{
    let ghost ns = header_views(headers@).map_values(|p: (Seq<char>, Seq<char>)| p.0);
    let mut i: usize = 0;
    while i < headers.len()
        invariant
            i <= headers.len(),
            ns == header_views(headers@).map_values(|p: (Seq<char>, Seq<char>)| p.0),
            forall|j: int| 0 <= j < i ==> !eq_ignore_ascii_case(#[trigger] ns[j], n@),
        decreases headers.len() - i,
    {
        let c = chars_of(headers[i].0.as_str());
        assert(ns[i as int] == headers@[i as int].0@);
        if eq_ignore_case(&c, n) {
            return true;
        }
        i += 1;
    }
    false
}

/// Insert fingerprint headers if the response does not already set them.
pub fn apply_fingerprint_headers(headers: &mut Vec<(String, String)>)
    ensures
        header_views(final(headers)@) == add_all_missing(
            header_views(old(headers)@),
            Seq::empty(),
            fingerprint_pairs(),
        ),
{
    let none: Vec<String> = Vec::new();
    assert(none@.map_values(|s: String| s@) =~= Seq::<Seq<char>>::empty());
    apply_fingerprint_headers_except(headers, &none);
}

/// Like [`apply_fingerprint_headers`], but skips names present in `suppress`
/// (compared ignoring ASCII case), so deliberate removals stay removed.
pub fn apply_fingerprint_headers_except(headers: &mut Vec<(String, String)>, suppress: &Vec<String>)
    ensures
        header_views(final(headers)@) == add_all_missing(
            header_views(old(headers)@),
            suppress@.map_values(|s: String| s@),
            fingerprint_pairs(),
        ),
{
    let pairs = fingerprint_header_pairs();
    let ghost fp = fingerprint_pairs();
    let ghost sup = suppress@.map_values(|s: String| s@);
    let ghost start = header_views(headers@);
    let mut i: usize = 0;
    assert(fp.skip(0) =~= fp);
    while i < 3
        invariant
            i <= 3,
            fp == fingerprint_pairs(),
            sup == suppress@.map_values(|s: String| s@),
            pairs@[0].0@ == fp[0].0 && pairs@[0].1@ == fp[0].1,
            pairs@[1].0@ == fp[1].0 && pairs@[1].1@ == fp[1].1,
            pairs@[2].0@ == fp[2].0 && pairs@[2].1@ == fp[2].1,
            add_all_missing(start, sup, fp) == add_all_missing(header_views(headers@), sup, fp.skip(i as int)),
        decreases 3 - i,
    {
        let name = pairs[i].0;
        let n = chars_of(name);
        let ghost hv = header_views(headers@);
        assert(fp.skip(i as int)[0] == fp[i as int]);
        assert(fp.skip(i as int).drop_first() =~= fp.skip(i + 1));
        if any_name_matches(suppress, &n) {
        } else if any_header_named(headers, &n) {
        } else {
            headers.push((name.to_string(), pairs[i].1.clone()));
            assert(header_views(headers@) =~= hv.push((fp[i as int].0, fp[i as int].1)));
        }
        i += 1;
    }
    assert(fp.skip(3) =~= Seq::<(Seq<char>, Seq<char>)>::empty());
}

/// Map form of [`fingerprint_header_pairs`] for language bindings / middleware.
pub fn fingerprint_headers() -> (m: StrMap<String>)
    ensures
        m@.dom() == Set::<Seq<char>>::empty().insert(fingerprint_pairs()[0].0).insert(
            fingerprint_pairs()[1].0,
        ).insert(fingerprint_pairs()[2].0),
        m@[fingerprint_pairs()[0].0]@ == fingerprint_pairs()[0].1,
        m@[fingerprint_pairs()[1].0]@ == fingerprint_pairs()[1].1,
        m@[fingerprint_pairs()[2].0]@ == fingerprint_pairs()[2].1,
{
    let pairs = fingerprint_header_pairs();
    let mut map: StrMap<String> = StrMap::new();
    map.insert(pairs[0].0.to_string(), pairs[0].1.clone());
    map.insert(pairs[1].0.to_string(), pairs[1].1.clone());
    map.insert(pairs[2].0.to_string(), pairs[2].1.clone());
    proof {
        reveal_strlit("X-Powered-By");
        reveal_strlit("X-Framework");
        reveal_strlit("X-Fusion-Version");
        assert(X_POWERED_BY@.len() == 12);
        assert(X_FRAMEWORK@.len() == 11);
        assert(X_FUSION_VERSION@.len() == 16);
        assert(map@.dom() =~= Set::<Seq<char>>::empty().insert(fingerprint_pairs()[0].0).insert(
            fingerprint_pairs()[1].0,
        ).insert(fingerprint_pairs()[2].0));
    }
    map
}

// ─── Value / map helpers ─────────────────────────────────────────────────────

/// Escape of one filename character for the quoted `filename="..."` parameter:
/// backslash and quote are escaped, CR and LF are dropped.
pub open spec fn quote_escape_char(c: char) -> Seq<char> {
    if c == '\\' || c == '"' {
        seq!['\\', c]
    } else if c == '\r' || c == '\n' {
        Seq::empty()
    } else {
        seq![c]
    }
}

/// Escaped filename for the quoted `filename="..."` parameter.
pub open spec fn quote_escaped(s: Seq<char>) -> Seq<char>
    decreases s.len(),
{
    if s.len() == 0 {
        Seq::empty()
    } else {
        quote_escaped(s.drop_last()) + quote_escape_char(s.last())
    }
}

/// Byte kept as is by RFC 5987 encoding: ASCII letters, digits and `-._~`.
pub open spec fn unreserved(b: u8) -> bool {
    (65 <= b && b <= 90) || (97 <= b && b <= 122) || (48 <= b && b <= 57) || b == 45 || b == 46
        || b == 95 || b == 126
}

/// Upper-case hex digit of `n < 16`.
pub open spec fn hex_upper(n: int) -> char {
    if n < 10 {
        ((48 + n) as u32) as char
    } else {
        ((55 + n) as u32) as char
    }
}

/// RFC 5987 encoding of one byte.
pub open spec fn star_byte(b: u8) -> Seq<char> {
    if unreserved(b) {
        seq![(b as u32) as char]
    } else {
        seq!['%', hex_upper((b / 16) as int), hex_upper((b % 16) as int)]
    }
}

/// RFC 5987 `filename*` encoding (UTF-8 percent-encoding) of bytes.
pub open spec fn star_encoded(b: Seq<u8>) -> Seq<char>
    decreases b.len(),
{
    if b.len() == 0 {
        Seq::empty()
    } else {
        star_encoded(b.drop_last()) + star_byte(b.last())
    }
}

/// Path separator for file names: `/` or `\`.
pub open spec fn is_sep(c: char) -> bool {
    c == '/' || c == '\\'
}

/// The part of `s` after its last separator (all of `s` without one).
pub open spec fn after_last_sep(s: Seq<char>) -> Seq<char>
    decreases s.len(),
{
    if s.len() == 0 {
        s
    } else if is_sep(s.last()) {
        Seq::empty()
    } else {
        after_last_sep(s.drop_last()).push(s.last())
    }
}

/// Base name of a path: text after the last `/` or `\`, trimmed.
pub open spec fn base_name(s: Seq<char>) -> Seq<char> {
    trim_ws(after_last_sep(s))
}

fn escape_quoted_filename(name: &Vec<char>) -> (r: Vec<char>)
    ensures
        r@ == quote_escaped(name@),
{
    let mut out: Vec<char> = Vec::new();
    let mut i: usize = 0;
    while i < name.len()
        invariant
            i <= name.len(),
            out@ == quote_escaped(name@.take(i as int)),
        decreases name.len() - i,
    {
        let ghost prev = out@;
        assert(name@.take(i + 1).drop_last() =~= name@.take(i as int));
        let ch = name[i];
        if ch == '\\' || ch == '"' {
            out.push('\\');
            out.push(ch);
        } else if ch == '\r' || ch == '\n' {
        } else {
            out.push(ch);
        }
        assert(out@ =~= prev + quote_escape_char(ch));
        i += 1;
    }
    assert(name@.take(name.len() as int) =~= name@);
    out
}

fn hex_upper_digit(n: u8) -> (c: char)
    requires
        n < 16,
    ensures
        c == hex_upper(n as int),
{
    if n < 10 {
        (48 + n) as char
    } else {
        (55 + n) as char
    }
}

fn encode_filename_star(name: &str) -> (r: Vec<char>)
    ensures
        r@ == star_encoded(vstd::utf8::encode_utf8(name@)),
{
    let bytes = name.as_bytes();
    let mut out: Vec<char> = Vec::new();
    let mut i: usize = 0;
    while i < bytes.len()
        invariant
            i <= bytes@.len(),
            bytes@ == vstd::utf8::encode_utf8(name@),
            out@ == star_encoded(bytes@.take(i as int)),
        decreases bytes@.len() - i,
    {
        let ghost prev = out@;
        assert(bytes@.take(i + 1).drop_last() =~= bytes@.take(i as int));
        let b = bytes[i];
        assert(b >> 4 < 16 && b & 15 < 16 && b >> 4 == b / 16 && b & 15 == b % 16) by (bit_vector);
        if (65 <= b && b <= 90) || (97 <= b && b <= 122) || (48 <= b && b <= 57) || b == 45 || b
            == 46 || b == 95 || b == 126 {
            out.push(b as char);
        } else {
            out.push('%');
            out.push(hex_upper_digit(b >> 4));
            out.push(hex_upper_digit(b & 15));
        }
        assert(out@ =~= prev + star_byte(b));
        i += 1;
    }
    assert(bytes@.take(bytes@.len() as int) =~= bytes@);
    out
}

fn basename(filename: &Vec<char>) -> (r: Vec<char>)
    ensures
        r@ == base_name(filename@),
{
    let mut start = filename.len();
    assert(filename@.take(start as int) =~= filename@);
    assert(after_last_sep(filename@) =~= after_last_sep(filename@.take(start as int)) + filename@.skip(start as int));
    while start > 0 && !(filename[start - 1] == '/' || filename[start - 1] == '\\')
        invariant
            start <= filename.len(),
            after_last_sep(filename@) == after_last_sep(filename@.take(start as int))
                + filename@.skip(start as int),
        decreases start,
    {
        let ghost t = filename@.take(start as int);
        assert(t.drop_last() =~= filename@.take(start - 1));
        assert(after_last_sep(t) == after_last_sep(filename@.take(start - 1)).push(t.last()));
        assert(after_last_sep(filename@.take(start - 1)).push(t.last()) + filename@.skip(start as int)
            =~= after_last_sep(filename@.take(start - 1)) + filename@.skip(start - 1));
        start -= 1;
    }
    assert(after_last_sep(filename@.take(start as int)) =~= Seq::<char>::empty());
    assert(Seq::<char>::empty() + filename@.skip(start as int) =~= filename@.subrange(start as int, filename@.len() as int));
    let last = crate::text::subvec(filename, start, filename.len());
    trim(&last)
}

/// `attachment; filename="<escaped>"; filename*=UTF-8''<encoded>` for a base name.
pub open spec fn disposition(kind: Seq<char>, name: Seq<char>) -> Seq<char> {
    kind + "; filename=\""@ + quote_escaped(name) + "\"; filename*=UTF-8''"@ + star_encoded(
        vstd::utf8::encode_utf8(name),
    )
}

fn disposition_exec(kind: &str, name: &Vec<char>) -> (r: Vec<char>)
    ensures
        r@ == disposition(kind@, name@),
{
    let quoted = escape_quoted_filename(name);
    let name_str = to_string(name);
    let star = encode_filename_star(name_str.as_str());
    let mut out = chars_of(kind);
    let a = chars_of("; filename=\"");
    extend(&mut out, &a);
    extend(&mut out, &quoted);
    let b = chars_of("\"; filename*=UTF-8''");
    extend(&mut out, &b);
    extend(&mut out, &star);
    out
}

/// `Content-Disposition` value for file download: `attachment; filename=...`.
pub fn content_disposition_attachment(filename: &str) -> (r: String)
    ensures
        r@ == disposition("attachment"@, base_name(filename@)),
{
    let f = chars_of(filename);
    let name = basename(&f);
    let out = disposition_exec("attachment", &name);
    to_string(&out)
}

/// Value of `content_disposition_inline`.
pub open spec fn inline_disposition(filename: Option<Seq<char>>) -> Seq<char> {
    match filename {
        Some(f) => if base_name(f).len() > 0 {
            disposition("inline"@, base_name(f))
        } else {
            "inline"@
        },
        None => "inline"@,
    }
}

/// `Content-Disposition` value for inline display (optional filename).
pub fn content_disposition_inline(filename: Option<&str>) -> (r: String)
    ensures
        r@ == inline_disposition(
            match filename {
                Some(f) => Some(f@),
                None => None,
            },
        ),
{
    match filename {
        Some(f) => {
            let fc = chars_of(f);
            let name = basename(&fc);
            if name.len() > 0 {
                let out = disposition_exec("inline", &name);
                to_string(&out)
            } else {
                "inline".to_string()
            }
        },
        None => "inline".to_string(),
    }
}

/// Value of `content_type_value`.
pub open spec fn content_type_text(media_type: Seq<char>, charset: Option<Seq<char>>) -> Seq<char> {
    match charset {
        Some(cs) => if trim_ws(cs).len() == 0 {
            media_type
        } else if contains_seq(ascii_lower_seq(media_type), "charset="@) {
            media_type
        } else {
            media_type + "; charset="@ + trim_ws(cs)
        },
        None => media_type,
    }
}

/// `Content-Type` value, optionally with charset.
pub fn content_type_value(media_type: &str, charset: Option<&str>) -> (r: String)
    ensures
        r@ == content_type_text(
            media_type@,
            match charset {
                Some(c) => Some(c@),
                None => None,
            },
        ),
{
    match charset {
        Some(c) => {
            let cc = chars_of(c);
            let cs = trim(&cc);
            if cs.len() == 0 {
                return media_type.to_string();
            }
            let mc = chars_of(media_type);
            let lower = ascii_lowercase(&mc);
            let needle = chars_of("charset=");
            if contains(&lower, &needle) {
                media_type.to_string()
            } else {
                let mut out = mc;
                let sep = chars_of("; charset=");
                extend(&mut out, &sep);
                extend(&mut out, &cs);
                to_string(&out)
            }
        },
        None => media_type.to_string(),
    }
}

/// Map with the given pairs inserted in order (a later pair wins).
pub open spec fn map_of_pairs(pairs: Seq<(Seq<char>, Seq<char>)>) -> Map<Seq<char>, Seq<char>>
    decreases pairs.len(),
{
    if pairs.len() == 0 {
        Map::empty()
    } else {
        map_of_pairs(pairs.drop_last()).insert(pairs.last().0, pairs.last().1)
    }
}

/// Character view of a string map.
pub open spec fn text_map(m: Map<Seq<char>, String>) -> Map<Seq<char>, Seq<char>> {
    m.map_values(|v: String| v@)
}

/// Header map built from `(name, value)` pairs.
pub fn headers_map(pairs: &[(&str, String)]) -> (m: StrMap<String>)
    ensures
        text_map(m@) == map_of_pairs(pairs@.map_values(|p: (&str, String)| (p.0@, p.1@))),
{
    let ghost ps = pairs@.map_values(|p: (&str, String)| (p.0@, p.1@));
    let mut map: StrMap<String> = StrMap::new();
    let mut i: usize = 0;
    assert(text_map(map@) =~= map_of_pairs(ps.take(0)));
    while i < pairs.len()
        invariant
            i <= pairs@.len(),
            ps == pairs@.map_values(|p: (&str, String)| (p.0@, p.1@)),
            text_map(map@) == map_of_pairs(ps.take(i as int)),
        decreases pairs@.len() - i,
    {
        assert(ps.take(i + 1).drop_last() =~= ps.take(i as int));
        let k: &str = pairs[i].0;
        let v: String = pairs[i].1.clone();
        map.insert(k.to_string(), v);
        assert(text_map(map@) =~= map_of_pairs(ps.take(i + 1)));
        i += 1;
    }
    assert(ps.take(pairs@.len() as int) =~= ps);
    map
}

fn single(name: &str, value: String) -> (m: StrMap<String>)
    ensures
        text_map(m@) == Map::<Seq<char>, Seq<char>>::empty().insert(name@, value@),
{
    let mut map: StrMap<String> = StrMap::new();
    let ghost v = value@;
    map.insert(name.to_string(), value);
    assert(text_map(map@) =~= Map::<Seq<char>, Seq<char>>::empty().insert(name@, v));
    map
}

/// `{ Content-Disposition: attachment; filename="..." }`
pub fn attachment(filename: &str) -> (m: StrMap<String>)
    ensures
        text_map(m@) == Map::<Seq<char>, Seq<char>>::empty().insert(
            CONTENT_DISPOSITION@,
            disposition("attachment"@, base_name(filename@)),
        ),
{
    single(CONTENT_DISPOSITION, content_disposition_attachment(filename))
}

/// `{ Content-Disposition: inline; filename="..." }` (filename optional).
pub fn inline(filename: Option<&str>) -> (m: StrMap<String>)
    ensures
        text_map(m@) == Map::<Seq<char>, Seq<char>>::empty().insert(
            CONTENT_DISPOSITION@,
            inline_disposition(
                match filename {
                    Some(f) => Some(f@),
                    None => None,
                },
            ),
        ),
{
    single(CONTENT_DISPOSITION, content_disposition_inline(filename))
}

/// `{ Content-Type: ... }`
pub fn content_type(media_type: &str, charset: Option<&str>) -> (m: StrMap<String>)
    ensures
        text_map(m@) == Map::<Seq<char>, Seq<char>>::empty().insert(
            CONTENT_TYPE@,
            content_type_text(
                media_type@,
                match charset {
                    Some(c) => Some(c@),
                    None => None,
                },
            ),
        ),
{
    single(CONTENT_TYPE, content_type_value(media_type, charset))
}

/// `{ Location: url }`
pub fn location(url: &str) -> (m: StrMap<String>)
    ensures
        text_map(m@) == Map::<Seq<char>, Seq<char>>::empty().insert(LOCATION@, url@),
{
    single(LOCATION, url.to_string())
}

/// `{ Cache-Control: value }`
pub fn cache_control(value: &str) -> (m: StrMap<String>)
    ensures
        text_map(m@) == Map::<Seq<char>, Seq<char>>::empty().insert(CACHE_CONTROL@, value@),
{
    single(CACHE_CONTROL, value.to_string())
}

/// Download-friendly pair: Content-Type + Content-Disposition attachment.
pub fn download(filename: &str, media_type: Option<&str>) -> (m: StrMap<String>)
    ensures
        text_map(m@) == Map::<Seq<char>, Seq<char>>::empty().insert(
            CONTENT_DISPOSITION@,
            disposition("attachment"@, base_name(filename@)),
        ).insert(
            CONTENT_TYPE@,
            match media_type {
                Some(t) => t@,
                None => APPLICATION_OCTET_STREAM@,
            },
        ),
{
    let mut map = attachment(filename);
    let mt = match media_type {
        Some(t) => t,
        None => APPLICATION_OCTET_STREAM,
    };
    let ghost before = map@;
    let v = content_type_value(mt, None);
    map.insert(CONTENT_TYPE.to_string(), v);
    assert(text_map(map@) =~= text_map(before).insert(CONTENT_TYPE@, mt@));
    map
}

/// The names of a header list.
pub open spec fn header_names(hs: Seq<(Seq<char>, Seq<char>)>) -> Seq<Seq<char>> {
    hs.map_values(|p: (Seq<char>, Seq<char>)| p.0)
}

/// Name `n` is suppressed or already set in `hs`.
pub open spec fn covered(hs: Seq<(Seq<char>, Seq<char>)>, suppress: Seq<Seq<char>>, n: Seq<char>) -> bool {
    names_contain(suppress, n) || names_contain(header_names(hs), n)
}

proof fn lemma_push_keeps_cover(hs: Seq<(Seq<char>, Seq<char>)>, suppress: Seq<Seq<char>>, p: (Seq<char>, Seq<char>), n: Seq<char>)
    requires
        covered(hs, suppress, n),
    ensures
        covered(hs.push(p), suppress, n),
{
    if !names_contain(suppress, n) {
        let i = choose|i: int| 0 <= i < header_names(hs).len() && eq_ignore_ascii_case(header_names(hs)[i], n);
        assert(header_names(hs.push(p))[i] == header_names(hs)[i]);
    }
}

proof fn lemma_add_missing_covers(hs: Seq<(Seq<char>, Seq<char>)>, suppress: Seq<Seq<char>>, n: Seq<char>, v: Seq<char>)
    ensures
        covered(add_missing(hs, suppress, n, v), suppress, n),
        forall|m: Seq<char>| covered(hs, suppress, m) ==> #[trigger] covered(add_missing(hs, suppress, n, v), suppress, m),
{
    if !covered(hs, suppress, n) {
        let last = hs.len() as int;
        assert(header_names(hs.push((n, v)))[last] == n);
        assert(eq_ignore_ascii_case(n, n));
        assert forall|m: Seq<char>| covered(hs, suppress, m) implies #[trigger] covered(hs.push((n, v)), suppress, m) by {
            lemma_push_keeps_cover(hs, suppress, (n, v), m);
        }
    }
}

proof fn lemma_add_all_covers(hs: Seq<(Seq<char>, Seq<char>)>, suppress: Seq<Seq<char>>, pairs: Seq<(Seq<char>, Seq<char>)>)
    ensures
        forall|i: int| 0 <= i < pairs.len() ==> covered(add_all_missing(hs, suppress, pairs), suppress, #[trigger] pairs[i].0),
        forall|m: Seq<char>| covered(hs, suppress, m) ==> #[trigger] covered(add_all_missing(hs, suppress, pairs), suppress, m),
    decreases pairs.len(),
{
    if pairs.len() > 0 {
        let next = add_missing(hs, suppress, pairs[0].0, pairs[0].1);
        lemma_add_missing_covers(hs, suppress, pairs[0].0, pairs[0].1);
        lemma_add_all_covers(next, suppress, pairs.drop_first());
        assert forall|i: int| 0 <= i < pairs.len() implies covered(add_all_missing(hs, suppress, pairs), suppress, #[trigger] pairs[i].0) by {
            if i > 0 {
                assert(pairs[i] == pairs.drop_first()[i - 1]);
            } else {
                assert(covered(next, suppress, pairs[0].0));
            }
        }
    }
}

proof fn lemma_add_all_noop(hs: Seq<(Seq<char>, Seq<char>)>, suppress: Seq<Seq<char>>, pairs: Seq<(Seq<char>, Seq<char>)>)
    requires
        forall|i: int| 0 <= i < pairs.len() ==> covered(hs, suppress, #[trigger] pairs[i].0),
    ensures
        add_all_missing(hs, suppress, pairs) == hs,
    decreases pairs.len(),
{
    if pairs.len() > 0 {
        assert(covered(hs, suppress, pairs[0].0));
        assert forall|i: int| 0 <= i < pairs.drop_first().len() implies covered(hs, suppress, #[trigger] pairs.drop_first()[i].0) by {
            assert(pairs.drop_first()[i] == pairs[i + 1]);
        }
        lemma_add_all_noop(hs, suppress, pairs.drop_first());
    }
}

/// Adding the identity headers to a response that already went through the
/// same step changes nothing: applying them twice is applying them once.
pub proof fn law_fingerprint_idempotent(hs: Seq<(Seq<char>, Seq<char>)>, suppress: Seq<Seq<char>>)
    ensures
        add_all_missing(add_all_missing(hs, suppress, fingerprint_pairs()), suppress, fingerprint_pairs())
            == add_all_missing(hs, suppress, fingerprint_pairs()),
{
    lemma_add_all_covers(hs, suppress, fingerprint_pairs());
    lemma_add_all_noop(add_all_missing(hs, suppress, fingerprint_pairs()), suppress, fingerprint_pairs());
}

/// `s` holds neither CR nor LF.
pub open spec fn no_line_break(s: Seq<char>) -> bool {
    forall|i: int| 0 <= i < s.len() ==> #[trigger] s[i] != '\r' && s[i] != '\n'
}

proof fn lemma_no_line_break_concat(a: Seq<char>, b: Seq<char>)
    requires
        no_line_break(a),
        no_line_break(b),
    ensures
        no_line_break(a + b),
{
    assert forall|i: int| 0 <= i < (a + b).len() implies #[trigger] (a + b)[i] != '\r' && (a + b)[i] != '\n' by {
        if i < a.len() {
            assert((a + b)[i] == a[i]);
        } else {
            assert((a + b)[i] == b[i - a.len()]);
        }
    }
}

proof fn lemma_quote_escaped_clean(s: Seq<char>)
    ensures
        no_line_break(quote_escaped(s)),
    decreases s.len(),
{
    if s.len() > 0 {
        lemma_quote_escaped_clean(s.drop_last());
        lemma_no_line_break_concat(quote_escaped(s.drop_last()), quote_escape_char(s.last()));
    }
}

proof fn lemma_star_encoded_clean(b: Seq<u8>)
    ensures
        no_line_break(star_encoded(b)),
    decreases b.len(),
{
    if b.len() > 0 {
        lemma_star_encoded_clean(b.drop_last());
        let x = b.last();
        let t = star_byte(x);
        assert(no_line_break(t)) by {
            if !unreserved(x) {
                assert(hex_upper((x / 16) as int) != '\r' && hex_upper((x / 16) as int) != '\n');
                assert(hex_upper((x % 16) as int) != '\r' && hex_upper((x % 16) as int) != '\n');
            }
        }
        lemma_no_line_break_concat(star_encoded(b.drop_last()), t);
    }
}

/// The `Content-Disposition` value for a download never holds CR or LF,
/// whatever the file name: a header value built from it cannot be split.
pub proof fn law_attachment_has_no_line_break(filename: Seq<char>)
    ensures
        no_line_break(disposition("attachment"@, base_name(filename))),
{
    reveal_strlit("attachment");
    reveal_strlit("; filename=\"");
    reveal_strlit("\"; filename*=UTF-8''");
    let name = base_name(filename);
    let p1 = "attachment"@;
    let p2 = "; filename=\""@;
    let p3 = "\"; filename*=UTF-8''"@;
    assert(no_line_break(p1));
    assert(no_line_break(p2));
    assert(no_line_break(p3));
    lemma_quote_escaped_clean(name);
    lemma_star_encoded_clean(vstd::utf8::encode_utf8(name));
    lemma_no_line_break_concat(p1, p2);
    lemma_no_line_break_concat(p1 + p2, quote_escaped(name));
    lemma_no_line_break_concat(p1 + p2 + quote_escaped(name), p3);
    lemma_no_line_break_concat(p1 + p2 + quote_escaped(name) + p3, star_encoded(vstd::utf8::encode_utf8(name)));
}

/// Adding identity headers keeps the given headers first and in order, and
/// appends only pairs of `pairs` whose name is neither suppressed nor
/// already set (compared ignoring ASCII case).
pub proof fn law_fingerprint_adds_only_missing(
    hs: Seq<(Seq<char>, Seq<char>)>,
    suppress: Seq<Seq<char>>,
    pairs: Seq<(Seq<char>, Seq<char>)>,
)
    ensures
        add_all_missing(hs, suppress, pairs).len() >= hs.len(),
        add_all_missing(hs, suppress, pairs).take(hs.len() as int) == hs,
        forall|i: int|
            hs.len() <= i < add_all_missing(hs, suppress, pairs).len() ==> pairs.contains(
                #[trigger] add_all_missing(hs, suppress, pairs)[i],
            ) && !covered(hs, suppress, add_all_missing(hs, suppress, pairs)[i].0),
    decreases pairs.len(),
{
    if pairs.len() > 0 {
        let p = pairs[0];
        let next = add_missing(hs, suppress, p.0, p.1);
        let rest = pairs.drop_first();
        let out = add_all_missing(hs, suppress, pairs);
        law_fingerprint_adds_only_missing(next, suppress, rest);
        assert(out == add_all_missing(next, suppress, rest));
        if next == hs {
        } else {
            assert(next == hs.push(p));
        }
        assert(next.take(hs.len() as int) =~= hs);
        assert(out.take(hs.len() as int) =~= hs) by {
            assert(out.take(next.len() as int) == next);
            assert forall|j: int| 0 <= j < hs.len() implies out[j] == hs[j] by {
                assert(out.take(next.len() as int)[j] == out[j]);
                assert(next[j] == hs[j]);
            }
        }
        assert forall|i: int| hs.len() <= i < out.len() implies pairs.contains(#[trigger] out[i]) && !covered(
            hs,
            suppress,
            out[i].0,
        ) by {
            if i < next.len() {
                assert(next != hs);
                assert(out.take(next.len() as int)[i] == out[i]);
                assert(out[i] == p);
                assert(pairs[0] == p);
            } else {
                assert(rest.contains(out[i]));
                let k = choose|k: int| 0 <= k < rest.len() && rest[k] == out[i];
                assert(pairs[k + 1] == rest[k]);
                assert(!covered(next, suppress, out[i].0));
                if covered(hs, suppress, out[i].0) {
                    if next != hs {
                        lemma_push_keeps_cover(hs, suppress, p, out[i].0);
                    }
                }
            }
        }
    }
}

/// A `Content-Type` value always starts with the media type and names a
/// charset at most once more: a media type that already names one (in any
/// ASCII case), or a charset that is absent or blank, leaves the media type
/// unchanged; otherwise the value names a charset.
pub proof fn law_content_type_charset_once(media: Seq<char>, charset: Option<Seq<char>>)
    ensures
        contains_seq(ascii_lower_seq(media), "charset="@) ==> content_type_text(media, charset) == media,
        (charset is None || trim_ws(charset->0).len() == 0) ==> content_type_text(media, charset) == media,
        content_type_text(media, charset).take(media.len() as int) == media,
        charset is Some && trim_ws(charset->0).len() > 0 ==> contains_seq(
            ascii_lower_seq(content_type_text(media, charset)),
            "charset="@,
        ),
{
    reveal_strlit("; charset=");
    reveal_strlit("charset=");
    let r = content_type_text(media, charset);
    if r != media {
        let t = trim_ws(charset->0);
        let sep = "; charset="@;
        assert(r == media + sep + t);
        assert(r.take(media.len() as int) =~= media);
        let lr = ascii_lower_seq(r);
        let at: int = media.len() as int + 2;
        assert(lr.subrange(at, at + 8) =~= "charset="@) by {
            assert forall|i: int| 0 <= i < 8 implies #[trigger] lr.subrange(at, at + 8)[i] == "charset="@[i] by {
                assert(r[at + i] == sep[i + 2]);
            }
        }
        assert(crate::text::occurs_at(lr, "charset="@, at));
    } else {
        assert(r.take(media.len() as int) =~= media);
    }
}

} // verus!
