//! Coercion of path and query parameters (raw strings) into JSON values, the
//! rules shared by every language binding.
//!
//! Reading a string as a floating-point number is the host's part: the
//! functions here take that reading as an argument, `float`, which is the
//! text serde_json writes for the finite `f64` that the raw text parses to
//! (`None` when it does not parse to a finite `f64`).

use vstd::prelude::*;

use crate::decimal::{decimal, decimal_signed, lemma_decimal, parse_i64, parse_i64_exec};
use crate::json::{json_i64, Json, JsonNumber, JsonValue};
use crate::text::{ascii_lower_seq, ascii_lowercase, chars_eq, chars_of, trim, trim_ws};

verus! {

/// Target type for coercing a path/query string parameter.
#[derive(Debug, Clone, Copy, PartialEq, Eq, Structural)]
pub enum ParamKind {
    String,
    Int,
    Float,
    Bool,
    Auto,
}

/// The kind that a type-hint name stands for (`"int"`, `"bool"`, …);
/// unknown names are `String`, an empty name is `Auto`.
pub open spec fn kind_named(name: Seq<char>) -> ParamKind {
    let n = ascii_lower_seq(trim_ws(name));
    if n == "int"@ || n == "i64"@ || n == "integer"@ {
        ParamKind::Int
    } else if n == "float"@ || n == "f64"@ || n == "number"@ || n == "double"@ {
        ParamKind::Float
    } else if n == "bool"@ || n == "boolean"@ {
        ParamKind::Bool
    } else if n == "str"@ || n == "string"@ {
        ParamKind::String
    } else if n == "auto"@ || n.len() == 0 {
        ParamKind::Auto
    } else {
        ParamKind::String
    }
}

/// Words read as `true` (after ASCII lowercasing); any other text is `false`.
pub open spec fn truthy(lower: Seq<char>) -> bool {
    lower == "1"@ || lower == "true"@ || lower == "yes"@ || lower == "on"@
}

/// A float reading as a JSON number.
pub open spec fn float_json(t: Seq<char>) -> Json {
    Json::Float(t)
}

/// The JSON value that `raw` becomes under `kind`, given its float reading.
pub open spec fn coerced_param(raw: Seq<char>, kind: ParamKind, float: Option<Seq<char>>) -> Json {
    let lower = ascii_lower_seq(raw);
    match kind {
        ParamKind::String => Json::Str(raw),
        ParamKind::Int => match parse_i64(raw) {
            Some(n) => json_i64(n),
            None => Json::Str(raw),
        },
        ParamKind::Float => match float {
            Some(t) => float_json(t),
            None => Json::Str(raw),
        },
        ParamKind::Bool => Json::Bool(truthy(lower)),
        ParamKind::Auto => if parse_i64(raw) is Some {
            json_i64(parse_i64(raw)->0)
        } else if float is Some {
            float_json(float->0)
        } else if lower == "true"@ {
            Json::Bool(true)
        } else if lower == "false"@ {
            Json::Bool(false)
        } else {
            Json::Str(raw)
        },
    }
}

/// Parse a type hint name used by bindings (`"int"`, `"bool"`, …).
pub fn param_kind_from_name(name: &str) -> (k: ParamKind)
    ensures
        k == kind_named(name@),
{
    let t = trim(&chars_of(name));
    let n = ascii_lowercase(&t);
    if chars_eq(&n, &chars_of("int")) || chars_eq(&n, &chars_of("i64")) || chars_eq(
        &n,
        &chars_of("integer"),
    ) {
        ParamKind::Int
    } else if chars_eq(&n, &chars_of("float")) || chars_eq(&n, &chars_of("f64")) || chars_eq(
        &n,
        &chars_of("number"),
    ) || chars_eq(&n, &chars_of("double")) {
        ParamKind::Float
    } else if chars_eq(&n, &chars_of("bool")) || chars_eq(&n, &chars_of("boolean")) {
        ParamKind::Bool
    } else if chars_eq(&n, &chars_of("str")) || chars_eq(&n, &chars_of("string")) {
        ParamKind::String
    } else if chars_eq(&n, &chars_of("auto")) || n.len() == 0 {
        ParamKind::Auto
    } else {
        ParamKind::String
    }
}

/// Whether the lowercase text is one of the words read as `true`.
pub fn is_truthy(lower: &Vec<char>) -> (b: bool)
    ensures
        b == truthy(lower@),
{
    chars_eq(lower, &chars_of("1")) || chars_eq(lower, &chars_of("true")) || chars_eq(
        lower,
        &chars_of("yes"),
    ) || chars_eq(lower, &chars_of("on"))
}

/// Coerce a raw path parameter string into a JSON value; `float` is the
/// host's reading of `raw` as a floating-point number.
pub fn coerce_param(raw: &str, kind: ParamKind, float: Option<String>) -> (v: JsonValue)
    ensures
        v@ == coerced_param(raw@, kind, match float {
            Some(t) => Some(t@),
            None => None,
        }),
{
    let rc = chars_of(raw);
    match kind {
        ParamKind::String => JsonValue::from_str(raw),
        ParamKind::Int => match parse_i64_exec(&rc) {
            Some(n) => JsonValue::from_i64(n),
            None => JsonValue::from_str(raw),
        },
        ParamKind::Float => match float {
            Some(t) => JsonValue::Number(JsonNumber::Float(t)),
            None => JsonValue::from_str(raw),
        },
        ParamKind::Bool => {
            let lower = ascii_lowercase(&rc);
            JsonValue::Bool(is_truthy(&lower))
        },
        ParamKind::Auto => {
            if let Some(n) = parse_i64_exec(&rc) {
                return JsonValue::from_i64(n);
            }
            if let Some(t) = float {
                return JsonValue::Number(JsonNumber::Float(t));
            }
            let lower = ascii_lowercase(&rc);
            if chars_eq(&lower, &chars_of("true")) {
                return JsonValue::Bool(true);
            }
            if chars_eq(&lower, &chars_of("false")) {
                return JsonValue::Bool(false);
            }
            JsonValue::from_str(raw)
        },
    }
}

/// An integer parameter written in decimal reads back as that integer.
pub proof fn law_int_param_reads_decimal(n: i64, float: Option<Seq<char>>)
    ensures
        coerced_param(decimal_signed(n as int), ParamKind::Int, float) == json_i64(n),
        coerced_param(decimal_signed(n as int), ParamKind::Auto, float) == json_i64(n),
{
    let s = decimal_signed(n as int);
    if n >= 0 {
        lemma_decimal(n as nat);
        let d = decimal(n as nat);
        assert(crate::decimal::is_digit(d[0]));
        assert(s == d);
        assert(parse_i64(s) == Some(n));
    } else {
        lemma_decimal((0 - n) as nat);
        let d = decimal((0 - n) as nat);
        assert(s.skip(1) =~= d);
        assert(parse_i64(s) == Some(n));
    }
}

} // verus!
