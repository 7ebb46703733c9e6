//! JSON values as the framework passes them between handlers, settings,
//! the cache and responses. Reading and writing JSON text is serde_json's.
//!
//! Numbers keep the three shapes of JSON numbers in the host bindings:
//! non-negative integers, negative integers, and other numbers, which are
//! held by their JSON text.

use vstd::prelude::*;

use serde_json::Value;

use crate::text::{chars_eq, chars_of};

verus! {

/// A JSON number.
#[derive(Debug, Clone, PartialEq)]
pub enum JsonNumber {
    /// A non-negative integer.
    PosInt(u64),
    /// A negative integer.
    NegInt(i64),
    /// Any other number, by its JSON text.
    Float(String),
}

/// A JSON value; object members keep their order.
#[derive(Debug, PartialEq)]
pub enum JsonValue {
    Null,
    Bool(bool),
    Number(JsonNumber),
    String(String),
    Array(Vec<JsonValue>),
    Object(Vec<(String, JsonValue)>),
}

/// Mathematical JSON value.
pub enum Json {
    Null,
    Bool(bool),
    PosInt(u64),
    NegInt(i64),
    Float(Seq<char>),
    Str(Seq<char>),
    Arr(Seq<Json>),
    Obj(Seq<(Seq<char>, Json)>),
}

impl JsonValue {
    /// The mathematical value.
    pub open spec fn view(&self) -> Json
        decreases self,
    {
        match self {
            JsonValue::Null => Json::Null,
            JsonValue::Bool(b) => Json::Bool(*b),
            JsonValue::Number(JsonNumber::PosInt(n)) => Json::PosInt(*n),
            JsonValue::Number(JsonNumber::NegInt(n)) => Json::NegInt(*n),
            JsonValue::Number(JsonNumber::Float(s)) => Json::Float(s@),
            JsonValue::String(s) => Json::Str(s@),
            JsonValue::Array(items) => Json::Arr(items_view(items@)),
            JsonValue::Object(members) => Json::Obj(members_view(members@)),
        }
    }
}

/// Mathematical values of a sequence of JSON values.
pub open spec fn items_view(s: Seq<JsonValue>) -> Seq<Json>
    decreases s,
{
    if s.len() == 0 {
        Seq::empty()
    } else {
        items_view(s.drop_last()).push(s.last().view())
    }
}

/// Mathematical members of a sequence of object members.
pub open spec fn members_view(s: Seq<(String, JsonValue)>) -> Seq<(Seq<char>, Json)>
    decreases s,
{
    if s.len() == 0 {
        Seq::empty()
    } else {
        members_view(s.drop_last()).push((s.last().0@, s.last().1.view()))
    }
}

/// `items_view` is pointwise.
pub proof fn lemma_items_view(s: Seq<JsonValue>)
    ensures
        items_view(s).len() == s.len(),
        forall|i: int| 0 <= i < s.len() ==> #[trigger] items_view(s)[i] == s[i]@,
    decreases s.len(),
{
    if s.len() > 0 {
        lemma_items_view(s.drop_last());
    }
}

/// `members_view` is pointwise.
pub proof fn lemma_members_view(s: Seq<(String, JsonValue)>)
    ensures
        members_view(s).len() == s.len(),
        forall|i: int| 0 <= i < s.len() ==> #[trigger] members_view(s)[i] == (s[i].0@, s[i].1@),
    decreases s.len(),
{
    if s.len() > 0 {
        lemma_members_view(s.drop_last());
    }
}

/// Value of the first member named `k`.
pub open spec fn member(ms: Seq<(Seq<char>, Json)>, k: Seq<char>) -> Option<Json>
    decreases ms.len(),
{
    if ms.len() == 0 {
        None
    } else if ms[0].0 == k {
        Some(ms[0].1)
    } else {
        member(ms.drop_first(), k)
    }
}

impl JsonValue {
    /// A deep copy of `self`.
    pub fn deep_copy(&self) -> (r: JsonValue)
        ensures
            r@ == self@,
        decreases self,
    {
        match self {
            JsonValue::Null => JsonValue::Null,
            JsonValue::Bool(b) => JsonValue::Bool(*b),
            JsonValue::Number(JsonNumber::PosInt(n)) => JsonValue::Number(JsonNumber::PosInt(*n)),
            JsonValue::Number(JsonNumber::NegInt(n)) => JsonValue::Number(JsonNumber::NegInt(*n)),
            JsonValue::Number(JsonNumber::Float(t)) => JsonValue::Number(
                JsonNumber::Float(t.clone()),
            ),
            JsonValue::String(t) => JsonValue::String(t.clone()),
            JsonValue::Array(items) => {
                let mut out: Vec<JsonValue> = Vec::new();
                let mut i: usize = 0;
                while i < items.len()
                    invariant
                        i <= items.len(),
                        *self == JsonValue::Array(*items),
                        out@.len() == i,
                        forall|j: int| 0 <= j < i ==> out@[j]@ == items@[j]@,
                    decreases items.len() - i,
                {
                    proof {
                        broadcast use vstd::std_specs::vec::axiom_vec_index_decreases;
                        assert(*self == JsonValue::Array(*items));
                        assert(decreases_to!(*self => (*self)->Array_0));
                        assert(decreases_to!(items => items[i as int]));
                    }
                    out.push(items[i].deep_copy());
                    i += 1;
                }
                let r = JsonValue::Array(out);
                assert(r@ == self@) by {
                    lemma_items_view(out@);
                    lemma_items_view(items@);
                    assert(items_view(out@) =~= items_view(items@));
                }
                r
            },
            JsonValue::Object(ms) => {
                let mut out: Vec<(String, JsonValue)> = Vec::new();
                let mut i: usize = 0;
                while i < ms.len()
                    invariant
                        i <= ms.len(),
                        *self == JsonValue::Object(*ms),
                        out@.len() == i,
                        forall|j: int| 0 <= j < i ==> out@[j].0@ == ms@[j].0@ && out@[j].1@ == ms@[j].1@,
                    decreases ms.len() - i,
                {
                    proof {
                        broadcast use vstd::std_specs::vec::axiom_vec_index_decreases;
                        assert(decreases_to!(*self => (*self)->Object_0));
                        assert(decreases_to!(ms => ms[i as int]));
                        assert(decreases_to!(ms[i as int] => ms[i as int].1));
                    }
                    out.push((ms[i].0.clone(), ms[i].1.deep_copy()));
                    i += 1;
                }
                let r = JsonValue::Object(out);
                assert(r@ == self@) by {
                    lemma_members_view(out@);
                    lemma_members_view(ms@);
                    assert(members_view(out@) =~= members_view(ms@));
                }
                r
            },
        }
    }
}

impl Clone for JsonValue {
    fn clone(&self) -> (r: JsonValue)
        ensures
            r@ == self@,
    {
        self.deep_copy()
    }
}

/// Member `k` of an object; `None` for other values.
pub open spec fn get_member(v: Json, k: Seq<char>) -> Option<Json> {
    match v {
        Json::Obj(ms) => member(ms, k),
        _ => None,
    }
}

/// A JSON number from an unsigned integer.
pub open spec fn json_u64(n: u64) -> Json {
    Json::PosInt(n)
}

/// A JSON number from a signed integer, in the shape serde_json gives it.
pub open spec fn json_i64(n: i64) -> Json {
    if n >= 0 {
        Json::PosInt(n as u64)
    } else {
        Json::NegInt(n)
    }
}

impl JsonValue {
    /// A JSON string holding `s`.
    pub fn from_str(s: &str) -> (r: JsonValue)
        ensures
            r@ == Json::Str(s@),
    {
        JsonValue::String(s.to_string())
    }

    /// A JSON number from an unsigned integer.
    pub fn from_u64(n: u64) -> (r: JsonValue)
        ensures
            r@ == json_u64(n),
    {
        JsonValue::Number(JsonNumber::PosInt(n))
    }

    /// A JSON number from a signed integer.
    pub fn from_i64(n: i64) -> (r: JsonValue)
        ensures
            r@ == json_i64(n),
    {
        if n >= 0 {
            JsonValue::Number(JsonNumber::PosInt(n as u64))
        } else {
            JsonValue::Number(JsonNumber::NegInt(n))
        }
    }

    /// `true` for `Null`.
    pub fn is_null(&self) -> (b: bool)
        ensures
            b == (self@ is Null),
    {
        match self {
            JsonValue::Null => true,
            _ => false,
        }
    }

    /// `true` for strings.
    pub fn is_string(&self) -> (b: bool)
        ensures
            b == (self@ is Str),
    {
        match self {
            JsonValue::String(_) => true,
            _ => false,
        }
    }

    /// The number when it is a non-negative integer (`Value::as_u64`).
    pub fn as_u64(&self) -> (r: Option<u64>)
        ensures
            r == (match self@ {
                Json::PosInt(n) => Some(n),
                _ => None::<u64>,
            }),
    {
        match self {
            JsonValue::Number(JsonNumber::PosInt(n)) => Some(*n),
            _ => None,
        }
    }

    /// The number when it is an integer that fits `i64` (`Value::as_i64`).
    pub fn as_i64(&self) -> (r: Option<i64>)
        ensures
            r == (match self@ {
                Json::PosInt(n) => if n <= i64::MAX {
                    Some(n as i64)
                } else {
                    None::<i64>
                },
                Json::NegInt(n) => Some(n),
                _ => None::<i64>,
            }),
    {
        match self {
            JsonValue::Number(JsonNumber::PosInt(n)) => {
                if *n <= 0x7fff_ffff_ffff_ffff {
                    Some(*n as i64)
                } else {
                    None
                }
            },
            JsonValue::Number(JsonNumber::NegInt(n)) => Some(*n),
            _ => None,
        }
    }

    /// The boolean, for booleans (`Value::as_bool`).
    pub fn as_bool(&self) -> (r: Option<bool>)
        ensures
            r == (match self@ {
                Json::Bool(b) => Some(b),
                _ => None::<bool>,
            }),
    {
        match self {
            JsonValue::Bool(b) => Some(*b),
            _ => None,
        }
    }

    /// The text, for strings (`Value::as_str`).
    pub fn as_str(&self) -> (r: Option<&str>)
        ensures
            match r {
                Some(t) => self@ == Json::Str(t@),
                None => !(self@ is Str),
            },
    {
        match self {
            JsonValue::String(t) => Some(t.as_str()),
            _ => None,
        }
    }

    /// The members of an object.
    pub fn as_object(&self) -> (r: Option<&Vec<(String, JsonValue)>>)
        ensures
            r is Some == (self@ is Obj),
            r matches Some(ms) ==> self@ == Json::Obj(
                members_view(ms@),
            ),
    {
        match self {
            JsonValue::Object(ms) => Some(ms),
            _ => None,
        }
    }

    /// Member `k` of an object (the first one with that name).
    pub fn get(&self, k: &str) -> (r: Option<&JsonValue>)
        ensures
            match r {
                Some(v) => get_member(self@, k@) == Some(v@),
                None => get_member(self@, k@) is None,
            },
    {
        match self {
            JsonValue::Object(ms) => {
                let kc = chars_of(k);
                let ghost view_ms = members_view(ms@);
                proof {
                    lemma_members_view(ms@);
                }
                let mut i: usize = 0;
                assert(view_ms.skip(0) =~= view_ms);
                while i < ms.len()
                    invariant
                        i <= ms.len(),
                        kc@ == k@,
                        *self == JsonValue::Object(*ms),
                        view_ms == members_view(ms@),
                        view_ms.len() == ms@.len(),
                        forall|j: int| 0 <= j < ms@.len() ==> #[trigger] view_ms[j] == (ms@[j].0@, ms@[j].1@),
                        member(view_ms, k@) == member(view_ms.skip(i as int), k@),
                    decreases ms.len() - i,
                {
                    let name = chars_of(ms[i].0.as_str());
                    assert(view_ms.skip(i as int)[0] == view_ms[i as int]);
                    assert(view_ms[i as int] == (ms@[i as int].0@, ms@[i as int].1@));
                    assert(name@ == ms@[i as int].0@);
                    assert(view_ms.skip(i as int).len() > 0);
                    if chars_eq(&name, &kc) {
                        return Some(&ms[i].1);
                    }
                    assert(view_ms.skip(i as int)[0].0 != k@);
                    assert(member(view_ms.skip(i as int), k@) == member(
                        view_ms.skip(i as int).drop_first(),
                        k@,
                    ));
                    assert(view_ms.skip(i as int).drop_first() =~= view_ms.skip(i + 1));
                    i += 1;
                }
                assert(view_ms.skip(i as int) =~= Seq::<(Seq<char>, Json)>::empty());
                None
            },
            _ => None,
        }
    }
}

/// The value of the first member named `k`.
pub fn find_member<'a>(ms: &'a Vec<(String, JsonValue)>, k: &str) -> (r: Option<&'a JsonValue>)
    ensures
        match r {
            Some(v) => member(members_view(ms@), k@) == Some(v@),
            None => member(members_view(ms@), k@) is None,
        },
{
    let kc = chars_of(k);
    let ghost view_ms = members_view(ms@);
    proof {
        lemma_members_view(ms@);
    }
    let mut i: usize = 0;
    assert(view_ms.skip(0) =~= view_ms);
    while i < ms.len()
        invariant
            i <= ms.len(),
            kc@ == k@,
            view_ms == members_view(ms@),
            view_ms.len() == ms@.len(),
            forall|j: int| 0 <= j < ms@.len() ==> #[trigger] view_ms[j] == (ms@[j].0@, ms@[j].1@),
            member(view_ms, k@) == member(view_ms.skip(i as int), k@),
        decreases ms.len() - i,
    {
        let name = chars_of(ms[i].0.as_str());
        assert(view_ms.skip(i as int)[0] == view_ms[i as int]);
        assert(view_ms.skip(i as int).len() > 0);
        if chars_eq(&name, &kc) {
            return Some(&ms[i].1);
        }
        assert(member(view_ms.skip(i as int), k@) == member(view_ms.skip(i as int).drop_first(), k@));
        assert(view_ms.skip(i as int).drop_first() =~= view_ms.skip(i + 1));
        i += 1;
    }
    assert(view_ms.skip(i as int) =~= Seq::<(Seq<char>, Json)>::empty());
    None
}

/// A copy of object members.
pub fn clone_members(ms: &Vec<(String, JsonValue)>) -> (r: Vec<(String, JsonValue)>)
    ensures
        members_view(r@) == members_view(ms@),
        r@.len() == ms@.len(),
        forall|i: int| 0 <= i < ms@.len() ==> #[trigger] r@[i].0@ == ms@[i].0@ && r@[i].1@ == ms@[i].1@,
{
    let mut out: Vec<(String, JsonValue)> = Vec::new();
    let mut i: usize = 0;
    while i < ms.len()
        invariant
            i <= ms.len(),
            out@.len() == i,
            forall|j: int| 0 <= j < i ==> #[trigger] out@[j].0@ == ms@[j].0@ && out@[j].1@ == ms@[j].1@,
        decreases ms.len() - i,
    {
        out.push((ms[i].0.clone(), ms[i].1.clone()));
        i += 1;
    }
    proof {
        lemma_members_view(out@);
        lemma_members_view(ms@);
        assert(members_view(out@) =~= members_view(ms@));
    }
    out
}

// ─── JSON text, through serde_json ─────────────────────────────────────────

#[verifier::external_type_specification]
#[verifier::external_body]
pub struct ExSerdeValue(serde_json::Value);

/// The value that `serde_json::from_str` reads from `text`, when it reads one.
pub uninterp spec fn json_read(text: Seq<char>) -> Option<Json>;

/// The compact text that `serde_json::to_string` writes for `v`.
pub uninterp spec fn json_written(v: Json) -> Seq<char>;

/// One-for-one conversion of a `serde_json::Value` into the library's value;
/// a number keeps the shape serde_json gives it (`as_u64`, else `as_i64`,
/// else its text).
#[verifier::external_body]
fn from_serde(v: Value) -> JsonValue {
    match v {
        Value::Null => JsonValue::Null,
        Value::Bool(b) => JsonValue::Bool(b),
        Value::Number(n) => JsonValue::Number(match (n.as_u64(), n.as_i64()) {
            (Some(u), _) => JsonNumber::PosInt(u),
            (None, Some(i)) => JsonNumber::NegInt(i),
            _ => JsonNumber::Float(n.to_string()),
        }),
        Value::String(s) => JsonValue::String(s),
        Value::Array(a) => JsonValue::Array(a.into_iter().map(from_serde).collect()),
        Value::Object(m) => JsonValue::Object(m.into_iter().map(|(k, x)| (k, from_serde(x))).collect()),
    }
}

/// One-for-one conversion of the library's value into a `Value`.
#[verifier::external_body]
pub(crate) fn to_serde(v: &JsonValue) -> Value {
    match v {
        JsonValue::Null => Value::Null,
        JsonValue::Bool(b) => Value::Bool(*b),
        JsonValue::Number(JsonNumber::PosInt(n)) => Value::from(*n),
        JsonValue::Number(JsonNumber::NegInt(n)) => Value::from(*n),
        JsonValue::Number(JsonNumber::Float(t)) => t.parse().map(Value::Number).unwrap_or(Value::Null),
        JsonValue::String(s) => Value::String(s.clone()),
        JsonValue::Array(a) => Value::Array(a.iter().map(to_serde).collect()),
        JsonValue::Object(m) => Value::Object(m.iter().map(|(k, x)| (k.clone(), to_serde(x))).collect()),
    }
}

/// The message of the error serde_json reports for `text` that it cannot read.
pub uninterp spec fn json_error(text: Seq<char>) -> Seq<char>;

/// Reads JSON text with `serde_json::from_str`: the value is what the name
/// `json_read` gives for `text`; where serde_json reports an error, the
/// result is that error's message (the name `json_error`).
#[verifier::external_body]
pub(crate) fn read_json(text: &str) -> (r: Result<JsonValue, String>)
    ensures
        match r {
            Ok(v) => json_read(text@) == Some(v@),
            Err(m) => json_read(text@) is None && m@ == json_error(text@),
        },
{
    serde_json::from_str::<serde_json::Value>(text).map(from_serde).map_err(|e| e.to_string())
}

/// Writes the compact JSON text of `v` with `serde_json::to_string`: the
/// result is what the name `json_written` gives for `v`.
#[verifier::external_body]
pub(crate) fn write_json(v: &JsonValue) -> (s: String)
    ensures
        s@ == json_written(v@),
{
    serde_json::to_string(&to_serde(v)).unwrap_or_default()
}

} // verus!
