//! JSON values as the proxy reads and builds them.
//!
//! [`JsonValue`] holds what a `serde_json::Value` holds; [`Json`] is its
//! mathematical model, in which contracts are written.

use vstd::prelude::*;
use crate::text::str_equal;
use serde_json::Value as RawJson;

verus! {

/// A JSON number as `serde_json` stores it: a non-negative integer, a
/// negative integer, or a finite float given by its IEEE-754 bits.
#[derive(Debug, PartialEq, Eq, Clone, Copy, Structural)]
pub enum JsonNumber {
    PosInt(u64),
    NegInt(i64),
    Float(u64),
}

/// A JSON value. Object members keep the order in which they are listed.
#[derive(Debug)]
pub enum JsonValue {
    Null,
    Bool(bool),
    Number(JsonNumber),
    String(String),
    Array(Vec<JsonValue>),
    Object(Vec<(String, JsonValue)>),
}

/// The model of a JSON value.
pub enum Json {
    Null,
    Bool(bool),
    Number(JsonNumber),
    Str(Seq<char>),
    Array(Seq<Json>),
    Object(Seq<(Seq<char>, Json)>),
}

impl JsonValue {
    /// The model of this value.
    pub open spec fn model(self) -> Json
        decreases self,
    {
        match self {
            JsonValue::Null => Json::Null,
            JsonValue::Bool(b) => Json::Bool(b),
            JsonValue::Number(n) => Json::Number(n),
            JsonValue::String(s) => Json::Str(s@),
            JsonValue::Array(v) => Json::Array(models(v@)),
            JsonValue::Object(o) => Json::Object(member_models(o@)),
        }
    }
}

/// The models of a sequence of values.
pub open spec fn models(s: Seq<JsonValue>) -> Seq<Json>
    decreases s,
{
    if s.len() == 0 {
        Seq::empty()
    } else {
        models(s.subrange(0, s.len() - 1)).push(s[s.len() - 1].model())
    }
}

/// The models of a sequence of object members.
pub open spec fn member_models(s: Seq<(String, JsonValue)>) -> Seq<(Seq<char>, Json)>
    decreases s,
{
    if s.len() == 0 {
        Seq::empty()
    } else {
        member_models(s.subrange(0, s.len() - 1)).push(
            (s[s.len() - 1].0@, s[s.len() - 1].1.model()),
        )
    }
}

pub proof fn lemma_models(s: Seq<JsonValue>)
    ensures
        models(s).len() == s.len(),
        forall|i: int| 0 <= i < s.len() ==> #[trigger] models(s)[i] == s[i].model(),
    decreases s.len(),
{
    if s.len() > 0 {
        let t = s.subrange(0, s.len() - 1);
        lemma_models(t);
        assert forall|i: int| 0 <= i < s.len() implies #[trigger] models(s)[i] == s[i].model() by {
            if i < s.len() - 1 {
                assert(t[i] == s[i]);
            }
        }
    }
}

pub proof fn lemma_member_models(s: Seq<(String, JsonValue)>)
    ensures
        member_models(s).len() == s.len(),
        forall|i: int|
            0 <= i < s.len() ==> #[trigger] member_models(s)[i] == (s[i].0@, s[i].1.model()),
    decreases s.len(),
{
    if s.len() > 0 {
        let t = s.subrange(0, s.len() - 1);
        lemma_member_models(t);
        assert forall|i: int| 0 <= i < s.len() implies #[trigger] member_models(s)[i] == (
            s[i].0@,
            s[i].1.model(),
        ) by {
            if i < s.len() - 1 {
                assert(t[i] == s[i]);
            }
        }
    }
}

/// The first member of `members` named `key`, from position `i` on.
pub open spec fn lookup_from(members: Seq<(Seq<char>, Json)>, key: Seq<char>, i: int) -> Option<Json>
    decreases members.len() - i,
{
    if i < 0 || i >= members.len() {
        None
    } else if members[i].0 == key {
        Some(members[i].1)
    } else {
        lookup_from(members, key, i + 1)
    }
}

/// `value[key]` as `serde_json::Value::get` reads it: the member `key` of an
/// object, and nothing for any other value.
pub open spec fn json_get(value: Json, key: Seq<char>) -> Option<Json> {
    match value {
        Json::Object(members) => lookup_from(members, key, 0),
        _ => None,
    }
}

/// `value.as_str()`: the text of a JSON string.
pub open spec fn json_str(value: Json) -> Option<Seq<char>> {
    match value {
        Json::Str(s) => Some(s),
        _ => None,
    }
}

/// `Number::from(i64)`: non-negative integers are stored as `PosInt`.
pub open spec fn number_from_i64(n: i64) -> JsonNumber {
    if n < 0 {
        JsonNumber::NegInt(n)
    } else {
        JsonNumber::PosInt(n as u64)
    }
}

/// `Number::as_i64`: the number as an `i64`, when it is an integer that fits.
pub open spec fn number_as_i64(n: JsonNumber) -> Option<i64> {
    match n {
        JsonNumber::PosInt(u) => if u <= i64::MAX as u64 {
            Some(u as i64)
        } else {
            None
        },
        JsonNumber::NegInt(i) => Some(i),
        JsonNumber::Float(_) => None,
    }
}

impl JsonNumber {
    /// `serde_json::Number::from(n)` for an `i64`.
    pub fn from_i64(n: i64) -> (r: JsonNumber)
        ensures
            r == number_from_i64(n),
    {
        if n < 0 {
            JsonNumber::NegInt(n)
        } else {
            JsonNumber::PosInt(n as u64)
        }
    }

    /// `serde_json::Number::as_i64`.
    pub fn as_i64(&self) -> (r: Option<i64>)
        ensures
            r == number_as_i64(*self),
    {
        match self {
            JsonNumber::PosInt(u) => if *u <= i64::MAX as u64 {
                Some(*u as i64)
            } else {
                None
            },
            JsonNumber::NegInt(i) => Some(*i),
            JsonNumber::Float(_) => None,
        }
    }
}

impl JsonValue {
    /// A JSON string holding `s`.
    pub fn string(s: String) -> (r: JsonValue)
        ensures
            r.model() == Json::Str(s@),
    {
        JsonValue::String(s)
    }

    /// The member `key` of an object; nothing for any other value.
    pub fn get<'a>(&'a self, key: &str) -> (r: Option<&'a JsonValue>)
        ensures
            match r {
                Some(v) => json_get(self.model(), key@) == Some(v.model()),
                None => json_get(self.model(), key@) is None,
            },
    {
        match self {
            JsonValue::Object(members) => {
                proof {
                    lemma_member_models(members@);
                }
                let ghost ms = member_models(members@);
                let mut i: usize = 0;
                while i < members.len()
                    invariant
                        i <= members@.len(),
                        ms == member_models(members@),
                        ms.len() == members@.len(),
                        forall|j: int|
                            0 <= j < members@.len() ==> #[trigger] ms[j] == (
                                members@[j].0@,
                                members@[j].1.model(),
                            ),
                        json_get(self.model(), key@) == lookup_from(ms, key@, i as int),
                    decreases members@.len() - i,
                {
                    if str_equal(members[i].0.as_str(), key) {
                        return Some(&members[i].1);
                    }
                    i += 1;
                }
                None
            },
            _ => None,
        }
    }

    /// The text of a JSON string; nothing for any other value.
    pub fn as_str(&self) -> (r: Option<&String>)
        ensures
            match r {
                Some(s) => json_str(self.model()) == Some(s@),
                None => json_str(self.model()) is None,
            },
    {
        match self {
            JsonValue::String(s) => Some(s),
            _ => None,
        }
    }

    /// Whether this value is an object.
    pub fn is_object(&self) -> (r: bool)
        ensures
            r == (self.model() is Object),
    {
        match self {
            JsonValue::Object(_) => true,
            _ => false,
        }
    }

    /// Whether this value is an object with a member `key`
    /// (`value.as_object().contains_key(key)`).
    pub fn has_member(&self, key: &str) -> (r: bool)
        ensures
            r == (json_get(self.model(), key@) is Some),
    {
        match self.get(key) {
            Some(_) => true,
            None => false,
        }
    }

    /// A copy of this value.
    #[verifier::loop_isolation(false)]
    pub fn duplicate(&self) -> (r: JsonValue)
        ensures
            r.model() == self.model(),
        decreases self,
    {
        match self {
            JsonValue::Null => JsonValue::Null,
            JsonValue::Bool(b) => JsonValue::Bool(*b),
            JsonValue::Number(n) => JsonValue::Number(*n),
            JsonValue::String(s) => JsonValue::String(s.clone()),
            JsonValue::Array(items) => {
                let mut out: Vec<JsonValue> = Vec::new();
                let mut i: usize = 0;
                while i < items.len()
                    invariant
                        i <= items@.len(),
                        out@.len() == i,
                        forall|j: int| 0 <= j < i ==> #[trigger] out@[j].model() == items@[j].model(),
                    decreases items@.len() - i,
                {
                    let item = items[i].duplicate();
                    out.push(item);
                    i += 1;
                }
                proof {
                    lemma_models(out@);
                    lemma_models(items@);
                    assert(models(out@) =~= models(items@));
                }
                JsonValue::Array(out)
            },
            JsonValue::Object(members) => {
                let mut out: Vec<(String, JsonValue)> = Vec::new();
                let mut i: usize = 0;
                while i < members.len()
                    invariant
                        i <= members@.len(),
                        out@.len() == i,
                        forall|j: int|
                            0 <= j < i ==> #[trigger] out@[j].0@ == members@[j].0@ && out@[j].1.model()
                                == members@[j].1.model(),
                    decreases members@.len() - i,
                {
                    let key = members[i].0.clone();
                    let value = members[i].1.duplicate();
                    out.push((key, value));
                    i += 1;
                }
                proof {
                    lemma_member_models(out@);
                    lemma_member_models(members@);
                    assert(member_models(out@) =~= member_models(members@));
                }
                JsonValue::Object(out)
            },
        }
    }
}

/// `serde_json::Value`, carried from the parser to [`json_from_serde`].
#[verifier::external_type_specification]
#[verifier::external_body]
pub struct ExSerdeJsonValue(serde_json::Value);

/// The library's form of a value that `serde_json` parsed: each variant to
/// its namesake.
#[verifier::external_body]
fn json_from_serde(value: RawJson) -> JsonValue {
    match value {
        RawJson::Null => JsonValue::Null,
        RawJson::Bool(b) => JsonValue::Bool(b),
        RawJson::Number(n) => JsonValue::Number(number_from_serde(n)),
        RawJson::String(t) => JsonValue::String(t),
        RawJson::Array(items) => JsonValue::Array(items.into_iter().map(json_from_serde).collect()),
        RawJson::Object(m) => JsonValue::Object(m.into_iter().map(|(k, v)| (k, json_from_serde(v))).collect()),
    }
}

/// `serde_json::Number`, carried from the parser to [`number_from_serde`].
#[verifier::external_type_specification]
#[verifier::external_body]
pub struct ExSerdeJsonNumber(serde_json::Number);

/// The library's form of a number that `serde_json` parsed: the first of
/// `u64`, `i64` and float that holds it.
#[verifier::external_body]
fn number_from_serde(n: serde_json::Number) -> JsonNumber {
    match (n.as_u64(), n.as_i64()) {
        (Some(u), _) => JsonNumber::PosInt(u),
        (None, Some(i)) => JsonNumber::NegInt(i),
        (None, None) => JsonNumber::Float(n.as_f64().unwrap_or_default().to_bits()),
    }
}

/// What `serde_json::from_str::<Vec<serde_json::Value>>` reads from `text`:
/// the items of the JSON array it holds, or nothing when it holds no JSON array.
pub uninterp spec fn json_array_read(text: Seq<char>) -> Option<Seq<Json>>;

/// Parses `text` as a JSON array (`serde_json::from_str`); the result is
/// named [`json_array_read`], with each item in the library's form.
#[verifier::external_body]
pub(crate) fn read_json_array(text: &str) -> (r: Option<Vec<JsonValue>>)
    ensures
        match r {
            Some(v) => json_array_read(text@) == Some(models(v@)),
            None => json_array_read(text@) is None,
        },
{
    serde_json::from_str::<Vec<RawJson>>(text).ok().map(|v| v.into_iter().map(json_from_serde).collect())
}

} // verus!
