//! CBOR values read from an Atomicals envelope, and their JSON form.

use vstd::prelude::*;
use crate::hex_text::{hex_encode, hex_encode_spec};
use crate::json::{
    Json, JsonNumber, JsonValue, lemma_member_models, lemma_models, member_models, models,
    number_from_i64,
};
use crate::text::str_equal;
use ciborium::Value as RawCbor;

verus! {

/// A CBOR value as `ciborium` reads it; a float is given by its IEEE-754 bits.
#[derive(Debug)]
pub enum CborValue {
    Integer(i128),
    Bytes(Vec<u8>),
    Float(u64),
    Text(String),
    Bool(bool),
    Null,
    Tag(u64, Box<CborValue>),
    Array(Vec<CborValue>),
    Mapping(Vec<(CborValue, CborValue)>),
}

/// `ciborium::Value`, carried from the reader to [`cbor_from_ciborium`].
#[verifier::external_type_specification]
#[verifier::external_body]
pub struct ExCiboriumValue(ciborium::Value);

/// The library's form of a value that `ciborium` read: each variant to its
/// namesake (a float by its bits); nothing for a kind of value that a later
/// `ciborium` may add.
#[verifier::external_body]
fn cbor_from_ciborium(value: RawCbor) -> Option<CborValue> {
    Some(match value {
        RawCbor::Integer(i) => CborValue::Integer(i128::from(i)),
        RawCbor::Bytes(b) => CborValue::Bytes(b),
        RawCbor::Float(f) => CborValue::Float(f.to_bits()),
        RawCbor::Text(t) => CborValue::Text(t),
        RawCbor::Bool(b) => CborValue::Bool(b),
        RawCbor::Null => CborValue::Null,
        RawCbor::Tag(t, inner) => CborValue::Tag(t, Box::new(cbor_from_ciborium(*inner)?)),
        RawCbor::Array(v) => CborValue::Array(cbor_items_from_ciborium(v)?),
        RawCbor::Map(v) => CborValue::Mapping(v.into_iter().map(cbor_entry_from_ciborium).collect::<Option<_>>()?),
        _ => return None,
    })
}

/// The library's form of the items of an array that `ciborium` read.
#[verifier::external_body]
fn cbor_items_from_ciborium(items: Vec<RawCbor>) -> Option<Vec<CborValue>> {
    items.into_iter().map(cbor_from_ciborium).collect()
}

/// The library's form of an entry of a map that `ciborium` read.
#[verifier::external_body]
fn cbor_entry_from_ciborium(entry: (RawCbor, RawCbor)) -> Option<(CborValue, CborValue)> {
    Some((cbor_from_ciborium(entry.0)?, cbor_from_ciborium(entry.1)?))
}

/// What `ciborium::de::from_reader::<ciborium::Value, _>` reads from `bytes`,
/// in the library's form: the CBOR value they start with (bytes after it are
/// not read); nothing when they do not start with one.
pub uninterp spec fn cbor_read(bytes: Seq<u8>) -> Option<CborValue>;

/// Reads `bytes` as CBOR (`ciborium::de::from_reader`); the result is named
/// [`cbor_read`].
#[verifier::external_body]
pub(crate) fn read_cbor(bytes: &[u8]) -> (r: Option<CborValue>)
    ensures
        r == cbor_read(bytes@),
{
    ciborium::de::from_reader::<RawCbor, _>(bytes).ok().and_then(cbor_from_ciborium)
}

/// Whether the IEEE-754 double with these bits is finite.
pub open spec fn finite_float_bits(bits: u64) -> bool {
    (bits >> 52u64) & 0x7ffu64 != 0x7ffu64
}

/// The index of the first member named `key`, from position `i` on.
pub open spec fn key_index(members: Seq<(Seq<char>, Json)>, key: Seq<char>, i: int) -> Option<int>
    decreases members.len() - i,
{
    if i < 0 || i >= members.len() {
        None
    } else if members[i].0 == key {
        Some(i)
    } else {
        key_index(members, key, i + 1)
    }
}

/// Inserting a member into a JSON object: the value of an existing member of
/// that name is replaced, otherwise the member is added.
pub open spec fn object_insert(members: Seq<(Seq<char>, Json)>, key: Seq<char>, value: Json) -> Seq<(Seq<char>, Json)> {
    match key_index(members, key, 0) {
        Some(i) => members.update(i, (key, value)),
        None => members.push((key, value)),
    }
}

/// The JSON form of a CBOR value: integers that fit an `i64` become numbers,
/// byte strings become lowercase hex text, tags are dropped, maps become
/// objects (their keys must be text; a later member replaces an earlier one
/// of the same name), and finite floats stay numbers. Anything else has no
/// JSON form.
pub open spec fn cbor_json(c: CborValue) -> Option<Json>
    decreases c,
{
    match c {
        CborValue::Integer(x) => if i64::MIN <= x <= i64::MAX {
            Some(Json::Number(number_from_i64(x as i64)))
        } else {
            None
        },
        CborValue::Bytes(b) => Some(Json::Str(hex_encode_spec(b@))),
        CborValue::Float(bits) => if finite_float_bits(bits) {
            Some(Json::Number(JsonNumber::Float(bits)))
        } else {
            None
        },
        CborValue::Text(t) => Some(Json::Str(t@)),
        CborValue::Bool(b) => Some(Json::Bool(b)),
        CborValue::Null => Some(Json::Null),
        CborValue::Tag(_, inner) => cbor_json(*inner),
        CborValue::Array(items) => match cbor_items_json(items@) {
            Some(js) => Some(Json::Array(js)),
            None => None,
        },
        CborValue::Mapping(entries) => match cbor_entries_json(entries@) {
            Some(ms) => Some(Json::Object(ms)),
            None => None,
        },
    }
}

/// The JSON forms of a sequence of CBOR values, when each has one.
pub open spec fn cbor_items_json(s: Seq<CborValue>) -> Option<Seq<Json>>
    decreases s,
{
    if s.len() == 0 {
        Some(Seq::empty())
    } else {
        match (cbor_items_json(s.subrange(0, s.len() - 1)), cbor_json(s[s.len() - 1])) {
            (Some(a), Some(j)) => Some(a.push(j)),
            _ => None,
        }
    }
}

/// The JSON object for the entries of a CBOR map, inserted in order.
pub open spec fn cbor_entries_json(s: Seq<(CborValue, CborValue)>) -> Option<Seq<(Seq<char>, Json)>>
    decreases s,
{
    if s.len() == 0 {
        Some(Seq::empty())
    } else {
        let last = s[s.len() - 1];
        match (cbor_entries_json(s.subrange(0, s.len() - 1)), last.0, cbor_json(last.1)) {
            (Some(ms), CborValue::Text(k), Some(j)) => Some(object_insert(ms, k@, j)),
            _ => None,
        }
    }
}

/// The first byte string met in a depth-first walk of a CBOR value (map
/// values and array items in order, through tags).
pub open spec fn first_bytes(c: CborValue) -> Option<Seq<u8>>
    decreases c,
{
    match c {
        CborValue::Bytes(b) => Some(b@),
        CborValue::Mapping(entries) => first_bytes_in_entries(entries@),
        CborValue::Array(items) => first_bytes_in_items(items@),
        CborValue::Tag(_, inner) => first_bytes(*inner),
        _ => None,
    }
}

pub open spec fn first_bytes_in_items(s: Seq<CborValue>) -> Option<Seq<u8>>
    decreases s,
{
    if s.len() == 0 {
        None
    } else {
        match first_bytes(s[0]) {
            Some(b) => Some(b),
            None => first_bytes_in_items(s.subrange(1, s.len() as int)),
        }
    }
}

pub open spec fn first_bytes_in_entries(s: Seq<(CborValue, CborValue)>) -> Option<Seq<u8>>
    decreases s,
{
    if s.len() == 0 {
        None
    } else {
        match first_bytes(s[0].1) {
            Some(b) => Some(b),
            None => first_bytes_in_entries(s.subrange(1, s.len() as int)),
        }
    }
}

/// The first byte string in a CBOR value, as [`first_bytes`] describes it.
#[verifier::loop_isolation(false)]
pub fn find_cbor_first_bytes(c: &CborValue) -> (r: Option<&Vec<u8>>)
    ensures
        match r {
            Some(b) => first_bytes(*c) == Some(b@),
            None => first_bytes(*c) is None,
        },
    decreases c,
{
    match c {
        CborValue::Bytes(b) => Some(b),
        CborValue::Mapping(entries) => {
            let mut i: usize = 0;
            assert(entries@.subrange(0, entries@.len() as int) =~= entries@);
            while i < entries.len()
                invariant
                    i <= entries@.len(),
                    first_bytes_in_entries(entries@) == first_bytes_in_entries(
                        entries@.subrange(i as int, entries@.len() as int),
                    ),
                decreases entries@.len() - i,
            {
                let ghost rest = entries@.subrange(i as int, entries@.len() as int);
                assert(rest[0] == entries@[i as int]);
                assert(rest.subrange(1, rest.len() as int) =~= entries@.subrange(i + 1, entries@.len() as int));
                let found = find_cbor_first_bytes(&entries[i].1);
                if found.is_some() {
                    return found;
                }
                i += 1;
            }
            None
        },
        CborValue::Array(items) => {
            let mut i: usize = 0;
            assert(items@.subrange(0, items@.len() as int) =~= items@);
            while i < items.len()
                invariant
                    i <= items@.len(),
                    first_bytes_in_items(items@) == first_bytes_in_items(
                        items@.subrange(i as int, items@.len() as int),
                    ),
                decreases items@.len() - i,
            {
                let ghost rest = items@.subrange(i as int, items@.len() as int);
                assert(rest[0] == items@[i as int]);
                assert(rest.subrange(1, rest.len() as int) =~= items@.subrange(i + 1, items@.len() as int));
                let found = find_cbor_first_bytes(&items[i]);
                if found.is_some() {
                    return found;
                }
                i += 1;
            }
            None
        },
        CborValue::Tag(_, inner) => find_cbor_first_bytes(inner),
        _ => None,
    }
}

fn is_finite_bits(bits: u64) -> (r: bool)
    ensures
        r == finite_float_bits(bits),
{
    (bits >> 52u64) & 0x7ffu64 != 0x7ffu64
}

/// The position of the member named `key`, as [`key_index`] gives it.
fn find_member(members: &Vec<(String, JsonValue)>, key: &str) -> (r: Option<usize>)
    ensures
        match r {
            Some(i) => key_index(member_models(members@), key@, 0) == Some(i as int),
            None => key_index(member_models(members@), key@, 0) is None,
        },
{
    proof {
        lemma_member_models(members@);
    }
    let ghost ms = member_models(members@);
    let mut i: usize = 0;
    while i < members.len()
        invariant
            i <= members@.len(),
            ms == member_models(members@),
            ms.len() == members@.len(),
            forall|j: int| 0 <= j < members@.len() ==> #[trigger] ms[j] == (members@[j].0@, members@[j].1.model()),
            key_index(ms, key@, 0) == key_index(ms, key@, i as int),
        decreases members@.len() - i,
    {
        if str_equal(members[i].0.as_str(), key) {
            return Some(i);
        }
        i += 1;
    }
    None
}

/// A found member index lies in the object and names the member sought.
proof fn lemma_key_index(members: Seq<(Seq<char>, Json)>, key: Seq<char>, i: int)
    requires
        0 <= i,
    ensures
        key_index(members, key, i) matches Some(j) ==> i <= j < members.len() && members[j].0 == key,
    decreases members.len() - i,
{
    if i < members.len() && members[i].0 != key {
        lemma_key_index(members, key, i + 1);
    }
}

/// Inserts a member into an object, as [`object_insert`] describes it.
fn insert_member(members: &mut Vec<(String, JsonValue)>, key: String, value: JsonValue)
    ensures
        member_models(final(members)@) == object_insert(member_models(old(members)@), key@, value.model()),
{
    proof {
        lemma_member_models(members@);
    }
    let ghost before = members@;
    match find_member(members, key.as_str()) {
        Some(i) => {
            proof {
                lemma_key_index(member_models(before), key@, 0);
            }
            members.set(i, (key, value));
            proof {
                lemma_member_models(members@);
                assert(member_models(members@) =~= member_models(before).update(
                    i as int,
                    (key@, value.model()),
                ));
            }
        },
        None => {
            members.push((key, value));
            proof {
                lemma_member_models(members@);
                assert(member_models(members@) =~= member_models(before).push((key@, value.model())));
            }
        },
    }
}

/// The JSON form of a CBOR value, as [`cbor_json`] describes it; nothing
/// when it has none.
#[verifier::loop_isolation(false)]
fn json_form(c: &CborValue) -> (r: Option<JsonValue>)
    ensures
        match r {
            Some(j) => cbor_json(*c) == Some(j.model()),
            None => cbor_json(*c) is None,
        },
    decreases c,
{
    match c {
        CborValue::Integer(x) => {
            if i64::MIN as i128 <= *x && *x <= i64::MAX as i128 {
                Some(JsonValue::Number(JsonNumber::from_i64(*x as i64)))
            } else {
                None
            }
        },
        CborValue::Bytes(b) => Some(JsonValue::String(hex_encode(b.as_slice()))),
        CborValue::Float(bits) => {
            if is_finite_bits(*bits) {
                Some(JsonValue::Number(JsonNumber::Float(*bits)))
            } else {
                None
            }
        },
        CborValue::Text(t) => Some(JsonValue::String(t.clone())),
        CborValue::Bool(b) => Some(JsonValue::Bool(*b)),
        CborValue::Null => Some(JsonValue::Null),
        CborValue::Tag(_, inner) => json_form(inner),
        CborValue::Array(items) => {
            let mut out: Vec<JsonValue> = Vec::new();
            let mut i: usize = 0;
            while i < items.len()
                invariant
                    i <= items@.len(),
                    cbor_items_json(items@.subrange(0, i as int)) == Some(models(out@)),
                decreases items@.len() - i,
            {
                assert(items@.subrange(0, i + 1).subrange(0, i as int) =~= items@.subrange(0, i as int));
                match json_form(&items[i]) {
                    Some(j) => {
                        let ghost before = out@;
                        out.push(j);
                        proof {
                            lemma_models(out@);
                            lemma_models(before);
                            assert(models(out@) =~= models(before).push(j.model()));
                        }
                    },
                    None => {
                        proof {
                            lemma_items_fail(items@, i as int);
                        }
                        return None;
                    },
                }
                i += 1;
            }
            assert(items@.subrange(0, items@.len() as int) =~= items@);
            Some(JsonValue::Array(out))
        },
        CborValue::Mapping(entries) => {
            let mut out: Vec<(String, JsonValue)> = Vec::new();
            let mut i: usize = 0;
            while i < entries.len()
                invariant
                    i <= entries@.len(),
                    cbor_entries_json(entries@.subrange(0, i as int)) == Some(member_models(out@)),
                decreases entries@.len() - i,
            {
                assert(entries@.subrange(0, i + 1).subrange(0, i as int) =~= entries@.subrange(0, i as int));
                let key = match &entries[i].0 {
                    CborValue::Text(k) => k.clone(),
                    _ => {
                        proof {
                            lemma_entries_fail(entries@, i as int);
                        }
                        return None;
                    },
                };
                match json_form(&entries[i].1) {
                    Some(j) => {
                        insert_member(&mut out, key, j);
                    },
                    None => {
                        proof {
                            lemma_entries_fail(entries@, i as int);
                        }
                        return None;
                    },
                }
                i += 1;
            }
            assert(entries@.subrange(0, entries@.len() as int) =~= entries@);
            Some(JsonValue::Object(out))
        },
    }
}

/// Whether a CBOR value has a JSON form ([`cbor_json`]); one without is a
/// value the proxy gives up on.
pub fn has_json_form(c: &CborValue) -> (r: bool)
    ensures
        r == (cbor_json(*c) is Some),
{
    json_form(c).is_some()
}

/// The JSON form of a CBOR value that has one, as [`cbor_json`] describes it.
pub fn cbor_to_json(c: &CborValue) -> (r: JsonValue)
    requires
        cbor_json(*c) is Some,
    ensures
        cbor_json(*c) == Some(r.model()),
{
    match json_form(c) {
        Some(j) => j,
        None => {
            proof {
                assert(false);
            }
            JsonValue::Null
        },
    }
}

/// Once an item has no JSON form, no longer prefix has one.
proof fn lemma_items_fail(s: Seq<CborValue>, i: int)
    requires
        0 <= i < s.len(),
        cbor_json(s[i]) is None,
    ensures
        cbor_items_json(s) is None,
    decreases s.len(),
{
    if i < s.len() - 1 {
        let t = s.subrange(0, s.len() - 1);
        assert(t[i] == s[i]);
        lemma_items_fail(t, i);
    }
}

/// Once an entry has a key that is not text, or a value without JSON form,
/// no longer prefix has a JSON form.
proof fn lemma_entries_fail(s: Seq<(CborValue, CborValue)>, i: int)
    requires
        0 <= i < s.len(),
        !(s[i].0 is Text) || cbor_json(s[i].1) is None,
    ensures
        cbor_entries_json(s) is None,
    decreases s.len(),
{
    if i < s.len() - 1 {
        let t = s.subrange(0, s.len() - 1);
        assert(t[i] == s[i]);
        lemma_entries_fail(t, i);
    }
}

} // verus!
