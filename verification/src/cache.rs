//! Cache keys of upstream calls: a hash of the method and the parameters.

use vstd::prelude::*;
use std::collections::hash_map::DefaultHasher;
use std::hash::Hasher;
use vstd::std_specs::hash::DefaultHasherAdditionalSpecFns;
use vstd::bytes::spec_u64_to_le_bytes;
use vstd::endian::{Endian, endianness};
use vstd::utf8::encode_utf8;
use crate::json::{Json, JsonValue, lemma_member_models, lemma_models, member_models, models, number_as_i64};

verus! {

/// The writes that hashing a string makes: its UTF-8 bytes, then `0xff`.
pub open spec fn str_writes(s: Seq<char>) -> Seq<Seq<u8>> {
    seq![encode_utf8(s), seq![0xffu8]]
}

/// The 8 bytes of `x` in the byte order of the machine that runs the program.
pub open spec fn native_bytes(x: u64) -> Seq<u8> {
    match endianness() {
        Endian::Little => spec_u64_to_le_bytes(x),
        Endian::Big => spec_u64_to_le_bytes(x).reverse(),
    }
}

/// `i64::to_ne_bytes`: std documents the result as the integer's memory
/// representation in the target's native byte order, which vstd calls
/// `endianness()`.
#[verifier::external_body]
fn to_native_bytes(x: i64) -> (r: [u8; 8])
    ensures
        r@ == native_bytes(x as u64),
{
    x.to_ne_bytes()
}

/// The writes that hashing a JSON value makes: strings as above, numbers as
/// the 8 bytes of their `i64` value in the machine's byte order, booleans as one byte, `null` as the
/// string `null`, arrays item after item and objects name, value, name, value...
/// A number that is not an `i64` cannot be hashed.
pub open spec fn json_writes(j: Json) -> Option<Seq<Seq<u8>>>
    decreases j,
{
    match j {
        Json::Null => Some(str_writes("null"@)),
        Json::Bool(b) => Some(seq![seq![if b { 1u8 } else { 0u8 }]]),
        Json::Number(n) => match number_as_i64(n) {
            Some(i) => Some(seq![native_bytes(i as u64)]),
            None => None,
        },
        Json::Str(s) => Some(str_writes(s)),
        Json::Array(items) => items_writes(items),
        Json::Object(members) => members_writes(members),
    }
}

pub open spec fn items_writes(items: Seq<Json>) -> Option<Seq<Seq<u8>>>
    decreases items,
{
    if items.len() == 0 {
        Some(Seq::empty())
    } else {
        match (items_writes(items.subrange(0, items.len() - 1)), json_writes(items[items.len() - 1])) {
            (Some(a), Some(b)) => Some(a + b),
            _ => None,
        }
    }
}

pub open spec fn members_writes(members: Seq<(Seq<char>, Json)>) -> Option<Seq<Seq<u8>>>
    decreases members,
{
    if members.len() == 0 {
        Some(Seq::empty())
    } else {
        let last = members[members.len() - 1];
        match (members_writes(members.subrange(0, members.len() - 1)), json_writes(last.1)) {
            (Some(a), Some(b)) => Some(a + str_writes(last.0) + b),
            _ => None,
        }
    }
}

/// The writes that hashing a call makes: the method, then each parameter.
pub open spec fn key_writes(method: Seq<char>, params: Seq<Json>) -> Option<Seq<Seq<u8>>> {
    match items_writes(params) {
        Some(w) => Some(str_writes(method) + w),
        None => None,
    }
}

/// Whether every number in the parameters is an `i64`, so that they can be hashed.
pub open spec fn hashable(params: Seq<Json>) -> bool {
    items_writes(params) is Some
}

fn write_str(hasher: &mut DefaultHasher, s: &str)
    ensures
        final(hasher)@ == old(hasher)@ + str_writes(s@),
{
    hasher.write(s.as_bytes());
    let end: [u8; 1] = [0xffu8];
    hasher.write(end.as_slice());
    assert(end@ =~= seq![0xffu8]);
    assert(old(hasher)@.push(encode_utf8(s@)).push(seq![0xffu8]) =~= old(hasher)@ + str_writes(s@));
}

/// Feeds a JSON value to the hasher, as [`json_writes`] describes it.
#[verifier::loop_isolation(false)]
pub fn hash_json_value(value: &JsonValue, hasher: &mut DefaultHasher)
    requires
        json_writes(value.model()) is Some,
    ensures
        final(hasher)@ == old(hasher)@ + json_writes(value.model()).unwrap(),
    decreases value,
{
    match value {
        JsonValue::String(s) => write_str(hasher, s.as_str()),
        JsonValue::Number(n) => {
            let i = n.as_i64().unwrap();
            let bytes = to_native_bytes(i);
            hasher.write(bytes.as_slice());
            assert(old(hasher)@.push(bytes@) =~= old(hasher)@ + seq![native_bytes(i as u64)]);
        },
        JsonValue::Bool(b) => {
            let byte: [u8; 1] = [if *b { 1u8 } else { 0u8 }];
            hasher.write(byte.as_slice());
            assert(byte@ =~= seq![if *b { 1u8 } else { 0u8 }]);
            assert(old(hasher)@.push(byte@) =~= old(hasher)@ + seq![seq![if *b { 1u8 } else { 0u8 }]]);
        },
        JsonValue::Array(items) => {
            proof {
                lemma_models(items@);
            }
            let ghost ms = models(items@);
            let mut i: usize = 0;
            while i < items.len()
                invariant
                    i <= items@.len(),
                    items_writes(ms.subrange(0, i as int)) is Some,
                    hasher@ == old(hasher)@ + items_writes(ms.subrange(0, i as int)).unwrap(),
                decreases items@.len() - i,
            {
                proof {
                    lemma_items_writes_prefix(ms, i + 1);
                    assert(ms.subrange(0, i + 1).subrange(0, i as int) =~= ms.subrange(0, i as int));
                }
                hash_json_value(&items[i], hasher);
                proof {
                    let prev = items_writes(ms.subrange(0, i as int)).unwrap();
                    assert(old(hasher)@ + prev + json_writes(ms[i as int]).unwrap() =~= old(hasher)@ + (prev
                        + json_writes(ms[i as int]).unwrap()));
                }
                i += 1;
            }
            assert(ms.subrange(0, items@.len() as int) =~= ms);
        },
        JsonValue::Object(members) => {
            proof {
                lemma_member_models(members@);
            }
            let ghost ms = member_models(members@);
            let mut i: usize = 0;
            while i < members.len()
                invariant
                    i <= members@.len(),
                    members_writes(ms.subrange(0, i as int)) is Some,
                    hasher@ == old(hasher)@ + members_writes(ms.subrange(0, i as int)).unwrap(),
                decreases members@.len() - i,
            {
                proof {
                    lemma_members_writes_prefix(ms, i + 1);
                    assert(ms.subrange(0, i + 1).subrange(0, i as int) =~= ms.subrange(0, i as int));
                }
                let ghost before = hasher@;
                write_str(hasher, members[i].0.as_str());
                hash_json_value(&members[i].1, hasher);
                proof {
                    let prev = members_writes(ms.subrange(0, i as int)).unwrap();
                    assert(old(hasher)@ + prev + str_writes(ms[i as int].0) + json_writes(
                        ms[i as int].1,
                    ).unwrap() =~= old(hasher)@ + (prev + str_writes(ms[i as int].0) + json_writes(
                        ms[i as int].1,
                    ).unwrap()));
                }
                i += 1;
            }
            assert(ms.subrange(0, members@.len() as int) =~= ms);
        },
        JsonValue::Null => write_str(hasher, "null"),
    }
}

/// A prefix of hashable items is hashable.
proof fn lemma_items_writes_prefix(items: Seq<Json>, n: int)
    requires
        0 <= n <= items.len(),
        items_writes(items) is Some,
    ensures
        items_writes(items.subrange(0, n)) is Some,
        n > 0 ==> json_writes(items[n - 1]) is Some,
    decreases items.len(),
{
    if n < items.len() {
        let t = items.subrange(0, items.len() - 1);
        assert(t.subrange(0, n) =~= items.subrange(0, n));
        if n > 0 {
            assert(t[n - 1] == items[n - 1]);
        }
        lemma_items_writes_prefix(t, n);
    } else {
        assert(items.subrange(0, n) =~= items);
    }
}

/// A prefix of hashable members is hashable.
proof fn lemma_members_writes_prefix(members: Seq<(Seq<char>, Json)>, n: int)
    requires
        0 <= n <= members.len(),
        members_writes(members) is Some,
    ensures
        members_writes(members.subrange(0, n)) is Some,
        n > 0 ==> json_writes(members[n - 1].1) is Some,
    decreases members.len(),
{
    if n < members.len() {
        let t = members.subrange(0, members.len() - 1);
        assert(t.subrange(0, n) =~= members.subrange(0, n));
        if n > 0 {
            assert(t[n - 1] == members[n - 1]);
        }
        lemma_members_writes_prefix(t, n);
    } else {
        assert(members.subrange(0, n) =~= members);
    }
}

/// The cache key of a call: `DefaultHasher::new()` fed with the method and
/// the parameters as [`key_writes`] describes.
pub fn to_cache_key(method: &str, params: &[JsonValue]) -> (r: u64)
    requires
        hashable(models(params@)),
    ensures
        r == DefaultHasher::spec_finish(key_writes(method@, models(params@)).unwrap()),
{
    let mut hasher = DefaultHasher::new();
    write_str(&mut hasher, method);
    proof {
        lemma_models(params@);
    }
    let ghost ms = models(params@);
    let mut i: usize = 0;
    while i < params.len()
        invariant
            i <= params@.len(),
            ms == models(params@),
            ms.len() == params@.len(),
            forall|j: int| 0 <= j < params@.len() ==> #[trigger] ms[j] == params@[j].model(),
            items_writes(ms) is Some,
            items_writes(ms.subrange(0, i as int)) is Some,
            hasher@ == str_writes(method@) + items_writes(ms.subrange(0, i as int)).unwrap(),
        decreases params@.len() - i,
    {
        proof {
            lemma_items_writes_prefix(ms, i + 1);
            assert(ms.subrange(0, i + 1).subrange(0, i as int) =~= ms.subrange(0, i as int));
        }
        hash_json_value(&params[i], &mut hasher);
        proof {
            let prev = items_writes(ms.subrange(0, i as int)).unwrap();
            assert(str_writes(method@) + prev + json_writes(ms[i as int]).unwrap() =~= str_writes(method@)
                + (prev + json_writes(ms[i as int]).unwrap()));
        }
        i += 1;
    }
    assert(ms.subrange(0, params@.len() as int) =~= ms);
    hasher.finish()
}

/// Whether the parameters can be hashed, as [`hashable`] tells.
pub fn can_hash(params: &[JsonValue]) -> (r: bool)
    ensures
        r == hashable(models(params@)),
{
    proof {
        lemma_models(params@);
    }
    let ghost ms = models(params@);
    let mut i: usize = 0;
    while i < params.len()
        invariant
            i <= params@.len(),
            ms == models(params@),
            ms.len() == params@.len(),
            forall|j: int| 0 <= j < params@.len() ==> #[trigger] ms[j] == params@[j].model(),
            items_writes(ms.subrange(0, i as int)) is Some,
        decreases params@.len() - i,
    {
        assert(ms.subrange(0, i + 1).subrange(0, i as int) =~= ms.subrange(0, i as int));
        if !value_can_hash(&params[i]) {
            proof {
                lemma_items_writes_fail(ms, i as int);
            }
            return false;
        }
        i += 1;
    }
    assert(ms.subrange(0, params@.len() as int) =~= ms);
    true
}

fn value_can_hash(value: &JsonValue) -> (r: bool)
    ensures
        r == (json_writes(value.model()) is Some),
    decreases value,
{
    match value {
        JsonValue::Number(n) => n.as_i64().is_some(),
        JsonValue::Array(items) => {
            proof {
                lemma_models(items@);
            }
            let ghost ms = models(items@);
            let mut i: usize = 0;
            while i < items.len()
                invariant
                    i <= items@.len(),
                    ms == models(items@),
                    ms.len() == items@.len(),
                    forall|j: int| 0 <= j < items@.len() ==> #[trigger] ms[j] == items@[j].model(),
                    items_writes(ms.subrange(0, i as int)) is Some,
                    *value == JsonValue::Array(*items),
                decreases items@.len() - i,
            {
                assert(ms.subrange(0, i + 1).subrange(0, i as int) =~= ms.subrange(0, i as int));
                assert(decreases_to!(*value => items@[i as int]));
                if !value_can_hash(&items[i]) {
                    proof {
                        lemma_items_writes_fail(ms, i as int);
                    }
                    return false;
                }
                i += 1;
            }
            assert(ms.subrange(0, items@.len() as int) =~= ms);
            true
        },
        JsonValue::Object(members) => {
            proof {
                lemma_member_models(members@);
            }
            let ghost ms = member_models(members@);
            let mut i: usize = 0;
            while i < members.len()
                invariant
                    i <= members@.len(),
                    ms == member_models(members@),
                    ms.len() == members@.len(),
                    forall|j: int|
                        0 <= j < members@.len() ==> #[trigger] ms[j] == (members@[j].0@, members@[j].1.model()),
                    members_writes(ms.subrange(0, i as int)) is Some,
                    *value == JsonValue::Object(*members),
                decreases members@.len() - i,
            {
                assert(ms.subrange(0, i + 1).subrange(0, i as int) =~= ms.subrange(0, i as int));
                assert(decreases_to!(*value => members@[i as int].1));
                if !value_can_hash(&members[i].1) {
                    proof {
                        lemma_members_writes_fail(ms, i as int);
                    }
                    return false;
                }
                i += 1;
            }
            assert(ms.subrange(0, members@.len() as int) =~= ms);
            true
        },
        _ => true,
    }
}

/// Once an item cannot be hashed, no longer prefix can.
proof fn lemma_items_writes_fail(items: Seq<Json>, i: int)
    requires
        0 <= i < items.len(),
        json_writes(items[i]) is None,
    ensures
        items_writes(items) is None,
    decreases items.len(),
{
    if i < items.len() - 1 {
        let t = items.subrange(0, items.len() - 1);
        assert(t[i] == items[i]);
        lemma_items_writes_fail(t, i);
    }
}

/// Once a member's value cannot be hashed, no longer prefix can.
proof fn lemma_members_writes_fail(members: Seq<(Seq<char>, Json)>, i: int)
    requires
        0 <= i < members.len(),
        json_writes(members[i].1) is None,
    ensures
        members_writes(members) is None,
    decreases members.len(),
{
    if i < members.len() - 1 {
        let t = members.subrange(0, members.len() - 1);
        assert(t[i] == members[i]);
        lemma_members_writes_fail(t, i);
    }
}

} // verus!
