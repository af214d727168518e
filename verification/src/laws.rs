//! Properties that hold across the library's operations.

use vstd::prelude::*;
use crate::cache::{items_writes, json_writes, key_writes, str_writes};
use crate::cbor::{
    CborValue, cbor_entries_json, cbor_items_json, cbor_json, first_bytes, first_bytes_in_entries,
    first_bytes_in_items, key_index, object_insert,
};
use crate::ip::{ForwardedFor, first_address, forwarded_client_spec, forwarded_read};
use crate::config::next_server_spec;
use crate::json::{Json, JsonNumber};
use crate::hex_text::{hex_decode_spec, hex_digit, hex_encode_spec, hex_value};
use crate::ids::next_id_spec;
use crate::rpc::{after_register, after_withdraw, waiter_of};
use crate::text::char_position;
use crate::urn::{
    CharClass, UrnSpec, UrnType, decode_urn_spec, decode_with, in_class, leftmost_match,
    lemma_leftmost_found, lemma_run_end_bounds, match_at, run_end, urn_from_match, urn_prefix,
};
use crate::urn_flow::{Outcome, before_char, field_search, first_call_spec};
use crate::media_type::guessed_media_type;
use crate::rpc::Fault;

verus! {

/// Request identifiers follow each other: the identifier handed out after
/// `id` is `id + 1`, except that after `u32::MAX - 1` it is `0`.
pub proof fn law_ids_follow_each_other(counter: u32)
    ensures
        next_id_spec((next_id_spec(counter) + 1) as u32) == (next_id_spec(counter) + 1) % (u32::MAX as int),
        next_id_spec(counter) < u32::MAX,
{
}

/// The counter after `k` identifiers have been handed out, one after
/// another, from a counter holding `counter`.
pub open spec fn counter_after(counter: u32, k: nat) -> u32
    decreases k,
{
    if k == 0 {
        counter
    } else {
        (next_id_spec(counter_after(counter, (k - 1) as nat)) + 1) as u32
    }
}

/// The identifier handed out by the call that follows `k` earlier calls.
pub open spec fn id_handed_out(counter: u32, k: nat) -> u32 {
    next_id_spec(counter_after(counter, k))
}

/// The identifier `k` calls after the first one, counted round the
/// `u32::MAX` values an identifier can take.
proof fn lemma_id_handed_out(counter: u32, k: nat)
    requires
        k < u32::MAX,
    ensures
        id_handed_out(counter, k) == (if next_id_spec(counter) + k < u32::MAX {
            next_id_spec(counter) + k
        } else {
            next_id_spec(counter) + k - u32::MAX
        }),
    decreases k,
{
    if k > 0 {
        lemma_id_handed_out(counter, (k - 1) as nat);
    }
}

/// Identifiers handed out one after another are pairwise distinct, from any
/// counter, for as long as there are no more calls than the `u32::MAX`
/// values an identifier can take; so no two requests in flight together
/// share an identifier.
pub proof fn law_ids_distinct(counter: u32, calls: nat)
    requires
        calls <= u32::MAX,
    ensures
        forall|i: nat, j: nat|
            i < j < calls ==> #[trigger] id_handed_out(counter, i) != #[trigger] id_handed_out(counter, j),
{
    assert forall|i: nat, j: nat| i < j < calls implies #[trigger] id_handed_out(counter, i)
        != #[trigger] id_handed_out(counter, j) by {
        lemma_id_handed_out(counter, i);
        lemma_id_handed_out(counter, j);
    }
}

/// An upstream answer reaches the waiter registered under its identifier,
/// and only once: once a request is registered, routing its answer hands out
/// that waiter and withdraws the request, so that a second answer, or the end
/// of the wait, finds no waiter; the other pending requests keep theirs.
pub proof fn law_answer_reaches_its_waiter<T>(pending: Map<u32, T>, id: u32, waiter: T, other: u32)
    requires
        other != id,
    ensures
        waiter_of(after_register(pending, id, waiter), id) == Some(waiter),
        waiter_of(after_withdraw(after_register(pending, id, waiter), id), id) is None,
        waiter_of(after_withdraw(after_register(pending, id, waiter), id), other) == waiter_of(pending, other),
{
}

/// The server tried after `k` switches, starting from the first one.
pub open spec fn server_after(count: nat, k: nat) -> nat
    decreases k,
{
    if k == 0 {
        0
    } else {
        next_server_spec(server_after(count, (k - 1) as nat), count)
    }
}

/// Switching servers goes round all of them in order: after `k` switches
/// the client is at server `k % count`.
pub proof fn law_servers_taken_in_turn(count: nat, k: nat)
    requires
        count > 0,
    ensures
        server_after(count, k) == k % count,
    decreases k,
{
    if k > 0 {
        law_servers_taken_in_turn(count, (k - 1) as nat);
        let c: int = count as int;
        let km1: int = k - 1;
        let kk: int = k as int;
        let q: int = km1 / c;
        let r: int = km1 % c;
        assert(km1 == q * c + r && 0 <= r < c && q >= 0) by (nonlinear_arith)
            requires
                c > 0,
                km1 >= 0,
                q == km1 / c,
                r == km1 % c,
        ;
        assert(server_after(count, (k - 1) as nat) == r);
        assert(server_after(count, k) == next_server_spec(r as nat, count));
        if r + 1 >= c {
            assert(kk % c == 0) by (nonlinear_arith)
                requires
                    kk == km1 + 1,
                    km1 == q * c + r,
                    r + 1 == c,
                    c > 0,
                    q >= 0,
            ;
            assert(server_after(count, k) == 0);
        } else {
            assert(kk % c == r + 1) by (nonlinear_arith)
                requires
                    kk == km1 + 1,
                    km1 == q * c + r,
                    0 <= r + 1 < c,
                    q >= 0,
            ;
            assert(server_after(count, k) == r + 1);
        }
        assert(k % count == kk % c);
    } else {
        assert(0int % (count as int) == 0) by (nonlinear_arith)
            requires
                count > 0,
        ;
    }
}

proof fn lemma_hex_digit_value(n: u8)
    requires
        n < 16,
    ensures
        hex_value(hex_digit(n)) == Some(n),
{
    if n == 0 {
    } else if n == 1 {
    } else if n == 2 {
    } else if n == 3 {
    } else if n == 4 {
    } else if n == 5 {
    } else if n == 6 {
    } else if n == 7 {
    } else if n == 8 {
    } else if n == 9 {
    } else if n == 10 {
    } else if n == 11 {
    } else if n == 12 {
    } else if n == 13 {
    } else if n == 14 {
    } else {
    }
}

proof fn lemma_hex_encode_append(a: Seq<u8>, b: Seq<u8>)
    ensures
        hex_encode_spec(a + b) == hex_encode_spec(a) + hex_encode_spec(b),
    decreases b.len(),
{
    if b.len() == 0 {
        assert(a + b =~= a);
        assert(hex_encode_spec(a) + hex_encode_spec(b) =~= hex_encode_spec(a));
    } else {
        let b0 = b.subrange(0, b.len() - 1);
        lemma_hex_encode_append(a, b0);
        assert((a + b).subrange(0, (a + b).len() - 1) =~= a + b0);
        let last = b[b.len() - 1];
        assert((a + b)[(a + b).len() - 1] == last);
        assert(hex_encode_spec(a) + hex_encode_spec(b0) + seq![hex_digit(last / 16), hex_digit(last % 16)]
            =~= hex_encode_spec(a) + (hex_encode_spec(b0) + seq![hex_digit(last / 16), hex_digit(last % 16)]));
    }
}

/// Decoding the hex text of some bytes gives those bytes back.
pub proof fn law_hex_round_trip(bytes: Seq<u8>)
    ensures
        hex_decode_spec(hex_encode_spec(bytes)) == Some(bytes),
    decreases bytes.len(),
{
    if bytes.len() == 0 {
    } else {
        let x = bytes[0];
        let rest = bytes.subrange(1, bytes.len() as int);
        assert(bytes =~= seq![x] + rest);
        lemma_hex_encode_append(seq![x], rest);
        let e1 = hex_encode_spec(seq![x]);
        assert(seq![x].subrange(0, 0) =~= Seq::<u8>::empty());
        assert(hex_encode_spec(seq![x].subrange(0, 0)) == Seq::<char>::empty());
        assert(e1 =~= seq![hex_digit(x / 16), hex_digit(x % 16)]);
        let text = hex_encode_spec(bytes);
        assert(text =~= e1 + hex_encode_spec(rest));
        assert(text.subrange(2, text.len() as int) =~= hex_encode_spec(rest));
        lemma_hex_digit_value(x / 16);
        lemma_hex_digit_value(x % 16);
        law_hex_round_trip(rest);
        assert((x / 16) * 16 + x % 16 == x);
        assert(seq![((x / 16) * 16 + x % 16) as u8] + rest =~= bytes);
    }
}

/// The grammar is found at the leftmost position where it matches: it
/// matches nowhere before the position taken.
pub proof fn law_urn_match_is_leftmost(t: UrnType, s: Seq<char>, p: int)
    requires
        0 <= p,
    ensures
        leftmost_match(t, s, p) matches Some((a, e)) ==> forall|q: int|
            p <= q < a ==> #[trigger] match_at(t, s, q) is None,
        leftmost_match(t, s, p) is None ==> forall|q: int| p <= q ==> #[trigger] match_at(t, s, q) is None,
    decreases s.len() + 1 - p,
{
    if p <= s.len() {
        if match_at(t, s, p) is None {
            law_urn_match_is_leftmost(t, s, p + 1);
        }
    } else {
        assert forall|q: int| p <= q implies #[trigger] match_at(t, s, q) is None by {
            assert(q + urn_prefix(t).len() > s.len());
        }
    }
}

proof fn lemma_run_end_past(s: Seq<char>, i: int)
    requires
        0 <= i < s.len(),
        in_class(CharClass::NotNewline, s[i]),
    ensures
        run_end(s, i, CharClass::NotNewline) > i,
{
    lemma_run_end_at_least(s, i + 1, CharClass::NotNewline);
}

proof fn lemma_run_end_at_least(s: Seq<char>, i: int, class: CharClass)
    ensures
        run_end(s, i, class) >= i,
    decreases s.len() - i,
{
    if 0 <= i < s.len() && in_class(class, s[i]) {
        lemma_run_end_at_least(s, i + 1, class);
    }
}

/// The form that the grammar of type `t` gives an identifier: for `dat` and
/// `id`, 64 lowercase hex digits, `i` and one or more decimal digits; for
/// `realm` and `container`, one or more of `[a-z0-9-]`; for `arc`, one or
/// more of `[a-z0-9]`.
pub open spec fn identifier_shape(t: UrnType, id: Seq<char>) -> bool {
    match t {
        UrnType::Dat | UrnType::AtomicalId => {
            &&& id.len() >= 66
            &&& forall|k: int| 0 <= k < 64 ==> #[trigger] in_class(CharClass::LowerHex, id[k])
            &&& id[64] == 'i'
            &&& forall|k: int| 65 <= k < id.len() ==> #[trigger] in_class(CharClass::Digit, id[k])
        },
        UrnType::Realm | UrnType::Container => {
            &&& id.len() >= 1
            &&& forall|k: int| 0 <= k < id.len() ==> #[trigger] in_class(CharClass::Label, id[k])
        },
        UrnType::Arc => {
            &&& id.len() >= 1
            &&& forall|k: int| 0 <= k < id.len() ==> #[trigger] in_class(CharClass::Ticker, id[k])
        },
    }
}

/// The path of a decoded URN, empty when it has none.
pub open spec fn path_text(u: UrnSpec) -> Seq<char> {
    match u.path {
        Some(p) => p,
        None => Seq::empty(),
    }
}

/// Whether `w` occurs in `s`.
pub open spec fn occurs_in(w: Seq<char>, s: Seq<char>) -> bool {
    exists|a: int| 0 <= a && a + w.len() <= s.len() && #[trigger] s.subrange(a, a + w.len()) == w
}

/// The shape of a URN decoded from `s`: an identifier of its type's form; a
/// path, when there is one, that is not empty and holds no line feed; a path
/// type exactly when the path starts with `/` or `$`, and then that
/// character; and the URN, identifier and path written out, found in `s`.
pub open spec fn urn_shape(s: Seq<char>, u: UrnSpec) -> bool {
    &&& identifier_shape(u.urn_type, u.identifier)
    &&& (u.path matches Some(p) ==> p.len() > 0 && forall|k: int| 0 <= k < p.len() ==> #[trigger] p[k] != '\n')
    &&& (u.path_type is Some <==> (u.path matches Some(p) && (p[0] == '/' || p[0] == '$')))
    &&& (u.path_type matches Some(pt) ==> (u.path matches Some(p) && pt == seq![p[0]]))
    &&& occurs_in(urn_prefix(u.urn_type) + u.identifier + path_text(u), s)
}

/// Every character of a run is of its class.
proof fn lemma_run_all(s: Seq<char>, i: int, class: CharClass)
    requires
        0 <= i <= s.len(),
    ensures
        forall|k: int| i <= k < run_end(s, i, class) ==> #[trigger] in_class(class, s[k]),
    decreases s.len() - i,
{
    if i < s.len() && in_class(class, s[i]) {
        lemma_run_all(s, i + 1, class);
    }
}

/// A match of the grammar of `t` gives a URN of the shape [`urn_shape`] describes.
proof fn lemma_match_shape(t: UrnType, s: Seq<char>, a: int, e: int)
    requires
        0 <= a,
        match_at(t, s, a) == Some(e),
        a + urn_prefix(t).len() <= e <= s.len(),
    ensures
        urn_shape(s, urn_from_match(t, s, a, e)),
{
    let u = urn_from_match(t, s, a, e);
    let pre = urn_prefix(t);
    let b = a + pre.len();
    let id = s.subrange(b, e);
    assert(s.subrange(a, b) == pre);
    match t {
        UrnType::Dat | UrnType::AtomicalId => {
            assert(in_class(CharClass::Digit, s[b + 65]));
            lemma_run_end_at_least(s, b + 66, CharClass::Digit);
            lemma_run_all(s, b + 65, CharClass::Digit);
            assert forall|k: int| 0 <= k < 64 implies #[trigger] in_class(CharClass::LowerHex, id[k]) by {
                assert(id[k] == s[b + k]);
                assert(in_class(CharClass::LowerHex, s[b + k]));
            }
            assert forall|k: int| 65 <= k < id.len() implies #[trigger] in_class(CharClass::Digit, id[k]) by {
                assert(id[k] == s[b + k]);
            }
            assert(id[64] == s[b + 64]);
        },
        UrnType::Realm | UrnType::Container => {
            lemma_run_all(s, b, CharClass::Label);
            lemma_run_end_at_least(s, b + 1, CharClass::Label);
            assert forall|k: int| 0 <= k < id.len() implies #[trigger] in_class(CharClass::Label, id[k]) by {
                assert(id[k] == s[b + k]);
            }
        },
        UrnType::Arc => {
            lemma_run_all(s, b, CharClass::Ticker);
            lemma_run_end_at_least(s, b + 1, CharClass::Ticker);
            assert forall|k: int| 0 <= k < id.len() implies #[trigger] in_class(CharClass::Ticker, id[k]) by {
                assert(id[k] == s[b + k]);
            }
        },
    }
    assert(identifier_shape(t, u.identifier));
    let rest_end = run_end(s, e, CharClass::NotNewline);
    lemma_run_end_bounds(s, e, CharClass::NotNewline);
    lemma_run_all(s, e, CharClass::NotNewline);
    if e < s.len() && (s[e] == '/' || s[e] == '$') {
        lemma_run_end_past(s, e);
    }
    if rest_end > e {
        let p = s.subrange(e, rest_end);
        assert(p[0] == s[e]);
        assert forall|k: int| 0 <= k < p.len() implies #[trigger] p[k] != '\n' by {
            assert(p[k] == s[e + k]);
            assert(in_class(CharClass::NotNewline, s[e + k]));
        }
    }
    let w = pre + id + path_text(u);
    assert(w.len() == rest_end - a);
    assert(s.subrange(a, a + w.len()) =~= w);
}

/// A decoded URN has the shape that [`urn_shape`] describes: its identifier
/// has the form of its type, its path type is the first character of its
/// path exactly when that is `/` or `$`, and the URN is found in the text.
pub proof fn law_decoded_urn_shape(s: Seq<char>)
    ensures
        decode_urn_spec(s) matches Some(u) ==> urn_shape(s, u),
{
    let types = seq![UrnType::Dat, UrnType::AtomicalId, UrnType::Realm, UrnType::Container, UrnType::Arc];
    assert forall|i: int| 0 <= i < 5 implies (#[trigger] decode_with(types[i], s) matches Some(u)
        ==> urn_shape(s, u)) by {
        let t = types[i];
        if let Some((a, e)) = leftmost_match(t, s, 0) {
            lemma_leftmost_found(t, s, 0);
            lemma_match_shape(t, s, a, e);
        }
    }
    assert(types[0] == UrnType::Dat);
    assert(types[1] == UrnType::AtomicalId);
    assert(types[2] == UrnType::Realm);
    assert(types[3] == UrnType::Container);
    assert(types[4] == UrnType::Arc);
}

proof fn lemma_txid_of_identifier(id: Seq<char>)
    requires
        id.len() >= 65,
        forall|k: int| 0 <= k < 64 ==> #[trigger] in_class(CharClass::LowerHex, id[k]),
        id[64] == 'i',
    ensures
        char_position(id, 'i', 0) == 64,
{
    lemma_char_position_skips(id, 0);
}

proof fn lemma_char_position_skips(id: Seq<char>, j: int)
    requires
        0 <= j <= 64,
        id.len() >= 65,
        forall|k: int| 0 <= k < 64 ==> #[trigger] in_class(CharClass::LowerHex, id[k]),
        id[64] == 'i',
    ensures
        char_position(id, 'i', j) == 64,
    decreases 64 - j,
{
    if j < 64 {
        assert(in_class(CharClass::LowerHex, id[j]));
        lemma_char_position_skips(id, j + 1);
    }
}

/// The transaction named by a `dat` or `id` URN is its first 64 characters,
/// lowercase hex digits: the part of the identifier before its `i`.
pub proof fn law_dat_identifier_names_transaction(s: Seq<char>)
    ensures
        decode_urn_spec(s) matches Some(u) ==> ((u.urn_type == UrnType::Dat || u.urn_type
            == UrnType::AtomicalId) ==> before_char(u.identifier, 'i').len() == 64 && forall|k: int|
            0 <= k < 64 ==> #[trigger] in_class(CharClass::LowerHex, u.identifier[k])),
{
    let types = seq![UrnType::Dat, UrnType::AtomicalId, UrnType::Realm, UrnType::Container, UrnType::Arc];
    assert forall|i: int| 0 <= i < 5 implies (#[trigger] decode_with(types[i], s) matches Some(u) ==> (
    u.urn_type == types[i] && ((u.urn_type == UrnType::Dat || u.urn_type == UrnType::AtomicalId)
        ==> before_char(u.identifier, 'i').len() == 64 && forall|k: int|
        0 <= k < 64 ==> #[trigger] in_class(CharClass::LowerHex, u.identifier[k])))) by {
        let t = types[i];
        if let Some((a, e)) = leftmost_match(t, s, 0) {
            lemma_leftmost_found(t, s, 0);
            if t == UrnType::Dat || t == UrnType::AtomicalId {
                let b = a + urn_prefix(t).len();
                lemma_run_end_at_least(s, b + 65, CharClass::Digit);
                let id = s.subrange(b, e);
                assert forall|k: int| 0 <= k < 64 implies #[trigger] in_class(CharClass::LowerHex, id[k]) by {
                    assert(id[k] == s[b + k]);
                    assert(in_class(CharClass::LowerHex, s[b + k]));
                }
                assert(id[64] == s[b + 64]);
                lemma_txid_of_identifier(id);
            }
        }
    }
    assert(types[0] == UrnType::Dat);
    assert(types[1] == UrnType::AtomicalId);
    assert(types[2] == UrnType::Realm);
    assert(types[3] == UrnType::Container);
    assert(types[4] == UrnType::Arc);
}

/// With no match at or after `p`, there is no leftmost match from `p`.
proof fn lemma_no_match_from(t: UrnType, s: Seq<char>, p: int)
    requires
        0 <= p,
        forall|q: int| p <= q ==> #[trigger] match_at(t, s, q) is None,
    ensures
        leftmost_match(t, s, p) is None,
    decreases s.len() + 1 - p,
{
    if p <= s.len() {
        assert(match_at(t, s, p) is None);
        lemma_no_match_from(t, s, p + 1);
    }
}

/// A run of `class` characters that stops at `j` ends at `j`.
proof fn lemma_run_end_stops(s: Seq<char>, i: int, j: int, class: CharClass)
    requires
        0 <= i <= j <= s.len(),
        forall|k: int| i <= k < j ==> #[trigger] in_class(class, s[k]),
        j == s.len() || !in_class(class, s[j]),
    ensures
        run_end(s, i, class) == j,
    decreases j - i,
{
    if i < j {
        lemma_run_end_stops(s, i + 1, j, class);
    }
}

/// A run inside a suffix of the text is the run of that suffix, shifted.
proof fn lemma_run_end_shift(head: Seq<char>, tail: Seq<char>, k: int, class: CharClass)
    requires
        0 <= k <= tail.len(),
    ensures
        run_end(head + tail, head.len() + k, class) == head.len() + run_end(tail, k, class),
    decreases tail.len() - k,
{
    let s = head + tail;
    if k < tail.len() {
        assert(s[head.len() + k] == tail[k]);
        if in_class(class, tail[k]) {
            lemma_run_end_shift(head, tail, k + 1, class);
        }
    }
}

/// A URN of the `realm` kind, with a name of `[a-z0-9-]` characters followed
/// by text that has no colon and does not go on with such a character,
/// decodes to that name, with the rest of its line as the path.
pub proof fn law_realm_urn_decodes(name: Seq<char>, rest: Seq<char>)
    requires
        name.len() > 0,
        forall|i: int| 0 <= i < name.len() ==> #[trigger] in_class(CharClass::Label, name[i]),
        forall|i: int| 0 <= i < rest.len() ==> #[trigger] rest[i] != ':',
        rest.len() > 0 ==> !in_class(CharClass::Label, rest[0]),
    ensures
        ({
            let line = run_end(rest, 0, CharClass::NotNewline);
            decode_urn_spec(urn_prefix(UrnType::Realm) + name + rest) matches Some(u) && u.urn_type
                == UrnType::Realm && u.identifier == name && u.path == (if line > 0 {
                Some(rest.subrange(0, line))
            } else {
                None
            }) && u.path_type == (if rest.len() > 0 && (rest[0] == '/' || rest[0] == '$') {
                Some(seq![rest[0]])
            } else {
                None
            })
        }),
{
    let pre = urn_prefix(UrnType::Realm);
    let s = pre + name + rest;
    let e: int = (pre.len() + name.len()) as int;
    assert(pre.len() == 15);
    // The only colons of the text are those of the prefix.
    assert forall|q: int| 0 <= q < s.len() && s[q] == ':' implies q == 4 || q == 8 || q == 14 by {
        if q >= e {
            assert(s[q] == rest[q - e]);
        } else if q >= 15 {
            assert(s[q] == name[q - 15]);
            assert(in_class(CharClass::Label, name[q - 15]));
        } else {
            assert(s[q] == pre[q]);
        }
    }
    // Neither the `dat` nor the `id` grammar matches anywhere.
    assert forall|q: int| 0 <= q implies #[trigger] match_at(UrnType::Dat, s, q) is None by {
        let d = urn_prefix(UrnType::Dat);
        if q + d.len() <= s.len() && s.subrange(q, q + d.len()) == d {
            assert(s[q + 4] == d[4]);
            assert(s[q + 8] == d[8]);
            assert(s[q + 12] == d[12]);
        }
    }
    assert forall|q: int| 0 <= q implies #[trigger] match_at(UrnType::AtomicalId, s, q) is None by {
        let d = urn_prefix(UrnType::AtomicalId);
        if q + d.len() <= s.len() && s.subrange(q, q + d.len()) == d {
            assert(s[q + 4] == d[4]);
            assert(s[q + 8] == d[8]);
            assert(s[q + 11] == d[11]);
        }
    }
    lemma_no_match_from(UrnType::Dat, s, 0);
    lemma_no_match_from(UrnType::AtomicalId, s, 0);
    // The `realm` grammar matches at the start, its name running to `e`.
    assert(s.subrange(0, 15) =~= pre);
    assert forall|k: int| 15 <= k < e implies #[trigger] in_class(CharClass::Label, s[k]) by {
        assert(s[k] == name[k - 15]);
    }
    if rest.len() > 0 {
        assert(s[e] == rest[0]);
    }
    lemma_run_end_stops(s, 15, e, CharClass::Label);
    assert(s[15] == name[0]);
    assert(match_at(UrnType::Realm, s, 0) == Some(e));
    let head = pre + name;
    assert(s =~= head + rest);
    lemma_run_end_shift(head, rest, 0, CharClass::NotNewline);
    lemma_run_end_bounds(rest, 0, CharClass::NotNewline);
    let line = run_end(rest, 0, CharClass::NotNewline);
    assert(s.subrange(15, e) =~= name);
    assert(s.subrange(e, e + line) =~= rest.subrange(0, line));
}


/// A URN of the `dat` kind, made of a transaction id of 64 lowercase hex
/// digits, `i` and an index of decimal digits, followed by text that does not
/// go on with a digit, decodes to that identifier, with the rest of its line
/// as the path.
pub proof fn law_dat_urn_decodes(txid: Seq<char>, index: Seq<char>, rest: Seq<char>)
    requires
        txid.len() == 64,
        forall|i: int| 0 <= i < 64 ==> #[trigger] in_class(CharClass::LowerHex, txid[i]),
        index.len() > 0,
        forall|i: int| 0 <= i < index.len() ==> #[trigger] in_class(CharClass::Digit, index[i]),
        rest.len() > 0 ==> !in_class(CharClass::Digit, rest[0]),
    ensures
        ({
            let line = run_end(rest, 0, CharClass::NotNewline);
            decode_urn_spec(urn_prefix(UrnType::Dat) + (txid + seq!['i'] + index) + rest) matches Some(u)
                && u.urn_type == UrnType::Dat && u.identifier == txid + seq!['i'] + index && u.path == (
            if line > 0 {
                Some(rest.subrange(0, line))
            } else {
                None
            }) && u.path_type == (if rest.len() > 0 && (rest[0] == '/' || rest[0] == '$') {
                Some(seq![rest[0]])
            } else {
                None
            })
        }),
{
    let pre = urn_prefix(UrnType::Dat);
    let id = txid + seq!['i'] + index;
    let s = pre + id + rest;
    assert(pre.len() == 13);
    let e: int = (13 + id.len()) as int;
    assert(s.subrange(0, 13) =~= pre);
    assert forall|k: int| 13 <= k < 13 + 64 implies #[trigger] in_class(CharClass::LowerHex, s[k]) by {
        assert(s[k] == txid[k - 13]);
    }
    assert(s[77int] == 'i');
    assert(s[78int] == index[0]);
    assert(in_class(CharClass::Digit, index[0]));
    assert forall|k: int| 13 + 65 <= k < e implies #[trigger] in_class(CharClass::Digit, s[k]) by {
        assert(s[k] == index[k - 13 - 65]);
    }
    if rest.len() > 0 {
        assert(s[e] == rest[0]);
    }
    lemma_run_end_stops(s, 78int, e, CharClass::Digit);
    assert(match_at(UrnType::Dat, s, 0) == Some(e));
    let head = pre + id;
    assert(s =~= head + rest);
    lemma_run_end_shift(head, rest, 0, CharClass::NotNewline);
    lemma_run_end_bounds(rest, 0, CharClass::NotNewline);
    let line = run_end(rest, 0, CharClass::NotNewline);
    assert(s.subrange(13, e) =~= id);
    assert(s.subrange(e, e + line) =~= rest.subrange(0, line));
}

/// The index of the last entry of a CBOR map whose key is the text `k`.
pub open spec fn last_entry_named(s: Seq<(CborValue, CborValue)>, k: Seq<char>) -> Option<int>
    decreases s.len(),
{
    if s.len() == 0 {
        None
    } else if s[s.len() - 1].0 matches CborValue::Text(t) && t@ == k {
        Some(s.len() - 1)
    } else {
        last_entry_named(s.subrange(0, s.len() - 1), k)
    }
}

/// The last entry of a name is an entry of the map, with that name.
proof fn lemma_last_entry_found(s: Seq<(CborValue, CborValue)>, k: Seq<char>)
    ensures
        last_entry_named(s, k) matches Some(j) ==> 0 <= j < s.len() && (s[j].0 matches CborValue::Text(t)
            && t@ == k),
    decreases s.len(),
{
    if s.len() > 0 {
        let init = s.subrange(0, s.len() - 1);
        lemma_last_entry_found(init, k);
        if let Some(j) = last_entry_named(init, k) {
            assert(init[j] == s[j]);
        }
    }
}

/// Whether no two members of a JSON object share a name.
pub open spec fn unique_names(ms: Seq<(Seq<char>, Json)>) -> bool {
    forall|i: int, j: int| 0 <= i < j < ms.len() ==> #[trigger] ms[i].0 != #[trigger] ms[j].0
}

/// A member found by [`key_index`] has the name looked for; when none is
/// found, no member from `j` on has it.
proof fn lemma_key_index_found(ms: Seq<(Seq<char>, Json)>, k: Seq<char>, j: int)
    requires
        0 <= j,
    ensures
        key_index(ms, k, j) matches Some(i) ==> j <= i < ms.len() && ms[i].0 == k,
        key_index(ms, k, j) is None ==> forall|i: int| j <= i < ms.len() ==> #[trigger] ms[i].0 != k,
    decreases ms.len() - j,
{
    if j < ms.len() && ms[j].0 != k {
        lemma_key_index_found(ms, k, j + 1);
    }
}

/// [`key_index`] looks at names alone.
proof fn lemma_key_index_same_names(a: Seq<(Seq<char>, Json)>, b: Seq<(Seq<char>, Json)>, k: Seq<char>, j: int)
    requires
        a.len() == b.len(),
        forall|i: int| 0 <= i < a.len() ==> #[trigger] a[i].0 == b[i].0,
    ensures
        key_index(a, k, j) == key_index(b, k, j),
    decreases a.len() - j,
{
    if 0 <= j < a.len() && a[j].0 != k {
        lemma_key_index_same_names(a, b, k, j + 1);
    }
}

/// Looking for a name after a member has been added at the end.
proof fn lemma_key_index_push(ms: Seq<(Seq<char>, Json)>, e: (Seq<char>, Json), k: Seq<char>, j: int)
    requires
        0 <= j <= ms.len(),
    ensures
        key_index(ms.push(e), k, j) == (match key_index(ms, k, j) {
            Some(i) => Some(i),
            None => if e.0 == k {
                Some(ms.len() as int)
            } else {
                None
            },
        }),
    decreases ms.len() - j,
{
    if j < ms.len() {
        assert(ms.push(e)[j] == ms[j]);
        if ms[j].0 != k {
            lemma_key_index_push(ms, e, k, j + 1);
        }
    } else {
        assert(ms.push(e)[j] == e);
        if e.0 != k {
            assert(key_index(ms.push(e), k, j + 1) is None);
        }
    }
}

/// The JSON forms of CBOR values, item by item.
proof fn lemma_items_json(xs: Seq<CborValue>)
    ensures
        cbor_items_json(xs) is Some <==> forall|i: int| 0 <= i < xs.len() ==> #[trigger] cbor_json(xs[i]) is Some,
        cbor_items_json(xs) matches Some(js) ==> js.len() == xs.len() && forall|i: int|
            0 <= i < xs.len() ==> Some(#[trigger] js[i]) == cbor_json(xs[i]),
    decreases xs.len(),
{
    if xs.len() > 0 {
        let n = xs.len() - 1;
        let init = xs.subrange(0, n);
        lemma_items_json(init);
        assert forall|i: int| 0 <= i < n implies #[trigger] init[i] == xs[i] by {}
        if cbor_items_json(xs) is None && cbor_json(xs[n]) is Some {
            let i = choose|i: int| 0 <= i < init.len() && cbor_json(#[trigger] init[i]) is None;
            assert(cbor_json(xs[i]) is None);
        }
        if let Some(js) = cbor_items_json(xs) {
            let prev = cbor_items_json(init).unwrap();
            assert(js == prev.push(cbor_json(xs[n]).unwrap()));
            assert forall|i: int| 0 <= i < xs.len() implies Some(#[trigger] js[i]) == cbor_json(xs[i]) by {
                if i < n {
                    assert(js[i] == prev[i]);
                    assert(Some(prev[i]) == cbor_json(init[i]));
                }
            }
            assert forall|i: int| 0 <= i < xs.len() implies #[trigger] cbor_json(xs[i]) is Some by {
                assert(Some(js[i]) == cbor_json(xs[i]));
            }
        }
    }
}

/// Whether entry `e` of a CBOR map has a text key and a value with a JSON form.
pub open spec fn entry_has_json(e: (CborValue, CborValue)) -> bool {
    e.0 is Text && cbor_json(e.1) is Some
}

/// What the JSON object `ms` holds for the entries `s` of a CBOR map: under
/// each name, the JSON form of the last entry of that name, and nothing under
/// a name that no entry has.
pub open spec fn holds_last_entries(ms: Seq<(Seq<char>, Json)>, s: Seq<(CborValue, CborValue)>, k: Seq<char>) -> bool {
    match last_entry_named(s, k) {
        Some(j) => key_index(ms, k, 0) matches Some(i) && Some(ms[i].1) == cbor_json(s[j].1),
        None => key_index(ms, k, 0) is None,
    }
}

/// The JSON object of the entries of a CBOR map: there is one exactly when
/// every entry has a text key and a value with a JSON form; its names are
/// unique, and each holds the JSON form of the last entry of that name.
proof fn lemma_entries_json(s: Seq<(CborValue, CborValue)>)
    ensures
        cbor_entries_json(s) is Some <==> forall|i: int| 0 <= i < s.len() ==> #[trigger] entry_has_json(s[i]),
        cbor_entries_json(s) matches Some(ms) ==> unique_names(ms) && forall|k: Seq<char>|
            #[trigger] holds_last_entries(ms, s, k),
    decreases s.len(),
{
    if s.len() == 0 {
        assert forall|k: Seq<char>| #[trigger] holds_last_entries(Seq::<(Seq<char>, Json)>::empty(), s, k) by {}
    } else {
        let n = s.len() - 1;
        let init = s.subrange(0, n);
        let last = s[n];
        lemma_entries_json(init);
        assert forall|i: int| 0 <= i < n implies #[trigger] init[i] == s[i] by {}
        if cbor_entries_json(s) is None && entry_has_json(last) {
            let i = choose|i: int| 0 <= i < init.len() && !#[trigger] entry_has_json(init[i]);
            assert(!entry_has_json(s[i]));
        }
        if cbor_entries_json(s) is Some {
            assert forall|i: int| 0 <= i < s.len() implies #[trigger] entry_has_json(s[i]) by {
                if i < n {
                    assert(entry_has_json(init[i]));
                }
            }
        }
        if let Some(ms) = cbor_entries_json(s) {
            let prev = cbor_entries_json(init).unwrap();
            let kt = match last.0 {
                CborValue::Text(t) => t@,
                _ => Seq::empty(),
            };
            let jv = cbor_json(last.1).unwrap();
            assert(ms == object_insert(prev, kt, jv));
            assert(entry_has_json(s[n]));
            lemma_key_index_found(prev, kt, 0);
            match key_index(prev, kt, 0) {
                Some(i0) => {
                    assert(ms == prev.update(i0, (kt, jv)));
                    assert forall|i: int| 0 <= i < ms.len() implies #[trigger] ms[i].0 == prev[i].0 by {}
                    assert forall|k: Seq<char>| #[trigger] holds_last_entries(ms, s, k) by {
                        lemma_key_index_same_names(ms, prev, k, 0);
                        assert(holds_last_entries(prev, init, k));
                        lemma_key_index_found(prev, k, 0);
                        lemma_last_entry_found(init, k);
                        if k == kt {
                            assert(last_entry_named(s, k) == Some(n));
                        } else {
                            assert(last_entry_named(s, k) == last_entry_named(init, k));
                            if let Some(j) = last_entry_named(init, k) {
                                assert(init[j] == s[j]);
                            }
                        }
                    }
                },
                None => {
                    assert(ms == prev.push((kt, jv)));
                    assert forall|i: int, j: int| 0 <= i < j < ms.len() implies #[trigger] ms[i].0
                        != #[trigger] ms[j].0 by {
                        if j < prev.len() {
                            assert(ms[i] == prev[i] && ms[j] == prev[j]);
                        } else {
                            assert(ms[i] == prev[i]);
                        }
                    }
                    assert forall|k: Seq<char>| #[trigger] holds_last_entries(ms, s, k) by {
                        lemma_key_index_push(prev, (kt, jv), k, 0);
                        assert(holds_last_entries(prev, init, k));
                        lemma_key_index_found(prev, k, 0);
                        lemma_last_entry_found(init, k);
                        if k == kt {
                            assert(last_entry_named(s, k) == Some(n));
                        } else {
                            assert(last_entry_named(s, k) == last_entry_named(init, k));
                            if let Some(j) = last_entry_named(init, k) {
                                assert(init[j] == s[j]);
                            }
                        }
                    }
                },
            }
        }
    }
}

/// The JSON form of a CBOR value is built part by part: a tag's is that of
/// the value it wraps; an array's exists when each item has one, and is the
/// array of the items' forms, in order; a map's exists when each key is text
/// and each value has a form, and is an object with one member for each name,
/// holding the form of the last entry of that name.
pub proof fn law_cbor_json_by_parts(c: CborValue)
    ensures
        c matches CborValue::Tag(_, inner) ==> cbor_json(c) == cbor_json(*inner),
        c matches CborValue::Array(xs) ==> {
            &&& cbor_json(c) is Some <==> forall|i: int| 0 <= i < xs@.len() ==> #[trigger] cbor_json(xs@[i]) is Some
            &&& cbor_json(c) matches Some(j) ==> (j matches Json::Array(js) && js.len() == xs@.len()
                && forall|i: int| 0 <= i < xs@.len() ==> Some(#[trigger] js[i]) == cbor_json(xs@[i]))
        },
        c matches CborValue::Mapping(kvs) ==> {
            &&& cbor_json(c) is Some <==> forall|i: int| 0 <= i < kvs@.len() ==> #[trigger] entry_has_json(kvs@[i])
            &&& cbor_json(c) matches Some(j) ==> (j matches Json::Object(ms) && unique_names(ms)
                && forall|k: Seq<char>| #[trigger] holds_last_entries(ms, kvs@, k))
        },
{
    match c {
        CborValue::Array(xs) => lemma_items_json(xs@),
        CborValue::Mapping(kvs) => lemma_entries_json(kvs@),
        _ => {},
    }
}

/// Where the first `c` at or after `i` stands: every character before it is
/// another, and it is `c` unless it is the end of `s`.
proof fn lemma_char_position(s: Seq<char>, c: char, i: int)
    requires
        0 <= i <= s.len(),
    ensures
        i <= char_position(s, c, i) <= s.len(),
        forall|j: int| i <= j < char_position(s, c, i) ==> s[j] != c,
        char_position(s, c, i) < s.len() ==> s[char_position(s, c, i)] == c,
    decreases s.len() - i,
{
    if i < s.len() && s[i] != c {
        lemma_char_position(s, c, i + 1);
    }
}

/// The first upstream call for a URN: a realm, a container or a ticker is
/// looked up by its whole name, with no other parameter; an atomical id asks
/// for the state of that very id; a `dat` URN asks for the transaction
/// named by the part of its identifier before the first `i`, which holds no
/// `i` and is followed by one unless it is the whole identifier.
pub proof fn law_first_call_parameters(identifier: Seq<char>)
    ensures
        first_call_spec(UrnType::Realm, identifier) == ("blockchain.atomicals.get_by_realm"@, seq![
            Json::Str(identifier),
        ]),
        first_call_spec(UrnType::Container, identifier) == ("blockchain.atomicals.get_by_container"@, seq![
            Json::Str(identifier),
        ]),
        first_call_spec(UrnType::Arc, identifier) == ("blockchain.atomicals.get_by_ticker"@, seq![
            Json::Str(identifier),
        ]),
        first_call_spec(UrnType::AtomicalId, identifier) == ("blockchain.atomicals.get_state"@, seq![
            Json::Str(identifier),
            Json::Bool(false),
        ]),
        first_call_spec(UrnType::Dat, identifier).0 == "blockchain.transaction.get"@,
        first_call_spec(UrnType::Dat, identifier).1.len() == 1,
        first_call_spec(UrnType::Dat, identifier).1[0] matches Json::Str(txid) && {
            &&& txid.len() <= identifier.len()
            &&& txid == identifier.subrange(0, txid.len() as int)
            &&& forall|j: int| 0 <= j < txid.len() ==> txid[j] != 'i'
            &&& txid.len() < identifier.len() ==> identifier[txid.len() as int] == 'i'
        },
{
    lemma_char_position(identifier, 'i', 0);
}

/// The JSON form of a CBOR scalar is the same value: a boolean stays that
/// boolean, text that text, null null, and an integer that fits an `i64` the
/// number it is, stored as `serde_json` stores it (non-negative as `u64`).
pub proof fn law_cbor_scalars_keep_their_value(b: bool, t: String, x: i128)
    ensures
        cbor_json(CborValue::Bool(b)) == Some(Json::Bool(b)),
        cbor_json(CborValue::Text(t)) == Some(Json::Str(t@)),
        cbor_json(CborValue::Null) == Some(Json::Null),
        0 <= x <= i64::MAX ==> cbor_json(CborValue::Integer(x)) == Some(Json::Number(JsonNumber::PosInt(x as u64))),
        i64::MIN <= x < 0 ==> cbor_json(CborValue::Integer(x)) == Some(Json::Number(JsonNumber::NegInt(x as i64))),
        (x < i64::MIN || x > i64::MAX) ==> cbor_json(CborValue::Integer(x)) is None,
{
}

/// A boolean parameter is fed to the cache hasher as `bool::hash` does: one
/// write of one byte, 0 for false and 1 for true; so two calls that differ
/// only in one boolean parameter feed the hasher differently.
pub proof fn law_booleans_hash_as_one_byte(b: bool, method: Seq<char>, before: Seq<Json>, after: Seq<Json>)
    requires
        key_writes(method, before + seq![Json::Bool(true)] + after) is Some,
    ensures
        json_writes(Json::Bool(b)) == Some(seq![seq![if b { 1u8 } else { 0u8 }]]),
        json_writes(Json::Bool(true)) != json_writes(Json::Bool(false)),
        key_writes(method, before + seq![Json::Bool(true)] + after) != key_writes(
            method,
            before + seq![Json::Bool(false)] + after,
        ),
{
    let with_true = before + seq![Json::Bool(true)] + after;
    let with_false = before + seq![Json::Bool(false)] + after;
    lemma_items_writes_concat(before, seq![Json::Bool(true)]);
    lemma_items_writes_concat(before + seq![Json::Bool(true)], after);
    lemma_items_writes_concat(before, seq![Json::Bool(false)]);
    lemma_items_writes_concat(before + seq![Json::Bool(false)], after);
    assert(items_writes(seq![Json::Bool(true)]) == Some(seq![seq![1u8]])) by {
        assert(seq![Json::Bool(true)].subrange(0, 0) =~= Seq::<Json>::empty());
        assert(seq![Json::Bool(true)][0] == Json::Bool(true));
        assert(json_writes(Json::Bool(true)) == Some(seq![seq![1u8]]));
        assert(items_writes(Seq::<Json>::empty()) == Some(Seq::<Seq<u8>>::empty()));
        assert(Seq::<Seq<u8>>::empty() + seq![seq![1u8]] =~= seq![seq![1u8]]);
    }
    assert(items_writes(seq![Json::Bool(false)]) == Some(seq![seq![0u8]])) by {
        assert(seq![Json::Bool(false)].subrange(0, 0) =~= Seq::<Json>::empty());
        assert(seq![Json::Bool(false)][0] == Json::Bool(false));
        assert(json_writes(Json::Bool(false)) == Some(seq![seq![0u8]]));
        assert(items_writes(Seq::<Json>::empty()) == Some(Seq::<Seq<u8>>::empty()));
        assert(Seq::<Seq<u8>>::empty() + seq![seq![0u8]] =~= seq![seq![0u8]]);
    }
    let pre = items_writes(before).unwrap();
    let post = items_writes(after).unwrap();
    let head = str_writes(method);
    let wt = head + (pre + seq![seq![1u8]] + post);
    let wf = head + (pre + seq![seq![0u8]] + post);
    assert(key_writes(method, with_true) == Some(wt));
    assert(key_writes(method, with_false) == Some(wf));
    let n: int = head.len() as int + pre.len() as int;
    assert(wt[n] == seq![1u8]);
    assert(wf[n] == seq![0u8]);
    assert(seq![1u8][0] != seq![0u8][0]);
}

/// The writes of two runs of parameters, one after the other: those of the
/// first, then those of the second; none when either has none.
proof fn lemma_items_writes_concat(a: Seq<Json>, b: Seq<Json>)
    ensures
        items_writes(a + b) == (match (items_writes(a), items_writes(b)) {
            (Some(x), Some(y)) => Some(x + y),
            _ => None,
        }),
    decreases b.len(),
{
    if b.len() == 0 {
        assert(a + b =~= a);
        if let Some(x) = items_writes(a) {
            assert(x + Seq::<Seq<u8>>::empty() =~= x);
        }
    } else {
        let init = b.subrange(0, b.len() - 1);
        lemma_items_writes_concat(a, init);
        assert((a + b).subrange(0, (a + b).len() - 1) =~= a + init);
        assert((a + b)[(a + b).len() - 1] == b[b.len() - 1]);
        if let (Some(x), Some(y), Some(z)) = (items_writes(a), items_writes(init), json_writes(b[b.len() - 1])) {
            assert(x + y + z =~= x + (y + z));
        }
    }
}

/// The first address among identifiers that start with `k` entries holding
/// none is the one at `k`, when it holds one.
proof fn lemma_first_address_at(ids: Seq<ForwardedFor>, i: int, k: int)
    requires
        0 <= i <= k < ids.len(),
        forall|j: int| i <= j < k ==> #[trigger] ids[j] is Other,
    ensures
        first_address(ids, i) == (match ids[k] {
            ForwardedFor::Address(a) => Some(a@),
            ForwardedFor::Other => first_address(ids, k + 1),
        }),
    decreases k - i,
{
    if i < k {
        assert(ids[i] is Other);
        lemma_first_address_at(ids, i + 1, k);
    }
}

/// Identifiers that hold no address give none.
proof fn lemma_first_address_none(ids: Seq<ForwardedFor>, i: int)
    requires
        0 <= i,
        forall|j: int| i <= j < ids.len() ==> #[trigger] ids[j] is Other,
    ensures
        first_address(ids, i) is None,
    decreases ids.len() - i,
{
    if i < ids.len() {
        assert(ids[i] is Other);
        lemma_first_address_none(ids, i + 1);
    }
}

/// The client named by a `Forwarded` header is the address of the first
/// stanza, in the order the header lists them, whose `for=` is an address:
/// the original client, not a proxy after it. With no such stanza, or text
/// that is not a `Forwarded` value, there is none.
pub proof fn law_forwarded_client_is_the_first_address(text: Seq<char>, ids: Seq<ForwardedFor>, k: int, a: String)
    ensures
        forwarded_read(text) == Some(ids) && 0 <= k < ids.len() && ids[k] == ForwardedFor::Address(a) && (forall|j: int|
            0 <= j < k ==> #[trigger] ids[j] is Other) ==> forwarded_client_spec(text) == Some(a@),
        forwarded_read(text) == Some(ids) && (forall|j: int| 0 <= j < ids.len() ==> #[trigger] ids[j] is Other)
            ==> forwarded_client_spec(text) is None,
        forwarded_read(text) is None ==> forwarded_client_spec(text) is None,
{
    if forwarded_read(text) == Some(ids) {
        if 0 <= k < ids.len() && (forall|j: int| 0 <= j < k ==> #[trigger] ids[j] is Other) {
            lemma_first_address_at(ids, 0, k);
        }
        if forall|j: int| 0 <= j < ids.len() ==> #[trigger] ids[j] is Other {
            lemma_first_address_none(ids, 0);
        }
    }
}

/// The first byte string among items that start with `k` holding none is
/// that of the item at `k`, or of a later one.
proof fn lemma_first_bytes_in_items_at(xs: Seq<CborValue>, k: int)
    requires
        0 <= k < xs.len(),
        forall|j: int| 0 <= j < k ==> #[trigger] first_bytes(xs[j]) is None,
    ensures
        first_bytes_in_items(xs) == (match first_bytes(xs[k]) {
            Some(b) => Some(b),
            None => first_bytes_in_items(xs.subrange(k + 1, xs.len() as int)),
        }),
    decreases k,
{
    if k > 0 {
        let rest = xs.subrange(1, xs.len() as int);
        assert(first_bytes(xs[0]) is None);
        assert forall|j: int| 0 <= j < k - 1 implies #[trigger] first_bytes(rest[j]) is None by {
            assert(rest[j] == xs[j + 1]);
        }
        lemma_first_bytes_in_items_at(rest, k - 1);
        assert(rest[k - 1] == xs[k]);
        assert(rest.subrange(k, rest.len() as int) =~= xs.subrange(k + 1, xs.len() as int));
    }
}

/// Items none of which holds a byte string give none.
proof fn lemma_first_bytes_in_items_none(xs: Seq<CborValue>)
    requires
        forall|j: int| 0 <= j < xs.len() ==> #[trigger] first_bytes(xs[j]) is None,
    ensures
        first_bytes_in_items(xs) is None,
    decreases xs.len(),
{
    if xs.len() > 0 {
        let rest = xs.subrange(1, xs.len() as int);
        assert(first_bytes(xs[0]) is None);
        assert forall|j: int| 0 <= j < rest.len() implies #[trigger] first_bytes(rest[j]) is None by {
            assert(rest[j] == xs[j + 1]);
        }
        lemma_first_bytes_in_items_none(rest);
    }
}

/// The first byte string among map entries that start with `k` whose values
/// hold none is that of the value at `k`, or of a later one.
proof fn lemma_first_bytes_in_entries_at(es: Seq<(CborValue, CborValue)>, k: int)
    requires
        0 <= k < es.len(),
        forall|j: int| 0 <= j < k ==> #[trigger] first_bytes(es[j].1) is None,
    ensures
        first_bytes_in_entries(es) == (match first_bytes(es[k].1) {
            Some(b) => Some(b),
            None => first_bytes_in_entries(es.subrange(k + 1, es.len() as int)),
        }),
    decreases k,
{
    if k > 0 {
        let rest = es.subrange(1, es.len() as int);
        assert(first_bytes(es[0].1) is None);
        assert forall|j: int| 0 <= j < k - 1 implies #[trigger] first_bytes(rest[j].1) is None by {
            assert(rest[j] == es[j + 1]);
        }
        lemma_first_bytes_in_entries_at(rest, k - 1);
        assert(rest[k - 1] == es[k]);
        assert(rest.subrange(k, rest.len() as int) =~= es.subrange(k + 1, es.len() as int));
    }
}

/// Map entries none of whose values holds a byte string give none.
proof fn lemma_first_bytes_in_entries_none(es: Seq<(CborValue, CborValue)>)
    requires
        forall|j: int| 0 <= j < es.len() ==> #[trigger] first_bytes(es[j].1) is None,
    ensures
        first_bytes_in_entries(es) is None,
    decreases es.len(),
{
    if es.len() > 0 {
        let rest = es.subrange(1, es.len() as int);
        assert(first_bytes(es[0].1) is None);
        assert forall|j: int| 0 <= j < rest.len() implies #[trigger] first_bytes(rest[j].1) is None by {
            assert(rest[j] == es[j + 1]);
        }
        lemma_first_bytes_in_entries_none(rest);
    }
}

/// The byte string served from a CBOR value is found depth-first in order: a
/// byte string is itself; in an array the first item, counted from the
/// front, that holds one decides; in a map the first entry whose value holds
/// one decides; a tag is looked through; nothing else holds one.
pub proof fn law_first_bytes_in_order(c: CborValue, k: int)
    ensures
        c matches CborValue::Bytes(b) ==> first_bytes(c) == Some(b@),
        c matches CborValue::Tag(_, inner) ==> first_bytes(c) == first_bytes(*inner),
        c matches CborValue::Array(xs) ==> ((0 <= k < xs@.len() && first_bytes(xs@[k]) is Some && forall|j: int|
            0 <= j < k ==> #[trigger] first_bytes(xs@[j]) is None) ==> first_bytes(c) == first_bytes(xs@[k])),
        c matches CborValue::Array(xs) ==> ((forall|j: int| 0 <= j < xs@.len() ==> #[trigger] first_bytes(xs@[j]) is None)
            ==> first_bytes(c) is None),
        c matches CborValue::Mapping(es) ==> ((0 <= k < es@.len() && first_bytes(es@[k].1) is Some && forall|j: int|
            0 <= j < k ==> #[trigger] first_bytes(es@[j].1) is None) ==> first_bytes(c) == first_bytes(es@[k].1)),
        c matches CborValue::Mapping(es) ==> ((forall|j: int| 0 <= j < es@.len() ==> #[trigger] first_bytes(es@[j].1)
            is None) ==> first_bytes(c) is None),
        (c is Integer || c is Float || c is Text || c is Bool || c is Null) ==> first_bytes(c) is None,
{
    match c {
        CborValue::Array(xs) => {
            if 0 <= k < xs@.len() && first_bytes(xs@[k]) is Some && forall|j: int|
                0 <= j < k ==> #[trigger] first_bytes(xs@[j]) is None {
                lemma_first_bytes_in_items_at(xs@, k);
            }
            if forall|j: int| 0 <= j < xs@.len() ==> #[trigger] first_bytes(xs@[j]) is None {
                lemma_first_bytes_in_items_none(xs@);
            }
        },
        CborValue::Mapping(es) => {
            if 0 <= k < es@.len() && first_bytes(es@[k].1) is Some && forall|j: int|
                0 <= j < k ==> #[trigger] first_bytes(es@[j].1) is None {
                lemma_first_bytes_in_entries_at(es@, k);
            }
            if forall|j: int| 0 <= j < es@.len() ==> #[trigger] first_bytes(es@[j].1) is None {
                lemma_first_bytes_in_entries_none(es@);
            }
        },
        _ => {},
    }
}

/// Whether `c` is a lowercase hex digit.
pub open spec fn is_lower_hex_digit(c: char) -> bool {
    ('0' <= c && c <= '9') || ('a' <= c && c <= 'f')
}

proof fn lemma_hex_digit_lowercase(n: u8)
    requires
        n < 16,
    ensures
        is_lower_hex_digit(hex_digit(n)),
{
    if n < 10 {
        assert(('0' as u8 + n) as char == hex_digit(n));
    }
}

/// Hex text is lowercase, two digits per byte, and reads back as the bytes
/// it was made from; so it is the one lowercase spelling of those bytes.
pub proof fn law_hex_encoding_is_lowercase(bytes: Seq<u8>)
    ensures
        hex_encode_spec(bytes).len() == 2 * bytes.len(),
        forall|i: int| 0 <= i < hex_encode_spec(bytes).len() ==> #[trigger] is_lower_hex_digit(hex_encode_spec(bytes)[i]),
        hex_decode_spec(hex_encode_spec(bytes)) == Some(bytes),
    decreases bytes.len(),
{
    law_hex_round_trip(bytes);
    if bytes.len() > 0 {
        let init = bytes.subrange(0, bytes.len() - 1);
        let last = bytes[bytes.len() - 1];
        law_hex_encoding_is_lowercase(init);
        lemma_hex_digit_lowercase(last / 16);
        lemma_hex_digit_lowercase(last % 16);
        let h = hex_encode_spec(bytes);
        let hi = hex_encode_spec(init);
        assert(h == hi + seq![hex_digit(last / 16), hex_digit(last % 16)]);
        assert forall|i: int| 0 <= i < h.len() implies #[trigger] is_lower_hex_digit(h[i]) by {
            if i < hi.len() {
                assert(h[i] == hi[i]);
            }
        }
    }
}

/// A CBOR byte string becomes its lowercase hex text, which reads back as
/// those bytes; a finite float stays the same float, and a tag is looked through.
pub proof fn law_cbor_bytes_and_floats(b: Vec<u8>, bits: u64, tag: u64, inner: CborValue)
    ensures
        cbor_json(CborValue::Bytes(b)) matches Some(Json::Str(h)) && h.len() == 2 * b@.len() && hex_decode_spec(h)
            == Some(b@) && forall|i: int| 0 <= i < h.len() ==> #[trigger] is_lower_hex_digit(h[i]),
        crate::cbor::finite_float_bits(bits) ==> cbor_json(CborValue::Float(bits)) == Some(
            Json::Number(JsonNumber::Float(bits)),
        ),
        !crate::cbor::finite_float_bits(bits) ==> cbor_json(CborValue::Float(bits)) is None,
        cbor_json(CborValue::Tag(tag, Box::new(inner))) == cbor_json(inner),
{
    law_hex_encoding_is_lowercase(b@);
}

/// What the cache hasher is fed for each kind of JSON value, as `Hash` does
/// for the Rust value behind it: a string's UTF-8 bytes then the byte `0xff`;
/// `null` as the string `null`; a boolean as one byte; an integer as the 8
/// bytes of its `i64` value in the machine's byte order (a number that is
/// not an `i64` cannot be hashed); an array item after item; a call its
/// method, then each parameter.
pub proof fn law_cache_writes(s: Seq<char>, b: bool, u: u64, n: i64, bits: u64, method: Seq<char>, x: Json, y: Json)
    ensures
        json_writes(Json::Str(s)) == Some(seq![vstd::utf8::encode_utf8(s), seq![0xffu8]]),
        json_writes(Json::Null) == Some(seq![vstd::utf8::encode_utf8("null"@), seq![0xffu8]]),
        json_writes(Json::Bool(b)) == Some(seq![seq![if b { 1u8 } else { 0u8 }]]),
        u <= i64::MAX ==> json_writes(Json::Number(JsonNumber::PosInt(u))) == Some(seq![crate::cache::native_bytes(u)]),
        u > i64::MAX ==> json_writes(Json::Number(JsonNumber::PosInt(u))) is None,
        json_writes(Json::Number(JsonNumber::NegInt(n))) == Some(seq![crate::cache::native_bytes(n as u64)]),
        json_writes(Json::Number(JsonNumber::Float(bits))) is None,
        (json_writes(x) is Some && json_writes(y) is Some) ==> json_writes(Json::Array(seq![x, y])) == Some(
            json_writes(x).unwrap() + json_writes(y).unwrap(),
        ),
        (json_writes(x) is Some && json_writes(y) is Some) ==> key_writes(method, seq![x, y]) == Some(
            seq![vstd::utf8::encode_utf8(method), seq![0xffu8]] + json_writes(x).unwrap() + json_writes(y).unwrap(),
        ),
{
    lemma_items_writes_concat(seq![x], seq![y]);
    assert(seq![x] + seq![y] =~= seq![x, y]);
    assert(seq![x].subrange(0, 0) =~= Seq::<Json>::empty());
    assert(seq![y].subrange(0, 0) =~= Seq::<Json>::empty());
    assert(items_writes(Seq::<Json>::empty()) == Some(Seq::<Seq<u8>>::empty()));
    if let (Some(wx), Some(wy)) = (json_writes(x), json_writes(y)) {
        assert(Seq::<Seq<u8>>::empty() + wx =~= wx);
        assert(Seq::<Seq<u8>>::empty() + wy =~= wy);
        assert(seq![x][0] == x);
        assert(seq![y][0] == y);
    }
}

/// Whether entry `e` of a `dat` payload is passed over when looking for the
/// field `f`: its key is text, and it is another name or holds no byte string.
pub open spec fn passed_over(e: (CborValue, CborValue), f: Seq<char>) -> bool {
    e.0 matches CborValue::Text(k) && (k@ != f || first_bytes(e.1) is None)
}

proof fn lemma_field_search_skips(es: Seq<(CborValue, CborValue)>, f: Seq<char>, i: int, k: int)
    requires
        0 <= i <= k <= es.len(),
        forall|j: int| i <= j < k ==> #[trigger] passed_over(es[j], f),
    ensures
        field_search(es, f, i) == field_search(es, f, k),
    decreases k - i,
{
    if i < k {
        assert(passed_over(es[i], f));
        lemma_field_search_skips(es, f, i + 1, k);
    }
}

/// The field of a `dat` payload named `f` is served from the first entry of
/// that name that holds a byte string, in the order of the entries, with the
/// media type guessed from `f`; entries before it with other names or no
/// byte string are passed over; a key that is not text, met first, is a
/// fault; and with no such entry the answer is the error `No field found: f`.
pub proof fn law_field_is_the_first_of_its_name(es: Seq<(CborValue, CborValue)>, f: Seq<char>, k: int, name: String)
    ensures
        0 <= k < es.len() && (forall|j: int| 0 <= j < k ==> #[trigger] passed_over(es[j], f)) ==> {
            &&& (es[k].0 == CborValue::Text(name) && name@ == f && first_bytes(es[k].1) is Some)
                ==> field_search(es, f, 0) == Outcome::Content(guessed_media_type(f), first_bytes(es[k].1).unwrap())
            &&& !(es[k].0 is Text) ==> field_search(es, f, 0) == Outcome::Fault(Fault::BadPayload)
        },
        (forall|j: int| 0 <= j < es.len() ==> #[trigger] passed_over(es[j], f)) ==> field_search(es, f, 0)
            == Outcome::Error("No field found: "@ + f),
{
    if 0 <= k < es.len() && (forall|j: int| 0 <= j < k ==> #[trigger] passed_over(es[j], f)) {
        lemma_field_search_skips(es, f, 0, k);
    }
    if forall|j: int| 0 <= j < es.len() ==> #[trigger] passed_over(es[j], f) {
        lemma_field_search_skips(es, f, 0, es.len() as int);
    }
}

} // verus!
