//! Decoding of Atomicals URNs such as `atom:btc:dat:<txid>i<n>/field`.
//!
//! Five grammars are tried in order (`dat`, `id`, `realm`, `container`,
//! `arc`); within a grammar the leftmost position of the text where it
//! matches is taken, so text before `atom:btc:` is skipped.

use vstd::prelude::*;
use crate::text::{chars_of, string_from_chars};

verus! {

/// What a URN names.
#[derive(Debug, PartialEq, Eq, Clone, Copy, Structural)]
pub enum UrnType {
    AtomicalId,
    Realm,
    Container,
    Dat,
    Arc,
}

/// A decoded URN.
///
/// `path` is everything after the identifier up to the end of the line, when
/// that is not empty; `path_type` is its first character when that is `/` or `$`.
#[derive(Debug)]
pub struct UrnInfo {
    pub urn_type: UrnType,
    pub identifier: String,
    pub path_type: Option<String>,
    pub path: Option<String>,
}

/// Why a URN could not be decoded.
#[derive(Debug, PartialEq, Eq, Clone, Copy, Structural)]
pub enum UrnError {
    /// None of the URN grammars matches anywhere in the text.
    Invalid,
}

impl UrnError {
    /// The error's text.
    pub fn message(&self) -> (r: String)
        ensures
            r@ == "Invalid URN"@,
    {
        "Invalid URN".to_owned()
    }
}

/// The abstract content of a decoded URN.
pub struct UrnSpec {
    pub urn_type: UrnType,
    pub identifier: Seq<char>,
    pub path_type: Option<Seq<char>>,
    pub path: Option<Seq<char>>,
}

pub open spec fn opt_string_view(o: Option<String>) -> Option<Seq<char>> {
    match o {
        Some(s) => Some(s@),
        None => None,
    }
}

impl View for UrnInfo {
    type V = UrnSpec;

    open spec fn view(&self) -> UrnSpec {
        UrnSpec {
            urn_type: self.urn_type,
            identifier: self.identifier@,
            path_type: opt_string_view(self.path_type),
            path: opt_string_view(self.path),
        }
    }
}

/// Classes of characters used by the URN grammars.
#[derive(PartialEq, Eq, Clone, Copy, Structural)]
pub enum CharClass {
    /// `[0-9a-f]`
    LowerHex,
    /// `\d`: a Unicode decimal digit
    Digit,
    /// `[a-z0-9-]`
    Label,
    /// `[a-z0-9]`
    Ticker,
    /// `.`: anything but a line feed
    NotNewline,
}

/// What the regex engine's `\d` class accepts: the characters of the Unicode
/// category `Nd`.
pub uninterp spec fn regex_decimal_digit(c: char) -> bool;

pub open spec fn is_ascii_char(c: char) -> bool {
    (c as u32) < 128
}

pub open spec fn is_lower_alnum(c: char) -> bool {
    ('a' <= c && c <= 'z') || ('0' <= c && c <= '9')
}

/// `\d`: an ASCII character is a decimal digit exactly when it is `0`..`9`.
pub open spec fn is_urn_digit(c: char) -> bool {
    if is_ascii_char(c) {
        '0' <= c && c <= '9'
    } else {
        regex_decimal_digit(c)
    }
}

pub open spec fn in_class(class: CharClass, c: char) -> bool {
    match class {
        CharClass::LowerHex => ('0' <= c && c <= '9') || ('a' <= c && c <= 'f'),
        CharClass::Digit => is_urn_digit(c),
        CharClass::Label => is_lower_alnum(c) || c == '-',
        CharClass::Ticker => is_lower_alnum(c),
        CharClass::NotNewline => c != '\n',
    }
}

/// The end of the longest run of `class` characters of `s` starting at `i`.
pub open spec fn run_end(s: Seq<char>, i: int, class: CharClass) -> int
    decreases s.len() - i,
{
    if 0 <= i < s.len() && in_class(class, s[i]) {
        run_end(s, i + 1, class)
    } else {
        i
    }
}

/// The literal that starts a URN of type `t`, such as `atom:btc:dat:`.
pub open spec fn urn_prefix(t: UrnType) -> Seq<char> {
    let kind = match t {
        UrnType::Dat => seq!['d', 'a', 't'],
        UrnType::AtomicalId => seq!['i', 'd'],
        UrnType::Realm => seq!['r', 'e', 'a', 'l', 'm'],
        UrnType::Container => seq!['c', 'o', 'n', 't', 'a', 'i', 'n', 'e', 'r'],
        UrnType::Arc => seq!['a', 'r', 'c'],
    };
    seq!['a', 't', 'o', 'm', ':', 'b', 't', 'c', ':'] + kind + seq![':']
}

/// Where the identifier that starts at `i` ends, when one starts there:
/// for `dat` and `id` it is 64 lowercase hex digits, `i` and one or more
/// decimal digits; for `realm` and `container` one or more of `[a-z0-9-]`;
/// for `arc` one or more of `[a-z0-9]`. Runs are taken as long as possible.
pub open spec fn identifier_end(t: UrnType, s: Seq<char>, i: int) -> Option<int> {
    match t {
        UrnType::Dat | UrnType::AtomicalId => {
            if 0 <= i && i + 66 <= s.len() && (forall|k: int|
                i <= k < i + 64 ==> #[trigger] in_class(CharClass::LowerHex, s[k])) && s[i + 64]
                == 'i' && is_urn_digit(s[i + 65]) {
                Some(run_end(s, i + 65, CharClass::Digit))
            } else {
                None
            }
        },
        UrnType::Realm | UrnType::Container => {
            if 0 <= i < s.len() && in_class(CharClass::Label, s[i]) {
                Some(run_end(s, i, CharClass::Label))
            } else {
                None
            }
        },
        UrnType::Arc => {
            if 0 <= i < s.len() && in_class(CharClass::Ticker, s[i]) {
                Some(run_end(s, i, CharClass::Ticker))
            } else {
                None
            }
        },
    }
}

/// Where the identifier ends when the grammar of `t` matches at position `p`.
pub open spec fn match_at(t: UrnType, s: Seq<char>, p: int) -> Option<int> {
    let pre = urn_prefix(t);
    if 0 <= p && p + pre.len() <= s.len() && s.subrange(p, p + pre.len()) == pre {
        identifier_end(t, s, p + pre.len())
    } else {
        None
    }
}

/// The first position at or after `p` where the grammar of `t` matches, with
/// the end of the identifier there.
pub open spec fn leftmost_match(t: UrnType, s: Seq<char>, p: int) -> Option<(int, int)>
    decreases s.len() + 1 - p,
{
    if p < 0 || p > s.len() {
        None
    } else {
        match match_at(t, s, p) {
            Some(e) => Some((p, e)),
            None => leftmost_match(t, s, p + 1),
        }
    }
}

/// The decoded URN for a match of `t` at `start` whose identifier ends at `end`.
pub open spec fn urn_from_match(t: UrnType, s: Seq<char>, start: int, end: int) -> UrnSpec {
    let rest_end = run_end(s, end, CharClass::NotNewline);
    UrnSpec {
        urn_type: t,
        identifier: s.subrange(start + urn_prefix(t).len(), end),
        path_type: if end < s.len() && (s[end] == '/' || s[end] == '$') {
            Some(seq![s[end]])
        } else {
            None
        },
        path: if rest_end > end {
            Some(s.subrange(end, rest_end))
        } else {
            None
        },
    }
}

pub open spec fn decode_with(t: UrnType, s: Seq<char>) -> Option<UrnSpec> {
    match leftmost_match(t, s, 0) {
        Some((start, end)) => Some(urn_from_match(t, s, start, end)),
        None => None,
    }
}

/// The decoded URN: the first of the grammars `dat`, `id`, `realm`,
/// `container`, `arc` that matches somewhere in `s`.
pub open spec fn decode_urn_spec(s: Seq<char>) -> Option<UrnSpec> {
    if decode_with(UrnType::Dat, s) is Some {
        decode_with(UrnType::Dat, s)
    } else if decode_with(UrnType::AtomicalId, s) is Some {
        decode_with(UrnType::AtomicalId, s)
    } else if decode_with(UrnType::Realm, s) is Some {
        decode_with(UrnType::Realm, s)
    } else if decode_with(UrnType::Container, s) is Some {
        decode_with(UrnType::Container, s)
    } else {
        decode_with(UrnType::Arc, s)
    }
}

/// Tests `c` against the regex class `\d` (`regex::Regex::is_match` on the
/// pattern `^\d$` and the one-character text `c`). The result is named
/// [`regex_decimal_digit`]; nothing more of it is stated here.
#[verifier::external_body]
fn regex_is_decimal_digit(c: char) -> (r: bool)
    ensures
        r == regex_decimal_digit(c),
{
    let mut buf = [0u8; 4];
    regex::Regex::new(r"^\d$").unwrap().is_match(c.encode_utf8(&mut buf))
}

fn is_digit(c: char) -> (r: bool)
    ensures
        r == is_urn_digit(c),
{
    if (c as u32) < 128 {
        '0' <= c && c <= '9'
    } else {
        regex_is_decimal_digit(c)
    }
}

fn class_contains(class: CharClass, c: char) -> (r: bool)
    ensures
        r == in_class(class, c),
{
    match class {
        CharClass::LowerHex => ('0' <= c && c <= '9') || ('a' <= c && c <= 'f'),
        CharClass::Digit => is_digit(c),
        CharClass::Label => ('a' <= c && c <= 'z') || ('0' <= c && c <= '9') || c == '-',
        CharClass::Ticker => ('a' <= c && c <= 'z') || ('0' <= c && c <= '9'),
        CharClass::NotNewline => c != '\n',
    }
}

fn find_run_end(s: &Vec<char>, i: usize, class: CharClass) -> (r: usize)
    requires
        i <= s@.len(),
    ensures
        r as int == run_end(s@, i as int, class),
        i <= r <= s@.len(),
{
    let mut j = i;
    while j < s.len() && class_contains(class, s[j])
        invariant
            i <= j <= s@.len(),
            run_end(s@, i as int, class) == run_end(s@, j as int, class),
        decreases s@.len() - j,
    {
        j += 1;
    }
    j
}

fn prefix_chars(t: UrnType) -> (r: Vec<char>)
    ensures
        r@ == urn_prefix(t),
{
    let mut r = vec!['a', 't', 'o', 'm', ':', 'b', 't', 'c', ':'];
    match t {
        UrnType::Dat => {
            r.push('d');
            r.push('a');
            r.push('t');
        },
        UrnType::AtomicalId => {
            r.push('i');
            r.push('d');
        },
        UrnType::Realm => {
            r.push('r');
            r.push('e');
            r.push('a');
            r.push('l');
            r.push('m');
        },
        UrnType::Container => {
            r.push('c');
            r.push('o');
            r.push('n');
            r.push('t');
            r.push('a');
            r.push('i');
            r.push('n');
            r.push('e');
            r.push('r');
        },
        UrnType::Arc => {
            r.push('a');
            r.push('r');
            r.push('c');
        },
    }
    r.push(':');
    assert(r@ =~= urn_prefix(t));
    r
}

fn find_identifier_end(t: UrnType, s: &Vec<char>, i: usize) -> (r: Option<usize>)
    requires
        i <= s@.len(),
    ensures
        r matches Some(e) ==> identifier_end(t, s@, i as int) == Some(e as int) && e <= s@.len(),
        r is None ==> identifier_end(t, s@, i as int) is None,
{
    match t {
        UrnType::Dat | UrnType::AtomicalId => {
            if s.len() - i < 66 {
                return None;
            }
            let hex_end = i + 64;
            let mut k = i;
            while k < hex_end
                invariant
                    hex_end == i + 64,
                    i <= k <= i + 64,
                    i + 66 <= s@.len(),
                    t == UrnType::Dat || t == UrnType::AtomicalId,
                    forall|m: int| i <= m < k ==> #[trigger] in_class(CharClass::LowerHex, s@[m]),
                decreases i + 64 - k,
            {
                if !class_contains(CharClass::LowerHex, s[k]) {
                    assert(!in_class(CharClass::LowerHex, s@[k as int]));
                    return None;
                }
                k += 1;
            }
            if s[i + 64] != 'i' || !is_digit(s[i + 65]) {
                return None;
            }
            Some(find_run_end(s, i + 65, CharClass::Digit))
        },
        UrnType::Realm | UrnType::Container => {
            if i < s.len() && class_contains(CharClass::Label, s[i]) {
                Some(find_run_end(s, i, CharClass::Label))
            } else {
                None
            }
        },
        UrnType::Arc => {
            if i < s.len() && class_contains(CharClass::Ticker, s[i]) {
                Some(find_run_end(s, i, CharClass::Ticker))
            } else {
                None
            }
        },
    }
}

fn match_here(t: UrnType, s: &Vec<char>, pre: &Vec<char>, p: usize) -> (r: Option<usize>)
    requires
        p <= s@.len(),
        pre@ == urn_prefix(t),
    ensures
        r matches Some(e) ==> match_at(t, s@, p as int) == Some(e as int) && e <= s@.len(),
        r is None ==> match_at(t, s@, p as int) is None,
{
    if pre.len() > s.len() - p {
        return None;
    }
    let mut k: usize = 0;
    while k < pre.len()
        invariant
            k <= pre@.len(),
            p + pre@.len() <= s@.len(),
            forall|m: int| 0 <= m < k ==> s@[p + m] == pre@[m],
            pre@ == urn_prefix(t),
            p + pre@.len() <= s.len(),
        decreases pre@.len() - k,
    {
        assert(p + k < s@.len());
        if s[p + k] != pre[k] {
            assert(s@.subrange(p as int, p + pre@.len())[k as int] == s@[p + k]);
            assert(s@.subrange(p as int, p + pre@.len()) != pre@);
            return None;
        }
        k += 1;
    }
    assert(s@.subrange(p as int, p + pre@.len()) =~= pre@);
    find_identifier_end(t, s, p + pre.len())
}

proof fn lemma_no_match_at_end(t: UrnType, s: Seq<char>)
    ensures
        leftmost_match(t, s, s.len() as int) is None,
{
    assert(match_at(t, s, s.len() as int) is None);
    assert(leftmost_match(t, s, s.len() + 1int) is None);
}

fn find_leftmost(t: UrnType, s: &Vec<char>) -> (r: Option<(usize, usize)>)
    ensures
        r matches Some((a, b)) ==> leftmost_match(t, s@, 0) == Some((a as int, b as int)) && a <= b
            <= s@.len(),
        r is None ==> leftmost_match(t, s@, 0) is None,
{
    let pre = prefix_chars(t);
    let mut p: usize = 0;
    while p < s.len()
        invariant
            p <= s@.len(),
            pre@ == urn_prefix(t),
            leftmost_match(t, s@, 0) == leftmost_match(t, s@, p as int),
        decreases s@.len() - p,
    {
        match match_here(t, s, &pre, p) {
            Some(e) => {
                proof {
                    lemma_leftmost_found(t, s@, p as int);
                }
                return Some((p, e));
            },
            None => {},
        }
        p += 1;
    }
    proof {
        lemma_no_match_at_end(t, s@);
    }
    None
}

fn info_from_match(t: UrnType, s: &Vec<char>, start: usize, end: usize) -> (r: UrnInfo)
    requires
        leftmost_match(t, s@, 0) == Some((start as int, end as int)),
        start <= end <= s@.len(),
    ensures
        r@ == urn_from_match(t, s@, start as int, end as int),
{
    let ghost pl = urn_prefix(t).len() as int;
    proof {
        lemma_leftmost_found(t, s@, 0);
    }
    let id_start = start + prefix_len(t);
    let rest_end = find_run_end(s, end, CharClass::NotNewline);
    let identifier = string_from_chars(s, id_start, end);
    let path_type = if end < s.len() && (s[end] == '/' || s[end] == '$') {
        let pt = string_from_chars(s, end, end + 1);
        assert(s@.subrange(end as int, end + 1) =~= seq![s@[end as int]]);
        Some(pt)
    } else {
        None
    };
    let path = if rest_end > end {
        Some(string_from_chars(s, end, rest_end))
    } else {
        None
    };
    UrnInfo { urn_type: t, identifier, path_type, path }
}

fn prefix_len(t: UrnType) -> (r: usize)
    ensures
        r == urn_prefix(t).len(),
{
    match t {
        UrnType::Dat => 13,
        UrnType::AtomicalId => 12,
        UrnType::Realm => 15,
        UrnType::Container => 19,
        UrnType::Arc => 13,
    }
}

/// A run never ends before it starts, nor after the text.
pub proof fn lemma_run_end_bounds(s: Seq<char>, i: int, class: CharClass)
    requires
        0 <= i <= s.len(),
    ensures
        i <= run_end(s, i, class) <= s.len(),
    decreases s.len() - i,
{
    if i < s.len() && in_class(class, s[i]) {
        lemma_run_end_bounds(s, i + 1, class);
    }
}

/// An identifier ends after it starts.
proof fn lemma_identifier_end_bounds(t: UrnType, s: Seq<char>, i: int)
    requires
        0 <= i <= s.len(),
    ensures
        identifier_end(t, s, i) matches Some(e) ==> i <= e <= s.len(),
{
    match t {
        UrnType::Dat | UrnType::AtomicalId => {
            if i + 66 <= s.len() {
                lemma_run_end_bounds(s, i + 65, CharClass::Digit);
            }
        },
        UrnType::Realm | UrnType::Container => {
            lemma_run_end_bounds(s, i, CharClass::Label);
        },
        UrnType::Arc => {
            lemma_run_end_bounds(s, i, CharClass::Ticker);
        },
    }
}

pub proof fn lemma_leftmost_found(t: UrnType, s: Seq<char>, p: int)
    ensures
        leftmost_match(t, s, p) matches Some((a, e)) ==> p <= a && match_at(t, s, a) == Some(e)
            && a + urn_prefix(t).len() <= e <= s.len(),
    decreases s.len() + 1 - p,
{
    if 0 <= p <= s.len() {
        if match_at(t, s, p) is None {
            lemma_leftmost_found(t, s, p + 1);
        } else if p + urn_prefix(t).len() <= s.len() {
            lemma_identifier_end_bounds(t, s, p + urn_prefix(t).len());
        }
    }
}

fn decode_with_type(t: UrnType, s: &Vec<char>) -> (r: Option<UrnInfo>)
    ensures
        r matches Some(info) ==> decode_with(t, s@) == Some(info@),
        r is None ==> decode_with(t, s@) is None,
{
    match find_leftmost(t, s) {
        Some((start, end)) => Some(info_from_match(t, s, start, end)),
        None => None,
    }
}

/// Decodes a URN.
///
/// Succeeds exactly when one of the grammars matches somewhere in `urn`, and
/// then gives what [`decode_urn_spec`] describes.
pub fn decode_urn(urn: &str) -> (r: Result<UrnInfo, UrnError>)
    ensures
        r matches Ok(info) ==> decode_urn_spec(urn@) == Some(info@),
        r is Err ==> decode_urn_spec(urn@) is None && r == Err::<UrnInfo, UrnError>(UrnError::Invalid),
{
    let s = chars_of(urn);
    if let Some(info) = decode_with_type(UrnType::Dat, &s) {
        return Ok(info);
    }
    if let Some(info) = decode_with_type(UrnType::AtomicalId, &s) {
        return Ok(info);
    }
    if let Some(info) = decode_with_type(UrnType::Realm, &s) {
        return Ok(info);
    }
    if let Some(info) = decode_with_type(UrnType::Container, &s) {
        return Ok(info);
    }
    if let Some(info) = decode_with_type(UrnType::Arc, &s) {
        return Ok(info);
    }
    Err(UrnError::Invalid)
}

} // verus!
