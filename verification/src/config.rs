//! Settings read from the environment, with their defaults.

use vstd::prelude::*;
use crate::text::{chars_of, lemma_split_from_nonempty, split_on, split_text, str_equal, strings_view, trim, trim_text};

verus! {

/// The value of a string of decimal digits.
pub open spec fn digits_value(s: Seq<char>) -> nat
    decreases s.len(),
{
    if s.len() == 0 {
        0
    } else {
        digits_value(s.subrange(0, s.len() - 1)) * 10 + ((s[s.len() - 1] as u32 - '0' as u32) as nat)
    }
}

pub open spec fn all_digits(s: Seq<char>) -> bool {
    forall|i: int| 0 <= i < s.len() ==> '0' <= #[trigger] s[i] && s[i] <= '9'
}

/// The digits that an unsigned integer literal consists of: the text after
/// an optional `+`.
pub open spec fn unsigned_digits(s: Seq<char>) -> Seq<char> {
    if s.len() > 0 && s[0] == '+' {
        s.subrange(1, s.len() as int)
    } else {
        s
    }
}

/// `str::parse` for an unsigned integer type whose largest value is `max`:
/// an optional `+`, then at least one ASCII digit and nothing else, for a
/// value not above `max`.
pub open spec fn parse_unsigned(s: Seq<char>, max: nat) -> Option<nat> {
    let d = unsigned_digits(s);
    if d.len() > 0 && all_digits(d) && digits_value(d) <= max {
        Some(digits_value(d))
    } else {
        None
    }
}

proof fn lemma_digits_value_step(s: Seq<char>, n: int)
    requires
        0 <= n < s.len(),
    ensures
        digits_value(s.subrange(0, n + 1)) == digits_value(s.subrange(0, n)) * 10 + ((s[n] as u32 - '0' as u32) as nat),
{
    assert(s.subrange(0, n + 1).subrange(0, n) =~= s.subrange(0, n));
}

proof fn lemma_digits_value_grows(s: Seq<char>, n: int, m: int)
    requires
        0 <= n <= m <= s.len(),
    ensures
        digits_value(s.subrange(0, n)) <= digits_value(s.subrange(0, m)),
    decreases m - n,
{
    if n < m {
        lemma_digits_value_grows(s, n, m - 1);
        lemma_digits_value_step(s, m - 1);
    }
}

/// Parses an unsigned integer not above `max`, as [`parse_unsigned`] describes it.
pub fn parse_unsigned_text(text: &str, max: u64) -> (r: Option<u64>)
    ensures
        match r {
            Some(v) => parse_unsigned(text@, max as nat) == Some(v as nat),
            None => parse_unsigned(text@, max as nat) is None,
        },
{
    let chars = chars_of(text);
    let start: usize = if chars.len() > 0 && chars[0] == '+' { 1 } else { 0 };
    let ghost d = unsigned_digits(text@);
    assert(d =~= chars@.subrange(start as int, chars@.len() as int));
    if start >= chars.len() {
        return None;
    }
    let mut value: u64 = 0;
    let mut i: usize = start;
    assert(d.subrange(0, 0) =~= Seq::<char>::empty());
    while i < chars.len()
        invariant
            d == unsigned_digits(text@),
            start <= i <= chars@.len(),
            start < chars@.len(),
            chars@ == text@,
            d == chars@.subrange(start as int, chars@.len() as int),
            all_digits(d.subrange(0, i - start)),
            value as nat == digits_value(d.subrange(0, i - start)),
            value <= max,
        decreases chars@.len() - i,
    {
        let c = chars[i];
        assert(d[i - start] == c);
        if !('0' <= c && c <= '9') {
            assert(!all_digits(d));
            return None;
        }
        let digit = (c as u32 - '0' as u32) as u64;
        proof {
            lemma_digits_value_step(d, i - start);
            lemma_digits_value_grows(d, i - start + 1, d.len() as int);
            assert(d.subrange(0, d.len() as int) =~= d);
        }
        if digit > max || value > (max - digit) / 10 {
            proof {
                if digit <= max {
                    assert(value * 10 + digit > max) by (nonlinear_arith)
                        requires
                            value > (max - digit) / 10,
                            digit <= max,
                    ;
                }
            }
            return None;
        }
        proof {
            assert(value * 10 + digit <= max) by (nonlinear_arith)
                requires
                    value <= (max - digit) / 10,
                    digit <= max,
            ;
        }
        value = value * 10 + digit;
        assert(d.subrange(0, i - start + 1) =~= d.subrange(0, i - start).push(c));
        i += 1;
    }
    assert(d.subrange(0, i - start) =~= d);
    Some(value)
}


/// A numeric setting whose largest value is `max`: the value of the
/// variable when it is set, else the default; nothing when it does not parse.
pub open spec fn numeric_setting(value: Option<Seq<char>>, default: nat, max: nat) -> Option<nat> {
    match value {
        Some(text) => parse_unsigned(text, max),
        None => Some(default),
    }
}

/// A `u64` setting, as [`numeric_setting`] describes it.
pub fn u64_setting(value: &Option<String>, default: u64) -> (r: Option<u64>)
    ensures
        match r {
            Some(v) => numeric_setting(opt_text(*value), default as nat, u64::MAX as nat) == Some(v as nat),
            None => numeric_setting(opt_text(*value), default as nat, u64::MAX as nat) is None,
        },
{
    match value {
        Some(text) => parse_unsigned_text(text.as_str(), u64::MAX),
        None => Some(default),
    }
}

/// A `u32` setting, as [`numeric_setting`] describes it.
pub fn u32_setting(value: &Option<String>, default: u32) -> (r: Option<u32>)
    ensures
        match r {
            Some(v) => numeric_setting(opt_text(*value), default as nat, u32::MAX as nat) == Some(v as nat),
            None => numeric_setting(opt_text(*value), default as nat, u32::MAX as nat) is None,
        },
{
    match value {
        Some(text) => match parse_unsigned_text(text.as_str(), u32::MAX as u64) {
            Some(v) => Some(v as u32),
            None => None,
        },
        None => Some(default),
    }
}

/// A `usize` setting, as [`numeric_setting`] describes it.
pub fn usize_setting(value: &Option<String>, default: usize) -> (r: Option<usize>)
    ensures
        match r {
            Some(v) => numeric_setting(opt_text(*value), default as nat, usize::MAX as nat) == Some(v as nat),
            None => numeric_setting(opt_text(*value), default as nat, usize::MAX as nat) is None,
        },
{
    match value {
        Some(text) => match parse_unsigned_text(text.as_str(), usize::MAX as u64) {
            Some(v) => Some(v as usize),
            None => None,
        },
        None => Some(default),
    }
}

pub open spec fn opt_text(o: Option<String>) -> Option<Seq<char>> {
    match o {
        Some(s) => Some(s@),
        None => None,
    }
}

/// The rate limit period in milliseconds: `IP_LIMIT_PER_SECOND` seconds when
/// that is set above zero, else `IP_LIMIT_PER_MILLS` (10 by default); nothing
/// when a variable does not parse or the period in milliseconds exceeds `u64`.
pub open spec fn per_mills_spec(per_second: Option<Seq<char>>, per_mills: Option<Seq<char>>) -> Option<nat> {
    match numeric_setting(per_second, 0, u64::MAX as nat) {
        None => None,
        Some(s) => if s > 0 {
            if s * 1000 <= u64::MAX {
                Some(s * 1000)
            } else {
                None
            }
        } else {
            numeric_setting(per_mills, 10, u64::MAX as nat)
        },
    }
}

/// The rate limit period in milliseconds, as [`per_mills_spec`] describes it.
pub fn ip_limit_per_mills(per_second: &Option<String>, per_mills: &Option<String>) -> (r: Option<u64>)
    ensures
        match r {
            Some(v) => per_mills_spec(opt_text(*per_second), opt_text(*per_mills)) == Some(v as nat),
            None => per_mills_spec(opt_text(*per_second), opt_text(*per_mills)) is None,
        },
{
    match u64_setting(per_second, 0) {
        None => None,
        Some(s) => if s > 0 {
            s.checked_mul(1000)
        } else {
            u64_setting(per_mills, 10)
        },
    }
}

/// A text setting: the variable's value when it is set, else the default.
pub fn text_setting(value: &Option<String>, default: &str) -> (r: String)
    ensures
        r@ == match opt_text(*value) {
            Some(t) => t,
            None => default@,
        },
{
    match value {
        Some(text) => text.clone(),
        None => default.to_owned(),
    }
}

/// The methods whose replies are never cached, by default.
pub open spec fn default_no_cache_methods() -> Seq<char> {
    "blockchain.atomicals.get_global,blockchain.estimatefee,blockchain.scripthash.subscribe,blockchain.transaction.broadcast,server.peers.subscribe,server.ping,mempool.get_fee_histogram,blockchain.atomicals.dump,blockchain.scripthash.unsubscribe,blockchain.relayfee"@
}

/// The list of methods in a `NO_CACHE_METHODS` value: its comma-separated
/// pieces, trimmed.
pub open spec fn method_list_spec(value: Option<Seq<char>>) -> Seq<Seq<char>> {
    let text = match value {
        Some(t) => t,
        None => default_no_cache_methods(),
    };
    split_on(text, ',').map_values(|p: Seq<char>| trim(p))
}

/// The methods whose replies are never cached, as [`method_list_spec`] describes them.
pub fn no_cache_methods(value: &Option<String>) -> (r: Vec<String>)
    ensures
        strings_view(r@) == method_list_spec(opt_text(*value)),
{
    let text = text_setting(
        value,
        "blockchain.atomicals.get_global,blockchain.estimatefee,blockchain.scripthash.subscribe,blockchain.transaction.broadcast,server.peers.subscribe,server.ping,mempool.get_fee_histogram,blockchain.atomicals.dump,blockchain.scripthash.unsubscribe,blockchain.relayfee",
    );
    let pieces = split_text(text.as_str(), ',');
    let ghost whole = split_on(text@, ',');
    let mut out: Vec<String> = Vec::new();
    let mut i: usize = 0;
    while i < pieces.len()
        invariant
            i <= pieces@.len(),
            strings_view(pieces@) == whole,
            strings_view(out@) == whole.subrange(0, i as int).map_values(|p: Seq<char>| trim(p)),
        decreases pieces@.len() - i,
    {
        let t = trim_text(pieces[i].as_str());
        let ghost before = out@;
        out.push(t);
        assert(whole[i as int] == pieces@[i as int]@);
        assert(strings_view(out@) =~= strings_view(before).push(t@));
        assert(whole.subrange(0, i + 1).map_values(|p: Seq<char>| trim(p)) =~= whole.subrange(0, i as int).map_values(
            |p: Seq<char>| trim(p),
        ).push(trim(whole[i as int])));
        i += 1;
    }
    assert(whole.subrange(0, pieces@.len() as int) =~= whole);
    out
}

/// Whether `method` is one of `methods`.
pub fn is_listed(methods: &Vec<String>, method: &str) -> (r: bool)
    ensures
        r == strings_view(methods@).contains(method@),
{
    let mut i: usize = 0;
    while i < methods.len()
        invariant
            i <= methods@.len(),
            forall|k: int| 0 <= k < i ==> methods@[k]@ != method@,
        decreases methods@.len() - i,
    {
        if str_equal(methods[i].as_str(), method) {
            assert(strings_view(methods@)[i as int] == method@);
            return true;
        }
        i += 1;
    }
    assert forall|k: int| 0 <= k < strings_view(methods@).len() implies strings_view(methods@)[k] != method@ by {
        assert(strings_view(methods@)[k] == methods@[k]@);
    }
    false
}

/// The upstream servers listed in `ELECTRUMX_WSS`: its comma-separated
/// pieces, untrimmed; there is always at least one.
pub fn server_list(value: &Option<String>) -> (r: Vec<String>)
    ensures
        r@.len() > 0,
        strings_view(r@) == split_on(
            match opt_text(*value) {
                Some(t) => t,
                None => "wss://electrumx.atomicals.xyz:50012"@,
            },
            ',',
        ),
{
    let text = text_setting(value, "wss://electrumx.atomicals.xyz:50012");
    proof {
        lemma_split_from_nonempty(text@, ',', 0, 0);
    }
    split_text(text.as_str(), ',')
}

/// Which server the client tries after the one at `index`: the next one,
/// back to the first after the last.
pub open spec fn next_server_spec(index: nat, count: nat) -> nat {
    if index + 1 >= count {
        0
    } else {
        index + 1
    }
}

/// The index of the server tried after the one at `index`, as
/// [`next_server_spec`] gives it.
pub fn next_server(index: usize, count: usize) -> (r: usize)
    requires
        count > 0,
    ensures
        r as nat == next_server_spec(index as nat, count as nat),
        r < count,
{
    if index >= count - 1 {
        0
    } else {
        index + 1
    }
}

} // verus!
