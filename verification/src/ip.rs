//! Reading the forwarding headers of a request: the text of a header value,
//! the candidates of an `X-Forwarded-For` list (which `std::net` parses as
//! addresses, outside this library), and the client named by a `Forwarded`
//! header.

use vstd::prelude::*;
use crate::text::{chars_of, split_on, split_text, strings_view, trim, trim_text};
use forwarded_header_value::{ForwardedHeaderValue, Identifier};

verus! {

/// A byte that a header value may hold and still be read as text: visible
/// ASCII, space or tab.
pub open spec fn is_visible_ascii(b: u8) -> bool {
    (32 <= b && b < 127) || b == 9
}

/// `HeaderValue::to_str`: the value as text when every byte is visible
/// ASCII (or a tab); each byte is then one character.
pub open spec fn header_text_spec(value: Seq<u8>) -> Option<Seq<char>> {
    if forall|i: int| 0 <= i < value.len() ==> #[trigger] is_visible_ascii(value[i]) {
        Some(value.map_values(|b: u8| b as char))
    } else {
        None
    }
}

/// The text of a header value, as [`header_text_spec`] describes it.
pub fn header_text(value: &[u8]) -> (r: Option<String>)
    ensures
        match r {
            Some(s) => header_text_spec(value@) == Some(s@),
            None => header_text_spec(value@) is None,
        },
{
    let mut s = String::new();
    let mut i: usize = 0;
    while i < value.len()
        invariant
            i <= value@.len(),
            forall|k: int| 0 <= k < i ==> #[trigger] is_visible_ascii(value@[k]),
            s@ == value@.subrange(0, i as int).map_values(|b: u8| b as char),
        decreases value@.len() - i,
    {
        let b = value[i];
        if !((32u8 <= b && b < 127u8) || b == 9u8) {
            assert(!is_visible_ascii(value@[i as int]));
            return None;
        }
        s.push(b as char);
        assert(value@.subrange(0, i + 1).map_values(|b: u8| b as char) =~= value@.subrange(0, i as int).map_values(
            |b: u8| b as char,
        ).push(b as char));
        i += 1;
    }
    assert(value@.subrange(0, value@.len() as int) =~= value@);
    Some(s)
}

/// The addresses that an `X-Forwarded-For` value lists, to be tried in
/// order: its comma-separated pieces, trimmed; none when the value is not text.
pub open spec fn forwarded_for_candidates_spec(value: Seq<u8>) -> Seq<Seq<char>> {
    match header_text_spec(value) {
        Some(text) => split_on(text, ',').map_values(|p: Seq<char>| trim(p)),
        None => Seq::empty(),
    }
}

/// The pieces of an `X-Forwarded-For` value, as
/// [`forwarded_for_candidates_spec`] describes them.
pub fn forwarded_for_candidates(value: &[u8]) -> (r: Vec<String>)
    ensures
        strings_view(r@) == forwarded_for_candidates_spec(value@),
{
    let text = match header_text(value) {
        Some(t) => t,
        None => {
            let r: Vec<String> = Vec::new();
            assert(strings_view(r@) =~= Seq::<Seq<char>>::empty());
            return r;
        },
    };
    let pieces = split_text(text.as_str(), ',');
    let ghost whole = split_on(text@, ',');
    let mut out: Vec<String> = Vec::new();
    let mut i: usize = 0;
    while i < pieces.len()
        invariant
            i <= pieces@.len(),
            strings_view(pieces@) == whole,
            strings_view(out@) == whole.subrange(0, i as int).map_values(|p: Seq<char>| trim(p)),
        decreases pieces@.len() - i,
    {
        let t = trim_text(pieces[i].as_str());
        let ghost before = out@;
        out.push(t);
        assert(whole[i as int] == pieces@[i as int]@);
        assert(strings_view(out@) =~= strings_view(before).push(t@));
        assert(whole.subrange(0, i + 1).map_values(|p: Seq<char>| trim(p)) =~= whole.subrange(0, i as int).map_values(
            |p: Seq<char>| trim(p),
        ).push(trim(whole[i as int])));
        i += 1;
    }
    assert(whole.subrange(0, pieces@.len() as int) =~= whole);
    out
}

/// The `for=` identifier of one stanza of a `Forwarded` header.
#[derive(Debug, Clone, PartialEq, Eq)]
pub enum ForwardedFor {
    /// An IP address, or the IP address of a socket address, as text.
    Address(String),
    /// A name, `unknown`, or no `for=` identifier at all.
    Other,
}

/// Whether a part of a `Forwarded` stanza is `host="`, its key in any case:
/// `from_forwarded` takes the text between the quotes of such a value by
/// slicing from after the first character to before the last, which here is
/// a range that ends before it starts, and panics.
pub open spec fn is_bare_quote_host(part: Seq<char>) -> bool {
    &&& part.len() == 6
    &&& (part[0] == 'h' || part[0] == 'H')
    &&& (part[1] == 'o' || part[1] == 'O')
    &&& (part[2] == 's' || part[2] == 'S')
    &&& (part[3] == 't' || part[3] == 'T')
    &&& part[4] == '='
    &&& part[5] == '"'
}

/// The parts of the stanza `piece` of a `Forwarded` header value, as
/// `from_forwarded` cuts them: the trimmed pieces between `;`.
pub open spec fn stanza_parts(piece: Seq<char>) -> Seq<Seq<char>> {
    split_on(trim(piece), ';').map_values(|p: Seq<char>| trim(p))
}

/// The stanzas of a `Forwarded` header value, as `from_forwarded` cuts
/// them: the trimmed pieces between `,` of the trimmed text.
pub open spec fn forwarded_stanzas(text: Seq<char>) -> Seq<Seq<char>> {
    split_on(trim(text), ',').map_values(|p: Seq<char>| trim(p))
}

/// Whether some stanza of `text` has a part `host="`, on which
/// `from_forwarded` may panic.
pub open spec fn has_bare_quote_host(text: Seq<char>) -> bool {
    exists|i: int, j: int|
        0 <= i < forwarded_stanzas(text).len() && 0 <= j < stanza_parts(forwarded_stanzas(text)[i]).len()
            && #[trigger] is_bare_quote_host(stanza_parts(forwarded_stanzas(text)[i])[j])
}

/// What `ForwardedHeaderValue::from_forwarded` reads from `text`: the
/// `for=` identifier of each stanza, in order; nothing when `text` is not a
/// `Forwarded` header value.
pub uninterp spec fn forwarded_read(text: Seq<char>) -> Option<Seq<ForwardedFor>>;

/// Parses a `Forwarded` header value (`ForwardedHeaderValue::from_forwarded`)
/// and lists the `for=` identifier of each stanza; the result is named
/// [`forwarded_read`]. A text with a part `host="` is left out, for
/// `from_forwarded` panics on it when it reaches it; this also leaves out the
/// texts in which an earlier part makes the parse fail first.
#[verifier::external_body]
pub(crate) fn read_forwarded(text: &str) -> (r: Option<Vec<ForwardedFor>>)
    requires
        !has_bare_quote_host(text@),
    ensures
        match r {
            Some(v) => forwarded_read(text@) == Some(v@),
            None => forwarded_read(text@) is None,
        },
{
    ForwardedHeaderValue::from_forwarded(text).ok().map(|f| f.iter().map(|stanza| match &stanza.forwarded_for {
        Some(Identifier::SocketAddr(a)) => ForwardedFor::Address(a.ip().to_string()),
        Some(Identifier::IpAddr(ip)) => ForwardedFor::Address(ip.to_string()),
        Some(Identifier::String(_)) => ForwardedFor::Other,
        Some(Identifier::Unknown) => ForwardedFor::Other,
        None => ForwardedFor::Other,
    }).collect())
}

/// The first address among the identifiers `ids`, from position `i` on.
pub open spec fn first_address(ids: Seq<ForwardedFor>, i: int) -> Option<Seq<char>>
    decreases ids.len() - i,
{
    if i < 0 || i >= ids.len() {
        None
    } else {
        match ids[i] {
            ForwardedFor::Address(a) => Some(a@),
            ForwardedFor::Other => first_address(ids, i + 1),
        }
    }
}

/// The client that a `Forwarded` header value names: the first `for=`
/// identifier that is an address; none when there is none, or when the text
/// is not a `Forwarded` header value.
pub open spec fn forwarded_client_spec(text: Seq<char>) -> Option<Seq<char>> {
    match forwarded_read(text) {
        Some(ids) => first_address(ids, 0),
        None => None,
    }
}

/// The client that a `Forwarded` header value names, as
/// [`forwarded_client_spec`] describes it. A text with a part `host="` is one
/// the proxy gives up on ([`bare_quote_host`] tells).
pub fn forwarded_client(text: &str) -> (r: Option<String>)
    requires
        !has_bare_quote_host(text@),
    ensures
        match forwarded_client_spec(text@) {
            Some(a) => r matches Some(s) && s@ == a,
            None => r is None,
        },
{
    let ids = match read_forwarded(text) {
        Some(ids) => ids,
        None => return None,
    };
    let mut i: usize = 0;
    while i < ids.len()
        invariant
            i <= ids@.len(),
            forwarded_client_spec(text@) == first_address(ids@, i as int),
        decreases ids@.len() - i,
    {
        match &ids[i] {
            ForwardedFor::Address(a) => return Some(a.clone()),
            ForwardedFor::Other => {},
        }
        i += 1;
    }
    None
}

fn is_bare_quote_host_text(part: &str) -> (r: bool)
    ensures
        r == is_bare_quote_host(part@),
{
    let c = chars_of(part);
    c.len() == 6 && (c[0] == 'h' || c[0] == 'H') && (c[1] == 'o' || c[1] == 'O') && (c[2] == 's'
        || c[2] == 'S') && (c[3] == 't' || c[3] == 'T') && c[4] == '=' && c[5] == '"'
}

/// Whether some stanza of a `Forwarded` header value has a part `host="`, as
/// [`has_bare_quote_host`] describes it.
pub fn bare_quote_host(text: &str) -> (r: bool)
    ensures
        r == has_bare_quote_host(text@),
{
    let stanzas = split_text(trim_text(text).as_str(), ',');
    let ghost st = forwarded_stanzas(text@);
    assert(st =~= strings_view(stanzas@).map_values(|p: Seq<char>| trim(p)));
    let mut i: usize = 0;
    while i < stanzas.len()
        invariant
            i <= stanzas@.len(),
            st.len() == stanzas@.len(),
            st == forwarded_stanzas(text@),
            forall|k: int| 0 <= k < stanzas@.len() ==> #[trigger] st[k] == trim(stanzas@[k]@),
            forall|a: int, b: int| 0 <= a < i && 0 <= b < stanza_parts(st[a]).len()
                ==> !#[trigger] is_bare_quote_host(stanza_parts(st[a])[b]),
        decreases stanzas@.len() - i,
    {
        let stanza = trim_text(stanzas[i].as_str());
        let parts = split_text(trim_text(stanza.as_str()).as_str(), ';');
        let ghost ps = stanza_parts(st[i as int]);
        assert(st[i as int] == stanza@);
        assert(ps =~= strings_view(parts@).map_values(|p: Seq<char>| trim(p)));
        let mut j: usize = 0;
        while j < parts.len()
            invariant
                i < stanzas@.len(),
                st.len() == stanzas@.len(),
                st == forwarded_stanzas(text@),
                forall|a: int, b: int| 0 <= a < i && 0 <= b < stanza_parts(st[a]).len()
                    ==> !#[trigger] is_bare_quote_host(stanza_parts(st[a])[b]),
                j <= parts@.len(),
                ps.len() == parts@.len(),
                ps == stanza_parts(st[i as int]),
                forall|k: int| 0 <= k < parts@.len() ==> #[trigger] ps[k] == trim(parts@[k]@),
                forall|b: int| 0 <= b < j ==> !#[trigger] is_bare_quote_host(ps[b]),
            decreases parts@.len() - j,
        {
            let part = trim_text(parts[j].as_str());
            if is_bare_quote_host_text(part.as_str()) {
                assert(ps[j as int] == part@);
                assert(is_bare_quote_host(stanza_parts(forwarded_stanzas(text@)[i as int])[j as int]));
                return true;
            }
            j += 1;
        }
        i += 1;
    }
    false
}

} // verus!
