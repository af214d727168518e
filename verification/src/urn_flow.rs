//! What the proxy answers for a URN.
//!
//! Answering a URN takes one or two upstream calls; the proxy's HTTP layer
//! makes them. The functions here decide, from the decoded URN and each
//! upstream reply, which call comes next and what the client receives.

use vstd::prelude::*;
use crate::cbor::{CborValue, cbor_json, cbor_read, cbor_to_json, find_cbor_first_bytes, has_json_form, first_bytes, read_cbor};
use crate::envelope::{
    Envelope, EnvelopeSpec, bitcoin_script_steps, bitcoin_tx_witnesses, envelope_of,
    extract_envelope, script_items, transaction_witnesses, witness_view,
    ScriptItem,
};
use crate::hex_text::{hex_decode, hex_decode_spec};
use crate::json::{Json, JsonValue, json_get, json_str, models, lemma_models};
use crate::media_type::{guess_media_type, guessed_media_type, parse_media_type, parsed_media_type};
use crate::rpc::{Fault, R, is_error_reply, opt_model};
use crate::text::{char_position, chars_of, find_char, string_from_chars, str_equal};
use crate::urn::{UrnInfo, UrnType, is_ascii_char, opt_string_view};

verus! {

/// What the client receives for a URN.
#[derive(Debug)]
pub enum UrnReply {
    /// A JSON document.
    Json(JsonValue),
    /// A proxy reply ([`R`]), sent as JSON.
    Reply(R),
    /// A permanent redirect to this location.
    Redirect(String),
    /// Content of the given media type.
    Content(String, Vec<u8>),
}

/// The model of what the client receives, or the fault that stops the request.
pub enum Outcome {
    Json(Json),
    /// `R::error(-1, message)`
    Error(Seq<char>),
    Redirect(Seq<char>),
    Content(Seq<char>, Seq<u8>),
    Fault(Fault),
}

/// Whether `r` is what `o` describes.
pub open spec fn delivers(r: Result<UrnReply, Fault>, o: Outcome) -> bool {
    match o {
        Outcome::Json(j) => r matches Ok(UrnReply::Json(v)) && v.model() == j,
        Outcome::Error(m) => r matches Ok(UrnReply::Reply(rr)) && is_error_reply(rr, -1i64, m),
        Outcome::Redirect(u) => r matches Ok(UrnReply::Redirect(s)) && s@ == u,
        Outcome::Content(m, b) => r matches Ok(UrnReply::Content(ms, bs)) && ms@ == m && bs@ == b,
        Outcome::Fault(f) => r == Err::<UrnReply, Fault>(f),
    }
}

/// An upstream call to make.
#[derive(Debug)]
pub struct UpstreamCall {
    pub method: String,
    pub params: Vec<JsonValue>,
}

/// The part of `s` before its first `c` (the first piece of `s.split(c)`).
pub open spec fn before_char(s: Seq<char>, c: char) -> Seq<char> {
    s.subrange(0, char_position(s, c, 0))
}

/// The upstream method that resolves a name of the URN's kind to an atomical.
pub open spec fn lookup_method(t: UrnType) -> Seq<char> {
    match t {
        UrnType::Realm => "blockchain.atomicals.get_by_realm"@,
        UrnType::Container => "blockchain.atomicals.get_by_container"@,
        _ => "blockchain.atomicals.get_by_ticker"@,
    }
}

/// The first upstream call for a URN: the transaction of a `dat` URN (its
/// identifier up to the `i`), the state of an atomical for an `id` URN, and a
/// lookup by name for the other kinds.
pub open spec fn first_call_spec(t: UrnType, identifier: Seq<char>) -> (Seq<char>, Seq<Json>) {
    match t {
        UrnType::Dat => ("blockchain.transaction.get"@, seq![Json::Str(before_char(identifier, 'i'))]),
        UrnType::AtomicalId => ("blockchain.atomicals.get_state"@, seq![Json::Str(identifier), Json::Bool(false)]),
        _ => (lookup_method(t), seq![Json::Str(identifier)]),
    }
}

/// The first upstream call for a decoded URN, as [`first_call_spec`] gives it.
pub fn first_call(info: &UrnInfo) -> (r: UpstreamCall)
    ensures
        (r.method@, models(r.params@)) == first_call_spec(info.urn_type, info.identifier@),
{
    let mut params: Vec<JsonValue> = Vec::new();
    let method = match info.urn_type {
        UrnType::Dat => {
            let chars = chars_of(info.identifier.as_str());
            let end = find_char(&chars, 'i');
            params.push(JsonValue::String(string_from_chars(&chars, 0, end)));
            "blockchain.transaction.get".to_owned()
        },
        UrnType::AtomicalId => {
            params.push(JsonValue::String(info.identifier.clone()));
            params.push(JsonValue::Bool(false));
            "blockchain.atomicals.get_state".to_owned()
        },
        UrnType::Realm => {
            params.push(JsonValue::String(info.identifier.clone()));
            "blockchain.atomicals.get_by_realm".to_owned()
        },
        UrnType::Container => {
            params.push(JsonValue::String(info.identifier.clone()));
            "blockchain.atomicals.get_by_container".to_owned()
        },
        UrnType::Arc => {
            params.push(JsonValue::String(info.identifier.clone()));
            "blockchain.atomicals.get_by_ticker".to_owned()
        },
    };
    proof {
        lemma_models(params@);
        assert(models(params@) =~= first_call_spec(info.urn_type, info.identifier@).1);
    }
    UpstreamCall { method, params }
}

/// The call that reads the state of atomical `atomical_id`.
pub fn state_call(atomical_id: String) -> (r: UpstreamCall)
    ensures
        (r.method@, models(r.params@)) == first_call_spec(UrnType::AtomicalId, atomical_id@),
{
    let mut params: Vec<JsonValue> = Vec::new();
    params.push(JsonValue::String(atomical_id));
    params.push(JsonValue::Bool(false));
    proof {
        lemma_models(params@);
        assert(models(params@) =~= first_call_spec(UrnType::AtomicalId, atomical_id@).1);
    }
    UpstreamCall { method: "blockchain.atomicals.get_state".to_owned(), params }
}

/// `&p[1..]`: the path without its first character, which must be ASCII
/// (any other first character makes the slice fail).
pub open spec fn strip_first(p: Seq<char>) -> Option<Seq<char>> {
    if p.len() >= 1 && is_ascii_char(p[0]) {
        Some(p.subrange(1, p.len() as int))
    } else {
        None
    }
}

fn strip_first_char(p: &str) -> (r: Option<String>)
    ensures
        match r {
            Some(f) => strip_first(p@) == Some(f@),
            None => strip_first(p@) is None,
        },
{
    let chars = chars_of(p);
    if chars.len() >= 1 && (chars[0] as u32) < 128 {
        Some(string_from_chars(&chars, 1, chars.len()))
    } else {
        None
    }
}

/// "No field found: " followed by the field's name.
pub open spec fn no_field_text(field: Seq<char>) -> Seq<char> {
    "No field found: "@ + field
}

fn no_field_reply(field: &str) -> (r: R)
    ensures
        is_error_reply(r, -1i64, no_field_text(field@)),
{
    let mut text = "No field found: ".to_owned();
    text.append(field);
    R::error(-1, text)
}

fn error_reply(text: &str) -> (r: R)
    ensures
        is_error_reply(r, -1i64, text@),
{
    R::error(-1, text.to_owned())
}


/// The envelope text whose marker does not match: "ATOMICALS_PROTOCOL_ENVELOPE_ID not matched".
pub open spec fn marker_mismatch_text() -> Seq<char> {
    "ATOMICALS_PROTOCOL_ENVELOPE_ID not matched"@
}

/// What the reply to the transaction call of a `dat` URN leads to.
pub enum TxStep {
    /// An unsuccessful reply, passed on to the client as it is.
    Forward,
    /// The client receives `R::error(-1, message)`.
    Error(Seq<char>),
    Fault(Fault),
    /// The envelope's payload, to be read as CBOR.
    Payload(Seq<u8>),
}

/// The envelope payload of the transaction that a successful reply carries
/// as hex text: read from the script that the first input's witness holds
/// second (an empty payload when there is no such item).
pub open spec fn tx_step_spec(success: bool, response: Option<Json>) -> TxStep {
    if !success {
        TxStep::Forward
    } else {
        match response {
            None => TxStep::Fault(Fault::MissingPayload),
            Some(v) => match json_str(v) {
                None => TxStep::Fault(Fault::UnexpectedPayload),
                Some(text) => match hex_decode_spec(text) {
                    None => TxStep::Fault(Fault::BadTransaction),
                    Some(raw) => match bitcoin_tx_witnesses(raw) {
                        None => TxStep::Fault(Fault::BadTransaction),
                        Some(stacks) => if stacks.len() == 0 {
                            TxStep::Fault(Fault::NoInput)
                        } else if stacks[0].len() >= 2 {
                            match envelope_of(bitcoin_script_steps(stacks[0][1])) {
                                EnvelopeSpec::Payload(b) => TxStep::Payload(b),
                                EnvelopeSpec::NotAtomicals => TxStep::Error(marker_mismatch_text()),
                                EnvelopeSpec::Unreadable => TxStep::Fault(Fault::BadScript),
                            }
                        } else {
                            TxStep::Payload(Seq::empty())
                        },
                    },
                },
            },
        }
    }
}

/// What the reply to the transaction call of a `dat` URN leads to.
#[derive(Debug)]
pub enum DatPayload {
    /// The reply, to be passed on unchanged.
    Forward(R),
    /// A reply for the client.
    Reply(R),
    /// The envelope's payload, to be read as CBOR.
    Payload(Vec<u8>),
}

/// Reads the envelope payload out of the reply to the transaction call of a
/// `dat` URN, as [`tx_step_spec`] describes it.
pub fn dat_payload(reply: R) -> (r: Result<DatPayload, Fault>)
    ensures
        match tx_step_spec(reply.success, opt_model(reply.response)) {
            TxStep::Forward => r == Ok::<DatPayload, Fault>(DatPayload::Forward(reply)),
            TxStep::Error(m) => r matches Ok(DatPayload::Reply(rr)) && is_error_reply(rr, -1i64, m),
            TxStep::Fault(f) => r == Err::<DatPayload, Fault>(f),
            TxStep::Payload(b) => r matches Ok(DatPayload::Payload(p)) && p@ == b,
        },
{
    if !reply.success {
        return Ok(DatPayload::Forward(reply));
    }
    let response = match &reply.response {
        Some(v) => v,
        None => return Err(Fault::MissingPayload),
    };
    let text = match response.as_str() {
        Some(t) => t,
        None => return Err(Fault::UnexpectedPayload),
    };
    let raw = match hex_decode(text.as_str()) {
        Some(raw) => raw,
        None => return Err(Fault::BadTransaction),
    };
    let stacks = match transaction_witnesses(raw.as_slice()) {
        Some(w) => w,
        None => return Err(Fault::BadTransaction),
    };
    if stacks.len() == 0 {
        return Err(Fault::NoInput);
    }
    let ghost ws = witness_view(stacks);
    assert(ws[0] == stacks@[0]@.map_values(|item: Vec<u8>| item@));
    if stacks[0].len() >= 2 {
        assert(ws[0][1] == stacks@[0]@[1]@);
        let items = script_items(stacks[0][1].as_slice());
        assert(items@.map_values(|it: ScriptItem| it.step()) =~= bitcoin_script_steps(ws[0][1]));
        match extract_envelope(&items) {
            Envelope::Payload(b) => Ok(DatPayload::Payload(b)),
            Envelope::NotAtomicals => Ok(
                DatPayload::Reply(error_reply("ATOMICALS_PROTOCOL_ENVELOPE_ID not matched")),
            ),
            Envelope::Unreadable => Err(Fault::BadScript),
        }
    } else {
        Ok(DatPayload::Payload(Vec::new()))
    }
}

/// Looks for the field `f` among the entries of the envelope's CBOR map, from
/// entry `i` on: the first byte string under the first entry named `f` that
/// holds one is served, with the media type guessed from `f`. Every key met
/// must be text.
pub open spec fn field_search(entries: Seq<(CborValue, CborValue)>, f: Seq<char>, i: int) -> Outcome
    decreases entries.len() - i,
{
    if i < 0 || i >= entries.len() {
        Outcome::Error(no_field_text(f))
    } else {
        match entries[i].0 {
            CborValue::Text(k) => if k@ == f {
                match first_bytes(entries[i].1) {
                    Some(b) => Outcome::Content(guessed_media_type(f), b),
                    None => field_search(entries, f, i + 1),
                }
            } else {
                field_search(entries, f, i + 1)
            },
            _ => Outcome::Fault(Fault::BadPayload),
        }
    }
}

/// What a `dat` URN answers once its envelope has been read as CBOR: the
/// field that the path names, or the whole payload as JSON.
pub open spec fn dat_outcome(path: Option<Seq<char>>, cbor: CborValue) -> Outcome {
    let whole = match cbor_json(cbor) {
        Some(j) => Outcome::Json(j),
        None => Outcome::Fault(Fault::BadPayload),
    };
    match path {
        None => whole,
        Some(p) => match strip_first(p) {
            None => Outcome::Fault(Fault::BadPath),
            Some(f) => if f.len() == 0 {
                whole
            } else {
                match cbor {
                    CborValue::Mapping(entries) => field_search(entries@, f, 0),
                    _ => Outcome::Fault(Fault::UnexpectedPayload),
                }
            },
        },
    }
}

/// What a `dat` URN answers, as [`dat_outcome`] describes it.
pub fn dat_reply(path: &Option<String>, cbor: &CborValue) -> (r: Result<UrnReply, Fault>)
    ensures
        delivers(r, dat_outcome(opt_string_view(*path), *cbor)),
{
    if let Some(p) = path {
        let f = match strip_first_char(p.as_str()) {
            Some(f) => f,
            None => return Err(Fault::BadPath),
        };
        if !f.as_str().is_empty() {
            let entries = match cbor {
                CborValue::Mapping(entries) => entries,
                _ => return Err(Fault::UnexpectedPayload),
            };
            let mut i: usize = 0;
            while i < entries.len()
                invariant
                    i <= entries@.len(),
                    *cbor == CborValue::Mapping(*entries),
                    strip_first(p@) == Some(f@),
                    f@.len() > 0,
                    dat_outcome(opt_string_view(*path), *cbor) == field_search(entries@, f@, i as int),
                decreases entries@.len() - i,
            {
                match &entries[i].0 {
                    CborValue::Text(k) => {
                        if str_equal(k.as_str(), f.as_str()) {
                            if let Some(b) = find_cbor_first_bytes(&entries[i].1) {
                                let media = guess_media_type(f.as_str());
                                return Ok(UrnReply::Content(media, b.clone()));
                            }
                        }
                    },
                    _ => return Err(Fault::BadPayload),
                }
                i += 1;
            }
            return Ok(UrnReply::Reply(no_field_reply(f.as_str())));
        }
    }
    if has_json_form(cbor) {
        Ok(UrnReply::Json(cbor_to_json(cbor)))
    } else {
        Err(Fault::BadPayload)
    }
}


/// What a `dat` URN answers for the payload of its envelope: the payload is
/// read as CBOR, and the answer is then the one [`dat_reply`] gives; a
/// payload that does not start with a CBOR value is a fault.
pub fn dat_answer(path: &Option<String>, payload: &[u8]) -> (r: Result<UrnReply, Fault>)
    ensures
        match cbor_read(payload@) {
            None => r == Err::<UrnReply, Fault>(Fault::BadPayload),
            Some(c) => delivers(r, dat_outcome(opt_string_view(*path), c)),
        },
{
    match read_cbor(payload) {
        None => Err(Fault::BadPayload),
        Some(c) => dat_reply(path, &c),
    }
}

/// `value.and_then(|v| v.get(key))`
pub open spec fn get_in(value: Option<Json>, key: Seq<char>) -> Option<Json> {
    match value {
        Some(v) => json_get(v, key),
        None => None,
    }
}

/// `value.and_then(|v| v.as_object())`: the value when it is an object.
pub open spec fn object_only(value: Option<Json>) -> Option<Json> {
    match value {
        Some(v) => if v is Object {
            Some(v)
        } else {
            None
        },
        None => None,
    }
}

/// What the reply to a lookup by name leads to.
pub enum LookupStep {
    /// An unsuccessful reply, passed on to the client as it is.
    Forward,
    Error(Seq<char>),
    Fault(Fault),
    /// The atomical found.
    Found(Seq<char>),
}

/// The atomical that a successful lookup reply names in
/// `result.atomical_id`; "Not atomical found" when it names none.
pub open spec fn lookup_step_spec(success: bool, response: Option<Json>) -> LookupStep {
    if !success {
        LookupStep::Forward
    } else {
        match response {
            None => LookupStep::Fault(Fault::MissingPayload),
            Some(v) => match get_in(json_get(v, "result"@), "atomical_id"@) {
                Some(id) => match json_str(id) {
                    Some(s) => LookupStep::Found(s),
                    None => LookupStep::Error("Not atomical found"@),
                },
                None => LookupStep::Error("Not atomical found"@),
            },
        }
    }
}

/// What the reply to a lookup by name leads to.
#[derive(Debug)]
pub enum Lookup {
    /// The reply, to be passed on unchanged.
    Forward(R),
    /// A reply for the client.
    Reply(R),
    /// The atomical found, whose state is read next.
    Found(String),
}

/// Reads the atomical out of a lookup reply, as [`lookup_step_spec`] describes it.
pub fn lookup_result(reply: R) -> (r: Result<Lookup, Fault>)
    ensures
        match lookup_step_spec(reply.success, opt_model(reply.response)) {
            LookupStep::Forward => r == Ok::<Lookup, Fault>(Lookup::Forward(reply)),
            LookupStep::Error(m) => r matches Ok(Lookup::Reply(rr)) && is_error_reply(rr, -1i64, m),
            LookupStep::Fault(f) => r == Err::<Lookup, Fault>(f),
            LookupStep::Found(id) => r matches Ok(Lookup::Found(s)) && s@ == id,
        },
{
    if !reply.success {
        return Ok(Lookup::Forward(reply));
    }
    let response = match &reply.response {
        Some(v) => v,
        None => return Err(Fault::MissingPayload),
    };
    let found = match response.get("result") {
        Some(result) => match result.get("atomical_id") {
            Some(id) => match id.as_str() {
                Some(s) => Some(s.clone()),
                None => None,
            },
            None => None,
        },
        None => None,
    };
    match found {
        Some(s) => Ok(Lookup::Found(s)),
        None => Ok(Lookup::Reply(error_reply("Not atomical found"))),
    }
}

/// Whether `s` starts with `atom:btc:`.
pub open spec fn is_atom_urn(s: Seq<char>) -> bool {
    s.len() >= 9 && s.subrange(0, 9) == seq!['a', 't', 'o', 'm', ':', 'b', 't', 'c', ':']
}

fn starts_with_atom(s: &str) -> (r: bool)
    ensures
        r == is_atom_urn(s@),
{
    let chars = chars_of(s);
    let prefix = vec!['a', 't', 'o', 'm', ':', 'b', 't', 'c', ':'];
    if chars.len() < 9 {
        return false;
    }
    let mut i: usize = 0;
    while i < 9
        invariant
            i <= 9,
            chars@.len() >= 9,
            chars@ == s@,
            prefix@ == seq!['a', 't', 'o', 'm', ':', 'b', 't', 'c', ':'],
            forall|k: int| 0 <= k < i ==> chars@[k] == prefix@[k],
        decreases 9 - i,
    {
        if chars[i] != prefix[i] {
            assert(chars@.subrange(0, 9)[i as int] != prefix@[i as int]);
            assert(chars@.subrange(0, 9) != prefix@);
            return false;
        }
        i += 1;
    }
    assert(chars@.subrange(0, 9) =~= prefix@);
    true
}

/// The media type of a stored field: the one it declares in `$ct` when that
/// parses, else the one guessed from the field's name.
pub open spec fn field_media_type(declared: Option<Json>, field: Seq<char>) -> Seq<char> {
    match declared {
        Some(d) => match json_str(d) {
            Some(text) => match parsed_media_type(text) {
                Some(m) => m,
                None => guessed_media_type(field),
            },
            None => guessed_media_type(field),
        },
        None => guessed_media_type(field),
    }
}

/// What the field `f` of an atomical's latest state answers: the bytes it
/// stores as hex text under `$b.$b`, or "No field found: f".
pub open spec fn state_field_outcome(state: Json, f: Seq<char>) -> Outcome {
    match object_only(get_in(json_get(state, f), "$b"@)) {
        Some(b) => match get_in(Some(b), "$b"@) {
            Some(h) => match json_str(h) {
                Some(text) => match hex_decode_spec(text) {
                    Some(bytes) => Outcome::Content(field_media_type(json_get(b, "$ct"@), f), bytes),
                    None => Outcome::Fault(Fault::BadHex),
                },
                None => Outcome::Error(no_field_text(f)),
            },
            None => Outcome::Error(no_field_text(f)),
        },
        None => Outcome::Error(no_field_text(f)),
    }
}

/// Where a `$` path redirects: the `dat` URN of the atomical's reveal
/// location, followed by `$` and the rest of the path.
pub open spec fn reveal_redirect(res: Json, rest: Seq<char>) -> Outcome {
    match json_get(res, "mint_info"@) {
        Some(mi) => if mi is Object {
            match json_get(mi, "reveal_location"@) {
                Some(loc) => match json_str(loc) {
                    Some(l) => Outcome::Redirect("/urn/atom:btc:dat:"@ + l + "$"@ + rest),
                    None => Outcome::Fault(Fault::MissingMintInfo),
                },
                None => Outcome::Fault(Fault::MissingMintInfo),
            }
        } else {
            Outcome::Fault(Fault::MissingMintInfo)
        },
        None => Outcome::Fault(Fault::MissingMintInfo),
    }
}

/// What the latest state of an atomical answers: a field that the path
/// names, a redirect to the URN of its image when the query asks for one,
/// or the state itself.
pub open spec fn latest_state_outcome(path: Option<Seq<char>>, query: Json, state: Json) -> Outcome {
    let field = match path {
        Some(p) => match strip_first(p) {
            None => Some(Outcome::Fault(Fault::BadPath)),
            Some(f) => if f.len() > 0 {
                Some(state_field_outcome(state, f))
            } else {
                None
            },
        },
        None => None,
    };
    match field {
        Some(o) => o,
        None => if !(query is Object) {
            Outcome::Fault(Fault::QueryNotObject)
        } else if json_get(query, "image"@) is Some && get_in(Some(state), "image"@) is Some
            && json_str(json_get(state, "image"@).unwrap()) is Some && is_atom_urn(
            json_str(json_get(state, "image"@).unwrap()).unwrap(),
        ) {
            Outcome::Redirect("/urn/"@ + json_str(json_get(state, "image"@).unwrap()).unwrap())
        } else {
            Outcome::Json(state)
        },
    }
}

/// What the state reply of an atomical answers for a URN with the given path.
pub open spec fn state_outcome(
    path_type: Option<Seq<char>>,
    path: Option<Seq<char>>,
    query: Json,
    response: Option<Json>,
) -> Outcome {
    match response {
        None => Outcome::Fault(Fault::MissingPayload),
        Some(v) => match object_only(json_get(v, "result"@)) {
            None => Outcome::Error("No result found"@),
            Some(res) => if path_type == Some("$"@) {
                match path {
                    Some(p) => match strip_first(p) {
                        Some(rest) => reveal_redirect(res, rest),
                        None => Outcome::Fault(Fault::BadPath),
                    },
                    None => reveal_redirect(res, Seq::empty()),
                }
            } else {
                match get_in(json_get(res, "state"@), "latest"@) {
                    Some(state) => latest_state_outcome(path, query, state),
                    None => Outcome::Error("No state found"@),
                }
            },
        },
    }
}

fn state_field_reply(state: &JsonValue, f: &str) -> (r: Result<UrnReply, Fault>)
    ensures
        delivers(r, state_field_outcome(state.model(), f@)),
{
    if let Some(v) = state.get(f) {
        if let Some(b) = v.get("$b") {
            if b.is_object() {
                if let Some(h) = b.get("$b") {
                    if let Some(text) = h.as_str() {
                        let bytes = match hex_decode(text.as_str()) {
                            Some(bytes) => bytes,
                            None => return Err(Fault::BadHex),
                        };
                        let media = match b.get("$ct") {
                            Some(d) => match d.as_str() {
                                Some(declared) => match parse_media_type(declared.as_str()) {
                                    Some(m) => m,
                                    None => guess_media_type(f),
                                },
                                None => guess_media_type(f),
                            },
                            None => guess_media_type(f),
                        };
                        return Ok(UrnReply::Content(media, bytes));
                    }
                }
            }
        }
    }
    Ok(UrnReply::Reply(no_field_reply(f)))
}

fn reveal_redirect_reply(res: &JsonValue, rest: &str) -> (r: Result<UrnReply, Fault>)
    ensures
        delivers(r, reveal_redirect(res.model(), rest@)),
{
    let mi = match res.get("mint_info") {
        Some(mi) => mi,
        None => return Err(Fault::MissingMintInfo),
    };
    if !mi.is_object() {
        return Err(Fault::MissingMintInfo);
    }
    let loc = match mi.get("reveal_location") {
        Some(loc) => match loc.as_str() {
            Some(l) => l,
            None => return Err(Fault::MissingMintInfo),
        },
        None => return Err(Fault::MissingMintInfo),
    };
    let mut target = "/urn/atom:btc:dat:".to_owned();
    target.append(loc.as_str());
    target.append("$");
    target.append(rest);
    Ok(UrnReply::Redirect(target))
}

fn latest_state_reply(path: &Option<String>, query: &JsonValue, state: &JsonValue) -> (r: Result<UrnReply, Fault>)
    ensures
        delivers(r, latest_state_outcome(opt_string_view(*path), query.model(), state.model())),
{
    if let Some(p) = path {
        let f = match strip_first_char(p.as_str()) {
            Some(f) => f,
            None => return Err(Fault::BadPath),
        };
        if !f.as_str().is_empty() {
            return state_field_reply(state, f.as_str());
        }
    }
    if !query.is_object() {
        return Err(Fault::QueryNotObject);
    }
    if query.has_member("image") {
        if let Some(image) = state.get("image") {
            if let Some(u) = image.as_str() {
                if starts_with_atom(u.as_str()) {
                    let mut target = "/urn/".to_owned();
                    target.append(u.as_str());
                    return Ok(UrnReply::Redirect(target));
                }
            }
        }
    }
    Ok(UrnReply::Json(state.duplicate()))
}

/// Whether `a` answers a URN from the reply to the call for the state of its
/// atomical: an unsuccessful reply is passed on as it is, a successful one
/// gives what [`state_outcome`] describes.
pub open spec fn answers_state(a: Result<UrnReply, Fault>, info: UrnInfo, query: JsonValue, reply: R) -> bool {
    &&& !reply.success ==> a == Ok::<UrnReply, Fault>(UrnReply::Reply(reply))
    &&& reply.success ==> delivers(
        a,
        state_outcome(
            opt_string_view(info.path_type),
            opt_string_view(info.path),
            query.model(),
            opt_model(reply.response),
        ),
    )
}

/// What the client receives once the state of the URN's atomical has been
/// read: an unsuccessful reply is passed on, otherwise what
/// [`state_outcome`] describes.
pub fn state_reply(info: &UrnInfo, query: &JsonValue, reply: R) -> (r: Result<UrnReply, Fault>)
    ensures
        answers_state(r, *info, *query, reply),
{
    if !reply.success {
        return Ok(UrnReply::Reply(reply));
    }
    let response = match &reply.response {
        Some(v) => v,
        None => return Err(Fault::MissingPayload),
    };
    let res = match response.get("result") {
        Some(res) => if res.is_object() {
            res
        } else {
            return Ok(UrnReply::Reply(error_reply("No result found")));
        },
        None => return Ok(UrnReply::Reply(error_reply("No result found"))),
    };
    let dollar = match &info.path_type {
        Some(t) => str_equal(t.as_str(), "$"),
        None => false,
    };
    if dollar {
        return match &info.path {
            Some(p) => match strip_first_char(p.as_str()) {
                Some(rest) => reveal_redirect_reply(res, rest.as_str()),
                None => Err(Fault::BadPath),
            },
            None => {
                let r = reveal_redirect_reply(res, "");
                proof {
                    reveal_strlit("");
                    assert(""@ =~= Seq::<char>::empty());
                }
                r
            },
        };
    }
    let state = match res.get("state") {
        Some(st) => st.get("latest"),
        None => None,
    };
    match state {
        Some(state) => latest_state_reply(&info.path, query, state),
        None => Ok(UrnReply::Reply(error_reply("No state found"))),
    }
}

/// How far answering a URN has come: its first upstream call has been
/// answered, or the call for the state of the atomical that a realm, a
/// container or a ticker names.
#[derive(Debug, PartialEq, Eq, Clone, Copy, Structural)]
pub enum UrnStage {
    First,
    State,
}

/// What answering a URN does next.
#[derive(Debug)]
pub enum UrnStep {
    /// Make this upstream call; its reply is taken at the `State` stage.
    Call(UpstreamCall),
    /// Send this to the client, or give up on the fault.
    Answer(Result<UrnReply, Fault>),
}

/// Answering a URN, one upstream reply at a time: from the decoded URN, the
/// stage reached and the reply just received, the next call or the answer.
/// A `dat` URN is answered from its transaction, an `id` URN from the state
/// of its atomical; a realm, container or ticker is first looked up, then
/// answered from the state of the atomical found.
pub fn urn_step(info: &UrnInfo, query: &JsonValue, stage: UrnStage, reply: R) -> (r: UrnStep)
    ensures
        stage == UrnStage::State || info.urn_type == UrnType::AtomicalId ==> (r matches UrnStep::Answer(a)
            && answers_state(a, *info, *query, reply)),
        stage == UrnStage::First && info.urn_type == UrnType::Dat ==> match tx_step_spec(
            reply.success,
            opt_model(reply.response),
        ) {
            TxStep::Forward => r matches UrnStep::Answer(a) && a == Ok::<UrnReply, Fault>(UrnReply::Reply(reply)),
            TxStep::Error(m) => r matches UrnStep::Answer(Ok(UrnReply::Reply(rr))) && is_error_reply(rr, -1i64, m),
            TxStep::Fault(f) => r matches UrnStep::Answer(a) && a == Err::<UrnReply, Fault>(f),
            TxStep::Payload(b) => r matches UrnStep::Answer(a) && match cbor_read(b) {
                None => a == Err::<UrnReply, Fault>(Fault::BadPayload),
                Some(c) => delivers(a, dat_outcome(opt_string_view(info.path), c)),
            },
        },
        stage == UrnStage::First && info.urn_type != UrnType::Dat && info.urn_type != UrnType::AtomicalId
            ==> match lookup_step_spec(reply.success, opt_model(reply.response)) {
            LookupStep::Forward => r matches UrnStep::Answer(a) && a == Ok::<UrnReply, Fault>(UrnReply::Reply(reply)),
            LookupStep::Error(m) => r matches UrnStep::Answer(Ok(UrnReply::Reply(rr))) && is_error_reply(rr, -1i64, m),
            LookupStep::Fault(f) => r matches UrnStep::Answer(a) && a == Err::<UrnReply, Fault>(f),
            LookupStep::Found(id) => r matches UrnStep::Call(c) && (c.method@, models(c.params@))
                == first_call_spec(UrnType::AtomicalId, id),
        },
{
    if stage == UrnStage::State || info.urn_type == UrnType::AtomicalId {
        return UrnStep::Answer(state_reply(info, query, reply));
    }
    if info.urn_type == UrnType::Dat {
        match dat_payload(reply) {
            Ok(DatPayload::Forward(r)) => UrnStep::Answer(Ok(UrnReply::Reply(r))),
            Ok(DatPayload::Reply(r)) => UrnStep::Answer(Ok(UrnReply::Reply(r))),
            Ok(DatPayload::Payload(bytes)) => UrnStep::Answer(dat_answer(&info.path, bytes.as_slice())),
            Err(f) => UrnStep::Answer(Err(f)),
        }
    } else {
        match lookup_result(reply) {
            Ok(Lookup::Forward(r)) => UrnStep::Answer(Ok(UrnReply::Reply(r))),
            Ok(Lookup::Reply(r)) => UrnStep::Answer(Ok(UrnReply::Reply(r))),
            Ok(Lookup::Found(id)) => UrnStep::Call(state_call(id)),
            Err(f) => UrnStep::Answer(Err(f)),
        }
    }
}

} // verus!
