//! JSON-RPC exchanges with the upstream server and the replies the proxy
//! gives its own clients.

use vstd::prelude::*;
use crate::json::{Json, JsonNumber, JsonValue, json_get, json_str, number_from_i64};
use crate::json::{json_array_read, models, read_json_array};
use std::collections::HashMap;
use rand::Rng;

verus! {

/// A request sent upstream.
#[derive(Debug)]
pub struct JsonRpcRequest {
    pub method: String,
    pub params: Vec<JsonValue>,
    pub id: Option<u32>,
}

/// A reply received from upstream.
#[derive(Debug)]
pub struct JsonRpcResponse {
    pub result: Option<JsonValue>,
    pub error: Option<JsonValue>,
    pub id: u32,
}

/// The reply the proxy gives its clients. Absent fields are left out when it
/// is written as JSON.
#[derive(Debug)]
pub struct R {
    pub success: bool,
    pub response: Option<JsonValue>,
    pub code: Option<JsonValue>,
    pub message: Option<JsonValue>,
    pub health: Option<bool>,
    pub cache: Option<bool>,
}

/// An internal error, answered with HTTP status 500 and `R::error(-1, message)`.
#[derive(Debug)]
pub struct AppError {
    pub message: String,
}

/// A point at which the proxy gives up on a request because something it
/// received does not have the shape it relies on; such a request is answered
/// with HTTP status 500.
#[derive(Debug, PartialEq, Eq, Clone, Copy, Structural)]
pub enum Fault {
    /// A `params` query argument that is not a string.
    ParamsNotString,
    /// A `params` body member that is neither an array nor a string.
    ParamsNotArray,
    /// Parameters given as text that does not hold a JSON array.
    ParamsNotJson,
    /// A query string that is not read as a JSON object.
    QueryNotObject,
    /// A successful reply without a payload.
    MissingPayload,
    /// A payload that is not of the expected JSON type.
    UnexpectedPayload,
    /// A transaction that cannot be decoded.
    BadTransaction,
    /// A transaction without inputs.
    NoInput,
    /// A witness script that cannot be read, or an envelope item that is not
    /// a data push.
    BadScript,
    /// An envelope whose payload is not CBOR, or whose CBOR cannot be shown as JSON.
    BadPayload,
    /// A path that does not start with an ASCII character.
    BadPath,
    /// A state without mint information.
    MissingMintInfo,
    /// Hex text that cannot be decoded.
    BadHex,
}

pub open spec fn opt_model(o: Option<JsonValue>) -> Option<Json> {
    match o {
        Some(v) => Some(v.model()),
        None => None,
    }
}

/// `R::error(code, message)` in the model: an unsuccessful reply with that
/// code and message.
pub open spec fn is_error_reply(r: R, code: i64, message: Seq<char>) -> bool {
    &&& !r.success
    &&& r.response is None
    &&& opt_model(r.code) == Some(Json::Number(number_from_i64(code)))
    &&& opt_model(r.message) == Some(Json::Str(message))
    &&& r.health is None
    &&& r.cache is None
}

/// `R::ok(payload)` in the model.
pub open spec fn is_ok_reply(r: R, payload: Json) -> bool {
    &&& r.success
    &&& opt_model(r.response) == Some(payload)
    &&& r.code is None
    &&& r.message is None
    &&& r.health is None
    &&& r.cache is None
}

/// The message of a reply to an answer with neither result nor error.
pub open spec fn no_response_text() -> Seq<char> {
    "No response"@
}

/// The message of a reply to a request that upstream has not answered in time.
pub open spec fn timeout_text() -> Seq<char> {
    "Response timeout"@
}

impl R {
    /// A successful reply carrying `payload`.
    pub fn ok(payload: JsonValue) -> (r: R)
        ensures
            is_ok_reply(r, payload.model()),
            r.response == Some(payload),
    {
        R { success: true, response: Some(payload), code: None, message: None, health: None, cache: None }
    }

    /// An unsuccessful reply with a numeric code and a message.
    pub fn error(code: i32, message: String) -> (r: R)
        ensures
            is_error_reply(r, code as i64, message@),
    {
        R {
            success: false,
            response: None,
            code: Some(JsonValue::Number(JsonNumber::from_i64(code as i64))),
            message: Some(JsonValue::String(message)),
            health: None,
            cache: None,
        }
    }

    /// A health report.
    pub fn health(health: bool) -> (r: R)
        ensures
            r.success,
            r.response is None,
            r.code is None,
            r.message is None,
            r.health == Some(health),
            r.cache is None,
    {
        R { success: true, response: None, code: None, message: None, health: Some(health), cache: None }
    }
}

impl AppError {
    /// The reply body for this error: `R::error(-1, message)`.
    pub fn to_reply(&self) -> (r: R)
        ensures
            is_error_reply(r, -1i64, self.message@),
    {
        R::error(-1, self.message.clone())
    }
}

/// Whether an upstream answer can be turned into a reply: it carries a
/// result, or no error, or an error that is a JSON object.
pub open spec fn readable_answer(result: Option<Json>, error: Option<Json>) -> bool {
    result is Some || error is None || error matches Some(Json::Object(_))
}

/// The reply for a readable upstream answer, as (success, response, code,
/// message): its result when there is one, else its error's `code` and
/// `message` members, else the error "No response".
pub open spec fn reply_for_spec(result: Option<Json>, error: Option<Json>) -> (bool, Option<Json>, Option<Json>, Option<Json>) {
    match result {
        Some(v) => (true, Some(v), None, None),
        None => match error {
            Some(e) => (false, None, json_get(e, "code"@), json_get(e, "message"@)),
            None => (false, None, Some(Json::Number(JsonNumber::NegInt(-1i64))), Some(Json::Str(no_response_text()))),
        },
    }
}

/// Whether `reply` is what [`reply_for_spec`] gives for `response`.
pub open spec fn is_reply_for(reply: R, response: JsonRpcResponse) -> bool {
    let (success, payload, code, message) = reply_for_spec(opt_model(response.result), opt_model(response.error));
    &&& reply.success == success
    &&& opt_model(reply.response) == payload
    &&& opt_model(reply.code) == code
    &&& opt_model(reply.message) == message
    &&& reply.health is None
    &&& reply.cache is None
}

/// Whether an upstream answer can be turned into a reply, as
/// [`readable_answer`] tells; an answer that cannot is one the proxy gives
/// up on.
pub fn answer_is_readable(response: &JsonRpcResponse) -> (r: bool)
    ensures
        r == readable_answer(opt_model(response.result), opt_model(response.error)),
{
    match &response.result {
        Some(_) => true,
        None => match &response.error {
            Some(err) => err.is_object(),
            None => true,
        },
    }
}

/// Turns a readable upstream answer into the reply for the client.
pub fn reply_for(response: JsonRpcResponse) -> (r: R)
    requires
        readable_answer(opt_model(response.result), opt_model(response.error)),
    ensures
        is_reply_for(r, response),
{
    match response.result {
        Some(result) => R::ok(result),
        None => match response.error {
            Some(err) => {
                let code = match err.get("code") {
                    Some(v) => Some(v.duplicate()),
                    None => None,
                };
                let message = match err.get("message") {
                    Some(v) => Some(v.duplicate()),
                    None => None,
                };
                R { success: false, response: None, code, message, health: None, cache: None }
            },
            None => R::error(-1, "No response".to_owned()),
        },
    }
}

/// The reply when upstream has not answered in time: `R::error(-1, "Response timeout")`.
pub fn timeout_reply() -> (r: R)
    ensures
        is_error_reply(r, -1i64, timeout_text()),
{
    R::error(-1, "Response timeout".to_owned())
}

/// The health report for an upstream answer: healthy when it carries a result.
pub fn health_reply(response: &JsonRpcResponse) -> (r: R)
    ensures
        r.success,
        r.health == Some(response.result is Some),
        r.response is None && r.code is None && r.message is None && r.cache is None,
{
    R::health(response.result.is_some())
}


/// The JSON text that parameters given as the string `s` stand for: an
/// empty string means `[]`.
pub open spec fn params_text(s: Seq<char>) -> Seq<char> {
    if s.len() == 0 {
        "[]"@
    } else {
        s
    }
}

/// The parameters that the string `s` gives: the items of the JSON array in
/// [`params_text`]`(s)`; a fault when it holds no JSON array.
pub open spec fn text_params_spec(s: Seq<char>) -> Result<Seq<Json>, Fault> {
    match json_array_read(params_text(s)) {
        Some(items) => Ok(items),
        None => Err(Fault::ParamsNotJson),
    }
}

/// The fault of parameters given as the string `s`, when they are not a
/// JSON array; the parse is the one [`text_params`] makes.
fn text_params_fault(s: &str) -> (r: Option<Fault>)
    ensures
        r == (match text_params_spec(s@) {
            Ok(_) => None,
            Err(f) => Some(f),
        }),
{
    let read = if s.is_empty() {
        read_json_array("[]")
    } else {
        read_json_array(s)
    };
    match read {
        Some(_) => None,
        None => Some(Fault::ParamsNotJson),
    }
}

/// The parameters given as the string `s`, which must hold a JSON array, as
/// [`text_params_spec`] describes.
pub fn text_params(s: &str) -> (r: Vec<JsonValue>)
    requires
        text_params_spec(s@) is Ok,
    ensures
        text_params_spec(s@) == Ok::<Seq<Json>, Fault>(models(r@)),
{
    let read = if s.is_empty() {
        read_json_array("[]")
    } else {
        read_json_array(s)
    };
    match read {
        Some(items) => items,
        None => {
            proof {
                assert(false);
            }
            Vec::new()
        },
    }
}

/// The parameters of a GET request, from its `params` query argument: none
/// when it is absent, those its text gives when it is a string, and a fault
/// otherwise.
pub open spec fn query_params_spec(query: Json) -> Result<Seq<Json>, Fault> {
    match json_get(query, "params"@) {
        None => Ok(Seq::empty()),
        Some(v) => match json_str(v) {
            Some(s) => text_params_spec(s),
            None => Err(Fault::ParamsNotString),
        },
    }
}

/// The parameters that a GET request asks for, when it asks for readable ones.
pub fn query_params(query: &JsonValue) -> (r: Vec<JsonValue>)
    requires
        query_params_spec(query.model()) is Ok,
    ensures
        query_params_spec(query.model()) == Ok::<Seq<Json>, Fault>(models(r@)),
{
    match query.get("params") {
        None => Vec::new(),
        Some(v) => match v.as_str() {
            Some(s) => text_params(s.as_str()),
            None => Vec::new(),
        },
    }
}

/// The fault of a GET request's parameters, when they cannot be read.
fn query_params_fault(query: &JsonValue) -> (r: Option<Fault>)
    ensures
        r == (match query_params_spec(query.model()) {
            Ok(_) => None,
            Err(f) => Some(f),
        }),
{
    match query.get("params") {
        None => None,
        Some(v) => match v.as_str() {
            Some(s) => text_params_fault(s.as_str()),
            None => Some(Fault::ParamsNotString),
        },
    }
}

/// The parameters of a GET request, or the fault on which the proxy gives
/// up on it: [`query_params`] where they can be read.
pub fn get_params(query: &JsonValue) -> (r: Result<Vec<JsonValue>, Fault>)
    ensures
        match query_params_spec(query.model()) {
            Ok(items) => r matches Ok(v) && models(v@) == items,
            Err(f) => r == Err::<Vec<JsonValue>, Fault>(f),
        },
{
    match query_params_fault(query) {
        Some(f) => Err(f),
        None => Ok(query_params(query)),
    }
}

/// The parameters of a POST request: the `params` member of its body, an
/// array of them or a string read as a GET request's `params` is; none when
/// there is no body or no such member.
pub open spec fn body_params_spec(body: Option<Json>) -> Result<Seq<Json>, Fault> {
    match body {
        None => Ok(Seq::empty()),
        Some(b) => match json_get(b, "params"@) {
            None => Ok(Seq::empty()),
            Some(Json::Array(items)) => Ok(items),
            Some(Json::Str(s)) => text_params_spec(s),
            Some(_) => Err(Fault::ParamsNotArray),
        },
    }
}

/// The model of an optional body.
pub open spec fn body_model(body: Option<&JsonValue>) -> Option<Json> {
    match body {
        Some(b) => Some(b.model()),
        None => None,
    }
}

/// The parameters that a POST request carries in its body, when they can be read.
pub fn body_params(body: Option<&JsonValue>) -> (r: Vec<JsonValue>)
    requires
        body_params_spec(body_model(body)) is Ok,
    ensures
        body_params_spec(body_model(body)) == Ok::<Seq<Json>, Fault>(models(r@)),
{
    match body {
        None => Vec::new(),
        Some(b) => match b.get("params") {
            None => Vec::new(),
            Some(p) => match p {
                JsonValue::String(s) => text_params(s.as_str()),
                _ => match p.duplicate() {
                    JsonValue::Array(items) => items,
                    _ => Vec::new(),
                },
            },
        },
    }
}

/// The fault of a POST request's parameters, when they cannot be read.
fn body_params_fault(body: Option<&JsonValue>) -> (r: Option<Fault>)
    ensures
        r == (match body_params_spec(body_model(body)) {
            Ok(_) => None,
            Err(f) => Some(f),
        }),
{
    match body {
        None => None,
        Some(b) => match b.get("params") {
            None => None,
            Some(p) => match p {
                JsonValue::String(s) => text_params_fault(s.as_str()),
                JsonValue::Array(_) => None,
                _ => Some(Fault::ParamsNotArray),
            },
        },
    }
}

/// The parameters of a POST request, or the fault on which the proxy gives
/// up on it: [`body_params`] where they can be read.
pub fn post_params(body: Option<&JsonValue>) -> (r: Result<Vec<JsonValue>, Fault>)
    ensures
        match body_params_spec(body_model(body)) {
            Ok(items) => r matches Ok(v) && models(v@) == items,
            Err(f) => r == Err::<Vec<JsonValue>, Fault>(f),
        },
{
    match body_params_fault(body) {
        Some(f) => Err(f),
        None => Ok(body_params(body)),
    }
}

/// A uniformly drawn index below `len`
/// (`rand::thread_rng().gen_range(0..len)`); only its range is stated.
/// It panics when the operating system cannot seed the thread's generator.
#[verifier::external_body]
fn random_below(len: usize) -> (r: usize)
    requires
        len > 0,
    ensures
        r < len,
{
    rand::thread_rng().gen_range(0..len)
}

/// One of the upstream connections, drawn at random.
pub fn random_callback<T>(callbacks: &[T]) -> (r: &T)
    requires
        callbacks@.len() > 0,
    ensures
        exists|i: int| 0 <= i < callbacks@.len() && *r == callbacks@[i],
{
    let i = random_below(callbacks.len());
    &callbacks[i]
}

/// The pending requests after request `id` has been registered to hand its
/// answer to `waiter`.
pub open spec fn after_register<T>(pending: Map<u32, T>, id: u32, waiter: T) -> Map<u32, T> {
    pending.insert(id, waiter)
}

/// The pending requests after request `id` has been withdrawn.
pub open spec fn after_withdraw<T>(pending: Map<u32, T>, id: u32) -> Map<u32, T> {
    pending.remove(id)
}

/// The waiter of request `id`, when that request is pending.
pub open spec fn waiter_of<T>(pending: Map<u32, T>, id: u32) -> Option<T> {
    if pending.contains_key(id) {
        Some(pending[id])
    } else {
        None
    }
}

/// The requests sent upstream that still wait for their answer, by request
/// identifier, each with what delivers the answer to its waiter.
pub struct PendingCalls<T> {
    calls: HashMap<u32, T>,
}

impl<T> View for PendingCalls<T> {
    type V = Map<u32, T>;

    closed spec fn view(&self) -> Map<u32, T> {
        self.calls@
    }
}

impl<T> PendingCalls<T> {
    /// No pending request.
    pub fn new() -> (r: PendingCalls<T>)
        ensures
            r@ == Map::<u32, T>::empty(),
    {
        PendingCalls { calls: HashMap::new() }
    }

    /// Records that request `id` waits for its answer, to be handed to `waiter`.
    pub fn register(&mut self, id: u32, waiter: T)
        ensures
            final(self)@ == after_register(old(self)@, id, waiter),
    {
        broadcast use vstd::std_specs::hash::group_hash_axioms;
        self.calls.insert(id, waiter);
    }

    /// Takes the waiter of request `id` out, when that request is pending.
    pub fn take(&mut self, id: u32) -> (r: Option<T>)
        ensures
            final(self)@ == after_withdraw(old(self)@, id),
            r == waiter_of(old(self)@, id),
    {
        broadcast use vstd::std_specs::hash::group_hash_axioms;
        self.calls.remove(&id)
    }

    /// Whether request `id` is pending.
    pub fn is_pending(&self, id: u32) -> (r: bool)
        ensures
            r == self@.contains_key(id),
    {
        broadcast use vstd::std_specs::hash::group_hash_axioms;
        self.calls.contains_key(&id)
    }
}

/// Hands an upstream answer to the request that waits for it: the waiter of
/// the request with the answer's identifier, taken out of the pending set;
/// nothing when no such request is pending.
pub fn route_answer<T>(pending: &mut PendingCalls<T>, answer: JsonRpcResponse) -> (r: Option<(T, JsonRpcResponse)>)
    ensures
        final(pending)@ == after_withdraw(old(pending)@, answer.id),
        r == (match waiter_of(old(pending)@, answer.id) {
            Some(waiter) => Some((waiter, answer)),
            None => None,
        }),
{
    match pending.take(answer.id) {
        Some(waiter) => Some((waiter, answer)),
        None => None,
    }
}


/// Ends the wait for request `id`: with the upstream answer when one came,
/// the reply built from it; without one, the timeout reply. Either way the
/// request is withdrawn from the pending set (an answered request has
/// already been taken out by [`route_answer`]).
pub fn conclude_call<T>(pending: &mut PendingCalls<T>, id: u32, answer: Option<JsonRpcResponse>) -> (r: R)
    requires
        answer matches Some(a) ==> readable_answer(opt_model(a.result), opt_model(a.error)),
    ensures
        waiter_of(final(pending)@, id) is None,
        final(pending)@ == after_withdraw(old(pending)@, id),
        answer is None ==> is_error_reply(r, -1i64, timeout_text()),
        answer matches Some(a) ==> is_reply_for(r, a),
{
    pending.take(id);
    match answer {
        Some(a) => reply_for(a),
        None => timeout_reply(),
    }
}

} // verus!
