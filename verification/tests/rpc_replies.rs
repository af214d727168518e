use elex_proxy::ids::get_next_id;
use elex_proxy::json::{JsonNumber, JsonValue};
use elex_proxy::rpc::{
    answer_is_readable, body_params, conclude_call, get_params, health_reply, post_params, query_params, random_callback, reply_for, route_answer,
    text_params, timeout_reply, AppError, Fault, JsonRpcResponse, PendingCalls, R,
};

fn text(s: &str) -> JsonValue {
    JsonValue::String(s.to_string())
}

fn object(members: Vec<(&str, JsonValue)>) -> JsonValue {
    JsonValue::Object(members.into_iter().map(|(k, v)| (k.to_string(), v)).collect())
}

fn number(value: &Option<JsonValue>) -> Option<JsonNumber> {
    match value {
        Some(JsonValue::Number(n)) => Some(*n),
        _ => None,
    }
}

fn string(value: &Option<JsonValue>) -> Option<String> {
    match value {
        Some(JsonValue::String(s)) => Some(s.clone()),
        _ => None,
    }
}

#[test]
fn ids_count_up_and_restart_before_the_maximum() {
    let mut counter = 7u32;
    assert_eq!(get_next_id(&mut counter), 7);
    assert_eq!(get_next_id(&mut counter), 8);
    assert_eq!(counter, 9);
    let mut counter = u32::MAX - 1;
    assert_eq!(get_next_id(&mut counter), u32::MAX - 1);
    assert_eq!(counter, u32::MAX);
    assert_eq!(get_next_id(&mut counter), 0);
    assert_eq!(counter, 1);
}

#[test]
fn error_reply_carries_code_and_message() {
    let r = R::error(-1, "boom".to_string());
    assert!(!r.success);
    assert_eq!(number(&r.code), Some(JsonNumber::NegInt(-1)));
    assert_eq!(string(&r.message).as_deref(), Some("boom"));
    assert!(r.response.is_none() && r.health.is_none() && r.cache.is_none());
    let positive = R::error(5, "x".to_string());
    assert_eq!(number(&positive.code), Some(JsonNumber::PosInt(5)));
}

#[test]
fn ok_and_health_replies() {
    let r = R::ok(text("payload"));
    assert!(r.success);
    assert_eq!(string(&r.response).as_deref(), Some("payload"));
    let h = R::health(false);
    assert!(h.success);
    assert_eq!(h.health, Some(false));
}

#[test]
fn result_wins_over_error() {
    let rep = JsonRpcResponse { result: Some(text("r")), error: Some(text("e")), id: 1 };
    let r = reply_for(rep);
    assert!(r.success);
    assert_eq!(string(&r.response).as_deref(), Some("r"));
}

#[test]
fn upstream_error_fields_are_passed_on() {
    let err = object(vec![
        ("code", JsonValue::Number(JsonNumber::NegInt(-32600))),
        ("message", text("bad request")),
    ]);
    let r = reply_for(JsonRpcResponse { result: None, error: Some(err), id: 2 });
    assert!(!r.success);
    assert_eq!(number(&r.code), Some(JsonNumber::NegInt(-32600)));
    assert_eq!(string(&r.message).as_deref(), Some("bad request"));
    assert!(r.response.is_none());
}

#[test]
fn upstream_error_without_fields_leaves_them_out() {
    let r = reply_for(JsonRpcResponse { result: None, error: Some(object(vec![])), id: 2 });
    assert!(!r.success);
    assert!(r.code.is_none() && r.message.is_none());
}

#[test]
fn upstream_error_that_is_not_an_object_is_unreadable() {
    assert!(!answer_is_readable(&JsonRpcResponse { result: None, error: Some(text("oops")), id: 3 }));
    assert!(!answer_is_readable(&JsonRpcResponse { result: None, error: Some(JsonValue::Null), id: 3 }));
    assert!(answer_is_readable(&JsonRpcResponse { result: None, error: Some(object(vec![])), id: 3 }));
    assert!(answer_is_readable(&JsonRpcResponse { result: Some(JsonValue::Null), error: Some(text("e")), id: 3 }));
    assert!(answer_is_readable(&JsonRpcResponse { result: None, error: None, id: 3 }));
}

#[test]
fn empty_answer_is_no_response() {
    let r = reply_for(JsonRpcResponse { result: None, error: None, id: 4 });
    assert_eq!(string(&r.message).as_deref(), Some("No response"));
    assert_eq!(number(&r.code), Some(JsonNumber::NegInt(-1)));
}

#[test]
fn timeout_and_app_error_replies() {
    let t = timeout_reply();
    assert_eq!(string(&t.message).as_deref(), Some("Response timeout"));
    let e = AppError { message: "Invalid URN".to_string() }.to_reply();
    assert_eq!(string(&e.message).as_deref(), Some("Invalid URN"));
    assert_eq!(number(&e.code), Some(JsonNumber::NegInt(-1)));
}

#[test]
fn health_follows_the_result() {
    let up = JsonRpcResponse { result: Some(JsonValue::Null), error: None, id: 1 };
    assert_eq!(health_reply(&up).health, Some(true));
    let down = JsonRpcResponse { result: None, error: Some(object(vec![])), id: 1 };
    assert_eq!(health_reply(&down).health, Some(false));
}

#[test]
fn query_params_cases() {
    assert_eq!(get_params(&object(vec![])).unwrap().len(), 0);
    let q = object(vec![("params", text("[\"a\", 7]"))]);
    let params = get_params(&q).unwrap();
    assert_eq!(params.len(), 2);
    assert!(matches!(&params[0], JsonValue::String(s) if s == "a"));
    assert!(matches!(&params[1], JsonValue::Number(JsonNumber::PosInt(7))));
    assert_eq!(query_params(&q).len(), 2);
    let empty = object(vec![("params", text(""))]);
    assert_eq!(get_params(&empty).unwrap().len(), 0);
    let bad = object(vec![("params", JsonValue::Bool(true))]);
    assert_eq!(get_params(&bad).unwrap_err(), Fault::ParamsNotString);
    let not_json = object(vec![("params", text("[1,"))]);
    assert_eq!(get_params(&not_json).unwrap_err(), Fault::ParamsNotJson);
    let not_array = object(vec![("params", text("{\"a\": 1}"))]);
    assert_eq!(get_params(&not_array).unwrap_err(), Fault::ParamsNotJson);
    let word = object(vec![("params", text("abc"))]);
    assert_eq!(get_params(&word).unwrap_err(), Fault::ParamsNotJson);
}

#[test]
fn text_params_read_json_arrays() {
    let params = text_params("[-3, 1.5, null, [true], {\"k\": \"v\"}]");
    assert_eq!(params.len(), 5);
    assert!(matches!(&params[0], JsonValue::Number(JsonNumber::NegInt(-3))));
    assert!(matches!(&params[1], JsonValue::Number(JsonNumber::Float(b)) if *b == 1.5f64.to_bits()));
    assert!(matches!(&params[2], JsonValue::Null));
    assert!(matches!(&params[3], JsonValue::Array(v) if v.len() == 1));
    assert!(matches!(&params[4], JsonValue::Object(m) if m.len() == 1 && m[0].0 == "k"));
    assert_eq!(text_params("").len(), 0);
    assert_eq!(get_params(&object(vec![("params", text("5"))])).unwrap_err(), Fault::ParamsNotJson);
}

#[test]
fn body_params_cases() {
    assert_eq!(post_params(None).unwrap().len(), 0);
    assert_eq!(post_params(Some(&object(vec![]))).unwrap().len(), 0);
    let body = object(vec![("params", JsonValue::Array(vec![text("x"), JsonValue::Bool(false)]))]);
    let params = post_params(Some(&body)).unwrap();
    assert_eq!(params.len(), 2);
    assert!(matches!(&params[0], JsonValue::String(s) if s == "x"));
    assert_eq!(body_params(Some(&body)).len(), 2);
    let bad = object(vec![("params", JsonValue::Bool(true))]);
    assert_eq!(post_params(Some(&bad)).unwrap_err(), Fault::ParamsNotArray);
    let not_json = object(vec![("params", text("x"))]);
    assert_eq!(post_params(Some(&not_json)).unwrap_err(), Fault::ParamsNotJson);
    let empty = object(vec![("params", text(""))]);
    assert_eq!(post_params(Some(&empty)).unwrap().len(), 0);
}

#[test]
fn post_params_may_be_a_string_encoded_array() {
    let body = object(vec![("params", text("[\"value1\"]"))]);
    let params = post_params(Some(&body)).unwrap();
    assert_eq!(params.len(), 1);
    assert!(matches!(&params[0], JsonValue::String(s) if s == "value1"));
}

#[test]
fn random_callback_picks_a_member() {
    let items = vec![10, 20, 30];
    for _ in 0..50 {
        let x = *random_callback(&items);
        assert!(items.contains(&x));
    }
    assert_eq!(*random_callback(&[42]), 42);
}

#[test]
fn answers_reach_their_waiters_once() {
    let mut pending: PendingCalls<&str> = PendingCalls::new();
    pending.register(1, "first");
    pending.register(2, "second");
    assert!(pending.is_pending(1));
    let answer = JsonRpcResponse { result: Some(JsonValue::Null), error: None, id: 2 };
    let (waiter, answer) = route_answer(&mut pending, answer).unwrap();
    assert_eq!(waiter, "second");
    assert_eq!(answer.id, 2);
    assert!(!pending.is_pending(2));
    assert!(pending.is_pending(1));
    let again = JsonRpcResponse { result: None, error: None, id: 2 };
    assert!(route_answer(&mut pending, again).is_none());
    assert_eq!(pending.take(1), Some("first"));
    assert_eq!(pending.take(1), None);
}

#[test]
fn concluding_a_call_withdraws_it() {
    let mut pending: PendingCalls<u8> = PendingCalls::new();
    pending.register(9, 1);
    let r = conclude_call(&mut pending, 9, None);
    assert_eq!(string(&r.message).as_deref(), Some("Response timeout"));
    assert!(!pending.is_pending(9));
    pending.register(10, 2);
    let answer = JsonRpcResponse { result: Some(text("ok")), error: None, id: 10 };
    let r = conclude_call(&mut pending, 10, Some(answer));
    assert!(r.success);
    assert!(!pending.is_pending(10));
}

#[test]
fn ids_handed_out_in_a_row_are_distinct() {
    let mut counter = u32::MAX - 3;
    let mut seen = std::collections::HashSet::new();
    for _ in 0..10 {
        assert!(seen.insert(get_next_id(&mut counter)));
    }
    assert!(!seen.contains(&u32::MAX));
}
