use elex_proxy::cbor::CborValue;
use elex_proxy::json::{JsonNumber, JsonValue};
use elex_proxy::rpc::{Fault, R};
use elex_proxy::urn::decode_urn;
use elex_proxy::urn_flow::{
    dat_answer, dat_payload, dat_reply, first_call, lookup_result, state_call, state_reply, urn_step, DatPayload, Lookup,
    UrnReply, UrnStage, UrnStep,
};

const TXID: &str = "1e9f7a7fd2e4ab9a2ab8bf7c8d1e1c0b3a2f4d5e6c7b8a9f0e1d2c3b4a5f6e7d";

fn text(s: &str) -> JsonValue {
    JsonValue::String(s.to_string())
}

fn object(members: Vec<(&str, JsonValue)>) -> JsonValue {
    JsonValue::Object(members.into_iter().map(|(k, v)| (k.to_string(), v)).collect())
}

fn message(r: &R) -> Option<String> {
    match &r.message {
        Some(JsonValue::String(s)) => Some(s.clone()),
        _ => None,
    }
}

fn push(data: &[u8]) -> Vec<u8> {
    let mut v = vec![data.len() as u8];
    v.extend_from_slice(data);
    v
}

fn reveal_script(marker: &[u8], payload: &[u8]) -> Vec<u8> {
    let mut s = push(&[7u8; 32]);
    s.push(0xac);
    s.push(0x00);
    s.push(0x63);
    s.extend(push(marker));
    s.extend(push(b"dat"));
    s.extend(push(payload));
    s.push(0x68);
    s
}

/// A segwit transaction with one input whose witness is [sig, script, control].
fn reveal_tx_hex(script: &[u8]) -> String {
    let mut tx = vec![2, 0, 0, 0, 0, 1, 1];
    tx.extend([0u8; 32]);
    tx.extend([0, 0, 0, 0, 0, 0xff, 0xff, 0xff, 0xff]);
    tx.push(1);
    tx.extend([0x22, 0x02, 0, 0, 0, 0, 0, 0, 0]);
    tx.push(3);
    tx.extend(push(&[1u8; 64]));
    tx.extend(push(script));
    tx.extend(push(&[0xc0u8; 33]));
    tx.extend([0, 0, 0, 0]);
    tx.iter().map(|b| format!("{:02x}", b)).collect()
}

#[test]
fn first_calls_per_urn_kind() {
    let dat = decode_urn(&format!("atom:btc:dat:{}i0/x", TXID)).unwrap();
    let call = first_call(&dat);
    assert_eq!(call.method, "blockchain.transaction.get");
    assert!(matches!(&call.params[..], [JsonValue::String(s)] if s == TXID));

    let id = decode_urn(&format!("atom:btc:id:{}i3", TXID)).unwrap();
    let call = first_call(&id);
    assert_eq!(call.method, "blockchain.atomicals.get_state");
    assert!(matches!(&call.params[..], [JsonValue::String(s), JsonValue::Bool(false)] if *s == format!("{}i3", TXID)));

    for (urn, method) in [
        ("atom:btc:realm:r", "blockchain.atomicals.get_by_realm"),
        ("atom:btc:container:c", "blockchain.atomicals.get_by_container"),
        ("atom:btc:arc:t", "blockchain.atomicals.get_by_ticker"),
    ] {
        let call = first_call(&decode_urn(urn).unwrap());
        assert_eq!(call.method, method);
        assert_eq!(call.params.len(), 1);
    }
    let call = state_call("abc".to_string());
    assert_eq!(call.method, "blockchain.atomicals.get_state");
}

#[test]
fn dat_payload_comes_from_the_envelope() {
    let hexed = reveal_tx_hex(&reveal_script(b"atom", &[0xa1, 0x61, b'n', 0x01]));
    match dat_payload(R::ok(text(&hexed))).unwrap() {
        DatPayload::Payload(p) => assert_eq!(p, vec![0xa1, 0x61, b'n', 0x01]),
        other => panic!("unexpected {:?}", other),
    }
    let wrong = reveal_tx_hex(&reveal_script(b"nope", &[0x01]));
    match dat_payload(R::ok(text(&wrong))).unwrap() {
        DatPayload::Reply(r) => assert_eq!(message(&r).as_deref(), Some("ATOMICALS_PROTOCOL_ENVELOPE_ID not matched")),
        other => panic!("unexpected {:?}", other),
    }
}

#[test]
fn dat_payload_of_an_unreadable_script_is_a_fault() {
    let mut script = reveal_script(b"atom", &[1]);
    script.truncate(script.len() - 1);
    script.extend([0x4c, 0x05, 0x01]);
    assert_eq!(dat_payload(R::ok(text(&reveal_tx_hex(&script)))).unwrap_err(), Fault::BadScript);
}

#[test]
fn dat_payload_without_second_witness_item_is_empty() {
    let mut tx = vec![2, 0, 0, 0, 0, 1, 1];
    tx.extend([0u8; 32]);
    tx.extend([0, 0, 0, 0, 0, 0xff, 0xff, 0xff, 0xff]);
    tx.push(1);
    tx.extend([0x22, 0x02, 0, 0, 0, 0, 0, 0, 0]);
    tx.push(1);
    tx.extend(push(&[1u8; 64]));
    tx.extend([0, 0, 0, 0]);
    let hexed: String = tx.iter().map(|b| format!("{:02X}", b)).collect();
    assert!(matches!(dat_payload(R::ok(text(&hexed))).unwrap(), DatPayload::Payload(p) if p.is_empty()));
}

#[test]
fn dat_payload_faults_and_forwarding() {
    assert_eq!(dat_payload(R::ok(text("zz"))).unwrap_err(), Fault::BadTransaction);
    assert_eq!(dat_payload(R::ok(text("00"))).unwrap_err(), Fault::BadTransaction);
    assert_eq!(dat_payload(R::ok(JsonValue::Null)).unwrap_err(), Fault::UnexpectedPayload);
    let failed = R::error(-32000, "missing".to_string());
    assert!(matches!(dat_payload(failed).unwrap(), DatPayload::Forward(r) if !r.success));
}

fn cbor_text(s: &str) -> CborValue {
    CborValue::Text(s.to_string())
}

#[test]
fn dat_reply_serves_a_named_field() {
    let cbor = CborValue::Mapping(vec![
        (cbor_text("args"), CborValue::Integer(1)),
        (cbor_text("image.png"), CborValue::Mapping(vec![(cbor_text("$b"), CborValue::Bytes(vec![1, 2, 3]))])),
    ]);
    match dat_reply(&Some("/image.png".to_string()), &cbor).unwrap() {
        UrnReply::Content(media, body) => {
            assert_eq!(media, "image/png");
            assert_eq!(body, vec![1, 2, 3]);
        }
        other => panic!("unexpected {:?}", other),
    }
    match dat_reply(&Some("/missing".to_string()), &cbor).unwrap() {
        UrnReply::Reply(r) => assert_eq!(message(&r).as_deref(), Some("No field found: missing")),
        other => panic!("unexpected {:?}", other),
    }
    match dat_reply(&None, &cbor).unwrap() {
        UrnReply::Json(JsonValue::Object(m)) => assert_eq!(m.len(), 2),
        other => panic!("unexpected {:?}", other),
    }
    match dat_reply(&Some("/".to_string()), &cbor).unwrap() {
        UrnReply::Json(_) => {}
        other => panic!("unexpected {:?}", other),
    }
    assert_eq!(dat_reply(&Some("/x".to_string()), &CborValue::Null).unwrap_err(), Fault::UnexpectedPayload);
    assert_eq!(dat_reply(&Some("éx".to_string()), &cbor).unwrap_err(), Fault::BadPath);
}

#[test]
fn dat_answer_reads_the_payload_as_cbor() {
    let mut payload = vec![0xa1, 0x69];
    payload.extend_from_slice(b"image.png");
    payload.extend_from_slice(&[0xa1, 0x62, b'$', b'b', 0x43, 1, 2, 3]);
    match dat_answer(&Some("/image.png".to_string()), &payload).unwrap() {
        UrnReply::Content(media, body) => {
            assert_eq!(media, "image/png");
            assert_eq!(body, vec![1, 2, 3]);
        }
        other => panic!("unexpected {:?}", other),
    }
    match dat_answer(&None, &payload).unwrap() {
        UrnReply::Json(JsonValue::Object(m)) => {
            assert_eq!(m.len(), 1);
            assert!(matches!(&m[0].1, JsonValue::Object(inner) if matches!(&inner[0].1, JsonValue::String(h) if h == "010203")));
        }
        other => panic!("unexpected {:?}", other),
    }
    assert_eq!(dat_answer(&None, &[]).unwrap_err(), Fault::BadPayload);
    assert_eq!(dat_answer(&None, &[0xff]).unwrap_err(), Fault::BadPayload);
    match dat_answer(&None, &[0x18, 0x2a]).unwrap() {
        UrnReply::Json(JsonValue::Number(JsonNumber::PosInt(42))) => {}
        other => panic!("unexpected {:?}", other),
    }
}

#[test]
fn lookup_names_the_atomical() {
    let found = R::ok(object(vec![("result", object(vec![("atomical_id", text("abci0"))]))]));
    assert!(matches!(lookup_result(found).unwrap(), Lookup::Found(s) if s == "abci0"));
    let missing = R::ok(object(vec![("result", JsonValue::Null)]));
    match lookup_result(missing).unwrap() {
        Lookup::Reply(r) => assert_eq!(message(&r).as_deref(), Some("Not atomical found")),
        other => panic!("unexpected {:?}", other),
    }
    assert!(matches!(lookup_result(R::error(1, "x".into())).unwrap(), Lookup::Forward(_)));
}

fn state(latest: JsonValue) -> R {
    R::ok(object(vec![(
        "result",
        object(vec![
            ("mint_info", object(vec![("reveal_location", text("beefi0"))])),
            ("state", object(vec![("latest", latest)])),
        ]),
    )]))
}

#[test]
fn state_reply_cases() {
    let query = object(vec![]);
    let latest = object(vec![
        ("avatar.png", object(vec![("$b", object(vec![("$b", text("0a0b")), ("$ct", text("image/webp"))]))])),
        ("logo", object(vec![("$b", object(vec![("$b", text("ff"))]))])),
        ("image", text("atom:btc:dat:beefi0/img.png")),
    ]);
    let dup = |v: &JsonValue| v.duplicate();

    let info = decode_urn("atom:btc:realm:r/avatar.png").unwrap();
    match state_reply(&info, &query, state(dup(&latest))).unwrap() {
        UrnReply::Content(media, body) => {
            assert_eq!(media, "image/webp");
            assert_eq!(body, vec![0x0a, 0x0b]);
        }
        other => panic!("unexpected {:?}", other),
    }

    let info = decode_urn("atom:btc:realm:r/logo").unwrap();
    match state_reply(&info, &query, state(dup(&latest))).unwrap() {
        UrnReply::Content(media, body) => {
            assert_eq!(media, "application/octet-stream");
            assert_eq!(body, vec![0xff]);
        }
        other => panic!("unexpected {:?}", other),
    }

    let odd_type = state(object(vec![(
        "pic.png",
        object(vec![("$b", object(vec![("$b", text("01")), ("$ct", text("not a media type"))]))]),
    )]));
    let info = decode_urn("atom:btc:realm:r/pic.png").unwrap();
    match state_reply(&info, &query, odd_type).unwrap() {
        UrnReply::Content(media, body) => {
            assert_eq!(media, "image/png");
            assert_eq!(body, vec![1]);
        }
        other => panic!("unexpected {:?}", other),
    }

    let info = decode_urn("atom:btc:realm:r/none").unwrap();
    match state_reply(&info, &query, state(dup(&latest))).unwrap() {
        UrnReply::Reply(r) => assert_eq!(message(&r).as_deref(), Some("No field found: none")),
        other => panic!("unexpected {:?}", other),
    }

    let info = decode_urn("atom:btc:realm:r$/img.png").unwrap();
    match state_reply(&info, &query, state(dup(&latest))).unwrap() {
        UrnReply::Redirect(to) => assert_eq!(to, "/urn/atom:btc:dat:beefi0$/img.png"),
        other => panic!("unexpected {:?}", other),
    }

    let info = decode_urn("atom:btc:realm:r").unwrap();
    let with_image = object(vec![("image", text(""))]);
    match state_reply(&info, &with_image, state(dup(&latest))).unwrap() {
        UrnReply::Redirect(to) => assert_eq!(to, "/urn/atom:btc:dat:beefi0/img.png"),
        other => panic!("unexpected {:?}", other),
    }
    match state_reply(&info, &query, state(dup(&latest))).unwrap() {
        UrnReply::Json(JsonValue::Object(m)) => assert_eq!(m.len(), 3),
        other => panic!("unexpected {:?}", other),
    }
    assert_eq!(state_reply(&info, &JsonValue::Null, state(dup(&latest))).unwrap_err(), Fault::QueryNotObject);
}

#[test]
fn state_reply_without_result_or_state() {
    let info = decode_urn("atom:btc:realm:r").unwrap();
    let query = object(vec![]);
    let no_result = R::ok(object(vec![]));
    match state_reply(&info, &query, no_result).unwrap() {
        UrnReply::Reply(r) => assert_eq!(message(&r).as_deref(), Some("No result found")),
        other => panic!("unexpected {:?}", other),
    }
    let no_state = R::ok(object(vec![("result", object(vec![]))]));
    match state_reply(&info, &query, no_state).unwrap() {
        UrnReply::Reply(r) => assert_eq!(message(&r).as_deref(), Some("No state found")),
        other => panic!("unexpected {:?}", other),
    }
    let bad_hex = state(object(vec![("f", object(vec![("$b", object(vec![("$b", text("xyz"))]))]))]));
    let info = decode_urn("atom:btc:realm:r/f").unwrap();
    assert_eq!(state_reply(&info, &query, bad_hex).unwrap_err(), Fault::BadHex);
    let failed = R::error(-1, "down".into());
    assert!(matches!(state_reply(&info, &query, failed).unwrap(), UrnReply::Reply(r) if !r.success));
    let _ = JsonNumber::PosInt(0);
}

#[test]
fn urn_step_looks_up_then_answers_from_the_state() {
    let info = decode_urn("atom:btc:realm:abc").unwrap();
    let query = object(vec![]);
    let found = R::ok(object(vec![("result", object(vec![("atomical_id", text("abci0"))]))]));
    match urn_step(&info, &query, UrnStage::First, found) {
        UrnStep::Call(c) => {
            assert_eq!(c.method, "blockchain.atomicals.get_state");
            assert!(matches!(&c.params[0], JsonValue::String(s) if s == "abci0"));
        }
        other => panic!("unexpected {:?}", other),
    }
    let failed = R::error(-32000, "gone".to_string());
    match urn_step(&info, &query, UrnStage::State, failed) {
        UrnStep::Answer(Ok(UrnReply::Reply(r))) => assert!(!r.success),
        other => panic!("unexpected {:?}", other),
    }
    let dat = decode_urn(&format!("atom:btc:dat:{}i0", "ab".repeat(32))).unwrap();
    match urn_step(&dat, &query, UrnStage::First, R::ok(JsonValue::Null)) {
        UrnStep::Answer(Err(f)) => assert_eq!(f, Fault::UnexpectedPayload),
        other => panic!("unexpected {:?}", other),
    }
}
