use std::collections::hash_map::DefaultHasher;
use std::hash::{Hash, Hasher};
use elex_proxy::cache::{can_hash, to_cache_key};
use elex_proxy::config::{
    ip_limit_per_mills, is_listed, next_server, no_cache_methods, parse_unsigned_text, server_list,
    text_setting, u32_setting, u64_setting, usize_setting,
};
use elex_proxy::ip::{bare_quote_host, forwarded_client, forwarded_for_candidates, header_text};
use elex_proxy::json::{JsonNumber, JsonValue};
use elex_proxy::proxy::proxy_response;
use elex_proxy::text::{split_text, trim_text};

fn params() -> Vec<JsonValue> {
    vec![
        JsonValue::String("abc".to_string()),
        JsonValue::Number(JsonNumber::NegInt(-5)),
        JsonValue::Array(vec![JsonValue::Bool(true), JsonValue::Null]),
        JsonValue::Object(vec![("k".to_string(), JsonValue::Number(JsonNumber::PosInt(7)))]),
    ]
}

#[test]
fn cache_keys_depend_on_method_and_params() {
    let a = to_cache_key("server.version", &params());
    let b = to_cache_key("server.version", &params());
    assert_eq!(a, b);
    assert_ne!(a, to_cache_key("server.banner", &params()));
    assert_ne!(a, to_cache_key("server.version", &params()[..2]));
}

#[test]
fn cache_key_matches_the_standard_hashing_of_the_call() {
    let mut h = DefaultHasher::new();
    "m".hash(&mut h);
    "s".hash(&mut h);
    5i64.hash(&mut h);
    true.hash(&mut h);
    "null".hash(&mut h);
    let expected = h.finish();
    let p = vec![
        JsonValue::String("s".to_string()),
        JsonValue::Number(JsonNumber::PosInt(5)),
        JsonValue::Bool(true),
        JsonValue::Null,
    ];
    assert_eq!(to_cache_key("m", &p), expected);
}

#[test]
fn numbers_outside_i64_cannot_be_hashed() {
    assert!(can_hash(&params()));
    assert!(!can_hash(&[JsonValue::Number(JsonNumber::Float(1.5f64.to_bits()))]));
    assert!(!can_hash(&[JsonValue::Array(vec![JsonValue::Number(JsonNumber::PosInt(u64::MAX))])]));
    assert!(can_hash(&[JsonValue::Number(JsonNumber::PosInt(i64::MAX as u64))]));
}

#[test]
fn unsigned_parsing_follows_std() {
    for s in ["0", "42", "+7", "18446744073709551615", "", "+", "-1", " 1", "1a", "18446744073709551616"] {
        assert_eq!(parse_unsigned_text(s, u64::MAX), s.parse::<u64>().ok(), "{:?}", s);
    }
    assert_eq!(parse_unsigned_text("256", 255), None);
    assert_eq!(parse_unsigned_text("255", 255), Some(255));
}

#[test]
fn settings_use_their_defaults() {
    assert_eq!(u64_setting(&None, 10), Some(10));
    assert_eq!(u64_setting(&Some("25".to_string()), 10), Some(25));
    assert_eq!(u64_setting(&Some("x".to_string()), 10), None);
    assert_eq!(u32_setting(&Some("4294967296".to_string()), 1), None);
    assert_eq!(usize_setting(&None, 500), Some(500));
    assert_eq!(text_setting(&None, "0.0.0.0:12321"), "0.0.0.0:12321");
    assert_eq!(text_setting(&Some("h:1".to_string()), "0.0.0.0:12321"), "h:1");
}

#[test]
fn rate_limit_period() {
    assert_eq!(ip_limit_per_mills(&None, &None), Some(10));
    assert_eq!(ip_limit_per_mills(&Some("2".to_string()), &Some("5".to_string())), Some(2000));
    assert_eq!(ip_limit_per_mills(&Some("0".to_string()), &Some("5".to_string())), Some(5));
    assert_eq!(ip_limit_per_mills(&Some("x".to_string()), &None), None);
    assert_eq!(ip_limit_per_mills(&Some(u64::MAX.to_string()), &None), None);
}

#[test]
fn no_cache_method_list() {
    let defaults = no_cache_methods(&None);
    assert_eq!(defaults.len(), 10);
    assert!(is_listed(&defaults, "server.ping"));
    assert!(is_listed(&defaults, "blockchain.relayfee"));
    assert!(!is_listed(&defaults, "blockchain.transaction.get"));
    let custom = no_cache_methods(&Some(" a , b,,c ".to_string()));
    assert_eq!(custom, vec!["a", "b", "", "c"]);
}

#[test]
fn servers_are_taken_in_turn() {
    let list = server_list(&Some("wss://a,wss://b,wss://c".to_string()));
    assert_eq!(list, vec!["wss://a", "wss://b", "wss://c"]);
    assert_eq!(server_list(&None), vec!["wss://electrumx.atomicals.xyz:50012"]);
    let mut i = 0;
    let mut seen = vec![];
    for _ in 0..6 {
        seen.push(i);
        i = next_server(i, 3);
    }
    assert_eq!(seen, vec![0, 1, 2, 0, 1, 2]);
    assert_eq!(next_server(0, 1), 0);
}

#[test]
fn split_and_trim_follow_std() {
    for s in ["", ",", "a,b", ",a,", "a"] {
        let expected: Vec<String> = s.split(',').map(|x| x.to_string()).collect();
        assert_eq!(split_text(s, ','), expected);
    }
    for s in ["  x ", "\t\u{3000}y\u{a0}", "", "   ", "a b"] {
        assert_eq!(trim_text(s), s.trim());
    }
}

#[test]
fn header_values_as_text() {
    assert_eq!(header_text(b"1.2.3.4, 5.6.7.8").as_deref(), Some("1.2.3.4, 5.6.7.8"));
    assert_eq!(header_text(b"a\tb").as_deref(), Some("a\tb"));
    assert_eq!(header_text(&[0x31, 0x80]), None);
    assert_eq!(header_text(&[0x31, 0x0a]), None);
    assert_eq!(forwarded_for_candidates(b" 1.2.3.4 ,5.6.7.8"), vec!["1.2.3.4", "5.6.7.8"]);
    assert!(forwarded_for_candidates(&[0x7f]).is_empty());
}

#[test]
fn proxy_description() {
    let r = proxy_response("0.1.0".into(), "now".into(), "x86_64".into(), "1.80".into());
    assert!(r.success);
    assert_eq!(r.info.note, "Atomicals ElectrumX Digital Object Proxy Online");
    assert_eq!(r.info.health_check, "GET /proxy/health");
    assert_eq!(r.info.license, "MIT");
    assert_eq!(r.info.build.version, "0.1.0");
}

#[test]
fn forwarded_header_names_the_first_address() {
    assert_eq!(forwarded_client("for=192.0.2.60;proto=http;by=203.0.113.43").as_deref(), Some("192.0.2.60"));
    assert_eq!(forwarded_client("for=unknown, for=198.51.100.17").as_deref(), Some("198.51.100.17"));
    assert_eq!(forwarded_client("for=\"198.51.100.17:8080\"").as_deref(), Some("198.51.100.17"));
    assert_eq!(forwarded_client("for=\"[2001:db8:cafe::17]\"").as_deref(), Some("2001:db8:cafe::17"));
    assert_eq!(forwarded_client("for=_hidden, for=unknown"), None);
    assert_eq!(forwarded_client("proto=https"), None);
    assert_eq!(forwarded_client("for"), None);
}

#[test]
fn server_list_is_never_empty() {
    assert_eq!(server_list(&Some(String::new())), vec![String::new()]);
    assert_eq!(server_list(&None).len(), 1);
    assert_eq!(server_list(&Some("a,b".to_string())).len(), 2);
}

#[test]
fn forwarded_host_with_a_lone_quote_is_recognised() {
    assert!(bare_quote_host("for=192.0.2.60;host=\""));
    assert!(bare_quote_host(" for=1.2.3.4 , HoSt=\" ;proto=http"));
    assert!(!bare_quote_host("for=192.0.2.60;host=\"example.com\""));
    assert!(!bare_quote_host("for=192.0.2.60"));
    assert!(!bare_quote_host("host=\"\""));
}
