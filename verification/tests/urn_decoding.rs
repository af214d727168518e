use elex_proxy::urn::{decode_urn, UrnError, UrnType};

const TXID: &str = "1e9f7a7fd2e4ab9a2ab8bf7c8d1e1c0b3a2f4d5e6c7b8a9f0e1d2c3b4a5f6e7d";

#[test]
fn decodes_dat_urn_with_field_path() {
    let urn = format!("atom:btc:dat:{}i0/image.png", TXID);
    let info = decode_urn(&urn).unwrap();
    assert_eq!(info.urn_type, UrnType::Dat);
    assert_eq!(info.identifier, format!("{}i0", TXID));
    assert_eq!(info.path_type.as_deref(), Some("/"));
    assert_eq!(info.path.as_deref(), Some("/image.png"));
}

#[test]
fn decodes_id_urn_with_dollar_path() {
    let urn = format!("atom:btc:id:{}i12$avatar", TXID);
    let info = decode_urn(&urn).unwrap();
    assert_eq!(info.urn_type, UrnType::AtomicalId);
    assert_eq!(info.identifier, format!("{}i12", TXID));
    assert_eq!(info.path_type.as_deref(), Some("$"));
    assert_eq!(info.path.as_deref(), Some("$avatar"));
}

#[test]
fn decodes_realm_container_and_arc() {
    let realm = decode_urn("atom:btc:realm:my-realm").unwrap();
    assert_eq!(realm.urn_type, UrnType::Realm);
    assert_eq!(realm.identifier, "my-realm");
    assert_eq!(realm.path_type, None);
    assert_eq!(realm.path, None);

    let container = decode_urn("atom:btc:container:toothy-1/items").unwrap();
    assert_eq!(container.urn_type, UrnType::Container);
    assert_eq!(container.identifier, "toothy-1");
    assert_eq!(container.path.as_deref(), Some("/items"));

    let arc = decode_urn("atom:btc:arc:atom").unwrap();
    assert_eq!(arc.urn_type, UrnType::Arc);
    assert_eq!(arc.identifier, "atom");
}

#[test]
fn ticker_stops_at_first_character_outside_its_class() {
    let arc = decode_urn("atom:btc:arc:abc-def").unwrap();
    assert_eq!(arc.identifier, "abc");
    assert_eq!(arc.path_type, None);
    assert_eq!(arc.path.as_deref(), Some("-def"));
}

#[test]
fn path_ends_at_line_feed() {
    let realm = decode_urn("atom:btc:realm:abc/x\ny").unwrap();
    assert_eq!(realm.path.as_deref(), Some("/x"));
    let bare = decode_urn("atom:btc:realm:abc\n/x").unwrap();
    assert_eq!(bare.path, None);
    assert_eq!(bare.path_type, None);
}

#[test]
fn text_before_the_urn_is_skipped() {
    let info = decode_urn("see atom:btc:realm:zeta please").unwrap();
    assert_eq!(info.identifier, "zeta");
    assert_eq!(info.path.as_deref(), Some(" please"));
}

#[test]
fn dat_grammar_is_tried_before_realm() {
    let urn = format!("atom:btc:realm:abc/atom:btc:dat:{}i1", TXID);
    let info = decode_urn(&urn).unwrap();
    assert_eq!(info.urn_type, UrnType::Dat);
    assert_eq!(info.identifier, format!("{}i1", TXID));
}

#[test]
fn unicode_decimal_digits_belong_to_the_index() {
    let urn = format!("atom:btc:dat:{}i1\u{0663}/x", TXID);
    let info = decode_urn(&urn).unwrap();
    assert_eq!(info.identifier, format!("{}i1\u{0663}", TXID));
    assert_eq!(info.path.as_deref(), Some("/x"));
}

#[test]
fn invalid_urns_are_rejected() {
    assert_eq!(decode_urn("atom:btc:dat:abc").unwrap_err(), UrnError::Invalid);
    assert_eq!(decode_urn("atom:btc:realm:").unwrap_err(), UrnError::Invalid);
    assert_eq!(decode_urn("atom:btc:realm:ABC").unwrap_err(), UrnError::Invalid);
    assert_eq!(decode_urn(&format!("atom:btc:id:{}i", TXID)).unwrap_err(), UrnError::Invalid);
    assert_eq!(decode_urn("").unwrap_err(), UrnError::Invalid);
    assert_eq!(UrnError::Invalid.message(), "Invalid URN");
}
