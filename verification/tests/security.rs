use commipcrs::json::{JsonNumber, JsonObject, JsonValue};
use commipcrs::security::{compute_signature, derive_key, hash_secret, hex_encode, signing_payload, verify_signature};
use commipcrs::serialize_json_canonical;

fn num(n: u64) -> JsonValue {
    JsonValue::Number(JsonNumber::PosInt(n))
}

fn text(s: &str) -> JsonValue {
    JsonValue::String(s.to_string())
}

fn object(members: Vec<(&str, JsonValue)>) -> JsonObject {
    let mut o = JsonObject::new();
    for (k, v) in members {
        o.insert(k.to_string(), v);
    }
    o
}

#[test]
fn test_canonical_json() {
    let msg = JsonValue::Object(object(vec![
        ("z", num(1)),
        ("a", num(2)),
        ("m", JsonValue::Array(vec![num(3), num(2), num(1)])),
        ("x", JsonValue::Object(object(vec![("b", num(1)), ("a", num(2))]))),
    ]));
    let serialized = serialize_json_canonical(&msg);
    assert_eq!(
        serialized,
        "{\"a\":2,\"m\":[3,2,1],\"x\":{\"a\":2,\"b\":1},\"z\":1}"
    );
}

#[test]
fn canonical_scalars() {
    assert_eq!(serialize_json_canonical(&JsonValue::Null), "null");
    assert_eq!(serialize_json_canonical(&JsonValue::Bool(true)), "true");
    assert_eq!(serialize_json_canonical(&JsonValue::Bool(false)), "false");
    assert_eq!(serialize_json_canonical(&num(0)), "0");
    assert_eq!(serialize_json_canonical(&num(u64::MAX)), "18446744073709551615");
    assert_eq!(
        serialize_json_canonical(&JsonValue::Number(JsonNumber::NegInt(-42))),
        "-42"
    );
    assert_eq!(
        serialize_json_canonical(&JsonValue::Number(JsonNumber::NegInt(i64::MIN))),
        "-9223372036854775808"
    );
    assert_eq!(
        serialize_json_canonical(&JsonValue::Number(JsonNumber::Float("1.5".to_string()))),
        "1.5"
    );
    // Strings are quoted as they stand, without escaping.
    assert_eq!(serialize_json_canonical(&text("a\"b")), "\"a\"b\"");
    assert_eq!(serialize_json_canonical(&JsonValue::Array(vec![])), "[]");
    assert_eq!(
        serialize_json_canonical(&JsonValue::Object(JsonObject::new())),
        "{}"
    );
}

#[test]
fn canonical_keys_in_byte_order() {
    let o = object(vec![("b", num(1)), ("B", num(2)), ("é", num(3)), ("ab", num(4)), ("a", num(5))]);
    assert_eq!(
        serialize_json_canonical(&JsonValue::Object(o)),
        "{\"B\":2,\"a\":5,\"ab\":4,\"b\":1,\"é\":3}"
    );
}

#[test]
fn canonical_ignores_member_order() {
    let o1 = object(vec![("k", num(1)), ("j", text("v")), ("i", JsonValue::Null)]);
    let o2 = object(vec![("i", JsonValue::Null), ("k", num(1)), ("j", text("v"))]);
    assert_eq!(
        serialize_json_canonical(&JsonValue::Object(o1)),
        serialize_json_canonical(&JsonValue::Object(o2))
    );
}

#[test]
fn object_insert_replaces() {
    let mut o = JsonObject::new();
    assert!(o.insert("a".to_string(), num(1)).is_none());
    assert!(o.insert("b".to_string(), num(2)).is_none());
    let prev = o.insert("a".to_string(), num(3));
    assert!(matches!(prev, Some(JsonValue::Number(JsonNumber::PosInt(1)))));
    assert_eq!(o.len(), 2);
    assert!(matches!(o.get("a"), Some(JsonValue::Number(JsonNumber::PosInt(3)))));
    assert!(o.get("c").is_none());
    assert!(o.contains_key("b"));
    assert_eq!(o.entries()[0].0, "a");
}

#[test]
fn hex_encoding() {
    assert_eq!(hex_encode(&[0x00, 0xab, 0xff, 0x10]), "00abff10");
    assert_eq!(hex_encode(&[]), "");
}

#[test]
fn hash_of_secret() {
    assert_eq!(
        hash_secret("secret"),
        "2bb80d537b1da3e38bd30361aa855686bde0eacd7162fef6a25fe97bf527a25b"
    );
    assert_eq!(hash_secret("").len(), 64);
}

#[test]
fn derived_key() {
    let k1 = derive_key("secret", b"salt");
    let k2 = derive_key("secret", b"salt");
    let k3 = derive_key("secret", b"pepper");
    assert_eq!(k1.len(), 32);
    assert_eq!(k1, k2);
    assert_ne!(k1, k3);
}

#[test]
fn signature_of_empty_text() {
    // No signed field: the HMAC of the empty text.
    let msg = object(vec![("metadata", num(1))]);
    assert_eq!(
        compute_signature(b"", &msg),
        "b613679a0814d9ec772f95d778c35fc5ff1697c493715653c6c712144292c5ad"
    );
}

#[test]
fn signature_verifies() {
    let msg = object(vec![
        ("sender_id", text("me")),
        ("data", JsonValue::Object(object(vec![("y", num(2)), ("x", num(1))]))),
        ("timestamp", num(17)),
    ]);
    let sig = compute_signature(b"key", &msg);
    assert_eq!(sig.len(), 64);
    assert!(verify_signature(b"key", &msg, &sig));
    assert!(!verify_signature(b"other", &msg, &sig));
    assert!(!verify_signature(b"key", &msg, "00"));
}

#[test]
fn signature_covers_signed_fields_only() {
    let base = object(vec![("channel", text("c")), ("event", text("e"))]);
    let with_extra = object(vec![
        ("event", text("e")),
        ("signature", text("zzz")),
        ("channel", text("c")),
        ("mode", text("client")),
        ("is_final", JsonValue::Null),
    ]);
    let changed = object(vec![("channel", text("c")), ("event", text("f"))]);
    let s1 = compute_signature(b"k", &base);
    assert_eq!(s1, compute_signature(b"k", &with_extra));
    assert_ne!(s1, compute_signature(b"k", &changed));
}

#[test]
fn signed_text_format() {
    let msg = object(vec![
        ("timestamp", num(5)),
        ("sender_id", text("me")),
        ("signature", text("ignored")),
        ("data", JsonValue::Object(object(vec![("b", num(1)), ("a", JsonValue::Array(vec![]))]))),
        ("target_id", JsonValue::Null),
        ("challenge", text("c")),
        ("is_final", JsonValue::Bool(true)),
    ]);
    assert_eq!(
        signing_payload(&msg),
        "challenge:\"c\"|data:{\"a\":[],\"b\":1}|is_final:true|sender_id:\"me\"|timestamp:5"
    );
    assert_eq!(signing_payload(&JsonObject::new()), "");
    let mut all = JsonObject::new();
    for k in [
        "sender_id", "channel", "event", "data", "timestamp", "request_id", "target_id",
        "is_stream", "is_final", "origin_server_id", "challenge", "sub_name",
    ] {
        all.insert(k.to_string(), num(0));
    }
    assert_eq!(
        signing_payload(&all),
        "challenge:0|channel:0|data:0|event:0|is_final:0|is_stream:0|origin_server_id:0|request_id:0|sender_id:0|sub_name:0|target_id:0|timestamp:0"
    );
}

#[test]
fn signature_format() {
    let sig = compute_signature(b"a key longer than sixty-four bytes ......................................", &JsonObject::new());
    assert_eq!(sig.len(), 64);
    assert!(sig.chars().all(|c| c.is_ascii_digit() || ('a'..='f').contains(&c)));
}
