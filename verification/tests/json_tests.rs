use rust_chat::json::parse_json_object;
use rust_chat::json::JsonValue;
use rust_chat::messages::parse_message;
use rust_chat::messages::ChatMessage;

fn str_value(v: &JsonValue) -> &[u8] {
    match v {
        JsonValue::Str(b) => b.as_slice(),
        _ => panic!("expected a string value"),
    }
}

#[test]
fn object_parses_members_in_order() {
    let fields = parse_json_object(b"{\"a\":1,\"b\":\"x\",\"c\":true}").unwrap();
    assert_eq!(fields.len(), 3);
    assert_eq!(fields[0].0, b"a".to_vec());
    assert!(matches!(fields[0].1, JsonValue::UInt(1)));
    assert_eq!(str_value(&fields[1].1), b"x");
    assert!(matches!(fields[2].1, JsonValue::Bool(true)));
}

#[test]
fn object_accepts_whitespace_everywhere() {
    let fields = parse_json_object(b" \t\r\n{ \"a\" : 7 , \"b\" : false } ").unwrap();
    assert_eq!(fields.len(), 2);
}

#[test]
fn object_rejects_trailing_garbage() {
    assert!(parse_json_object(b"{\"a\":1}x").is_none());
    assert!(parse_json_object(b"{\"a\":1} {\"b\":2}").is_none());
    assert!(parse_json_object(b"{\"a\":1},").is_none());
}

#[test]
fn object_rejects_malformed_syntax() {
    assert!(parse_json_object(b"").is_none());
    assert!(parse_json_object(b"{").is_none());
    assert!(parse_json_object(b"{\"a\":}").is_none());
    assert!(parse_json_object(b"{\"a\" 1}").is_none());
    assert!(parse_json_object(b"{\"a\":1,}").is_none());
    assert!(parse_json_object(b"[1,2]").is_none());
    assert!(parse_json_object(b"{\"a\":[1]}").is_none());
    assert!(parse_json_object(b"{\"a\":null}").is_none());
    assert!(parse_json_object(b"{\"a\":-1}").is_none());
    assert!(parse_json_object(b"{\"a\":1.5}").is_none());
    assert!(parse_json_object(b"{\"a\":01}").is_none());
}

#[test]
fn empty_object_parses() {
    let fields = parse_json_object(b" {} ").unwrap();
    assert!(fields.is_empty());
}

#[test]
fn string_escapes_unescape() {
    let fields = parse_json_object(b"{\"a\":\"q\\\"w\\\\e\\/r\\bt\\fy\\nu\\ri\\to\"}").unwrap();
    assert_eq!(str_value(&fields[0].1), b"q\"w\\e/r\x08t\x0cy\nu\ri\to");
}

#[test]
fn unicode_escape_is_decoded() {
    let fields = parse_json_object(b"{\"a\":\"\\u0041\\u00e9\\u20ac\"}").unwrap();
    // A, e-acute, euro sign, in their UTF-8 encodings
    assert_eq!(str_value(&fields[0].1), "A\u{e9}\u{20ac}".as_bytes());
}

#[test]
fn surrogate_pair_is_combined() {
    let fields = parse_json_object(b"{\"a\":\"\\ud83d\\ude00\"}").unwrap();
    assert_eq!(str_value(&fields[0].1), "\u{1F600}".as_bytes());
}

#[test]
fn lone_surrogate_is_rejected() {
    assert!(parse_json_object(b"{\"a\":\"\\ud83d\"}").is_none());
    assert!(parse_json_object(b"{\"a\":\"\\ude00\"}").is_none());
    assert!(parse_json_object(b"{\"a\":\"\\ud83dx\"}").is_none());
}

#[test]
fn raw_control_byte_in_string_is_rejected() {
    assert!(parse_json_object(b"{\"a\":\"x\x01y\"}").is_none());
}

#[test]
fn invalid_utf8_in_string_field_is_rejected() {
    // 0xFF is never valid UTF-8; the object parses but the message does not
    let payload = b"{\"user_name\":\"\xff\"}";
    assert!(parse_json_object(payload).is_some());
    assert!(parse_message(1, payload).is_none());
}

#[test]
fn number_range_is_checked() {
    // u64 range at the grammar, u32 range at the nonce field
    assert!(parse_json_object(b"{\"a\":18446744073709551615}").is_some());
    assert!(parse_json_object(b"{\"a\":18446744073709551616}").is_none());
    assert!(parse_message(0, b"{\"nonce\":4294967295,\"reply\":true}").is_some());
    assert!(parse_message(0, b"{\"nonce\":4294967296,\"reply\":true}").is_none());
}

#[test]
fn message_fields_any_order() {
    let m = parse_message(0, b"{\"reply\":false,\"nonce\":9}").unwrap();
    match m {
        ChatMessage::Ping(p) => {
            assert_eq!(p.nonce, 9);
            assert!(!p.reply);
        },
        _ => panic!("expected a ping"),
    }
}

#[test]
fn message_rejects_unknown_missing_duplicate_fields() {
    // unknown member
    assert!(parse_message(1, b"{\"user_name\":\"a\",\"extra\":1}").is_none());
    // missing member
    assert!(parse_message(0, b"{\"nonce\":1}").is_none());
    // duplicated member
    assert!(parse_message(0, b"{\"nonce\":1,\"nonce\":2}").is_none());
    // wrong type
    assert!(parse_message(1, b"{\"user_name\":7}").is_none());
    assert!(parse_message(0, b"{\"nonce\":true,\"reply\":false}").is_none());
}

#[test]
fn message_numbers_outside_catalog_are_rejected() {
    assert!(parse_message(6, b"{\"message\":\"x\"}").is_none());
    assert!(parse_message(999, b"{}").is_none());
}

#[test]
fn all_catalog_shapes_parse() {
    assert!(matches!(
        parse_message(0, b"{\"nonce\":7,\"reply\":false}"),
        Some(ChatMessage::Ping(_))
    ));
    assert!(matches!(
        parse_message(1, b"{\"user_name\":\"a\"}"),
        Some(ChatMessage::Login(_))
    ));
    assert!(matches!(
        parse_message(2, b"{\"message\":\"hi\"}"),
        Some(ChatMessage::PublishGlobal(_))
    ));
    assert!(matches!(
        parse_message(3, b"{\"user_name\":\"a\",\"message\":\"hi\"}"),
        Some(ChatMessage::Global(_))
    ));
    assert!(matches!(
        parse_message(4, b"{\"to_user_name\":\"b\",\"message\":\"s\"}"),
        Some(ChatMessage::PublishPrivate(_))
    ));
    assert!(matches!(
        parse_message(5, b"{\"from_user_name\":\"a\",\"message\":\"s\"}"),
        Some(ChatMessage::Private(_))
    ));
}
