use rust_chat::message::Message;
use rust_chat::messages::parse_message;
use rust_chat::messages::ChatMessage;
use rust_chat::messages::GlobalChatMessage;
use rust_chat::messages::LoginMessage;
use rust_chat::messages::PingMessage;
use rust_chat::messages::PrivateChatMessage;
use rust_chat::messages::PublishGlobalChatMessage;
use rust_chat::messages::PublishPrivateChatMessage;

fn catalog() -> Vec<ChatMessage> {
    vec![
        ChatMessage::Ping(PingMessage { nonce: 7, reply: false }),
        ChatMessage::Login(LoginMessage { user_name: "alice".to_string() }),
        ChatMessage::PublishGlobal(PublishGlobalChatMessage { message: "hi all".to_string() }),
        ChatMessage::Global(GlobalChatMessage {
            user_name: "alice".to_string(),
            message: "hi all".to_string(),
        }),
        ChatMessage::PublishPrivate(PublishPrivateChatMessage {
            to_user_name: "bob".to_string(),
            message: "secret".to_string(),
        }),
        ChatMessage::Private(PrivateChatMessage {
            from_user_name: "alice".to_string(),
            message: "secret".to_string(),
        }),
    ]
}

fn same_message(a: &ChatMessage, b: &ChatMessage) -> bool {
    match (a, b) {
        (ChatMessage::Ping(x), ChatMessage::Ping(y)) => x.nonce == y.nonce && x.reply == y.reply,
        (ChatMessage::Login(x), ChatMessage::Login(y)) => x.user_name == y.user_name,
        (ChatMessage::PublishGlobal(x), ChatMessage::PublishGlobal(y)) => x.message == y.message,
        (ChatMessage::Global(x), ChatMessage::Global(y)) => {
            x.user_name == y.user_name && x.message == y.message
        },
        (ChatMessage::PublishPrivate(x), ChatMessage::PublishPrivate(y)) => {
            x.to_user_name == y.to_user_name && x.message == y.message
        },
        (ChatMessage::Private(x), ChatMessage::Private(y)) => {
            x.from_user_name == y.from_user_name && x.message == y.message
        },
        _ => false,
    }
}

#[test]
fn payloads_are_canonical() {
    let expect: Vec<&[u8]> = vec![
        b"{\"nonce\":7,\"reply\":false}",
        b"{\"user_name\":\"alice\"}",
        b"{\"message\":\"hi all\"}",
        b"{\"user_name\":\"alice\",\"message\":\"hi all\"}",
        b"{\"to_user_name\":\"bob\",\"message\":\"secret\"}",
        b"{\"from_user_name\":\"alice\",\"message\":\"secret\"}",
    ];
    for (m, e) in catalog().iter().zip(expect.iter()) {
        assert_eq!(m.to_payload(), e.to_vec());
    }
}

#[test]
fn numbers_are_stable() {
    let numbers: Vec<u32> = catalog().iter().map(|m| m.number()).collect();
    assert_eq!(numbers, vec![0, 1, 2, 3, 4, 5]);
}

#[test]
fn every_message_round_trips_through_its_payload() {
    for m in catalog() {
        let payload = m.to_payload();
        let back = parse_message(m.number() as usize, &payload).unwrap();
        assert!(same_message(&m, &back));
    }
}

#[test]
fn escaped_text_round_trips() {
    let text = "a\"b\\c\nd\te\u{1}f\u{e9}\u{1F600}";
    let m = ChatMessage::PublishGlobal(PublishGlobalChatMessage { message: text.to_string() });
    let payload = m.to_payload();
    match parse_message(2, &payload).unwrap() {
        ChatMessage::PublishGlobal(p) => assert_eq!(p.message, text),
        _ => panic!("expected a publish"),
    }
}

#[test]
fn serialization_matches_the_reference_json_encoder() {
    // the ping payload against serde_json on the same object
    let mut obj = serde_json::Map::new();
    obj.insert("nonce".to_string(), serde_json::Value::from(7u32));
    obj.insert("reply".to_string(), serde_json::Value::from(false));
    let reference = serde_json::to_string(&serde_json::Value::Object(obj)).unwrap();
    let ours = ChatMessage::Ping(PingMessage { nonce: 7, reply: false }).to_payload();
    assert_eq!(ours, reference.into_bytes());

    // string escaping against serde_json on the same text
    let text = "a\"b\\c\nd\te\u{1}f\u{e9}";
    let mut obj = serde_json::Map::new();
    obj.insert("message".to_string(), serde_json::Value::from(text));
    let reference = serde_json::to_string(&serde_json::Value::Object(obj)).unwrap();
    let ours = ChatMessage::PublishGlobal(PublishGlobalChatMessage {
        message: text.to_string(),
    })
        .to_payload();
    assert_eq!(ours, reference.into_bytes());
}

#[test]
fn our_payloads_parse_under_the_reference_parser() {
    for m in catalog() {
        let payload = m.to_payload();
        let v: serde_json::Value = serde_json::from_slice(&payload).unwrap();
        assert!(v.is_object());
    }
}

#[test]
fn message_new_carries_payload_and_number() {
    let m = Message::new(&ChatMessage::Login(LoginMessage { user_name: "a".to_string() }));
    assert_eq!(m.number, 1);
    assert_eq!(m.message, b"{\"user_name\":\"a\"}".to_vec());
    let copy = m.clone();
    assert_eq!(copy.number, m.number);
    assert_eq!(copy.message, m.message);
}
