use rust_chat::codec::encode_frame;
use rust_chat::connection::Connection;
use rust_chat::connection::FlushStatus;
use rust_chat::event::BusEvent;
use rust_chat::message::Message;
use rust_chat::messages::ChatMessage;
use rust_chat::messages::LoginMessage;
use rust_chat::messages::PublishGlobalChatMessage;

fn frame(number: u32, payload: &[u8]) -> Vec<u8> {
    encode_frame(number, payload).unwrap()
}

/// Drains everything the connection wants to write, as a lossless socket
/// would accept it.
fn drain(conn: &mut Connection) -> Vec<u8> {
    let mut out: Vec<u8> = Vec::new();
    loop {
        match conn.flush_prepare() {
            FlushStatus::Ready => {
                let chunk = conn.pending().to_vec();
                out.extend_from_slice(&chunk);
                conn.flush_wrote(chunk.len());
            },
            FlushStatus::Idle { .. } => return out,
            FlushStatus::Oversized => panic!("unexpected oversized frame"),
        }
    }
}

#[test]
fn ping_gets_a_reply_with_the_same_nonce() {
    let mut conn = Connection::new();
    let mut events: Vec<BusEvent> = Vec::new();
    let close = conn.on_data(&frame(0, b"{\"nonce\":7,\"reply\":false}"), &mut events);
    assert!(!close);
    assert!(events.is_empty());
    let written = drain(&mut conn);
    assert_eq!(written, frame(0, b"{\"nonce\":7,\"reply\":true}"));
}

#[test]
fn ping_reply_is_consumed_silently() {
    let mut conn = Connection::new();
    let mut events: Vec<BusEvent> = Vec::new();
    let close = conn.on_data(&frame(0, b"{\"nonce\":7,\"reply\":true}"), &mut events);
    assert!(!close);
    assert!(events.is_empty());
    assert!(drain(&mut conn).is_empty());
}

#[test]
fn login_sets_the_user_name() {
    let mut conn = Connection::new();
    let mut events: Vec<BusEvent> = Vec::new();
    assert!(conn.user_name.is_none());
    let close = conn.on_data(&frame(1, b"{\"user_name\":\"alice\"}"), &mut events);
    assert!(!close);
    assert_eq!(conn.user_name.as_deref(), Some("alice"));
    assert!(events.is_empty());
}

#[test]
fn publish_before_login_is_dropped_silently() {
    let mut conn = Connection::new();
    let mut events: Vec<BusEvent> = Vec::new();
    let close = conn.on_data(&frame(2, b"{\"message\":\"x\"}"), &mut events);
    // nothing is sent back, no event goes out, the connection stays open
    assert!(!close);
    assert!(events.is_empty());
    assert!(drain(&mut conn).is_empty());

    let close = conn.on_data(&frame(4, b"{\"to_user_name\":\"b\",\"message\":\"x\"}"), &mut events);
    assert!(!close);
    assert!(events.is_empty());
}

#[test]
fn publish_after_login_emits_a_global_event() {
    let mut conn = Connection::new();
    let mut events: Vec<BusEvent> = Vec::new();
    assert!(!conn.on_data(&frame(1, b"{\"user_name\":\"a\"}"), &mut events));
    assert!(!conn.on_data(&frame(2, b"{\"message\":\"hi\"}"), &mut events));
    assert_eq!(events.len(), 1);
    match &events[0] {
        BusEvent::Global(g) => {
            assert_eq!(g.user_name, "a");
            assert_eq!(g.message, "hi");
        },
        _ => panic!("expected a global event"),
    }
}

#[test]
fn private_publish_carries_sender_and_recipient() {
    let mut conn = Connection::new();
    let mut events: Vec<BusEvent> = Vec::new();
    assert!(!conn.on_data(&frame(1, b"{\"user_name\":\"a\"}"), &mut events));
    assert!(!conn.on_data(&frame(4, b"{\"to_user_name\":\"b\",\"message\":\"s\"}"), &mut events));
    assert_eq!(events.len(), 1);
    match &events[0] {
        BusEvent::Private(p) => {
            assert_eq!(p.from_user_name, "a");
            assert_eq!(p.to_user_name, "b");
            assert_eq!(p.message, "s");
        },
        _ => panic!("expected a private event"),
    }
}

#[test]
fn framing_error_closes_the_connection() {
    let mut conn = Connection::new();
    let mut events: Vec<BusEvent> = Vec::new();
    let mut bad = frame(0, b"{\"nonce\":7,\"reply\":false}");
    bad[0] = b'X';
    assert!(conn.on_data(&bad, &mut events));
}

#[test]
fn unknown_message_number_closes_the_connection() {
    let mut conn = Connection::new();
    let mut events: Vec<BusEvent> = Vec::new();
    assert!(conn.on_data(&frame(9, b"{\"message\":\"x\"}"), &mut events));
}

#[test]
fn unparseable_payload_closes_the_connection() {
    let mut conn = Connection::new();
    let mut events: Vec<BusEvent> = Vec::new();
    assert!(conn.on_data(&frame(2, b"{\"message\":}"), &mut events));
}

#[test]
fn garbage_filling_the_buffer_is_a_framing_error() {
    // a read larger than the whole packet bound: the first buffer-sized
    // slice already fails the magic check
    let mut conn = Connection::new();
    let mut events: Vec<BusEvent> = Vec::new();
    let huge = vec![0u8; 4096];
    assert!(conn.on_data(&huge, &mut events));
    assert!(events.is_empty());
}

#[test]
fn frames_split_across_reads_are_handled() {
    let mut conn = Connection::new();
    let mut events: Vec<BusEvent> = Vec::new();
    let mut stream = frame(1, b"{\"user_name\":\"a\"}");
    stream.extend_from_slice(&frame(2, b"{\"message\":\"m\"}"));
    for byte in stream {
        assert!(!conn.on_data(&[byte], &mut events));
    }
    assert_eq!(events.len(), 1);
}

#[test]
fn outbound_frames_drain_in_fifo_order() {
    let mut conn = Connection::new();
    let first = Message::new(&ChatMessage::Login(LoginMessage { user_name: "a".to_string() }));
    let second = Message::new(&ChatMessage::PublishGlobal(PublishGlobalChatMessage {
        message: "b".to_string(),
    }));
    conn.enqueue(first);
    conn.enqueue(second);
    let written = drain(&mut conn);
    let mut expected = frame(1, b"{\"user_name\":\"a\"}");
    expected.extend_from_slice(&frame(2, b"{\"message\":\"b\"}"));
    assert_eq!(written, expected);
}

#[test]
fn partial_writes_keep_order_and_arm_interest() {
    let mut conn = Connection::new();
    conn.enqueue(Message::new(&ChatMessage::Login(LoginMessage { user_name: "a".to_string() })));
    conn.enqueue(Message::new(&ChatMessage::PublishGlobal(PublishGlobalChatMessage {
        message: "b".to_string(),
    })));
    let mut written: Vec<u8> = Vec::new();
    loop {
        match conn.flush_prepare() {
            FlushStatus::Ready => {
                // the socket accepts one byte at a time
                written.push(conn.pending()[0]);
                let arm = conn.flush_wrote(1);
                // interest is armed once, on the first partial write
                assert_eq!(arm, written.len() == 1 && !conn.pending().is_empty());
            },
            FlushStatus::Idle { disarm } => {
                assert!(disarm);
                break;
            },
            FlushStatus::Oversized => panic!("unexpected oversized frame"),
        }
    }
    let mut expected = frame(1, b"{\"user_name\":\"a\"}");
    expected.extend_from_slice(&frame(2, b"{\"message\":\"b\"}"));
    assert_eq!(written, expected);
}

#[test]
fn idle_with_disarmed_interest_needs_no_reregistration() {
    let mut conn = Connection::new();
    match conn.flush_prepare() {
        FlushStatus::Idle { disarm } => assert!(!disarm),
        _ => panic!("expected an idle connection"),
    }
}

#[test]
fn second_login_replaces_the_user_name() {
    let mut conn = Connection::new();
    let mut events: Vec<BusEvent> = Vec::new();
    assert!(!conn.on_data(&frame(1, b"{\"user_name\":\"a\"}"), &mut events));
    assert!(!conn.on_data(&frame(1, b"{\"user_name\":\"b\"}"), &mut events));
    assert_eq!(conn.user_name.as_deref(), Some("b"));
}

#[test]
fn oversized_queued_frame_is_fatal() {
    let mut conn = Connection::new();
    conn.enqueue(Message { message: vec![97u8; 1025], number: 3 });
    assert!(matches!(conn.flush_prepare(), FlushStatus::Oversized));
}

#[test]
fn events_from_one_read_keep_arrival_order() {
    let mut conn = Connection::new();
    let mut events: Vec<BusEvent> = Vec::new();
    let mut stream = frame(1, b"{\"user_name\":\"a\"}");
    stream.extend_from_slice(&frame(2, b"{\"message\":\"one\"}"));
    stream.extend_from_slice(&frame(2, b"{\"message\":\"two\"}"));
    assert!(!conn.on_data(&stream, &mut events));
    assert_eq!(events.len(), 2);
    match (&events[0], &events[1]) {
        (BusEvent::Global(x), BusEvent::Global(y)) => {
            assert_eq!(x.message, "one");
            assert_eq!(y.message, "two");
        },
        _ => panic!("expected two global events"),
    }
}

#[test]
fn two_full_size_frames_in_one_read_are_both_handled() {
    // each frame is exactly HEADER_SIZE + MAX_PAYLOAD = 1040 bytes
    let text = "a".repeat(1010);
    let payload = format!("{{\"message\":\"{}\"}}", text);
    assert_eq!(payload.len(), 1024);
    let publish = frame(2, payload.as_bytes());
    assert_eq!(publish.len(), 1040);

    let mut conn = Connection::new();
    let mut events: Vec<BusEvent> = Vec::new();
    assert!(!conn.on_data(&frame(1, b"{\"user_name\":\"a\"}"), &mut events));

    let mut batch = publish.clone();
    batch.extend_from_slice(&publish);
    assert!(!conn.on_data(&batch, &mut events));
    assert_eq!(events.len(), 2);
}

#[test]
fn read_crossing_the_buffer_capacity_is_handled() {
    let text = "b".repeat(1010);
    let payload = format!("{{\"message\":\"{}\"}}", text);
    let publish = frame(2, payload.as_bytes());
    let small = frame(2, b"{\"message\":\"x\"}");

    let mut conn = Connection::new();
    let mut events: Vec<BusEvent> = Vec::new();
    assert!(!conn.on_data(&frame(1, b"{\"user_name\":\"a\"}"), &mut events));

    // first read leaves a 1000-byte partial frame in the buffer; the
    // second read is larger than the 40 bytes of remaining capacity
    assert!(!conn.on_data(&publish[..1000], &mut events));
    let mut second = publish[1000..].to_vec();
    second.extend_from_slice(&small);
    second.extend_from_slice(&small);
    assert!(!conn.on_data(&second, &mut events));
    assert_eq!(events.len(), 3);
}

#[test]
fn many_small_frames_batched_like_one_socket_read() {
    let mut conn = Connection::new();
    let mut events: Vec<BusEvent> = Vec::new();
    let mut batch: Vec<u8> = Vec::new();
    let mut expected_replies: Vec<u8> = Vec::new();
    for nonce in 0..150u32 {
        let request = format!("{{\"nonce\":{},\"reply\":false}}", nonce);
        batch.extend_from_slice(&frame(0, request.as_bytes()));
        let reply = format!("{{\"nonce\":{},\"reply\":true}}", nonce);
        expected_replies.extend_from_slice(&frame(0, reply.as_bytes()));
    }
    assert!(batch.len() > 4096);
    assert!(!conn.on_data(&batch, &mut events));
    assert!(events.is_empty());
    assert_eq!(drain(&mut conn), expected_replies);
}

#[test]
fn bad_magic_behind_a_large_batch_still_closes() {
    let text = "c".repeat(1010);
    let payload = format!("{{\"message\":\"{}\"}}", text);
    let publish = frame(2, payload.as_bytes());
    let mut conn = Connection::new();
    let mut events: Vec<BusEvent> = Vec::new();
    assert!(!conn.on_data(&frame(1, b"{\"user_name\":\"a\"}"), &mut events));
    let mut batch = publish.clone();
    batch.extend_from_slice(b"XustChat0  25   ");
    batch.extend_from_slice(&publish);
    // the good frame before the bad magic is still handled
    assert!(conn.on_data(&batch, &mut events));
    assert_eq!(events.len(), 1);
}
