use rust_chat::codec::encode_frame;
use rust_chat::connection_thread::ConnectionTable;
use rust_chat::connection_thread::FIRST_CONNECTION_TOKEN;
use rust_chat::event::BusEvent;
use rust_chat::event::PrivateChatMessageEvent;
use rust_chat::message::Message;
use rust_chat::messages::ChatMessage;
use rust_chat::messages::GlobalChatMessage;
use rust_chat::messages::PrivateChatMessage;
use rust_chat::server::next_thread;
use rust_chat::server::ServerCore;

fn frame(number: u32, payload: &[u8]) -> Vec<u8> {
    encode_frame(number, payload).unwrap()
}

fn login(table: &mut ConnectionTable, i: usize, name: &str) -> Vec<BusEvent> {
    let mut events: Vec<BusEvent> = Vec::new();
    let payload = format!("{{\"user_name\":\"{}\"}}", name);
    let close = table.on_data_at(i, &frame(1, payload.as_bytes()), &mut events);
    assert!(!close);
    events
}

/// Everything connection `i` has queued, drained as a lossless socket
/// would take it.
fn drain_at(table: &mut ConnectionTable, i: usize) -> Vec<u8> {
    let mut out: Vec<u8> = Vec::new();
    loop {
        match table.flush_prepare_at(i) {
            rust_chat::connection::FlushStatus::Ready => {
                let chunk = table.pending_at(i).to_vec();
                out.extend_from_slice(&chunk);
                table.flush_wrote_at(i, chunk.len());
            },
            rust_chat::connection::FlushStatus::Idle { .. } => return out,
            rust_chat::connection::FlushStatus::Oversized => panic!("unexpected oversized frame"),
        }
    }
}

#[test]
fn tokens_start_at_two_and_increase() {
    let mut table = ConnectionTable::new();
    assert_eq!(FIRST_CONNECTION_TOKEN, 2);
    let t0 = table.register_connection();
    let t1 = table.register_connection();
    assert_eq!(t0, 2);
    assert_eq!(t1, 3);
    assert_eq!(table.len(), 2);
    assert_eq!(table.find(2), Some(0));
    assert_eq!(table.find(3), Some(1));
    assert_eq!(table.find(7), None);
    table.remove_at(0);
    assert_eq!(table.find(2), None);
    assert_eq!(table.find(3), Some(0));
}

#[test]
fn global_broadcast_reaches_every_connection_once() {
    // Login then global broadcast: A and B each receive the echo once.
    let mut table = ConnectionTable::new();
    table.register_connection();
    table.register_connection();
    login(&mut table, 0, "a");
    login(&mut table, 1, "b");

    // A publishes; the worker turns it into a global event
    let mut events: Vec<BusEvent> = Vec::new();
    assert!(!table.on_data_at(0, &frame(2, b"{\"message\":\"hi\"}"), &mut events));
    assert_eq!(events.len(), 1);
    let broadcast = match &events[0] {
        BusEvent::Global(g) => Message::new(&ChatMessage::Global(GlobalChatMessage {
            user_name: g.user_name.clone(),
            message: g.message.clone(),
        })),
        _ => panic!("expected a global event"),
    };

    table.deliver_global(&broadcast);
    let expected = frame(3, b"{\"user_name\":\"a\",\"message\":\"hi\"}");
    assert_eq!(drain_at(&mut table, 0), expected);
    assert_eq!(drain_at(&mut table, 1), expected);
    // exactly once: nothing more is queued
    assert!(drain_at(&mut table, 0).is_empty());
    assert!(drain_at(&mut table, 1).is_empty());
}

#[test]
fn private_message_reaches_only_the_named_user() {
    let mut table = ConnectionTable::new();
    table.register_connection();
    table.register_connection();
    table.register_connection();
    login(&mut table, 0, "a");
    login(&mut table, 1, "b");
    login(&mut table, 2, "c");

    let mut events: Vec<BusEvent> = Vec::new();
    assert!(!table.on_data_at(
        0,
        &frame(4, b"{\"to_user_name\":\"b\",\"message\":\"secret\"}"),
        &mut events,
    ));
    let (event, delivery) = match &events[0] {
        BusEvent::Private(p) => (
            PrivateChatMessageEvent {
                from_user_name: p.from_user_name.clone(),
                to_user_name: p.to_user_name.clone(),
                message: p.message.clone(),
            },
            Message::new(&ChatMessage::Private(PrivateChatMessage {
                from_user_name: p.from_user_name.clone(),
                message: p.message.clone(),
            })),
        ),
        _ => panic!("expected a private event"),
    };

    table.deliver_private(&event, &delivery);
    assert!(drain_at(&mut table, 0).is_empty());
    assert_eq!(
        drain_at(&mut table, 1),
        frame(5, b"{\"from_user_name\":\"a\",\"message\":\"secret\"}")
    );
    assert!(drain_at(&mut table, 2).is_empty());
}

#[test]
fn duplicate_user_names_both_receive_private_messages() {
    let mut table = ConnectionTable::new();
    table.register_connection();
    table.register_connection();
    login(&mut table, 0, "b");
    login(&mut table, 1, "b");

    let event = PrivateChatMessageEvent {
        from_user_name: "a".to_string(),
        to_user_name: "b".to_string(),
        message: "s".to_string(),
    };
    let delivery = Message::new(&ChatMessage::Private(PrivateChatMessage {
        from_user_name: "a".to_string(),
        message: "s".to_string(),
    }));
    table.deliver_private(&event, &delivery);
    let expected = frame(5, b"{\"from_user_name\":\"a\",\"message\":\"s\"}");
    assert_eq!(drain_at(&mut table, 0), expected);
    assert_eq!(drain_at(&mut table, 1), expected);
}

#[test]
fn unauthenticated_connections_get_no_private_delivery() {
    let mut table = ConnectionTable::new();
    table.register_connection();
    let event = PrivateChatMessageEvent {
        from_user_name: "a".to_string(),
        to_user_name: "b".to_string(),
        message: "s".to_string(),
    };
    let delivery = Message::new(&ChatMessage::Private(PrivateChatMessage {
        from_user_name: "a".to_string(),
        message: "s".to_string(),
    }));
    table.deliver_private(&event, &delivery);
    assert!(drain_at(&mut table, 0).is_empty());
}

#[test]
fn round_robin_wraps() {
    assert_eq!(next_thread(0, 4), 1);
    assert_eq!(next_thread(3, 4), 0);
    assert_eq!(next_thread(0, 1), 0);
}

#[test]
fn dispatch_assigns_workers_in_rotation() {
    let mut core = ServerCore::new(2);
    assert_eq!(core.worker_count(), 2);
    let a = core.dispatch_new_connection().unwrap();
    let b = core.dispatch_new_connection().unwrap();
    let c = core.dispatch_new_connection().unwrap();
    assert_eq!((a.0, a.1), (0, 2));
    assert_eq!((b.0, b.1), (1, 2));
    assert_eq!((c.0, c.1), (0, 3));
}

#[test]
fn dispatch_with_no_workers_drops_the_connection() {
    let mut core = ServerCore::new(0);
    assert!(core.dispatch_new_connection().is_none());
}

#[test]
fn fan_out_delivers_to_every_worker() {
    let mut core = ServerCore::new(2);
    let a = core.dispatch_new_connection().unwrap();
    let b = core.dispatch_new_connection().unwrap();
    assert_ne!(a.0, b.0);

    // both connections log in as "b" on different workers
    for (w, t) in [a, b] {
        let table = core.worker_mut(w);
        let i = table.find(t).unwrap();
        login(table, i, "b");
    }

    let broadcast = Message::new(&ChatMessage::Global(GlobalChatMessage {
        user_name: "x".to_string(),
        message: "all".to_string(),
    }));
    core.fan_out_global(&broadcast);
    let expected_global = frame(3, b"{\"user_name\":\"x\",\"message\":\"all\"}");
    for (w, t) in [a, b] {
        let table = core.worker_mut(w);
        let i = table.find(t).unwrap();
        assert_eq!(drain_at(table, i), expected_global);
    }

    let event = PrivateChatMessageEvent {
        from_user_name: "x".to_string(),
        to_user_name: "b".to_string(),
        message: "ps".to_string(),
    };
    let delivery = Message::new(&ChatMessage::Private(PrivateChatMessage {
        from_user_name: "x".to_string(),
        message: "ps".to_string(),
    }));
    core.fan_out_private(&event, &delivery);
    let expected_private = frame(5, b"{\"from_user_name\":\"x\",\"message\":\"ps\"}");
    for (w, t) in [a, b] {
        let table = core.worker_mut(w);
        let i = table.find(t).unwrap();
        assert_eq!(drain_at(table, i), expected_private);
    }
}

#[test]
fn deliveries_arrive_in_bus_order() {
    let mut table = ConnectionTable::new();
    table.register_connection();
    login(&mut table, 0, "a");
    let first = Message::new(&ChatMessage::Global(GlobalChatMessage {
        user_name: "x".to_string(),
        message: "1".to_string(),
    }));
    let second = Message::new(&ChatMessage::Global(GlobalChatMessage {
        user_name: "x".to_string(),
        message: "2".to_string(),
    }));
    table.deliver_global(&first);
    table.deliver_global(&second);
    let mut expected = frame(3, b"{\"user_name\":\"x\",\"message\":\"1\"}");
    expected.extend_from_slice(&frame(3, b"{\"user_name\":\"x\",\"message\":\"2\"}"));
    assert_eq!(drain_at(&mut table, 0), expected);
}
