use rust_chat::codec::encode_frame;
use rust_chat::codec::field_value;
use rust_chat::codec::Frame;
use rust_chat::message_factory::MessageFactory;

fn decode_all(factory: &mut MessageFactory, bytes: &[u8]) -> (bool, Vec<Frame>) {
    let mut frames: Vec<Frame> = Vec::new();
    if !factory.push(bytes) {
        return (false, frames);
    }
    let ok = factory.decode(&mut frames);
    (ok, frames)
}

#[test]
fn encode_ping_frame_is_canonical() {
    let payload = b"{\"nonce\":7,\"reply\":false}";
    let frame = encode_frame(0, payload).unwrap();
    let mut expected = b"RustChat0  25   ".to_vec();
    expected.extend_from_slice(payload);
    assert_eq!(frame, expected);
}

#[test]
fn encode_pads_number_and_length_left_justified() {
    let payload = vec![120u8; 128];
    let frame = encode_frame(42, &payload).unwrap();
    assert_eq!(&frame[..16], b"RustChat42 128  ");
}

#[test]
fn encode_rejects_oversized_payload() {
    let payload = vec![0u8; 1025];
    assert!(encode_frame(0, &payload).is_none());
    let payload = vec![0u8; 1024];
    assert!(encode_frame(0, &payload).is_some());
}

#[test]
fn field_value_accepts_trailing_padding() {
    assert_eq!(field_value(b"2  "), Some(2));
}

#[test]
fn field_value_accepts_leading_padding() {
    assert_eq!(field_value(b"  2"), Some(2));
}

#[test]
fn field_value_rejects_junk() {
    assert_eq!(field_value(b"   "), None);
    assert_eq!(field_value(b"2 2"), None);
    assert_eq!(field_value(b"-2 "), None);
    assert_eq!(field_value(b"+2 "), None);
    assert_eq!(field_value(b"12345"), Some(12345));
}

#[test]
fn decode_roundtrip_single_frame() {
    let payload = b"{\"nonce\":7,\"reply\":false}";
    let frame = encode_frame(0, payload).unwrap();
    let mut factory = MessageFactory::new();
    let (ok, frames) = decode_all(&mut factory, &frame);
    assert!(ok);
    assert_eq!(frames.len(), 1);
    assert_eq!(frames[0].number, 0);
    assert_eq!(frames[0].payload, payload.to_vec());
}

#[test]
fn decode_rejects_zero_length_payload() {
    let frame = encode_frame(0, b"").unwrap();
    let mut factory = MessageFactory::new();
    let (ok, frames) = decode_all(&mut factory, &frame);
    assert!(!ok);
    assert!(frames.is_empty());
}

#[test]
fn decode_accepts_max_payload_and_rejects_above() {
    let payload = vec![97u8; 1024];
    let frame = encode_frame(3, &payload).unwrap();
    let mut factory = MessageFactory::new();
    let (ok, frames) = decode_all(&mut factory, &frame);
    assert!(ok);
    assert_eq!(frames.len(), 1);
    assert_eq!(frames[0].payload.len(), 1024);

    // a header claiming 1025 bytes is rejected at the header
    let mut bad = b"RustChat0  1025 ".to_vec();
    bad.extend_from_slice(&vec![97u8; 1025]);
    let mut factory = MessageFactory::new();
    let (ok, frames) = decode_all(&mut factory, &bad[..1040]);
    assert!(!ok);
    assert!(frames.is_empty());
}

#[test]
fn decode_rejects_bad_magic() {
    let payload = b"{\"nonce\":7,\"reply\":false}";
    let frame = encode_frame(0, payload).unwrap();
    let mut bad = frame.clone();
    bad[0] = b'X';
    let mut factory = MessageFactory::new();
    let (ok, frames) = decode_all(&mut factory, &bad);
    assert!(!ok);
    assert!(frames.is_empty());
}

#[test]
fn decode_treats_trailing_bytes_as_next_frame() {
    let payload = b"{\"nonce\":1,\"reply\":true}";
    let mut bytes = encode_frame(0, payload).unwrap();
    bytes.extend_from_slice(b"RustCh");
    let mut factory = MessageFactory::new();
    let (ok, frames) = decode_all(&mut factory, &bytes);
    assert!(ok);
    assert_eq!(frames.len(), 1);
    // the tail stays buffered as the start of the next frame;
    // completing it yields the second frame
    let second = encode_frame(1, b"{\"user_name\":\"a\"}").unwrap();
    let mut more: Vec<Frame> = Vec::new();
    assert!(factory.push(&second[6..]));
    assert!(factory.decode(&mut more));
    assert_eq!(more.len(), 1);
    assert_eq!(more[0].number, 1);
}

#[test]
fn decode_is_chunking_independent() {
    let mut stream: Vec<u8> = Vec::new();
    stream.extend_from_slice(&encode_frame(0, b"{\"nonce\":7,\"reply\":false}").unwrap());
    stream.extend_from_slice(&encode_frame(1, b"{\"user_name\":\"ab\"}").unwrap());
    stream.extend_from_slice(&encode_frame(2, b"{\"message\":\"hello\"}").unwrap());

    // feed it whole
    let mut factory = MessageFactory::new();
    let (ok, whole) = decode_all(&mut factory, &stream);
    assert!(ok);
    assert_eq!(whole.len(), 3);

    // feed it in every prefix split
    for cut in 0..stream.len() {
        let mut factory = MessageFactory::new();
        let mut frames: Vec<Frame> = Vec::new();
        assert!(factory.push(&stream[..cut]));
        assert!(factory.decode(&mut frames));
        assert!(factory.push(&stream[cut..]));
        assert!(factory.decode(&mut frames));
        assert_eq!(frames.len(), 3);
        for (a, b) in frames.iter().zip(whole.iter()) {
            assert_eq!(a.number, b.number);
            assert_eq!(a.payload, b.payload);
        }
    }

    // byte by byte
    let mut factory = MessageFactory::new();
    let mut frames: Vec<Frame> = Vec::new();
    for b in stream.iter() {
        assert!(factory.push(&[*b]));
        assert!(factory.decode(&mut frames));
    }
    assert_eq!(frames.len(), 3);
}

#[test]
fn push_rejects_overflowing_chunk() {
    let mut factory = MessageFactory::new();
    let big = vec![0u8; 1041];
    assert!(!factory.push(&big));
    assert!(factory.push(&vec![0u8; 1040]));
}
