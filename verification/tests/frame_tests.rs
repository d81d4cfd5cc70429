use sharetty::frame::{
    decode_payload, decode_request_id, encode_frame, encode_message, length_of_header, FrameBuffer,
    FrameEvent, Message,
};

fn text_of(ev: FrameEvent) -> Option<String> {
    match ev {
        FrameEvent::Message(Message::Text(s)) => Some(s),
        _ => None,
    }
}

#[test]
fn text_frame_layout() {
    let f = encode_message(&Message::Text("hi".to_string())).unwrap();
    assert_eq!(f, vec![1, 0, 0, 0, 2, b'h', b'i']);
}

#[test]
fn binary_frame_layout() {
    let f = encode_frame(2, &[9, 8, 7]);
    assert_eq!(f, vec![2, 0, 0, 0, 3, 9, 8, 7]);
    let big = vec![0u8; 300];
    let f = encode_frame(2, &big);
    assert_eq!(&f[..5], &[2, 0, 0, 1, 44]);
    assert_eq!(f.len(), 305);
}

#[test]
fn control_messages_are_not_framed() {
    assert!(encode_message(&Message::Ping(vec![1])).is_none());
    assert!(encode_message(&Message::Close).is_none());
}

#[test]
fn header_length_is_big_endian() {
    assert_eq!(length_of_header(0, 0, 1, 2), 258);
    assert_eq!(length_of_header(1, 0, 0, 0), 16_777_216);
}

#[test]
fn payload_decoding() {
    match decode_payload(1, b"ok".to_vec()) {
        Some(Message::Text(s)) => assert_eq!(s, "ok"),
        _ => panic!("expected text"),
    }
    match decode_payload(2, vec![0xff]) {
        Some(Message::Binary(b)) => assert_eq!(b, vec![0xff]),
        _ => panic!("expected binary"),
    }
    assert!(decode_payload(1, vec![0xff, 0xfe]).is_none());
    assert!(decode_payload(3, vec![1]).is_none());
}

#[test]
fn request_id_needs_text_tag() {
    assert_eq!(decode_request_id(1, b"abc".to_vec()), Some("abc".to_string()));
    assert_eq!(decode_request_id(2, b"abc".to_vec()), None);
    assert_eq!(decode_request_id(1, vec![0xc3]), None);
}

#[test]
fn buffer_roundtrip_over_chunks() {
    let mut bytes = encode_message(&Message::Text("héllo".to_string())).unwrap();
    bytes.extend(encode_message(&Message::Binary(vec![1, 2, 3])).unwrap());
    let mut fb = FrameBuffer::new();
    // feed one byte at a time
    let mut events = Vec::new();
    for b in &bytes {
        fb.push(&[*b]);
        loop {
            match fb.next_event() {
                FrameEvent::NeedMore => break,
                ev => events.push(ev),
            }
        }
    }
    assert_eq!(events.len(), 2);
    let mut it = events.into_iter();
    assert_eq!(text_of(it.next().unwrap()), Some("héllo".to_string()));
    match it.next().unwrap() {
        FrameEvent::Message(Message::Binary(b)) => assert_eq!(b, vec![1, 2, 3]),
        _ => panic!("expected binary"),
    }
    assert!(fb.is_empty());
}

#[test]
fn buffer_skips_unknown_tags_and_reports_bad_text() {
    let mut fb = FrameBuffer::new();
    fb.push(&[9, 0, 0, 0, 1, 0]);
    fb.push(&[1, 0, 0, 0, 1, 0xff]);
    fb.push(&encode_frame(1, b"x"));
    assert!(matches!(fb.next_event(), FrameEvent::BadText));
    assert_eq!(text_of(fb.next_event()), Some("x".to_string()));
    assert!(matches!(fb.next_event(), FrameEvent::NeedMore));
}

#[test]
fn partial_frame_needs_more() {
    let f = encode_frame(2, &[1, 2, 3, 4]);
    let mut fb = FrameBuffer::new();
    fb.push(&f[..6]);
    assert!(matches!(fb.next_event(), FrameEvent::NeedMore));
    assert_eq!(fb.len(), 6);
    fb.push(&f[6..]);
    assert!(matches!(fb.next_event(), FrameEvent::Message(Message::Binary(_))));
}

#[test]
fn frames_in_odd_chunks_come_back_in_order() {
    let mut stream = encode_message(&Message::Text("first".to_string())).unwrap();
    stream.extend(encode_message(&Message::Binary(vec![1, 2, 3])).unwrap());
    stream.extend(encode_message(&Message::Text("third".to_string())).unwrap());
    let mut buf = FrameBuffer::new();
    let mut got: Vec<String> = Vec::new();
    for chunk in stream.chunks(3) {
        buf.push(chunk);
        loop {
            match buf.next_event() {
                FrameEvent::NeedMore => break,
                FrameEvent::Message(Message::Text(s)) => got.push(s),
                FrameEvent::Message(Message::Binary(b)) => got.push(format!("{:?}", b)),
                _ => got.push("other".to_string()),
            }
        }
    }
    assert_eq!(got, vec!["first".to_string(), "[1, 2, 3]".to_string(), "third".to_string()]);
    assert!(buf.is_empty());
}
