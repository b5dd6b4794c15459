use simple_message_channels::varint::{decode_varint, encode_varint};
use simple_message_channels::{decode_message, encode_message, FrameError, Message};

fn strip_prefix(frame: &[u8]) -> &[u8] {
    let mut i = 0;
    while frame[i] >= 128 {
        i += 1;
    }
    &frame[i + 1..]
}

fn round_trip(channel: u64, typ: u8, payload: Vec<u8>) -> Message {
    let frame = Message::new(channel, typ, payload).encode();
    Message::from_buf(strip_prefix(&frame)).expect("a frame decodes")
}

#[test]
fn minimal_frame() {
    let m = Message::new(0, 0, vec![]);
    assert_eq!(m.encode(), vec![0x01, 0x00]);
}

#[test]
fn small_frame_bytes() {
    let m = Message::new(1, 2, vec![9]);
    assert_eq!(encode_message(&m), vec![0x02, 0x12, 0x09]);
}

#[test]
fn two_byte_header() {
    let m = Message::new(8, 0, vec![7, 7]);
    assert_eq!(m.encode(), vec![0x04, 0x80, 0x01, 0x07, 0x07]);
}

#[test]
fn two_byte_length_prefix() {
    let payload = vec![0xAB; 200];
    let frame = Message::new(3, 4, payload.clone()).encode();
    assert_eq!(frame.len(), 2 + 1 + 200);
    assert_eq!(&frame[..3], &[0xC9, 0x01, 0x34]);
    assert_eq!(&frame[3..], &payload[..]);
}

#[test]
fn round_trip_values() {
    let cases: Vec<(u64, u8, Vec<u8>)> = vec![
        (0, 0, vec![]),
        (1, 15, b"hello".to_vec()),
        (127, 7, vec![0, 255, 128]),
        ((1u64 << 60) - 1, 3, vec![1; 300]),
        (123456789, 9, vec![42; 20000]),
    ];
    for (channel, typ, payload) in cases {
        let m = round_trip(channel, typ, payload.clone());
        assert_eq!(m.channel, channel);
        assert_eq!(m.typ, typ);
        assert_eq!(m.message, payload);
    }
}

#[test]
fn type_truncation() {
    let m = round_trip(5, 17, vec![1, 2, 3]);
    assert_eq!(m.typ, 1);
    assert_eq!(m.channel, 5);
    assert_eq!(m.message, vec![1, 2, 3]);
}

#[test]
fn channel_keeps_low_sixty_bits() {
    let m = round_trip((1u64 << 60) + 6, 2, vec![]);
    assert_eq!(m.channel, 6);
    assert_eq!(m.typ, 2);
}

#[test]
fn decode_known_body() {
    let m = decode_message(&[0x80, 0x01, 0x05, 0x06]).unwrap();
    assert_eq!(m.channel, 8);
    assert_eq!(m.typ, 0);
    assert_eq!(m.message, vec![5, 6]);
}

#[test]
fn decode_empty_body_is_malformed() {
    assert!(matches!(decode_message(&[]), Err(FrameError::MalformedHeader)));
}

#[test]
fn decode_unterminated_header_is_malformed() {
    assert!(matches!(decode_message(&[0x80, 0x81]), Err(FrameError::MalformedHeader)));
}

#[test]
fn decode_overlong_header_with_zero_digits() {
    let mut body = vec![0x80; 10];
    body.push(0x00);
    body.push(0x44);
    let m = decode_message(&body).unwrap();
    assert_eq!(m.channel, 0);
    assert_eq!(m.typ, 0);
    assert_eq!(m.message, vec![0x44]);
    let mut top = vec![0x80; 9];
    top.extend([0x81, 0x80, 0x00]);
    let m = Message::from_buf(&top).unwrap();
    assert_eq!(m.channel, 1u64 << 59);
    assert_eq!(m.typ, 0);
    assert!(m.message.is_empty());
}

#[test]
fn decode_header_too_large_is_malformed() {
    let mut big = vec![0xFF; 9];
    big.push(0x02);
    assert!(matches!(Message::from_buf(&big), Err(FrameError::MalformedHeader)));
    let mut late = vec![0x80; 10];
    late.push(0x01);
    assert!(matches!(decode_message(&late), Err(FrameError::MalformedHeader)));
}

#[test]
fn decode_largest_header() {
    let mut body = vec![0xFF; 9];
    body.push(0x01);
    body.push(0x33);
    let m = decode_message(&body).unwrap();
    assert_eq!(m.channel, u64::MAX >> 4);
    assert_eq!(m.typ, 15);
    assert_eq!(m.message, vec![0x33]);
}

#[test]
fn varint_known_encodings() {
    assert_eq!(encode_varint(0), vec![0x00]);
    assert_eq!(encode_varint(127), vec![0x7F]);
    assert_eq!(encode_varint(128), vec![0x80, 0x01]);
    assert_eq!(encode_varint(300), vec![0xAC, 0x02]);
    let mut max = vec![0xFF; 9];
    max.push(0x01);
    assert_eq!(encode_varint(u64::MAX), max);
}

#[test]
fn varint_decode_reads_the_first_value() {
    assert_eq!(decode_varint(&[0xAC, 0x02, 0xFF]), Some((300, 2)));
    assert_eq!(decode_varint(&[0x05]), Some((5, 1)));
    let mut max = vec![0xFF; 9];
    max.push(0x01);
    assert_eq!(decode_varint(&max), Some((u64::MAX, 10)));
    assert_eq!(decode_varint(&[0x81, 0x80, 0x80, 0x00, 0x07]), Some((1, 4)));
}

#[test]
fn varint_decode_rejects_truncated_input() {
    assert_eq!(decode_varint(&[]), None);
    assert_eq!(decode_varint(&[0x80; 12]), None);
    assert_eq!(decode_varint(&[0x80]), None);
    assert_eq!(decode_varint(&[0xFF, 0xFF]), None);
}

#[test]
fn varint_round_trip() {
    for v in [0u64, 1, 127, 128, 16383, 16384, 1 << 35, u64::MAX - 1] {
        let e = encode_varint(v);
        assert_eq!(decode_varint(&e), Some((v, e.len())));
    }
}
