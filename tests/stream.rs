use simple_message_channels::{
    FrameDecoder, FrameError, Message, NoTransform, Phase, Session, Transform, MAX_MESSAGE_SIZE,
};

fn decode_plain(bytes: &[u8]) -> (Vec<Result<Message, FrameError>>, FrameDecoder) {
    let mut d = FrameDecoder::new();
    let mut out = Vec::new();
    let mut i = 0;
    while i < bytes.len() && !d.is_finished() {
        match d.phase() {
            Phase::Prefix => {
                match d.push_prefix_byte(bytes[i]) {
                    Err(e) => out.push(Err(e)),
                    Ok(_) => {}
                }
                i += 1;
            }
            Phase::Body(n) => {
                if i + n > bytes.len() {
                    break;
                }
                out.push(d.push_body(&bytes[i..i + n]));
                i += n;
            }
            Phase::Finished => break,
        }
    }
    (out, d)
}

fn decode_session<T: Transform>(session: &mut Session<T>, bytes: &[u8]) -> Vec<Result<Message, FrameError>> {
    let mut out = Vec::new();
    let mut i = 0;
    while i < bytes.len() && !session.is_finished() {
        match session.phase() {
            Phase::Prefix => {
                let mut one = [bytes[i]];
                if let Err(e) = session.read_prefix_byte(&mut one) {
                    out.push(Err(e));
                }
                i += 1;
            }
            Phase::Body(n) => {
                if i + n > bytes.len() {
                    break;
                }
                let mut body = bytes[i..i + n].to_vec();
                out.push(session.read_body(&mut body));
                i += n;
            }
            Phase::Finished => break,
        }
    }
    out
}

struct Xor {
    key: u8,
}

impl Transform for Xor {
    fn apply(&mut self, buf: &mut [u8]) {
        for b in buf.iter_mut() {
            *b ^= self.key;
        }
    }
}

fn fields(m: &Message) -> (u64, u8, Vec<u8>) {
    (m.channel, m.typ, m.message.clone())
}

#[test]
fn sequential_decode_two_frames() {
    let mut bytes = Message::new(1, 2, b"first".to_vec()).encode();
    bytes.extend(Message::new(300, 15, b"second".to_vec()).encode());
    let (out, d) = decode_plain(&bytes);
    assert_eq!(out.len(), 2);
    assert_eq!(fields(out[0].as_ref().unwrap()), (1, 2, b"first".to_vec()));
    assert_eq!(fields(out[1].as_ref().unwrap()), (300, 15, b"second".to_vec()));
    assert_eq!(d.phase(), Phase::Prefix);
}

#[test]
fn prefix_bytes_accumulate() {
    let mut d = FrameDecoder::new();
    assert_eq!(d.push_prefix_byte(0x81), Ok(None));
    assert_eq!(d.push_prefix_byte(0x01), Ok(Some(129)));
    assert_eq!(d.phase(), Phase::Body(129));
}

#[test]
fn oversized_rejection_stops_the_stream() {
    let mut bytes = vec![0xFF, 0xFF, 0xFF, 0x7F];
    bytes.extend(Message::new(1, 1, vec![1]).encode());
    let (out, d) = decode_plain(&bytes);
    assert_eq!(out.len(), 1);
    assert!(matches!(out[0], Err(FrameError::Oversized)));
    assert!(d.is_finished());
}

#[test]
fn oversized_is_caught_before_the_prefix_ends() {
    let mut d = FrameDecoder::new();
    assert_eq!(d.push_prefix_byte(0x80), Ok(None));
    assert_eq!(d.push_prefix_byte(0x80), Ok(None));
    assert_eq!(d.push_prefix_byte(0x80), Ok(None));
    assert_eq!(d.push_prefix_byte(0x85), Err(FrameError::Oversized));
    assert!(d.is_finished());
}

#[test]
fn largest_body_length_is_accepted() {
    let mut d = FrameDecoder::new();
    // 8 MiB = 0x80_0000: digits 0, 0, 0, 4.
    assert_eq!(d.push_prefix_byte(0x80), Ok(None));
    assert_eq!(d.push_prefix_byte(0x80), Ok(None));
    assert_eq!(d.push_prefix_byte(0x80), Ok(None));
    assert_eq!(d.push_prefix_byte(0x04), Ok(Some(MAX_MESSAGE_SIZE as usize)));
    let mut e = FrameDecoder::new();
    assert_eq!(e.push_prefix_byte(0x81), Ok(None));
    assert_eq!(e.push_prefix_byte(0x80), Ok(None));
    assert_eq!(e.push_prefix_byte(0x80), Ok(None));
    assert_eq!(e.push_prefix_byte(0x04), Err(FrameError::Oversized));
}

#[test]
fn prefix_length_is_bounded() {
    let mut d = FrameDecoder::new();
    assert_eq!(d.push_prefix_byte(0x80), Ok(None));
    assert_eq!(d.push_prefix_byte(0x80), Ok(None));
    assert_eq!(d.push_prefix_byte(0x80), Ok(None));
    assert_eq!(d.push_prefix_byte(0x80), Err(FrameError::Oversized));
    assert!(d.is_finished());
    let mut e = FrameDecoder::new();
    assert_eq!(e.push_prefix_byte(0x80), Ok(None));
    assert_eq!(e.push_prefix_byte(0x80), Ok(None));
    assert_eq!(e.push_prefix_byte(0x80), Ok(None));
    assert_eq!(e.push_prefix_byte(0x00), Ok(Some(0)));
    let mut bytes = vec![0x80; 20];
    bytes.extend(Message::new(1, 1, vec![1]).encode());
    let (out, d) = decode_plain(&bytes);
    assert_eq!(out.len(), 1);
    assert!(matches!(out[0], Err(FrameError::Oversized)));
    assert!(d.is_finished());
}

#[test]
fn empty_body_is_malformed_and_final() {
    let (out, d) = decode_plain(&[0x00, 0x01, 0x00]);
    assert_eq!(out.len(), 1);
    assert!(matches!(out[0], Err(FrameError::MalformedHeader)));
    assert!(d.is_finished());
}

#[test]
fn failed_source_ends_the_stream() {
    let mut d = FrameDecoder::new();
    d.fail();
    assert!(d.is_finished());
    assert_eq!(d.phase(), Phase::Finished);
}

#[test]
fn identity_transform_is_transparent() {
    let mut bytes = Message::new(7, 3, vec![1, 2, 3]).encode();
    bytes.extend(Message::new(9, 4, vec![]).encode());
    let (plain, _) = decode_plain(&bytes);
    let mut session = Session::new(NoTransform);
    let through = decode_session(&mut session, &bytes);
    assert_eq!(plain.len(), through.len());
    for (a, b) in plain.iter().zip(through.iter()) {
        assert_eq!(fields(a.as_ref().unwrap()), fields(b.as_ref().unwrap()));
    }
}

#[test]
fn transform_applies_before_parsing() {
    let key = 0x5A;
    let mut bytes = Message::new(42, 6, b"secret".to_vec()).encode();
    bytes.extend(Message::new(43, 7, vec![0xFF; 150]).encode());
    let wire: Vec<u8> = bytes.iter().map(|b| b ^ key).collect();
    let mut single = Session::new(Xor { key });
    let mut one = [wire[0]];
    assert_eq!(single.read_prefix_byte(&mut one), Ok(Some(bytes[0] as usize)));
    assert_eq!(one, [bytes[0]]);
    let mut session = Session::new(Xor { key });
    let out = decode_session(&mut session, &wire);
    assert_eq!(out.len(), 2);
    assert_eq!(fields(out[0].as_ref().unwrap()), (42, 6, b"secret".to_vec()));
    assert_eq!(fields(out[1].as_ref().unwrap()), (43, 7, vec![0xFF; 150]));
    // Without the transform the same bytes do not give the messages back.
    let (raw, _) = decode_plain(&wire);
    assert!(raw.is_empty() || raw[0].as_ref().map(fields).ok() != Some((42, 6, b"secret".to_vec())));
}

#[test]
fn handler_sees_plaintext_and_can_rekey() {
    let mut bytes = Message::new(1, 1, b"rekey".to_vec()).encode();
    let second: Vec<u8> = Message::new(2, 2, b"after".to_vec()).encode().iter().map(|b| b ^ 0x11).collect();
    bytes.extend(second);
    let mut session = Session::new(Xor { key: 0 });
    let mut seen = Vec::new();
    let mut i = 0;
    while i < bytes.len() && !session.is_finished() {
        match session.phase() {
            Phase::Prefix => {
                let mut one = [bytes[i]];
                session.read_prefix_byte(&mut one).unwrap();
                i += 1;
            }
            Phase::Body(n) => {
                let mut body = bytes[i..i + n].to_vec();
                let m = session.read_body(&mut body).unwrap();
                i += n;
                if m.message == b"rekey".to_vec() {
                    session.transform.key = 0x11;
                }
                seen.push(fields(&m));
            }
            Phase::Finished => break,
        }
    }
    assert_eq!(seen, vec![(1, 1, b"rekey".to_vec()), (2, 2, b"after".to_vec())]);
}
