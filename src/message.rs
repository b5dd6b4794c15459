//! Messages and their frames.
use vstd::prelude::*;
use crate::varint::{
    decode_varint, encode_into, encoded_length, lemma_encode_decode, lemma_encode_u64,
    starts_with_varint, varint_at, varint_encode, varint_len,
};

verus! {

/// Channels are packed into the header shifted left by four bits, so only
/// their low sixty bits fit; higher bits are dropped.
pub const CHANNEL_LIMIT: u64 = 0x1000_0000_0000_0000;

/// A labelled payload: the channel it belongs to, its type, and its bytes.
#[derive(Debug, Clone)]
pub struct Message {
    pub channel: u64,
    pub typ: u8,
    pub message: Vec<u8>,
}

/// Why a frame could not be read.
#[derive(Debug, Clone, Copy, PartialEq, Eq, Structural)]
pub enum FrameError {
    /// The body does not start with a complete header varint that fits in
    /// 64 bits.
    MalformedHeader,
    /// The length prefix grew past the largest body that is accepted, or
    /// went on for more bytes than such a length takes.
    Oversized,
}

/// The header of a message: `(channel << 4) | (typ & 0xF)` on 64 bits.
pub open spec fn header_of(channel: u64, typ: u8) -> nat {
    (channel % CHANNEL_LIMIT) as nat * 16 + (typ % 16) as nat
}

/// A frame without its length prefix: the header varint, then the payload.
pub open spec fn body_of(channel: u64, typ: u8, payload: Seq<u8>) -> Seq<u8> {
    varint_encode(header_of(channel, typ)) + payload
}

/// A whole frame: the length of the body as a varint, then the body.
pub open spec fn frame_of(channel: u64, typ: u8, payload: Seq<u8>) -> Seq<u8> {
    varint_encode(body_of(channel, typ, payload).len()) + body_of(channel, typ, payload)
}

/// The channel that a prefix-stripped body carries.
pub open spec fn channel_of_body(body: Seq<u8>) -> nat {
    varint_at(body) / 16
}

/// The type that a prefix-stripped body carries.
pub open spec fn typ_of_body(body: Seq<u8>) -> nat {
    varint_at(body) % 16
}

/// The payload that a prefix-stripped body carries: what follows the header.
pub open spec fn payload_of_body(body: Seq<u8>) -> Seq<u8> {
    body.skip(varint_len(body) as int)
}

/// `m` is the message that `body` carries.
pub open spec fn decodes_to(body: Seq<u8>, m: Message) -> bool {
    &&& m.channel as nat == channel_of_body(body)
    &&& m.typ as nat == typ_of_body(body)
    &&& m.message@ == payload_of_body(body)
}

/// What decoding `body` gives: a message where the header is well formed,
/// else `MalformedHeader`.
pub open spec fn decode_result(body: Seq<u8>, r: Result<Message, FrameError>) -> bool {
    match r {
        Ok(m) => starts_with_varint(body) && decodes_to(body, m),
        Err(e) => !starts_with_varint(body) && e == FrameError::MalformedHeader,
    }
}

impl Message {
    /// A message on `channel` of type `typ` carrying `message`.
    pub fn new(channel: u64, typ: u8, message: Vec<u8>) -> (r: Message)
        ensures
            r.channel == channel,
            r.typ == typ,
            r.message@ == message@,
    {
        Message { channel, typ, message }
    }

    /// Decodes a message from a frame whose length prefix has been removed.
    pub fn from_buf(buf: &[u8]) -> (r: Result<Message, FrameError>)
        ensures
            decode_result(buf@, r),
    {
        decode_message(buf)
    }

    /// The frame of this message, length prefix included. The payload must
    /// leave room in a `usize` for the twenty bytes that the two varints may
    /// take.
    pub fn encode(&self) -> (r: Vec<u8>)
        requires
            self.message@.len() + 20 <= usize::MAX,
        ensures
            r@ == frame_of(self.channel, self.typ, self.message@),
    {
        encode_message(self)
    }
}

/// Decodes a message from `buf`, a frame whose length prefix has been
/// removed: the header varint gives the channel (`header >> 4`) and the type
/// (`header & 0xF`); the rest is the payload.
pub fn decode_message(buf: &[u8]) -> (r: Result<Message, FrameError>)
    ensures
        decode_result(buf@, r),
{
    let (header, header_len) = match decode_varint(buf) {
        Some(h) => h,
        None => return Err(FrameError::MalformedHeader),
    };
    let payload = vstd::slice::slice_to_vec(vstd::slice::slice_subrange(buf, header_len, buf.len()));
    let message = Message { channel: header / 16, typ: (header % 16) as u8, message: payload };
    proof {
        assert(payload@ =~= buf@.skip(header_len as int));
    }
    Ok(message)
}

/// Encodes `msg` into its frame: the body length, the header, the payload.
pub fn encode_message(msg: &Message) -> (r: Vec<u8>)
    requires
        msg.message@.len() + 20 <= usize::MAX,
    ensures
        r@ == frame_of(msg.channel, msg.typ, msg.message@),
{
    let header: u64 = (msg.channel % CHANNEL_LIMIT) * 16 + (msg.typ % 16) as u64;
    let len_header = encoded_length(header);
    proof {
        lemma_encode_u64(header, Seq::empty());
    }
    let len_body = msg.message.len() + len_header;
    let len_prefix = encoded_length(len_body as u64);
    proof {
        lemma_encode_u64(len_body as u64, Seq::empty());
    }
    let total = len_prefix + len_body;
    let mut buf: Vec<u8> = vec![0u8; total];
    encode_into(len_body as u64, &mut buf, 0);
    let ghost prefixed = buf@;
    let end = len_prefix + len_header;
    encode_into(header, &mut buf, len_prefix);
    let ghost filled = buf@;
    let mut i: usize = 0;
    while i < msg.message.len()
        invariant
            i <= msg.message@.len(),
            end + msg.message@.len() == total,
            buf@.len() == total,
            buf@.subrange(0, end as int) == filled.subrange(0, end as int),
            forall|j: int| 0 <= j < i ==> buf@[end + j] == msg.message@[j],
        decreases msg.message@.len() - i,
    {
        buf[end + i] = msg.message[i];
        proof {
            assert(buf@.subrange(0, end as int) =~= filled.subrange(0, end as int));
        }
        i = i + 1;
    }
    proof {
        let hv = varint_encode(header as nat);
        let lv = varint_encode(len_body as nat);
        assert(header as nat == header_of(msg.channel, msg.typ));
        let whole = lv + (hv + msg.message@);
        assert forall|j: int| 0 <= j < total implies buf@[j] == whole[j] by {
            if j < len_prefix {
                assert(buf@.subrange(0, end as int)[j] == filled.subrange(0, end as int)[j]);
                assert(filled[j] == prefixed[j]);
                assert(prefixed.subrange(0, len_prefix as int)[j] == lv[j]);
            } else if j < end {
                assert(buf@.subrange(0, end as int)[j] == filled.subrange(0, end as int)[j]);
                assert(filled.subrange(len_prefix as int, end as int)[j - len_prefix] == hv[j
                    - len_prefix]);
            } else {
                assert(buf@[end + (j - end)] == msg.message@[j - end]);
            }
        }
        assert(buf@ =~= whole);
    }
    buf
}

/// Stripping the length prefix from the frame of a message leaves its body,
/// and decoding that body gives the channel's low sixty bits, the type's low
/// four bits and the payload.
pub proof fn lemma_frame_decodes(channel: u64, typ: u8, payload: Seq<u8>)
    ensures
        body_of(channel, typ, payload).len() < 0x1_0000_0000_0000_0000 ==> starts_with_varint(
            frame_of(channel, typ, payload),
        ) && varint_at(frame_of(channel, typ, payload)) == body_of(channel, typ, payload).len(),
        frame_of(channel, typ, payload).skip(varint_len(frame_of(channel, typ, payload)) as int)
            == body_of(channel, typ, payload),
        starts_with_varint(body_of(channel, typ, payload)),
        channel_of_body(body_of(channel, typ, payload)) == channel % CHANNEL_LIMIT,
        typ_of_body(body_of(channel, typ, payload)) == typ % 16,
        payload_of_body(body_of(channel, typ, payload)) == payload,
        forall|r: Result<Message, FrameError>|
            decode_result(body_of(channel, typ, payload), r) ==> r is Ok,
{
    let h = header_of(channel, typ);
    let c = (channel % CHANNEL_LIMIT) as nat;
    let t = (typ % 16) as nat;
    assert(h < 0x1_0000_0000_0000_0000) by (nonlinear_arith)
        requires
            h == c * 16 + t,
            c < 0x1000_0000_0000_0000,
            t < 16,
    ;
    lemma_encode_u64(h as u64, payload);
    lemma_encode_decode(h, payload);
    let body = body_of(channel, typ, payload);
    if body.len() < 0x1_0000_0000_0000_0000 {
        lemma_encode_u64(body.len() as u64, body);
    }
    lemma_encode_decode(body.len(), body);
    let frame = frame_of(channel, typ, payload);
    assert(frame.skip(varint_len(frame) as int) =~= body);
    assert(body.skip(varint_len(body) as int) =~= payload);
    assert(h / 16 == c && h % 16 == t) by (nonlinear_arith)
        requires
            h == c * 16 + t,
            t < 16,
    ;
}

/// Round trip: for a channel below `2^60` and a type below 16, decoding the
/// frame of a message with its length prefix stripped gives the message
/// back.
pub proof fn lemma_round_trip(channel: u64, typ: u8, payload: Seq<u8>)
    requires
        channel < CHANNEL_LIMIT,
        typ < 16,
    ensures
        forall|r: Result<Message, FrameError>|
            decode_result(
                frame_of(channel, typ, payload).skip(
                    varint_len(frame_of(channel, typ, payload)) as int,
                ),
                r,
            ) ==> (r matches Ok(m) && m.channel == channel && m.typ == typ && m.message@
                == payload),
{
    lemma_frame_decodes(channel, typ, payload);
}

/// Types of sixteen and more are cut to their low four bits: the frame of a
/// message is the frame of the same message with type `typ & 0xF`, and it
/// decodes to that type, with the channel kept; this is no error.
pub proof fn lemma_type_truncation(channel: u64, typ: u8, payload: Seq<u8>)
    requires
        channel < CHANNEL_LIMIT,
    ensures
        frame_of(channel, typ, payload) == frame_of(channel, typ % 16, payload),
        forall|r: Result<Message, FrameError>|
            decode_result(body_of(channel, typ, payload), r) ==> (r matches Ok(m) && m.typ
                == typ % 16 && m.channel == channel && m.message@ == payload),
{
    assert(header_of(channel, typ) == header_of(channel, typ % 16));
    lemma_frame_decodes(channel, typ, payload);
}

} // verus!
