//! What a decoding session yields over a whole byte stream, and the laws of
//! that sequence.
use vstd::prelude::*;
use crate::decoder::{
    after_byte, initial_state, lemma_max_prefix_len, prefix_result, Phase, MAX_MESSAGE_SIZE,
    MAX_PREFIX_LEN,
};
use crate::message::{
    body_of, channel_of_body, frame_of, lemma_frame_decodes, payload_of_body, typ_of_body,
    decode_result, FrameError, Message, CHANNEL_LIMIT,
};
use crate::varint::{
    lemma_encode_decode, lemma_first_stop_props, lemma_value_take_le, starts_with_varint,
    varint_encode, varint_value,
};

verus! {

/// A decoded message as channel, type and payload, or the error that ended
/// the stream.
pub type Outcome = Result<(nat, nat, Seq<u8>), FrameError>;

/// What decoding one prefix-stripped body gives.
pub open spec fn body_outcome(body: Seq<u8>) -> Outcome {
    if starts_with_varint(body) {
        Ok((channel_of_body(body), typ_of_body(body), payload_of_body(body)))
    } else {
        Err(FrameError::MalformedHeader)
    }
}

/// The items that a decoder in `state` yields when `bytes` arrive, with the
/// decisions of `FrameDecoder`: prefix bytes one by one, then the whole body;
/// an error is the last item. Bytes that do not complete a read yield
/// nothing.
pub open spec fn run(state: (Phase, Seq<u8>), bytes: Seq<u8>) -> Seq<Outcome>
    decreases bytes.len(),
{
    match state.0 {
        Phase::Finished => Seq::empty(),
        Phase::Prefix => {
            if bytes.len() == 0 {
                Seq::empty()
            } else {
                match prefix_result(state.1, bytes[0]) {
                    Err(e) => seq![Err(e)],
                    Ok(_) => run(after_byte(state.1, bytes[0]), bytes.drop_first()),
                }
            }
        },
        Phase::Body(n) => {
            if bytes.len() < n {
                Seq::empty()
            } else if n == 0 {
                seq![Err(FrameError::MalformedHeader)]
            } else {
                match body_outcome(bytes.take(n as int)) {
                    Ok(m) => seq![Ok(m)] + run(initial_state(), bytes.skip(n as int)),
                    Err(e) => seq![Err(e)],
                }
            }
        },
    }
}

/// The item for a result of `decode_message` or `FrameDecoder::push_body`.
pub open spec fn outcome_of(r: Result<Message, FrameError>) -> Outcome {
    match r {
        Ok(m) => Ok((m.channel as nat, m.typ as nat, m.message@)),
        Err(e) => Err(e),
    }
}

/// Each body step of `run` is what `FrameDecoder::push_body` returns: any
/// result that meets its contract is the item that `run` yields.
pub proof fn lemma_body_step(body: Seq<u8>, r: Result<Message, FrameError>)
    requires
        decode_result(body, r),
    ensures
        outcome_of(r) == body_outcome(body),
{
}

/// The item for a message encoded from `channel`, `typ` and `payload`: the
/// low sixty bits of the channel and the low four bits of the type.
pub open spec fn message_outcome(channel: u64, typ: u8, payload: Seq<u8>) -> Outcome {
    Ok(((channel % CHANNEL_LIMIT) as nat, (typ % 16) as nat, payload))
}

/// Feeding the rest of the encoding of `len` to a decoder that has read its
/// first `k` bytes leaves it waiting for a body of `len` bytes.
proof fn lemma_feed_prefix(len: nat, k: nat, tail: Seq<u8>)
    requires
        len <= MAX_MESSAGE_SIZE,
        k < varint_encode(len).len(),
    ensures
        run(
            (Phase::Prefix, varint_encode(len).take(k as int)),
            varint_encode(len).skip(k as int) + tail,
        ) == run((Phase::Body(len as usize), Seq::empty()), tail),
    decreases varint_encode(len).len() - k,
{
    let e = varint_encode(len);
    let bytes = e.skip(k as int) + tail;
    let q = e.take(k as int);
    let b = e[k as int];
    assert(bytes[0] == b);
    assert(q.push(b) =~= e.take((k + 1) as int));
    lemma_value_take_le(e, k + 1);
    lemma_encode_decode(len, Seq::empty());
    assert(e + Seq::<u8>::empty() =~= e);
    lemma_first_stop_props(e);
    lemma_max_prefix_len(len);
    if k + 1 == e.len() {
        assert(e.take((k + 1) as int) =~= e);
        assert(bytes.drop_first() =~= tail);
    } else {
        assert(b >= 128);
        assert(bytes.drop_first() =~= e.skip((k + 1) as int) + tail);
        lemma_feed_prefix(len, k + 1, tail);
    }
}

/// A whole frame, followed by anything, yields its message first and then
/// what the rest yields on its own.
pub proof fn lemma_run_frame(channel: u64, typ: u8, payload: Seq<u8>, rest: Seq<u8>)
    requires
        body_of(channel, typ, payload).len() <= MAX_MESSAGE_SIZE,
    ensures
        run(initial_state(), frame_of(channel, typ, payload) + rest) == seq![message_outcome(channel, typ, payload)] + run(initial_state(), rest),
{
    let body = body_of(channel, typ, payload);
    let len = body.len();
    lemma_frame_decodes(channel, typ, payload);
    lemma_feed_prefix(len, 0, body + rest);
    assert(varint_encode(len).take(0) =~= Seq::<u8>::empty());
    assert(varint_encode(len).skip(0) =~= varint_encode(len));
    assert(frame_of(channel, typ, payload) + rest =~= varint_encode(len) + (body + rest));
    assert((body + rest).take(len as int) =~= body);
    assert((body + rest).skip(len as int) =~= rest);
}

/// Two frames in a row yield exactly their two messages, in the order they
/// were encoded, for bodies within the size limit.
pub proof fn lemma_sequential_decode(
    channel1: u64,
    typ1: u8,
    payload1: Seq<u8>,
    channel2: u64,
    typ2: u8,
    payload2: Seq<u8>,
)
    requires
        body_of(channel1, typ1, payload1).len() <= MAX_MESSAGE_SIZE,
        body_of(channel2, typ2, payload2).len() <= MAX_MESSAGE_SIZE,
    ensures
        run(
            initial_state(),
            frame_of(channel1, typ1, payload1) + frame_of(channel2, typ2, payload2),
        ) == seq![
            message_outcome(channel1, typ1, payload1),
            message_outcome(channel2, typ2, payload2),
        ],
{
    let f2 = frame_of(channel2, typ2, payload2);
    lemma_run_frame(channel1, typ1, payload1, f2);
    lemma_run_frame(channel2, typ2, payload2, Seq::empty());
    assert(f2 + Seq::<u8>::empty() =~= f2);
    let o1 = message_outcome(channel1, typ1, payload1);
    let o2 = message_outcome(channel2, typ2, payload2);
    assert(run(initial_state(), Seq::<u8>::empty()) == Seq::<Outcome>::empty());
    assert(seq![o1] + (seq![o2] + Seq::<Outcome>::empty()) =~= seq![o1, o2]);
}

/// From prefix bytes `q` on: length-prefix bytes `p` whose value grows past
/// the limit yield the oversized error and nothing after it.
proof fn lemma_oversized_from(q: Seq<u8>, p: Seq<u8>, rest: Seq<u8>)
    requires
        p.len() >= 1,
        forall|i: int| 0 <= i < p.len() - 1 ==> p[i] >= 128,
        varint_value(q + p) > MAX_MESSAGE_SIZE,
    ensures
        run((Phase::Prefix, q), p + rest) == seq![Err::<(nat, nat, Seq<u8>), FrameError>(FrameError::Oversized)],
    decreases p.len(),
{
    let b = p[0];
    assert((p + rest)[0] == b);
    if varint_value(q.push(b)) <= MAX_MESSAGE_SIZE {
        if p.len() == 1 {
            assert(q.push(b) =~= q + p);
        }
        assert(p.len() > 1);
        assert(b >= 128);
        assert(q.push(b) + p.drop_first() =~= q + p);
        assert((p + rest).drop_first() =~= p.drop_first() + rest);
        lemma_oversized_from(q.push(b), p.drop_first(), rest);
    }
}

/// A length prefix whose value grows past `MAX_MESSAGE_SIZE` before it ends
/// makes the decoder fail with `Oversized`, and nothing follows, whatever
/// frames come after it.
pub proof fn lemma_oversized_rejection(p: Seq<u8>, rest: Seq<u8>)
    requires
        p.len() >= 1,
        forall|i: int| 0 <= i < p.len() - 1 ==> p[i] >= 128,
        varint_value(p) > MAX_MESSAGE_SIZE,
    ensures
        run(initial_state(), p + rest) == seq![Err::<(nat, nat, Seq<u8>), FrameError>(FrameError::Oversized)],
        forall|s: Seq<u8>, more: Seq<u8>| run((Phase::Finished, s), more).len() == 0,
{
    assert(Seq::<u8>::empty() + p =~= p);
    lemma_oversized_from(Seq::empty(), p, rest);
}

/// From prefix bytes `q` on: continuation bytes `p` that take the prefix to
/// `MAX_PREFIX_LEN` bytes yield the oversized error and nothing after it.
proof fn lemma_long_prefix_from(q: Seq<u8>, p: Seq<u8>, rest: Seq<u8>)
    requires
        p.len() >= 1,
        forall|i: int| 0 <= i < p.len() ==> p[i] >= 128,
        q.len() + p.len() >= MAX_PREFIX_LEN,
    ensures
        run((Phase::Prefix, q), p + rest) == seq![Err::<(nat, nat, Seq<u8>), FrameError>(FrameError::Oversized)],
    decreases p.len(),
{
    let b = p[0];
    assert((p + rest)[0] == b);
    if prefix_result(q, b) is Ok {
        assert(p.len() > 1);
        assert(p.drop_first().len() >= 1);
        assert forall|i: int| 0 <= i < p.drop_first().len() implies p.drop_first()[i] >= 128 by {
            assert(p.drop_first()[i] == p[i + 1]);
        }
        assert((p + rest).drop_first() =~= p.drop_first() + rest);
        lemma_long_prefix_from(q.push(b), p.drop_first(), rest);
    }
}

/// The decoder reads at most `MAX_PREFIX_LEN` bytes before it knows a body's
/// length: a length prefix that has not ended after that many bytes makes it
/// fail with `Oversized`, and nothing follows.
pub proof fn lemma_prefix_length_bound(p: Seq<u8>, rest: Seq<u8>)
    requires
        p.len() == MAX_PREFIX_LEN,
        forall|i: int| 0 <= i < p.len() ==> p[i] >= 128,
    ensures
        run(initial_state(), p + rest) == seq![Err::<(nat, nat, Seq<u8>), FrameError>(FrameError::Oversized)],
{
    lemma_long_prefix_from(Seq::empty(), p, rest);
}

} // verus!
