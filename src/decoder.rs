//! The decisions of the streaming decoder, one event at a time.
//!
//! A driver reads from the byte source: one byte at a time while the length
//! prefix is incomplete, then the whole body at once. It hands each read to a
//! `FrameDecoder`, which says what to read next, yields the decoded message,
//! or fails for good.
use vstd::prelude::*;
use crate::message::{decode_message, decode_result, FrameError, Message};
use crate::varint::{
    digit, lemma_encode_len_bound, lemma_value_push, pow128, varint_encode, varint_value,
};

verus! {

/// The largest body length that a length prefix may announce.
pub const MAX_MESSAGE_SIZE: u64 = 8 * 1024 * 1024;

/// The number of bytes of the varint of `MAX_MESSAGE_SIZE`. A length prefix
/// that has not ended after this many bytes is refused, so the decoder reads
/// at most this many bytes before it knows a body's length.
pub const MAX_PREFIX_LEN: usize = 4;

/// `MAX_PREFIX_LEN` is the length of the varint of `MAX_MESSAGE_SIZE`, and
/// no accepted body length takes more bytes.
pub proof fn lemma_max_prefix_len(len: nat)
    requires
        len <= MAX_MESSAGE_SIZE,
    ensures
        varint_encode(MAX_MESSAGE_SIZE as nat).len() == MAX_PREFIX_LEN,
        varint_encode(len).len() <= MAX_PREFIX_LEN,
{
    reveal_with_fuel(varint_encode, 5);
    reveal_with_fuel(pow128, 5);
    assert(varint_encode(MAX_MESSAGE_SIZE as nat).len() == 4);
    assert(pow128(4) == 0x1000_0000);
    lemma_encode_len_bound(len, 4);
}

/// What a decoder expects next.
#[derive(Debug, Clone, Copy, PartialEq, Eq, Structural)]
pub enum Phase {
    /// The next byte of a length prefix.
    Prefix,
    /// A body of this many bytes.
    Body(usize),
    /// Nothing: an error ended the stream.
    Finished,
}

/// A length prefix that has not ended yet and is still within bounds: every
/// byte so far has its top bit set, and its value is at most the limit.
pub open spec fn open_prefix(p: Seq<u8>) -> bool {
    &&& forall|i: int| 0 <= i < p.len() ==> p[i] >= 128
    &&& varint_value(p) <= MAX_MESSAGE_SIZE
    &&& p.len() < MAX_PREFIX_LEN
}

/// What a prefix byte `b` after the bytes `prefix` gives: `Err(Oversized)`
/// where the value grows past the limit, or where the prefix goes on past
/// `MAX_PREFIX_LEN` bytes; the body length where `b` ends the prefix; else
/// `Ok(None)`.
pub open spec fn prefix_result(prefix: Seq<u8>, b: u8) -> Result<Option<usize>, FrameError> {
    let v = varint_value(prefix.push(b));
    if v > MAX_MESSAGE_SIZE || (b >= 128 && prefix.len() + 1 >= MAX_PREFIX_LEN) {
        Err(FrameError::Oversized)
    } else if b < 128 {
        Ok(Some(v as usize))
    } else {
        Ok(None)
    }
}

/// The state after the prefix byte `b`.
pub open spec fn after_byte(prefix: Seq<u8>, b: u8) -> (Phase, Seq<u8>) {
    match prefix_result(prefix, b) {
        Err(_) => (Phase::Finished, Seq::empty()),
        Ok(Some(n)) => (Phase::Body(n), Seq::empty()),
        Ok(None) => (Phase::Prefix, prefix.push(b)),
    }
}

/// The state after a body has been decoded with result `r`.
pub open spec fn after_body(r: Result<Message, FrameError>) -> (Phase, Seq<u8>) {
    if r is Ok {
        (Phase::Prefix, Seq::empty())
    } else {
        (Phase::Finished, Seq::empty())
    }
}

/// The state of a fresh decoder.
pub open spec fn initial_state() -> (Phase, Seq<u8>) {
    (Phase::Prefix, Seq::empty())
}

/// The decisions of one decoding session. Its view is the phase and the
/// prefix bytes read so far in that phase.
pub struct FrameDecoder {
    phase: Phase,
    value: u64,
    factor: u64,
    count: usize,
    prefix: Ghost<Seq<u8>>,
}

impl View for FrameDecoder {
    type V = (Phase, Seq<u8>);

    closed spec fn view(&self) -> (Phase, Seq<u8>) {
        (self.phase, self.prefix@)
    }
}

impl FrameDecoder {
    /// The decoder's invariant: the prefix is open and its value and place
    /// value are kept, the place value capped just past the limit.
    pub closed spec fn wf(&self) -> bool {
        &&& self.phase is Prefix ==> open_prefix(self.prefix@)
        &&& self.phase is Prefix ==> self.value == varint_value(self.prefix@)
        &&& self.phase is Prefix ==> self.count == self.prefix@.len()
        &&& self.phase is Prefix ==> self.factor == if pow128(self.prefix@.len())
            <= MAX_MESSAGE_SIZE {
            pow128(self.prefix@.len()) as int
        } else {
            MAX_MESSAGE_SIZE + 1
        }
        &&& !(self.phase is Prefix) ==> self.prefix@.len() == 0
        &&& self.phase matches Phase::Body(n) ==> n <= MAX_MESSAGE_SIZE
    }

    /// A decoder waiting for the first byte of a length prefix.
    pub fn new() -> (r: FrameDecoder)
        ensures
            r.wf(),
            r@ == initial_state(),
    {
        FrameDecoder { phase: Phase::Prefix, value: 0, factor: 1, count: 0, prefix: Ghost(Seq::empty()) }
    }

    /// What the decoder expects next.
    pub fn phase(&self) -> (r: Phase)
        ensures
            r == self@.0,
    {
        self.phase
    }

    /// Whether an error has ended the stream.
    pub fn is_finished(&self) -> (r: bool)
        ensures
            r == (self@.0 is Finished),
    {
        self.phase == Phase::Finished
    }

    /// Takes the next byte of the length prefix, already transformed. Fails
    /// with `Oversized`, for good, as soon as the value grows past
    /// `MAX_MESSAGE_SIZE`; gives the body length when the byte ends the prefix.
    pub fn push_prefix_byte(&mut self, b: u8) -> (r: Result<Option<usize>, FrameError>)
        requires
            old(self).wf(),
            old(self)@.0 is Prefix,
        ensures
            final(self).wf(),
            r == prefix_result(old(self)@.1, b),
            final(self)@ == after_byte(old(self)@.1, b),
            final(self)@.1.len() < MAX_PREFIX_LEN,
    {
        let ghost p = self.prefix@;
        let d: u64 = (b % 128) as u64;
        proof {
            assert(d * self.factor <= 127 * (MAX_MESSAGE_SIZE + 1)) by (nonlinear_arith)
                requires
                    d <= 127,
                    self.factor <= MAX_MESSAGE_SIZE + 1,
            ;
        }
        let v: u64 = self.value + d * self.factor;
        proof {
            lemma_value_push(p, b);
            assert(digit(b) == d);
            if d == 0 {
                assert(d * self.factor == 0 && d * pow128(p.len()) == 0) by (nonlinear_arith)
                    requires
                        d == 0,
                ;
            } else {
                assert(d * pow128(p.len()) >= pow128(p.len())) by (nonlinear_arith)
                    requires
                        d >= 1,
                ;
                assert(d * self.factor >= self.factor) by (nonlinear_arith)
                    requires
                        d >= 1,
                ;
            }
            if pow128(p.len()) <= MAX_MESSAGE_SIZE {
                assert(v == varint_value(p.push(b)));
            } else if v <= MAX_MESSAGE_SIZE {
                assert(d == 0);
                assert(v == varint_value(p.push(b)));
            } else {
                assert(varint_value(p.push(b)) > MAX_MESSAGE_SIZE);
            }
        }
        if v > MAX_MESSAGE_SIZE {
            self.phase = Phase::Finished;
            self.prefix = Ghost(Seq::empty());
            return Err(FrameError::Oversized);
        }
        if b < 128 {
            self.phase = Phase::Body(v as usize);
            self.prefix = Ghost(Seq::empty());
            return Ok(Some(v as usize));
        }
        proof {
            assert(pow128(p.len() + 1) == 128 * pow128(p.len()));
        }
        if self.count + 1 >= MAX_PREFIX_LEN {
            self.phase = Phase::Finished;
            self.prefix = Ghost(Seq::empty());
            return Err(FrameError::Oversized);
        }
        self.value = v;
        self.count = self.count + 1;
        if self.factor > MAX_MESSAGE_SIZE / 128 {
            self.factor = MAX_MESSAGE_SIZE + 1;
        } else {
            self.factor = self.factor * 128;
        }
        self.prefix = Ghost(p.push(b));
        proof {
            let q = p.push(b);
            assert forall|i: int| 0 <= i < q.len() implies q[i] >= 128 by {
                if i < p.len() {
                    assert(q[i] == p[i]);
                }
            }
        }
        Ok(None)
    }

    /// Takes the whole body, already transformed, and decodes the message in
    /// it. A malformed header ends the stream for good; a message makes the
    /// decoder wait for the next length prefix.
    pub fn push_body(&mut self, body: &[u8]) -> (r: Result<Message, FrameError>)
        requires
            old(self).wf(),
            old(self)@.0 == Phase::Body(body@.len() as usize),
        ensures
            final(self).wf(),
            decode_result(body@, r),
            final(self)@ == after_body(r),
    {
        let r = decode_message(body);
        match r {
            Ok(_) => {
                self.phase = Phase::Prefix;
                self.value = 0;
                self.count = 0;
                self.factor = 1;
            },
            Err(_) => {
                self.phase = Phase::Finished;
            },
        }
        self.prefix = Ghost(Seq::empty());
        proof {
            assert(pow128(0) == 1);
        }
        r
    }

    /// Records that the byte source failed or ended: no item follows.
    pub fn fail(&mut self)
        requires
            old(self).wf(),
        ensures
            final(self).wf(),
            final(self)@ == (Phase::Finished, Seq::<u8>::empty()),
    {
        self.phase = Phase::Finished;
        self.prefix = Ghost(Seq::empty());
    }
}

} // verus!
