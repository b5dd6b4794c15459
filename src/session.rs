//! One decoding session: a decoder and the transform that its bytes pass
//! through first.
use vstd::prelude::*;
use crate::decoder::{after_body, after_byte, initial_state, prefix_result, FrameDecoder, Phase};
use crate::message::{decode_result, FrameError, Message};
use crate::transform::Transform;

verus! {

/// A decoding session over transformed bytes. The driver reads raw bytes
/// from the source and hands them here; each read is transformed before the
/// decoder looks at it.
pub struct Session<T: Transform> {
    decoder: FrameDecoder,
    /// The transform; a handler of decoded messages may change it between
    /// messages.
    pub transform: T,
}

impl<T: Transform> Session<T> {
    /// The state of the decoder inside.
    pub closed spec fn state(&self) -> (Phase, Seq<u8>) {
        self.decoder@
    }

    /// The transform inside.
    pub closed spec fn transform_of(&self) -> T {
        self.transform
    }

    /// The session's invariant.
    pub closed spec fn wf(&self) -> bool {
        self.decoder.wf()
    }

    /// A session that waits for the first length prefix.
    pub fn new(transform: T) -> (r: Session<T>)
        ensures
            r.wf(),
            r.state() == initial_state(),
            r.transform_of() == transform,
    {
        Session { decoder: FrameDecoder::new(), transform }
    }

    /// What the session expects next.
    pub fn phase(&self) -> (r: Phase)
        requires
            self.wf(),
        ensures
            r == self.state().0,
    {
        self.decoder.phase()
    }

    /// Whether an error has ended the stream.
    pub fn is_finished(&self) -> (r: bool)
        ensures
            r == (self.state().0 is Finished),
    {
        self.decoder.is_finished()
    }

    /// Transforms one raw byte of a length prefix, held in `raw`, in place
    /// and hands the transformed byte to the decoder: the result and the new
    /// state are those of the decoder for the byte that the transform left in
    /// `raw`, which is the raw byte itself under the identity transform.
    pub fn read_prefix_byte(&mut self, raw: &mut [u8]) -> (r: Result<Option<usize>, FrameError>)
        requires
            old(self).wf(),
            old(self).state().0 is Prefix,
            old(raw)@.len() == 1,
        ensures
            final(self).wf(),
            final(raw)@.len() == 1,
            r == prefix_result(old(self).state().1, final(raw)@[0]),
            final(self).state() == after_byte(old(self).state().1, final(raw)@[0]),
            old(self).transform_of().is_identity() ==> final(raw)@ == old(raw)@
                && final(self).transform_of().is_identity(),
    {
        self.transform.apply(raw);
        let b = raw[0];
        self.decoder.push_prefix_byte(b)
    }

    /// Transforms a raw body whole and decodes the message in it: the result
    /// is that of decoding the transformed bytes, which are the raw bytes
    /// under the identity transform.
    pub fn read_body(&mut self, raw: &mut [u8]) -> (r: Result<Message, FrameError>)
        requires
            old(self).wf(),
            old(self).state().0 == Phase::Body(old(raw)@.len() as usize),
        ensures
            final(self).wf(),
            final(raw)@.len() == old(raw)@.len(),
            decode_result(final(raw)@, r),
            final(self).state() == after_body(r),
            old(self).transform_of().is_identity() ==> final(raw)@ == old(raw)@
                && final(self).transform_of().is_identity(),
    {
        self.transform.apply(raw);
        self.decoder.push_body(raw)
    }

    /// Records that the byte source failed or ended: no item follows.
    pub fn fail(&mut self)
        requires
            old(self).wf(),
        ensures
            final(self).wf(),
            final(self).state() == (Phase::Finished, Seq::<u8>::empty()),
    {
        self.decoder.fail()
    }
}

} // verus!
