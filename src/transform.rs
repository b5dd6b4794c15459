//! A byte-level transform, such as a stream cipher, applied to raw bytes as
//! they arrive.
use vstd::prelude::*;

verus! {

/// Transforms raw bytes in place. The same value sees every byte of a
/// session in order, prefix bytes one at a time and each body whole, so a
/// keystream can advance across them.
pub trait Transform {
    /// Whether this transform leaves every byte as it is. Nothing is assumed
    /// of a transform that does not say so.
    open spec fn is_identity(&self) -> bool {
        false
    }

    /// Transforms the bytes of `buf` in place.
    fn apply(&mut self, buf: &mut [u8])
        ensures
            final(buf)@.len() == old(buf)@.len(),
            old(self).is_identity() ==> final(buf)@ == old(buf)@ && final(self).is_identity(),
    ;
}

/// The transform that leaves every byte as it is.
#[derive(Debug, Clone, Copy, Default)]
pub struct NoTransform;

impl Transform for NoTransform {
    open spec fn is_identity(&self) -> bool {
        true
    }

    fn apply(&mut self, buf: &mut [u8]) {
    }
}

} // verus!
