//! The two capabilities of a shape: writing a value and reading it back.
//!
//! Each shape states its encoding over the model of its values (`DeepView`),
//! the decoding that reads it back, and proves that the two agree.
use vstd::prelude::*;

use crate::bytes::Bytes;
use crate::io::Write;

verus! {

/// A value that can be encoded.
pub trait ToBytes: DeepView {
    /// The encoding of the value whose model is `v`.
    spec fn encoding(v: Self::V) -> Seq<u8>;

    /// Models whose every length and count fits a size code (below 2^64).
    spec fn representable(v: Self::V) -> bool;

    /// Appends the encoding of `self` to `out`.
    fn to_bytes<W: Write>(&self, out: &mut W)
        ensures
            final(out).written() == old(out).written() + Self::encoding(self.deep_view()),
            Self::representable(self.deep_view()),
    ;
}

/// A value that can be read back from its encoding.
pub trait FromBytes: ToBytes + Sized {
    /// The model of the value whose encoding opens `s`, and the length of that
    /// encoding; `None` where `s` is not such an encoding.
    spec fn decoding(s: Seq<u8>) -> Option<(Self::V, nat)>;

    /// Decoding an encoding gives back the value and consumes exactly the
    /// encoding, whatever follows it.
    proof fn lemma_round_trip(v: Self::V, rest: Seq<u8>)
        requires
            Self::representable(v),
        ensures
            Self::decoding(Self::encoding(v) + rest) == Some((v, Self::encoding(v).len())),
    ;

    /// Reads one value from the front of `b`.
    fn from_bytes(b: &mut Bytes<'_>) -> (r: Self)
        requires
            Self::decoding(old(b)@) is Some,
        ensures
            (Self::decoding(old(b)@)->0).0 == r.deep_view(),
            (Self::decoding(old(b)@)->0).1 <= old(b)@.len(),
            final(b)@ == old(b)@.skip((Self::decoding(old(b)@)->0).1 as int),
    ;
}

} // verus!
