//! A read cursor over a borrowed byte buffer.
use vstd::prelude::*;

use crate::size::{le_value, pow256};
use crate::types::{FromBytes, ToBytes};

verus! {

/// A cursor over a caller-owned buffer. Reading consumes bytes from the front;
/// nothing is copied.
pub struct Bytes<'a> {
    data: &'a [u8],
}

impl<'a> View for Bytes<'a> {
    type V = Seq<u8>;

    /// The bytes not yet consumed.
    closed spec fn view(&self) -> Seq<u8> {
        self.data@
    }
}

impl<'a> Bytes<'a> {
    pub fn new(data: &'a [u8]) -> (r: Bytes<'a>)
        ensures
            r@ == data@,
    {
        Bytes { data }
    }

    pub fn remaining(&self) -> (r: usize)
        ensures
            r == self@.len(),
    {
        self.data.len()
    }

    /// The bytes not yet consumed, as a slice.
    pub fn chunk(&self) -> (r: &'a [u8])
        ensures
            r@ == self@,
    {
        self.data
    }

    pub fn advance(&mut self, cnt: usize)
        requires
            cnt <= old(self)@.len(),
        ensures
            final(self)@ == old(self)@.skip(cnt as int),
    {
        let (_, tail) = self.data.split_at(cnt);
        self.data = tail;
        assert(self@ =~= old(self)@.skip(cnt as int));
    }

    /// Consumes the next `n` bytes and hands them out without copying.
    pub fn get_slice(&mut self, n: usize) -> (r: &'a [u8])
        requires
            n <= old(self)@.len(),
        ensures
            r@ == old(self)@.take(n as int),
            final(self)@ == old(self)@.skip(n as int),
    {
        let (head, tail) = self.data.split_at(n);
        self.data = tail;
        assert(head@ =~= old(self)@.take(n as int));
        assert(self@ =~= old(self)@.skip(n as int));
        head
    }

    pub fn get_u8(&mut self) -> (r: u8)
        requires
            old(self)@.len() >= 1,
        ensures
            r == old(self)@[0],
            final(self)@ == old(self)@.skip(1),
    {
        let r = self.data[0];
        self.advance(1);
        r
    }

    /// Reads a size code.
    pub fn get_len(&mut self) -> (r: usize)
        requires
            usize::decoding(old(self)@) is Some,
        ensures
            r == (usize::decoding(old(self)@)->0).0,
            final(self)@ == old(self)@.skip((usize::decoding(old(self)@)->0).1 as int),
    {
        usize::from_bytes(self)
    }

    /// Reads `k` bytes as a little-endian unsigned number.
    pub fn get_le(&mut self, k: usize) -> (r: u128)
        requires
            k <= 16,
            old(self)@.len() >= k,
        ensures
            r as nat == le_value(old(self)@.take(k as int)),
            final(self)@ == old(self)@.skip(k as int),
    {
        let ghost s = self@.take(k as int);
        let mut acc: u128 = 0;
        let mut i: usize = k;
        while i > 0
            invariant
                i <= k <= 16,
                k <= self@.len(),
                s == self@.take(k as int),
                acc as nat == le_value(s.skip(i as int)),
                acc < pow256((k - i) as nat),
            decreases i,
        {
            let byte = self.data[i - 1];
            proof {
                assert(s.skip(i - 1).drop_first() =~= s.skip(i as int));
                assert(s.skip(i - 1)[0] == byte);
                lemma_pow256_step((k - i) as nat, acc as nat, byte as nat);
            }
            acc = acc * 256 + byte as u128;
            i = i - 1;
        }
        assert(s.skip(0) =~= s);
        self.advance(k);
        acc
    }
}

proof fn lemma_pow256_step(j: nat, acc: nat, byte: nat)
    requires
        j < 16,
        acc < pow256(j),
        byte < 256,
    ensures
        acc * 256 + byte < pow256(j + 1),
        pow256(j + 1) <= pow256(16),
        pow256(16) == 0x1_0000_0000_0000_0000_0000_0000_0000_0000,
{
    reveal_with_fuel(pow256, 17);
    assert(acc * 256 + byte < pow256(j + 1)) by (nonlinear_arith)
        requires
            acc < pow256(j),
            byte < 256,
            pow256(j + 1) == 256 * pow256(j),
    ;
    crate::size::lemma_pow256_mono(j + 1, 16);
}

} // verus!
