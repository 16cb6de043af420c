//! Byte sinks that encoders append to.
use vstd::prelude::*;

verus! {

/// A sink of bytes: everything written is appended, in order.
pub trait Write {
    /// The bytes written so far.
    spec fn written(&self) -> Seq<u8>;

    fn write(&mut self, b: &[u8])
        ensures
            final(self).written() == old(self).written() + b@,
    ;
}

impl Write for Vec<u8> {
    open spec fn written(&self) -> Seq<u8> {
        self@
    }

    fn write(&mut self, b: &[u8]) {
        let mut i: usize = 0;
        while i < b.len()
            invariant
                i <= b@.len(),
                self@ == old(self)@ + b@.take(i as int),
            decreases b@.len() - i,
        {
            self.push(b[i]);
            i = i + 1;
            assert(b@.take(i as int) =~= b@.take(i - 1) + seq![b@[i - 1]]);
        }
        assert(b@.take(b@.len() as int) =~= b@);
    }
}

} // verus!
