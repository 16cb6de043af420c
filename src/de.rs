//! The decoding side of the traversal: one entry point per structural kind,
//! driven top-down by a caller that knows the shape.
use vstd::prelude::*;
use vstd::slice::slice_to_vec;

use crate::bytes::Bytes;
use crate::types::{FromBytes, ToBytes};

verus! {

/// Reads encodings from a borrowed buffer.
///
/// Besides the cursor it holds the name of the variant that the last enum
/// index selected, until the payload dispatch takes it.
pub struct Deserializer<'de> {
    data: Bytes<'de>,
    current_variant_name: Option<&'static str>,
}

impl<'de> View for Deserializer<'de> {
    type V = Seq<u8>;

    /// The bytes not yet read.
    closed spec fn view(&self) -> Seq<u8> {
        self.data@
    }
}

/// What a decoder of type `T` reads from the front of `s`, and how many bytes.
pub open spec fn decoded<T: FromBytes>(s: Seq<u8>) -> (T::V, nat) {
    T::decoding(s)->0
}

impl<'de> Deserializer<'de> {
    /// The variant name that the last enum index selected and that the
    /// payload dispatch has not taken yet.
    pub closed spec fn pending_variant(&self) -> Option<&'static str> {
        self.current_variant_name
    }

    pub fn new(data: &'de [u8]) -> (r: Deserializer<'de>)
        ensures
            r@ == data@,
            r.pending_variant() is None,
    {
        Deserializer { data: Bytes::new(data), current_variant_name: None }
    }

    pub fn remaining(&self) -> (r: usize)
        ensures
            r == self@.len(),
    {
        self.data.remaining()
    }

    /// Looks at the size code in front without consuming it: its value and its
    /// length, or `None` where the input ends before the code does.
    pub fn peek_len(&self) -> (r: Option<(usize, usize)>)
        ensures
            r is Some <==> usize::decoding(self@) is Some,
            r is Some ==> (r->0).0 == decoded::<usize>(self@).0 && (r->0).1
                == decoded::<usize>(self@).1,
    {
        let mut look = Bytes::new(self.data.chunk());
        if look.remaining() >= 1 {
            let first = self.data.chunk()[0];
            let width: usize = if first == 254 {
                5
            } else if first == 255 {
                9
            } else {
                1
            };
            if look.remaining() >= width {
                let n = look.get_len();
                Some((n, width))
            } else {
                None
            }
        } else {
            None
        }
    }

    /// Reads a value of any known shape.
    pub fn deserialize<T: FromBytes>(&mut self) -> (r: T)
        requires
            T::decoding(old(self)@) is Some,
        ensures
            r.deep_view() == decoded::<T>(old(self)@).0,
            decoded::<T>(old(self)@).1 <= old(self)@.len(),
            final(self)@ == old(self)@.skip(decoded::<T>(old(self)@).1 as int),
            final(self).pending_variant() == old(self).pending_variant(),
    {
        T::from_bytes(&mut self.data)
    }

    /// Reads a size code.
    pub fn get_len(&mut self) -> (r: usize)
        requires
            usize::decoding(old(self)@) is Some,
        ensures
            r == decoded::<usize>(old(self)@).0,
            decoded::<usize>(old(self)@).1 <= old(self)@.len(),
            final(self)@ == old(self)@.skip(decoded::<usize>(old(self)@).1 as int),
            final(self).pending_variant() == old(self).pending_variant(),
    {
        self.deserialize::<usize>()
    }

    /// Reads a boolean: true exactly where the byte is ASCII `'1'`.
    pub fn deserialize_bool(&mut self) -> (r: bool)
        requires
            old(self)@.len() >= 1,
        ensures
            r == (old(self)@[0] == 0x31),
            final(self)@ == old(self)@.skip(1),
            final(self).pending_variant() == old(self).pending_variant(),
    {
        self.data.get_u8() == 0x31
    }

    /// Reads a string: a size code, then that many bytes of UTF-8.
    pub fn deserialize_string(&mut self) -> (r: String)
        requires
            String::decoding(old(self)@) is Some,
        ensures
            r@ == decoded::<String>(old(self)@).0,
            final(self)@ == old(self)@.skip(decoded::<String>(old(self)@).1 as int),
            final(self).pending_variant() == old(self).pending_variant(),
    {
        self.deserialize::<String>()
    }

    /// Reads a byte buffer: a size code, then that many bytes.
    pub fn deserialize_byte_buf(&mut self) -> (r: Vec<u8>)
        requires
            usize::decoding(old(self)@) is Some,
            decoded::<usize>(old(self)@).0 + decoded::<usize>(old(self)@).1 <= old(self)@.len(),
        ensures
            r@ == old(self)@.subrange(
                decoded::<usize>(old(self)@).1 as int,
                decoded::<usize>(old(self)@).1 + decoded::<usize>(old(self)@).0,
            ),
            final(self)@ == old(self)@.skip(
                decoded::<usize>(old(self)@).1 + decoded::<usize>(old(self)@).0,
            ),
            final(self).pending_variant() == old(self).pending_variant(),
    {
        let ghost s = self@;
        let n = self.get_len();
        let data = self.data.get_slice(n);
        let ghost k = decoded::<usize>(s).1;
        assert(data@ =~= s.subrange(k as int, k + n));
        assert(self@ =~= s.skip(k + n));
        slice_to_vec(data)
    }

    /// Reads the presence byte of an option: false exactly where it is
    /// ASCII `'0'`. Where true, the value follows.
    pub fn deserialize_option(&mut self) -> (r: bool)
        requires
            old(self)@.len() >= 1,
        ensures
            r == (old(self)@[0] != 0x30),
            final(self)@ == old(self)@.skip(1),
            final(self).pending_variant() == old(self).pending_variant(),
    {
        self.data.get_u8() != 0x30
    }

    /// Reads the item count of a sequence; the items follow.
    pub fn deserialize_seq(&mut self) -> (r: usize)
        requires
            usize::decoding(old(self)@) is Some,
        ensures
            r == decoded::<usize>(old(self)@).0,
            final(self)@ == old(self)@.skip(decoded::<usize>(old(self)@).1 as int),
            final(self).pending_variant() == old(self).pending_variant(),
    {
        self.get_len()
    }

    /// Reads the entry count of a map; keys and values follow in turn.
    pub fn deserialize_map(&mut self) -> (r: usize)
        requires
            usize::decoding(old(self)@) is Some,
        ensures
            r == decoded::<usize>(old(self)@).0,
            final(self)@ == old(self)@.skip(decoded::<usize>(old(self)@).1 as int),
            final(self).pending_variant() == old(self).pending_variant(),
    {
        self.get_len()
    }

    /// Reads the index of an enum's variant into the ordered table of its
    /// variant names, and holds that name for the payload dispatch.
    pub fn deserialize_enum(&mut self, variants: &[&'static str]) -> (r: usize)
        requires
            usize::decoding(old(self)@) is Some,
            decoded::<usize>(old(self)@).0 < variants@.len(),
        ensures
            r == decoded::<usize>(old(self)@).0,
            final(self)@ == old(self)@.skip(decoded::<usize>(old(self)@).1 as int),
            final(self).pending_variant() == Some(variants@[r as int]),
    {
        let n = self.get_len();
        self.current_variant_name = Some(variants[n]);
        n
    }

    /// Takes the variant name that the last enum index selected; it is used
    /// once.
    pub fn deserialize_identifier(&mut self) -> (r: &'static str)
        requires
            old(self).pending_variant() is Some,
        ensures
            r == old(self).pending_variant()->0,
            final(self).pending_variant() is None,
            final(self)@ == old(self)@,
    {
        self.current_variant_name.take().unwrap()
    }
}

/// Decodes a value of a known shape from the front of `b`.
pub fn from_bytes<T: FromBytes>(b: &[u8]) -> (r: T)
    requires
        T::decoding(b@) is Some,
    ensures
        r.deep_view() == decoded::<T>(b@).0,
{
    let mut de = Deserializer::new(b);
    de.deserialize::<T>()
}

/// The countdown of a sequence, tuple or map whose length is known.
pub struct FixedAccess {
    len: usize,
}

impl FixedAccess {
    /// How many items are still to be read.
    pub closed spec fn left(&self) -> nat {
        self.len as nat
    }

    pub fn new(len: usize) -> (r: FixedAccess)
        ensures
            r.left() == len,
    {
        FixedAccess { len }
    }

    /// Whether another item is to be read; if so, counts it.
    pub fn next(&mut self) -> (r: bool)
        ensures
            r == (old(self).left() > 0),
            final(self).left() == if r {
                (old(self).left() - 1) as nat
            } else {
                0
            },
    {
        if self.len > 0 {
            self.len = self.len - 1;
            true
        } else {
            false
        }
    }

    pub fn size_hint(&self) -> (r: usize)
        ensures
            r == self.left(),
    {
        self.len
    }
}

} // verus!
