//! The encoding side of the traversal: one entry point per structural kind,
//! driven by whoever walks the value.
use vstd::prelude::*;
use vstd::utf8::encode_utf8;

use crate::io::Write;
use crate::size::{put_byte, size_code};
use crate::types::ToBytes;

verus! {

/// Writes encodings into a byte sink.
pub struct Serializer<W> {
    writer: W,
}

/// A sequence or map being written.
///
/// Where its count was known when it was opened, the count is already
/// written and each element streams straight into the parent. Otherwise the
/// elements gather in a buffer; closing it writes the count, then the buffer.
pub struct SerializerCollection {
    fixed: bool,
    len: usize,
    buf: Vec<u8>,
}

impl<W: Write> Serializer<W> {
    /// The bytes written to the sink so far.
    pub closed spec fn written(&self) -> Seq<u8> {
        self.writer.written()
    }

    pub fn new(writer: W) -> (r: Serializer<W>)
        ensures
            r.written() == writer.written(),
    {
        Serializer { writer }
    }

    pub fn into_writer(self) -> (r: W)
        ensures
            r.written() == self.written(),
    {
        self.writer
    }

    /// Writes the size code of `v`.
    pub fn serialize_len(&mut self, v: usize)
        ensures
            final(self).written() == old(self).written() + size_code(v as nat),
    {
        v.to_bytes(&mut self.writer);
    }

    /// Writes the encoding of any value of a known shape.
    pub fn serialize<T: ToBytes>(&mut self, v: &T)
        ensures
            final(self).written() == old(self).written() + T::encoding(v.deep_view()),
            T::representable(v.deep_view()),
    {
        v.to_bytes(&mut self.writer);
    }

    pub fn serialize_bool(&mut self, v: bool)
        ensures
            final(self).written() == old(self).written() + (if v {
                seq![0x31u8]
            } else {
                seq![0x30u8]
            }),
    {
        v.to_bytes(&mut self.writer);
    }

    pub fn serialize_i8(&mut self, v: i8)
        ensures
            final(self).written() == old(self).written() + i8::encoding(v),
    {
        v.to_bytes(&mut self.writer);
    }

    pub fn serialize_i16(&mut self, v: i16)
        ensures
            final(self).written() == old(self).written() + i16::encoding(v),
    {
        v.to_bytes(&mut self.writer);
    }

    pub fn serialize_i32(&mut self, v: i32)
        ensures
            final(self).written() == old(self).written() + i32::encoding(v),
    {
        v.to_bytes(&mut self.writer);
    }

    pub fn serialize_i64(&mut self, v: i64)
        ensures
            final(self).written() == old(self).written() + i64::encoding(v),
    {
        v.to_bytes(&mut self.writer);
    }

    pub fn serialize_i128(&mut self, v: i128)
        ensures
            final(self).written() == old(self).written() + i128::encoding(v),
    {
        v.to_bytes(&mut self.writer);
    }

    pub fn serialize_u8(&mut self, v: u8)
        ensures
            final(self).written() == old(self).written() + u8::encoding(v),
    {
        v.to_bytes(&mut self.writer);
    }

    pub fn serialize_u16(&mut self, v: u16)
        ensures
            final(self).written() == old(self).written() + u16::encoding(v),
    {
        v.to_bytes(&mut self.writer);
    }

    pub fn serialize_u32(&mut self, v: u32)
        ensures
            final(self).written() == old(self).written() + u32::encoding(v),
    {
        v.to_bytes(&mut self.writer);
    }

    pub fn serialize_u64(&mut self, v: u64)
        ensures
            final(self).written() == old(self).written() + u64::encoding(v),
    {
        v.to_bytes(&mut self.writer);
    }

    pub fn serialize_u128(&mut self, v: u128)
        ensures
            final(self).written() == old(self).written() + u128::encoding(v),
    {
        v.to_bytes(&mut self.writer);
    }

    /// Writes the size code of the UTF-8 byte length, then the UTF-8 bytes.
    pub fn serialize_str(&mut self, v: &str)
        ensures
            final(self).written() == old(self).written() + size_code(encode_utf8(v@).len())
                + encode_utf8(v@),
    {
        let data: &[u8] = v.as_bytes();
        self.serialize_bytes(data);
    }

    /// Writes the size code of the length, then the bytes.
    pub fn serialize_bytes(&mut self, v: &[u8])
        ensures
            final(self).written() == old(self).written() + size_code(v@.len()) + v@,
    {
        v.len().to_bytes(&mut self.writer);
        self.writer.write(v);
    }

    /// Writes the presence byte of an absent option.
    pub fn serialize_none(&mut self)
        ensures
            final(self).written() == old(self).written() + seq![0x30u8],
    {
        put_byte(&mut self.writer, 0x30);
    }

    /// Writes the presence byte of a present option; its value follows.
    pub fn serialize_some(&mut self)
        ensures
            final(self).written() == old(self).written() + seq![0x31u8],
    {
        put_byte(&mut self.writer, 0x31);
    }

    /// Writes the index of a variant with no payload.
    pub fn serialize_unit_variant(&mut self, variant_index: u32)
        ensures
            final(self).written() == old(self).written() + size_code(variant_index as nat),
    {
        self.serialize_len(variant_index as usize);
    }

    /// Writes the index of a variant; its payload follows.
    pub fn serialize_newtype_variant(&mut self, variant_index: u32)
        ensures
            final(self).written() == old(self).written() + size_code(variant_index as nat),
    {
        self.serialize_len(variant_index as usize);
    }

    /// Opens a sequence. A known count is written at once.
    pub fn serialize_seq(&mut self, len: Option<usize>) -> (r: SerializerCollection)
        ensures
            r.is_fixed() == len is Some,
            r.count() == 0,
            r.pending() == Seq::<u8>::empty(),
            final(self).written() == old(self).written() + match len {
                Some(n) => size_code(n as nat),
                None => Seq::<u8>::empty(),
            },
    {
        if let Some(n) = len {
            self.serialize_len(n);
        } else {
            assert(self.written() =~= old(self).written() + Seq::<u8>::empty());
        }
        SerializerCollection { fixed: len.is_some(), len: 0, buf: Vec::new() }
    }

    /// Opens a map. A known entry count is written at once.
    pub fn serialize_map(&mut self, len: Option<usize>) -> (r: SerializerCollection)
        ensures
            r.is_fixed() == len is Some,
            r.count() == 0,
            r.pending() == Seq::<u8>::empty(),
            final(self).written() == old(self).written() + match len {
                Some(n) => size_code(n as nat),
                None => Seq::<u8>::empty(),
            },
    {
        self.serialize_seq(len)
    }
}

/// Encodes a value of a known shape into a fresh buffer.
pub fn to_bytes<V: ToBytes>(v: &V) -> (r: Vec<u8>)
    ensures
        r@ == V::encoding(v.deep_view()),
        V::representable(v.deep_view()),
{
    let mut ser = Serializer::new(Vec::new());
    ser.serialize(v);
    let r = ser.into_writer();
    assert(r@ =~= V::encoding(v.deep_view()));
    r
}

impl SerializerCollection {
    /// Whether the count was written when the collection was opened.
    pub closed spec fn is_fixed(&self) -> bool {
        self.fixed
    }

    /// How many items have gathered in the buffer.
    pub closed spec fn count(&self) -> nat {
        self.len as nat
    }

    /// The bytes gathered in the buffer.
    pub closed spec fn pending(&self) -> Seq<u8> {
        self.buf@
    }

    pub fn fixed(&self) -> (r: bool)
        ensures
            r == self.is_fixed(),
    {
        self.fixed
    }

    /// Adds one item already encoded: straight to the parent where the count
    /// is known, else to the buffer.
    pub fn add_encoded<W: Write>(&mut self, ser: &mut Serializer<W>, bytes: &[u8])
        requires
            !old(self).is_fixed() ==> old(self).count() < usize::MAX,
        ensures
            final(self).is_fixed() == old(self).is_fixed(),
            old(self).is_fixed() ==> final(ser).written() == old(ser).written() + bytes@
                && final(self).count() == old(self).count() && final(self).pending()
                == old(self).pending(),
            !old(self).is_fixed() ==> final(ser).written() == old(ser).written()
                && final(self).count() == old(self).count() + 1 && final(self).pending()
                == old(self).pending() + bytes@,
    {
        if self.fixed {
            ser.writer.write(bytes);
        } else {
            self.len = self.len + 1;
            self.buf.write(bytes);
        }
    }

    /// Adds one item: straight to the parent where the count is known, else
    /// to the buffer.
    pub fn add<T: ToBytes, W: Write>(&mut self, ser: &mut Serializer<W>, v: &T)
        requires
            !old(self).is_fixed() ==> old(self).count() < usize::MAX,
        ensures
            final(self).is_fixed() == old(self).is_fixed(),
            old(self).is_fixed() ==> final(ser).written() == old(ser).written() + T::encoding(
                v.deep_view(),
            ) && final(self).count() == old(self).count() && final(self).pending()
                == old(self).pending(),
            !old(self).is_fixed() ==> final(ser).written() == old(ser).written()
                && final(self).count() == old(self).count() + 1 && final(self).pending()
                == old(self).pending() + T::encoding(v.deep_view()),
    {
        if self.fixed {
            v.to_bytes(&mut ser.writer);
        } else {
            self.len = self.len + 1;
            v.to_bytes(&mut self.buf);
        }
    }

    /// Closes a sequence: where the count was not known, writes the count of
    /// items added, then the buffer.
    pub fn end<W: Write>(self, ser: &mut Serializer<W>)
        ensures
            self.is_fixed() ==> final(ser).written() == old(ser).written(),
            !self.is_fixed() ==> final(ser).written() == old(ser).written() + size_code(
                self.count(),
            ) + self.pending(),
    {
        if !self.fixed {
            ser.serialize_len(self.len);
            ser.writer.write(self.buf.as_slice());
        }
    }

    /// Closes a map, whose keys and values were added one by one: where the
    /// count was not known, writes the number of entries, then the buffer.
    pub fn end_map<W: Write>(self, ser: &mut Serializer<W>)
        ensures
            self.is_fixed() ==> final(ser).written() == old(ser).written(),
            !self.is_fixed() ==> final(ser).written() == old(ser).written() + size_code(
                self.count() / 2,
            ) + self.pending(),
    {
        if !self.fixed {
            ser.serialize_len(self.len / 2);
            ser.writer.write(self.buf.as_slice());
        }
    }
}

} // verus!
