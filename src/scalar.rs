//! Fixed-width numbers (little-endian, two's complement where signed), the
//! size code of `usize`, booleans and unit.
use vstd::prelude::*;

use crate::bytes::Bytes;
use crate::io::Write;
use crate::size::{
    le_bytes, le_value, lemma_le_bytes, lemma_le_value_bound, lemma_size_round_trip, pow256,
    put_byte, put_le, size_code, size_decoding,
};
use crate::types::{FromBytes, ToBytes};

verus! {

/// The encoding of a fixed-width number `n` of `k` bytes, followed by `rest`,
/// opens with the `k` bytes of `n`.
proof fn lemma_fixed_prefix(n: nat, k: nat, rest: Seq<u8>)
    requires
        n < pow256(k),
    ensures
        le_bytes(n, k).len() == k,
        (le_bytes(n, k) + rest).take(k as int) == le_bytes(n, k),
        le_value(le_bytes(n, k)) == n,
{
    lemma_le_bytes(n, k);
    assert((le_bytes(n, k) + rest).take(k as int) =~= le_bytes(n, k));
}

/// The decoding of an unsigned number of `k` bytes.
pub open spec fn uint_decoding(s: Seq<u8>, k: nat) -> Option<(nat, nat)> {
    if s.len() >= k {
        Some((le_value(s.take(k as int)), k))
    } else {
        None
    }
}

/// The two's complement of `v` in `k` bytes.
pub open spec fn twos(v: int, k: nat) -> nat {
    if v >= 0 {
        v as nat
    } else {
        (v + pow256(k)) as nat
    }
}

/// The signed number whose two's complement in `k` bytes is `u`.
pub open spec fn from_twos(u: nat, k: nat) -> int {
    if u >= pow256(k) / 2 {
        u - pow256(k)
    } else {
        u as int
    }
}

impl ToBytes for u8 {
    open spec fn encoding(v: u8) -> Seq<u8> {
        le_bytes(v as nat, 1)
    }

    open spec fn representable(v: u8) -> bool {
        true
    }

    fn to_bytes<W: Write>(&self, out: &mut W) {
        put_le(out, *self as u128, 1);
    }
}

impl FromBytes for u8 {
    open spec fn decoding(s: Seq<u8>) -> Option<(u8, nat)> {
        match uint_decoding(s, 1) {
            Some((n, k)) => Some((n as u8, k)),
            None => None,
        }
    }

    proof fn lemma_round_trip(v: u8, rest: Seq<u8>) {
        reveal_with_fuel(pow256, 2);
        lemma_fixed_prefix(v as nat, 1, rest);
    }

    fn from_bytes(b: &mut Bytes<'_>) -> (r: u8) {
        proof {
            reveal_with_fuel(pow256, 2);
            lemma_le_value_bound(b@.take(1));
        }
        b.get_le(1) as u8
    }
}

impl ToBytes for u16 {
    open spec fn encoding(v: u16) -> Seq<u8> {
        le_bytes(v as nat, 2)
    }

    open spec fn representable(v: u16) -> bool {
        true
    }

    fn to_bytes<W: Write>(&self, out: &mut W) {
        put_le(out, *self as u128, 2);
    }
}

impl FromBytes for u16 {
    open spec fn decoding(s: Seq<u8>) -> Option<(u16, nat)> {
        match uint_decoding(s, 2) {
            Some((n, k)) => Some((n as u16, k)),
            None => None,
        }
    }

    proof fn lemma_round_trip(v: u16, rest: Seq<u8>) {
        reveal_with_fuel(pow256, 3);
        lemma_fixed_prefix(v as nat, 2, rest);
    }

    fn from_bytes(b: &mut Bytes<'_>) -> (r: u16) {
        proof {
            reveal_with_fuel(pow256, 3);
            lemma_le_value_bound(b@.take(2));
        }
        b.get_le(2) as u16
    }
}

impl ToBytes for u32 {
    open spec fn encoding(v: u32) -> Seq<u8> {
        le_bytes(v as nat, 4)
    }

    open spec fn representable(v: u32) -> bool {
        true
    }

    fn to_bytes<W: Write>(&self, out: &mut W) {
        put_le(out, *self as u128, 4);
    }
}

impl FromBytes for u32 {
    open spec fn decoding(s: Seq<u8>) -> Option<(u32, nat)> {
        match uint_decoding(s, 4) {
            Some((n, k)) => Some((n as u32, k)),
            None => None,
        }
    }

    proof fn lemma_round_trip(v: u32, rest: Seq<u8>) {
        reveal_with_fuel(pow256, 5);
        lemma_fixed_prefix(v as nat, 4, rest);
    }

    fn from_bytes(b: &mut Bytes<'_>) -> (r: u32) {
        proof {
            reveal_with_fuel(pow256, 5);
            lemma_le_value_bound(b@.take(4));
        }
        b.get_le(4) as u32
    }
}

impl ToBytes for u64 {
    open spec fn encoding(v: u64) -> Seq<u8> {
        le_bytes(v as nat, 8)
    }

    open spec fn representable(v: u64) -> bool {
        true
    }

    fn to_bytes<W: Write>(&self, out: &mut W) {
        put_le(out, *self as u128, 8);
    }
}

impl FromBytes for u64 {
    open spec fn decoding(s: Seq<u8>) -> Option<(u64, nat)> {
        match uint_decoding(s, 8) {
            Some((n, k)) => Some((n as u64, k)),
            None => None,
        }
    }

    proof fn lemma_round_trip(v: u64, rest: Seq<u8>) {
        reveal_with_fuel(pow256, 9);
        lemma_fixed_prefix(v as nat, 8, rest);
    }

    fn from_bytes(b: &mut Bytes<'_>) -> (r: u64) {
        proof {
            reveal_with_fuel(pow256, 9);
            lemma_le_value_bound(b@.take(8));
        }
        b.get_le(8) as u64
    }
}

impl ToBytes for u128 {
    open spec fn encoding(v: u128) -> Seq<u8> {
        le_bytes(v as nat, 16)
    }

    open spec fn representable(v: u128) -> bool {
        true
    }

    fn to_bytes<W: Write>(&self, out: &mut W) {
        put_le(out, *self as u128, 16);
    }
}

impl FromBytes for u128 {
    open spec fn decoding(s: Seq<u8>) -> Option<(u128, nat)> {
        match uint_decoding(s, 16) {
            Some((n, k)) => Some((n as u128, k)),
            None => None,
        }
    }

    proof fn lemma_round_trip(v: u128, rest: Seq<u8>) {
        reveal_with_fuel(pow256, 17);
        lemma_fixed_prefix(v as nat, 16, rest);
    }

    fn from_bytes(b: &mut Bytes<'_>) -> (r: u128) {
        proof {
            reveal_with_fuel(pow256, 17);
            lemma_le_value_bound(b@.take(16));
        }
        b.get_le(16) as u128
    }
}

impl ToBytes for i8 {
    open spec fn encoding(v: i8) -> Seq<u8> {
        le_bytes(twos(v as int, 1), 1)
    }

    open spec fn representable(v: i8) -> bool {
        true
    }

    fn to_bytes<W: Write>(&self, out: &mut W) {
        proof {
            reveal_with_fuel(pow256, 2);
        }
        let u: u128 = if *self < 0 {
            (*self as i16 + 0x100) as u128
        } else {
            *self as u128
        };
        put_le(out, u, 1);
    }
}

impl FromBytes for i8 {
    open spec fn decoding(s: Seq<u8>) -> Option<(i8, nat)> {
        match uint_decoding(s, 1) {
            Some((n, k)) => Some((from_twos(n, 1) as i8, k)),
            None => None,
        }
    }

    proof fn lemma_round_trip(v: i8, rest: Seq<u8>) {
        reveal_with_fuel(pow256, 2);
        lemma_fixed_prefix(twos(v as int, 1), 1, rest);
    }

    fn from_bytes(b: &mut Bytes<'_>) -> (r: i8) {
        proof {
            reveal_with_fuel(pow256, 2);
            lemma_le_value_bound(b@.take(1));
        }
        let u = b.get_le(1);
        if u >= 0x80 {
            (u as i16 - 0x100) as i8
        } else {
            u as i8
        }
    }
}

impl ToBytes for i16 {
    open spec fn encoding(v: i16) -> Seq<u8> {
        le_bytes(twos(v as int, 2), 2)
    }

    open spec fn representable(v: i16) -> bool {
        true
    }

    fn to_bytes<W: Write>(&self, out: &mut W) {
        proof {
            reveal_with_fuel(pow256, 3);
        }
        let u: u128 = if *self < 0 {
            (*self as i32 + 0x10000) as u128
        } else {
            *self as u128
        };
        put_le(out, u, 2);
    }
}

impl FromBytes for i16 {
    open spec fn decoding(s: Seq<u8>) -> Option<(i16, nat)> {
        match uint_decoding(s, 2) {
            Some((n, k)) => Some((from_twos(n, 2) as i16, k)),
            None => None,
        }
    }

    proof fn lemma_round_trip(v: i16, rest: Seq<u8>) {
        reveal_with_fuel(pow256, 3);
        lemma_fixed_prefix(twos(v as int, 2), 2, rest);
    }

    fn from_bytes(b: &mut Bytes<'_>) -> (r: i16) {
        proof {
            reveal_with_fuel(pow256, 3);
            lemma_le_value_bound(b@.take(2));
        }
        let u = b.get_le(2);
        if u >= 0x8000 {
            (u as i32 - 0x10000) as i16
        } else {
            u as i16
        }
    }
}

impl ToBytes for i32 {
    open spec fn encoding(v: i32) -> Seq<u8> {
        le_bytes(twos(v as int, 4), 4)
    }

    open spec fn representable(v: i32) -> bool {
        true
    }

    fn to_bytes<W: Write>(&self, out: &mut W) {
        proof {
            reveal_with_fuel(pow256, 5);
        }
        let u: u128 = if *self < 0 {
            (*self as i64 + 0x100000000) as u128
        } else {
            *self as u128
        };
        put_le(out, u, 4);
    }
}

impl FromBytes for i32 {
    open spec fn decoding(s: Seq<u8>) -> Option<(i32, nat)> {
        match uint_decoding(s, 4) {
            Some((n, k)) => Some((from_twos(n, 4) as i32, k)),
            None => None,
        }
    }

    proof fn lemma_round_trip(v: i32, rest: Seq<u8>) {
        reveal_with_fuel(pow256, 5);
        lemma_fixed_prefix(twos(v as int, 4), 4, rest);
    }

    fn from_bytes(b: &mut Bytes<'_>) -> (r: i32) {
        proof {
            reveal_with_fuel(pow256, 5);
            lemma_le_value_bound(b@.take(4));
        }
        let u = b.get_le(4);
        if u >= 0x80000000 {
            (u as i64 - 0x100000000) as i32
        } else {
            u as i32
        }
    }
}

impl ToBytes for i64 {
    open spec fn encoding(v: i64) -> Seq<u8> {
        le_bytes(twos(v as int, 8), 8)
    }

    open spec fn representable(v: i64) -> bool {
        true
    }

    fn to_bytes<W: Write>(&self, out: &mut W) {
        proof {
            reveal_with_fuel(pow256, 9);
        }
        let u: u128 = if *self < 0 {
            (*self as i128 + 0x10000000000000000) as u128
        } else {
            *self as u128
        };
        put_le(out, u, 8);
    }
}

impl FromBytes for i64 {
    open spec fn decoding(s: Seq<u8>) -> Option<(i64, nat)> {
        match uint_decoding(s, 8) {
            Some((n, k)) => Some((from_twos(n, 8) as i64, k)),
            None => None,
        }
    }

    proof fn lemma_round_trip(v: i64, rest: Seq<u8>) {
        reveal_with_fuel(pow256, 9);
        lemma_fixed_prefix(twos(v as int, 8), 8, rest);
    }

    fn from_bytes(b: &mut Bytes<'_>) -> (r: i64) {
        proof {
            reveal_with_fuel(pow256, 9);
            lemma_le_value_bound(b@.take(8));
        }
        let u = b.get_le(8);
        if u >= 0x8000000000000000 {
            (u as i128 - 0x10000000000000000) as i64
        } else {
            u as i64
        }
    }
}

impl ToBytes for i128 {
    open spec fn encoding(v: i128) -> Seq<u8> {
        le_bytes(twos(v as int, 16), 16)
    }

    open spec fn representable(v: i128) -> bool {
        true
    }

    fn to_bytes<W: Write>(&self, out: &mut W) {
        proof {
            reveal_with_fuel(pow256, 17);
        }
        let u: u128 = if *self < 0 {
            (*self + i128::MAX + 1) as u128 + 0x80000000000000000000000000000000
        } else {
            *self as u128
        };
        put_le(out, u, 16);
    }
}

impl FromBytes for i128 {
    open spec fn decoding(s: Seq<u8>) -> Option<(i128, nat)> {
        match uint_decoding(s, 16) {
            Some((n, k)) => Some((from_twos(n, 16) as i128, k)),
            None => None,
        }
    }

    proof fn lemma_round_trip(v: i128, rest: Seq<u8>) {
        reveal_with_fuel(pow256, 17);
        lemma_fixed_prefix(twos(v as int, 16), 16, rest);
    }

    fn from_bytes(b: &mut Bytes<'_>) -> (r: i128) {
        proof {
            reveal_with_fuel(pow256, 17);
            lemma_le_value_bound(b@.take(16));
        }
        let u = b.get_le(16);
        if u >= 0x80000000000000000000000000000000 {
            (u - 0x80000000000000000000000000000000) as i128 - i128::MAX - 1
        } else {
            u as i128
        }
    }
}

impl ToBytes for usize {
    /// The size code of `v`.
    open spec fn encoding(v: usize) -> Seq<u8> {
        size_code(v as nat)
    }

    open spec fn representable(v: usize) -> bool {
        true
    }

    fn to_bytes<W: Write>(&self, out: &mut W) {
        proof {
            reveal_with_fuel(le_bytes, 2);
            reveal_with_fuel(pow256, 9);
        }
        if *self < 254 {
            put_byte(out, *self as u8);
        } else if (*self as u64) < 0x1_0000_0000 {
            put_byte(out, 254);
            put_le(out, *self as u128, 4);
        } else {
            put_byte(out, 255);
            put_le(out, *self as u128, 8);
        }
    }
}

impl FromBytes for usize {
    open spec fn decoding(s: Seq<u8>) -> Option<(usize, nat)> {
        match size_decoding(s) {
            Some((n, k)) => Some((n as usize, k)),
            None => None,
        }
    }

    proof fn lemma_round_trip(v: usize, rest: Seq<u8>) {
        lemma_size_round_trip(v as nat, rest);
    }

    fn from_bytes(b: &mut Bytes<'_>) -> (r: usize) {
        let ghost s = b@;
        let first = b.get_u8();
        if first == 254 {
            assert(b@.take(4) =~= s.subrange(1, 5));
            proof {
                reveal_with_fuel(pow256, 5);
                lemma_le_value_bound(b@.take(4));
            }
            let n = b.get_le(4);
            assert(b@ =~= s.skip(5));
            n as usize
        } else if first == 255 {
            assert(b@.take(8) =~= s.subrange(1, 9));
            let n = b.get_le(8);
            assert(b@ =~= s.skip(9));
            n as usize
        } else {
            first as usize
        }
    }
}

impl ToBytes for bool {
    /// ASCII `'1'` for true, `'0'` for false.
    open spec fn encoding(v: bool) -> Seq<u8> {
        if v {
            seq![0x31u8]
        } else {
            seq![0x30u8]
        }
    }

    open spec fn representable(v: bool) -> bool {
        true
    }

    fn to_bytes<W: Write>(&self, out: &mut W) {
        put_byte(out, if *self { 0x31 } else { 0x30 });
    }
}

impl FromBytes for bool {
    /// True exactly where the byte is ASCII `'1'`.
    open spec fn decoding(s: Seq<u8>) -> Option<(bool, nat)> {
        if s.len() >= 1 {
            Some((s[0] == 0x31, 1))
        } else {
            None
        }
    }

    proof fn lemma_round_trip(v: bool, rest: Seq<u8>) {
    }

    fn from_bytes(b: &mut Bytes<'_>) -> (r: bool) {
        b.get_u8() == 0x31
    }
}

impl ToBytes for () {
    open spec fn encoding(v: ()) -> Seq<u8> {
        Seq::empty()
    }

    open spec fn representable(v: ()) -> bool {
        true
    }

    fn to_bytes<W: Write>(&self, out: &mut W) {
        assert(old(out).written() + Seq::empty() =~= old(out).written());
    }
}

impl FromBytes for () {
    open spec fn decoding(s: Seq<u8>) -> Option<((), nat)> {
        Some(((), 0))
    }

    proof fn lemma_round_trip(v: (), rest: Seq<u8>) {
    }

    fn from_bytes(b: &mut Bytes<'_>) -> (r: ()) {
        assert(b@.skip(0) =~= b@);
    }
}

} // verus!
