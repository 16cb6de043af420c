//! Little-endian byte strings and the size code used for lengths, counts and
//! variant indices.
use vstd::prelude::*;

use crate::io::Write;

verus! {

pub open spec fn pow256(k: nat) -> nat
    decreases k,
{
    if k == 0 {
        1
    } else {
        256 * pow256((k - 1) as nat)
    }
}

/// The `k` low-order bytes of `n`, least significant first.
pub open spec fn le_bytes(n: nat, k: nat) -> Seq<u8>
    decreases k,
{
    if k == 0 {
        Seq::empty()
    } else {
        seq![(n % 256) as u8] + le_bytes(n / 256, (k - 1) as nat)
    }
}

/// The number whose little-endian bytes are `s`.
pub open spec fn le_value(s: Seq<u8>) -> nat
    decreases s.len(),
{
    if s.len() == 0 {
        0
    } else {
        s[0] as nat + 256 * le_value(s.drop_first())
    }
}

/// The size code of `n`: one byte below 254; else 254 and four little-endian
/// bytes below 2^32; else 255 and eight little-endian bytes.
pub open spec fn size_code(n: nat) -> Seq<u8> {
    if n < 254 {
        seq![n as u8]
    } else if n < 0x1_0000_0000 {
        seq![254u8] + le_bytes(n, 4)
    } else {
        seq![255u8] + le_bytes(n, 8)
    }
}

/// The number that a size code at the front of `s` stands for, and the
/// length of that code; `None` where `s` ends before the code does.
pub open spec fn size_decoding(s: Seq<u8>) -> Option<(nat, nat)> {
    if s.len() == 0 {
        None
    } else if s[0] == 254 {
        if s.len() >= 5 {
            Some((le_value(s.subrange(1, 5)), 5))
        } else {
            None
        }
    } else if s[0] == 255 {
        if s.len() >= 9 {
            Some((le_value(s.subrange(1, 9)), 9))
        } else {
            None
        }
    } else {
        Some((s[0] as nat, 1))
    }
}

pub proof fn lemma_pow256_mono(a: nat, b: nat)
    requires
        a <= b,
    ensures
        pow256(a) <= pow256(b),
    decreases b,
{
    if a < b {
        lemma_pow256_mono(a, (b - 1) as nat);
    }
}

pub proof fn lemma_le_bytes(n: nat, k: nat)
    requires
        n < pow256(k),
    ensures
        le_bytes(n, k).len() == k,
        le_value(le_bytes(n, k)) == n,
    decreases k,
{
    if k > 0 {
        let p = pow256((k - 1) as nat);
        assert(n / 256 < p) by (nonlinear_arith)
            requires
                n < 256 * p,
        ;
        lemma_le_bytes(n / 256, (k - 1) as nat);
        assert(le_bytes(n, k).drop_first() =~= le_bytes(n / 256, (k - 1) as nat));
        assert(n == n % 256 + 256 * (n / 256)) by (nonlinear_arith);
    }
}

pub proof fn lemma_le_value_bound(s: Seq<u8>)
    ensures
        le_value(s) < pow256(s.len()),
    decreases s.len(),
{
    if s.len() > 0 {
        lemma_le_value_bound(s.drop_first());
        let a = le_value(s.drop_first());
        let p = pow256((s.len() - 1) as nat);
        let b = s[0] as nat;
        assert(b + 256 * a < 256 * p) by (nonlinear_arith)
            requires
                a < p,
                b < 256,
        ;
    }
}

/// A size code is read back as the number it was written for, whatever follows.
pub proof fn lemma_size_round_trip(n: nat, rest: Seq<u8>)
    requires
        n < 0x1_0000_0000_0000_0000,
    ensures
        size_decoding(size_code(n) + rest) == Some((n, size_code(n).len())),
{
    reveal_with_fuel(pow256, 9);
    let s = size_code(n) + rest;
    if n < 254 {
    } else if n < 0x1_0000_0000 {
        lemma_le_bytes(n, 4);
        assert(s.subrange(1, 5) =~= le_bytes(n, 4));
    } else {
        lemma_le_bytes(n, 8);
        assert(s.subrange(1, 9) =~= le_bytes(n, 8));
    }
}

/// Writes one byte.
pub fn put_byte<W: Write>(out: &mut W, x: u8)
    ensures
        final(out).written() == old(out).written() + seq![x],
{
    let buf: Vec<u8> = vec![x];
    assert(buf@ =~= seq![x]);
    out.write(buf.as_slice());
}

/// Writes the `k` low-order bytes of `v`, least significant first.
pub fn put_le<W: Write>(out: &mut W, v: u128, k: usize)
    requires
        k <= 16,
    ensures
        final(out).written() == old(out).written() + le_bytes(v as nat, k as nat),
{
    let mut buf: Vec<u8> = Vec::new();
    let mut x: u128 = v;
    let mut i: usize = 0;
    while i < k
        invariant
            i <= k,
            buf@ + le_bytes(x as nat, (k - i) as nat) == le_bytes(v as nat, k as nat),
        decreases k - i,
    {
        let ghost rest = le_bytes(x as nat / 256, (k - i - 1) as nat);
        assert(le_bytes(x as nat, (k - i) as nat) == seq![(x % 256) as u8] + rest);
        buf.push((x % 256) as u8);
        x = x / 256;
        i = i + 1;
        assert(buf@ + le_bytes(x as nat, (k - i) as nat) =~= le_bytes(v as nat, k as nat));
    }
    assert(buf@ =~= le_bytes(v as nat, k as nat));
    out.write(buf.as_slice());
}

} // verus!
