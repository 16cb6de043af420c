//! Properties that hold of the codec as a whole.
use vstd::prelude::*;

use crate::size::{le_bytes, lemma_size_round_trip, size_code, size_decoding};
use crate::types::{FromBytes, ToBytes};
use crate::unordered::{entries_map, keys_distinct, lemma_same_entries_same_map};

verus! {

/// Round trip: decoding the encoding of any representable value gives that
/// value back, and consumes the whole encoding.
pub proof fn law_round_trip<T: FromBytes>(v: T::V)
    requires
        T::representable(v),
    ensures
        T::decoding(T::encoding(v)) == Some((v, T::encoding(v).len())),
{
    T::lemma_round_trip(v, Seq::empty());
    assert(T::encoding(v) + Seq::<u8>::empty() =~= T::encoding(v));
}

/// Exact consumption: whatever bytes follow an encoding, decoding reads the
/// same value and consumes exactly the encoding's length, no more and no less.
pub proof fn law_exact_consumption<T: FromBytes>(v: T::V, rest: Seq<u8>)
    requires
        T::representable(v),
    ensures
        T::decoding(T::encoding(v) + rest) is Some,
        (T::decoding(T::encoding(v) + rest)->0).0 == v,
        (T::decoding(T::encoding(v) + rest)->0).1 == T::encoding(v).len(),
{
    T::lemma_round_trip(v, rest);
}

/// The size code is 1 byte below 254, 5 bytes opening with 254 below 2^32,
/// and 9 bytes opening with 255 above; its first byte alone tells its length,
/// and decoding inverts it.
pub proof fn law_size_code_boundaries(n: nat)
    requires
        n < 0x1_0000_0000_0000_0000,
    ensures
        n < 254 ==> size_code(n) == seq![n as u8],
        254 <= n < 0x1_0000_0000 ==> size_code(n).len() == 5 && size_code(n)[0] == 254,
        0x1_0000_0000 <= n ==> size_code(n).len() == 9 && size_code(n)[0] == 255,
        size_decoding(size_code(n)) == Some((n, size_code(n).len())),
{
    reveal_with_fuel(le_bytes, 9);
    lemma_size_round_trip(n, Seq::empty());
    assert(size_code(n) + Seq::<u8>::empty() =~= size_code(n));
}

/// Field order must match: the bytes of a `(u8, u16)` pair `(x, y)`, read
/// back as a `(u16, u8)` pair, give `(x + 256 * (y % 256), y / 256)`, which is
/// the pair swapped only where `y == 257 * x`.
pub proof fn law_field_order(x: u8, y: u16)
    ensures
        <(u16, u8)>::decoding(<(u8, u16)>::encoding((x, y))) == Some(
            (((x + 256 * (y % 256)) as u16, (y / 256) as u8), 3nat),
        ),
        ((x + 256 * (y % 256)) as u16 == y && (y / 256) as u8 == x) <==> y == 257 * x,
{
    reveal_with_fuel(le_bytes, 3);
    reveal_with_fuel(crate::size::le_value, 3);
    let s = <(u8, u16)>::encoding((x, y));
    assert(s =~= seq![x, (y % 256) as u8, ((y / 256) % 256) as u8]);
    assert(s.take(2) =~= seq![x, (y % 256) as u8]);
    assert(s.skip(2).take(1) =~= seq![((y / 256) % 256) as u8]);
    assert(s.take(2).drop_first() =~= seq![(y % 256) as u8]);
    assert(s.skip(2).take(1).drop_first() =~= Seq::<u8>::empty());
    assert(s.take(2).drop_first().drop_first() =~= Seq::<u8>::empty());
    assert(y == y % 256 + 256 * (y / 256));
}

/// Unordered content equivalence: an unordered map is written as its entry
/// count, then its entries in whatever order the map yields them. Whatever
/// that order, reading the bytes back gives the same entries, and building a
/// map from them gives the same map as from any other order of those entries.
/// The bytes themselves may differ from one order to another.
pub proof fn law_unordered_content<K: FromBytes, V: FromBytes>(
    entries: Seq<(K::V, V::V)>,
    other_order: Seq<(K::V, V::V)>,
)
    requires
        <Vec<(K, V)>>::representable(entries),
        keys_distinct::<K, V>(entries),
        keys_distinct::<K, V>(other_order),
        entries.to_set() == other_order.to_set(),
    ensures
        <Vec<(K, V)>>::decoding(<Vec<(K, V)>>::encoding(entries)) is Some,
        entries_map::<K, V>((<Vec<(K, V)>>::decoding(<Vec<(K, V)>>::encoding(entries))->0).0)
            == entries_map::<K, V>(other_order),
        forall|k: K::V, v: V::V|
            entries_map::<K, V>(other_order).contains_pair(k, v) <==> #[trigger] entries.contains(
                (k, v),
            ),
{
    law_round_trip::<Vec<(K, V)>>(entries);
    lemma_same_entries_same_map::<K, V>(entries, other_order);
}

} // verus!
