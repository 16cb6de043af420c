//! Options, boxes and sequences.
use std::collections::VecDeque;

use vstd::prelude::*;

use crate::bytes::Bytes;
use crate::io::Write;
use crate::size::{put_byte, size_code};
use crate::types::{FromBytes, ToBytes};

verus! {

impl<T: ToBytes> ToBytes for Option<T> {
    /// A presence byte, ASCII `'0'` or `'1'`, then the value where present.
    open spec fn encoding(v: Option<T::V>) -> Seq<u8> {
        match v {
            None => seq![0x30u8],
            Some(x) => seq![0x31u8] + T::encoding(x),
        }
    }

    open spec fn representable(v: Option<T::V>) -> bool {
        match v {
            None => true,
            Some(x) => T::representable(x),
        }
    }

    fn to_bytes<W: Write>(&self, out: &mut W) {
        match self {
            None => put_byte(out, 0x30),
            Some(v) => {
                put_byte(out, 0x31);
                v.to_bytes(out);
                assert(final(out).written() =~= old(out).written() + (seq![0x31u8] + T::encoding(v.deep_view())));
            },
        }
    }
}

impl<T: FromBytes> FromBytes for Option<T> {
    /// Absent where the presence byte is ASCII `'0'`; any other byte is
    /// followed by the value.
    open spec fn decoding(s: Seq<u8>) -> Option<(Option<T::V>, nat)> {
        if s.len() == 0 {
            None
        } else if s[0] == 0x30 {
            Some((None, 1))
        } else {
            match T::decoding(s.drop_first()) {
                Some((x, n)) => Some((Some(x), n + 1)),
                None => None,
            }
        }
    }

    proof fn lemma_round_trip(v: Option<T::V>, rest: Seq<u8>) {
        if let Some(x) = v {
            T::lemma_round_trip(x, rest);
            assert((seq![0x31u8] + T::encoding(x) + rest).drop_first() =~= T::encoding(x) + rest);
        }
    }

    fn from_bytes(b: &mut Bytes<'_>) -> (r: Option<T>) {
        let ghost s = b@;
        if b.get_u8() == 0x30 {
            None
        } else {
            assert(b@ == s.drop_first());
            let v = T::from_bytes(b);
            assert(b@ =~= s.skip((Self::decoding(s)->0).1 as int));
            Some(v)
        }
    }
}

impl<T: ToBytes> ToBytes for Box<T> {
    /// Transparent: the encoding of the boxed value.
    open spec fn encoding(v: T::V) -> Seq<u8> {
        T::encoding(v)
    }

    open spec fn representable(v: T::V) -> bool {
        T::representable(v)
    }

    fn to_bytes<W: Write>(&self, out: &mut W) {
        (**self).to_bytes(out);
    }
}

impl<T: FromBytes> FromBytes for Box<T> {
    open spec fn decoding(s: Seq<u8>) -> Option<(T::V, nat)> {
        T::decoding(s)
    }

    proof fn lemma_round_trip(v: T::V, rest: Seq<u8>) {
        T::lemma_round_trip(v, rest);
    }

    fn from_bytes(b: &mut Bytes<'_>) -> (r: Box<T>) {
        Box::new(T::from_bytes(b))
    }
}

/// The encodings of the items of `s`, one after another.
pub open spec fn items_encoding<T: ToBytes>(s: Seq<T::V>) -> Seq<u8>
    decreases s.len(),
{
    if s.len() == 0 {
        Seq::empty()
    } else {
        items_encoding::<T>(s.drop_last()) + T::encoding(s.last())
    }
}

/// Every item of `s` is representable.
pub open spec fn items_representable<T: ToBytes>(s: Seq<T::V>) -> bool {
    forall|i: int| 0 <= i < s.len() ==> #[trigger] T::representable(s[i])
}

/// Reads `n` items one after another from the front of `s`: their models,
/// and the number of bytes they take.
pub open spec fn items_decoding<T: FromBytes>(s: Seq<u8>, n: nat) -> Option<(Seq<T::V>, nat)>
    decreases n,
{
    if n == 0 {
        Some((Seq::empty(), 0))
    } else {
        match T::decoding(s) {
            Some((x, k)) => match items_decoding::<T>(s.skip(k as int), (n - 1) as nat) {
                Some((xs, m)) => Some((seq![x] + xs, k + m)),
                None => None,
            },
            None => None,
        }
    }
}

/// The items' encoding, split after the first item.
pub proof fn lemma_items_encoding_front<T: ToBytes>(s: Seq<T::V>)
    requires
        s.len() > 0,
    ensures
        items_encoding::<T>(s) == T::encoding(s[0]) + items_encoding::<T>(s.drop_first()),
    decreases s.len(),
{
    if s.len() > 1 {
        lemma_items_encoding_front::<T>(s.drop_last());
        assert(s.drop_last().drop_first() =~= s.drop_first().drop_last());
        assert(s.drop_last()[0] == s[0]);
        assert(s.drop_first().last() == s.last());
        assert(items_encoding::<T>(s) =~= T::encoding(s[0]) + items_encoding::<T>(s.drop_first()));
    } else {
        assert(s.drop_last() =~= Seq::<T::V>::empty());
        assert(s.drop_first() =~= Seq::<T::V>::empty());
        assert(items_encoding::<T>(s) =~= T::encoding(s[0]) + items_encoding::<T>(s.drop_first()));
    }
}

/// Reading back `s.len()` items from their encodings gives `s` and consumes
/// exactly those encodings.
pub proof fn lemma_items_round_trip<T: FromBytes>(s: Seq<T::V>, rest: Seq<u8>)
    requires
        items_representable::<T>(s),
    ensures
        items_decoding::<T>(items_encoding::<T>(s) + rest, s.len()) == Some(
            (s, items_encoding::<T>(s).len()),
        ),
    decreases s.len(),
{
    if s.len() == 0 {
        assert(s =~= Seq::<T::V>::empty());
    } else {
        lemma_items_encoding_front::<T>(s);
        let head = T::encoding(s[0]);
        let tail = items_encoding::<T>(s.drop_first());
        assert(T::representable(s[0]));
        T::lemma_round_trip(s[0], tail + rest);
        assert(items_encoding::<T>(s) + rest =~= head + (tail + rest));
        assert((head + (tail + rest)).skip(head.len() as int) =~= tail + rest);
        assert forall|i: int| 0 <= i < s.drop_first().len() implies #[trigger] T::representable(
            s.drop_first()[i],
        ) by {
            assert(s.drop_first()[i] == s[i + 1]);
        }
        lemma_items_round_trip::<T>(s.drop_first(), rest);
        assert(seq![s[0]] + s.drop_first() =~= s);
    }
}

impl<T: ToBytes> ToBytes for Vec<T> {
    /// The size code of the item count, then each item in order.
    open spec fn encoding(v: Seq<T::V>) -> Seq<u8> {
        size_code(v.len()) + items_encoding::<T>(v)
    }

    open spec fn representable(v: Seq<T::V>) -> bool {
        v.len() <= usize::MAX && items_representable::<T>(v)
    }

    fn to_bytes<W: Write>(&self, out: &mut W) {
        let ghost dv = self.deep_view();
        self.len().to_bytes(out);
        let mut i: usize = 0;
        while i < self.len()
            invariant
                i <= self@.len(),
                dv == self.deep_view(),
                out.written() == old(out).written() + size_code(dv.len()) + items_encoding::<T>(
                    dv.take(i as int),
                ),
                forall|j: int| 0 <= j < i ==> #[trigger] T::representable(dv[j]),
            decreases self@.len() - i,
        {
            self[i].to_bytes(out);
            proof {
                let t = dv.take(i + 1);
                assert(t.drop_last() =~= dv.take(i as int));
                assert(t.last() == dv[i as int]);
            }
            i = i + 1;
        }
        assert(dv.take(i as int) =~= dv);
    }
}

impl<T: FromBytes> FromBytes for Vec<T> {
    /// An item count, then that many items.
    open spec fn decoding(s: Seq<u8>) -> Option<(Seq<T::V>, nat)> {
        match usize::decoding(s) {
            Some((n, k)) => match items_decoding::<T>(s.skip(k as int), n as nat) {
                Some((xs, m)) => Some((xs, k + m)),
                None => None,
            },
            None => None,
        }
    }

    proof fn lemma_round_trip(v: Seq<T::V>, rest: Seq<u8>) {
        let c = size_code(v.len());
        let e = items_encoding::<T>(v);
        assert(c + e + rest =~= c + (e + rest));
        usize::lemma_round_trip(v.len() as usize, e + rest);
        assert((c + (e + rest)).skip(c.len() as int) =~= e + rest);
        lemma_items_round_trip::<T>(v, rest);
    }

    fn from_bytes(b: &mut Bytes<'_>) -> (r: Vec<T>) {
        let ghost s = b@;
        let n = usize::from_bytes(b);
        let ghost s1 = b@;
        let ghost total = items_decoding::<T>(s1, n as nat)->0;
        let mut v: Vec<T> = Vec::new();
        let mut i: usize = 0;
        let ghost mut used: nat = 0;
        while i < n
            invariant
                i <= n,
                used <= s1.len(),
                b@ == s1.skip(used as int),
                items_decoding::<T>(b@, (n - i) as nat) is Some,
                v.deep_view() + (items_decoding::<T>(b@, (n - i) as nat)->0).0 == total.0,
                used + (items_decoding::<T>(b@, (n - i) as nat)->0).1 == total.1,
            decreases n - i,
        {
            let ghost before = b@;
            let ghost vb = v.deep_view();
            let x = T::from_bytes(b);
            let ghost k = (T::decoding(before)->0).1;
            v.push(x);
            proof {
                assert(v.deep_view() =~= vb.push(x.deep_view()));
                let rest = items_decoding::<T>(before.skip(k as int), (n - i - 1) as nat)->0;
                assert(vb.push(x.deep_view()) + rest.0 =~= vb + (seq![x.deep_view()] + rest.0));
                assert(s1.skip(used as int).skip(k as int) =~= s1.skip((used + k) as int));
                used = used + k;
            }
            i = i + 1;
        }
        proof {
            assert(v.deep_view() + Seq::<T::V>::empty() =~= v.deep_view());
            assert(s.skip((usize::decoding(s)->0).1 as int).skip(used as int) =~= s.skip(
                (Self::decoding(s)->0).1 as int,
            ));
        }
        v
    }
}

impl<T: ToBytes> ToBytes for VecDeque<T> {
    /// A double-ended queue is written as a sequence, front to back.
    open spec fn encoding(v: Seq<T::V>) -> Seq<u8> {
        <Vec<T>>::encoding(v)
    }

    open spec fn representable(v: Seq<T::V>) -> bool {
        <Vec<T>>::representable(v)
    }

    fn to_bytes<W: Write>(&self, out: &mut W) {
        broadcast use vstd::std_specs::vecdeque::group_vec_dequeue_axioms;

        let ghost dv = self.deep_view();
        self.len().to_bytes(out);
        let mut i: usize = 0;
        while i < self.len()
            invariant
                i <= self@.len(),
                dv == self.deep_view(),
                out.written() == old(out).written() + size_code(dv.len()) + items_encoding::<T>(
                    dv.take(i as int),
                ),
                forall|j: int| 0 <= j < i ==> #[trigger] T::representable(dv[j]),
            decreases self@.len() - i,
        {
            self[i].to_bytes(out);
            proof {
                let t = dv.take(i + 1);
                assert(t.drop_last() =~= dv.take(i as int));
                assert(t.last() == dv[i as int]);
            }
            i = i + 1;
        }
        assert(dv.take(i as int) =~= dv);
    }
}

impl<T: FromBytes> FromBytes for VecDeque<T> {
    open spec fn decoding(s: Seq<u8>) -> Option<(Seq<T::V>, nat)> {
        <Vec<T>>::decoding(s)
    }

    proof fn lemma_round_trip(v: Seq<T::V>, rest: Seq<u8>) {
        <Vec<T>>::lemma_round_trip(v, rest);
    }

    fn from_bytes(b: &mut Bytes<'_>) -> (r: VecDeque<T>) {
        let ghost s = b@;
        let n = usize::from_bytes(b);
        let ghost s1 = b@;
        let ghost total = items_decoding::<T>(s1, n as nat)->0;
        let mut v: VecDeque<T> = VecDeque::new();
        let mut i: usize = 0;
        let ghost mut used: nat = 0;
        while i < n
            invariant
                i <= n,
                used <= s1.len(),
                b@ == s1.skip(used as int),
                items_decoding::<T>(b@, (n - i) as nat) is Some,
                v.deep_view() + (items_decoding::<T>(b@, (n - i) as nat)->0).0 == total.0,
                used + (items_decoding::<T>(b@, (n - i) as nat)->0).1 == total.1,
            decreases n - i,
        {
            let ghost before = b@;
            let ghost vb = v.deep_view();
            let x = T::from_bytes(b);
            let ghost k = (T::decoding(before)->0).1;
            v.push_back(x);
            proof {
                assert(v.deep_view() =~= vb.push(x.deep_view()));
                let rest = items_decoding::<T>(before.skip(k as int), (n - i - 1) as nat)->0;
                assert(vb.push(x.deep_view()) + rest.0 =~= vb + (seq![x.deep_view()] + rest.0));
                assert(s1.skip(used as int).skip(k as int) =~= s1.skip((used + k) as int));
                used = used + k;
            }
            i = i + 1;
        }
        proof {
            assert(v.deep_view() + Seq::<T::V>::empty() =~= v.deep_view());
            assert(s.skip((usize::decoding(s)->0).1 as int).skip(used as int) =~= s.skip(
                (Self::decoding(s)->0).1 as int,
            ));
        }
        v
    }
}

} // verus!
