//! Tuples: the fields one after another in declared order, with no count;
//! the arity is part of the shape.
use vstd::prelude::*;

use crate::bytes::Bytes;
use crate::io::Write;
use crate::types::{FromBytes, ToBytes};

verus! {

impl<A: ToBytes> ToBytes for (A,) {
    /// The fields' encodings in declared order, with no count.
    open spec fn encoding(v: (A::V,)) -> Seq<u8> {
        A::encoding(v.0)
    }

    open spec fn representable(v: (A::V,)) -> bool {
        A::representable(v.0)
    }

    fn to_bytes<W: Write>(&self, out: &mut W) {
        self.0.to_bytes(out);
        assert(final(out).written() =~= old(out).written() + Self::encoding(self.deep_view()));
    }
}

impl<A: FromBytes> FromBytes for (A,) {
    /// The fields read one after another in declared order.
    open spec fn decoding(s: Seq<u8>) -> Option<((A::V,), nat)> {
        match A::decoding(s) {
            Some((x0, k0)) => Some(((x0,), k0)),
            None => None,
        }
    }

    proof fn lemma_round_trip(v: (A::V,), rest: Seq<u8>) {
        A::lemma_round_trip(v.0, rest);
    }

    fn from_bytes(b: &mut Bytes<'_>) -> (r: (A,)) {
        let ghost s = b@;
        let ghost k0 = (A::decoding(b@)->0).1;
        let x0 = A::from_bytes(b);
        (x0,)
    }
}

impl<A: ToBytes, B: ToBytes> ToBytes for (A, B) {
    /// The fields' encodings in declared order, with no count.
    open spec fn encoding(v: (A::V, B::V)) -> Seq<u8> {
        A::encoding(v.0) + B::encoding(v.1)
    }

    open spec fn representable(v: (A::V, B::V)) -> bool {
        A::representable(v.0) && B::representable(v.1)
    }

    fn to_bytes<W: Write>(&self, out: &mut W) {
        self.0.to_bytes(out);
        self.1.to_bytes(out);
        assert(final(out).written() =~= old(out).written() + Self::encoding(self.deep_view()));
    }
}

impl<A: FromBytes, B: FromBytes> FromBytes for (A, B) {
    /// The fields read one after another in declared order.
    open spec fn decoding(s: Seq<u8>) -> Option<((A::V, B::V), nat)> {
        match A::decoding(s) {
            Some((x0, k0)) => match B::decoding(s.skip(k0 as int)) {
                Some((x1, k1)) => Some(((x0, x1), k0 + k1)),
                None => None,
            },
            None => None,
        }
    }

    proof fn lemma_round_trip(v: (A::V, B::V), rest: Seq<u8>) {
        assert(A::encoding(v.0) + B::encoding(v.1) + rest =~= A::encoding(v.0) + (B::encoding(v.1) + rest));
        A::lemma_round_trip(v.0, B::encoding(v.1) + rest);
        B::lemma_round_trip(v.1, rest);
        assert((A::encoding(v.0) + (B::encoding(v.1) + rest)).skip((A::encoding(v.0)).len() as int) =~= B::encoding(v.1) + rest);
    }

    fn from_bytes(b: &mut Bytes<'_>) -> (r: (A, B)) {
        let ghost s = b@;
        let ghost k0 = (A::decoding(b@)->0).1;
        let x0 = A::from_bytes(b);
        let ghost k1 = (B::decoding(b@)->0).1;
        let x1 = B::from_bytes(b);
        assert(b@ =~= s.skip((k0 + k1) as int));
        (x0, x1)
    }
}

impl<A: ToBytes, B: ToBytes, C: ToBytes> ToBytes for (A, B, C) {
    /// The fields' encodings in declared order, with no count.
    open spec fn encoding(v: (A::V, B::V, C::V)) -> Seq<u8> {
        A::encoding(v.0) + B::encoding(v.1) + C::encoding(v.2)
    }

    open spec fn representable(v: (A::V, B::V, C::V)) -> bool {
        A::representable(v.0) && B::representable(v.1) && C::representable(v.2)
    }

    fn to_bytes<W: Write>(&self, out: &mut W) {
        self.0.to_bytes(out);
        self.1.to_bytes(out);
        self.2.to_bytes(out);
        assert(final(out).written() =~= old(out).written() + Self::encoding(self.deep_view()));
    }
}

impl<A: FromBytes, B: FromBytes, C: FromBytes> FromBytes for (A, B, C) {
    /// The fields read one after another in declared order.
    open spec fn decoding(s: Seq<u8>) -> Option<((A::V, B::V, C::V), nat)> {
        match A::decoding(s) {
            Some((x0, k0)) => match B::decoding(s.skip(k0 as int)) {
                Some((x1, k1)) => match C::decoding(s.skip((k0 + k1) as int)) {
                    Some((x2, k2)) => Some(((x0, x1, x2), (k0 + k1) + k2)),
                    None => None,
                },
                None => None,
            },
            None => None,
        }
    }

    proof fn lemma_round_trip(v: (A::V, B::V, C::V), rest: Seq<u8>) {
        assert(A::encoding(v.0) + B::encoding(v.1) + C::encoding(v.2) + rest =~= A::encoding(v.0) + (B::encoding(v.1) + (C::encoding(v.2) + rest)));
        A::lemma_round_trip(v.0, B::encoding(v.1) + (C::encoding(v.2) + rest));
        B::lemma_round_trip(v.1, C::encoding(v.2) + rest);
        assert((A::encoding(v.0) + (B::encoding(v.1) + (C::encoding(v.2) + rest))).skip((A::encoding(v.0)).len() as int) =~= B::encoding(v.1) + (C::encoding(v.2) + rest));
        C::lemma_round_trip(v.2, rest);
        assert((A::encoding(v.0) + (B::encoding(v.1) + (C::encoding(v.2) + rest))).skip((A::encoding(v.0) + B::encoding(v.1)).len() as int) =~= C::encoding(v.2) + rest);
    }

    fn from_bytes(b: &mut Bytes<'_>) -> (r: (A, B, C)) {
        let ghost s = b@;
        let ghost k0 = (A::decoding(b@)->0).1;
        let x0 = A::from_bytes(b);
        let ghost k1 = (B::decoding(b@)->0).1;
        let x1 = B::from_bytes(b);
        assert(b@ =~= s.skip((k0 + k1) as int));
        let ghost k2 = (C::decoding(b@)->0).1;
        let x2 = C::from_bytes(b);
        assert(b@ =~= s.skip((k0 + k1 + k2) as int));
        (x0, x1, x2)
    }
}

impl<A: ToBytes, B: ToBytes, C: ToBytes, D: ToBytes> ToBytes for (A, B, C, D) {
    /// The fields' encodings in declared order, with no count.
    open spec fn encoding(v: (A::V, B::V, C::V, D::V)) -> Seq<u8> {
        A::encoding(v.0) + B::encoding(v.1) + C::encoding(v.2) + D::encoding(v.3)
    }

    open spec fn representable(v: (A::V, B::V, C::V, D::V)) -> bool {
        A::representable(v.0) && B::representable(v.1) && C::representable(v.2) && D::representable(v.3)
    }

    fn to_bytes<W: Write>(&self, out: &mut W) {
        self.0.to_bytes(out);
        self.1.to_bytes(out);
        self.2.to_bytes(out);
        self.3.to_bytes(out);
        assert(final(out).written() =~= old(out).written() + Self::encoding(self.deep_view()));
    }
}

impl<A: FromBytes, B: FromBytes, C: FromBytes, D: FromBytes> FromBytes for (A, B, C, D) {
    /// The fields read one after another in declared order.
    open spec fn decoding(s: Seq<u8>) -> Option<((A::V, B::V, C::V, D::V), nat)> {
        match A::decoding(s) {
            Some((x0, k0)) => match B::decoding(s.skip(k0 as int)) {
                Some((x1, k1)) => match C::decoding(s.skip((k0 + k1) as int)) {
                    Some((x2, k2)) => match D::decoding(s.skip(((k0 + k1) + k2) as int)) {
                        Some((x3, k3)) => Some(((x0, x1, x2, x3), ((k0 + k1) + k2) + k3)),
                        None => None,
                    },
                    None => None,
                },
                None => None,
            },
            None => None,
        }
    }

    proof fn lemma_round_trip(v: (A::V, B::V, C::V, D::V), rest: Seq<u8>) {
        assert(A::encoding(v.0) + B::encoding(v.1) + C::encoding(v.2) + D::encoding(v.3) + rest =~= A::encoding(v.0) + (B::encoding(v.1) + (C::encoding(v.2) + (D::encoding(v.3) + rest))));
        A::lemma_round_trip(v.0, B::encoding(v.1) + (C::encoding(v.2) + (D::encoding(v.3) + rest)));
        B::lemma_round_trip(v.1, C::encoding(v.2) + (D::encoding(v.3) + rest));
        assert((A::encoding(v.0) + (B::encoding(v.1) + (C::encoding(v.2) + (D::encoding(v.3) + rest)))).skip((A::encoding(v.0)).len() as int) =~= B::encoding(v.1) + (C::encoding(v.2) + (D::encoding(v.3) + rest)));
        C::lemma_round_trip(v.2, D::encoding(v.3) + rest);
        assert((A::encoding(v.0) + (B::encoding(v.1) + (C::encoding(v.2) + (D::encoding(v.3) + rest)))).skip((A::encoding(v.0) + B::encoding(v.1)).len() as int) =~= C::encoding(v.2) + (D::encoding(v.3) + rest));
        D::lemma_round_trip(v.3, rest);
        assert((A::encoding(v.0) + (B::encoding(v.1) + (C::encoding(v.2) + (D::encoding(v.3) + rest)))).skip((A::encoding(v.0) + B::encoding(v.1) + C::encoding(v.2)).len() as int) =~= D::encoding(v.3) + rest);
    }

    fn from_bytes(b: &mut Bytes<'_>) -> (r: (A, B, C, D)) {
        let ghost s = b@;
        let ghost k0 = (A::decoding(b@)->0).1;
        let x0 = A::from_bytes(b);
        let ghost k1 = (B::decoding(b@)->0).1;
        let x1 = B::from_bytes(b);
        assert(b@ =~= s.skip((k0 + k1) as int));
        let ghost k2 = (C::decoding(b@)->0).1;
        let x2 = C::from_bytes(b);
        assert(b@ =~= s.skip((k0 + k1 + k2) as int));
        let ghost k3 = (D::decoding(b@)->0).1;
        let x3 = D::from_bytes(b);
        assert(b@ =~= s.skip((k0 + k1 + k2 + k3) as int));
        (x0, x1, x2, x3)
    }
}

impl<A: ToBytes, B: ToBytes, C: ToBytes, D: ToBytes, E: ToBytes> ToBytes for (A, B, C, D, E) {
    /// The fields' encodings in declared order, with no count.
    open spec fn encoding(v: (A::V, B::V, C::V, D::V, E::V)) -> Seq<u8> {
        A::encoding(v.0) + B::encoding(v.1) + C::encoding(v.2) + D::encoding(v.3) + E::encoding(v.4)
    }

    open spec fn representable(v: (A::V, B::V, C::V, D::V, E::V)) -> bool {
        A::representable(v.0) && B::representable(v.1) && C::representable(v.2) && D::representable(v.3) && E::representable(v.4)
    }

    fn to_bytes<W: Write>(&self, out: &mut W) {
        self.0.to_bytes(out);
        self.1.to_bytes(out);
        self.2.to_bytes(out);
        self.3.to_bytes(out);
        self.4.to_bytes(out);
        assert(final(out).written() =~= old(out).written() + Self::encoding(self.deep_view()));
    }
}

impl<A: FromBytes, B: FromBytes, C: FromBytes, D: FromBytes, E: FromBytes> FromBytes for (A, B, C, D, E) {
    /// The fields read one after another in declared order.
    open spec fn decoding(s: Seq<u8>) -> Option<((A::V, B::V, C::V, D::V, E::V), nat)> {
        match A::decoding(s) {
            Some((x0, k0)) => match B::decoding(s.skip(k0 as int)) {
                Some((x1, k1)) => match C::decoding(s.skip((k0 + k1) as int)) {
                    Some((x2, k2)) => match D::decoding(s.skip(((k0 + k1) + k2) as int)) {
                        Some((x3, k3)) => match E::decoding(s.skip((((k0 + k1) + k2) + k3) as int)) {
                            Some((x4, k4)) => Some(((x0, x1, x2, x3, x4), (((k0 + k1) + k2) + k3) + k4)),
                            None => None,
                        },
                        None => None,
                    },
                    None => None,
                },
                None => None,
            },
            None => None,
        }
    }

    proof fn lemma_round_trip(v: (A::V, B::V, C::V, D::V, E::V), rest: Seq<u8>) {
        assert(A::encoding(v.0) + B::encoding(v.1) + C::encoding(v.2) + D::encoding(v.3) + E::encoding(v.4) + rest =~= A::encoding(v.0) + (B::encoding(v.1) + (C::encoding(v.2) + (D::encoding(v.3) + (E::encoding(v.4) + rest)))));
        A::lemma_round_trip(v.0, B::encoding(v.1) + (C::encoding(v.2) + (D::encoding(v.3) + (E::encoding(v.4) + rest))));
        B::lemma_round_trip(v.1, C::encoding(v.2) + (D::encoding(v.3) + (E::encoding(v.4) + rest)));
        assert((A::encoding(v.0) + (B::encoding(v.1) + (C::encoding(v.2) + (D::encoding(v.3) + (E::encoding(v.4) + rest))))).skip((A::encoding(v.0)).len() as int) =~= B::encoding(v.1) + (C::encoding(v.2) + (D::encoding(v.3) + (E::encoding(v.4) + rest))));
        C::lemma_round_trip(v.2, D::encoding(v.3) + (E::encoding(v.4) + rest));
        assert((A::encoding(v.0) + (B::encoding(v.1) + (C::encoding(v.2) + (D::encoding(v.3) + (E::encoding(v.4) + rest))))).skip((A::encoding(v.0) + B::encoding(v.1)).len() as int) =~= C::encoding(v.2) + (D::encoding(v.3) + (E::encoding(v.4) + rest)));
        D::lemma_round_trip(v.3, E::encoding(v.4) + rest);
        assert((A::encoding(v.0) + (B::encoding(v.1) + (C::encoding(v.2) + (D::encoding(v.3) + (E::encoding(v.4) + rest))))).skip((A::encoding(v.0) + B::encoding(v.1) + C::encoding(v.2)).len() as int) =~= D::encoding(v.3) + (E::encoding(v.4) + rest));
        E::lemma_round_trip(v.4, rest);
        assert((A::encoding(v.0) + (B::encoding(v.1) + (C::encoding(v.2) + (D::encoding(v.3) + (E::encoding(v.4) + rest))))).skip((A::encoding(v.0) + B::encoding(v.1) + C::encoding(v.2) + D::encoding(v.3)).len() as int) =~= E::encoding(v.4) + rest);
    }

    fn from_bytes(b: &mut Bytes<'_>) -> (r: (A, B, C, D, E)) {
        let ghost s = b@;
        let ghost k0 = (A::decoding(b@)->0).1;
        let x0 = A::from_bytes(b);
        let ghost k1 = (B::decoding(b@)->0).1;
        let x1 = B::from_bytes(b);
        assert(b@ =~= s.skip((k0 + k1) as int));
        let ghost k2 = (C::decoding(b@)->0).1;
        let x2 = C::from_bytes(b);
        assert(b@ =~= s.skip((k0 + k1 + k2) as int));
        let ghost k3 = (D::decoding(b@)->0).1;
        let x3 = D::from_bytes(b);
        assert(b@ =~= s.skip((k0 + k1 + k2 + k3) as int));
        let ghost k4 = (E::decoding(b@)->0).1;
        let x4 = E::from_bytes(b);
        assert(b@ =~= s.skip((k0 + k1 + k2 + k3 + k4) as int));
        (x0, x1, x2, x3, x4)
    }
}

impl<A: ToBytes, B: ToBytes, C: ToBytes, D: ToBytes, E: ToBytes, F: ToBytes> ToBytes for (A, B, C, D, E, F) {
    /// The fields' encodings in declared order, with no count.
    open spec fn encoding(v: (A::V, B::V, C::V, D::V, E::V, F::V)) -> Seq<u8> {
        A::encoding(v.0) + B::encoding(v.1) + C::encoding(v.2) + D::encoding(v.3) + E::encoding(v.4) + F::encoding(v.5)
    }

    open spec fn representable(v: (A::V, B::V, C::V, D::V, E::V, F::V)) -> bool {
        A::representable(v.0) && B::representable(v.1) && C::representable(v.2) && D::representable(v.3) && E::representable(v.4) && F::representable(v.5)
    }

    fn to_bytes<W: Write>(&self, out: &mut W) {
        self.0.to_bytes(out);
        self.1.to_bytes(out);
        self.2.to_bytes(out);
        self.3.to_bytes(out);
        self.4.to_bytes(out);
        self.5.to_bytes(out);
        assert(final(out).written() =~= old(out).written() + Self::encoding(self.deep_view()));
    }
}

impl<A: FromBytes, B: FromBytes, C: FromBytes, D: FromBytes, E: FromBytes, F: FromBytes> FromBytes for (A, B, C, D, E, F) {
    /// The fields read one after another in declared order.
    open spec fn decoding(s: Seq<u8>) -> Option<((A::V, B::V, C::V, D::V, E::V, F::V), nat)> {
        match A::decoding(s) {
            Some((x0, k0)) => match B::decoding(s.skip(k0 as int)) {
                Some((x1, k1)) => match C::decoding(s.skip((k0 + k1) as int)) {
                    Some((x2, k2)) => match D::decoding(s.skip(((k0 + k1) + k2) as int)) {
                        Some((x3, k3)) => match E::decoding(s.skip((((k0 + k1) + k2) + k3) as int)) {
                            Some((x4, k4)) => match F::decoding(s.skip(((((k0 + k1) + k2) + k3) + k4) as int)) {
                                Some((x5, k5)) => Some(((x0, x1, x2, x3, x4, x5), ((((k0 + k1) + k2) + k3) + k4) + k5)),
                                None => None,
                            },
                            None => None,
                        },
                        None => None,
                    },
                    None => None,
                },
                None => None,
            },
            None => None,
        }
    }

    proof fn lemma_round_trip(v: (A::V, B::V, C::V, D::V, E::V, F::V), rest: Seq<u8>) {
        assert(A::encoding(v.0) + B::encoding(v.1) + C::encoding(v.2) + D::encoding(v.3) + E::encoding(v.4) + F::encoding(v.5) + rest =~= A::encoding(v.0) + (B::encoding(v.1) + (C::encoding(v.2) + (D::encoding(v.3) + (E::encoding(v.4) + (F::encoding(v.5) + rest))))));
        A::lemma_round_trip(v.0, B::encoding(v.1) + (C::encoding(v.2) + (D::encoding(v.3) + (E::encoding(v.4) + (F::encoding(v.5) + rest)))));
        B::lemma_round_trip(v.1, C::encoding(v.2) + (D::encoding(v.3) + (E::encoding(v.4) + (F::encoding(v.5) + rest))));
        assert((A::encoding(v.0) + (B::encoding(v.1) + (C::encoding(v.2) + (D::encoding(v.3) + (E::encoding(v.4) + (F::encoding(v.5) + rest)))))).skip((A::encoding(v.0)).len() as int) =~= B::encoding(v.1) + (C::encoding(v.2) + (D::encoding(v.3) + (E::encoding(v.4) + (F::encoding(v.5) + rest)))));
        C::lemma_round_trip(v.2, D::encoding(v.3) + (E::encoding(v.4) + (F::encoding(v.5) + rest)));
        assert((A::encoding(v.0) + (B::encoding(v.1) + (C::encoding(v.2) + (D::encoding(v.3) + (E::encoding(v.4) + (F::encoding(v.5) + rest)))))).skip((A::encoding(v.0) + B::encoding(v.1)).len() as int) =~= C::encoding(v.2) + (D::encoding(v.3) + (E::encoding(v.4) + (F::encoding(v.5) + rest))));
        D::lemma_round_trip(v.3, E::encoding(v.4) + (F::encoding(v.5) + rest));
        assert((A::encoding(v.0) + (B::encoding(v.1) + (C::encoding(v.2) + (D::encoding(v.3) + (E::encoding(v.4) + (F::encoding(v.5) + rest)))))).skip((A::encoding(v.0) + B::encoding(v.1) + C::encoding(v.2)).len() as int) =~= D::encoding(v.3) + (E::encoding(v.4) + (F::encoding(v.5) + rest)));
        E::lemma_round_trip(v.4, F::encoding(v.5) + rest);
        assert((A::encoding(v.0) + (B::encoding(v.1) + (C::encoding(v.2) + (D::encoding(v.3) + (E::encoding(v.4) + (F::encoding(v.5) + rest)))))).skip((A::encoding(v.0) + B::encoding(v.1) + C::encoding(v.2) + D::encoding(v.3)).len() as int) =~= E::encoding(v.4) + (F::encoding(v.5) + rest));
        F::lemma_round_trip(v.5, rest);
        assert((A::encoding(v.0) + (B::encoding(v.1) + (C::encoding(v.2) + (D::encoding(v.3) + (E::encoding(v.4) + (F::encoding(v.5) + rest)))))).skip((A::encoding(v.0) + B::encoding(v.1) + C::encoding(v.2) + D::encoding(v.3) + E::encoding(v.4)).len() as int) =~= F::encoding(v.5) + rest);
    }

    fn from_bytes(b: &mut Bytes<'_>) -> (r: (A, B, C, D, E, F)) {
        let ghost s = b@;
        let ghost k0 = (A::decoding(b@)->0).1;
        let x0 = A::from_bytes(b);
        let ghost k1 = (B::decoding(b@)->0).1;
        let x1 = B::from_bytes(b);
        assert(b@ =~= s.skip((k0 + k1) as int));
        let ghost k2 = (C::decoding(b@)->0).1;
        let x2 = C::from_bytes(b);
        assert(b@ =~= s.skip((k0 + k1 + k2) as int));
        let ghost k3 = (D::decoding(b@)->0).1;
        let x3 = D::from_bytes(b);
        assert(b@ =~= s.skip((k0 + k1 + k2 + k3) as int));
        let ghost k4 = (E::decoding(b@)->0).1;
        let x4 = E::from_bytes(b);
        assert(b@ =~= s.skip((k0 + k1 + k2 + k3 + k4) as int));
        let ghost k5 = (F::decoding(b@)->0).1;
        let x5 = F::from_bytes(b);
        assert(b@ =~= s.skip((k0 + k1 + k2 + k3 + k4 + k5) as int));
        (x0, x1, x2, x3, x4, x5)
    }
}

impl<A: ToBytes, B: ToBytes, C: ToBytes, D: ToBytes, E: ToBytes, F: ToBytes, G: ToBytes> ToBytes for (A, B, C, D, E, F, G) {
    /// The fields' encodings in declared order, with no count.
    open spec fn encoding(v: (A::V, B::V, C::V, D::V, E::V, F::V, G::V)) -> Seq<u8> {
        A::encoding(v.0) + B::encoding(v.1) + C::encoding(v.2) + D::encoding(v.3) + E::encoding(v.4) + F::encoding(v.5) + G::encoding(v.6)
    }

    open spec fn representable(v: (A::V, B::V, C::V, D::V, E::V, F::V, G::V)) -> bool {
        A::representable(v.0) && B::representable(v.1) && C::representable(v.2) && D::representable(v.3) && E::representable(v.4) && F::representable(v.5) && G::representable(v.6)
    }

    fn to_bytes<W: Write>(&self, out: &mut W) {
        self.0.to_bytes(out);
        self.1.to_bytes(out);
        self.2.to_bytes(out);
        self.3.to_bytes(out);
        self.4.to_bytes(out);
        self.5.to_bytes(out);
        self.6.to_bytes(out);
        assert(final(out).written() =~= old(out).written() + Self::encoding(self.deep_view()));
    }
}

impl<A: FromBytes, B: FromBytes, C: FromBytes, D: FromBytes, E: FromBytes, F: FromBytes, G: FromBytes> FromBytes for (A, B, C, D, E, F, G) {
    /// The fields read one after another in declared order.
    open spec fn decoding(s: Seq<u8>) -> Option<((A::V, B::V, C::V, D::V, E::V, F::V, G::V), nat)> {
        match A::decoding(s) {
            Some((x0, k0)) => match B::decoding(s.skip(k0 as int)) {
                Some((x1, k1)) => match C::decoding(s.skip((k0 + k1) as int)) {
                    Some((x2, k2)) => match D::decoding(s.skip(((k0 + k1) + k2) as int)) {
                        Some((x3, k3)) => match E::decoding(s.skip((((k0 + k1) + k2) + k3) as int)) {
                            Some((x4, k4)) => match F::decoding(s.skip(((((k0 + k1) + k2) + k3) + k4) as int)) {
                                Some((x5, k5)) => match G::decoding(s.skip((((((k0 + k1) + k2) + k3) + k4) + k5) as int)) {
                                    Some((x6, k6)) => Some(((x0, x1, x2, x3, x4, x5, x6), (((((k0 + k1) + k2) + k3) + k4) + k5) + k6)),
                                    None => None,
                                },
                                None => None,
                            },
                            None => None,
                        },
                        None => None,
                    },
                    None => None,
                },
                None => None,
            },
            None => None,
        }
    }

    proof fn lemma_round_trip(v: (A::V, B::V, C::V, D::V, E::V, F::V, G::V), rest: Seq<u8>) {
        assert(A::encoding(v.0) + B::encoding(v.1) + C::encoding(v.2) + D::encoding(v.3) + E::encoding(v.4) + F::encoding(v.5) + G::encoding(v.6) + rest =~= A::encoding(v.0) + (B::encoding(v.1) + (C::encoding(v.2) + (D::encoding(v.3) + (E::encoding(v.4) + (F::encoding(v.5) + (G::encoding(v.6) + rest)))))));
        A::lemma_round_trip(v.0, B::encoding(v.1) + (C::encoding(v.2) + (D::encoding(v.3) + (E::encoding(v.4) + (F::encoding(v.5) + (G::encoding(v.6) + rest))))));
        B::lemma_round_trip(v.1, C::encoding(v.2) + (D::encoding(v.3) + (E::encoding(v.4) + (F::encoding(v.5) + (G::encoding(v.6) + rest)))));
        assert((A::encoding(v.0) + (B::encoding(v.1) + (C::encoding(v.2) + (D::encoding(v.3) + (E::encoding(v.4) + (F::encoding(v.5) + (G::encoding(v.6) + rest))))))).skip((A::encoding(v.0)).len() as int) =~= B::encoding(v.1) + (C::encoding(v.2) + (D::encoding(v.3) + (E::encoding(v.4) + (F::encoding(v.5) + (G::encoding(v.6) + rest))))));
        C::lemma_round_trip(v.2, D::encoding(v.3) + (E::encoding(v.4) + (F::encoding(v.5) + (G::encoding(v.6) + rest))));
        assert((A::encoding(v.0) + (B::encoding(v.1) + (C::encoding(v.2) + (D::encoding(v.3) + (E::encoding(v.4) + (F::encoding(v.5) + (G::encoding(v.6) + rest))))))).skip((A::encoding(v.0) + B::encoding(v.1)).len() as int) =~= C::encoding(v.2) + (D::encoding(v.3) + (E::encoding(v.4) + (F::encoding(v.5) + (G::encoding(v.6) + rest)))));
        D::lemma_round_trip(v.3, E::encoding(v.4) + (F::encoding(v.5) + (G::encoding(v.6) + rest)));
        assert((A::encoding(v.0) + (B::encoding(v.1) + (C::encoding(v.2) + (D::encoding(v.3) + (E::encoding(v.4) + (F::encoding(v.5) + (G::encoding(v.6) + rest))))))).skip((A::encoding(v.0) + B::encoding(v.1) + C::encoding(v.2)).len() as int) =~= D::encoding(v.3) + (E::encoding(v.4) + (F::encoding(v.5) + (G::encoding(v.6) + rest))));
        E::lemma_round_trip(v.4, F::encoding(v.5) + (G::encoding(v.6) + rest));
        assert((A::encoding(v.0) + (B::encoding(v.1) + (C::encoding(v.2) + (D::encoding(v.3) + (E::encoding(v.4) + (F::encoding(v.5) + (G::encoding(v.6) + rest))))))).skip((A::encoding(v.0) + B::encoding(v.1) + C::encoding(v.2) + D::encoding(v.3)).len() as int) =~= E::encoding(v.4) + (F::encoding(v.5) + (G::encoding(v.6) + rest)));
        F::lemma_round_trip(v.5, G::encoding(v.6) + rest);
        assert((A::encoding(v.0) + (B::encoding(v.1) + (C::encoding(v.2) + (D::encoding(v.3) + (E::encoding(v.4) + (F::encoding(v.5) + (G::encoding(v.6) + rest))))))).skip((A::encoding(v.0) + B::encoding(v.1) + C::encoding(v.2) + D::encoding(v.3) + E::encoding(v.4)).len() as int) =~= F::encoding(v.5) + (G::encoding(v.6) + rest));
        G::lemma_round_trip(v.6, rest);
        assert((A::encoding(v.0) + (B::encoding(v.1) + (C::encoding(v.2) + (D::encoding(v.3) + (E::encoding(v.4) + (F::encoding(v.5) + (G::encoding(v.6) + rest))))))).skip((A::encoding(v.0) + B::encoding(v.1) + C::encoding(v.2) + D::encoding(v.3) + E::encoding(v.4) + F::encoding(v.5)).len() as int) =~= G::encoding(v.6) + rest);
    }

    fn from_bytes(b: &mut Bytes<'_>) -> (r: (A, B, C, D, E, F, G)) {
        let ghost s = b@;
        let ghost k0 = (A::decoding(b@)->0).1;
        let x0 = A::from_bytes(b);
        let ghost k1 = (B::decoding(b@)->0).1;
        let x1 = B::from_bytes(b);
        assert(b@ =~= s.skip((k0 + k1) as int));
        let ghost k2 = (C::decoding(b@)->0).1;
        let x2 = C::from_bytes(b);
        assert(b@ =~= s.skip((k0 + k1 + k2) as int));
        let ghost k3 = (D::decoding(b@)->0).1;
        let x3 = D::from_bytes(b);
        assert(b@ =~= s.skip((k0 + k1 + k2 + k3) as int));
        let ghost k4 = (E::decoding(b@)->0).1;
        let x4 = E::from_bytes(b);
        assert(b@ =~= s.skip((k0 + k1 + k2 + k3 + k4) as int));
        let ghost k5 = (F::decoding(b@)->0).1;
        let x5 = F::from_bytes(b);
        assert(b@ =~= s.skip((k0 + k1 + k2 + k3 + k4 + k5) as int));
        let ghost k6 = (G::decoding(b@)->0).1;
        let x6 = G::from_bytes(b);
        assert(b@ =~= s.skip((k0 + k1 + k2 + k3 + k4 + k5 + k6) as int));
        (x0, x1, x2, x3, x4, x5, x6)
    }
}

} // verus!
