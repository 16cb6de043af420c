//! UTF-8 strings: the size code of the byte length, then the bytes.
use vstd::prelude::*;
use vstd::utf8::{decode_utf8, encode_utf8, encode_utf8_decode_utf8, encode_utf8_valid_utf8, valid_utf8};

use crate::bytes::Bytes;
use crate::io::Write;
use crate::size::size_code;
use crate::types::{FromBytes, ToBytes};

verus! {

/// Relies on `String::from_utf8`: it succeeds exactly on valid UTF-8, and the
/// string it returns is the one those bytes encode.
#[verifier::external_body]
pub(crate) fn string_from_utf8(b: &[u8]) -> (r: Option<String>)
    ensures
        r is Some <==> valid_utf8(b@),
        r is Some ==> (r->0)@ == decode_utf8(b@),
{
    String::from_utf8(b.to_vec()).ok()
}

impl ToBytes for String {
    /// The size code of the UTF-8 byte length, then the UTF-8 bytes.
    open spec fn encoding(v: Seq<char>) -> Seq<u8> {
        size_code(encode_utf8(v).len()) + encode_utf8(v)
    }

    open spec fn representable(v: Seq<char>) -> bool {
        encode_utf8(v).len() <= usize::MAX
    }

    fn to_bytes<W: Write>(&self, out: &mut W) {
        let data: &[u8] = self.as_str().as_bytes();
        data.len().to_bytes(out);
        out.write(data);
    }
}

/// The UTF-8 string of `n` bytes that follows a size code of length `k` at the
/// front of `s`.
pub open spec fn text_decoding(s: Seq<u8>, n: nat, k: nat) -> Option<(Seq<char>, nat)> {
    if s.len() >= k + n && valid_utf8(s.subrange(k as int, (k + n) as int)) {
        Some((decode_utf8(s.subrange(k as int, (k + n) as int)), k + n))
    } else {
        None
    }
}

impl FromBytes for String {
    /// A size code, then that many bytes of valid UTF-8.
    open spec fn decoding(s: Seq<u8>) -> Option<(Seq<char>, nat)> {
        match usize::decoding(s) {
            Some((n, k)) => text_decoding(s, n as nat, k),
            None => None,
        }
    }

    proof fn lemma_round_trip(v: Seq<char>, rest: Seq<u8>) {
        let e = encode_utf8(v);
        assert(size_code(e.len()) + e + rest =~= size_code(e.len()) + (e + rest));
        usize::lemma_round_trip(e.len() as usize, e + rest);
        let k = size_code(e.len()).len();
        assert((size_code(e.len()) + e + rest).subrange(k as int, (k + e.len()) as int) =~= e);
        encode_utf8_valid_utf8(v);
        encode_utf8_decode_utf8(v);
    }

    fn from_bytes(b: &mut Bytes<'_>) -> (r: String) {
        let ghost s = b@;
        let n = usize::from_bytes(b);
        let ghost k = (usize::decoding(s)->0).1;
        let data = b.get_slice(n);
        assert(data@ =~= s.subrange(k as int, k + n));
        let r = string_from_utf8(data);
        r.unwrap()
    }
}

} // verus!
