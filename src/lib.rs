//! A compact, schema-bound binary encoding.
//!
//! A value is encoded with no self-description: both sides know its shape
//! statically. Lengths, counts and variant indices use a 1-, 5- or 9-byte
//! size code; fixed-width numbers are little-endian; booleans and option
//! flags are the ASCII digits `'0'` and `'1'`; products are the plain
//! concatenation of their fields.
use vstd::prelude::*;

pub mod io;
pub mod bytes;
pub mod size;
pub mod types;
pub mod scalar;
pub mod text;
pub mod container;
pub mod product;
pub mod ser;
pub mod de;
pub mod laws;
pub mod unordered;

pub use crate::bytes::Bytes;
pub use crate::de::{from_bytes, Deserializer, FixedAccess};
pub use crate::io::Write;
pub use crate::ser::{to_bytes, Serializer, SerializerCollection};
pub use crate::types::{FromBytes, ToBytes};
