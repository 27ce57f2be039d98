//! A native-protocol Cassandra client core: the CQL binary protocol v4
//! codec — length-prefixed primitives, typed values, frames and message
//! bodies — together with the connection handshake state machine.

use vstd::prelude::*;

pub mod auth;
pub mod connection;
pub mod consistency;
pub mod cursor;
pub mod error;
pub mod events;
pub mod frame;
pub mod laws;
pub mod types;
pub mod value;
pub mod wire;

use crate::cursor::Cursor;
use crate::error::Error;

verus! {

/// `IntoBytes` converts a structure into its wire image.
pub trait IntoBytes: View {
    /// The byte string this value encodes to.
    spec fn wire(&self) -> Seq<u8>;

    /// Whether the value fits the width of its length prefixes.
    spec fn encodable(&self) -> bool;

    /// Returns the wire image of the value.
    fn into_cbytes(&self) -> (r: Vec<u8>)
        requires
            self.encodable(),
        ensures
            r@ == self.wire(),
    ;
}

/// `FromBytes` parses a whole buffer into a structure.
pub trait FromBytes: View + Sized {
    /// What parsing the buffer yields: the decoded view, or the error.
    spec fn spec_from_bytes(s: Seq<u8>) -> Result<Self::V, Error>;

    /// Parses the buffer.
    fn from_bytes(bytes: Vec<u8>) -> (r: Result<Self, Error>)
        ensures
            match Self::spec_from_bytes(bytes@) {
                Ok(v) => r is Ok && r->Ok_0@ == v,
                Err(e) => r is Err && r->Err_0 == e,
            },
    ;
}

/// `AsByte` represents a value as the single byte it is carried in.
pub trait AsByte: Sized {
    /// The byte that carries this value.
    spec fn spec_byte(&self) -> u8;

    /// Returns the byte that carries this value.
    fn as_byte(&self) -> (r: u8)
        ensures
            r == self.spec_byte(),
    ;
}

/// `FromSingleByte` recovers a value from the single byte that carries it.
/// It is opposite to `AsByte`.
pub trait FromSingleByte: Sized {
    /// Whether the byte denotes a value at all.
    spec fn valid_byte(b: u8) -> bool;

    /// The value the byte denotes.
    spec fn spec_from_byte(b: u8) -> Self;

    /// Recovers the value from its byte.
    fn from_byte(b: u8) -> (r: Self)
        requires
            Self::valid_byte(b),
        ensures
            r == Self::spec_from_byte(b),
    ;
}

/// `FromCursor` parses a structure off the front of a cursor, advancing it
/// by exactly the bytes consumed.
pub trait FromCursor: View + Sized {
    /// What parsing the byte string yields: the decoded view together with
    /// the number of bytes consumed, or the error.
    spec fn spec_from(s: Seq<u8>) -> Result<(Self::V, int), Error>;

    /// Parses one value off the cursor.
    fn from_cursor(cursor: &mut Cursor) -> (r: Result<Self, Error>)
        requires
            old(cursor).wf(),
        ensures
            final(cursor).wf(),
            final(cursor)@ == old(cursor)@,
            match Self::spec_from(old(cursor).remaining()) {
                Ok(p) => r is Ok && r->Ok_0@ == p.0 && p.1 >= 0 && final(cursor).spec_pos() == old(
                    cursor,
                ).spec_pos() + p.1,
                Err(e) => r is Err && r->Err_0 == e,
            },
    ;
}

} // verus!
