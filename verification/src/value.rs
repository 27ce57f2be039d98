use vstd::prelude::*;

use vstd::utf8::{decode_utf8, is_leading_byte_width_1, partial_valid_utf8,
    partial_valid_utf8_extend_ascii_block, valid_utf8};

use crate::error::Error;
use crate::types::{string_from_utf8, AsRust, CBytes, CBytesVal};
use crate::wire::{be_bytes_signed, be_value, be_value_signed, from_bytes, from_i_bytes,
    lemma_be_bytes_len, lemma_be_signed_round_trip, lemma_be_value_bound, pow256};

verus! {

/// What a `boolean` payload decodes to: exactly one byte, zero meaning
/// false and anything else true.
pub open spec fn spec_decode_boolean(s: Seq<u8>) -> Result<bool, Error> {
    if s.len() == 1 {
        Ok(s[0] != 0)
    } else {
        Err(Error::TypeMismatch)
    }
}

/// Decodes a `boolean` payload.
pub fn decode_boolean(bytes: Vec<u8>) -> (r: Result<bool, Error>)
    ensures
        r == spec_decode_boolean(bytes@),
{
    if bytes.len() != 1 {
        return Err(Error::TypeMismatch);
    }
    Ok(bytes[0] != 0)
}

/// Encodes a `boolean` as its single byte.
pub fn encode_boolean(v: bool) -> (r: Vec<u8>)
    ensures
        r@ == seq![if v { 1u8 } else { 0u8 }],
        spec_decode_boolean(r@) == Ok::<bool, Error>(v),
{
    let mut r: Vec<u8> = Vec::new();
    r.push(if v { 1u8 } else { 0u8 });
    proof {
        assert(r@ =~= seq![if v { 1u8 } else { 0u8 }]);
    }
    r
}

/// What a `tinyint` payload decodes to: one signed byte.
pub open spec fn spec_decode_tinyint(s: Seq<u8>) -> Result<i8, Error> {
    if s.len() == 1 {
        Ok(be_value_signed(s) as i8)
    } else {
        Err(Error::TypeMismatch)
    }
}

/// Decodes a `tinyint` payload.
pub fn decode_tinyint(bytes: Vec<u8>) -> (r: Result<i8, Error>)
    ensures
        r == spec_decode_tinyint(bytes@),
{
    if bytes.len() != 1 {
        return Err(Error::TypeMismatch);
    }
    proof {
        lemma_be_value_bound(bytes@);
        assert(pow256(1) == 0x100) by {
            reveal_with_fuel(pow256, 2);
        }
    }
    let v = from_i_bytes(bytes);
    Ok(v as i8)
}

/// What a `smallint` payload decodes to: two signed big-endian bytes.
pub open spec fn spec_decode_smallint(s: Seq<u8>) -> Result<i16, Error> {
    if s.len() == 2 {
        Ok(be_value_signed(s) as i16)
    } else {
        Err(Error::TypeMismatch)
    }
}

/// Decodes a `smallint` payload.
pub fn decode_smallint(bytes: Vec<u8>) -> (r: Result<i16, Error>)
    ensures
        r == spec_decode_smallint(bytes@),
{
    if bytes.len() != 2 {
        return Err(Error::TypeMismatch);
    }
    proof {
        lemma_be_value_bound(bytes@);
        assert(pow256(2) == 0x10000) by {
            reveal_with_fuel(pow256, 3);
        }
    }
    let v = from_i_bytes(bytes);
    Ok(v as i16)
}

/// What an `int` payload decodes to: four signed big-endian bytes.
pub open spec fn spec_decode_int(s: Seq<u8>) -> Result<i32, Error> {
    if s.len() == 4 {
        Ok(be_value_signed(s) as i32)
    } else {
        Err(Error::TypeMismatch)
    }
}

/// Decodes an `int` payload.
pub fn decode_int(bytes: Vec<u8>) -> (r: Result<i32, Error>)
    ensures
        r == spec_decode_int(bytes@),
{
    if bytes.len() != 4 {
        return Err(Error::TypeMismatch);
    }
    proof {
        lemma_be_value_bound(bytes@);
        assert(pow256(4) == 0x100000000) by {
            reveal_with_fuel(pow256, 5);
        }
    }
    let v = from_i_bytes(bytes);
    Ok(v as i32)
}

/// What a `bigint`, `counter` or `timestamp` payload decodes to: eight
/// signed big-endian bytes.
pub open spec fn spec_decode_bigint(s: Seq<u8>) -> Result<i64, Error> {
    if s.len() == 8 {
        Ok(be_value_signed(s) as i64)
    } else {
        Err(Error::TypeMismatch)
    }
}

/// Decodes a `bigint`, `counter` or `timestamp` payload.
pub fn decode_bigint(bytes: Vec<u8>) -> (r: Result<i64, Error>)
    ensures
        r == spec_decode_bigint(bytes@),
{
    if bytes.len() != 8 {
        return Err(Error::TypeMismatch);
    }
    Ok(from_i_bytes(bytes))
}

/// What a `date` payload decodes to: four unsigned big-endian bytes, the
/// day count centered at 2^31.
pub open spec fn spec_decode_date(s: Seq<u8>) -> Result<u32, Error> {
    if s.len() == 4 {
        Ok(be_value(s) as u32)
    } else {
        Err(Error::TypeMismatch)
    }
}

/// Decodes a `date` payload.
pub fn decode_date(bytes: Vec<u8>) -> (r: Result<u32, Error>)
    ensures
        r == spec_decode_date(bytes@),
{
    if bytes.len() != 4 {
        return Err(Error::TypeMismatch);
    }
    proof {
        lemma_be_value_bound(bytes@);
        assert(pow256(4) == 0x100000000) by {
            reveal_with_fuel(pow256, 5);
        }
    }
    let v = from_bytes(bytes);
    Ok(v as u32)
}

/// Nanoseconds in a day: the exclusive upper bound of a `time` value.
pub const NANOS_PER_DAY: u64 = 86400000000000;

/// What a `time` payload decodes to: eight bytes of nanoseconds since
/// midnight, within the day.
pub open spec fn spec_decode_time(s: Seq<u8>) -> Result<i64, Error> {
    if s.len() != 8 {
        Err(Error::TypeMismatch)
    } else {
        let v = be_value_signed(s);
        if 0 <= v < NANOS_PER_DAY {
            Ok(v as i64)
        } else {
            Err(Error::TypeMismatch)
        }
    }
}

/// Decodes a `time` payload, rejecting values outside the day.
pub fn decode_time(bytes: Vec<u8>) -> (r: Result<i64, Error>)
    ensures
        r == spec_decode_time(bytes@),
{
    if bytes.len() != 8 {
        return Err(Error::TypeMismatch);
    }
    let v = from_i_bytes(bytes);
    if 0 <= v && v < NANOS_PER_DAY as i64 {
        Ok(v)
    } else {
        Err(Error::TypeMismatch)
    }
}

/// What a `uuid` or `timeuuid` payload decodes to: its sixteen raw bytes.
pub open spec fn spec_decode_uuid(s: Seq<u8>) -> Result<Seq<u8>, Error> {
    if s.len() == 16 {
        Ok(s)
    } else {
        Err(Error::TypeMismatch)
    }
}

/// Decodes a `uuid` payload.
pub fn decode_uuid(bytes: Vec<u8>) -> (r: Result<Vec<u8>, Error>)
    ensures
        match spec_decode_uuid(bytes@) {
            Ok(v) => r is Ok && r->Ok_0@ == v,
            Err(e) => r is Err && r->Err_0 == e,
        },
{
    if bytes.len() != 16 {
        return Err(Error::TypeMismatch);
    }
    Ok(bytes)
}

/// What a `varchar` payload decodes to: the UTF-8 decoding of the bytes.
pub open spec fn spec_decode_varchar(s: Seq<u8>) -> Result<Seq<char>, Error> {
    if valid_utf8(s) {
        Ok(decode_utf8(s))
    } else {
        Err(Error::InvalidUtf8)
    }
}

/// Decodes a `varchar` payload.
pub fn decode_varchar(bytes: Vec<u8>) -> (r: Result<String, Error>)
    ensures
        match spec_decode_varchar(bytes@) {
            Ok(v) => r is Ok && r->Ok_0@ == v,
            Err(e) => r is Err && r->Err_0 == e,
        },
{
    match string_from_utf8(bytes) {
        Some(s) => Ok(s),
        None => Err(Error::InvalidUtf8),
    }
}

/// Whether every byte is seven-bit.
pub open spec fn ascii_bytes(s: Seq<u8>) -> bool {
    forall|i: int| 0 <= i < s.len() ==> (#[trigger] s[i]) < 0x80
}

/// What an `ascii` payload decodes to: the characters of its seven-bit
/// bytes; any byte with the high bit set is rejected.
pub open spec fn spec_decode_ascii(s: Seq<u8>) -> Result<Seq<char>, Error> {
    if ascii_bytes(s) {
        Ok(decode_utf8(s))
    } else {
        Err(Error::InvalidUtf8)
    }
}

/// Seven-bit bytes are UTF-8.
pub proof fn lemma_ascii_is_utf8(s: Seq<u8>)
    requires
        ascii_bytes(s),
    ensures
        valid_utf8(s),
{
    assert forall|i: int| 0 <= 0 <= i < s.len() <= s.len() implies #[trigger] is_leading_byte_width_1(
        s[i],
    ) by {
        assert(s[i] < 0x80);
    }
    assert(partial_valid_utf8(s, 0)) by {
        assert(s.subrange(0, 0) =~= Seq::<u8>::empty());
        reveal_with_fuel(valid_utf8, 1);
    }
    partial_valid_utf8_extend_ascii_block(s, 0, s.len() as int);
    assert(s.subrange(0, s.len() as int) =~= s);
}

/// Decodes an `ascii` payload, validated as pure seven-bit.
pub fn decode_ascii(bytes: Vec<u8>) -> (r: Result<String, Error>)
    ensures
        match spec_decode_ascii(bytes@) {
            Ok(v) => r is Ok && r->Ok_0@ == v,
            Err(e) => r is Err && r->Err_0 == e,
        },
{
    let mut i: usize = 0;
    while i < bytes.len()
        invariant
            i <= bytes@.len(),
            forall|j: int| 0 <= j < i ==> (#[trigger] bytes@[j]) < 0x80,
        decreases bytes@.len() - i,
    {
        if bytes[i] >= 0x80 {
            return Err(Error::InvalidUtf8);
        }
        i = i + 1;
    }
    proof {
        lemma_ascii_is_utf8(bytes@);
    }
    match string_from_utf8(bytes) {
        Some(s) => Ok(s),
        None => {
            proof {
                assert(false);
            }
            Err(Error::InvalidUtf8)
        },
    }
}

/// Encodes an `int` as its four-byte payload.
pub fn encode_int(v: i32) -> (r: Vec<u8>)
    ensures
        r@ == be_bytes_signed(v as int, 4),
        spec_decode_int(r@) == Ok::<i32, Error>(v),
{
    proof {
        assert(pow256(4) == 0x100000000) by {
            reveal_with_fuel(pow256, 5);
        }
        lemma_be_bytes_len(if v >= 0 { v as nat } else { (v + pow256(4)) as nat }, 4);
        lemma_be_signed_round_trip(v as int, 4);
    }
    crate::wire::i_to_n_bytes(v as i64, 4)
}

/// Encodes a `bigint`, `counter` or `timestamp` as its eight-byte payload.
pub fn encode_bigint(v: i64) -> (r: Vec<u8>)
    ensures
        r@ == be_bytes_signed(v as int, 8),
        spec_decode_bigint(r@) == Ok::<i64, Error>(v),
{
    proof {
        assert(pow256(8) == 0x10000000000000000) by {
            reveal_with_fuel(pow256, 9);
        }
        lemma_be_bytes_len(if v >= 0 { v as nat } else { (v + pow256(8)) as nat }, 8);
        lemma_be_signed_round_trip(v as int, 8);
    }
    crate::wire::i_to_n_bytes(v, 8)
}

/// Encodes a `smallint` as its two-byte payload.
pub fn encode_smallint(v: i16) -> (r: Vec<u8>)
    ensures
        r@ == be_bytes_signed(v as int, 2),
        spec_decode_smallint(r@) == Ok::<i16, Error>(v),
{
    proof {
        assert(pow256(2) == 0x10000) by {
            reveal_with_fuel(pow256, 3);
        }
        lemma_be_bytes_len(if v >= 0 { v as nat } else { (v + pow256(2)) as nat }, 2);
        lemma_be_signed_round_trip(v as int, 2);
    }
    crate::wire::i_to_n_bytes(v as i64, 2)
}

/// Encodes a `tinyint` as its one-byte payload.
pub fn encode_tinyint(v: i8) -> (r: Vec<u8>)
    ensures
        r@ == be_bytes_signed(v as int, 1),
        spec_decode_tinyint(r@) == Ok::<i8, Error>(v),
{
    proof {
        assert(pow256(1) == 0x100) by {
            reveal_with_fuel(pow256, 2);
        }
        lemma_be_bytes_len(if v >= 0 { v as nat } else { (v + pow256(1)) as nat }, 1);
        lemma_be_signed_round_trip(v as int, 1);
    }
    crate::wire::i_to_n_bytes(v as i64, 1)
}

impl AsRust<i32> for CBytes {
    open spec fn spec_as_rust(&self) -> Result<i32, Error> {
        match self@ {
            CBytesVal::Bytes(b) => spec_decode_int(b),
            _ => Err(Error::TypeMismatch),
        }
    }

    /// Reads the payload as an `int` column; null and not-set have no value.
    fn as_rust(&self) -> (r: Result<i32, Error>) {
        match self {
            CBytes::Present(_) => decode_int(self.as_plain()),
            _ => Err(Error::TypeMismatch),
        }
    }
}

impl AsRust<i64> for CBytes {
    open spec fn spec_as_rust(&self) -> Result<i64, Error> {
        match self@ {
            CBytesVal::Bytes(b) => spec_decode_bigint(b),
            _ => Err(Error::TypeMismatch),
        }
    }

    /// Reads the payload as a `bigint` column.
    fn as_rust(&self) -> (r: Result<i64, Error>) {
        match self {
            CBytes::Present(_) => decode_bigint(self.as_plain()),
            _ => Err(Error::TypeMismatch),
        }
    }
}

impl AsRust<bool> for CBytes {
    open spec fn spec_as_rust(&self) -> Result<bool, Error> {
        match self@ {
            CBytesVal::Bytes(b) => spec_decode_boolean(b),
            _ => Err(Error::TypeMismatch),
        }
    }

    /// Reads the payload as a `boolean` column.
    fn as_rust(&self) -> (r: Result<bool, Error>) {
        match self {
            CBytes::Present(_) => decode_boolean(self.as_plain()),
            _ => Err(Error::TypeMismatch),
        }
    }
}

impl AsRust<String> for CBytes {
    open spec fn spec_as_rust(&self) -> Result<Seq<char>, Error> {
        match self@ {
            CBytesVal::Bytes(b) => spec_decode_varchar(b),
            _ => Err(Error::TypeMismatch),
        }
    }

    /// Reads the payload as a `varchar` column.
    fn as_rust(&self) -> (r: Result<String, Error>) {
        match self {
            CBytes::Present(_) => decode_varchar(self.as_plain()),
            _ => Err(Error::TypeMismatch),
        }
    }
}

} // verus!
