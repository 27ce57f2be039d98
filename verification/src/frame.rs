use vstd::prelude::*;

use crate::cursor::{cursor_next_value, Cursor};
use crate::error::{Error, ServerErrorKind, spec_server_error_kind, server_error_kind_of};
use crate::consistency::{consistency_code, Consistency};
use crate::types::{CString, CStringLong, CStringMap, long_string_wire, spec_int_from,
    spec_short_from, spec_string_from, string_map_wire};
use crate::wire::{be_bytes, be_bytes_signed, pow256};
use crate::{AsByte, FromCursor, FromSingleByte, IntoBytes};

verus! {

/// The closed set of frame opcodes of protocol v4.
#[derive(Clone, Copy, Debug, PartialEq, Eq, Structural)]
pub enum Opcode {
    Error,
    Startup,
    Ready,
    Authenticate,
    Options,
    Supported,
    Query,
    QueryResult,
    Prepare,
    Execute,
    Register,
    Event,
    Batch,
    AuthChallenge,
    AuthResponse,
    AuthSuccess,
}

/// The byte that carries each opcode on the wire.
pub open spec fn opcode_byte(op: Opcode) -> u8 {
    match op {
        Opcode::Error => 0x00,
        Opcode::Startup => 0x01,
        Opcode::Ready => 0x02,
        Opcode::Authenticate => 0x03,
        Opcode::Options => 0x05,
        Opcode::Supported => 0x06,
        Opcode::Query => 0x07,
        Opcode::QueryResult => 0x08,
        Opcode::Prepare => 0x09,
        Opcode::Execute => 0x0A,
        Opcode::Register => 0x0B,
        Opcode::Event => 0x0C,
        Opcode::Batch => 0x0D,
        Opcode::AuthChallenge => 0x0E,
        Opcode::AuthResponse => 0x0F,
        Opcode::AuthSuccess => 0x10,
    }
}

/// The opcode a byte denotes, if any.
pub open spec fn spec_opcode_of(b: u8) -> Option<Opcode> {
    if b == 0x00 {
        Some(Opcode::Error)
    } else if b == 0x01 {
        Some(Opcode::Startup)
    } else if b == 0x02 {
        Some(Opcode::Ready)
    } else if b == 0x03 {
        Some(Opcode::Authenticate)
    } else if b == 0x05 {
        Some(Opcode::Options)
    } else if b == 0x06 {
        Some(Opcode::Supported)
    } else if b == 0x07 {
        Some(Opcode::Query)
    } else if b == 0x08 {
        Some(Opcode::QueryResult)
    } else if b == 0x09 {
        Some(Opcode::Prepare)
    } else if b == 0x0A {
        Some(Opcode::Execute)
    } else if b == 0x0B {
        Some(Opcode::Register)
    } else if b == 0x0C {
        Some(Opcode::Event)
    } else if b == 0x0D {
        Some(Opcode::Batch)
    } else if b == 0x0E {
        Some(Opcode::AuthChallenge)
    } else if b == 0x0F {
        Some(Opcode::AuthResponse)
    } else if b == 0x10 {
        Some(Opcode::AuthSuccess)
    } else {
        None
    }
}

/// Maps a byte to its opcode; `None` for bytes the protocol does not define.
pub fn opcode_of(b: u8) -> (r: Option<Opcode>)
    ensures
        r == spec_opcode_of(b),
{
    if b == 0x00 {
        Some(Opcode::Error)
    } else if b == 0x01 {
        Some(Opcode::Startup)
    } else if b == 0x02 {
        Some(Opcode::Ready)
    } else if b == 0x03 {
        Some(Opcode::Authenticate)
    } else if b == 0x05 {
        Some(Opcode::Options)
    } else if b == 0x06 {
        Some(Opcode::Supported)
    } else if b == 0x07 {
        Some(Opcode::Query)
    } else if b == 0x08 {
        Some(Opcode::QueryResult)
    } else if b == 0x09 {
        Some(Opcode::Prepare)
    } else if b == 0x0A {
        Some(Opcode::Execute)
    } else if b == 0x0B {
        Some(Opcode::Register)
    } else if b == 0x0C {
        Some(Opcode::Event)
    } else if b == 0x0D {
        Some(Opcode::Batch)
    } else if b == 0x0E {
        Some(Opcode::AuthChallenge)
    } else if b == 0x0F {
        Some(Opcode::AuthResponse)
    } else if b == 0x10 {
        Some(Opcode::AuthSuccess)
    } else {
        None
    }
}

impl AsByte for Opcode {
    open spec fn spec_byte(&self) -> u8 {
        opcode_byte(*self)
    }

    /// Returns the wire byte of the opcode.
    fn as_byte(&self) -> (r: u8) {
        match self {
            Opcode::Error => 0x00,
            Opcode::Startup => 0x01,
            Opcode::Ready => 0x02,
            Opcode::Authenticate => 0x03,
            Opcode::Options => 0x05,
            Opcode::Supported => 0x06,
            Opcode::Query => 0x07,
            Opcode::QueryResult => 0x08,
            Opcode::Prepare => 0x09,
            Opcode::Execute => 0x0A,
            Opcode::Register => 0x0B,
            Opcode::Event => 0x0C,
            Opcode::Batch => 0x0D,
            Opcode::AuthChallenge => 0x0E,
            Opcode::AuthResponse => 0x0F,
            Opcode::AuthSuccess => 0x10,
        }
    }
}

impl FromSingleByte for Opcode {
    open spec fn valid_byte(b: u8) -> bool {
        spec_opcode_of(b) is Some
    }

    open spec fn spec_from_byte(b: u8) -> Opcode {
        spec_opcode_of(b)->Some_0
    }

    /// Recovers the opcode from its wire byte.
    fn from_byte(b: u8) -> (r: Opcode) {
        match opcode_of(b) {
            Some(op) => op,
            None => {
                proof {
                    assert(false);
                }
                Opcode::Error
            },
        }
    }
}

/// The version byte of every client request.
pub const REQUEST_VERSION: u8 = 0x04;

/// The version byte of every server response.
pub const RESPONSE_VERSION: u8 = 0x84;

/// A complete frame: the 9-byte envelope fields and the body.
#[derive(Debug, Clone, PartialEq)]
pub struct Frame {
    pub version: u8,
    pub flags: u8,
    pub stream: i16,
    pub opcode: Opcode,
    pub body: Vec<u8>,
}

/// A decoded frame as a mathematical value.
pub struct FrameVal {
    pub version: u8,
    pub flags: u8,
    pub stream: int,
    pub opcode: Opcode,
    pub body: Seq<u8>,
}

/// The wire image of a frame: version, flags, two-byte stream id, opcode,
/// four-byte body length, then the body.
pub open spec fn frame_wire(version: u8, flags: u8, stream: int, op: Opcode, body: Seq<u8>) -> Seq<
    u8,
> {
    seq![version, flags] + be_bytes_signed(stream, 2) + seq![opcode_byte(op)] + be_bytes(
        body.len(),
        4,
    ) + body
}

/// Encodes a client request frame: version 0x04, no flags set.
pub fn encode_frame(opcode: Opcode, stream: i16, body: &Vec<u8>) -> (r: Vec<u8>)
    requires
        body@.len() <= 0x7FFFFFFF,
    ensures
        r@ == frame_wire(REQUEST_VERSION as u8, 0, stream as int, opcode, body@),
{
    proof {
        assert(pow256(2) == 0x10000) by {
            reveal_with_fuel(pow256, 3);
        }
        assert(pow256(4) == 0x100000000) by {
            reveal_with_fuel(pow256, 5);
        }
    }
    let mut r: Vec<u8> = Vec::new();
    r.push(REQUEST_VERSION);
    r.push(0x00);
    let sb = crate::wire::i_to_n_bytes(stream as i64, 2);
    r.extend_from_slice(sb.as_slice());
    r.push(opcode.as_byte());
    let lb = crate::wire::to_n_bytes(body.len() as u64, 4);
    r.extend_from_slice(lb.as_slice());
    r.extend_from_slice(body.as_slice());
    proof {
        assert(r@ =~= frame_wire(REQUEST_VERSION as u8, 0, stream as int, opcode, body@));
    }
    r
}

/// What decoding a frame off the front of `s` yields.  The version must be
/// 0x04 or 0x84; a set compression bit with no algorithm negotiated, a flag
/// outside the defined set, an unknown opcode, and a negative body length
/// are protocol violations.
pub open spec fn spec_frame_from(s: Seq<u8>) -> Result<(FrameVal, int), Error> {
    if s.len() < 2 {
        Err(Error::Truncated)
    } else if s[0] != 0x04 && s[0] != 0x84 {
        Err(Error::Protocol)
    } else if s[1] % 2 == 1 || s[1] >= 0x10 {
        Err(Error::Protocol)
    } else {
        match spec_short_from(s.skip(2)) {
            Err(e) => Err(e),
            Ok((stream, _)) => {
                if s.len() < 5 {
                    Err(Error::Truncated)
                } else {
                    match spec_opcode_of(s[4]) {
                        None => Err(Error::Protocol),
                        Some(op) => match spec_int_from(s.skip(5)) {
                            Err(e) => Err(e),
                            Ok((l, _)) => {
                                if l < 0 {
                                    Err(Error::Protocol)
                                } else if s.len() < 9 + l {
                                    Err(Error::Truncated)
                                } else {
                                    Ok(
                                        (
                                            FrameVal {
                                                version: s[0],
                                                flags: s[1],
                                                stream: stream as int,
                                                opcode: op,
                                                body: s.subrange(9, 9 + l),
                                            },
                                            9 + l,
                                        ),
                                    )
                                }
                            },
                        },
                    }
                }
            },
        }
    }
}

/// Decodes a frame off the cursor.  Since no compression is negotiated
/// before STARTUP completes, a set compression bit is rejected here.
pub fn decode_frame(cursor: &mut Cursor) -> (r: Result<Frame, Error>)
    requires
        old(cursor).wf(),
    ensures
        final(cursor).wf(),
        final(cursor)@ == old(cursor)@,
        match spec_frame_from(old(cursor).remaining()) {
            Ok(p) => {
                &&& r is Ok
                &&& r->Ok_0.version == p.0.version
                &&& r->Ok_0.flags == p.0.flags
                &&& r->Ok_0.stream as int == p.0.stream
                &&& r->Ok_0.opcode == p.0.opcode
                &&& r->Ok_0.body@ == p.0.body
                &&& final(cursor).spec_pos() == old(cursor).spec_pos() + p.1
            },
            Err(e) => r is Err && r->Err_0 == e,
        },
{
    let ghost s = old(cursor).remaining();
    let head = match cursor_next_value(cursor, 2) {
        Ok(v) => v,
        Err(e) => {
            return Err(e);
        },
    };
    let version = head[0];
    let flags = head[1];
    proof {
        assert(head@[0] == s[0]);
        assert(head@[1] == s[1]);
        assert(cursor.remaining() =~= s.skip(2));
    }
    if version != 0x04 && version != 0x84 {
        return Err(Error::Protocol);
    }
    if flags % 2 == 1 || flags >= 0x10 {
        return Err(Error::Protocol);
    }
    let stream = match <crate::types::CIntShort as FromCursor>::from_cursor(cursor) {
        Ok(v) => v,
        Err(e) => {
            return Err(e);
        },
    };
    proof {
        assert(cursor.remaining() =~= s.skip(4));
    }
    let ob = match cursor_next_value(cursor, 1) {
        Ok(v) => v,
        Err(e) => {
            return Err(e);
        },
    };
    proof {
        assert(ob@[0] == s[4]);
        assert(cursor.remaining() =~= s.skip(5));
    }
    let opcode = match opcode_of(ob[0]) {
        Some(op) => op,
        None => {
            return Err(Error::Protocol);
        },
    };
    let len = match <crate::types::CInt as FromCursor>::from_cursor(cursor) {
        Ok(v) => v,
        Err(e) => {
            return Err(e);
        },
    };
    proof {
        assert(cursor.remaining() =~= s.skip(9));
    }
    if len < 0 {
        return Err(Error::Protocol);
    }
    let body = match cursor_next_value(cursor, len as u64) {
        Ok(v) => v,
        Err(e) => {
            return Err(e);
        },
    };
    proof {
        assert(body@ =~= s.subrange(9, 9 + len as int));
    }
    Ok(Frame { version, flags, stream, opcode, body })
}

/// What decoding an ERROR body off the front of `s` yields: the four-byte
/// error code, then the message `[string]`; an unknown code is a protocol
/// violation.
pub open spec fn spec_error_body_from(s: Seq<u8>) -> Result<((ServerErrorKind, Seq<char>), int), Error> {
    match spec_int_from(s) {
        Err(e) => Err(e),
        Ok((code, _)) => match spec_server_error_kind(code as int) {
            None => Err(Error::Protocol),
            Some(kind) => match spec_string_from(s.skip(4)) {
                Err(e) => Err(e),
                Ok((msg, m)) => Ok(((kind, msg), 4 + m)),
            },
        },
    }
}

/// Decodes the body of an ERROR frame into the server error kind and its
/// message.
pub fn decode_error_body(cursor: &mut Cursor) -> (r: Result<(ServerErrorKind, CString), Error>)
    requires
        old(cursor).wf(),
    ensures
        final(cursor).wf(),
        final(cursor)@ == old(cursor)@,
        match spec_error_body_from(old(cursor).remaining()) {
            Ok(p) => {
                &&& r is Ok
                &&& r->Ok_0.0 == p.0.0
                &&& r->Ok_0.1@ == p.0.1
                &&& final(cursor).spec_pos() == old(cursor).spec_pos() + p.1
            },
            Err(e) => r is Err && r->Err_0 == e,
        },
{
    let ghost s = old(cursor).remaining();
    let code = match <crate::types::CInt as FromCursor>::from_cursor(cursor) {
        Ok(v) => v,
        Err(e) => {
            return Err(e);
        },
    };
    proof {
        assert(cursor.remaining() =~= s.skip(4));
    }
    let kind = match server_error_kind_of(code) {
        Some(k) => k,
        None => {
            return Err(Error::Protocol);
        },
    };
    let msg = match CString::from_cursor(cursor) {
        Ok(v) => v,
        Err(e) => {
            return Err(e);
        },
    };
    Ok((kind, msg))
}

/// Builds the STARTUP request frame around the option map body; reports
/// `Overflow` if the body outgrows the four-byte length field.
pub fn startup_frame(options: &CStringMap, stream: i16) -> (r: Result<Vec<u8>, Error>)
    requires
        options.encodable(),
    ensures
        string_map_wire(options@).len() <= 0x7FFFFFFF ==> r is Ok && r->Ok_0@ == frame_wire(
            REQUEST_VERSION as u8,
            0,
            stream as int,
            Opcode::Startup,
            string_map_wire(options@),
        ),
        string_map_wire(options@).len() > 0x7FFFFFFF ==> r == Err::<Vec<u8>, Error>(
            Error::Overflow,
        ),
{
    let body = options.into_cbytes();
    if body.len() > 0x7FFFFFFF {
        return Err(Error::Overflow);
    }
    Ok(encode_frame(Opcode::Startup, stream, &body))
}

/// The body of a QUERY request whose parameters block carries only the
/// consistency: the CQL text, the two-byte consistency code, and a cleared
/// flag byte.
pub open spec fn query_body_wire(cql: Seq<char>, c: Consistency) -> Seq<u8> {
    long_string_wire(cql) + be_bytes(consistency_code(c), 2) + seq![0u8]
}

/// Builds the QUERY body with no optional parameter fields.
pub fn query_body(cql: &CStringLong, consistency: &Consistency) -> (r: Vec<u8>)
    requires
        cql.encodable(),
    ensures
        r@ == query_body_wire(cql@, *consistency),
{
    let mut r = cql.into_cbytes();
    let cb = consistency.into_cbytes();
    r.extend_from_slice(cb.as_slice());
    r.push(0u8);
    proof {
        assert(r@ =~= query_body_wire(cql@, *consistency));
    }
    r
}

/// The kind of a RESULT response body.
#[derive(Clone, Copy, Debug, PartialEq, Eq, Structural)]
pub enum ResultKind {
    Void,
    Rows,
    SetKeyspace,
    Prepared,
    SchemaChange,
}

/// The result kind a code denotes, if any.
pub open spec fn spec_result_kind_of(code: int) -> Option<ResultKind> {
    if code == 1 {
        Some(ResultKind::Void)
    } else if code == 2 {
        Some(ResultKind::Rows)
    } else if code == 3 {
        Some(ResultKind::SetKeyspace)
    } else if code == 4 {
        Some(ResultKind::Prepared)
    } else if code == 5 {
        Some(ResultKind::SchemaChange)
    } else {
        None
    }
}

/// What decoding the kind word of a RESULT body off the front of `s`
/// yields; a code outside 1..=5 is a protocol violation.
pub open spec fn spec_result_kind_from(s: Seq<u8>) -> Result<(ResultKind, int), Error> {
    match spec_int_from(s) {
        Err(e) => Err(e),
        Ok((code, _)) => match spec_result_kind_of(code as int) {
            None => Err(Error::Protocol),
            Some(k) => Ok((k, 4)),
        },
    }
}

/// Reads the four-byte kind word that opens every RESULT body.
pub fn decode_result_kind(cursor: &mut Cursor) -> (r: Result<ResultKind, Error>)
    requires
        old(cursor).wf(),
    ensures
        final(cursor).wf(),
        final(cursor)@ == old(cursor)@,
        match spec_result_kind_from(old(cursor).remaining()) {
            Ok(p) => r is Ok && r->Ok_0 == p.0 && final(cursor).spec_pos() == old(
                cursor,
            ).spec_pos() + p.1,
            Err(e) => r is Err && r->Err_0 == e,
        },
{
    let code = match <crate::types::CInt as FromCursor>::from_cursor(cursor) {
        Ok(v) => v,
        Err(e) => {
            return Err(e);
        },
    };
    if code == 1 {
        Ok(ResultKind::Void)
    } else if code == 2 {
        Ok(ResultKind::Rows)
    } else if code == 3 {
        Ok(ResultKind::SetKeyspace)
    } else if code == 4 {
        Ok(ResultKind::Prepared)
    } else if code == 5 {
        Ok(ResultKind::SchemaChange)
    } else {
        Err(Error::Protocol)
    }
}

} // verus!
