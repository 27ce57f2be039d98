use vstd::prelude::*;

verus! {

/// The sub-kinds of a well-formed ERROR frame, mirroring the Cassandra
/// error-code table of the native protocol.
#[derive(Clone, Copy, Debug, PartialEq, Eq, Structural)]
pub enum ServerErrorKind {
    ServerError,
    ProtocolError,
    BadCredentials,
    Unavailable,
    Overloaded,
    IsBootstrapping,
    TruncateError,
    WriteTimeout,
    ReadTimeout,
    ReadFailure,
    FunctionFailure,
    WriteFailure,
    SyntaxError,
    Unauthorized,
    Invalid,
    ConfigError,
    AlreadyExists,
    Unprepared,
}

/// The error code carried on the wire for each server error kind.
pub open spec fn spec_server_error_code(k: ServerErrorKind) -> int {
    match k {
        ServerErrorKind::ServerError => 0x0000,
        ServerErrorKind::ProtocolError => 0x000A,
        ServerErrorKind::BadCredentials => 0x0100,
        ServerErrorKind::Unavailable => 0x1000,
        ServerErrorKind::Overloaded => 0x1001,
        ServerErrorKind::IsBootstrapping => 0x1002,
        ServerErrorKind::TruncateError => 0x1003,
        ServerErrorKind::WriteTimeout => 0x1100,
        ServerErrorKind::ReadTimeout => 0x1200,
        ServerErrorKind::ReadFailure => 0x1300,
        ServerErrorKind::FunctionFailure => 0x1400,
        ServerErrorKind::WriteFailure => 0x1500,
        ServerErrorKind::SyntaxError => 0x2000,
        ServerErrorKind::Unauthorized => 0x2100,
        ServerErrorKind::Invalid => 0x2200,
        ServerErrorKind::ConfigError => 0x2300,
        ServerErrorKind::AlreadyExists => 0x2400,
        ServerErrorKind::Unprepared => 0x2500,
    }
}

/// The server error kind denoted by a wire error code, if the code is known.
pub open spec fn spec_server_error_kind(code: int) -> Option<ServerErrorKind> {
    if code == 0x0000 {
        Some(ServerErrorKind::ServerError)
    } else if code == 0x000A {
        Some(ServerErrorKind::ProtocolError)
    } else if code == 0x0100 {
        Some(ServerErrorKind::BadCredentials)
    } else if code == 0x1000 {
        Some(ServerErrorKind::Unavailable)
    } else if code == 0x1001 {
        Some(ServerErrorKind::Overloaded)
    } else if code == 0x1002 {
        Some(ServerErrorKind::IsBootstrapping)
    } else if code == 0x1003 {
        Some(ServerErrorKind::TruncateError)
    } else if code == 0x1100 {
        Some(ServerErrorKind::WriteTimeout)
    } else if code == 0x1200 {
        Some(ServerErrorKind::ReadTimeout)
    } else if code == 0x1300 {
        Some(ServerErrorKind::ReadFailure)
    } else if code == 0x1400 {
        Some(ServerErrorKind::FunctionFailure)
    } else if code == 0x1500 {
        Some(ServerErrorKind::WriteFailure)
    } else if code == 0x2000 {
        Some(ServerErrorKind::SyntaxError)
    } else if code == 0x2100 {
        Some(ServerErrorKind::Unauthorized)
    } else if code == 0x2200 {
        Some(ServerErrorKind::Invalid)
    } else if code == 0x2300 {
        Some(ServerErrorKind::ConfigError)
    } else if code == 0x2400 {
        Some(ServerErrorKind::AlreadyExists)
    } else if code == 0x2500 {
        Some(ServerErrorKind::Unprepared)
    } else {
        None
    }
}

/// Maps a wire error code to its server error kind; `None` for codes the
/// protocol does not define.
pub fn server_error_kind_of(code: i32) -> (r: Option<ServerErrorKind>)
    ensures
        r == spec_server_error_kind(code as int),
{
    if code == 0x0000 {
        Some(ServerErrorKind::ServerError)
    } else if code == 0x000A {
        Some(ServerErrorKind::ProtocolError)
    } else if code == 0x0100 {
        Some(ServerErrorKind::BadCredentials)
    } else if code == 0x1000 {
        Some(ServerErrorKind::Unavailable)
    } else if code == 0x1001 {
        Some(ServerErrorKind::Overloaded)
    } else if code == 0x1002 {
        Some(ServerErrorKind::IsBootstrapping)
    } else if code == 0x1003 {
        Some(ServerErrorKind::TruncateError)
    } else if code == 0x1100 {
        Some(ServerErrorKind::WriteTimeout)
    } else if code == 0x1200 {
        Some(ServerErrorKind::ReadTimeout)
    } else if code == 0x1300 {
        Some(ServerErrorKind::ReadFailure)
    } else if code == 0x1400 {
        Some(ServerErrorKind::FunctionFailure)
    } else if code == 0x1500 {
        Some(ServerErrorKind::WriteFailure)
    } else if code == 0x2000 {
        Some(ServerErrorKind::SyntaxError)
    } else if code == 0x2100 {
        Some(ServerErrorKind::Unauthorized)
    } else if code == 0x2200 {
        Some(ServerErrorKind::Invalid)
    } else if code == 0x2300 {
        Some(ServerErrorKind::ConfigError)
    } else if code == 0x2400 {
        Some(ServerErrorKind::AlreadyExists)
    } else if code == 0x2500 {
        Some(ServerErrorKind::Unprepared)
    } else {
        None
    }
}

/// The error taxonomy of the client: socket failures, malformed frames,
/// codec-level failures, server-reported errors, and authentication failures.
#[derive(Clone, Copy, Debug, PartialEq, Eq, Structural)]
pub enum Error {
    /// Socket-level failure; fatal to the connection.
    Io,
    /// Malformed frame, unknown opcode, or an illegal flag combination; fatal.
    Protocol,
    /// A length-prefixed string held bytes that are not UTF-8.
    InvalidUtf8,
    /// Fewer bytes remained than a decoder needed.
    Truncated,
    /// A value did not fit the width of its length prefix.
    Overflow,
    /// An inet address whose size is neither 4 nor 16.
    InvalidInet,
    /// The column descriptor disagrees with the expected application type.
    TypeMismatch,
    /// Failure of the negotiated compression algorithm; fatal.
    Compression,
    /// AUTHENTICATE arrived with no authenticator configured, or the
    /// authenticator was exhausted without AUTH_SUCCESS.
    Authentication,
    /// A well-formed ERROR frame; never fatal to the connection.
    Server(ServerErrorKind),
}

} // verus!
