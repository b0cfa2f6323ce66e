//! Errors of the wire layer.

use vstd::prelude::*;

verus! {

/// What went wrong while validating, encoding or decoding D-Bus data.
#[derive(Debug, Clone, PartialEq, Eq)]
pub enum CoreError {
    /// A signature string that does not parse; carries the offending text
    /// (possibly empty) and the reason.
    InvalidSignature(String, &'static str),
    /// A signature longer than 255 bytes; carries its length.
    SignatureTooLong(usize),
    /// Containers nested deeper than allowed.
    NestingTooDeep { max_array: u32, max_struct: u32 },
    /// A string that is not a valid object path.
    InvalidObjectPath(String),
    /// Bytes that are not valid UTF-8.
    InvalidUtf8,
    /// A string holding a NUL byte.
    EmbeddedNul,
    /// The buffer ends before the value does.
    UnexpectedEof { needed: usize, have: usize },
    /// A boolean whose wire value is neither 0 nor 1.
    InvalidBoolean(u32),
    /// An array body longer than the protocol allows.
    ArrayTooLong(usize),
    /// A message longer than allowed.
    MessageTooLong(usize, u32),
    /// A first header byte that is neither `l` nor `B`.
    BadByteOrder(u8),
    /// A protocol version other than 1.
    BadProtocolVersion(u8),
    /// A header field that the message type requires is absent.
    MissingHeaderField(&'static str),
    /// A value of another type than the one expected.
    TypeMismatch { expected: String },
    /// A unix fd index beyond the fds that came with the message.
    FdIndexOutOfRange(u32, usize),
    /// More unix fds than allowed.
    TooManyFds(usize, u32),
    /// A malformed D-Bus address.
    InvalidAddress(String),
    /// An I/O failure, described.
    Io(String),
}

} // verus!
