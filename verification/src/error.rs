//! Errors of the wire protocol, of the relay client and of the transports.

use vstd::prelude::*;

verus! {

/// The error `<[u8; N]>::try_from(&[u8])` reports when the slice has the wrong length.
#[verifier::external_type_specification]
#[verifier::external_body]
pub struct ExTryFromSliceError(std::array::TryFromSliceError);

/// The error `String::from_utf8` reports when the bytes are not UTF-8.
#[verifier::external_type_specification]
#[verifier::external_body]
pub struct ExFromUtf8Error(std::string::FromUtf8Error);

/// Why a byte buffer could not be decoded into a packet.
#[derive(Debug)]
pub enum ProtocolError {
    /// The buffer held no byte at all, not even a packet type.
    EmptyPacket,
    /// The first byte names no packet type.
    UnknownPacketType(u8),
    /// A field ran past the end of the buffer; the text says which field.
    NotEnoughBytes(String),
    /// A fixed-size integer could not be taken from the buffer.
    InvalidI32(std::array::TryFromSliceError),
    /// A string field was not valid UTF-8.
    InvalidUtf8String(std::string::FromUtf8Error),
    /// A list announced a negative number of entries.
    NegativeVectorLength(),
}

/// What a [`ProtocolError`] says, as a mathematical value. The std errors
/// that `InvalidI32` and `InvalidUtf8String` carry are opaque values that no
/// contract speaks of, so the view keeps only which error it is.
pub enum ProtocolFault {
    EmptyPacket,
    UnknownPacketType(u8),
    NotEnoughBytes(Seq<char>),
    InvalidI32,
    InvalidUtf8String,
    NegativeVectorLength,
}

impl View for ProtocolError {
    type V = ProtocolFault;

    open spec fn view(&self) -> ProtocolFault {
        match self {
            ProtocolError::EmptyPacket => ProtocolFault::EmptyPacket,
            ProtocolError::UnknownPacketType(b) => ProtocolFault::UnknownPacketType(*b),
            ProtocolError::NotEnoughBytes(s) => ProtocolFault::NotEnoughBytes(s@),
            ProtocolError::InvalidI32(_) => ProtocolFault::InvalidI32,
            ProtocolError::InvalidUtf8String(_) => ProtocolFault::InvalidUtf8String,
            ProtocolError::NegativeVectorLength() => ProtocolFault::NegativeVectorLength,
        }
    }
}

} // verus!
