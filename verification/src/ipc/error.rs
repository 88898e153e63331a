use vstd::prelude::*;

verus! {

/// Errors raised while building, encoding or decoding a protocol message.
#[derive(Debug, Clone, Copy, PartialEq, Eq, Structural)]
pub enum ProtocolError {
    MessageTooLarge,
    InvalidMessageType(u8),
    BufferTooSmall,
    InvalidQid,
    VersionTooLong,
    UsernameTooLong,
    AnameTooLong,
    ExceedsMaxSize,
    FilenameTooLong,
    InvalidDataLength,
    ErrorTooLong,
}

impl From<u8> for ProtocolError {
    fn from(value: u8) -> (r: Self) {
        ProtocolError::InvalidMessageType(value)
    }
}

impl vstd::std_specs::convert::FromSpecImpl<u8> for ProtocolError {
    open spec fn obeys_from_spec() -> bool {
        true
    }

    open spec fn from_spec(v: u8) -> Self {
        ProtocolError::InvalidMessageType(v)
    }
}

} // verus!
