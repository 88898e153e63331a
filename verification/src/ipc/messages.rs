//! Message kinds and the header that starts every message.

use crate::ipc::error::ProtocolError;
use vstd::prelude::*;

verus! {

/// Largest message, in bytes, that may be encoded or accepted.
pub const MAX_MESSAGE_SIZE: u32 = 8192;

/// The kind of a message, as carried in its fifth byte.
#[derive(Debug, Clone, Copy, PartialEq, Eq, Structural)]
pub enum MessageType {
    Tversion,
    Rversion,
    Tauth,
    Rauth,
    Tattach,
    Rattach,
    Rerror,
    Tflush,
    Rflush,
    Twalk,
    Rwalk,
    Topen,
    Ropen,
    Tcreate,
    Rcreate,
    Tread,
    Rread,
    Twrite,
    Rwrite,
    Tclunk,
    Rclunk,
    Tremove,
    Rremove,
    Tstat,
    Rstat,
    Twstat,
    Rwstat,
}

/// The header at the start of every message: its total size, its kind and the
/// tag that pairs a request with its response.
#[derive(Debug, Clone, Copy, PartialEq, Eq, Structural)]
pub struct MessageHeader {
    pub size: u32,
    pub message_type: MessageType,
    pub tag: u16,
}

impl MessageType {
    /// The byte that stands for this kind on the wire.
    pub open spec fn spec_code(self) -> u8 {
        match self {
            MessageType::Tversion => 100,
            MessageType::Rversion => 101,
            MessageType::Tauth => 102,
            MessageType::Rauth => 103,
            MessageType::Tattach => 104,
            MessageType::Rattach => 105,
            MessageType::Rerror => 107,
            MessageType::Tflush => 108,
            MessageType::Rflush => 109,
            MessageType::Twalk => 110,
            MessageType::Rwalk => 111,
            MessageType::Topen => 112,
            MessageType::Ropen => 113,
            MessageType::Tcreate => 114,
            MessageType::Rcreate => 115,
            MessageType::Tread => 116,
            MessageType::Rread => 117,
            MessageType::Twrite => 118,
            MessageType::Rwrite => 119,
            MessageType::Tclunk => 120,
            MessageType::Rclunk => 121,
            MessageType::Tremove => 122,
            MessageType::Rremove => 123,
            MessageType::Tstat => 124,
            MessageType::Rstat => 125,
            MessageType::Twstat => 126,
            MessageType::Rwstat => 127,
        }
    }

    /// The kind that a byte stands for, if any.
    pub open spec fn spec_from_code(v: u8) -> Option<MessageType> {
        if v == 100 { Some(MessageType::Tversion) }
        else if v == 101 { Some(MessageType::Rversion) }
        else if v == 102 { Some(MessageType::Tauth) }
        else if v == 103 { Some(MessageType::Rauth) }
        else if v == 104 { Some(MessageType::Tattach) }
        else if v == 105 { Some(MessageType::Rattach) }
        else if v == 107 { Some(MessageType::Rerror) }
        else if v == 108 { Some(MessageType::Tflush) }
        else if v == 109 { Some(MessageType::Rflush) }
        else if v == 110 { Some(MessageType::Twalk) }
        else if v == 111 { Some(MessageType::Rwalk) }
        else if v == 112 { Some(MessageType::Topen) }
        else if v == 113 { Some(MessageType::Ropen) }
        else if v == 114 { Some(MessageType::Tcreate) }
        else if v == 115 { Some(MessageType::Rcreate) }
        else if v == 116 { Some(MessageType::Tread) }
        else if v == 117 { Some(MessageType::Rread) }
        else if v == 118 { Some(MessageType::Twrite) }
        else if v == 119 { Some(MessageType::Rwrite) }
        else if v == 120 { Some(MessageType::Tclunk) }
        else if v == 121 { Some(MessageType::Rclunk) }
        else if v == 122 { Some(MessageType::Tremove) }
        else if v == 123 { Some(MessageType::Rremove) }
        else if v == 124 { Some(MessageType::Tstat) }
        else if v == 125 { Some(MessageType::Rstat) }
        else if v == 126 { Some(MessageType::Twstat) }
        else if v == 127 { Some(MessageType::Rwstat) }
        else { None }
    }

    /// The byte that stands for this kind on the wire.
    pub fn code(&self) -> (r: u8)
        ensures
            r == self.spec_code(),
    {
        match self {
            MessageType::Tversion => 100,
            MessageType::Rversion => 101,
            MessageType::Tauth => 102,
            MessageType::Rauth => 103,
            MessageType::Tattach => 104,
            MessageType::Rattach => 105,
            MessageType::Rerror => 107,
            MessageType::Tflush => 108,
            MessageType::Rflush => 109,
            MessageType::Twalk => 110,
            MessageType::Rwalk => 111,
            MessageType::Topen => 112,
            MessageType::Ropen => 113,
            MessageType::Tcreate => 114,
            MessageType::Rcreate => 115,
            MessageType::Tread => 116,
            MessageType::Rread => 117,
            MessageType::Twrite => 118,
            MessageType::Rwrite => 119,
            MessageType::Tclunk => 120,
            MessageType::Rclunk => 121,
            MessageType::Tremove => 122,
            MessageType::Rremove => 123,
            MessageType::Tstat => 124,
            MessageType::Rstat => 125,
            MessageType::Twstat => 126,
            MessageType::Rwstat => 127,
        }
    }

    /// Decodes a kind byte; a byte that stands for no kind is refused with
    /// `InvalidMessageType` carrying that byte.
    pub fn try_from_code(v: u8) -> (r: Result<MessageType, ProtocolError>)
        ensures
            match Self::spec_from_code(v) {
                Some(t) => r == Ok::<MessageType, ProtocolError>(t),
                None => r == Err::<MessageType, ProtocolError>(ProtocolError::InvalidMessageType(v)),
            },
    {
        if v == 100 { Ok(MessageType::Tversion) }
        else if v == 101 { Ok(MessageType::Rversion) }
        else if v == 102 { Ok(MessageType::Tauth) }
        else if v == 103 { Ok(MessageType::Rauth) }
        else if v == 104 { Ok(MessageType::Tattach) }
        else if v == 105 { Ok(MessageType::Rattach) }
        else if v == 107 { Ok(MessageType::Rerror) }
        else if v == 108 { Ok(MessageType::Tflush) }
        else if v == 109 { Ok(MessageType::Rflush) }
        else if v == 110 { Ok(MessageType::Twalk) }
        else if v == 111 { Ok(MessageType::Rwalk) }
        else if v == 112 { Ok(MessageType::Topen) }
        else if v == 113 { Ok(MessageType::Ropen) }
        else if v == 114 { Ok(MessageType::Tcreate) }
        else if v == 115 { Ok(MessageType::Rcreate) }
        else if v == 116 { Ok(MessageType::Tread) }
        else if v == 117 { Ok(MessageType::Rread) }
        else if v == 118 { Ok(MessageType::Twrite) }
        else if v == 119 { Ok(MessageType::Rwrite) }
        else if v == 120 { Ok(MessageType::Tclunk) }
        else if v == 121 { Ok(MessageType::Rclunk) }
        else if v == 122 { Ok(MessageType::Tremove) }
        else if v == 123 { Ok(MessageType::Rremove) }
        else if v == 124 { Ok(MessageType::Tstat) }
        else if v == 125 { Ok(MessageType::Rstat) }
        else if v == 126 { Ok(MessageType::Twstat) }
        else if v == 127 { Ok(MessageType::Rwstat) }
        else { Err(ProtocolError::from(v)) }
    }

    /// The kind bytes of the protocol: requests have even bytes from 100
    /// (`Tversion`) on, each response the byte after its request's, and
    /// `Rerror` 107, the byte after the unused `Terror`.
    pub proof fn lemma_codes(self)
        ensures
            MessageType::Tversion.spec_code() == 100,
            MessageType::Rerror.spec_code() == 107,
            MessageType::Rversion.spec_code() == MessageType::Tversion.spec_code() + 1,
            MessageType::Tversion.spec_code() % 2 == 0,
            MessageType::Rauth.spec_code() == MessageType::Tauth.spec_code() + 1,
            MessageType::Tauth.spec_code() % 2 == 0,
            MessageType::Rattach.spec_code() == MessageType::Tattach.spec_code() + 1,
            MessageType::Tattach.spec_code() % 2 == 0,
            MessageType::Rflush.spec_code() == MessageType::Tflush.spec_code() + 1,
            MessageType::Tflush.spec_code() % 2 == 0,
            MessageType::Rwalk.spec_code() == MessageType::Twalk.spec_code() + 1,
            MessageType::Twalk.spec_code() % 2 == 0,
            MessageType::Ropen.spec_code() == MessageType::Topen.spec_code() + 1,
            MessageType::Topen.spec_code() % 2 == 0,
            MessageType::Rcreate.spec_code() == MessageType::Tcreate.spec_code() + 1,
            MessageType::Tcreate.spec_code() % 2 == 0,
            MessageType::Rread.spec_code() == MessageType::Tread.spec_code() + 1,
            MessageType::Tread.spec_code() % 2 == 0,
            MessageType::Rwrite.spec_code() == MessageType::Twrite.spec_code() + 1,
            MessageType::Twrite.spec_code() % 2 == 0,
            MessageType::Rclunk.spec_code() == MessageType::Tclunk.spec_code() + 1,
            MessageType::Tclunk.spec_code() % 2 == 0,
            MessageType::Rremove.spec_code() == MessageType::Tremove.spec_code() + 1,
            MessageType::Tremove.spec_code() % 2 == 0,
            MessageType::Rstat.spec_code() == MessageType::Tstat.spec_code() + 1,
            MessageType::Tstat.spec_code() % 2 == 0,
            MessageType::Rwstat.spec_code() == MessageType::Twstat.spec_code() + 1,
            MessageType::Twstat.spec_code() % 2 == 0,
            100 <= self.spec_code() <= 127,
    {
    }

    /// Every kind's byte decodes back to that kind.
    pub proof fn lemma_code_roundtrip(self)
        ensures
            Self::spec_from_code(self.spec_code()) == Some(self),
    {
    }
}

} // verus!
