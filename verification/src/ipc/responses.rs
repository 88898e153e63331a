//! Responses: the messages a server sends back.

use crate::ipc::bytes_buf::{bytes_contents, bytes_len};
use crate::ipc::error::ProtocolError;
use crate::ipc::messages::{MessageHeader, MessageType, MAX_MESSAGE_SIZE};
use crate::ipc::serialization::{
    field_at, lemma_frame_layout,
    all_qids, bytes_result_matches, decoded_as, lemma_finish_frame, lemma_read_bytes_list_of,
    lemma_read_bytes_of, lemma_read_header_of_frame, lemma_read_u16_of, lemma_read_u32_of,
    spec_enc_bytes, spec_enc_bytes_list, spec_header_bytes, spec_message, spec_read_bytes,
    spec_read_bytes_list, spec_read_header_of, spec_read_u16, spec_read_u32, MessageReader,
    MessageWriter,
};
use bytes::Bytes;
use vstd::bytes::{
    lemma_auto_spec_u16_to_from_le_bytes, lemma_auto_spec_u32_to_from_le_bytes,
    lemma_auto_spec_u64_to_from_le_bytes, spec_u16_to_le_bytes, spec_u32_to_le_bytes,
};
use vstd::prelude::*;

verus! {


/// Answers a `Tversion` with the version and message size the server accepts.
pub struct Rversion {
    pub header: MessageHeader,
    pub msize: u32,
    pub version: Bytes,
}

/// The contents of a `Rversion`, its byte strings as sequences.
pub struct RversionView {
    pub header: MessageHeader,
    pub msize: u32,
    pub version: Seq<u8>,
}

impl View for Rversion {
    type V = RversionView;

    open spec fn view(&self) -> RversionView {
        RversionView {
            header: self.header,
            msize: self.msize,
            version: bytes_contents(self.version),
        }
    }
}

impl RversionView {
    /// The encoded fields; `None` when a byte string is too long for its
    /// length field.
    pub open spec fn spec_body(self) -> Option<Seq<u8>> {
        if spec_enc_bytes(self.version) is Some {
            Some(spec_u32_to_le_bytes(self.msize) + (spec_enc_bytes(self.version)->0))
        } else {
            None
        }
    }

    /// The complete encoded message.
    pub open spec fn spec_encode(self) -> Result<Seq<u8>, ProtocolError> {
        spec_message(self.header.message_type, self.header.tag, self.spec_body())
    }

    /// What decoding the bytes `s` as a `Rversion` gives.
    pub open spec fn spec_decode(s: Seq<u8>) -> Result<RversionView, ProtocolError> {
        match spec_read_header_of(s, MessageType::Rversion) {
            Err(e) => Err(e),
            Ok((header, r0)) => {
                match spec_read_u32(r0) {
                    Err(e) => Err(e),
                    Ok((msize, r1)) => {
                        match spec_read_bytes(r1) {
                            Err(e) => Err(e),
                            Ok((version, r2)) => {
                                if msize > MAX_MESSAGE_SIZE {
                                    Err(ProtocolError::ExceedsMaxSize)
                                } else {
                                    Ok(RversionView { header, msize, version })
                                }
                            },
                        }
                    },
                }
            },
        }
    }

    /// Decoding the encoding of a well-formed `Rversion` gives it back, with the
    /// size field of its header set to the length of the encoding.
    pub proof fn lemma_roundtrip(self)
        requires
            self.spec_encode() is Ok,
            self.header.message_type == MessageType::Rversion,
            self.msize <= MAX_MESSAGE_SIZE,
        ensures
            Self::spec_decode(self.spec_encode()->Ok_0) == Ok::<RversionView, ProtocolError>(
                RversionView {
                    header: MessageHeader {
                        size: (self.spec_encode()->Ok_0).len() as u32,
                        ..self.header
                    },
                    ..self
                },
            ),
    {
        let body = self.spec_body()->0;
        lemma_read_header_of_frame(self.header.message_type, self.header.tag, body);
        lemma_read_u32_of(self.msize, spec_enc_bytes(self.version)->0);
        assert(spec_enc_bytes(self.version)->0 =~= spec_enc_bytes(self.version)->0 + Seq::<u8>::empty());
        lemma_read_bytes_of(self.version, Seq::<u8>::empty());
    }
}

impl Rversion {
    pub fn new(tag: u16, msize: u32, version: Bytes) -> (r: Result<Self, ProtocolError>)
        ensures
            (bytes_contents(version).len() > u16::MAX) ==> r == Err::<Self, ProtocolError>(ProtocolError::VersionTooLong),
            !(bytes_contents(version).len() > u16::MAX) && (msize > MAX_MESSAGE_SIZE) ==> r == Err::<Self, ProtocolError>(ProtocolError::ExceedsMaxSize),
            !(bytes_contents(version).len() > u16::MAX) && !(msize > MAX_MESSAGE_SIZE) ==> (
                r is Ok &&
                r->Ok_0.header == (MessageHeader { size: 0, message_type: MessageType::Rversion, tag }) &&
                r->Ok_0.msize == msize &&
                r->Ok_0.version == version
            ),
    {
        if bytes_len(&version) > 0xFFFF {
            return Err(ProtocolError::VersionTooLong);
        }
        if msize > MAX_MESSAGE_SIZE {
            return Err(ProtocolError::ExceedsMaxSize);
        }
        Ok(Self {
            header: MessageHeader { size: 0, message_type: MessageType::Rversion, tag },
            msize,
            version,
        })
    }

    pub fn serialize(&self) -> (r: Result<Bytes, ProtocolError>)
        ensures
            bytes_result_matches(r, self@.spec_encode()),
    {
        let mut writer = MessageWriter::new();
        writer.put_header(self.header.message_type, self.header.tag)?;
        writer.put_u32(self.msize)?;
        writer.put_bytes(&self.version)?;
        proof {
            let body = self@.spec_body()->0;
            assert(writer.contents() =~= spec_header_bytes(0, self.header.message_type, self.header.tag) + body);
            lemma_finish_frame(self.header.message_type, self.header.tag, writer.contents(), body);
        }
        writer.finish()
    }

    pub fn deserialize(bytes: Bytes) -> (r: Result<Self, ProtocolError>)
        ensures
            decoded_as(r, RversionView::spec_decode(bytes_contents(bytes))),
    {
        let mut reader = MessageReader::new(bytes);
        let header = reader.read_header_of(MessageType::Rversion)?;
        let msize = reader.read_u32()?;
        let version = reader.read_bytes()?;
        if msize > MAX_MESSAGE_SIZE {
            return Err(ProtocolError::ExceedsMaxSize);
        }
        Ok(Self { header, msize, version })
    }
}

/// Answers a `Tauth` with the qid of the authentication file.
pub struct Rauth {
    pub header: MessageHeader,
    pub qid: Bytes,
}

/// The contents of a `Rauth`, its byte strings as sequences.
pub struct RauthView {
    pub header: MessageHeader,
    pub qid: Seq<u8>,
}

impl View for Rauth {
    type V = RauthView;

    open spec fn view(&self) -> RauthView {
        RauthView {
            header: self.header,
            qid: bytes_contents(self.qid),
        }
    }
}

impl RauthView {
    /// The encoded fields; `None` when a byte string is too long for its
    /// length field.
    pub open spec fn spec_body(self) -> Option<Seq<u8>> {
        if spec_enc_bytes(self.qid) is Some {
            Some(spec_enc_bytes(self.qid)->0)
        } else {
            None
        }
    }

    /// The complete encoded message.
    pub open spec fn spec_encode(self) -> Result<Seq<u8>, ProtocolError> {
        spec_message(self.header.message_type, self.header.tag, self.spec_body())
    }

    /// What decoding the bytes `s` as a `Rauth` gives.
    pub open spec fn spec_decode(s: Seq<u8>) -> Result<RauthView, ProtocolError> {
        match spec_read_header_of(s, MessageType::Rauth) {
            Err(e) => Err(e),
            Ok((header, r0)) => {
                match spec_read_bytes(r0) {
                    Err(e) => Err(e),
                    Ok((qid, r1)) => {
                        if qid.len() != 13 {
                            Err(ProtocolError::InvalidQid)
                        } else {
                            Ok(RauthView { header, qid })
                        }
                    },
                }
            },
        }
    }

    /// Decoding the encoding of a well-formed `Rauth` gives it back, with the
    /// size field of its header set to the length of the encoding.
    pub proof fn lemma_roundtrip(self)
        requires
            self.spec_encode() is Ok,
            self.header.message_type == MessageType::Rauth,
            self.qid.len() == 13,
        ensures
            Self::spec_decode(self.spec_encode()->Ok_0) == Ok::<RauthView, ProtocolError>(
                RauthView {
                    header: MessageHeader {
                        size: (self.spec_encode()->Ok_0).len() as u32,
                        ..self.header
                    },
                    ..self
                },
            ),
    {
        let body = self.spec_body()->0;
        lemma_read_header_of_frame(self.header.message_type, self.header.tag, body);
        assert(spec_enc_bytes(self.qid)->0 =~= spec_enc_bytes(self.qid)->0 + Seq::<u8>::empty());
        lemma_read_bytes_of(self.qid, Seq::<u8>::empty());
    }
}

impl Rauth {
    pub fn new(tag: u16, qid: Bytes) -> (r: Result<Self, ProtocolError>)
        ensures
            (bytes_contents(qid).len() != 13) ==> r == Err::<Self, ProtocolError>(ProtocolError::InvalidQid),
            !(bytes_contents(qid).len() != 13) ==> (
                r is Ok &&
                r->Ok_0.header == (MessageHeader { size: 0, message_type: MessageType::Rauth, tag }) &&
                r->Ok_0.qid == qid
            ),
    {
        if bytes_len(&qid) != 13 {
            return Err(ProtocolError::InvalidQid);
        }
        Ok(Self {
            header: MessageHeader { size: 0, message_type: MessageType::Rauth, tag },
            qid,
        })
    }

    pub fn serialize(&self) -> (r: Result<Bytes, ProtocolError>)
        ensures
            bytes_result_matches(r, self@.spec_encode()),
    {
        let mut writer = MessageWriter::new();
        writer.put_header(self.header.message_type, self.header.tag)?;
        writer.put_bytes(&self.qid)?;
        proof {
            let body = self@.spec_body()->0;
            assert(writer.contents() =~= spec_header_bytes(0, self.header.message_type, self.header.tag) + body);
            lemma_finish_frame(self.header.message_type, self.header.tag, writer.contents(), body);
        }
        writer.finish()
    }

    pub fn deserialize(bytes: Bytes) -> (r: Result<Self, ProtocolError>)
        ensures
            decoded_as(r, RauthView::spec_decode(bytes_contents(bytes))),
    {
        let mut reader = MessageReader::new(bytes);
        let header = reader.read_header_of(MessageType::Rauth)?;
        let qid = reader.read_bytes()?;
        if bytes_len(&qid) != 13 {
            return Err(ProtocolError::InvalidQid);
        }
        Ok(Self { header, qid })
    }
}

/// Answers a `Tattach` with the qid of the root.
pub struct Rattach {
    pub header: MessageHeader,
    pub qid: Bytes,
}

/// The contents of a `Rattach`, its byte strings as sequences.
pub struct RattachView {
    pub header: MessageHeader,
    pub qid: Seq<u8>,
}

impl View for Rattach {
    type V = RattachView;

    open spec fn view(&self) -> RattachView {
        RattachView {
            header: self.header,
            qid: bytes_contents(self.qid),
        }
    }
}

impl RattachView {
    /// The encoded fields; `None` when a byte string is too long for its
    /// length field.
    pub open spec fn spec_body(self) -> Option<Seq<u8>> {
        if spec_enc_bytes(self.qid) is Some {
            Some(spec_enc_bytes(self.qid)->0)
        } else {
            None
        }
    }

    /// The complete encoded message.
    pub open spec fn spec_encode(self) -> Result<Seq<u8>, ProtocolError> {
        spec_message(self.header.message_type, self.header.tag, self.spec_body())
    }

    /// What decoding the bytes `s` as a `Rattach` gives.
    pub open spec fn spec_decode(s: Seq<u8>) -> Result<RattachView, ProtocolError> {
        match spec_read_header_of(s, MessageType::Rattach) {
            Err(e) => Err(e),
            Ok((header, r0)) => {
                match spec_read_bytes(r0) {
                    Err(e) => Err(e),
                    Ok((qid, r1)) => {
                        if qid.len() != 13 {
                            Err(ProtocolError::InvalidQid)
                        } else {
                            Ok(RattachView { header, qid })
                        }
                    },
                }
            },
        }
    }

    /// Decoding the encoding of a well-formed `Rattach` gives it back, with the
    /// size field of its header set to the length of the encoding.
    pub proof fn lemma_roundtrip(self)
        requires
            self.spec_encode() is Ok,
            self.header.message_type == MessageType::Rattach,
            self.qid.len() == 13,
        ensures
            Self::spec_decode(self.spec_encode()->Ok_0) == Ok::<RattachView, ProtocolError>(
                RattachView {
                    header: MessageHeader {
                        size: (self.spec_encode()->Ok_0).len() as u32,
                        ..self.header
                    },
                    ..self
                },
            ),
    {
        let body = self.spec_body()->0;
        lemma_read_header_of_frame(self.header.message_type, self.header.tag, body);
        assert(spec_enc_bytes(self.qid)->0 =~= spec_enc_bytes(self.qid)->0 + Seq::<u8>::empty());
        lemma_read_bytes_of(self.qid, Seq::<u8>::empty());
    }
}

impl Rattach {
    pub fn new(tag: u16, qid: Bytes) -> (r: Result<Self, ProtocolError>)
        ensures
            (bytes_contents(qid).len() != 13) ==> r == Err::<Self, ProtocolError>(ProtocolError::InvalidQid),
            !(bytes_contents(qid).len() != 13) ==> (
                r is Ok &&
                r->Ok_0.header == (MessageHeader { size: 0, message_type: MessageType::Rattach, tag }) &&
                r->Ok_0.qid == qid
            ),
    {
        if bytes_len(&qid) != 13 {
            return Err(ProtocolError::InvalidQid);
        }
        Ok(Self {
            header: MessageHeader { size: 0, message_type: MessageType::Rattach, tag },
            qid,
        })
    }

    pub fn serialize(&self) -> (r: Result<Bytes, ProtocolError>)
        ensures
            bytes_result_matches(r, self@.spec_encode()),
    {
        let mut writer = MessageWriter::new();
        writer.put_header(self.header.message_type, self.header.tag)?;
        writer.put_bytes(&self.qid)?;
        proof {
            let body = self@.spec_body()->0;
            assert(writer.contents() =~= spec_header_bytes(0, self.header.message_type, self.header.tag) + body);
            lemma_finish_frame(self.header.message_type, self.header.tag, writer.contents(), body);
        }
        writer.finish()
    }

    pub fn deserialize(bytes: Bytes) -> (r: Result<Self, ProtocolError>)
        ensures
            decoded_as(r, RattachView::spec_decode(bytes_contents(bytes))),
    {
        let mut reader = MessageReader::new(bytes);
        let header = reader.read_header_of(MessageType::Rattach)?;
        let qid = reader.read_bytes()?;
        if bytes_len(&qid) != 13 {
            return Err(ProtocolError::InvalidQid);
        }
        Ok(Self { header, qid })
    }
}

/// Answers a failed request with an error message.
pub struct Rerror {
    pub header: MessageHeader,
    pub ename: Bytes,
}

/// The contents of a `Rerror`, its byte strings as sequences.
pub struct RerrorView {
    pub header: MessageHeader,
    pub ename: Seq<u8>,
}

impl View for Rerror {
    type V = RerrorView;

    open spec fn view(&self) -> RerrorView {
        RerrorView {
            header: self.header,
            ename: bytes_contents(self.ename),
        }
    }
}

impl RerrorView {
    /// The encoded fields; `None` when a byte string is too long for its
    /// length field.
    pub open spec fn spec_body(self) -> Option<Seq<u8>> {
        if spec_enc_bytes(self.ename) is Some {
            Some(spec_enc_bytes(self.ename)->0)
        } else {
            None
        }
    }

    /// The complete encoded message.
    pub open spec fn spec_encode(self) -> Result<Seq<u8>, ProtocolError> {
        spec_message(self.header.message_type, self.header.tag, self.spec_body())
    }

    /// What decoding the bytes `s` as a `Rerror` gives.
    pub open spec fn spec_decode(s: Seq<u8>) -> Result<RerrorView, ProtocolError> {
        match spec_read_header_of(s, MessageType::Rerror) {
            Err(e) => Err(e),
            Ok((header, r0)) => {
                match spec_read_bytes(r0) {
                    Err(e) => Err(e),
                    Ok((ename, r1)) => {
                        Ok(RerrorView { header, ename })
                    },
                }
            },
        }
    }

    /// Decoding the encoding of a well-formed `Rerror` gives it back, with the
    /// size field of its header set to the length of the encoding.
    pub proof fn lemma_roundtrip(self)
        requires
            self.spec_encode() is Ok,
            self.header.message_type == MessageType::Rerror,
        ensures
            Self::spec_decode(self.spec_encode()->Ok_0) == Ok::<RerrorView, ProtocolError>(
                RerrorView {
                    header: MessageHeader {
                        size: (self.spec_encode()->Ok_0).len() as u32,
                        ..self.header
                    },
                    ..self
                },
            ),
    {
        let body = self.spec_body()->0;
        lemma_read_header_of_frame(self.header.message_type, self.header.tag, body);
        assert(spec_enc_bytes(self.ename)->0 =~= spec_enc_bytes(self.ename)->0 + Seq::<u8>::empty());
        lemma_read_bytes_of(self.ename, Seq::<u8>::empty());
    }
}

impl Rerror {
    pub fn new(tag: u16, ename: Bytes) -> (r: Result<Self, ProtocolError>)
        ensures
            (bytes_contents(ename).len() > u16::MAX) ==> r == Err::<Self, ProtocolError>(ProtocolError::ErrorTooLong),
            !(bytes_contents(ename).len() > u16::MAX) ==> (
                r is Ok &&
                r->Ok_0.header == (MessageHeader { size: 0, message_type: MessageType::Rerror, tag }) &&
                r->Ok_0.ename == ename
            ),
    {
        if bytes_len(&ename) > 0xFFFF {
            return Err(ProtocolError::ErrorTooLong);
        }
        Ok(Self {
            header: MessageHeader { size: 0, message_type: MessageType::Rerror, tag },
            ename,
        })
    }

    pub fn serialize(&self) -> (r: Result<Bytes, ProtocolError>)
        ensures
            bytes_result_matches(r, self@.spec_encode()),
    {
        let mut writer = MessageWriter::new();
        writer.put_header(self.header.message_type, self.header.tag)?;
        writer.put_bytes(&self.ename)?;
        proof {
            let body = self@.spec_body()->0;
            assert(writer.contents() =~= spec_header_bytes(0, self.header.message_type, self.header.tag) + body);
            lemma_finish_frame(self.header.message_type, self.header.tag, writer.contents(), body);
        }
        writer.finish()
    }

    pub fn deserialize(bytes: Bytes) -> (r: Result<Self, ProtocolError>)
        ensures
            decoded_as(r, RerrorView::spec_decode(bytes_contents(bytes))),
    {
        let mut reader = MessageReader::new(bytes);
        let header = reader.read_header_of(MessageType::Rerror)?;
        let ename = reader.read_bytes()?;
        Ok(Self { header, ename })
    }
}

/// Answers a `Tflush`.
pub struct Rflush {
    pub header: MessageHeader,
}

impl View for Rflush {
    type V = Rflush;

    open spec fn view(&self) -> Rflush {
        *self
    }
}

impl Rflush {
    /// The encoded fields; `None` when a byte string is too long for its
    /// length field.
    pub open spec fn spec_body(self) -> Option<Seq<u8>> {
        Some(Seq::<u8>::empty())
    }

    /// The complete encoded message.
    pub open spec fn spec_encode(self) -> Result<Seq<u8>, ProtocolError> {
        spec_message(self.header.message_type, self.header.tag, self.spec_body())
    }

    /// What decoding the bytes `s` as a `Rflush` gives.
    pub open spec fn spec_decode(s: Seq<u8>) -> Result<Rflush, ProtocolError> {
        match spec_read_header_of(s, MessageType::Rflush) {
            Err(e) => Err(e),
            Ok((header, r0)) => {
                Ok(Rflush { header })
            },
        }
    }

    /// Decoding the encoding of a well-formed `Rflush` gives it back, with the
    /// size field of its header set to the length of the encoding.
    pub proof fn lemma_roundtrip(self)
        requires
            self.spec_encode() is Ok,
            self.header.message_type == MessageType::Rflush,
        ensures
            Self::spec_decode(self.spec_encode()->Ok_0) == Ok::<Rflush, ProtocolError>(
                Rflush {
                    header: MessageHeader {
                        size: (self.spec_encode()->Ok_0).len() as u32,
                        ..self.header
                    },
                    ..self
                },
            ),
    {
        let body = self.spec_body()->0;
        lemma_read_header_of_frame(self.header.message_type, self.header.tag, body);
        assert(body =~= Seq::<u8>::empty());
    }
}

impl Rflush {
    pub fn new(tag: u16) -> (r: Result<Self, ProtocolError>)
        ensures
            r is Ok,
            r->Ok_0.header == (MessageHeader { size: 0, message_type: MessageType::Rflush, tag }),
    {
        Ok(Self {
            header: MessageHeader { size: 0, message_type: MessageType::Rflush, tag },
        })
    }

    pub fn serialize(&self) -> (r: Result<Bytes, ProtocolError>)
        ensures
            bytes_result_matches(r, self@.spec_encode()),
    {
        let mut writer = MessageWriter::new();
        writer.put_header(self.header.message_type, self.header.tag)?;
        proof {
            let body = self@.spec_body()->0;
            assert(writer.contents() =~= spec_header_bytes(0, self.header.message_type, self.header.tag) + body);
            lemma_finish_frame(self.header.message_type, self.header.tag, writer.contents(), body);
        }
        writer.finish()
    }

    pub fn deserialize(bytes: Bytes) -> (r: Result<Self, ProtocolError>)
        ensures
            decoded_as(r, Rflush::spec_decode(bytes_contents(bytes))),
    {
        let mut reader = MessageReader::new(bytes);
        let header = reader.read_header_of(MessageType::Rflush)?;
        Ok(Self { header })
    }
}

/// Answers a `Twalk` with the qid of each component walked.
pub struct Rwalk {
    pub header: MessageHeader,
    pub wqid: Vec<Bytes>,
}

/// The contents of a `Rwalk`, its byte strings as sequences.
pub struct RwalkView {
    pub header: MessageHeader,
    pub wqid: Seq<Seq<u8>>,
}

impl View for Rwalk {
    type V = RwalkView;

    open spec fn view(&self) -> RwalkView {
        RwalkView {
            header: self.header,
            wqid: self.wqid@.map_values(|b: Bytes| bytes_contents(b)),
        }
    }
}

impl RwalkView {
    /// The encoded fields; `None` when a byte string is too long for its
    /// length field.
    pub open spec fn spec_body(self) -> Option<Seq<u8>> {
        if spec_enc_bytes_list(self.wqid) is Some {
            Some(spec_u16_to_le_bytes(self.wqid.len() as u16) + (spec_enc_bytes_list(self.wqid)->0))
        } else {
            None
        }
    }

    /// The complete encoded message.
    pub open spec fn spec_encode(self) -> Result<Seq<u8>, ProtocolError> {
        spec_message(self.header.message_type, self.header.tag, self.spec_body())
    }

    /// What decoding the bytes `s` as a `Rwalk` gives.
    pub open spec fn spec_decode(s: Seq<u8>) -> Result<RwalkView, ProtocolError> {
        match spec_read_header_of(s, MessageType::Rwalk) {
            Err(e) => Err(e),
            Ok((header, r0)) => {
                match spec_read_u16(r0) {
                    Err(e) => Err(e),
                    Ok((count, r1)) => {
                        match spec_read_bytes_list(r1, count as nat, true) {
                            Err(e) => Err(e),
                            Ok((wqid, r2)) => {
                                Ok(RwalkView { header, wqid })
                            },
                        }
                    },
                }
            },
        }
    }

    /// Decoding the encoding of a well-formed `Rwalk` gives it back, with the
    /// size field of its header set to the length of the encoding.
    pub proof fn lemma_roundtrip(self)
        requires
            self.spec_encode() is Ok,
            self.header.message_type == MessageType::Rwalk,
            self.wqid.len() <= u16::MAX,
            forall|i: int| 0 <= i < self.wqid.len() ==> (#[trigger] self.wqid[i]).len() == 13,
        ensures
            Self::spec_decode(self.spec_encode()->Ok_0) == Ok::<RwalkView, ProtocolError>(
                RwalkView {
                    header: MessageHeader {
                        size: (self.spec_encode()->Ok_0).len() as u32,
                        ..self.header
                    },
                    ..self
                },
            ),
    {
        let body = self.spec_body()->0;
        lemma_read_header_of_frame(self.header.message_type, self.header.tag, body);
        lemma_read_u16_of(self.wqid.len() as u16, spec_enc_bytes_list(self.wqid)->0);
        assert(spec_enc_bytes_list(self.wqid)->0 =~= spec_enc_bytes_list(self.wqid)->0 + Seq::<u8>::empty());
        lemma_read_bytes_list_of(self.wqid, Seq::<u8>::empty(), true);
    }
}

impl Rwalk {
    pub fn new(tag: u16, wqid: Vec<Bytes>) -> (r: Result<Self, ProtocolError>)
        ensures
            (exists|i: int| 0 <= i < wqid@.len() && bytes_contents(#[trigger] wqid@[i]).len() != 13) ==> r == Err::<Self, ProtocolError>(ProtocolError::InvalidQid),
            !(exists|i: int| 0 <= i < wqid@.len() && bytes_contents(#[trigger] wqid@[i]).len() != 13) ==> (
                r is Ok &&
                r->Ok_0.header == (MessageHeader { size: 0, message_type: MessageType::Rwalk, tag }) &&
                r->Ok_0.wqid@ == wqid@
            ),
    {
        if !all_qids(&wqid) {
            return Err(ProtocolError::InvalidQid);
        }
        Ok(Self {
            header: MessageHeader { size: 0, message_type: MessageType::Rwalk, tag },
            wqid,
        })
    }

    pub fn serialize(&self) -> (r: Result<Bytes, ProtocolError>)
        ensures
            bytes_result_matches(r, self@.spec_encode()),
    {
        let mut writer = MessageWriter::new();
        writer.put_header(self.header.message_type, self.header.tag)?;
        writer.put_u16(self.wqid.len() as u16)?;
        writer.put_bytes_list(&self.wqid)?;
        proof {
            let body = self@.spec_body()->0;
            assert(self@.wqid.len() == self.wqid.len());
            assert(writer.contents() =~= spec_header_bytes(0, self.header.message_type, self.header.tag) + body);
            lemma_finish_frame(self.header.message_type, self.header.tag, writer.contents(), body);
        }
        writer.finish()
    }

    pub fn deserialize(bytes: Bytes) -> (r: Result<Self, ProtocolError>)
        ensures
            decoded_as(r, RwalkView::spec_decode(bytes_contents(bytes))),
    {
        let mut reader = MessageReader::new(bytes);
        let header = reader.read_header_of(MessageType::Rwalk)?;
        let count = reader.read_u16()?;
        let wqid = reader.read_bytes_list(count, true)?;
        Ok(Self { header, wqid })
    }
}

/// Answers a `Topen` with the qid of the opened file.
pub struct Ropen {
    pub header: MessageHeader,
    pub qid: Bytes,
}

/// The contents of a `Ropen`, its byte strings as sequences.
pub struct RopenView {
    pub header: MessageHeader,
    pub qid: Seq<u8>,
}

impl View for Ropen {
    type V = RopenView;

    open spec fn view(&self) -> RopenView {
        RopenView {
            header: self.header,
            qid: bytes_contents(self.qid),
        }
    }
}

impl RopenView {
    /// The encoded fields; `None` when a byte string is too long for its
    /// length field.
    pub open spec fn spec_body(self) -> Option<Seq<u8>> {
        if spec_enc_bytes(self.qid) is Some {
            Some(spec_enc_bytes(self.qid)->0)
        } else {
            None
        }
    }

    /// The complete encoded message.
    pub open spec fn spec_encode(self) -> Result<Seq<u8>, ProtocolError> {
        spec_message(self.header.message_type, self.header.tag, self.spec_body())
    }

    /// What decoding the bytes `s` as a `Ropen` gives.
    pub open spec fn spec_decode(s: Seq<u8>) -> Result<RopenView, ProtocolError> {
        match spec_read_header_of(s, MessageType::Ropen) {
            Err(e) => Err(e),
            Ok((header, r0)) => {
                match spec_read_bytes(r0) {
                    Err(e) => Err(e),
                    Ok((qid, r1)) => {
                        if qid.len() != 13 {
                            Err(ProtocolError::InvalidQid)
                        } else {
                            Ok(RopenView { header, qid })
                        }
                    },
                }
            },
        }
    }

    /// Decoding the encoding of a well-formed `Ropen` gives it back, with the
    /// size field of its header set to the length of the encoding.
    pub proof fn lemma_roundtrip(self)
        requires
            self.spec_encode() is Ok,
            self.header.message_type == MessageType::Ropen,
            self.qid.len() == 13,
        ensures
            Self::spec_decode(self.spec_encode()->Ok_0) == Ok::<RopenView, ProtocolError>(
                RopenView {
                    header: MessageHeader {
                        size: (self.spec_encode()->Ok_0).len() as u32,
                        ..self.header
                    },
                    ..self
                },
            ),
    {
        let body = self.spec_body()->0;
        lemma_read_header_of_frame(self.header.message_type, self.header.tag, body);
        assert(spec_enc_bytes(self.qid)->0 =~= spec_enc_bytes(self.qid)->0 + Seq::<u8>::empty());
        lemma_read_bytes_of(self.qid, Seq::<u8>::empty());
    }
}

impl Ropen {
    pub fn new(tag: u16, qid: Bytes) -> (r: Result<Self, ProtocolError>)
        ensures
            (bytes_contents(qid).len() != 13) ==> r == Err::<Self, ProtocolError>(ProtocolError::InvalidQid),
            !(bytes_contents(qid).len() != 13) ==> (
                r is Ok &&
                r->Ok_0.header == (MessageHeader { size: 0, message_type: MessageType::Ropen, tag }) &&
                r->Ok_0.qid == qid
            ),
    {
        if bytes_len(&qid) != 13 {
            return Err(ProtocolError::InvalidQid);
        }
        Ok(Self {
            header: MessageHeader { size: 0, message_type: MessageType::Ropen, tag },
            qid,
        })
    }

    pub fn serialize(&self) -> (r: Result<Bytes, ProtocolError>)
        ensures
            bytes_result_matches(r, self@.spec_encode()),
    {
        let mut writer = MessageWriter::new();
        writer.put_header(self.header.message_type, self.header.tag)?;
        writer.put_bytes(&self.qid)?;
        proof {
            let body = self@.spec_body()->0;
            assert(writer.contents() =~= spec_header_bytes(0, self.header.message_type, self.header.tag) + body);
            lemma_finish_frame(self.header.message_type, self.header.tag, writer.contents(), body);
        }
        writer.finish()
    }

    pub fn deserialize(bytes: Bytes) -> (r: Result<Self, ProtocolError>)
        ensures
            decoded_as(r, RopenView::spec_decode(bytes_contents(bytes))),
    {
        let mut reader = MessageReader::new(bytes);
        let header = reader.read_header_of(MessageType::Ropen)?;
        let qid = reader.read_bytes()?;
        if bytes_len(&qid) != 13 {
            return Err(ProtocolError::InvalidQid);
        }
        Ok(Self { header, qid })
    }
}

/// Answers a `Tcreate` with the qid of the new file.
pub struct Rcreate {
    pub header: MessageHeader,
    pub qid: Bytes,
}

/// The contents of a `Rcreate`, its byte strings as sequences.
pub struct RcreateView {
    pub header: MessageHeader,
    pub qid: Seq<u8>,
}

impl View for Rcreate {
    type V = RcreateView;

    open spec fn view(&self) -> RcreateView {
        RcreateView {
            header: self.header,
            qid: bytes_contents(self.qid),
        }
    }
}

impl RcreateView {
    /// The encoded fields; `None` when a byte string is too long for its
    /// length field.
    pub open spec fn spec_body(self) -> Option<Seq<u8>> {
        if spec_enc_bytes(self.qid) is Some {
            Some(spec_enc_bytes(self.qid)->0)
        } else {
            None
        }
    }

    /// The complete encoded message.
    pub open spec fn spec_encode(self) -> Result<Seq<u8>, ProtocolError> {
        spec_message(self.header.message_type, self.header.tag, self.spec_body())
    }

    /// What decoding the bytes `s` as a `Rcreate` gives.
    pub open spec fn spec_decode(s: Seq<u8>) -> Result<RcreateView, ProtocolError> {
        match spec_read_header_of(s, MessageType::Rcreate) {
            Err(e) => Err(e),
            Ok((header, r0)) => {
                match spec_read_bytes(r0) {
                    Err(e) => Err(e),
                    Ok((qid, r1)) => {
                        if qid.len() != 13 {
                            Err(ProtocolError::InvalidQid)
                        } else {
                            Ok(RcreateView { header, qid })
                        }
                    },
                }
            },
        }
    }

    /// Decoding the encoding of a well-formed `Rcreate` gives it back, with the
    /// size field of its header set to the length of the encoding.
    pub proof fn lemma_roundtrip(self)
        requires
            self.spec_encode() is Ok,
            self.header.message_type == MessageType::Rcreate,
            self.qid.len() == 13,
        ensures
            Self::spec_decode(self.spec_encode()->Ok_0) == Ok::<RcreateView, ProtocolError>(
                RcreateView {
                    header: MessageHeader {
                        size: (self.spec_encode()->Ok_0).len() as u32,
                        ..self.header
                    },
                    ..self
                },
            ),
    {
        let body = self.spec_body()->0;
        lemma_read_header_of_frame(self.header.message_type, self.header.tag, body);
        assert(spec_enc_bytes(self.qid)->0 =~= spec_enc_bytes(self.qid)->0 + Seq::<u8>::empty());
        lemma_read_bytes_of(self.qid, Seq::<u8>::empty());
    }
}

impl Rcreate {
    pub fn new(tag: u16, qid: Bytes) -> (r: Result<Self, ProtocolError>)
        ensures
            (bytes_contents(qid).len() != 13) ==> r == Err::<Self, ProtocolError>(ProtocolError::InvalidQid),
            !(bytes_contents(qid).len() != 13) ==> (
                r is Ok &&
                r->Ok_0.header == (MessageHeader { size: 0, message_type: MessageType::Rcreate, tag }) &&
                r->Ok_0.qid == qid
            ),
    {
        if bytes_len(&qid) != 13 {
            return Err(ProtocolError::InvalidQid);
        }
        Ok(Self {
            header: MessageHeader { size: 0, message_type: MessageType::Rcreate, tag },
            qid,
        })
    }

    pub fn serialize(&self) -> (r: Result<Bytes, ProtocolError>)
        ensures
            bytes_result_matches(r, self@.spec_encode()),
    {
        let mut writer = MessageWriter::new();
        writer.put_header(self.header.message_type, self.header.tag)?;
        writer.put_bytes(&self.qid)?;
        proof {
            let body = self@.spec_body()->0;
            assert(writer.contents() =~= spec_header_bytes(0, self.header.message_type, self.header.tag) + body);
            lemma_finish_frame(self.header.message_type, self.header.tag, writer.contents(), body);
        }
        writer.finish()
    }

    pub fn deserialize(bytes: Bytes) -> (r: Result<Self, ProtocolError>)
        ensures
            decoded_as(r, RcreateView::spec_decode(bytes_contents(bytes))),
    {
        let mut reader = MessageReader::new(bytes);
        let header = reader.read_header_of(MessageType::Rcreate)?;
        let qid = reader.read_bytes()?;
        if bytes_len(&qid) != 13 {
            return Err(ProtocolError::InvalidQid);
        }
        Ok(Self { header, qid })
    }
}

/// Answers a `Tread` with the bytes read.
pub struct Rread {
    pub header: MessageHeader,
    pub data: Bytes,
}

/// The contents of a `Rread`, its byte strings as sequences.
pub struct RreadView {
    pub header: MessageHeader,
    pub data: Seq<u8>,
}

impl View for Rread {
    type V = RreadView;

    open spec fn view(&self) -> RreadView {
        RreadView {
            header: self.header,
            data: bytes_contents(self.data),
        }
    }
}

impl RreadView {
    /// The encoded fields; `None` when a byte string is too long for its
    /// length field.
    pub open spec fn spec_body(self) -> Option<Seq<u8>> {
        if spec_enc_bytes(self.data) is Some {
            Some(spec_enc_bytes(self.data)->0)
        } else {
            None
        }
    }

    /// The complete encoded message.
    pub open spec fn spec_encode(self) -> Result<Seq<u8>, ProtocolError> {
        spec_message(self.header.message_type, self.header.tag, self.spec_body())
    }

    /// What decoding the bytes `s` as a `Rread` gives.
    pub open spec fn spec_decode(s: Seq<u8>) -> Result<RreadView, ProtocolError> {
        match spec_read_header_of(s, MessageType::Rread) {
            Err(e) => Err(e),
            Ok((header, r0)) => {
                match spec_read_bytes(r0) {
                    Err(e) => Err(e),
                    Ok((data, r1)) => {
                        Ok(RreadView { header, data })
                    },
                }
            },
        }
    }

    /// Decoding the encoding of a well-formed `Rread` gives it back, with the
    /// size field of its header set to the length of the encoding.
    pub proof fn lemma_roundtrip(self)
        requires
            self.spec_encode() is Ok,
            self.header.message_type == MessageType::Rread,
        ensures
            Self::spec_decode(self.spec_encode()->Ok_0) == Ok::<RreadView, ProtocolError>(
                RreadView {
                    header: MessageHeader {
                        size: (self.spec_encode()->Ok_0).len() as u32,
                        ..self.header
                    },
                    ..self
                },
            ),
    {
        let body = self.spec_body()->0;
        lemma_read_header_of_frame(self.header.message_type, self.header.tag, body);
        assert(spec_enc_bytes(self.data)->0 =~= spec_enc_bytes(self.data)->0 + Seq::<u8>::empty());
        lemma_read_bytes_of(self.data, Seq::<u8>::empty());
    }
}

impl Rread {
    pub fn new(tag: u16, data: Bytes) -> (r: Result<Self, ProtocolError>)
        ensures
            r is Ok,
            r->Ok_0.header == (MessageHeader { size: 0, message_type: MessageType::Rread, tag }),
            r->Ok_0.data == data,
    {
        Ok(Self {
            header: MessageHeader { size: 0, message_type: MessageType::Rread, tag },
            data,
        })
    }

    pub fn serialize(&self) -> (r: Result<Bytes, ProtocolError>)
        ensures
            bytes_result_matches(r, self@.spec_encode()),
    {
        let mut writer = MessageWriter::new();
        writer.put_header(self.header.message_type, self.header.tag)?;
        writer.put_bytes(&self.data)?;
        proof {
            let body = self@.spec_body()->0;
            assert(writer.contents() =~= spec_header_bytes(0, self.header.message_type, self.header.tag) + body);
            lemma_finish_frame(self.header.message_type, self.header.tag, writer.contents(), body);
        }
        writer.finish()
    }

    pub fn deserialize(bytes: Bytes) -> (r: Result<Self, ProtocolError>)
        ensures
            decoded_as(r, RreadView::spec_decode(bytes_contents(bytes))),
    {
        let mut reader = MessageReader::new(bytes);
        let header = reader.read_header_of(MessageType::Rread)?;
        let data = reader.read_bytes()?;
        Ok(Self { header, data })
    }
}

/// Answers a `Twrite` with the number of bytes written.
pub struct Rwrite {
    pub header: MessageHeader,
    pub count: u32,
}

impl View for Rwrite {
    type V = Rwrite;

    open spec fn view(&self) -> Rwrite {
        *self
    }
}

impl Rwrite {
    /// The encoded fields; `None` when a byte string is too long for its
    /// length field.
    pub open spec fn spec_body(self) -> Option<Seq<u8>> {
        Some(spec_u32_to_le_bytes(self.count))
    }

    /// The complete encoded message.
    pub open spec fn spec_encode(self) -> Result<Seq<u8>, ProtocolError> {
        spec_message(self.header.message_type, self.header.tag, self.spec_body())
    }

    /// What decoding the bytes `s` as a `Rwrite` gives.
    pub open spec fn spec_decode(s: Seq<u8>) -> Result<Rwrite, ProtocolError> {
        match spec_read_header_of(s, MessageType::Rwrite) {
            Err(e) => Err(e),
            Ok((header, r0)) => {
                match spec_read_u32(r0) {
                    Err(e) => Err(e),
                    Ok((count, r1)) => {
                        Ok(Rwrite { header, count })
                    },
                }
            },
        }
    }

    /// Decoding the encoding of a well-formed `Rwrite` gives it back, with the
    /// size field of its header set to the length of the encoding.
    pub proof fn lemma_roundtrip(self)
        requires
            self.spec_encode() is Ok,
            self.header.message_type == MessageType::Rwrite,
        ensures
            Self::spec_decode(self.spec_encode()->Ok_0) == Ok::<Rwrite, ProtocolError>(
                Rwrite {
                    header: MessageHeader {
                        size: (self.spec_encode()->Ok_0).len() as u32,
                        ..self.header
                    },
                    ..self
                },
            ),
    {
        let body = self.spec_body()->0;
        lemma_read_header_of_frame(self.header.message_type, self.header.tag, body);
        assert(spec_u32_to_le_bytes(self.count) =~= spec_u32_to_le_bytes(self.count) + Seq::<u8>::empty());
        lemma_read_u32_of(self.count, Seq::<u8>::empty());
    }
}

impl Rwrite {
    pub fn new(tag: u16, count: u32) -> (r: Result<Self, ProtocolError>)
        ensures
            r is Ok,
            r->Ok_0.header == (MessageHeader { size: 0, message_type: MessageType::Rwrite, tag }),
            r->Ok_0.count == count,
    {
        Ok(Self {
            header: MessageHeader { size: 0, message_type: MessageType::Rwrite, tag },
            count,
        })
    }

    pub fn serialize(&self) -> (r: Result<Bytes, ProtocolError>)
        ensures
            bytes_result_matches(r, self@.spec_encode()),
    {
        let mut writer = MessageWriter::new();
        writer.put_header(self.header.message_type, self.header.tag)?;
        writer.put_u32(self.count)?;
        proof {
            let body = self@.spec_body()->0;
            assert(writer.contents() =~= spec_header_bytes(0, self.header.message_type, self.header.tag) + body);
            lemma_finish_frame(self.header.message_type, self.header.tag, writer.contents(), body);
        }
        writer.finish()
    }

    pub fn deserialize(bytes: Bytes) -> (r: Result<Self, ProtocolError>)
        ensures
            decoded_as(r, Rwrite::spec_decode(bytes_contents(bytes))),
    {
        let mut reader = MessageReader::new(bytes);
        let header = reader.read_header_of(MessageType::Rwrite)?;
        let count = reader.read_u32()?;
        Ok(Self { header, count })
    }
}

/// Answers a `Tclunk`.
pub struct Rclunk {
    pub header: MessageHeader,
}

impl View for Rclunk {
    type V = Rclunk;

    open spec fn view(&self) -> Rclunk {
        *self
    }
}

impl Rclunk {
    /// The encoded fields; `None` when a byte string is too long for its
    /// length field.
    pub open spec fn spec_body(self) -> Option<Seq<u8>> {
        Some(Seq::<u8>::empty())
    }

    /// The complete encoded message.
    pub open spec fn spec_encode(self) -> Result<Seq<u8>, ProtocolError> {
        spec_message(self.header.message_type, self.header.tag, self.spec_body())
    }

    /// What decoding the bytes `s` as a `Rclunk` gives.
    pub open spec fn spec_decode(s: Seq<u8>) -> Result<Rclunk, ProtocolError> {
        match spec_read_header_of(s, MessageType::Rclunk) {
            Err(e) => Err(e),
            Ok((header, r0)) => {
                Ok(Rclunk { header })
            },
        }
    }

    /// Decoding the encoding of a well-formed `Rclunk` gives it back, with the
    /// size field of its header set to the length of the encoding.
    pub proof fn lemma_roundtrip(self)
        requires
            self.spec_encode() is Ok,
            self.header.message_type == MessageType::Rclunk,
        ensures
            Self::spec_decode(self.spec_encode()->Ok_0) == Ok::<Rclunk, ProtocolError>(
                Rclunk {
                    header: MessageHeader {
                        size: (self.spec_encode()->Ok_0).len() as u32,
                        ..self.header
                    },
                    ..self
                },
            ),
    {
        let body = self.spec_body()->0;
        lemma_read_header_of_frame(self.header.message_type, self.header.tag, body);
        assert(body =~= Seq::<u8>::empty());
    }
}

impl Rclunk {
    pub fn new(tag: u16) -> (r: Result<Self, ProtocolError>)
        ensures
            r is Ok,
            r->Ok_0.header == (MessageHeader { size: 0, message_type: MessageType::Rclunk, tag }),
    {
        Ok(Self {
            header: MessageHeader { size: 0, message_type: MessageType::Rclunk, tag },
        })
    }

    pub fn serialize(&self) -> (r: Result<Bytes, ProtocolError>)
        ensures
            bytes_result_matches(r, self@.spec_encode()),
    {
        let mut writer = MessageWriter::new();
        writer.put_header(self.header.message_type, self.header.tag)?;
        proof {
            let body = self@.spec_body()->0;
            assert(writer.contents() =~= spec_header_bytes(0, self.header.message_type, self.header.tag) + body);
            lemma_finish_frame(self.header.message_type, self.header.tag, writer.contents(), body);
        }
        writer.finish()
    }

    pub fn deserialize(bytes: Bytes) -> (r: Result<Self, ProtocolError>)
        ensures
            decoded_as(r, Rclunk::spec_decode(bytes_contents(bytes))),
    {
        let mut reader = MessageReader::new(bytes);
        let header = reader.read_header_of(MessageType::Rclunk)?;
        Ok(Self { header })
    }
}

/// Answers a `Tremove`.
pub struct Rremove {
    pub header: MessageHeader,
}

impl View for Rremove {
    type V = Rremove;

    open spec fn view(&self) -> Rremove {
        *self
    }
}

impl Rremove {
    /// The encoded fields; `None` when a byte string is too long for its
    /// length field.
    pub open spec fn spec_body(self) -> Option<Seq<u8>> {
        Some(Seq::<u8>::empty())
    }

    /// The complete encoded message.
    pub open spec fn spec_encode(self) -> Result<Seq<u8>, ProtocolError> {
        spec_message(self.header.message_type, self.header.tag, self.spec_body())
    }

    /// What decoding the bytes `s` as a `Rremove` gives.
    pub open spec fn spec_decode(s: Seq<u8>) -> Result<Rremove, ProtocolError> {
        match spec_read_header_of(s, MessageType::Rremove) {
            Err(e) => Err(e),
            Ok((header, r0)) => {
                Ok(Rremove { header })
            },
        }
    }

    /// Decoding the encoding of a well-formed `Rremove` gives it back, with the
    /// size field of its header set to the length of the encoding.
    pub proof fn lemma_roundtrip(self)
        requires
            self.spec_encode() is Ok,
            self.header.message_type == MessageType::Rremove,
        ensures
            Self::spec_decode(self.spec_encode()->Ok_0) == Ok::<Rremove, ProtocolError>(
                Rremove {
                    header: MessageHeader {
                        size: (self.spec_encode()->Ok_0).len() as u32,
                        ..self.header
                    },
                    ..self
                },
            ),
    {
        let body = self.spec_body()->0;
        lemma_read_header_of_frame(self.header.message_type, self.header.tag, body);
        assert(body =~= Seq::<u8>::empty());
    }
}

impl Rremove {
    pub fn new(tag: u16) -> (r: Result<Self, ProtocolError>)
        ensures
            r is Ok,
            r->Ok_0.header == (MessageHeader { size: 0, message_type: MessageType::Rremove, tag }),
    {
        Ok(Self {
            header: MessageHeader { size: 0, message_type: MessageType::Rremove, tag },
        })
    }

    pub fn serialize(&self) -> (r: Result<Bytes, ProtocolError>)
        ensures
            bytes_result_matches(r, self@.spec_encode()),
    {
        let mut writer = MessageWriter::new();
        writer.put_header(self.header.message_type, self.header.tag)?;
        proof {
            let body = self@.spec_body()->0;
            assert(writer.contents() =~= spec_header_bytes(0, self.header.message_type, self.header.tag) + body);
            lemma_finish_frame(self.header.message_type, self.header.tag, writer.contents(), body);
        }
        writer.finish()
    }

    pub fn deserialize(bytes: Bytes) -> (r: Result<Self, ProtocolError>)
        ensures
            decoded_as(r, Rremove::spec_decode(bytes_contents(bytes))),
    {
        let mut reader = MessageReader::new(bytes);
        let header = reader.read_header_of(MessageType::Rremove)?;
        Ok(Self { header })
    }
}

/// Answers a `Tstat` with the attributes of the file.
pub struct Rstat {
    pub header: MessageHeader,
    pub stat: Bytes,
}

/// The contents of a `Rstat`, its byte strings as sequences.
pub struct RstatView {
    pub header: MessageHeader,
    pub stat: Seq<u8>,
}

impl View for Rstat {
    type V = RstatView;

    open spec fn view(&self) -> RstatView {
        RstatView {
            header: self.header,
            stat: bytes_contents(self.stat),
        }
    }
}

impl RstatView {
    /// The encoded fields; `None` when a byte string is too long for its
    /// length field.
    pub open spec fn spec_body(self) -> Option<Seq<u8>> {
        if spec_enc_bytes(self.stat) is Some {
            Some(spec_enc_bytes(self.stat)->0)
        } else {
            None
        }
    }

    /// The complete encoded message.
    pub open spec fn spec_encode(self) -> Result<Seq<u8>, ProtocolError> {
        spec_message(self.header.message_type, self.header.tag, self.spec_body())
    }

    /// What decoding the bytes `s` as a `Rstat` gives.
    pub open spec fn spec_decode(s: Seq<u8>) -> Result<RstatView, ProtocolError> {
        match spec_read_header_of(s, MessageType::Rstat) {
            Err(e) => Err(e),
            Ok((header, r0)) => {
                match spec_read_bytes(r0) {
                    Err(e) => Err(e),
                    Ok((stat, r1)) => {
                        Ok(RstatView { header, stat })
                    },
                }
            },
        }
    }

    /// Decoding the encoding of a well-formed `Rstat` gives it back, with the
    /// size field of its header set to the length of the encoding.
    pub proof fn lemma_roundtrip(self)
        requires
            self.spec_encode() is Ok,
            self.header.message_type == MessageType::Rstat,
        ensures
            Self::spec_decode(self.spec_encode()->Ok_0) == Ok::<RstatView, ProtocolError>(
                RstatView {
                    header: MessageHeader {
                        size: (self.spec_encode()->Ok_0).len() as u32,
                        ..self.header
                    },
                    ..self
                },
            ),
    {
        let body = self.spec_body()->0;
        lemma_read_header_of_frame(self.header.message_type, self.header.tag, body);
        assert(spec_enc_bytes(self.stat)->0 =~= spec_enc_bytes(self.stat)->0 + Seq::<u8>::empty());
        lemma_read_bytes_of(self.stat, Seq::<u8>::empty());
    }
}

impl Rstat {
    pub fn new(tag: u16, stat: Bytes) -> (r: Result<Self, ProtocolError>)
        ensures
            r is Ok,
            r->Ok_0.header == (MessageHeader { size: 0, message_type: MessageType::Rstat, tag }),
            r->Ok_0.stat == stat,
    {
        Ok(Self {
            header: MessageHeader { size: 0, message_type: MessageType::Rstat, tag },
            stat,
        })
    }

    pub fn serialize(&self) -> (r: Result<Bytes, ProtocolError>)
        ensures
            bytes_result_matches(r, self@.spec_encode()),
    {
        let mut writer = MessageWriter::new();
        writer.put_header(self.header.message_type, self.header.tag)?;
        writer.put_bytes(&self.stat)?;
        proof {
            let body = self@.spec_body()->0;
            assert(writer.contents() =~= spec_header_bytes(0, self.header.message_type, self.header.tag) + body);
            lemma_finish_frame(self.header.message_type, self.header.tag, writer.contents(), body);
        }
        writer.finish()
    }

    pub fn deserialize(bytes: Bytes) -> (r: Result<Self, ProtocolError>)
        ensures
            decoded_as(r, RstatView::spec_decode(bytes_contents(bytes))),
    {
        let mut reader = MessageReader::new(bytes);
        let header = reader.read_header_of(MessageType::Rstat)?;
        let stat = reader.read_bytes()?;
        Ok(Self { header, stat })
    }
}

/// Answers a `Twstat`.
pub struct Rwstat {
    pub header: MessageHeader,
}

impl View for Rwstat {
    type V = Rwstat;

    open spec fn view(&self) -> Rwstat {
        *self
    }
}

impl Rwstat {
    /// The encoded fields; `None` when a byte string is too long for its
    /// length field.
    pub open spec fn spec_body(self) -> Option<Seq<u8>> {
        Some(Seq::<u8>::empty())
    }

    /// The complete encoded message.
    pub open spec fn spec_encode(self) -> Result<Seq<u8>, ProtocolError> {
        spec_message(self.header.message_type, self.header.tag, self.spec_body())
    }

    /// What decoding the bytes `s` as a `Rwstat` gives.
    pub open spec fn spec_decode(s: Seq<u8>) -> Result<Rwstat, ProtocolError> {
        match spec_read_header_of(s, MessageType::Rwstat) {
            Err(e) => Err(e),
            Ok((header, r0)) => {
                Ok(Rwstat { header })
            },
        }
    }

    /// Decoding the encoding of a well-formed `Rwstat` gives it back, with the
    /// size field of its header set to the length of the encoding.
    pub proof fn lemma_roundtrip(self)
        requires
            self.spec_encode() is Ok,
            self.header.message_type == MessageType::Rwstat,
        ensures
            Self::spec_decode(self.spec_encode()->Ok_0) == Ok::<Rwstat, ProtocolError>(
                Rwstat {
                    header: MessageHeader {
                        size: (self.spec_encode()->Ok_0).len() as u32,
                        ..self.header
                    },
                    ..self
                },
            ),
    {
        let body = self.spec_body()->0;
        lemma_read_header_of_frame(self.header.message_type, self.header.tag, body);
        assert(body =~= Seq::<u8>::empty());
    }
}

impl Rwstat {
    pub fn new(tag: u16) -> (r: Result<Self, ProtocolError>)
        ensures
            r is Ok,
            r->Ok_0.header == (MessageHeader { size: 0, message_type: MessageType::Rwstat, tag }),
    {
        Ok(Self {
            header: MessageHeader { size: 0, message_type: MessageType::Rwstat, tag },
        })
    }

    pub fn serialize(&self) -> (r: Result<Bytes, ProtocolError>)
        ensures
            bytes_result_matches(r, self@.spec_encode()),
    {
        let mut writer = MessageWriter::new();
        writer.put_header(self.header.message_type, self.header.tag)?;
        proof {
            let body = self@.spec_body()->0;
            assert(writer.contents() =~= spec_header_bytes(0, self.header.message_type, self.header.tag) + body);
            lemma_finish_frame(self.header.message_type, self.header.tag, writer.contents(), body);
        }
        writer.finish()
    }

    pub fn deserialize(bytes: Bytes) -> (r: Result<Self, ProtocolError>)
        ensures
            decoded_as(r, Rwstat::spec_decode(bytes_contents(bytes))),
    {
        let mut reader = MessageReader::new(bytes);
        let header = reader.read_header_of(MessageType::Rwstat)?;
        Ok(Self { header })
    }
}

impl RversionView {
    /// The bytes of the encoded message, field by field, in the order of
    /// the protocol: after the 7 bytes of the header, each fixed-size field
    /// little-endian at its offset, each byte string after its 2-byte length.
    pub proof fn lemma_layout(self)
        requires
            self.spec_encode() is Ok,
        ensures
            ({
                let b = self.spec_encode()->Ok_0;
                &&& field_at(b, 0, spec_u32_to_le_bytes(b.len() as u32))
                &&& b[4] == self.header.message_type.spec_code()
                &&& field_at(b, 5, spec_u16_to_le_bytes(self.header.tag))
                &&& b.len() == 13int + self.version.len()
                &&& field_at(b, 7, spec_u32_to_le_bytes(self.msize))
                &&& field_at(b, 11, spec_u16_to_le_bytes(self.version.len() as u16))
                &&& field_at(b, 13, self.version)
            }),
    {
        lemma_auto_spec_u16_to_from_le_bytes();
        lemma_auto_spec_u32_to_from_le_bytes();
        lemma_auto_spec_u64_to_from_le_bytes();
        let body = self.spec_body()->0;
        lemma_frame_layout(self.header.message_type, self.header.tag, body);
        assert(body.subrange(0int, 4int) =~= spec_u32_to_le_bytes(self.msize));
        assert(field_at(body, 0int, spec_u32_to_le_bytes(self.msize)));
        assert(body.subrange(4int, 6int) =~= spec_u16_to_le_bytes(self.version.len() as u16));
        assert(field_at(body, 4int, spec_u16_to_le_bytes(self.version.len() as u16)));
        assert(body.subrange(6int, 6int + self.version.len()) =~= self.version);
        assert(field_at(body, 6int, self.version));
    }
}

impl RauthView {
    /// The bytes of the encoded message, field by field, in the order of
    /// the protocol: after the 7 bytes of the header, each fixed-size field
    /// little-endian at its offset, each byte string after its 2-byte length.
    pub proof fn lemma_layout(self)
        requires
            self.spec_encode() is Ok,
        ensures
            ({
                let b = self.spec_encode()->Ok_0;
                &&& field_at(b, 0, spec_u32_to_le_bytes(b.len() as u32))
                &&& b[4] == self.header.message_type.spec_code()
                &&& field_at(b, 5, spec_u16_to_le_bytes(self.header.tag))
                &&& b.len() == 9int + self.qid.len()
                &&& field_at(b, 7, spec_u16_to_le_bytes(self.qid.len() as u16))
                &&& field_at(b, 9, self.qid)
            }),
    {
        lemma_auto_spec_u16_to_from_le_bytes();
        lemma_auto_spec_u32_to_from_le_bytes();
        lemma_auto_spec_u64_to_from_le_bytes();
        let body = self.spec_body()->0;
        lemma_frame_layout(self.header.message_type, self.header.tag, body);
        assert(body.subrange(0int, 2int) =~= spec_u16_to_le_bytes(self.qid.len() as u16));
        assert(field_at(body, 0int, spec_u16_to_le_bytes(self.qid.len() as u16)));
        assert(body.subrange(2int, 2int + self.qid.len()) =~= self.qid);
        assert(field_at(body, 2int, self.qid));
    }
}

impl RattachView {
    /// The bytes of the encoded message, field by field, in the order of
    /// the protocol: after the 7 bytes of the header, each fixed-size field
    /// little-endian at its offset, each byte string after its 2-byte length.
    pub proof fn lemma_layout(self)
        requires
            self.spec_encode() is Ok,
        ensures
            ({
                let b = self.spec_encode()->Ok_0;
                &&& field_at(b, 0, spec_u32_to_le_bytes(b.len() as u32))
                &&& b[4] == self.header.message_type.spec_code()
                &&& field_at(b, 5, spec_u16_to_le_bytes(self.header.tag))
                &&& b.len() == 9int + self.qid.len()
                &&& field_at(b, 7, spec_u16_to_le_bytes(self.qid.len() as u16))
                &&& field_at(b, 9, self.qid)
            }),
    {
        lemma_auto_spec_u16_to_from_le_bytes();
        lemma_auto_spec_u32_to_from_le_bytes();
        lemma_auto_spec_u64_to_from_le_bytes();
        let body = self.spec_body()->0;
        lemma_frame_layout(self.header.message_type, self.header.tag, body);
        assert(body.subrange(0int, 2int) =~= spec_u16_to_le_bytes(self.qid.len() as u16));
        assert(field_at(body, 0int, spec_u16_to_le_bytes(self.qid.len() as u16)));
        assert(body.subrange(2int, 2int + self.qid.len()) =~= self.qid);
        assert(field_at(body, 2int, self.qid));
    }
}

impl RerrorView {
    /// The bytes of the encoded message, field by field, in the order of
    /// the protocol: after the 7 bytes of the header, each fixed-size field
    /// little-endian at its offset, each byte string after its 2-byte length.
    pub proof fn lemma_layout(self)
        requires
            self.spec_encode() is Ok,
        ensures
            ({
                let b = self.spec_encode()->Ok_0;
                &&& field_at(b, 0, spec_u32_to_le_bytes(b.len() as u32))
                &&& b[4] == self.header.message_type.spec_code()
                &&& field_at(b, 5, spec_u16_to_le_bytes(self.header.tag))
                &&& b.len() == 9int + self.ename.len()
                &&& field_at(b, 7, spec_u16_to_le_bytes(self.ename.len() as u16))
                &&& field_at(b, 9, self.ename)
            }),
    {
        lemma_auto_spec_u16_to_from_le_bytes();
        lemma_auto_spec_u32_to_from_le_bytes();
        lemma_auto_spec_u64_to_from_le_bytes();
        let body = self.spec_body()->0;
        lemma_frame_layout(self.header.message_type, self.header.tag, body);
        assert(body.subrange(0int, 2int) =~= spec_u16_to_le_bytes(self.ename.len() as u16));
        assert(field_at(body, 0int, spec_u16_to_le_bytes(self.ename.len() as u16)));
        assert(body.subrange(2int, 2int + self.ename.len()) =~= self.ename);
        assert(field_at(body, 2int, self.ename));
    }
}

impl Rflush {
    /// The bytes of the encoded message, field by field, in the order of
    /// the protocol: after the 7 bytes of the header, each fixed-size field
    /// little-endian at its offset, each byte string after its 2-byte length.
    pub proof fn lemma_layout(self)
        requires
            self.spec_encode() is Ok,
        ensures
            ({
                let b = self.spec_encode()->Ok_0;
                &&& field_at(b, 0, spec_u32_to_le_bytes(b.len() as u32))
                &&& b[4] == self.header.message_type.spec_code()
                &&& field_at(b, 5, spec_u16_to_le_bytes(self.header.tag))
                &&& b.len() == 7
            }),
    {
        lemma_auto_spec_u16_to_from_le_bytes();
        lemma_auto_spec_u32_to_from_le_bytes();
        lemma_auto_spec_u64_to_from_le_bytes();
        let body = self.spec_body()->0;
        lemma_frame_layout(self.header.message_type, self.header.tag, body);

    }
}

impl RwalkView {
    /// The bytes of the encoded message, field by field, in the order of
    /// the protocol: after the 7 bytes of the header, each fixed-size field
    /// little-endian at its offset, each byte string after its 2-byte length.
    pub proof fn lemma_layout(self)
        requires
            self.spec_encode() is Ok,
        ensures
            ({
                let b = self.spec_encode()->Ok_0;
                &&& field_at(b, 0, spec_u32_to_le_bytes(b.len() as u32))
                &&& b[4] == self.header.message_type.spec_code()
                &&& field_at(b, 5, spec_u16_to_le_bytes(self.header.tag))
                &&& field_at(b, 7, spec_u16_to_le_bytes(self.wqid.len() as u16))
            }),
    {
        lemma_auto_spec_u16_to_from_le_bytes();
        lemma_auto_spec_u32_to_from_le_bytes();
        lemma_auto_spec_u64_to_from_le_bytes();
        let body = self.spec_body()->0;
        lemma_frame_layout(self.header.message_type, self.header.tag, body);
        assert(body.subrange(0int, 2int) =~= spec_u16_to_le_bytes(self.wqid.len() as u16));
        assert(field_at(body, 0int, spec_u16_to_le_bytes(self.wqid.len() as u16)));
    }
}

impl RopenView {
    /// The bytes of the encoded message, field by field, in the order of
    /// the protocol: after the 7 bytes of the header, each fixed-size field
    /// little-endian at its offset, each byte string after its 2-byte length.
    pub proof fn lemma_layout(self)
        requires
            self.spec_encode() is Ok,
        ensures
            ({
                let b = self.spec_encode()->Ok_0;
                &&& field_at(b, 0, spec_u32_to_le_bytes(b.len() as u32))
                &&& b[4] == self.header.message_type.spec_code()
                &&& field_at(b, 5, spec_u16_to_le_bytes(self.header.tag))
                &&& b.len() == 9int + self.qid.len()
                &&& field_at(b, 7, spec_u16_to_le_bytes(self.qid.len() as u16))
                &&& field_at(b, 9, self.qid)
            }),
    {
        lemma_auto_spec_u16_to_from_le_bytes();
        lemma_auto_spec_u32_to_from_le_bytes();
        lemma_auto_spec_u64_to_from_le_bytes();
        let body = self.spec_body()->0;
        lemma_frame_layout(self.header.message_type, self.header.tag, body);
        assert(body.subrange(0int, 2int) =~= spec_u16_to_le_bytes(self.qid.len() as u16));
        assert(field_at(body, 0int, spec_u16_to_le_bytes(self.qid.len() as u16)));
        assert(body.subrange(2int, 2int + self.qid.len()) =~= self.qid);
        assert(field_at(body, 2int, self.qid));
    }
}

impl RcreateView {
    /// The bytes of the encoded message, field by field, in the order of
    /// the protocol: after the 7 bytes of the header, each fixed-size field
    /// little-endian at its offset, each byte string after its 2-byte length.
    pub proof fn lemma_layout(self)
        requires
            self.spec_encode() is Ok,
        ensures
            ({
                let b = self.spec_encode()->Ok_0;
                &&& field_at(b, 0, spec_u32_to_le_bytes(b.len() as u32))
                &&& b[4] == self.header.message_type.spec_code()
                &&& field_at(b, 5, spec_u16_to_le_bytes(self.header.tag))
                &&& b.len() == 9int + self.qid.len()
                &&& field_at(b, 7, spec_u16_to_le_bytes(self.qid.len() as u16))
                &&& field_at(b, 9, self.qid)
            }),
    {
        lemma_auto_spec_u16_to_from_le_bytes();
        lemma_auto_spec_u32_to_from_le_bytes();
        lemma_auto_spec_u64_to_from_le_bytes();
        let body = self.spec_body()->0;
        lemma_frame_layout(self.header.message_type, self.header.tag, body);
        assert(body.subrange(0int, 2int) =~= spec_u16_to_le_bytes(self.qid.len() as u16));
        assert(field_at(body, 0int, spec_u16_to_le_bytes(self.qid.len() as u16)));
        assert(body.subrange(2int, 2int + self.qid.len()) =~= self.qid);
        assert(field_at(body, 2int, self.qid));
    }
}

impl RreadView {
    /// The bytes of the encoded message, field by field, in the order of
    /// the protocol: after the 7 bytes of the header, each fixed-size field
    /// little-endian at its offset, each byte string after its 2-byte length.
    pub proof fn lemma_layout(self)
        requires
            self.spec_encode() is Ok,
        ensures
            ({
                let b = self.spec_encode()->Ok_0;
                &&& field_at(b, 0, spec_u32_to_le_bytes(b.len() as u32))
                &&& b[4] == self.header.message_type.spec_code()
                &&& field_at(b, 5, spec_u16_to_le_bytes(self.header.tag))
                &&& b.len() == 9int + self.data.len()
                &&& field_at(b, 7, spec_u16_to_le_bytes(self.data.len() as u16))
                &&& field_at(b, 9, self.data)
            }),
    {
        lemma_auto_spec_u16_to_from_le_bytes();
        lemma_auto_spec_u32_to_from_le_bytes();
        lemma_auto_spec_u64_to_from_le_bytes();
        let body = self.spec_body()->0;
        lemma_frame_layout(self.header.message_type, self.header.tag, body);
        assert(body.subrange(0int, 2int) =~= spec_u16_to_le_bytes(self.data.len() as u16));
        assert(field_at(body, 0int, spec_u16_to_le_bytes(self.data.len() as u16)));
        assert(body.subrange(2int, 2int + self.data.len()) =~= self.data);
        assert(field_at(body, 2int, self.data));
    }
}

impl Rwrite {
    /// The bytes of the encoded message, field by field, in the order of
    /// the protocol: after the 7 bytes of the header, each fixed-size field
    /// little-endian at its offset, each byte string after its 2-byte length.
    pub proof fn lemma_layout(self)
        requires
            self.spec_encode() is Ok,
        ensures
            ({
                let b = self.spec_encode()->Ok_0;
                &&& field_at(b, 0, spec_u32_to_le_bytes(b.len() as u32))
                &&& b[4] == self.header.message_type.spec_code()
                &&& field_at(b, 5, spec_u16_to_le_bytes(self.header.tag))
                &&& b.len() == 11
                &&& field_at(b, 7, spec_u32_to_le_bytes(self.count))
            }),
    {
        lemma_auto_spec_u16_to_from_le_bytes();
        lemma_auto_spec_u32_to_from_le_bytes();
        lemma_auto_spec_u64_to_from_le_bytes();
        let body = self.spec_body()->0;
        lemma_frame_layout(self.header.message_type, self.header.tag, body);
        assert(body.subrange(0int, 4int) =~= spec_u32_to_le_bytes(self.count));
        assert(field_at(body, 0int, spec_u32_to_le_bytes(self.count)));
    }
}

impl Rclunk {
    /// The bytes of the encoded message, field by field, in the order of
    /// the protocol: after the 7 bytes of the header, each fixed-size field
    /// little-endian at its offset, each byte string after its 2-byte length.
    pub proof fn lemma_layout(self)
        requires
            self.spec_encode() is Ok,
        ensures
            ({
                let b = self.spec_encode()->Ok_0;
                &&& field_at(b, 0, spec_u32_to_le_bytes(b.len() as u32))
                &&& b[4] == self.header.message_type.spec_code()
                &&& field_at(b, 5, spec_u16_to_le_bytes(self.header.tag))
                &&& b.len() == 7
            }),
    {
        lemma_auto_spec_u16_to_from_le_bytes();
        lemma_auto_spec_u32_to_from_le_bytes();
        lemma_auto_spec_u64_to_from_le_bytes();
        let body = self.spec_body()->0;
        lemma_frame_layout(self.header.message_type, self.header.tag, body);

    }
}

impl Rremove {
    /// The bytes of the encoded message, field by field, in the order of
    /// the protocol: after the 7 bytes of the header, each fixed-size field
    /// little-endian at its offset, each byte string after its 2-byte length.
    pub proof fn lemma_layout(self)
        requires
            self.spec_encode() is Ok,
        ensures
            ({
                let b = self.spec_encode()->Ok_0;
                &&& field_at(b, 0, spec_u32_to_le_bytes(b.len() as u32))
                &&& b[4] == self.header.message_type.spec_code()
                &&& field_at(b, 5, spec_u16_to_le_bytes(self.header.tag))
                &&& b.len() == 7
            }),
    {
        lemma_auto_spec_u16_to_from_le_bytes();
        lemma_auto_spec_u32_to_from_le_bytes();
        lemma_auto_spec_u64_to_from_le_bytes();
        let body = self.spec_body()->0;
        lemma_frame_layout(self.header.message_type, self.header.tag, body);

    }
}

impl RstatView {
    /// The bytes of the encoded message, field by field, in the order of
    /// the protocol: after the 7 bytes of the header, each fixed-size field
    /// little-endian at its offset, each byte string after its 2-byte length.
    pub proof fn lemma_layout(self)
        requires
            self.spec_encode() is Ok,
        ensures
            ({
                let b = self.spec_encode()->Ok_0;
                &&& field_at(b, 0, spec_u32_to_le_bytes(b.len() as u32))
                &&& b[4] == self.header.message_type.spec_code()
                &&& field_at(b, 5, spec_u16_to_le_bytes(self.header.tag))
                &&& b.len() == 9int + self.stat.len()
                &&& field_at(b, 7, spec_u16_to_le_bytes(self.stat.len() as u16))
                &&& field_at(b, 9, self.stat)
            }),
    {
        lemma_auto_spec_u16_to_from_le_bytes();
        lemma_auto_spec_u32_to_from_le_bytes();
        lemma_auto_spec_u64_to_from_le_bytes();
        let body = self.spec_body()->0;
        lemma_frame_layout(self.header.message_type, self.header.tag, body);
        assert(body.subrange(0int, 2int) =~= spec_u16_to_le_bytes(self.stat.len() as u16));
        assert(field_at(body, 0int, spec_u16_to_le_bytes(self.stat.len() as u16)));
        assert(body.subrange(2int, 2int + self.stat.len()) =~= self.stat);
        assert(field_at(body, 2int, self.stat));
    }
}

impl Rwstat {
    /// The bytes of the encoded message, field by field, in the order of
    /// the protocol: after the 7 bytes of the header, each fixed-size field
    /// little-endian at its offset, each byte string after its 2-byte length.
    pub proof fn lemma_layout(self)
        requires
            self.spec_encode() is Ok,
        ensures
            ({
                let b = self.spec_encode()->Ok_0;
                &&& field_at(b, 0, spec_u32_to_le_bytes(b.len() as u32))
                &&& b[4] == self.header.message_type.spec_code()
                &&& field_at(b, 5, spec_u16_to_le_bytes(self.header.tag))
                &&& b.len() == 7
            }),
    {
        lemma_auto_spec_u16_to_from_le_bytes();
        lemma_auto_spec_u32_to_from_le_bytes();
        lemma_auto_spec_u64_to_from_le_bytes();
        let body = self.spec_body()->0;
        lemma_frame_layout(self.header.message_type, self.header.tag, body);

    }
}

} // verus!
