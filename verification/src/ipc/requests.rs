//! Requests: the messages a client sends.

use crate::ipc::bytes_buf::{bytes_contents, bytes_len};
use crate::ipc::error::ProtocolError;
use crate::ipc::messages::{MessageHeader, MessageType, MAX_MESSAGE_SIZE};
use crate::ipc::serialization::{
    field_at, lemma_frame_layout,
    bytes_result_matches, decoded_as, lemma_finish_frame, lemma_read_bytes_list_of,
    lemma_read_bytes_of, lemma_read_header_of_frame, lemma_read_u16_of, lemma_read_u32_of,
    lemma_read_u64_of, lemma_read_u8_of, spec_enc_bytes, spec_enc_bytes_list, spec_header_bytes,
    spec_message, spec_read_bytes, spec_read_bytes_list, spec_read_header_of, spec_read_u16,
    spec_read_u32, spec_read_u64, spec_read_u8, MessageReader, MessageWriter,
};
use bytes::Bytes;
use vstd::bytes::{
    lemma_auto_spec_u16_to_from_le_bytes, lemma_auto_spec_u32_to_from_le_bytes,
    lemma_auto_spec_u64_to_from_le_bytes, spec_u16_to_le_bytes, spec_u32_to_le_bytes, spec_u64_to_le_bytes,
};
use vstd::prelude::*;

verus! {


/// Negotiates the protocol version and the largest message size.
pub struct Tversion {
    pub header: MessageHeader,
    pub msize: u32,
    pub version: Bytes,
}

/// The contents of a `Tversion`, its byte strings as sequences.
pub struct TversionView {
    pub header: MessageHeader,
    pub msize: u32,
    pub version: Seq<u8>,
}

impl View for Tversion {
    type V = TversionView;

    open spec fn view(&self) -> TversionView {
        TversionView {
            header: self.header,
            msize: self.msize,
            version: bytes_contents(self.version),
        }
    }
}

impl TversionView {
    /// The encoded fields; `None` when a byte string is too long for its
    /// length field.
    pub open spec fn spec_body(self) -> Option<Seq<u8>> {
        if spec_enc_bytes(self.version) is Some {
            Some(spec_u32_to_le_bytes(self.msize) + (spec_enc_bytes(self.version)->0))
        } else {
            None
        }
    }

    /// The complete encoded message.
    pub open spec fn spec_encode(self) -> Result<Seq<u8>, ProtocolError> {
        spec_message(self.header.message_type, self.header.tag, self.spec_body())
    }

    /// What decoding the bytes `s` as a `Tversion` gives.
    pub open spec fn spec_decode(s: Seq<u8>) -> Result<TversionView, ProtocolError> {
        match spec_read_header_of(s, MessageType::Tversion) {
            Err(e) => Err(e),
            Ok((header, r0)) => {
                match spec_read_u32(r0) {
                    Err(e) => Err(e),
                    Ok((msize, r1)) => {
                        match spec_read_bytes(r1) {
                            Err(e) => Err(e),
                            Ok((version, r2)) => {
                                if msize > MAX_MESSAGE_SIZE {
                                    Err(ProtocolError::ExceedsMaxSize)
                                } else {
                                    Ok(TversionView { header, msize, version })
                                }
                            },
                        }
                    },
                }
            },
        }
    }

    /// Decoding the encoding of a well-formed `Tversion` gives it back, with the
    /// size field of its header set to the length of the encoding.
    pub proof fn lemma_roundtrip(self)
        requires
            self.spec_encode() is Ok,
            self.header.message_type == MessageType::Tversion,
            self.msize <= MAX_MESSAGE_SIZE,
        ensures
            Self::spec_decode(self.spec_encode()->Ok_0) == Ok::<TversionView, ProtocolError>(
                TversionView {
                    header: MessageHeader {
                        size: (self.spec_encode()->Ok_0).len() as u32,
                        ..self.header
                    },
                    ..self
                },
            ),
    {
        let body = self.spec_body()->0;
        lemma_read_header_of_frame(self.header.message_type, self.header.tag, body);
        lemma_read_u32_of(self.msize, spec_enc_bytes(self.version)->0);
        assert(spec_enc_bytes(self.version)->0 =~= spec_enc_bytes(self.version)->0 + Seq::<u8>::empty());
        lemma_read_bytes_of(self.version, Seq::<u8>::empty());
    }
}

impl Tversion {
    pub fn new(tag: u16, msize: u32, version: Bytes) -> (r: Result<Self, ProtocolError>)
        ensures
            (bytes_contents(version).len() > u16::MAX) ==> r == Err::<Self, ProtocolError>(ProtocolError::VersionTooLong),
            !(bytes_contents(version).len() > u16::MAX) && (msize > MAX_MESSAGE_SIZE) ==> r == Err::<Self, ProtocolError>(ProtocolError::ExceedsMaxSize),
            !(bytes_contents(version).len() > u16::MAX) && !(msize > MAX_MESSAGE_SIZE) ==> (
                r is Ok &&
                r->Ok_0.header == (MessageHeader { size: 0, message_type: MessageType::Tversion, tag }) &&
                r->Ok_0.msize == msize &&
                r->Ok_0.version == version
            ),
    {
        if bytes_len(&version) > 0xFFFF {
            return Err(ProtocolError::VersionTooLong);
        }
        if msize > MAX_MESSAGE_SIZE {
            return Err(ProtocolError::ExceedsMaxSize);
        }
        Ok(Self {
            header: MessageHeader { size: 0, message_type: MessageType::Tversion, tag },
            msize,
            version,
        })
    }

    pub fn serialize(&self) -> (r: Result<Bytes, ProtocolError>)
        ensures
            bytes_result_matches(r, self@.spec_encode()),
    {
        let mut writer = MessageWriter::new();
        writer.put_header(self.header.message_type, self.header.tag)?;
        writer.put_u32(self.msize)?;
        writer.put_bytes(&self.version)?;
        proof {
            let body = self@.spec_body()->0;
            assert(writer.contents() =~= spec_header_bytes(0, self.header.message_type, self.header.tag) + body);
            lemma_finish_frame(self.header.message_type, self.header.tag, writer.contents(), body);
        }
        writer.finish()
    }

    pub fn deserialize(bytes: Bytes) -> (r: Result<Self, ProtocolError>)
        ensures
            decoded_as(r, TversionView::spec_decode(bytes_contents(bytes))),
    {
        let mut reader = MessageReader::new(bytes);
        let header = reader.read_header_of(MessageType::Tversion)?;
        let msize = reader.read_u32()?;
        let version = reader.read_bytes()?;
        if msize > MAX_MESSAGE_SIZE {
            return Err(ProtocolError::ExceedsMaxSize);
        }
        Ok(Self { header, msize, version })
    }
}

/// Asks for an authentication file for a user and a file tree.
pub struct Tauth {
    pub header: MessageHeader,
    pub afid: u32,
    pub uname: Bytes,
    pub aname: Bytes,
}

/// The contents of a `Tauth`, its byte strings as sequences.
pub struct TauthView {
    pub header: MessageHeader,
    pub afid: u32,
    pub uname: Seq<u8>,
    pub aname: Seq<u8>,
}

impl View for Tauth {
    type V = TauthView;

    open spec fn view(&self) -> TauthView {
        TauthView {
            header: self.header,
            afid: self.afid,
            uname: bytes_contents(self.uname),
            aname: bytes_contents(self.aname),
        }
    }
}

impl TauthView {
    /// The encoded fields; `None` when a byte string is too long for its
    /// length field.
    pub open spec fn spec_body(self) -> Option<Seq<u8>> {
        if spec_enc_bytes(self.uname) is Some && spec_enc_bytes(self.aname) is Some {
            Some(spec_u32_to_le_bytes(self.afid) + (spec_enc_bytes(self.uname)->0 + (spec_enc_bytes(self.aname)->0)))
        } else {
            None
        }
    }

    /// The complete encoded message.
    pub open spec fn spec_encode(self) -> Result<Seq<u8>, ProtocolError> {
        spec_message(self.header.message_type, self.header.tag, self.spec_body())
    }

    /// What decoding the bytes `s` as a `Tauth` gives.
    pub open spec fn spec_decode(s: Seq<u8>) -> Result<TauthView, ProtocolError> {
        match spec_read_header_of(s, MessageType::Tauth) {
            Err(e) => Err(e),
            Ok((header, r0)) => {
                match spec_read_u32(r0) {
                    Err(e) => Err(e),
                    Ok((afid, r1)) => {
                        match spec_read_bytes(r1) {
                            Err(e) => Err(e),
                            Ok((uname, r2)) => {
                                match spec_read_bytes(r2) {
                                    Err(e) => Err(e),
                                    Ok((aname, r3)) => {
                                        Ok(TauthView { header, afid, uname, aname })
                                    },
                                }
                            },
                        }
                    },
                }
            },
        }
    }

    /// Decoding the encoding of a well-formed `Tauth` gives it back, with the
    /// size field of its header set to the length of the encoding.
    pub proof fn lemma_roundtrip(self)
        requires
            self.spec_encode() is Ok,
            self.header.message_type == MessageType::Tauth,
        ensures
            Self::spec_decode(self.spec_encode()->Ok_0) == Ok::<TauthView, ProtocolError>(
                TauthView {
                    header: MessageHeader {
                        size: (self.spec_encode()->Ok_0).len() as u32,
                        ..self.header
                    },
                    ..self
                },
            ),
    {
        let body = self.spec_body()->0;
        lemma_read_header_of_frame(self.header.message_type, self.header.tag, body);
        lemma_read_u32_of(self.afid, spec_enc_bytes(self.uname)->0 + (spec_enc_bytes(self.aname)->0));
        lemma_read_bytes_of(self.uname, spec_enc_bytes(self.aname)->0);
        assert(spec_enc_bytes(self.aname)->0 =~= spec_enc_bytes(self.aname)->0 + Seq::<u8>::empty());
        lemma_read_bytes_of(self.aname, Seq::<u8>::empty());
    }
}

impl Tauth {
    pub fn new(tag: u16, afid: u32, uname: Bytes, aname: Bytes) -> (r: Result<Self, ProtocolError>)
        ensures
            (bytes_contents(uname).len() > u16::MAX) ==> r == Err::<Self, ProtocolError>(ProtocolError::UsernameTooLong),
            !(bytes_contents(uname).len() > u16::MAX) && (bytes_contents(aname).len() > u16::MAX) ==> r == Err::<Self, ProtocolError>(ProtocolError::AnameTooLong),
            !(bytes_contents(uname).len() > u16::MAX) && !(bytes_contents(aname).len() > u16::MAX) ==> (
                r is Ok &&
                r->Ok_0.header == (MessageHeader { size: 0, message_type: MessageType::Tauth, tag }) &&
                r->Ok_0.afid == afid &&
                r->Ok_0.uname == uname &&
                r->Ok_0.aname == aname
            ),
    {
        if bytes_len(&uname) > 0xFFFF {
            return Err(ProtocolError::UsernameTooLong);
        }
        if bytes_len(&aname) > 0xFFFF {
            return Err(ProtocolError::AnameTooLong);
        }
        Ok(Self {
            header: MessageHeader { size: 0, message_type: MessageType::Tauth, tag },
            afid,
            uname,
            aname,
        })
    }

    pub fn serialize(&self) -> (r: Result<Bytes, ProtocolError>)
        ensures
            bytes_result_matches(r, self@.spec_encode()),
    {
        let mut writer = MessageWriter::new();
        writer.put_header(self.header.message_type, self.header.tag)?;
        writer.put_u32(self.afid)?;
        writer.put_bytes(&self.uname)?;
        writer.put_bytes(&self.aname)?;
        proof {
            let body = self@.spec_body()->0;
            assert(writer.contents() =~= spec_header_bytes(0, self.header.message_type, self.header.tag) + body);
            lemma_finish_frame(self.header.message_type, self.header.tag, writer.contents(), body);
        }
        writer.finish()
    }

    pub fn deserialize(bytes: Bytes) -> (r: Result<Self, ProtocolError>)
        ensures
            decoded_as(r, TauthView::spec_decode(bytes_contents(bytes))),
    {
        let mut reader = MessageReader::new(bytes);
        let header = reader.read_header_of(MessageType::Tauth)?;
        let afid = reader.read_u32()?;
        let uname = reader.read_bytes()?;
        let aname = reader.read_bytes()?;
        Ok(Self { header, afid, uname, aname })
    }
}

/// Aborts the request with tag `oldtag`.
pub struct Tflush {
    pub header: MessageHeader,
    pub oldtag: u16,
}

impl View for Tflush {
    type V = Tflush;

    open spec fn view(&self) -> Tflush {
        *self
    }
}

impl Tflush {
    /// The encoded fields; `None` when a byte string is too long for its
    /// length field.
    pub open spec fn spec_body(self) -> Option<Seq<u8>> {
        Some(spec_u16_to_le_bytes(self.oldtag))
    }

    /// The complete encoded message.
    pub open spec fn spec_encode(self) -> Result<Seq<u8>, ProtocolError> {
        spec_message(self.header.message_type, self.header.tag, self.spec_body())
    }

    /// What decoding the bytes `s` as a `Tflush` gives.
    pub open spec fn spec_decode(s: Seq<u8>) -> Result<Tflush, ProtocolError> {
        match spec_read_header_of(s, MessageType::Tflush) {
            Err(e) => Err(e),
            Ok((header, r0)) => {
                match spec_read_u16(r0) {
                    Err(e) => Err(e),
                    Ok((oldtag, r1)) => {
                        Ok(Tflush { header, oldtag })
                    },
                }
            },
        }
    }

    /// Decoding the encoding of a well-formed `Tflush` gives it back, with the
    /// size field of its header set to the length of the encoding.
    pub proof fn lemma_roundtrip(self)
        requires
            self.spec_encode() is Ok,
            self.header.message_type == MessageType::Tflush,
        ensures
            Self::spec_decode(self.spec_encode()->Ok_0) == Ok::<Tflush, ProtocolError>(
                Tflush {
                    header: MessageHeader {
                        size: (self.spec_encode()->Ok_0).len() as u32,
                        ..self.header
                    },
                    ..self
                },
            ),
    {
        let body = self.spec_body()->0;
        lemma_read_header_of_frame(self.header.message_type, self.header.tag, body);
        assert(spec_u16_to_le_bytes(self.oldtag) =~= spec_u16_to_le_bytes(self.oldtag) + Seq::<u8>::empty());
        lemma_read_u16_of(self.oldtag, Seq::<u8>::empty());
    }
}

impl Tflush {
    pub fn new(tag: u16, oldtag: u16) -> (r: Result<Self, ProtocolError>)
        ensures
            r is Ok,
            r->Ok_0.header == (MessageHeader { size: 0, message_type: MessageType::Tflush, tag }),
            r->Ok_0.oldtag == oldtag,
    {
        Ok(Self {
            header: MessageHeader { size: 0, message_type: MessageType::Tflush, tag },
            oldtag,
        })
    }

    pub fn serialize(&self) -> (r: Result<Bytes, ProtocolError>)
        ensures
            bytes_result_matches(r, self@.spec_encode()),
    {
        let mut writer = MessageWriter::new();
        writer.put_header(self.header.message_type, self.header.tag)?;
        writer.put_u16(self.oldtag)?;
        proof {
            let body = self@.spec_body()->0;
            assert(writer.contents() =~= spec_header_bytes(0, self.header.message_type, self.header.tag) + body);
            lemma_finish_frame(self.header.message_type, self.header.tag, writer.contents(), body);
        }
        writer.finish()
    }

    pub fn deserialize(bytes: Bytes) -> (r: Result<Self, ProtocolError>)
        ensures
            decoded_as(r, Tflush::spec_decode(bytes_contents(bytes))),
    {
        let mut reader = MessageReader::new(bytes);
        let header = reader.read_header_of(MessageType::Tflush)?;
        let oldtag = reader.read_u16()?;
        Ok(Self { header, oldtag })
    }
}

/// Attaches `fid` to the root of a file tree.
pub struct Tattach {
    pub header: MessageHeader,
    pub fid: u32,
    pub afid: u32,
    pub uname: Bytes,
    pub aname: Bytes,
}

/// The contents of a `Tattach`, its byte strings as sequences.
pub struct TattachView {
    pub header: MessageHeader,
    pub fid: u32,
    pub afid: u32,
    pub uname: Seq<u8>,
    pub aname: Seq<u8>,
}

impl View for Tattach {
    type V = TattachView;

    open spec fn view(&self) -> TattachView {
        TattachView {
            header: self.header,
            fid: self.fid,
            afid: self.afid,
            uname: bytes_contents(self.uname),
            aname: bytes_contents(self.aname),
        }
    }
}

impl TattachView {
    /// The encoded fields; `None` when a byte string is too long for its
    /// length field.
    pub open spec fn spec_body(self) -> Option<Seq<u8>> {
        if spec_enc_bytes(self.uname) is Some && spec_enc_bytes(self.aname) is Some {
            Some(spec_u32_to_le_bytes(self.fid) + (spec_u32_to_le_bytes(self.afid) + (spec_enc_bytes(self.uname)->0 + (spec_enc_bytes(self.aname)->0))))
        } else {
            None
        }
    }

    /// The complete encoded message.
    pub open spec fn spec_encode(self) -> Result<Seq<u8>, ProtocolError> {
        spec_message(self.header.message_type, self.header.tag, self.spec_body())
    }

    /// What decoding the bytes `s` as a `Tattach` gives.
    pub open spec fn spec_decode(s: Seq<u8>) -> Result<TattachView, ProtocolError> {
        match spec_read_header_of(s, MessageType::Tattach) {
            Err(e) => Err(e),
            Ok((header, r0)) => {
                match spec_read_u32(r0) {
                    Err(e) => Err(e),
                    Ok((fid, r1)) => {
                        match spec_read_u32(r1) {
                            Err(e) => Err(e),
                            Ok((afid, r2)) => {
                                match spec_read_bytes(r2) {
                                    Err(e) => Err(e),
                                    Ok((uname, r3)) => {
                                        match spec_read_bytes(r3) {
                                            Err(e) => Err(e),
                                            Ok((aname, r4)) => {
                                                Ok(TattachView { header, fid, afid, uname, aname })
                                            },
                                        }
                                    },
                                }
                            },
                        }
                    },
                }
            },
        }
    }

    /// Decoding the encoding of a well-formed `Tattach` gives it back, with the
    /// size field of its header set to the length of the encoding.
    pub proof fn lemma_roundtrip(self)
        requires
            self.spec_encode() is Ok,
            self.header.message_type == MessageType::Tattach,
        ensures
            Self::spec_decode(self.spec_encode()->Ok_0) == Ok::<TattachView, ProtocolError>(
                TattachView {
                    header: MessageHeader {
                        size: (self.spec_encode()->Ok_0).len() as u32,
                        ..self.header
                    },
                    ..self
                },
            ),
    {
        let body = self.spec_body()->0;
        lemma_read_header_of_frame(self.header.message_type, self.header.tag, body);
        lemma_read_u32_of(self.fid, spec_u32_to_le_bytes(self.afid) + (spec_enc_bytes(self.uname)->0 + (spec_enc_bytes(self.aname)->0)));
        lemma_read_u32_of(self.afid, spec_enc_bytes(self.uname)->0 + (spec_enc_bytes(self.aname)->0));
        lemma_read_bytes_of(self.uname, spec_enc_bytes(self.aname)->0);
        assert(spec_enc_bytes(self.aname)->0 =~= spec_enc_bytes(self.aname)->0 + Seq::<u8>::empty());
        lemma_read_bytes_of(self.aname, Seq::<u8>::empty());
    }
}

impl TattachView {
    /// The bytes of an encoded `Tattach`, field by field: the size, the
    /// kind and the tag, then `fid` at bytes 7 to 11 and `afid` at bytes 11
    /// to 15, both little-endian, then `uname` and `aname`, each after its
    /// 2-byte length.
    pub proof fn lemma_layout(self)
        requires
            self.spec_encode() is Ok,
        ensures
            ({
                let b = self.spec_encode()->Ok_0;
                let n = self.uname.len() as int;
                let m = self.aname.len() as int;
                &&& b.len() == 19 + n + m
                &&& b.subrange(0, 4) == spec_u32_to_le_bytes(b.len() as u32)
                &&& b[4] == self.header.message_type.spec_code()
                &&& b.subrange(5, 7) == spec_u16_to_le_bytes(self.header.tag)
                &&& b.subrange(7, 11) == spec_u32_to_le_bytes(self.fid)
                &&& b.subrange(11, 15) == spec_u32_to_le_bytes(self.afid)
                &&& b.subrange(15, 17) == spec_u16_to_le_bytes(n as u16)
                &&& b.subrange(17, 17 + n) == self.uname
                &&& b.subrange(17 + n, 19 + n) == spec_u16_to_le_bytes(m as u16)
                &&& b.subrange(19 + n, 19 + n + m) == self.aname
            }),
    {
        lemma_auto_spec_u16_to_from_le_bytes();
        lemma_auto_spec_u32_to_from_le_bytes();
        let b = self.spec_encode()->Ok_0;
        let n = self.uname.len() as int;
        let m = self.aname.len() as int;
        let h = spec_header_bytes(b.len() as u32, self.header.message_type, self.header.tag);
        let f = spec_u32_to_le_bytes(self.fid);
        let a = spec_u32_to_le_bytes(self.afid);
        let u = spec_enc_bytes(self.uname)->0;
        let v = spec_enc_bytes(self.aname)->0;
        assert(b =~= h + (f + (a + (u + v))));
        assert(h.len() == 7);
        assert(b.subrange(0, 4) =~= h.subrange(0, 4));
        assert(b.subrange(5, 7) =~= h.subrange(5, 7));
        assert(b.subrange(7, 11) =~= f);
        assert(b.subrange(11, 15) =~= a);
        assert(b.subrange(15, 17) =~= u.subrange(0, 2));
        assert(b.subrange(17, 17 + n) =~= u.subrange(2, 2 + n));
        assert(b.subrange(17 + n, 19 + n) =~= v.subrange(0, 2));
        assert(b.subrange(19 + n, 19 + n + m) =~= v.subrange(2, 2 + m));
    }
}

impl Tattach {
    pub fn new(tag: u16, fid: u32, afid: u32, uname: Bytes, aname: Bytes) -> (r: Result<Self, ProtocolError>)
        ensures
            (bytes_contents(uname).len() > u16::MAX) ==> r == Err::<Self, ProtocolError>(ProtocolError::UsernameTooLong),
            !(bytes_contents(uname).len() > u16::MAX) && (bytes_contents(aname).len() > u16::MAX) ==> r == Err::<Self, ProtocolError>(ProtocolError::AnameTooLong),
            !(bytes_contents(uname).len() > u16::MAX) && !(bytes_contents(aname).len() > u16::MAX) ==> (
                r is Ok &&
                r->Ok_0.header == (MessageHeader { size: 0, message_type: MessageType::Tattach, tag }) &&
                r->Ok_0.fid == fid &&
                r->Ok_0.afid == afid &&
                r->Ok_0.uname == uname &&
                r->Ok_0.aname == aname
            ),
    {
        if bytes_len(&uname) > 0xFFFF {
            return Err(ProtocolError::UsernameTooLong);
        }
        if bytes_len(&aname) > 0xFFFF {
            return Err(ProtocolError::AnameTooLong);
        }
        Ok(Self {
            header: MessageHeader { size: 0, message_type: MessageType::Tattach, tag },
            fid,
            afid,
            uname,
            aname,
        })
    }

    pub fn serialize(&self) -> (r: Result<Bytes, ProtocolError>)
        ensures
            bytes_result_matches(r, self@.spec_encode()),
            r matches Ok(bytes) ==> {
                let b = bytes_contents(bytes);
                &&& b.subrange(7, 11) == spec_u32_to_le_bytes(self.fid)
                &&& b.subrange(11, 15) == spec_u32_to_le_bytes(self.afid)
            },
    {
        proof {
            if self@.spec_encode() is Ok {
                self@.lemma_layout();
            }
        }
        let mut writer = MessageWriter::new();
        writer.put_header(self.header.message_type, self.header.tag)?;
        writer.put_u32(self.fid)?;
        writer.put_u32(self.afid)?;
        writer.put_bytes(&self.uname)?;
        writer.put_bytes(&self.aname)?;
        proof {
            let body = self@.spec_body()->0;
            assert(writer.contents() =~= spec_header_bytes(0, self.header.message_type, self.header.tag) + body);
            lemma_finish_frame(self.header.message_type, self.header.tag, writer.contents(), body);
        }
        writer.finish()
    }

    pub fn deserialize(bytes: Bytes) -> (r: Result<Self, ProtocolError>)
        ensures
            decoded_as(r, TattachView::spec_decode(bytes_contents(bytes))),
    {
        let mut reader = MessageReader::new(bytes);
        let header = reader.read_header_of(MessageType::Tattach)?;
        let fid = reader.read_u32()?;
        let afid = reader.read_u32()?;
        let uname = reader.read_bytes()?;
        let aname = reader.read_bytes()?;
        Ok(Self { header, fid, afid, uname, aname })
    }
}

/// Walks from `fid` along the path components `wnames`, naming the result `newfid`.
pub struct Twalk {
    pub header: MessageHeader,
    pub fid: u32,
    pub newfid: u32,
    pub wnames: Vec<Bytes>,
}

/// The contents of a `Twalk`, its byte strings as sequences.
pub struct TwalkView {
    pub header: MessageHeader,
    pub fid: u32,
    pub newfid: u32,
    pub wnames: Seq<Seq<u8>>,
}

impl View for Twalk {
    type V = TwalkView;

    open spec fn view(&self) -> TwalkView {
        TwalkView {
            header: self.header,
            fid: self.fid,
            newfid: self.newfid,
            wnames: self.wnames@.map_values(|b: Bytes| bytes_contents(b)),
        }
    }
}

impl TwalkView {
    /// The encoded fields; `None` when a byte string is too long for its
    /// length field.
    pub open spec fn spec_body(self) -> Option<Seq<u8>> {
        if spec_enc_bytes_list(self.wnames) is Some {
            Some(spec_u32_to_le_bytes(self.fid) + (spec_u32_to_le_bytes(self.newfid) + (spec_u16_to_le_bytes(self.wnames.len() as u16) + (spec_enc_bytes_list(self.wnames)->0))))
        } else {
            None
        }
    }

    /// The complete encoded message.
    pub open spec fn spec_encode(self) -> Result<Seq<u8>, ProtocolError> {
        spec_message(self.header.message_type, self.header.tag, self.spec_body())
    }

    /// What decoding the bytes `s` as a `Twalk` gives.
    pub open spec fn spec_decode(s: Seq<u8>) -> Result<TwalkView, ProtocolError> {
        match spec_read_header_of(s, MessageType::Twalk) {
            Err(e) => Err(e),
            Ok((header, r0)) => {
                match spec_read_u32(r0) {
                    Err(e) => Err(e),
                    Ok((fid, r1)) => {
                        match spec_read_u32(r1) {
                            Err(e) => Err(e),
                            Ok((newfid, r2)) => {
                                match spec_read_u16(r2) {
                                    Err(e) => Err(e),
                                    Ok((count, r3)) => {
                                        match spec_read_bytes_list(r3, count as nat, false) {
                                            Err(e) => Err(e),
                                            Ok((wnames, r4)) => {
                                                Ok(TwalkView { header, fid, newfid, wnames })
                                            },
                                        }
                                    },
                                }
                            },
                        }
                    },
                }
            },
        }
    }

    /// Decoding the encoding of a well-formed `Twalk` gives it back, with the
    /// size field of its header set to the length of the encoding.
    pub proof fn lemma_roundtrip(self)
        requires
            self.spec_encode() is Ok,
            self.header.message_type == MessageType::Twalk,
            self.wnames.len() <= u16::MAX,
        ensures
            Self::spec_decode(self.spec_encode()->Ok_0) == Ok::<TwalkView, ProtocolError>(
                TwalkView {
                    header: MessageHeader {
                        size: (self.spec_encode()->Ok_0).len() as u32,
                        ..self.header
                    },
                    ..self
                },
            ),
    {
        let body = self.spec_body()->0;
        lemma_read_header_of_frame(self.header.message_type, self.header.tag, body);
        lemma_read_u32_of(self.fid, spec_u32_to_le_bytes(self.newfid) + (spec_u16_to_le_bytes(self.wnames.len() as u16) + (spec_enc_bytes_list(self.wnames)->0)));
        lemma_read_u32_of(self.newfid, spec_u16_to_le_bytes(self.wnames.len() as u16) + (spec_enc_bytes_list(self.wnames)->0));
        lemma_read_u16_of(self.wnames.len() as u16, spec_enc_bytes_list(self.wnames)->0);
        assert(spec_enc_bytes_list(self.wnames)->0 =~= spec_enc_bytes_list(self.wnames)->0 + Seq::<u8>::empty());
        lemma_read_bytes_list_of(self.wnames, Seq::<u8>::empty(), false);
    }
}

impl Twalk {
    pub fn new(tag: u16, fid: u32, newfid: u32, wnames: Vec<Bytes>) -> (r: Result<Self, ProtocolError>)
        ensures
            r is Ok,
            r->Ok_0.header == (MessageHeader { size: 0, message_type: MessageType::Twalk, tag }),
            r->Ok_0.fid == fid,
            r->Ok_0.newfid == newfid,
            r->Ok_0.wnames@ == wnames@,
    {
        Ok(Self {
            header: MessageHeader { size: 0, message_type: MessageType::Twalk, tag },
            fid,
            newfid,
            wnames,
        })
    }

    pub fn serialize(&self) -> (r: Result<Bytes, ProtocolError>)
        ensures
            bytes_result_matches(r, self@.spec_encode()),
    {
        let mut writer = MessageWriter::new();
        writer.put_header(self.header.message_type, self.header.tag)?;
        writer.put_u32(self.fid)?;
        writer.put_u32(self.newfid)?;
        writer.put_u16(self.wnames.len() as u16)?;
        writer.put_bytes_list(&self.wnames)?;
        proof {
            let body = self@.spec_body()->0;
            assert(self@.wnames.len() == self.wnames.len());
            assert(writer.contents() =~= spec_header_bytes(0, self.header.message_type, self.header.tag) + body);
            lemma_finish_frame(self.header.message_type, self.header.tag, writer.contents(), body);
        }
        writer.finish()
    }

    pub fn deserialize(bytes: Bytes) -> (r: Result<Self, ProtocolError>)
        ensures
            decoded_as(r, TwalkView::spec_decode(bytes_contents(bytes))),
    {
        let mut reader = MessageReader::new(bytes);
        let header = reader.read_header_of(MessageType::Twalk)?;
        let fid = reader.read_u32()?;
        let newfid = reader.read_u32()?;
        let count = reader.read_u16()?;
        let wnames = reader.read_bytes_list(count, false)?;
        Ok(Self { header, fid, newfid, wnames })
    }
}

/// Opens the file that `fid` names.
pub struct Topen {
    pub header: MessageHeader,
    pub fid: u32,
    pub mode: u8,
}

impl View for Topen {
    type V = Topen;

    open spec fn view(&self) -> Topen {
        *self
    }
}

impl Topen {
    /// The encoded fields; `None` when a byte string is too long for its
    /// length field.
    pub open spec fn spec_body(self) -> Option<Seq<u8>> {
        Some(spec_u32_to_le_bytes(self.fid) + (seq![self.mode]))
    }

    /// The complete encoded message.
    pub open spec fn spec_encode(self) -> Result<Seq<u8>, ProtocolError> {
        spec_message(self.header.message_type, self.header.tag, self.spec_body())
    }

    /// What decoding the bytes `s` as a `Topen` gives.
    pub open spec fn spec_decode(s: Seq<u8>) -> Result<Topen, ProtocolError> {
        match spec_read_header_of(s, MessageType::Topen) {
            Err(e) => Err(e),
            Ok((header, r0)) => {
                match spec_read_u32(r0) {
                    Err(e) => Err(e),
                    Ok((fid, r1)) => {
                        match spec_read_u8(r1) {
                            Err(e) => Err(e),
                            Ok((mode, r2)) => {
                                Ok(Topen { header, fid, mode })
                            },
                        }
                    },
                }
            },
        }
    }

    /// Decoding the encoding of a well-formed `Topen` gives it back, with the
    /// size field of its header set to the length of the encoding.
    pub proof fn lemma_roundtrip(self)
        requires
            self.spec_encode() is Ok,
            self.header.message_type == MessageType::Topen,
        ensures
            Self::spec_decode(self.spec_encode()->Ok_0) == Ok::<Topen, ProtocolError>(
                Topen {
                    header: MessageHeader {
                        size: (self.spec_encode()->Ok_0).len() as u32,
                        ..self.header
                    },
                    ..self
                },
            ),
    {
        let body = self.spec_body()->0;
        lemma_read_header_of_frame(self.header.message_type, self.header.tag, body);
        lemma_read_u32_of(self.fid, seq![self.mode]);
        assert(seq![self.mode] =~= seq![self.mode] + Seq::<u8>::empty());
        lemma_read_u8_of(self.mode, Seq::<u8>::empty());
    }
}

impl Topen {
    pub fn new(tag: u16, fid: u32, mode: u8) -> (r: Result<Self, ProtocolError>)
        ensures
            r is Ok,
            r->Ok_0.header == (MessageHeader { size: 0, message_type: MessageType::Topen, tag }),
            r->Ok_0.fid == fid,
            r->Ok_0.mode == mode,
    {
        Ok(Self {
            header: MessageHeader { size: 0, message_type: MessageType::Topen, tag },
            fid,
            mode,
        })
    }

    pub fn serialize(&self) -> (r: Result<Bytes, ProtocolError>)
        ensures
            bytes_result_matches(r, self@.spec_encode()),
    {
        let mut writer = MessageWriter::new();
        writer.put_header(self.header.message_type, self.header.tag)?;
        writer.put_u32(self.fid)?;
        writer.put_u8(self.mode)?;
        proof {
            let body = self@.spec_body()->0;
            assert(writer.contents() =~= spec_header_bytes(0, self.header.message_type, self.header.tag) + body);
            lemma_finish_frame(self.header.message_type, self.header.tag, writer.contents(), body);
        }
        writer.finish()
    }

    pub fn deserialize(bytes: Bytes) -> (r: Result<Self, ProtocolError>)
        ensures
            decoded_as(r, Topen::spec_decode(bytes_contents(bytes))),
    {
        let mut reader = MessageReader::new(bytes);
        let header = reader.read_header_of(MessageType::Topen)?;
        let fid = reader.read_u32()?;
        let mode = reader.read_u8()?;
        Ok(Self { header, fid, mode })
    }
}

/// Creates a file in the directory that `fid` names.
pub struct Tcreate {
    pub header: MessageHeader,
    pub fid: u32,
    pub name: Bytes,
    pub perm: u32,
    pub mode: u8,
}

/// The contents of a `Tcreate`, its byte strings as sequences.
pub struct TcreateView {
    pub header: MessageHeader,
    pub fid: u32,
    pub name: Seq<u8>,
    pub perm: u32,
    pub mode: u8,
}

impl View for Tcreate {
    type V = TcreateView;

    open spec fn view(&self) -> TcreateView {
        TcreateView {
            header: self.header,
            fid: self.fid,
            name: bytes_contents(self.name),
            perm: self.perm,
            mode: self.mode,
        }
    }
}

impl TcreateView {
    /// The encoded fields; `None` when a byte string is too long for its
    /// length field.
    pub open spec fn spec_body(self) -> Option<Seq<u8>> {
        if spec_enc_bytes(self.name) is Some {
            Some(spec_u32_to_le_bytes(self.fid) + (spec_enc_bytes(self.name)->0 + (spec_u32_to_le_bytes(self.perm) + (seq![self.mode]))))
        } else {
            None
        }
    }

    /// The complete encoded message.
    pub open spec fn spec_encode(self) -> Result<Seq<u8>, ProtocolError> {
        spec_message(self.header.message_type, self.header.tag, self.spec_body())
    }

    /// What decoding the bytes `s` as a `Tcreate` gives.
    pub open spec fn spec_decode(s: Seq<u8>) -> Result<TcreateView, ProtocolError> {
        match spec_read_header_of(s, MessageType::Tcreate) {
            Err(e) => Err(e),
            Ok((header, r0)) => {
                match spec_read_u32(r0) {
                    Err(e) => Err(e),
                    Ok((fid, r1)) => {
                        match spec_read_bytes(r1) {
                            Err(e) => Err(e),
                            Ok((name, r2)) => {
                                match spec_read_u32(r2) {
                                    Err(e) => Err(e),
                                    Ok((perm, r3)) => {
                                        match spec_read_u8(r3) {
                                            Err(e) => Err(e),
                                            Ok((mode, r4)) => {
                                                Ok(TcreateView { header, fid, name, perm, mode })
                                            },
                                        }
                                    },
                                }
                            },
                        }
                    },
                }
            },
        }
    }

    /// Decoding the encoding of a well-formed `Tcreate` gives it back, with the
    /// size field of its header set to the length of the encoding.
    pub proof fn lemma_roundtrip(self)
        requires
            self.spec_encode() is Ok,
            self.header.message_type == MessageType::Tcreate,
        ensures
            Self::spec_decode(self.spec_encode()->Ok_0) == Ok::<TcreateView, ProtocolError>(
                TcreateView {
                    header: MessageHeader {
                        size: (self.spec_encode()->Ok_0).len() as u32,
                        ..self.header
                    },
                    ..self
                },
            ),
    {
        let body = self.spec_body()->0;
        lemma_read_header_of_frame(self.header.message_type, self.header.tag, body);
        lemma_read_u32_of(self.fid, spec_enc_bytes(self.name)->0 + (spec_u32_to_le_bytes(self.perm) + (seq![self.mode])));
        lemma_read_bytes_of(self.name, spec_u32_to_le_bytes(self.perm) + (seq![self.mode]));
        lemma_read_u32_of(self.perm, seq![self.mode]);
        assert(seq![self.mode] =~= seq![self.mode] + Seq::<u8>::empty());
        lemma_read_u8_of(self.mode, Seq::<u8>::empty());
    }
}

impl Tcreate {
    pub fn new(tag: u16, fid: u32, name: Bytes, perm: u32, mode: u8) -> (r: Result<Self, ProtocolError>)
        ensures
            (bytes_contents(name).len() > u16::MAX) ==> r == Err::<Self, ProtocolError>(ProtocolError::FilenameTooLong),
            !(bytes_contents(name).len() > u16::MAX) ==> (
                r is Ok &&
                r->Ok_0.header == (MessageHeader { size: 0, message_type: MessageType::Tcreate, tag }) &&
                r->Ok_0.fid == fid &&
                r->Ok_0.name == name &&
                r->Ok_0.perm == perm &&
                r->Ok_0.mode == mode
            ),
    {
        if bytes_len(&name) > 0xFFFF {
            return Err(ProtocolError::FilenameTooLong);
        }
        Ok(Self {
            header: MessageHeader { size: 0, message_type: MessageType::Tcreate, tag },
            fid,
            name,
            perm,
            mode,
        })
    }

    pub fn serialize(&self) -> (r: Result<Bytes, ProtocolError>)
        ensures
            bytes_result_matches(r, self@.spec_encode()),
    {
        let mut writer = MessageWriter::new();
        writer.put_header(self.header.message_type, self.header.tag)?;
        writer.put_u32(self.fid)?;
        writer.put_bytes(&self.name)?;
        writer.put_u32(self.perm)?;
        writer.put_u8(self.mode)?;
        proof {
            let body = self@.spec_body()->0;
            assert(writer.contents() =~= spec_header_bytes(0, self.header.message_type, self.header.tag) + body);
            lemma_finish_frame(self.header.message_type, self.header.tag, writer.contents(), body);
        }
        writer.finish()
    }

    pub fn deserialize(bytes: Bytes) -> (r: Result<Self, ProtocolError>)
        ensures
            decoded_as(r, TcreateView::spec_decode(bytes_contents(bytes))),
    {
        let mut reader = MessageReader::new(bytes);
        let header = reader.read_header_of(MessageType::Tcreate)?;
        let fid = reader.read_u32()?;
        let name = reader.read_bytes()?;
        let perm = reader.read_u32()?;
        let mode = reader.read_u8()?;
        Ok(Self { header, fid, name, perm, mode })
    }
}

/// Reads `count` bytes at `offset`.
pub struct Tread {
    pub header: MessageHeader,
    pub fid: u32,
    pub offset: u64,
    pub count: u32,
}

impl View for Tread {
    type V = Tread;

    open spec fn view(&self) -> Tread {
        *self
    }
}

impl Tread {
    /// The encoded fields; `None` when a byte string is too long for its
    /// length field.
    pub open spec fn spec_body(self) -> Option<Seq<u8>> {
        Some(spec_u32_to_le_bytes(self.fid) + (spec_u64_to_le_bytes(self.offset) + (spec_u32_to_le_bytes(self.count))))
    }

    /// The complete encoded message.
    pub open spec fn spec_encode(self) -> Result<Seq<u8>, ProtocolError> {
        spec_message(self.header.message_type, self.header.tag, self.spec_body())
    }

    /// What decoding the bytes `s` as a `Tread` gives.
    pub open spec fn spec_decode(s: Seq<u8>) -> Result<Tread, ProtocolError> {
        match spec_read_header_of(s, MessageType::Tread) {
            Err(e) => Err(e),
            Ok((header, r0)) => {
                match spec_read_u32(r0) {
                    Err(e) => Err(e),
                    Ok((fid, r1)) => {
                        match spec_read_u64(r1) {
                            Err(e) => Err(e),
                            Ok((offset, r2)) => {
                                match spec_read_u32(r2) {
                                    Err(e) => Err(e),
                                    Ok((count, r3)) => {
                                        Ok(Tread { header, fid, offset, count })
                                    },
                                }
                            },
                        }
                    },
                }
            },
        }
    }

    /// Decoding the encoding of a well-formed `Tread` gives it back, with the
    /// size field of its header set to the length of the encoding.
    pub proof fn lemma_roundtrip(self)
        requires
            self.spec_encode() is Ok,
            self.header.message_type == MessageType::Tread,
        ensures
            Self::spec_decode(self.spec_encode()->Ok_0) == Ok::<Tread, ProtocolError>(
                Tread {
                    header: MessageHeader {
                        size: (self.spec_encode()->Ok_0).len() as u32,
                        ..self.header
                    },
                    ..self
                },
            ),
    {
        let body = self.spec_body()->0;
        lemma_read_header_of_frame(self.header.message_type, self.header.tag, body);
        lemma_read_u32_of(self.fid, spec_u64_to_le_bytes(self.offset) + (spec_u32_to_le_bytes(self.count)));
        lemma_read_u64_of(self.offset, spec_u32_to_le_bytes(self.count));
        assert(spec_u32_to_le_bytes(self.count) =~= spec_u32_to_le_bytes(self.count) + Seq::<u8>::empty());
        lemma_read_u32_of(self.count, Seq::<u8>::empty());
    }
}

impl Tread {
    pub fn new(tag: u16, fid: u32, offset: u64, count: u32) -> (r: Result<Self, ProtocolError>)
        ensures
            r is Ok,
            r->Ok_0.header == (MessageHeader { size: 0, message_type: MessageType::Tread, tag }),
            r->Ok_0.fid == fid,
            r->Ok_0.offset == offset,
            r->Ok_0.count == count,
    {
        Ok(Self {
            header: MessageHeader { size: 0, message_type: MessageType::Tread, tag },
            fid,
            offset,
            count,
        })
    }

    pub fn serialize(&self) -> (r: Result<Bytes, ProtocolError>)
        ensures
            bytes_result_matches(r, self@.spec_encode()),
    {
        let mut writer = MessageWriter::new();
        writer.put_header(self.header.message_type, self.header.tag)?;
        writer.put_u32(self.fid)?;
        writer.put_u64(self.offset)?;
        writer.put_u32(self.count)?;
        proof {
            let body = self@.spec_body()->0;
            assert(writer.contents() =~= spec_header_bytes(0, self.header.message_type, self.header.tag) + body);
            lemma_finish_frame(self.header.message_type, self.header.tag, writer.contents(), body);
        }
        writer.finish()
    }

    pub fn deserialize(bytes: Bytes) -> (r: Result<Self, ProtocolError>)
        ensures
            decoded_as(r, Tread::spec_decode(bytes_contents(bytes))),
    {
        let mut reader = MessageReader::new(bytes);
        let header = reader.read_header_of(MessageType::Tread)?;
        let fid = reader.read_u32()?;
        let offset = reader.read_u64()?;
        let count = reader.read_u32()?;
        Ok(Self { header, fid, offset, count })
    }
}

/// Writes `data` at `offset`; `count` is its length.
pub struct Twrite {
    pub header: MessageHeader,
    pub fid: u32,
    pub offset: u64,
    pub count: u32,
    pub data: Bytes,
}

/// The contents of a `Twrite`, its byte strings as sequences.
pub struct TwriteView {
    pub header: MessageHeader,
    pub fid: u32,
    pub offset: u64,
    pub count: u32,
    pub data: Seq<u8>,
}

impl View for Twrite {
    type V = TwriteView;

    open spec fn view(&self) -> TwriteView {
        TwriteView {
            header: self.header,
            fid: self.fid,
            offset: self.offset,
            count: self.count,
            data: bytes_contents(self.data),
        }
    }
}

impl TwriteView {
    /// The encoded fields; `None` when a byte string is too long for its
    /// length field.
    pub open spec fn spec_body(self) -> Option<Seq<u8>> {
        if spec_enc_bytes(self.data) is Some {
            Some(spec_u32_to_le_bytes(self.fid) + (spec_u64_to_le_bytes(self.offset) + (spec_u32_to_le_bytes(self.count) + (spec_enc_bytes(self.data)->0))))
        } else {
            None
        }
    }

    /// The complete encoded message.
    pub open spec fn spec_encode(self) -> Result<Seq<u8>, ProtocolError> {
        spec_message(self.header.message_type, self.header.tag, self.spec_body())
    }

    /// What decoding the bytes `s` as a `Twrite` gives.
    pub open spec fn spec_decode(s: Seq<u8>) -> Result<TwriteView, ProtocolError> {
        match spec_read_header_of(s, MessageType::Twrite) {
            Err(e) => Err(e),
            Ok((header, r0)) => {
                match spec_read_u32(r0) {
                    Err(e) => Err(e),
                    Ok((fid, r1)) => {
                        match spec_read_u64(r1) {
                            Err(e) => Err(e),
                            Ok((offset, r2)) => {
                                match spec_read_u32(r2) {
                                    Err(e) => Err(e),
                                    Ok((count, r3)) => {
                                        match spec_read_bytes(r3) {
                                            Err(e) => Err(e),
                                            Ok((data, r4)) => {
                                                if data.len() != count {
                                                    Err(ProtocolError::InvalidDataLength)
                                                } else {
                                                    Ok(TwriteView { header, fid, offset, count, data })
                                                }
                                            },
                                        }
                                    },
                                }
                            },
                        }
                    },
                }
            },
        }
    }

    /// Decoding the encoding of a well-formed `Twrite` gives it back, with the
    /// size field of its header set to the length of the encoding.
    pub proof fn lemma_roundtrip(self)
        requires
            self.spec_encode() is Ok,
            self.header.message_type == MessageType::Twrite,
            self.data.len() == self.count,
        ensures
            Self::spec_decode(self.spec_encode()->Ok_0) == Ok::<TwriteView, ProtocolError>(
                TwriteView {
                    header: MessageHeader {
                        size: (self.spec_encode()->Ok_0).len() as u32,
                        ..self.header
                    },
                    ..self
                },
            ),
    {
        let body = self.spec_body()->0;
        lemma_read_header_of_frame(self.header.message_type, self.header.tag, body);
        lemma_read_u32_of(self.fid, spec_u64_to_le_bytes(self.offset) + (spec_u32_to_le_bytes(self.count) + (spec_enc_bytes(self.data)->0)));
        lemma_read_u64_of(self.offset, spec_u32_to_le_bytes(self.count) + (spec_enc_bytes(self.data)->0));
        lemma_read_u32_of(self.count, spec_enc_bytes(self.data)->0);
        assert(spec_enc_bytes(self.data)->0 =~= spec_enc_bytes(self.data)->0 + Seq::<u8>::empty());
        lemma_read_bytes_of(self.data, Seq::<u8>::empty());
    }
}

impl Twrite {
    pub fn new(tag: u16, fid: u32, offset: u64, data: Bytes) -> (r: Result<Self, ProtocolError>)
        ensures
            r is Ok,
            r->Ok_0.header == (MessageHeader { size: 0, message_type: MessageType::Twrite, tag }),
            r->Ok_0.fid == fid,
            r->Ok_0.offset == offset,
            r->Ok_0.count == (bytes_contents(data).len() as u32),
            r->Ok_0.data == data,
    {
        let count = bytes_len(&data) as u32;
        Ok(Self {
            header: MessageHeader { size: 0, message_type: MessageType::Twrite, tag },
            fid,
            offset,
            count,
            data,
        })
    }

    pub fn serialize(&self) -> (r: Result<Bytes, ProtocolError>)
        ensures
            bytes_result_matches(r, self@.spec_encode()),
    {
        let mut writer = MessageWriter::new();
        writer.put_header(self.header.message_type, self.header.tag)?;
        writer.put_u32(self.fid)?;
        writer.put_u64(self.offset)?;
        writer.put_u32(self.count)?;
        writer.put_bytes(&self.data)?;
        proof {
            let body = self@.spec_body()->0;
            assert(writer.contents() =~= spec_header_bytes(0, self.header.message_type, self.header.tag) + body);
            lemma_finish_frame(self.header.message_type, self.header.tag, writer.contents(), body);
        }
        writer.finish()
    }

    pub fn deserialize(bytes: Bytes) -> (r: Result<Self, ProtocolError>)
        ensures
            decoded_as(r, TwriteView::spec_decode(bytes_contents(bytes))),
    {
        let mut reader = MessageReader::new(bytes);
        let header = reader.read_header_of(MessageType::Twrite)?;
        let fid = reader.read_u32()?;
        let offset = reader.read_u64()?;
        let count = reader.read_u32()?;
        let data = reader.read_bytes()?;
        if bytes_len(&data) != count as usize {
            return Err(ProtocolError::InvalidDataLength);
        }
        Ok(Self { header, fid, offset, count, data })
    }
}

/// Forgets `fid`.
pub struct Tclunk {
    pub header: MessageHeader,
    pub fid: u32,
}

impl View for Tclunk {
    type V = Tclunk;

    open spec fn view(&self) -> Tclunk {
        *self
    }
}

impl Tclunk {
    /// The encoded fields; `None` when a byte string is too long for its
    /// length field.
    pub open spec fn spec_body(self) -> Option<Seq<u8>> {
        Some(spec_u32_to_le_bytes(self.fid))
    }

    /// The complete encoded message.
    pub open spec fn spec_encode(self) -> Result<Seq<u8>, ProtocolError> {
        spec_message(self.header.message_type, self.header.tag, self.spec_body())
    }

    /// What decoding the bytes `s` as a `Tclunk` gives.
    pub open spec fn spec_decode(s: Seq<u8>) -> Result<Tclunk, ProtocolError> {
        match spec_read_header_of(s, MessageType::Tclunk) {
            Err(e) => Err(e),
            Ok((header, r0)) => {
                match spec_read_u32(r0) {
                    Err(e) => Err(e),
                    Ok((fid, r1)) => {
                        Ok(Tclunk { header, fid })
                    },
                }
            },
        }
    }

    /// Decoding the encoding of a well-formed `Tclunk` gives it back, with the
    /// size field of its header set to the length of the encoding.
    pub proof fn lemma_roundtrip(self)
        requires
            self.spec_encode() is Ok,
            self.header.message_type == MessageType::Tclunk,
        ensures
            Self::spec_decode(self.spec_encode()->Ok_0) == Ok::<Tclunk, ProtocolError>(
                Tclunk {
                    header: MessageHeader {
                        size: (self.spec_encode()->Ok_0).len() as u32,
                        ..self.header
                    },
                    ..self
                },
            ),
    {
        let body = self.spec_body()->0;
        lemma_read_header_of_frame(self.header.message_type, self.header.tag, body);
        assert(spec_u32_to_le_bytes(self.fid) =~= spec_u32_to_le_bytes(self.fid) + Seq::<u8>::empty());
        lemma_read_u32_of(self.fid, Seq::<u8>::empty());
    }
}

impl Tclunk {
    pub fn new(tag: u16, fid: u32) -> (r: Result<Self, ProtocolError>)
        ensures
            r is Ok,
            r->Ok_0.header == (MessageHeader { size: 0, message_type: MessageType::Tclunk, tag }),
            r->Ok_0.fid == fid,
    {
        Ok(Self {
            header: MessageHeader { size: 0, message_type: MessageType::Tclunk, tag },
            fid,
        })
    }

    pub fn serialize(&self) -> (r: Result<Bytes, ProtocolError>)
        ensures
            bytes_result_matches(r, self@.spec_encode()),
    {
        let mut writer = MessageWriter::new();
        writer.put_header(self.header.message_type, self.header.tag)?;
        writer.put_u32(self.fid)?;
        proof {
            let body = self@.spec_body()->0;
            assert(writer.contents() =~= spec_header_bytes(0, self.header.message_type, self.header.tag) + body);
            lemma_finish_frame(self.header.message_type, self.header.tag, writer.contents(), body);
        }
        writer.finish()
    }

    pub fn deserialize(bytes: Bytes) -> (r: Result<Self, ProtocolError>)
        ensures
            decoded_as(r, Tclunk::spec_decode(bytes_contents(bytes))),
    {
        let mut reader = MessageReader::new(bytes);
        let header = reader.read_header_of(MessageType::Tclunk)?;
        let fid = reader.read_u32()?;
        Ok(Self { header, fid })
    }
}

/// Removes the file that `fid` names.
pub struct Tremove {
    pub header: MessageHeader,
    pub fid: u32,
}

impl View for Tremove {
    type V = Tremove;

    open spec fn view(&self) -> Tremove {
        *self
    }
}

impl Tremove {
    /// The encoded fields; `None` when a byte string is too long for its
    /// length field.
    pub open spec fn spec_body(self) -> Option<Seq<u8>> {
        Some(spec_u32_to_le_bytes(self.fid))
    }

    /// The complete encoded message.
    pub open spec fn spec_encode(self) -> Result<Seq<u8>, ProtocolError> {
        spec_message(self.header.message_type, self.header.tag, self.spec_body())
    }

    /// What decoding the bytes `s` as a `Tremove` gives.
    pub open spec fn spec_decode(s: Seq<u8>) -> Result<Tremove, ProtocolError> {
        match spec_read_header_of(s, MessageType::Tremove) {
            Err(e) => Err(e),
            Ok((header, r0)) => {
                match spec_read_u32(r0) {
                    Err(e) => Err(e),
                    Ok((fid, r1)) => {
                        Ok(Tremove { header, fid })
                    },
                }
            },
        }
    }

    /// Decoding the encoding of a well-formed `Tremove` gives it back, with the
    /// size field of its header set to the length of the encoding.
    pub proof fn lemma_roundtrip(self)
        requires
            self.spec_encode() is Ok,
            self.header.message_type == MessageType::Tremove,
        ensures
            Self::spec_decode(self.spec_encode()->Ok_0) == Ok::<Tremove, ProtocolError>(
                Tremove {
                    header: MessageHeader {
                        size: (self.spec_encode()->Ok_0).len() as u32,
                        ..self.header
                    },
                    ..self
                },
            ),
    {
        let body = self.spec_body()->0;
        lemma_read_header_of_frame(self.header.message_type, self.header.tag, body);
        assert(spec_u32_to_le_bytes(self.fid) =~= spec_u32_to_le_bytes(self.fid) + Seq::<u8>::empty());
        lemma_read_u32_of(self.fid, Seq::<u8>::empty());
    }
}

impl Tremove {
    pub fn new(tag: u16, fid: u32) -> (r: Result<Self, ProtocolError>)
        ensures
            r is Ok,
            r->Ok_0.header == (MessageHeader { size: 0, message_type: MessageType::Tremove, tag }),
            r->Ok_0.fid == fid,
    {
        Ok(Self {
            header: MessageHeader { size: 0, message_type: MessageType::Tremove, tag },
            fid,
        })
    }

    pub fn serialize(&self) -> (r: Result<Bytes, ProtocolError>)
        ensures
            bytes_result_matches(r, self@.spec_encode()),
    {
        let mut writer = MessageWriter::new();
        writer.put_header(self.header.message_type, self.header.tag)?;
        writer.put_u32(self.fid)?;
        proof {
            let body = self@.spec_body()->0;
            assert(writer.contents() =~= spec_header_bytes(0, self.header.message_type, self.header.tag) + body);
            lemma_finish_frame(self.header.message_type, self.header.tag, writer.contents(), body);
        }
        writer.finish()
    }

    pub fn deserialize(bytes: Bytes) -> (r: Result<Self, ProtocolError>)
        ensures
            decoded_as(r, Tremove::spec_decode(bytes_contents(bytes))),
    {
        let mut reader = MessageReader::new(bytes);
        let header = reader.read_header_of(MessageType::Tremove)?;
        let fid = reader.read_u32()?;
        Ok(Self { header, fid })
    }
}

/// Asks for the attributes of the file that `fid` names.
pub struct Tstat {
    pub header: MessageHeader,
    pub fid: u32,
}

impl View for Tstat {
    type V = Tstat;

    open spec fn view(&self) -> Tstat {
        *self
    }
}

impl Tstat {
    /// The encoded fields; `None` when a byte string is too long for its
    /// length field.
    pub open spec fn spec_body(self) -> Option<Seq<u8>> {
        Some(spec_u32_to_le_bytes(self.fid))
    }

    /// The complete encoded message.
    pub open spec fn spec_encode(self) -> Result<Seq<u8>, ProtocolError> {
        spec_message(self.header.message_type, self.header.tag, self.spec_body())
    }

    /// What decoding the bytes `s` as a `Tstat` gives.
    pub open spec fn spec_decode(s: Seq<u8>) -> Result<Tstat, ProtocolError> {
        match spec_read_header_of(s, MessageType::Tstat) {
            Err(e) => Err(e),
            Ok((header, r0)) => {
                match spec_read_u32(r0) {
                    Err(e) => Err(e),
                    Ok((fid, r1)) => {
                        Ok(Tstat { header, fid })
                    },
                }
            },
        }
    }

    /// Decoding the encoding of a well-formed `Tstat` gives it back, with the
    /// size field of its header set to the length of the encoding.
    pub proof fn lemma_roundtrip(self)
        requires
            self.spec_encode() is Ok,
            self.header.message_type == MessageType::Tstat,
        ensures
            Self::spec_decode(self.spec_encode()->Ok_0) == Ok::<Tstat, ProtocolError>(
                Tstat {
                    header: MessageHeader {
                        size: (self.spec_encode()->Ok_0).len() as u32,
                        ..self.header
                    },
                    ..self
                },
            ),
    {
        let body = self.spec_body()->0;
        lemma_read_header_of_frame(self.header.message_type, self.header.tag, body);
        assert(spec_u32_to_le_bytes(self.fid) =~= spec_u32_to_le_bytes(self.fid) + Seq::<u8>::empty());
        lemma_read_u32_of(self.fid, Seq::<u8>::empty());
    }
}

impl Tstat {
    pub fn new(tag: u16, fid: u32) -> (r: Result<Self, ProtocolError>)
        ensures
            r is Ok,
            r->Ok_0.header == (MessageHeader { size: 0, message_type: MessageType::Tstat, tag }),
            r->Ok_0.fid == fid,
    {
        Ok(Self {
            header: MessageHeader { size: 0, message_type: MessageType::Tstat, tag },
            fid,
        })
    }

    pub fn serialize(&self) -> (r: Result<Bytes, ProtocolError>)
        ensures
            bytes_result_matches(r, self@.spec_encode()),
    {
        let mut writer = MessageWriter::new();
        writer.put_header(self.header.message_type, self.header.tag)?;
        writer.put_u32(self.fid)?;
        proof {
            let body = self@.spec_body()->0;
            assert(writer.contents() =~= spec_header_bytes(0, self.header.message_type, self.header.tag) + body);
            lemma_finish_frame(self.header.message_type, self.header.tag, writer.contents(), body);
        }
        writer.finish()
    }

    pub fn deserialize(bytes: Bytes) -> (r: Result<Self, ProtocolError>)
        ensures
            decoded_as(r, Tstat::spec_decode(bytes_contents(bytes))),
    {
        let mut reader = MessageReader::new(bytes);
        let header = reader.read_header_of(MessageType::Tstat)?;
        let fid = reader.read_u32()?;
        Ok(Self { header, fid })
    }
}

/// Changes the attributes of the file that `fid` names.
pub struct Twstat {
    pub header: MessageHeader,
    pub fid: u32,
    pub stat: Bytes,
}

/// The contents of a `Twstat`, its byte strings as sequences.
pub struct TwstatView {
    pub header: MessageHeader,
    pub fid: u32,
    pub stat: Seq<u8>,
}

impl View for Twstat {
    type V = TwstatView;

    open spec fn view(&self) -> TwstatView {
        TwstatView {
            header: self.header,
            fid: self.fid,
            stat: bytes_contents(self.stat),
        }
    }
}

impl TwstatView {
    /// The encoded fields; `None` when a byte string is too long for its
    /// length field.
    pub open spec fn spec_body(self) -> Option<Seq<u8>> {
        if spec_enc_bytes(self.stat) is Some {
            Some(spec_u32_to_le_bytes(self.fid) + (spec_enc_bytes(self.stat)->0))
        } else {
            None
        }
    }

    /// The complete encoded message.
    pub open spec fn spec_encode(self) -> Result<Seq<u8>, ProtocolError> {
        spec_message(self.header.message_type, self.header.tag, self.spec_body())
    }

    /// What decoding the bytes `s` as a `Twstat` gives.
    pub open spec fn spec_decode(s: Seq<u8>) -> Result<TwstatView, ProtocolError> {
        match spec_read_header_of(s, MessageType::Twstat) {
            Err(e) => Err(e),
            Ok((header, r0)) => {
                match spec_read_u32(r0) {
                    Err(e) => Err(e),
                    Ok((fid, r1)) => {
                        match spec_read_bytes(r1) {
                            Err(e) => Err(e),
                            Ok((stat, r2)) => {
                                Ok(TwstatView { header, fid, stat })
                            },
                        }
                    },
                }
            },
        }
    }

    /// Decoding the encoding of a well-formed `Twstat` gives it back, with the
    /// size field of its header set to the length of the encoding.
    pub proof fn lemma_roundtrip(self)
        requires
            self.spec_encode() is Ok,
            self.header.message_type == MessageType::Twstat,
        ensures
            Self::spec_decode(self.spec_encode()->Ok_0) == Ok::<TwstatView, ProtocolError>(
                TwstatView {
                    header: MessageHeader {
                        size: (self.spec_encode()->Ok_0).len() as u32,
                        ..self.header
                    },
                    ..self
                },
            ),
    {
        let body = self.spec_body()->0;
        lemma_read_header_of_frame(self.header.message_type, self.header.tag, body);
        lemma_read_u32_of(self.fid, spec_enc_bytes(self.stat)->0);
        assert(spec_enc_bytes(self.stat)->0 =~= spec_enc_bytes(self.stat)->0 + Seq::<u8>::empty());
        lemma_read_bytes_of(self.stat, Seq::<u8>::empty());
    }
}

impl Twstat {
    pub fn new(tag: u16, fid: u32, stat: Bytes) -> (r: Result<Self, ProtocolError>)
        ensures
            r is Ok,
            r->Ok_0.header == (MessageHeader { size: 0, message_type: MessageType::Twstat, tag }),
            r->Ok_0.fid == fid,
            r->Ok_0.stat == stat,
    {
        Ok(Self {
            header: MessageHeader { size: 0, message_type: MessageType::Twstat, tag },
            fid,
            stat,
        })
    }

    pub fn serialize(&self) -> (r: Result<Bytes, ProtocolError>)
        ensures
            bytes_result_matches(r, self@.spec_encode()),
    {
        let mut writer = MessageWriter::new();
        writer.put_header(self.header.message_type, self.header.tag)?;
        writer.put_u32(self.fid)?;
        writer.put_bytes(&self.stat)?;
        proof {
            let body = self@.spec_body()->0;
            assert(writer.contents() =~= spec_header_bytes(0, self.header.message_type, self.header.tag) + body);
            lemma_finish_frame(self.header.message_type, self.header.tag, writer.contents(), body);
        }
        writer.finish()
    }

    pub fn deserialize(bytes: Bytes) -> (r: Result<Self, ProtocolError>)
        ensures
            decoded_as(r, TwstatView::spec_decode(bytes_contents(bytes))),
    {
        let mut reader = MessageReader::new(bytes);
        let header = reader.read_header_of(MessageType::Twstat)?;
        let fid = reader.read_u32()?;
        let stat = reader.read_bytes()?;
        Ok(Self { header, fid, stat })
    }
}

impl TversionView {
    /// The bytes of the encoded message, field by field, in the order of
    /// the protocol: after the 7 bytes of the header, each fixed-size field
    /// little-endian at its offset, each byte string after its 2-byte length.
    pub proof fn lemma_layout(self)
        requires
            self.spec_encode() is Ok,
        ensures
            ({
                let b = self.spec_encode()->Ok_0;
                &&& field_at(b, 0, spec_u32_to_le_bytes(b.len() as u32))
                &&& b[4] == self.header.message_type.spec_code()
                &&& field_at(b, 5, spec_u16_to_le_bytes(self.header.tag))
                &&& b.len() == 13int + self.version.len()
                &&& field_at(b, 7, spec_u32_to_le_bytes(self.msize))
                &&& field_at(b, 11, spec_u16_to_le_bytes(self.version.len() as u16))
                &&& field_at(b, 13, self.version)
            }),
    {
        lemma_auto_spec_u16_to_from_le_bytes();
        lemma_auto_spec_u32_to_from_le_bytes();
        lemma_auto_spec_u64_to_from_le_bytes();
        let body = self.spec_body()->0;
        lemma_frame_layout(self.header.message_type, self.header.tag, body);
        assert(body.subrange(0int, 4int) =~= spec_u32_to_le_bytes(self.msize));
        assert(field_at(body, 0int, spec_u32_to_le_bytes(self.msize)));
        assert(body.subrange(4int, 6int) =~= spec_u16_to_le_bytes(self.version.len() as u16));
        assert(field_at(body, 4int, spec_u16_to_le_bytes(self.version.len() as u16)));
        assert(body.subrange(6int, 6int + self.version.len()) =~= self.version);
        assert(field_at(body, 6int, self.version));
    }
}

impl TauthView {
    /// The bytes of the encoded message, field by field, in the order of
    /// the protocol: after the 7 bytes of the header, each fixed-size field
    /// little-endian at its offset, each byte string after its 2-byte length.
    pub proof fn lemma_layout(self)
        requires
            self.spec_encode() is Ok,
        ensures
            ({
                let b = self.spec_encode()->Ok_0;
                &&& field_at(b, 0, spec_u32_to_le_bytes(b.len() as u32))
                &&& b[4] == self.header.message_type.spec_code()
                &&& field_at(b, 5, spec_u16_to_le_bytes(self.header.tag))
                &&& b.len() == 15int + self.uname.len() + self.aname.len()
                &&& field_at(b, 7, spec_u32_to_le_bytes(self.afid))
                &&& field_at(b, 11, spec_u16_to_le_bytes(self.uname.len() as u16))
                &&& field_at(b, 13, self.uname)
                &&& field_at(b, 13int + self.uname.len(), spec_u16_to_le_bytes(self.aname.len() as u16))
                &&& field_at(b, 15int + self.uname.len(), self.aname)
            }),
    {
        lemma_auto_spec_u16_to_from_le_bytes();
        lemma_auto_spec_u32_to_from_le_bytes();
        lemma_auto_spec_u64_to_from_le_bytes();
        let body = self.spec_body()->0;
        lemma_frame_layout(self.header.message_type, self.header.tag, body);
        assert(body.subrange(0int, 4int) =~= spec_u32_to_le_bytes(self.afid));
        assert(field_at(body, 0int, spec_u32_to_le_bytes(self.afid)));
        assert(body.subrange(4int, 6int) =~= spec_u16_to_le_bytes(self.uname.len() as u16));
        assert(field_at(body, 4int, spec_u16_to_le_bytes(self.uname.len() as u16)));
        assert(body.subrange(6int, 6int + self.uname.len()) =~= self.uname);
        assert(field_at(body, 6int, self.uname));
        assert(body.subrange(6int + self.uname.len(), 8int + self.uname.len()) =~= spec_u16_to_le_bytes(self.aname.len() as u16));
        assert(field_at(body, 6int + self.uname.len(), spec_u16_to_le_bytes(self.aname.len() as u16)));
        assert(body.subrange(8int + self.uname.len(), 8int + self.uname.len() + self.aname.len()) =~= self.aname);
        assert(field_at(body, 8int + self.uname.len(), self.aname));
    }
}

impl Tflush {
    /// The bytes of the encoded message, field by field, in the order of
    /// the protocol: after the 7 bytes of the header, each fixed-size field
    /// little-endian at its offset, each byte string after its 2-byte length.
    pub proof fn lemma_layout(self)
        requires
            self.spec_encode() is Ok,
        ensures
            ({
                let b = self.spec_encode()->Ok_0;
                &&& field_at(b, 0, spec_u32_to_le_bytes(b.len() as u32))
                &&& b[4] == self.header.message_type.spec_code()
                &&& field_at(b, 5, spec_u16_to_le_bytes(self.header.tag))
                &&& b.len() == 9
                &&& field_at(b, 7, spec_u16_to_le_bytes(self.oldtag))
            }),
    {
        lemma_auto_spec_u16_to_from_le_bytes();
        lemma_auto_spec_u32_to_from_le_bytes();
        lemma_auto_spec_u64_to_from_le_bytes();
        let body = self.spec_body()->0;
        lemma_frame_layout(self.header.message_type, self.header.tag, body);
        assert(body.subrange(0int, 2int) =~= spec_u16_to_le_bytes(self.oldtag));
        assert(field_at(body, 0int, spec_u16_to_le_bytes(self.oldtag)));
    }
}

impl TwalkView {
    /// The bytes of the encoded message, field by field, in the order of
    /// the protocol: after the 7 bytes of the header, each fixed-size field
    /// little-endian at its offset, each byte string after its 2-byte length.
    pub proof fn lemma_layout(self)
        requires
            self.spec_encode() is Ok,
        ensures
            ({
                let b = self.spec_encode()->Ok_0;
                &&& field_at(b, 0, spec_u32_to_le_bytes(b.len() as u32))
                &&& b[4] == self.header.message_type.spec_code()
                &&& field_at(b, 5, spec_u16_to_le_bytes(self.header.tag))
                &&& field_at(b, 7, spec_u32_to_le_bytes(self.fid))
                &&& field_at(b, 11, spec_u32_to_le_bytes(self.newfid))
                &&& field_at(b, 15, spec_u16_to_le_bytes(self.wnames.len() as u16))
            }),
    {
        lemma_auto_spec_u16_to_from_le_bytes();
        lemma_auto_spec_u32_to_from_le_bytes();
        lemma_auto_spec_u64_to_from_le_bytes();
        let body = self.spec_body()->0;
        lemma_frame_layout(self.header.message_type, self.header.tag, body);
        assert(body.subrange(0int, 4int) =~= spec_u32_to_le_bytes(self.fid));
        assert(field_at(body, 0int, spec_u32_to_le_bytes(self.fid)));
        assert(body.subrange(4int, 8int) =~= spec_u32_to_le_bytes(self.newfid));
        assert(field_at(body, 4int, spec_u32_to_le_bytes(self.newfid)));
        assert(body.subrange(8int, 10int) =~= spec_u16_to_le_bytes(self.wnames.len() as u16));
        assert(field_at(body, 8int, spec_u16_to_le_bytes(self.wnames.len() as u16)));
    }
}

impl Topen {
    /// The bytes of the encoded message, field by field, in the order of
    /// the protocol: after the 7 bytes of the header, each fixed-size field
    /// little-endian at its offset, each byte string after its 2-byte length.
    pub proof fn lemma_layout(self)
        requires
            self.spec_encode() is Ok,
        ensures
            ({
                let b = self.spec_encode()->Ok_0;
                &&& field_at(b, 0, spec_u32_to_le_bytes(b.len() as u32))
                &&& b[4] == self.header.message_type.spec_code()
                &&& field_at(b, 5, spec_u16_to_le_bytes(self.header.tag))
                &&& b.len() == 12
                &&& field_at(b, 7, spec_u32_to_le_bytes(self.fid))
                &&& b[11] == self.mode
            }),
    {
        lemma_auto_spec_u16_to_from_le_bytes();
        lemma_auto_spec_u32_to_from_le_bytes();
        lemma_auto_spec_u64_to_from_le_bytes();
        let body = self.spec_body()->0;
        lemma_frame_layout(self.header.message_type, self.header.tag, body);
        assert(body.subrange(0int, 4int) =~= spec_u32_to_le_bytes(self.fid));
        assert(field_at(body, 0int, spec_u32_to_le_bytes(self.fid)));
        assert(body[4int] == self.mode);
    }
}

impl TcreateView {
    /// The bytes of the encoded message, field by field, in the order of
    /// the protocol: after the 7 bytes of the header, each fixed-size field
    /// little-endian at its offset, each byte string after its 2-byte length.
    pub proof fn lemma_layout(self)
        requires
            self.spec_encode() is Ok,
        ensures
            ({
                let b = self.spec_encode()->Ok_0;
                &&& field_at(b, 0, spec_u32_to_le_bytes(b.len() as u32))
                &&& b[4] == self.header.message_type.spec_code()
                &&& field_at(b, 5, spec_u16_to_le_bytes(self.header.tag))
                &&& b.len() == 18int + self.name.len()
                &&& field_at(b, 7, spec_u32_to_le_bytes(self.fid))
                &&& field_at(b, 11, spec_u16_to_le_bytes(self.name.len() as u16))
                &&& field_at(b, 13, self.name)
                &&& field_at(b, 13int + self.name.len(), spec_u32_to_le_bytes(self.perm))
                &&& b[17int + self.name.len()] == self.mode
            }),
    {
        lemma_auto_spec_u16_to_from_le_bytes();
        lemma_auto_spec_u32_to_from_le_bytes();
        lemma_auto_spec_u64_to_from_le_bytes();
        let body = self.spec_body()->0;
        lemma_frame_layout(self.header.message_type, self.header.tag, body);
        assert(body.subrange(0int, 4int) =~= spec_u32_to_le_bytes(self.fid));
        assert(field_at(body, 0int, spec_u32_to_le_bytes(self.fid)));
        assert(body.subrange(4int, 6int) =~= spec_u16_to_le_bytes(self.name.len() as u16));
        assert(field_at(body, 4int, spec_u16_to_le_bytes(self.name.len() as u16)));
        assert(body.subrange(6int, 6int + self.name.len()) =~= self.name);
        assert(field_at(body, 6int, self.name));
        assert(body.subrange(6int + self.name.len(), 10int + self.name.len()) =~= spec_u32_to_le_bytes(self.perm));
        assert(field_at(body, 6int + self.name.len(), spec_u32_to_le_bytes(self.perm)));
        assert(body[10int + self.name.len()] == self.mode);
    }
}

impl Tread {
    /// The bytes of the encoded message, field by field, in the order of
    /// the protocol: after the 7 bytes of the header, each fixed-size field
    /// little-endian at its offset, each byte string after its 2-byte length.
    pub proof fn lemma_layout(self)
        requires
            self.spec_encode() is Ok,
        ensures
            ({
                let b = self.spec_encode()->Ok_0;
                &&& field_at(b, 0, spec_u32_to_le_bytes(b.len() as u32))
                &&& b[4] == self.header.message_type.spec_code()
                &&& field_at(b, 5, spec_u16_to_le_bytes(self.header.tag))
                &&& b.len() == 23
                &&& field_at(b, 7, spec_u32_to_le_bytes(self.fid))
                &&& field_at(b, 11, spec_u64_to_le_bytes(self.offset))
                &&& field_at(b, 19, spec_u32_to_le_bytes(self.count))
            }),
    {
        lemma_auto_spec_u16_to_from_le_bytes();
        lemma_auto_spec_u32_to_from_le_bytes();
        lemma_auto_spec_u64_to_from_le_bytes();
        let body = self.spec_body()->0;
        lemma_frame_layout(self.header.message_type, self.header.tag, body);
        assert(body.subrange(0int, 4int) =~= spec_u32_to_le_bytes(self.fid));
        assert(field_at(body, 0int, spec_u32_to_le_bytes(self.fid)));
        assert(body.subrange(4int, 12int) =~= spec_u64_to_le_bytes(self.offset));
        assert(field_at(body, 4int, spec_u64_to_le_bytes(self.offset)));
        assert(body.subrange(12int, 16int) =~= spec_u32_to_le_bytes(self.count));
        assert(field_at(body, 12int, spec_u32_to_le_bytes(self.count)));
    }
}

impl TwriteView {
    /// The bytes of the encoded message, field by field, in the order of
    /// the protocol: after the 7 bytes of the header, each fixed-size field
    /// little-endian at its offset, each byte string after its 2-byte length.
    pub proof fn lemma_layout(self)
        requires
            self.spec_encode() is Ok,
        ensures
            ({
                let b = self.spec_encode()->Ok_0;
                &&& field_at(b, 0, spec_u32_to_le_bytes(b.len() as u32))
                &&& b[4] == self.header.message_type.spec_code()
                &&& field_at(b, 5, spec_u16_to_le_bytes(self.header.tag))
                &&& b.len() == 25int + self.data.len()
                &&& field_at(b, 7, spec_u32_to_le_bytes(self.fid))
                &&& field_at(b, 11, spec_u64_to_le_bytes(self.offset))
                &&& field_at(b, 19, spec_u32_to_le_bytes(self.count))
                &&& field_at(b, 23, spec_u16_to_le_bytes(self.data.len() as u16))
                &&& field_at(b, 25, self.data)
            }),
    {
        lemma_auto_spec_u16_to_from_le_bytes();
        lemma_auto_spec_u32_to_from_le_bytes();
        lemma_auto_spec_u64_to_from_le_bytes();
        let body = self.spec_body()->0;
        lemma_frame_layout(self.header.message_type, self.header.tag, body);
        assert(body.subrange(0int, 4int) =~= spec_u32_to_le_bytes(self.fid));
        assert(field_at(body, 0int, spec_u32_to_le_bytes(self.fid)));
        assert(body.subrange(4int, 12int) =~= spec_u64_to_le_bytes(self.offset));
        assert(field_at(body, 4int, spec_u64_to_le_bytes(self.offset)));
        assert(body.subrange(12int, 16int) =~= spec_u32_to_le_bytes(self.count));
        assert(field_at(body, 12int, spec_u32_to_le_bytes(self.count)));
        assert(body.subrange(16int, 18int) =~= spec_u16_to_le_bytes(self.data.len() as u16));
        assert(field_at(body, 16int, spec_u16_to_le_bytes(self.data.len() as u16)));
        assert(body.subrange(18int, 18int + self.data.len()) =~= self.data);
        assert(field_at(body, 18int, self.data));
    }
}

impl Tclunk {
    /// The bytes of the encoded message, field by field, in the order of
    /// the protocol: after the 7 bytes of the header, each fixed-size field
    /// little-endian at its offset, each byte string after its 2-byte length.
    pub proof fn lemma_layout(self)
        requires
            self.spec_encode() is Ok,
        ensures
            ({
                let b = self.spec_encode()->Ok_0;
                &&& field_at(b, 0, spec_u32_to_le_bytes(b.len() as u32))
                &&& b[4] == self.header.message_type.spec_code()
                &&& field_at(b, 5, spec_u16_to_le_bytes(self.header.tag))
                &&& b.len() == 11
                &&& field_at(b, 7, spec_u32_to_le_bytes(self.fid))
            }),
    {
        lemma_auto_spec_u16_to_from_le_bytes();
        lemma_auto_spec_u32_to_from_le_bytes();
        lemma_auto_spec_u64_to_from_le_bytes();
        let body = self.spec_body()->0;
        lemma_frame_layout(self.header.message_type, self.header.tag, body);
        assert(body.subrange(0int, 4int) =~= spec_u32_to_le_bytes(self.fid));
        assert(field_at(body, 0int, spec_u32_to_le_bytes(self.fid)));
    }
}

impl Tremove {
    /// The bytes of the encoded message, field by field, in the order of
    /// the protocol: after the 7 bytes of the header, each fixed-size field
    /// little-endian at its offset, each byte string after its 2-byte length.
    pub proof fn lemma_layout(self)
        requires
            self.spec_encode() is Ok,
        ensures
            ({
                let b = self.spec_encode()->Ok_0;
                &&& field_at(b, 0, spec_u32_to_le_bytes(b.len() as u32))
                &&& b[4] == self.header.message_type.spec_code()
                &&& field_at(b, 5, spec_u16_to_le_bytes(self.header.tag))
                &&& b.len() == 11
                &&& field_at(b, 7, spec_u32_to_le_bytes(self.fid))
            }),
    {
        lemma_auto_spec_u16_to_from_le_bytes();
        lemma_auto_spec_u32_to_from_le_bytes();
        lemma_auto_spec_u64_to_from_le_bytes();
        let body = self.spec_body()->0;
        lemma_frame_layout(self.header.message_type, self.header.tag, body);
        assert(body.subrange(0int, 4int) =~= spec_u32_to_le_bytes(self.fid));
        assert(field_at(body, 0int, spec_u32_to_le_bytes(self.fid)));
    }
}

impl Tstat {
    /// The bytes of the encoded message, field by field, in the order of
    /// the protocol: after the 7 bytes of the header, each fixed-size field
    /// little-endian at its offset, each byte string after its 2-byte length.
    pub proof fn lemma_layout(self)
        requires
            self.spec_encode() is Ok,
        ensures
            ({
                let b = self.spec_encode()->Ok_0;
                &&& field_at(b, 0, spec_u32_to_le_bytes(b.len() as u32))
                &&& b[4] == self.header.message_type.spec_code()
                &&& field_at(b, 5, spec_u16_to_le_bytes(self.header.tag))
                &&& b.len() == 11
                &&& field_at(b, 7, spec_u32_to_le_bytes(self.fid))
            }),
    {
        lemma_auto_spec_u16_to_from_le_bytes();
        lemma_auto_spec_u32_to_from_le_bytes();
        lemma_auto_spec_u64_to_from_le_bytes();
        let body = self.spec_body()->0;
        lemma_frame_layout(self.header.message_type, self.header.tag, body);
        assert(body.subrange(0int, 4int) =~= spec_u32_to_le_bytes(self.fid));
        assert(field_at(body, 0int, spec_u32_to_le_bytes(self.fid)));
    }
}

impl TwstatView {
    /// The bytes of the encoded message, field by field, in the order of
    /// the protocol: after the 7 bytes of the header, each fixed-size field
    /// little-endian at its offset, each byte string after its 2-byte length.
    pub proof fn lemma_layout(self)
        requires
            self.spec_encode() is Ok,
        ensures
            ({
                let b = self.spec_encode()->Ok_0;
                &&& field_at(b, 0, spec_u32_to_le_bytes(b.len() as u32))
                &&& b[4] == self.header.message_type.spec_code()
                &&& field_at(b, 5, spec_u16_to_le_bytes(self.header.tag))
                &&& b.len() == 13int + self.stat.len()
                &&& field_at(b, 7, spec_u32_to_le_bytes(self.fid))
                &&& field_at(b, 11, spec_u16_to_le_bytes(self.stat.len() as u16))
                &&& field_at(b, 13, self.stat)
            }),
    {
        lemma_auto_spec_u16_to_from_le_bytes();
        lemma_auto_spec_u32_to_from_le_bytes();
        lemma_auto_spec_u64_to_from_le_bytes();
        let body = self.spec_body()->0;
        lemma_frame_layout(self.header.message_type, self.header.tag, body);
        assert(body.subrange(0int, 4int) =~= spec_u32_to_le_bytes(self.fid));
        assert(field_at(body, 0int, spec_u32_to_le_bytes(self.fid)));
        assert(body.subrange(4int, 6int) =~= spec_u16_to_le_bytes(self.stat.len() as u16));
        assert(field_at(body, 4int, spec_u16_to_le_bytes(self.stat.len() as u16)));
        assert(body.subrange(6int, 6int + self.stat.len()) =~= self.stat);
        assert(field_at(body, 6int, self.stat));
    }
}

} // verus!
