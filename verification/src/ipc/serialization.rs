//! Writing and reading the fields of a message.
//!
//! Every message is laid out as a little-endian `u32` total size, one kind
//! byte and a little-endian `u16` tag, followed by its fields. A byte string
//! is written as its little-endian `u16` length followed by its bytes.

use crate::ipc::bytes_buf::{
    bytes_contents, bytes_get_u16_le, bytes_get_u32_le, bytes_get_u64_le, bytes_get_u8, bytes_len,
    bytes_mut_contents, bytes_mut_freeze, bytes_mut_len, bytes_mut_new, bytes_mut_put_bytes,
    bytes_mut_put_u16_le, bytes_mut_put_u32_le, bytes_mut_put_u64_le, bytes_mut_put_u8,
    bytes_mut_write_at, bytes_split_to,
};
use crate::ipc::error::ProtocolError;
use crate::ipc::messages::{MessageHeader, MessageType, MAX_MESSAGE_SIZE};
use bytes::{Bytes, BytesMut};
use vstd::bytes::{
    lemma_auto_spec_u16_to_from_le_bytes, lemma_auto_spec_u32_to_from_le_bytes,
    lemma_auto_spec_u64_to_from_le_bytes, spec_u16_from_le_bytes, spec_u16_to_le_bytes,
    spec_u32_from_le_bytes, spec_u32_to_le_bytes, spec_u64_from_le_bytes, spec_u64_to_le_bytes,
};
use vstd::prelude::*;

verus! {

// ---------------------------------------------------------------------------
// The wire format, as spec functions.
// ---------------------------------------------------------------------------
/// The seven header bytes for a message of the given size, kind and tag.
pub open spec fn spec_header_bytes(size: u32, t: MessageType, tag: u16) -> Seq<u8> {
    spec_u32_to_le_bytes(size) + seq![t.spec_code()] + spec_u16_to_le_bytes(tag)
}

/// A byte string on the wire: its length, then its bytes; `None` when the
/// length does not fit the `u16` length field.
pub open spec fn spec_enc_bytes(b: Seq<u8>) -> Option<Seq<u8>> {
    if b.len() > u16::MAX {
        None
    } else {
        Some(spec_u16_to_le_bytes(b.len() as u16) + b)
    }
}

/// Whether `b` holds the bytes `f` from byte `off` on.
pub open spec fn field_at(b: Seq<u8>, off: int, f: Seq<u8>) -> bool {
    &&& 0 <= off
    &&& off + f.len() <= b.len()
    &&& b.subrange(off, off + f.len()) == f
}

/// A finished message, byte by byte: its total length as a little-endian
/// `u32`, the byte of its kind, its tag as a little-endian `u16`, then the
/// encoded fields from byte 7 on; a field at byte `off` of the fields is at
/// byte `7 + off` of the message.
pub proof fn lemma_frame_layout(t: MessageType, tag: u16, body: Seq<u8>)
    requires
        spec_frame(t, tag, body) is Ok,
    ensures
        ({
            let b = spec_frame(t, tag, body)->Ok_0;
            &&& b.len() == 7 + body.len()
            &&& field_at(b, 0, spec_u32_to_le_bytes(b.len() as u32))
            &&& b[4] == t.spec_code()
            &&& field_at(b, 5, spec_u16_to_le_bytes(tag))
            &&& b.skip(7) == body
            &&& forall|off: int, f: Seq<u8>| #[trigger] field_at(body, off, f) ==> field_at(b, 7 + off, f)
        }),
{
    let size = (7 + body.len()) as u32;
    lemma_le16(tag);
    lemma_le32(size);
    let b = spec_header_bytes(size, t, tag) + body;
    assert(b.subrange(0, 4) =~= spec_u32_to_le_bytes(size));
    assert(b[4] == t.spec_code());
    assert(b.subrange(5, 7) =~= spec_u16_to_le_bytes(tag));
    assert(b.skip(7) =~= body);
    assert forall|off: int, f: Seq<u8>| #[trigger] field_at(body, off, f) implies field_at(b, 7 + off, f) by {
        assert(b.subrange(7 + off, 7 + off + f.len()) =~= body.subrange(off, off + f.len()));
    }
}

/// The complete message of the given kind, tag and encoded fields, as the
/// writer finishes it: the size field holds the total length (as a `u32`),
/// and a total above `MAX_MESSAGE_SIZE` is refused.
pub open spec fn spec_frame(t: MessageType, tag: u16, body: Seq<u8>) -> Result<
    Seq<u8>,
    ProtocolError,
> {
    let size = (7 + body.len()) as u32;
    if size > MAX_MESSAGE_SIZE {
        Err(ProtocolError::ExceedsMaxSize)
    } else {
        Ok(spec_header_bytes(size, t, tag) + body)
    }
}

/// Reading a header from the front of `s`: the header and what follows it.
pub open spec fn spec_read_header(s: Seq<u8>) -> Result<(MessageHeader, Seq<u8>), ProtocolError> {
    if s.len() < 7 {
        Err(ProtocolError::BufferTooSmall)
    } else {
        let size = spec_u32_from_le_bytes(s.take(4));
        if size > MAX_MESSAGE_SIZE {
            Err(ProtocolError::ExceedsMaxSize)
        } else {
            match MessageType::spec_from_code(s[4]) {
                None => Err(ProtocolError::InvalidMessageType(s[4])),
                Some(t) => Ok(
                    (
                        MessageHeader {
                            size,
                            message_type: t,
                            tag: spec_u16_from_le_bytes(s.subrange(5, 7)),
                        },
                        s.skip(7),
                    ),
                ),
            }
        }
    }
}

/// Reading a header that must be of kind `t`; one of another kind is refused
/// with `InvalidMessageType` carrying its kind byte.
pub open spec fn spec_read_header_of(s: Seq<u8>, t: MessageType) -> Result<
    (MessageHeader, Seq<u8>),
    ProtocolError,
> {
    match spec_read_header(s) {
        Err(e) => Err(e),
        Ok((h, rest)) => if h.message_type != t {
            Err(ProtocolError::InvalidMessageType(h.message_type.spec_code()))
        } else {
            Ok((h, rest))
        },
    }
}

pub open spec fn spec_read_u8(s: Seq<u8>) -> Result<(u8, Seq<u8>), ProtocolError> {
    if s.len() < 1 {
        Err(ProtocolError::BufferTooSmall)
    } else {
        Ok((s[0], s.skip(1)))
    }
}

pub open spec fn spec_read_u16(s: Seq<u8>) -> Result<(u16, Seq<u8>), ProtocolError> {
    if s.len() < 2 {
        Err(ProtocolError::BufferTooSmall)
    } else {
        Ok((spec_u16_from_le_bytes(s.take(2)), s.skip(2)))
    }
}

pub open spec fn spec_read_u32(s: Seq<u8>) -> Result<(u32, Seq<u8>), ProtocolError> {
    if s.len() < 4 {
        Err(ProtocolError::BufferTooSmall)
    } else {
        Ok((spec_u32_from_le_bytes(s.take(4)), s.skip(4)))
    }
}

pub open spec fn spec_read_u64(s: Seq<u8>) -> Result<(u64, Seq<u8>), ProtocolError> {
    if s.len() < 8 {
        Err(ProtocolError::BufferTooSmall)
    } else {
        Ok((spec_u64_from_le_bytes(s.take(8)), s.skip(8)))
    }
}

pub open spec fn spec_read_bytes(s: Seq<u8>) -> Result<(Seq<u8>, Seq<u8>), ProtocolError> {
    if s.len() < 2 {
        Err(ProtocolError::BufferTooSmall)
    } else {
        let n = spec_u16_from_le_bytes(s.take(2));
        let rest = s.skip(2);
        if n > rest.len() {
            Err(ProtocolError::BufferTooSmall)
        } else {
            Ok((rest.take(n as int), rest.skip(n as int)))
        }
    }
}

// ---------------------------------------------------------------------------
// Little-endian integers.
// ---------------------------------------------------------------------------
pub proof fn lemma_le16(v: u16)
    ensures
        spec_u16_to_le_bytes(v).len() == 2,
        spec_u16_from_le_bytes(spec_u16_to_le_bytes(v)) == v,
{
    lemma_auto_spec_u16_to_from_le_bytes();
    assert(spec_u16_to_le_bytes(v).len() == 2);
}

pub proof fn lemma_le32(v: u32)
    ensures
        spec_u32_to_le_bytes(v).len() == 4,
        spec_u32_from_le_bytes(spec_u32_to_le_bytes(v)) == v,
{
    lemma_auto_spec_u32_to_from_le_bytes();
    assert(spec_u32_to_le_bytes(v).len() == 4);
}

pub proof fn lemma_le64(v: u64)
    ensures
        spec_u64_to_le_bytes(v).len() == 8,
        spec_u64_from_le_bytes(spec_u64_to_le_bytes(v)) == v,
{
    lemma_auto_spec_u64_to_from_le_bytes();
    assert(spec_u64_to_le_bytes(v).len() == 8);
}

// ---------------------------------------------------------------------------
// Facts about reading back what was written.
// ---------------------------------------------------------------------------
pub proof fn lemma_read_u8_of(v: u8, rest: Seq<u8>)
    ensures
        spec_read_u8(seq![v] + rest) == Ok::<(u8, Seq<u8>), ProtocolError>((v, rest)),
{
    assert((seq![v] + rest).skip(1) =~= rest);
}

pub proof fn lemma_read_u16_of(v: u16, rest: Seq<u8>)
    ensures
        spec_read_u16(spec_u16_to_le_bytes(v) + rest) == Ok::<(u16, Seq<u8>), ProtocolError>(
            (v, rest),
        ),
{
    lemma_le16(v);
    let s = spec_u16_to_le_bytes(v) + rest;
    assert(s.take(2) =~= spec_u16_to_le_bytes(v));
    assert(s.skip(2) =~= rest);
}

pub proof fn lemma_read_u32_of(v: u32, rest: Seq<u8>)
    ensures
        spec_read_u32(spec_u32_to_le_bytes(v) + rest) == Ok::<(u32, Seq<u8>), ProtocolError>(
            (v, rest),
        ),
{
    lemma_le32(v);
    let s = spec_u32_to_le_bytes(v) + rest;
    assert(s.take(4) =~= spec_u32_to_le_bytes(v));
    assert(s.skip(4) =~= rest);
}

pub proof fn lemma_read_u64_of(v: u64, rest: Seq<u8>)
    ensures
        spec_read_u64(spec_u64_to_le_bytes(v) + rest) == Ok::<(u64, Seq<u8>), ProtocolError>(
            (v, rest),
        ),
{
    lemma_le64(v);
    let s = spec_u64_to_le_bytes(v) + rest;
    assert(s.take(8) =~= spec_u64_to_le_bytes(v));
    assert(s.skip(8) =~= rest);
}

pub proof fn lemma_read_bytes_of(b: Seq<u8>, rest: Seq<u8>)
    requires
        b.len() <= u16::MAX,
    ensures
        spec_read_bytes(spec_enc_bytes(b).unwrap() + rest) == Ok::<
            (Seq<u8>, Seq<u8>),
            ProtocolError,
        >((b, rest)),
{
    lemma_le16(b.len() as u16);
    let l = spec_u16_to_le_bytes(b.len() as u16);
    let s = (l + b) + rest;
    assert(s.take(2) =~= l);
    assert(s.skip(2) =~= b + rest);
    assert((b + rest).take(b.len() as int) =~= b);
    assert((b + rest).skip(b.len() as int) =~= rest);
}

/// A finished message's header reads back as its kind, tag and total size,
/// and what follows the header is the encoded fields.
pub proof fn lemma_read_header_of_frame(t: MessageType, tag: u16, body: Seq<u8>)
    requires
        spec_frame(t, tag, body) is Ok,
    ensures
        spec_read_header_of(spec_frame(t, tag, body)->Ok_0, t) == Ok::<
            (MessageHeader, Seq<u8>),
            ProtocolError,
        >((MessageHeader { size: (7 + body.len()) as u32, message_type: t, tag }, body)),
        (spec_frame(t, tag, body)->Ok_0).len() == 7 + body.len(),
{
    t.lemma_code_roundtrip();
    let size = (7 + body.len()) as u32;
    lemma_le16(tag);
    lemma_le32(size);
    let s = spec_header_bytes(size, t, tag) + body;
    assert(s.take(4) =~= spec_u32_to_le_bytes(size));
    assert(s[4] == t.spec_code());
    assert(s.subrange(5, 7) =~= spec_u16_to_le_bytes(tag));
    assert(s.skip(7) =~= body);
}


// ---------------------------------------------------------------------------
// Whole messages and lists of byte strings.
// ---------------------------------------------------------------------------
/// A message of kind `t` whose fields encode as `body` (`None` when a byte
/// string among them is too long for its length field).
pub open spec fn spec_message(t: MessageType, tag: u16, body: Option<Seq<u8>>) -> Result<
    Seq<u8>,
    ProtocolError,
> {
    match body {
        None => Err(ProtocolError::MessageTooLarge),
        Some(b) => spec_frame(t, tag, b),
    }
}

/// An encoding result, as bytes, agrees with its specification.
pub open spec fn bytes_result_matches(
    r: Result<Bytes, ProtocolError>,
    s: Result<Seq<u8>, ProtocolError>,
) -> bool {
    match s {
        Ok(v) => r is Ok && bytes_contents(r->Ok_0) == v,
        Err(e) => r == Err::<Bytes, ProtocolError>(e),
    }
}

/// A decoding result agrees with its specification, compared by views.
pub open spec fn decoded_as<M: View>(r: Result<M, ProtocolError>, s: Result<M::V, ProtocolError>) -> bool {
    match s {
        Ok(v) => r is Ok && r->Ok_0@ == v,
        Err(e) => r is Err && r->Err_0 == e,
    }
}

/// Two or more byte strings one after the other; `None` when one is too long.
pub open spec fn spec_enc_bytes_list(items: Seq<Seq<u8>>) -> Option<Seq<u8>>
    decreases items.len(),
{
    if items.len() == 0 {
        Some(Seq::empty())
    } else {
        match (spec_enc_bytes(items[0]), spec_enc_bytes_list(items.skip(1))) {
            (Some(h), Some(t)) => Some(h + t),
            _ => None,
        }
    }
}

/// Reading `n` byte strings; with `qids` set, each must be a 13-byte qid and
/// the first that is not is refused with `InvalidQid`.
pub open spec fn spec_read_bytes_list(s: Seq<u8>, n: nat, qids: bool) -> Result<
    (Seq<Seq<u8>>, Seq<u8>),
    ProtocolError,
>
    decreases n,
{
    if n == 0 {
        Ok((Seq::empty(), s))
    } else {
        match spec_read_bytes(s) {
            Err(e) => Err(e),
            Ok((b, rest)) => if qids && b.len() != 13 {
                Err(ProtocolError::InvalidQid)
            } else {
                match spec_read_bytes_list(rest, (n - 1) as nat, qids) {
                    Err(e) => Err(e),
                    Ok((bs, r2)) => Ok((seq![b] + bs, r2)),
                }
            },
        }
    }
}

pub proof fn lemma_enc_bytes_list_push(items: Seq<Seq<u8>>, x: Seq<u8>)
    requires
        spec_enc_bytes_list(items) is Some,
        spec_enc_bytes(x) is Some,
    ensures
        spec_enc_bytes_list(items.push(x)) == Some(
            spec_enc_bytes_list(items)->0 + spec_enc_bytes(x)->0,
        ),
    decreases items.len(),
{
    if items.len() == 0 {
        assert(items.push(x).skip(1) =~= Seq::<Seq<u8>>::empty());
        assert(items.push(x)[0] == x);
        assert(spec_enc_bytes_list(items.push(x).skip(1)) == Some(Seq::<u8>::empty()));
        assert(spec_enc_bytes(x)->0 + Seq::<u8>::empty() =~= Seq::<u8>::empty() + spec_enc_bytes(
            x,
        )->0);
    } else {
        assert(items.push(x).skip(1) =~= items.skip(1).push(x));
        assert(items.push(x)[0] == items[0]);
        lemma_enc_bytes_list_push(items.skip(1), x);
        let h = spec_enc_bytes(items[0])->0;
        let t = spec_enc_bytes_list(items.skip(1))->0;
        let e = spec_enc_bytes(x)->0;
        assert(h + (t + e) =~= (h + t) + e);
    }
}

pub proof fn lemma_enc_bytes_list_none_push(items: Seq<Seq<u8>>, x: Seq<u8>)
    requires
        spec_enc_bytes_list(items) is None || spec_enc_bytes(x) is None,
    ensures
        spec_enc_bytes_list(items.push(x)) is None,
    decreases items.len(),
{
    if items.len() == 0 {
        assert(items.push(x).skip(1) =~= Seq::<Seq<u8>>::empty());
    } else {
        assert(items.push(x).skip(1) =~= items.skip(1).push(x));
        assert(items.push(x)[0] == items[0]);
        if spec_enc_bytes(items[0]) is Some {
            lemma_enc_bytes_list_none_push(items.skip(1), x);
        }
    }
}

pub proof fn lemma_enc_bytes_list_prefix_none(items: Seq<Seq<u8>>, k: int)
    requires
        0 <= k <= items.len(),
        spec_enc_bytes_list(items.take(k)) is None,
    ensures
        spec_enc_bytes_list(items) is None,
    decreases items.len(),
{
    if k == items.len() {
        assert(items.take(k) =~= items);
    } else {
        assert(k > 0);
        assert(items.take(k)[0] == items[0]);
        assert(items.take(k).skip(1) =~= items.skip(1).take(k - 1));
        if spec_enc_bytes(items[0]) is Some {
            lemma_enc_bytes_list_prefix_none(items.skip(1), k - 1);
        }
    }
}

/// Byte strings written one after the other read back as the same strings.
pub proof fn lemma_read_bytes_list_of(items: Seq<Seq<u8>>, rest: Seq<u8>, qids: bool)
    requires
        spec_enc_bytes_list(items) is Some,
        qids ==> forall|i: int| 0 <= i < items.len() ==> (#[trigger] items[i]).len() == 13,
    ensures
        spec_read_bytes_list(spec_enc_bytes_list(items)->0 + rest, items.len(), qids) == Ok::<
            (Seq<Seq<u8>>, Seq<u8>),
            ProtocolError,
        >((items, rest)),
    decreases items.len(),
{
    if items.len() == 0 {
        assert(Seq::<u8>::empty() + rest =~= rest);
        assert(items =~= Seq::<Seq<u8>>::empty());
    } else {
        let h = spec_enc_bytes(items[0])->0;
        let t = spec_enc_bytes_list(items.skip(1))->0;
        assert((h + t) + rest =~= h + (t + rest));
        lemma_read_bytes_of(items[0], t + rest);
        assert(qids ==> forall|i: int|
            0 <= i < items.skip(1).len() ==> (#[trigger] items.skip(1)[i]).len() == 13) by {
            if qids {
                assert forall|i: int| 0 <= i < items.skip(1).len() implies (
                #[trigger] items.skip(1)[i]).len() == 13 by {
                    assert(items.skip(1)[i] == items[i + 1]);
                }
            }
        }
        lemma_read_bytes_list_of(items.skip(1), rest, qids);
        assert(seq![items[0]] + items.skip(1) =~= items);
    }
}

pub proof fn lemma_read_bytes_list_step(s: Seq<u8>, n: nat, qids: bool, b: Seq<u8>, rest: Seq<u8>)
    requires
        n > 0,
        spec_read_bytes(s) == Ok::<(Seq<u8>, Seq<u8>), ProtocolError>((b, rest)),
        !(qids && b.len() != 13),
    ensures
        spec_read_bytes_list(s, n, qids) == match spec_read_bytes_list(rest, (n - 1) as nat, qids) {
            Err(e) => Err(e),
            Ok((bs, r2)) => Ok((seq![b] + bs, r2)),
        },
{
}

/// Whether every byte string in `items` is a 13-byte qid.
pub fn all_qids(items: &Vec<Bytes>) -> (r: bool)
    ensures
        r == (forall|i: int| 0 <= i < items@.len() ==> bytes_contents(#[trigger] items@[i]).len() == 13),
{
    let mut i: usize = 0;
    while i < items.len()
        invariant
            i <= items@.len(),
            forall|j: int| 0 <= j < i ==> bytes_contents(#[trigger] items@[j]).len() == 13,
        decreases items.len() - i,
    {
        if bytes_len(&items[i]) != 13 {
            return false;
        }
        i = i + 1;
    }
    true
}

// ---------------------------------------------------------------------------
// The writer.
// ---------------------------------------------------------------------------
/// Builds a message field by field in a growing byte buffer.
pub struct MessageWriter {
    buf: BytesMut,
}

impl MessageWriter {
    /// The bytes written so far.
    pub closed spec fn contents(&self) -> Seq<u8> {
        bytes_mut_contents(self.buf)
    }

    pub fn new() -> (w: Self)
        ensures
            w.contents() == Seq::<u8>::empty(),
    {
        MessageWriter { buf: bytes_mut_new() }
    }

    /// Writes a header with a zero size field; `finish` fills the size in.
    pub fn put_header(&mut self, msg_type: MessageType, tag: u16) -> (r: Result<(), ProtocolError>)
        ensures
            r is Ok,
            final(self).contents() == old(self).contents() + spec_header_bytes(0, msg_type, tag),
    {
        let ghost start = self.contents();
        bytes_mut_put_u32_le(&mut self.buf, 0);
        bytes_mut_put_u8(&mut self.buf, msg_type.code());
        bytes_mut_put_u16_le(&mut self.buf, tag);
        assert(self.contents() =~= start + spec_header_bytes(0, msg_type, tag));
        Ok(())
    }

    /// Writes a byte string; one longer than `u16::MAX` is refused with
    /// `MessageTooLarge` and nothing is written.
    pub fn put_bytes(&mut self, bytes: &Bytes) -> (r: Result<(), ProtocolError>)
        ensures
            match spec_enc_bytes(bytes_contents(*bytes)) {
                Some(e) => r is Ok && final(self).contents() == old(self).contents() + e,
                None => r == Err::<(), ProtocolError>(ProtocolError::MessageTooLarge)
                    && final(self).contents() == old(self).contents(),
            },
    {
        let len = bytes_len(bytes);
        if len > 0xFFFF {
            return Err(ProtocolError::MessageTooLarge);
        }
        let ghost start = self.contents();
        bytes_mut_put_u16_le(&mut self.buf, len as u16);
        bytes_mut_put_bytes(&mut self.buf, bytes);
        assert(self.contents() =~= start + (spec_u16_to_le_bytes(len as u16) + bytes_contents(
            *bytes,
        )));
        Ok(())
    }

    /// Writes each byte string in turn; one longer than `u16::MAX` is refused
    /// with `MessageTooLarge`.
    pub fn put_bytes_list(&mut self, items: &Vec<Bytes>) -> (r: Result<(), ProtocolError>)
        ensures
            match spec_enc_bytes_list(items@.map_values(|b: Bytes| bytes_contents(b))) {
                Some(e) => r is Ok && final(self).contents() == old(self).contents() + e,
                None => r == Err::<(), ProtocolError>(ProtocolError::MessageTooLarge),
            },
    {
        let ghost all = items@.map_values(|b: Bytes| bytes_contents(b));
        let ghost start = self.contents();
        let mut i: usize = 0;
        while i < items.len()
            invariant
                i <= items.len(),
                all == items@.map_values(|b: Bytes| bytes_contents(b)),
                spec_enc_bytes_list(all.take(i as int)) is Some,
                self.contents() == start + spec_enc_bytes_list(all.take(i as int))->0,
            decreases items.len() - i,
        {
            proof {
                assert(all.take(i as int + 1) =~= all.take(i as int).push(all[i as int]));
            }
            let res = self.put_bytes(&items[i]);
            if res.is_err() {
                proof {
                    lemma_enc_bytes_list_none_push(all.take(i as int), all[i as int]);
                    lemma_enc_bytes_list_prefix_none(all, i as int + 1);
                }
                return res;
            }
            proof {
                lemma_enc_bytes_list_push(all.take(i as int), all[i as int]);
                assert(self.contents() =~= start + spec_enc_bytes_list(all.take(i as int + 1))->0);
            }
            i = i + 1;
        }
        proof {
            assert(all.take(i as int) =~= all);
        }
        Ok(())
    }

    pub fn put_u8(&mut self, val: u8) -> (r: Result<(), ProtocolError>)
        ensures
            r is Ok,
            final(self).contents() == old(self).contents() + seq![val],
    {
        bytes_mut_put_u8(&mut self.buf, val);
        assert(self.contents() =~= old(self).contents() + seq![val]);
        Ok(())
    }

    pub fn put_u16(&mut self, val: u16) -> (r: Result<(), ProtocolError>)
        ensures
            r is Ok,
            final(self).contents() == old(self).contents() + spec_u16_to_le_bytes(val),
    {
        bytes_mut_put_u16_le(&mut self.buf, val);
        Ok(())
    }

    pub fn put_u32(&mut self, val: u32) -> (r: Result<(), ProtocolError>)
        ensures
            r is Ok,
            final(self).contents() == old(self).contents() + spec_u32_to_le_bytes(val),
    {
        bytes_mut_put_u32_le(&mut self.buf, val);
        Ok(())
    }

    pub fn put_u64(&mut self, val: u64) -> (r: Result<(), ProtocolError>)
        ensures
            r is Ok,
            final(self).contents() == old(self).contents() + spec_u64_to_le_bytes(val),
    {
        bytes_mut_put_u64_le(&mut self.buf, val);
        Ok(())
    }

    /// Fills in the size field with the total length and hands the bytes over;
    /// a total above `MAX_MESSAGE_SIZE` is refused with `ExceedsMaxSize`.
    pub fn finish(self) -> (r: Result<Bytes, ProtocolError>)
        requires
            self.contents().len() >= 4,
        ensures
            ({
                let size = self.contents().len() as u32;
                if size > MAX_MESSAGE_SIZE {
                    r == Err::<Bytes, ProtocolError>(ProtocolError::ExceedsMaxSize)
                } else {
                    r is Ok && bytes_contents(r->Ok_0) == spec_u32_to_le_bytes(size)
                        + self.contents().skip(4)
                }
            }),
    {
        let mut buf = self.buf;
        let size = bytes_mut_len(&buf) as u32;
        if size > MAX_MESSAGE_SIZE {
            return Err(ProtocolError::ExceedsMaxSize);
        }
        let size_bytes = vstd::bytes::u32_to_le_bytes(size);
        bytes_mut_write_at(&mut buf, 0, size_bytes.as_slice());
        proof {
            assert(bytes_mut_contents(buf) =~= spec_u32_to_le_bytes(size) + self.contents().skip(4));
        }
        Ok(bytes_mut_freeze(buf))
    }
}

/// Writes a complete message: the header of kind `t`, the fields that
/// `body` holds once encoded, and the size. Used by every message's
/// `serialize`.
pub proof fn lemma_finish_frame(t: MessageType, tag: u16, written: Seq<u8>, body: Seq<u8>)
    requires
        written == spec_header_bytes(0, t, tag) + body,
    ensures
        written.len() >= 4,
        written.len() == 7 + body.len(),
        (written.len() as u32 > MAX_MESSAGE_SIZE) == (spec_frame(t, tag, body) is Err),
        spec_frame(t, tag, body) is Ok ==> spec_frame(t, tag, body)->Ok_0 == spec_u32_to_le_bytes(
            written.len() as u32,
        ) + written.skip(4),
        spec_frame(t, tag, body) is Err ==> spec_frame(t, tag, body) == Err::<
            Seq<u8>,
            ProtocolError,
        >(ProtocolError::ExceedsMaxSize),
{
    let size = (7 + body.len()) as u32;
    lemma_le16(tag);
    lemma_le32(0);
    lemma_le32(size);
    assert(written.skip(4) =~= seq![t.spec_code()] + spec_u16_to_le_bytes(tag) + body);
    assert(spec_header_bytes(size, t, tag) + body =~= spec_u32_to_le_bytes(size) + written.skip(
        4,
    ));
}

// ---------------------------------------------------------------------------
// The reader.
// ---------------------------------------------------------------------------
/// Reads the fields of a message from the front of a byte buffer.
pub struct MessageReader {
    buf: Bytes,
}

impl MessageReader {
    /// The bytes not read yet.
    pub closed spec fn remaining(&self) -> Seq<u8> {
        bytes_contents(self.buf)
    }

    pub fn new(buf: Bytes) -> (r: Self)
        ensures
            r.remaining() == bytes_contents(buf),
    {
        MessageReader { buf }
    }

    pub fn read_header(&mut self) -> (r: Result<MessageHeader, ProtocolError>)
        ensures
            match spec_read_header(old(self).remaining()) {
                Ok((h, rest)) => r == Ok::<MessageHeader, ProtocolError>(h)
                    && final(self).remaining() == rest,
                Err(e) => r == Err::<MessageHeader, ProtocolError>(e),
            },
    {
        let ghost s = self.remaining();
        if bytes_len(&self.buf) < 7 {
            return Err(ProtocolError::BufferTooSmall);
        }
        let size = bytes_get_u32_le(&mut self.buf);
        proof {
            lemma_le32(size);
        }
        if size > MAX_MESSAGE_SIZE {
            return Err(ProtocolError::ExceedsMaxSize);
        }
        let code = bytes_get_u8(&mut self.buf);
        assert(code == s[4]);
        let message_type = MessageType::try_from_code(code)?;
        let tag = bytes_get_u16_le(&mut self.buf);
        proof {
            lemma_le16(tag);
        }
        assert(s.subrange(5, 7) =~= s.skip(4).skip(1).take(2));
        assert(self.remaining() =~= s.skip(7));
        Ok(MessageHeader { size, message_type, tag })
    }

    pub fn read_bytes(&mut self) -> (r: Result<Bytes, ProtocolError>)
        ensures
            match spec_read_bytes(old(self).remaining()) {
                Ok((b, rest)) => r is Ok && bytes_contents(r->Ok_0) == b
                    && final(self).remaining() == rest,
                Err(e) => r == Err::<Bytes, ProtocolError>(e),
            },
    {
        if bytes_len(&self.buf) < 2 {
            return Err(ProtocolError::BufferTooSmall);
        }
        let len16 = bytes_get_u16_le(&mut self.buf);
        proof {
            lemma_le16(len16);
        }
        let len = len16 as usize;
        if len > bytes_len(&self.buf) {
            return Err(ProtocolError::BufferTooSmall);
        }
        Ok(bytes_split_to(&mut self.buf, len))
    }

    pub fn read_u8(&mut self) -> (r: Result<u8, ProtocolError>)
        ensures
            match spec_read_u8(old(self).remaining()) {
                Ok((v, rest)) => r == Ok::<u8, ProtocolError>(v) && final(self).remaining() == rest,
                Err(e) => r == Err::<u8, ProtocolError>(e),
            },
    {
        if bytes_len(&self.buf) < 1 {
            return Err(ProtocolError::BufferTooSmall);
        }
        Ok(bytes_get_u8(&mut self.buf))
    }

    pub fn read_u16(&mut self) -> (r: Result<u16, ProtocolError>)
        ensures
            match spec_read_u16(old(self).remaining()) {
                Ok((v, rest)) => r == Ok::<u16, ProtocolError>(v) && final(self).remaining()
                    == rest,
                Err(e) => r == Err::<u16, ProtocolError>(e),
            },
    {
        if bytes_len(&self.buf) < 2 {
            return Err(ProtocolError::BufferTooSmall);
        }
        let v = bytes_get_u16_le(&mut self.buf);
        proof {
            lemma_le16(v);
        }
        Ok(v)
    }

    pub fn read_u32(&mut self) -> (r: Result<u32, ProtocolError>)
        ensures
            match spec_read_u32(old(self).remaining()) {
                Ok((v, rest)) => r == Ok::<u32, ProtocolError>(v) && final(self).remaining()
                    == rest,
                Err(e) => r == Err::<u32, ProtocolError>(e),
            },
    {
        if bytes_len(&self.buf) < 4 {
            return Err(ProtocolError::BufferTooSmall);
        }
        let v = bytes_get_u32_le(&mut self.buf);
        proof {
            lemma_le32(v);
        }
        Ok(v)
    }

    pub fn read_u64(&mut self) -> (r: Result<u64, ProtocolError>)
        ensures
            match spec_read_u64(old(self).remaining()) {
                Ok((v, rest)) => r == Ok::<u64, ProtocolError>(v) && final(self).remaining()
                    == rest,
                Err(e) => r == Err::<u64, ProtocolError>(e),
            },
    {
        if bytes_len(&self.buf) < 8 {
            return Err(ProtocolError::BufferTooSmall);
        }
        let v = bytes_get_u64_le(&mut self.buf);
        proof {
            lemma_le64(v);
        }
        Ok(v)
    }

    /// Reads `count` byte strings; with `qids` set, each must be 13 bytes long.
    pub fn read_bytes_list(&mut self, count: u16, qids: bool) -> (r: Result<Vec<Bytes>, ProtocolError>)
        ensures
            match spec_read_bytes_list(old(self).remaining(), count as nat, qids) {
                Ok((bs, rest)) => r is Ok && r->Ok_0@.map_values(|b: Bytes| bytes_contents(b)) == bs
                    && final(self).remaining() == rest,
                Err(e) => r is Err && r->Err_0 == e,
            },
    {
        let ghost s0 = self.remaining();
        let mut items: Vec<Bytes> = Vec::new();
        let mut i: u16 = 0;
        while i < count
            invariant
                i <= count,
                s0 == old(self).remaining(),
                spec_read_bytes_list(s0, count as nat, qids) == match spec_read_bytes_list(
                    self.remaining(),
                    (count - i) as nat,
                    qids,
                ) {
                    Err(e) => Err(e),
                    Ok((bs, r2)) => Ok(
                        (items@.map_values(|b: Bytes| bytes_contents(b)) + bs, r2),
                    ),
                },
            decreases count - i,
        {
            let ghost before = self.remaining();
            let ghost done = items@.map_values(|b: Bytes| bytes_contents(b));
            let res = self.read_bytes();
            let item = match res {
                Err(e) => {
                    proof {
                        assert(spec_read_bytes_list(before, (count - i) as nat, qids) == Err::<
                            (Seq<Seq<u8>>, Seq<u8>),
                            ProtocolError,
                        >(e));
                    }
                    return Err(e);
                },
                Ok(item) => item,
            };
            if qids && bytes_len(&item) != 13 {
                proof {
                    assert(spec_read_bytes_list(before, (count - i) as nat, qids) == Err::<
                        (Seq<Seq<u8>>, Seq<u8>),
                        ProtocolError,
                    >(ProtocolError::InvalidQid));
                }
                return Err(ProtocolError::InvalidQid);
            }
            proof {
                lemma_read_bytes_list_step(
                    before,
                    (count - i) as nat,
                    qids,
                    bytes_contents(item),
                    self.remaining(),
                );
            }
            items.push(item);
            proof {
                let now = items@.map_values(|b: Bytes| bytes_contents(b));
                assert(now =~= done.push(bytes_contents(item)));
                match spec_read_bytes_list(self.remaining(), (count - i - 1) as nat, qids) {
                    Err(e) => {},
                    Ok((bs, r2)) => {
                        assert(done + (seq![bytes_contents(item)] + bs) =~= now + bs);
                    },
                }
            }
            i = i + 1;
        }
        proof {
            let done = items@.map_values(|b: Bytes| bytes_contents(b));
            assert(done + Seq::<Seq<u8>>::empty() =~= done);
        }
        Ok(items)
    }

    /// Reads a header that must be of kind `t`.
    pub fn read_header_of(&mut self, t: MessageType) -> (r: Result<MessageHeader, ProtocolError>)
        ensures
            match spec_read_header_of(old(self).remaining(), t) {
                Ok((h, rest)) => r == Ok::<MessageHeader, ProtocolError>(h)
                    && final(self).remaining() == rest,
                Err(e) => r == Err::<MessageHeader, ProtocolError>(e),
            },
    {
        let header = self.read_header()?;
        if header.message_type != t {
            return Err(ProtocolError::InvalidMessageType(header.message_type.code()));
        }
        Ok(header)
    }
}

} // verus!
