use bytes::Bytes;
use taos::ipc::channel::{
    batch_outcome, check_send, empty_error, pending_step, recv_empty_step, spin_iterations,
    wakes_receivers, PendingStep, RecvError, SendError,
};
use taos::ipc::error::ProtocolError;
use taos::ipc::messages::{MessageType, MAX_MESSAGE_SIZE};
use taos::ipc::requests::{Tclunk, Tflush, Topen, Tread, Tversion, Twalk, Twrite};
use taos::ipc::responses::{Rerror, Rflush, Rread, Rversion, Rwalk, Rwrite};
use taos::ipc::serialization::{MessageReader, MessageWriter};

#[test]
fn tversion_roundtrip() {
    let msg = Tversion::new(7, 8192, Bytes::from_static(b"9P2000")).unwrap();
    let wire = msg.serialize().unwrap();
    // size[4] type[1] tag[2] msize[4] len[2] "9P2000"[6]
    assert_eq!(wire.len(), 4 + 1 + 2 + 4 + 2 + 6);
    assert_eq!(&wire[0..4], &(19u32).to_le_bytes());
    assert_eq!(wire[4], 100);
    assert_eq!(&wire[5..7], &7u16.to_le_bytes());
    let back = Tversion::deserialize(wire).unwrap();
    assert_eq!(back.header.tag, 7);
    assert_eq!(back.header.size, 19);
    assert_eq!(back.header.message_type, MessageType::Tversion);
    assert_eq!(back.msize, 8192);
    assert_eq!(back.version, Bytes::from_static(b"9P2000"));
}

#[test]
fn tversion_rejects_large_msize() {
    assert!(matches!(
        Tversion::new(1, MAX_MESSAGE_SIZE + 1, Bytes::from_static(b"9P2000")),
        Err(ProtocolError::ExceedsMaxSize)
    ));
}

#[test]
fn tversion_rejects_long_version() {
    let long = Bytes::from(vec![b'a'; 70000]);
    assert!(matches!(Tversion::new(1, 100, long), Err(ProtocolError::VersionTooLong)));
}

#[test]
fn tflush_roundtrip() {
    let msg = Tflush::new(3, 9).unwrap();
    let wire = msg.serialize().unwrap();
    assert_eq!(wire.len(), 9);
    let back = Tflush::deserialize(wire).unwrap();
    assert_eq!(back.header.tag, 3);
    assert_eq!(back.oldtag, 9);
}

#[test]
fn topen_tclunk_tread_roundtrip() {
    let o = Topen::deserialize(Topen::new(1, 42, 2).unwrap().serialize().unwrap()).unwrap();
    assert_eq!((o.header.tag, o.fid, o.mode), (1, 42, 2));
    let c = Tclunk::deserialize(Tclunk::new(2, 5).unwrap().serialize().unwrap()).unwrap();
    assert_eq!((c.header.tag, c.fid), (2, 5));
    let r = Tread::deserialize(Tread::new(4, 6, 1 << 40, 512).unwrap().serialize().unwrap()).unwrap();
    assert_eq!((r.header.tag, r.fid, r.offset, r.count), (4, 6, 1 << 40, 512));
}

#[test]
fn twalk_roundtrip() {
    let names = vec![Bytes::from_static(b"usr"), Bytes::from_static(b"bin")];
    let msg = Twalk::new(11, 1, 2, names).unwrap();
    let back = Twalk::deserialize(msg.serialize().unwrap()).unwrap();
    assert_eq!(back.fid, 1);
    assert_eq!(back.newfid, 2);
    assert_eq!(back.wnames.len(), 2);
    assert_eq!(back.wnames[0], Bytes::from_static(b"usr"));
    assert_eq!(back.wnames[1], Bytes::from_static(b"bin"));
}

#[test]
fn twrite_roundtrip() {
    let data = Bytes::from_static(b"hello world");
    let msg = Twrite::new(2, 3, 100, data.clone()).unwrap();
    let back = Twrite::deserialize(msg.serialize().unwrap()).unwrap();
    assert_eq!(back.offset, 100);
    assert_eq!(back.count, 11);
    assert_eq!(back.data, data);
}

#[test]
fn responses_roundtrip() {
    let v = Rversion::deserialize(
        Rversion::new(1, 4096, Bytes::from_static(b"9P2000")).unwrap().serialize().unwrap(),
    )
    .unwrap();
    assert_eq!(v.msize, 4096);
    assert_eq!(v.version, Bytes::from_static(b"9P2000"));
    let f = Rflush::deserialize(Rflush::new(8).unwrap().serialize().unwrap()).unwrap();
    assert_eq!(f.header.tag, 8);
    let w = Rwrite::deserialize(Rwrite::new(9, 77).unwrap().serialize().unwrap()).unwrap();
    assert_eq!(w.count, 77);
    let r = Rread::deserialize(Rread::new(10, Bytes::from_static(b"abc")).unwrap().serialize().unwrap())
        .unwrap();
    assert_eq!(r.data, Bytes::from_static(b"abc"));
    let e = Rerror::deserialize(Rerror::new(12, Bytes::from_static(b"no such file")).unwrap().serialize().unwrap())
        .unwrap();
    assert_eq!(e.ename, Bytes::from_static(b"no such file"));
}

#[test]
fn rwalk_roundtrip() {
    let qid = Bytes::from(vec![1u8; 13]);
    let msg = Rwalk::new(5, vec![qid.clone(), qid.clone()]).unwrap();
    let back = Rwalk::deserialize(msg.serialize().unwrap()).unwrap();
    assert_eq!(back.wqid.len(), 2);
    assert_eq!(back.wqid[1], qid);
}

#[test]
fn rwalk_rejects_bad_qid() {
    let bad = Bytes::from(vec![1u8; 12]);
    assert!(matches!(Rwalk::new(5, vec![bad]), Err(ProtocolError::InvalidQid)));
}

#[test]
fn deserialize_wrong_type() {
    let wire = Tflush::new(3, 9).unwrap().serialize().unwrap();
    assert!(matches!(Tclunk::deserialize(wire), Err(ProtocolError::InvalidMessageType(108))));
}

#[test]
fn deserialize_short_buffer() {
    assert!(matches!(Tflush::deserialize(Bytes::from_static(b"\x09\x00")), Err(ProtocolError::BufferTooSmall)));
}

#[test]
fn writer_reader_primitives() {
    let mut w = MessageWriter::new();
    w.put_header(MessageType::Tstat, 4).unwrap();
    w.put_u8(1).unwrap();
    w.put_u16(0x0203).unwrap();
    w.put_u32(0x0405_0607).unwrap();
    w.put_u64(0x0809_0a0b_0c0d_0e0f).unwrap();
    w.put_bytes(&Bytes::from_static(b"xy")).unwrap();
    let frame = w.finish().unwrap();
    assert_eq!(frame.len(), 7 + 1 + 2 + 4 + 8 + 4);
    let mut r = MessageReader::new(frame);
    let h = r.read_header().unwrap();
    assert_eq!(h.size, 26);
    assert_eq!(h.message_type, MessageType::Tstat);
    assert_eq!(h.tag, 4);
    assert_eq!(r.read_u8().unwrap(), 1);
    assert_eq!(r.read_u16().unwrap(), 0x0203);
    assert_eq!(r.read_u32().unwrap(), 0x0405_0607);
    assert_eq!(r.read_u64().unwrap(), 0x0809_0a0b_0c0d_0e0f);
    assert_eq!(r.read_bytes().unwrap(), Bytes::from_static(b"xy"));
    assert!(matches!(r.read_u8(), Err(ProtocolError::BufferTooSmall)));
}

#[test]
fn message_type_codes() {
    assert_eq!(MessageType::Tversion.code(), 100);
    assert_eq!(MessageType::Rwstat.code(), 127);
    assert_eq!(MessageType::try_from_code(120).unwrap(), MessageType::Tclunk);
    assert_eq!(MessageType::try_from_code(118).unwrap(), MessageType::Twrite);
    assert!(matches!(MessageType::try_from_code(99), Err(ProtocolError::InvalidMessageType(99))));
}

#[test]
fn channel_decisions() {
    assert!(matches!(check_send(true, 5), Err(SendError::Closed(5))));
    assert!(matches!(check_send(false, 5), Ok(5)));
    assert!(wakes_receivers(1));
    assert!(!wakes_receivers(2));
    assert_eq!(empty_error(true), RecvError::Closed);
    assert_eq!(empty_error(false), RecvError::Empty);
    assert_eq!(batch_outcome(32, false), Ok(32));
    assert_eq!(batch_outcome(0, true), Err(RecvError::Closed));
    assert_eq!(batch_outcome(0, false), Err(RecvError::Empty));
    assert_eq!(spin_iterations(3), 1);
    assert_eq!(spin_iterations(15), 15);
    assert_eq!(spin_iterations(25), 100);
    assert_eq!(pending_step(0), PendingStep::Spin(1));
    assert_eq!(pending_step(30), PendingStep::Register);
    assert_eq!(recv_empty_step(true, 0), Err(RecvError::Closed));
    assert_eq!(recv_empty_step(false, 29), Ok(PendingStep::Spin(30)));
}
