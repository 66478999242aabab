use muxio::frame::{encode_frames, FrameDecodeError, FrameEncodeError, FrameKind};
use muxio::ids::IdSpace;
use muxio::rpc_header::{encode_header, scan_header, HeaderScan, RpcHeader, RpcMessageType};
use muxio::session::RpcSession;
use muxio::stream_decoder::RpcStreamEvent;
use muxio::stream_encoder::{next_seq, RpcStreamEncoder};

/// The time stamped on the frames these tests make.
const NOW: u64 = 1_700_000_000_000_000;

fn header(id: u32, method: u64, meta: &[u8]) -> RpcHeader {
    RpcHeader {
        rpc_msg_type: RpcMessageType::Call,
        rpc_request_id: id,
        rpc_method_id: method,
        rpc_metadata_bytes: meta.to_vec(),
    }
}

#[test]
fn header_bytes_roundtrip() {
    let h = header(0x11223344, 0x0102030405060708, b"meta");
    let bytes = encode_header(&h).unwrap();
    assert_eq!(bytes.len(), 15 + 4);
    assert_eq!(bytes[0], 1);
    assert_eq!(&bytes[1..5], &[0x44, 0x33, 0x22, 0x11]);
    match scan_header(&bytes) {
        HeaderScan::Complete(back, n) => {
            assert_eq!(n, bytes.len());
            assert_eq!(back.rpc_request_id, h.rpc_request_id);
            assert_eq!(back.rpc_method_id, h.rpc_method_id);
            assert_eq!(back.rpc_metadata_bytes, h.rpc_metadata_bytes);
        }
        _ => panic!("header not read back"),
    }
    assert!(matches!(scan_header(&bytes[..10]), HeaderScan::NeedMore));
    let mut bad = bytes.clone();
    bad[0] = 9;
    assert!(matches!(scan_header(&bad), HeaderScan::Invalid));
}

#[test]
fn oversized_metadata_is_refused() {
    let h = header(1, 1, &vec![0u8; 70_000]);
    assert_eq!(encode_header(&h).unwrap_err(), FrameEncodeError::CorruptFrame);
    assert!(RpcStreamEncoder::new(1, 16, &h, NOW).is_err());
    assert!(RpcStreamEncoder::new(1, 0, &header(1, 1, b""), NOW).is_err());
}

#[test]
fn encoder_chunks_and_numbers_frames() {
    let (mut enc, open) = RpcStreamEncoder::new(9, 4, &header(1, 2, b""), NOW).unwrap();
    assert_eq!(open.len(), 1);
    assert_eq!(open[0].kind, FrameKind::Open);
    assert_eq!(open[0].seq_id, 0);
    let data = enc.write_bytes(b"0123456789", NOW).unwrap();
    assert_eq!(data.len(), 2);
    assert_eq!(data[0].payload, b"0123".to_vec());
    assert_eq!(data[1].payload, b"4567".to_vec());
    assert_eq!(data[1].seq_id, 2);
    let end = enc.end_stream(NOW).unwrap();
    assert_eq!(end.len(), 2);
    assert_eq!(end[0].payload, b"89".to_vec());
    assert_eq!(end[1].kind, FrameKind::End);
    assert_eq!(end[1].seq_id, 4);
    assert_eq!(enc.write_bytes(b"x", NOW).unwrap_err(), FrameEncodeError::WriteAfterEnd);
    assert_eq!(enc.flush(NOW).unwrap_err(), FrameEncodeError::WriteAfterEnd);
}

#[test]
fn cancelled_stream_refuses_writes() {
    let (mut enc, _) = RpcStreamEncoder::new(9, 4, &header(1, 2, b""), NOW).unwrap();
    enc.write_bytes(b"ab", NOW).unwrap();
    let c = enc.cancel_stream(NOW).unwrap();
    assert_eq!(c.len(), 1);
    assert_eq!(c[0].kind, FrameKind::Cancel);
    assert!(c[0].payload.is_empty());
    assert_eq!(enc.write_bytes(b"x", NOW).unwrap_err(), FrameEncodeError::WriteAfterCancel);
    assert_eq!(enc.cancel_stream(NOW).unwrap_err(), FrameEncodeError::WriteAfterCancel);
}

#[test]
fn sequence_numbers_wrap() {
    assert_eq!(next_seq(u32::MAX), 0);
    assert_eq!(next_seq(41), 42);
}

#[test]
fn stream_written_is_stream_read() {
    let mut writer = RpcSession::new(IdSpace::Client);
    let mut reader = RpcSession::new(IdSpace::Server);
    let h = header(5, 6, b"p");
    let (mut enc, open) = writer.init_request(&h, 3, NOW).unwrap();
    assert_eq!(enc.stream_id(), IdSpace::Client.place(1));
    let mut frames = open;
    frames.extend(enc.write_bytes(b"abcdefg", NOW).unwrap());
    frames.extend(enc.end_stream(NOW).unwrap());
    let wire = encode_frames(&frames).unwrap();
    let events = reader.read_bytes(&wire).unwrap();
    assert!(matches!(events[0], RpcStreamEvent::Header { rpc_request_id: 5, rpc_method_id: 6, .. }));
    let mut body = Vec::new();
    for e in &events {
        if let RpcStreamEvent::PayloadChunk { bytes, .. } = e {
            body.extend_from_slice(bytes);
        }
    }
    assert_eq!(body, b"abcdefg".to_vec());
    assert!(matches!(events.last().unwrap(), RpcStreamEvent::End { rpc_request_id: 5, .. }));
}

#[test]
fn interleaved_streams_are_reassembled_apart() {
    let mut writer = RpcSession::new(IdSpace::Client);
    let mut reader = RpcSession::new(IdSpace::Server);
    let (mut a, open_a) = writer.init_request(&header(1, 10, b""), 2, NOW).unwrap();
    let (mut b, open_b) = writer.init_request(&header(2, 20, b""), 2, NOW).unwrap();
    assert_ne!(a.stream_id(), b.stream_id());
    let mut frames = open_a;
    frames.extend(open_b);
    frames.extend(a.write_bytes(b"AA", NOW).unwrap());
    frames.extend(b.write_bytes(b"BB", NOW).unwrap());
    frames.extend(a.write_bytes(b"aa", NOW).unwrap());
    frames.extend(b.end_stream(NOW).unwrap());
    frames.extend(a.end_stream(NOW).unwrap());
    let events = reader.read_bytes(&encode_frames(&frames).unwrap()).unwrap();
    let mut body_a = Vec::new();
    let mut body_b = Vec::new();
    for e in &events {
        if let RpcStreamEvent::PayloadChunk { rpc_request_id, bytes, .. } = e {
            if *rpc_request_id == 1 {
                body_a.extend_from_slice(bytes);
            } else {
                body_b.extend_from_slice(bytes);
            }
        }
    }
    assert_eq!(body_a, b"AAaa".to_vec());
    assert_eq!(body_b, b"BB".to_vec());
    assert_eq!(events.len(), 2 + 3 + 2);
}

#[test]
fn incomplete_header_and_cancel_give_errors() {
    let mut reader = RpcSession::new(IdSpace::Server);
    let mut writer = RpcSession::new(IdSpace::Client);
    // A stream whose header is cut short by its end.
    let (mut enc, open) = writer.init_request(&header(1, 1, b""), 8, NOW).unwrap();
    let mut cut = open;
    cut[0].payload.truncate(5);
    cut.extend(enc.end_stream(NOW).unwrap());
    let events = reader.read_bytes(&encode_frames(&cut).unwrap()).unwrap();
    assert_eq!(events.len(), 1);
    assert!(matches!(
        events[0],
        RpcStreamEvent::Error { frame_decode_error: FrameDecodeError::IncompleteHeader, rpc_request_id: None, .. }
    ));
    // A cancelled stream.
    let (mut enc, open) = writer.init_request(&header(2, 1, b""), 8, NOW).unwrap();
    let mut frames = open;
    frames.extend(enc.cancel_stream(NOW).unwrap());
    let events = reader.read_bytes(&encode_frames(&frames).unwrap()).unwrap();
    assert_eq!(events.len(), 2);
    assert!(matches!(
        events[1],
        RpcStreamEvent::Error { frame_decode_error: FrameDecodeError::ReadAfterCancel, rpc_request_id: Some(2), .. }
    ));
}

#[test]
fn session_ids_live_in_their_space() {
    let mut server = RpcSession::new(IdSpace::Server);
    let first = server.allocate_id();
    let second = server.allocate_id();
    assert_eq!(first, 0x8000_0001);
    assert_eq!(second, 0x8000_0002);
}

#[test]
fn encoder_sends_every_written_byte_once() {
    let (mut enc, _) = RpcStreamEncoder::new(3, 5, &header(1, 1, b""), NOW).unwrap();
    let mut sent = Vec::new();
    let writes: [&[u8]; 4] = [b"ab", b"cdefgh", b"", b"ijklmnopqrs"];
    for w in writes.iter() {
        for f in enc.write_bytes(w, NOW).unwrap() {
            assert_eq!(f.payload.len(), 5);
            sent.extend(f.payload);
        }
    }
    for f in enc.end_stream(NOW).unwrap() {
        sent.extend(f.payload);
    }
    assert_eq!(sent, b"abcdefghijklmnopqrs".to_vec());
}
