use muxio::caller::{RpcCallerError, RpcErrorCode, RpcErrorPayload, TransportErrorKind};
use muxio::channel::{
    close_channel_writer, open_channel, write_channel_chunk, ChannelAction, ChannelReceiver,
};
use muxio::dispatcher::RpcDispatcher;
use muxio::endpoint::RpcServiceEndpointHandlerError;
use muxio::frame::{encode_frames, FrameDecodeError, FrameEncodeError, FrameKind};
use muxio::ids::IdSpace;
use muxio::rpc_header::{RpcHeader, RpcMessageType};
use muxio::stream_decoder::RpcStreamEvent;
use muxio::testing::{
    assert_method_not_found_error, assert_rpc_error, contains_text, is_method_not_found, rpc_error_matches,
};

/// The time stamped on the frames these tests make.
const NOW: u64 = 1_700_000_000_000_000;

fn h() -> RpcHeader {
    RpcHeader { rpc_msg_type: RpcMessageType::Response, rpc_request_id: 1, rpc_method_id: 2, rpc_metadata_bytes: vec![] }
}

#[test]
fn channel_refused_when_disconnected() {
    let mut d = RpcDispatcher::new();
    match open_channel(&mut d, 5, false, 1, NOW) {
        Err(RpcCallerError::Transport(kind, m)) => {
            assert_eq!(kind, TransportErrorKind::ConnectionAborted);
            assert_eq!(m, "RPC call attempted on a disconnected client.");
        }
        _ => panic!("expected a transport error"),
    }
}

#[test]
fn channel_writes_reach_the_peer() {
    let mut client = RpcDispatcher::new();
    let mut server = RpcDispatcher::with_id_space(IdSpace::Server);
    let (id, mut enc, opening, _reader) = open_channel(&mut client, 5, true, 1, NOW).unwrap();
    assert_eq!(opening.len(), 1);
    assert_eq!(opening[0].kind, FrameKind::Open);
    let mut frames = opening;
    frames.extend(write_channel_chunk(&mut enc, b"key", NOW).unwrap());
    frames.extend(write_channel_chunk(&mut enc, b"strokes", NOW).unwrap());
    frames.extend(enc.end_stream(NOW).unwrap());
    let (ids, _) = server.read_bytes(&encode_frames(&frames).unwrap()).unwrap();
    assert_eq!(ids, vec![id]);
    let req = server.delete_rpc_request(id).unwrap();
    assert_eq!(req.rpc_method_id, 5);
    assert_eq!(req.rpc_prebuffered_payload_bytes, Some(b"keystrokes".to_vec()));
    assert_eq!(write_channel_chunk(&mut enc, b"x", NOW).unwrap_err(), FrameEncodeError::WriteAfterEnd);
}

#[test]
fn closing_the_writer_ends_the_request() {
    let mut client = RpcDispatcher::new();
    let mut server = RpcDispatcher::with_id_space(IdSpace::Server);
    let (id, mut enc, opening, _reader) = open_channel(&mut client, 7, true, 1, NOW).unwrap();
    let mut frames = opening;
    frames.extend(write_channel_chunk(&mut enc, b"abc", NOW).unwrap());
    let closing = close_channel_writer(&mut enc, NOW);
    assert_eq!(closing.len(), 1);
    assert_eq!(closing[0].kind, FrameKind::End);
    frames.extend(closing);
    let (ids, _) = server.read_bytes(&encode_frames(&frames).unwrap()).unwrap();
    assert_eq!(ids, vec![id]);
    let req = server.delete_rpc_request(id).unwrap();
    assert!(req.is_finalized);
    assert_eq!(req.rpc_prebuffered_payload_bytes, Some(b"abc".to_vec()));
    assert!(close_channel_writer(&mut enc, NOW).is_empty());
    assert_eq!(write_channel_chunk(&mut enc, b"x", NOW).unwrap_err(), FrameEncodeError::WriteAfterEnd);
}

#[test]
fn channel_reader_passes_chunks_until_end() {
    let mut r = ChannelReceiver::new();
    assert!(r.on_event(RpcStreamEvent::Header { rpc_request_id: 1, rpc_method_id: 2, rpc_header: h() }).is_none());
    match r.on_event(RpcStreamEvent::PayloadChunk { rpc_request_id: 1, rpc_method_id: 2, bytes: b"out".to_vec(), rpc_header: h() }) {
        Some(ChannelAction::Deliver(b)) => assert_eq!(b, b"out".to_vec()),
        other => panic!("unexpected {:?}", other),
    }
    assert!(matches!(
        r.on_event(RpcStreamEvent::Error { rpc_header: None, rpc_request_id: Some(1), rpc_method_id: None, frame_decode_error: FrameDecodeError::ReadAfterCancel }),
        Some(ChannelAction::Close)
    ));
    assert!(r.on_event(RpcStreamEvent::PayloadChunk { rpc_request_id: 1, rpc_method_id: 2, bytes: b"late".to_vec(), rpc_header: h() }).is_none());
}

#[test]
fn error_assertions() {
    let not_found: Result<Vec<u8>, RpcCallerError> =
        Err(RpcCallerError::Rpc(RpcErrorPayload { code: RpcErrorCode::NotFound, message: "no such method".to_string() }));
    assert_method_not_found_error(&not_found);
    assert_rpc_error(&not_found, RpcErrorCode::NotFound, "such");
    assert!(is_method_not_found(&not_found));
    assert!(rpc_error_matches(&not_found, RpcErrorCode::NotFound, "such"));
    assert!(!rpc_error_matches(&not_found, RpcErrorCode::Fail, "such"));
    assert!(!rpc_error_matches(&not_found, RpcErrorCode::NotFound, "method no"));
    assert!(!is_method_not_found(&Ok(vec![])));
    assert!(contains_text("abc", ""));
    assert!(contains_text("héllo wörld", "wö"));
    assert!(!contains_text("ab", "abc"));
}

#[test]
fn handler_error_text() {
    let e = RpcServiceEndpointHandlerError::fail("bad input".to_string());
    assert_eq!(e.0.code, RpcErrorCode::Fail);
    assert_eq!(e.to_string(), "Handler failed with code Fail: bad input");
}
