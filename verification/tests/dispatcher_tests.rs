use muxio::dispatcher::{RpcDispatcher, RpcRequest, RpcResponse};
use muxio::frame::{encode_frames, Frame, FrameDecodeError, FrameEncodeError};
use muxio::ids::IdSpace;
use muxio::respondable::Target;
use muxio::stream_decoder::RpcStreamEvent;

/// The time stamped on the frames these tests make.
const NOW: u64 = 1_700_000_000_000_000;

fn wire(frames: &Vec<Frame>) -> Vec<u8> {
    encode_frames(frames).unwrap()
}

#[test]
fn finalized_call_is_queued_by_peer() {
    let mut client = RpcDispatcher::new();
    let mut server = RpcDispatcher::with_id_space(IdSpace::Server);
    let req = RpcRequest {
        rpc_method_id: 42,
        rpc_param_bytes: Some(b"params".to_vec()),
        rpc_prebuffered_payload_bytes: Some(b"payload bytes".to_vec()),
        is_finalized: true,
    };
    let (id, _enc, frames) = client.call(req, 4, true, false, 1, NOW).unwrap();
    assert_eq!(id, 1);
    let (ids, handler_events) = server.read_bytes(&wire(&frames)).unwrap();
    assert_eq!(ids, vec![1]);
    assert!(handler_events.is_empty());
    assert_eq!(server.is_rpc_request_finalized(1), Some(true));
    assert!(server.get_rpc_request(1).is_some());
    assert!(server.get_rpc_request(2).is_none());
    let got = server.delete_rpc_request(1).unwrap();
    assert_eq!(got.rpc_method_id, 42);
    assert_eq!(got.rpc_param_bytes, Some(b"params".to_vec()));
    assert_eq!(got.rpc_prebuffered_payload_bytes, Some(b"payload bytes".to_vec()));
    assert!(got.is_finalized);
    assert!(server.delete_rpc_request(1).is_none());
    assert_eq!(server.is_rpc_request_finalized(1), None);
}

#[test]
fn unfinished_call_is_queued_unfinalized() {
    let mut client = RpcDispatcher::new();
    let mut server = RpcDispatcher::with_id_space(IdSpace::Server);
    let req = RpcRequest {
        rpc_method_id: 1,
        rpc_param_bytes: None,
        rpc_prebuffered_payload_bytes: None,
        is_finalized: false,
    };
    let (id, mut enc, frames) = client.call(req, 64, false, false, 1, NOW).unwrap();
    server.read_bytes(&wire(&frames)).unwrap();
    assert_eq!(server.is_rpc_request_finalized(id), Some(false));
    let more = enc.write_bytes(b"late", NOW).unwrap();
    server.read_bytes(&wire(&more)).unwrap();
    let mut rest = enc.flush(NOW).unwrap();
    rest.extend(enc.end_stream(NOW).unwrap());
    server.read_bytes(&wire(&rest)).unwrap();
    let got = server.delete_rpc_request(id).unwrap();
    assert_eq!(got.rpc_param_bytes, None);
    assert_eq!(got.rpc_prebuffered_payload_bytes, Some(b"late".to_vec()));
    assert!(got.is_finalized);
}

#[test]
fn response_reaches_the_call_handler() {
    let mut client = RpcDispatcher::new();
    let mut server = RpcDispatcher::with_id_space(IdSpace::Server);
    let req = RpcRequest {
        rpc_method_id: 3,
        rpc_param_bytes: Some(vec![1, 2]),
        rpc_prebuffered_payload_bytes: None,
        is_finalized: true,
    };
    let (id, _enc, frames) = client.call(req, 1024, true, true, 1, NOW).unwrap();
    server.read_bytes(&wire(&frames)).unwrap();
    let request = server.delete_rpc_request(id).unwrap();
    let resp = RpcResponse {
        rpc_request_id: id,
        rpc_method_id: request.rpc_method_id,
        rpc_result_status: Some(0),
        rpc_prebuffered_payload_bytes: Some(b"answer".to_vec()),
        is_finalized: true,
    };
    let (_enc, frames) = server.respond(resp, 2, NOW).unwrap();
    let (queued, events) = client.read_bytes(&wire(&frames)).unwrap();
    // A prebuffered response is not taken by its handler alone: the
    // catch-all sees it too, and queues it.
    assert_eq!(queued, vec![id]);
    assert!(events.iter().all(|d| d.target == Target::Handler(id)));
    assert_eq!(events.len(), 3);
    match &events[1].event {
        RpcStreamEvent::PayloadChunk { bytes, .. } => assert_eq!(bytes, &b"answer".to_vec()),
        other => panic!("unexpected {:?}", other),
    }
    assert_eq!(client.respondable_session().get_remaining_response_handlers(), 0);
}

#[test]
fn fail_all_tells_each_handler_once() {
    let mut d = RpcDispatcher::new();
    let mut ids = Vec::new();
    for m in 0..3u64 {
        let req = RpcRequest {
            rpc_method_id: m,
            rpc_param_bytes: None,
            rpc_prebuffered_payload_bytes: None,
            is_finalized: true,
        };
        let (id, _, _) = d.call(req, 16, true, false, m as u32 + 1, NOW).unwrap();
        ids.push(id);
    }
    let deliveries = d.fail_all_pending_requests(FrameDecodeError::Transport("gone".to_string()));
    assert_eq!(deliveries.len(), 3);
    let mut seen: Vec<u32> = deliveries
        .iter()
        .map(|dl| match (&dl.target, &dl.event) {
            (
                Target::Handler(t),
                RpcStreamEvent::Error { rpc_request_id: Some(r), frame_decode_error, rpc_header: None, rpc_method_id: None },
            ) => {
                assert_eq!(t, r);
                assert_eq!(frame_decode_error, &FrameDecodeError::Transport("gone".to_string()));
                *r
            }
            other => panic!("unexpected {:?}", other),
        })
        .collect();
    seen.sort();
    assert_eq!(seen, ids);
    assert_eq!(d.respondable_session().get_remaining_response_handlers(), 0);
    assert!(d.fail_all_pending_requests(FrameDecodeError::CorruptFrame).is_empty());
}

#[test]
fn refused_call_and_bad_chunk_size() {
    let mut d = RpcDispatcher::new();
    let req = RpcRequest {
        rpc_method_id: 1,
        rpc_param_bytes: Some(vec![0; 70_000]),
        rpc_prebuffered_payload_bytes: None,
        is_finalized: true,
    };
    assert_eq!(d.call(req, 16, false, false, 1, NOW).unwrap_err(), FrameEncodeError::CorruptFrame);
    let resp = RpcResponse {
        rpc_request_id: 1,
        rpc_method_id: 1,
        rpc_result_status: None,
        rpc_prebuffered_payload_bytes: None,
        is_finalized: true,
    };
    assert_eq!(d.respond(resp, 0, NOW).unwrap_err(), FrameEncodeError::CorruptFrame);
}

#[test]
fn response_writer_streams_chunks() {
    let mut server = RpcDispatcher::with_id_space(IdSpace::Server);
    let mut client = RpcDispatcher::new();
    let (mut writer, opening) = server.create_response_writer(9, 4, NOW).unwrap();
    let mut frames = opening;
    frames.extend(writer.write(b"abcdef", false, NOW));
    frames.extend(writer.write(b"g", true, NOW));
    assert!(writer.write(b"late", true, NOW).is_empty());
    let (queued, _) = client.read_bytes(&wire(&frames)).unwrap();
    assert_eq!(queued, vec![9]);
    let req = client.delete_rpc_request(9).unwrap();
    assert_eq!(req.rpc_method_id, 0);
    assert_eq!(req.rpc_param_bytes, Some(vec![0]));
    assert_eq!(req.rpc_prebuffered_payload_bytes, Some(b"abcdefg".to_vec()));
    assert!(req.is_finalized);
}

#[test]
fn corrupt_bytes_are_refused() {
    let mut d = RpcDispatcher::new();
    let mut bytes = vec![0u8; 21];
    bytes[12] = 200;
    assert_eq!(d.read_bytes(&bytes).unwrap_err(), FrameDecodeError::CorruptFrame);
}

#[test]
fn reads_are_indifferent_to_cuts() {
    let mut client = RpcDispatcher::new();
    let req = RpcRequest {
        rpc_method_id: 8,
        rpc_param_bytes: Some(b"p".to_vec()),
        rpc_prebuffered_payload_bytes: Some(b"0123456789".to_vec()),
        is_finalized: true,
    };
    let (id, _enc, frames) = client.call(req, 3, false, false, 1, NOW).unwrap();
    let bytes = wire(&frames);
    for cut in 0..=bytes.len() {
        let mut server = RpcDispatcher::with_id_space(IdSpace::Server);
        let (ids1, ds1) = server.read_bytes(&bytes[..cut]).unwrap();
        let (ids2, ds2) = server.read_bytes(&bytes[cut..]).unwrap();
        assert!(ds1.is_empty() && ds2.is_empty());
        assert!(ids1.is_empty() || ids1 == vec![id]);
        assert_eq!(ids2, vec![id]);
        let got = server.delete_rpc_request(id).unwrap();
        assert_eq!(got.rpc_prebuffered_payload_bytes, Some(b"0123456789".to_vec()));
        assert!(got.is_finalized);
    }
}

#[test]
fn defaults_are_client_side_and_empty() {
    let mut d = RpcDispatcher::default();
    let req = RpcRequest { rpc_method_id: 1, rpc_param_bytes: None, rpc_prebuffered_payload_bytes: None, is_finalized: true };
    let (id, _, _) = d.call(req, 8, false, false, 1, NOW).unwrap();
    assert_eq!(id, IdSpace::Client.place(1));
    let s = muxio::respondable::RpcRespondableSession::default();
    assert_eq!(s.get_remaining_response_handlers(), 0);
    assert_eq!(s.id_space(), IdSpace::Client);
    let e = muxio::endpoint::RpcServiceEndpoint::default();
    assert!(!e.has_prebuffered_handler(1));
}

#[test]
fn request_ids_come_from_the_given_counter() {
    let mut client = RpcDispatcher::new();
    let mut server = RpcDispatcher::with_id_space(IdSpace::Server);
    let req = || RpcRequest { rpc_method_id: 3, rpc_param_bytes: None, rpc_prebuffered_payload_bytes: None, is_finalized: true };
    let (a, _, _) = client.call(req(), 16, false, false, 41, NOW).unwrap();
    let (b, _, _) = server.call(req(), 16, false, false, 42, NOW).unwrap();
    let (c, _, _) = client.call(req(), 16, false, false, 0x8000_0043, NOW).unwrap();
    assert_eq!(a, 41);
    assert_eq!(b, 0x8000_002a);
    assert_eq!(c, 0x43);
}
