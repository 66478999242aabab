use muxio::dispatcher::{RpcDispatcher, RpcRequest};
use muxio::frame::{encode_frames, Frame, FrameDecodeError};
use muxio::ids::IdSpace;
use muxio::respondable::{RpcRespondableSession, Target};
use muxio::rpc_header::{RpcHeader, RpcMessageType};
use muxio::stream_decoder::RpcStreamEvent;

/// The time stamped on the frames these tests make.
const NOW: u64 = 1_700_000_000_000_000;

fn bytes_of(frames: &Vec<Frame>) -> Vec<u8> {
    encode_frames(frames).expect("frames encode")
}

#[test]
fn prebuffering_flags_cleared_on_end() {
    let mut client = RpcRespondableSession::new(IdSpace::Client);
    let mut server = RpcRespondableSession::new(IdSpace::Server);

    let mut server_inbox: Vec<Vec<u8>> = Vec::new();
    let mut client_inbox: Vec<Vec<u8>> = Vec::new();

    let call_header = RpcHeader {
        rpc_msg_type: RpcMessageType::Call,
        rpc_request_id: 1,
        rpc_method_id: 42,
        rpc_metadata_bytes: vec![],
    };

    // The server replies to each finished call with a single chunk and End.
    server.set_catch_all_response_handler();

    let (mut client_enc, opening) = client
        .init_respondable_request(&call_header, 1024, true, true, NOW)
        .expect("init");
    server_inbox.push(bytes_of(&opening));
    server_inbox.push(bytes_of(&client_enc.write_bytes(b"ping", NOW).unwrap()));
    server_inbox.push(bytes_of(&client_enc.flush(NOW).unwrap()));
    server_inbox.push(bytes_of(&client_enc.end_stream(NOW).unwrap()));

    let mut pending = Vec::new();
    for chunk in &server_inbox {
        for delivery in server.read_bytes(chunk).unwrap() {
            if delivery.target == Target::CatchAll {
                if let RpcStreamEvent::End { rpc_request_id, .. } = delivery.event {
                    pending.push(RpcHeader {
                        rpc_msg_type: RpcMessageType::Response,
                        rpc_request_id,
                        rpc_method_id: 42,
                        rpc_metadata_bytes: vec![],
                    });
                }
            }
        }
    }
    // The server has processed the call and queued a reply header.
    assert_eq!(client.prebuffering_flag_count(), 1);
    for reply_header in pending.drain(..) {
        let (mut enc, opening) = server
            .start_reply_stream(&reply_header, 1024, NOW)
            .expect("server reply");
        client_inbox.push(bytes_of(&opening));
        client_inbox.push(bytes_of(&enc.write_bytes(b"hello", NOW).unwrap()));
        client_inbox.push(bytes_of(&enc.flush(NOW).unwrap()));
        client_inbox.push(bytes_of(&enc.end_stream(NOW).unwrap()));
    }
    for chunk in &client_inbox {
        client.read_bytes(chunk).unwrap();
    }
    // After processing End, the prebuffering maps must be automatically cleared.
    assert!(
        client.prebuffering_flag_count() == 0,
        "prebuffering_flags should be cleared after End"
    );
    assert!(
        client.prebuffered_response_count() == 0,
        "prebuffered_responses should be cleared after End"
    );
    assert_eq!(client.get_remaining_response_handlers(), 0);
}

#[test]
fn prebuffering_flags_cleared_on_error() {
    let mut dispatcher = RpcDispatcher::new();
    let req = RpcRequest {
        rpc_method_id: 43,
        rpc_param_bytes: None,
        rpc_prebuffered_payload_bytes: None,
        is_finalized: false,
    };
    let _enc = dispatcher.call(req, 1024, true, true, 1, NOW).expect("init");
    assert_eq!(dispatcher.respondable_session().prebuffering_flag_count(), 1);
    dispatcher.fail_all_pending_requests(FrameDecodeError::Transport("test".to_string()));
    assert!(
        dispatcher.respondable_session().prebuffering_flag_count() == 0,
        "prebuffering_flags should be cleared after Error via fail_all"
    );
    assert!(
        dispatcher.respondable_session().prebuffered_response_count() == 0,
        "prebuffered_responses should be cleared after Error via fail_all"
    );
}

#[test]
fn prebuffered_handler_gets_one_whole_chunk() {
    let mut client = RpcRespondableSession::new(IdSpace::Client);
    let mut server = RpcRespondableSession::new(IdSpace::Server);
    let call = RpcHeader {
        rpc_msg_type: RpcMessageType::Call,
        rpc_request_id: 7,
        rpc_method_id: 9,
        rpc_metadata_bytes: vec![],
    };
    let (_enc, _frames) = client.init_respondable_request(&call, 4, true, true, NOW).unwrap();
    let reply = RpcHeader {
        rpc_msg_type: RpcMessageType::Response,
        rpc_request_id: 7,
        rpc_method_id: 9,
        rpc_metadata_bytes: vec![0],
    };
    let (mut enc, opening) = server.start_reply_stream(&reply, 4, NOW).unwrap();
    let mut wire = bytes_of(&opening);
    wire.extend(bytes_of(&enc.write_bytes(b"0123456789", NOW).unwrap()));
    wire.extend(bytes_of(&enc.end_stream(NOW).unwrap()));
    let deliveries = client.read_bytes(&wire).unwrap();
    let to_handler: Vec<&RpcStreamEvent> = deliveries
        .iter()
        .filter(|d| d.target == Target::Handler(7))
        .map(|d| &d.event)
        .collect();
    assert_eq!(to_handler.len(), 3);
    assert!(matches!(to_handler[0], RpcStreamEvent::Header { rpc_request_id: 7, .. }));
    match to_handler[1] {
        RpcStreamEvent::PayloadChunk { bytes, .. } => assert_eq!(bytes, &b"0123456789".to_vec()),
        other => panic!("expected the whole payload, got {:?}", other),
    }
    assert!(matches!(to_handler[2], RpcStreamEvent::End { rpc_request_id: 7, .. }));
    assert_eq!(client.get_remaining_response_handlers(), 0);
}

#[test]
fn unprebuffered_handler_gets_each_chunk_and_catch_all_nothing() {
    let mut client = RpcRespondableSession::new(IdSpace::Client);
    client.set_catch_all_response_handler();
    let mut server = RpcRespondableSession::new(IdSpace::Server);
    let call = RpcHeader {
        rpc_msg_type: RpcMessageType::Call,
        rpc_request_id: 5,
        rpc_method_id: 1,
        rpc_metadata_bytes: vec![],
    };
    let _ = client.init_respondable_request(&call, 4, true, false, NOW).unwrap();
    let reply = RpcHeader {
        rpc_msg_type: RpcMessageType::Response,
        rpc_request_id: 5,
        rpc_method_id: 1,
        rpc_metadata_bytes: vec![],
    };
    let (mut enc, opening) = server.start_reply_stream(&reply, 4, NOW).unwrap();
    let mut wire = bytes_of(&opening);
    wire.extend(bytes_of(&enc.write_bytes(b"abcdefgh", NOW).unwrap()));
    wire.extend(bytes_of(&enc.end_stream(NOW).unwrap()));
    let deliveries = client.read_bytes(&wire).unwrap();
    assert!(deliveries.iter().all(|d| d.target == Target::Handler(5)));
    // Header, two chunks of four bytes, End.
    assert_eq!(deliveries.len(), 4);
}

#[test]
fn terminal_event_forgets_request() {
    let mut client = RpcRespondableSession::new(IdSpace::Client);
    let mut server = RpcRespondableSession::new(IdSpace::Server);
    let call = RpcHeader {
        rpc_msg_type: RpcMessageType::Call,
        rpc_request_id: 3,
        rpc_method_id: 1,
        rpc_metadata_bytes: vec![],
    };
    let _ = client.init_respondable_request(&call, 16, true, false, NOW).unwrap();
    assert_eq!(client.get_remaining_response_handlers(), 1);
    assert_eq!(client.prebuffering_flag_count(), 1);
    let reply = RpcHeader {
        rpc_msg_type: RpcMessageType::Response,
        rpc_request_id: 3,
        rpc_method_id: 1,
        rpc_metadata_bytes: vec![],
    };
    let (mut enc, opening) = server.start_reply_stream(&reply, 16, NOW).unwrap();
    let mut wire = bytes_of(&opening);
    wire.extend(bytes_of(&enc.write_bytes(b"xy", NOW).unwrap()));
    wire.extend(bytes_of(&enc.cancel_stream(NOW).unwrap()));
    let deliveries = client.read_bytes(&wire).unwrap();
    assert!(deliveries.iter().any(|d| matches!(
        d.event,
        RpcStreamEvent::Error { frame_decode_error: FrameDecodeError::ReadAfterCancel, .. }
    )));
    assert_eq!(client.get_remaining_response_handlers(), 0);
    assert_eq!(client.prebuffering_flag_count(), 0);
    assert_eq!(client.prebuffered_response_count(), 0);
}

#[test]
fn routed_stream_method_gets_its_own_handler() {
    let mut server = RpcRespondableSession::new(IdSpace::Server);
    server.set_catch_all_response_handler();
    server.set_stream_method_router(vec![77]);
    let mut client = RpcRespondableSession::new(IdSpace::Client);
    let call = RpcHeader {
        rpc_msg_type: RpcMessageType::Call,
        rpc_request_id: 11,
        rpc_method_id: 77,
        rpc_metadata_bytes: vec![],
    };
    let (mut enc, opening) = client.start_reply_stream(&call, 8, NOW).unwrap();
    let mut wire = bytes_of(&opening);
    wire.extend(bytes_of(&enc.write_bytes(b"data", NOW).unwrap()));
    wire.extend(bytes_of(&enc.flush(NOW).unwrap()));
    let deliveries = server.read_bytes(&wire).unwrap();
    assert_eq!(deliveries.len(), 2);
    assert!(deliveries.iter().all(|d| d.target == Target::Handler(11)));
    assert_eq!(server.get_remaining_response_handlers(), 1);
}
