use muxio::caller::{
    collect_buffered, final_error, start_streaming_call, ReceiverAction, ResponseStream,
    RpcCallerError, RpcErrorCode, RpcErrorPayload, RpcTransportState, TransportErrorKind,
};
use muxio::dispatcher::{RpcDispatcher, RpcRequest};
use muxio::endpoint::{
    decimal, handler_args, process_single_prebuffered_request, send_responses,
    take_finalized_requests, HandlerOutcome, PendingResponse, RpcServiceEndpoint,
    RpcServiceEndpointError, StreamResponder,
};
use muxio::frame::{encode_frames, FrameDecodeError, FrameEncodeError};
use muxio::ids::IdSpace;
use muxio::rpc_header::{RpcHeader, RpcMessageType};
use muxio::service::{
    prebuffered_request, rpc_method_id, Add, Echo, Mult, RpcResultStatus,
    DEFAULT_SERVICE_MAX_CHUNK_SIZE,
};
use muxio::stream_decoder::RpcStreamEvent;
use muxio::testing::{
    assert_rpc_success, assert_state_change_handler_called, rpc_success_matches, state_changes_match,
    temp_socket_name,
};

/// The time stamped on the frames these tests make.
const NOW: u64 = 1_700_000_000_000_000;

#[test]
fn all_known_method_ids_are_unique() {
    let mut seen = std::collections::HashSet::new();
    let test_ids = vec![
        rpc_method_id("streaming.capture"),
        rpc_method_id("__test.error"),
        rpc_method_id("__test.unregistered.method"),
        Add::method_id(),
        Mult::method_id(),
        Echo::method_id(),
    ];
    for id in test_ids {
        assert!(
            seen.insert(id),
            "Duplicate method ID detected: {}. All method IDs must be unique.",
            id
        );
    }
}

#[test]
fn method_ids_are_the_name_hashes() {
    assert_eq!(Add::method_id(), rpc_method_id("math.add"));
    assert_eq!(rpc_method_id("echo"), rpc_method_id("echo"));
    assert_ne!(rpc_method_id("echo"), rpc_method_id("echo "));
    // The empty input hashes to XXH3's published value for seed 0.
    assert_eq!(rpc_method_id(""), 0x2d06800538d394c2);
}

#[test]
fn result_status_bytes() {
    assert_eq!(RpcResultStatus::Success.code(), 0);
    assert_eq!(RpcResultStatus::Fail.code(), 1);
    assert_eq!(RpcResultStatus::SystemError.code(), 2);
    assert_eq!(RpcResultStatus::MethodNotFound.code(), 3);
    assert_eq!(RpcResultStatus::try_from_u8(2), Ok(RpcResultStatus::SystemError));
    assert!(RpcResultStatus::try_from_u8(4).is_err());
}

#[test]
fn small_args_are_params_large_are_payload() {
    let small = prebuffered_request(7, vec![1; 10]);
    assert_eq!(small.rpc_param_bytes, Some(vec![1; 10]));
    assert_eq!(small.rpc_prebuffered_payload_bytes, None);
    assert!(small.is_finalized);
    let large = prebuffered_request(7, vec![2; DEFAULT_SERVICE_MAX_CHUNK_SIZE]);
    assert_eq!(large.rpc_param_bytes, None);
    assert_eq!(large.rpc_prebuffered_payload_bytes.as_ref().map(|p| p.len()), Some(65536));
    assert_eq!(handler_args(&small), vec![1; 10]);
    assert_eq!(handler_args(&large).len(), 65536);
}

#[test]
fn echo_codec_is_identity() {
    assert_eq!(Echo::encode_request(b"abc".to_vec()), b"abc".to_vec());
    assert_eq!(Echo::decode_request(b"abc"), b"abc".to_vec());
    assert_eq!(Echo::encode_response(vec![9]), vec![9]);
    assert_eq!(Echo::decode_response(&[9]), vec![9]);
}

#[test]
fn handler_outcomes_become_responses() {
    let req = RpcRequest {
        rpc_method_id: 5,
        rpc_param_bytes: Some(b"p".to_vec()),
        rpc_prebuffered_payload_bytes: None,
        is_finalized: true,
    };
    let ok = process_single_prebuffered_request(1, &req, Some(HandlerOutcome::Success(b"r".to_vec())));
    assert_eq!((ok.rpc_request_id, ok.rpc_method_id, ok.rpc_result_status), (1, 5, Some(0)));
    assert_eq!(ok.rpc_prebuffered_payload_bytes, Some(b"r".to_vec()));
    assert!(ok.is_finalized);
    let fail = process_single_prebuffered_request(2, &req, Some(HandlerOutcome::Fail(b"INVALID_ARGUMENT".to_vec())));
    assert_eq!(fail.rpc_result_status, Some(1));
    assert_eq!(fail.rpc_prebuffered_payload_bytes, Some(b"INVALID_ARGUMENT".to_vec()));
    let sys = process_single_prebuffered_request(
        3,
        &req,
        Some(HandlerOutcome::SystemError("a specific internal error occurred".to_string())),
    );
    assert_eq!(sys.rpc_result_status, Some(2));
    assert_eq!(sys.rpc_prebuffered_payload_bytes, Some(b"a specific internal error occurred".to_vec()));
    let missing = process_single_prebuffered_request(4, &req, None);
    assert_eq!(missing.rpc_result_status, Some(3));
    assert_eq!(missing.rpc_prebuffered_payload_bytes, None);
}

#[test]
fn handler_registration_conflicts() {
    let mut e = RpcServiceEndpoint::new();
    assert!(e.register_prebuffered(101).is_ok());
    match e.register_prebuffered(101) {
        Err(RpcServiceEndpointError::Handler(m)) => {
            assert_eq!(m, "A handler for method ID 101 is already registered.")
        }
        other => panic!("unexpected {:?}", other),
    }
    match e.register_stream_handler(101) {
        Err(RpcServiceEndpointError::Handler(m)) => {
            assert_eq!(m, "A prebuffered handler for method ID 101 is already registered.")
        }
        other => panic!("unexpected {:?}", other),
    }
    assert!(e.register_stream_handler(202).is_ok());
    match e.register_stream_handler(202) {
        Err(RpcServiceEndpointError::Handler(m)) => {
            assert_eq!(m, "A streaming handler for method ID 202 is already registered.")
        }
        other => panic!("unexpected {:?}", other),
    }
    assert!(e.has_prebuffered_handler(101));
    assert!(!e.has_prebuffered_handler(202));
}

#[test]
fn decimal_notation() {
    assert_eq!(decimal(0), "0");
    assert_eq!(decimal(7), "7");
    assert_eq!(decimal(10), "10");
    assert_eq!(decimal(u64::MAX), u64::MAX.to_string());
}

#[test]
fn endpoint_error_text() {
    assert_eq!(
        RpcServiceEndpointError::Decode(FrameDecodeError::CorruptFrame).to_string(),
        "decode error: Corrupt frame detected"
    );
    assert_eq!(
        RpcServiceEndpointError::Encode(FrameEncodeError::WriteAfterEnd).to_string(),
        "encode error: Write after stream ended"
    );
    assert_eq!(RpcServiceEndpointError::Handler("x".to_string()).to_string(), "handler error: x");
}

#[test]
fn endpoint_roundtrip_large_payload() {
    let endpoint = RpcServiceEndpoint::new();
    let mut client = RpcDispatcher::new();
    let mut server = RpcDispatcher::with_id_space(IdSpace::Server);
    let args: Vec<u8> = (0..100_000u32).map(|i| (i % 251) as u8).collect();
    let req = prebuffered_request(505, args.clone());
    let (id, _enc, frames) = client.call(req, DEFAULT_SERVICE_MAX_CHUNK_SIZE, true, true, 1, NOW).unwrap();
    let bytes = encode_frames(&frames).unwrap();
    let (requests, deliveries) = endpoint.read_requests(&mut server, &bytes).unwrap();
    assert!(deliveries.is_empty());
    assert_eq!(requests.len(), 1);
    assert_eq!(requests[0].0, id);
    let mut answer = handler_args(&requests[0].1);
    assert_eq!(answer, args);
    answer.extend_from_slice(b"_processed");
    let resp = process_single_prebuffered_request(id, &requests[0].1, Some(HandlerOutcome::Success(answer.clone())));
    let out = send_responses(&mut server, vec![resp], NOW);
    assert_eq!(out.len(), 1);
    let (_, events) = client.read_bytes(&encode_frames(&out[0]).unwrap()).unwrap();
    let mut body = Vec::new();
    for d in &events {
        if let RpcStreamEvent::PayloadChunk { bytes, .. } = &d.event {
            body.extend_from_slice(bytes);
        }
    }
    assert_eq!(body, answer);
}

#[test]
fn take_finalized_leaves_unfinished() {
    let mut client = RpcDispatcher::new();
    let mut server = RpcDispatcher::with_id_space(IdSpace::Server);
    let open = RpcRequest { rpc_method_id: 1, rpc_param_bytes: None, rpc_prebuffered_payload_bytes: None, is_finalized: false };
    let done = RpcRequest { rpc_method_id: 2, rpc_param_bytes: None, rpc_prebuffered_payload_bytes: None, is_finalized: true };
    let (a, _, fa) = client.call(open, 16, false, false, 1, NOW).unwrap();
    let (b, _, fb) = client.call(done, 16, false, false, 2, NOW).unwrap();
    let mut frames = fa;
    frames.extend(fb);
    let (ids, _) = server.read_bytes(&encode_frames(&frames).unwrap()).unwrap();
    assert_eq!(ids, vec![a, b]);
    let taken = take_finalized_requests(&mut server, &ids);
    assert_eq!(taken.len(), 1);
    assert_eq!(taken[0].0, b);
    assert_eq!(server.is_rpc_request_finalized(a), Some(false));
}

#[test]
fn stream_responder_queues_chunks() {
    let mut r = StreamResponder::new(12, Vec::new());
    r.respond(b"one".to_vec(), false);
    r.respond(b"two".to_vec(), true);
    let p: Vec<PendingResponse> = r.take_pending();
    assert_eq!(p.len(), 2);
    assert_eq!(p[0].request_id, 12);
    assert_eq!(p[1].chunk, b"two".to_vec());
    assert!(p[1].is_finalized);
    assert!(r.take_pending().is_empty());
}

#[test]
fn caller_error_text() {
    assert_eq!(
        RpcCallerError::Transport(TransportErrorKind::Other, "boom".to_string()).to_string(),
        "Transport error: boom"
    );
    assert_eq!(
        RpcCallerError::Rpc(RpcErrorPayload { code: RpcErrorCode::NotFound, message: "m".to_string() }).to_string(),
        "[NotFound] m"
    );
    assert_eq!(RpcCallerError::Aborted.to_string(), "RPC was aborted");
}

fn response_wire(status: Option<u8>, chunks: &[&[u8]]) -> Vec<RpcStreamEvent> {
    let h = RpcHeader {
        rpc_msg_type: RpcMessageType::Response,
        rpc_request_id: 1,
        rpc_method_id: 2,
        rpc_metadata_bytes: status.map(|s| vec![s]).unwrap_or_default(),
    };
    let mut events = vec![RpcStreamEvent::Header { rpc_request_id: 1, rpc_method_id: 2, rpc_header: h.duplicate() }];
    for c in chunks {
        events.push(RpcStreamEvent::PayloadChunk { rpc_request_id: 1, rpc_method_id: 2, bytes: c.to_vec(), rpc_header: h.duplicate() });
    }
    events.push(RpcStreamEvent::End { rpc_request_id: 1, rpc_method_id: 2, rpc_header: h });
    events
}

fn run(events: Vec<RpcStreamEvent>) -> Vec<ReceiverAction> {
    let mut r = ResponseStream::new();
    let mut out = Vec::new();
    if let Some(a) = r.signal_ready() {
        out.push(a);
    }
    for e in events {
        out.extend(r.on_event(e));
    }
    out
}

fn sent(actions: Vec<ReceiverAction>) -> Vec<Result<Vec<u8>, RpcCallerError>> {
    actions
        .into_iter()
        .filter_map(|a| match a {
            ReceiverAction::Send(item) => Some(item),
            _ => None,
        })
        .collect()
}

#[test]
fn successful_response_is_collected() {
    let actions = run(response_wire(Some(0), &[b"hello ", b"world"]));
    assert!(matches!(actions.last(), Some(ReceiverAction::Close)));
    assert_eq!(collect_buffered(sent(actions)).unwrap(), b"hello world".to_vec());
}

#[test]
fn error_responses_become_errors() {
    match collect_buffered(sent(run(response_wire(Some(3), &[])))).unwrap_err() {
        RpcCallerError::Rpc(p) => {
            assert_eq!(p.code, RpcErrorCode::NotFound);
            assert_eq!(p.message, "RPC method not found: Some(MethodNotFound)");
        }
        other => panic!("unexpected {:?}", other),
    }
    match collect_buffered(sent(run(response_wire(Some(2), &[b"item does ", b"not exist"])))).unwrap_err() {
        RpcCallerError::Rpc(p) => {
            assert_eq!(p.code, RpcErrorCode::System);
            assert_eq!(p.message, "item does not exist");
        }
        other => panic!("unexpected {:?}", other),
    }
    match collect_buffered(sent(run(response_wire(Some(1), &[b"ignored"])))).unwrap_err() {
        RpcCallerError::Rpc(p) => {
            assert_eq!(p.code, RpcErrorCode::Fail);
            assert_eq!(p.message, "");
        }
        other => panic!("unexpected {:?}", other),
    }
}

#[test]
fn error_text_split_inside_a_character_reaches_caller_whole() {
    let text = "für Ärger";
    let bytes = text.as_bytes();
    let (a, b) = bytes.split_at(2);
    match collect_buffered(sent(run(response_wire(Some(2), &[a, b])))).unwrap_err() {
        RpcCallerError::Rpc(p) => {
            assert_eq!(p.code, RpcErrorCode::System);
            assert_eq!(p.message, text);
        }
        other => panic!("unexpected {:?}", other),
    }
}

#[test]
fn invalid_utf8_error_text_is_replaced() {
    match collect_buffered(sent(run(response_wire(Some(2), &[&[0x66, 0xff, 0x67]])))).unwrap_err() {
        RpcCallerError::Rpc(p) => assert_eq!(p.message, "f\u{fffd}g"),
        other => panic!("unexpected {:?}", other),
    }
}

#[test]
fn transport_error_event_closes_channel() {
    let mut r = ResponseStream::new();
    let actions = r.on_event(RpcStreamEvent::Error {
        rpc_header: None,
        rpc_request_id: Some(1),
        rpc_method_id: None,
        frame_decode_error: FrameDecodeError::Transport("reset".to_string()),
    });
    assert_eq!(actions.len(), 3);
    match &actions[0] {
        ReceiverAction::SignalReady(Err(RpcCallerError::Transport(kind, m))) => {
            assert_eq!(*kind, TransportErrorKind::Other);
            assert_eq!(m, "Transport error: reset");
        }
        other => panic!("unexpected {:?}", other),
    }
    match &actions[1] {
        ReceiverAction::Send(Err(RpcCallerError::Transport(kind, m))) => {
            assert_eq!(*kind, TransportErrorKind::ConnectionAborted);
            assert_eq!(m, "Transport error: reset");
        }
        other => panic!("unexpected {:?}", other),
    }
    assert!(matches!(actions[2], ReceiverAction::Close));
}

#[test]
fn final_error_by_status() {
    assert!(final_error(Some(RpcResultStatus::Success), String::new()).is_none());
    assert!(final_error(None, "x".to_string()).is_none());
    match final_error(Some(RpcResultStatus::SystemError), String::new()).unwrap() {
        RpcCallerError::Rpc(p) => assert_eq!(p.message, "RPC failed with status: Some(SystemError)"),
        other => panic!("unexpected {:?}", other),
    }
}

#[test]
fn collect_stops_at_first_error() {
    let items = vec![Ok(b"a".to_vec()), Err(RpcCallerError::Aborted), Ok(b"b".to_vec())];
    assert!(matches!(collect_buffered(items), Err(RpcCallerError::Aborted)));
    assert_eq!(collect_buffered(Vec::new()).unwrap(), Vec::<u8>::new());
}

#[test]
fn disconnected_client_is_refused() {
    let mut d = RpcDispatcher::new();
    let req = RpcRequest { rpc_method_id: 1, rpc_param_bytes: None, rpc_prebuffered_payload_bytes: None, is_finalized: true };
    match start_streaming_call(&mut d, req, false, 1, NOW) {
        Err(RpcCallerError::Transport(kind, m)) => {
            assert_eq!(kind, TransportErrorKind::ConnectionAborted);
            assert_eq!(m, "RPC call attempted on a disconnected client.");
        }
        _ => panic!("expected a transport error"),
    }
    let big = RpcRequest { rpc_method_id: 1, rpc_param_bytes: Some(vec![0; 70_000]), rpc_prebuffered_payload_bytes: None, is_finalized: true };
    match start_streaming_call(&mut d, big, true, 1, NOW) {
        Err(RpcCallerError::Transport(kind, m)) => {
            assert_eq!(kind, TransportErrorKind::Other);
            assert_eq!(m, "CorruptFrame");
        }
        _ => panic!("expected a transport error"),
    }
    let ok = RpcRequest { rpc_method_id: 1, rpc_param_bytes: None, rpc_prebuffered_payload_bytes: None, is_finalized: true };
    assert!(start_streaming_call(&mut d, ok, true, 2, NOW).is_ok());
}

#[test]
fn test_helpers() {
    assert_eq!(temp_socket_name("abc"), "muxio-ipc-test-abc");
    assert_rpc_success(&Ok(vec![1, 2]), &vec![1, 2]);
    assert!(rpc_success_matches(&Ok(vec![1, 2]), &vec![1, 2]));
    assert!(!rpc_success_matches(&Ok(vec![1]), &vec![1, 2]));
    assert!(!rpc_success_matches(&Err(RpcCallerError::Aborted), &vec![]));
    assert_state_change_handler_called(
        &[RpcTransportState::Connected, RpcTransportState::Disconnected],
        &[RpcTransportState::Connected, RpcTransportState::Disconnected],
    );
    assert!(state_changes_match(
        &[RpcTransportState::Connected, RpcTransportState::Disconnected],
        &[RpcTransportState::Connected, RpcTransportState::Disconnected],
    ));
    assert!(!state_changes_match(&[RpcTransportState::Connecting], &[]));
}

#[test]
fn every_frame_carries_the_given_timestamp() {
    let mut client = RpcDispatcher::new();
    let req = RpcRequest {
        rpc_method_id: 1,
        rpc_param_bytes: None,
        rpc_prebuffered_payload_bytes: Some(vec![7; 40]),
        is_finalized: true,
    };
    let (_, _, frames) = client.call(req, 16, false, false, 1, 42).unwrap();
    assert_eq!(frames.len(), 5);
    assert!(frames.iter().all(|f| f.timestamp == 42));
    let mut server = RpcDispatcher::with_id_space(IdSpace::Server);
    let out = send_responses(&mut server, vec![process_single_prebuffered_request(1, &RpcRequest {
        rpc_method_id: 1,
        rpc_param_bytes: None,
        rpc_prebuffered_payload_bytes: None,
        is_finalized: true,
    }, None)], 99);
    assert!(out[0].iter().all(|f| f.timestamp == 99));
}
