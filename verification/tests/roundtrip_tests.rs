use muxio::caller::{
    collect_buffered, start_streaming_call, ReceiverAction, RpcCallerError, RpcErrorCode,
    TransportErrorKind,
};
use muxio::dispatcher::{RpcDispatcher, RpcRequest};
use muxio::endpoint::{
    handler_args, process_single_prebuffered_request, send_responses, HandlerOutcome,
    RpcServiceEndpoint,
};
use muxio::frame::{encode_frames, FrameDecodeError};
use muxio::ids::IdSpace;
use muxio::respondable::Target;
use muxio::service::{prebuffered_request, rpc_method_id, Echo};
use muxio::stream_decoder::RpcStreamEvent;

/// The time stamped on the frames these tests make.
const NOW: u64 = 1_700_000_000_000_000;

/// One buffered call through a client dispatcher, a server endpoint whose
/// handlers `serve` stands for, and back.
fn call_buffered(
    serve: &dyn Fn(u64, Vec<u8>) -> Option<HandlerOutcome>,
    request: RpcRequest,
) -> Result<Vec<u8>, RpcCallerError> {
    let mut client = RpcDispatcher::new();
    let mut server = RpcDispatcher::with_id_space(IdSpace::Server);
    let endpoint = RpcServiceEndpoint::new();

    let (id, _enc, frames, mut receiver) = start_streaming_call(&mut client, request, true, 1, NOW)?;
    let (requests, _) = endpoint
        .read_requests(&mut server, &encode_frames(&frames).unwrap())
        .unwrap();
    let mut responses = Vec::new();
    for (request_id, req) in requests {
        let outcome = serve(req.rpc_method_id, handler_args(&req));
        responses.push(process_single_prebuffered_request(request_id, &req, outcome));
    }
    let mut items = Vec::new();
    for batch in send_responses(&mut server, responses, NOW) {
        let (_, deliveries) = client.read_bytes(&encode_frames(&batch).unwrap()).unwrap();
        for d in deliveries {
            assert_eq!(d.target, Target::Handler(id));
            for action in receiver.on_event(d.event) {
                if let ReceiverAction::Send(item) = action {
                    items.push(item);
                }
            }
        }
    }
    collect_buffered(items)
}

fn echo_service(method: u64, args: Vec<u8>) -> Option<HandlerOutcome> {
    if method == Echo::method_id() {
        Some(HandlerOutcome::Success(Echo::encode_response(Echo::decode_request(&args))))
    } else if method == rpc_method_id("__test.error") {
        Some(HandlerOutcome::SystemError("test error".to_string()))
    } else {
        None
    }
}

#[test]
fn roundtrip_echo() {
    let r = call_buffered(&echo_service, prebuffered_request(Echo::method_id(), b"testing 1 2 3".to_vec()));
    assert_eq!(r.unwrap(), b"testing 1 2 3".to_vec());
}

#[test]
fn roundtrip_large_payload() {
    let large_payload = vec![42u8; 100_000];
    let r = call_buffered(&echo_service, prebuffered_request(Echo::method_id(), large_payload.clone()));
    assert_eq!(r.unwrap(), large_payload);
}

#[test]
fn roundtrip_error() {
    let request = RpcRequest {
        rpc_method_id: rpc_method_id("__test.error"),
        rpc_param_bytes: Some(b"hello".to_vec()),
        rpc_prebuffered_payload_bytes: None,
        is_finalized: true,
    };
    match call_buffered(&echo_service, request).unwrap_err() {
        RpcCallerError::Rpc(payload) => {
            assert_eq!(payload.code, RpcErrorCode::System);
            assert!(payload.message.contains("test error"));
        }
        other => panic!("Expected an Rpc error, got {:?}", other),
    }
}

#[test]
fn roundtrip_method_not_found() {
    let request = RpcRequest {
        rpc_method_id: rpc_method_id("__test.unregistered.method"),
        rpc_param_bytes: Some(b"hello".to_vec()),
        rpc_prebuffered_payload_bytes: None,
        is_finalized: true,
    };
    match call_buffered(&echo_service, request).unwrap_err() {
        RpcCallerError::Rpc(payload) => assert_eq!(payload.code, RpcErrorCode::NotFound),
        other => panic!("Expected an Rpc error, got {:?}", other),
    }
}

#[test]
fn pending_requests_fail_on_disconnect() {
    let mut client = RpcDispatcher::new();
    let request = prebuffered_request(Echo::method_id(), b"never answered".to_vec());
    let (id, _enc, _frames, mut receiver) = start_streaming_call(&mut client, request, true, 1, NOW).unwrap();
    let deliveries = client.fail_all_pending_requests(FrameDecodeError::Transport("connection closed".to_string()));
    assert_eq!(deliveries.len(), 1);
    let mut items = Vec::new();
    for d in deliveries {
        assert_eq!(d.target, Target::Handler(id));
        assert!(matches!(d.event, RpcStreamEvent::Error { .. }));
        for action in receiver.on_event(d.event) {
            if let ReceiverAction::Send(item) = action {
                items.push(item);
            }
        }
    }
    match collect_buffered(items).unwrap_err() {
        RpcCallerError::Transport(kind, m) => {
            assert_eq!(kind, TransportErrorKind::ConnectionAborted);
            assert_eq!(m, "Transport error: connection closed");
        }
        other => panic!("Expected a transport error, got {:?}", other),
    }
}
