use muxio::caller::{collect_buffered, RpcCallerError, RpcErrorCode, RpcErrorPayload};
use muxio::dispatcher::{RpcDispatcher, RpcRequest, RpcResponse};
use muxio::endpoint::{
    handler_args, process_single_prebuffered_request, send_responses, send_stream_chunk,
    HandlerOutcome, PendingResponse, RpcServiceEndpoint, RpcServiceEndpointError,
};
use muxio::frame::{encode_frames, FrameKind};
use muxio::ids::IdSpace;
use muxio::service::{RpcResultStatus, DEFAULT_SERVICE_MAX_CHUNK_SIZE};

/// The time stamped on the frames these tests make.
const NOW: u64 = 1_700_000_000_000_000;

type Handler = Box<dyn Fn(Vec<u8>) -> HandlerOutcome>;

/// A whole client -> server -> client roundtrip of one request; the server
/// is fed the request bytes 512 at a time.
fn perform_request_response_cycle_with_request(
    endpoint: &RpcServiceEndpoint,
    handlers: &[(u64, Handler)],
    request: RpcRequest,
) -> RpcResponse {
    let mut client_dispatcher = RpcDispatcher::new();
    let (_, _, frames) = client_dispatcher.call(request, 1024, false, false, 1, NOW).unwrap();
    let request_bytes = encode_frames(&frames).unwrap();

    let mut server = RpcDispatcher::with_id_space(IdSpace::Server);
    let mut response_bytes = Vec::new();
    for chunk in request_bytes.chunks(512) {
        let (requests, _) = endpoint.read_requests(&mut server, chunk).unwrap();
        let mut responses = Vec::new();
        for (request_id, req) in requests {
            let outcome = if endpoint.has_prebuffered_handler(req.rpc_method_id) {
                handlers
                    .iter()
                    .find(|(m, _)| *m == req.rpc_method_id)
                    .map(|(_, h)| h(handler_args(&req)))
            } else {
                None
            };
            responses.push(process_single_prebuffered_request(request_id, &req, outcome));
        }
        for batch in send_responses(&mut server, responses, NOW) {
            response_bytes.extend(encode_frames(&batch).unwrap());
        }
    }
    client_get_finalized_response(&mut client_dispatcher, &response_bytes)
}

fn perform_request_response_cycle(
    endpoint: &RpcServiceEndpoint,
    handlers: &[(u64, Handler)],
    method_id: u64,
    param_bytes: &[u8],
) -> RpcResponse {
    let request = RpcRequest {
        rpc_method_id: method_id,
        rpc_param_bytes: Some(param_bytes.to_vec()),
        rpc_prebuffered_payload_bytes: None,
        is_finalized: true,
    };
    perform_request_response_cycle_with_request(endpoint, handlers, request)
}

fn client_get_finalized_response(client_dispatcher: &mut RpcDispatcher, response_bytes: &[u8]) -> RpcResponse {
    let (request_ids, _) = client_dispatcher.read_bytes(response_bytes).unwrap();
    assert_eq!(request_ids.len(), 1, "Client should have one response");
    let response_as_request = client_dispatcher.delete_rpc_request(request_ids[0]).unwrap();
    let result_status = response_as_request
        .rpc_param_bytes
        .as_ref()
        .and_then(|b| b.first().copied());
    RpcResponse {
        rpc_request_id: request_ids[0],
        rpc_method_id: response_as_request.rpc_method_id,
        rpc_result_status: result_status,
        rpc_prebuffered_payload_bytes: response_as_request.rpc_prebuffered_payload_bytes,
        is_finalized: response_as_request.is_finalized,
    }
}

#[test]
fn test_handler_registration() {
    let mut endpoint = RpcServiceEndpoint::new();
    assert!(endpoint.register_prebuffered(101).is_ok());
    let result2 = endpoint.register_prebuffered(101);
    assert!(matches!(result2, Err(RpcServiceEndpointError::Handler(_))));
}

#[test]
fn test_read_bytes_success() {
    let mut endpoint = RpcServiceEndpoint::new();
    const METHOD_ID: u64 = 202;
    endpoint.register_prebuffered(METHOD_ID).unwrap();
    let handlers: Vec<(u64, Handler)> = vec![(
        METHOD_ID,
        Box::new(|req_bytes: Vec<u8>| {
            let num = u32::from_le_bytes(req_bytes.try_into().unwrap());
            HandlerOutcome::Success((num * 2).to_le_bytes().to_vec())
        }),
    )];
    let response = perform_request_response_cycle(&endpoint, &handlers, METHOD_ID, &5u32.to_le_bytes());
    let status = RpcResultStatus::try_from_u8(response.rpc_result_status.unwrap()).unwrap();
    assert_eq!(status, RpcResultStatus::Success);
    assert_eq!(response.rpc_prebuffered_payload_bytes.as_deref(), Some(&10u32.to_le_bytes()[..]));
}

#[test]
fn test_read_bytes_handler_system_error() {
    let mut endpoint = RpcServiceEndpoint::new();
    const METHOD_ID: u64 = 303;
    let error_message = "a specific internal error occurred";
    endpoint.register_prebuffered(METHOD_ID).unwrap();
    let handlers: Vec<(u64, Handler)> = vec![(
        METHOD_ID,
        Box::new(move |_| HandlerOutcome::SystemError(error_message.to_string())),
    )];
    let response = perform_request_response_cycle(&endpoint, &handlers, METHOD_ID, &[]);
    let status = RpcResultStatus::try_from_u8(response.rpc_result_status.unwrap()).unwrap();
    assert_eq!(status, RpcResultStatus::SystemError);
    assert_eq!(response.rpc_prebuffered_payload_bytes.as_deref(), Some(error_message.as_bytes()));
}

#[test]
fn test_read_bytes_handler_fail_payload() {
    let mut endpoint = RpcServiceEndpoint::new();
    const METHOD_ID: u64 = 304;
    let error_payload = b"INVALID_ARGUMENT".to_vec();
    endpoint.register_prebuffered(METHOD_ID).unwrap();
    let payload = error_payload.clone();
    let handlers: Vec<(u64, Handler)> =
        vec![(METHOD_ID, Box::new(move |_| HandlerOutcome::Fail(payload.clone())))];
    let response = perform_request_response_cycle(&endpoint, &handlers, METHOD_ID, &[]);
    let status = RpcResultStatus::try_from_u8(response.rpc_result_status.unwrap()).unwrap();
    assert_eq!(status, RpcResultStatus::Fail);
    assert_eq!(response.rpc_prebuffered_payload_bytes.as_deref(), Some(&error_payload[..]));
}

#[test]
fn test_read_bytes_method_not_found() {
    let endpoint = RpcServiceEndpoint::new();
    const UNREGISTERED_METHOD_ID: u64 = 404;
    let response = perform_request_response_cycle(&endpoint, &[], UNREGISTERED_METHOD_ID, &[]);
    let status = RpcResultStatus::try_from_u8(response.rpc_result_status.unwrap()).unwrap();
    assert_eq!(status, RpcResultStatus::MethodNotFound);
    assert!(response.rpc_prebuffered_payload_bytes.is_none());
}

#[test]
fn test_large_payload_request_response_cycle() {
    let mut endpoint = RpcServiceEndpoint::new();
    const LARGE_PAYLOAD_METHOD_ID: u64 = 505;
    let large_payload = vec![0u8; DEFAULT_SERVICE_MAX_CHUNK_SIZE + 100];
    let expected_response_payload = {
        let mut resp = large_payload.clone();
        resp.extend_from_slice(b"_processed");
        resp
    };
    endpoint.register_prebuffered(LARGE_PAYLOAD_METHOD_ID).unwrap();
    let expected = expected_response_payload.clone();
    let handlers: Vec<(u64, Handler)> = vec![(
        LARGE_PAYLOAD_METHOD_ID,
        Box::new(move |req_bytes: Vec<u8>| {
            let mut resp_bytes = req_bytes.clone();
            resp_bytes.extend_from_slice(b"_processed");
            assert_eq!(resp_bytes, expected);
            HandlerOutcome::Success(resp_bytes)
        }),
    )];
    let request_with_large_payload = RpcRequest {
        rpc_method_id: LARGE_PAYLOAD_METHOD_ID,
        rpc_param_bytes: None,
        rpc_prebuffered_payload_bytes: Some(large_payload.clone()),
        is_finalized: true,
    };
    let response = perform_request_response_cycle_with_request(&endpoint, &handlers, request_with_large_payload);
    let status = RpcResultStatus::try_from_u8(response.rpc_result_status.unwrap()).unwrap();
    assert_eq!(status, RpcResultStatus::Success);
    assert_eq!(
        response.rpc_prebuffered_payload_bytes.as_deref(),
        Some(expected_response_payload.as_slice())
    );
}

#[test]
fn test_buffered_call_success() {
    let echo_payload = b"hello world".to_vec();
    let result = collect_buffered(vec![Ok(echo_payload.clone())]);
    assert_eq!(result.unwrap(), echo_payload);
}

#[test]
fn test_buffered_call_remote_error() {
    let result = collect_buffered(vec![Err(RpcCallerError::Rpc(RpcErrorPayload {
        code: RpcErrorCode::Fail,
        message: "item does not exist".into(),
    }))]);
    match result {
        Err(RpcCallerError::Rpc(err)) => {
            assert_eq!(err.code, RpcErrorCode::Fail);
            assert_eq!(err.message, "item does not exist");
        }
        _ => panic!("Expected a RemoteError, but got something else."),
    }
}

#[test]
fn test_prebuffered_trait_converts_error() {
    let result = collect_buffered(vec![Err(RpcCallerError::Rpc(RpcErrorPayload {
        code: RpcErrorCode::System,
        message: "Method has panicked".into(),
    }))]);
    assert!(result.is_err());
    if let Err(RpcCallerError::Rpc(err)) = result {
        assert_eq!(err.code, RpcErrorCode::System);
        assert_eq!(err.message, "Method has panicked");
    } else {
        panic!("Expected Rpc error");
    }
}

#[test]
fn stream_chunks_open_write_and_close_the_response() {
    let mut server = RpcDispatcher::with_id_space(IdSpace::Server);
    let first = PendingResponse { request_id: 5, chunk: b"ab".to_vec(), is_finalized: false };
    let (writer, frames) = send_stream_chunk(&mut server, None, first, NOW);
    assert!(writer.is_some());
    assert_eq!(frames.len(), 2);
    assert_eq!(frames[0].kind, FrameKind::Open);
    assert_eq!(frames[1].kind, FrameKind::Data);
    assert_eq!(frames[1].payload, b"ab".to_vec());
    let last = PendingResponse { request_id: 5, chunk: b"cd".to_vec(), is_finalized: true };
    let (writer, more) = send_stream_chunk(&mut server, writer, last, NOW);
    assert!(writer.is_none());
    assert_eq!(more.len(), 2);
    assert_eq!(more[0].payload, b"cd".to_vec());
    assert_eq!(more[1].kind, FrameKind::End);
    assert_eq!(more[1].stream_id, frames[0].stream_id);
    assert!(frames.iter().chain(more.iter()).all(|f| f.timestamp == NOW));
    let mut client = RpcDispatcher::new();
    let mut all = frames;
    all.extend(more);
    let (ids, _) = client.read_bytes(&encode_frames(&all).unwrap()).unwrap();
    assert_eq!(ids, vec![5]);
    let req = client.delete_rpc_request(5).unwrap();
    assert_eq!(req.rpc_prebuffered_payload_bytes, Some(b"abcd".to_vec()));
}
