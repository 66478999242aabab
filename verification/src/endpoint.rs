use vstd::prelude::*;
use vstd::slice::slice_to_vec;

use crate::dispatcher::{
    DispatcherView, RpcDispatcher, RpcRequest, RpcResponse, RpcResponseWriter, SpecRpcRequest,
    body_data, body_kinds, body_payloads, bytes_or_empty, call_header, find_request,
    opt_bytes_view, outgoing_frames, queue_ids, received_request, response_header,
    spec_dispatcher_read,
};
use crate::frame::{
    Frame, FrameDecodeError, FrameEncodeError, FrameKind, SpecFrame, frames_view, spec_frames_bytes,
};
use crate::ids::IdSpace;
use crate::rpc_header::{SpecRpcHeader, header_fits, spec_header_bytes};
use crate::session::{SessionView, end_event, header_event, spec_chunk_events};
use crate::stream_decoder::SpecStreamEvent;
use crate::caller::{RpcErrorCode, RpcErrorPayload};
use crate::respondable::{
    Delivery, RespondableView, RoutingView, SpecDelivery, Target, deliveries_view, is_prebuffering, spec_route,
    spec_route_all, to_handler,
};
use crate::service::{DEFAULT_SERVICE_MAX_CHUNK_SIZE, RpcResultStatus};
use crate::stream_encoder::{EncoderView, StreamState, frames_are, seq_after, seq_inc, stamped};

verus! {

broadcast use vstd::seq_lib::group_seq_properties;

/// The decimal digit `d` as a character.
pub open spec fn digit_char(d: nat) -> char {
    (d + 48) as char
}

/// The decimal notation of `n`, without leading zeros.
pub open spec fn spec_decimal(n: nat) -> Seq<char>
    decreases n,
{
    if n < 10 {
        seq![digit_char(n)]
    } else {
        spec_decimal(n / 10).push(digit_char(n % 10))
    }
}

fn digit_str(d: u64) -> (s: &'static str)
    requires
        d < 10,
    ensures
        s@ == seq![digit_char(d as nat)],
{
    proof {
        reveal_strlit("0");
        reveal_strlit("1");
        reveal_strlit("2");
        reveal_strlit("3");
        reveal_strlit("4");
        reveal_strlit("5");
        reveal_strlit("6");
        reveal_strlit("7");
        reveal_strlit("8");
        reveal_strlit("9");
    }
    if d == 0 {
        "0"
    } else if d == 1 {
        "1"
    } else if d == 2 {
        "2"
    } else if d == 3 {
        "3"
    } else if d == 4 {
        "4"
    } else if d == 5 {
        "5"
    } else if d == 6 {
        "6"
    } else if d == 7 {
        "7"
    } else if d == 8 {
        "8"
    } else {
        "9"
    }
}

/// The decimal notation of `n`.
pub fn decimal(n: u64) -> (s: String)
    ensures
        s@ == spec_decimal(n as nat),
{
    let mut s = String::from_str(digit_str(n % 10));
    let mut m = n / 10;
    assert(n < 10 ==> s@ == spec_decimal(n as nat));
    assert(n >= 10 ==> spec_decimal(n as nat) == spec_decimal(m as nat) + s@);
    while m > 0
        invariant
            m > 0 ==> spec_decimal(n as nat) == spec_decimal(m as nat) + s@,
            m == 0 ==> s@ == spec_decimal(n as nat),
        decreases m,
    {
        let ghost old_s = s@;
        s = String::from_str(digit_str(m % 10)).concat(s.as_str());
        assert(s@ == seq![digit_char((m % 10) as nat)] + old_s);
        let next = m / 10;
        if next > 0 {
            assert(spec_decimal(m as nat) == spec_decimal(next as nat).push(digit_char((m % 10) as nat)));
            assert(spec_decimal(next as nat) + s@ =~= spec_decimal(next as nat).push(
                digit_char((m % 10) as nat),
            ) + old_s);
        } else {
            assert(spec_decimal(m as nat) == seq![digit_char(m as nat)]);
            assert(s@ =~= spec_decimal(m as nat) + old_s);
        }
        m = next;
    }
    s
}

/// Errors of an endpoint's own logic.
#[derive(Debug)]
pub enum RpcServiceEndpointError {
    Decode(FrameDecodeError),
    Encode(FrameEncodeError),
    /// A handler could not be registered, or failed; with the error's text.
    Handler(String),
}

impl RpcServiceEndpointError {
    /// The human-readable text of the error.
    pub open spec fn spec_message(&self) -> Seq<char> {
        match self {
            RpcServiceEndpointError::Decode(e) => "decode error: "@ + e.spec_message(),
            RpcServiceEndpointError::Encode(e) => "encode error: "@ + e.spec_message(),
            RpcServiceEndpointError::Handler(m) => "handler error: "@ + m@,
        }
    }

    /// Renders the error as text.
    pub fn to_string(&self) -> (s: String)
        ensures
            s@ == self.spec_message(),
    {
        match self {
            RpcServiceEndpointError::Decode(e) => String::from_str("decode error: ").concat(
                e.to_string().as_str(),
            ),
            RpcServiceEndpointError::Encode(e) => String::from_str("encode error: ").concat(
                e.to_string().as_str(),
            ),
            RpcServiceEndpointError::Handler(m) => String::from_str("handler error: ").concat(
                m.as_str(),
            ),
        }
    }
}

/// The error a handler returns to send a structured error to the caller.
#[derive(Debug)]
pub struct RpcServiceEndpointHandlerError(pub RpcErrorPayload);

impl RpcServiceEndpointHandlerError {
    /// A failure of the request, with `message` as its text.
    pub fn fail(message: String) -> (e: RpcServiceEndpointHandlerError)
        ensures
            e.0.code == RpcErrorCode::Fail,
            e.0.message@ == message@,
    {
        RpcServiceEndpointHandlerError(RpcErrorPayload { code: RpcErrorCode::Fail, message })
    }

    /// Renders the error as text.
    pub fn to_string(&self) -> (s: String)
        ensures
            s@ == "Handler failed with code "@ + self.0.code.spec_name() + ": "@ + self.0.message@,
    {
        String::from_str("Handler failed with code ").concat(self.0.code.name()).concat(": ").concat(
            self.0.message.as_str(),
        )
    }
}

/// The bytes a prebuffered handler gets: the payload when it is not empty,
/// else the parameters.
pub open spec fn spec_handler_args(r: SpecRpcRequest) -> Seq<u8> {
    let payload = bytes_or_empty(r.rpc_prebuffered_payload_bytes);
    if payload.len() != 0 {
        payload
    } else {
        bytes_or_empty(r.rpc_param_bytes)
    }
}

/// A handler gets the body of its request whenever there is one: for any
/// request, a non-empty payload is exactly what the handler gets, and the
/// parameters are what it gets only when the payload is empty.
pub proof fn lemma_handler_args_prefer_body(r: SpecRpcRequest)
    ensures
        bytes_or_empty(r.rpc_prebuffered_payload_bytes).len() > 0 ==> spec_handler_args(r)
            == bytes_or_empty(r.rpc_prebuffered_payload_bytes),
        bytes_or_empty(r.rpc_prebuffered_payload_bytes).len() == 0 ==> spec_handler_args(r)
            == bytes_or_empty(r.rpc_param_bytes),
{
}

/// A handler gets what its caller sent: when a finalized call (request
/// `req`, request id `rid`) is sent and read whole by a fresh dispatcher,
/// the handler's arguments for the queued request are the call's body when
/// it has one, and its parameters otherwise.
pub proof fn lemma_handler_gets_call_body(
    id_space: IdSpace,
    fs: Seq<SpecFrame>,
    sid: u32,
    rid: u32,
    req: SpecRpcRequest,
    n: nat,
)
    requires
        header_fits(call_header(rid, req)),
        0 < n <= u32::MAX,
        outgoing_frames(fs, sid, call_header(rid, req), bytes_or_empty(req.rpc_prebuffered_payload_bytes), n, true),
    ensures
        spec_dispatcher_read(RpcDispatcher::initial(id_space), spec_frames_bytes(fs)) matches Some(
            (v2, ids, ds),
        ) && {
            &&& v2.queue.len() == 1
            &&& v2.queue[0].0 == rid
            &&& spec_handler_args(v2.queue[0].1) == if bytes_or_empty(
                req.rpc_prebuffered_payload_bytes,
            ).len() > 0 {
                bytes_or_empty(req.rpc_prebuffered_payload_bytes)
            } else {
                bytes_or_empty(req.rpc_param_bytes)
            }
        },
{
    let h = call_header(rid, req);
    let body = bytes_or_empty(req.rpc_prebuffered_payload_bytes);
    crate::dispatcher::lemma_fresh_peer_receives_stream(id_space, fs, sid, h, body, n);
    let r = SpecRpcRequest { is_finalized: true, ..received_request(h, body) };
    lemma_handler_args_prefer_body(r);
    assert(bytes_or_empty(r.rpc_param_bytes) == bytes_or_empty(req.rpc_param_bytes));
    assert(bytes_or_empty(r.rpc_prebuffered_payload_bytes) == body);
}

/// The bytes a prebuffered handler gets (see `spec_handler_args`).
pub fn handler_args(request: &RpcRequest) -> (a: Vec<u8>)
    ensures
        a@ == spec_handler_args(request@),
{
    match &request.rpc_prebuffered_payload_bytes {
        Some(p) => {
            if p.len() != 0 {
                return slice_to_vec(p.as_slice());
            }
        },
        None => {},
    }
    match &request.rpc_param_bytes {
        Some(p) => slice_to_vec(p.as_slice()),
        None => Vec::new(),
    }
}

/// How a prebuffered handler finished.
#[derive(Debug)]
pub enum HandlerOutcome {
    /// It answered with these bytes.
    Success(Vec<u8>),
    /// It failed with a structured payload for the caller.
    Fail(Vec<u8>),
    /// It failed otherwise, with this text.
    SystemError(String),
}

/// The response a prebuffered request gets, given how its handler finished
/// (`None`: no handler for its method).
pub open spec fn spec_prebuffered_response(
    request_id: u32,
    method_id: u64,
    outcome: Option<HandlerOutcome>,
) -> (u32, u64, Option<u8>, Option<Seq<u8>>) {
    match outcome {
        Some(HandlerOutcome::Success(b)) => (request_id, method_id, Some(0u8), Some(b@)),
        Some(HandlerOutcome::Fail(b)) => (request_id, method_id, Some(1u8), Some(b@)),
        Some(HandlerOutcome::SystemError(m)) => (
            request_id,
            method_id,
            Some(2u8),
            Some(vstd::utf8::encode_utf8(m@)),
        ),
        None => (request_id, method_id, Some(3u8), None),
    }
}

/// The fields of a response.
pub open spec fn response_fields(r: RpcResponse) -> (u32, u64, Option<u8>, Option<Seq<u8>>) {
    (
        r.rpc_request_id,
        r.rpc_method_id,
        r.rpc_result_status,
        opt_bytes_view(r.rpc_prebuffered_payload_bytes),
    )
}

/// The complete response to prebuffered request `request_id`, given how its
/// handler finished: success carries the handler's bytes, a structured
/// failure its payload, another failure its text, and a missing handler
/// nothing, each with its result status.
pub fn process_single_prebuffered_request(
    request_id: u32,
    request: &RpcRequest,
    outcome: Option<HandlerOutcome>,
) -> (r: RpcResponse)
    ensures
        response_fields(r) == spec_prebuffered_response(request_id, request.rpc_method_id, outcome),
        r.is_finalized,
{
    let ghost o = outcome;
    let (status, payload) = match outcome {
        Some(HandlerOutcome::Success(b)) => (RpcResultStatus::Success, Some(b)),
        Some(HandlerOutcome::Fail(b)) => (RpcResultStatus::Fail, Some(b)),
        Some(HandlerOutcome::SystemError(m)) => (
            RpcResultStatus::SystemError,
            Some(slice_to_vec(m.as_str().as_bytes())),
        ),
        None => (RpcResultStatus::MethodNotFound, None),
    };
    RpcResponse {
        rpc_request_id: request_id,
        rpc_method_id: request.rpc_method_id,
        rpc_result_status: Some(status.code()),
        rpc_prebuffered_payload_bytes: payload,
        is_finalized: true,
    }
}

/// The queued requests that `ids` name and that have ended, taken out of
/// the queue in the order of `ids`: the queue afterwards and the requests.
pub open spec fn spec_take_finalized(q: Seq<(u32, SpecRpcRequest)>, ids: Seq<u32>) -> (
    Seq<(u32, SpecRpcRequest)>,
    Seq<(u32, SpecRpcRequest)>,
)
    decreases ids.len(),
{
    if ids.len() == 0 {
        (q, Seq::empty())
    } else {
        let prev = spec_take_finalized(q, ids.drop_last());
        let id = ids.last();
        match find_request(prev.0, id) {
            Some(i) => if prev.0[i].1.is_finalized {
                (prev.0.remove(i), prev.1.push((id, prev.0[i].1)))
            } else {
                prev
            },
            None => prev,
        }
    }
}

/// A prebuffered request reaches its handler only once it has arrived
/// whole: every request taken out has ended, each was named by `ids`, and
/// the queue loses exactly as many requests as are taken.
pub proof fn lemma_taken_requests_finalized(q: Seq<(u32, SpecRpcRequest)>, ids: Seq<u32>)
    ensures
        ({
            let t = spec_take_finalized(q, ids);
            &&& forall|i: int| 0 <= i < t.1.len() ==> (#[trigger] t.1[i]).1.is_finalized
            &&& forall|i: int| 0 <= i < t.1.len() ==> ids.contains((#[trigger] t.1[i]).0)
            &&& t.0.len() + t.1.len() == q.len()
        }),
    decreases ids.len(),
{
    if ids.len() > 0 {
        lemma_taken_requests_finalized(q, ids.drop_last());
        let prev = spec_take_finalized(q, ids.drop_last());
        let id = ids.last();
        crate::dispatcher::lemma_find_request(prev.0, id);
        let t = spec_take_finalized(q, ids);
        assert forall|i: int| 0 <= i < t.1.len() implies ids.contains((#[trigger] t.1[i]).0) by {
            if i < prev.1.len() {
                assert(t.1[i] == prev.1[i]);
                assert(ids.drop_last().contains(prev.1[i].0));
                let k = choose|k: int| 0 <= k < ids.drop_last().len() && ids.drop_last()[k] == prev.1[i].0;
                assert(ids[k] == prev.1[i].0);
            } else {
                assert(ids[ids.len() - 1] == id);
            }
        }
    }
}

/// Whether no two queued requests share an id.
pub open spec fn distinct_ids(q: Seq<(u32, SpecRpcRequest)>) -> bool {
    forall|a: int, b: int| 0 <= a < b < q.len() ==> #[trigger] q[a].0 != #[trigger] q[b].0
}

/// Every finished request that the read names is taken: with no two
/// queued requests sharing an id, each queued request that `ids` names and
/// that has ended is among those taken, and no request that `ids` names and
/// that has ended is left in the queue.
pub proof fn lemma_take_finalized_takes_every_finished(q: Seq<(u32, SpecRpcRequest)>, ids: Seq<u32>)
    requires
        distinct_ids(q),
    ensures
        ({
            let t = spec_take_finalized(q, ids);
            &&& forall|j: int|
                0 <= j < q.len() && q[j].1.is_finalized && ids.contains(q[j].0) ==> t.1.contains(
                    #[trigger] q[j],
                )
            &&& forall|k: int|
                0 <= k < t.0.len() && ids.contains((#[trigger] t.0[k]).0) ==> !t.0[k].1.is_finalized
        }),
{
    lemma_take_finalized_inv(q, ids);
}

proof fn lemma_take_finalized_inv(q: Seq<(u32, SpecRpcRequest)>, ids: Seq<u32>)
    requires
        distinct_ids(q),
    ensures
        ({
            let t = spec_take_finalized(q, ids);
            &&& distinct_ids(t.0)
            &&& forall|j: int|
                0 <= j < q.len() && q[j].1.is_finalized && ids.contains(q[j].0) ==> t.1.contains(
                    #[trigger] q[j],
                )
            &&& forall|k: int|
                0 <= k < t.0.len() && ids.contains((#[trigger] t.0[k]).0) ==> !t.0[k].1.is_finalized
            &&& forall|j: int| 0 <= j < q.len() && !ids.contains(q[j].0) ==> t.0.contains(#[trigger] q[j])
        }),
    decreases ids.len(),
{
    let t = spec_take_finalized(q, ids);
    if ids.len() == 0 {
        assert forall|j: int| 0 <= j < q.len() && !ids.contains(q[j].0) implies t.0.contains(#[trigger] q[j]) by {
            assert(t.0[j] == q[j]);
        }
    } else {
        let init = ids.drop_last();
        let id = ids.last();
        lemma_take_finalized_inv(q, init);
        let prev = spec_take_finalized(q, init);
        crate::dispatcher::lemma_find_request(prev.0, id);
        assert forall|x: u32| ids.contains(x) <==> (init.contains(x) || x == id) by {
            if ids.contains(x) {
                let k = choose|k: int| 0 <= k < ids.len() && ids[k] == x;
                if k < ids.len() - 1 {
                    assert(init[k] == x);
                }
            }
            if init.contains(x) {
                let k = choose|k: int| 0 <= k < init.len() && init[k] == x;
                assert(ids[k] == x);
            }
            if x == id {
                assert(ids[ids.len() - 1] == x);
            }
        }
        match find_request(prev.0, id) {
            Some(i) => {
                if prev.0[i].1.is_finalized {
                    let r = prev.0.remove(i);
                    let taken = (id, prev.0[i].1);
                    assert(t.0 == r);
                    assert(t.1 == prev.1.push(taken));
                    assert forall|k: int| 0 <= k < r.len() implies #[trigger] r[k] == (if k < i {
                        prev.0[k]
                    } else {
                        prev.0[k + 1]
                    }) by {}
                    assert forall|a: int, b: int| 0 <= a < b < r.len() implies #[trigger] r[a].0 != #[trigger] r[b].0 by {
                        let pa = if a < i { a } else { a + 1 };
                        let pb = if b < i { b } else { b + 1 };
                        assert(r[a] == prev.0[pa]);
                        assert(r[b] == prev.0[pb]);
                    }
                    assert forall|k: int| 0 <= k < r.len() && ids.contains((#[trigger] r[k]).0) implies !r[k].1.is_finalized by {
                        let pk = if k < i { k } else { k + 1 };
                        assert(r[k] == prev.0[pk]);
                        if r[k].0 == id {
                            if pk < i {
                                assert(prev.0[pk].0 != prev.0[i].0);
                            } else {
                                assert(prev.0[i].0 != prev.0[pk].0);
                            }
                        }
                    }
                    assert forall|j: int|
                        0 <= j < q.len() && q[j].1.is_finalized && ids.contains(q[j].0) implies t.1.contains(#[trigger] q[j]) by {
                        if init.contains(q[j].0) {
                            let w = choose|w: int| 0 <= w < prev.1.len() && prev.1[w] == q[j];
                            assert(t.1[w] == q[j]);
                        } else {
                            assert(prev.0.contains(q[j]));
                            let k = choose|k: int| 0 <= k < prev.0.len() && prev.0[k] == q[j];
                            if k < i {
                                assert(prev.0[k].0 != prev.0[i].0);
                            } else if k > i {
                                assert(prev.0[i].0 != prev.0[k].0);
                            }
                            assert(t.1[prev.1.len() as int] == q[j]);
                        }
                    }
                    assert forall|j: int| 0 <= j < q.len() && !ids.contains(q[j].0) implies t.0.contains(#[trigger] q[j]) by {
                        assert(prev.0.contains(q[j]));
                        let k = choose|k: int| 0 <= k < prev.0.len() && prev.0[k] == q[j];
                        if k < i {
                            assert(r[k] == q[j]);
                        } else {
                            assert(k != i);
                            assert(r[k - 1] == q[j]);
                        }
                    }
                } else {
                    assert(t == prev);
                    assert forall|k: int| 0 <= k < t.0.len() && ids.contains((#[trigger] t.0[k]).0) implies !t.0[k].1.is_finalized by {
                        if !init.contains(t.0[k].0) {
                            if k < i {
                                assert(prev.0[k].0 != prev.0[i].0);
                            } else if k > i {
                                assert(prev.0[i].0 != prev.0[k].0);
                            }
                        }
                    }
                    assert forall|j: int|
                        0 <= j < q.len() && q[j].1.is_finalized && ids.contains(q[j].0) implies t.1.contains(#[trigger] q[j]) by {
                        if !init.contains(q[j].0) {
                            assert(prev.0.contains(q[j]));
                            let k = choose|k: int| 0 <= k < prev.0.len() && prev.0[k] == q[j];
                            if k < i {
                                assert(prev.0[k].0 != prev.0[i].0);
                            } else if k > i {
                                assert(prev.0[i].0 != prev.0[k].0);
                            }
                        }
                    }
                    assert forall|j: int| 0 <= j < q.len() && !ids.contains(q[j].0) implies t.0.contains(#[trigger] q[j]) by {
                        assert(!init.contains(q[j].0));
                    }
                }
            },
            None => {
                assert(t == prev);
                assert forall|j: int|
                    0 <= j < q.len() && q[j].1.is_finalized && ids.contains(q[j].0) implies t.1.contains(#[trigger] q[j]) by {
                    if !init.contains(q[j].0) {
                        assert(prev.0.contains(q[j]));
                        let k = choose|k: int| 0 <= k < prev.0.len() && prev.0[k] == q[j];
                        assert(prev.0[k].0 != id);
                    }
                }
                assert forall|j: int| 0 <= j < q.len() && !ids.contains(q[j].0) implies t.0.contains(#[trigger] q[j]) by {
                    assert(!init.contains(q[j].0));
                }
            },
        }
    }
}

/// The views of taken requests.
pub open spec fn taken_view(t: Seq<(u32, RpcRequest)>) -> Seq<(u32, SpecRpcRequest)> {
    t.map_values(|p: (u32, RpcRequest)| (p.0, p.1@))
}

/// Takes out of the dispatcher's queue the requests that `ids` name and
/// that have ended (see `spec_take_finalized`).
pub fn take_finalized_requests(dispatcher: &mut RpcDispatcher, ids: &Vec<u32>) -> (taken: Vec<
    (u32, RpcRequest),
>)
    requires
        old(dispatcher).wf(),
    ensures
        final(dispatcher).wf(),
        final(dispatcher)@.session == old(dispatcher)@.session,
        (final(dispatcher)@.queue, taken_view(taken@)) == spec_take_finalized(
            old(dispatcher)@.queue,
            ids@,
        ),
{
    let mut taken: Vec<(u32, RpcRequest)> = Vec::new();
    let mut k: usize = 0;
    while k < ids.len()
        invariant
            k <= ids.len(),
            dispatcher.wf(),
            dispatcher@.session == old(dispatcher)@.session,
            (dispatcher@.queue, taken_view(taken@)) == spec_take_finalized(
                old(dispatcher)@.queue,
                ids@.take(k as int),
            ),
        decreases ids.len() - k,
    {
        let id = ids[k];
        assert(ids@.take(k + 1).drop_last() =~= ids@.take(k as int));
        assert(ids@.take(k + 1).last() == id);
        let ghost q = dispatcher@.queue;
        let fin = dispatcher.is_rpc_request_finalized(id);
        match fin {
            Some(true) => {
                match dispatcher.delete_rpc_request(id) {
                    Some(req) => {
                        let ghost before = taken_view(taken@);
                        taken.push((id, req));
                        assert(taken_view(taken@) =~= before.push((id, req@)));
                    },
                    None => {},
                }
            },
            _ => {},
        }
        k = k + 1;
    }
    assert(ids@.take(ids.len() as int) =~= ids@);
    taken
}

/// What an endpoint holds, as a mathematical value: the methods with a
/// prebuffered handler and those with a streaming handler.
pub struct EndpointView {
    pub prebuffered: Set<u64>,
    pub streaming: Set<u64>,
}

/// The methods a service answers, prebuffered or streaming; the handlers
/// themselves are kept by the caller, by method id.
#[derive(Debug)]
pub struct RpcServiceEndpoint {
    prebuffered_handlers: Vec<u64>,
    stream_handlers: Vec<u64>,
}

impl View for RpcServiceEndpoint {
    type V = EndpointView;

    closed spec fn view(&self) -> EndpointView {
        EndpointView {
            prebuffered: self.prebuffered_handlers@.to_set(),
            streaming: self.stream_handlers@.to_set(),
        }
    }
}

fn contains_u64(v: &Vec<u64>, x: u64) -> (b: bool)
    ensures
        b == v@.contains(x),
{
    let mut i: usize = 0;
    while i < v.len()
        invariant
            i <= v.len(),
            forall|j: int| 0 <= j < i ==> v@[j] != x,
        decreases v.len() - i,
    {
        if v[i] == x {
            return true;
        }
        i = i + 1;
    }
    false
}

/// The message of a refused registration of method `id`.
pub open spec fn spec_registered_message(prefix: Seq<char>, id: u64) -> Seq<char> {
    prefix + spec_decimal(id as nat) + " is already registered."@
}

fn registered_message(prefix: &str, id: u64) -> (s: String)
    ensures
        s@ == spec_registered_message(prefix@, id),
{
    let s = String::from_str(prefix).concat(decimal(id).as_str()).concat(" is already registered.");
    s
}

impl RpcServiceEndpoint {
    /// An endpoint with no handlers.
    pub fn new() -> (e: RpcServiceEndpoint)
        ensures
            e@.prebuffered == Set::<u64>::empty(),
            e@.streaming == Set::<u64>::empty(),
    {
        let e = RpcServiceEndpoint { prebuffered_handlers: Vec::new(), stream_handlers: Vec::new() };
        assert(e@.prebuffered =~= Set::<u64>::empty());
        assert(e@.streaming =~= Set::<u64>::empty());
        e
    }

    /// Registers a prebuffered handler for `method_id`; refused when the
    /// method already has one.
    pub fn register_prebuffered(&mut self, method_id: u64) -> (r: Result<(), RpcServiceEndpointError>)
        ensures
            old(self)@.prebuffered.contains(method_id) ==> {
                &&& r matches Err(RpcServiceEndpointError::Handler(m)) && m@ == spec_registered_message(
                    "A handler for method ID "@,
                    method_id,
                )
                &&& final(self)@ == old(self)@
            },
            !old(self)@.prebuffered.contains(method_id) ==> {
                &&& r is Ok
                &&& final(self)@ == EndpointView {
                    prebuffered: old(self)@.prebuffered.insert(method_id),
                    ..old(self)@
                }
            },
    {
        if contains_u64(&self.prebuffered_handlers, method_id) {
            proof {
                reveal_strlit("A handler for method ID ");
            }
            return Err(
                RpcServiceEndpointError::Handler(
                    registered_message("A handler for method ID ", method_id),
                ),
            );
        }
        self.prebuffered_handlers.push(method_id);
        assert(self@.prebuffered =~= old(self)@.prebuffered.insert(method_id));
        Ok(())
    }

    /// Registers a streaming handler for `method_id`; refused when the
    /// method already has a prebuffered or a streaming handler.
    pub fn register_stream_handler(&mut self, method_id: u64) -> (r: Result<(), RpcServiceEndpointError>)
        ensures
            old(self)@.prebuffered.contains(method_id) ==> {
                &&& r matches Err(RpcServiceEndpointError::Handler(m)) && m@ == spec_registered_message(
                    "A prebuffered handler for method ID "@,
                    method_id,
                )
                &&& final(self)@ == old(self)@
            },
            !old(self)@.prebuffered.contains(method_id) && old(self)@.streaming.contains(method_id)
                ==> {
                &&& r matches Err(RpcServiceEndpointError::Handler(m)) && m@ == spec_registered_message(
                    "A streaming handler for method ID "@,
                    method_id,
                )
                &&& final(self)@ == old(self)@
            },
            !old(self)@.prebuffered.contains(method_id) && !old(self)@.streaming.contains(method_id)
                ==> {
                &&& r is Ok
                &&& final(self)@ == EndpointView {
                    streaming: old(self)@.streaming.insert(method_id),
                    ..old(self)@
                }
            },
    {
        if contains_u64(&self.prebuffered_handlers, method_id) {
            return Err(
                RpcServiceEndpointError::Handler(
                    registered_message("A prebuffered handler for method ID ", method_id),
                ),
            );
        }
        if contains_u64(&self.stream_handlers, method_id) {
            return Err(
                RpcServiceEndpointError::Handler(
                    registered_message("A streaming handler for method ID ", method_id),
                ),
            );
        }
        self.stream_handlers.push(method_id);
        assert(self@.streaming =~= old(self)@.streaming.insert(method_id));
        Ok(())
    }

    /// A dispatcher once this endpoint's streaming methods are routed to
    /// handlers of their own (unchanged when there are none).
    pub open spec fn routed(&self, d: DispatcherView) -> DispatcherView {
        if self@.streaming.len() == 0 {
            d
        } else {
            DispatcherView {
                session: RespondableView {
                    routing: RoutingView { router: Some(self@.streaming), ..d.session.routing },
                    ..d.session
                },
                ..d
            }
        }
    }

    /// Whether `method_id` has a prebuffered handler.
    pub fn has_prebuffered_handler(&self, method_id: u64) -> (b: bool)
        ensures
            b == self@.prebuffered.contains(method_id),
    {
        contains_u64(&self.prebuffered_handlers, method_id)
    }

    /// Stage one of reading: routes the streams of streaming methods to
    /// handlers of their own (when there are streaming handlers), takes in
    /// the bytes (see `RpcDispatcher::read_bytes`), and takes out of the
    /// queue the requests that have ended (see `spec_take_finalized`).
    /// Returns those requests and the events for handlers of their own.
    /// A corrupt frame refuses the read with a `Decode` error.
    pub fn read_requests(&self, dispatcher: &mut RpcDispatcher, bytes: &[u8]) -> (r: Result<
        (Vec<(u32, RpcRequest)>, Vec<Delivery>),
        RpcServiceEndpointError,
    >)
        requires
            old(dispatcher).wf(),
        ensures
            final(dispatcher).wf(),
            ({
                let v1 = self.routed(old(dispatcher)@);
                match spec_dispatcher_read(v1, bytes@) {
                    Some((v2, ids, ds)) => {
                        let t = spec_take_finalized(v2.queue, ids);
                        &&& r matches Ok((taken, dels)) && taken_view(taken@) == t.1
                            && deliveries_view(dels@) == ds
                        &&& final(dispatcher)@ == DispatcherView { queue: t.0, ..v2 }
                    },
                    None => {
                        &&& r matches Err(e) && e == RpcServiceEndpointError::Decode(
                            FrameDecodeError::CorruptFrame,
                        )
                        &&& final(dispatcher)@ == RpcDispatcher::refused_read(v1)
                    },
                }
            }),
    {
        if self.stream_handlers.len() > 0 {
            let ids = slice_to_vec(self.stream_handlers.as_slice());
            dispatcher.set_stream_method_router(ids);
        }
        proof {
            if self.stream_handlers.len() == 0 {
                assert(self@.streaming =~= Set::<u64>::empty());
            } else {
                assert(self@.streaming.contains(self.stream_handlers@[0]));
            }
        }
        assert(dispatcher@ == self.routed(old(dispatcher)@));
        match dispatcher.read_bytes(bytes) {
            Ok((ids, ds)) => {
                let taken = take_finalized_requests(dispatcher, &ids);
                Ok((taken, ds))
            },
            Err(e) => Err(RpcServiceEndpointError::Decode(e)),
        }
    }
}

/// Routing two tables the same way on a run's first event routes the
/// whole run the same way.
proof fn lemma_route_all_same_first(a: RoutingView, b: RoutingView, es: Seq<SpecStreamEvent>)
    requires
        es.len() > 0,
        spec_route(a, es[0]) == spec_route(b, es[0]),
    ensures
        spec_route_all(a, es) == spec_route_all(b, es),
    decreases es.len(),
{
    if es.len() == 1 {
        assert(es.drop_last() =~= Seq::<SpecStreamEvent>::empty());
        assert(es.last() == es[0]);
        assert(spec_route_all(a, es.drop_last()) == (a, Seq::<SpecDelivery>::empty()));
        assert(spec_route_all(b, es.drop_last()) == (b, Seq::<SpecDelivery>::empty()));
    } else {
        assert(es.drop_last()[0] == es[0]);
        lemma_route_all_same_first(a, b, es.drop_last());
    }
}

/// Calls of a streaming method reach its streaming handler: when an
/// endpoint with a streaming handler for the method of header `h` reads a
/// whole call stream (see `RpcServiceEndpoint::read_requests`, which routes
/// before it reads), every event of the call goes, in order, to the handler
/// of the call's request, and nothing is queued as a prebuffered request.
pub proof fn lemma_streaming_call_reaches_handler(
    e: RpcServiceEndpoint,
    v: DispatcherView,
    fs: Seq<SpecFrame>,
    sid: u32,
    h: SpecRpcHeader,
    body: Seq<u8>,
    n: nat,
)
    requires
        header_fits(h),
        0 < n <= u32::MAX,
        outgoing_frames(fs, sid, h, body, n, true),
        v.session.session.pending == Seq::<u8>::empty(),
        !v.session.session.streams.contains_key(sid),
        !is_prebuffering(v.session.routing, h.rpc_request_id),
        e@.streaming.contains(h.rpc_method_id),
    ensures
        spec_dispatcher_read(e.routed(v), spec_frames_bytes(fs)) matches Some((v2, ids, ds)) && {
            let es = seq![header_event(h)] + spec_chunk_events(h, body_data(body, n, true)) + seq![
                end_event(h),
            ];
            &&& ds == es.map_values(|ev: SpecStreamEvent| to_handler(h.rpc_request_id, ev))
            &&& v2.queue == v.queue
            &&& ids == queue_ids(v.queue)
        },
{
    let rid = h.rpc_request_id;
    let data = body_data(body, n, true);
    let es = seq![header_event(h)] + spec_chunk_events(h, data) + seq![end_event(h)];
    vstd::seq_lib::seq_to_set_is_finite(e.stream_handlers@);
    if e@.streaming.len() == 0 {
        e@.streaming.lemma_len0_is_empty();
        assert(false);
    }
    let v1 = e.routed(v);
    let rv1 = v1.session.routing;
    assert(rv1.router == Some(e@.streaming));
    let rv2 = RoutingView { handlers: rv1.handlers.insert(rid), ..rv1 };
    assert(rv2.handlers.insert(rid) =~= rv2.handlers);
    assert(es[0] == header_event(h));
    assert(spec_route(rv1, es[0]) == spec_route(rv2, es[0]));
    lemma_route_all_same_first(rv1, rv2, es);
    crate::respondable::lemma_response_reaches_handler(rv2, h, data);
    let mapped = es.map_values(|ev: SpecStreamEvent| to_handler(rid, ev));
    assert forall|i: int| 0 <= i < mapped.len() implies (#[trigger] mapped[i]).target != Target::CatchAll by {
        assert(mapped[i].target == Target::Handler(rid));
    }
    crate::dispatcher::lemma_dispatch_handler_deliveries(v.queue, mapped);
    crate::dispatcher::lemma_sent_stream_read(v.session.session.streams, fs, sid, h, body, n);
    assert(v1.session.session.pending + spec_frames_bytes(fs) =~= Seq::<u8>::empty() + spec_frames_bytes(fs));
}

impl Default for RpcServiceEndpoint {
    /// An endpoint with no handlers.
    fn default() -> (e: RpcServiceEndpoint)
        ensures
            e@.prebuffered == Set::<u64>::empty(),
            e@.streaming == Set::<u64>::empty(),
    {
        RpcServiceEndpoint::new()
    }
}

/// Stage three of reading: sends each response in its own stream, in
/// order, with the default chunk size; returns each stream's frames, all
/// stamped with `timestamp`.
pub fn send_responses(dispatcher: &mut RpcDispatcher, responses: Vec<RpcResponse>, timestamp: u64) -> (frames: Vec<
    Vec<Frame>,
>)
    requires
        old(dispatcher).wf(),
    ensures
        final(dispatcher).wf(),
        final(dispatcher)@.queue == old(dispatcher)@.queue,
        final(dispatcher)@.session.routing == old(dispatcher)@.session.routing,
        final(dispatcher)@.session.session.next_id == seq_after(
            old(dispatcher)@.session.session.next_id,
            responses.len() as nat,
        ),
        frames.len() == responses.len(),
        forall|i: int|
            0 <= i < responses.len() ==> {
                let resp = #[trigger] responses@[i];
                outgoing_frames(
                    frames_view(frames@[i]@),
                    old(dispatcher)@.session.session.id_space.spec_place(
                        seq_after(old(dispatcher)@.session.session.next_id, i as nat),
                    ),
                    response_header(resp.rpc_request_id, resp.rpc_method_id, resp.rpc_result_status),
                    bytes_or_empty(opt_bytes_view(resp.rpc_prebuffered_payload_bytes)),
                    DEFAULT_SERVICE_MAX_CHUNK_SIZE as nat,
                    resp.is_finalized,
                )
            },
        forall|i: int| 0 <= i < frames.len() ==> stamped(frames_view(#[trigger] frames@[i]@), timestamp),
{
    let ghost rs = responses@;
    let ghost d0 = dispatcher@;
    let n = responses.len();
    let mut responses = responses;
    let mut rev: Vec<RpcResponse> = Vec::new();
    while responses.len() > 0
        invariant
            responses.len() + rev.len() == n,
            n == rs.len(),
            forall|j: int| 0 <= j < rev.len() ==> #[trigger] rev@[j] == rs[n - 1 - j],
            forall|j: int| 0 <= j < responses.len() ==> #[trigger] responses@[j] == rs[j],
        decreases responses.len(),
    {
        let r = responses.pop().unwrap();
        rev.push(r);
    }
    let mut out: Vec<Vec<Frame>> = Vec::new();
    let mut i: usize = 0;
    while rev.len() > 0
        invariant
            i + rev.len() == n,
            n == rs.len(),
            out.len() == i,
            forall|j: int| 0 <= j < rev.len() ==> #[trigger] rev@[j] == rs[n - 1 - j],
            dispatcher.wf(),
            dispatcher@.queue == d0.queue,
            dispatcher@.session.routing == d0.session.routing,
            dispatcher@.session.session.id_space == d0.session.session.id_space,
            dispatcher@.session.session.next_id == seq_after(d0.session.session.next_id, i as nat),
            forall|j: int|
                0 <= j < i ==> {
                    let resp = #[trigger] rs[j];
                    outgoing_frames(
                        frames_view(out@[j]@),
                        d0.session.session.id_space.spec_place(
                            seq_after(d0.session.session.next_id, j as nat),
                        ),
                        response_header(resp.rpc_request_id, resp.rpc_method_id, resp.rpc_result_status),
                        bytes_or_empty(opt_bytes_view(resp.rpc_prebuffered_payload_bytes)),
                        DEFAULT_SERVICE_MAX_CHUNK_SIZE as nat,
                        resp.is_finalized,
                    )
                },
            forall|j: int| 0 <= j < i ==> stamped(frames_view(#[trigger] out@[j]@), timestamp),
        decreases rev.len(),
    {
        let resp = rev.pop().unwrap();
        assert(resp == rs[i as int]);
        match dispatcher.respond(resp, DEFAULT_SERVICE_MAX_CHUNK_SIZE, timestamp) {
            Ok((_, frames)) => {
                out.push(frames);
            },
            Err(_) => {
                out.push(Vec::new());
            },
        }
        i = i + 1;
    }
    out
}

/// A response chunk queued by a streaming handler.
#[derive(Debug)]
pub struct PendingResponse {
    pub request_id: u32,
    pub chunk: Vec<u8>,
    pub is_finalized: bool,
}

/// A pending response chunk as a mathematical value.
pub struct SpecPendingResponse {
    pub request_id: u32,
    pub chunk: Seq<u8>,
    pub is_finalized: bool,
}

impl View for PendingResponse {
    type V = SpecPendingResponse;

    open spec fn view(&self) -> SpecPendingResponse {
        SpecPendingResponse {
            request_id: self.request_id,
            chunk: self.chunk@,
            is_finalized: self.is_finalized,
        }
    }
}

/// The views of pending response chunks.
pub open spec fn pending_view(p: Seq<PendingResponse>) -> Seq<SpecPendingResponse> {
    p.map_values(|r: PendingResponse| r@)
}

/// The handle through which a streaming handler answers request
/// `request_id`: its chunks are queued, in order, to be sent after the
/// current read.
#[derive(Debug)]
pub struct StreamResponder {
    request_id: u32,
    buffer: Vec<PendingResponse>,
}

impl StreamResponder {
    /// The request this responder answers.
    pub closed spec fn spec_request_id(&self) -> u32 {
        self.request_id
    }

    /// The chunks queued so far.
    pub closed spec fn pending(&self) -> Seq<SpecPendingResponse> {
        pending_view(self.buffer@)
    }

    /// A responder for `request_id` that queues after `buffer`.
    pub fn new(request_id: u32, buffer: Vec<PendingResponse>) -> (r: StreamResponder)
        ensures
            r.spec_request_id() == request_id,
            r.pending() == pending_view(buffer@),
    {
        StreamResponder { request_id, buffer }
    }

    /// Queues a response chunk; `is_finalized` on the last one ends the
    /// response.
    pub fn respond(&mut self, chunk: Vec<u8>, is_finalized: bool)
        ensures
            final(self).spec_request_id() == old(self).spec_request_id(),
            final(self).pending() == old(self).pending().push(
                SpecPendingResponse {
                    request_id: old(self).spec_request_id(),
                    chunk: chunk@,
                    is_finalized,
                },
            ),
    {
        let ghost before = pending_view(self.buffer@);
        self.buffer.push(PendingResponse { request_id: self.request_id, chunk, is_finalized });
        assert(pending_view(self.buffer@) =~= before.push(
            SpecPendingResponse { request_id: self.request_id, chunk: chunk@, is_finalized },
        ));
    }

    /// Hands over the queued chunks, leaving none.
    pub fn take_pending(&mut self) -> (p: Vec<PendingResponse>)
        ensures
            final(self).spec_request_id() == old(self).spec_request_id(),
            final(self).pending() == Seq::<SpecPendingResponse>::empty(),
            pending_view(p@) == old(self).pending(),
    {
        let mut p: Vec<PendingResponse> = Vec::new();
        std::mem::swap(&mut p, &mut self.buffer);
        assert(pending_view(self.buffer@) =~= Seq::<SpecPendingResponse>::empty());
        p
    }
}

/// Sends one chunk that a streaming handler queued, through the writer of
/// its response: when the response has no writer yet, one is opened first
/// (see `RpcDispatcher::create_response_writer`, with the default chunk
/// size) and its opening frame goes out before the chunk; the chunk is
/// then written (see `RpcResponseWriter::write`). Returns the writer to
/// keep for the next chunk (none once the chunk finishes the response) and
/// the frames to send, all stamped with `timestamp`.
pub fn send_stream_chunk(
    dispatcher: &mut RpcDispatcher,
    writer: Option<RpcResponseWriter>,
    pending: PendingResponse,
    timestamp: u64,
) -> (r: (Option<RpcResponseWriter>, Vec<Frame>))
    requires
        old(dispatcher).wf(),
        writer matches Some(w) ==> w.wf(),
    ensures
        final(dispatcher).wf(),
        stamped(frames_view(r.1@), timestamp),
        pending.is_finalized ==> r.0 is None,
        !pending.is_finalized ==> (r.0 matches Some(w2) && w2.wf()),
        ({
            let data = body_data(pending.chunk@, DEFAULT_SERVICE_MAX_CHUNK_SIZE as nat, true);
            let fin = pending.is_finalized;
            match writer {
                None => {
                    let sid = old(dispatcher)@.session.session.id_space.spec_place(
                        old(dispatcher)@.session.session.next_id,
                    );
                    &&& final(dispatcher)@ == (DispatcherView {
                        session: RespondableView {
                            session: SessionView {
                                next_id: seq_inc(old(dispatcher)@.session.session.next_id),
                                ..old(dispatcher)@.session.session
                            },
                            ..old(dispatcher)@.session
                        },
                        ..old(dispatcher)@
                    })
                    &&& frames_are(
                        frames_view(r.1@),
                        sid,
                        0,
                        seq![FrameKind::Open] + body_kinds(data.len(), fin),
                        seq![spec_header_bytes(response_header(pending.request_id, 0, Some(0u8)))]
                            + body_payloads(data, fin),
                    )
                    &&& (r.0 matches Some(w2) ==> w2@ == EncoderView {
                        stream_id: sid,
                        next_seq: seq_after(1, body_payloads(data, fin).len()),
                        chunk_size: DEFAULT_SERVICE_MAX_CHUNK_SIZE as nat,
                        pending: Seq::empty(),
                        state: StreamState::Open,
                    })
                },
                Some(w) => {
                    &&& final(dispatcher)@ == old(dispatcher)@
                    &&& w@.state != StreamState::Open ==> r.1@.len() == 0
                    &&& w@.state != StreamState::Open ==> (r.0 matches Some(w2) ==> w2@ == w@)
                    &&& w@.state == StreamState::Open ==> {
                        let data = body_data(pending.chunk@, w@.chunk_size, true);
                        &&& frames_are(
                            frames_view(r.1@),
                            w@.stream_id,
                            w@.next_seq,
                            body_kinds(data.len(), fin),
                            body_payloads(data, fin),
                        )
                        &&& (r.0 matches Some(w2) ==> w2@ == EncoderView {
                            next_seq: seq_after(w@.next_seq, body_payloads(data, fin).len()),
                            pending: Seq::empty(),
                            state: StreamState::Open,
                            ..w@
                        })
                    }
                },
            }
        }),
{
    let (mut w, mut frames) = match writer {
        Some(w) => (w, Vec::new()),
        None => {
            match dispatcher.create_response_writer(
                pending.request_id,
                DEFAULT_SERVICE_MAX_CHUNK_SIZE,
                timestamp,
            ) {
                Ok((w, opening)) => (w, opening),
                Err(_) => {
                    return (None, Vec::new());
                },
            }
        },
    };
    let ghost w0 = w@;
    let ghost first = frames_view(frames@);
    let mut more = w.write(pending.chunk.as_slice(), pending.is_finalized, timestamp);
    let ghost mv = frames_view(more@);
    frames.append(&mut more);
    assert(frames_view(frames@) =~= first + mv);
    proof {
        crate::stream_encoder::lemma_stamped_append(first, mv, timestamp);
        if writer is None {
            let data = body_data(pending.chunk@, DEFAULT_SERVICE_MAX_CHUNK_SIZE as nat, true);
            let fin = pending.is_finalized;
            assert(seq_after(0, 1) == 1) by {
                reveal_with_fuel(seq_after, 2);
            }
            crate::stream_encoder::lemma_frames_are_append(
                first,
                mv,
                w0.stream_id,
                0,
                seq![FrameKind::Open],
                seq![spec_header_bytes(response_header(pending.request_id, 0, Some(0u8)))],
                body_kinds(data.len(), fin),
                body_payloads(data, fin),
            );
        } else {
            assert(first =~= Seq::<crate::frame::SpecFrame>::empty());
            assert(first + mv =~= mv);
            assert(frames_view(frames@) == mv);
            assert(w0 == writer->0@);
        }
    }
    if pending.is_finalized {
        (None, frames)
    } else {
        (Some(w), frames)
    }
}

} // verus!
