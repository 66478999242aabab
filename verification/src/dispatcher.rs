use vstd::prelude::*;

use crate::frame::{
    Frame, FrameDecodeError, FrameEncodeError, FrameKind, SpecFrame, frames_view, spec_parse_frames,
};
use crate::ids::IdSpace;
use crate::respondable::{
    Delivery, RespondableView, RoutingView, RpcRespondableSession, SpecDelivery, Target,
    deliveries_view, is_prebuffering, spec_route, spec_route_all,
};
use crate::rpc_header::{RpcHeader, RpcMessageType, SpecRpcHeader, header_fits, spec_header_bytes};
use crate::session::{
    SessionView, end_event, header_event, lemma_stream_roundtrip, spec_chunk_events,
    spec_events_payload, spec_session_trace, spec_stream_run, untag,
};
use crate::stream_decoder::{RpcStreamEvent, SpecInbound, SpecStreamEvent, spec_stream_step};
use crate::stream_encoder::{
    EncoderView, RpcStreamEncoder, StreamState, chunk_size_ok, data_kinds, flush_payloads,
    frames_are, lemma_frames_are_append, seq_after, seq_inc, spec_chunk_rest,
    spec_full_chunks, stamped,
};

verus! {

broadcast use vstd::seq_lib::group_seq_properties;

/// A request as a mathematical value.
pub struct SpecRpcRequest {
    pub rpc_method_id: u64,
    pub rpc_param_bytes: Option<Seq<u8>>,
    pub rpc_prebuffered_payload_bytes: Option<Seq<u8>>,
    pub is_finalized: bool,
}

/// An RPC request: the method, its parameters (sent as header metadata),
/// an optional payload (sent as the stream's body), and whether the
/// request is complete.
#[derive(Debug)]
pub struct RpcRequest {
    pub rpc_method_id: u64,
    pub rpc_param_bytes: Option<Vec<u8>>,
    pub rpc_prebuffered_payload_bytes: Option<Vec<u8>>,
    pub is_finalized: bool,
}

/// The view of optional bytes.
pub open spec fn opt_bytes_view(b: Option<Vec<u8>>) -> Option<Seq<u8>> {
    match b {
        Some(v) => Some(v@),
        None => None,
    }
}

/// Optional bytes, or none at all.
pub open spec fn bytes_or_empty(b: Option<Seq<u8>>) -> Seq<u8> {
    match b {
        Some(v) => v,
        None => Seq::empty(),
    }
}

impl View for RpcRequest {
    type V = SpecRpcRequest;

    open spec fn view(&self) -> SpecRpcRequest {
        SpecRpcRequest {
            rpc_method_id: self.rpc_method_id,
            rpc_param_bytes: opt_bytes_view(self.rpc_param_bytes),
            rpc_prebuffered_payload_bytes: opt_bytes_view(self.rpc_prebuffered_payload_bytes),
            is_finalized: self.is_finalized,
        }
    }
}

/// A response to a request: the request and method it answers, an optional
/// result status (sent as the header's only metadata byte), an optional
/// payload, and whether the response is complete.
#[derive(Debug)]
pub struct RpcResponse {
    pub rpc_request_id: u32,
    pub rpc_method_id: u64,
    pub rpc_result_status: Option<u8>,
    pub rpc_prebuffered_payload_bytes: Option<Vec<u8>>,
    pub is_finalized: bool,
}

/// The data payloads of a body written to a fresh stream with chunk size
/// `n`: its whole chunks, then, when flushed, what is left of it.
pub open spec fn body_data(body: Seq<u8>, n: nat, flush: bool) -> Seq<Seq<u8>> {
    if flush {
        spec_full_chunks(body, n) + flush_payloads(spec_chunk_rest(body, n))
    } else {
        spec_full_chunks(body, n)
    }
}

/// Kinds of `d` data frames, followed by an `End` frame when `end` holds.
pub open spec fn body_kinds(d: nat, end: bool) -> Seq<FrameKind> {
    if end {
        data_kinds(d).push(FrameKind::End)
    } else {
        data_kinds(d)
    }
}

/// Payloads of data frames `data`, followed by the empty payload of an
/// `End` frame when `end` holds.
pub open spec fn body_payloads(data: Seq<Seq<u8>>, end: bool) -> Seq<Seq<u8>> {
    if end {
        data.push(Seq::empty())
    } else {
        data
    }
}

/// Writes `body` to an open stream with nothing pending, flushes it when
/// `flush` holds and ends it when `end` holds; returns the frames.
pub(crate) fn send_body(
    enc: &mut RpcStreamEncoder,
    body: &[u8],
    flush: bool,
    end: bool,
    timestamp: u64,
) -> (frames: Vec<Frame>)
    requires
        old(enc).wf(),
        old(enc)@.state == StreamState::Open,
        old(enc)@.pending == Seq::<u8>::empty(),
        end ==> flush,
    ensures
        final(enc).wf(),
        ({
            let data = body_data(body@, old(enc)@.chunk_size, flush);
            &&& frames_are(
                frames_view(frames@),
                old(enc)@.stream_id,
                old(enc)@.next_seq,
                body_kinds(data.len(), end),
                body_payloads(data, end),
            )
            &&& final(enc)@ == EncoderView {
                next_seq: seq_after(old(enc)@.next_seq, body_payloads(data, end).len()),
                pending: if flush {
                    Seq::empty()
                } else {
                    spec_chunk_rest(body@, old(enc)@.chunk_size)
                },
                state: if end {
                    StreamState::Ended
                } else {
                    StreamState::Open
                },
                ..old(enc)@
            }
        }),
        stamped(frames_view(frames@), timestamp),
{
    let ghost e0 = enc@;
    let ghost n = e0.chunk_size;
    let ghost chunks = spec_full_chunks(body@, n);
    let ghost rest = spec_chunk_rest(body@, n);
    assert(e0.pending + body@ =~= body@);
    let mut frames = match enc.write_bytes(body, timestamp) {
        Ok(f) => f,
        Err(_) => Vec::new(),
    };
    assert(data_kinds(chunks.len()) =~= body_kinds(chunks.len(), false));
    if flush {
        let ghost before = frames_view(frames@);
        let ghost s1 = enc@.next_seq;
        let mut more = match enc.flush(timestamp) {
            Ok(f) => f,
            Err(_) => Vec::new(),
        };
        let ghost fp = flush_payloads(rest);
        proof {
            lemma_frames_are_append(
                before,
                frames_view(more@),
                e0.stream_id,
                e0.next_seq,
                data_kinds(chunks.len()),
                chunks,
                data_kinds(fp.len()),
                fp,
            );
            assert(data_kinds(chunks.len()) + data_kinds(fp.len()) =~= data_kinds(
                chunks.len() + fp.len(),
            ));
            crate::stream_encoder::lemma_seq_after_add(e0.next_seq, chunks.len(), fp.len());
        }
        let ghost mv = frames_view(more@);
        frames.append(&mut more);
        assert(frames_view(frames@) =~= before + mv);
        proof {
            crate::stream_encoder::lemma_stamped_append(before, mv, timestamp);
        }
        if end {
            let ghost before2 = frames_view(frames@);
            let ghost data = chunks + fp;
            let mut last = match enc.end_stream(timestamp) {
                Ok(f) => f,
                Err(_) => Vec::new(),
            };
            proof {
                assert(flush_payloads(Seq::<u8>::empty()) =~= Seq::<Seq<u8>>::empty());
                assert(data_kinds(0).push(FrameKind::End) =~= seq![FrameKind::End]);
                assert(Seq::<Seq<u8>>::empty().push(Seq::<u8>::empty()) =~= seq![Seq::<u8>::empty()]);
                lemma_frames_are_append(
                    before2,
                    frames_view(last@),
                    e0.stream_id,
                    e0.next_seq,
                    data_kinds(data.len()),
                    data,
                    seq![FrameKind::End],
                    seq![Seq::<u8>::empty()],
                );
                assert(data_kinds(data.len()) + seq![FrameKind::End] =~= body_kinds(data.len(), true));
                assert(data + seq![Seq::<u8>::empty()] =~= body_payloads(data, true));
                crate::stream_encoder::lemma_seq_after_add(e0.next_seq, data.len(), 1);
            }
            let ghost lv = frames_view(last@);
            frames.append(&mut last);
            assert(frames_view(frames@) =~= before2 + lv);
            proof {
                crate::stream_encoder::lemma_stamped_append(before2, lv, timestamp);
            }
        }
    }
    frames
}

/// The bytes of a result status, as header metadata.
pub open spec fn status_metadata(s: Option<u8>) -> Seq<u8> {
    match s {
        Some(b) => seq![b],
        None => Seq::empty(),
    }
}

/// The header of a call with id `rid`.
pub open spec fn call_header(rid: u32, req: SpecRpcRequest) -> SpecRpcHeader {
    SpecRpcHeader {
        rpc_msg_type: RpcMessageType::Call,
        rpc_request_id: rid,
        rpc_method_id: req.rpc_method_id,
        rpc_metadata_bytes: bytes_or_empty(req.rpc_param_bytes),
    }
}

/// The header of a response.
pub open spec fn response_header(
    rid: u32,
    method: u64,
    status: Option<u8>,
) -> SpecRpcHeader {
    SpecRpcHeader {
        rpc_msg_type: RpcMessageType::Response,
        rpc_request_id: rid,
        rpc_method_id: method,
        rpc_metadata_bytes: status_metadata(status),
    }
}

/// The frames of a stream opened on `sid` with header `h`, whose body is
/// written at once and which is ended at once when `fin` holds.
pub open spec fn outgoing_frames(
    fs: Seq<SpecFrame>,
    sid: u32,
    h: SpecRpcHeader,
    body: Seq<u8>,
    n: nat,
    fin: bool,
) -> bool {
    let data = body_data(body, n, fin);
    frames_are(
        fs,
        sid,
        0,
        seq![FrameKind::Open] + body_kinds(data.len(), fin),
        seq![spec_header_bytes(h)] + body_payloads(data, fin),
    )
}

/// The encoder of such a stream afterwards.
pub open spec fn outgoing_encoder(sid: u32, body: Seq<u8>, n: nat, fin: bool) -> EncoderView {
    EncoderView {
        stream_id: sid,
        next_seq: seq_after(1, body_payloads(body_data(body, n, fin), fin).len()),
        chunk_size: n,
        pending: if fin {
            Seq::empty()
        } else {
            spec_chunk_rest(body, n)
        },
        state: if fin {
            StreamState::Ended
        } else {
            StreamState::Open
        },
    }
}

/// Opens a stream with `init`'s result and sends `body`, ending it when
/// `fin` holds.
fn open_and_send(
    opened: Result<(RpcStreamEncoder, Vec<Frame>), FrameEncodeError>,
    body: &[u8],
    fin: bool,
    timestamp: u64,
    Ghost(sid): Ghost<u32>,
    Ghost(h): Ghost<SpecRpcHeader>,
    Ghost(n): Ghost<usize>,
) -> (r: Result<(RpcStreamEncoder, Vec<Frame>), FrameEncodeError>)
    requires
        opened matches Ok((enc, frames)) ==> {
            &&& enc.wf()
            &&& enc@ == EncoderView {
                stream_id: sid,
                next_seq: 1,
                chunk_size: n as nat,
                pending: Seq::empty(),
                state: StreamState::Open,
            }
            &&& frames_are(
                frames_view(frames@),
                sid,
                0,
                seq![FrameKind::Open],
                seq![spec_header_bytes(h)],
            )
            &&& stamped(frames_view(frames@), timestamp)
        },
    ensures
        r is Ok <==> opened is Ok,
        r matches Err(e) ==> opened == Err::<(RpcStreamEncoder, Vec<Frame>), FrameEncodeError>(e),
        r matches Ok((enc, frames)) ==> {
            &&& enc.wf()
            &&& enc@ == outgoing_encoder(sid, body@, n as nat, fin)
            &&& outgoing_frames(frames_view(frames@), sid, h, body@, n as nat, fin)
            &&& stamped(frames_view(frames@), timestamp)
        },
{
    match opened {
        Err(e) => Err(e),
        Ok((mut enc, mut frames)) => {
            let ghost first = frames_view(frames@);
            let mut more = send_body(&mut enc, body, fin, fin, timestamp);
            let ghost data = body_data(body@, n as nat, fin);
            proof {
                assert(seq_after(0, 1) == 1) by {
                    reveal_with_fuel(seq_after, 2);
                }
                lemma_frames_are_append(
                    first,
                    frames_view(more@),
                    sid,
                    0,
                    seq![FrameKind::Open],
                    seq![spec_header_bytes(h)],
                    body_kinds(data.len(), fin),
                    body_payloads(data, fin),
                );
            }
            let ghost mv = frames_view(more@);
            frames.append(&mut more);
            assert(frames_view(frames@) =~= first + mv);
            proof {
                crate::stream_encoder::lemma_stamped_append(first, mv, timestamp);
            }
            Ok((enc, frames))
        },
    }
}

/// Finds the first queued request with id `id`.
pub open spec fn find_request(q: Seq<(u32, SpecRpcRequest)>, id: u32) -> Option<int>
    decreases q.len(),
{
    if q.len() == 0 {
        None
    } else if q[0].0 == id {
        Some(0)
    } else {
        match find_request(q.drop_first(), id) {
            Some(i) => Some(i + 1),
            None => None,
        }
    }
}

pub(crate) proof fn lemma_find_request(q: Seq<(u32, SpecRpcRequest)>, id: u32)
    ensures
        match find_request(q, id) {
            Some(i) => 0 <= i < q.len() && q[i].0 == id && forall|j: int| 0 <= j < i ==> q[j].0 != id,
            None => forall|j: int| 0 <= j < q.len() ==> q[j].0 != id,
        },
    decreases q.len(),
{
    if q.len() > 0 {
        lemma_find_request(q.drop_first(), id);
        if q[0].0 != id {
            match find_request(q.drop_first(), id) {
                Some(i) => {
                    assert forall|j: int| 0 <= j < i + 1 implies q[j].0 != id by {
                        if j > 0 {
                            assert(q[j] == q.drop_first()[j - 1]);
                        }
                    }
                },
                None => {
                    assert forall|j: int| 0 <= j < q.len() implies q[j].0 != id by {
                        if j > 0 {
                            assert(q[j] == q.drop_first()[j - 1]);
                        }
                    }
                },
            }
        }
    }
}

/// The queue of inbound requests after the catch-all has seen `e`: a
/// header queues a new request (its metadata, when there is any, as
/// parameters), a chunk is appended to the payload of the first queued
/// request with its id, an end marks that request finalized, and an error
/// changes nothing. Chunks and ends of requests not queued are dropped.
pub open spec fn spec_queue_step(q: Seq<(u32, SpecRpcRequest)>, e: SpecStreamEvent) -> Seq<
    (u32, SpecRpcRequest),
> {
    match e {
        SpecStreamEvent::Header { rpc_request_id, rpc_header, .. } => q.push(
            (
                rpc_request_id,
                SpecRpcRequest {
                    rpc_method_id: rpc_header.rpc_method_id,
                    rpc_param_bytes: if rpc_header.rpc_metadata_bytes.len() == 0 {
                        None
                    } else {
                        Some(rpc_header.rpc_metadata_bytes)
                    },
                    rpc_prebuffered_payload_bytes: None,
                    is_finalized: false,
                },
            ),
        ),
        SpecStreamEvent::PayloadChunk { rpc_request_id, bytes, .. } => match find_request(
            q,
            rpc_request_id,
        ) {
            Some(i) => q.update(
                i,
                (
                    q[i].0,
                    SpecRpcRequest {
                        rpc_prebuffered_payload_bytes: Some(
                            bytes_or_empty(q[i].1.rpc_prebuffered_payload_bytes) + bytes,
                        ),
                        ..q[i].1
                    },
                ),
            ),
            None => q,
        },
        SpecStreamEvent::End { rpc_request_id, .. } => match find_request(q, rpc_request_id) {
            Some(i) => q.update(i, (q[i].0, SpecRpcRequest { is_finalized: true, ..q[i].1 })),
            None => q,
        },
        SpecStreamEvent::Error { .. } => q,
    }
}

/// Deliveries in order, those for the catch-all applied to the queue and
/// the others kept: the queue afterwards and the deliveries kept.
pub open spec fn spec_dispatch(q: Seq<(u32, SpecRpcRequest)>, ds: Seq<SpecDelivery>) -> (
    Seq<(u32, SpecRpcRequest)>,
    Seq<SpecDelivery>,
)
    decreases ds.len(),
{
    if ds.len() == 0 {
        (q, Seq::empty())
    } else {
        let prev = spec_dispatch(q, ds.drop_last());
        let d = ds.last();
        if d.target == Target::CatchAll {
            (spec_queue_step(prev.0, d.event), prev.1)
        } else {
            (prev.0, prev.1.push(d))
        }
    }
}

/// The ids of the queued requests, in order.
pub open spec fn queue_ids(q: Seq<(u32, SpecRpcRequest)>) -> Seq<u32> {
    q.map_values(|p: (u32, SpecRpcRequest)| p.0)
}

/// The error event that a failed request's handler gets.
pub open spec fn failure_delivery(id: u32, e: FrameDecodeError) -> SpecDelivery {
    SpecDelivery {
        target: Target::Handler(id),
        event: SpecStreamEvent::Error {
            rpc_header: None,
            rpc_request_id: Some(id),
            rpc_method_id: None,
            frame_decode_error: e,
        },
    }
}

/// The error events that the handlers of requests `ids` get, in order.
pub open spec fn failures(ids: Seq<u32>, e: FrameDecodeError) -> Seq<SpecDelivery> {
    ids.map_values(|id: u32| failure_delivery(id, e))
}

/// What a dispatcher holds, as a mathematical value.
pub struct DispatcherView {
    pub session: RespondableView,
    /// The inbound requests, in the order their headers arrived.
    pub queue: Seq<(u32, SpecRpcRequest)>,
}

/// A dispatcher after a read: the new state, the ids of all queued
/// requests, and the deliveries for handlers of their own; `None` when a
/// corrupt frame refuses the read. The bytes are reassembled into frames
/// and streams (see `RpcSession::read_bytes`), the events routed (see
/// `spec_route_all`), and those for the catch-all applied to the queue
/// (see `spec_dispatch`).
pub open spec fn spec_dispatcher_read(v: DispatcherView, bytes: Seq<u8>) -> Option<
    (DispatcherView, Seq<u32>, Seq<SpecDelivery>),
> {
    match spec_parse_frames(v.session.session.pending + bytes) {
        Some((fs, rest)) => {
            let t = spec_session_trace(v.session.session.streams, fs);
            let routed = spec_route_all(v.session.routing, untag(t.1));
            let dispatched = spec_dispatch(v.queue, routed.1);
            Some(
                (
                    DispatcherView {
                        session: RespondableView {
                            session: SessionView { pending: rest, streams: t.0, ..v.session.session },
                            routing: routed.0,
                        },
                        queue: dispatched.0,
                        ..v
                    },
                    queue_ids(dispatched.0),
                    dispatched.1,
                ),
            )
        },
        None => None,
    }
}

/// A dispatcher after it has sent a call with request id `rid` (see
/// `RpcDispatcher::call`).
pub open spec fn after_call(
    v: DispatcherView,
    rid: u32,
    register_handler: bool,
    prebuffer_response: bool,
) -> DispatcherView {
    DispatcherView {
        session: RespondableView {
            session: SessionView { next_id: seq_inc(v.session.session.next_id), ..v.session.session },
            routing: RoutingView {
                flags: v.session.routing.flags.insert(rid, prebuffer_response),
                handlers: if register_handler {
                    v.session.routing.handlers.insert(rid)
                } else {
                    v.session.routing.handlers
                },
                ..v.session.routing
            },
        },
        ..v
    }
}

/// The views of a queue.
pub open spec fn queue_view(q: Seq<(u32, RpcRequest)>) -> Seq<(u32, SpecRpcRequest)> {
    q.map_values(|p: (u32, RpcRequest)| (p.0, p.1@))
}

/// Sends RPC calls and responses as framed streams, routes the events of
/// incoming streams to the handlers of the calls they answer, and keeps the
/// queue of inbound requests that have no handler of their own.
#[derive(Debug)]
pub struct RpcDispatcher {
    rpc_respondable_session: RpcRespondableSession,
    rpc_request_queue: Vec<(u32, RpcRequest)>,
}

impl View for RpcDispatcher {
    type V = DispatcherView;

    closed spec fn view(&self) -> DispatcherView {
        DispatcherView {
            session: self.rpc_respondable_session@,
            queue: queue_view(self.rpc_request_queue@),
        }
    }
}

impl RpcDispatcher {
    /// The well-formedness of a dispatcher: its session is well formed and
    /// has the catch-all handler that feeds the queue.
    pub closed spec fn wf(&self) -> bool {
        &&& self.rpc_respondable_session.wf()
        &&& self.rpc_respondable_session@.routing.has_catch_all
    }

    /// A client-side dispatcher.
    pub fn new() -> (d: RpcDispatcher)
        ensures
            d.wf(),
            d@ == RpcDispatcher::initial(IdSpace::Client),
    {
        RpcDispatcher::with_id_space(IdSpace::Client)
    }

    /// A dispatcher that has sent and received nothing yet.
    pub open spec fn initial(id_space: IdSpace) -> DispatcherView {
        DispatcherView {
            session: RespondableView {
                session: SessionView {
                    id_space,
                    next_id: 1,
                    pending: Seq::empty(),
                    streams: Map::empty(),
                },
                routing: RoutingView {
                    handlers: Set::empty(),
                    flags: Map::empty(),
                    buffers: Map::empty(),
                    router: None,
                    has_catch_all: true,
                },
            },
            queue: Seq::empty(),
        }
    }

    /// A dispatcher after a refused read: its pending bytes are dropped.
    pub open spec fn refused_read(v: DispatcherView) -> DispatcherView {
        DispatcherView {
            session: RespondableView {
                session: SessionView { pending: Seq::empty(), ..v.session.session },
                ..v.session
            },
            ..v
        }
    }

    /// A dispatcher allocating ids in `id_space`.
    pub fn with_id_space(id_space: IdSpace) -> (d: RpcDispatcher)
        ensures
            d.wf(),
            d@ == RpcDispatcher::initial(id_space),
    {
        let mut s = RpcRespondableSession::new(id_space);
        s.set_catch_all_response_handler();
        let d = RpcDispatcher {
            rpc_respondable_session: s,
            rpc_request_queue: Vec::new(),
        };
        assert(queue_view(d.rpc_request_queue@) =~= Seq::<(u32, SpecRpcRequest)>::empty());
        d
    }

    /// The session underneath, for inspection.
    pub fn respondable_session(&self) -> (s: &RpcRespondableSession)
        ensures
            s@ == self@.session,
            self.wf() ==> s.wf(),
    {
        &self.rpc_respondable_session
    }

    /// Sets the methods whose incoming streams get a handler of their own
    /// (see `RpcRespondableSession::set_stream_method_router`).
    pub fn set_stream_method_router(&mut self, method_ids: Vec<u64>)
        requires
            old(self).wf(),
        ensures
            final(self).wf(),
            final(self)@ == (DispatcherView {
                session: RespondableView {
                    routing: RoutingView {
                        router: Some(method_ids@.to_set()),
                        ..old(self)@.session.routing
                    },
                    ..old(self)@.session
                },
                ..old(self)@
            }),
    {
        self.rpc_respondable_session.set_stream_method_router(method_ids);
    }

    /// Sends a call: its request id is `request_counter`, a fresh value of
    /// the process-wide id counter, placed into the dispatcher's half of
    /// the id space; opens its stream with a
    /// `Call` header whose metadata is the parameters, writes the payload,
    /// and ends the stream when the request is finalized. Returns the
    /// request id, the encoder to go on with, and the frames to send. The
    /// request is marked prebuffered or not, and given a handler when
    /// `register_handler` holds. Refused with `CorruptFrame` when the
    /// parameters are too long for the header or the chunk size is unusable.
    pub fn call(
        &mut self,
        rpc_request: RpcRequest,
        max_chunk_size: usize,
        register_handler: bool,
        prebuffer_response: bool,
        request_counter: u32,
        timestamp: u64,
    ) -> (r: Result<(u32, RpcStreamEncoder, Vec<Frame>), FrameEncodeError>)
        requires
            old(self).wf(),
        ensures
            final(self).wf(),
            ({
                let rid = old(self)@.session.session.id_space.spec_place(request_counter);
                let sid = old(self)@.session.session.id_space.spec_place(old(self)@.session.session.next_id);
                let h = call_header(rid, rpc_request@);
                let body = bytes_or_empty(rpc_request@.rpc_prebuffered_payload_bytes);
                &&& final(self)@ == after_call(old(self)@, rid, register_handler, prebuffer_response)
                &&& (r is Ok <==> header_fits(h) && chunk_size_ok(max_chunk_size))
                &&& (r matches Err(e) ==> e == FrameEncodeError::CorruptFrame)
                &&& (r matches Ok((id, enc, frames)) ==> {
                    &&& id == rid
                    &&& enc.wf()
                    &&& enc@ == outgoing_encoder(sid, body, max_chunk_size as nat, rpc_request.is_finalized)
                    &&& outgoing_frames(
                        frames_view(frames@),
                        sid,
                        h,
                        body,
                        max_chunk_size as nat,
                        rpc_request.is_finalized,
                    )
                    &&& stamped(frames_view(frames@), timestamp)
                })
            }),
    {
        let rpc_method_id = rpc_request.rpc_method_id;
        let rpc_request_id = self.rpc_respondable_session.id_space().place(request_counter);
        let ghost req = rpc_request@;
        let rpc_metadata_bytes = match rpc_request.rpc_param_bytes {
            Some(b) => b,
            None => Vec::new(),
        };
        let request_header = RpcHeader {
            rpc_msg_type: RpcMessageType::Call,
            rpc_request_id,
            rpc_method_id,
            rpc_metadata_bytes,
        };
        assert(request_header@ == call_header(rpc_request_id, req));
        let ghost sid = self@.session.session.id_space.spec_place(self@.session.session.next_id);
        let opened = self.rpc_respondable_session.init_respondable_request(
            &request_header,
            max_chunk_size,
            register_handler,
            prebuffer_response,
            timestamp,
        );
        let body = match rpc_request.rpc_prebuffered_payload_bytes {
            Some(b) => b,
            None => Vec::new(),
        };
        match open_and_send(
            opened,
            body.as_slice(),
            rpc_request.is_finalized,
            timestamp,
            Ghost(sid),
            Ghost(request_header@),
            Ghost(max_chunk_size),
        ) {
            Ok((enc, frames)) => Ok((rpc_request_id, enc, frames)),
            Err(e) => Err(e),
        }
    }

    /// Sends a response: opens a stream with a `Response` header whose
    /// metadata is the result status, if any, writes the payload, and ends
    /// the stream when the response is finalized. Refused with
    /// `CorruptFrame` when the chunk size is unusable.
    pub fn respond(&mut self, rpc_response: RpcResponse, max_chunk_size: usize, timestamp: u64) -> (r: Result<
        (RpcStreamEncoder, Vec<Frame>),
        FrameEncodeError,
    >)
        requires
            old(self).wf(),
        ensures
            final(self).wf(),
            ({
                let sid = old(self)@.session.session.id_space.spec_place(old(self)@.session.session.next_id);
                let h = response_header(
                    rpc_response.rpc_request_id,
                    rpc_response.rpc_method_id,
                    rpc_response.rpc_result_status,
                );
                let body = bytes_or_empty(opt_bytes_view(rpc_response.rpc_prebuffered_payload_bytes));
                &&& final(self)@ == (DispatcherView {
                    session: RespondableView {
                        session: SessionView {
                            next_id: seq_inc(old(self)@.session.session.next_id),
                            ..old(self)@.session.session
                        },
                        ..old(self)@.session
                    },
                    ..old(self)@
                })
                &&& (r is Ok <==> chunk_size_ok(max_chunk_size))
                &&& (r matches Err(e) ==> e == FrameEncodeError::CorruptFrame)
                &&& (r matches Ok((enc, frames)) ==> {
                    &&& enc.wf()
                    &&& enc@ == outgoing_encoder(sid, body, max_chunk_size as nat, rpc_response.is_finalized)
                    &&& outgoing_frames(
                        frames_view(frames@),
                        sid,
                        h,
                        body,
                        max_chunk_size as nat,
                        rpc_response.is_finalized,
                    )
                    &&& stamped(frames_view(frames@), timestamp)
                })
            }),
    {
        let mut meta: Vec<u8> = Vec::new();
        match rpc_response.rpc_result_status {
            Some(s) => meta.push(s),
            None => {},
        }
        let header = RpcHeader {
            rpc_msg_type: RpcMessageType::Response,
            rpc_request_id: rpc_response.rpc_request_id,
            rpc_method_id: rpc_response.rpc_method_id,
            rpc_metadata_bytes: meta,
        };
        assert(header@.rpc_metadata_bytes =~= status_metadata(rpc_response.rpc_result_status));
        let ghost sid = self@.session.session.id_space.spec_place(self@.session.session.next_id);
        let opened = self.rpc_respondable_session.start_reply_stream(&header, max_chunk_size, timestamp);
        let body = match rpc_response.rpc_prebuffered_payload_bytes {
            Some(b) => b,
            None => Vec::new(),
        };
        open_and_send(
            opened,
            body.as_slice(),
            rpc_response.is_finalized,
            timestamp,
            Ghost(sid),
            Ghost(header@),
            Ghost(max_chunk_size),
        )
    }

    /// Opens a streaming response to request `request_id`, with a
    /// `Response` header carrying the success status and method id 0;
    /// returns a writer for its chunks and the opening frame. Refused with
    /// `CorruptFrame` when the chunk size is unusable.
    pub fn create_response_writer(&mut self, request_id: u32, max_chunk_size: usize, timestamp: u64) -> (r: Result<
        (RpcResponseWriter, Vec<Frame>),
        FrameEncodeError,
    >)
        requires
            old(self).wf(),
        ensures
            final(self).wf(),
            final(self)@ == (DispatcherView {
                session: RespondableView {
                    session: SessionView {
                        next_id: seq_inc(old(self)@.session.session.next_id),
                        ..old(self)@.session.session
                    },
                    ..old(self)@.session
                },
                ..old(self)@
            }),
            r is Ok <==> chunk_size_ok(max_chunk_size),
            r matches Err(e) ==> e == FrameEncodeError::CorruptFrame,
            r matches Ok((w, frames)) ==> {
                let sid = old(self)@.session.session.id_space.spec_place(old(self)@.session.session.next_id);
                &&& w.wf()
                &&& w@ == EncoderView {
                    stream_id: sid,
                    next_seq: 1,
                    chunk_size: max_chunk_size as nat,
                    pending: Seq::empty(),
                    state: StreamState::Open,
                }
                &&& frames_are(
                    frames_view(frames@),
                    sid,
                    0,
                    seq![FrameKind::Open],
                    seq![spec_header_bytes(response_header(request_id, 0, Some(0u8)))],
                )
                &&& stamped(frames_view(frames@), timestamp)
            },
    {
        let mut meta: Vec<u8> = Vec::new();
        meta.push(0u8);
        let header = RpcHeader {
            rpc_msg_type: RpcMessageType::Response,
            rpc_request_id: request_id,
            rpc_method_id: 0,
            rpc_metadata_bytes: meta,
        };
        assert(header@ == response_header(request_id, 0, Some(0u8)));
        match self.rpc_respondable_session.start_reply_stream(&header, max_chunk_size, timestamp) {
            Ok((encoder, frames)) => Ok((RpcResponseWriter { encoder }, frames)),
            Err(e) => Err(e),
        }
    }

    /// Takes in received bytes and routes the events of the incoming
    /// streams (see `RpcRespondableSession::read_bytes`). The events for the
    /// catch-all update the queue of inbound requests (see
    /// `spec_queue_step`); the others, for handlers of their own, are
    /// returned in order, with the ids of all queued requests. A corrupt
    /// frame refuses the read and changes neither tables nor queue.
    pub fn read_bytes(&mut self, bytes: &[u8]) -> (r: Result<(Vec<u32>, Vec<Delivery>), FrameDecodeError>)
        requires
            old(self).wf(),
        ensures
            final(self).wf(),
            match spec_dispatcher_read(old(self)@, bytes@) {
                Some((v, ids, ds)) => {
                    &&& r matches Ok((i, d)) && i@ == ids && deliveries_view(d@) == ds
                    &&& final(self)@ == v
                },
                None => {
                    &&& r == Err::<(Vec<u32>, Vec<Delivery>), FrameDecodeError>(
                        FrameDecodeError::CorruptFrame,
                    )
                    &&& final(self)@ == RpcDispatcher::refused_read(old(self)@)
                },
            },
    {
        let ds = match self.rpc_respondable_session.read_bytes(bytes) {
            Ok(ds) => ds,
            Err(e) => {
                return Err(e);
            },
        };
        let ghost dsv = deliveries_view(ds@);
        let ghost q0 = self@.queue;
        let ghost sess = self.rpc_respondable_session;
        let n = ds.len();
        let mut ds = ds;
        let mut rev: Vec<Delivery> = Vec::new();
        while ds.len() > 0
            invariant
                ds.len() + rev.len() == n,
                n == dsv.len(),
                forall|j: int| 0 <= j < rev.len() ==> (#[trigger] rev@[j])@ == dsv[n - 1 - j],
                forall|j: int| 0 <= j < ds.len() ==> (#[trigger] ds@[j])@ == dsv[j],
            decreases ds.len(),
        {
            let d = ds.pop().unwrap();
            rev.push(d);
        }
        let mut kept: Vec<Delivery> = Vec::new();
        let mut i: usize = 0;
        while rev.len() > 0
            invariant
                i + rev.len() == n,
                n == dsv.len(),
                forall|j: int| 0 <= j < rev.len() ==> (#[trigger] rev@[j])@ == dsv[n - 1 - j],
                (queue_view(self.rpc_request_queue@), deliveries_view(kept@)) == spec_dispatch(
                    q0,
                    dsv.take(i as int),
                ),
                self.rpc_respondable_session == sess,
                sess.wf(),
                sess@.routing.has_catch_all,
            decreases rev.len(),
        {
            let d = rev.pop().unwrap();
            assert(d@ == dsv[i as int]);
            assert(dsv.take(i + 1).drop_last() =~= dsv.take(i as int));
            assert(dsv.take(i + 1).last() == d@);
            match d.target {
                Target::CatchAll => {
                    self.apply_to_queue(d.event);
                },
                Target::Handler(_) => {
                    let ghost before = deliveries_view(kept@);
                    kept.push(d);
                    assert(deliveries_view(kept@) =~= before.push(d@));
                },
            }
            i = i + 1;
        }
        assert(dsv.take(n as int) =~= dsv);
        let mut ids: Vec<u32> = Vec::new();
        let mut k: usize = 0;
        while k < self.rpc_request_queue.len()
            invariant
                k <= self.rpc_request_queue.len(),
                ids@ =~= queue_ids(queue_view(self.rpc_request_queue@)).take(k as int),
            decreases self.rpc_request_queue.len() - k,
        {
            ids.push(self.rpc_request_queue[k].0);
            k = k + 1;
        }
        assert(ids@ =~= queue_ids(queue_view(self.rpc_request_queue@)));
        Ok((ids, kept))
    }

    fn find_index(&self, id: u32) -> (r: Option<usize>)
        ensures
            r matches Some(i) ==> i < self@.queue.len() && i < self.rpc_request_queue.len()
                && find_request(self@.queue, id) == Some(i as int),
            r is None ==> find_request(self@.queue, id) is None,
    {
        proof {
            lemma_find_request(self@.queue, id);
        }
        let mut i: usize = 0;
        while i < self.rpc_request_queue.len()
            invariant
                i <= self.rpc_request_queue.len(),
                forall|j: int| 0 <= j < i ==> self@.queue[j].0 != id,
            decreases self.rpc_request_queue.len() - i,
        {
            assert(self@.queue[i as int].0 == self.rpc_request_queue@[i as int].0);
            if self.rpc_request_queue[i].0 == id {
                proof {
                    lemma_find_request(self@.queue, id);
                    match find_request(self@.queue, id) {
                        Some(k) => {
                            if k < i {
                                assert(self@.queue[k].0 != id);
                            } else if k > i {
                                assert(self@.queue[i as int].0 != id);
                            }
                        },
                        None => {
                            assert(self@.queue[i as int].0 != id);
                        },
                    }
                }
                return Some(i);
            }
            i = i + 1;
        }
        None
    }

    fn apply_to_queue(&mut self, evt: RpcStreamEvent)
        ensures
            final(self).rpc_respondable_session == old(self).rpc_respondable_session,
            final(self)@ == (DispatcherView { queue: spec_queue_step(old(self)@.queue, evt@), ..old(self)@ }),
    {
        let ghost q = self@.queue;
        match evt {
            RpcStreamEvent::Header { rpc_request_id, rpc_header, .. } => {
                let rpc_param_bytes = if rpc_header.rpc_metadata_bytes.len() == 0 {
                    None
                } else {
                    Some(rpc_header.rpc_metadata_bytes)
                };
                let req = RpcRequest {
                    rpc_method_id: rpc_header.rpc_method_id,
                    rpc_param_bytes,
                    rpc_prebuffered_payload_bytes: None,
                    is_finalized: false,
                };
                self.rpc_request_queue.push((rpc_request_id, req));
                assert(queue_view(self.rpc_request_queue@) =~= spec_queue_step(q, evt@));
            },
            RpcStreamEvent::PayloadChunk { rpc_request_id, bytes, .. } => {
                match self.find_index(rpc_request_id) {
                    Some(i) => {
                        let (id, mut req) = self.rpc_request_queue.remove(i);
                        let mut payload = match req.rpc_prebuffered_payload_bytes {
                            Some(p) => p,
                            None => Vec::new(),
                        };
                        let mut more = bytes;
                        payload.append(&mut more);
                        req.rpc_prebuffered_payload_bytes = Some(payload);
                        self.rpc_request_queue.insert(i, (id, req));
                        assert(queue_view(self.rpc_request_queue@) =~= spec_queue_step(q, evt@));
                    },
                    None => {},
                }
            },
            RpcStreamEvent::End { rpc_request_id, .. } => {
                match self.find_index(rpc_request_id) {
                    Some(i) => {
                        let (id, mut req) = self.rpc_request_queue.remove(i);
                        req.is_finalized = true;
                        self.rpc_request_queue.insert(i, (id, req));
                        assert(queue_view(self.rpc_request_queue@) =~= spec_queue_step(q, evt@));
                    },
                    None => {},
                }
            },
            RpcStreamEvent::Error { .. } => {},
        }
    }

    /// The whole queue of inbound requests, when a request with id
    /// `header_id` is in it.
    pub fn get_rpc_request(&self, header_id: u32) -> (r: Option<&Vec<(u32, RpcRequest)>>)
        ensures
            r is Some <==> find_request(self@.queue, header_id) is Some,
            r matches Some(q) ==> queue_view(q@) == self@.queue,
    {
        match self.find_index(header_id) {
            Some(_) => Some(&self.rpc_request_queue),
            None => None,
        }
    }

    /// Whether the first queued request with id `header_id` has ended;
    /// `None` when no request with that id is queued.
    pub fn is_rpc_request_finalized(&self, header_id: u32) -> (r: Option<bool>)
        ensures
            r == match find_request(self@.queue, header_id) {
                Some(i) => Some(self@.queue[i].1.is_finalized),
                None => None,
            },
    {
        match self.find_index(header_id) {
            Some(i) => Some(self.rpc_request_queue[i].1.is_finalized),
            None => None,
        }
    }

    /// Removes the first queued request with id `header_id` and hands it
    /// over; `None`, with the queue unchanged, when there is none.
    pub fn delete_rpc_request(&mut self, header_id: u32) -> (r: Option<RpcRequest>)
        requires
            old(self).wf(),
        ensures
            final(self).wf(),
            final(self)@.session == old(self)@.session,
            match find_request(old(self)@.queue, header_id) {
                Some(i) => r matches Some(req) && req@ == old(self)@.queue[i].1
                    && final(self)@.queue == old(self)@.queue.remove(i),
                None => r is None && final(self)@.queue == old(self)@.queue,
            },
    {
        match self.find_index(header_id) {
            Some(i) => {
                let ghost q = self@.queue;
                let (_, req) = self.rpc_request_queue.remove(i);
                assert(queue_view(self.rpc_request_queue@) =~= q.remove(i as int));
                Some(req)
            },
            None => None,
        }
    }

    /// Fails every request that has a handler: each such handler gets, once,
    /// an error event with `error` and the request's id; afterwards no
    /// handler, prebuffering flag or buffer is left. The queue is untouched.
    pub fn fail_all_pending_requests(&mut self, error: FrameDecodeError) -> (ds: Vec<Delivery>)
        requires
            old(self).wf(),
        ensures
            final(self).wf(),
            final(self)@ == (DispatcherView {
                session: RespondableView {
                    routing: RoutingView {
                        handlers: Set::empty(),
                        flags: Map::empty(),
                        buffers: Map::empty(),
                        ..old(self)@.session.routing
                    },
                    ..old(self)@.session
                },
                ..old(self)@
            }),
            exists|ids: Seq<u32>|
                {
                    &&& ids.no_duplicates()
                    &&& ids.to_set() == old(self)@.session.routing.handlers
                    &&& deliveries_view(ds@) == #[trigger] failures(ids, error)
                },
    {
        let ids = self.rpc_respondable_session.take_response_handlers();
        self.rpc_respondable_session.clear_all_prebuffering();
        let mut ds: Vec<Delivery> = Vec::new();
        assert(failures(ids@.take(0), error) =~= Seq::<SpecDelivery>::empty());
        let mut i: usize = 0;
        while i < ids.len()
            invariant
                i <= ids.len(),
                deliveries_view(ds@) == failures(ids@.take(i as int), error),
            decreases ids.len() - i,
        {
            let id = ids[i];
            ds.push(
                Delivery {
                    target: Target::Handler(id),
                    event: RpcStreamEvent::Error {
                        rpc_header: None,
                        rpc_request_id: Some(id),
                        rpc_method_id: None,
                        frame_decode_error: error.duplicate(),
                    },
                },
            );
            assert(ids@.take(i + 1) =~= ids@.take(i as int).push(id));
            assert(failures(ids@.take(i + 1), error) =~= failures(ids@.take(i as int), error).push(
                failure_delivery(id, error),
            ));
            assert(deliveries_view(ds@) =~= failures(ids@.take(i as int), error).push(
                failure_delivery(id, error),
            ));
            i = i + 1;
        }
        assert(ids@.take(ids.len() as int) =~= ids@);
        ds
    }
}

impl Default for RpcDispatcher {
    /// A client-side dispatcher.
    fn default() -> (d: RpcDispatcher)
        ensures
            d.wf(),
            d@ == RpcDispatcher::initial(IdSpace::Client),
    {
        RpcDispatcher::new()
    }
}

/// A streaming response in progress: each write sends its chunk at once.
#[derive(Debug)]
pub struct RpcResponseWriter {
    encoder: RpcStreamEncoder,
}

impl View for RpcResponseWriter {
    type V = EncoderView;

    closed spec fn view(&self) -> EncoderView {
        self.encoder@
    }
}

impl RpcResponseWriter {
    /// The well-formedness of a writer: that of its encoder, with nothing
    /// left pending between writes.
    pub closed spec fn wf(&self) -> bool {
        &&& self.encoder.wf()
        &&& self.encoder@.pending == Seq::<u8>::empty()
    }

    /// Sends `chunk` as data frames, at once, and ends the response when
    /// `is_finalized` holds. A response that has already ended or was
    /// cancelled sends nothing.
    pub fn write(&mut self, chunk: &[u8], is_finalized: bool, timestamp: u64) -> (frames: Vec<Frame>)
        requires
            old(self).wf(),
        ensures
            final(self).wf(),
            old(self)@.state != StreamState::Open ==> frames@ == Seq::<Frame>::empty()
                && final(self)@ == old(self)@,
            old(self)@.state == StreamState::Open ==> {
                let data = body_data(chunk@, old(self)@.chunk_size, true);
                &&& frames_are(
                    frames_view(frames@),
                    old(self)@.stream_id,
                    old(self)@.next_seq,
                    body_kinds(data.len(), is_finalized),
                    body_payloads(data, is_finalized),
                )
                &&& final(self)@ == EncoderView {
                    next_seq: seq_after(old(self)@.next_seq, body_payloads(data, is_finalized).len()),
                    pending: Seq::empty(),
                    state: if is_finalized {
                        StreamState::Ended
                    } else {
                        StreamState::Open
                    },
                    ..old(self)@
                }
                &&& stamped(frames_view(frames@), timestamp)
            },
    {
        if self.encoder.is_open() {
            send_body(&mut self.encoder, chunk, true, is_finalized, timestamp)
        } else {
            Vec::new()
        }
    }
}


/// Sending a body whole, with a flush, loses nothing: the data payloads
/// joined give back the body.
pub proof fn lemma_body_data_flatten(body: Seq<u8>, n: nat)
    requires
        n > 0,
    ensures
        body_data(body, n, true).flatten() == body,
{
    broadcast use Seq::lemma_flatten_push;

    crate::stream_encoder::lemma_chunks_flatten(body, n);
    let chunks = spec_full_chunks(body, n);
    let rest = spec_chunk_rest(body, n);
    if rest.len() == 0 {
        assert(chunks + flush_payloads(rest) =~= chunks);
        assert(chunks.flatten() + rest =~= chunks.flatten());
    } else {
        assert(chunks + flush_payloads(rest) =~= chunks.push(rest));
    }
}

/// A finalized stream that a dispatcher sends (a call or a response) is a
/// whole stream: read by a peer that has no state for it, it produces its
/// header, chunks that carry exactly the sent body, and its end, and leaves
/// no state behind.
pub proof fn lemma_finalized_stream_roundtrip(
    fs: Seq<SpecFrame>,
    sid: u32,
    h: SpecRpcHeader,
    body: Seq<u8>,
    n: nat,
)
    requires
        header_fits(h),
        n > 0,
        outgoing_frames(fs, sid, h, body, n, true),
    ensures
        ({
            let data = body_data(body, n, true);
            &&& spec_stream_run(None, fs) == (
                None::<SpecInbound>,
                seq![header_event(h)] + spec_chunk_events(h, data) + seq![end_event(h)],
            )
            &&& spec_events_payload(spec_stream_run(None, fs).1) == body
        }),
{
    let data = body_data(body, n, true);
    let kinds = seq![FrameKind::Open] + body_kinds(data.len(), true);
    let pls = seq![spec_header_bytes(h)] + body_payloads(data, true);
    assert(fs.len() == data.len() + 2);
    assert(fs[0].kind == FrameKind::Open && fs[0].payload == spec_header_bytes(h)) by {
        assert(kinds[0] == FrameKind::Open);
        assert(pls[0] == spec_header_bytes(h));
    }
    assert forall|i: int| 0 <= i < data.len() implies (#[trigger] fs[i + 1]).kind == FrameKind::Data
        && fs[i + 1].payload == data[i] by {
        assert(kinds[i + 1] == FrameKind::Data);
        assert(pls[i + 1] == data[i]);
    }
    assert(fs.last().kind == FrameKind::End) by {
        assert(kinds[data.len() + 1 as int] == FrameKind::End);
    }
    lemma_stream_roundtrip(fs, h, data);
    lemma_body_data_flatten(body, n);
}

/// The request that a peer's queue holds once a call with header `h` and
/// body `body` has arrived whole.
pub open spec fn received_request(h: SpecRpcHeader, body: Seq<u8>) -> SpecRpcRequest {
    SpecRpcRequest {
        rpc_method_id: h.rpc_method_id,
        rpc_param_bytes: if h.rpc_metadata_bytes.len() == 0 {
            None
        } else {
            Some(h.rpc_metadata_bytes)
        },
        rpc_prebuffered_payload_bytes: if body.len() == 0 {
            None
        } else {
            Some(body)
        },
        is_finalized: false,
    }
}

proof fn lemma_find_exact(q: Seq<(u32, SpecRpcRequest)>, id: u32, i: int)
    requires
        0 <= i < q.len(),
        q[i].0 == id,
        forall|j: int| 0 <= j < i ==> q[j].0 != id,
    ensures
        find_request(q, id) == Some(i),
{
    lemma_find_request(q, id);
    match find_request(q, id) {
        Some(k) => {
            if k < i {
                assert(q[k].0 != id);
            } else if k > i {
                assert(q[i].0 != id);
            }
        },
        None => {
            assert(q[i].0 != id);
        },
    }
}

/// Whether the tables of a dispatcher leave request `rid` of method `m`
/// to the catch-all: it has no handler, is not prebuffered, and the router
/// does not give its method a handler.
pub open spec fn left_to_catch_all(rv: RoutingView, rid: u32, m: u64) -> bool {
    &&& rv.has_catch_all
    &&& !rv.handlers.contains(rid)
    &&& !is_prebuffering(rv, rid)
    &&& match rv.router {
        Some(ms) => !ms.contains(m),
        None => true,
    }
}

/// What a read gives back of a call: when a whole request stream arrives
/// at a dispatcher that leaves it to the catch-all and has no queued
/// request with its id, the queue gains exactly one request, with the
/// call's method, its parameters (when there are any), its body (when
/// there is any) and marked finalized; no handler gets anything, and the
/// tables keep no entry for the request.
pub proof fn lemma_queue_receives_request(
    q: Seq<(u32, SpecRpcRequest)>,
    rv: RoutingView,
    h: SpecRpcHeader,
    ps: Seq<Seq<u8>>,
)
    requires
        left_to_catch_all(rv, h.rpc_request_id, h.rpc_method_id),
        find_request(q, h.rpc_request_id) is None,
    ensures
        ({
            let es = seq![header_event(h)] + spec_chunk_events(h, ps) + seq![end_event(h)];
            let routed = spec_route_all(rv, es);
            &&& spec_dispatch(q, routed.1) == (
                q.push(
                    (
                        h.rpc_request_id,
                        SpecRpcRequest { is_finalized: true, ..received_request(h, ps.flatten()) },
                    ),
                ),
                Seq::<SpecDelivery>::empty(),
            )
            &&& !routed.0.handlers.contains(h.rpc_request_id)
            &&& !routed.0.flags.contains_key(h.rpc_request_id)
            &&& !routed.0.buffers.contains_key(h.rpc_request_id)
        }),
{
    let rid = h.rpc_request_id;
    lemma_queue_prefix(q, rv, h, ps, ps.len());
    assert(ps.take(ps.len() as int) =~= ps);
    let pre = seq![header_event(h)] + spec_chunk_events(h, ps);
    let es = pre + seq![end_event(h)];
    assert(es.drop_last() =~= pre);
    assert(es.last() == end_event(h));
    let prev = spec_route_all(rv, pre);
    let step = spec_route(prev.0, end_event(h));
    let d = SpecDelivery { target: Target::CatchAll, event: end_event(h) };
    assert(step.1 == seq![d]);
    assert(prev.1 + step.1 =~= prev.1.push(d));
    let qj = q.push((rid, received_request(h, ps.flatten())));
    lemma_find_request(q, rid);
    assert forall|j: int| 0 <= j < q.len() implies qj[j].0 != rid by {
        assert(qj[j] == q[j]);
    }
    lemma_find_exact(qj, rid, q.len() as int);
    let done = SpecRpcRequest { is_finalized: true, ..received_request(h, ps.flatten()) };
    assert(qj.update(q.len() as int, (rid, done)) =~= q.push((rid, done)));
}

/// The bytes of a finalized stream that a dispatcher sends, read by a
/// session with no state for the stream and no bytes pending, give back
/// its frames, then its header, one chunk event per non-empty data payload
/// and its end; the session is left as it was, and the payloads joined are
/// the body.
pub proof fn lemma_sent_stream_read(
    m: Map<u32, SpecInbound>,
    fs: Seq<SpecFrame>,
    sid: u32,
    h: SpecRpcHeader,
    body: Seq<u8>,
    n: nat,
)
    requires
        header_fits(h),
        0 < n <= u32::MAX,
        outgoing_frames(fs, sid, h, body, n, true),
        !m.contains_key(sid),
    ensures
        spec_parse_frames(Seq::<u8>::empty() + crate::frame::spec_frames_bytes(fs)) == Some(
            (fs, Seq::<u8>::empty()),
        ),
        untag(spec_session_trace(m, fs).1) == seq![header_event(h)] + spec_chunk_events(
            h,
            body_data(body, n, true),
        ) + seq![end_event(h)],
        spec_session_trace(m, fs).0 == m,
        body_data(body, n, true).flatten() == body,
{
    let data = body_data(body, n, true);
    let kinds = seq![FrameKind::Open] + body_kinds(data.len(), true);
    let pls = seq![spec_header_bytes(h)] + body_payloads(data, true);
    crate::rpc_header::lemma_header_roundtrip(h, Seq::empty());
    crate::stream_encoder::lemma_chunks_flatten(body, n);
    let chunks = spec_full_chunks(body, n);
    let rest = spec_chunk_rest(body, n);
    assert forall|i: int| 0 <= i < data.len() implies (#[trigger] data[i]).len() <= n by {
        if i < chunks.len() {
            assert(data[i] == chunks[i]);
        } else {
            assert(data[i] == rest);
        }
    }
    assert(fs.len() == data.len() + 2);
    assert(fs[0].kind == FrameKind::Open && fs[0].payload == spec_header_bytes(h)) by {
        assert(kinds[0] == FrameKind::Open);
        assert(pls[0] == spec_header_bytes(h));
    }
    assert forall|i: int| 0 <= i < data.len() implies (#[trigger] fs[i + 1]).kind == FrameKind::Data
        && fs[i + 1].payload == data[i] by {
        assert(kinds[i + 1] == FrameKind::Data);
        assert(pls[i + 1] == data[i]);
    }
    assert(fs.last().kind == FrameKind::End) by {
        assert(kinds[data.len() + 1 as int] == FrameKind::End);
    }
    assert forall|i: int| 0 <= i < fs.len() implies crate::frame::frame_fits(#[trigger] fs[i]) by {
        assert(fs[i].payload == pls[i]);
        if i == 0 {
        } else if i <= data.len() {
            assert(pls[i] == data[i - 1]);
        } else {
            assert(pls[i] == Seq::<u8>::empty());
        }
    }
    crate::session::lemma_wire_roundtrip(m, fs, sid, h, data);
    lemma_body_data_flatten(body, n);
}

/// Deliveries that are all for handlers pass through dispatching as they
/// are, and leave the queue as it was.
pub proof fn lemma_dispatch_handler_deliveries(q: Seq<(u32, SpecRpcRequest)>, ds: Seq<SpecDelivery>)
    requires
        forall|i: int| 0 <= i < ds.len() ==> (#[trigger] ds[i]).target != Target::CatchAll,
    ensures
        spec_dispatch(q, ds) == (q, ds),
    decreases ds.len(),
{
    if ds.len() > 0 {
        let init = ds.drop_last();
        assert forall|i: int| 0 <= i < init.len() implies (#[trigger] init[i]).target != Target::CatchAll by {
            assert(init[i] == ds[i]);
        }
        lemma_dispatch_handler_deliveries(q, init);
        assert(ds.last() == ds[ds.len() - 1]);
        assert(init.push(ds.last()) =~= ds);
    } else {
        assert(ds =~= Seq::<SpecDelivery>::empty());
    }
}

/// What a peer's read gives back of a finalized stream that a dispatcher
/// sends, whether a call (see `RpcDispatcher::call`) or a response (see
/// `RpcDispatcher::respond`): its bytes, read by a dispatcher with no bytes
/// pending, no state for the stream, and tables that leave the request to
/// the catch-all with no queued request of that id, put exactly one request
/// in the queue, with the header's method, its parameters (when there are
/// any), the whole body (when there is any) and marked finalized; the read
/// reports the queue's ids, hands no handler anything, leaves the session
/// as it was and keeps no table entry for the request.
pub proof fn lemma_finalized_stream_reaches_peer_queue(
    v: DispatcherView,
    fs: Seq<SpecFrame>,
    sid: u32,
    h: SpecRpcHeader,
    body: Seq<u8>,
    n: nat,
)
    requires
        header_fits(h),
        0 < n <= u32::MAX,
        outgoing_frames(fs, sid, h, body, n, true),
        v.session.session.pending == Seq::<u8>::empty(),
        !v.session.session.streams.contains_key(sid),
        left_to_catch_all(v.session.routing, h.rpc_request_id, h.rpc_method_id),
        find_request(v.queue, h.rpc_request_id) is None,
    ensures
        ({
            let rid = h.rpc_request_id;
            let q = v.queue.push(
                (rid, SpecRpcRequest { is_finalized: true, ..received_request(h, body) }),
            );
            spec_dispatcher_read(v, crate::frame::spec_frames_bytes(fs)) matches Some(
                (v2, ids, ds),
            ) && {
                &&& v2.queue == q
                &&& ids == queue_ids(q)
                &&& ds == Seq::<SpecDelivery>::empty()
                &&& v2.session.session == v.session.session
                &&& !v2.session.routing.handlers.contains(rid)
                &&& !v2.session.routing.flags.contains_key(rid)
                &&& !v2.session.routing.buffers.contains_key(rid)
            }
        }),
{
    let data = body_data(body, n, true);
    let m = v.session.session.streams;
    lemma_sent_stream_read(m, fs, sid, h, body, n);
    lemma_queue_receives_request(v.queue, v.session.routing, h, data);
    lemma_body_data_flatten(body, n);
    assert(v.session.session.pending + crate::frame::spec_frames_bytes(fs) =~= Seq::<u8>::empty()
        + crate::frame::spec_frames_bytes(fs));
    let t = spec_session_trace(m, fs);
    assert(SessionView { pending: Seq::<u8>::empty(), streams: t.0, ..v.session.session }
        == v.session.session);
}

/// What a fresh dispatcher reads of a finalized stream that another
/// dispatcher sends (a call or a response): its queue then holds that one
/// request, whole and finalized, and the read reports its id alone.
pub proof fn lemma_fresh_peer_receives_stream(
    id_space: IdSpace,
    fs: Seq<SpecFrame>,
    sid: u32,
    h: SpecRpcHeader,
    body: Seq<u8>,
    n: nat,
)
    requires
        header_fits(h),
        0 < n <= u32::MAX,
        outgoing_frames(fs, sid, h, body, n, true),
    ensures
        spec_dispatcher_read(RpcDispatcher::initial(id_space), crate::frame::spec_frames_bytes(fs))
            matches Some((v2, ids, ds)) && {
            &&& v2.queue == seq![
                (
                    h.rpc_request_id,
                    SpecRpcRequest { is_finalized: true, ..received_request(h, body) },
                ),
            ]
            &&& ids == seq![h.rpc_request_id]
            &&& ds == Seq::<SpecDelivery>::empty()
        },
{
    let v = RpcDispatcher::initial(id_space);
    lemma_find_request(v.queue, h.rpc_request_id);
    lemma_finalized_stream_reaches_peer_queue(v, fs, sid, h, body, n);
    let q = v.queue.push(
        (h.rpc_request_id, SpecRpcRequest { is_finalized: true, ..received_request(h, body) }),
    );
    assert(q =~= seq![
        (h.rpc_request_id, SpecRpcRequest { is_finalized: true, ..received_request(h, body) }),
    ]);
    assert(queue_ids(q) =~= seq![h.rpc_request_id]);
}

proof fn lemma_queue_prefix(
    q: Seq<(u32, SpecRpcRequest)>,
    rv: RoutingView,
    h: SpecRpcHeader,
    ps: Seq<Seq<u8>>,
    j: nat,
)
    requires
        left_to_catch_all(rv, h.rpc_request_id, h.rpc_method_id),
        find_request(q, h.rpc_request_id) is None,
        j <= ps.len(),
    ensures
        ({
            let rid = h.rpc_request_id;
            let routed = spec_route_all(rv, seq![header_event(h)] + spec_chunk_events(h, ps.take(j as int)));
            &&& left_to_catch_all(routed.0, rid, h.rpc_method_id)
            &&& spec_dispatch(q, routed.1) == (
                q.push((rid, received_request(h, ps.take(j as int).flatten()))),
                Seq::<SpecDelivery>::empty(),
            )
        }),
    decreases j,
{
    let rid = h.rpc_request_id;
    lemma_find_request(q, rid);
    if j == 0 {
        assert(ps.take(0) =~= Seq::<Seq<u8>>::empty());
        let es = seq![header_event(h)];
        assert(seq![header_event(h)] + Seq::<SpecStreamEvent>::empty() =~= es);
        assert(es.drop_last() =~= Seq::<SpecStreamEvent>::empty());
        let d = SpecDelivery { target: Target::CatchAll, event: header_event(h) };
        let step = spec_route(rv, header_event(h));
        assert(step.1 == seq![d]);
        assert(Seq::<SpecDelivery>::empty() + step.1 =~= seq![d]);
        assert(seq![d].drop_last() =~= Seq::<SpecDelivery>::empty());
        assert(Seq::<Seq<u8>>::empty().flatten() =~= Seq::<u8>::empty());
        assert(spec_route_all(rv, Seq::<SpecStreamEvent>::empty()) == (rv, Seq::<SpecDelivery>::empty()));
        let routed = spec_route_all(rv, es);
        assert(routed == (step.0, seq![d]));
        assert(step.0 == rv);
        assert(spec_dispatch(q, Seq::<SpecDelivery>::empty()) == (q, Seq::<SpecDelivery>::empty()));
        assert(spec_dispatch(q, seq![d]) == (spec_queue_step(q, header_event(h)), Seq::<SpecDelivery>::empty()));
        assert(spec_queue_step(q, header_event(h)) =~= q.push((rid, received_request(h, Seq::<u8>::empty()))));
    } else {
        lemma_queue_prefix(q, rv, h, ps, (j - 1) as nat);
        let i = j - 1;
        let a = ps.take(i as int);
        assert(ps.take(j as int).drop_last() =~= a);
        assert(ps.take(j as int).last() == ps[i as int]);
        assert(a.push(ps[i as int]) =~= ps.take(j as int));
        broadcast use Seq::lemma_flatten_push;
        let pre = seq![header_event(h)] + spec_chunk_events(h, a);
        let prev = spec_route_all(rv, pre);
        if ps[i as int].len() == 0 {
            assert(spec_chunk_events(h, ps.take(j as int)) == spec_chunk_events(h, a));
            assert(a.flatten() + ps[i as int] =~= a.flatten());
        } else {
            let e = SpecStreamEvent::PayloadChunk {
                rpc_request_id: rid,
                rpc_method_id: h.rpc_method_id,
                bytes: ps[i as int],
                rpc_header: h,
            };
            let es = seq![header_event(h)] + spec_chunk_events(h, ps.take(j as int));
            assert(es =~= pre.push(e));
            assert(es.drop_last() =~= pre);
            let step = spec_route(prev.0, e);
            let d = SpecDelivery { target: Target::CatchAll, event: e };
            assert(step.1 == seq![d]);
            assert(prev.1 + step.1 =~= prev.1.push(d));
            let qj = q.push((rid, received_request(h, a.flatten())));
            assert forall|k: int| 0 <= k < q.len() implies qj[k].0 != rid by {
                assert(qj[k] == q[k]);
            }
            lemma_find_exact(qj, rid, q.len() as int);
            let old_payload = bytes_or_empty(received_request(h, a.flatten()).rpc_prebuffered_payload_bytes);
            assert(old_payload == a.flatten());
            assert(qj.update(q.len() as int, (rid, SpecRpcRequest {
                rpc_prebuffered_payload_bytes: Some(old_payload + ps[i as int]),
                ..received_request(h, a.flatten())
            })) =~= q.push((rid, received_request(h, ps.take(j as int).flatten()))));
        }
    }
}


proof fn lemma_trace_append(m: Map<u32, SpecInbound>, a: Seq<SpecFrame>, b: Seq<SpecFrame>)
    ensures
        spec_session_trace(m, a + b) == (
            spec_session_trace(spec_session_trace(m, a).0, b).0,
            spec_session_trace(m, a).1 + spec_session_trace(spec_session_trace(m, a).0, b).1,
        ),
    decreases b.len(),
{
    if b.len() == 0 {
        assert(a + b =~= a);
        assert(spec_session_trace(m, a).1 + Seq::<(u32, SpecStreamEvent)>::empty() =~= spec_session_trace(
            m,
            a,
        ).1);
    } else {
        lemma_trace_append(m, a, b.drop_last());
        assert((a + b).drop_last() =~= a + b.drop_last());
        assert((a + b).last() == b.last());
        let m1 = spec_session_trace(m, a).0;
        let f = b.last();
        let prev = spec_session_trace(m1, b.drop_last());
        let step = spec_stream_step(crate::session::stream_state(prev.0, f.stream_id), f);
        let tagged = step.1.map_values(|e: SpecStreamEvent| (f.stream_id, e));
        assert(spec_session_trace(m, a).1 + prev.1 + tagged =~= spec_session_trace(m, a).1 + (prev.1
            + tagged));
    }
}

proof fn lemma_untag_append(a: Seq<(u32, SpecStreamEvent)>, b: Seq<(u32, SpecStreamEvent)>)
    ensures
        untag(a + b) == untag(a) + untag(b),
{
    assert(untag(a + b) =~= untag(a) + untag(b));
}

proof fn lemma_route_all_append(rv: RoutingView, a: Seq<SpecStreamEvent>, b: Seq<SpecStreamEvent>)
    ensures
        spec_route_all(rv, a + b) == (
            spec_route_all(spec_route_all(rv, a).0, b).0,
            spec_route_all(rv, a).1 + spec_route_all(spec_route_all(rv, a).0, b).1,
        ),
    decreases b.len(),
{
    if b.len() == 0 {
        assert(a + b =~= a);
        assert(spec_route_all(rv, a).1 + Seq::<SpecDelivery>::empty() =~= spec_route_all(rv, a).1);
    } else {
        lemma_route_all_append(rv, a, b.drop_last());
        assert((a + b).drop_last() =~= a + b.drop_last());
        assert((a + b).last() == b.last());
        let r1 = spec_route_all(rv, a);
        let prev = spec_route_all(r1.0, b.drop_last());
        let step = spec_route(prev.0, b.last());
        assert(r1.1 + prev.1 + step.1 =~= r1.1 + (prev.1 + step.1));
    }
}

proof fn lemma_dispatch_append(q: Seq<(u32, SpecRpcRequest)>, a: Seq<SpecDelivery>, b: Seq<SpecDelivery>)
    ensures
        spec_dispatch(q, a + b) == (
            spec_dispatch(spec_dispatch(q, a).0, b).0,
            spec_dispatch(q, a).1 + spec_dispatch(spec_dispatch(q, a).0, b).1,
        ),
    decreases b.len(),
{
    if b.len() == 0 {
        assert(a + b =~= a);
        assert(spec_dispatch(q, a).1 + Seq::<SpecDelivery>::empty() =~= spec_dispatch(q, a).1);
    } else {
        lemma_dispatch_append(q, a, b.drop_last());
        assert((a + b).drop_last() =~= a + b.drop_last());
        assert((a + b).last() == b.last());
        let d1 = spec_dispatch(q, a);
        let prev = spec_dispatch(d1.0, b.drop_last());
        let d = b.last();
        if d.target != Target::CatchAll {
            assert(d1.1 + prev.1.push(d) =~= (d1.1 + prev.1).push(d));
        }
    }
}

/// A dispatcher is indifferent to how the transport cuts the bytes: when
/// reading `x` succeeds, reading `y` afterwards fails exactly when reading
/// `x + y` at once fails, and otherwise ends in the same state, with the
/// same queued ids, having delivered the same events in the same order.
pub proof fn lemma_read_split(v: DispatcherView, x: Seq<u8>, y: Seq<u8>)
    requires
        spec_dispatcher_read(v, x) is Some,
    ensures
        ({
            let (v1, ids1, ds1) = spec_dispatcher_read(v, x).unwrap();
            match (spec_dispatcher_read(v1, y), spec_dispatcher_read(v, x + y)) {
                (Some((v2, ids2, ds2)), Some((w, idsw, dsw))) => w == v2 && idsw == ids2 && dsw
                    == ds1 + ds2,
                (None, None) => true,
                _ => false,
            }
        }),
{
    let p = v.session.session.pending;
    crate::frame::lemma_parse_frames_append(p + x, y);
    assert(p + (x + y) =~= p + x + y);
    let (fs1, rest) = spec_parse_frames(p + x).unwrap();
    let (v1, ids1, ds1) = spec_dispatcher_read(v, x).unwrap();
    assert(v1.session.session.pending == rest);
    match spec_parse_frames(rest + y) {
        Some((fs2, rest2)) => {
            let m = v.session.session.streams;
            lemma_trace_append(m, fs1, fs2);
            let t1 = spec_session_trace(m, fs1);
            let t2 = spec_session_trace(t1.0, fs2);
            lemma_untag_append(t1.1, t2.1);
            let rv = v.session.routing;
            lemma_route_all_append(rv, untag(t1.1), untag(t2.1));
            let r1 = spec_route_all(rv, untag(t1.1));
            let r2 = spec_route_all(r1.0, untag(t2.1));
            lemma_dispatch_append(v.queue, r1.1, r2.1);
        },
        None => {},
    }
}

} // verus!
