use std::collections::HashMap;
use vstd::prelude::*;
use vstd::slice::slice_to_vec;

use crate::frame::{Frame, FrameDecodeError, FrameEncodeError, FrameKind, frames_view, spec_parse_frames};
use crate::ids::IdSpace;
use crate::rpc_header::{RpcHeader, SpecRpcHeader, header_fits, spec_header_bytes};
use crate::session::{
    RpcSession, SessionView, end_event, header_event, spec_chunk_events, spec_session_trace, untag,
};
use crate::stream_decoder::{RpcStreamEvent, SpecStreamEvent, events_view};
use crate::stream_encoder::{
    EncoderView, RpcStreamEncoder, StreamState, chunk_size_ok, frames_are, seq_inc, stamped,
};

verus! {

broadcast use {vstd::seq_lib::group_seq_properties, vstd::std_specs::hash::group_hash_axioms};

/// Who an event is for: the handler registered for a request, or the
/// catch-all handler.
#[derive(Debug, Clone, Copy, PartialEq, Eq, Structural)]
pub enum Target {
    Handler(u32),
    CatchAll,
}

/// An event handed to a handler, as a mathematical value.
pub struct SpecDelivery {
    pub target: Target,
    pub event: SpecStreamEvent,
}

/// An event, and the handler it is for.
#[derive(Debug)]
pub struct Delivery {
    pub target: Target,
    pub event: RpcStreamEvent,
}

impl View for Delivery {
    type V = SpecDelivery;

    open spec fn view(&self) -> SpecDelivery {
        SpecDelivery { target: self.target, event: self.event@ }
    }
}

/// The views of a vector of deliveries.
pub open spec fn deliveries_view(ds: Seq<Delivery>) -> Seq<SpecDelivery> {
    ds.map_values(|d: Delivery| d@)
}

/// The routing tables of a respondable session, as a mathematical value.
pub struct RoutingView {
    /// Requests that have a handler of their own.
    pub handlers: Set<u32>,
    /// Per request: whether its response is buffered and handed over whole.
    pub flags: Map<u32, bool>,
    /// Per prebuffered request: the response bytes received so far.
    pub buffers: Map<u32, Seq<u8>>,
    /// The methods whose incoming streams get a handler of their own when
    /// their header arrives, once a router is set.
    pub router: Option<Set<u64>>,
    pub has_catch_all: bool,
}

/// A delivery of `e` to the handler of request `rid`.
pub open spec fn to_handler(rid: u32, e: SpecStreamEvent) -> SpecDelivery {
    SpecDelivery { target: Target::Handler(rid), event: e }
}

/// The tables after the router has seen `e`: the header of a stream of a
/// routed method gives its request a handler.
pub open spec fn spec_register_routed(rv: RoutingView, e: SpecStreamEvent) -> RoutingView {
    match e {
        SpecStreamEvent::Header { rpc_request_id, rpc_method_id, .. } => match rv.router {
            Some(ms) => if ms.contains(rpc_method_id) {
                RoutingView { handlers: rv.handlers.insert(rpc_request_id), ..rv }
            } else {
                rv
            },
            None => rv,
        },
        _ => rv,
    }
}

/// Whether the response to `rid` is buffered.
pub open spec fn is_prebuffering(rv: RoutingView, rid: u32) -> bool {
    rv.flags.contains_key(rid) && rv.flags[rid]
}

/// The bytes buffered for `rid` so far.
pub open spec fn buffered(rv: RoutingView, rid: u32) -> Seq<u8> {
    if rv.buffers.contains_key(rid) {
        rv.buffers[rid]
    } else {
        Seq::empty()
    }
}

/// An event of a prebuffered request: the header goes to the request's
/// handler, payload chunks are buffered, and the end hands the handler the
/// whole buffer as one chunk, then the end itself.
pub open spec fn spec_prebuffer_step(rv: RoutingView, rid: u32, e: SpecStreamEvent) -> (
    RoutingView,
    Seq<SpecDelivery>,
) {
    let buf = buffered(rv, rid);
    let rvb = RoutingView { buffers: rv.buffers.insert(rid, buf), ..rv };
    match e {
        SpecStreamEvent::Header { .. } => (
            rvb,
            if rv.handlers.contains(rid) {
                seq![to_handler(rid, e)]
            } else {
                Seq::empty()
            },
        ),
        SpecStreamEvent::PayloadChunk { bytes, .. } => (
            RoutingView { buffers: rv.buffers.insert(rid, buf + bytes), ..rv },
            Seq::empty(),
        ),
        SpecStreamEvent::End { rpc_method_id, rpc_header, .. } => if rv.handlers.contains(rid) {
            (
                RoutingView { buffers: rv.buffers.remove(rid), flags: rv.flags.remove(rid), ..rv },
                seq![
                    to_handler(
                        rid,
                        SpecStreamEvent::PayloadChunk {
                            rpc_request_id: rid,
                            rpc_method_id,
                            bytes: buf,
                            rpc_header,
                        },
                    ),
                    to_handler(rid, e),
                ],
            )
        } else {
            (rvb, Seq::empty())
        },
        SpecStreamEvent::Error { .. } => (rvb, Seq::empty()),
    }
}

/// The tables without any entry for request `rid`.
pub open spec fn forget_request(rv: RoutingView, rid: u32) -> RoutingView {
    RoutingView {
        handlers: rv.handlers.remove(rid),
        flags: rv.flags.remove(rid),
        buffers: rv.buffers.remove(rid),
        ..rv
    }
}

/// The tables after `e`, forgetting its request when `e` closes it.
pub open spec fn after_event(rv: RoutingView, rid: u32, e: SpecStreamEvent) -> RoutingView {
    if e.is_terminal() {
        forget_request(rv, rid)
    } else {
        rv
    }
}

/// Routes one event: where it goes, and the tables afterwards.
///
/// An event of a request with a handler goes to that handler; one of a
/// prebuffered request follows `spec_prebuffer_step`; the catch-all gets
/// every event that no handler took, prebuffered ones included. The end or
/// failure of a request removes every entry it has in the tables.
pub open spec fn spec_route(rv: RoutingView, e: SpecStreamEvent) -> (RoutingView, Seq<SpecDelivery>) {
    let rv1 = spec_register_routed(rv, e);
    let catch_all = if rv1.has_catch_all {
        seq![SpecDelivery { target: Target::CatchAll, event: e }]
    } else {
        Seq::empty()
    };
    match e.request_id() {
        None => (rv1, catch_all),
        Some(rid) => if is_prebuffering(rv1, rid) {
            let step = spec_prebuffer_step(rv1, rid, e);
            (after_event(step.0, rid, e), step.1 + catch_all)
        } else if rv1.handlers.contains(rid) {
            (after_event(rv1, rid, e), seq![to_handler(rid, e)])
        } else {
            (after_event(rv1, rid, e), catch_all)
        },
    }
}

/// Routes events in order.
pub open spec fn spec_route_all(rv: RoutingView, es: Seq<SpecStreamEvent>) -> (
    RoutingView,
    Seq<SpecDelivery>,
)
    decreases es.len(),
{
    if es.len() == 0 {
        (rv, Seq::empty())
    } else {
        let prev = spec_route_all(rv, es.drop_last());
        let step = spec_route(prev.0, es.last());
        (step.0, prev.1 + step.1)
    }
}

/// What a respondable session holds, as a mathematical value.
pub struct RespondableView {
    pub session: SessionView,
    pub routing: RoutingView,
}

/// The views of a map of byte buffers.
pub open spec fn buffers_view(m: Map<u32, Vec<u8>>) -> Map<u32, Seq<u8>> {
    m.map_values(|v: Vec<u8>| v@)
}

/// The view of an optional list of method ids.
pub open spec fn router_view(r: Option<Vec<u64>>) -> Option<Set<u64>> {
    match r {
        Some(v) => Some(v@.to_set()),
        None => None,
    }
}

fn contains_id(v: &Vec<u32>, x: u32) -> (b: bool)
    ensures
        b == v@.contains(x),
{
    let mut i: usize = 0;
    while i < v.len()
        invariant
            i <= v.len(),
            forall|j: int| 0 <= j < i ==> v@[j] != x,
        decreases v.len() - i,
    {
        if v[i] == x {
            return true;
        }
        i = i + 1;
    }
    false
}

fn contains_method(v: &Vec<u64>, x: u64) -> (b: bool)
    ensures
        b == v@.contains(x),
{
    let mut i: usize = 0;
    while i < v.len()
        invariant
            i <= v.len(),
            forall|j: int| 0 <= j < i ==> v@[j] != x,
        decreases v.len() - i,
    {
        if v[i] == x {
            return true;
        }
        i = i + 1;
    }
    false
}

fn add_id(v: &mut Vec<u32>, x: u32)
    requires
        old(v)@.no_duplicates(),
    ensures
        final(v)@.no_duplicates(),
        final(v)@.to_set() == old(v)@.to_set().insert(x),
{
    if !contains_id(v, x) {
        v.push(x);
        assert(final(v)@.to_set() =~= old(v)@.to_set().insert(x)) by {
            assert forall|y: u32| final(v)@.contains(y) <==> old(v)@.contains(y) || y == x by {
                if old(v)@.contains(y) {
                    let j = choose|j: int| 0 <= j < old(v)@.len() && old(v)@[j] == y;
                    assert(final(v)@[j] == y);
                }
                if y == x {
                    assert(final(v)@[old(v)@.len() as int] == y);
                }
            }
        }
    } else {
        assert(old(v)@.to_set() =~= old(v)@.to_set().insert(x));
    }
}

fn remove_id(v: &mut Vec<u32>, x: u32)
    requires
        old(v)@.no_duplicates(),
    ensures
        final(v)@.no_duplicates(),
        final(v)@.to_set() == old(v)@.to_set().remove(x),
{
    let mut out: Vec<u32> = Vec::new();
    let mut i: usize = 0;
    while i < v.len()
        invariant
            i <= v.len(),
            v@ == old(v)@,
            old(v)@.no_duplicates(),
            out@.no_duplicates(),
            forall|y: u32| out@.contains(y) <==> (exists|j: int| 0 <= j < i && v@[j] == y && y != x),
        decreases v.len() - i,
    {
        let y = v[i];
        if y != x {
            proof {
                assert forall|k: int| 0 <= k < out@.len() implies out@[k] != y by {
                    assert(out@.contains(out@[k]));
                }
            }
            let ghost before = out@;
            out.push(y);
            assert forall|z: u32|
                out@.contains(z) <==> (exists|j: int| 0 <= j < i + 1 && v@[j] == z && z != x) by {
                if out@.contains(z) {
                    let k = choose|k: int| 0 <= k < out@.len() && out@[k] == z;
                    if k < before.len() {
                        assert(before.contains(z));
                    } else {
                        assert(v@[i as int] == z);
                    }
                }
                if exists|j: int| 0 <= j < i + 1 && v@[j] == z && z != x {
                    let j = choose|j: int| 0 <= j < i + 1 && v@[j] == z && z != x;
                    if j < i {
                        assert(before.contains(z));
                        let k = choose|k: int| 0 <= k < before.len() && before[k] == z;
                        assert(out@[k] == z);
                    } else {
                        assert(out@[before.len() as int] == z);
                    }
                }
            }
        } else {
            assert forall|z: u32|
                out@.contains(z) <==> (exists|j: int| 0 <= j < i + 1 && v@[j] == z && z != x) by {
                if exists|j: int| 0 <= j < i + 1 && v@[j] == z && z != x {
                    let j = choose|j: int| 0 <= j < i + 1 && v@[j] == z && z != x;
                    assert(j < i);
                }
            }
        }
        i = i + 1;
    }
    assert(out@.to_set() =~= old(v)@.to_set().remove(x)) by {
        assert forall|z: u32| out@.contains(z) <==> old(v)@.contains(z) && z != x by {
            if old(v)@.contains(z) && z != x {
                let j = choose|j: int| 0 <= j < old(v)@.len() && old(v)@[j] == z;
                assert(exists|j: int| 0 <= j < i && v@[j] == z && z != x);
            }
        }
    }
    *v = out;
}

/// A session that remembers, per outgoing request, whether a handler waits
/// for its response and whether that response is handed over whole, and
/// routes every incoming event to the handler it is for.
#[derive(Debug)]
pub struct RpcRespondableSession {
    rpc_session: RpcSession,
    response_handlers: Vec<u32>,
    has_catch_all: bool,
    prebuffered_responses: HashMap<u32, Vec<u8>>,
    prebuffering_flags: HashMap<u32, bool>,
    stream_method_router: Option<Vec<u64>>,
}

impl View for RpcRespondableSession {
    type V = RespondableView;

    closed spec fn view(&self) -> RespondableView {
        RespondableView {
            session: self.rpc_session@,
            routing: RoutingView {
                handlers: self.response_handlers@.to_set(),
                flags: self.prebuffering_flags@,
                buffers: buffers_view(self.prebuffered_responses@),
                router: router_view(self.stream_method_router),
                has_catch_all: self.has_catch_all,
            },
        }
    }
}

impl RpcRespondableSession {
    /// The well-formedness of a session: each handler is listed once.
    pub closed spec fn wf(&self) -> bool {
        self.response_handlers@.no_duplicates()
    }

    /// A session with no streams, no handlers and no router, allocating ids
    /// in `id_space`.
    pub fn new(id_space: IdSpace) -> (s: RpcRespondableSession)
        ensures
            s.wf(),
            s@.session == (SessionView {
                id_space,
                next_id: 1,
                pending: Seq::empty(),
                streams: Map::empty(),
            }),
            s@.routing == (RoutingView {
                handlers: Set::empty(),
                flags: Map::empty(),
                buffers: Map::empty(),
                router: None,
                has_catch_all: false,
            }),
    {
        let s = RpcRespondableSession {
            rpc_session: RpcSession::new(id_space),
            response_handlers: Vec::new(),
            has_catch_all: false,
            prebuffered_responses: HashMap::new(),
            prebuffering_flags: HashMap::new(),
            stream_method_router: None,
        };
        assert(s.response_handlers@.to_set() =~= Set::<u32>::empty());
        assert(buffers_view(s.prebuffered_responses@) =~= Map::<u32, Seq<u8>>::empty());
        s
    }

    /// The half of the id space this session allocates ids in.
    pub fn id_space(&self) -> (s: IdSpace)
        ensures
            s == self@.session.id_space,
    {
        self.rpc_session.id_space()
    }

    /// Opens an outgoing request stream with `hdr`. Before the stream is
    /// opened, the request is marked prebuffered or not, and, when
    /// `register_handler` holds, given a handler for its response; both
    /// stay even when the stream is refused. Refused with `CorruptFrame` as
    /// `RpcSession::init_request` is.
    pub fn init_respondable_request(
        &mut self,
        hdr: &RpcHeader,
        max_chunk_size: usize,
        register_handler: bool,
        prebuffer_response: bool,
        timestamp: u64,
    ) -> (r: Result<(RpcStreamEncoder, Vec<Frame>), FrameEncodeError>)
        requires
            old(self).wf(),
        ensures
            final(self).wf(),
            final(self)@.session == (SessionView {
                next_id: seq_inc(old(self)@.session.next_id),
                ..old(self)@.session
            }),
            final(self)@.routing == (RoutingView {
                flags: old(self)@.routing.flags.insert(hdr.rpc_request_id, prebuffer_response),
                handlers: if register_handler {
                    old(self)@.routing.handlers.insert(hdr.rpc_request_id)
                } else {
                    old(self)@.routing.handlers
                },
                ..old(self)@.routing
            }),
            r is Ok <==> header_fits(hdr@) && chunk_size_ok(max_chunk_size),
            r matches Err(e) ==> e == FrameEncodeError::CorruptFrame,
            r matches Ok((enc, frames)) ==> {
                let sid = old(self)@.session.id_space.spec_place(old(self)@.session.next_id);
                &&& enc.wf()
                &&& enc@ == EncoderView {
                    stream_id: sid,
                    next_seq: 1,
                    chunk_size: max_chunk_size as nat,
                    pending: Seq::empty(),
                    state: StreamState::Open,
                }
                &&& frames_are(
                    frames_view(frames@),
                    sid,
                    0,
                    seq![FrameKind::Open],
                    seq![spec_header_bytes(hdr@)],
                )
            
                &&& stamped(frames_view(frames@), timestamp)
            },
    {
        let rpc_request_id = hdr.rpc_request_id;
        self.prebuffering_flags.insert(rpc_request_id, prebuffer_response);
        if register_handler {
            add_id(&mut self.response_handlers, rpc_request_id);
        }
        self.rpc_session.init_request(hdr, max_chunk_size, timestamp)
    }

    /// Opens an outgoing reply stream with `hdr`; no handler or buffering
    /// is set up for it.
    pub fn start_reply_stream(&mut self, hdr: &RpcHeader, max_chunk_size: usize, timestamp: u64) -> (r: Result<
        (RpcStreamEncoder, Vec<Frame>),
        FrameEncodeError,
    >)
        requires
            old(self).wf(),
        ensures
            final(self).wf(),
            final(self)@.session == (SessionView {
                next_id: seq_inc(old(self)@.session.next_id),
                ..old(self)@.session
            }),
            final(self)@.routing == old(self)@.routing,
            r is Ok <==> header_fits(hdr@) && chunk_size_ok(max_chunk_size),
            r matches Err(e) ==> e == FrameEncodeError::CorruptFrame,
            r matches Ok((enc, frames)) ==> {
                let sid = old(self)@.session.id_space.spec_place(old(self)@.session.next_id);
                &&& enc.wf()
                &&& enc@ == EncoderView {
                    stream_id: sid,
                    next_seq: 1,
                    chunk_size: max_chunk_size as nat,
                    pending: Seq::empty(),
                    state: StreamState::Open,
                }
                &&& frames_are(
                    frames_view(frames@),
                    sid,
                    0,
                    seq![FrameKind::Open],
                    seq![spec_header_bytes(hdr@)],
                )
            
                &&& stamped(frames_view(frames@), timestamp)
            },
    {
        self.rpc_session.init_request(hdr, max_chunk_size, timestamp)
    }

    /// Sets the methods whose incoming streams get a handler of their own
    /// when their header arrives, so that their later events go to that
    /// handler rather than to the catch-all.
    pub fn set_stream_method_router(&mut self, method_ids: Vec<u64>)
        requires
            old(self).wf(),
        ensures
            final(self).wf(),
            final(self)@.session == old(self)@.session,
            final(self)@.routing == (RoutingView {
                router: Some(method_ids@.to_set()),
                ..old(self)@.routing
            }),
    {
        self.stream_method_router = Some(method_ids);
    }

    /// Installs the catch-all handler, which gets every event that no
    /// handler of its own took.
    pub fn set_catch_all_response_handler(&mut self)
        requires
            old(self).wf(),
        ensures
            final(self).wf(),
            final(self)@.session == old(self)@.session,
            final(self)@.routing == (RoutingView { has_catch_all: true, ..old(self)@.routing }),
    {
        self.has_catch_all = true;
    }

    /// The number of requests that still have a handler.
    pub fn get_remaining_response_handlers(&self) -> (n: usize)
        requires
            self.wf(),
        ensures
            n == self@.routing.handlers.len(),
    {
        proof {
            self.response_handlers@.unique_seq_to_set();
        }
        self.response_handlers.len()
    }

    /// The number of requests with a prebuffering flag.
    pub fn prebuffering_flag_count(&self) -> (n: usize)
        ensures
            n == self@.routing.flags.len(),
    {
        self.prebuffering_flags.len()
    }

    /// The number of requests with a response buffer.
    pub fn prebuffered_response_count(&self) -> (n: usize)
        ensures
            n == self@.routing.buffers.len(),
    {
        proof {
            assert(buffers_view(self.prebuffered_responses@).dom() =~= self.prebuffered_responses@.dom());
        }
        self.prebuffered_responses.len()
    }

    /// Drops every prebuffering flag and buffer.
    pub fn clear_all_prebuffering(&mut self)
        requires
            old(self).wf(),
        ensures
            final(self).wf(),
            final(self)@.session == old(self)@.session,
            final(self)@.routing == (RoutingView {
                flags: Map::empty(),
                buffers: Map::empty(),
                ..old(self)@.routing
            }),
    {
        self.prebuffering_flags.clear();
        self.prebuffered_responses.clear();
        assert(buffers_view(self.prebuffered_responses@) =~= Map::<u32, Seq<u8>>::empty());
    }

    /// Takes every handler away; returns the requests that had one.
    pub fn take_response_handlers(&mut self) -> (ids: Vec<u32>)
        requires
            old(self).wf(),
        ensures
            final(self).wf(),
            final(self)@.session == old(self)@.session,
            final(self)@.routing == (RoutingView { handlers: Set::empty(), ..old(self)@.routing }),
            ids@.no_duplicates(),
            ids@.to_set() == old(self)@.routing.handlers,
    {
        let mut ids: Vec<u32> = Vec::new();
        std::mem::swap(&mut ids, &mut self.response_handlers);
        assert(self.response_handlers@.to_set() =~= Set::<u32>::empty());
        ids
    }

    fn forget(&mut self, rid: u32)
        requires
            old(self).wf(),
        ensures
            final(self).wf(),
            final(self)@.session == old(self)@.session,
            final(self)@.routing == forget_request(old(self)@.routing, rid),
    {
        remove_id(&mut self.response_handlers, rid);
        self.prebuffering_flags.remove(&rid);
        self.prebuffered_responses.remove(&rid);
        assert(buffers_view(self.prebuffered_responses@) =~= buffers_view(
            old(self).prebuffered_responses@,
        ).remove(rid));
    }

    fn buffered_bytes(&mut self, rid: u32) -> (b: Vec<u8>)
        requires
            old(self).wf(),
        ensures
            final(self).wf(),
            final(self)@.session == old(self)@.session,
            final(self)@.routing == (RoutingView {
                buffers: old(self)@.routing.buffers.remove(rid),
                ..old(self)@.routing
            }),
            b@ == buffered(old(self)@.routing, rid),
    {
        let b = match self.prebuffered_responses.remove(&rid) {
            Some(b) => b,
            None => Vec::new(),
        };
        assert(buffers_view(self.prebuffered_responses@) =~= buffers_view(
            old(self).prebuffered_responses@,
        ).remove(rid));
        b
    }

    fn route(&mut self, evt: RpcStreamEvent) -> (ds: Vec<Delivery>)
        requires
            old(self).wf(),
        ensures
            final(self).wf(),
            final(self)@.session == old(self)@.session,
            (final(self)@.routing, deliveries_view(ds@)) == spec_route(old(self)@.routing, evt@),
            final(self)@.routing.has_catch_all == old(self)@.routing.has_catch_all,
            final(self)@.routing.router == old(self)@.routing.router,
    {
        let ghost rv0 = self@.routing;
        let ghost e = evt@;
        if let RpcStreamEvent::Header { rpc_request_id, rpc_method_id, .. } = &evt {
            let routed = match &self.stream_method_router {
                Some(ms) => contains_method(ms, *rpc_method_id),
                None => false,
            };
            if routed {
                add_id(&mut self.response_handlers, *rpc_request_id);
            }
        }
        let ghost rv1 = self@.routing;
        assert(rv1 == spec_register_routed(rv0, e));
        let mut ds: Vec<Delivery> = Vec::new();
        let mut handled = false;
        let ghost mut first: Seq<SpecDelivery> = Seq::empty();
        match evt.request_id() {
            None => {},
            Some(rid) => {
                let pre = match self.prebuffering_flags.get(&rid) {
                    Some(b) => *b,
                    None => false,
                };
                assert(pre == is_prebuffering(rv1, rid));
                if pre {
                    let ghost step = spec_prebuffer_step(rv1, rid, e);
                    let has = contains_id(&self.response_handlers, rid);
                    match &evt {
                        RpcStreamEvent::Header { .. } => {
                            if !self.prebuffered_responses.contains_key(&rid) {
                                self.prebuffered_responses.insert(rid, Vec::new());
                            }
                            assert(buffers_view(self.prebuffered_responses@) =~= rv1.buffers.insert(
                                rid,
                                buffered(rv1, rid),
                            ));
                            if has {
                                ds.push(Delivery { target: Target::Handler(rid), event: evt.duplicate() });
                            }
                        },
                        RpcStreamEvent::PayloadChunk { bytes, .. } => {
                            let mut b = self.buffered_bytes(rid);
                            let mut more = slice_to_vec(bytes.as_slice());
                            b.append(&mut more);
                            let ghost bv = b@;
                            let ghost mid = self.prebuffered_responses@;
                            assert(buffers_view(mid) == rv1.buffers.remove(rid));
                            self.prebuffered_responses.insert(rid, b);
                            assert(buffers_view(self.prebuffered_responses@) =~= buffers_view(
                                mid,
                            ).insert(rid, bv));
                            assert(rv1.buffers.remove(rid).insert(rid, bv) =~= rv1.buffers.insert(
                                rid,
                                bv,
                            ));
                            assert(buffers_view(self.prebuffered_responses@) =~= rv1.buffers.insert(
                                rid,
                                bv,
                            ));
                        },
                        RpcStreamEvent::End { rpc_method_id, rpc_header, .. } => {
                            if has {
                                let b = self.buffered_bytes(rid);
                                self.prebuffering_flags.remove(&rid);
                                ds.push(
                                    Delivery {
                                        target: Target::Handler(rid),
                                        event: RpcStreamEvent::PayloadChunk {
                                            rpc_request_id: rid,
                                            rpc_method_id: *rpc_method_id,
                                            bytes: b,
                                            rpc_header: rpc_header.duplicate(),
                                        },
                                    },
                                );
                                ds.push(Delivery { target: Target::Handler(rid), event: evt.duplicate() });
                            } else {
                                if !self.prebuffered_responses.contains_key(&rid) {
                                    self.prebuffered_responses.insert(rid, Vec::new());
                                }
                                assert(buffers_view(self.prebuffered_responses@) =~= rv1.buffers.insert(
                                    rid,
                                    buffered(rv1, rid),
                                ));
                            }
                        },
                        RpcStreamEvent::Error { .. } => {
                            if !self.prebuffered_responses.contains_key(&rid) {
                                self.prebuffered_responses.insert(rid, Vec::new());
                            }
                            assert(buffers_view(self.prebuffered_responses@) =~= rv1.buffers.insert(
                                rid,
                                buffered(rv1, rid),
                            ));
                        },
                    }
                    assert(self@.routing == step.0);
                    assert(deliveries_view(ds@) =~= step.1);
                } else if contains_id(&self.response_handlers, rid) {
                    ds.push(Delivery { target: Target::Handler(rid), event: evt.duplicate() });
                    handled = true;
                    assert(deliveries_view(ds@) =~= seq![to_handler(rid, e)]);
                } else {
                    assert(deliveries_view(ds@) =~= Seq::<SpecDelivery>::empty());
                }
                if evt.is_terminal() {
                    self.forget(rid);
                }
            },
        }
        proof {
            first = deliveries_view(ds@);
        }
        if !handled && self.has_catch_all {
            ds.push(Delivery { target: Target::CatchAll, event: evt });
            assert(deliveries_view(ds@) =~= first + seq![SpecDelivery { target: Target::CatchAll, event: e }]);
        } else {
            assert(deliveries_view(ds@) =~= first + Seq::<SpecDelivery>::empty());
        }
        ds
    }

    /// Takes in received bytes, reassembles the incoming streams (see
    /// `RpcSession::read_bytes`) and routes their events in order (see
    /// `spec_route`); returns every delivery, in order. A corrupt frame
    /// refuses the read as `RpcSession::read_bytes` does and routes nothing.
    pub fn read_bytes(&mut self, bytes: &[u8]) -> (r: Result<Vec<Delivery>, FrameDecodeError>)
        requires
            old(self).wf(),
        ensures
            final(self).wf(),
            final(self)@.session.id_space == old(self)@.session.id_space,
            final(self)@.session.next_id == old(self)@.session.next_id,
            final(self)@.routing.has_catch_all == old(self)@.routing.has_catch_all,
            final(self)@.routing.router == old(self)@.routing.router,
            match spec_parse_frames(old(self)@.session.pending + bytes@) {
                Some((fs, rest)) => {
                    let t = spec_session_trace(old(self)@.session.streams, fs);
                    let routed = spec_route_all(old(self)@.routing, untag(t.1));
                    &&& r matches Ok(ds) && deliveries_view(ds@) == routed.1
                    &&& final(self)@.session.pending == rest
                    &&& final(self)@.session.streams == t.0
                    &&& final(self)@.routing == routed.0
                    &&& closed_requests_forgotten(final(self)@.routing, untag(t.1))
                },
                None => {
                    &&& r == Err::<Vec<Delivery>, FrameDecodeError>(FrameDecodeError::CorruptFrame)
                    &&& final(self)@.session.pending == Seq::<u8>::empty()
                    &&& final(self)@.session.streams == old(self)@.session.streams
                    &&& final(self)@.routing == old(self)@.routing
                },
            },
    {
        let events = match self.rpc_session.read_bytes(bytes) {
            Ok(es) => es,
            Err(e) => {
                return Err(e);
            },
        };
        let ghost es = events_view(events@);
        let ghost rv0 = self@.routing;
        let ghost sess = self@.session;
        let n = events.len();
        let mut events = events;
        let mut rev: Vec<RpcStreamEvent> = Vec::new();
        while events.len() > 0
            invariant
                events.len() + rev.len() == n,
                n == es.len(),
                forall|j: int| 0 <= j < rev.len() ==> (#[trigger] rev@[j])@ == es[n - 1 - j],
                forall|j: int| 0 <= j < events.len() ==> (#[trigger] events@[j])@ == es[j],
            decreases events.len(),
        {
            let e = events.pop().unwrap();
            rev.push(e);
        }
        let mut out: Vec<Delivery> = Vec::new();
        let mut i: usize = 0;
        while rev.len() > 0
            invariant
                i + rev.len() == n,
                n == es.len(),
                forall|j: int| 0 <= j < rev.len() ==> (#[trigger] rev@[j])@ == es[n - 1 - j],
                self.wf(),
                self@.session == sess,
                self@.routing.has_catch_all == rv0.has_catch_all,
                self@.routing.router == rv0.router,
                (self@.routing, deliveries_view(out@)) == spec_route_all(rv0, es.take(i as int)),
            decreases rev.len(),
        {
            let e = rev.pop().unwrap();
            assert(e@ == es[i as int]);
            assert(es.take(i + 1).drop_last() =~= es.take(i as int));
            assert(es.take(i + 1).last() == e@);
            let ghost before = deliveries_view(out@);
            let mut ds = self.route(e);
            let ghost dv = deliveries_view(ds@);
            out.append(&mut ds);
            assert(deliveries_view(out@) =~= before + dv);
            i = i + 1;
        }
        assert(es.take(n as int) =~= es);
        proof {
            reveal(closed_requests_forgotten);
            assert forall|k: int|
                0 <= k < es.len() && (#[trigger] es[k]).is_terminal() && es[k].request_id() is Some implies
                request_forgotten(self@.routing, es, es[k].request_id()->0, k) by {
                lemma_read_closing_request_forgets_it(rv0, es, es[k].request_id()->0, k);
            }
        }
        Ok(out)
    }
}


impl Default for RpcRespondableSession {
    /// A client-side session with no streams, handlers or router.
    fn default() -> (s: RpcRespondableSession)
        ensures
            s.wf(),
            s@.session == (SessionView {
                id_space: IdSpace::Client,
                next_id: 1,
                pending: Seq::empty(),
                streams: Map::empty(),
            }),
            s@.routing == (RoutingView {
                handlers: Set::empty(),
                flags: Map::empty(),
                buffers: Map::empty(),
                router: None,
                has_catch_all: false,
            }),
    {
        RpcRespondableSession::new(IdSpace::Client)
    }
}

/// Whether two tables hold the same entries for request `j`: its handler,
/// its flag and its buffer.
pub open spec fn same_entries(a: RoutingView, b: RoutingView, j: u32) -> bool {
    &&& a.handlers.contains(j) == b.handlers.contains(j)
    &&& a.flags.contains_key(j) == b.flags.contains_key(j)
    &&& a.flags.contains_key(j) ==> a.flags[j] == b.flags[j]
    &&& a.buffers.contains_key(j) == b.buffers.contains_key(j)
    &&& a.buffers.contains_key(j) ==> a.buffers[j] == b.buffers[j]
}

/// The end or failure of a request leaves no handler, flag or buffer for
/// it, whatever the tables held before, and leaves the entries of every
/// other request as they were.
pub proof fn lemma_terminal_event_forgets_request(rv: RoutingView, e: SpecStreamEvent, rid: u32)
    requires
        e.request_id() == Some(rid),
        e.is_terminal(),
    ensures
        !spec_route(rv, e).0.handlers.contains(rid),
        !spec_route(rv, e).0.flags.contains_key(rid),
        !spec_route(rv, e).0.buffers.contains_key(rid),
        forall|j: u32| j != rid ==> #[trigger] same_entries(rv, spec_route(rv, e).0, j),
{
}

/// An event of another request (or of none) leaves the entries of request
/// `i` as they were.
pub proof fn lemma_event_keeps_other_request(rv: RoutingView, e: SpecStreamEvent, i: u32)
    requires
        e.request_id() != Some(i),
    ensures
        same_entries(rv, spec_route(rv, e).0, i),
{
}

/// Whether tables `rv`, after the events `es`, hold nothing for request
/// `i`, closed by event `k`: no flag, no buffer, and no handler unless a
/// later header of `i` registered one again.
pub open spec fn request_forgotten(rv: RoutingView, es: Seq<SpecStreamEvent>, i: u32, k: int) -> bool {
    &&& !rv.flags.contains_key(i)
    &&& !rv.buffers.contains_key(i)
    &&& (forall|j: int|
        k < j < es.len() ==> !((#[trigger] es[j]) is Header && es[j].request_id() == Some(i)))
        ==> !rv.handlers.contains(i)
}

/// Whether tables `rv`, after the events `es`, have forgotten every
/// request that one of those events ends or fails.
#[verifier::opaque]
pub open spec fn closed_requests_forgotten(rv: RoutingView, es: Seq<SpecStreamEvent>) -> bool {
    forall|k: int|
        0 <= k < es.len() && (#[trigger] es[k]).is_terminal() && es[k].request_id() is Some
            ==> request_forgotten(rv, es, es[k].request_id()->0, k)
}

/// An event of request `i`, routed by tables that hold no flag and no
/// buffer for `i`, leaves none behind; and unless it is a header, it gives
/// `i` no handler either.
pub proof fn lemma_event_after_close(rv: RoutingView, e: SpecStreamEvent, i: u32)
    requires
        e.request_id() == Some(i),
        !rv.flags.contains_key(i),
        !rv.buffers.contains_key(i),
    ensures
        !spec_route(rv, e).0.flags.contains_key(i),
        !spec_route(rv, e).0.buffers.contains_key(i),
        !(e is Header) && !rv.handlers.contains(i) ==> !spec_route(rv, e).0.handlers.contains(i),
{
}

/// What a read leaves of a request that it closes: once one of the read's
/// events ends or fails request `i`, the tables afterwards hold no flag
/// and no buffer for `i`, and no handler for it either unless a later
/// header of `i` in the same read registers one again. (This is the
/// routing that `RpcRespondableSession::read_bytes` applies to the events
/// it decodes.)
pub proof fn lemma_read_closing_request_forgets_it(
    rv: RoutingView,
    es: Seq<SpecStreamEvent>,
    i: u32,
    k: int,
)
    requires
        0 <= k < es.len(),
        es[k].request_id() == Some(i),
        es[k].is_terminal(),
    ensures
        !spec_route_all(rv, es).0.flags.contains_key(i),
        !spec_route_all(rv, es).0.buffers.contains_key(i),
        (forall|j: int|
            k < j < es.len() ==> !((#[trigger] es[j]) is Header && es[j].request_id() == Some(i)))
            ==> !spec_route_all(rv, es).0.handlers.contains(i),
    decreases es.len(),
{
    let init = es.drop_last();
    let prev = spec_route_all(rv, init);
    let e = es.last();
    if k == es.len() - 1 {
        lemma_terminal_event_forgets_request(prev.0, e, i);
    } else {
        assert(init[k] == es[k]);
        lemma_read_closing_request_forgets_it(rv, init, i, k);
        if (forall|j: int|
            k < j < es.len() ==> !((#[trigger] es[j]) is Header && es[j].request_id() == Some(i))) {
            assert forall|j: int| k < j < init.len() implies !((#[trigger] init[j]) is Header
                && init[j].request_id() == Some(i)) by {
                assert(init[j] == es[j]);
            }
        }
        assert(e == es[es.len() - 1]);
        if e.request_id() == Some(i) {
            lemma_event_after_close(prev.0, e, i);
        } else {
            lemma_event_keeps_other_request(prev.0, e, i);
        }
    }
}

/// Whether a delivery is for target `t`.
pub open spec fn targets(t: Target) -> spec_fn(SpecDelivery) -> bool {
    |d: SpecDelivery| d.target == t
}

/// The events delivered to target `t`, in order.
pub open spec fn delivered_to(ds: Seq<SpecDelivery>, t: Target) -> Seq<SpecStreamEvent> {
    delivery_events(ds.filter(targets(t)))
}

/// The events of deliveries.
pub open spec fn delivery_events(ds: Seq<SpecDelivery>) -> Seq<SpecStreamEvent> {
    ds.map_values(|d: SpecDelivery| d.event)
}

/// A prebuffered response is handed over whole: when the response stream
/// of a request that has a handler and is prebuffered arrives (its header,
/// its payload chunks, its end), the handler gets the header, then one
/// chunk with every payload byte in order, then the end; and the request
/// leaves nothing in the tables.
pub proof fn lemma_prebuffered_response_whole(
    rv: RoutingView,
    h: SpecRpcHeader,
    ps: Seq<Seq<u8>>,
)
    requires
        rv.handlers.contains(h.rpc_request_id),
        is_prebuffering(rv, h.rpc_request_id),
        !rv.buffers.contains_key(h.rpc_request_id),
    ensures
        ({
            let rid = h.rpc_request_id;
            let es = seq![header_event(h)] + spec_chunk_events(h, ps) + seq![end_event(h)];
            let r = spec_route_all(rv, es);
            &&& delivered_to(r.1, Target::Handler(rid)) == seq![
                header_event(h),
                SpecStreamEvent::PayloadChunk {
                    rpc_request_id: rid,
                    rpc_method_id: h.rpc_method_id,
                    bytes: ps.flatten(),
                    rpc_header: h,
                },
                end_event(h),
            ]
            &&& !r.0.handlers.contains(rid)
            &&& !r.0.flags.contains_key(rid)
            &&& !r.0.buffers.contains_key(rid)
        }),
{
    let rid = h.rpc_request_id;
    let t = Target::Handler(rid);
    let pre = seq![header_event(h)] + spec_chunk_events(h, ps);
    lemma_prebuffered_prefix(rv, h, ps, ps.len());
    assert(ps.take(ps.len() as int) =~= ps);
    let es = pre + seq![end_event(h)];
    assert(es.drop_last() =~= pre);
    assert(es.last() == end_event(h));
    let prev = spec_route_all(rv, pre);
    let step = spec_route(prev.0, end_event(h));
    assert(buffered(prev.0, rid) == ps.flatten());
    let chunk = SpecStreamEvent::PayloadChunk {
        rpc_request_id: rid,
        rpc_method_id: h.rpc_method_id,
        bytes: ps.flatten(),
        rpc_header: h,
    };
    let catch_all = if prev.0.has_catch_all {
        seq![SpecDelivery { target: Target::CatchAll, event: end_event(h) }]
    } else {
        Seq::empty()
    };
    assert(step.1 == seq![to_handler(rid, chunk), to_handler(rid, end_event(h))] + catch_all);
    Seq::filter_distributes_over_add(prev.1, step.1, targets(t));
    Seq::filter_distributes_over_add(
        seq![to_handler(rid, chunk), to_handler(rid, end_event(h))],
        catch_all,
        targets(t),
    );
    reveal(Seq::filter);
    assert(catch_all.filter(targets(t)) =~= Seq::<SpecDelivery>::empty()) by {
        if prev.0.has_catch_all {
            assert(catch_all.drop_last() =~= Seq::<SpecDelivery>::empty());
        }
    }
    let two = seq![to_handler(rid, chunk), to_handler(rid, end_event(h))];
    assert(two.drop_last() =~= seq![to_handler(rid, chunk)]);
    assert(seq![to_handler(rid, chunk)].drop_last() =~= Seq::<SpecDelivery>::empty());
    crate::session::lemma_filter_all(two, targets(t));
    let before = prev.1.filter(targets(t));
    assert(delivery_events(before) == seq![header_event(h)]);
    assert(before.len() == 1);
    assert(before[0].event == header_event(h)) by {
        assert(delivery_events(before)[0] == before[0].event);
    }
    assert(two + catch_all.filter(targets(t)) =~= two);
    assert(step.1.filter(targets(t)) == two);
    assert(spec_route_all(rv, es).1 == prev.1 + step.1);
    assert(spec_route_all(rv, es).1.filter(targets(t)) == before + two);
    assert(delivery_events(before + two) =~= seq![header_event(h), chunk, end_event(h)]);
}

proof fn lemma_prebuffered_prefix(rv: RoutingView, h: SpecRpcHeader, ps: Seq<Seq<u8>>, j: nat)
    requires
        rv.handlers.contains(h.rpc_request_id),
        is_prebuffering(rv, h.rpc_request_id),
        !rv.buffers.contains_key(h.rpc_request_id),
        j <= ps.len(),
    ensures
        ({
            let rid = h.rpc_request_id;
            let r = spec_route_all(rv, seq![header_event(h)] + spec_chunk_events(h, ps.take(j as int)));
            &&& r.0.handlers.contains(rid)
            &&& is_prebuffering(r.0, rid)
            &&& r.0.buffers.contains_key(rid)
            &&& r.0.buffers[rid] == ps.take(j as int).flatten()
            &&& delivered_to(r.1, Target::Handler(rid)) == seq![header_event(h)]
        }),
    decreases j,
{
    reveal(Seq::filter);
    let rid = h.rpc_request_id;
    let t = Target::Handler(rid);
    if j == 0 {
        assert(ps.take(0) =~= Seq::<Seq<u8>>::empty());
        let es = seq![header_event(h)];
        assert(seq![header_event(h)] + Seq::<SpecStreamEvent>::empty() =~= es);
        assert(es.drop_last() =~= Seq::<SpecStreamEvent>::empty());
        let rv1 = spec_register_routed(rv, header_event(h));
        assert(rv1.handlers =~= rv.handlers);
        let step = spec_route(rv, header_event(h));
        let catch_all = if rv1.has_catch_all {
            seq![SpecDelivery { target: Target::CatchAll, event: header_event(h) }]
        } else {
            Seq::empty()
        };
        assert(step.1 == seq![to_handler(rid, header_event(h))] + catch_all);
        assert(Seq::<SpecDelivery>::empty() + step.1 =~= step.1);
        Seq::filter_distributes_over_add(seq![to_handler(rid, header_event(h))], catch_all, targets(t));
        assert(catch_all.filter(targets(t)) =~= Seq::<SpecDelivery>::empty()) by {
            if rv1.has_catch_all {
                assert(catch_all.drop_last() =~= Seq::<SpecDelivery>::empty());
            }
        }
        assert(seq![to_handler(rid, header_event(h))].drop_last() =~= Seq::<SpecDelivery>::empty());
        assert(seq![to_handler(rid, header_event(h))] + Seq::<SpecDelivery>::empty()
            =~= seq![to_handler(rid, header_event(h))]);
        assert(Seq::<Seq<u8>>::empty().flatten() =~= Seq::<u8>::empty());
        let r = spec_route_all(rv, es);
        assert(spec_route_all(rv, Seq::<SpecStreamEvent>::empty()) == (rv, Seq::<SpecDelivery>::empty()));
        assert(r == (step.0, Seq::<SpecDelivery>::empty() + step.1));
        assert(r.0.handlers.contains(rid));
        assert(is_prebuffering(r.0, rid));
        assert(r.0.buffers.contains_key(rid));
        assert(r.0.buffers[rid] == Seq::<u8>::empty());
        assert(r.1.filter(targets(t)) =~= seq![to_handler(rid, header_event(h))]);
        assert(delivered_to(r.1, t) =~= seq![header_event(h)]);
    } else {
        lemma_prebuffered_prefix(rv, h, ps, (j - 1) as nat);
        let i = j - 1;
        let a = ps.take(i as int);
        assert(ps.take(j as int).drop_last() =~= a);
        assert(ps.take(j as int).last() == ps[i as int]);
        assert(a.push(ps[i as int]) =~= ps.take(j as int));
        broadcast use Seq::lemma_flatten_push;
        let pre = seq![header_event(h)] + spec_chunk_events(h, a);
        let prev = spec_route_all(rv, pre);
        if ps[i as int].len() == 0 {
            assert(spec_chunk_events(h, ps.take(j as int)) == spec_chunk_events(h, a));
            assert(a.flatten() + ps[i as int] =~= a.flatten());
        } else {
            let e = SpecStreamEvent::PayloadChunk {
                rpc_request_id: rid,
                rpc_method_id: h.rpc_method_id,
                bytes: ps[i as int],
                rpc_header: h,
            };
            let es = seq![header_event(h)] + spec_chunk_events(h, ps.take(j as int));
            assert(es =~= pre.push(e));
            assert(es.drop_last() =~= pre);
            let step = spec_route(prev.0, e);
            let catch_all = if prev.0.has_catch_all {
                seq![SpecDelivery { target: Target::CatchAll, event: e }]
            } else {
                Seq::empty()
            };
            assert(step.1 =~= Seq::<SpecDelivery>::empty() + catch_all);
            Seq::filter_distributes_over_add(prev.1, step.1, targets(t));
            assert(step.1.filter(targets(t)) =~= Seq::<SpecDelivery>::empty()) by {
                if prev.0.has_catch_all {
                    assert(step.1.drop_last() =~= Seq::<SpecDelivery>::empty());
                }
            }
            assert(prev.1.filter(targets(t)) + Seq::<SpecDelivery>::empty() =~= prev.1.filter(
                targets(t),
            ));
            let r = spec_route_all(rv, es);
            assert(r == (step.0, prev.1 + step.1));
            assert(r.0.handlers.contains(rid));
            assert(is_prebuffering(r.0, rid));
            assert(r.0.buffers.contains_key(rid));
            assert(r.0.buffers[rid] == a.flatten() + ps[i as int]);
            assert(r.1.filter(targets(t)) == prev.1.filter(targets(t)));
        }
    }
}


/// Responses are correlated with their calls: when the response stream of
/// a request that has a handler and is not prebuffered arrives, every one
/// of its events goes to that handler, in order, and none to the catch-all;
/// afterwards the request leaves nothing in the tables.
pub proof fn lemma_response_reaches_handler(rv: RoutingView, h: SpecRpcHeader, ps: Seq<Seq<u8>>)
    requires
        rv.handlers.contains(h.rpc_request_id),
        !is_prebuffering(rv, h.rpc_request_id),
    ensures
        ({
            let rid = h.rpc_request_id;
            let es = seq![header_event(h)] + spec_chunk_events(h, ps) + seq![end_event(h)];
            let r = spec_route_all(rv, es);
            &&& r.1 == es.map_values(|e: SpecStreamEvent| to_handler(rid, e))
            &&& !r.0.handlers.contains(rid)
            &&& !r.0.flags.contains_key(rid)
            &&& !r.0.buffers.contains_key(rid)
        }),
{
    let rid = h.rpc_request_id;
    lemma_handler_prefix(rv, h, ps, ps.len());
    assert(ps.take(ps.len() as int) =~= ps);
    let pre = seq![header_event(h)] + spec_chunk_events(h, ps);
    let es = pre + seq![end_event(h)];
    assert(es.drop_last() =~= pre);
    assert(es.last() == end_event(h));
    let prev = spec_route_all(rv, pre);
    assert(spec_route(prev.0, end_event(h)).1 == seq![to_handler(rid, end_event(h))]);
    assert(prev.1 + seq![to_handler(rid, end_event(h))] =~= es.map_values(
        |e: SpecStreamEvent| to_handler(rid, e),
    ));
}

proof fn lemma_handler_prefix(rv: RoutingView, h: SpecRpcHeader, ps: Seq<Seq<u8>>, j: nat)
    requires
        rv.handlers.contains(h.rpc_request_id),
        !is_prebuffering(rv, h.rpc_request_id),
        j <= ps.len(),
    ensures
        ({
            let rid = h.rpc_request_id;
            let es = seq![header_event(h)] + spec_chunk_events(h, ps.take(j as int));
            let r = spec_route_all(rv, es);
            &&& r.0.handlers.contains(rid)
            &&& !is_prebuffering(r.0, rid)
            &&& r.0.flags == rv.flags
            &&& r.0.buffers == rv.buffers
            &&& r.1 == es.map_values(|e: SpecStreamEvent| to_handler(rid, e))
        }),
    decreases j,
{
    let rid = h.rpc_request_id;
    if j == 0 {
        assert(ps.take(0) =~= Seq::<Seq<u8>>::empty());
        let es = seq![header_event(h)];
        assert(seq![header_event(h)] + Seq::<SpecStreamEvent>::empty() =~= es);
        assert(es.drop_last() =~= Seq::<SpecStreamEvent>::empty());
        assert(spec_route_all(rv, Seq::<SpecStreamEvent>::empty()) == (rv, Seq::<SpecDelivery>::empty()));
        let step = spec_route(rv, header_event(h));
        assert(spec_register_routed(rv, header_event(h)).handlers =~= rv.handlers);
        assert(step.1 == seq![to_handler(rid, header_event(h))]);
        assert(Seq::<SpecDelivery>::empty() + step.1 =~= es.map_values(
            |e: SpecStreamEvent| to_handler(rid, e),
        ));
    } else {
        lemma_handler_prefix(rv, h, ps, (j - 1) as nat);
        let i = j - 1;
        let a = ps.take(i as int);
        assert(ps.take(j as int).drop_last() =~= a);
        assert(ps.take(j as int).last() == ps[i as int]);
        let pre = seq![header_event(h)] + spec_chunk_events(h, a);
        let prev = spec_route_all(rv, pre);
        if ps[i as int].len() == 0 {
            assert(spec_chunk_events(h, ps.take(j as int)) == spec_chunk_events(h, a));
        } else {
            let e = SpecStreamEvent::PayloadChunk {
                rpc_request_id: rid,
                rpc_method_id: h.rpc_method_id,
                bytes: ps[i as int],
                rpc_header: h,
            };
            let es = seq![header_event(h)] + spec_chunk_events(h, ps.take(j as int));
            assert(es =~= pre.push(e));
            assert(es.drop_last() =~= pre);
            assert(spec_route(prev.0, e).1 == seq![to_handler(rid, e)]);
            assert(prev.1 + seq![to_handler(rid, e)] =~= es.map_values(
                |x: SpecStreamEvent| to_handler(rid, x),
            ));
        }
    }
}

} // verus!
