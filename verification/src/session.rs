use std::collections::HashMap;
use vstd::prelude::*;

use crate::frame::{
    Frame, FrameDecodeError, FrameDecoder, FrameEncodeError, SpecFrame, frames_view, spec_parse_frames,
};
use crate::ids::IdSpace;
use crate::rpc_header::{
    RpcHeader, SpecHeaderScan, SpecRpcHeader, header_fits, spec_header_bytes, spec_scan_header,
};
use crate::stream_decoder::{
    InboundStream, RpcStreamEvent, SpecInbound, SpecStreamEvent, events_view, opt_inbound_view,
    spec_stream_step, stream_step,
};
use crate::stream_encoder::{
    EncoderView, RpcStreamEncoder, StreamState, chunk_size_ok, frames_are, next_seq, seq_inc, stamped,
};
use crate::frame::FrameKind;

verus! {

broadcast use {vstd::seq_lib::group_seq_properties, vstd::std_specs::hash::group_hash_axioms};

/// The views of a map of stream states.
pub open spec fn streams_view(m: Map<u32, InboundStream>) -> Map<u32, SpecInbound> {
    m.map_values(|s: InboundStream| s@)
}

/// The state of stream `sid` in a map, `None` when it has none.
pub open spec fn stream_state(m: Map<u32, SpecInbound>, sid: u32) -> Option<SpecInbound> {
    if m.contains_key(sid) {
        Some(m[sid])
    } else {
        None
    }
}

/// The map with the state of stream `sid` replaced (`None`: removed).
pub open spec fn set_stream_state(
    m: Map<u32, SpecInbound>,
    sid: u32,
    st: Option<SpecInbound>,
) -> Map<u32, SpecInbound> {
    match st {
        Some(s) => m.insert(sid, s),
        None => m.remove(sid),
    }
}

/// Frames applied in order to the states of their streams: the states
/// afterwards, and each event emitted, tagged with the stream id of the
/// frame that emitted it.
pub open spec fn spec_session_trace(m: Map<u32, SpecInbound>, fs: Seq<SpecFrame>) -> (
    Map<u32, SpecInbound>,
    Seq<(u32, SpecStreamEvent)>,
)
    decreases fs.len(),
{
    if fs.len() == 0 {
        (m, Seq::empty())
    } else {
        let prev = spec_session_trace(m, fs.drop_last());
        let f = fs.last();
        let step = spec_stream_step(stream_state(prev.0, f.stream_id), f);
        (
            set_stream_state(prev.0, f.stream_id, step.0),
            prev.1 + step.1.map_values(|e: SpecStreamEvent| (f.stream_id, e)),
        )
    }
}

/// The events of a trace, without their tags.
pub open spec fn untag(t: Seq<(u32, SpecStreamEvent)>) -> Seq<SpecStreamEvent> {
    t.map_values(|p: (u32, SpecStreamEvent)| p.1)
}

/// Frames of a single stream applied in order to its state.
pub open spec fn spec_stream_run(st: Option<SpecInbound>, fs: Seq<SpecFrame>) -> (
    Option<SpecInbound>,
    Seq<SpecStreamEvent>,
)
    decreases fs.len(),
{
    if fs.len() == 0 {
        (st, Seq::empty())
    } else {
        let prev = spec_stream_run(st, fs.drop_last());
        let step = spec_stream_step(prev.0, fs.last());
        (step.0, prev.1 + step.1)
    }
}

/// What a session holds, as a mathematical value.
pub struct SessionView {
    pub id_space: IdSpace,
    /// The raw id that the next outgoing stream gets, before placement.
    pub next_id: u32,
    /// Received bytes not yet making a whole frame.
    pub pending: Seq<u8>,
    /// The state of every incoming stream that has one.
    pub streams: Map<u32, SpecInbound>,
}

/// The multiplexing layer of a connection: opens outgoing streams with ids
/// of its own half of the id space, and reassembles the incoming streams.
#[derive(Debug)]
pub struct RpcSession {
    id_space: IdSpace,
    next_id: u32,
    decoder: FrameDecoder,
    streams: HashMap<u32, InboundStream>,
}

impl View for RpcSession {
    type V = SessionView;

    closed spec fn view(&self) -> SessionView {
        SessionView {
            id_space: self.id_space,
            next_id: self.next_id,
            pending: self.decoder.pending(),
            streams: streams_view(self.streams@),
        }
    }
}

impl RpcSession {
    /// A session with no streams, allocating ids in `id_space`.
    pub fn new(id_space: IdSpace) -> (s: RpcSession)
        ensures
            s@ == (SessionView {
                id_space,
                next_id: 1,
                pending: Seq::empty(),
                streams: Map::empty(),
            }),
    {
        let s = RpcSession {
            id_space,
            next_id: 1,
            decoder: FrameDecoder::new(),
            streams: HashMap::new(),
        };
        assert(streams_view(s.streams@) =~= Map::<u32, SpecInbound>::empty());
        s
    }

    /// The half of the id space this session allocates ids in.
    pub fn id_space(&self) -> (s: IdSpace)
        ensures
            s == self@.id_space,
    {
        self.id_space
    }

    /// Allocates the id of a new outgoing stream: the next raw id, placed
    /// into the session's half of the id space.
    pub fn allocate_id(&mut self) -> (id: u32)
        ensures
            id == old(self)@.id_space.spec_place(old(self)@.next_id),
            final(self)@ == (SessionView { next_id: seq_inc(old(self)@.next_id), ..old(self)@ }),
    {
        let id = self.id_space.place(self.next_id);
        self.next_id = next_seq(self.next_id);
        id
    }

    /// Opens an outgoing stream that starts with `header`, on a newly
    /// allocated stream id; returns its encoder and the opening frame. The
    /// id is used up even when the stream is refused (see
    /// `RpcStreamEncoder::new`).
    pub fn init_request(&mut self, header: &RpcHeader, max_chunk_size: usize, timestamp: u64) -> (r: Result<
        (RpcStreamEncoder, Vec<Frame>),
        FrameEncodeError,
    >)
        ensures
            final(self)@ == (SessionView { next_id: seq_inc(old(self)@.next_id), ..old(self)@ }),
            r is Ok <==> header_fits(header@) && chunk_size_ok(max_chunk_size),
            r matches Err(e) ==> e == FrameEncodeError::CorruptFrame,
            r matches Ok((enc, frames)) ==> {
                let sid = old(self)@.id_space.spec_place(old(self)@.next_id);
                &&& enc.wf()
                &&& enc@ == EncoderView {
                    stream_id: sid,
                    next_seq: 1,
                    chunk_size: max_chunk_size as nat,
                    pending: Seq::empty(),
                    state: StreamState::Open,
                }
                &&& frames_are(
                    frames_view(frames@),
                    sid,
                    0,
                    seq![FrameKind::Open],
                    seq![spec_header_bytes(header@)],
                )
            
                &&& stamped(frames_view(frames@), timestamp)
            },
    {
        let sid = self.allocate_id();
        RpcStreamEncoder::new(sid, max_chunk_size, header, timestamp)
    }

    /// Takes in received bytes and returns, in order, the events of every
    /// incoming stream that the frames they complete produce. A corrupt
    /// frame refuses the whole read with `CorruptFrame`, drops the pending
    /// bytes and leaves the streams as they were.
    pub fn read_bytes(&mut self, bytes: &[u8]) -> (r: Result<Vec<RpcStreamEvent>, FrameDecodeError>)
        ensures
            final(self)@.id_space == old(self)@.id_space,
            final(self)@.next_id == old(self)@.next_id,
            match spec_parse_frames(old(self)@.pending + bytes@) {
                Some((fs, rest)) => {
                    let t = spec_session_trace(old(self)@.streams, fs);
                    &&& r matches Ok(events) && events_view(events@) == untag(t.1)
                    &&& final(self)@.pending == rest
                    &&& final(self)@.streams == t.0
                },
                None => {
                    &&& r == Err::<Vec<RpcStreamEvent>, FrameDecodeError>(
                        FrameDecodeError::CorruptFrame,
                    )
                    &&& final(self)@.pending == Seq::<u8>::empty()
                    &&& final(self)@.streams == old(self)@.streams
                },
            },
    {
        let frames = match self.decoder.read_bytes(bytes) {
            Ok(frames) => frames,
            Err(e) => {
                return Err(e);
            },
        };
        let ghost fs = frames_view(frames@);
        let ghost m0 = streams_view(self.streams@);
        let ghost pend = self.decoder.pending();
        let mut events: Vec<RpcStreamEvent> = Vec::new();
        let n = frames.len();
        let mut frames = frames;
        let mut rev: Vec<Frame> = Vec::new();
        // Frames are taken from the back of a reversed copy, to move each
        // one out in arrival order.
        while frames.len() > 0
            invariant
                frames.len() + rev.len() == n,
                n == fs.len(),
                forall|j: int| 0 <= j < rev.len() ==> (#[trigger] rev@[j])@ == fs[n - 1 - j],
                forall|j: int| 0 <= j < frames.len() ==> (#[trigger] frames@[j])@ == fs[j],
            decreases frames.len(),
        {
            let f = frames.pop().unwrap();
            rev.push(f);
        }
        let mut i: usize = 0;
        while rev.len() > 0
            invariant
                i + rev.len() == n,
                n == fs.len(),
                forall|j: int| 0 <= j < rev.len() ==> (#[trigger] rev@[j])@ == fs[n - 1 - j],
                streams_view(self.streams@) == spec_session_trace(m0, fs.take(i as int)).0,
                events_view(events@) == untag(spec_session_trace(m0, fs.take(i as int)).1),
                self.id_space == old(self).id_space,
                self.next_id == old(self).next_id,
                self.decoder.pending() == pend,
            decreases rev.len(),
        {
            let f = rev.pop().unwrap();
            assert(f@ == fs[i as int]);
            let ghost prev = spec_session_trace(m0, fs.take(i as int));
            assert(fs.take(i + 1).drop_last() =~= fs.take(i as int));
            assert(fs.take(i + 1).last() == f@);
            let sid = f.stream_id;
            let st = self.streams.remove(&sid);
            assert(opt_inbound_view(st) == stream_state(prev.0, sid));
            let ghost removed = self.streams@;
            assert(streams_view(removed) =~= prev.0.remove(sid));
            let ghost fv = f@;
            let (next, mut evs) = stream_step(st, f);
            let ghost step = spec_stream_step(stream_state(prev.0, sid), fv);
            match next {
                Some(s) => {
                    self.streams.insert(sid, s);
                    assert(streams_view(self.streams@) =~= prev.0.insert(sid, step.0.unwrap()));
                },
                None => {
                    assert(streams_view(self.streams@) =~= prev.0.remove(sid));
                },
            }
            let ghost before = events_view(events@);
            events.append(&mut evs);
            assert(events_view(events@) =~= before + step.1);
            assert(untag(prev.1 + step.1.map_values(|e: SpecStreamEvent| (sid, e))) =~= untag(
                prev.1,
            ) + step.1);
            i = i + 1;
        }
        assert(fs.take(n as int) =~= fs);
        Ok(events)
    }
}


/// The events of stream `sid` in a trace, in order.
pub open spec fn events_of_stream(t: Seq<(u32, SpecStreamEvent)>, sid: u32) -> Seq<SpecStreamEvent> {
    untag(t.filter(tagged_with(sid)))
}

/// Whether a tagged event carries tag `sid`.
pub open spec fn tagged_with(sid: u32) -> spec_fn((u32, SpecStreamEvent)) -> bool {
    |p: (u32, SpecStreamEvent)| p.0 == sid
}

/// Whether a frame belongs to stream `sid`.
pub open spec fn in_stream(sid: u32) -> spec_fn(SpecFrame) -> bool {
    |f: SpecFrame| f.stream_id == sid
}

/// The frames of stream `sid`, in order.
pub open spec fn frames_of_stream(fs: Seq<SpecFrame>, sid: u32) -> Seq<SpecFrame> {
    fs.filter(in_stream(sid))
}

pub(crate) proof fn lemma_filter_all<A>(s: Seq<A>, pred: spec_fn(A) -> bool)
    requires
        forall|i: int| 0 <= i < s.len() ==> pred(#[trigger] s[i]),
    ensures
        s.filter(pred) == s,
    decreases s.len(),
{
    reveal(Seq::filter);
    if s.len() > 0 {
        lemma_filter_all(s.drop_last(), pred);
        assert(s.drop_last().push(s.last()) =~= s);
    }
}

proof fn lemma_filter_none<A>(s: Seq<A>, pred: spec_fn(A) -> bool)
    requires
        forall|i: int| 0 <= i < s.len() ==> !pred(#[trigger] s[i]),
    ensures
        s.filter(pred) == Seq::<A>::empty(),
    decreases s.len(),
{
    reveal(Seq::filter);
    if s.len() > 0 {
        lemma_filter_none(s.drop_last(), pred);
    }
}

/// Streams are reassembled independently of each other: whatever frames
/// of other streams are interleaved with them, the frames of stream `sid`
/// leave it in the state, and make it emit the events, that they would if
/// they had arrived alone.
pub proof fn lemma_streams_independent(m: Map<u32, SpecInbound>, fs: Seq<SpecFrame>, sid: u32)
    ensures
        stream_state(spec_session_trace(m, fs).0, sid) == spec_stream_run(
            stream_state(m, sid),
            frames_of_stream(fs, sid),
        ).0,
        events_of_stream(spec_session_trace(m, fs).1, sid) == spec_stream_run(
            stream_state(m, sid),
            frames_of_stream(fs, sid),
        ).1,
    decreases fs.len(),
{
    reveal(Seq::filter);
    let tpred = tagged_with(sid);
    if fs.len() == 0 {
        assert(frames_of_stream(fs, sid) =~= Seq::<SpecFrame>::empty());
        assert(events_of_stream(Seq::<(u32, SpecStreamEvent)>::empty(), sid) =~= Seq::<
            SpecStreamEvent,
        >::empty());
    } else {
        lemma_streams_independent(m, fs.drop_last(), sid);
        let prev = spec_session_trace(m, fs.drop_last());
        let f = fs.last();
        let step = spec_stream_step(stream_state(prev.0, f.stream_id), f);
        let tagged = step.1.map_values(|e: SpecStreamEvent| (f.stream_id, e));
        Seq::filter_distributes_over_add(prev.1, tagged, tpred);
        assert(spec_session_trace(m, fs).1 == prev.1 + tagged);
        let pf = frames_of_stream(fs.drop_last(), sid);
        let s0 = stream_state(m, sid);
        if f.stream_id == sid {
            lemma_filter_all(tagged, tpred);
            assert(frames_of_stream(fs, sid) == pf.push(f));
            assert(pf.push(f).drop_last() =~= pf);
            assert(pf.push(f).last() == f);
            let r0 = spec_stream_run(s0, pf);
            assert(r0.0 == stream_state(prev.0, sid));
            assert(spec_stream_run(s0, pf.push(f)) == (step.0, r0.1 + step.1));
            assert(untag(tagged) =~= step.1);
            assert(untag(prev.1.filter(tpred) + tagged) =~= untag(prev.1.filter(tpred)) + untag(
                tagged,
            ));
        } else {
            lemma_filter_none(tagged, tpred);
            assert(frames_of_stream(fs, sid) == pf);
            assert(prev.1.filter(tpred) + Seq::<(u32, SpecStreamEvent)>::empty() =~= prev.1.filter(
                tpred,
            ));
        }
    }
}

/// The events of the payload chunks of a stream with header `h` whose data
/// frames carry `ps`: one per non-empty payload, in order.
pub open spec fn spec_chunk_events(h: SpecRpcHeader, ps: Seq<Seq<u8>>) -> Seq<SpecStreamEvent>
    decreases ps.len(),
{
    if ps.len() == 0 {
        Seq::empty()
    } else if ps.last().len() == 0 {
        spec_chunk_events(h, ps.drop_last())
    } else {
        spec_chunk_events(h, ps.drop_last()).push(
            SpecStreamEvent::PayloadChunk {
                rpc_request_id: h.rpc_request_id,
                rpc_method_id: h.rpc_method_id,
                bytes: ps.last(),
                rpc_header: h,
            },
        )
    }
}

/// The bytes that the payload chunk events of a sequence carry, joined.
pub open spec fn spec_events_payload(es: Seq<SpecStreamEvent>) -> Seq<u8>
    decreases es.len(),
{
    if es.len() == 0 {
        Seq::empty()
    } else {
        spec_events_payload(es.drop_last()) + match es.last() {
            SpecStreamEvent::PayloadChunk { bytes, .. } => bytes,
            _ => Seq::empty(),
        }
    }
}

/// The event that a complete header produces.
pub open spec fn header_event(h: SpecRpcHeader) -> SpecStreamEvent {
    SpecStreamEvent::Header { rpc_request_id: h.rpc_request_id, rpc_method_id: h.rpc_method_id, rpc_header: h }
}

/// The event that the end of a stream with header `h` produces.
pub open spec fn end_event(h: SpecRpcHeader) -> SpecStreamEvent {
    SpecStreamEvent::End { rpc_request_id: h.rpc_request_id, rpc_method_id: h.rpc_method_id, rpc_header: h }
}

proof fn lemma_events_payload_append(a: Seq<SpecStreamEvent>, b: Seq<SpecStreamEvent>)
    ensures
        spec_events_payload(a + b) == spec_events_payload(a) + spec_events_payload(b),
    decreases b.len(),
{
    if b.len() == 0 {
        assert(a + b =~= a);
    } else {
        lemma_events_payload_append(a, b.drop_last());
        assert((a + b).drop_last() =~= a + b.drop_last());
        assert((a + b).last() == b.last());
    }
}

proof fn lemma_chunk_events_payload(h: SpecRpcHeader, ps: Seq<Seq<u8>>)
    ensures
        spec_events_payload(spec_chunk_events(h, ps)) == ps.flatten(),
    decreases ps.len(),
{
    broadcast use Seq::lemma_flatten_push;

    if ps.len() == 0 {
    } else {
        lemma_chunk_events_payload(h, ps.drop_last());
        assert(ps.drop_last().push(ps.last()) =~= ps);
        if ps.last().len() == 0 {
            assert(ps.drop_last().flatten() + ps.last() =~= ps.drop_last().flatten());
        } else {
            let es = spec_chunk_events(h, ps.drop_last());
            let e = SpecStreamEvent::PayloadChunk {
                rpc_request_id: h.rpc_request_id,
                rpc_method_id: h.rpc_method_id,
                bytes: ps.last(),
                rpc_header: h,
            };
            assert(es.push(e).drop_last() =~= es);
        }
    }
}

/// The frames of one stream as an encoder sends them: an `Open` frame with
/// the bytes of header `h`, data frames with payloads `ps`, an `End` frame.
pub open spec fn is_whole_stream(fs: Seq<SpecFrame>, h: SpecRpcHeader, ps: Seq<Seq<u8>>) -> bool {
    &&& fs.len() == ps.len() + 2
    &&& fs[0].kind == FrameKind::Open
    &&& fs[0].payload == spec_header_bytes(h)
    &&& forall|i: int|
        0 <= i < ps.len() ==> (#[trigger] fs[i + 1]).kind == FrameKind::Data && fs[i + 1].payload
            == ps[i]
    &&& fs.last().kind == FrameKind::End
}

/// What the reader of a stream gets is what its writer sent: a whole
/// stream, read by a session that has no state for it, produces its header,
/// one chunk event per non-empty data payload, and its end, and leaves no
/// state behind; the chunks carry exactly the bytes that were written.
pub proof fn lemma_stream_roundtrip(fs: Seq<SpecFrame>, h: SpecRpcHeader, ps: Seq<Seq<u8>>)
    requires
        header_fits(h),
        is_whole_stream(fs, h, ps),
    ensures
        spec_stream_run(None, fs) == (
            None::<SpecInbound>,
            seq![header_event(h)] + spec_chunk_events(h, ps) + seq![end_event(h)],
        ),
        spec_events_payload(spec_stream_run(None, fs).1) == ps.flatten(),
{
    lemma_stream_roundtrip_prefix(fs, h, ps, ps.len());
    let body = fs.drop_last();
    assert(fs.take(ps.len() + 1 as int) =~= body);
    let evs = seq![header_event(h)] + spec_chunk_events(h, ps.take(ps.len() as int));
    assert(ps.take(ps.len() as int) =~= ps);
    lemma_events_payload_append(evs, seq![end_event(h)]);
    lemma_events_payload_append(seq![header_event(h)], spec_chunk_events(h, ps));
    lemma_chunk_events_payload(h, ps);
    assert(spec_events_payload(seq![header_event(h)]) =~= Seq::<u8>::empty()) by {
        assert(seq![header_event(h)].drop_last() =~= Seq::<SpecStreamEvent>::empty());
    }
    assert(spec_events_payload(seq![end_event(h)]) =~= Seq::<u8>::empty()) by {
        assert(seq![end_event(h)].drop_last() =~= Seq::<SpecStreamEvent>::empty());
    }
}

proof fn lemma_stream_roundtrip_prefix(fs: Seq<SpecFrame>, h: SpecRpcHeader, ps: Seq<Seq<u8>>, j: nat)
    requires
        header_fits(h),
        is_whole_stream(fs, h, ps),
        j <= ps.len(),
    ensures
        spec_stream_run(None, fs.take(j + 1 as int)) == (
            Some(SpecInbound::Streaming(h)),
            seq![header_event(h)] + spec_chunk_events(h, ps.take(j as int)),
        ),
    decreases j,
{
    if j == 0 {
        crate::rpc_header::lemma_header_roundtrip(h, Seq::empty());
        assert(spec_header_bytes(h) + Seq::<u8>::empty() =~= spec_header_bytes(h));
        assert(fs.take(1).drop_last() =~= Seq::<SpecFrame>::empty());
        assert(fs.take(1).last() == fs[0]);
        assert(spec_stream_run(None, Seq::<SpecFrame>::empty()) == (
            None::<SpecInbound>,
            Seq::<SpecStreamEvent>::empty(),
        ));
        assert(spec_scan_header(fs[0].payload) == SpecHeaderScan::Complete(h, fs[0].payload.len() as int));
        assert(spec_stream_step(None, fs[0]) == (
            Some(SpecInbound::Streaming(h)),
            seq![header_event(h)],
        ));
        assert(ps.take(0) =~= Seq::<Seq<u8>>::empty());
        assert(seq![header_event(h)] + Seq::<SpecStreamEvent>::empty() =~= seq![header_event(h)]);
        assert(Seq::<SpecStreamEvent>::empty() + seq![header_event(h)] =~= seq![header_event(h)]);
    } else {
        lemma_stream_roundtrip_prefix(fs, h, ps, (j - 1) as nat);
        assert(fs.take(j + 1 as int).drop_last() =~= fs.take(j as int));
        assert(fs.take(j + 1 as int).last() == fs[j as int]);
        let i = j - 1;
        assert(fs[i + 1].kind == FrameKind::Data && fs[i + 1].payload == ps[i]);
        assert(ps.take(j as int).drop_last() =~= ps.take(i as int));
        assert(ps.take(j as int).last() == ps[i]);
        let a = seq![header_event(h)];
        let b = spec_chunk_events(h, ps.take(i as int));
        if ps[i].len() == 0 {
            assert(a + b + Seq::<SpecStreamEvent>::empty() =~= a + b);
        } else {
            let e = SpecStreamEvent::PayloadChunk {
                rpc_request_id: h.rpc_request_id,
                rpc_method_id: h.rpc_method_id,
                bytes: ps[i],
                rpc_header: h,
            };
            assert(a + b + seq![e] =~= a + b.push(e));
        }
    }
}


proof fn lemma_single_stream_trace(m: Map<u32, SpecInbound>, fs: Seq<SpecFrame>, sid: u32)
    requires
        forall|i: int| 0 <= i < fs.len() ==> (#[trigger] fs[i]).stream_id == sid,
    ensures
        untag(spec_session_trace(m, fs).1) == spec_stream_run(stream_state(m, sid), fs).1,
        spec_session_trace(m, fs).0 == set_stream_state(
            m,
            sid,
            spec_stream_run(stream_state(m, sid), fs).0,
        ),
    decreases fs.len(),
{
    if fs.len() == 0 {
        assert(untag(Seq::<(u32, SpecStreamEvent)>::empty()) =~= Seq::<SpecStreamEvent>::empty());
        match stream_state(m, sid) {
            Some(st) => {
                assert(m.insert(sid, st) =~= m);
            },
            None => {
                assert(m.remove(sid) =~= m);
            },
        }
    } else {
        let init = fs.drop_last();
        assert forall|i: int| 0 <= i < init.len() implies (#[trigger] init[i]).stream_id == sid by {
            assert(init[i] == fs[i]);
        }
        lemma_single_stream_trace(m, init, sid);
        let prev = spec_session_trace(m, init);
        let r = spec_stream_run(stream_state(m, sid), init);
        let f = fs.last();
        assert(f.stream_id == sid);
        assert(stream_state(prev.0, sid) == r.0);
        let step = spec_stream_step(r.0, f);
        let tagged = step.1.map_values(|e: SpecStreamEvent| (f.stream_id, e));
        assert(untag(prev.1 + tagged) =~= untag(prev.1) + step.1);
        match step.0 {
            Some(st) => {
                assert(set_stream_state(prev.0, sid, step.0) =~= set_stream_state(m, sid, step.0));
            },
            None => {
                assert(set_stream_state(prev.0, sid, step.0) =~= set_stream_state(m, sid, step.0));
            },
        }
    }
}

/// What a reader gets of a writer's bytes: the bytes of a whole stream
/// (see `is_whole_stream`), read by a session that has no state for it and
/// no bytes pending, give back exactly its frames, then its header, one
/// chunk event per non-empty data payload and its end, with every payload
/// byte in order; and the session is left as it was.
pub proof fn lemma_wire_roundtrip(
    m: Map<u32, SpecInbound>,
    fs: Seq<SpecFrame>,
    sid: u32,
    h: SpecRpcHeader,
    ps: Seq<Seq<u8>>,
)
    requires
        header_fits(h),
        is_whole_stream(fs, h, ps),
        forall|i: int| 0 <= i < fs.len() ==> (#[trigger] fs[i]).stream_id == sid,
        forall|i: int| 0 <= i < fs.len() ==> crate::frame::frame_fits(#[trigger] fs[i]),
        !m.contains_key(sid),
    ensures
        spec_parse_frames(Seq::<u8>::empty() + crate::frame::spec_frames_bytes(fs)) == Some(
            (fs, Seq::<u8>::empty()),
        ),
        untag(spec_session_trace(m, fs).1) == seq![header_event(h)] + spec_chunk_events(h, ps)
            + seq![end_event(h)],
        spec_events_payload(untag(spec_session_trace(m, fs).1)) == ps.flatten(),
        spec_session_trace(m, fs).0 == m,
{
    crate::frame::lemma_frames_roundtrip(fs);
    assert(Seq::<u8>::empty() + crate::frame::spec_frames_bytes(fs) =~= crate::frame::spec_frames_bytes(
        fs,
    ));
    lemma_single_stream_trace(m, fs, sid);
    lemma_stream_roundtrip(fs, h, ps);
    assert(m.remove(sid) =~= m);
}

} // verus!
