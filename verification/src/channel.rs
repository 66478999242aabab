use vstd::prelude::*;

use crate::caller::{RpcCallerError, SpecCallerError, TransportErrorKind};
use crate::dispatcher::{
    RpcDispatcher, RpcRequest, SpecRpcRequest, body_data, body_kinds, body_payloads, call_header,
};
use crate::frame::{Frame, FrameEncodeError, FrameKind, frames_view};
use crate::rpc_header::{SpecRpcHeader, spec_header_bytes};
use crate::session::{end_event, header_event, spec_chunk_events};
use crate::service::DEFAULT_SERVICE_MAX_CHUNK_SIZE;
use crate::stream_decoder::{RpcStreamEvent, SpecStreamEvent};
use crate::stream_encoder::{
    EncoderView, RpcStreamEncoder, StreamState, data_kinds, flush_payloads, frames_are, seq_after,
    stamped,
};

verus! {

broadcast use vstd::seq_lib::group_seq_properties;

/// The request that opens a channel to `method_id`: no parameters, no
/// payload, not finished.
pub open spec fn channel_request(method_id: u64) -> SpecRpcRequest {
    SpecRpcRequest {
        rpc_method_id: method_id,
        rpc_param_bytes: None,
        rpc_prebuffered_payload_bytes: None,
        is_finalized: false,
    }
}

/// What the reading end of a channel gets from one event of the response
/// stream: while it is open, each payload chunk is passed on, and the end
/// or failure of the stream closes it; the header changes nothing.
pub open spec fn spec_channel_step(open: bool, e: SpecStreamEvent) -> (bool, Option<Option<Seq<u8>>>) {
    if !open {
        (false, None)
    } else {
        match e {
            SpecStreamEvent::PayloadChunk { bytes, .. } => (true, Some(Some(bytes))),
            SpecStreamEvent::End { .. } => (false, Some(None)),
            SpecStreamEvent::Error { .. } => (false, Some(None)),
            SpecStreamEvent::Header { .. } => (true, None),
        }
    }
}

/// The reading end of a channel: passes response chunks on until the
/// response stream ends or fails.
#[derive(Debug)]
pub struct ChannelReceiver {
    open: bool,
}

/// What the reading end of a channel does with one event.
#[derive(Debug)]
pub enum ChannelAction {
    /// Pass these bytes to the reader.
    Deliver(Vec<u8>),
    /// Close the reader.
    Close,
}

/// The view of an optional action: `Some(Some(b))` delivers `b`,
/// `Some(None)` closes.
pub open spec fn channel_action_view(a: Option<ChannelAction>) -> Option<Option<Seq<u8>>> {
    match a {
        Some(ChannelAction::Deliver(b)) => Some(Some(b@)),
        Some(ChannelAction::Close) => Some(None),
        None => None,
    }
}

impl ChannelReceiver {
    /// Whether the reader is still open.
    pub closed spec fn is_open(&self) -> bool {
        self.open
    }

    /// An open reading end.
    pub fn new() -> (r: ChannelReceiver)
        ensures
            r.is_open(),
    {
        ChannelReceiver { open: true }
    }

    /// Handles one event of the response stream (see `spec_channel_step`).
    pub fn on_event(&mut self, evt: RpcStreamEvent) -> (a: Option<ChannelAction>)
        ensures
            (final(self).is_open(), channel_action_view(a)) == spec_channel_step(old(self).is_open(), evt@),
    {
        if !self.open {
            return None;
        }
        match evt {
            RpcStreamEvent::PayloadChunk { bytes, .. } => Some(ChannelAction::Deliver(bytes)),
            RpcStreamEvent::End { .. } => {
                self.open = false;
                Some(ChannelAction::Close)
            },
            RpcStreamEvent::Error { .. } => {
                self.open = false;
                Some(ChannelAction::Close)
            },
            RpcStreamEvent::Header { .. } => None,
        }
    }
}

/// Opens a channel to `method_id`: refused with a transport error when the
/// client is not connected; otherwise a call with no arguments is sent (see
/// `RpcDispatcher::call`), with the default chunk size and a handler for
/// its response, not prebuffered, and flushed at once. Returns the request
/// id, the encoder through which the writer sends its chunks, the frames to
/// send, and the reading end.
pub fn open_channel(
    dispatcher: &mut RpcDispatcher,
    method_id: u64,
    is_connected: bool,
    request_counter: u32,
    timestamp: u64,
) -> (r: Result<
    (u32, RpcStreamEncoder, Vec<Frame>, ChannelReceiver),
    RpcCallerError,
>)
    requires
        old(dispatcher).wf(),
    ensures
        final(dispatcher).wf(),
        !is_connected ==> {
            &&& r matches Err(e) && e@ == SpecCallerError::Transport(
                TransportErrorKind::ConnectionAborted,
                "RPC call attempted on a disconnected client."@,
            )
            &&& final(dispatcher)@ == old(dispatcher)@
        },
        is_connected ==> {
            let rid = old(dispatcher)@.session.session.id_space.spec_place(request_counter);
            let sid = old(dispatcher)@.session.session.id_space.spec_place(
                old(dispatcher)@.session.session.next_id,
            );
            &&& final(dispatcher)@ == crate::dispatcher::after_call(old(dispatcher)@, rid, true, false)
            &&& r matches Ok((id, enc, frames, recv)) && {
                &&& id == rid
                &&& enc.wf()
                &&& enc@ == EncoderView {
                    stream_id: sid,
                    next_seq: 1,
                    chunk_size: DEFAULT_SERVICE_MAX_CHUNK_SIZE as nat,
                    pending: Seq::empty(),
                    state: StreamState::Open,
                }
                &&& frames_are(
                    frames_view(frames@),
                    sid,
                    0,
                    seq![FrameKind::Open],
                    seq![spec_header_bytes(call_header(rid, channel_request(method_id)))],
                )
                &&& stamped(frames_view(frames@), timestamp)
                &&& recv.is_open()
            }
        },
{
    if !is_connected {
        return Err(
            RpcCallerError::Transport(
                TransportErrorKind::ConnectionAborted,
                String::from_str("RPC call attempted on a disconnected client."),
            ),
        );
    }
    let request = RpcRequest {
        rpc_method_id: method_id,
        rpc_param_bytes: None,
        rpc_prebuffered_payload_bytes: None,
        is_finalized: false,
    };
    let ghost rid = dispatcher@.session.session.id_space.spec_place(request_counter);
    assert(call_header(rid, request@).rpc_metadata_bytes =~= Seq::<u8>::empty());
    match dispatcher.call(request, DEFAULT_SERVICE_MAX_CHUNK_SIZE, true, false, request_counter, timestamp) {
        Ok((id, mut enc, mut frames)) => {
            proof {
                assert(body_data(Seq::<u8>::empty(), DEFAULT_SERVICE_MAX_CHUNK_SIZE as nat, false)
                    =~= Seq::<Seq<u8>>::empty()) by {
                    reveal_with_fuel(crate::stream_encoder::spec_full_chunks, 2);
                }
                assert(body_kinds(0, false) =~= Seq::<FrameKind>::empty());
                assert(seq![FrameKind::Open] + Seq::<FrameKind>::empty() =~= seq![FrameKind::Open]);
                assert(seq![spec_header_bytes(call_header(rid, request@))] + Seq::<Seq<u8>>::empty()
                    =~= seq![spec_header_bytes(call_header(rid, request@))]);
                assert(seq_after(1, 0) == 1);
                assert(crate::stream_encoder::spec_chunk_rest(
                    Seq::<u8>::empty(),
                    DEFAULT_SERVICE_MAX_CHUNK_SIZE as nat,
                )
                    == Seq::<u8>::empty());
            }
            match enc.flush(timestamp) {
                Ok(mut more) => {
                    assert(crate::stream_encoder::flush_payloads(Seq::<u8>::empty()) =~= Seq::<Seq<u8>>::empty());
                    assert(frames_view(more@) =~= Seq::<crate::frame::SpecFrame>::empty());
                    let ghost fv = frames_view(frames@);
                    frames.append(&mut more);
                    assert(frames_view(frames@) =~= fv);
                },
                Err(_) => {},
            }
            Ok((id, enc, frames, ChannelReceiver::new()))
        },
        Err(e) => Err(
            RpcCallerError::Transport(TransportErrorKind::Other, crate::caller::encode_error_name(e)),
        ),
    }
}

/// Sends one chunk that the writer of a channel wrote: the chunk, flushed
/// at once. A stream that has ended or was cancelled refuses it.
pub fn write_channel_chunk(enc: &mut RpcStreamEncoder, chunk: &[u8], timestamp: u64) -> (r: Result<
    Vec<Frame>,
    FrameEncodeError,
>)
    requires
        old(enc).wf(),
        old(enc)@.pending == Seq::<u8>::empty(),
    ensures
        final(enc).wf(),
        old(enc)@.state != StreamState::Open ==> {
            &&& r == Err::<Vec<Frame>, FrameEncodeError>(
                RpcStreamEncoder::closed_error(old(enc)@.state),
            )
            &&& final(enc)@ == old(enc)@
        },
        old(enc)@.state == StreamState::Open ==> {
            let data = body_data(chunk@, old(enc)@.chunk_size, true);
            &&& r matches Ok(frames) && frames_are(
                frames_view(frames@),
                old(enc)@.stream_id,
                old(enc)@.next_seq,
                body_kinds(data.len(), false),
                body_payloads(data, false),
            ) && stamped(frames_view(frames@), timestamp)
            &&& final(enc)@ == EncoderView {
                next_seq: seq_after(old(enc)@.next_seq, data.len()),
                pending: Seq::empty(),
                ..old(enc)@
            }
        },
{
    if !enc.is_open() {
        return match enc.write_bytes(chunk, timestamp) {
            Ok(f) => Ok(f),
            Err(e) => Err(e),
        };
    }
    Ok(crate::dispatcher::send_body(enc, chunk, true, false, timestamp))
}

/// Closes the writing end of a channel, as dropping the writer does: a
/// stream still open ends (what is held back goes out, then the end); one
/// that has ended or was cancelled already is left as it is, and nothing is
/// sent.
pub fn close_channel_writer(enc: &mut RpcStreamEncoder, timestamp: u64) -> (frames: Vec<Frame>)
    requires
        old(enc).wf(),
    ensures
        final(enc).wf(),
        old(enc)@.state != StreamState::Open ==> {
            &&& frames@.len() == 0
            &&& final(enc)@ == old(enc)@
        },
        old(enc)@.state == StreamState::Open ==> {
            let p = flush_payloads(old(enc)@.pending);
            &&& frames_are(
                frames_view(frames@),
                old(enc)@.stream_id,
                old(enc)@.next_seq,
                data_kinds(p.len()).push(FrameKind::End),
                p.push(Seq::empty()),
            )
            &&& stamped(frames_view(frames@), timestamp)
            &&& final(enc)@ == (EncoderView {
                next_seq: seq_after(old(enc)@.next_seq, p.len() + 1),
                pending: Seq::empty(),
                state: StreamState::Ended,
                ..old(enc)@
            })
        },
{
    if !enc.is_open() {
        return Vec::new();
    }
    match enc.end_stream(timestamp) {
        Ok(frames) => frames,
        Err(_) => Vec::new(),
    }
}

/// What the reading end of a channel does over a run of events, from
/// state `open`: whether it is open afterwards, and its actions in order
/// (`Some(b)` passes `b` to the reader, `None` closes the reader).
pub open spec fn spec_channel_run(open: bool, es: Seq<SpecStreamEvent>) -> (bool, Seq<Option<Seq<u8>>>)
    decreases es.len(),
{
    if es.len() == 0 {
        (open, Seq::empty())
    } else {
        let prev = spec_channel_run(open, es.drop_last());
        let step = spec_channel_step(prev.0, es.last());
        (
            step.0,
            match step.1 {
                Some(a) => prev.1.push(a),
                None => prev.1,
            },
        )
    }
}

/// The non-empty payloads of `ps`, in order, each as a delivery.
pub open spec fn spec_nonempty_deliveries(ps: Seq<Seq<u8>>) -> Seq<Option<Seq<u8>>>
    decreases ps.len(),
{
    if ps.len() == 0 {
        Seq::empty()
    } else if ps.last().len() == 0 {
        spec_nonempty_deliveries(ps.drop_last())
    } else {
        spec_nonempty_deliveries(ps.drop_last()).push(Some(ps.last()))
    }
}

/// The end or the failure of the response stream closes an open reading
/// end, whatever the event carries; and a closed reading end does nothing
/// more.
pub proof fn lemma_channel_closes_on_terminal(e: SpecStreamEvent)
    ensures
        e.is_terminal() ==> spec_channel_step(true, e) == (false, Some(None::<Seq<u8>>)),
        spec_channel_step(false, e) == (false, None::<Option<Seq<u8>>>),
{
}

/// The reading end of a channel reads a whole response: over the response
/// stream with header `h` and data payloads `ps` (its header, one chunk per
/// non-empty payload, its end), an open reader passes on every non-empty
/// payload in order, then closes exactly once, and is closed afterwards.
pub proof fn lemma_channel_reads_whole_response(h: SpecRpcHeader, ps: Seq<Seq<u8>>)
    ensures
        spec_channel_run(true, seq![header_event(h)] + spec_chunk_events(h, ps) + seq![end_event(h)])
            == (false, spec_nonempty_deliveries(ps).push(None)),
{
    lemma_channel_prefix(h, ps, ps.len());
    assert(ps.take(ps.len() as int) =~= ps);
    let pre = seq![header_event(h)] + spec_chunk_events(h, ps);
    let es = pre + seq![end_event(h)];
    assert(es.drop_last() =~= pre);
    assert(es.last() == end_event(h));
}

proof fn lemma_channel_prefix(h: SpecRpcHeader, ps: Seq<Seq<u8>>, j: nat)
    requires
        j <= ps.len(),
    ensures
        spec_channel_run(true, seq![header_event(h)] + spec_chunk_events(h, ps.take(j as int)))
            == (true, spec_nonempty_deliveries(ps.take(j as int))),
    decreases j,
{
    if j == 0 {
        assert(ps.take(0) =~= Seq::<Seq<u8>>::empty());
        let es = seq![header_event(h)];
        assert(seq![header_event(h)] + Seq::<SpecStreamEvent>::empty() =~= es);
        assert(es.drop_last() =~= Seq::<SpecStreamEvent>::empty());
        assert(spec_channel_run(true, Seq::<SpecStreamEvent>::empty()) == (true, Seq::<Option<Seq<u8>>>::empty()));
        assert(es.last() == header_event(h));
        assert(spec_channel_run(true, es) == (true, Seq::<Option<Seq<u8>>>::empty()));
        assert(spec_nonempty_deliveries(Seq::<Seq<u8>>::empty()) == Seq::<Option<Seq<u8>>>::empty());
    } else {
        lemma_channel_prefix(h, ps, (j - 1) as nat);
        let i = j - 1;
        let a = ps.take(i as int);
        assert(ps.take(j as int).drop_last() =~= a);
        assert(ps.take(j as int).last() == ps[i as int]);
        let pre = seq![header_event(h)] + spec_chunk_events(h, a);
        if ps[i as int].len() == 0 {
            assert(spec_chunk_events(h, ps.take(j as int)) == spec_chunk_events(h, a));
            assert(spec_nonempty_deliveries(ps.take(j as int)) == spec_nonempty_deliveries(a));
        } else {
            let e = SpecStreamEvent::PayloadChunk {
                rpc_request_id: h.rpc_request_id,
                rpc_method_id: h.rpc_method_id,
                bytes: ps[i as int],
                rpc_header: h,
            };
            let es = seq![header_event(h)] + spec_chunk_events(h, ps.take(j as int));
            assert(spec_chunk_events(h, ps.take(j as int)) == spec_chunk_events(h, a).push(e));
            assert(es =~= pre.push(e));
            assert(es.drop_last() =~= pre);
            assert(es.last() == e);
            assert(spec_nonempty_deliveries(ps.take(j as int)) == spec_nonempty_deliveries(a).push(
                Some(ps[i as int]),
            ));
        }
    }
}

} // verus!
