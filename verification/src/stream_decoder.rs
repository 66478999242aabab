use vstd::prelude::*;
use vstd::slice::{slice_subrange, slice_to_vec};

use crate::frame::{Frame, FrameDecodeError, FrameKind, SpecFrame};
use crate::rpc_header::{
    scan_header, spec_scan_header, HeaderScan, RpcHeader, SpecHeaderScan,
    SpecRpcHeader,
};

verus! {

broadcast use vstd::seq_lib::group_seq_properties;

/// An event of an incoming RPC stream, as a mathematical value.
pub enum SpecStreamEvent {
    Header { rpc_request_id: u32, rpc_method_id: u64, rpc_header: SpecRpcHeader },
    PayloadChunk {
        rpc_request_id: u32,
        rpc_method_id: u64,
        bytes: Seq<u8>,
        rpc_header: SpecRpcHeader,
    },
    End { rpc_request_id: u32, rpc_method_id: u64, rpc_header: SpecRpcHeader },
    Error {
        rpc_header: Option<SpecRpcHeader>,
        rpc_request_id: Option<u32>,
        rpc_method_id: Option<u64>,
        frame_decode_error: FrameDecodeError,
    },
}

/// An event of an incoming RPC stream: its header arrived, a chunk of its
/// payload arrived, it ended, or it failed.
#[derive(Debug)]
pub enum RpcStreamEvent {
    Header { rpc_request_id: u32, rpc_method_id: u64, rpc_header: RpcHeader },
    PayloadChunk {
        rpc_request_id: u32,
        rpc_method_id: u64,
        bytes: Vec<u8>,
        rpc_header: RpcHeader,
    },
    End { rpc_request_id: u32, rpc_method_id: u64, rpc_header: RpcHeader },
    Error {
        rpc_header: Option<RpcHeader>,
        rpc_request_id: Option<u32>,
        rpc_method_id: Option<u64>,
        frame_decode_error: FrameDecodeError,
    },
}

/// The view of an optional header.
pub open spec fn opt_header_view(h: Option<RpcHeader>) -> Option<SpecRpcHeader> {
    match h {
        Some(h) => Some(h@),
        None => None,
    }
}

impl View for RpcStreamEvent {
    type V = SpecStreamEvent;

    open spec fn view(&self) -> SpecStreamEvent {
        match self {
            RpcStreamEvent::Header { rpc_request_id, rpc_method_id, rpc_header } => {
                SpecStreamEvent::Header {
                    rpc_request_id: *rpc_request_id,
                    rpc_method_id: *rpc_method_id,
                    rpc_header: rpc_header@,
                }
            },
            RpcStreamEvent::PayloadChunk { rpc_request_id, rpc_method_id, bytes, rpc_header } => {
                SpecStreamEvent::PayloadChunk {
                    rpc_request_id: *rpc_request_id,
                    rpc_method_id: *rpc_method_id,
                    bytes: bytes@,
                    rpc_header: rpc_header@,
                }
            },
            RpcStreamEvent::End { rpc_request_id, rpc_method_id, rpc_header } => {
                SpecStreamEvent::End {
                    rpc_request_id: *rpc_request_id,
                    rpc_method_id: *rpc_method_id,
                    rpc_header: rpc_header@,
                }
            },
            RpcStreamEvent::Error {
                rpc_header,
                rpc_request_id,
                rpc_method_id,
                frame_decode_error,
            } => SpecStreamEvent::Error {
                rpc_header: opt_header_view(*rpc_header),
                rpc_request_id: *rpc_request_id,
                rpc_method_id: *rpc_method_id,
                frame_decode_error: *frame_decode_error,
            },
        }
    }
}

impl SpecStreamEvent {
    /// The request id an event belongs to, when it has one.
    pub open spec fn request_id(self) -> Option<u32> {
        match self {
            SpecStreamEvent::Header { rpc_request_id, .. } => Some(rpc_request_id),
            SpecStreamEvent::PayloadChunk { rpc_request_id, .. } => Some(rpc_request_id),
            SpecStreamEvent::End { rpc_request_id, .. } => Some(rpc_request_id),
            SpecStreamEvent::Error { rpc_request_id, .. } => rpc_request_id,
        }
    }

    /// The method id an event belongs to, when it has one.
    pub open spec fn method_id(self) -> Option<u64> {
        match self {
            SpecStreamEvent::Header { rpc_method_id, .. } => Some(rpc_method_id),
            SpecStreamEvent::PayloadChunk { rpc_method_id, .. } => Some(rpc_method_id),
            SpecStreamEvent::End { rpc_method_id, .. } => Some(rpc_method_id),
            SpecStreamEvent::Error { rpc_method_id, .. } => rpc_method_id,
        }
    }

    /// Whether the event closes its stream.
    pub open spec fn is_terminal(self) -> bool {
        self is End || self is Error
    }
}

/// The views of a vector of events.
pub open spec fn events_view(es: Seq<RpcStreamEvent>) -> Seq<SpecStreamEvent> {
    es.map_values(|e: RpcStreamEvent| e@)
}

/// A copy of an optional header, equal to it.
pub fn duplicate_opt_header(h: &Option<RpcHeader>) -> (r: Option<RpcHeader>)
    ensures
        opt_header_view(r) == opt_header_view(*h),
{
    match h {
        Some(h) => Some(h.duplicate()),
        None => None,
    }
}

impl RpcStreamEvent {
    /// A copy of the event, equal to it.
    pub fn duplicate(&self) -> (e: RpcStreamEvent)
        ensures
            e@ == self@,
    {
        match self {
            RpcStreamEvent::Header { rpc_request_id, rpc_method_id, rpc_header } => {
                RpcStreamEvent::Header {
                    rpc_request_id: *rpc_request_id,
                    rpc_method_id: *rpc_method_id,
                    rpc_header: rpc_header.duplicate(),
                }
            },
            RpcStreamEvent::PayloadChunk { rpc_request_id, rpc_method_id, bytes, rpc_header } => {
                RpcStreamEvent::PayloadChunk {
                    rpc_request_id: *rpc_request_id,
                    rpc_method_id: *rpc_method_id,
                    bytes: slice_to_vec(bytes.as_slice()),
                    rpc_header: rpc_header.duplicate(),
                }
            },
            RpcStreamEvent::End { rpc_request_id, rpc_method_id, rpc_header } => {
                RpcStreamEvent::End {
                    rpc_request_id: *rpc_request_id,
                    rpc_method_id: *rpc_method_id,
                    rpc_header: rpc_header.duplicate(),
                }
            },
            RpcStreamEvent::Error {
                rpc_header,
                rpc_request_id,
                rpc_method_id,
                frame_decode_error,
            } => RpcStreamEvent::Error {
                rpc_header: duplicate_opt_header(rpc_header),
                rpc_request_id: *rpc_request_id,
                rpc_method_id: *rpc_method_id,
                frame_decode_error: frame_decode_error.duplicate(),
            },
        }
    }

    /// The request id the event belongs to, when it has one.
    pub fn request_id(&self) -> (r: Option<u32>)
        ensures
            r == self@.request_id(),
    {
        match self {
            RpcStreamEvent::Header { rpc_request_id, .. } => Some(*rpc_request_id),
            RpcStreamEvent::PayloadChunk { rpc_request_id, .. } => Some(*rpc_request_id),
            RpcStreamEvent::End { rpc_request_id, .. } => Some(*rpc_request_id),
            RpcStreamEvent::Error { rpc_request_id, .. } => *rpc_request_id,
        }
    }

    /// The method id the event belongs to, when it has one.
    pub fn method_id(&self) -> (r: Option<u64>)
        ensures
            r == self@.method_id(),
    {
        match self {
            RpcStreamEvent::Header { rpc_method_id, .. } => Some(*rpc_method_id),
            RpcStreamEvent::PayloadChunk { rpc_method_id, .. } => Some(*rpc_method_id),
            RpcStreamEvent::End { rpc_method_id, .. } => Some(*rpc_method_id),
            RpcStreamEvent::Error { rpc_method_id, .. } => *rpc_method_id,
        }
    }

    /// Whether the event closes its stream.
    pub fn is_terminal(&self) -> (b: bool)
        ensures
            b == self@.is_terminal(),
    {
        match self {
            RpcStreamEvent::End { .. } => true,
            RpcStreamEvent::Error { .. } => true,
            _ => false,
        }
    }
}

/// Where an incoming stream stands, as a mathematical value.
pub enum SpecInbound {
    AwaitingHeader(Seq<u8>),
    Streaming(SpecRpcHeader),
}

/// Where an incoming stream stands: still gathering the bytes of its
/// header, or past it.
#[derive(Debug)]
pub enum InboundStream {
    AwaitingHeader(Vec<u8>),
    Streaming(RpcHeader),
}

impl View for InboundStream {
    type V = SpecInbound;

    open spec fn view(&self) -> SpecInbound {
        match self {
            InboundStream::AwaitingHeader(b) => SpecInbound::AwaitingHeader(b@),
            InboundStream::Streaming(h) => SpecInbound::Streaming(h@),
        }
    }
}

/// The view of an optional stream state.
pub open spec fn opt_inbound_view(s: Option<InboundStream>) -> Option<SpecInbound> {
    match s {
        Some(s) => Some(s@),
        None => None,
    }
}

/// An error event with no header, request or method.
pub open spec fn bare_error(e: FrameDecodeError) -> SpecStreamEvent {
    SpecStreamEvent::Error {
        rpc_header: None,
        rpc_request_id: None,
        rpc_method_id: None,
        frame_decode_error: e,
    }
}

/// The events a header-gathering stream emits once its buffer is `buf`.
pub open spec fn spec_absorb_header_bytes(buf: Seq<u8>) -> (Option<SpecInbound>, Seq<SpecStreamEvent>) {
    match spec_scan_header(buf) {
        SpecHeaderScan::NeedMore => (Some(SpecInbound::AwaitingHeader(buf)), Seq::empty()),
        SpecHeaderScan::Invalid => (None, seq![bare_error(FrameDecodeError::CorruptFrame)]),
        SpecHeaderScan::Complete(h, n) => {
            let head = SpecStreamEvent::Header {
                rpc_request_id: h.rpc_request_id,
                rpc_method_id: h.rpc_method_id,
                rpc_header: h,
            };
            if buf.len() > n {
                (
                    Some(SpecInbound::Streaming(h)),
                    seq![
                        head,
                        SpecStreamEvent::PayloadChunk {
                            rpc_request_id: h.rpc_request_id,
                            rpc_method_id: h.rpc_method_id,
                            bytes: buf.skip(n),
                            rpc_header: h,
                        },
                    ],
                )
            } else {
                (Some(SpecInbound::Streaming(h)), seq![head])
            }
        },
    }
}

/// One frame applied to the state of its stream (`None`: no state yet, or
/// closed): the new state (`None`: closed) and the events it emits.
///
/// A stream starts with the bytes of its header, carried by `Open` and
/// `Data` frames; once the header is whole, a `Header` event goes out, and
/// every later non-empty data payload is a `PayloadChunk` event. `End`
/// closes the stream with an `End` event, or an `IncompleteHeader` error
/// when the header never completed; `Cancel` closes it with a
/// `ReadAfterCancel` error. `Ping` and `Pong` frames change nothing, and
/// neither do `End` and `Cancel` frames of a stream that has no state.
pub open spec fn spec_stream_step(st: Option<SpecInbound>, f: SpecFrame) -> (
    Option<SpecInbound>,
    Seq<SpecStreamEvent>,
) {
    match f.kind {
        FrameKind::Ping | FrameKind::Pong => (st, Seq::empty()),
        FrameKind::Open | FrameKind::Data => match st {
            None => spec_absorb_header_bytes(f.payload),
            Some(SpecInbound::AwaitingHeader(b)) => spec_absorb_header_bytes(b + f.payload),
            Some(SpecInbound::Streaming(h)) => {
                if f.payload.len() == 0 {
                    (st, Seq::empty())
                } else {
                    (
                        st,
                        seq![
                            SpecStreamEvent::PayloadChunk {
                                rpc_request_id: h.rpc_request_id,
                                rpc_method_id: h.rpc_method_id,
                                bytes: f.payload,
                                rpc_header: h,
                            },
                        ],
                    )
                }
            },
        },
        FrameKind::End => match st {
            None => (None, Seq::empty()),
            Some(SpecInbound::AwaitingHeader(_)) => (
                None,
                seq![bare_error(FrameDecodeError::IncompleteHeader)],
            ),
            Some(SpecInbound::Streaming(h)) => (
                None,
                seq![
                    SpecStreamEvent::End {
                        rpc_request_id: h.rpc_request_id,
                        rpc_method_id: h.rpc_method_id,
                        rpc_header: h,
                    },
                ],
            ),
        },
        FrameKind::Cancel => match st {
            None => (None, Seq::empty()),
            Some(SpecInbound::AwaitingHeader(_)) => (
                None,
                seq![bare_error(FrameDecodeError::ReadAfterCancel)],
            ),
            Some(SpecInbound::Streaming(h)) => (
                None,
                seq![
                    SpecStreamEvent::Error {
                        rpc_header: Some(h),
                        rpc_request_id: Some(h.rpc_request_id),
                        rpc_method_id: Some(h.rpc_method_id),
                        frame_decode_error: FrameDecodeError::ReadAfterCancel,
                    },
                ],
            ),
        },
    }
}

fn absorb_header_bytes(buf: Vec<u8>) -> (r: (Option<InboundStream>, Vec<RpcStreamEvent>))
    ensures
        (opt_inbound_view(r.0), events_view(r.1@)) == spec_absorb_header_bytes(buf@),
{
    let scan = scan_header(buf.as_slice());
    match scan {
        HeaderScan::NeedMore => {
            let ghost b = buf@;
            let es: Vec<RpcStreamEvent> = Vec::new();
            assert(events_view(es@) =~= Seq::<SpecStreamEvent>::empty());
            (Some(InboundStream::AwaitingHeader(buf)), es)
        },
        HeaderScan::Invalid => {
            let mut es: Vec<RpcStreamEvent> = Vec::new();
            es.push(
                RpcStreamEvent::Error {
                    rpc_header: None,
                    rpc_request_id: None,
                    rpc_method_id: None,
                    frame_decode_error: FrameDecodeError::CorruptFrame,
                },
            );
            assert(events_view(es@) =~= seq![bare_error(FrameDecodeError::CorruptFrame)]);
            (None, es)
        },
        HeaderScan::Complete(h, n) => {
            let mut es: Vec<RpcStreamEvent> = Vec::new();
            es.push(
                RpcStreamEvent::Header {
                    rpc_request_id: h.rpc_request_id,
                    rpc_method_id: h.rpc_method_id,
                    rpc_header: h.duplicate(),
                },
            );
            if buf.len() > n {
                let rest = slice_to_vec(slice_subrange(buf.as_slice(), n, buf.len()));
                assert(rest@ =~= buf@.skip(n as int));
                es.push(
                    RpcStreamEvent::PayloadChunk {
                        rpc_request_id: h.rpc_request_id,
                        rpc_method_id: h.rpc_method_id,
                        bytes: rest,
                        rpc_header: h.duplicate(),
                    },
                );
                assert(events_view(es@) =~= spec_absorb_header_bytes(buf@).1);
            } else {
                assert(events_view(es@) =~= spec_absorb_header_bytes(buf@).1);
            }
            (Some(InboundStream::Streaming(h)), es)
        },
    }
}

/// Applies one frame to the state of its stream; see `spec_stream_step`.
pub fn stream_step(st: Option<InboundStream>, f: Frame) -> (r: (
    Option<InboundStream>,
    Vec<RpcStreamEvent>,
))
    ensures
        (opt_inbound_view(r.0), events_view(r.1@)) == spec_stream_step(opt_inbound_view(st), f@),
{
    let mut es: Vec<RpcStreamEvent> = Vec::new();
    match f.kind {
        FrameKind::Ping | FrameKind::Pong => {
            assert(events_view(es@) =~= Seq::<SpecStreamEvent>::empty());
            (st, es)
        },
        FrameKind::Open | FrameKind::Data => match st {
            None => absorb_header_bytes(f.payload),
            Some(InboundStream::AwaitingHeader(mut b)) => {
                let mut p = f.payload;
                b.append(&mut p);
                absorb_header_bytes(b)
            },
            Some(InboundStream::Streaming(h)) => {
                if f.payload.len() == 0 {
                    assert(events_view(es@) =~= Seq::<SpecStreamEvent>::empty());
                } else {
                    es.push(
                        RpcStreamEvent::PayloadChunk {
                            rpc_request_id: h.rpc_request_id,
                            rpc_method_id: h.rpc_method_id,
                            bytes: f.payload,
                            rpc_header: h.duplicate(),
                        },
                    );
                    assert(events_view(es@) =~= spec_stream_step(opt_inbound_view(st), f@).1);
                }
                (Some(InboundStream::Streaming(h)), es)
            },
        },
        FrameKind::End => {
            match st {
                None => {
                    assert(events_view(es@) =~= Seq::<SpecStreamEvent>::empty());
                },
                Some(InboundStream::AwaitingHeader(_)) => {
                    es.push(
                        RpcStreamEvent::Error {
                            rpc_header: None,
                            rpc_request_id: None,
                            rpc_method_id: None,
                            frame_decode_error: FrameDecodeError::IncompleteHeader,
                        },
                    );
                    assert(events_view(es@) =~= spec_stream_step(opt_inbound_view(st), f@).1);
                },
                Some(InboundStream::Streaming(h)) => {
                    es.push(
                        RpcStreamEvent::End {
                            rpc_request_id: h.rpc_request_id,
                            rpc_method_id: h.rpc_method_id,
                            rpc_header: h,
                        },
                    );
                    assert(events_view(es@) =~= spec_stream_step(opt_inbound_view(st), f@).1);
                },
            }
            (None, es)
        },
        FrameKind::Cancel => {
            match st {
                None => {
                    assert(events_view(es@) =~= Seq::<SpecStreamEvent>::empty());
                },
                Some(InboundStream::AwaitingHeader(_)) => {
                    es.push(
                        RpcStreamEvent::Error {
                            rpc_header: None,
                            rpc_request_id: None,
                            rpc_method_id: None,
                            frame_decode_error: FrameDecodeError::ReadAfterCancel,
                        },
                    );
                    assert(events_view(es@) =~= spec_stream_step(opt_inbound_view(st), f@).1);
                },
                Some(InboundStream::Streaming(h)) => {
                    let id = h.rpc_request_id;
                    let m = h.rpc_method_id;
                    es.push(
                        RpcStreamEvent::Error {
                            rpc_header: Some(h),
                            rpc_request_id: Some(id),
                            rpc_method_id: Some(m),
                            frame_decode_error: FrameDecodeError::ReadAfterCancel,
                        },
                    );
                    assert(events_view(es@) =~= spec_stream_step(opt_inbound_view(st), f@).1);
                },
            }
            (None, es)
        },
    }
}

} // verus!
