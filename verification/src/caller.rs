use vstd::prelude::*;

use crate::dispatcher::{
    DispatcherView, RpcDispatcher, RpcRequest, body_data, bytes_or_empty, call_header,
    lemma_dispatch_handler_deliveries, lemma_sent_stream_read, outgoing_encoder, outgoing_frames,
    spec_dispatcher_read,
};
use crate::frame::{Frame, FrameEncodeError, SpecFrame, frames_view, spec_frames_bytes};
use crate::respondable::{
    Target, delivery_events, is_prebuffering, lemma_response_reaches_handler, spec_route_all, to_handler,
};
use crate::rpc_header::header_fits;
use crate::service::{DEFAULT_SERVICE_MAX_CHUNK_SIZE, RpcResultStatus};
use crate::rpc_header::SpecRpcHeader;
use crate::session::{end_event, header_event, spec_chunk_events};
use crate::stream_decoder::{RpcStreamEvent, SpecStreamEvent};
use crate::stream_encoder::{RpcStreamEncoder, stamped};

verus! {

broadcast use vstd::seq_lib::group_seq_properties;

/// The failure categories of the serving side.
#[derive(Debug, Clone, Copy, PartialEq, Eq, Structural)]
pub enum RpcErrorCode {
    /// A failure of the request itself (such as invalid arguments).
    Fail,
    /// A crash or unexpected bug.
    System,
    /// No handler for the method.
    NotFound,
}

impl RpcErrorCode {
    /// The name of the code.
    pub open spec fn spec_name(self) -> Seq<char> {
        match self {
            RpcErrorCode::Fail => "Fail"@,
            RpcErrorCode::System => "System"@,
            RpcErrorCode::NotFound => "NotFound"@,
        }
    }

    /// The name of the code.
    pub fn name(&self) -> (s: &'static str)
        ensures
            s@ == self.spec_name(),
    {
        match self {
            RpcErrorCode::Fail => "Fail",
            RpcErrorCode::System => "System",
            RpcErrorCode::NotFound => "NotFound",
        }
    }
}

/// The error payload that travels back to a caller.
#[derive(Debug)]
pub struct RpcErrorPayload {
    pub code: RpcErrorCode,
    pub message: String,
}

/// The kind of a transport failure.
#[derive(Debug, Clone, Copy, PartialEq, Eq, Structural)]
pub enum TransportErrorKind {
    /// The connection is gone, or the response stream broke off.
    ConnectionAborted,
    /// Bytes that arrived could not be decoded.
    InvalidData,
    /// Any other failure, such as a call that the dispatcher refused.
    Other,
}

/// A caller-side error as a mathematical value.
pub enum SpecCallerError {
    Transport(TransportErrorKind, Seq<char>),
    Rpc(RpcErrorCode, Seq<char>),
    Aborted,
}

/// The errors a caller sees.
#[derive(Debug)]
pub enum RpcCallerError {
    /// The transport or the protocol failed; with the failure's kind and text.
    Transport(TransportErrorKind, String),
    /// The serving side answered with an error.
    Rpc(RpcErrorPayload),
    /// The call was cancelled or interrupted locally.
    Aborted,
}

impl View for RpcCallerError {
    type V = SpecCallerError;

    open spec fn view(&self) -> SpecCallerError {
        match self {
            RpcCallerError::Transport(k, m) => SpecCallerError::Transport(*k, m@),
            RpcCallerError::Rpc(p) => SpecCallerError::Rpc(p.code, p.message@),
            RpcCallerError::Aborted => SpecCallerError::Aborted,
        }
    }
}

impl SpecCallerError {
    /// The human-readable text of the error.
    pub open spec fn spec_message(self) -> Seq<char> {
        match self {
            SpecCallerError::Transport(_, m) => "Transport error: "@ + m,
            SpecCallerError::Rpc(code, m) => "["@ + code.spec_name() + "] "@ + m,
            SpecCallerError::Aborted => "RPC was aborted"@,
        }
    }
}

impl RpcCallerError {
    /// Renders the error as text.
    pub fn to_string(&self) -> (s: String)
        ensures
            s@ == self@.spec_message(),
    {
        match self {
            RpcCallerError::Transport(_, m) => String::from_str("Transport error: ").concat(m.as_str()),
            RpcCallerError::Rpc(p) => String::from_str("[").concat(p.code.name()).concat("] ").concat(
                p.message.as_str(),
            ),
            RpcCallerError::Aborted => String::from_str("RPC was aborted"),
        }
    }
}

/// The connection state of a transport, as reported to a state handler.
#[derive(Debug, Clone, Copy, PartialEq, Eq, Structural)]
pub enum RpcTransportState {
    Connected,
    Disconnected,
    Connecting,
}

/// Whether the chunks of a streamed response go through a bounded or an
/// unbounded channel.
#[derive(Debug, PartialEq, Eq, Structural)]
pub enum DynamicChannelType {
    Bounded,
    Unbounded,
}

/// Decodes bytes as UTF-8, replacing each invalid sequence.
pub uninterp spec fn spec_utf8_lossy(bytes: Seq<u8>) -> Seq<char>;

/// Decodes bytes with `String::from_utf8_lossy`, which replaces each
/// invalid UTF-8 sequence by U+FFFD. Its result is a function of the bytes
/// alone, named `spec_utf8_lossy`; of it, only what std documents is
/// claimed: valid UTF-8 comes back as the text it encodes. How invalid
/// sequences are replaced is left unsaid.
#[verifier::external_body]
fn utf8_lossy(bytes: &[u8]) -> (s: String)
    ensures
        s@ == spec_utf8_lossy(bytes@),
        vstd::utf8::valid_utf8(bytes@) ==> s@ == vstd::utf8::decode_utf8(bytes@),
{
    String::from_utf8_lossy(bytes).to_string()
}

/// The text of an error payload: the text that valid UTF-8 encodes, and
/// otherwise the lossy decoding of the bytes.
pub open spec fn spec_error_text(bytes: Seq<u8>) -> Seq<char> {
    if vstd::utf8::valid_utf8(bytes) {
        vstd::utf8::decode_utf8(bytes)
    } else {
        spec_utf8_lossy(bytes)
    }
}

/// The error a caller gets when its response ends with status `status`,
/// given the text of the buffered error payload: a missing method and a
/// system error carry that text (or, when it is empty, a text that names
/// the status), a failure carries no text, and any other status (success,
/// or none) is no error.
pub open spec fn spec_final_error(status: Option<RpcResultStatus>, message: Seq<char>) -> Option<
    SpecCallerError,
> {
    match status {
        Some(RpcResultStatus::MethodNotFound) => Some(
            SpecCallerError::Rpc(
                RpcErrorCode::NotFound,
                if message.len() == 0 {
                    "RPC method not found: Some(MethodNotFound)"@
                } else {
                    message
                },
            ),
        ),
        Some(RpcResultStatus::Fail) => Some(SpecCallerError::Rpc(RpcErrorCode::Fail, Seq::empty())),
        Some(RpcResultStatus::SystemError) => Some(
            SpecCallerError::Rpc(
                RpcErrorCode::System,
                if message.len() == 0 {
                    "RPC failed with status: Some(SystemError)"@
                } else {
                    message
                },
            ),
        ),
        _ => None,
    }
}

/// The view of an optional caller error.
pub open spec fn opt_error_view(e: Option<RpcCallerError>) -> Option<SpecCallerError> {
    match e {
        Some(e) => Some(e@),
        None => None,
    }
}

/// The error a caller gets when its response ends (see `spec_final_error`).
pub fn final_error(status: Option<RpcResultStatus>, message: String) -> (e: Option<RpcCallerError>)
    ensures
        opt_error_view(e) == spec_final_error(status, message@),
{
    match status {
        Some(RpcResultStatus::MethodNotFound) => {
            let m = if message.as_str().is_empty() {
                String::from_str("RPC method not found: Some(MethodNotFound)")
            } else {
                message
            };
            Some(RpcCallerError::Rpc(RpcErrorPayload { code: RpcErrorCode::NotFound, message: m }))
        },
        Some(RpcResultStatus::Fail) => {
            let m = String::new();
            Some(RpcCallerError::Rpc(RpcErrorPayload { code: RpcErrorCode::Fail, message: m }))
        },
        Some(RpcResultStatus::SystemError) => {
            let m = if message.as_str().is_empty() {
                String::from_str("RPC failed with status: Some(SystemError)")
            } else {
                message
            };
            Some(RpcCallerError::Rpc(RpcErrorPayload { code: RpcErrorCode::System, message: m }))
        },
        _ => None,
    }
}

/// What the receiver of a streamed response does, as a mathematical value.
pub enum SpecReceiverAction {
    /// Tells the caller that the call is set up (`None`), or failed.
    SignalReady(Option<SpecCallerError>),
    /// Passes a payload chunk, or an error, to the caller.
    Send(Result<Seq<u8>, SpecCallerError>),
    /// Closes the caller's channel.
    Close,
}

/// What the receiver of a streamed response does.
#[derive(Debug)]
pub enum ReceiverAction {
    SignalReady(Result<(), RpcCallerError>),
    Send(Result<Vec<u8>, RpcCallerError>),
    Close,
}

impl View for ReceiverAction {
    type V = SpecReceiverAction;

    open spec fn view(&self) -> SpecReceiverAction {
        match self {
            ReceiverAction::SignalReady(Ok(())) => SpecReceiverAction::SignalReady(None),
            ReceiverAction::SignalReady(Err(e)) => SpecReceiverAction::SignalReady(Some(e@)),
            ReceiverAction::Send(Ok(b)) => SpecReceiverAction::Send(Ok(b@)),
            ReceiverAction::Send(Err(e)) => SpecReceiverAction::Send(Err(e@)),
            ReceiverAction::Close => SpecReceiverAction::Close,
        }
    }
}

/// The views of actions.
pub open spec fn actions_view(a: Seq<ReceiverAction>) -> Seq<SpecReceiverAction> {
    a.map_values(|x: ReceiverAction| x@)
}

/// The receiving side of a streamed response, as a mathematical value.
pub struct ResponseStreamView {
    /// The result status, once the header has arrived.
    pub status: Option<RpcResultStatus>,
    /// Payload bytes held back: those of an error, or those that came
    /// before any status.
    pub error_buffer: Seq<u8>,
    /// Whether the caller's channel is still open.
    pub sender_open: bool,
    /// Whether the caller still waits to hear that the call is set up.
    pub ready_pending: bool,
}

/// The status that a response header carries: its first metadata byte,
/// when that is a known status, else success.
pub open spec fn spec_header_status(meta: Seq<u8>) -> RpcResultStatus {
    if meta.len() > 0 {
        match RpcResultStatus::spec_from_code(meta[0]) {
            Some(s) => s,
            None => RpcResultStatus::Success,
        }
    } else {
        RpcResultStatus::Success
    }
}

/// One event of the response stream: the receiver's state afterwards and
/// what it does.
///
/// The header sets the status and, if the caller still waits, tells it the
/// call is set up. A chunk goes to the caller when the status is success,
/// and is held back otherwise. The end turns the status and the text of the
/// held-back bytes (see `spec_error_text`) into the caller's error (see
/// `spec_final_error`), if any, and
/// closes the channel. An error event tells a waiting caller that the call
/// failed (a transport error of kind `Other`), sends the caller a transport
/// error of kind `ConnectionAborted` with the error's text, and
/// closes the channel.
pub open spec fn spec_response_step(s: ResponseStreamView, e: SpecStreamEvent) -> (
    ResponseStreamView,
    Seq<SpecReceiverAction>,
) {
    match e {
        SpecStreamEvent::Header { rpc_header, .. } => (
            ResponseStreamView {
                status: Some(spec_header_status(rpc_header.rpc_metadata_bytes)),
                ready_pending: false,
                ..s
            },
            if s.ready_pending {
                seq![SpecReceiverAction::SignalReady(None)]
            } else {
                Seq::empty()
            },
        ),
        SpecStreamEvent::PayloadChunk { bytes, .. } => if s.status == Some(RpcResultStatus::Success) {
            (
                s,
                if s.sender_open {
                    seq![SpecReceiverAction::Send(Ok(bytes))]
                } else {
                    Seq::empty()
                },
            )
        } else {
            (ResponseStreamView { error_buffer: s.error_buffer + bytes, ..s }, Seq::empty())
        },
        SpecStreamEvent::End { .. } => (
            ResponseStreamView {
                status: None,
                error_buffer: Seq::empty(),
                sender_open: false,
                ..s
            },
            if s.sender_open {
                match spec_final_error(s.status, spec_error_text(s.error_buffer)) {
                    Some(err) => seq![SpecReceiverAction::Send(Err(err)), SpecReceiverAction::Close],
                    None => seq![SpecReceiverAction::Close],
                }
            } else {
                Seq::empty()
            },
        ),
        SpecStreamEvent::Error { frame_decode_error, .. } => (
            ResponseStreamView { sender_open: false, ready_pending: false, ..s },
            (if s.ready_pending {
                seq![
                    SpecReceiverAction::SignalReady(
                        Some(SpecCallerError::Transport(TransportErrorKind::Other, frame_decode_error.spec_message())),
                    ),
                ]
            } else {
                Seq::empty()
            }) + (if s.sender_open {
                seq![
                    SpecReceiverAction::Send(
                        Err(
                            SpecCallerError::Transport(
                                TransportErrorKind::ConnectionAborted,
                                frame_decode_error.spec_message(),
                            ),
                        ),
                    ),
                    SpecReceiverAction::Close,
                ]
            } else {
                Seq::empty()
            }),
        ),
    }
}

/// The receiving side of a streamed response: turns the events of the
/// response stream into what the caller's channel gets.
#[derive(Debug)]
pub struct ResponseStream {
    status: Option<RpcResultStatus>,
    error_buffer: Vec<u8>,
    sender_open: bool,
    ready_pending: bool,
}

impl View for ResponseStream {
    type V = ResponseStreamView;

    closed spec fn view(&self) -> ResponseStreamView {
        ResponseStreamView {
            status: self.status,
            error_buffer: self.error_buffer@,
            sender_open: self.sender_open,
            ready_pending: self.ready_pending,
        }
    }
}

impl ResponseStream {
    /// A receiver that has seen nothing, with the caller waiting.
    pub fn new() -> (r: ResponseStream)
        ensures
            r@ == (ResponseStreamView {
                status: None,
                error_buffer: Seq::empty(),
                sender_open: true,
                ready_pending: true,
            }),
    {
        ResponseStream { status: None, error_buffer: Vec::new(), sender_open: true, ready_pending: true }
    }

    /// Tells a waiting caller that the call is set up.
    pub fn signal_ready(&mut self) -> (a: Option<ReceiverAction>)
        ensures
            final(self)@ == (ResponseStreamView { ready_pending: false, ..old(self)@ }),
            old(self)@.ready_pending ==> (a matches Some(x) && x@ == SpecReceiverAction::SignalReady(None)),
            !old(self)@.ready_pending ==> a is None,
    {
        if self.ready_pending {
            self.ready_pending = false;
            Some(ReceiverAction::SignalReady(Ok(())))
        } else {
            None
        }
    }

    /// Handles one event of the response stream (see `spec_response_step`).
    pub fn on_event(&mut self, evt: RpcStreamEvent) -> (actions: Vec<ReceiverAction>)
        ensures
            (final(self)@, actions_view(actions@)) == spec_response_step(old(self)@, evt@),
    {
        let ghost e = evt@;
        let mut actions: Vec<ReceiverAction> = Vec::new();
        match evt {
            RpcStreamEvent::Header { rpc_header, .. } => {
                let status = if rpc_header.rpc_metadata_bytes.len() > 0 {
                    match RpcResultStatus::try_from_u8(rpc_header.rpc_metadata_bytes[0]) {
                        Ok(s) => s,
                        Err(_) => RpcResultStatus::Success,
                    }
                } else {
                    RpcResultStatus::Success
                };
                self.status = Some(status);
                if self.ready_pending {
                    self.ready_pending = false;
                    actions.push(ReceiverAction::SignalReady(Ok(())));
                }
                assert(actions_view(actions@) =~= spec_response_step(old(self)@, e).1);
            },
            RpcStreamEvent::PayloadChunk { bytes, .. } => {
                match self.status {
                    Some(RpcResultStatus::Success) => {
                        if self.sender_open {
                            actions.push(ReceiverAction::Send(Ok(bytes)));
                        }
                    },
                    _ => {
                        let mut b = bytes;
                        self.error_buffer.append(&mut b);
                    },
                }
                assert(actions_view(actions@) =~= spec_response_step(old(self)@, e).1);
            },
            RpcStreamEvent::End { .. } => {
                let final_status = self.status;
                self.status = None;
                let mut payload: Vec<u8> = Vec::new();
                std::mem::swap(&mut payload, &mut self.error_buffer);
                if self.sender_open {
                    let text = utf8_lossy(payload.as_slice());
                    match final_error(final_status, text) {
                        Some(err) => {
                            actions.push(ReceiverAction::Send(Err(err)));
                        },
                        None => {},
                    }
                    actions.push(ReceiverAction::Close);
                }
                self.sender_open = false;
                assert(actions_view(actions@) =~= spec_response_step(old(self)@, e).1);
            },
            RpcStreamEvent::Error { frame_decode_error, .. } => {
                if self.ready_pending {
                    self.ready_pending = false;
                    actions.push(
                        ReceiverAction::SignalReady(
                            Err(RpcCallerError::Transport(TransportErrorKind::Other, frame_decode_error.to_string())),
                        ),
                    );
                }
                if self.sender_open {
                    self.sender_open = false;
                    actions.push(
                        ReceiverAction::Send(
                            Err(
                                RpcCallerError::Transport(
                                    TransportErrorKind::ConnectionAborted,
                                    frame_decode_error.to_string(),
                                ),
                            ),
                        ),
                    );
                    actions.push(ReceiverAction::Close);
                }
                self.ready_pending = false;
                assert(actions_view(actions@) =~= spec_response_step(old(self)@, e).1);
            },
        }
        actions
    }
}

/// The events of a response applied in order to its receiver.
pub open spec fn spec_response_run(s: ResponseStreamView, es: Seq<SpecStreamEvent>) -> (
    ResponseStreamView,
    Seq<SpecReceiverAction>,
)
    decreases es.len(),
{
    if es.len() == 0 {
        (s, Seq::empty())
    } else {
        let prev = spec_response_run(s, es.drop_last());
        let step = spec_response_step(prev.0, es.last());
        (step.0, prev.1 + step.1)
    }
}

/// The text of an encoding error, as its debug form names it.
pub open spec fn spec_encode_error_name(e: FrameEncodeError) -> Seq<char> {
    match e {
        FrameEncodeError::CorruptFrame => "CorruptFrame"@,
        FrameEncodeError::WriteAfterEnd => "WriteAfterEnd"@,
        FrameEncodeError::WriteAfterCancel => "WriteAfterCancel"@,
    }
}

pub(crate) fn encode_error_name(e: FrameEncodeError) -> (s: String)
    ensures
        s@ == spec_encode_error_name(e),
{
    match e {
        FrameEncodeError::CorruptFrame => String::from_str("CorruptFrame"),
        FrameEncodeError::WriteAfterEnd => String::from_str("WriteAfterEnd"),
        FrameEncodeError::WriteAfterCancel => String::from_str("WriteAfterCancel"),
    }
}

/// Starts a streamed call on `dispatcher`: refused with a transport error
/// when the client is not connected; otherwise the call is sent (see
/// `RpcDispatcher::call`) with the default chunk size and a handler for its
/// response, not prebuffered, and the caller is told at once that it is set
/// up. Returns the request id, the encoder, the frames to send and the
/// receiver of the response. A call the dispatcher refuses is a transport
/// error of kind `Other` with the name of the encoding error; a refusal
/// for want of a connection is of kind `ConnectionAborted`.
pub fn start_streaming_call(
    dispatcher: &mut RpcDispatcher,
    request: RpcRequest,
    is_connected: bool,
    request_counter: u32,
    timestamp: u64,
) -> (r: Result<(u32, RpcStreamEncoder, Vec<Frame>, ResponseStream), RpcCallerError>)
    requires
        old(dispatcher).wf(),
    ensures
        final(dispatcher).wf(),
        !is_connected ==> {
            &&& r matches Err(e) && e@ == SpecCallerError::Transport(
                TransportErrorKind::ConnectionAborted,
                "RPC call attempted on a disconnected client."@,
            )
            &&& final(dispatcher)@ == old(dispatcher)@
        },
        is_connected ==> ({
            let rid = old(dispatcher)@.session.session.id_space.spec_place(request_counter);
            let sid = old(dispatcher)@.session.session.id_space.spec_place(
                old(dispatcher)@.session.session.next_id,
            );
            let h = call_header(rid, request@);
            let body = bytes_or_empty(request@.rpc_prebuffered_payload_bytes);
            &&& final(dispatcher)@ == crate::dispatcher::after_call(old(dispatcher)@, rid, true, false)
            &&& (r is Ok <==> header_fits(h))
            &&& (r matches Err(e) ==> e@ == SpecCallerError::Transport(TransportErrorKind::Other, "CorruptFrame"@))
            &&& (r matches Ok((id, enc, frames, recv)) ==> {
                &&& id == rid
                &&& enc.wf()
                &&& enc@ == outgoing_encoder(
                    sid,
                    body,
                    DEFAULT_SERVICE_MAX_CHUNK_SIZE as nat,
                    request.is_finalized,
                )
                &&& outgoing_frames(
                    frames_view(frames@),
                    sid,
                    h,
                    body,
                    DEFAULT_SERVICE_MAX_CHUNK_SIZE as nat,
                    request.is_finalized,
                )
                &&& stamped(frames_view(frames@), timestamp)
                &&& recv@ == ResponseStreamView {
                    status: None,
                    error_buffer: Seq::empty(),
                    sender_open: true,
                    ready_pending: false,
                }
            })
        }),
{
    if !is_connected {
        return Err(
            RpcCallerError::Transport(
                TransportErrorKind::ConnectionAborted,
                String::from_str("RPC call attempted on a disconnected client."),
            ),
        );
    }
    let fin = request.is_finalized;
    match dispatcher.call(request, DEFAULT_SERVICE_MAX_CHUNK_SIZE, true, false, request_counter, timestamp) {
        Ok((id, enc, frames)) => {
            let mut recv = ResponseStream::new();
            let _ = recv.signal_ready();
            Ok((id, enc, frames, recv))
        },
        Err(e) => Err(RpcCallerError::Transport(TransportErrorKind::Other, encode_error_name(e))),
    }
}

/// The outcome of a buffered call, from what its channel delivered in
/// order: the first error, if any; otherwise all the chunks, joined.
pub open spec fn spec_collect_buffered(items: Seq<Result<Seq<u8>, SpecCallerError>>) -> Result<
    Seq<u8>,
    SpecCallerError,
>
    decreases items.len(),
{
    if items.len() == 0 {
        Ok(Seq::empty())
    } else {
        match items[0] {
            Err(e) => Err(e),
            Ok(b) => match spec_collect_buffered(items.drop_first()) {
                Ok(rest) => Ok(b + rest),
                Err(e) => Err(e),
            },
        }
    }
}

/// The view of a channel item.
pub open spec fn item_view(r: Result<Vec<u8>, RpcCallerError>) -> Result<Seq<u8>, SpecCallerError> {
    match r {
        Ok(b) => Ok(b@),
        Err(e) => Err(e@),
    }
}

/// The views of channel items.
pub open spec fn items_view(s: Seq<Result<Vec<u8>, RpcCallerError>>) -> Seq<Result<Seq<u8>, SpecCallerError>> {
    s.map_values(|r: Result<Vec<u8>, RpcCallerError>| item_view(r))
}

/// The outcome of a buffered call (see `spec_collect_buffered`).
pub fn collect_buffered(items: Vec<Result<Vec<u8>, RpcCallerError>>) -> (r: Result<Vec<u8>, RpcCallerError>)
    ensures
        item_view(r) == spec_collect_buffered(items_view(items@)),
{
    let ghost all = items_view(items@);
    let n = items.len();
    let mut work = items;
    let mut rev: Vec<Result<Vec<u8>, RpcCallerError>> = Vec::new();
    while work.len() > 0
        invariant
            work.len() + rev.len() == n,
            n == all.len(),
            forall|j: int| 0 <= j < rev.len() ==> item_view(#[trigger] rev@[j]) == all[n - 1 - j],
            forall|j: int| 0 <= j < work.len() ==> item_view(#[trigger] work@[j]) == all[j],
        decreases work.len(),
    {
        let x = work.pop().unwrap();
        rev.push(x);
    }
    let mut acc: Vec<u8> = Vec::new();
    let mut i: usize = 0;
    while rev.len() > 0
        invariant
            i + rev.len() == n,
            n == all.len(),
            all == items_view(items@),
            forall|j: int| 0 <= j < rev.len() ==> item_view(#[trigger] rev@[j]) == all[n - 1 - j],
            spec_collect_buffered(all) == match spec_collect_buffered(all.skip(i as int)) {
                Ok(rest) => Ok(acc@ + rest),
                Err(e) => Err(e),
            },
        decreases rev.len(),
    {
        let x = rev.pop().unwrap();
        assert(item_view(x) == all[i as int]);
        let ghost tail = all.skip(i as int);
        assert(tail[0] == all[i as int]);
        assert(tail.drop_first() =~= all.skip(i + 1));
        match x {
            Ok(mut b) => {
                let ghost bv = b@;
                let ghost old_acc = acc@;
                acc.append(&mut b);
                proof {
                    match spec_collect_buffered(all.skip(i + 1)) {
                        Ok(rest) => {
                            assert(old_acc + (bv + rest) =~= acc@ + rest);
                        },
                        Err(_) => {},
                    }
                }
            },
            Err(e) => {
                assert(tail[0] == Err::<Seq<u8>, SpecCallerError>(e@));
                assert(spec_collect_buffered(tail) == Err::<Seq<u8>, SpecCallerError>(e@));
                return Err(e);
            },
        }
        i = i + 1;
    }
    assert(all.skip(n as int) =~= Seq::<Result<Seq<u8>, SpecCallerError>>::empty());
    assert(acc@ + Seq::<u8>::empty() =~= acc@);
    Ok(acc)
}


/// What the caller's channel gets from a sequence of actions, in order.
pub open spec fn spec_channel_items(acts: Seq<SpecReceiverAction>) -> Seq<Result<Seq<u8>, SpecCallerError>>
    decreases acts.len(),
{
    if acts.len() == 0 {
        Seq::empty()
    } else {
        let prev = spec_channel_items(acts.drop_last());
        match acts.last() {
            SpecReceiverAction::Send(item) => prev.push(item),
            _ => prev,
        }
    }
}

proof fn lemma_collect_push(a: Seq<Result<Seq<u8>, SpecCallerError>>, x: Result<Seq<u8>, SpecCallerError>)
    ensures
        spec_collect_buffered(a.push(x)) == match spec_collect_buffered(a) {
            Ok(r) => match x {
                Ok(b) => Ok(r + b),
                Err(e) => Err(e),
            },
            Err(e) => Err(e),
        },
    decreases a.len(),
{
    if a.len() == 0 {
        assert(a.push(x).drop_first() =~= Seq::<Result<Seq<u8>, SpecCallerError>>::empty());
        match x {
            Ok(b) => {
                assert(b + Seq::<u8>::empty() =~= b);
                assert(Seq::<u8>::empty() + b =~= b);
            },
            Err(_) => {},
        }
    } else {
        lemma_collect_push(a.drop_first(), x);
        assert(a.push(x).drop_first() =~= a.drop_first().push(x));
        assert(a.push(x)[0] == a[0]);
        match (a[0], spec_collect_buffered(a.drop_first()), x) {
            (Ok(b0), Ok(r), Ok(b)) => {
                assert(b0 + (r + b) =~= (b0 + r) + b);
            },
            _ => {},
        }
    }
}

/// The payload chunks that a successful response passes to the caller:
/// one per non-empty data payload, in order.
pub open spec fn spec_sends(ps: Seq<Seq<u8>>) -> Seq<SpecReceiverAction>
    decreases ps.len(),
{
    if ps.len() == 0 {
        Seq::empty()
    } else if ps.last().len() == 0 {
        spec_sends(ps.drop_last())
    } else {
        spec_sends(ps.drop_last()).push(SpecReceiverAction::Send(Ok(ps.last())))
    }
}

/// What the caller gets of a whole response with header `h` and data
/// payloads `ps`, once the call is set up: with a success status (or none),
/// every non-empty payload in order and then the channel closes, and the
/// buffered outcome is all the bytes; with an error status, the payload is
/// held back and becomes the one error the caller gets before the channel
/// closes.
pub proof fn lemma_response_delivery(s: ResponseStreamView, h: SpecRpcHeader, ps: Seq<Seq<u8>>)
    requires
        s.status is None,
        s.error_buffer == Seq::<u8>::empty(),
        s.sender_open,
        !s.ready_pending,
    ensures
        ({
            let es = seq![header_event(h)] + spec_chunk_events(h, ps) + seq![end_event(h)];
            let status = spec_header_status(h.rpc_metadata_bytes);
            let acts = spec_response_run(s, es).1;
            &&& !spec_response_run(s, es).0.sender_open
            &&& status == RpcResultStatus::Success ==> {
                &&& acts == spec_sends(ps).push(SpecReceiverAction::Close)
                &&& spec_collect_buffered(spec_channel_items(acts)) == Ok::<Seq<u8>, SpecCallerError>(ps.flatten())
            }
            &&& status != RpcResultStatus::Success ==> {
                let err = spec_final_error(Some(status), spec_error_text(ps.flatten()));
                &&& err is Some
                &&& acts == seq![SpecReceiverAction::Send(Err(err.unwrap())), SpecReceiverAction::Close]
                &&& spec_collect_buffered(spec_channel_items(acts))
                    == Err::<Seq<u8>, SpecCallerError>(err.unwrap())
            }
        }),
{
    let status = spec_header_status(h.rpc_metadata_bytes);
    lemma_response_prefix(s, h, ps, ps.len());
    assert(ps.take(ps.len() as int) =~= ps);
    let pre = seq![header_event(h)] + spec_chunk_events(h, ps);
    let es = pre + seq![end_event(h)];
    assert(es.drop_last() =~= pre);
    assert(es.last() == end_event(h));
    let prev = spec_response_run(s, pre);
    if status == RpcResultStatus::Success {
        assert(prev.1 + seq![SpecReceiverAction::Close] =~= spec_sends(ps).push(SpecReceiverAction::Close));
        lemma_sends_collect(ps);
        assert(spec_channel_items(spec_sends(ps).push(SpecReceiverAction::Close))
            == spec_channel_items(spec_sends(ps))) by {
            assert(spec_sends(ps).push(SpecReceiverAction::Close).drop_last() =~= spec_sends(ps));
        }
    } else {
        let err = spec_final_error(Some(status), spec_error_text(ps.flatten()));
        let two = seq![SpecReceiverAction::Send(Err(err.unwrap())), SpecReceiverAction::Close];
        assert(Seq::<SpecReceiverAction>::empty() + two =~= two);
        assert(two.drop_last() =~= seq![SpecReceiverAction::Send(Err(err.unwrap()))]);
        assert(seq![SpecReceiverAction::Send(Err(err.unwrap()))].drop_last()
            =~= Seq::<SpecReceiverAction>::empty());
        let one = seq![SpecReceiverAction::Send(Err(err.unwrap()))];
        assert(spec_channel_items(Seq::<SpecReceiverAction>::empty())
            == Seq::<Result<Seq<u8>, SpecCallerError>>::empty());
        assert(one.last() == SpecReceiverAction::Send(Err(err.unwrap())));
        assert(spec_channel_items(one) == Seq::<Result<Seq<u8>, SpecCallerError>>::empty().push(
            Err::<Seq<u8>, SpecCallerError>(err.unwrap()),
        ));
        assert(two.last() == SpecReceiverAction::Close);
        assert(spec_channel_items(two) == spec_channel_items(one));
        let items = spec_channel_items(two);
        assert(items =~= seq![Err::<Seq<u8>, SpecCallerError>(err.unwrap())]);
        assert(items[0] == Err::<Seq<u8>, SpecCallerError>(err.unwrap()));
    }
}

/// The text of an error reaches the caller unchanged: when a response
/// with an error status carries, as its payload, the UTF-8 encoding of a
/// text, the one error the caller gets is the error that the status and
/// that very text make (so a system error with the text `m`, when `m` is
/// not empty, reaches the caller as a system error with the text `m`).
pub proof fn lemma_error_text_reaches_caller(
    s: ResponseStreamView,
    h: SpecRpcHeader,
    ps: Seq<Seq<u8>>,
    message: Seq<char>,
)
    requires
        s.status is None,
        s.error_buffer == Seq::<u8>::empty(),
        s.sender_open,
        !s.ready_pending,
        spec_header_status(h.rpc_metadata_bytes) != RpcResultStatus::Success,
        ps.flatten() == vstd::utf8::encode_utf8(message),
    ensures
        ({
            let es = seq![header_event(h)] + spec_chunk_events(h, ps) + seq![end_event(h)];
            let err = spec_final_error(Some(spec_header_status(h.rpc_metadata_bytes)), message);
            &&& err is Some
            &&& spec_response_run(s, es).1 == seq![
                SpecReceiverAction::Send(Err(err.unwrap())),
                SpecReceiverAction::Close,
            ]
            &&& spec_collect_buffered(spec_channel_items(spec_response_run(s, es).1))
                == Err::<Seq<u8>, SpecCallerError>(err.unwrap())
        }),
{
    broadcast use vstd::utf8::encode_utf8_valid_utf8, vstd::utf8::encode_utf8_decode_utf8;

    lemma_response_delivery(s, h, ps);
    assert(spec_error_text(ps.flatten()) == message);
}

/// A response reaches its caller whole: the bytes of a finalized response
/// stream (see `RpcDispatcher::respond`), read by the caller's dispatcher
/// (no bytes pending, no state for the stream, a handler for the request
/// and no buffering of its response), go to that handler alone, event by
/// event, and leave the queue as it was; fed to the request's receiver
/// once the call is set up, they give the caller, with a success status,
/// exactly the response's body, and with an error status the one error
/// that the status and the text of the body make.
pub proof fn lemma_response_reaches_caller(
    v: DispatcherView,
    fs: Seq<SpecFrame>,
    sid: u32,
    h: SpecRpcHeader,
    body: Seq<u8>,
    n: nat,
    s: ResponseStreamView,
)
    requires
        header_fits(h),
        0 < n <= u32::MAX,
        outgoing_frames(fs, sid, h, body, n, true),
        v.session.session.pending == Seq::<u8>::empty(),
        !v.session.session.streams.contains_key(sid),
        v.session.routing.handlers.contains(h.rpc_request_id),
        !is_prebuffering(v.session.routing, h.rpc_request_id),
        s.status is None,
        s.error_buffer == Seq::<u8>::empty(),
        s.sender_open,
        !s.ready_pending,
    ensures
        spec_dispatcher_read(v, spec_frames_bytes(fs)) matches Some((v2, ids, ds)) && {
            let es = delivery_events(ds);
            let status = spec_header_status(h.rpc_metadata_bytes);
            let acts = spec_response_run(s, es).1;
            &&& v2.queue == v.queue
            &&& forall|i: int| 0 <= i < ds.len() ==> (#[trigger] ds[i]).target == Target::Handler(
                h.rpc_request_id,
            )
            &&& status == RpcResultStatus::Success ==> spec_collect_buffered(spec_channel_items(acts))
                == Ok::<Seq<u8>, SpecCallerError>(body)
            &&& status != RpcResultStatus::Success ==> spec_collect_buffered(
                spec_channel_items(acts),
            ) == Err::<Seq<u8>, SpecCallerError>(
                spec_final_error(Some(status), spec_error_text(body)).unwrap(),
            )
            &&& status != RpcResultStatus::Success ==> spec_final_error(
                Some(status),
                spec_error_text(body),
            ) is Some
        },
{
    let rid = h.rpc_request_id;
    let data = body_data(body, n, true);
    let m = v.session.session.streams;
    let es = seq![header_event(h)] + spec_chunk_events(h, data) + seq![end_event(h)];
    lemma_sent_stream_read(m, fs, sid, h, body, n);
    lemma_response_reaches_handler(v.session.routing, h, data);
    let routed = spec_route_all(v.session.routing, es);
    let mapped = es.map_values(|e: SpecStreamEvent| to_handler(rid, e));
    assert(routed.1 == mapped);
    assert forall|i: int| 0 <= i < mapped.len() implies (#[trigger] mapped[i]).target != Target::CatchAll by {
        assert(mapped[i].target == Target::Handler(rid));
    }
    lemma_dispatch_handler_deliveries(v.queue, mapped);
    assert(v.session.session.pending + spec_frames_bytes(fs) =~= Seq::<u8>::empty() + spec_frames_bytes(
        fs,
    ));
    assert(delivery_events(mapped) =~= es);
    lemma_response_delivery(s, h, data);
}

/// A response claims an error only through the first byte of its header's
/// metadata: the status it gives is success unless that byte is the code
/// of another status, and a byte that is a status code gives that status.
pub proof fn lemma_header_status_from_first_byte(meta: Seq<u8>)
    ensures
        spec_header_status(meta) != RpcResultStatus::Success ==> meta.len() > 0
            && RpcResultStatus::spec_from_code(meta[0]) == Some(spec_header_status(meta)),
        meta.len() > 0 && RpcResultStatus::spec_from_code(meta[0]) is Some ==> Some(
            spec_header_status(meta),
        ) == RpcResultStatus::spec_from_code(meta[0]),
{
}

/// A response without a status succeeds: when the header of a whole
/// response carries no metadata (as one sent with no result status), the
/// caller gets every non-empty payload in order, then the channel closes,
/// and the buffered outcome is exactly the response's bytes.
pub proof fn lemma_statusless_response_succeeds(s: ResponseStreamView, h: SpecRpcHeader, ps: Seq<Seq<u8>>)
    requires
        s.status is None,
        s.error_buffer == Seq::<u8>::empty(),
        s.sender_open,
        !s.ready_pending,
        h.rpc_metadata_bytes.len() == 0,
    ensures
        ({
            let es = seq![header_event(h)] + spec_chunk_events(h, ps) + seq![end_event(h)];
            let acts = spec_response_run(s, es).1;
            &&& acts == spec_sends(ps).push(SpecReceiverAction::Close)
            &&& spec_collect_buffered(spec_channel_items(acts)) == Ok::<Seq<u8>, SpecCallerError>(
                ps.flatten(),
            )
        }),
{
    lemma_header_status_from_first_byte(h.rpc_metadata_bytes);
    lemma_response_delivery(s, h, ps);
}

proof fn lemma_sends_collect(ps: Seq<Seq<u8>>)
    ensures
        spec_collect_buffered(spec_channel_items(spec_sends(ps))) == Ok::<Seq<u8>, SpecCallerError>(ps.flatten()),
    decreases ps.len(),
{
    broadcast use Seq::lemma_flatten_push;

    if ps.len() == 0 {
    } else {
        lemma_sends_collect(ps.drop_last());
        assert(ps.drop_last().push(ps.last()) =~= ps);
        if ps.last().len() == 0 {
            assert(ps.drop_last().flatten() + ps.last() =~= ps.drop_last().flatten());
        } else {
            let a = spec_sends(ps.drop_last());
            let x = SpecReceiverAction::Send(Ok(ps.last()));
            assert(a.push(x).drop_last() =~= a);
            lemma_collect_push(spec_channel_items(a), Ok(ps.last()));
        }
    }
}

proof fn lemma_response_prefix(s: ResponseStreamView, h: SpecRpcHeader, ps: Seq<Seq<u8>>, j: nat)
    requires
        s.status is None,
        s.error_buffer == Seq::<u8>::empty(),
        s.sender_open,
        !s.ready_pending,
        j <= ps.len(),
    ensures
        ({
            let status = spec_header_status(h.rpc_metadata_bytes);
            let r = spec_response_run(s, seq![header_event(h)] + spec_chunk_events(h, ps.take(j as int)));
            &&& r.0.status == Some(status)
            &&& r.0.sender_open
            &&& status == RpcResultStatus::Success ==> r.0.error_buffer == Seq::<u8>::empty()
                && r.1 == spec_sends(ps.take(j as int))
            &&& status != RpcResultStatus::Success ==> r.0.error_buffer == ps.take(j as int).flatten()
                && r.1 == Seq::<SpecReceiverAction>::empty()
        }),
    decreases j,
{
    let status = spec_header_status(h.rpc_metadata_bytes);
    if j == 0 {
        assert(ps.take(0) =~= Seq::<Seq<u8>>::empty());
        let es = seq![header_event(h)];
        assert(seq![header_event(h)] + Seq::<SpecStreamEvent>::empty() =~= es);
        assert(es.drop_last() =~= Seq::<SpecStreamEvent>::empty());
        assert(spec_response_run(s, Seq::<SpecStreamEvent>::empty()) == (s, Seq::<SpecReceiverAction>::empty()));
        assert(Seq::<SpecReceiverAction>::empty() + Seq::<SpecReceiverAction>::empty()
            =~= Seq::<SpecReceiverAction>::empty());
        assert(Seq::<Seq<u8>>::empty().flatten() =~= Seq::<u8>::empty());
    } else {
        lemma_response_prefix(s, h, ps, (j - 1) as nat);
        let i = j - 1;
        let a = ps.take(i as int);
        assert(ps.take(j as int).drop_last() =~= a);
        assert(ps.take(j as int).last() == ps[i as int]);
        assert(a.push(ps[i as int]) =~= ps.take(j as int));
        broadcast use Seq::lemma_flatten_push;
        let pre = seq![header_event(h)] + spec_chunk_events(h, a);
        let prev = spec_response_run(s, pre);
        if ps[i as int].len() == 0 {
            assert(spec_chunk_events(h, ps.take(j as int)) == spec_chunk_events(h, a));
            assert(a.flatten() + ps[i as int] =~= a.flatten());
        } else {
            let e = SpecStreamEvent::PayloadChunk {
                rpc_request_id: h.rpc_request_id,
                rpc_method_id: h.rpc_method_id,
                bytes: ps[i as int],
                rpc_header: h,
            };
            let es = seq![header_event(h)] + spec_chunk_events(h, ps.take(j as int));
            assert(es =~= pre.push(e));
            assert(es.drop_last() =~= pre);
            if status == RpcResultStatus::Success {
                assert(prev.1 + seq![SpecReceiverAction::Send(Ok(ps[i as int]))] =~= spec_sends(a).push(
                    SpecReceiverAction::Send(Ok(ps[i as int])),
                ));
            } else {
                assert(prev.1 + Seq::<SpecReceiverAction>::empty() =~= Seq::<SpecReceiverAction>::empty());
            }
        }
    }
}

} // verus!
