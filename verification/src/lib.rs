//! A multiplexed binary framing layer with a small RPC protocol on top.
//!
//! Bytes travel as frames (`frame`), RPC streams start with a header
//! (`rpc_header`), outgoing streams are cut into frames by a stream encoder
//! (`stream_encoder`), and incoming frames are reassembled per stream
//! (`stream_decoder`, `session`). The respondable session routes stream
//! events to per-request handlers, and the dispatcher keeps the queue of
//! inbound requests. On top of these, `service` names methods, `endpoint`
//! serves prebuffered and streamed requests, and `caller` and `channel`
//! turn response streams into what a caller receives.
//!
//! Nothing here calls a handler: reading bytes returns each event together
//! with the handler it is for, and the caller of the library runs it.

pub mod constants;
pub mod frame;
pub mod ids;
pub mod rpc_header;
pub mod stream_encoder;
pub mod stream_decoder;
pub mod session;
pub mod respondable;
pub mod dispatcher;
pub mod service;
pub mod endpoint;
pub mod caller;
pub mod testing;
pub mod channel;
