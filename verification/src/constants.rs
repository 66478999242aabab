use vstd::prelude::*;

verus! {

/// Size of the payload length field that starts every frame.
pub const FRAME_LENGTH_FIELD_SIZE: usize = 4;

/// Offset of the 32-bit stream id in a frame.
pub const FRAME_STREAM_ID_OFFSET: usize = 4;

/// Offset of the 32-bit sequence id in a frame.
pub const FRAME_SEQ_ID_OFFSET: usize = 8;

/// Offset of the kind byte in a frame.
pub const FRAME_KIND_OFFSET: usize = 12;

/// Offset of the 64-bit timestamp in a frame.
pub const FRAME_TIMESTAMP_OFFSET: usize = 13;

/// Size of the fixed part of a frame, before the payload.
pub const FRAME_HEADER_SIZE: usize = 21;

/// Byte offset where the metadata length field (u16) of an RPC header begins.
pub const RPC_FRAME_METADATA_LENGTH_OFFSET: usize = 13;

/// Byte offset where the 8-byte method id (u64) of an RPC header begins.
pub const RPC_FRAME_METHOD_ID_OFFSET: usize = 5;

/// Byte offset where the 4-byte request id (u32) of an RPC header begins.
pub const RPC_FRAME_ID_OFFSET: usize = 1;

/// Byte offset of the 1-byte message type of an RPC header.
pub const RPC_FRAME_MSG_TYPE_OFFSET: usize = 0;

/// Size in bytes of the method id field (u64).
pub const RPC_FRAME_METHOD_ID_SIZE: usize = 8;

/// Size in bytes of the metadata length field (u16).
pub const RPC_FRAME_METADATA_LENGTH_SIZE: usize = 2;

/// Total size of the fixed-length RPC header prefix before the metadata.
pub const RPC_FRAME_FRAME_HEADER_SIZE: usize = RPC_FRAME_METADATA_LENGTH_OFFSET
    + RPC_FRAME_METADATA_LENGTH_SIZE;

} // verus!
