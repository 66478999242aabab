use vstd::bytes::{
    spec_u16_from_le_bytes, spec_u16_to_le_bytes, spec_u32_from_le_bytes, spec_u32_to_le_bytes,
    spec_u64_from_le_bytes, spec_u64_to_le_bytes, u16_from_le_bytes, u16_to_le_bytes,
    u32_from_le_bytes, u32_to_le_bytes, u64_from_le_bytes, u64_to_le_bytes,
};
use vstd::prelude::*;
use vstd::slice::{slice_subrange, slice_to_vec};

use crate::constants::{
    RPC_FRAME_FRAME_HEADER_SIZE, RPC_FRAME_ID_OFFSET, RPC_FRAME_METADATA_LENGTH_OFFSET,
    RPC_FRAME_METHOD_ID_OFFSET,
};
use crate::frame::FrameEncodeError;

verus! {

broadcast use vstd::seq_lib::group_seq_properties;

/// What an RPC stream carries.
#[derive(Debug, Clone, Copy, PartialEq, Eq, Structural)]
pub enum RpcMessageType {
    Call,
    Response,
    Event,
}

impl RpcMessageType {
    /// The byte that stands for the message type on the wire.
    pub open spec fn spec_code(self) -> u8 {
        match self {
            RpcMessageType::Call => 1,
            RpcMessageType::Response => 2,
            RpcMessageType::Event => 3,
        }
    }

    /// The message type a byte stands for, if any.
    pub open spec fn spec_from_code(code: u8) -> Option<RpcMessageType> {
        if code == 1 {
            Some(RpcMessageType::Call)
        } else if code == 2 {
            Some(RpcMessageType::Response)
        } else if code == 3 {
            Some(RpcMessageType::Event)
        } else {
            None
        }
    }

    /// The byte that stands for the message type on the wire.
    pub fn code(&self) -> (c: u8)
        ensures
            c == self.spec_code(),
    {
        match self {
            RpcMessageType::Call => 1,
            RpcMessageType::Response => 2,
            RpcMessageType::Event => 3,
        }
    }

    /// Reads a message type from its byte.
    pub fn from_code(code: u8) -> (r: Option<RpcMessageType>)
        ensures
            r == RpcMessageType::spec_from_code(code),
    {
        if code == 1 {
            Some(RpcMessageType::Call)
        } else if code == 2 {
            Some(RpcMessageType::Response)
        } else if code == 3 {
            Some(RpcMessageType::Event)
        } else {
            None
        }
    }
}

/// The header that opens every RPC stream, as a mathematical value.
pub struct SpecRpcHeader {
    pub rpc_msg_type: RpcMessageType,
    pub rpc_request_id: u32,
    pub rpc_method_id: u64,
    pub rpc_metadata_bytes: Seq<u8>,
}

/// The header that opens every RPC stream: message type, the request id
/// that correlates a response with its call, the method id, and metadata
/// (call parameters, or the result status of a response).
#[derive(Debug)]
pub struct RpcHeader {
    pub rpc_msg_type: RpcMessageType,
    pub rpc_request_id: u32,
    pub rpc_method_id: u64,
    pub rpc_metadata_bytes: Vec<u8>,
}

impl View for RpcHeader {
    type V = SpecRpcHeader;

    open spec fn view(&self) -> SpecRpcHeader {
        SpecRpcHeader {
            rpc_msg_type: self.rpc_msg_type,
            rpc_request_id: self.rpc_request_id,
            rpc_method_id: self.rpc_method_id,
            rpc_metadata_bytes: self.rpc_metadata_bytes@,
        }
    }
}

impl RpcHeader {
    /// A copy of the header, equal to it.
    pub fn duplicate(&self) -> (h: RpcHeader)
        ensures
            h@ == self@,
    {
        RpcHeader {
            rpc_msg_type: self.rpc_msg_type,
            rpc_request_id: self.rpc_request_id,
            rpc_method_id: self.rpc_method_id,
            rpc_metadata_bytes: slice_to_vec(self.rpc_metadata_bytes.as_slice()),
        }
    }
}

/// A header can be written when its metadata length fits the 16-bit field.
pub open spec fn header_fits(h: SpecRpcHeader) -> bool {
    h.rpc_metadata_bytes.len() <= u16::MAX
}

/// The bytes of a header: type byte, request id (u32), method id (u64),
/// metadata length (u16), all little-endian, then the metadata.
pub open spec fn spec_header_bytes(h: SpecRpcHeader) -> Seq<u8> {
    seq![h.rpc_msg_type.spec_code()] + spec_u32_to_le_bytes(h.rpc_request_id)
        + spec_u64_to_le_bytes(h.rpc_method_id) + spec_u16_to_le_bytes(
        h.rpc_metadata_bytes.len() as u16,
    ) + h.rpc_metadata_bytes
}

/// How far a buffer that starts a stream goes towards a header.
pub enum SpecHeaderScan {
    /// More bytes are needed.
    NeedMore,
    /// The type byte is unknown.
    Invalid,
    /// A header, and the number of bytes it takes.
    Complete(SpecRpcHeader, int),
}

/// The metadata length announced by a buffer that holds the fixed header part.
pub open spec fn spec_announced_metadata_len(buf: Seq<u8>) -> u16 {
    spec_u16_from_le_bytes(buf.subrange(13, 15))
}

/// Reads a header from the start of a buffer.
pub open spec fn spec_scan_header(buf: Seq<u8>) -> SpecHeaderScan {
    if buf.len() < 15 {
        SpecHeaderScan::NeedMore
    } else {
        match RpcMessageType::spec_from_code(buf[0]) {
            None => SpecHeaderScan::Invalid,
            Some(t) => {
                let n = spec_announced_metadata_len(buf);
                if buf.len() < 15 + n {
                    SpecHeaderScan::NeedMore
                } else {
                    SpecHeaderScan::Complete(
                        SpecRpcHeader {
                            rpc_msg_type: t,
                            rpc_request_id: spec_u32_from_le_bytes(buf.subrange(1, 5)),
                            rpc_method_id: spec_u64_from_le_bytes(buf.subrange(5, 13)),
                            rpc_metadata_bytes: buf.subrange(15, 15 + n),
                        },
                        15 + n,
                    )
                }
            },
        }
    }
}

/// Reading a header back from its bytes, whatever follows them, gives the
/// header and the length of its bytes.
pub proof fn lemma_header_roundtrip(h: SpecRpcHeader, tail: Seq<u8>)
    requires
        header_fits(h),
    ensures
        spec_scan_header(spec_header_bytes(h) + tail) == SpecHeaderScan::Complete(
            h,
            spec_header_bytes(h).len() as int,
        ),
        spec_header_bytes(h).len() == 15 + h.rpc_metadata_bytes.len(),
{
    vstd::bytes::lemma_auto_spec_u16_to_from_le_bytes();
    vstd::bytes::lemma_auto_spec_u32_to_from_le_bytes();
    vstd::bytes::lemma_auto_spec_u64_to_from_le_bytes();
    let hb = spec_header_bytes(h);
    let b = hb + tail;
    let n = h.rpc_metadata_bytes.len() as u16;
    let t = seq![h.rpc_msg_type.spec_code()];
    let r = spec_u32_to_le_bytes(h.rpc_request_id);
    let m = spec_u64_to_le_bytes(h.rpc_method_id);
    let l = spec_u16_to_le_bytes(n);
    assert(hb == t + r + m + l + h.rpc_metadata_bytes);
    assert(b[0] == h.rpc_msg_type.spec_code());
    assert(b.subrange(1, 5) =~= r);
    assert(b.subrange(5, 13) =~= m);
    assert(b.subrange(13, 15) =~= l);
    assert(spec_announced_metadata_len(b) == n);
    assert(b.subrange(15, 15 + n) =~= h.rpc_metadata_bytes);
    assert(RpcMessageType::spec_from_code(h.rpc_msg_type.spec_code()) == Some(h.rpc_msg_type));
}

/// Writes a header as bytes; metadata longer than its 16-bit length field
/// can announce is refused.
pub fn encode_header(h: &RpcHeader) -> (r: Result<Vec<u8>, FrameEncodeError>)
    ensures
        header_fits(h@) <==> r is Ok,
        r matches Ok(bytes) ==> bytes@ == spec_header_bytes(h@),
        r matches Err(e) ==> e == FrameEncodeError::CorruptFrame,
{
    if h.rpc_metadata_bytes.len() > 0xffffusize {
        return Err(FrameEncodeError::CorruptFrame);
    }
    let mut out: Vec<u8> = Vec::new();
    out.push(h.rpc_msg_type.code());
    let mut part = u32_to_le_bytes(h.rpc_request_id);
    out.append(&mut part);
    let mut part = u64_to_le_bytes(h.rpc_method_id);
    out.append(&mut part);
    let mut part = u16_to_le_bytes(h.rpc_metadata_bytes.len() as u16);
    out.append(&mut part);
    let mut meta = slice_to_vec(h.rpc_metadata_bytes.as_slice());
    out.append(&mut meta);
    assert(out@ =~= spec_header_bytes(h@));
    Ok(out)
}

/// How far a buffer goes towards a header.
pub enum HeaderScan {
    NeedMore,
    Invalid,
    /// The header, and the number of bytes it takes.
    Complete(RpcHeader, usize),
}

/// Whether an executable scan outcome is the mathematical one.
pub open spec fn header_scan_matches(r: HeaderScan, s: SpecHeaderScan) -> bool {
    match (r, s) {
        (HeaderScan::NeedMore, SpecHeaderScan::NeedMore) => true,
        (HeaderScan::Invalid, SpecHeaderScan::Invalid) => true,
        (HeaderScan::Complete(h, n), SpecHeaderScan::Complete(sh, sn)) => h@ == sh && n == sn,
        _ => false,
    }
}

/// Reads a header from the start of a buffer.
pub fn scan_header(buf: &[u8]) -> (r: HeaderScan)
    ensures
        header_scan_matches(r, spec_scan_header(buf@)),
{
    if buf.len() < RPC_FRAME_FRAME_HEADER_SIZE {
        return HeaderScan::NeedMore;
    }
    let t = match RpcMessageType::from_code(buf[0]) {
        Some(t) => t,
        None => {
            return HeaderScan::Invalid;
        },
    };
    let n = u16_from_le_bytes(
        slice_subrange(buf, RPC_FRAME_METADATA_LENGTH_OFFSET, RPC_FRAME_FRAME_HEADER_SIZE),
    );
    assert(spec_announced_metadata_len(buf@) == n);
    if buf.len() - RPC_FRAME_FRAME_HEADER_SIZE < n as usize {
        return HeaderScan::NeedMore;
    }
    let id = u32_from_le_bytes(slice_subrange(buf, RPC_FRAME_ID_OFFSET, RPC_FRAME_METHOD_ID_OFFSET));
    let method = u64_from_le_bytes(
        slice_subrange(buf, RPC_FRAME_METHOD_ID_OFFSET, RPC_FRAME_METADATA_LENGTH_OFFSET),
    );
    let end = RPC_FRAME_FRAME_HEADER_SIZE + n as usize;
    let meta = slice_to_vec(slice_subrange(buf, RPC_FRAME_FRAME_HEADER_SIZE, end));
    HeaderScan::Complete(
        RpcHeader {
            rpc_msg_type: t,
            rpc_request_id: id,
            rpc_method_id: method,
            rpc_metadata_bytes: meta,
        },
        end,
    )
}

} // verus!
