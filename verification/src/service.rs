use vstd::prelude::*;
use vstd::slice::slice_to_vec;
use vstd::string::StringSliceAdditionalSpecFns;

use crate::dispatcher::{RpcRequest, SpecRpcRequest};

verus! {

/// Largest chunk in which services send payloads; arguments at least this
/// long travel as payload rather than as header metadata.
pub const DEFAULT_SERVICE_MAX_CHUNK_SIZE: usize = 65536;

/// Capacity of a bounded channel of response chunks.
pub const DEFAULT_RPC_STREAM_CHANNEL_BUFFER_SIZE: usize = 8;

/// The outcome of a call, carried as the one metadata byte of a response
/// header.
#[derive(Debug, Clone, Copy, PartialEq, Eq, Structural)]
pub enum RpcResultStatus {
    Success,
    Fail,
    SystemError,
    MethodNotFound,
}

impl RpcResultStatus {
    /// The byte of a status.
    pub open spec fn spec_code(self) -> u8 {
        match self {
            RpcResultStatus::Success => 0,
            RpcResultStatus::Fail => 1,
            RpcResultStatus::SystemError => 2,
            RpcResultStatus::MethodNotFound => 3,
        }
    }

    /// The status a byte stands for, if any.
    pub open spec fn spec_from_code(b: u8) -> Option<RpcResultStatus> {
        if b == 0 {
            Some(RpcResultStatus::Success)
        } else if b == 1 {
            Some(RpcResultStatus::Fail)
        } else if b == 2 {
            Some(RpcResultStatus::SystemError)
        } else if b == 3 {
            Some(RpcResultStatus::MethodNotFound)
        } else {
            None
        }
    }

    /// The byte of a status.
    pub fn code(&self) -> (b: u8)
        ensures
            b == self.spec_code(),
    {
        match self {
            RpcResultStatus::Success => 0,
            RpcResultStatus::Fail => 1,
            RpcResultStatus::SystemError => 2,
            RpcResultStatus::MethodNotFound => 3,
        }
    }

    /// Reads a status from its byte; bytes above 3 are refused.
    pub fn try_from_u8(b: u8) -> (r: Result<RpcResultStatus, ()>)
        ensures
            r is Ok <==> b <= 3,
            r matches Ok(s) ==> Some(s) == RpcResultStatus::spec_from_code(b) && s.spec_code() == b,
    {
        if b == 0 {
            Ok(RpcResultStatus::Success)
        } else if b == 1 {
            Ok(RpcResultStatus::Fail)
        } else if b == 2 {
            Ok(RpcResultStatus::SystemError)
        } else if b == 3 {
            Ok(RpcResultStatus::MethodNotFound)
        } else {
            Err(())
        }
    }
}

/// Reading back the byte of a status gives the status again.
pub proof fn lemma_result_status_roundtrip(s: RpcResultStatus)
    ensures
        RpcResultStatus::spec_from_code(s.spec_code()) == Some(s),
{
}

/// The 64-bit XXH3 hash (seed 0) of a byte string.
pub uninterp spec fn spec_xxh3_64(data: Seq<u8>) -> u64;

/// Hashes bytes with `xxhash_rust::const_xxh3::xxh3_64`, the 64-bit XXH3
/// hash with seed 0. The hash is a function of the bytes alone (the same
/// on every platform), so its result is named `spec_xxh3_64`; nothing more
/// is claimed of it.
#[verifier::external_body]
fn xxh3_64(data: &[u8]) -> (h: u64)
    ensures
        h == spec_xxh3_64(data@),
{
    xxhash_rust::const_xxh3::xxh3_64(data)
}

/// The id of the method called `name`: the XXH3 hash of its UTF-8 bytes.
pub fn rpc_method_id(name: &str) -> (id: u64)
    ensures
        id == spec_xxh3_64(name.spec_bytes()),
{
    xxh3_64(name.as_bytes())
}

/// Where the encoded arguments of a prebuffered call travel: as header
/// metadata when shorter than a chunk, otherwise as the stream's payload
/// (a header's metadata is limited in size). The request is complete.
pub open spec fn spec_prebuffered_request(method_id: u64, args: Seq<u8>) -> SpecRpcRequest {
    if args.len() >= DEFAULT_SERVICE_MAX_CHUNK_SIZE {
        SpecRpcRequest {
            rpc_method_id: method_id,
            rpc_param_bytes: None,
            rpc_prebuffered_payload_bytes: Some(args),
            is_finalized: true,
        }
    } else {
        SpecRpcRequest {
            rpc_method_id: method_id,
            rpc_param_bytes: Some(args),
            rpc_prebuffered_payload_bytes: None,
            is_finalized: true,
        }
    }
}

/// Builds the request of a prebuffered call from its encoded arguments
/// (see `spec_prebuffered_request`).
pub fn prebuffered_request(method_id: u64, encoded_args: Vec<u8>) -> (r: RpcRequest)
    ensures
        r@ == spec_prebuffered_request(method_id, encoded_args@),
{
    if encoded_args.len() >= DEFAULT_SERVICE_MAX_CHUNK_SIZE {
        RpcRequest {
            rpc_method_id: method_id,
            rpc_param_bytes: None,
            rpc_prebuffered_payload_bytes: Some(encoded_args),
            is_finalized: true,
        }
    } else {
        RpcRequest {
            rpc_method_id: method_id,
            rpc_param_bytes: Some(encoded_args),
            rpc_prebuffered_payload_bytes: None,
            is_finalized: true,
        }
    }
}

/// Arguments placed by `prebuffered_request` always fit a header and are
/// found again where the endpoint looks for them: the payload when it is
/// not empty, else the parameters.
pub proof fn lemma_prebuffered_args_found(method_id: u64, args: Seq<u8>)
    ensures
        ({
            let r = spec_prebuffered_request(method_id, args);
            &&& r.rpc_param_bytes matches Some(p) ==> p.len() <= u16::MAX
            &&& crate::endpoint::spec_handler_args(r) == args
        }),
{
}

/// The id of the method called `name`.
pub open spec fn spec_method_id(name: &str) -> u64 {
    spec_xxh3_64(name.spec_bytes())
}

/// The `math.add` method: adds a list of numbers.
pub struct Add;

impl Add {
    /// The id of `math.add`.
    pub fn method_id() -> (id: u64)
        ensures
            id == spec_method_id("math.add"),
    {
        rpc_method_id("math.add")
    }
}

/// The `math.mult` method: multiplies a list of numbers.
pub struct Mult;

impl Mult {
    /// The id of `math.mult`.
    pub fn method_id() -> (id: u64)
        ensures
            id == spec_method_id("math.mult"),
    {
        rpc_method_id("math.mult")
    }
}

/// The `echo` method: answers with its arguments.
pub struct Echo;

impl Echo {
    /// The id of `echo`.
    pub fn method_id() -> (id: u64)
        ensures
            id == spec_method_id("echo"),
    {
        rpc_method_id("echo")
    }

    /// The request bytes of an echo: the input itself.
    pub fn encode_request(input: Vec<u8>) -> (r: Vec<u8>)
        ensures
            r@ == input@,
    {
        input
    }

    /// The input of an echo request: its bytes.
    pub fn decode_request(bytes: &[u8]) -> (r: Vec<u8>)
        ensures
            r@ == bytes@,
    {
        slice_to_vec(bytes)
    }

    /// The response bytes of an echo: the output itself.
    pub fn encode_response(output: Vec<u8>) -> (r: Vec<u8>)
        ensures
            r@ == output@,
    {
        output
    }

    /// The output of an echo response: its bytes.
    pub fn decode_response(bytes: &[u8]) -> (r: Vec<u8>)
        ensures
            r@ == bytes@,
    {
        slice_to_vec(bytes)
    }
}

} // verus!
