use vstd::bytes::{
    spec_u32_from_le_bytes, spec_u32_to_le_bytes, spec_u64_from_le_bytes, spec_u64_to_le_bytes,
    u32_from_le_bytes, u32_to_le_bytes, u64_from_le_bytes, u64_to_le_bytes,
};
use vstd::prelude::*;
use vstd::slice::{slice_subrange, slice_to_vec};

use crate::constants::{
    FRAME_HEADER_SIZE, FRAME_KIND_OFFSET, FRAME_LENGTH_FIELD_SIZE, FRAME_SEQ_ID_OFFSET,
    FRAME_STREAM_ID_OFFSET, FRAME_TIMESTAMP_OFFSET,
};

verus! {

broadcast use vstd::seq_lib::group_seq_properties;

/// Errors raised while cutting a stream into frames.
#[derive(Debug, Clone, Copy, PartialEq, Eq, Structural)]
pub enum FrameEncodeError {
    CorruptFrame,
    /// Attempted to write to a stream that has already ended.
    WriteAfterEnd,
    /// Attempted to write to a stream that was canceled prematurely.
    WriteAfterCancel,
}

impl FrameEncodeError {
    /// The human-readable text of the error.
    pub open spec fn spec_message(self) -> Seq<char> {
        match self {
            FrameEncodeError::CorruptFrame => "Corrupt frame"@,
            FrameEncodeError::WriteAfterEnd => "Write after stream ended"@,
            FrameEncodeError::WriteAfterCancel => "Write after stream cancelled"@,
        }
    }

    /// Renders the error as text.
    pub fn to_string(&self) -> (s: String)
        ensures
            s@ == self.spec_message(),
    {
        match self {
            FrameEncodeError::CorruptFrame => String::from_str("Corrupt frame"),
            FrameEncodeError::WriteAfterEnd => String::from_str("Write after stream ended"),
            FrameEncodeError::WriteAfterCancel => String::from_str("Write after stream cancelled"),
        }
    }
}

/// Errors raised while reading frames and streams.
#[derive(Debug, Clone, PartialEq)]
pub enum FrameDecodeError {
    CorruptFrame,
    /// Attempted to read from a stream that has already ended.
    ReadAfterEnd,
    /// Attempted to read from a stream that was canceled prematurely.
    ReadAfterCancel,
    IncompleteHeader,
    /// Transport-level I/O error carrying the text of the underlying error,
    /// so that failed requests surface the root cause of a disconnect.
    Transport(String),
}

impl FrameDecodeError {
    /// The human-readable text of the error.
    pub open spec fn spec_message(self) -> Seq<char> {
        match self {
            FrameDecodeError::CorruptFrame => "Corrupt frame detected"@,
            FrameDecodeError::ReadAfterEnd => "Attempted to read from a stream that has already ended"@,
            FrameDecodeError::ReadAfterCancel => "Attempted to read from a cancelled stream"@,
            FrameDecodeError::IncompleteHeader => "Incomplete frame header received"@,
            FrameDecodeError::Transport(msg) => "Transport error: "@ + msg@,
        }
    }

    /// Renders the error as text.
    pub fn to_string(&self) -> (s: String)
        ensures
            s@ == self.spec_message(),
    {
        match self {
            FrameDecodeError::CorruptFrame => String::from_str("Corrupt frame detected"),
            FrameDecodeError::ReadAfterEnd => String::from_str(
                "Attempted to read from a stream that has already ended",
            ),
            FrameDecodeError::ReadAfterCancel => String::from_str(
                "Attempted to read from a cancelled stream",
            ),
            FrameDecodeError::IncompleteHeader => String::from_str(
                "Incomplete frame header received",
            ),
            FrameDecodeError::Transport(msg) => String::from_str("Transport error: ").concat(
                msg.as_str(),
            ),
        }
    }

    /// A copy of the error, equal to it.
    pub fn duplicate(&self) -> (e: FrameDecodeError)
        ensures
            e == *self,
    {
        match self {
            FrameDecodeError::CorruptFrame => FrameDecodeError::CorruptFrame,
            FrameDecodeError::ReadAfterEnd => FrameDecodeError::ReadAfterEnd,
            FrameDecodeError::ReadAfterCancel => FrameDecodeError::ReadAfterCancel,
            FrameDecodeError::IncompleteHeader => FrameDecodeError::IncompleteHeader,
            FrameDecodeError::Transport(msg) => FrameDecodeError::Transport(msg.clone()),
        }
    }
}

/// The kind of a frame, carried as one byte in the frame header.
#[derive(Debug, Clone, Copy, PartialEq, Eq, Structural)]
pub enum FrameKind {
    Open,
    Data,
    End,
    Cancel,
    Pong,
    Ping,
}

impl FrameKind {
    /// The byte that stands for this kind on the wire.
    pub open spec fn spec_code(self) -> u8 {
        match self {
            FrameKind::Open => 0,
            FrameKind::Data => 1,
            FrameKind::End => 2,
            FrameKind::Cancel => 3,
            FrameKind::Pong => 4,
            FrameKind::Ping => 5,
        }
    }

    /// The kind a byte stands for, if any.
    pub open spec fn spec_from_code(code: u8) -> Option<FrameKind> {
        if code == 0 {
            Some(FrameKind::Open)
        } else if code == 1 {
            Some(FrameKind::Data)
        } else if code == 2 {
            Some(FrameKind::End)
        } else if code == 3 {
            Some(FrameKind::Cancel)
        } else if code == 4 {
            Some(FrameKind::Pong)
        } else if code == 5 {
            Some(FrameKind::Ping)
        } else {
            None
        }
    }

    /// The byte that stands for this kind on the wire.
    pub fn code(&self) -> (c: u8)
        ensures
            c == self.spec_code(),
    {
        match self {
            FrameKind::Open => 0,
            FrameKind::Data => 1,
            FrameKind::End => 2,
            FrameKind::Cancel => 3,
            FrameKind::Pong => 4,
            FrameKind::Ping => 5,
        }
    }

    /// Reads a kind from its byte; every byte above 5 is refused.
    pub fn try_from_u8(value: u8) -> (r: Result<FrameKind, ()>)
        ensures
            r is Ok <==> value <= 5,
            r matches Ok(k) ==> k.spec_code() == value && Some(k) == FrameKind::spec_from_code(
                value,
            ),
            r is Err ==> FrameKind::spec_from_code(value) is None,
    {
        match value {
            0 => Ok(FrameKind::Open),
            1 => Ok(FrameKind::Data),
            2 => Ok(FrameKind::End),
            3 => Ok(FrameKind::Cancel),
            4 => Ok(FrameKind::Pong),
            5 => Ok(FrameKind::Ping),
            _ => Err(()),
        }
    }
}

/// Reading back the byte of a kind gives the kind again.
pub proof fn lemma_frame_kind_code_roundtrip(kind: FrameKind)
    ensures
        FrameKind::spec_from_code(kind.spec_code()) == Some(kind),
        kind.spec_code() <= 5,
{
}

/// One frame as a mathematical value.
pub struct SpecFrame {
    pub stream_id: u32,
    pub seq_id: u32,
    pub kind: FrameKind,
    pub timestamp: u64,
    pub payload: Seq<u8>,
}

/// One frame of a multiplexed connection: a chunk of one stream.
#[derive(Debug)]
pub struct Frame {
    pub stream_id: u32,
    pub seq_id: u32,
    pub kind: FrameKind,
    /// Microseconds since the Unix epoch at which the frame was made.
    pub timestamp: u64,
    pub payload: Vec<u8>,
}

impl View for Frame {
    type V = SpecFrame;

    open spec fn view(&self) -> SpecFrame {
        SpecFrame {
            stream_id: self.stream_id,
            seq_id: self.seq_id,
            kind: self.kind,
            timestamp: self.timestamp,
            payload: self.payload@,
        }
    }
}

/// A frame can be written when its payload length fits the 32-bit length field.
pub open spec fn frame_fits(f: SpecFrame) -> bool {
    f.payload.len() <= u32::MAX
}

/// The bytes of one frame: payload length, stream id, sequence id (all
/// 32-bit little-endian), the kind byte, the 64-bit little-endian timestamp,
/// then the payload.
pub open spec fn spec_frame_bytes(f: SpecFrame) -> Seq<u8> {
    spec_u32_to_le_bytes(f.payload.len() as u32) + spec_u32_to_le_bytes(f.stream_id)
        + spec_u32_to_le_bytes(f.seq_id) + seq![f.kind.spec_code()] + spec_u64_to_le_bytes(
        f.timestamp,
    ) + f.payload
}

/// Every frame costs 21 bytes beyond its payload: the 4-byte length field,
/// then 17 bytes of stream id, sequence id, kind and timestamp.
pub proof fn lemma_frame_overhead(f: SpecFrame)
    ensures
        spec_frame_bytes(f).len() == 21 + f.payload.len(),
{
    vstd::bytes::lemma_auto_spec_u32_to_from_le_bytes();
    vstd::bytes::lemma_auto_spec_u64_to_from_le_bytes();
}

/// The bytes of several frames, one after the other.
pub open spec fn spec_frames_bytes(fs: Seq<SpecFrame>) -> Seq<u8>
    decreases fs.len(),
{
    if fs.len() == 0 {
        Seq::empty()
    } else {
        spec_frame_bytes(fs[0]) + spec_frames_bytes(fs.drop_first())
    }
}

/// The payload length announced by a buffer that holds at least a length field.
pub open spec fn spec_announced_len(buf: Seq<u8>) -> u32 {
    spec_u32_from_le_bytes(buf.subrange(0, 4))
}

/// The frame at the start of a buffer that holds it whole, if its kind byte
/// is valid.
pub open spec fn spec_frame_at_start(buf: Seq<u8>) -> Option<SpecFrame> {
    let len = spec_announced_len(buf);
    match FrameKind::spec_from_code(buf[12]) {
        Some(kind) => Some(
            SpecFrame {
                stream_id: spec_u32_from_le_bytes(buf.subrange(4, 8)),
                seq_id: spec_u32_from_le_bytes(buf.subrange(8, 12)),
                kind,
                timestamp: spec_u64_from_le_bytes(buf.subrange(13, 21)),
                payload: buf.subrange(21, 21 + len),
            },
        ),
        None => None,
    }
}

/// Prepends decoded frames to the outcome of decoding what follows them.
pub open spec fn prepend_frames(
    fs: Seq<SpecFrame>,
    r: Option<(Seq<SpecFrame>, Seq<u8>)>,
) -> Option<(Seq<SpecFrame>, Seq<u8>)> {
    match r {
        Some((gs, rest)) => Some((fs + gs, rest)),
        None => None,
    }
}

/// Splits a byte buffer into the whole frames at its start and the bytes of
/// an incomplete frame that remain; `None` when a whole frame carries an
/// unknown kind byte.
pub open spec fn spec_parse_frames(buf: Seq<u8>) -> Option<(Seq<SpecFrame>, Seq<u8>)>
    decreases buf.len(),
{
    if buf.len() < 21 {
        Some((Seq::empty(), buf))
    } else if buf.len() < 21 + spec_announced_len(buf) {
        Some((Seq::empty(), buf))
    } else {
        match spec_frame_at_start(buf) {
            Some(f) => prepend_frames(
                seq![f],
                spec_parse_frames(buf.skip(21 + spec_announced_len(buf))),
            ),
            None => None,
        }
    }
}

/// Decoding the bytes of a frame followed by anything gives the frame,
/// then whatever the rest decodes to.
pub proof fn lemma_frame_bytes_parse(f: SpecFrame, tail: Seq<u8>)
    requires
        frame_fits(f),
    ensures
        spec_parse_frames(spec_frame_bytes(f) + tail) == prepend_frames(
            seq![f],
            spec_parse_frames(tail),
        ),
{
    vstd::bytes::lemma_auto_spec_u32_to_from_le_bytes();
    vstd::bytes::lemma_auto_spec_u64_to_from_le_bytes();
    let b = spec_frame_bytes(f) + tail;
    let len = f.payload.len() as u32;
    let l0 = spec_u32_to_le_bytes(len);
    let l1 = spec_u32_to_le_bytes(f.stream_id);
    let l2 = spec_u32_to_le_bytes(f.seq_id);
    let k = seq![f.kind.spec_code()];
    let t = spec_u64_to_le_bytes(f.timestamp);
    assert(spec_frame_bytes(f) == l0 + l1 + l2 + k + t + f.payload);
    assert(b.len() == 21 + f.payload.len() + tail.len());
    assert(b.subrange(0, 4) =~= l0);
    assert(b.subrange(4, 8) =~= l1);
    assert(b.subrange(8, 12) =~= l2);
    assert(b[12] == f.kind.spec_code());
    assert(b.subrange(13, 21) =~= t);
    assert(spec_announced_len(b) == len);
    assert(b.subrange(21, 21 + len) =~= f.payload);
    lemma_frame_kind_code_roundtrip(f.kind);
    assert(spec_frame_at_start(b) == Some(f));
    assert(b.skip(21 + len) =~= tail);
}

/// Decoding the bytes of a sequence of frames gives back exactly those
/// frames, with nothing left over.
pub proof fn lemma_frames_roundtrip(fs: Seq<SpecFrame>)
    requires
        forall|i: int| 0 <= i < fs.len() ==> frame_fits(#[trigger] fs[i]),
    ensures
        spec_parse_frames(spec_frames_bytes(fs)) == Some((fs, Seq::<u8>::empty())),
    decreases fs.len(),
{
    if fs.len() == 0 {
        assert(spec_frames_bytes(fs) =~= Seq::<u8>::empty());
    } else {
        let rest = fs.drop_first();
        assert forall|i: int| 0 <= i < rest.len() implies frame_fits(#[trigger] rest[i]) by {
            assert(rest[i] == fs[i + 1]);
        }
        lemma_frames_roundtrip(rest);
        assert(frame_fits(fs[0]));
        lemma_frame_bytes_parse(fs[0], spec_frames_bytes(rest));
        assert(seq![fs[0]] + rest =~= fs);
    }
}

/// Decoding is indifferent to how the bytes were cut: decoding `x` and then
/// the remainder followed by `y` gives the same frames and the same
/// remainder as decoding `x + y` at once.
pub proof fn lemma_parse_frames_append(x: Seq<u8>, y: Seq<u8>)
    ensures
        spec_parse_frames(x + y) == match spec_parse_frames(x) {
            Some((fs, rest)) => prepend_frames(fs, spec_parse_frames(rest + y)),
            None => None,
        },
    decreases x.len(),
{
    let xy = x + y;
    if x.len() < 21 || x.len() < 21 + spec_announced_len(x) {
        assert(seq![] + Seq::<SpecFrame>::empty() =~= Seq::<SpecFrame>::empty());
        match spec_parse_frames(xy) {
            Some((gs, rest)) => {
                assert(Seq::<SpecFrame>::empty() + gs =~= gs);
            },
            None => {},
        }
    } else {
        let len = spec_announced_len(x);
        assert(xy.subrange(0, 4) =~= x.subrange(0, 4));
        assert(spec_announced_len(xy) == len);
        assert(xy[12] == x[12]);
        assert(xy.subrange(4, 8) =~= x.subrange(4, 8));
        assert(xy.subrange(8, 12) =~= x.subrange(8, 12));
        assert(xy.subrange(13, 21) =~= x.subrange(13, 21));
        assert(xy.subrange(21, 21 + len) =~= x.subrange(21, 21 + len));
        assert(spec_frame_at_start(xy) == spec_frame_at_start(x));
        match spec_frame_at_start(x) {
            Some(f) => {
                let xs = x.skip(21 + len);
                assert(xy.skip(21 + len) =~= xs + y);
                lemma_parse_frames_append(xs, y);
                match spec_parse_frames(xs) {
                    Some((fs, rest)) => {
                        match spec_parse_frames(rest + y) {
                            Some((gs, r2)) => {
                                assert(seq![f] + (fs + gs) =~= (seq![f] + fs) + gs);
                            },
                            None => {},
                        }
                    },
                    None => {},
                }
            },
            None => {},
        }
    }
}

/// Writes a frame as bytes; a payload longer than the length field can
/// announce is refused.
pub fn encode_frame(frame: &Frame) -> (r: Result<Vec<u8>, FrameEncodeError>)
    ensures
        frame_fits(frame@) <==> r is Ok,
        r matches Ok(bytes) ==> bytes@ == spec_frame_bytes(frame@),
        r matches Err(e) ==> e == FrameEncodeError::CorruptFrame,
{
    if frame.payload.len() > 0xffff_ffffusize {
        return Err(FrameEncodeError::CorruptFrame);
    }
    let len = frame.payload.len() as u32;
    let mut out = u32_to_le_bytes(len);
    let mut part = u32_to_le_bytes(frame.stream_id);
    out.append(&mut part);
    let mut part = u32_to_le_bytes(frame.seq_id);
    out.append(&mut part);
    out.push(frame.kind.code());
    let mut part = u64_to_le_bytes(frame.timestamp);
    out.append(&mut part);
    let mut payload = slice_to_vec(frame.payload.as_slice());
    out.append(&mut payload);
    proof {
        assert(out@ =~= spec_frame_bytes(frame@));
    }
    Ok(out)
}

/// The views of a vector of frames.
pub open spec fn frames_view(fs: Seq<Frame>) -> Seq<SpecFrame> {
    fs.map_values(|f: Frame| f@)
}

/// Writes several frames one after the other.
pub fn encode_frames(frames: &Vec<Frame>) -> (r: Result<Vec<u8>, FrameEncodeError>)
    ensures
        (forall|i: int| 0 <= i < frames.len() ==> frame_fits(#[trigger] frames@[i]@)) <==> r is Ok,
        r matches Ok(bytes) ==> bytes@ == spec_frames_bytes(frames_view(frames@)),
        r matches Err(e) ==> e == FrameEncodeError::CorruptFrame,
{
    let mut out: Vec<u8> = Vec::new();
    let mut i: usize = 0;
    while i < frames.len()
        invariant
            i <= frames.len(),
            forall|j: int| 0 <= j < i ==> frame_fits(#[trigger] frames@[j]@),
            spec_frames_bytes(frames_view(frames@)) == out@ + spec_frames_bytes(
                frames_view(frames@).skip(i as int),
            ),
        decreases frames.len() - i,
    {
        let ghost rest = frames_view(frames@).skip(i as int);
        assert(rest[0] == frames@[i as int]@);
        assert(rest.drop_first() =~= frames_view(frames@).skip(i + 1));
        match encode_frame(&frames[i]) {
            Ok(mut bytes) => {
                out.append(&mut bytes);
            },
            Err(e) => {
                return Err(e);
            },
        }
        i = i + 1;
    }
    assert(frames_view(frames@).skip(i as int) =~= Seq::<SpecFrame>::empty());
    assert(out@ + Seq::<u8>::empty() =~= out@);
    Ok(out)
}

/// Reassembles frames from bytes that arrive in pieces of any size.
#[derive(Debug)]
pub struct FrameDecoder {
    buffer: Vec<u8>,
}

impl FrameDecoder {
    /// The bytes received that do not yet make a whole frame.
    pub closed spec fn pending(&self) -> Seq<u8> {
        self.buffer@
    }

    /// A decoder that has received nothing.
    pub fn new() -> (d: FrameDecoder)
        ensures
            d.pending() == Seq::<u8>::empty(),
    {
        FrameDecoder { buffer: Vec::new() }
    }

    /// Takes in received bytes and returns every frame they complete, in
    /// order. The bytes of a frame not yet complete are kept for the next
    /// call. A whole frame with an unknown kind byte is refused with
    /// `CorruptFrame`, and then all pending bytes are dropped, since the
    /// stream cannot be resynchronised.
    pub fn read_bytes(&mut self, bytes: &[u8]) -> (r: Result<Vec<Frame>, FrameDecodeError>)
        ensures
            match spec_parse_frames(old(self).pending() + bytes@) {
                Some((fs, rest)) => {
                    &&& r matches Ok(frames) && frames_view(frames@) == fs
                    &&& final(self).pending() == rest
                },
                None => {
                    &&& r == Err::<Vec<Frame>, FrameDecodeError>(FrameDecodeError::CorruptFrame)
                    &&& final(self).pending() == Seq::<u8>::empty()
                },
            },
    {
        let mut incoming = slice_to_vec(bytes);
        self.buffer.append(&mut incoming);
        let ghost total = self.buffer@;
        assert(total == old(self).pending() + bytes@);
        let mut frames: Vec<Frame> = Vec::new();
        let mut off: usize = 0;
        let blen = self.buffer.len();
        while off < blen
            invariant
                blen == self.buffer.len(),
                self.buffer@ == total,
                total == old(self).pending() + bytes@,
                off <= blen,
                spec_parse_frames(total) == prepend_frames(
                    frames_view(frames@),
                    spec_parse_frames(total.skip(off as int)),
                ),
            ensures
                off <= blen,
                spec_parse_frames(total) == prepend_frames(
                    frames_view(frames@),
                    spec_parse_frames(total.skip(off as int)),
                ),
                spec_parse_frames(total.skip(off as int)) == Some(
                    (Seq::<SpecFrame>::empty(), total.skip(off as int)),
                ),
            decreases blen - off,
        {
            let ghost rem = total.skip(off as int);
            if blen - off < FRAME_HEADER_SIZE {
                break;
            }
            let len_field = u32_from_le_bytes(
                slice_subrange(self.buffer.as_slice(), off, off + FRAME_LENGTH_FIELD_SIZE),
            );
            assert(self.buffer@.subrange(off as int, off + 4) =~= rem.subrange(0, 4));
            if blen - off - FRAME_HEADER_SIZE < len_field as usize {
                break;
            }
            let code = self.buffer[off + FRAME_KIND_OFFSET];
            assert(code == rem[12]);
            let kind = match FrameKind::try_from_u8(code) {
                Ok(k) => k,
                Err(_) => {
                    proof {
                        assert(spec_frame_at_start(rem) is None);
                        assert(spec_parse_frames(rem) is None);
                        assert(spec_parse_frames(total) is None);
                        assert(spec_parse_frames(old(self).pending() + bytes@) is None);
                    }
                    self.buffer = Vec::new();
                    return Err(FrameDecodeError::CorruptFrame);
                },
            };
            let stream_id = u32_from_le_bytes(
                slice_subrange(
                    self.buffer.as_slice(),
                    off + FRAME_STREAM_ID_OFFSET,
                    off + FRAME_SEQ_ID_OFFSET,
                ),
            );
            assert(self.buffer@.subrange(off + 4, off + 8) =~= rem.subrange(4, 8));
            let seq_id = u32_from_le_bytes(
                slice_subrange(self.buffer.as_slice(), off + FRAME_SEQ_ID_OFFSET, off + FRAME_KIND_OFFSET),
            );
            assert(self.buffer@.subrange(off + 8, off + 12) =~= rem.subrange(8, 12));
            let timestamp = u64_from_le_bytes(
                slice_subrange(
                    self.buffer.as_slice(),
                    off + FRAME_TIMESTAMP_OFFSET,
                    off + FRAME_HEADER_SIZE,
                ),
            );
            assert(self.buffer@.subrange(off + 13, off + 21) =~= rem.subrange(13, 21));
            let end = off + FRAME_HEADER_SIZE + len_field as usize;
            let payload = slice_to_vec(
                slice_subrange(self.buffer.as_slice(), off + FRAME_HEADER_SIZE, end),
            );
            assert(payload@ =~= rem.subrange(21, 21 + len_field));
            let frame = Frame { stream_id, seq_id, kind, timestamp, payload };
            assert(spec_frame_at_start(rem) == Some(frame@));
            assert(rem.skip(21 + len_field) =~= total.skip(end as int));
            let ghost before = frames_view(frames@);
            frames.push(frame);
            assert(frames_view(frames@) =~= before + seq![frame@]);
            proof {
                match spec_parse_frames(total.skip(end as int)) {
                    Some((gs, rest)) => {
                        assert(before + (seq![frame@] + gs) =~= (before + seq![frame@]) + gs);
                    },
                    None => {},
                }
            }
            off = end;
        }
        let rest = slice_to_vec(slice_subrange(self.buffer.as_slice(), off, blen));
        assert(rest@ =~= total.skip(off as int));
        proof {
            let rem = total.skip(off as int);
            assert(spec_parse_frames(rem) == Some((Seq::<SpecFrame>::empty(), rem)));
            assert(frames_view(frames@) + Seq::<SpecFrame>::empty() =~= frames_view(frames@));
        }
        self.buffer = rest;
        Ok(frames)
    }
}

/// Two successive reads of a decoder return, between them, exactly the
/// frames that one read of all the bytes would return, and leave the same
/// bytes pending: frames are reassembled however the transport cuts them.
pub proof fn lemma_split_reads(pending: Seq<u8>, x: Seq<u8>, y: Seq<u8>)
    ensures
        spec_parse_frames(pending + x + y) == match spec_parse_frames(pending + x) {
            Some((fs, rest)) => prepend_frames(fs, spec_parse_frames(rest + y)),
            None => None,
        },
{
    lemma_parse_frames_append(pending + x, y);
}

} // verus!
