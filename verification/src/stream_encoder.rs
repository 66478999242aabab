use vstd::prelude::*;
use vstd::slice::{slice_subrange, slice_to_vec};

use crate::frame::{frames_view, Frame, FrameEncodeError, FrameKind, SpecFrame};
use crate::rpc_header::{encode_header, header_fits, spec_header_bytes, RpcHeader};

verus! {

broadcast use vstd::seq_lib::group_seq_properties;

/// The sequence number after `x`, wrapping to zero after the largest one.
pub open spec fn seq_inc(x: u32) -> u32 {
    if x == u32::MAX {
        0
    } else {
        (x + 1) as u32
    }
}

/// The sequence number `i` steps after `first`.
pub open spec fn seq_after(first: u32, i: nat) -> u32
    decreases i,
{
    if i == 0 {
        first
    } else {
        seq_inc(seq_after(first, (i - 1) as nat))
    }
}

/// The sequence number after `x`, wrapping to zero after the largest one.
pub fn next_seq(x: u32) -> (y: u32)
    ensures
        y == seq_inc(x),
{
    if x == u32::MAX {
        0
    } else {
        x + 1
    }
}

/// `fs` are frames of stream `sid`, numbered consecutively from `first`,
/// with the given kinds and payloads.
pub open spec fn frames_are(
    fs: Seq<SpecFrame>,
    sid: u32,
    first: u32,
    kinds: Seq<FrameKind>,
    payloads: Seq<Seq<u8>>,
) -> bool {
    &&& fs.len() == kinds.len()
    &&& fs.len() == payloads.len()
    &&& forall|i: int|
        0 <= i < fs.len() ==> {
            &&& (#[trigger] fs[i]).stream_id == sid
            &&& fs[i].seq_id == seq_after(first, i as nat)
            &&& fs[i].kind == kinds[i]
            &&& fs[i].payload == payloads[i]
        }
}

/// Every frame of `fs` carries timestamp `t`.
pub open spec fn stamped(fs: Seq<SpecFrame>, t: u64) -> bool {
    forall|i: int| 0 <= i < fs.len() ==> (#[trigger] fs[i]).timestamp == t
}

/// The whole chunks of `n` bytes at the start of `buf`.
pub open spec fn spec_full_chunks(buf: Seq<u8>, n: nat) -> Seq<Seq<u8>>
    decreases buf.len(),
{
    if n == 0 || buf.len() < n {
        Seq::empty()
    } else {
        seq![buf.take(n as int)] + spec_full_chunks(buf.skip(n as int), n)
    }
}

/// What remains of `buf` after its whole chunks of `n` bytes.
pub open spec fn spec_chunk_rest(buf: Seq<u8>, n: nat) -> Seq<u8>
    decreases buf.len(),
{
    if n == 0 || buf.len() < n {
        buf
    } else {
        spec_chunk_rest(buf.skip(n as int), n)
    }
}

/// Cutting bytes into whole chunks loses nothing: the chunks followed by
/// the rest give back the bytes, every chunk has `n` bytes, and the rest is
/// shorter than a chunk.
pub proof fn lemma_chunks_flatten(buf: Seq<u8>, n: nat)
    requires
        n > 0,
    ensures
        spec_full_chunks(buf, n).flatten() + spec_chunk_rest(buf, n) == buf,
        spec_chunk_rest(buf, n).len() < n,
        forall|i: int|
            0 <= i < spec_full_chunks(buf, n).len() ==> (#[trigger] spec_full_chunks(
                buf,
                n,
            )[i]).len() == n,
    decreases buf.len(),
{
    if buf.len() < n {
        assert(Seq::<Seq<u8>>::empty().flatten() + buf =~= buf);
    } else {
        let rest = buf.skip(n as int);
        lemma_chunks_flatten(rest, n);
        let c = spec_full_chunks(buf, n);
        assert(c == seq![buf.take(n as int)] + spec_full_chunks(rest, n));
        assert(c.first() == buf.take(n as int));
        assert(c.drop_first() =~= spec_full_chunks(rest, n));
        assert(c.flatten() == buf.take(n as int) + spec_full_chunks(rest, n).flatten());
        assert(buf.take(n as int) + (spec_full_chunks(rest, n).flatten() + spec_chunk_rest(rest, n))
            =~= buf);
        assert forall|i: int| 0 <= i < c.len() implies (#[trigger] c[i]).len() == n by {
            if i > 0 {
                assert(c[i] == spec_full_chunks(rest, n)[i - 1]);
            }
        }
    }
}

/// The lifecycle of an outgoing stream.
#[derive(Debug, Clone, Copy, PartialEq, Eq, Structural)]
pub enum StreamState {
    Open,
    Ended,
    Cancelled,
}

/// What an encoder holds, as a mathematical value.
pub struct EncoderView {
    pub stream_id: u32,
    /// Sequence number of the next frame.
    pub next_seq: u32,
    /// Largest payload of a data frame.
    pub chunk_size: nat,
    /// Bytes written but not yet sent in a frame.
    pub pending: Seq<u8>,
    pub state: StreamState,
}

/// Cuts one outgoing RPC stream into frames. Each call returns the frames
/// to put on the wire, in order; the header went out in the first frame
/// when the stream was opened. Every call that makes frames takes the time
/// to stamp on them (microseconds since the Unix epoch), read by whoever
/// sends them.
#[derive(Debug)]
pub struct RpcStreamEncoder {
    stream_id: u32,
    next_seq_id: u32,
    max_chunk_size: usize,
    buffer: Vec<u8>,
    state: StreamState,
}

impl View for RpcStreamEncoder {
    type V = EncoderView;

    closed spec fn view(&self) -> EncoderView {
        EncoderView {
            stream_id: self.stream_id,
            next_seq: self.next_seq_id,
            chunk_size: self.max_chunk_size as nat,
            pending: self.buffer@,
            state: self.state,
        }
    }
}

/// The chunk sizes that frames can carry: not zero, and within the 32-bit
/// payload length of a frame.
pub open spec fn chunk_size_ok(n: usize) -> bool {
    0 < n <= u32::MAX
}

/// What the data frames that `write_bytes` returns carry, in order.
pub open spec fn write_chunks(e: EncoderView, data: Seq<u8>) -> Seq<Seq<u8>> {
    spec_full_chunks(e.pending + data, e.chunk_size)
}

/// Kinds of `k` data frames.
pub open spec fn data_kinds(k: nat) -> Seq<FrameKind> {
    Seq::new(k, |i: int| FrameKind::Data)
}

/// The payloads that a flush sends: the pending bytes, when there are any.
pub open spec fn flush_payloads(pending: Seq<u8>) -> Seq<Seq<u8>> {
    if pending.len() == 0 {
        Seq::empty()
    } else {
        seq![pending]
    }
}

impl RpcStreamEncoder {
    /// The well-formedness of an encoder: a usable chunk size, and fewer
    /// pending bytes than a chunk.
    pub closed spec fn wf(&self) -> bool {
        &&& chunk_size_ok(self.max_chunk_size)
        &&& self.buffer@.len() < self.max_chunk_size
    }

    fn make_frame(&self, seq_id: u32, kind: FrameKind, payload: Vec<u8>, timestamp: u64) -> (f: Frame)
        ensures
            f@.stream_id == self.stream_id,
            f@.seq_id == seq_id,
            f@.kind == kind,
            f@.timestamp == timestamp,
            f@.payload == payload@,
    {
        Frame { stream_id: self.stream_id, seq_id, kind, timestamp, payload }
    }

    /// Opens stream `stream_id`: the first frame is an `Open` frame with the
    /// bytes of `header`. Refused with `CorruptFrame` when the header's
    /// metadata is too long for its length field, or when the chunk size is
    /// zero or larger than a frame can carry.
    pub fn new(stream_id: u32, max_chunk_size: usize, header: &RpcHeader, timestamp: u64) -> (r: Result<
        (RpcStreamEncoder, Vec<Frame>),
        FrameEncodeError,
    >)
        ensures
            r is Ok <==> header_fits(header@) && chunk_size_ok(max_chunk_size),
            r matches Err(e) ==> e == FrameEncodeError::CorruptFrame,
            r matches Ok((enc, frames)) ==> {
                &&& enc.wf()
                &&& enc@ == EncoderView {
                    stream_id,
                    next_seq: 1,
                    chunk_size: max_chunk_size as nat,
                    pending: Seq::empty(),
                    state: StreamState::Open,
                }
                &&& frames_are(
                    frames_view(frames@),
                    stream_id,
                    0,
                    seq![FrameKind::Open],
                    seq![spec_header_bytes(header@)],
                )
                &&& stamped(frames_view(frames@), timestamp)
            },
    {
        if max_chunk_size == 0 || max_chunk_size > 0xffff_ffffusize {
            return Err(FrameEncodeError::CorruptFrame);
        }
        let bytes = encode_header(header)?;
        let enc = RpcStreamEncoder {
            stream_id,
            next_seq_id: 1,
            max_chunk_size,
            buffer: Vec::new(),
            state: StreamState::Open,
        };
        let f = enc.make_frame(0, FrameKind::Open, bytes, timestamp);
        let mut frames = Vec::new();
        frames.push(f);
        assert(frames_view(frames@)[0] == f@);
        Ok((enc, frames))
    }

    /// The id of the stream this encoder writes.
    pub fn stream_id(&self) -> (id: u32)
        ensures
            id == self@.stream_id,
    {
        self.stream_id
    }

    /// Whether the stream is still open for writing.
    pub fn is_open(&self) -> (b: bool)
        ensures
            b == (self@.state == StreamState::Open),
    {
        match self.state {
            StreamState::Open => true,
            _ => false,
        }
    }

    /// The error that a write to a closed stream gets.
    pub open spec fn closed_error(state: StreamState) -> FrameEncodeError {
        if state == StreamState::Ended {
            FrameEncodeError::WriteAfterEnd
        } else {
            FrameEncodeError::WriteAfterCancel
        }
    }

    /// Sends every whole chunk of the pending bytes as a data frame.
    fn drain_full_chunks(&mut self, timestamp: u64) -> (frames: Vec<Frame>)
        requires
            chunk_size_ok(old(self).max_chunk_size),
        ensures
            final(self).wf(),
            final(self)@ == (EncoderView {
                next_seq: seq_after(
                    old(self)@.next_seq,
                    spec_full_chunks(old(self)@.pending, old(self)@.chunk_size).len(),
                ),
                pending: spec_chunk_rest(old(self)@.pending, old(self)@.chunk_size),
                ..old(self)@
            }),
            frames_are(
                frames_view(frames@),
                old(self)@.stream_id,
                old(self)@.next_seq,
                data_kinds(spec_full_chunks(old(self)@.pending, old(self)@.chunk_size).len()),
                spec_full_chunks(old(self)@.pending, old(self)@.chunk_size),
            ),
            stamped(frames_view(frames@), timestamp),
    {
        let n = self.max_chunk_size;
        let ghost b = self.buffer@;
        let ghost seq0 = self.next_seq_id;
        let blen = self.buffer.len();
        let mut off: usize = 0;
        let mut frames: Vec<Frame> = Vec::new();
        let ghost mut done: Seq<Seq<u8>> = Seq::empty();
        proof {
            lemma_chunks_flatten(b, n as nat);
        }
        while blen - off >= n
            invariant
                self.buffer@ == b,
                blen == b.len(),
                self.max_chunk_size == n,
                chunk_size_ok(n),
                off <= blen,
                self.stream_id == old(self).stream_id,
                self.state == old(self).state,
                spec_full_chunks(b, n as nat) == done + spec_full_chunks(b.skip(off as int), n as nat),
                spec_chunk_rest(b, n as nat) == spec_chunk_rest(b.skip(off as int), n as nat),
                self.next_seq_id == seq_after(seq0, done.len()),
                frames_are(frames_view(frames@), self.stream_id, seq0, data_kinds(done.len()), done),
                stamped(frames_view(frames@), timestamp),
            decreases blen - off,
        {
            let ghost rem = b.skip(off as int);
            let chunk = slice_to_vec(slice_subrange(self.buffer.as_slice(), off, off + n));
            assert(chunk@ =~= rem.take(n as int));
            assert(rem.skip(n as int) =~= b.skip(off + n));
            let f = self.make_frame(self.next_seq_id, FrameKind::Data, chunk, timestamp);
            let ghost before = frames_view(frames@);
            frames.push(f);
            proof {
                assert(frames_view(frames@) =~= before + seq![f@]);
                let d2 = done.push(rem.take(n as int));
                assert(spec_full_chunks(rem, n as nat) == seq![rem.take(n as int)] + spec_full_chunks(
                    b.skip(off + n),
                    n as nat,
                ));
                assert(done + (seq![rem.take(n as int)] + spec_full_chunks(b.skip(off + n), n as nat))
                    =~= d2 + spec_full_chunks(b.skip(off + n), n as nat));
                assert(data_kinds(d2.len()) =~= data_kinds(done.len()).push(FrameKind::Data));
                assert forall|i: int| 0 <= i < frames_view(frames@).len() implies {
                    &&& (#[trigger] frames_view(frames@)[i]).stream_id == self.stream_id
                    &&& frames_view(frames@)[i].seq_id == seq_after(seq0, i as nat)
                    &&& frames_view(frames@)[i].kind == data_kinds(d2.len())[i]
                    &&& frames_view(frames@)[i].payload == d2[i]
                    &&& frames_view(frames@)[i].timestamp == timestamp
                } by {
                    if i < before.len() {
                        assert(frames_view(frames@)[i] == before[i]);
                    }
                }
                done = d2;
            }
            self.next_seq_id = next_seq(self.next_seq_id);
            off = off + n;
        }
        let rest = slice_to_vec(slice_subrange(self.buffer.as_slice(), off, blen));
        assert(rest@ =~= b.skip(off as int));
        proof {
            assert(spec_full_chunks(b.skip(off as int), n as nat) =~= Seq::<Seq<u8>>::empty());
            assert(spec_chunk_rest(b.skip(off as int), n as nat) == b.skip(off as int));
            assert(spec_full_chunks(b, n as nat).len() == done.len());
            assert(done + Seq::<Seq<u8>>::empty() =~= done);
        }
        self.buffer = rest;
        frames
    }

    /// Writes bytes to the stream. The pending bytes and `data`, together,
    /// go out as data frames of exactly the chunk size; what is left over
    /// (less than a chunk) stays pending. A stream that has ended or was
    /// cancelled refuses the write and stays as it was.
    pub fn write_bytes(&mut self, data: &[u8], timestamp: u64) -> (r: Result<Vec<Frame>, FrameEncodeError>)
        requires
            old(self).wf(),
        ensures
            final(self).wf(),
            old(self)@.state != StreamState::Open ==> {
                &&& r == Err::<Vec<Frame>, FrameEncodeError>(
                    RpcStreamEncoder::closed_error(old(self)@.state),
                )
                &&& final(self)@ == old(self)@
            },
            old(self)@.state == StreamState::Open ==> {
                let chunks = write_chunks(old(self)@, data@);
                &&& r matches Ok(frames) && frames_are(
                    frames_view(frames@),
                    old(self)@.stream_id,
                    old(self)@.next_seq,
                    data_kinds(chunks.len()),
                    chunks,
                ) && stamped(frames_view(frames@), timestamp)
                &&& final(self)@ == (EncoderView {
                    next_seq: seq_after(old(self)@.next_seq, chunks.len()),
                    pending: spec_chunk_rest(old(self)@.pending + data@, old(self)@.chunk_size),
                    ..old(self)@
                })
            },
    {
        match self.state {
            StreamState::Ended => {
                return Err(FrameEncodeError::WriteAfterEnd);
            },
            StreamState::Cancelled => {
                return Err(FrameEncodeError::WriteAfterCancel);
            },
            StreamState::Open => {},
        }
        let mut incoming = slice_to_vec(data);
        self.buffer.append(&mut incoming);
        Ok(self.drain_full_chunks(timestamp))
    }

    /// Sends the pending bytes, if any, as one data frame.
    pub fn flush(&mut self, timestamp: u64) -> (r: Result<Vec<Frame>, FrameEncodeError>)
        requires
            old(self).wf(),
        ensures
            final(self).wf(),
            old(self)@.state != StreamState::Open ==> {
                &&& r == Err::<Vec<Frame>, FrameEncodeError>(
                    RpcStreamEncoder::closed_error(old(self)@.state),
                )
                &&& final(self)@ == old(self)@
            },
            old(self)@.state == StreamState::Open ==> {
                let p = flush_payloads(old(self)@.pending);
                &&& r matches Ok(frames) && frames_are(
                    frames_view(frames@),
                    old(self)@.stream_id,
                    old(self)@.next_seq,
                    data_kinds(p.len()),
                    p,
                ) && stamped(frames_view(frames@), timestamp)
                &&& final(self)@ == (EncoderView {
                    next_seq: seq_after(old(self)@.next_seq, p.len()),
                    pending: Seq::empty(),
                    ..old(self)@
                })
            },
    {
        match self.state {
            StreamState::Ended => {
                return Err(FrameEncodeError::WriteAfterEnd);
            },
            StreamState::Cancelled => {
                return Err(FrameEncodeError::WriteAfterCancel);
            },
            StreamState::Open => {},
        }
        let mut frames: Vec<Frame> = Vec::new();
        if self.buffer.len() > 0 {
            let mut payload: Vec<u8> = Vec::new();
            std::mem::swap(&mut payload, &mut self.buffer);
            let f = self.make_frame(self.next_seq_id, FrameKind::Data, payload, timestamp);
            frames.push(f);
            self.next_seq_id = next_seq(self.next_seq_id);
            assert(frames_view(frames@)[0] == f@);
            assert(frames_view(frames@) =~= seq![f@]);
            assert(stamped(frames_view(frames@), timestamp));
            assert(data_kinds(1) =~= seq![FrameKind::Data]);
            assert(seq_after(old(self)@.next_seq, 1) == seq_inc(old(self)@.next_seq)) by {
                reveal_with_fuel(seq_after, 2);
            }
        } else {
            assert(frames_view(frames@) =~= Seq::<SpecFrame>::empty());
            assert(stamped(frames_view(frames@), timestamp));
            assert(data_kinds(0) =~= Seq::<FrameKind>::empty());
        }
        Ok(frames)
    }

    /// Ends the stream: sends the pending bytes, if any, as a data frame,
    /// then an empty `End` frame. Nothing more can be written afterwards.
    pub fn end_stream(&mut self, timestamp: u64) -> (r: Result<Vec<Frame>, FrameEncodeError>)
        requires
            old(self).wf(),
        ensures
            final(self).wf(),
            old(self)@.state != StreamState::Open ==> {
                &&& r == Err::<Vec<Frame>, FrameEncodeError>(
                    RpcStreamEncoder::closed_error(old(self)@.state),
                )
                &&& final(self)@ == old(self)@
            },
            old(self)@.state == StreamState::Open ==> {
                let p = flush_payloads(old(self)@.pending);
                &&& r matches Ok(frames) && frames_are(
                    frames_view(frames@),
                    old(self)@.stream_id,
                    old(self)@.next_seq,
                    data_kinds(p.len()).push(FrameKind::End),
                    p.push(Seq::empty()),
                ) && stamped(frames_view(frames@), timestamp)
                &&& final(self)@ == (EncoderView {
                    next_seq: seq_after(old(self)@.next_seq, p.len() + 1),
                    pending: Seq::empty(),
                    state: StreamState::Ended,
                    ..old(self)@
                })
            },
    {
        let mut frames = self.flush(timestamp)?;
        let ghost before = frames_view(frames@);
        let ghost p = flush_payloads(old(self)@.pending);
        let f = self.make_frame(self.next_seq_id, FrameKind::End, Vec::new(), timestamp);
        frames.push(f);
        self.next_seq_id = next_seq(self.next_seq_id);
        self.state = StreamState::Ended;
        proof {
            assert(frames_view(frames@) =~= before.push(f@));
            assert forall|i: int| 0 <= i < frames_view(frames@).len() implies {
                &&& (#[trigger] frames_view(frames@)[i]).stream_id == old(self)@.stream_id
                &&& frames_view(frames@)[i].seq_id == seq_after(old(self)@.next_seq, i as nat)
                &&& frames_view(frames@)[i].kind == data_kinds(p.len()).push(FrameKind::End)[i]
                &&& frames_view(frames@)[i].payload == p.push(Seq::empty())[i]
                &&& frames_view(frames@)[i].timestamp == timestamp
            } by {
                if i < before.len() {
                    assert(frames_view(frames@)[i] == before[i]);
                }
            }
        }
        Ok(frames)
    }

    /// Cancels the stream: pending bytes are dropped and an empty `Cancel`
    /// frame goes out. Nothing more can be written afterwards.
    pub fn cancel_stream(&mut self, timestamp: u64) -> (r: Result<Vec<Frame>, FrameEncodeError>)
        requires
            old(self).wf(),
        ensures
            final(self).wf(),
            old(self)@.state != StreamState::Open ==> {
                &&& r == Err::<Vec<Frame>, FrameEncodeError>(
                    RpcStreamEncoder::closed_error(old(self)@.state),
                )
                &&& final(self)@ == old(self)@
            },
            old(self)@.state == StreamState::Open ==> {
                &&& r matches Ok(frames) && frames_are(
                    frames_view(frames@),
                    old(self)@.stream_id,
                    old(self)@.next_seq,
                    seq![FrameKind::Cancel],
                    seq![Seq::empty()],
                ) && stamped(frames_view(frames@), timestamp)
                &&& final(self)@ == (EncoderView {
                    next_seq: seq_inc(old(self)@.next_seq),
                    pending: Seq::empty(),
                    state: StreamState::Cancelled,
                    ..old(self)@
                })
            },
    {
        match self.state {
            StreamState::Ended => {
                return Err(FrameEncodeError::WriteAfterEnd);
            },
            StreamState::Cancelled => {
                return Err(FrameEncodeError::WriteAfterCancel);
            },
            StreamState::Open => {},
        }
        self.buffer = Vec::new();
        let f = self.make_frame(self.next_seq_id, FrameKind::Cancel, Vec::new(), timestamp);
        let mut frames = Vec::new();
        frames.push(f);
        self.next_seq_id = next_seq(self.next_seq_id);
        self.state = StreamState::Cancelled;
        assert(frames_view(frames@)[0] == f@);
        assert(seq_after(old(self)@.next_seq, 1) == seq_inc(old(self)@.next_seq)) by {
            reveal_with_fuel(seq_after, 2);
        }
        Ok(frames)
    }
}


/// Two batches of frames that carry timestamp `t`, one after the other,
/// carry it too.
pub proof fn lemma_stamped_append(a: Seq<SpecFrame>, b: Seq<SpecFrame>, t: u64)
    requires
        stamped(a, t),
        stamped(b, t),
    ensures
        stamped(a + b, t),
{
    assert forall|i: int| 0 <= i < (a + b).len() implies (#[trigger] (a + b)[i]).timestamp == t by {
        if i >= a.len() {
            assert((a + b)[i] == b[i - a.len()]);
        }
    }
}

/// Counting `a` steps and then `b` more is counting `a + b` steps.
pub proof fn lemma_seq_after_add(first: u32, a: nat, b: nat)
    ensures
        seq_after(seq_after(first, a), b) == seq_after(first, a + b),
    decreases b,
{
    if b > 0 {
        lemma_seq_after_add(first, a, (b - 1) as nat);
        assert((a + b - 1) as nat == a + (b - 1) as nat);
    }
}

/// Frames of one stream sent one batch after another are numbered on
/// from the first batch: the two batches together are one consecutive run.
pub proof fn lemma_frames_are_append(
    a: Seq<SpecFrame>,
    b: Seq<SpecFrame>,
    sid: u32,
    first: u32,
    ka: Seq<FrameKind>,
    pa: Seq<Seq<u8>>,
    kb: Seq<FrameKind>,
    pb: Seq<Seq<u8>>,
)
    requires
        frames_are(a, sid, first, ka, pa),
        frames_are(b, sid, seq_after(first, a.len()), kb, pb),
    ensures
        frames_are(a + b, sid, first, ka + kb, pa + pb),
{
    assert forall|i: int| 0 <= i < (a + b).len() implies {
        &&& (#[trigger] (a + b)[i]).stream_id == sid
        &&& (a + b)[i].seq_id == seq_after(first, i as nat)
        &&& (a + b)[i].kind == (ka + kb)[i]
        &&& (a + b)[i].payload == (pa + pb)[i]
    } by {
        if i >= a.len() {
            let j = i - a.len();
            assert(b[j].seq_id == seq_after(seq_after(first, a.len()), j as nat));
            lemma_seq_after_add(first, a.len(), j as nat);
            assert(a.len() + j as nat == i as nat);
        }
    }
}


/// An encoder loses and invents no byte: what a write sends, followed by
/// what it leaves pending, is what was pending before followed by the
/// bytes written, and every data frame it sends is exactly one chunk long;
/// a flush (or the flush that ends a stream) sends exactly the pending
/// bytes. Over a stream's life, the data payloads joined are therefore the
/// bytes written, in order.
pub proof fn lemma_encoder_conserves_bytes(e: EncoderView, data: Seq<u8>)
    requires
        e.chunk_size > 0,
    ensures
        write_chunks(e, data).flatten() + spec_chunk_rest(e.pending + data, e.chunk_size)
            == e.pending + data,
        forall|i: int|
            0 <= i < write_chunks(e, data).len() ==> (#[trigger] write_chunks(e, data)[i]).len()
                == e.chunk_size,
        flush_payloads(e.pending).flatten() == e.pending,
{
    lemma_chunks_flatten(e.pending + data, e.chunk_size);
    if e.pending.len() > 0 {
        seq![e.pending].lemma_flatten_one_element();
    } else {
        assert(Seq::<Seq<u8>>::empty().flatten() =~= e.pending);
    }
}

} // verus!
