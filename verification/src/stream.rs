//! Streams of a connection, seen from their sending side.

use std::collections::HashMap;
use std::collections::HashSet;

use vstd::prelude::*;

use crate::error::Error;
use crate::error::Result;
use crate::ranges::covers;
use crate::ranges::lemma_covers_push;
use crate::ranges::separated;
use crate::ranges::span;
use crate::ranges::RangeSet;

verus! {

broadcast use vstd::std_specs::hash::group_hash_axioms;

/// A piece of stream data.
#[derive(Debug)]
pub struct Chunk {
    /// Offset of the first byte of the piece.
    pub off: u64,
    /// The bytes.
    pub data: Vec<u8>,
}

/// Data that an endpoint sends, or sent, on a stream.
#[derive(Debug)]
pub struct SendBuf {
    chunks: Vec<Chunk>,
    written: RangeSet,
    pending: RangeSet,
    acked: RangeSet,
    fin_off: Option<u64>,
    closed: bool,
    shutdown: bool,
    stopped: Option<u64>,
}

/// What a [`SendBuf`] stands for.
#[verifier::ext_equal]
pub struct SendModel {
    /// The byte at each offset that was written and that the peer has not
    /// acknowledged.
    pub data: Map<u64, u8>,
    /// Offsets that wait to be sent, for the first time or again.
    pub pending: Set<u64>,
    /// Offsets that the peer acknowledged.
    pub acked: Set<u64>,
    /// Offset at which the stream ends.
    pub fin_off: Option<u64>,
    /// Whether no more data will be handed to this buffer.
    pub closed: bool,
    /// Whether the sending side was shut down.
    pub shutdown: bool,
    /// Error code with which the peer stopped the stream.
    pub stopped: Option<u64>,
}

/// The bytes of one piece of data.
pub open spec fn piece_map(off: int, data: Seq<u8>) -> Map<u64, u8> {
    Map::new(|x: u64| off <= x < off + data.len(), |x: u64| data[x - off])
}

/// The bytes of a sequence of pieces; a later piece overwrites an earlier one.
pub open spec fn chunk_map(chunks: Seq<Chunk>) -> Map<u64, u8>
    decreases chunks.len(),
{
    if chunks.len() == 0 {
        Map::empty()
    } else {
        chunk_map(chunks.drop_last()).union_prefer_right(
            piece_map(chunks.last().off as int, chunks.last().data@),
        )
    }
}

/// Every offset of every piece is a 64-bit integer.
pub open spec fn chunks_fit(chunks: Seq<Chunk>) -> bool {
    forall|i: int|
        0 <= i < chunks.len() ==> (#[trigger] chunks[i]).off + chunks[i].data@.len() <= u64::MAX
}

/// The lowest integer of a set.
pub open spec fn lowest(s: Set<u64>) -> u64 {
    choose|x: u64| s.contains(x) && forall|y: u64| s.contains(y) ==> x <= y
}

/// How many of the `n` integers that start at `x` are in `s` before the first
/// one that is not.
pub open spec fn run_len(s: Set<u64>, x: int, n: nat) -> nat
    decreases n,
{
    if n == 0 || x > u64::MAX || !s.contains(x as u64) {
        0
    } else {
        1 + run_len(s, x + 1, (n - 1) as nat)
    }
}

impl SendModel {
    /// Writing `data` at offset `off`, with the end of the stream right after it
    /// when `fin` is set: the buffer afterwards, and the error if there is one.
    pub open spec fn write_at(self, data: Seq<u8>, off: u64, fin: bool) -> (SendModel, Option<Error>) {
        let end = off + data.len();
        if let Some(code) = self.stopped {
            (self, Some(Error::StreamStopped(code)))
        } else if self.fin_off matches Some(f) && (end > f || (end == f && !fin)) {
            (self, Some(Error::FinalSize))
        } else {
            (
                SendModel {
                    data: self.data.union_prefer_right(
                        piece_map(off as int, data).remove_keys(self.acked),
                    ),
                    pending: self.pending.union(span(off as int, end).difference(self.acked)),
                    fin_off: if fin {
                        Some(end as u64)
                    } else {
                        self.fin_off
                    },
                    ..self
                },
                None,
            )
        }
    }

    /// Asking to send the `len` bytes at `off` again: those that were written
    /// and that the peer has not acknowledged wait to be sent.
    pub open spec fn retransmit(self, off: u64, len: nat) -> SendModel {
        SendModel {
            pending: self.pending.union(span(off as int, off + len).intersect(self.data.dom())),
            ..self
        }
    }

    /// How many bytes go out when `n` bytes of room are offered.
    pub open spec fn emit_len(self, n: nat) -> nat {
        if self.pending == Set::<u64>::empty() {
            0
        } else {
            run_len(self.pending, lowest(self.pending) as int, n)
        }
    }

    /// What is sent in `n` bytes of room: the lowest bytes that wait to be sent,
    /// without a gap, and zeroes after them.
    pub open spec fn emitted(self, n: nat) -> Seq<u8> {
        let lo = lowest(self.pending);
        Seq::new(
            n,
            |i: int|
                if i < self.emit_len(n) {
                    self.data[(lo + i) as u64]
                } else {
                    0u8
                },
        )
    }

    /// The buffer once [`SendModel::emitted`] is sent.
    pub open spec fn after_emit(self, n: nat) -> SendModel {
        let lo = lowest(self.pending);
        SendModel {
            pending: self.pending.difference(span(lo as int, lo + self.emit_len(n))),
            ..self
        }
    }

    /// The buffer once the peer has acknowledged the `len` bytes at `off`.
    pub open spec fn ack(self, off: u64, len: nat) -> SendModel {
        SendModel {
            data: self.data.remove_keys(span(off as int, off + len)),
            acked: self.acked.union(span(off as int, off + len)),
            pending: self.pending.difference(span(off as int, off + len)),
            ..self
        }
    }

    /// Whether the peer has everything that this side of the stream sends.
    pub open spec fn is_complete(self) -> bool {
        ||| self.fin_off matches Some(f) && self.acked == span(0, f as int)
        ||| self.closed && self.data.dom() == Set::<u64>::empty()
    }

    /// Whether something waits to be sent.
    pub open spec fn is_flushable(self) -> bool {
        self.pending != Set::<u64>::empty()
    }
}

impl View for SendBuf {
    type V = SendModel;

    closed spec fn view(&self) -> SendModel {
        SendModel {
            data: chunk_map(self.chunks@),
            pending: self.pending@,
            acked: self.acked@,
            fin_off: self.fin_off,
            closed: self.closed,
            shutdown: self.shutdown,
            stopped: self.stopped,
        }
    }
}

impl SendBuf {
    /// What waits to be sent was written, and what was written and is kept is not
    /// acknowledged.
    pub closed spec fn wf(&self) -> bool {
        &&& self.written.wf()
        &&& self.pending.wf()
        &&& self.acked.wf()
        &&& self.written@ == chunk_map(self.chunks@).dom()
        &&& self.pending@.subset_of(self.written@)
        &&& self.written@.disjoint(self.acked@)
        &&& chunks_fit(self.chunks@)
    }

    /// A buffer on which nothing was written.
    pub fn new() -> (b: SendBuf)
        ensures
            b.wf(),
            b@ == (SendModel {
                data: Map::empty(),
                pending: Set::empty(),
                acked: Set::empty(),
                fin_off: None,
                closed: false,
                shutdown: false,
                stopped: None,
            }),
    {
        let b = SendBuf {
            chunks: Vec::new(),
            written: RangeSet::new(),
            pending: RangeSet::new(),
            acked: RangeSet::new(),
            fin_off: None,
            closed: false,
            shutdown: false,
            stopped: None,
        };
        assert(b.written@ =~= chunk_map(b.chunks@).dom());
        b
    }

    /// What waits to be sent was written and is not acknowledged.
    pub proof fn lemma_pending(&self)
        requires
            self.wf(),
        ensures
            self@.pending.subset_of(self@.data.dom()),
            self@.data.dom().disjoint(self@.acked),
    {
    }

    /// Writes `data` at offset `off`. When `fin` is set the stream ends after
    /// `data`.
    pub fn write_at_offset(&mut self, data: Vec<u8>, off: u64, fin: bool) -> (r: Result<usize>)
        requires
            old(self).wf(),
            off + data@.len() <= u64::MAX,
        ensures
            final(self).wf(),
            ({
                let (m, e) = old(self)@.write_at(data@, off, fin);
                &&& final(self)@ == m
                &&& match e {
                    Some(error) => r == Err::<usize, Error>(error),
                    None => r == Ok::<usize, Error>(data.len()),
                }
            }),
    {
        let len: usize = data.len();
        let end: u64 = off + len as u64;
        if let Some(code) = self.stopped {
            return Err(Error::StreamStopped(code));
        }
        if let Some(f) = self.fin_off {
            if end > f || (end == f && !fin) {
                return Err(Error::FinalSize);
            }
        }
        push_kept(&mut self.chunks, off, &data, &self.acked);
        // Data that the peer has is neither kept nor sent again.
        let mut fresh = RangeSet::new();
        fresh.insert(off, end);
        fresh.subtract(&self.acked);
        self.written.union_with(&fresh);
        self.pending.union_with(&fresh);
        assert(self.written@ =~= chunk_map(self.chunks@).dom());
        if fin {
            self.fin_off = Some(end);
        }
        proof {
            let m = old(self)@.write_at(data@, off, fin).0;
            assert(self@.data =~= m.data);
            assert(self@.pending =~= m.pending);
        }
        Ok(len)
    }
    /// Asks to send the `len` bytes at `off` again.
    pub fn retransmit(&mut self, off: u64, len: usize)
        requires
            old(self).wf(),
            off + len <= u64::MAX,
        ensures
            final(self).wf(),
            final(self)@ == old(self)@.retransmit(off, len as nat),
    {
        let mut again = RangeSet::new();
        again.insert(off, off + len as u64);
        again.intersect(&self.written);
        self.pending.union_with(&again);
        assert(self@.pending =~= old(self)@.retransmit(off, len as nat).pending);
    }

    /// Takes the next bytes to send, at most `len` of them, and hands them out
    /// in a buffer of `len` bytes, with zeroes after them.
    pub fn emit(&mut self, len: usize) -> (r: Result<Vec<u8>>)
        requires
            old(self).wf(),
        ensures
            final(self).wf(),
            old(self)@.shutdown ==> r == Err::<Vec<u8>, Error>(Error::FinalSize) && final(self)@
                == old(self)@,
            !old(self)@.shutdown ==> {
                &&& r is Ok
                &&& r->Ok_0@ == old(self)@.emitted(len as nat)
                &&& final(self)@ == old(self)@.after_emit(len as nat)
            },
    {
        if self.shutdown {
            return Err(Error::FinalSize);
        }
        let ghost m = self@;
        let mut out: Vec<u8> = Vec::new();
        if let Some((a, b)) = self.pending.first_range() {
            let n: u64 = if b - a < len as u64 {
                b - a
            } else {
                len as u64
            };
            proof {
                lemma_lowest(m.pending, a);
                lemma_run_len(m.pending, a as int, b as int, len as nat);
                assert(m.pending.contains(a)) by {
                    assert(span(a as int, b as int).contains(a));
                }
                assert(m.emit_len(len as nat) == n);
            }
            proof {
                assert forall|x: u64| a <= x < a + n implies self@.data.contains_key(x) by {
                    assert(span(a as int, b as int).contains(x));
                }
            }
            out = self.read(a, n);
            self.pending.remove(a, a + n);
            assert(out@ =~= m.emitted(len as nat).take(n as int));
            assert(self@.pending =~= m.after_emit(len as nat).pending);
        } else {
            assert(self@.pending =~= m.after_emit(len as nat).pending);
            assert(out@ =~= m.emitted(len as nat).take(0));
        }
        while out.len() < len
            invariant
                self.wf(),
                self@ == m.after_emit(len as nat),
                m.emit_len(len as nat) <= out@.len() <= len,
                out@ == m.emitted(len as nat).take(out@.len() as int),
            decreases len - out@.len(),
        {
            out.push(0u8);
            assert(out@ =~= m.emitted(len as nat).take(out@.len() as int));
        }
        assert(out@ =~= m.emitted(len as nat));
        Ok(out)
    }

    /// The `n` bytes that were written from `from` on.
    fn read(&self, from: u64, n: u64) -> (out: Vec<u8>)
        requires
            self.wf(),
            from + n <= u64::MAX,
            n <= usize::MAX,
            forall|x: u64| from <= x < from + n ==> #[trigger] self@.data.contains_key(x),
        ensures
            out@ == Seq::new(n as nat, |i: int| self@.data[(from + i) as u64]),
    {
        let mut out: Vec<u8> = Vec::new();
        let mut i: u64 = 0;
        while i < n
            invariant
                i <= n,
                self.wf(),
                from + n <= u64::MAX,
                forall|x: u64| from <= x < from + n ==> #[trigger] self@.data.contains_key(x),
                out@ == Seq::new(i as nat, |i: int| self@.data[(from + i) as u64]),
            decreases n - i,
        {
            let byte: u8 = self.byte_at(from + i);
            out.push(byte);
            i += 1;
            assert(out@ =~= Seq::new(i as nat, |i: int| self@.data[(from + i) as u64]));
        }
        out
    }

    /// The byte that was written at `off`.
    fn byte_at(&self, off: u64) -> (b: u8)
        requires
            self.wf(),
            self@.data.contains_key(off),
        ensures
            b == self@.data[off],
    {
        let mut i: usize = self.chunks.len();
        assert(self.chunks@.take(i as int) =~= self.chunks@);
        while i > 0
            invariant
                i <= self.chunks@.len(),
                self.wf(),
                chunk_map(self.chunks@.take(i as int)).contains_key(off),
                chunk_map(self.chunks@.take(i as int))[off] == self@.data[off],
            decreases i,
        {
            i -= 1;
            let chunk = &self.chunks[i];
            proof {
                let upper = self.chunks@.take(i + 1);
                assert(upper.drop_last() =~= self.chunks@.take(i as int));
                assert(upper.last() == *chunk);
            }
            if chunk.off <= off && off - chunk.off < chunk.data.len() as u64 {
                return chunk.data[(off - chunk.off) as usize];
            }
        }
        0
    }

    /// Notes that the peer acknowledged the `len` bytes at `off`, and releases
    /// the pieces of data that it has entirely.
    pub fn ack_and_drop(&mut self, off: u64, len: usize)
        requires
            old(self).wf(),
            off + len <= u64::MAX,
        ensures
            final(self).wf(),
            final(self)@ == old(self)@.ack(off, len as nat),
    {
        let end: u64 = off + len as u64;
        let mut gone = RangeSet::new();
        gone.insert(off, end);
        self.acked.insert(off, end);
        self.pending.remove(off, end);
        self.written.remove(off, end);
        let mut kept: Vec<Chunk> = Vec::new();
        let mut i: usize = 0;
        while i < self.chunks.len()
            invariant
                i <= self.chunks@.len(),
                gone.wf(),
                gone@ =~= span(off as int, end as int),
                self.chunks@ == old(self).chunks@,
                chunks_fit(self.chunks@),
                chunks_fit(kept@),
                chunk_map(kept@) =~= chunk_map(self.chunks@.take(i as int)).remove_keys(gone@),
            decreases self.chunks@.len() - i,
        {
            proof {
                let upper = self.chunks@.take(i + 1);
                assert(upper.drop_last() =~= self.chunks@.take(i as int));
            }
            push_kept(&mut kept, self.chunks[i].off, &self.chunks[i].data, &gone);
            i += 1;
        }
        assert(self.chunks@.take(i as int) =~= self.chunks@);
        self.chunks = kept;
        proof {
            let m = old(self)@.ack(off, len as nat);
            assert(self@.data =~= m.data);
            assert(self@.pending =~= m.pending);
            assert(self@.acked =~= m.acked);
            assert(self.written@ =~= chunk_map(self.chunks@).dom());
        }
    }

    /// Notes that no more data will be handed to this buffer.
    pub fn fc_set_close_offset(&mut self)
        requires
            old(self).wf(),
        ensures
            final(self).wf(),
            final(self)@ == (SendModel { closed: true, ..old(self)@ }),
    {
        self.closed = true;
    }

    /// Sets the offset at which the stream ends.
    pub fn fc_set_fin_off(&mut self, off: u64)
        requires
            old(self).wf(),
        ensures
            final(self).wf(),
            final(self)@ == (SendModel { fin_off: Some(off), ..old(self)@ }),
    {
        self.fin_off = Some(off);
    }

    /// Shuts the sending side down.
    pub fn shutdown(&mut self)
        requires
            old(self).wf(),
        ensures
            final(self).wf(),
            final(self)@ == (SendModel { shutdown: true, ..old(self)@ }),
    {
        self.shutdown = true;
    }

    /// Notes that the peer stopped the stream with the error `code`.
    pub fn stop(&mut self, code: u64)
        requires
            old(self).wf(),
        ensures
            final(self).wf(),
            final(self)@ == (SendModel { stopped: Some(code), ..old(self)@ }),
    {
        self.stopped = Some(code);
    }

    /// Whether the peer has everything that this side of the stream sends.
    pub fn is_complete(&self) -> (r: bool)
        requires
            self.wf(),
        ensures
            r == self@.is_complete(),
    {
        if let Some(f) = self.fin_off {
            let mut whole = RangeSet::new();
            whole.insert(0, f);
            assert(whole@ =~= span(0, f as int));
            if self.acked.same(&whole) {
                return true;
            }
        }
        self.closed && self.written.is_empty()
    }

    /// Whether something waits to be sent.
    pub fn is_flushable(&self) -> (r: bool)
        requires
            self.wf(),
        ensures
            r == self@.is_flushable(),
    {
        !self.pending.is_empty()
    }
}

/// Adds the piece `data` at `off` to `chunks`, without the bytes whose offset is
/// in `gone`.
fn push_kept(chunks: &mut Vec<Chunk>, off: u64, data: &Vec<u8>, gone: &RangeSet)
    requires
        chunks_fit(old(chunks)@),
        off + data@.len() <= u64::MAX,
        gone.wf(),
    ensures
        chunks_fit(final(chunks)@),
        chunk_map(final(chunks)@) == chunk_map(old(chunks)@).union_prefer_right(
            piece_map(off as int, data@).remove_keys(gone@),
        ),
{
    let end: u64 = off + data.len() as u64;
    let mut keep = RangeSet::new();
    keep.insert(off, end);
    keep.subtract(gone);
    let ranges = keep.as_ranges();
    let ghost piece = piece_map(off as int, data@);
    let mut i: usize = 0;
    assert(chunk_map(chunks@) =~= chunk_map(old(chunks)@).union_prefer_right(
        piece.restrict(Set::new(|x: u64| covers(ranges@.take(0), x))),
    ));
    while i < ranges.len()
        invariant
            i <= ranges@.len(),
            off + data@.len() == end,
            data@.len() <= usize::MAX,
            keep@ == span(off as int, end as int).difference(gone@),
            forall|x: u64| #[trigger] keep@.contains(x) == covers(ranges@, x),
            separated(ranges@),
            piece == piece_map(off as int, data@),
            chunks_fit(chunks@),
            chunk_map(chunks@) =~= chunk_map(old(chunks)@).union_prefer_right(
                piece.restrict(Set::new(|x: u64| covers(ranges@.take(i as int), x))),
            ),
        decreases ranges@.len() - i,
    {
        let (a, b): (u64, u64) = ranges[i];
        proof {
            assert(ranges@[i as int].0 <= a && a < ranges@[i as int].1);
            assert(ranges@[i as int].0 <= b - 1 && b - 1 < ranges@[i as int].1);
            assert(covers(ranges@, a) && covers(ranges@, (b - 1) as u64));
            assert(keep@.contains(a) && keep@.contains((b - 1) as u64));
        }
        let part = slice_of(data, (a - off) as usize, (b - off) as usize);
        let ghost before = chunks@;
        chunks.push(Chunk { off: a, data: part });
        proof {
            lemma_covers_push(ranges@.take(i as int), (a, b));
            assert(ranges@.take(i + 1) =~= ranges@.take(i as int).push((a, b)));
            assert(chunks@.drop_last() =~= before);
            let upper = Set::new(|x: u64| covers(ranges@.take(i + 1), x));
            let lower = Set::new(|x: u64| covers(ranges@.take(i as int), x));
            assert(chunk_map(chunks@) =~= chunk_map(old(chunks)@).union_prefer_right(
                piece.restrict(upper),
            )) by {
                assert(chunk_map(chunks@) == chunk_map(before).union_prefer_right(
                    piece_map(a as int, chunks@.last().data@),
                ));
                assert forall|x: u64| #[trigger]
                    upper.contains(x) == (lower.contains(x) || (a <= x && x < b)) by {
                    assert(covers(ranges@.take(i as int).push((a, b)), x) == (covers(
                        ranges@.take(i as int),
                        x,
                    ) || (a <= x && x < b)));
                }
            }
        }
        i += 1;
    }
    proof {
        assert(ranges@.take(i as int) =~= ranges@);
        let all = Set::new(|x: u64| covers(ranges@, x));
        assert(piece.restrict(all) =~= piece.remove_keys(gone@)) by {
            assert forall|x: u64| piece.contains_key(x) implies all.contains(x) == !gone@.contains(
                x,
            ) by {
                assert(keep@.contains(x) == covers(ranges@, x));
            }
        }
    }
}

/// The bytes of `data` from `from` up to `to`.
fn slice_of(data: &Vec<u8>, from: usize, to: usize) -> (r: Vec<u8>)
    requires
        from <= to <= data@.len(),
    ensures
        r@ == data@.subrange(from as int, to as int),
{
    let mut r: Vec<u8> = Vec::new();
    let mut i: usize = from;
    while i < to
        invariant
            from <= i <= to <= data@.len(),
            r@ == data@.subrange(from as int, i as int),
        decreases to - i,
    {
        r.push(data[i]);
        i += 1;
        assert(r@ =~= data@.subrange(from as int, i as int));
    }
    r
}

proof fn lemma_lowest(s: Set<u64>, a: u64)
    requires
        s.contains(a),
        forall|x: u64| s.contains(x) ==> a <= x,
    ensures
        lowest(s) == a,
{
}

proof fn lemma_run_len(s: Set<u64>, a: int, b: int, n: nat)
    requires
        0 <= a <= b <= u64::MAX,
        span(a, b).subset_of(s),
        !s.contains(b as u64),
    ensures
        run_len(s, a, n) == if n < b - a {
            n as int
        } else {
            b - a
        },
    decreases n,
{
    if n > 0 && a < b {
        assert(span(a, b).contains(a as u64));
        assert forall|x: u64| span(a + 1, b).contains(x) implies s.contains(x) by {
            assert(span(a, b).contains(x));
        }
        lemma_run_len(s, a + 1, b, (n - 1) as nat);
    }
}

/// A stream of a connection.
#[derive(Debug)]
pub struct Stream {
    /// Whether this endpoint opened the stream.
    pub local: bool,
    /// Whether both endpoints send on the stream.
    pub bidi: bool,
    /// Whether everything that the peer sends was received.
    pub recv_fin: bool,
    /// Whether received data waits to be read.
    pub readable: bool,
    /// Sending side.
    pub send: SendBuf,
}

/// What a [`Stream`] stands for.
#[verifier::ext_equal]
pub struct StreamModel {
    /// Whether this endpoint opened the stream.
    pub local: bool,
    /// Whether both endpoints send on the stream.
    pub bidi: bool,
    /// Whether everything that the peer sends was received.
    pub recv_fin: bool,
    /// Whether received data waits to be read.
    pub readable: bool,
    /// Sending side.
    pub send: SendModel,
}

impl StreamModel {
    /// Whether each endpoint has everything that the other one sends.
    pub open spec fn is_complete(self) -> bool {
        if self.bidi {
            self.recv_fin && self.send.is_complete()
        } else if self.local {
            self.send.is_complete()
        } else {
            self.recv_fin
        }
    }
}

impl View for Stream {
    type V = StreamModel;

    open spec fn view(&self) -> StreamModel {
        StreamModel {
            local: self.local,
            bidi: self.bidi,
            recv_fin: self.recv_fin,
            readable: self.readable,
            send: self.send@,
        }
    }
}

impl Stream {
    /// A stream on which nothing was sent or received.
    pub fn new(local: bool, bidi: bool) -> (s: Stream)
        ensures
            s.send.wf(),
            s@ == new_stream(local, bidi),
    {
        Stream { local, bidi, recv_fin: false, readable: false, send: SendBuf::new() }
    }

    /// Whether each endpoint has everything that the other one sends.
    pub fn is_complete(&self) -> (r: bool)
        requires
            self.send.wf(),
        ensures
            r == self@.is_complete(),
    {
        if self.bidi {
            self.recv_fin && self.send.is_complete()
        } else if self.local {
            self.send.is_complete()
        } else {
            self.recv_fin
        }
    }
}

/// A sending side on which nothing was written.
pub open spec fn new_send() -> SendModel {
    SendModel {
        data: Map::empty(),
        pending: Set::empty(),
        acked: Set::empty(),
        fin_off: None,
        closed: false,
        shutdown: false,
        stopped: None,
    }
}

/// A stream on which nothing was sent or received.
pub open spec fn new_stream(local: bool, bidi: bool) -> StreamModel {
    StreamModel { local, bidi, recv_fin: false, readable: false, send: new_send() }
}

/// Whether the identifier is that of a stream on which both endpoints send.
pub open spec fn is_bidi(stream_id: u64) -> bool {
    (stream_id / 2) % 2 == 0
}

/// All integers but one.
pub open spec fn all_but(excluded: u64) -> spec_fn(u64) -> bool {
    |x: u64| x != excluded
}

/// The streams of a connection.
#[derive(Debug)]
pub struct StreamMap {
    streams: HashMap<u64, Stream>,
    collected: HashSet<u64>,
    flushable: Vec<u64>,
    max_streams: usize,
}

/// What a [`StreamMap`] stands for.
#[verifier::ext_equal]
pub struct StreamsModel {
    /// The open streams.
    pub streams: Map<u64, StreamModel>,
    /// The streams that were open and are complete.
    pub collected: Set<u64>,
    /// The streams that have data to send, in the order in which they are served.
    pub flushable: Seq<u64>,
    /// How many streams may be open at once.
    pub max_streams: nat,
}

impl StreamsModel {
    /// Looking the stream up, and opening it when it does not exist: the streams
    /// afterwards, and the error if there is one.
    pub open spec fn get_or_create(self, stream_id: u64, local: bool) -> (
        StreamsModel,
        Option<Error>,
    ) {
        if self.collected.contains(stream_id) {
            (self, Some(Error::Done))
        } else if self.streams.contains_key(stream_id) {
            (self, None)
        } else if self.streams.dom().len() >= self.max_streams {
            (self, Some(Error::StreamLimit))
        } else {
            (self.with_stream(stream_id, new_stream(local, is_bidi(stream_id))), None)
        }
    }

    /// The streams with `s` as the stream `stream_id`.
    pub open spec fn with_stream(self, stream_id: u64, s: StreamModel) -> StreamsModel {
        StreamsModel { streams: self.streams.insert(stream_id, s), ..self }
    }

    /// The streams with `m` as the sending side of the stream `stream_id`.
    pub open spec fn with_send(self, stream_id: u64, m: SendModel) -> StreamsModel {
        self.with_stream(stream_id, StreamModel { send: m, ..self.streams[stream_id] })
    }

    /// The streams once the stream `stream_id` is closed for good.
    pub open spec fn collect(self, stream_id: u64) -> StreamsModel {
        StreamsModel {
            streams: self.streams.remove(stream_id),
            collected: self.collected.insert(stream_id),
            flushable: self.flushable.filter(all_but(stream_id)),
            ..self
        }
    }

    /// The streams once the stream `stream_id` is closed for good, if it is
    /// complete and nothing is left to read on it.
    pub open spec fn collect_if_complete(self, stream_id: u64) -> StreamsModel {
        if self.streams[stream_id].is_complete() && !self.streams[stream_id].readable {
            self.collect(stream_id)
        } else {
            self
        }
    }

    /// Writing a piece of data on an open stream that goes to the queue of the
    /// streams to serve unless it already had something to send.
    pub open spec fn write_at(self, stream_id: u64, data: Seq<u8>, off: u64, fin: bool) -> (
        StreamsModel,
        Option<Error>,
    ) {
        let send = self.streams[stream_id].send;
        let (m, e) = send.write_at(data, off, fin);
        if e is Some {
            (self, e)
        } else if send.is_flushable() {
            (self.with_send(stream_id, m), None)
        } else {
            (
                StreamsModel {
                    flushable: self.flushable.push(stream_id),
                    ..self.with_send(stream_id, m)
                },
                None,
            )
        }
    }

    /// The streams once the peer has acknowledged `len` bytes at `off` of an
    /// open stream.
    pub open spec fn ack(self, stream_id: u64, off: u64, len: nat) -> StreamsModel {
        self.with_send(stream_id, self.streams[stream_id].send.ack(off, len)).collect_if_complete(
            stream_id,
        )
    }

    /// The streams once it is known that the open stream `stream_id` gets no
    /// more data and, if `fin_off` is given, where it ends.
    pub open spec fn close(self, stream_id: u64, fin_off: Option<u64>) -> StreamsModel {
        let send = self.streams[stream_id].send;
        let m = SendModel {
            closed: true,
            fin_off: if fin_off is Some {
                fin_off
            } else {
                send.fin_off
            },
            ..send
        };
        self.with_send(stream_id, m).collect_if_complete(stream_id)
    }
}

impl View for StreamMap {
    type V = StreamsModel;

    closed spec fn view(&self) -> StreamsModel {
        StreamsModel {
            streams: self.streams@.map_values(|s: Stream| s@),
            collected: self.collected@,
            flushable: self.flushable@,
            max_streams: self.max_streams as nat,
        }
    }
}

impl StreamMap {
    /// The sending side of every stream is well formed, and no stream is both
    /// open and closed for good.
    pub closed spec fn wf(&self) -> bool {
        &&& forall|id: u64| #[trigger]
            self.streams@.contains_key(id) ==> self.streams@[id].send.wf()
        &&& self.streams@.dom().disjoint(self.collected@)
    }

    /// No stream is both open and closed for good, and what waits to be sent was
    /// written and is not acknowledged.
    pub proof fn lemma_wf(&self)
        requires
            self.wf(),
        ensures
            self@.streams.dom().disjoint(self@.collected),
            forall|id: u64| #[trigger] self@.streams.contains_key(id) ==> {
                let m = self@.streams[id].send;
                m.pending.subset_of(m.data.dom()) && m.data.dom().disjoint(m.acked)
            },
    {
        assert forall|id: u64| #[trigger] self@.streams.contains_key(id) implies {
            let m = self@.streams[id].send;
            m.pending.subset_of(m.data.dom()) && m.data.dom().disjoint(m.acked)
        } by {
            self.streams@[id].send.lemma_pending();
        }
    }

    /// No stream, and room for `max_streams` open ones.
    pub fn new(max_streams: usize) -> (s: StreamMap)
        ensures
            s.wf(),
            s@ == (StreamsModel {
                streams: Map::empty(),
                collected: Set::empty(),
                flushable: Seq::empty(),
                max_streams: max_streams as nat,
            }),
    {
        let s = StreamMap {
            streams: HashMap::new(),
            collected: HashSet::new(),
            flushable: Vec::new(),
            max_streams,
        };
        assert(s@.streams =~= Map::<u64, StreamModel>::empty());
        s
    }

    /// The open stream `stream_id`.
    pub fn get(&self, stream_id: u64) -> (r: Option<&Stream>)
        requires
            self.wf(),
        ensures
            r is Some <==> self@.streams.contains_key(stream_id),
            r matches Some(s) ==> s.send.wf() && s@ == self@.streams[stream_id],
    {
        self.streams.get(&stream_id)
    }

    /// Whether the stream `stream_id` is closed for good.
    pub fn is_collected(&self, stream_id: u64) -> (r: bool)
        requires
            self.wf(),
        ensures
            r == self@.collected.contains(stream_id),
    {
        self.collected.contains(&stream_id)
    }

    /// The streams that have data to send, in the order in which they are served.
    pub fn flushable(&self) -> (r: &Vec<u64>)
        requires
            self.wf(),
        ensures
            r@ == self@.flushable,
    {
        &self.flushable
    }

    /// Opens the stream `stream_id` if it does not exist.
    pub fn get_or_create(&mut self, stream_id: u64, local: bool) -> (r: Result<()>)
        requires
            old(self).wf(),
        ensures
            final(self).wf(),
            final(self)@ == old(self)@.get_or_create(stream_id, local).0,
            match old(self)@.get_or_create(stream_id, local).1 {
                Some(e) => r == Err::<(), Error>(e),
                None => r == Ok::<(), Error>(()),
            },
    {
        if self.collected.contains(&stream_id) {
            return Err(Error::Done);
        }
        if self.streams.contains_key(&stream_id) {
            return Ok(());
        }
        assert(self@.streams.dom() =~= self.streams@.dom());
        if self.streams.len() >= self.max_streams {
            return Err(Error::StreamLimit);
        }
        let s = Stream::new(local, (stream_id / 2) % 2 == 0);
        self.put(stream_id, s);
        Ok(())
    }

    /// Sets the open stream `stream_id`.
    fn put(&mut self, stream_id: u64, s: Stream)
        requires
            old(self).wf(),
            s.send.wf(),
            !old(self)@.collected.contains(stream_id),
        ensures
            final(self).wf(),
            final(self)@ == old(self)@.with_stream(stream_id, s@),
    {
        self.streams.insert(stream_id, s);
        assert(self@.streams =~= old(self)@.streams.insert(stream_id, s@));
    }

    /// Takes the open stream `stream_id` out.
    fn take(&mut self, stream_id: u64) -> (s: Stream)
        requires
            old(self).wf(),
            old(self)@.streams.contains_key(stream_id),
        ensures
            final(self).wf(),
            s.send.wf(),
            s@ == old(self)@.streams[stream_id],
            !old(self)@.collected.contains(stream_id),
            final(self)@ == (StreamsModel {
                streams: old(self)@.streams.remove(stream_id),
                ..old(self)@
            }),
    {
        let s = self.streams.remove(&stream_id).unwrap();
        assert(self@.streams =~= old(self)@.streams.remove(stream_id));
        s
    }
    /// Closes the open stream `stream_id` for good.
    pub fn collect(&mut self, stream_id: u64)
        requires
            old(self).wf(),
        ensures
            final(self).wf(),
            final(self)@ == old(self)@.collect(stream_id),
    {
        self.streams.remove(&stream_id);
        self.collected.insert(stream_id);
        let ghost keep = all_but(stream_id);
        let ghost queue = self.flushable@;
        let mut kept: Vec<u64> = Vec::new();
        let mut i: usize = 0;
        assert(queue.take(0).filter(keep) =~= Seq::<u64>::empty()) by {
            reveal(Seq::filter);
        }
        while i < self.flushable.len()
            invariant
                i <= queue.len(),
                queue == self.flushable@,
                keep == all_but(stream_id),
                kept@ == queue.take(i as int).filter(keep),
            decreases queue.len() - i,
        {
            let id: u64 = self.flushable[i];
            proof {
                reveal(Seq::filter);
                assert(queue.take(i + 1).drop_last() =~= queue.take(i as int));
            }
            if id != stream_id {
                kept.push(id);
            }
            i += 1;
        }
        assert(queue.take(i as int) =~= queue);
        self.flushable = kept;
        proof {
            assert(self@.streams =~= old(self)@.streams.remove(stream_id));
            assert(self@.flushable == old(self)@.collect(stream_id).flushable);
        }
    }

    /// Closes the open stream `stream_id` for good if it is complete and nothing
    /// is left to read on it.
    fn collect_if_complete(&mut self, stream_id: u64)
        requires
            old(self).wf(),
            old(self)@.streams.contains_key(stream_id),
        ensures
            final(self).wf(),
            final(self)@ == old(self)@.collect_if_complete(stream_id),
    {
        let done: bool = match self.get(stream_id) {
            Some(s) => s.is_complete() && !s.readable,
            None => false,
        };
        if done {
            self.collect(stream_id);
        }
    }

    /// Writes a piece of data on an open stream. The stream goes to the queue of
    /// the streams to serve unless it already had something to send.
    pub fn write_at_offset(&mut self, stream_id: u64, data: Vec<u8>, off: u64, fin: bool) -> (r:
        Result<usize>)
        requires
            old(self).wf(),
            old(self)@.streams.contains_key(stream_id),
            off + data@.len() <= u64::MAX,
        ensures
            final(self).wf(),
            final(self)@ == old(self)@.write_at(stream_id, data@, off, fin).0,
            match old(self)@.write_at(stream_id, data@, off, fin).1 {
                Some(e) => r == Err::<usize, Error>(e),
                None => r == Ok::<usize, Error>(data.len()),
            },
    {
        let mut s = self.take(stream_id);
        let was_flushable: bool = s.send.is_flushable();
        let r = s.send.write_at_offset(data, off, fin);
        let failed: bool = r.is_err();
        self.put(stream_id, s);
        if !failed && !was_flushable {
            self.flushable.push(stream_id);
        }
        proof {
            assert(self@.streams =~= old(self)@.write_at(stream_id, data@, off, fin).0.streams);
            assert(self@ =~= old(self)@.write_at(stream_id, data@, off, fin).0);
        }
        r
    }

    /// Asks an open stream to send `len` bytes at `off` again, and takes as much
    /// of what it has to send.
    #[verifier::spinoff_prover]
    #[verifier::rlimit(40)]
    pub fn emit_again(&mut self, stream_id: u64, off: u64, len: usize) -> (r: Result<Vec<u8>>)
        requires
            old(self).wf(),
            old(self)@.streams.contains_key(stream_id),
            off + len <= u64::MAX,
        ensures
            final(self).wf(),
            ({
                let asked = old(self)@.streams[stream_id].send.retransmit(off, len as nat);
                if asked.shutdown {
                    &&& r == Err::<Vec<u8>, Error>(Error::FinalSize)
                    &&& final(self)@ == old(self)@.with_send(stream_id, asked)
                } else {
                    &&& r is Ok
                    &&& r->Ok_0@ == asked.emitted(len as nat)
                    &&& final(self)@ == old(self)@.with_send(
                        stream_id,
                        asked.after_emit(len as nat),
                    )
                }
            }),
    {
        let mut s = self.take(stream_id);
        s.send.retransmit(off, len);
        let r = s.send.emit(len);
        self.put(stream_id, s);
        proof {
            let asked = old(self)@.streams[stream_id].send.retransmit(off, len as nat);
            if asked.shutdown {
                assert(self@.streams =~= old(self)@.with_send(stream_id, asked).streams);
            } else {
                assert(self@.streams =~= old(self)@.with_send(
                    stream_id,
                    asked.after_emit(len as nat),
                ).streams);
            }
        }
        r
    }

    /// Takes the next bytes to send of an open stream, at most `len` of them.
    #[verifier::spinoff_prover]
    #[verifier::rlimit(40)]
    pub fn emit(&mut self, stream_id: u64, len: usize) -> (r: Result<Vec<u8>>)
        requires
            old(self).wf(),
            old(self)@.streams.contains_key(stream_id),
        ensures
            final(self).wf(),
            ({
                let m = old(self)@.streams[stream_id].send;
                if m.shutdown {
                    &&& r == Err::<Vec<u8>, Error>(Error::FinalSize)
                    &&& final(self)@ == old(self)@
                } else {
                    &&& r is Ok
                    &&& r->Ok_0@ == m.emitted(len as nat)
                    &&& final(self)@ == old(self)@.with_send(stream_id, m.after_emit(len as nat))
                }
            }),
    {
        let mut s = self.take(stream_id);
        let r = s.send.emit(len);
        self.put(stream_id, s);
        proof {
            let m = old(self)@.streams[stream_id].send;
            if m.shutdown {
                assert(self@.streams =~= old(self)@.streams);
            } else {
                assert(self@.streams =~= old(self)@.with_send(
                    stream_id,
                    m.after_emit(len as nat),
                ).streams);
            }
        }
        r
    }

    /// Notes that the peer acknowledged `len` bytes at `off` of an open stream,
    /// and closes the stream for good if that completes it.
    pub fn ack(&mut self, stream_id: u64, off: u64, len: usize)
        requires
            old(self).wf(),
            old(self)@.streams.contains_key(stream_id),
            off + len <= u64::MAX,
        ensures
            final(self).wf(),
            final(self)@ == old(self)@.ack(stream_id, off, len as nat),
    {
        let mut s = self.take(stream_id);
        s.send.ack_and_drop(off, len);
        self.put(stream_id, s);
        assert(self@ =~= old(self)@.with_send(
            stream_id,
            old(self)@.streams[stream_id].send.ack(off, len as nat),
        ));
        self.collect_if_complete(stream_id);
    }

    /// Notes that an open stream gets no more data and, if `fin_off` is given,
    /// where it ends, and closes the stream for good if that completes it.
    pub fn close(&mut self, stream_id: u64, fin_off: Option<u64>)
        requires
            old(self).wf(),
            old(self)@.streams.contains_key(stream_id),
        ensures
            final(self).wf(),
            final(self)@ == old(self)@.close(stream_id, fin_off),
    {
        let mut s = self.take(stream_id);
        s.send.fc_set_close_offset();
        if let Some(off) = fin_off {
            s.send.fc_set_fin_off(off);
        }
        self.put(stream_id, s);
        proof {
            let send = old(self)@.streams[stream_id].send;
            let m = SendModel {
                closed: true,
                fin_off: if fin_off is Some {
                    fin_off
                } else {
                    send.fin_off
                },
                ..send
            };
            assert(self@ =~= old(self)@.with_send(stream_id, m));
        }
        self.collect_if_complete(stream_id);
    }

    /// The identifiers of the open streams.
    pub fn fc_get_stream_ids(&self) -> (ids: Vec<u64>)
        requires
            self.wf(),
        ensures
            ids@.no_duplicates(),
            forall|id: u64| #[trigger] ids@.contains(id) <==> self@.streams.contains_key(id),
    {
        let mut ids: Vec<u64> = Vec::new();
        for id in it: self.streams.keys()
            invariant
                ids@ == it.seq().take(it.index()).unref(),
                it.seq().unref().to_set() == self.streams@.dom(),
                it.seq().no_duplicates(),
                it.index() == it.seq().len() ==> ids@ == it.seq().unref(),
        {
            ids.push(*id);
            assert(ids@ =~= it.seq().take(it.index() + 1).unref());
            assert(it.index() + 1 == it.seq().len() ==> it.seq().take(it.index() + 1) =~= it.seq());
        }
        assert(ids@.to_set() == self.streams@.dom());
        ids
    }
}

/// Data is written at the offset that was asked for. The write is refused exactly on a
/// stopped stream, and where it does not fit the known end of the stream: it would go
/// beyond the end, or reach it without saying so. A refused write changes nothing. Else
/// each byte that the peer has not acknowledged is kept at its offset and waits to be sent,
/// all the other bytes are as they were, and the stream ends after the data where this is
/// said.
pub proof fn data_is_written_at_its_offset(m: SendModel, data: Seq<u8>, off: u64, fin: bool, x: u64)
    requires
        off + data.len() <= u64::MAX,
    ensures
        ({
            let (w, e) = m.write_at(data, off, fin);
            let end = off + data.len();
            let fits = match m.fin_off {
                Some(f) => end < f || (end == f && fin),
                None => true,
            };
            let fresh = off <= x < end && !m.acked.contains(x);
            &&& m.stopped matches Some(code) ==> e == Some(Error::StreamStopped(code))
            &&& m.stopped is None && !fits ==> e == Some(Error::FinalSize)
            &&& m.stopped is None && fits ==> e is None
            &&& e is Some ==> w == m
            &&& e is None ==> {
                &&& fresh ==> w.data.contains_key(x) && w.data[x] == data[x - off]
                    && w.pending.contains(x)
                &&& !fresh ==> w.data.contains_key(x) == m.data.contains_key(x)
                &&& !fresh && m.data.contains_key(x) ==> w.data[x] == m.data[x]
                &&& !fresh ==> w.pending.contains(x) == m.pending.contains(x)
                &&& w.acked == m.acked
                &&& w.fin_off == if fin {
                    Some(end as u64)
                } else {
                    m.fin_off
                }
                &&& w.closed == m.closed && w.shutdown == m.shutdown && w.stopped == m.stopped
            }
        }),
{
    let end = off + data.len();
    let piece = piece_map(off as int, data).remove_keys(m.acked);
    if off <= x < end && !m.acked.contains(x) {
        assert(piece.contains_key(x));
        assert(span(off as int, end).contains(x));
    } else {
        assert(!piece.contains_key(x));
    }
}

/// Bytes that are asked for again wait to be sent exactly where they are in the range that
/// was asked for and are still kept; those that waited before still do, and nothing else
/// changes.
pub proof fn kept_bytes_are_sent_again(m: SendModel, off: u64, len: nat, x: u64)
    ensures
        m.retransmit(off, len).pending.contains(x) <==> m.pending.contains(x) || (off <= x < off
            + len && m.data.contains_key(x)),
        m.retransmit(off, len).data == m.data,
        m.retransmit(off, len).acked == m.acked,
        m.retransmit(off, len).fin_off == m.fin_off,
        m.retransmit(off, len).closed == m.closed,
        m.retransmit(off, len).shutdown == m.shutdown,
        m.retransmit(off, len).stopped == m.stopped,
{
}

/// In `n` bytes of room go the bytes that wait from the lowest offset `lo` on, up to the
/// first one that does not wait: each with the value that is kept at its offset, and zeroes
/// in the room that is left. These bytes do not wait any more, all the others do as before.
pub proof fn lowest_bytes_leave_first(m: SendModel, n: nat, lo: u64, x: u64)
    requires
        m.pending.contains(lo),
        forall|y: u64| #[trigger] m.pending.contains(y) ==> lo <= y,
        lo + n <= u64::MAX,
    ensures
        ({
            let k = m.emit_len(n);
            let after = m.after_emit(n);
            &&& k <= n
            &&& n > 0 ==> k > 0
            &&& lo <= x < lo + k ==> m.pending.contains(x) && m.emitted(n)[x - lo] == m.data[x]
            &&& k < n ==> !m.pending.contains((lo + k) as u64)
            &&& m.emitted(n).len() == n
            &&& forall|i: int| k <= i < n ==> #[trigger] m.emitted(n)[i] == 0
            &&& after.pending.contains(x) <==> m.pending.contains(x) && !(lo <= x < lo + k)
            &&& after.data == m.data
            &&& after.acked == m.acked
            &&& after.fin_off == m.fin_off
            &&& after.closed == m.closed
            &&& after.shutdown == m.shutdown
            &&& after.stopped == m.stopped
        }),
{
    lemma_lowest(m.pending, lo);
    lemma_run(m.pending, lo as int, n);
    let k = m.emit_len(n);
    assert(m.pending != Set::<u64>::empty());
    if lo <= x < lo + k {
        assert(m.pending.contains((lo + (x - lo)) as u64));
    }
}

/// All the integers of a run are in the set, and the one after it is not.
proof fn lemma_run(s: Set<u64>, x: int, n: nat)
    requires
        0 <= x,
        x + n <= u64::MAX,
    ensures
        run_len(s, x, n) <= n,
        n > 0 && s.contains(x as u64) ==> run_len(s, x, n) > 0,
        run_len(s, x, n) < n ==> !s.contains((x + run_len(s, x, n)) as u64),
        forall|i: int| 0 <= i < run_len(s, x, n) ==> #[trigger] s.contains((x + i) as u64),
    decreases n,
{
    if n > 0 && s.contains(x as u64) {
        lemma_run(s, x + 1, (n - 1) as nat);
        assert forall|i: int| 0 <= i < run_len(s, x, n) implies #[trigger] s.contains(
            (x + i) as u64,
        ) by {
            if i > 0 {
                assert(s.contains((x + 1 + (i - 1)) as u64));
            }
        }
    }
}

/// Bytes that the peer has acknowledged are neither kept nor sent again, and are known to
/// be acknowledged; the bytes at all the other offsets are as they were.
pub proof fn acknowledged_bytes_are_released(m: SendModel, off: u64, len: nat, x: u64)
    ensures
        ({
            let a = m.ack(off, len);
            &&& off <= x < off + len ==> a.acked.contains(x) && !a.data.contains_key(x)
                && !a.pending.contains(x)
            &&& !(off <= x < off + len) ==> {
                &&& a.acked.contains(x) == m.acked.contains(x)
                &&& a.data.contains_key(x) == m.data.contains_key(x)
                &&& m.data.contains_key(x) ==> a.data[x] == m.data[x]
                &&& a.pending.contains(x) == m.pending.contains(x)
            }
            &&& a.fin_off == m.fin_off && a.closed == m.closed && a.shutdown == m.shutdown
                && a.stopped == m.stopped
        }),
{
}

/// A side of a stream is complete when the peer has acknowledged each byte before its end
/// and no other one, or when no more data comes and none is kept.
pub proof fn everything_is_acknowledged_on_a_complete_side(m: SendModel)
    ensures
        m.is_complete() <==> (exists|f: u64|
            m.fin_off == Some(f) && forall|x: u64| #[trigger] m.acked.contains(x) <==> x < f) || (
        m.closed && forall|x: u64| !#[trigger] m.data.contains_key(x)),
{
    if let Some(f) = m.fin_off {
        if m.acked == span(0, f as int) {
            assert forall|x: u64| #[trigger] m.acked.contains(x) <==> x < f by {}
        }
        if forall|x: u64| #[trigger] m.acked.contains(x) <==> x < f {
            assert(m.acked =~= span(0, f as int));
        }
    }
    if m.data.dom() == Set::<u64>::empty() {
        assert forall|x: u64| !#[trigger] m.data.contains_key(x) by {}
    }
    if forall|x: u64| !#[trigger] m.data.contains_key(x) {
        assert(m.data.dom() =~= Set::<u64>::empty());
    }
}

/// Each side that sends on a stream must be complete: both sides of a bidirectional one, the
/// local side of one that was opened here, and the peer's side of one that the peer opened.
pub proof fn both_sides_complete_a_stream(s: StreamModel)
    ensures
        s.bidi ==> (s.is_complete() <==> s.recv_fin && s.send.is_complete()),
        !s.bidi && s.local ==> (s.is_complete() <==> s.send.is_complete()),
        !s.bidi && !s.local ==> (s.is_complete() <==> s.recv_fin),
{
}

/// A stream that is open is found, one that was closed for good is not opened again, and
/// another one is opened as long as the limit is not reached: with nothing sent or received
/// on it, and bidirectional where the second bit of its identifier is zero. The other
/// streams stay as they were.
pub proof fn streams_are_opened_once(m: StreamsModel, id: u64, local: bool, other: u64)
    requires
        m.streams.dom().finite(),
        m.streams.dom().disjoint(m.collected),
        other != id,
    ensures
        ({
            let (after, e) = m.get_or_create(id, local);
            &&& m.collected.contains(id) <==> e == Some(Error::Done)
            &&& e == Some(Error::StreamLimit) <==> !m.collected.contains(id)
                && !m.streams.contains_key(id) && m.streams.dom().len() >= m.max_streams
            &&& e matches Some(error) ==> error == Error::Done || error == Error::StreamLimit
            &&& e is Some || m.streams.contains_key(id) ==> after == m
            &&& e is None ==> after.streams.contains_key(id)
            &&& e is None && !m.streams.contains_key(id) ==> {
                let s = after.streams[id];
                &&& s.local == local
                &&& s.bidi == (id % 4 < 2)
                &&& !s.recv_fin && !s.readable
                &&& s.send.fin_off is None && s.send.stopped is None
                &&& !s.send.closed && !s.send.shutdown
                &&& forall|x: u64|
                    !(#[trigger] s.send.data.contains_key(x)) && !s.send.pending.contains(x)
                        && !s.send.acked.contains(x)
            }
            &&& after.streams.contains_key(other) == m.streams.contains_key(other)
            &&& m.streams.contains_key(other) ==> after.streams[other] == m.streams[other]
            &&& after.collected == m.collected
            &&& after.flushable == m.flushable
            &&& after.max_streams == m.max_streams
        }),
{
}

/// A write on an open stream reaches that stream alone, as a write on its sending side. The
/// stream is put at the end of the queue of those to serve, unless something already
/// waited on it; the order of the others stays.
pub proof fn a_write_reaches_its_stream_alone(
    m: StreamsModel,
    id: u64,
    data: Seq<u8>,
    off: u64,
    fin: bool,
    other: u64,
)
    requires
        m.streams.contains_key(id),
        other != id,
    ensures
        ({
            let (after, e) = m.write_at(id, data, off, fin);
            let (w, refusal) = m.streams[id].send.write_at(data, off, fin);
            let waited = exists|x: u64| #[trigger] m.streams[id].send.pending.contains(x);
            &&& e == refusal
            &&& e is Some ==> after == m
            &&& e is None ==> {
                &&& after.streams[id].send == w
                &&& after.streams[id].local == m.streams[id].local
                &&& after.streams[id].bidi == m.streams[id].bidi
                &&& after.streams[id].recv_fin == m.streams[id].recv_fin
                &&& after.streams[id].readable == m.streams[id].readable
                &&& waited ==> after.flushable == m.flushable
                &&& !waited ==> after.flushable.len() == m.flushable.len() + 1
                    && after.flushable.last() == id && after.flushable.drop_last() == m.flushable
            }
            &&& after.streams.contains_key(id)
            &&& after.streams.contains_key(other) == m.streams.contains_key(other)
            &&& m.streams.contains_key(other) ==> after.streams[other] == m.streams[other]
            &&& after.collected == m.collected
            &&& after.max_streams == m.max_streams
        }),
{
    let (after, e) = m.write_at(id, data, off, fin);
    let pending = m.streams[id].send.pending;
    if forall|x: u64| !#[trigger] pending.contains(x) {
        assert(pending =~= Set::<u64>::empty());
    }
    if e is None && pending == Set::<u64>::empty() {
        assert(after.flushable.drop_last() =~= m.flushable);
    }
}

/// A stream that is closed for good is not open any more, is remembered as closed, and is
/// never served again; the other streams are as they were and keep their turns.
pub proof fn closed_streams_are_forgotten(m: StreamsModel, id: u64, other: u64)
    requires
        other != id,
    ensures
        ({
            let after = m.collect(id);
            &&& !after.streams.contains_key(id)
            &&& after.collected.contains(id)
            &&& !after.flushable.contains(id)
            &&& after.streams.contains_key(other) == m.streams.contains_key(other)
            &&& m.streams.contains_key(other) ==> after.streams[other] == m.streams[other]
            &&& after.collected.contains(other) == m.collected.contains(other)
            &&& after.flushable.contains(other) == m.flushable.contains(other)
            &&& after.max_streams == m.max_streams
        }),
{
    lemma_all_but(m.flushable, id, other);
}

proof fn lemma_pushed(s: Seq<u64>, y: u64, x: u64)
    ensures
        s.push(y).contains(x) <==> s.contains(x) || x == y,
{
    if s.contains(x) {
        let i = choose|i: int| 0 <= i < s.len() && s[i] == x;
        assert(s.push(y)[i] == x);
    }
    assert(s.push(y)[s.len() as int] == y);
}

proof fn lemma_all_but(s: Seq<u64>, id: u64, other: u64)
    requires
        other != id,
    ensures
        !s.filter(all_but(id)).contains(id),
        s.filter(all_but(id)).contains(other) == s.contains(other),
    decreases s.len(),
{
    reveal(Seq::filter);
    let f = s.filter(all_but(id));
    if s.len() > 0 {
        let front = s.drop_last();
        let g = front.filter(all_but(id));
        lemma_all_but(front, id, other);
        assert(s =~= front.push(s.last()));
        assert forall|x: u64| s.contains(x) <==> front.contains(x) || x == s.last() by {
            lemma_pushed(front, s.last(), x);
        }
        if s.last() != id {
            assert(f == g.push(s.last()));
            lemma_pushed(g, s.last(), id);
            lemma_pushed(g, s.last(), other);
        }
    }
}

/// An acknowledgment on an open stream releases the bytes of that stream alone. The stream is
/// closed for good exactly when it is then complete and nothing is left to read on it.
pub proof fn an_acknowledgment_reaches_its_stream_alone(
    m: StreamsModel,
    id: u64,
    off: u64,
    len: nat,
    other: u64,
)
    requires
        m.streams.contains_key(id),
        !m.collected.contains(id),
        other != id,
    ensures
        ({
            let after = m.ack(id, off, len);
            let s = m.streams[id];
            let t = StreamModel { send: s.send.ack(off, len), ..s };
            &&& after.collected.contains(id) <==> t.is_complete() && !s.readable
            &&& after.streams.contains_key(id) <==> !(t.is_complete() && !s.readable)
            &&& after.streams.contains_key(id) ==> after.streams[id] == t && after.flushable
                == m.flushable
            &&& after.collected.contains(id) ==> !after.flushable.contains(id)
            &&& after.streams.contains_key(other) == m.streams.contains_key(other)
            &&& m.streams.contains_key(other) ==> after.streams[other] == m.streams[other]
            &&& after.collected.contains(other) == m.collected.contains(other)
            &&& after.flushable.contains(other) == m.flushable.contains(other)
            &&& after.max_streams == m.max_streams
        }),
{
    let acked = m.with_send(id, m.streams[id].send.ack(off, len));
    closed_streams_are_forgotten(acked, id, other);
}

/// A stream that gets no more data is closed for good exactly when it is complete and
/// nothing is left to read on it. Else it keeps its bytes, and its end is the one that is
/// given, if there is one, or that it had. The other streams are as they were.
pub proof fn a_stream_without_more_data_ends(
    m: StreamsModel,
    id: u64,
    fin_off: Option<u64>,
    other: u64,
)
    requires
        m.streams.contains_key(id),
        !m.collected.contains(id),
        other != id,
    ensures
        ({
            let after = m.close(id, fin_off);
            let s = m.streams[id];
            let end = if fin_off is Some {
                fin_off
            } else {
                s.send.fin_off
            };
            let t = StreamModel { send: SendModel { closed: true, fin_off: end, ..s.send }, ..s };
            &&& after.collected.contains(id) <==> t.is_complete() && !s.readable
            &&& after.streams.contains_key(id) <==> !(t.is_complete() && !s.readable)
            &&& after.streams.contains_key(id) ==> after.streams[id] == t && after.flushable
                == m.flushable
            &&& after.streams.contains_key(other) == m.streams.contains_key(other)
            &&& m.streams.contains_key(other) ==> after.streams[other] == m.streams[other]
            &&& after.collected.contains(other) == m.collected.contains(other)
            &&& after.flushable.contains(other) == m.flushable.contains(other)
        }),
{
    let s = m.streams[id];
    let end = if fin_off is Some {
        fin_off
    } else {
        s.send.fin_off
    };
    let ended = m.with_send(id, SendModel { closed: true, fin_off: end, ..s.send });
    closed_streams_are_forgotten(ended, id, other);
}

/// Where no byte waits, nothing leaves, and the room is filled with zeroes.
pub proof fn nothing_leaves_where_nothing_waits(m: SendModel, n: nat, i: int)
    requires
        forall|y: u64| !(#[trigger] m.pending.contains(y)),
    ensures
        m.emit_len(n) == 0,
        m.emitted(n).len() == n,
        0 <= i < n ==> m.emitted(n)[i] == 0,
        m.after_emit(n) == m,
{
    assert(m.pending =~= Set::<u64>::empty());
    assert(m.after_emit(n).pending =~= m.pending);
}

/// A sending side that is shut down sends nothing any more; one that is stopped keeps the code of
/// the peer. Neither changes the data, nor does the end of the stream or of new data.
pub proof fn marks_of_a_sending_side_keep_the_data(
    a: &mut SendBuf,
    b: &mut SendBuf,
    c: &mut SendBuf,
    d: &mut SendBuf,
    e: &mut SendBuf,
    code: u64,
    off: u64,
    len: usize,
    r: Result<Vec<u8>>,
)
    requires
        call_ensures(SendBuf::shutdown, (a,), ()),
        call_ensures(SendBuf::stop, (b, code), ()),
        call_ensures(SendBuf::fc_set_close_offset, (c,), ()),
        call_ensures(SendBuf::fc_set_fin_off, (d, off), ()),
        call_ensures(SendBuf::emit, (e, len), r),
    ensures
        final(a)@.shutdown && final(a)@.data == old(a)@.data && final(a)@.pending == old(a)@.pending,
        final(a)@.fin_off == old(a)@.fin_off && final(a)@.stopped == old(a)@.stopped,
        final(b)@.stopped == Some(code) && final(b)@.data == old(b)@.data && final(b)@.pending
            == old(b)@.pending,
        final(b)@.shutdown == old(b)@.shutdown && final(b)@.fin_off == old(b)@.fin_off,
        final(c)@.closed && final(c)@.data == old(c)@.data && final(c)@.pending == old(c)@.pending,
        final(c)@.fin_off == old(c)@.fin_off && final(c)@.shutdown == old(c)@.shutdown,
        final(d)@.fin_off == Some(off) && final(d)@.data == old(d)@.data && final(d)@.pending
            == old(d)@.pending,
        final(d)@.closed == old(d)@.closed && final(d)@.shutdown == old(d)@.shutdown,
        r is Err <==> old(e)@.shutdown,
        r is Err ==> r->Err_0 == Error::FinalSize && final(e)@ == old(e)@,
        r is Ok ==> r->Ok_0@.len() == len && final(e)@.data == old(e)@.data,
{
}

/// Sending the bytes of a stream again gives the bytes that are kept at their offsets, where no
/// earlier one waits. The other streams stay.
pub proof fn bytes_are_sent_again_from_their_offset(
    m: &mut StreamMap,
    id: u64,
    off: u64,
    len: usize,
    r: Result<Vec<u8>>,
    i: int,
    other: u64,
)
    requires
        call_ensures(StreamMap::emit_again, (m, id, off, len), r),
        off + len <= u64::MAX,
        0 <= i < len,
        forall|x: u64|
            #![trigger old(m)@.streams[id].send.data.contains_key(x)]
            off <= x < off + len ==> old(m)@.streams[id].send.data.contains_key(x),
        forall|x: u64| #[trigger] old(m)@.streams[id].send.pending.contains(x) ==> off <= x,
        !old(m)@.streams[id].send.shutdown,
        other != id,
    ensures
        ({
            let s = old(m)@.streams[id].send;
            &&& r is Ok
            &&& r->Ok_0@.len() == len
            &&& r->Ok_0@[i] == s.data[(off + i) as u64]
            &&& final(m)@.streams[id].send.data == s.data
            &&& !final(m)@.streams[id].send.pending.contains((off + i) as u64)
            &&& final(m)@.streams.contains_key(other) == old(m)@.streams.contains_key(other)
            &&& old(m)@.streams.contains_key(other) ==> final(m)@.streams[other] == old(m)@.streams[other]
        }),
{
    let s = old(m)@.streams[id].send;
    let asked = s.retransmit(off, len as nat);
    assert(s.data.contains_key(off));
    assert(asked.pending.contains(off));
    assert forall|y: u64| #[trigger] asked.pending.contains(y) implies off <= y by {}
    let k = asked.emit_len(len as nat);
    lowest_bytes_leave_first(asked, len as nat, off, (off + i) as u64);
    if k < len {
        assert(s.data.contains_key((off + k) as u64));
        assert(asked.pending.contains((off + k) as u64));
    }
}

/// The identifiers of the open streams are given, each of them once.
pub proof fn identifiers_are_those_of_the_open_streams(m: StreamMap, ids: Vec<u64>, i: int, id: u64)
    requires
        call_ensures(StreamMap::fc_get_stream_ids, (&m,), ids),
        0 <= i < ids@.len(),
    ensures
        m@.streams.contains_key(ids@[i]),
        m@.streams.contains_key(id) ==> ids@.contains(id),
        forall|j: int| 0 <= j < ids@.len() && j != i ==> #[trigger] ids@[j] != ids@[i],
{
    assert(ids@.contains(ids@[i]));
}

} // verus!
