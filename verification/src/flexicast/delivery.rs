//! What a delegation brings to the unicast path.

use vstd::prelude::*;

use crate::error::Error;
use crate::flexicast::ack::piece_at;
use crate::flexicast::ack::AckModel;
use crate::flexicast::ack::DelegatedPiece;
use crate::flexicast::laws::lemma_close_frames_leaves_flow;
use crate::flexicast::laws::retransmission_cancels_out;
use crate::flexicast::laws::send_wf;
use crate::flexicast::reliable::RetransmissionModel;
use crate::ranges::span;
use crate::recovery::flexicast::is_lost;
use crate::recovery::flexicast::resolved_len;
use crate::recovery::flexicast::search_stops_at_the_first_unresolved;
use crate::recovery::flexicast::to_retransmit;
use crate::recovery::flexicast::Delegation;
use crate::recovery::Frame;
use crate::recovery::SentModel;
use crate::stream::lowest;
use crate::stream::piece_map;
use crate::stream::SendModel;
use crate::stream::StreamsModel;

verus! {

/// The frames of some packets, in order.
pub open spec fn all_frames(s: Seq<SentModel>) -> Seq<Frame>
    decreases s.len(),
{
    if s.len() == 0 {
        Seq::empty()
    } else {
        all_frames(s.drop_last()) + s.last().frames
    }
}

/// The offset after the last byte of a piece of stream.
pub open spec fn end_of(f: Frame) -> int {
    f->offset + f->length
}

/// Whether the flow can still send a piece of stream again: it keeps the bytes,
/// and nothing before their end waits to be sent.
pub open spec fn is_kept(fc: StreamsModel, f: Frame) -> bool {
    f is StreamHeader ==> {
        let m = fc.streams[f->stream_id].send;
        &&& fc.streams.contains_key(f->stream_id)
        &&& send_wf(m)
        &&& !m.shutdown
        &&& end_of(f) <= u64::MAX
        &&& span(f->offset as int, end_of(f)).subset_of(m.data.dom())
        &&& forall|x: u64| #[trigger] m.pending.contains(x) ==> x >= end_of(f)
    }
}

/// Whether a piece of stream is one of a stream that ends at `fin_off`.
pub open spec fn within(f: Frame, fin_off: Option<u64>) -> bool {
    fin_off matches Some(end) ==> end_of(f) < end || (f->fin && end_of(f) == end)
}

/// Whether some pieces agree on where their streams end.
pub open spec fn ends_agree(fs: Seq<Frame>) -> bool {
    forall|i: int, j: int|
        0 <= i < fs.len() && 0 <= j < fs.len() && (#[trigger] fs[i]) is StreamHeader && (
        #[trigger] fs[j]) is StreamHeader && fs[i]->stream_id == fs[j]->stream_id && fs[j]->fin
            ==> within(fs[i], Some(end_of(fs[j]) as u64))
}

/// Whether some pieces agree with a connection on where its streams end.
pub open spec fn ends_known(uc: StreamsModel, fs: Seq<Frame>) -> bool {
    forall|i: int|
        0 <= i < fs.len() && (#[trigger] fs[i]) is StreamHeader && uc.streams.contains_key(
            fs[i]->stream_id,
        ) ==> within(fs[i], uc.streams[fs[i]->stream_id].send.fin_off)
}

/// Whether a byte of a stream of the flow waits to be sent on the stream of a
/// unicast path, unless the receiver has it.
pub open spec fn byte_reached(from: SendModel, to: SendModel, x: u64) -> bool {
    to.acked.contains(x) || (to.data.contains_key(x) && to.data[x] == from.data[x]
        && to.pending.contains(x))
}

/// Whether a piece of stream of the flow waits to be sent on a unicast path, unless
/// the receiver has its bytes or the whole stream.
pub open spec fn is_reached(fc: StreamsModel, uc: StreamsModel, f: Frame) -> bool {
    f is StreamHeader ==> uc.collected.contains(f->stream_id) || (uc.streams.contains_key(
        f->stream_id,
    ) && forall|x: u64|
        f->offset <= x < end_of(f) ==> #[trigger] byte_reached(
            fc.streams[f->stream_id].send,
            uc.streams[f->stream_id].send,
            x,
        ))
}

/// Whether the end of a stream of the flow is known on a unicast path where a piece
/// says it, unless the receiver has the whole stream.
pub open spec fn is_end_reached(uc: StreamsModel, f: Frame) -> bool {
    f is StreamHeader && f->fin ==> uc.collected.contains(f->stream_id) || (
    uc.streams.contains_key(f->stream_id) && uc.streams[f->stream_id].send.fin_off == Some(
        end_of(f) as u64,
    ))
}

/// Whether an aggregator waits for the acknowledgment of a piece of stream.
pub open spec fn is_followed(a: AckModel, f: Frame) -> bool {
    let k = piece_at(a.pieces, f->stream_id, f->offset);
    k is Some && a.pieces[k->0].len >= f->length
}

/// Whether the aggregators of a delegation wait for the acknowledgment of a piece of
/// stream, unless it is one of the streams that the receiver has completely.
pub open spec fn both_follow(complete: Set<u64>, d: Delegation, f: Frame) -> bool {
    f is StreamHeader ==> complete.contains(f->stream_id) || (is_followed(d.fc_ack, f) && (
    d.uc_ack matches Some(a) ==> is_followed(a, f)))
}

/// Whether the pieces that end a stream agree on where.
pub open spec fn same_ends(fs: Seq<Frame>, gs: Seq<Frame>) -> bool {
    forall|i: int, j: int|
        0 <= i < fs.len() && 0 <= j < gs.len() && (#[trigger] fs[i]) is StreamHeader && (
        #[trigger] gs[j]) is StreamHeader && fs[i]->stream_id == gs[j]->stream_id && fs[i]->fin
            && gs[j]->fin ==> end_of(fs[i]) == end_of(gs[j])
}

/// Whether the end of each stream of a connection was known before some pieces, or
/// is that of one of them.
pub open spec fn ends_from(before: StreamsModel, after: StreamsModel, fs: Seq<Frame>) -> bool {
    forall|id: u64| #[trigger]
        after.streams.contains_key(id) ==> after.streams[id].send.fin_off is None || (
        before.streams.contains_key(id) && after.streams[id].send.fin_off
            == before.streams[id].send.fin_off) || exists|j: int|
            0 <= j < fs.len() && (#[trigger] fs[j]) is StreamHeader && fs[j]->stream_id == id
                && fs[j]->fin && after.streams[id].send.fin_off == Some(end_of(fs[j]) as u64)
}

proof fn lemma_frames_add(d: Delegation, a: Seq<Frame>, b: Seq<Frame>, follows: bool)
    ensures
        d.frames(a + b, follows) == d.frames(a, follows).frames(b, follows),
    decreases b.len(),
{
    if b.len() > 0 {
        assert((a + b).drop_last() =~= a + b.drop_last());
        lemma_frames_add(d, a, b.drop_last(), follows);
    } else {
        assert(a + b =~= a);
    }
}

proof fn lemma_packets_are_frames(d: Delegation, s: Seq<SentModel>, follows: bool)
    ensures
        d.packets(s, follows) == d.frames(all_frames(s), follows),
    decreases s.len(),
{
    if s.len() > 0 {
        lemma_packets_are_frames(d, s.drop_last(), follows);
        lemma_frames_add(d, all_frames(s.drop_last()), s.last().frames, follows);
    }
}

/// Taking a piece from the flow gives its bytes and leaves the flow as it was.
proof fn lemma_taken(m: SendModel, off: u64, len: nat)
    requires
        send_wf(m),
        off + len <= u64::MAX,
        span(off as int, off + len).subset_of(m.data.dom()),
        forall|x: u64| #[trigger] m.pending.contains(x) ==> x >= off + len,
    ensures
        m.retransmit(off, len).emitted(len) == Seq::new(len, |i: int| m.data[(off + i) as u64]),
        m.retransmit(off, len).after_emit(len) == m,
{
    if len > 0 {
        retransmission_cancels_out(m, off, len);
    } else {
        let asked = m.retransmit(off, len);
        assert(asked.pending =~= m.pending);
        assert(asked.emit_len(0) == 0);
        assert(asked.emitted(0) =~= Seq::new(0, |i: int| m.data[(off + i) as u64]));
        let lo = lowest(asked.pending);
        assert(span(lo as int, lo + 0) =~= Set::<u64>::empty());
        assert(asked.after_emit(0).pending =~= m.pending);
    }
}

proof fn lemma_piece_at(pieces: Seq<DelegatedPiece>, stream_id: u64, off: u64)
    ensures
        piece_at(pieces, stream_id, off) matches Some(k) ==> 0 <= k < pieces.len(),
    decreases pieces.len(),
{
    if pieces.len() > 0 {
        lemma_piece_at(pieces.drop_last(), stream_id, off);
    }
}

proof fn lemma_piece_at_update(
    pieces: Seq<DelegatedPiece>,
    i: int,
    p: DelegatedPiece,
    stream_id: u64,
    off: u64,
)
    requires
        0 <= i < pieces.len(),
        p.stream_id == pieces[i].stream_id,
        p.off == pieces[i].off,
    ensures
        piece_at(pieces.update(i, p), stream_id, off) == piece_at(pieces, stream_id, off),
    decreases pieces.len(),
{
    let front = pieces.drop_last();
    if i < pieces.len() - 1 {
        assert(pieces.update(i, p).drop_last() =~= front.update(i, p));
        lemma_piece_at_update(front, i, p, stream_id, off);
    } else {
        assert(pieces.update(i, p).drop_last() =~= front);
    }
}

/// An aggregator follows a piece that is delegated, and those that it followed.
proof fn lemma_delegate_follows(a: AckModel, f: Frame, g: Frame)
    ensures
        is_followed(a.delegate(f->stream_id, f->offset, f->length as u64), f),
        is_followed(a, g) ==> is_followed(
            a.delegate(f->stream_id, f->offset, f->length as u64),
            g,
        ),
{
    let after = a.delegate(f->stream_id, f->offset, f->length as u64);
    lemma_piece_at(a.pieces, f->stream_id, f->offset);
    lemma_piece_at(a.pieces, g->stream_id, g->offset);
    match piece_at(a.pieces, f->stream_id, f->offset) {
        Some(i) => {
            let p = after.pieces[i];
            lemma_piece_at_update(a.pieces, i, p, f->stream_id, f->offset);
            lemma_piece_at_update(a.pieces, i, p, g->stream_id, g->offset);
        },
        None => {
            assert(after.pieces.drop_last() =~= a.pieces);
        },
    }
}

/// The aggregators follow a frame that is delegated, and those that they followed.
proof fn lemma_frame_is_followed(d: Delegation, f: Frame, g: Frame)
    requires
        f is StreamHeader && !d.uc.collected.contains(f->stream_id) ==> d.delegates(f),
    ensures
        both_follow(d.uc.collected, d.frame(f, true), f),
        both_follow(d.uc.collected, d, g) ==> both_follow(d.uc.collected, d.frame(f, true), g),
{
    reveal(Delegation::frame);
    if f is StreamHeader && d.error is None {
        lemma_delegate_follows(d.fc_ack, f, g);
        if let Some(a) = d.uc_ack {
            lemma_delegate_follows(a, f, g);
        }
    }
}

/// A frame reaches the unicast path, and those that were there stay.
proof fn lemma_frame_reaches(
    d: Delegation,
    before: StreamsModel,
    fs: Seq<Frame>,
    follows: bool,
    n: int,
)
    requires
        0 <= n < fs.len(),
        d.error is None,
        d.frame(fs[n], follows).error is None,
        forall|i: int| 0 <= i < fs.len() ==> is_kept(d.fc, #[trigger] fs[i]),
        ends_agree(fs),
        ends_known(before, fs),
        ends_from(before, d.uc, fs.take(n)),
        forall|i: int| 0 <= i < n ==> is_reached(d.fc, d.uc, #[trigger] fs[i]),
        forall|i: int| 0 <= i < n ==> is_end_reached(d.uc, #[trigger] fs[i]),
    ensures
        d.frame(fs[n], follows).fc == d.fc,
        d.frame(fs[n], follows).uc.collected == d.uc.collected,
        fs[n] is StreamHeader && !d.uc.collected.contains(fs[n]->stream_id) ==> d.delegates(fs[n]),
        forall|i: int|
            0 <= i <= n ==> is_end_reached(d.frame(fs[n], follows).uc, #[trigger] fs[i]),
        ends_from(before, d.frame(fs[n], follows).uc, fs.take(n + 1)),
        forall|i: int|
            0 <= i <= n ==> is_reached(d.fc, d.frame(fs[n], follows).uc, #[trigger] fs[i]),
{
    reveal(Delegation::frame);
    let f = fs[n];
    let after = d.frame(f, follows);
    assert(is_kept(d.fc, f));
    if f is StreamHeader {
        let id = f->stream_id;
        let offset = f->offset;
        let length = f->length;
        let fin = f->fin;
        let len = length as nat;
        let m = d.fc.streams[id].send;
        lemma_taken(m, offset, len);
        let (uc, opening) = d.uc.get_or_create(id, d.fc.streams[id].local);
        if opening is None {
            let asked = m.retransmit(offset, len);
            let data = asked.emitted(len);
            assert(d.fc.with_send(id, asked.after_emit(len)).streams =~= d.fc.streams);
            assert(after.fc =~= d.fc);
            let old_send = uc.streams[id].send;
            // The end of the stream, where it is known, is not before the piece.
            assert(within(f, old_send.fin_off)) by {
                if d.uc.streams.contains_key(id) && old_send.fin_off is Some {
                    if before.streams.contains_key(id) && old_send.fin_off
                        == before.streams[id].send.fin_off {
                        assert(within(fs[n], before.streams[fs[n]->stream_id].send.fin_off));
                    } else {
                        let j = choose|j: int|
                            0 <= j < fs.take(n).len() && (#[trigger] fs.take(n)[j]) is StreamHeader
                                && fs.take(n)[j]->stream_id == id && fs.take(n)[j]->fin
                                && old_send.fin_off == Some(end_of(fs.take(n)[j]) as u64);
                        assert(fs.take(n)[j] == fs[j]);
                        assert(within(fs[n], Some(end_of(fs[j]) as u64)));
                    }
                }
            }
            let new_send = after.uc.streams[id].send;
            assert(new_send == old_send.write_at(data, offset, fin).0);
            assert(after.uc.collected == d.uc.collected);
            assert forall|x: u64| offset <= x < end_of(f) implies #[trigger] byte_reached(
                m,
                new_send,
                x,
            ) by {
                assert(span(offset as int, end_of(f)).contains(x));
                if !old_send.acked.contains(x) {
                    let piece = piece_map(offset as int, data).remove_keys(old_send.acked);
                    assert(piece.contains_key(x));
                    assert(data[x - offset] == m.data[x]);
                }
            }
            assert forall|i: int| 0 <= i <= n implies is_reached(
                d.fc,
                after.uc,
                #[trigger] fs[i],
            ) by {
                let g = fs[i];
                if i < n && g is StreamHeader && !d.uc.collected.contains(g->stream_id) {
                    assert(is_reached(d.fc, d.uc, g));
                    if g->stream_id == id {
                        assert forall|x: u64| g->offset <= x < end_of(g) implies #[trigger]
                            byte_reached(m, new_send, x) by {
                            assert(byte_reached(m, old_send, x));
                            let piece = piece_map(offset as int, data).remove_keys(old_send.acked);
                            if piece.contains_key(x) {
                                assert(data[x - offset] == m.data[x]);
                            }
                        }
                    } else {
                        assert(after.uc.streams[g->stream_id] == d.uc.streams[g->stream_id]);
                    }
                }
            }
            assert forall|i: int| 0 <= i <= n implies is_end_reached(
                after.uc,
                #[trigger] fs[i],
            ) by {
                let g = fs[i];
                if i < n && g is StreamHeader && g->fin && !d.uc.collected.contains(g->stream_id) {
                    assert(is_end_reached(d.uc, g));
                    if g->stream_id == id && fin {
                        assert(within(fs[i], Some(end_of(fs[n]) as u64)));
                        assert(within(fs[n], Some(end_of(fs[i]) as u64)));
                        assert(is_kept(d.fc, fs[i]));
                    } else if g->stream_id != id {
                        assert(after.uc.streams[g->stream_id] == d.uc.streams[g->stream_id]);
                    }
                }
            }
            assert forall|k: u64| #[trigger] after.uc.streams.contains_key(k) implies (
            after.uc.streams[k].send.fin_off is None || (before.streams.contains_key(k)
                && after.uc.streams[k].send.fin_off == before.streams[k].send.fin_off) || exists|
                j: int,
            |
                0 <= j < fs.take(n + 1).len() && (#[trigger] fs.take(n + 1)[j]) is StreamHeader
                    && fs.take(n + 1)[j]->stream_id == k && fs.take(n + 1)[j]->fin
                    && after.uc.streams[k].send.fin_off == Some(
                    end_of(fs.take(n + 1)[j]) as u64,
                )) by {
                if k == id && fin {
                    assert(fs.take(n + 1)[n] == f);
                } else if d.uc.streams.contains_key(k) {
                    lemma_end_stays(before, d.uc, fs, n, k);
                }
            }
        } else {
            assert(opening == Some(Error::Done));
            assert(after == d);
            lemma_ends_stay(before, d.uc, fs, n);
        }
    } else {
        assert(after == d);
        lemma_ends_stay(before, d.uc, fs, n);
    }
}

proof fn lemma_end_stays(before: StreamsModel, uc: StreamsModel, fs: Seq<Frame>, n: int, k: u64)
    requires
        0 <= n < fs.len(),
        ends_from(before, uc, fs.take(n)),
        uc.streams.contains_key(k),
    ensures
        uc.streams[k].send.fin_off is None || (before.streams.contains_key(k)
            && uc.streams[k].send.fin_off == before.streams[k].send.fin_off) || exists|j: int|
            0 <= j < fs.take(n + 1).len() && (#[trigger] fs.take(n + 1)[j]) is StreamHeader
                && fs.take(n + 1)[j]->stream_id == k && fs.take(n + 1)[j]->fin
                && uc.streams[k].send.fin_off == Some(end_of(fs.take(n + 1)[j]) as u64),
{
    if uc.streams[k].send.fin_off is Some && !(before.streams.contains_key(k)
        && uc.streams[k].send.fin_off == before.streams[k].send.fin_off) {
        let j = choose|j: int|
            0 <= j < fs.take(n).len() && (#[trigger] fs.take(n)[j]) is StreamHeader && fs.take(
                n,
            )[j]->stream_id == k && fs.take(n)[j]->fin && uc.streams[k].send.fin_off == Some(
                end_of(fs.take(n)[j]) as u64,
            );
        assert(fs.take(n + 1)[j] == fs.take(n)[j]);
    }
}

proof fn lemma_ends_stay(before: StreamsModel, uc: StreamsModel, fs: Seq<Frame>, n: int)
    requires
        0 <= n < fs.len(),
        ends_from(before, uc, fs.take(n)),
    ensures
        ends_from(before, uc, fs.take(n + 1)),
{
    assert forall|k: u64| #[trigger] uc.streams.contains_key(k) implies (
    uc.streams[k].send.fin_off is None || (before.streams.contains_key(k)
        && uc.streams[k].send.fin_off == before.streams[k].send.fin_off) || exists|j: int|
        0 <= j < fs.take(n + 1).len() && (#[trigger] fs.take(n + 1)[j]) is StreamHeader && fs.take(
            n + 1,
        )[j]->stream_id == k && fs.take(n + 1)[j]->fin && uc.streams[k].send.fin_off == Some(
            end_of(fs.take(n + 1)[j]) as u64,
        )) by {
        lemma_end_stays(before, uc, fs, n, k);
    }
}

proof fn lemma_frames_reach(d: Delegation, fs: Seq<Frame>, follows: bool, n: int)
    requires
        0 <= n <= fs.len(),
        d.error is None,
        d.frames(fs.take(n), follows).error is None,
        forall|i: int| 0 <= i < fs.len() ==> is_kept(d.fc, #[trigger] fs[i]),
        ends_agree(fs),
        ends_known(d.uc, fs),
    ensures
        d.frames(fs.take(n), follows).fc == d.fc,
        ends_from(d.uc, d.frames(fs.take(n), follows).uc, fs.take(n)),
        forall|i: int|
            0 <= i < n ==> is_reached(
                d.fc,
                d.frames(fs.take(n), follows).uc,
                #[trigger] fs[i],
            ),
        forall|i: int|
            0 <= i < n ==> is_end_reached(d.frames(fs.take(n), follows).uc, #[trigger] fs[i]),
        d.frames(fs.take(n), follows).uc.collected == d.uc.collected,
        follows ==> forall|i: int|
            0 <= i < n ==> both_follow(
                d.uc.collected,
                d.frames(fs.take(n), follows),
                #[trigger] fs[i],
            ),
    decreases n,
{
    if n > 0 {
        assert(fs.take(n).drop_last() =~= fs.take(n - 1));
        assert(fs.take(n).last() == fs[n - 1]);
        let so_far = d.frames(fs.take(n - 1), follows);
        assert(so_far.error is None) by {
            reveal(Delegation::frame);
        }
        lemma_frames_reach(d, fs, follows, n - 1);
        lemma_frame_reaches(so_far, d.uc, fs, follows, n - 1);
        if follows {
            assert forall|i: int| 0 <= i < n implies both_follow(
                d.uc.collected,
                d.frames(fs.take(n), follows),
                #[trigger] fs[i],
            ) by {
                lemma_frame_is_followed(so_far, fs[n - 1], fs[i]);
            }
        }
    }
}

proof fn lemma_close_keeps_reached(d: Delegation, closed: Frame, fc: StreamsModel, f: Frame)
    requires
        is_reached(fc, d.uc, f),
    ensures
        is_reached(fc, d.close(closed).uc, f),
{
    reveal(Delegation::close);
    let after = d.close(closed);
    if f is StreamHeader && closed is StreamHeader && closed->fin && d.uc.streams.contains_key(
        closed->stream_id,
    ) && f->stream_id == closed->stream_id && !after.uc.collected.contains(f->stream_id) {
        let to = d.uc.streams[f->stream_id].send;
        let now = after.uc.streams[f->stream_id].send;
        assert forall|x: u64| f->offset <= x < end_of(f) implies #[trigger] byte_reached(
            fc.streams[f->stream_id].send,
            now,
            x,
        ) by {
            assert(byte_reached(fc.streams[f->stream_id].send, to, x));
        }
    }
}

proof fn lemma_close_frames_keep_reached(
    d: Delegation,
    closed: Seq<Frame>,
    fc: StreamsModel,
    f: Frame,
)
    requires
        is_reached(fc, d.uc, f),
    ensures
        is_reached(fc, d.close_frames(closed).uc, f),
    decreases closed.len(),
{
    if closed.len() > 0 {
        lemma_close_frames_keep_reached(d, closed.drop_last(), fc, f);
        lemma_close_keeps_reached(d.close_frames(closed.drop_last()), closed.last(), fc, f);
    }
}

proof fn lemma_close_packets_keep_reached(
    d: Delegation,
    closed: Seq<SentModel>,
    fc: StreamsModel,
    f: Frame,
)
    requires
        is_reached(fc, d.uc, f),
    ensures
        is_reached(fc, d.close_packets(closed).uc, f),
        d.close_packets(closed).fc == d.fc,
        d.close_packets(closed).error == d.error,
    decreases closed.len(),
{
    if closed.len() > 0 {
        lemma_close_packets_keep_reached(d, closed.drop_last(), fc, f);
        let so_far = d.close_packets(closed.drop_last());
        lemma_close_frames_keep_reached(so_far, closed.last().frames, fc, f);
        lemma_close_frames_leaves_flow(so_far, closed.last().frames);
    }
}

proof fn lemma_close_keeps_end(d: Delegation, closed: Frame, f: Frame)
    requires
        is_end_reached(d.uc, f),
        same_ends(seq![f], seq![closed]),
        closed is StreamHeader ==> end_of(closed) <= u64::MAX,
    ensures
        is_end_reached(d.close(closed).uc, f),
{
    reveal(Delegation::close);
    assert(seq![f][0] == f && seq![closed][0] == closed);
}

proof fn lemma_close_frames_keep_end(d: Delegation, closed: Seq<Frame>, f: Frame)
    requires
        is_end_reached(d.uc, f),
        same_ends(seq![f], closed),
        forall|i: int|
            0 <= i < closed.len() && (#[trigger] closed[i]) is StreamHeader ==> end_of(closed[i])
                <= u64::MAX,
    ensures
        is_end_reached(d.close_frames(closed).uc, f),
    decreases closed.len(),
{
    if closed.len() > 0 {
        let front = closed.drop_last();
        assert forall|i: int|
            0 <= i < front.len() && (#[trigger] front[i]) is StreamHeader implies end_of(front[i])
            <= u64::MAX by {
            assert(front[i] == closed[i]);
        }
        assert(same_ends(seq![f], front)) by {
            assert forall|j: int| 0 <= j < front.len() implies #[trigger] front[j] == closed[j] by {}
        }
        lemma_close_frames_keep_end(d, front, f);
        assert(closed[closed.len() - 1] == closed.last());
        lemma_close_keeps_end(d.close_frames(front), closed.last(), f);
    }
}

proof fn lemma_close_packets_are_frames(d: Delegation, closed: Seq<SentModel>)
    ensures
        d.close_packets(closed) == d.close_frames(all_frames(closed)),
    decreases closed.len(),
{
    if closed.len() > 0 {
        lemma_close_packets_are_frames(d, closed.drop_last());
        lemma_close_frames_add(d, all_frames(closed.drop_last()), closed.last().frames);
    }
}

proof fn lemma_close_frames_add(d: Delegation, a: Seq<Frame>, b: Seq<Frame>)
    ensures
        d.close_frames(a + b) == d.close_frames(a).close_frames(b),
    decreases b.len(),
{
    if b.len() > 0 {
        assert((a + b).drop_last() =~= a + b.drop_last());
        lemma_close_frames_add(d, a, b.drop_last());
    } else {
        assert(a + b =~= a);
    }
}

/// The frames of the lost packets at the front of a queue: a delegation closes the
/// streams that end there.
pub open spec fn closing_frames(s: Seq<SentModel>) -> Seq<Frame> {
    all_frames(s.take(resolved_len(s) as int).filter(is_lost()))
}

/// All that a delegation has to bring to a receiver reaches its unicast path: each
/// piece of stream of each packet that the receiver needs waits to be sent there
/// with the bytes that the flow has, except for bytes that the receiver already
/// acknowledged and for streams that it has completely. The end of a stream is known
/// there with the piece that says it, and where the kind of retransmission asks for
/// it, both aggregators wait for the acknowledgment of the piece. The streams of the
/// flow are as they were. This holds when the flow still keeps the pieces, the ends of
/// the streams agree, and the delegation meets no error.
pub proof fn needed_packets_reach_the_unicast_path(
    d: Delegation,
    s: Seq<SentModel>,
    kind: RetransmissionModel,
    recv: Set<u64>,
    i: int,
)
    requires
        d.error is None,
        d.outcome(s, kind, recv).error is None,
        ({
            let fs = all_frames(to_retransmit(s, kind, recv));
            &&& 0 <= i < fs.len()
            &&& forall|j: int| 0 <= j < fs.len() ==> is_kept(d.fc, #[trigger] fs[j])
            &&& ends_agree(fs)
            &&& ends_known(d.uc, fs)
        }),
    ensures
        is_reached(
            d.fc,
            d.outcome(s, kind, recv).uc,
            all_frames(to_retransmit(s, kind, recv))[i],
        ),
        ({
            let fs = all_frames(to_retransmit(s, kind, recv));
            let gs = closing_frames(s);
            same_ends(fs, gs) && (forall|j: int|
                0 <= j < gs.len() && (#[trigger] gs[j]) is StreamHeader ==> end_of(gs[j])
                    <= u64::MAX) ==> is_end_reached(d.outcome(s, kind, recv).uc, fs[i])
        }),
        kind is Delegates ==> both_follow(
            d.uc.collected,
            d.outcome(s, kind, recv),
            all_frames(to_retransmit(s, kind, recv))[i],
        ),
        d.outcome(s, kind, recv).fc == d.fc,
{
    let start = d.acked_first(kind);
    let packets = to_retransmit(s, kind, recv);
    let fs = all_frames(packets);
    let sent = start.packets(packets, kind.follows());
    lemma_packets_are_frames(start, packets, kind.follows());
    assert(fs.take(fs.len() as int) =~= fs);
    assert(sent.error is None);
    lemma_frames_reach(start, fs, kind.follows(), fs.len() as int);
    assert(is_reached(d.fc, sent.uc, fs[i]));
    let lost = s.take(resolved_len(s) as int).filter(is_lost());
    lemma_close_packets_keep_reached(sent, lost, d.fc, fs[i]);
    let gs = closing_frames(s);
    lemma_close_packets_are_frames(sent, lost);
    assert(is_end_reached(sent.uc, fs[i]));
    if same_ends(fs, gs) && (forall|j: int|
        0 <= j < gs.len() && (#[trigger] gs[j]) is StreamHeader ==> end_of(gs[j]) <= u64::MAX) {
        assert(same_ends(seq![fs[i]], gs));
        lemma_close_frames_keep_end(sent, gs, fs[i]);
    }
    if kind is Delegates {
        assert(both_follow(d.uc.collected, sent, fs[i]));
        lemma_close_frames_leaves_flow(sent, gs);
    }
}

/// Streams that end with a lost packet at the front of the queue get no more data on the unicast
/// path after a delegation without an error: each of them that is still open there is closed
/// for new data, whether or not the receiver needed the packet.
pub proof fn lost_ends_close_their_streams(
    d: Delegation,
    s: Seq<SentModel>,
    kind: RetransmissionModel,
    recv: Set<u64>,
    i: int,
)
    requires
        d.outcome(s, kind, recv).error is None,
        0 <= i < closing_frames(s).len(),
        closing_frames(s)[i] is StreamHeader,
        closing_frames(s)[i]->fin,
    ensures
        ({
            let f = closing_frames(s)[i];
            let uc = d.outcome(s, kind, recv).uc;
            uc.streams.contains_key(f->stream_id) ==> uc.streams[f->stream_id].send.closed
        }),
{
    let sent = d.acked_first(kind).packets(to_retransmit(s, kind, recv), kind.follows());
    let lost = s.take(resolved_len(s) as int).filter(is_lost());
    lemma_close_packets_are_frames(sent, lost);
    lemma_close_frames_leaves_flow(sent, closing_frames(s));
    lemma_closed(sent, closing_frames(s), i);
}

proof fn lemma_closed(d: Delegation, fs: Seq<Frame>, i: int)
    requires
        0 <= i < fs.len(),
        fs[i] is StreamHeader,
        fs[i]->fin,
    ensures
        ({
            let uc = d.close_frames(fs).uc;
            uc.streams.contains_key(fs[i]->stream_id) ==> uc.streams[fs[i]->stream_id].send.closed
        }),
    decreases fs.len(),
{
    reveal(Delegation::close);
    let front = fs.drop_last();
    if i < front.len() {
        assert(front[i] == fs[i]);
        lemma_closed(d, front, i);
    }
}

/// A frame of a packet is one of those of all the packets.
proof fn lemma_frame_found(s: Seq<SentModel>, m: int, j: int) -> (i: int)
    requires
        0 <= m < s.len(),
        0 <= j < s[m].frames.len(),
    ensures
        0 <= i < all_frames(s).len(),
        all_frames(s)[i] == s[m].frames[j],
    decreases s.len(),
{
    if m == s.len() - 1 {
        all_frames(s.drop_last()).len() + j
    } else {
        lemma_frame_found(s.drop_last(), m, j)
    }
}

/// A stream that ends in a lost packet gets no more data on the unicast path after a delegation
/// without an error, where all the packets before it are lost or acknowledged.
pub proof fn ends_in_lost_packets_close_their_streams(
    d: Delegation,
    s: Seq<SentModel>,
    kind: RetransmissionModel,
    recv: Set<u64>,
    k: int,
    j: int,
)
    requires
        d.outcome(s, kind, recv).error is None,
        0 <= k < s.len(),
        s[k].time_lost is Some,
        forall|i: int|
            0 <= i < k ==> (#[trigger] s[i]).time_lost is Some || s[i].time_acked is Some,
        0 <= j < s[k].frames.len(),
        s[k].frames[j] is StreamHeader,
        s[k].frames[j]->fin,
    ensures
        ({
            let f = s[k].frames[j];
            let uc = d.outcome(s, kind, recv).uc;
            uc.streams.contains_key(f->stream_id) ==> uc.streams[f->stream_id].send.closed
        }),
{
    broadcast use vstd::seq_lib::group_filter_ensures;

    search_stops_at_the_first_unresolved(s, k);
    let front = s.take(resolved_len(s) as int);
    assert(front[k] == s[k]);
    assert(is_lost()(front[k]));
    let lost = front.filter(is_lost());
    assert(lost.contains(front[k]));
    let m = choose|m: int| 0 <= m < lost.len() && lost[m] == s[k];
    let i = lemma_frame_found(lost, m, j);
    lost_ends_close_their_streams(d, s, kind, recv, i);
}

} // verus!
