//! Laws of the reliability mechanism.

use vstd::prelude::*;

use crate::connection::ConnectionModel;
use crate::flexicast::ack::piece_at;
use crate::flexicast::ack::AckModel;
use crate::flexicast::ack::DelegatedPiece;
use crate::flexicast::ack::StreamPiece;
use crate::flexicast::reliable::RetransmissionModel;
use crate::ranges::span;
use crate::recovery::flexicast::is_lost;
use crate::recovery::flexicast::lemma_packets_from;
use crate::recovery::flexicast::lemma_packets_keep_ack;
use crate::recovery::flexicast::lemma_resolved_len;
use crate::recovery::flexicast::needed;
use crate::recovery::flexicast::reach;
use crate::recovery::flexicast::resolved_len;
use crate::recovery::flexicast::to_retransmit;
use crate::recovery::flexicast::Delegation;
use crate::recovery::lemma_settled_len;
use crate::recovery::newly_acked;
use crate::recovery::number_of;
use crate::recovery::settled_len;
use crate::recovery::EpochModel;
use crate::recovery::Frame;
use crate::recovery::RecoveryModel;
use crate::recovery::SentModel;
use crate::stream::lowest;
use crate::stream::piece_map;
use crate::stream::run_len;
use crate::stream::SendModel;
use crate::stream::StreamsModel;
use crate::time::Duration;
use crate::time::Instant;

verus! {

/// What waits to be sent was written, and nothing that is kept is acknowledged.
pub open spec fn send_wf(m: SendModel) -> bool {
    &&& m.pending.subset_of(m.data.dom())
    &&& m.data.dom().disjoint(m.acked)
}

proof fn lemma_run_covers(s: Set<u64>, a: int, n: nat)
    requires
        0 <= a,
        a + n <= u64::MAX,
        span(a, a + n).subset_of(s),
    ensures
        run_len(s, a, n) == n,
    decreases n,
{
    if n > 0 {
        assert(span(a, a + n).contains(a as u64));
        assert(span(a + 1, a + n).subset_of(s)) by {
            assert forall|x: u64| span(a + 1, a + n).contains(x) implies s.contains(x) by {
                assert(span(a, a + n).contains(x));
            }
        }
        lemma_run_covers(s, a + 1, (n - 1) as nat);
    }
}

/// Asking a stream to send a piece again and sending it cancels out: what goes
/// out is the piece, and the stream is as it was. This holds of a piece that is
/// still kept, when nothing before its end waits to be sent.
pub proof fn retransmission_cancels_out(m: SendModel, off: u64, len: nat)
    requires
        send_wf(m),
        len > 0,
        off + len <= u64::MAX,
        span(off as int, off + len).subset_of(m.data.dom()),
        forall|x: u64| #[trigger] m.pending.contains(x) ==> x >= off + len,
    ensures
        m.retransmit(off, len).emitted(len) == Seq::new(len, |i: int| m.data[(off + i) as u64]),
        m.retransmit(off, len).after_emit(len) == m,
{
    let asked = m.retransmit(off, len);
    let piece = span(off as int, off + len);
    assert(piece.intersect(m.data.dom()) =~= piece);
    assert(asked.pending =~= m.pending.union(piece));
    assert(piece.contains(off));
    assert(asked.pending.contains(off));
    assert forall|y: u64| asked.pending.contains(y) implies off <= y by {}
    assert(lowest(asked.pending) == off);
    assert(piece.subset_of(asked.pending));
    lemma_run_covers(asked.pending, off as int, len);
    assert(asked.emit_len(len) == len);
    assert(asked.emitted(len) =~= Seq::new(len, |i: int| m.data[(off + i) as u64]));
    assert(asked.after_emit(len).pending =~= m.pending);
}

/// A lost piece of stream reaches the unicast path: after a delegation of a
/// piece that the flow still keeps, its bytes are those of the stream of the
/// unicast path, where they wait to be sent, and the streams of the flow are as
/// they were.
pub proof fn delegated_piece_reaches_the_unicast_path(
    d: Delegation,
    stream_id: u64,
    offset: u64,
    length: usize,
    fin: bool,
    follows: bool,
)
    requires
        d.error is None,
        d.fc.streams.contains_key(stream_id),
        length > 0,
        offset + length <= u64::MAX,
        ({
            let m = d.fc.streams[stream_id].send;
            &&& send_wf(m)
            &&& !m.shutdown
            &&& span(offset as int, offset + length).subset_of(m.data.dom())
            &&& forall|x: u64| #[trigger] m.pending.contains(x) ==> x >= offset + length
        }),
        ({
            let (uc, e) = d.uc.get_or_create(stream_id, d.fc.streams[stream_id].local);
            let m = uc.streams[stream_id].send;
            &&& e is None
            &&& m.stopped is None
            &&& m.fin_off matches Some(f) ==> offset + length < f || (fin && offset + length == f)
            &&& span(offset as int, offset + length).disjoint(m.acked)
        }),
    ensures
        ({
            let f = Frame::StreamHeader { stream_id, offset, length, fin };
            let after = d.frame(f, follows);
            let sent = after.uc.streams[stream_id].send;
            &&& after.error is None
            &&& after.fc == d.fc
            &&& after.uc.streams.contains_key(stream_id)
            &&& forall|x: u64|
                offset <= x < offset + length ==> sent.data.contains_key(x)
                    && #[trigger] sent.data[x] == d.fc.streams[stream_id].send.data[x]
                    && sent.pending.contains(x)
        }),
{
    reveal(Delegation::frame);
    let len = length as nat;
    let m = d.fc.streams[stream_id].send;
    retransmission_cancels_out(m, offset, len);
    let (uc, e) = d.uc.get_or_create(stream_id, d.fc.streams[stream_id].local);
    let data = m.retransmit(offset, len).emitted(len);
    let after = d.frame(Frame::StreamHeader { stream_id, offset, length, fin }, follows);
    assert(after.fc.streams =~= d.fc.streams);
    assert(after.fc =~= d.fc);
    let before = uc.streams[stream_id].send;
    let sent = after.uc.streams[stream_id].send;
    assert(sent == before.write_at(data, offset, fin).0);
    assert forall|x: u64| offset <= x < offset + length implies sent.data.contains_key(x)
        && #[trigger] sent.data[x] == m.data[x] && sent.pending.contains(x) by {
        assert(span(offset as int, offset + length).contains(x));
        assert(!before.acked.contains(x));
        let piece = piece_map(offset as int, data).remove_keys(before.acked);
        assert(piece.contains_key(x));
        assert(data[x - offset] == m.data[x]);
    }
}

/// How many of some receivers' acknowledgments concern the packet `pn`.
pub open spec fn nb_acks(acks: Seq<Set<u64>>, pn: u64) -> nat
    decreases acks.len(),
{
    if acks.len() == 0 {
        0
    } else {
        nb_acks(acks.drop_last(), pn) + if acks.last().contains(pn) {
            1nat
        } else {
            0
        }
    }
}

/// An aggregator after some acknowledgments.
pub open spec fn after_acks(a: AckModel, acks: Seq<Set<u64>>) -> AckModel
    decreases acks.len(),
{
    if acks.len() == 0 {
        a
    } else {
        after_acks(a, acks.drop_last()).on_ack(acks.last())
    }
}

/// A packet is done exactly when all the receivers acknowledged it, and it is
/// reported exactly then; before, the aggregator knows how many are missing.
pub proof fn packet_is_done_when_all_receivers_acknowledged(
    a: AckModel,
    acks: Seq<Set<u64>>,
    pn: u64,
)
    requires
        a.nb_recv >= 1,
        !a.missing.contains_key(pn),
        !a.done.contains(pn),
        !a.full.contains(pn),
    ensures
        after_acks(a, acks).nb_recv == a.nb_recv,
        after_acks(a, acks).done.contains(pn) <==> nb_acks(acks, pn) >= a.nb_recv,
        after_acks(a, acks).full.contains(pn) <==> nb_acks(acks, pn) >= a.nb_recv,
        after_acks(a, acks).missing.contains_key(pn) <==> 0 < nb_acks(acks, pn) < a.nb_recv,
        0 < nb_acks(acks, pn) < a.nb_recv ==> after_acks(a, acks).missing[pn] == a.nb_recv
            - nb_acks(acks, pn),
    decreases acks.len(),
{
    if acks.len() > 0 {
        packet_is_done_when_all_receivers_acknowledged(a, acks.drop_last(), pn);
        let b = after_acks(a, acks.drop_last());
        assert(b.completed(acks.last()).contains(pn) <==> b.counts(acks.last(), pn) && b.count(pn)
            <= 1);
    }
}

/// An aggregator after a piece of stream was delegated to `k` receivers.
pub open spec fn delegated_to(a: AckModel, stream_id: u64, off: u64, len: u64, k: nat) -> AckModel
    decreases k,
{
    if k == 0 {
        a
    } else {
        delegated_to(a, stream_id, off, len, (k - 1) as nat).delegate(stream_id, off, len)
    }
}

/// An aggregator after `k` receivers acknowledged a piece of stream.
pub open spec fn acked_by(a: AckModel, stream_id: u64, off: u64, len: u64, k: nat) -> AckModel
    decreases k,
{
    if k == 0 {
        a
    } else {
        acked_by(a, stream_id, off, len, (k - 1) as nat).on_stream_ack(stream_id, off, len)
    }
}

/// A piece that was delegated to `k` receivers is reported when the last of them
/// acknowledges it, not before, and then leaves no trace.
pub proof fn delegated_piece_is_released_by_the_last_acknowledgment(
    a: AckModel,
    stream_id: u64,
    off: u64,
    len: u64,
    k: nat,
    j: nat,
)
    requires
        piece_at(a.pieces, stream_id, off) is None,
        1 <= k <= u64::MAX,
        j <= k,
    ensures
        ({
            let after = acked_by(delegated_to(a, stream_id, off, len, k), stream_id, off, len, j);
            if j < k {
                after == (AckModel {
                    pieces: a.pieces.push(
                        DelegatedPiece { stream_id, off, len, missing: (k - j) as u64 },
                    ),
                    ..a
                })
            } else {
                after == (AckModel {
                    acked_pieces: a.acked_pieces.push(StreamPiece { stream_id, off, len }),
                    ..a
                })
            }
        }),
    decreases k, j,
{
    if j > 0 {
        delegated_piece_is_released_by_the_last_acknowledgment(
            a,
            stream_id,
            off,
            len,
            k,
            (j - 1) as nat,
        );
        let p = DelegatedPiece { stream_id, off, len, missing: (k - j + 1) as u64 };
        let before = a.pieces.push(p);
        assert(piece_at(before, stream_id, off) == Some(before.len() - 1));
        assert(before.remove(before.len() - 1) =~= a.pieces);
        assert(before.update(
            before.len() - 1,
            DelegatedPiece { missing: (k - j) as u64, ..p },
        ) =~= a.pieces.push(DelegatedPiece { missing: (k - j) as u64, ..p }));
    } else if k > 1 {
        delegated_piece_is_released_by_the_last_acknowledgment(
            a,
            stream_id,
            off,
            len,
            (k - 1) as nat,
            0,
        );
        let p = DelegatedPiece { stream_id, off, len, missing: (k - 1) as u64 };
        let before = a.pieces.push(p);
        assert(piece_at(before, stream_id, off) == Some(before.len() - 1));
        assert(before.update(before.len() - 1, DelegatedPiece { missing: k as u64, ..p })
            =~= a.pieces.push(DelegatedPiece { missing: k as u64, ..p }));
    } else {
        assert(delegated_to(a, stream_id, off, len, 0) == a);
    }
}

proof fn lemma_frame_leaves_acks(d: Delegation, f: Frame, acks: (AckModel, Option<AckModel>))
    requires
        (d.fc_ack, d.uc_ack) == acks,
    ensures
        (d.frame(f, false).fc_ack, d.frame(f, false).uc_ack) == acks,
{
    reveal(Delegation::frame);
}

proof fn lemma_frames_leave_acks(d: Delegation, fs: Seq<Frame>)
    ensures
        d.frames(fs, false).fc_ack == d.fc_ack,
        d.frames(fs, false).uc_ack == d.uc_ack,
    decreases fs.len(),
{
    if fs.len() > 0 {
        lemma_frames_leave_acks(d, fs.drop_last());
        lemma_frame_leaves_acks(d.frames(fs.drop_last(), false), fs.last(), (d.fc_ack, d.uc_ack));
    }
}

proof fn lemma_packets_leave_acks(d: Delegation, s: Seq<SentModel>)
    ensures
        d.packets(s, false).fc_ack == d.fc_ack,
        d.packets(s, false).uc_ack == d.uc_ack,
    decreases s.len(),
{
    if s.len() > 0 {
        lemma_packets_leave_acks(d, s.drop_last());
        lemma_frames_leave_acks(d.packets(s.drop_last(), false), s.last().frames);
    }
}

proof fn lemma_close_leaves_flow(d: Delegation, s: Seq<SentModel>)
    ensures
        d.close_packets(s).fc_ack == d.fc_ack,
        d.close_packets(s).uc_ack == d.uc_ack,
        d.close_packets(s).fc == d.fc,
        d.close_packets(s).error == d.error,
    decreases s.len(),
{
    if s.len() > 0 {
        lemma_close_leaves_flow(d, s.drop_last());
        lemma_close_frames_leaves_flow(d.close_packets(s.drop_last()), s.last().frames);
    }
}

pub proof fn lemma_close_frames_leaves_flow(d: Delegation, fs: Seq<Frame>)
    ensures
        d.close_frames(fs).fc_ack == d.fc_ack,
        d.close_frames(fs).uc_ack == d.uc_ack,
        d.close_frames(fs).fc == d.fc,
        d.close_frames(fs).error == d.error,
    decreases fs.len(),
{
    if fs.len() > 0 {
        lemma_close_frames_leaves_flow(d, fs.drop_last());
        reveal(Delegation::close);
    }
}

/// The flow is not aware of a full retransmission, and a retransmission by one
/// path on its own only tells it that one receiver has the packets: neither adds
/// a piece of stream that the flow would wait for.
pub proof fn only_delegations_are_followed(
    d: Delegation,
    s: Seq<SentModel>,
    kind: RetransmissionModel,
    recv: Set<u64>,
)
    requires
        !(kind is Delegates),
    ensures
        d.outcome(s, kind, recv).uc_ack == d.uc_ack,
        d.outcome(s, kind, recv).fc_ack == match kind {
            RetransmissionModel::PerUcPath(pns) => d.fc_ack.on_ack(pns),
            _ => d.fc_ack,
        },
        d.outcome(s, kind, recv).fc_ack.pieces == d.fc_ack.pieces,
{
    let start = d.acked_first(kind);
    lemma_packets_leave_acks(start, to_retransmit(s, kind, recv));
    let sent = start.packets(to_retransmit(s, kind, recv), false);
    lemma_close_leaves_flow(
        sent,
        s.take(resolved_len(s) as int).filter(
            is_lost(),
        ),
    );
}

/// A receiver that has all the packets gets nothing: a delegation to it leaves
/// the streams of the flow and the aggregators as they were.
pub proof fn nothing_is_delegated_to_a_receiver_that_has_everything(
    d: Delegation,
    s: Seq<SentModel>,
    last: bool,
    recv: Set<u64>,
)
    requires
        d.error is None,
        forall|i: int| 0 <= i < s.len() ==> recv.contains((#[trigger] s[i]).pkt_num),
    ensures
        to_retransmit(s, RetransmissionModel::Delegates(last), recv).len() == 0,
        ({
            let after = d.outcome(s, RetransmissionModel::Delegates(last), recv);
            &&& after.error is None
            &&& after.fc == d.fc
            &&& after.fc_ack == d.fc_ack
            &&& after.uc_ack == d.uc_ack
        }),
{
    let kind = RetransmissionModel::Delegates(last);
    let n = reach(s, kind) as int;
    lemma_resolved_len(s);
    assert forall|i: int| 0 <= i < n implies recv.contains((#[trigger] s.take(n)[i]).pkt_num) by {
        assert(recv.contains(s[i].pkt_num));
    }
    lemma_none_needed(s.take(n), kind, recv);
    lemma_close_leaves_flow(
        d,
        s.take(resolved_len(s) as int).filter(
            is_lost(),
        ),
    );
}

proof fn lemma_none_needed(s: Seq<SentModel>, kind: RetransmissionModel, recv: Set<u64>)
    requires
        forall|i: int| 0 <= i < s.len() ==> recv.contains((#[trigger] s[i]).pkt_num),
    ensures
        s.filter(needed(kind, recv)).len() == 0,
    decreases s.len(),
{
    reveal(Seq::filter);
    if s.len() > 0 {
        assert(recv.contains(s[s.len() - 1].pkt_num));
        assert forall|i: int| 0 <= i < s.drop_last().len() implies recv.contains(
            (#[trigger] s.drop_last()[i]).pkt_num,
        ) by {
            assert(recv.contains(s[i].pkt_num));
        }
        lemma_none_needed(s.drop_last(), kind, recv);
    }
}

/// The acknowledgments of a receiver filter one delegation: after a delegation that met
/// no error, the unicast path has no packet as received until more are acknowledged, so
/// that the next delegation finds none, and selects packets whether or not the receiver
/// acknowledged them before.
pub proof fn acknowledgments_filter_one_delegation(
    uc: ConnectionModel,
    fc: StreamsModel,
    fc_ack: AckModel,
    s: Seq<SentModel>,
    kind: RetransmissionModel,
    path_id: u64,
    highest: u64,
    now: Instant,
    next: Seq<SentModel>,
    next_kind: RetransmissionModel,
)
    requires
        uc.uc_ack() is Some,
        uc.delegation(fc, fc_ack).outcome(s, kind, uc.received()).error is None,
    ensures
        ({
            let d = uc.delegation(fc, fc_ack).outcome(s, kind, uc.received());
            let after = uc.delegated(d);
            &&& after.received() == Set::<u64>::empty()
            &&& after.noted(path_id, highest, now).received() == Set::<u64>::empty()
            &&& to_retransmit(next, next_kind, after.received()) == next.take(
                reach(next, next_kind) as int,
            ).filter(|p: SentModel| next_kind.selects(p))
        }),
{
    let start = uc.delegation(fc, fc_ack).acked_first(kind);
    let packets = to_retransmit(s, kind, uc.received());
    lemma_packets_keep_ack(start, packets, kind.follows());
    let sent = start.packets(packets, kind.follows());
    lemma_close_leaves_flow(sent, s.take(resolved_len(s) as int).filter(is_lost()));
    let none = Set::<u64>::empty();
    assert(needed(next_kind, none) =~= (|p: SentModel| next_kind.selects(p)));
}

/// A delegation changes nothing of the packets but the mark.
pub proof fn delegation_only_marks_packets(
    d: Delegation,
    s: Seq<SentModel>,
    kind: RetransmissionModel,
    recv: Set<u64>,
    i: int,
)
    requires
        0 <= i < s.len(),
    ensures
        d.marked(s, kind, recv).len() == s.len(),
        d.marked(s, kind, recv)[i] == (SentModel {
            is_fc_delegated: d.marked(s, kind, recv)[i].is_fc_delegated,
            ..s[i]
        }),
        !kind.marks() ==> d.marked(s, kind, recv)[i] == s[i],
        s[i].is_fc_delegated ==> d.marked(s, kind, recv)[i].is_fc_delegated,
{
}

/// Delegated packets leave the flow: once the last delegation of a round met no error,
/// the source forgets all the packets at the front of its queue that are lost or
/// acknowledged, as soon as a round trip has passed since they were lost.
pub proof fn delegated_packets_are_released(
    d: Delegation,
    e: EpochModel,
    recv: Set<u64>,
    rtt: Duration,
    now: Instant,
)
    requires
        d.outcome(e.sent, RetransmissionModel::Delegates(true), recv).error is None,
        forall|i: int|
            0 <= i < e.sent.len() ==> ((#[trigger] e.sent[i]).time_lost matches Some(t) ==> t.nanos
                + rtt.nanos <= now.nanos),
    ensures
        (EpochModel {
            sent: d.marked(e.sent, RetransmissionModel::Delegates(true), recv),
            ..e
        }).drained(rtt, now).sent == e.sent.skip(resolved_len(e.sent) as int),
{
    let kind = RetransmissionModel::Delegates(true);
    let s = e.sent;
    let t = d.marked(s, kind, recv);
    let n = resolved_len(s) as int;
    lemma_resolved_len(s);
    assert forall|i: int| 0 <= i < n implies (#[trigger] t[i]).settled(
        e.is_fc_source,
        rtt,
        now,
    ) by {
        lemma_resolved_prefix(s, i);
        if d.packets(s.take(i).filter(needed(kind, recv)), true).error is Some {
            lemma_packets_from(d, s, needed(kind, recv), i, n, true);
        }
        assert(s[i].time_lost == t[i].time_lost);
    }
    if n < s.len() {
        lemma_resolved_end(s);
        assert(t[n] == s[n]);
    }
    lemma_settled_exactly(t, e.is_fc_source, rtt, now, n);
    assert(t.skip(n) =~= s.skip(n));
}

proof fn lemma_resolved_prefix(s: Seq<SentModel>, i: int)
    requires
        0 <= i < resolved_len(s),
    ensures
        s[i].time_lost is Some || s[i].time_acked is Some,
    decreases s.len(),
{
    lemma_resolved_len(s);
    if i > 0 {
        lemma_resolved_prefix(s.skip(1), i - 1);
        assert(s.skip(1)[i - 1] == s[i]);
    }
}

proof fn lemma_resolved_end(s: Seq<SentModel>)
    requires
        resolved_len(s) < s.len(),
    ensures
        s[resolved_len(s) as int].time_lost is None,
        s[resolved_len(s) as int].time_acked is None,
    decreases s.len(),
{
    if s[0].time_lost is Some || s[0].time_acked is Some {
        lemma_resolved_end(s.skip(1));
    }
}

proof fn lemma_settled_exactly(
    s: Seq<SentModel>,
    is_fc_source: bool,
    rtt: Duration,
    now: Instant,
    n: int,
)
    requires
        0 <= n <= s.len(),
        forall|i: int| 0 <= i < n ==> (#[trigger] s[i]).settled(is_fc_source, rtt, now),
        n < s.len() ==> !s[n].settled(is_fc_source, rtt, now),
    ensures
        settled_len(s, is_fc_source, rtt, now) == n,
    decreases s.len(),
{
    if n > 0 {
        assert(s[0].settled(is_fc_source, rtt, now));
        assert forall|i: int| 0 <= i < n - 1 implies (#[trigger] s.skip(1)[i]).settled(
            is_fc_source,
            rtt,
            now,
        ) by {
            assert(s[i + 1].settled(is_fc_source, rtt, now));
        }
        lemma_settled_exactly(s.skip(1), is_fc_source, rtt, now, n - 1);
    }
}

/// The source of a flow keeps a packet that is not acknowledged until it is both
/// lost and delegated.
pub proof fn source_keeps_packets_until_delegated(
    e: EpochModel,
    rtt: Duration,
    now: Instant,
    i: int,
)
    requires
        e.is_fc_source,
        0 <= i < e.sent.len(),
        e.sent[i].time_acked is None,
        e.sent[i].time_lost is None || !e.sent[i].is_fc_delegated,
    ensures
        e.drained(rtt, now).sent.contains(e.sent[i]),
{
    lemma_settled_prefix(e.sent, e.is_fc_source, rtt, now, i);
    let n = settled_len(e.sent, e.is_fc_source, rtt, now) as int;
    assert(n <= i);
    assert(e.drained(rtt, now).sent[i - n] == e.sent[i]);
}

/// A packet that was just lost is there for the next delegation, even one that an
/// earlier delegation marked.
pub proof fn lost_packets_are_kept_for_a_round_trip(
    e: EpochModel,
    rtt: Duration,
    now: Instant,
    i: int,
)
    requires
        0 <= i < e.sent.len(),
        e.sent[i].time_lost matches Some(t) && now.nanos < t.nanos + rtt.nanos,
    ensures
        e.drained(rtt, now).sent.contains(e.sent[i]),
{
    lemma_settled_prefix(e.sent, e.is_fc_source, rtt, now, i);
    let n = settled_len(e.sent, e.is_fc_source, rtt, now) as int;
    assert(e.drained(rtt, now).sent[i - n] == e.sent[i]);
}

proof fn lemma_settled_prefix(
    s: Seq<SentModel>,
    is_fc_source: bool,
    rtt: Duration,
    now: Instant,
    i: int,
)
    requires
        0 <= i < s.len(),
        !s[i].settled(is_fc_source, rtt, now),
    ensures
        settled_len(s, is_fc_source, rtt, now) <= i,
    decreases s.len(),
{
    if s[0].settled(is_fc_source, rtt, now) {
        assert(s.skip(1)[i - 1] == s[i]);
        lemma_settled_prefix(s.skip(1), is_fc_source, rtt, now, i - 1);
    }
}

proof fn lemma_nothing_counts(s: Seq<SentModel>, f: spec_fn(SentModel) -> bool)
    requires
        forall|i: int| 0 <= i < s.len() ==> !f(#[trigger] s[i]),
    ensures
        number_of(s, f) == 0,
    decreases s.len(),
{
    if s.len() > 0 {
        assert(!f(s[s.len() - 1]));
        assert forall|i: int| 0 <= i < s.drop_last().len() implies !f(
            #[trigger] s.drop_last()[i],
        ) by {
            assert(!f(s[i]));
        }
        lemma_nothing_counts(s.drop_last(), f);
    }
}

/// Bytes are acknowledged once: a second acknowledgment of the same packets
/// brings nothing, whenever it comes.
pub proof fn packets_are_acknowledged_once(
    r: RecoveryModel,
    pns: Set<u64>,
    now: Instant,
    later: Instant,
)
    ensures
        r.on_ack(pns, now).0.on_ack(pns, later).1.acked_bytes == 0,
        r.on_ack(pns, now).0.on_ack(pns, later).1.lost_packets == 0,
        r.on_ack(pns, now).0.on_ack(pns, later).1.lost_bytes == 0,
{
    let once = r.on_ack(pns, now).0;
    let f = newly_acked(pns);
    let e = r.application;
    let marked = e.acked(pns, now);
    assert forall|i: int| 0 <= i < once.application.sent.len() implies !f(
        #[trigger] once.application.sent[i],
    ) by {
        if number_of(e.sent, f) == 0 {
            assert(once.application.sent[i] == marked.sent[i]);
        } else {
            let full = EpochModel {
                largest_acked: crate::recovery::largest_of(
                    e.largest_acked,
                    crate::recovery::largest_in(pns),
                ),
                ..marked
            };
            let lost = full.detect_lost(r.loss_delay(), now);
            let n = settled_len(lost.sent, lost.is_fc_source, r.rtt, now) as int;
            assert(once.application.sent == lost.sent.skip(n));
            lemma_settled_len(lost.sent, lost.is_fc_source, r.rtt, now);
            assert(once.application.sent[i] == lost.sent[i + n]);
            assert(lost.sent[i + n].time_acked == marked.sent[i + n].time_acked);
            assert(lost.sent[i + n].pkt_num == marked.sent[i + n].pkt_num);
        }
    }
    lemma_nothing_counts(once.application.sent, f);
}

} // verus!
