//! Packets in flight and loss detection.

pub mod flexicast;

use vstd::prelude::*;

use crate::ranges::RangeSet;
use crate::recovery::flexicast::FcRecovery;
use crate::recovery::flexicast::FcRecoveryModel;
use crate::time::Duration;
use crate::time::Instant;

verus! {

/// How many packets sent later must be acknowledged before a packet is lost.
pub const PACKET_THRESHOLD: u64 = 3;

/// The shortest delay, in nanoseconds, after which a packet is lost.
pub const GRANULARITY_NANOS: u128 = 1_000_000;

/// A frame of a packet.
#[derive(Clone, Copy, Debug, PartialEq, Eq, Structural)]
pub enum Frame {
    /// Position of a piece of stream; the bytes are those of the stream.
    StreamHeader {
        /// Identifier of the stream.
        stream_id: u64,
        /// Offset of the first byte.
        offset: u64,
        /// Number of bytes.
        length: usize,
        /// Whether the stream ends after the piece.
        fin: bool,
    },
    /// Any other frame.
    Other,
}

/// Packet number space.
#[derive(Clone, Copy, Debug, PartialEq, Eq, Structural)]
pub enum Epoch {
    /// Initial packets.
    Initial,
    /// Handshake packets.
    Handshake,
    /// Application data.
    Application,
}

/// A packet that was sent.
#[derive(Debug)]
pub struct Sent {
    /// Packet number.
    pub pkt_num: u64,
    /// Frames of the packet.
    pub frames: Vec<Frame>,
    /// When the packet was sent.
    pub time_sent: Instant,
    /// When the packet was acknowledged.
    pub time_acked: Option<Instant>,
    /// When the packet was declared lost.
    pub time_lost: Option<Instant>,
    /// Number of bytes of the packet.
    pub size: usize,
    /// Whether the unicast paths took the packet over.
    pub is_fc_delegated: bool,
}

/// What a [`Sent`] stands for.
#[verifier::ext_equal]
pub struct SentModel {
    /// Packet number.
    pub pkt_num: u64,
    /// Frames of the packet.
    pub frames: Seq<Frame>,
    /// When the packet was sent.
    pub time_sent: Instant,
    /// When the packet was acknowledged.
    pub time_acked: Option<Instant>,
    /// When the packet was declared lost.
    pub time_lost: Option<Instant>,
    /// Number of bytes of the packet.
    pub size: usize,
    /// Whether the unicast paths took the packet over.
    pub is_fc_delegated: bool,
}

/// Every offset of the piece of stream is a 64-bit integer.
pub open spec fn frame_fits(f: Frame) -> bool {
    f matches Frame::StreamHeader { stream_id, offset, length, fin } ==> offset + length <= u64::MAX
}

impl SentModel {
    /// The packet number has a successor, and so do all the offsets.
    pub open spec fn fits(self) -> bool {
        &&& self.pkt_num < u64::MAX
        &&& forall|i: int| 0 <= i < self.frames.len() ==> frame_fits(#[trigger] self.frames[i])
    }

    /// The packet once a packet of the set `pns` is acknowledged at `now`.
    pub open spec fn acked(self, pns: Set<u64>, now: Instant) -> SentModel {
        if self.newly_acked(pns) {
            SentModel { time_acked: Some(now), ..self }
        } else {
            self
        }
    }

    /// Whether an acknowledgment of `pns` is the first one of this packet.
    pub open spec fn newly_acked(self, pns: Set<u64>) -> bool {
        pns.contains(self.pkt_num) && self.time_acked is None
    }

    /// Whether the packet is lost at `now`, when `largest` is the largest packet
    /// number that was acknowledged.
    pub open spec fn newly_lost(self, largest: u64, delay: int, now: Instant) -> bool {
        &&& self.time_acked is None
        &&& self.time_lost is None
        &&& self.pkt_num <= largest
        &&& (largest >= self.pkt_num + PACKET_THRESHOLD || self.time_sent.nanos + delay
            <= now.nanos)
    }

    /// The packet once losses are declared at `now`.
    pub open spec fn lost(self, largest: u64, delay: int, now: Instant) -> SentModel {
        if self.newly_lost(largest, delay, now) {
            SentModel { time_lost: Some(now), ..self }
        } else {
            self
        }
    }

    /// Whether nothing is left to do about the packet at `now`: the peer has it, or
    /// it is lost and, on the source of a flexicast flow, delegated. A lost packet is
    /// kept for one more round trip.
    pub open spec fn settled(self, is_fc_source: bool, rtt: Duration, now: Instant) -> bool {
        match self.time_lost {
            Some(t) => t.nanos + rtt.nanos <= now.nanos && (self.time_acked is Some
                || !is_fc_source || self.is_fc_delegated),
            None => self.time_acked is Some,
        }
    }
}

impl View for Sent {
    type V = SentModel;

    open spec fn view(&self) -> SentModel {
        SentModel {
            pkt_num: self.pkt_num,
            frames: self.frames@,
            time_sent: self.time_sent,
            time_acked: self.time_acked,
            time_lost: self.time_lost,
            size: self.size,
            is_fc_delegated: self.is_fc_delegated,
        }
    }
}

impl Sent {
    fn is_settled(&self, is_fc_source: bool, rtt: Duration, now: Instant) -> (r: bool)
        ensures
            r == self@.settled(is_fc_source, rtt, now),
    {
        match self.time_lost {
            Some(t) => now.nanos >= t.nanos && now.nanos - t.nanos >= rtt.nanos && (
            self.time_acked.is_some() || !is_fc_source || self.is_fc_delegated),
            None => self.time_acked.is_some(),
        }
    }

    /// A packet with the same contents.
    pub fn copy(&self) -> (r: Sent)
        ensures
            r@ == self@,
    {
        let mut frames: Vec<Frame> = Vec::new();
        let mut i: usize = 0;
        while i < self.frames.len()
            invariant
                i <= self.frames@.len(),
                frames@ == self.frames@.take(i as int),
            decreases self.frames@.len() - i,
        {
            frames.push(self.frames[i]);
            i += 1;
            assert(frames@ =~= self.frames@.take(i as int));
        }
        assert(frames@ =~= self.frames@);
        Sent {
            pkt_num: self.pkt_num,
            frames,
            time_sent: self.time_sent,
            time_acked: self.time_acked,
            time_lost: self.time_lost,
            size: self.size,
            is_fc_delegated: self.is_fc_delegated,
        }
    }
}

/// What a sequence of packets stands for.
pub open spec fn models(s: Seq<Sent>) -> Seq<SentModel> {
    Seq::new(s.len(), |i: int| s[i]@)
}

/// Sum of the sizes of the packets for which `f` holds.
pub open spec fn bytes_of(s: Seq<SentModel>, f: spec_fn(SentModel) -> bool) -> nat
    decreases s.len(),
{
    if s.len() == 0 {
        0
    } else {
        bytes_of(s.drop_last(), f) + if f(s.last()) {
            s.last().size as nat
        } else {
            0
        }
    }
}

/// Number of packets for which `f` holds.
pub open spec fn number_of(s: Seq<SentModel>, f: spec_fn(SentModel) -> bool) -> nat
    decreases s.len(),
{
    if s.len() == 0 {
        0
    } else {
        number_of(s.drop_last(), f) + if f(s.last()) {
            1nat
        } else {
            0
        }
    }
}

/// The packets that an acknowledgment of `pns` is the first one of.
pub open spec fn newly_acked(pns: Set<u64>) -> spec_fn(SentModel) -> bool {
    |p: SentModel| p.newly_acked(pns)
}

/// The packets that are declared lost at `now`.
pub open spec fn newly_lost(largest: Option<u64>, delay: int, now: Instant) -> spec_fn(
    SentModel,
) -> bool {
    |p: SentModel| largest matches Some(l) && p.newly_lost(l, delay, now)
}

/// All the packets.
pub open spec fn any_packet() -> spec_fn(SentModel) -> bool {
    |p: SentModel| true
}

/// The packets that are neither acknowledged nor lost.
pub open spec fn in_flight() -> spec_fn(SentModel) -> bool {
    |p: SentModel| p.time_acked is None && p.time_lost is None
}

/// How many packets at the front of the queue are settled at `now`.
pub open spec fn settled_len(
    s: Seq<SentModel>,
    is_fc_source: bool,
    rtt: Duration,
    now: Instant,
) -> nat
    decreases s.len(),
{
    if s.len() == 0 || !s[0].settled(is_fc_source, rtt, now) {
        0
    } else {
        1 + settled_len(s.skip(1), is_fc_source, rtt, now)
    }
}

/// State of a packet number space.
#[derive(Debug)]
pub struct RecoveryEpoch {
    /// Packets in flight, in the order in which they were sent.
    pub sent_packets: Vec<Sent>,
    /// Largest packet number that was acknowledged.
    pub largest_acked_packet: Option<u64>,
    /// Whether this is the source of a flexicast flow.
    pub is_fc_source: bool,
}

/// What a [`RecoveryEpoch`] stands for.
#[verifier::ext_equal]
pub struct EpochModel {
    /// Packets in flight, in the order in which they were sent.
    pub sent: Seq<SentModel>,
    /// Largest packet number that was acknowledged.
    pub largest_acked: Option<u64>,
    /// Whether this is the source of a flexicast flow.
    pub is_fc_source: bool,
}

impl View for RecoveryEpoch {
    type V = EpochModel;

    open spec fn view(&self) -> EpochModel {
        EpochModel {
            sent: models(self.sent_packets@),
            largest_acked: self.largest_acked_packet,
            is_fc_source: self.is_fc_source,
        }
    }
}

impl EpochModel {
    /// All the packets have a packet number and offsets with a successor.
    pub open spec fn fits(self) -> bool {
        forall|i: int| 0 <= i < self.sent.len() ==> (#[trigger] self.sent[i]).fits()
    }

    /// The space once losses are declared at `now`.
    pub open spec fn detect_lost(self, delay: int, now: Instant) -> EpochModel {
        match self.largest_acked {
            Some(largest) => EpochModel {
                sent: self.sent.map_values(|p: SentModel| p.lost(largest, delay, now)),
                ..self
            },
            None => self,
        }
    }

    /// The space with the packets of its front that are settled at `now` taken out.
    pub open spec fn drained(self, rtt: Duration, now: Instant) -> EpochModel {
        EpochModel {
            sent: self.sent.skip(settled_len(self.sent, self.is_fc_source, rtt, now) as int),
            ..self
        }
    }

    /// The space once the packets `pns` are acknowledged at `now`.
    pub open spec fn acked(self, pns: Set<u64>, now: Instant) -> EpochModel {
        EpochModel { sent: self.sent.map_values(|p: SentModel| p.acked(pns, now)), ..self }
    }
}

impl RecoveryEpoch {
    /// A space in which nothing was sent.
    pub fn new() -> (e: RecoveryEpoch)
        ensures
            e@ == (EpochModel { sent: Seq::empty(), largest_acked: None, is_fc_source: false }),
    {
        let e = RecoveryEpoch {
            sent_packets: Vec::new(),
            largest_acked_packet: None,
            is_fc_source: false,
        };
        assert(e@.sent =~= Seq::<SentModel>::empty());
        e
    }

    /// Marks the packets of `ranges` that were not acknowledged before. Returns
    /// how many there are, and their bytes.
    fn mark_acked(&mut self, ranges: &RangeSet, now: Instant) -> (r: (usize, usize))
        requires
            ranges.wf(),
            bytes_of(old(self)@.sent, any_packet()) <= usize::MAX,
        ensures
            final(self)@ == old(self)@.acked(ranges@, now),
            r.0 == number_of(old(self)@.sent, newly_acked(ranges@)),
            r.1 == bytes_of(old(self)@.sent, newly_acked(ranges@)),
    {
        let ghost f = newly_acked(ranges@);
        let ghost all = any_packet();
        let ghost before = self@.sent;
        let mut n: usize = 0;
        let mut bytes: usize = 0;
        let mut i: usize = 0;
        while i < self.sent_packets.len()
            invariant
                i <= self.sent_packets@.len(),
                self.sent_packets@.len() == before.len(),
                ranges.wf(),
                f == newly_acked(ranges@),
                all == any_packet(),
                bytes_of(before, all) <= usize::MAX,
                n == number_of(before.take(i as int), f),
                n <= i,
                bytes == bytes_of(before.take(i as int), f),
                self.largest_acked_packet == old(self).largest_acked_packet,
                self.is_fc_source == old(self).is_fc_source,
                forall|k: int|
                    0 <= k < before.len() ==> (#[trigger] self.sent_packets@[k])@ == if k < i {
                        before[k].acked(ranges@, now)
                    } else {
                        before[k]
                    },
            decreases self.sent_packets@.len() - i,
        {
            proof {
                assert(before.take(i + 1).drop_last() =~= before.take(i as int));
                lemma_bytes_bound(before, i + 1, f);
                lemma_bytes_bound(before, before.len() as int, all);
                assert(self.sent_packets@[i as int]@ == before[i as int]);
            }
            if self.sent_packets[i].time_acked.is_none() && ranges.contains(
                self.sent_packets[i].pkt_num,
            ) {
                bytes += self.sent_packets[i].size;
                n += 1;
                self.sent_packets[i].time_acked = Some(now);
            }
            i += 1;
        }
        assert(before.take(i as int) =~= before);
        assert(self@.sent =~= old(self)@.acked(ranges@, now).sent);
        (n, bytes)
    }
    /// Declares losses. Returns how many packets are lost, and their bytes.
    fn mark_lost(&mut self, delay: u128, now: Instant) -> (r: (usize, usize))
        requires
            bytes_of(old(self)@.sent, any_packet()) <= usize::MAX,
        ensures
            final(self)@ == old(self)@.detect_lost(delay as int, now),
            r.0 == number_of(
                old(self)@.sent,
                newly_lost(old(self)@.largest_acked, delay as int, now),
            ),
            r.1 == bytes_of(
                old(self)@.sent,
                newly_lost(old(self)@.largest_acked, delay as int, now),
            ),
    {
        let ghost f = newly_lost(self@.largest_acked, delay as int, now);
        let ghost before = self@.sent;
        let largest: u64 = match self.largest_acked_packet {
            Some(l) => l,
            None => {
                proof {
                    lemma_none(before, f);
                }
                return (0, 0);
            },
        };
        let mut n: usize = 0;
        let mut bytes: usize = 0;
        let mut i: usize = 0;
        while i < self.sent_packets.len()
            invariant
                i <= self.sent_packets@.len(),
                self.sent_packets@.len() == before.len(),
                old(self)@.largest_acked == Some(largest),
                f == newly_lost(Some(largest), delay as int, now),
                bytes_of(before, any_packet()) <= usize::MAX,
                n == number_of(before.take(i as int), f),
                n <= i,
                bytes == bytes_of(before.take(i as int), f),
                self.largest_acked_packet == old(self).largest_acked_packet,
                self.is_fc_source == old(self).is_fc_source,
                forall|k: int|
                    0 <= k < before.len() ==> (#[trigger] self.sent_packets@[k])@ == if k < i {
                        before[k].lost(largest, delay as int, now)
                    } else {
                        before[k]
                    },
            decreases self.sent_packets@.len() - i,
        {
            proof {
                assert(before.take(i + 1).drop_last() =~= before.take(i as int));
                lemma_bytes_bound(before, i + 1, f);
                assert(self.sent_packets@[i as int]@ == before[i as int]);
            }
            let p = &self.sent_packets[i];
            let late: bool = now.nanos >= p.time_sent.nanos && now.nanos - p.time_sent.nanos
                >= delay;
            let overtaken: bool = largest >= p.pkt_num && largest - p.pkt_num >= PACKET_THRESHOLD;
            if p.time_acked.is_none() && p.time_lost.is_none() && p.pkt_num <= largest && (late
                || overtaken) {
                bytes += p.size;
                n += 1;
                self.sent_packets[i].time_lost = Some(now);
            }
            i += 1;
        }
        assert(before.take(i as int) =~= before);
        assert(self@.sent =~= old(self)@.detect_lost(delay as int, now).sent);
        (n, bytes)
    }

    /// Takes the packets of the front of the queue that are settled out.
    fn drain(&mut self, rtt: Duration, now: Instant)
        ensures
            final(self)@ == old(self)@.drained(rtt, now),
    {
        let ghost before = self@.sent;
        let mut n: usize = 0;
        assert(before.skip(0) =~= before);
        while n < self.sent_packets.len() && self.sent_packets[n].is_settled(
            self.is_fc_source,
            rtt,
            now,
        )
            invariant
                n <= self.sent_packets@.len(),
                self@.sent == before,
                self@ == old(self)@,
                settled_len(before, self.is_fc_source, rtt, now) == n + settled_len(
                    before.skip(n as int),
                    self.is_fc_source,
                    rtt,
                    now,
                ),
            decreases self.sent_packets@.len() - n,
        {
            assert(before.skip(n as int)[0] == self.sent_packets@[n as int]@);
            assert(before.skip(n as int).skip(1) =~= before.skip(n + 1));
            n += 1;
        }
        proof {
            if n < self.sent_packets@.len() {
                assert(before.skip(n as int)[0] == self.sent_packets@[n as int]@);
            }
        }
        let mut kept: Vec<Sent> = self.sent_packets.split_off(n);
        core::mem::swap(&mut kept, &mut self.sent_packets);
        assert(self@.sent =~= before.skip(n as int));
    }
}

/// Recovery state of a path.
#[derive(Debug)]
pub struct Recovery {
    /// Initial packets.
    pub initial: RecoveryEpoch,
    /// Handshake packets.
    pub handshake: RecoveryEpoch,
    /// Application data.
    pub application: RecoveryEpoch,
    /// Flexicast structure.
    pub fc_recovery: Option<FcRecovery>,
    /// Round-trip time of the path.
    pub rtt: Duration,
    /// Congestion window of the path.
    pub cwnd: usize,
    /// Whether the rate is limited by the application.
    pub app_limited: bool,
}

/// What a [`Recovery`] stands for.
#[verifier::ext_equal]
pub struct RecoveryModel {
    /// Initial packets.
    pub initial: EpochModel,
    /// Handshake packets.
    pub handshake: EpochModel,
    /// Application data.
    pub application: EpochModel,
    /// Flexicast structure.
    pub fc_recovery: Option<FcRecoveryModel>,
    /// Round-trip time of the path.
    pub rtt: Duration,
    /// Congestion window of the path.
    pub cwnd: usize,
    /// Whether the rate is limited by the application.
    pub app_limited: bool,
}

impl View for Recovery {
    type V = RecoveryModel;

    open spec fn view(&self) -> RecoveryModel {
        RecoveryModel {
            initial: self.initial@,
            handshake: self.handshake@,
            application: self.application@,
            fc_recovery: match self.fc_recovery {
                Some(f) => Some(f@),
                None => None,
            },
            rtt: self.rtt,
            cwnd: self.cwnd,
            app_limited: self.app_limited,
        }
    }
}

/// Outcome of an acknowledgment.
#[derive(Clone, Copy, Debug, PartialEq, Eq, Structural)]
pub struct AckOutcome {
    /// Number of packets that were declared lost.
    pub lost_packets: usize,
    /// Bytes of these packets.
    pub lost_bytes: usize,
    /// Bytes that were acknowledged.
    pub acked_bytes: usize,
}

/// The larger of two packet numbers, where there is one.
pub open spec fn largest_of(a: Option<u64>, b: Option<u64>) -> Option<u64> {
    match (a, b) {
        (Some(x), Some(y)) => Some(if x >= y {
            x
        } else {
            y
        }),
        (Some(x), None) => Some(x),
        (None, _) => b,
    }
}

/// The largest integer of a set.
pub open spec fn largest_in(s: Set<u64>) -> Option<u64> {
    if s == Set::<u64>::empty() {
        None
    } else {
        Some(choose|m: u64| s.contains(m) && forall|x: u64| s.contains(x) ==> x <= m)
    }
}

impl RecoveryModel {
    /// Nanoseconds after which a packet sent before an acknowledged one is lost:
    /// nine eighths of the round-trip time, and at least the granularity.
    pub open spec fn loss_delay(self) -> int {
        if self.rtt.nanos * 9 / 8 >= GRANULARITY_NANOS {
            self.rtt.nanos * 9 / 8
        } else {
            GRANULARITY_NANOS as int
        }
    }

    /// How much of the congestion window is left.
    pub open spec fn cwnd_available(self) -> int {
        let used = bytes_of(self.application.sent, in_flight());
        if self.cwnd >= used {
            self.cwnd - used
        } else {
            0
        }
    }

    /// The space of `epoch`.
    pub open spec fn epoch(self, epoch: Epoch) -> EpochModel {
        match epoch {
            Epoch::Initial => self.initial,
            Epoch::Handshake => self.handshake,
            Epoch::Application => self.application,
        }
    }

    /// The application data space once the packets `pns` are acknowledged at
    /// `now`, and what that brings.
    pub open spec fn on_ack(self, pns: Set<u64>, now: Instant) -> (RecoveryModel, AckOutcome) {
        let e = self.application;
        let marked = EpochModel {
            largest_acked: largest_of(e.largest_acked, largest_in(pns)),
            ..e.acked(pns, now)
        };
        if number_of(e.sent, newly_acked(pns)) == 0 {
            (
                RecoveryModel { application: marked, ..self },
                AckOutcome { lost_packets: 0, lost_bytes: 0, acked_bytes: 0 },
            )
        } else {
            let f = newly_lost(marked.largest_acked, self.loss_delay(), now);
            (
                RecoveryModel {
                    application: marked.detect_lost(self.loss_delay(), now).drained(self.rtt, now),
                    ..self
                },
                AckOutcome {
                    lost_packets: number_of(marked.sent, f) as usize,
                    lost_bytes: bytes_of(marked.sent, f) as usize,
                    acked_bytes: bytes_of(e.sent, newly_acked(pns)) as usize,
                },
            )
        }
    }
}

impl Recovery {
    /// The round-trip time is a time span, the bytes in flight can be counted,
    /// and all the packets have a packet number and offsets with a successor.
    pub open spec fn wf(&self) -> bool {
        &&& self.rtt.nanos <= crate::time::DURATION_MAX_NANOS
        &&& self@.initial.fits()
        &&& self@.handshake.fits()
        &&& self@.application.fits()
        &&& bytes_of(self@.application.sent, any_packet()) <= usize::MAX
    }

    /// A path on which nothing was sent.
    pub fn new(rtt: Duration, cwnd: usize) -> (r: Recovery)
        requires
            rtt.nanos <= crate::time::DURATION_MAX_NANOS,
        ensures
            r.wf(),
            r@ == new_recovery(rtt, cwnd),
    {
        Recovery {
            initial: RecoveryEpoch::new(),
            handshake: RecoveryEpoch::new(),
            application: RecoveryEpoch::new(),
            fc_recovery: None,
            rtt,
            cwnd,
            app_limited: false,
        }
    }

    fn loss_delay(&self) -> (d: u128)
        requires
            self.wf(),
        ensures
            d == self@.loss_delay(),
    {
        let d: u128 = self.rtt.nanos * 9 / 8;
        if d >= GRANULARITY_NANOS {
            d
        } else {
            GRANULARITY_NANOS
        }
    }

    /// Handles an acknowledgment of application data: marks the packets of
    /// `ranges`, declares losses if that acknowledges something, and takes the
    /// settled packets of the front of the queue out.
    pub fn on_ack_received(&mut self, ranges: &RangeSet, now: Instant) -> (r: AckOutcome)
        requires
            old(self).wf(),
            ranges.wf(),
        ensures
            final(self).wf(),
            final(self)@ == old(self)@.on_ack(ranges@, now).0,
            r == old(self)@.on_ack(ranges@, now).1,
    {
        let delay: u128 = self.loss_delay();
        let ghost e = self@.application;
        let (n, acked_bytes): (usize, usize) = self.application.mark_acked(ranges, now);
        let top: Option<u64> = ranges.last();
        proof {
            if let Some(m) = top {
                lemma_largest_in(ranges@, m);
            }
        }
        self.application.largest_acked_packet = match (self.application.largest_acked_packet, top) {
            (Some(x), Some(y)) => Some(if x >= y {
                x
            } else {
                y
            }),
            (Some(x), None) => Some(x),
            (None, y) => y,
        };
        let ghost marked = self@.application;
        proof {
            lemma_same_weight(e.sent, marked.sent);
            assert(marked.fits());
        }
        if n == 0 {
            return AckOutcome { lost_packets: 0, lost_bytes: 0, acked_bytes: 0 };
        }
        let (lost_packets, lost_bytes): (usize, usize) = self.application.mark_lost(delay, now);
        let ghost lost = self@.application;
        proof {
            lemma_same_weight(marked.sent, lost.sent);
            assert(lost.fits());
        }
        self.application.drain(self.rtt, now);
        proof {
            lemma_drained(lost, self.rtt, now);
        }
        AckOutcome { lost_packets, lost_bytes, acked_bytes }
    }

    /// How much of the congestion window is left.
    pub fn cwnd_available(&self) -> (r: usize)
        requires
            self.wf(),
        ensures
            r == self@.cwnd_available(),
    {
        let ghost s = self@.application.sent;
        let ghost f = in_flight();
        let mut bytes: usize = 0;
        let mut i: usize = 0;
        while i < self.application.sent_packets.len()
            invariant
                i <= s.len(),
                s == self@.application.sent,
                f == in_flight(),
                bytes_of(s, any_packet()) <= usize::MAX,
                bytes == bytes_of(s.take(i as int), f),
            decreases s.len() - i,
        {
            proof {
                assert(s.take(i + 1).drop_last() =~= s.take(i as int));
                lemma_bytes_bound(s, i + 1, f);
            }
            let p: &Sent = &self.application.sent_packets[i];
            if p.time_acked.is_none() && p.time_lost.is_none() {
                bytes += p.size;
            }
            i += 1;
        }
        assert(s.take(i as int) =~= s);
        if self.cwnd >= bytes {
            self.cwnd - bytes
        } else {
            0
        }
    }

    /// Declares losses of application data, and takes the settled packets of the front
    /// of the queue out.
    pub fn detect_lost_packets(&mut self, now: Instant) -> (r: (usize, usize))
        requires
            old(self).wf(),
        ensures
            final(self).wf(),
            final(self)@ == old(self)@.detect_lost(now),
            r.0 == number_of(
                old(self)@.application.sent,
                newly_lost(old(self)@.application.largest_acked, old(self)@.loss_delay(), now),
            ),
            r.1 == bytes_of(
                old(self)@.application.sent,
                newly_lost(old(self)@.application.largest_acked, old(self)@.loss_delay(), now),
            ),
    {
        let delay: u128 = self.loss_delay();
        let ghost e = self@.application;
        let r: (usize, usize) = self.application.mark_lost(delay, now);
        let ghost lost = self@.application;
        proof {
            lemma_same_weight(e.sent, lost.sent);
            assert(lost.fits());
        }
        self.application.drain(self.rtt, now);
        proof {
            lemma_drained(lost, self.rtt, now);
        }
        r
    }

    /// Notes that a packet of application data was sent.
    pub fn on_packet_sent(&mut self, pkt: Sent)
        requires
            old(self).wf(),
            pkt@.fits(),
            bytes_of(old(self)@.application.sent, any_packet()) + pkt.size <= usize::MAX,
        ensures
            final(self).wf(),
            final(self)@ == old(self)@.send(pkt@),
    {
        let ghost before = self@.application.sent;
        self.application.sent_packets.push(pkt);
        proof {
            assert(self@.application.sent =~= before.push(pkt@));
            assert(self@.application.sent.drop_last() =~= before);
        }
    }
}

impl RecoveryModel {
    /// The path once losses of application data are declared at `now`.
    pub open spec fn detect_lost(self, now: Instant) -> RecoveryModel {
        RecoveryModel {
            application: self.application.detect_lost(self.loss_delay(), now).drained(
                self.rtt,
                now,
            ),
            ..self
        }
    }

    /// The path once a packet of application data is sent.
    pub open spec fn send(self, pkt: SentModel) -> RecoveryModel {
        RecoveryModel {
            application: EpochModel { sent: self.application.sent.push(pkt), ..self.application },
            ..self
        }
    }
}

/// A path on which nothing was sent.
pub open spec fn new_recovery(rtt: Duration, cwnd: usize) -> RecoveryModel {
    let e = EpochModel { sent: Seq::empty(), largest_acked: None, is_fc_source: false };
    RecoveryModel {
        initial: e,
        handshake: e,
        application: e,
        fc_recovery: None,
        rtt,
        cwnd,
        app_limited: false,
    }
}

/// The largest integer of a set is the one that is not less than the others.
pub proof fn lemma_largest_in(s: Set<u64>, m: u64)
    requires
        s.contains(m),
        forall|x: u64| s.contains(x) ==> x <= m,
    ensures
        largest_in(s) == Some(m),
{
}

proof fn lemma_none(s: Seq<SentModel>, f: spec_fn(SentModel) -> bool)
    requires
        forall|p: SentModel| !#[trigger] f(p),
    ensures
        number_of(s, f) == 0,
        bytes_of(s, f) == 0,
    decreases s.len(),
{
    if s.len() > 0 {
        lemma_none(s.drop_last(), f);
    }
}

proof fn lemma_same_weight(s: Seq<SentModel>, t: Seq<SentModel>)
    requires
        s.len() == t.len(),
        forall|i: int| 0 <= i < s.len() ==> (#[trigger] s[i]).size == t[i].size,
    ensures
        bytes_of(s, any_packet()) == bytes_of(t, any_packet()),
    decreases s.len(),
{
    if s.len() > 0 {
        lemma_same_weight(s.drop_last(), t.drop_last());
    }
}

proof fn lemma_skip_weight(s: Seq<SentModel>, n: int)
    requires
        0 <= n <= s.len(),
    ensures
        bytes_of(s.skip(n), any_packet()) <= bytes_of(s, any_packet()),
    decreases s.len(),
{
    if s.len() > n {
        assert(s.skip(n).drop_last() =~= s.drop_last().skip(n));
        lemma_skip_weight(s.drop_last(), n);
    } else {
        assert(s.skip(n).len() == 0);
    }
}

/// No more packets are settled than there are.
pub proof fn lemma_settled_len(
    s: Seq<SentModel>,
    is_fc_source: bool,
    rtt: Duration,
    now: Instant,
)
    ensures
        settled_len(s, is_fc_source, rtt, now) <= s.len(),
    decreases s.len(),
{
    if s.len() > 0 && s[0].settled(is_fc_source, rtt, now) {
        lemma_settled_len(s.skip(1), is_fc_source, rtt, now);
    }
}

proof fn lemma_drained(e: EpochModel, rtt: Duration, now: Instant)
    requires
        e.fits(),
    ensures
        e.drained(rtt, now).fits(),
        bytes_of(e.drained(rtt, now).sent, any_packet()) <= bytes_of(e.sent, any_packet()),
{
    lemma_settled_len(e.sent, e.is_fc_source, rtt, now);
    let n = settled_len(e.sent, e.is_fc_source, rtt, now) as int;
    lemma_skip_weight(e.sent, n);
    assert forall|i: int| 0 <= i < e.sent.skip(n).len() implies (#[trigger] e.sent.skip(
        n,
    )[i]).fits() by {
        assert(e.sent.skip(n)[i] == e.sent[i + n]);
    }
}

/// The first packets weigh no more than all of them.
proof fn lemma_bytes_bound(s: Seq<SentModel>, n: int, f: spec_fn(SentModel) -> bool)
    requires
        0 <= n <= s.len(),
    ensures
        bytes_of(s.take(n), f) <= bytes_of(s, any_packet()),
    decreases s.len(),
{
    if s.len() == 0 {
    } else if n == s.len() {
        assert(s.take(n) =~= s);
        lemma_bytes_bound(s.drop_last(), n - 1, f);
        assert(s.drop_last().take(n - 1) =~= s.drop_last());
    } else {
        lemma_bytes_bound(s.drop_last(), n, f);
        assert(s.drop_last().take(n) =~= s.take(n));
    }
}


/// A packet is acknowledged by the first acknowledgment that holds its number, at that point
/// in time; nothing else of it changes.
pub proof fn first_acknowledgment_counts(p: SentModel, pns: Set<u64>, now: Instant)
    ensures
        p.acked(pns, now).time_acked == if pns.contains(p.pkt_num) && p.time_acked is None {
            Some(now)
        } else {
            p.time_acked
        },
        p.newly_acked(pns) <==> pns.contains(p.pkt_num) && p.time_acked is None,
        p.acked(pns, now).pkt_num == p.pkt_num,
        p.acked(pns, now).frames == p.frames,
        p.acked(pns, now).time_sent == p.time_sent,
        p.acked(pns, now).time_lost == p.time_lost,
        p.acked(pns, now).size == p.size,
        p.acked(pns, now).is_fc_delegated == p.is_fc_delegated,
{
}

/// A packet is lost once a packet was acknowledged that was sent three or more numbers later,
/// or one that was sent later or is itself and the delay has passed since it was sent. One that was
/// acknowledged, or declared lost before, is not.
pub proof fn late_packets_are_lost(p: SentModel, largest: u64, delay: int, now: Instant)
    ensures
        ({
            let lost = p.time_acked is None && p.time_lost is None && (p.pkt_num + 3 <= largest || (
            p.pkt_num <= largest && now.nanos >= p.time_sent.nanos + delay));
            &&& p.newly_lost(largest, delay, now) <==> lost
            &&& p.lost(largest, delay, now).time_lost == if lost {
                Some(now)
            } else {
                p.time_lost
            }
            &&& p.lost(largest, delay, now).pkt_num == p.pkt_num
            &&& p.lost(largest, delay, now).frames == p.frames
            &&& p.lost(largest, delay, now).time_sent == p.time_sent
            &&& p.lost(largest, delay, now).time_acked == p.time_acked
            &&& p.lost(largest, delay, now).size == p.size
            &&& p.lost(largest, delay, now).is_fc_delegated == p.is_fc_delegated
        }),
{
}

/// Nothing is left to do about a packet that was acknowledged and not lost. One that was lost
/// is kept for a round trip, and on the source of a flow until it is delegated, unless it was
/// acknowledged after all.
pub proof fn packets_settle(p: SentModel, is_fc_source: bool, rtt: Duration, now: Instant)
    ensures
        p.time_lost is None ==> (p.settled(is_fc_source, rtt, now) <==> p.time_acked is Some),
        p.time_lost matches Some(t) ==> {
            &&& now.nanos < t.nanos + rtt.nanos ==> !p.settled(is_fc_source, rtt, now)
            &&& now.nanos >= t.nanos + rtt.nanos && !is_fc_source ==> p.settled(
                is_fc_source,
                rtt,
                now,
            )
            &&& now.nanos >= t.nanos + rtt.nanos && is_fc_source ==> (p.settled(
                is_fc_source,
                rtt,
                now,
            ) <==> p.is_fc_delegated || p.time_acked is Some)
        },
{
}

/// Only packets at the front of the queue leave it: those that are settled, up to the first one
/// that is not. The others stay in their order.
pub proof fn settled_packets_leave_the_front(e: EpochModel, rtt: Duration, now: Instant, i: int)
    ensures
        ({
            let after = e.drained(rtt, now);
            let n = e.sent.len() - after.sent.len();
            &&& 0 <= n
            &&& 0 <= i < n ==> e.sent[i].settled(e.is_fc_source, rtt, now)
            &&& n < e.sent.len() ==> !e.sent[n].settled(e.is_fc_source, rtt, now)
            &&& 0 <= i < after.sent.len() ==> after.sent[i] == e.sent[i + n]
            &&& after.largest_acked == e.largest_acked
            &&& after.is_fc_source == e.is_fc_source
        }),
{
    lemma_settled_len(e.sent, e.is_fc_source, rtt, now);
    lemma_settled_front(e.sent, e.is_fc_source, rtt, now, i);
}

proof fn lemma_settled_front(
    s: Seq<SentModel>,
    is_fc_source: bool,
    rtt: Duration,
    now: Instant,
    i: int,
)
    ensures
        ({
            let n = settled_len(s, is_fc_source, rtt, now) as int;
            &&& n <= s.len()
            &&& 0 <= i < n ==> s[i].settled(is_fc_source, rtt, now)
            &&& n < s.len() ==> !s[n].settled(is_fc_source, rtt, now)
        }),
    decreases s.len(),
{
    if s.len() > 0 && s[0].settled(is_fc_source, rtt, now) {
        lemma_settled_front(s.skip(1), is_fc_source, rtt, now, i - 1);
        let n = settled_len(s, is_fc_source, rtt, now) as int;
        if i > 0 && i < n {
            assert(s.skip(1)[i - 1] == s[i]);
        }
        if n < s.len() {
            assert(s.skip(1)[n - 1] == s[n]);
        }
    }
}

/// The sizes of packets add up: those of two queues are those of both, and a packet counts
/// exactly if it is one of those that are asked for. Their number adds up in the same way.
pub proof fn sizes_add_up(
    s: Seq<SentModel>,
    t: Seq<SentModel>,
    p: SentModel,
    f: spec_fn(SentModel) -> bool,
)
    ensures
        bytes_of(s + t, f) == bytes_of(s, f) + bytes_of(t, f),
        number_of(s + t, f) == number_of(s, f) + number_of(t, f),
        f(p) ==> bytes_of(seq![p], f) == p.size && number_of(seq![p], f) == 1,
        !f(p) ==> bytes_of(seq![p], f) == 0 && number_of(seq![p], f) == 0,
        number_of(s, f) == s.filter(f).len(),
    decreases s.len() + t.len(),
{
    reveal(Seq::filter);
    reveal_with_fuel(bytes_of, 2);
    reveal_with_fuel(number_of, 2);
    if t.len() > 0 {
        assert((s + t).drop_last() =~= s + t.drop_last());
        sizes_add_up(s, t.drop_last(), p, f);
    } else {
        assert(s + t =~= s);
        if s.len() > 0 {
            sizes_add_up(s.drop_last(), t, p, f);
        }
    }
    assert(seq![p].drop_last() =~= Seq::<SentModel>::empty());
}

/// A packet that was sent later than an acknowledged one is given nine eighths of the
/// round-trip time, rounded down, and at least a millisecond.
pub proof fn losses_wait_for_nine_eighths_of_a_round_trip(r: RecoveryModel)
    ensures
        r.loss_delay() >= 1_000_000,
        8 * r.loss_delay() > 9 * r.rtt.nanos - 8,
        r.loss_delay() == 1_000_000 || 8 * r.loss_delay() <= 9 * r.rtt.nanos,
{
}

/// The window is left over by the packets that are neither acknowledged nor lost.
pub proof fn packets_in_flight_take_the_window(r: RecoveryModel)
    ensures
        ({
            let used = bytes_of(
                r.application.sent,
                |p: SentModel| p.time_acked is None && p.time_lost is None,
            );
            &&& used <= r.cwnd ==> r.cwnd_available() + used == r.cwnd
            &&& used >= r.cwnd ==> r.cwnd_available() == 0
        }),
{
    assert(in_flight() =~= (|p: SentModel| p.time_acked is None && p.time_lost is None));
}

/// The larger of two numbers is one of them, and none of them is above it.
pub proof fn largest_of_two_is_one_of_them(a: Option<u64>, b: Option<u64>)
    ensures
        largest_of(a, b) == a || largest_of(a, b) == b,
        largest_of(a, b) is None <==> a is None && b is None,
        a matches Some(x) ==> largest_of(a, b)->0 >= x,
        b matches Some(x) ==> largest_of(a, b)->0 >= x,
{
}

/// The largest number of a set is in it, and none of them is above it; only an empty set has
/// none.
pub proof fn largest_number_is_in_the_set(s: Set<u64>)
    requires
        s.finite(),
    ensures
        largest_in(s) is None <==> forall|x: u64| !#[trigger] s.contains(x),
        largest_in(s) matches Some(m) ==> s.contains(m) && forall|x: u64| #[trigger]
            s.contains(x) ==> x <= m,
    decreases s.len(),
{
    if s == Set::<u64>::empty() {
    } else {
        if forall|x: u64| !#[trigger] s.contains(x) {
            assert(s =~= Set::<u64>::empty());
        }
        let a = choose|a: u64| #[trigger] s.contains(a);
        let t = s.remove(a);
        largest_number_is_in_the_set(t);
        let m = match largest_in(t) {
            Some(b) => if b >= a {
                b
            } else {
                a
            },
            None => a,
        };
        assert(s.contains(m));
        assert forall|x: u64| #[trigger] s.contains(x) implies x <= m by {
            if x != a {
                assert(t.contains(x));
            }
        }
        lemma_largest_in(s, m);
    }
}

/// An acknowledgment marks the packets with its numbers, and the largest number that was
/// acknowledged is known. If it is the first one of some packet, the bytes of those packets
/// are reported, losses are declared against that largest number, and the packets that are
/// settled leave the front of the queue; else no packet is lost and none leaves. The other
/// spaces stay as they were.
pub proof fn acknowledgments_mark_lose_and_settle(
    r: RecoveryModel,
    pns: Set<u64>,
    now: Instant,
    i: int,
)
    requires
        0 <= i < r.application.sent.len(),
        bytes_of(r.application.sent, any_packet()) <= usize::MAX,
        r.application.sent.len() <= usize::MAX,
    ensures
        ({
            let (after, out) = r.on_ack(pns, now);
            let sent = r.application.sent;
            let n = sent.len() - after.application.sent.len();
            let some = exists|j: int|
                0 <= j < sent.len() && pns.contains((#[trigger] sent[j]).pkt_num)
                    && sent[j].time_acked is None;
            let p = sent[i].acked(pns, now);
            let largest = largest_of(r.application.largest_acked, largest_in(pns));
            &&& after.application.largest_acked == largest
            &&& after.initial == r.initial && after.handshake == r.handshake
            &&& after.rtt == r.rtt && after.cwnd == r.cwnd && after.app_limited == r.app_limited
            &&& after.application.is_fc_source == r.application.is_fc_source
            &&& !some ==> n == 0 && after.application.sent[i] == p && out.lost_packets == 0
                && out.lost_bytes == 0 && out.acked_bytes == 0
            &&& some ==> {
                let q = match largest {
                    Some(l) => p.lost(l, r.loss_delay(), now),
                    None => p,
                };
                &&& 0 <= n
                &&& i < n ==> q.settled(r.application.is_fc_source, r.rtt, now)
                &&& i >= n ==> after.application.sent[i - n] == q
                &&& i == n ==> !q.settled(r.application.is_fc_source, r.rtt, now)
                &&& out.acked_bytes == bytes_of(
                    sent,
                    |p: SentModel| pns.contains(p.pkt_num) && p.time_acked is None,
                )
            }
        }),
{
    let e = r.application;
    let sent = e.sent;
    let f = newly_acked(pns);
    let marked = EpochModel {
        largest_acked: largest_of(e.largest_acked, largest_in(pns)),
        ..e.acked(pns, now)
    };
    lemma_some_counts(sent, f);
    if exists|j: int| 0 <= j < sent.len() && f(#[trigger] sent[j]) {
        let j = choose|j: int| 0 <= j < sent.len() && f(#[trigger] sent[j]);
        assert(pns.contains(sent[j].pkt_num) && sent[j].time_acked is None);
        let lost = marked.detect_lost(r.loss_delay(), now);
        settled_packets_leave_the_front(lost, r.rtt, now, i);
        let n = lost.sent.len() - lost.drained(r.rtt, now).sent.len();
        if i >= n {
            settled_packets_leave_the_front(lost, r.rtt, now, i - n);
        }
        assert(f =~= (|p: SentModel| pns.contains(p.pkt_num) && p.time_acked is None));
        lemma_bytes_bound(sent, sent.len() as int, f);
        assert(sent.take(sent.len() as int) =~= sent);
    } else {
        assert forall|j: int| 0 <= j < sent.len() implies !(pns.contains(
            (#[trigger] sent[j]).pkt_num,
        ) && sent[j].time_acked is None) by {
            assert(!f(sent[j]));
        }
    }
}

/// Some packet counts exactly if there is one.
proof fn lemma_some_counts(s: Seq<SentModel>, f: spec_fn(SentModel) -> bool)
    ensures
        number_of(s, f) > 0 <==> exists|j: int| 0 <= j < s.len() && f(#[trigger] s[j]),
    decreases s.len(),
{
    if s.len() > 0 {
        let front = s.drop_last();
        lemma_some_counts(front, f);
        if exists|j: int| 0 <= j < front.len() && f(#[trigger] front[j]) {
            let j = choose|j: int| 0 <= j < front.len() && f(#[trigger] front[j]);
            assert(f(s[j]));
        }
        if f(s.last()) {
            assert(f(s[s.len() - 1]));
        }
        if exists|j: int| 0 <= j < s.len() && f(#[trigger] s[j]) {
            let j = choose|j: int| 0 <= j < s.len() && f(#[trigger] s[j]);
            if j < front.len() {
                assert(f(front[j]));
            }
        }
    }
}

/// A packet that is sent is the last one of its queue, behind those that were there.
pub proof fn sent_packets_are_queued(r: RecoveryModel, pkt: SentModel)
    ensures
        r.send(pkt).application.sent.len() == r.application.sent.len() + 1,
        r.send(pkt).application.sent.last() == pkt,
        r.send(pkt).application.sent.drop_last() == r.application.sent,
        r.send(pkt).application.largest_acked == r.application.largest_acked,
        r.send(pkt).application.is_fc_source == r.application.is_fc_source,
        r.send(pkt).initial == r.initial,
        r.send(pkt).handshake == r.handshake,
        r.send(pkt).rtt == r.rtt,
        r.send(pkt).cwnd == r.cwnd,
{
    assert(r.send(pkt).application.sent.drop_last() =~= r.application.sent);
}

/// Nothing was sent on a new path.
pub proof fn new_paths_are_empty(rtt: Duration, cwnd: usize)
    ensures
        ({
            let r = new_recovery(rtt, cwnd);
            &&& r.rtt == rtt && r.cwnd == cwnd && !r.app_limited && r.fc_recovery is None
            &&& r.application.sent.len() == 0 && r.application.largest_acked is None
            &&& r.initial.sent.len() == 0 && r.handshake.sent.len() == 0
            &&& !r.application.is_fc_source && !r.initial.is_fc_source
            &&& !r.handshake.is_fc_source
        }),
{
}

/// The spaces are told apart by their kind of packets.
pub proof fn spaces_have_their_packets(r: RecoveryModel)
    ensures
        r.epoch(Epoch::Initial) == r.initial,
        r.epoch(Epoch::Handshake) == r.handshake,
        r.epoch(Epoch::Application) == r.application,
{
}

/// Where losses are declared, each packet is lost or not by the largest number that was
/// acknowledged, and then the packets that are settled leave the front of the queue. Without an
/// acknowledgment no packet is lost.
pub proof fn losses_are_declared_against_the_largest(r: RecoveryModel, now: Instant, i: int)
    requires
        0 <= i < r.application.sent.len(),
    ensures
        ({
            let after = r.detect_lost(now);
            let n = r.application.sent.len() - after.application.sent.len();
            let p = r.application.sent[i];
            let q = match r.application.largest_acked {
                Some(l) => p.lost(l, r.loss_delay(), now),
                None => p,
            };
            &&& 0 <= n
            &&& i < n ==> q.settled(r.application.is_fc_source, r.rtt, now)
            &&& i == n ==> !q.settled(r.application.is_fc_source, r.rtt, now)
            &&& i >= n ==> after.application.sent[i - n] == q
            &&& after.application.largest_acked == r.application.largest_acked
            &&& after.initial == r.initial && after.handshake == r.handshake
            &&& after.rtt == r.rtt && after.cwnd == r.cwnd
        }),
{
    let lost = r.application.detect_lost(r.loss_delay(), now);
    settled_packets_leave_the_front(lost, r.rtt, now, i);
    let n = lost.sent.len() - lost.drained(r.rtt, now).sent.len();
    if i >= n {
        settled_packets_leave_the_front(lost, r.rtt, now, i - n);
    }
}

/// Packets count alike in two queues where one by one they have the same size and are asked for
/// alike.
proof fn lemma_counts_alike(
    s: Seq<SentModel>,
    t: Seq<SentModel>,
    f: spec_fn(SentModel) -> bool,
    g: spec_fn(SentModel) -> bool,
)
    requires
        s.len() == t.len(),
        forall|i: int|
            0 <= i < s.len() ==> f(#[trigger] s[i]) == g(t[i]) && s[i].size == t[i].size,
    ensures
        number_of(s, f) == number_of(t, g),
        bytes_of(s, f) == bytes_of(t, g),
        number_of(s, f) <= s.len(),
    decreases s.len(),
{
    if s.len() > 0 {
        let n = s.len() - 1;
        assert forall|i: int| 0 <= i < n implies f(#[trigger] s.drop_last()[i]) == g(
            t.drop_last()[i],
        ) && s.drop_last()[i].size == t.drop_last()[i].size by {
            assert(s.drop_last()[i] == s[i]);
        }
        lemma_counts_alike(s.drop_last(), t.drop_last(), f, g);
        assert(f(s[n]) == g(t[n]));
    }
}

/// Where an acknowledgment is the first one of a packet, those packets count as lost that are not
/// among the acknowledged ones, that were neither acknowledged nor lost before, and that are
/// three packets behind the largest number, or behind it and late.
pub proof fn losses_are_counted(r: RecoveryModel, pns: Set<u64>, now: Instant)
    requires
        bytes_of(r.application.sent, any_packet()) <= usize::MAX,
        r.application.sent.len() <= usize::MAX,
        exists|j: int|
            0 <= j < r.application.sent.len() && pns.contains(
                (#[trigger] r.application.sent[j]).pkt_num,
            ) && r.application.sent[j].time_acked is None,
    ensures
        ({
            let out = r.on_ack(pns, now).1;
            let sent = r.application.sent;
            let largest = largest_of(r.application.largest_acked, largest_in(pns));
            let lost = |p: SentModel|
                largest is Some && !pns.contains(p.pkt_num) && p.time_acked is None && p.time_lost
                    is None && (p.pkt_num + 3 <= largest->0 || (p.pkt_num <= largest->0
                    && p.time_sent.nanos + r.loss_delay() <= now.nanos));
            &&& out.lost_packets == number_of(sent, lost)
            &&& out.lost_bytes == bytes_of(sent, lost)
        }),
{
    let e = r.application;
    let sent = e.sent;
    let largest = largest_of(e.largest_acked, largest_in(pns));
    let marked = EpochModel { largest_acked: largest, ..e.acked(pns, now) };
    let f = newly_lost(largest, r.loss_delay(), now);
    let lost = |p: SentModel|
        largest is Some && !pns.contains(p.pkt_num) && p.time_acked is None && p.time_lost is None
            && (p.pkt_num + 3 <= largest->0 || (p.pkt_num <= largest->0 && p.time_sent.nanos
            + r.loss_delay() <= now.nanos));
    let k = choose|j: int|
        0 <= j < sent.len() && pns.contains((#[trigger] sent[j]).pkt_num) && sent[j].time_acked
            is None;
    assert(newly_acked(pns)(sent[k]));
    lemma_some_counts(sent, newly_acked(pns));
    assert forall|i: int| 0 <= i < sent.len() implies f(#[trigger] marked.sent[i]) == lost(sent[i])
        && marked.sent[i].size == sent[i].size by {}
    lemma_counts_alike(marked.sent, sent, f, lost);
    lemma_bytes_bound(sent, sent.len() as int, lost);
    assert(sent.take(sent.len() as int) =~= sent);
}

/// A search for losses counts the packets that it declares lost.
pub proof fn declared_losses_are_counted(r: &mut Recovery, now: Instant, c: (usize, usize))
    requires
        call_ensures(Recovery::detect_lost_packets, (r, now), c),
    ensures
        ({
            let e = old(r)@.application;
            let delay = old(r)@.loss_delay();
            let lost = |p: SentModel|
                e.largest_acked is Some && p.time_acked is None && p.time_lost is None && (p.pkt_num
                    + 3 <= e.largest_acked->0 || (p.pkt_num <= e.largest_acked->0
                    && p.time_sent.nanos + delay <= now.nanos));
            &&& c.0 == number_of(e.sent, lost)
            &&& c.1 == bytes_of(e.sent, lost)
        }),
{
    let e = old(r)@.application;
    let delay = old(r)@.loss_delay();
    let lost = |p: SentModel|
        e.largest_acked is Some && p.time_acked is None && p.time_lost is None && (p.pkt_num + 3
            <= e.largest_acked->0 || (p.pkt_num <= e.largest_acked->0 && p.time_sent.nanos + delay
            <= now.nanos));
    assert(newly_lost(e.largest_acked, delay, now) =~= lost);
}

} // verus!
