//! Queue between an RTP source and a flexicast flow.

use std::collections::HashMap;
use std::collections::VecDeque;
use vstd::prelude::*;
use vstd::string::StringExecFns;

use crate::fc_app::pacer::TokenPacer;
use crate::fc_app::rtp::header_of;
use crate::fc_app::rtp::RtpHeader;
use crate::fc_app::rtp::RTP_HEADER_LEN;
use crate::fc_app::rtp::VIDEO_PAYLOAD_TYPE;
use crate::text::append_u64;
use crate::text::decimal;
use crate::time::Instant;

verus! {

broadcast use vstd::std_specs::hash::group_hash_axioms;

/// First line of a log of frames.
pub fn log_header() -> (r: String)
    ensures
        r@ == "timestamp,frame_idx,number_packets\n"@,
{
    "timestamp,frame_idx,number_packets\n".to_owned()
}

/// Packets of an RTP source on their way to a flexicast flow.
#[derive(Debug)]
pub struct RtpAsync {
    /// Number of receivers of the flow.
    pub number_receivers: usize,
    /// Pacer of the packets, where they are paced.
    pub pacer: Option<TokenPacer>,
    /// The packets that wait, oldest first.
    pub packets: VecDeque<Vec<u8>>,
    /// How many packets of each unfinished frame came.
    pub timestamp_count: HashMap<u32, usize>,
    /// Number of frames that came.
    pub frame_count: u64,
    /// Whether frames are logged.
    pub logs: bool,
}

/// What a [`RtpAsync`] stands for.
#[verifier::ext_equal]
pub struct RtpModel {
    /// Number of receivers of the flow.
    pub number_receivers: usize,
    /// Pacer of the packets, where they are paced.
    pub pacer: Option<TokenPacer>,
    /// The packets that wait, oldest first.
    pub packets: Seq<Seq<u8>>,
    /// How many packets of each unfinished frame came.
    pub timestamp_count: Map<u32, usize>,
    /// Number of frames that came.
    pub frame_count: u64,
    /// Whether frames are logged.
    pub logs: bool,
}

impl View for RtpAsync {
    type V = RtpModel;

    open spec fn view(&self) -> RtpModel {
        RtpModel {
            number_receivers: self.number_receivers,
            pacer: self.pacer,
            packets: Seq::new(self.packets@.len(), |i: int| self.packets@[i]@),
            timestamp_count: self.timestamp_count@,
            frame_count: self.frame_count,
            logs: self.logs,
        }
    }
}

/// The line that logs a frame.
pub open spec fn log_line(timestamp: u32, frame_idx: u64, number_packets: int) -> Seq<char> {
    decimal(timestamp as int) + ","@ + decimal(frame_idx as int) + ","@ + decimal(number_packets)
        + "\n"@
}

impl RtpModel {
    /// How many packets of a frame came, with one more.
    pub open spec fn count_with(self, timestamp: u32) -> int {
        if self.timestamp_count.contains_key(timestamp) {
            self.timestamp_count[timestamp] + 1
        } else {
            1
        }
    }

    /// The counts of packets and frames once a packet came: only video packets
    /// count, and the last packet of a frame ends its count.
    pub open spec fn counted(self, h: RtpHeader) -> RtpModel {
        if h.payload_type != VIDEO_PAYLOAD_TYPE {
            self
        } else if h.marker {
            RtpModel {
                timestamp_count: self.timestamp_count.remove(h.timestamp),
                frame_count: (self.frame_count + 1) as u64,
                ..self
            }
        } else {
            RtpModel {
                timestamp_count: self.timestamp_count.insert(
                    h.timestamp,
                    self.count_with(h.timestamp) as usize,
                ),
                ..self
            }
        }
    }

    /// The queue once a packet came: it is kept only if there is a receiver.
    pub open spec fn received(self, rtp: Seq<u8>) -> RtpModel {
        let m = self.counted(header_of(rtp));
        if self.number_receivers > 0 {
            RtpModel { packets: self.packets.push(rtp), ..m }
        } else {
            m
        }
    }

    /// Whether the next packet may leave at `now`.
    pub open spec fn may_send(self, earned: usize) -> bool {
        self.packets.len() > 0 && match self.pacer {
            Some(p) => p.refilled(earned) >= self.packets[0].len(),
            None => true,
        }
    }

    /// The queue once the next packet was asked for at `now`.
    pub open spec fn asked(self, now: Instant, earned: usize) -> RtpModel {
        if self.packets.len() == 0 {
            self
        } else {
            RtpModel {
                pacer: match self.pacer {
                    Some(p) => Some(p.after_send(self.packets[0].len() as usize, now, earned)),
                    None => None,
                },
                packets: if self.may_send(earned) {
                    self.packets.skip(1)
                } else {
                    self.packets
                },
                ..self
            }
        }
    }
}

impl RtpAsync {
    /// An empty queue without receivers.
    pub fn new(pacer: Option<TokenPacer>, logs: bool) -> (q: RtpAsync)
        ensures
            q@ == (RtpModel {
                number_receivers: 0,
                pacer,
                packets: Seq::empty(),
                timestamp_count: Map::empty(),
                frame_count: 0,
                logs,
            }),
    {
        let q = RtpAsync {
            number_receivers: 0,
            pacer,
            packets: VecDeque::new(),
            timestamp_count: HashMap::new(),
            frame_count: 0,
            logs,
        };
        assert(q@.packets =~= Seq::<Seq<u8>>::empty());
        q
    }

    /// Handles a packet of the source. Returns the line to log if it ends a frame
    /// and frames are logged.
    pub fn handle_rtp(&mut self, rtp: Vec<u8>) -> (r: Option<String>)
        requires
            rtp@.len() >= RTP_HEADER_LEN,
            old(self)@.count_with(header_of(rtp@).timestamp) <= usize::MAX,
            old(self)@.frame_count < u64::MAX,
        ensures
            final(self)@ == old(self)@.received(rtp@),
            ({
                let h = header_of(rtp@);
                &&& r is Some <==> h.payload_type == VIDEO_PAYLOAD_TYPE && h.marker
                    && old(self)@.logs
                &&& r matches Some(line) ==> line@ == log_line(
                    h.timestamp,
                    old(self)@.frame_count,
                    old(self)@.count_with(h.timestamp),
                )
            }),
    {
        let h: RtpHeader = RtpHeader::from_bytes(&rtp);
        let ghost m = self@;
        let mut line: Option<String> = None;
        if h.payload_type == VIDEO_PAYLOAD_TYPE {
            let count: usize = match self.timestamp_count.get(&h.timestamp) {
                Some(c) => *c + 1,
                None => 1,
            };
            if h.marker {
                if self.logs {
                    let mut s: String = String::new();
                    append_u64(&mut s, h.timestamp as u64);
                    s.append(",");
                    append_u64(&mut s, self.frame_count);
                    s.append(",");
                    append_u64(&mut s, count as u64);
                    s.append("\n");
                    proof {
                        assert(s@ =~= log_line(h.timestamp, m.frame_count, count as int));
                    }
                    line = Some(s);
                }
                self.frame_count += 1;
                self.timestamp_count.remove(&h.timestamp);
            } else {
                self.timestamp_count.insert(h.timestamp, count);
            }
        }
        proof {
            assert(self@.packets =~= m.packets);
            assert(self@ =~= m.counted(h));
        }
        if self.number_receivers > 0 {
            let ghost before = self@;
            self.packets.push_back(rtp);
            assert(self@.packets =~= before.packets.push(rtp@));
        }
        line
    }

    /// Sets the number of receivers of the flow.
    pub fn handle_command(&mut self, receivers: usize)
        ensures
            final(self)@ == (RtpModel { number_receivers: receivers, ..old(self)@ }),
    {
        self.number_receivers = receivers;
        assert(self@.packets =~= old(self)@.packets);
    }

    /// Length of the next packet.
    pub fn next_len(&self) -> (r: Option<usize>)
        ensures
            r == if self@.packets.len() > 0 {
                Some(self@.packets[0].len() as usize)
            } else {
                None
            },
    {
        if self.packets.len() > 0 {
            Some(self.packets[0].len())
        } else {
            None
        }
    }

    /// Takes the next packet if it may leave at `now`, when `earned` tokens were
    /// earned since the pacer was last asked.
    pub fn next_packet(&mut self, now: Instant, earned: usize) -> (r: Option<Vec<u8>>)
        requires
            old(self)@.pacer matches Some(p) ==> p.tokens + earned <= usize::MAX,
        ensures
            final(self)@ == old(self)@.asked(now, earned),
            r is Some <==> old(self)@.may_send(earned),
            r matches Some(p) ==> p@ == old(self)@.packets[0],
    {
        if self.packets.len() == 0 {
            return None;
        }
        let len: usize = self.packets[0].len();
        let ghost m = self@;
        let sent: bool = match &mut self.pacer {
            Some(pacer) => pacer.send(len, now, earned),
            None => true,
        };
        if sent {
            let packet: Option<Vec<u8>> = self.packets.pop_front();
            proof {
                assert(self@.packets =~= m.packets.skip(1));
                assert(packet->0@ == m.packets[0]);
            }
            packet
        } else {
            assert(self@.packets =~= m.packets);
            None
        }
    }

    /// Puts a packet back that the flow could not take.
    pub fn give_back(&mut self, packet: Vec<u8>)
        ensures
            final(self)@ == (RtpModel {
                packets: seq![packet@] + old(self)@.packets,
                ..old(self)@
            }),
    {
        self.packets.push_front(packet);
        assert(self@.packets =~= seq![packet@] + old(self)@.packets);
    }
}

/// A packet that the flow could not take is the next one again, and the others
/// keep their order.
pub proof fn packet_given_back_is_next(m: RtpModel, now: Instant, earned: usize)
    requires
        m.may_send(earned),
    ensures
        seq![m.packets[0]] + m.asked(now, earned).packets == m.packets,
{
    assert(seq![m.packets[0]] + m.packets.skip(1) =~= m.packets);
}

/// Without receivers nothing is kept.
pub proof fn nothing_is_kept_without_receivers(m: RtpModel, rtp: Seq<u8>)
    requires
        m.number_receivers == 0,
    ensures
        m.received(rtp).packets == m.packets,
{
}

/// With a receiver, whatever their number and whatever the packet is, the packet is put
/// behind those that wait, and nothing but the counts of packets and frames changes
/// besides.
pub proof fn packets_are_kept_for_receivers(m: RtpModel, rtp: Seq<u8>)
    requires
        m.number_receivers >= 1,
    ensures
        m.received(rtp).packets.len() == m.packets.len() + 1,
        m.received(rtp).packets.last() == rtp,
        m.received(rtp).packets.drop_last() == m.packets,
        m.received(rtp).number_receivers == m.number_receivers,
        m.received(rtp).pacer == m.pacer,
        m.received(rtp).logs == m.logs,
{
    assert(m.received(rtp).packets.drop_last() =~= m.packets);
}

/// Only video packets, those with the payload type 96, are counted. A packet without a
/// marker adds one to the count of its frame. One with a marker ends its frame: one more
/// frame came, and the packets of another frame with the same timestamp are counted from
/// one again. The counts of the other frames stay, with or without receivers.
pub proof fn video_frames_are_counted(m: RtpModel, rtp: Seq<u8>, other: u32)
    requires
        m.frame_count < u64::MAX,
        m.count_with(header_of(rtp).timestamp) <= usize::MAX,
        other != header_of(rtp).timestamp,
    ensures
        ({
            let h = header_of(rtp);
            let after = m.received(rtp);
            let video = h.payload_type == 96;
            &&& after.timestamp_count.contains_key(other) == m.timestamp_count.contains_key(other)
            &&& after.count_with(other) == m.count_with(other)
            &&& after.frame_count == m.frame_count + if video && h.marker {
                1int
            } else {
                0
            }
            &&& !video ==> after.count_with(h.timestamp) == m.count_with(h.timestamp)
            &&& video && !h.marker ==> after.count_with(h.timestamp) == m.count_with(h.timestamp)
                + 1
            &&& video && h.marker ==> after.count_with(h.timestamp) == 1
        }),
{
}

/// Packets leave in the order in which they came, one at a time. Without a pacer the next
/// one always leaves. With one it leaves when the tokens that are there, together with
/// those that were earned and up to the size of the buffer, cover its length; it takes as
/// many tokens, and the others are left.
pub proof fn packets_leave_in_order(m: RtpModel, now: Instant, earned: usize)
    requires
        m.packets.len() > 0,
        m.packets[0].len() <= usize::MAX,
        m.pacer matches Some(p) ==> p.tokens + earned <= usize::MAX,
    ensures
        ({
            let after = m.asked(now, earned);
            let len = m.packets[0].len();
            let leaves = match m.pacer {
                Some(p) => p.tokens + earned >= len && p.buffer >= len,
                None => true,
            };
            &&& m.may_send(earned) == leaves
            &&& leaves ==> after.packets.len() == m.packets.len() - 1 && forall|i: int|
                0 <= i < after.packets.len() ==> #[trigger] after.packets[i] == m.packets[i + 1]
            &&& !leaves ==> after.packets == m.packets
            &&& m.pacer is None ==> after.pacer is None
            &&& m.pacer matches Some(p) ==> after.pacer matches Some(q) && q.tokens + (if leaves {
                len
            } else {
                0
            }) == if p.tokens + earned <= p.buffer {
                p.tokens + earned
            } else {
                p.buffer as int
            }
            &&& after.number_receivers == m.number_receivers
            &&& after.timestamp_count == m.timestamp_count
            &&& after.frame_count == m.frame_count
            &&& after.logs == m.logs
        }),
{
}

/// A line of the log holds the timestamp of the frame, its number and how many packets it had,
/// with commas between them, and ends there.
pub proof fn log_lines_have_three_fields(timestamp: u32, frame_idx: u64, number_packets: int)
    ensures
        log_line(timestamp, frame_idx, number_packets) == decimal(timestamp as int).push(',')
            + decimal(frame_idx as int).push(',') + decimal(number_packets).push('\n'),
{
    reveal_strlit(",");
    reveal_strlit("\n");
    assert(log_line(timestamp, frame_idx, number_packets) =~= decimal(timestamp as int).push(',')
        + decimal(frame_idx as int).push(',') + decimal(number_packets).push('\n'));
}

/// The number of receivers is the one that was told last, and decides from then on whether packets
/// are kept: none without receivers, each of them with some.
pub proof fn receivers_decide_whether_packets_are_kept(q: &mut RtpAsync, n: usize, rtp: Seq<u8>)
    requires
        call_ensures(RtpAsync::handle_command, (q, n), ()),
    ensures
        final(q)@.packets == old(q)@.packets,
        final(q)@.received(rtp).packets.len() == old(q)@.packets.len() + if n > 0 {
            1int
        } else {
            0
        },
        final(q)@.pacer == old(q)@.pacer,
        final(q)@.frame_count == old(q)@.frame_count,
        final(q)@.timestamp_count == old(q)@.timestamp_count,
{
}

/// The next packet is the one at the front of the queue: it is the one whose length is told and
/// the one that leaves, and the others follow it.
pub proof fn next_packet_is_at_the_front(
    q: &mut RtpAsync,
    now: Instant,
    earned: usize,
    r: Option<Vec<u8>>,
    before: RtpAsync,
    len: Option<usize>,
)
    requires
        before == *old(q),
        call_ensures(RtpAsync::next_len, (&before,), len),
        call_ensures(RtpAsync::next_packet, (q, now, earned), r),
        old(q)@.pacer matches Some(p) ==> p.tokens + earned <= usize::MAX,
    ensures
        old(q)@.packets.len() == 0 ==> r is None && len is None,
        old(q)@.packets.len() > 0 ==> len is Some,
        old(q)@.packets.len() > 0 && old(q)@.pacer is None ==> r is Some,
        r matches Some(p) ==> old(q)@.packets.len() > 0 && p@ == old(q)@.packets[0] && len == Some(
            p@.len() as usize,
        ) && final(q)@.packets == old(q)@.packets.skip(1),
        r is None ==> final(q)@.packets == old(q)@.packets,
{
}

/// A packet that is given back stands in front of the others.
pub proof fn packets_given_back_stand_in_front(q: &mut RtpAsync, packet: Vec<u8>)
    requires
        call_ensures(RtpAsync::give_back, (q, packet), ()),
    ensures
        final(q)@.packets.len() == old(q)@.packets.len() + 1,
        final(q)@.packets[0] == packet@,
        final(q)@.packets.skip(1) == old(q)@.packets,
        final(q)@.pacer == old(q)@.pacer,
{
    assert(final(q)@.packets.skip(1) =~= old(q)@.packets);
}

/// A line is logged for the last packet of each video frame where frames are logged, with the
/// number of the frame and one more than the packets of it that came before.
pub proof fn frames_are_logged_once(q: &mut RtpAsync, rtp: Vec<u8>, r: Option<String>)
    requires
        call_ensures(RtpAsync::handle_rtp, (q, rtp), r),
        rtp@.len() >= 12,
    ensures
        ({
            let h = header_of(rtp@);
            let known = old(q)@.timestamp_count.contains_key(h.timestamp);
            let n = if known {
                old(q)@.timestamp_count[h.timestamp] + 1
            } else {
                1
            };
            &&& r is Some <==> h.payload_type == 96 && h.marker && old(q)@.logs
            &&& r matches Some(line) ==> line@ == log_line(h.timestamp, old(q)@.frame_count, n)
        }),
{
}

} // verus!
