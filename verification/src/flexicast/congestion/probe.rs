//! Probing heuristic: from time to time, tries to join a group with a higher
//! bitrate. If there are signs of congestion, falls back to the previous group
//! and waits longer before the next try.

use vstd::prelude::*;

use crate::bytes::copy_bytes;
use crate::bytes::same_bytes;
use crate::flexicast::announce::announce_index_is_the_first;
use crate::flexicast::announce::optional_bytes;
use crate::flexicast::FlexicastAttributes;
use crate::flexicast::FlexicastModel;
use crate::rate::Float32;
use crate::time::since;
use crate::time::Duration;
use crate::time::Instant;

verus! {

/// How many round-trip times a probe lasts.
pub const PROBE_DURATION: u32 = 2;

/// How many round-trip times the first wait lasts.
pub const WAIT_DURATION: u32 = 8;

/// Pattern of 0.15, the loss rate above which there is congestion.
pub const CONGESTED_LOSS_BITS: u32 = 0x3E19_999A;

/// Pattern of 0.3, the rate of marks above which there is congestion.
pub const CONGESTED_ECN_BITS: u32 = 0x3E99_999A;

/// Phase of the heuristic.
#[derive(Clone, Copy, Debug, PartialEq, Eq, Structural)]
pub enum ProbePhase {
    /// A faster group is tried since this point in time.
    Probing(Instant),
    /// The next try is waited for since this point in time.
    Waiting(Instant),
    /// A faster group is being joined.
    Joining,
    /// The previous group is being joined again.
    Fallback,
}

/// Congestion signals of a group.
#[derive(Clone, Copy, Debug, PartialEq, Eq, Structural)]
pub struct ProbeStats {
    /// Position of the group.
    pub channel_idx: usize,
    /// Rate of lost packets.
    pub loss_rate: Float32,
    /// Round-trip time.
    pub rtt: Duration,
    /// Rate of marked packets.
    pub ecn_rate: Float32,
}

/// No signal.
pub open spec fn new_probe_stats() -> ProbeStats {
    ProbeStats {
        channel_idx: 0,
        loss_rate: Float32 { bits: 0 },
        ecn_rate: Float32 { bits: 0 },
        rtt: Duration { nanos: 333_000_000 },
    }
}

impl Default for ProbeStats {
    /// No signal.
    fn default() -> (s: ProbeStats)
        ensures
            s == new_probe_stats(),
    {
        ProbeStats {
            channel_idx: 0,
            loss_rate: Float32 { bits: 0 },
            ecn_rate: Float32 { bits: 0 },
            rtt: Duration::from_millis(333),
        }
    }
}

impl ProbeStats {
    /// Whether there is congestion, compared to what was before: more than 15% of
    /// losses, more than 30% of marks, or more than 10% of increase of the
    /// round-trip time.
    pub open spec fn is_congested(self, previous: ProbeStats) -> bool {
        ||| self.loss_rate.above(Float32 { bits: CONGESTED_LOSS_BITS })
        ||| since(self.rtt.nanos as int, previous.rtt.nanos as int) > previous.rtt.nanos / 10
        ||| self.ecn_rate.above(Float32 { bits: CONGESTED_ECN_BITS })
    }

    /// Whether there is congestion, compared to what was before.
    pub fn congestion_occured(&self, previous: &ProbeStats) -> (r: bool)
        ensures
            r == self.is_congested(*previous),
    {
        let increase_rtt: Duration = self.rtt.saturating_sub(previous.rtt);
        self.loss_rate.is_above(Float32 { bits: CONGESTED_LOSS_BITS }) || increase_rtt.nanos
            > previous.rtt.nanos / 10 || self.ecn_rate.is_above(
            Float32 { bits: CONGESTED_ECN_BITS },
        )
    }
}

/// State of the probing heuristic.
#[derive(Clone, Copy, Debug, PartialEq, Eq, Structural)]
pub struct ProbeState {
    /// Phase.
    pub phase: ProbePhase,
    /// How many round-trip times a wait lasts.
    pub wait_duration: u32,
    /// Signals of the previous group.
    pub congestion_stats_previous: ProbeStats,
    /// Signals of the current group.
    pub congestion_stats_curr: ProbeStats,
    /// Position of the group to join.
    pub join_channel: Option<usize>,
    /// Whether the heuristic has started.
    pub started: bool,
}

/// A heuristic that has not started.
pub open spec fn new_probe_state(now: Instant) -> ProbeState {
    ProbeState {
        phase: ProbePhase::Waiting(now),
        wait_duration: WAIT_DURATION,
        congestion_stats_previous: new_probe_stats(),
        congestion_stats_curr: new_probe_stats(),
        join_channel: None,
        started: false,
    }
}

impl ProbeState {
    /// There is a group to join exactly while one is being joined.
    pub open spec fn wf(self) -> bool {
        self.phase is Joining || self.phase is Fallback <==> self.join_channel is Some
    }

    /// The round-trip time that counts in this phase: while probing and joining
    /// that of the previous group, as the current one may fluctuate.
    pub open spec fn phase_rtt(self) -> Duration {
        match self.phase {
            ProbePhase::Probing(_) | ProbePhase::Joining => self.congestion_stats_previous.rtt,
            ProbePhase::Waiting(_) | ProbePhase::Fallback => self.congestion_stats_curr.rtt,
        }
    }

    /// Whether there is congestion in the current group.
    pub open spec fn congested(self) -> bool {
        self.congestion_stats_curr.is_congested(self.congestion_stats_previous)
    }

    /// Whether the spans of time and the counters of the next phase can be
    /// computed.
    pub open spec fn can_update(self, now: Instant) -> bool {
        match self.phase {
            ProbePhase::Probing(start) => if self.congested() {
                self.wait_duration * 2 <= u32::MAX
            } else {
                PROBE_DURATION * self.phase_rtt().nanos <= crate::time::DURATION_MAX_NANOS
            },
            ProbePhase::Waiting(start) => {
                &&& self.wait_duration * self.phase_rtt().nanos <= crate::time::DURATION_MAX_NANOS
                &&& self.congestion_stats_curr.channel_idx < usize::MAX
            },
            _ => true,
        }
    }

    /// The heuristic at `now`, when the receiver listens to the group at the
    /// position `active`.
    pub open spec fn updated(self, now: Instant, active: Option<usize>) -> ProbeState {
        match self.phase {
            ProbePhase::Probing(start) => if self.congested() {
                ProbeState {
                    phase: ProbePhase::Fallback,
                    wait_duration: (self.wait_duration * 2) as u32,
                    congestion_stats_curr: self.congestion_stats_previous,
                    join_channel: Some(self.congestion_stats_previous.channel_idx),
                    ..self
                }
            } else if since(now.nanos as int, start.nanos as int) > PROBE_DURATION
                * self.phase_rtt().nanos {
                ProbeState { phase: ProbePhase::Waiting(now), ..self }
            } else {
                self
            },
            ProbePhase::Waiting(start) => if since(now.nanos as int, start.nanos as int)
                > self.wait_duration * self.phase_rtt().nanos {
                let next: usize = (self.congestion_stats_curr.channel_idx + 1) as usize;
                ProbeState {
                    phase: ProbePhase::Joining,
                    join_channel: Some(next),
                    congestion_stats_previous: self.congestion_stats_curr,
                    congestion_stats_curr: ProbeStats {
                        channel_idx: next,
                        ..self.congestion_stats_curr
                    },
                    ..self
                }
            } else {
                self
            },
            ProbePhase::Joining => if active is Some && active == self.join_channel {
                ProbeState { phase: ProbePhase::Probing(now), join_channel: None, ..self }
            } else {
                self
            },
            ProbePhase::Fallback => if active is Some && active == self.join_channel {
                ProbeState { phase: ProbePhase::Waiting(now), join_channel: None, ..self }
            } else {
                self
            },
        }
    }

    /// A heuristic that has not started.
    pub fn new(now: Instant) -> (s: ProbeState)
        ensures
            s.wf(),
            s == new_probe_state(now),
    {
        ProbeState {
            phase: ProbePhase::Waiting(now),
            wait_duration: WAIT_DURATION,
            congestion_stats_previous: ProbeStats::default(),
            congestion_stats_curr: ProbeStats::default(),
            join_channel: None,
            started: false,
        }
    }

    /// Notes received packets, which make the rate of lost packets `loss_rate`.
    pub fn packets_recv(&mut self, loss_rate: Float32)
        ensures
            *final(self) == (ProbeState {
                congestion_stats_curr: ProbeStats {
                    loss_rate,
                    ..old(self).congestion_stats_curr
                },
                ..*old(self)
            }),
    {
        self.congestion_stats_curr.loss_rate = loss_rate;
    }

    /// Notes lost packets, which make the rate of lost packets `loss_rate`.
    pub fn packets_lost(&mut self, loss_rate: Float32)
        ensures
            *final(self) == (ProbeState {
                congestion_stats_curr: ProbeStats {
                    loss_rate,
                    ..old(self).congestion_stats_curr
                },
                ..*old(self)
            }),
    {
        self.congestion_stats_curr.loss_rate = loss_rate;
    }

    /// Notes a packet without a mark, which makes the rate of marked packets
    /// `ecn_rate`.
    pub fn packet_not_marked(&mut self, ecn_rate: Float32)
        ensures
            *final(self) == (ProbeState {
                congestion_stats_curr: ProbeStats { ecn_rate, ..old(self).congestion_stats_curr },
                ..*old(self)
            }),
    {
        self.congestion_stats_curr.ecn_rate = ecn_rate;
    }

    /// Notes a packet with a mark, which makes the rate of marked packets
    /// `ecn_rate`.
    pub fn packet_marked(&mut self, ecn_rate: Float32)
        ensures
            *final(self) == (ProbeState {
                congestion_stats_curr: ProbeStats { ecn_rate, ..old(self).congestion_stats_curr },
                ..*old(self)
            }),
    {
        self.congestion_stats_curr.ecn_rate = ecn_rate;
    }

    /// Sets the round-trip time.
    pub fn update_rtt(&mut self, rtt: Duration)
        ensures
            *final(self) == old(self).with_rtt(rtt),
    {
        self.congestion_stats_curr.rtt = rtt;
    }

    /// The heuristic with another round-trip time.
    pub open spec fn with_rtt(self, rtt: Duration) -> ProbeState {
        ProbeState {
            congestion_stats_curr: ProbeStats { rtt, ..self.congestion_stats_curr },
            ..self
        }
    }

    /// Whether there is congestion in the current group.
    pub fn congestion_occured(&self) -> (r: bool)
        ensures
            r == self.congested(),
    {
        self.congestion_stats_curr.congestion_occured(&self.congestion_stats_previous)
    }

    /// Goes to the next phase where it is time: `active_data` is the position of
    /// the group that the receiver listens to.
    pub fn update_phase(&mut self, now: Instant, active_data: Option<usize>)
        requires
            old(self).wf(),
            old(self).can_update(now),
        ensures
            final(self).wf(),
            *final(self) == old(self).updated(now, active_data),
    {
        let rtt: Duration = match self.phase {
            ProbePhase::Probing(_) | ProbePhase::Joining => self.congestion_stats_previous.rtt,
            ProbePhase::Waiting(_) | ProbePhase::Fallback => self.congestion_stats_curr.rtt,
        };
        match self.phase {
            ProbePhase::Probing(start) => {
                if self.congestion_occured() {
                    self.phase = ProbePhase::Fallback;
                    // The next try comes later.
                    self.wait_duration *= 2;
                    self.congestion_stats_curr = self.congestion_stats_previous;
                    self.join_channel = Some(self.congestion_stats_previous.channel_idx);
                    return;
                }
                proof {
                    assert(PROBE_DURATION * rtt.nanos == rtt.nanos * PROBE_DURATION);
                }
                if now.duration_since(start).nanos > rtt.times(PROBE_DURATION).nanos {
                    self.phase = ProbePhase::Waiting(now);
                }
            },
            ProbePhase::Waiting(start) => {
                proof {
                    assert(self.wait_duration * rtt.nanos == rtt.nanos * self.wait_duration)
                        by (nonlinear_arith);
                }
                if now.duration_since(start).nanos > rtt.times(self.wait_duration).nanos {
                    self.phase = ProbePhase::Joining;
                    let new_channel_idx: usize = self.congestion_stats_curr.channel_idx + 1;
                    self.join_channel = Some(new_channel_idx);
                    self.congestion_stats_previous = self.congestion_stats_curr;
                    self.congestion_stats_curr.channel_idx = new_channel_idx;
                }
            },
            ProbePhase::Joining => {
                if active_data.is_some() && active_data == self.join_channel {
                    self.join_channel = None;
                    self.phase = ProbePhase::Probing(now);
                }
            },
            ProbePhase::Fallback => {
                if active_data.is_some() && active_data == self.join_channel {
                    self.join_channel = None;
                    self.phase = ProbePhase::Waiting(now);
                }
            },
        }
    }
}

impl FlexicastModel {
    /// Round-trip time that the source reported, or 333 milliseconds.
    pub open spec fn reported_rtt(self) -> Duration {
        match self.congestion.local {
            Some(info) => info.rtt,
            None => Duration { nanos: 333_000_000 },
        }
    }

    /// Position of the group that the receiver listens to.
    pub open spec fn active_index(self) -> Option<usize> {
        match self.active() {
            Some(a) => match self.index_of(a.channel_id) {
                Some(i) => Some(i as usize),
                None => None,
            },
            None => None,
        }
    }

    /// The probing heuristic after a decision.
    pub open spec fn probed(self, now: Instant) -> ProbeState {
        let p = self.congestion.probe;
        if p.started {
            p.with_rtt(self.reported_rtt()).updated(now, self.active_index())
        } else {
            ProbeState { started: true, phase: ProbePhase::Waiting(now), ..p }
        }
    }

    /// The channel that a state of the heuristic wants to join, where it is not
    /// the current one.
    pub open spec fn probe_choice(self, p: ProbeState) -> Option<Seq<u8>> {
        match p.join_channel {
            Some(i) if i < self.announces.len() => {
                let id = self.announces[i as int].channel_id;
                if self.active() matches Some(a) && a.channel_id == id {
                    None
                } else {
                    Some(id)
                }
            },
            _ => None,
        }
    }
}

impl FlexicastModel {
    /// The decision of the heuristic, which makes none when it starts.
    pub open spec fn probe_decision(self, now: Instant) -> Option<Seq<u8>> {
        if self.congestion.probe.started {
            self.probe_choice(self.probed(now))
        } else {
            None
        }
    }

    /// Whether the heuristic can decide at `now`.
    pub open spec fn probe_ready(self, now: Instant) -> bool {
        self.congestion.probe.started ==> self.congestion.probe.with_rtt(
            self.reported_rtt(),
        ).can_update(now)
    }
}

/// The channel to join, where it is not the current one.
pub fn probe_should_change_channel(flexicast: &mut FlexicastAttributes, now: Instant) -> (r: Option<
    Vec<u8>,
>)
    requires
        old(flexicast).wf(),
        old(flexicast)@.probe_ready(now),
    ensures
        final(flexicast).wf(),
        final(flexicast)@ == old(flexicast)@.with_probe(old(flexicast)@.probed(now)),
        optional_bytes(r) == old(flexicast)@.probe_decision(now),
{
    let idx_active: Option<usize> = match flexicast.get_mc_announce_data_active() {
        Some(data) => flexicast.get_mc_announce_data_index(&data.channel_id),
        None => None,
    };
    if !flexicast.congestion_state.probe_state.started {
        flexicast.congestion_state.probe_state.started = true;
        flexicast.congestion_state.probe_state.phase = ProbePhase::Waiting(now);
        return None;
    }
    let rtt: Duration = match &flexicast.congestion_state.local_congestion_info {
        Some(info) => info.rtt,
        None => Duration::from_millis(333),
    };
    flexicast.congestion_state.probe_state.update_rtt(rtt);
    flexicast.congestion_state.probe_state.update_phase(now, idx_active);
    let join_channel: usize = match flexicast.congestion_state.probe_state.join_channel {
        Some(i) => i,
        None => {
            return None;
        },
    };
    let channel_id: Vec<u8> = match flexicast.get_mc_announce_data(join_channel) {
        Some(data) => copy_bytes(&data.channel_id),
        None => {
            return None;
        },
    };
    match flexicast.get_mc_announce_data_active() {
        Some(active) => {
            if same_bytes(&active.channel_id, &channel_id) {
                None
            } else {
                Some(channel_id)
            }
        },
        None => Some(channel_id),
    }
}

/// There is a group to join exactly while one is being joined, whatever happens: a
/// heuristic starts so, and each step keeps it so. A group that is being joined is
/// left for the next phase only once the receiver listens to it, and a wait leads
/// nowhere but to the group above the current one.
pub proof fn phases_follow_the_group(p: ProbeState, now: Instant, active: Option<usize>)
    requires
        p.wf(),
        p.can_update(now),
    ensures
        new_probe_state(now).wf(),
        p.updated(now, active).wf(),
        p.phase is Joining || p.phase is Fallback ==> p.updated(now, active) == if active
            == p.join_channel {
            ProbeState {
                phase: if p.phase is Joining {
                    ProbePhase::Probing(now)
                } else {
                    ProbePhase::Waiting(now)
                },
                join_channel: None,
                ..p
            }
        } else {
            p
        },
        p.phase is Waiting ==> p.updated(now, active) == p || (p.updated(now, active).phase
            is Joining && p.updated(now, active).join_channel == Some(
            (p.congestion_stats_curr.channel_idx + 1) as usize,
        )),
        p.phase is Probing ==> !(p.updated(now, active).phase is Joining),
{
}

/// A heuristic that falls back waits twice as long before the next try, and
/// returns to the group in which it was.
pub proof fn fallback_doubles_the_wait(p: ProbeState, now: Instant, active: Option<usize>)
    requires
        p.phase is Probing,
        p.congested(),
        p.wait_duration * 2 <= u32::MAX,
    ensures
        p.updated(now, active).phase is Fallback,
        p.updated(now, active).wait_duration == 2 * p.wait_duration,
        p.updated(now, active).join_channel == Some(p.congestion_stats_previous.channel_idx),
{
}

/// There is congestion exactly when more than 15% of the packets are lost, more than 30% are
/// marked, or the round-trip time grew by more than a tenth of what it was.
pub proof fn congestion_has_three_signs(s: ProbeStats, previous: ProbeStats)
    ensures
        s.is_congested(previous) <==> s.loss_rate.above(Float32 { bits: 0x3E19_999A })
            || s.ecn_rate.above(Float32 { bits: 0x3E99_999A }) || 10 * (s.rtt.nanos
            - previous.rtt.nanos) > previous.rtt.nanos,
{
}

/// A try lasts for two round-trip times of the group before it, and leads to a wait when there
/// is no congestion; with congestion it ends at once, and the signals are those of the group
/// before it again. A wait lasts for its number of round-trip times; then the group one
/// above is joined, and the signals of the current one are kept for comparison.
pub proof fn phases_last_for_round_trips(p: ProbeState, now: Instant, active: Option<usize>)
    requires
        p.can_update(now),
    ensures
        ({
            let q = p.updated(now, active);
            let curr = p.congestion_stats_curr;
            let previous = p.congestion_stats_previous;
            &&& q.started == p.started
            &&& p.phase matches ProbePhase::Probing(start) ==> {
                &&& p.congested() ==> q.phase is Fallback && q.congestion_stats_curr == previous
                    && q.congestion_stats_previous == previous && q.wait_duration == 2
                    * p.wait_duration && q.join_channel == Some(previous.channel_idx)
                &&& !p.congested() && now.nanos - start.nanos > 2 * previous.rtt.nanos ==> q.phase
                    == ProbePhase::Waiting(now) && q.congestion_stats_curr == curr
                    && q.congestion_stats_previous == previous && q.wait_duration
                    == p.wait_duration
                &&& !p.congested() && now.nanos - start.nanos <= 2 * previous.rtt.nanos ==> q == p
            }
            &&& p.phase matches ProbePhase::Waiting(start) ==> {
                &&& now.nanos - start.nanos > p.wait_duration * curr.rtt.nanos ==> {
                    &&& q.phase is Joining
                    &&& q.join_channel matches Some(i) && i == curr.channel_idx + 1
                    &&& q.congestion_stats_previous == curr
                    &&& q.congestion_stats_curr.channel_idx == curr.channel_idx + 1
                    &&& q.congestion_stats_curr.rtt == curr.rtt
                    &&& q.congestion_stats_curr.loss_rate == curr.loss_rate
                    &&& q.congestion_stats_curr.ecn_rate == curr.ecn_rate
                    &&& q.wait_duration == p.wait_duration
                }
                &&& now.nanos - start.nanos <= p.wait_duration * curr.rtt.nanos ==> q == p
            }
        }),
{
    if let ProbePhase::Waiting(start) = p.phase {
        assert(p.wait_duration * p.congestion_stats_curr.rtt.nanos >= 0) by (nonlinear_arith);
    }
}

/// The first decision only starts the heuristic. Each later one takes the round-trip time that
/// the source reported, or 333 milliseconds, and gives the channel to join where it is
/// announced and is not the current one.
pub proof fn probing_joins_announced_channels(m: FlexicastModel, now: Instant)
    ensures
        ({
            let p = m.congestion.probe;
            let rtt = match m.congestion.local {
                Some(info) => info.rtt.nanos as int,
                None => 333_000_000,
            };
            let q = m.probed(now);
            &&& !p.started ==> {
                &&& m.probe_decision(now) is None
                &&& q.started && q.phase == ProbePhase::Waiting(now)
                &&& q.wait_duration == p.wait_duration
                &&& q.congestion_stats_curr == p.congestion_stats_curr
                &&& q.congestion_stats_previous == p.congestion_stats_previous
                &&& q.join_channel == p.join_channel
            }
            &&& p.started ==> exists|r: ProbeState|
                q == #[trigger] r.updated(now, m.active_index()) && r.congestion_stats_curr.rtt.nanos
                    == rtt && r.phase == p.phase && r.wait_duration == p.wait_duration
                    && r.congestion_stats_previous == p.congestion_stats_previous && r.join_channel
                    == p.join_channel && r.congestion_stats_curr.channel_idx
                    == p.congestion_stats_curr.channel_idx && r.congestion_stats_curr.loss_rate
                    == p.congestion_stats_curr.loss_rate && r.congestion_stats_curr.ecn_rate
                    == p.congestion_stats_curr.ecn_rate
            &&& p.started ==> match q.join_channel {
                Some(i) if i < m.announces.len() => {
                    let id = m.announces[i as int].channel_id;
                    if m.active() is Some && m.active()->0.channel_id == id {
                        m.probe_decision(now) is None
                    } else {
                        m.probe_decision(now) == Some(id)
                    }
                },
                _ => m.probe_decision(now) is None,
            }
        }),
{
    let p = m.congestion.probe;
    let r = p.with_rtt(m.reported_rtt());
    assert(p.started ==> m.probed(now) == r.updated(now, m.active_index()));
}

/// The group that the receiver listens to is the first one that is announced with the
/// identifier of its channel.
pub proof fn listened_group_is_the_first_announced(m: FlexicastModel, i: int)
    requires
        m.announces.len() <= usize::MAX,
    ensures
        m.active() is None ==> m.active_index() is None,
        m.active() is Some ==> (m.active_index() == Some(i as usize) && 0 <= i <= usize::MAX <==> 0
            <= i < m.announces.len() && m.announces[i].channel_id == m.active()->0.channel_id
            && forall|j: int|
            0 <= j < i ==> (#[trigger] m.announces[j]).channel_id != m.active()->0.channel_id),
{
    if let Some(a) = m.active() {
        announce_index_is_the_first(m.announces, a.channel_id, i);
        if let Some(k) = m.index_of(a.channel_id) {
            announce_index_is_the_first(m.announces, a.channel_id, k);
        }
    }
}

/// Each signal is noted on the current channel, and leaves the other signals and the signals of the
/// channel before.
pub proof fn signals_are_those_of_the_current_channel(
    a: &mut ProbeState,
    b: &mut ProbeState,
    c: &mut ProbeState,
    d: &mut ProbeState,
    e: &mut ProbeState,
    rate: Float32,
    rtt: Duration,
)
    requires
        call_ensures(ProbeState::packets_recv, (a, rate), ()),
        call_ensures(ProbeState::packets_lost, (b, rate), ()),
        call_ensures(ProbeState::packet_not_marked, (c, rate), ()),
        call_ensures(ProbeState::packet_marked, (d, rate), ()),
        call_ensures(ProbeState::update_rtt, (e, rtt), ()),
    ensures
        final(a).congestion_stats_curr.loss_rate == rate,
        final(a).congestion_stats_curr.ecn_rate == old(a).congestion_stats_curr.ecn_rate,
        final(a).congestion_stats_curr.rtt == old(a).congestion_stats_curr.rtt,
        final(b).congestion_stats_curr.loss_rate == rate,
        final(b).congestion_stats_curr.ecn_rate == old(b).congestion_stats_curr.ecn_rate,
        final(b).congestion_stats_curr.rtt == old(b).congestion_stats_curr.rtt,
        final(c).congestion_stats_curr.ecn_rate == rate,
        final(c).congestion_stats_curr.loss_rate == old(c).congestion_stats_curr.loss_rate,
        final(c).congestion_stats_curr.rtt == old(c).congestion_stats_curr.rtt,
        final(d).congestion_stats_curr.ecn_rate == rate,
        final(d).congestion_stats_curr.loss_rate == old(d).congestion_stats_curr.loss_rate,
        final(d).congestion_stats_curr.rtt == old(d).congestion_stats_curr.rtt,
        final(e).congestion_stats_curr.rtt == rtt,
        final(e).congestion_stats_curr.loss_rate == old(e).congestion_stats_curr.loss_rate,
        final(e).congestion_stats_curr.ecn_rate == old(e).congestion_stats_curr.ecn_rate,
{
}

/// Without a signal nothing is lost or marked, and a round trip takes a third of a second.
pub proof fn signals_start_without_losses(s: ProbeStats)
    requires
        call_ensures(<ProbeStats as Default>::default, (), s),
    ensures
        s.channel_idx == 0,
        s.loss_rate.bits == 0,
        s.ecn_rate.bits == 0,
        s.rtt.nanos == 333_000_000,
{
}

} // verus!
