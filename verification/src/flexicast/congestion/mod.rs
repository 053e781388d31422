//! Congestion control for flexicast.

pub mod config;
pub mod control;
pub mod exp3;
pub mod kmeans;
pub mod probe;
pub mod stats;
pub mod window;

use vstd::prelude::*;

use crate::ancillaries::Ancillary;
use crate::ancillaries::ECNValue;
use crate::flexicast::congestion::config::default_exp3_conf;
use crate::flexicast::congestion::config::EXP3Conf;
use crate::flexicast::congestion::config::FcCongestionConf;
use crate::flexicast::congestion::exp3::new_exp3_state;
use crate::flexicast::congestion::exp3::EXP3State;
use crate::flexicast::congestion::exp3::Exp3Model;
use crate::flexicast::congestion::probe::new_probe_state;
use crate::flexicast::congestion::probe::ProbePhase;
use crate::flexicast::congestion::probe::ProbeState;
use crate::flexicast::congestion::stats::new_stats;
use crate::flexicast::congestion::stats::CongestionStats;
use crate::flexicast::congestion::stats::StatsModel;
use crate::flexicast::congestion::stats::WINDOW_SPAN_SECS;
use crate::rate::Float64;
use crate::time::since;
use crate::time::Duration;
use crate::time::Instant;
use crate::time::DURATION_MAX_NANOS;

verus! {

/// By how much the delay between two pieces of congestion information can grow.
pub const MAX_DELAY_MULTIPLIER: u32 = 16;

/// How the channel of a receiver is chosen.
#[derive(Clone, Copy, Debug, PartialEq, Eq, Structural)]
pub enum Decision {
    /// By an EXP3 instance for each channel.
    Exp3,
    /// The channel with the closest rate.
    Kmeans,
    /// By probing the next channel from time to time.
    Probe,
}

/// A heuristic that tells whether a receiver should change the channel that it
/// listens to, in reaction to congestion.
#[derive(Clone, Copy, Debug, PartialEq, Eq, Structural)]
pub struct FcCongestionHeuristicOps {
    /// How the channel is chosen.
    pub should_change_channel: Decision,
}

/// Congestion information that a source sends to a receiver.
#[derive(Debug)]
pub struct FcCongestionInfo {
    /// Congestion window of the flow for the receiver.
    pub cwnd: usize,
    /// Congestion window of each channel.
    pub mc_cwnds: Vec<(Vec<u8>, usize)>,
    /// Round-trip time of the receiver.
    pub rtt: Duration,
}

/// What a [`FcCongestionInfo`] stands for.
#[verifier::ext_equal]
pub struct InfoModel {
    /// Congestion window of the flow for the receiver.
    pub cwnd: usize,
    /// Congestion window of each channel.
    pub mc_cwnds: Seq<(Seq<u8>, usize)>,
    /// Round-trip time of the receiver.
    pub rtt: Duration,
}

impl View for FcCongestionInfo {
    type V = InfoModel;

    open spec fn view(&self) -> InfoModel {
        InfoModel {
            cwnd: self.cwnd,
            mc_cwnds: Seq::new(
                self.mc_cwnds@.len(),
                |i: int| (self.mc_cwnds@[i].0@, self.mc_cwnds@[i].1),
            ),
            rtt: self.rtt,
        }
    }
}

/// What optional congestion information stands for.
pub open spec fn optional_info(info: Option<FcCongestionInfo>) -> Option<InfoModel> {
    match info {
        Some(i) => Some(i@),
        None => None,
    }
}

/// State of the congestion control of a channel.
#[derive(Debug)]
pub struct FcCongestionState {
    /// Current delay between two pieces of congestion information.
    pub delay_congestion_info: Duration,
    /// Shortest delay between two pieces of congestion information.
    pub base_delay_congestion_info: Duration,
    /// When the next piece of congestion information may be sent.
    pub next_congestion_info: Instant,
    /// The information to send.
    pub local_congestion_info: Option<FcCongestionInfo>,
    /// The information that was received.
    pub received_congestion_info: Option<FcCongestionInfo>,
    /// The heuristic for the change of channel.
    pub mc_congestion_scheduler: FcCongestionHeuristicOps,
    /// When the receiver last changed its channel.
    pub last_migration: Instant,
    /// State of the EXP3 heuristic.
    pub exp3_state: EXP3State,
    /// State of the probing heuristic.
    pub probe_state: ProbeState,
    /// Congestion signals.
    pub statistics: CongestionStats,
}

/// What a [`FcCongestionState`] stands for.
#[verifier::ext_equal]
pub struct CongestionModel {
    /// Current delay between two pieces of congestion information.
    pub delay: Duration,
    /// Shortest delay between two pieces of congestion information.
    pub base_delay: Duration,
    /// When the next piece of congestion information may be sent.
    pub next: Instant,
    /// The information to send.
    pub local: Option<InfoModel>,
    /// The information that was received.
    pub received: Option<InfoModel>,
    /// The heuristic for the change of channel.
    pub scheduler: FcCongestionHeuristicOps,
    /// When the receiver last changed its channel.
    pub last_migration: Instant,
    /// State of the EXP3 heuristic.
    pub exp3: Exp3Model,
    /// State of the probing heuristic.
    pub probe: ProbeState,
    /// Congestion signals.
    pub stats: StatsModel,
}

impl View for FcCongestionState {
    type V = CongestionModel;

    open spec fn view(&self) -> CongestionModel {
        CongestionModel {
            delay: self.delay_congestion_info,
            base_delay: self.base_delay_congestion_info,
            next: self.next_congestion_info,
            local: optional_info(self.local_congestion_info),
            received: optional_info(self.received_congestion_info),
            scheduler: self.mc_congestion_scheduler,
            last_migration: self.last_migration,
            exp3: self.exp3_state@,
            probe: self.probe_state,
            stats: self.statistics@,
        }
    }
}

/// The state of a channel on which nothing happened.
pub open spec fn new_congestion_state(config: FcCongestionConf, now: Instant) -> CongestionModel {
    let delay = config.congestion_info_delay;
    CongestionModel {
        delay,
        base_delay: delay,
        next: Instant { nanos: (now.nanos + delay.nanos) as u128 },
        local: None,
        received: None,
        scheduler: config.cc_heuristic,
        last_migration: now,
        exp3: new_exp3_state(config.exp3_conf, now),
        probe: new_probe_state(now),
        stats: new_stats(config.throughput_window),
    }
}

impl CongestionModel {
    /// The parts of the state are well formed, the EXP3 heuristic knows the channel of
    /// its last action, and the probing heuristic waits until it starts.
    pub open spec fn wf(self) -> bool {
        &&& self.exp3.wf()
        &&& self.exp3.previous_channel matches Some(c) ==> self.exp3.channels.contains(c)
        &&& self.probe.wf()
        &&& !self.probe.started ==> self.probe.phase is Waiting
        &&& self.stats.window.wf()
    }

    /// Whether congestion information should be sent at `now`.
    pub open spec fn should_send(self, now: Instant) -> bool {
        self.local is Some && now.nanos > self.next.nanos
    }

    /// Whether the receiver stayed on its channel for the last two delays.
    pub open spec fn is_stable(self, now: Instant) -> bool {
        since(now.nanos as int, self.last_migration.nanos as int) > 2 * self.delay.nanos
    }

    /// The delay once congestion information is sent at `now`: twice as long on a
    /// stable channel, up to a limit, and the shortest one else.
    pub open spec fn next_delay(self, now: Instant) -> int {
        if self.is_stable(now) {
            if 2 * self.delay.nanos <= MAX_DELAY_MULTIPLIER * self.base_delay.nanos {
                2 * self.delay.nanos
            } else {
                MAX_DELAY_MULTIPLIER * self.base_delay.nanos
            }
        } else {
            self.base_delay.nanos as int
        }
    }
}

/// How many of some ancillary data report congestion.
pub open spec fn nb_marks(a: Seq<Ancillary>) -> nat
    decreases a.len(),
{
    if a.len() == 0 {
        0
    } else {
        nb_marks(a.drop_last()) + if a.last() == Ancillary::ECN(ECNValue::CE) {
            1nat
        } else {
            0
        }
    }
}

impl FcCongestionState {
    /// The state of a channel on which nothing happened, with the default
    /// configuration: a delay of 100 milliseconds, the EXP3 heuristic and a throughput
    /// window of five seconds.
    pub fn with_defaults(now: Instant) -> (s: FcCongestionState)
        requires
            now.nanos + 100_000_000 <= u128::MAX,
        ensures
            s@.wf(),
            s@ == new_congestion_state(
                FcCongestionConf {
                    congestion_info_delay: Duration { nanos: 100_000_000 },
                    cc_heuristic: FcCongestionHeuristicOps {
                        should_change_channel: Decision::Exp3,
                    },
                    throughput_window: Duration { nanos: 5_000_000_000 },
                    exp3_conf: default_exp3_conf(),
                },
                now,
            ),
    {
        let config = FcCongestionConf {
            congestion_info_delay: Duration::from_millis(100),
            cc_heuristic: FcCongestionHeuristicOps { should_change_channel: Decision::Exp3 },
            throughput_window: Duration::from_secs(WINDOW_SPAN_SECS),
            exp3_conf: EXP3Conf::default(),
        };
        FcCongestionState::new(&config, now)
    }

    /// The state of a channel on which nothing happened. The throughput window has the
    /// configured length.
    pub fn new(config: &FcCongestionConf, now: Instant) -> (s: FcCongestionState)
        requires
            now.nanos + config.congestion_info_delay.nanos <= u128::MAX,
        ensures
            s@.wf(),
            s@ == new_congestion_state(*config, now),
    {
        FcCongestionState {
            delay_congestion_info: config.congestion_info_delay,
            base_delay_congestion_info: config.congestion_info_delay,
            next_congestion_info: now.after(config.congestion_info_delay),
            local_congestion_info: None,
            received_congestion_info: None,
            mc_congestion_scheduler: config.cc_heuristic,
            last_migration: now,
            exp3_state: EXP3State::new(&config.exp3_conf, now),
            probe_state: ProbeState::new(now),
            statistics: CongestionStats::new(config.throughput_window),
        }
    }

    /// Whether congestion information should be sent at `now`.
    pub fn should_send_congestion_info(&self, now: Instant) -> (r: bool)
        ensures
            r == self@.should_send(now),
    {
        self.local_congestion_info.is_some() && now.nanos > self.next_congestion_info.nanos
    }

    /// The congestion information to send.
    pub fn get_congestion_info(&self) -> (r: &FcCongestionInfo)
        requires
            self@.local is Some,
        ensures
            Some(r@) == self@.local,
    {
        self.local_congestion_info.as_ref().unwrap()
    }

    /// Notes that congestion information is sent at `now`, and sets when the next
    /// piece is due. The delay grows while the receiver stays on its channel.
    pub fn sending_congestion_info(&mut self, now: Instant)
        requires
            2 * old(self)@.delay.nanos <= DURATION_MAX_NANOS,
            old(self)@.is_stable(now) ==> MAX_DELAY_MULTIPLIER * old(self)@.base_delay.nanos
                <= DURATION_MAX_NANOS,
            now.nanos + old(self)@.next_delay(now) <= u128::MAX,
        ensures
            final(self)@ == (CongestionModel {
                delay: Duration { nanos: old(self)@.next_delay(now) as u128 },
                next: Instant { nanos: (now.nanos + old(self)@.next_delay(now)) as u128 },
                ..old(self)@
            }),
    {
        let double: Duration = self.delay_congestion_info.times(2);
        if now.duration_since(self.last_migration).nanos > double.nanos {
            self.delay_congestion_info = double.min(
                self.base_delay_congestion_info.times(MAX_DELAY_MULTIPLIER),
            );
        } else {
            self.delay_congestion_info = self.base_delay_congestion_info;
        }
        self.next_congestion_info = now.after(self.delay_congestion_info);
    }

    /// How many of some ancillary data report congestion.
    pub fn count_marks(ancillaries: &Vec<Ancillary>) -> (n: usize)
        ensures
            n == nb_marks(ancillaries@),
    {
        let mut n: usize = 0;
        let mut i: usize = 0;
        assert(ancillaries@.take(0) =~= Seq::<Ancillary>::empty());
        while i < ancillaries.len()
            invariant
                i <= ancillaries@.len(),
                n <= i,
                n == nb_marks(ancillaries@.take(i as int)),
            decreases ancillaries@.len() - i,
        {
            assert(ancillaries@.take(i + 1).drop_last() =~= ancillaries@.take(i as int));
            if ancillaries[i] == Ancillary::ECN(ECNValue::CE) {
                n += 1;
            }
            i += 1;
        }
        assert(ancillaries@.take(i as int) =~= ancillaries@);
        n
    }

    /// Notes the ancillary data of a packet. The caller gives the rates of marked
    /// packets that follow: `marked[i]` after `i + 1` marks, and `not_marked` after
    /// a packet without a mark.
    pub fn update_ancillaries(
        &mut self,
        ancillaries: &Vec<Ancillary>,
        marked: &Vec<Float64>,
        not_marked: Float64,
    )
        requires
            nb_marks(ancillaries@) <= marked@.len(),
        ensures
            final(self)@ == (CongestionModel {
                stats: StatsModel {
                    ecn_rate: if nb_marks(ancillaries@) == 0 {
                        not_marked
                    } else {
                        marked@[nb_marks(ancillaries@) - 1]
                    },
                    ..old(self)@.stats
                },
                ..old(self)@
            }),
    {
        let n: usize = Self::count_marks(ancillaries);
        if n == 0 {
            self.statistics.on_not_marked(not_marked);
        } else {
            self.statistics.on_marked(marked[n - 1]);
        }
    }

    /// Forgets the congestion signals. The throughput window keeps its length.
    pub fn reset(&mut self)
        ensures
            final(self)@ == (CongestionModel {
                stats: new_stats(old(self)@.stats.window.span),
                ..old(self)@
            }),
    {
        let span: Duration = self.statistics.throughput_window.length();
        self.statistics = CongestionStats::new(span);
    }
}

/// The delay between two pieces of congestion information stays between the
/// shortest one and sixteen times that.
pub proof fn delay_stays_bounded(m: CongestionModel, now: Instant)
    requires
        m.base_delay.nanos <= m.delay.nanos <= MAX_DELAY_MULTIPLIER * m.base_delay.nanos,
    ensures
        m.base_delay.nanos <= m.next_delay(now) <= MAX_DELAY_MULTIPLIER * m.base_delay.nanos,
{
}

/// A piece of congestion information is sent once there is one and its time has come.
pub proof fn information_is_sent_in_its_time(m: CongestionModel, now: Instant)
    ensures
        m.should_send(now) <==> m.local is Some && now.nanos > m.next.nanos,
{
}

/// The delay doubles while the receiver stays on its channel for more than two delays, up to
/// sixteen times the shortest one. Where the channel is younger than that, the delay is the
/// shortest one again.
pub proof fn delay_doubles_on_a_stable_channel(m: CongestionModel, now: Instant)
    ensures
        now.nanos > m.last_migration.nanos + 2 * m.delay.nanos && m.delay.nanos <= 8
            * m.base_delay.nanos ==> m.next_delay(now) == 2 * m.delay.nanos,
        now.nanos > m.last_migration.nanos + 2 * m.delay.nanos && m.delay.nanos >= 8
            * m.base_delay.nanos ==> m.next_delay(now) == 16 * m.base_delay.nanos,
        now.nanos <= m.last_migration.nanos + 2 * m.delay.nanos ==> m.next_delay(now)
            == m.base_delay.nanos,
{
}

/// A new state has nothing to send, waits for the configured delay, and takes its heuristics
/// and the length of its window from the configuration.
pub proof fn new_states_have_nothing_to_send(config: FcCongestionConf, now: Instant, later: Instant)
    requires
        now.nanos + config.congestion_info_delay.nanos <= u128::MAX,
    ensures
        ({
            let s = new_congestion_state(config, now);
            &&& !s.should_send(later)
            &&& s.next.nanos == now.nanos + config.congestion_info_delay.nanos
            &&& s.delay == config.congestion_info_delay
            &&& s.base_delay == config.congestion_info_delay
            &&& s.received is None
            &&& s.scheduler == config.cc_heuristic
            &&& s.last_migration == now
            &&& s.exp3.conf == config.exp3_conf
            &&& s.exp3.last_taken_action_instant == now
            &&& s.probe.phase == ProbePhase::Waiting(now)
            &&& !s.probe.started
            &&& s.probe.wait_duration == 8
            &&& s.stats.window.span == config.throughput_window
            &&& s.stats.window.window.len() == 0
            &&& s.stats.loss_rate.bits == 0 && s.stats.ecn_rate.bits == 0
            &&& s.stats.rtt.nanos == 333_000_000
        }),
{
}

/// Only marks of congestion are counted, one for each of them.
pub proof fn marks_of_congestion_are_counted(a: Seq<Ancillary>)
    ensures
        nb_marks(a) == a.filter(|x: Ancillary| x matches Ancillary::ECN(e) && e is CE).len(),
    decreases a.len(),
{
    reveal(Seq::filter);
    if a.len() > 0 {
        marks_of_congestion_are_counted(a.drop_last());
    }
}

/// Sending congestion information sets the next point in time at which it is due: after the
/// shortest delay where the receiver just changed its channel, and after twice the delay, or
/// sixteen times the shortest one, where it stays.
pub proof fn sent_information_is_due_again_later(s: &mut FcCongestionState, now: Instant)
    requires
        call_ensures(FcCongestionState::sending_congestion_info, (s, now), ()),
        now.nanos + old(s)@.next_delay(now) <= u128::MAX,
        now.nanos + 2 * old(s)@.delay.nanos <= u128::MAX,
    ensures
        final(s)@.next.nanos == now.nanos + final(s)@.delay.nanos,
        now.nanos <= old(s)@.last_migration.nanos + 2 * old(s)@.delay.nanos ==> final(s)@.delay
            == old(s)@.base_delay,
        now.nanos > old(s)@.last_migration.nanos + 2 * old(s)@.delay.nanos ==> {
            &&& final(s)@.delay.nanos <= 2 * old(s)@.delay.nanos
            &&& final(s)@.delay.nanos <= 16 * old(s)@.base_delay.nanos
            &&& final(s)@.delay.nanos == 2 * old(s)@.delay.nanos || final(s)@.delay.nanos == 16
                * old(s)@.base_delay.nanos
        },
        final(s)@.base_delay == old(s)@.base_delay,
        final(s)@.local == old(s)@.local,
        final(s)@.stats == old(s)@.stats,
{
}

/// The rate of marked packets after a packet is the one for its number of marks; nothing else
/// changes. Forgetting the signals keeps the length of the window.
pub proof fn marks_set_the_rate(
    s: &mut FcCongestionState,
    t: &mut FcCongestionState,
    a: Vec<Ancillary>,
    marked: Vec<Float64>,
    not_marked: Float64,
)
    requires
        call_ensures(FcCongestionState::update_ancillaries, (s, &a, &marked, not_marked), ()),
        call_ensures(FcCongestionState::reset, (t,), ()),
        nb_marks(a@) <= marked@.len(),
    ensures
        nb_marks(a@) == 0 ==> final(s)@.stats.ecn_rate == not_marked,
        nb_marks(a@) == 1 ==> final(s)@.stats.ecn_rate == marked@[0],
        nb_marks(a@) >= 1 ==> final(s)@.stats.ecn_rate == marked@[nb_marks(a@) - 1],
        final(s)@.stats.loss_rate == old(s)@.stats.loss_rate,
        final(s)@.stats.window == old(s)@.stats.window,
        final(s)@.exp3 == old(s)@.exp3,
        final(t)@.stats.window.span == old(t)@.stats.window.span,
        final(t)@.stats.window.window.len() == 0,
        final(t)@.stats.loss_rate.bits == 0,
        final(t)@.stats.ecn_rate.bits == 0,
        final(t)@.stats.throughput == 0,
        final(t)@.exp3 == old(t)@.exp3,
        final(t)@.delay == old(t)@.delay,
{
}

/// Without a configuration the delay is 100 milliseconds, EXP3 decides, and throughput is measured
/// over five seconds.
pub proof fn defaults_use_exp3(now: Instant, s: FcCongestionState)
    requires
        call_ensures(FcCongestionState::with_defaults, (now,), s),
        now.nanos + 100_000_000 <= u128::MAX,
    ensures
        s@.delay.nanos == 100_000_000,
        s@.base_delay.nanos == 100_000_000,
        s@.next.nanos == now.nanos + 100_000_000,
        s@.scheduler.should_change_channel is Exp3,
        s@.stats.window.span.nanos == 5_000_000_000,
        s@.exp3.conf == default_exp3_conf(),
{
}

} // verus!
