//! Congestion signals of a flexicast channel.

use vstd::prelude::*;

use crate::flexicast::congestion::window::MaxTimeWindow;
use crate::flexicast::congestion::window::WindowModel;
use crate::rate::Float64;
use crate::time::Duration;
use crate::time::Instant;

verus! {

/// Length of the throughput window in seconds, unless it is configured.
pub const WINDOW_SPAN_SECS: u64 = 5;

/// Round-trip time in milliseconds before it is measured.
pub const DEFAULT_RTT_MILLIS: u64 = 333;

/// Congestion signals of a flexicast channel. The rates are exponential moving
/// averages that the caller computes.
#[derive(Debug)]
pub struct CongestionStats {
    /// Number of packets that were received.
    pub recv_count: usize,
    /// Number of packets that were lost.
    pub lost_count: usize,
    /// Rate of lost packets.
    pub loss_rate: Float64,
    /// Round-trip time.
    pub rtt: Duration,
    /// Rate of marked packets.
    pub ecn_rate: Float64,
    /// Current throughput in bits per second.
    pub throughput: u64,
    /// Throughput of the recent past.
    pub throughput_window: MaxTimeWindow,
}

/// What a [`CongestionStats`] stands for.
#[verifier::ext_equal]
pub struct StatsModel {
    /// Number of packets that were received.
    pub recv_count: usize,
    /// Number of packets that were lost.
    pub lost_count: usize,
    /// Rate of lost packets.
    pub loss_rate: Float64,
    /// Round-trip time.
    pub rtt: Duration,
    /// Rate of marked packets.
    pub ecn_rate: Float64,
    /// Current throughput in bits per second.
    pub throughput: u64,
    /// Throughput of the recent past.
    pub window: WindowModel,
}

impl View for CongestionStats {
    type V = StatsModel;

    open spec fn view(&self) -> StatsModel {
        StatsModel {
            recv_count: self.recv_count,
            lost_count: self.lost_count,
            loss_rate: self.loss_rate,
            rtt: self.rtt,
            ecn_rate: self.ecn_rate,
            throughput: self.throughput,
            window: self.throughput_window@,
        }
    }
}

/// No signal, with a throughput window of the length `span`.
pub open spec fn new_stats(span: Duration) -> StatsModel {
    StatsModel {
        recv_count: 0,
        lost_count: 0,
        loss_rate: Float64 { bits: 0 },
        rtt: Duration { nanos: 333_000_000 },
        ecn_rate: Float64 { bits: 0 },
        throughput: 0,
        window: WindowModel { window: Seq::empty(), values: Map::empty(), span },
    }
}

impl Default for CongestionStats {
    /// No signal, with a throughput window of five seconds.
    fn default() -> (s: CongestionStats)
        ensures
            s@.window.wf(),
            s@ == new_stats(Duration { nanos: 5_000_000_000 }),
    {
        CongestionStats::new(Duration::from_secs(WINDOW_SPAN_SECS))
    }
}

impl StatsModel {
    /// The signals once the throughput is noted at `now`.
    pub open spec fn with_throughput(self, now: Instant, throughput: u64) -> StatsModel {
        StatsModel { throughput, window: self.window.added(now, throughput), ..self }
    }
}

impl CongestionStats {
    /// No signal, with a throughput window of the length `span`.
    pub fn new(span: Duration) -> (s: CongestionStats)
        ensures
            s@.window.wf(),
            s@ == new_stats(span),
    {
        CongestionStats {
            recv_count: 0,
            lost_count: 0,
            loss_rate: Float64 { bits: 0 },
            ecn_rate: Float64 { bits: 0 },
            rtt: Duration::from_millis(DEFAULT_RTT_MILLIS),
            throughput: 0,
            throughput_window: MaxTimeWindow::new(span),
        }
    }

    /// Notes a lost packet, which makes the rate of lost packets `loss_rate`.
    pub fn on_loss(&mut self, loss_rate: Float64)
        requires
            old(self)@.lost_count < usize::MAX,
        ensures
            final(self)@ == (StatsModel {
                loss_rate,
                lost_count: (old(self)@.lost_count + 1) as usize,
                ..old(self)@
            }),
    {
        self.loss_rate = loss_rate;
        self.lost_count += 1;
    }

    /// Notes a received packet, which makes the rate of lost packets `loss_rate`.
    pub fn on_received(&mut self, loss_rate: Float64)
        requires
            old(self)@.recv_count < usize::MAX,
        ensures
            final(self)@ == (StatsModel {
                loss_rate,
                recv_count: (old(self)@.recv_count + 1) as usize,
                ..old(self)@
            }),
    {
        self.loss_rate = loss_rate;
        self.recv_count += 1;
    }

    /// Notes a marked packet, which makes the rate of marked packets `ecn_rate`.
    pub fn on_marked(&mut self, ecn_rate: Float64)
        ensures
            final(self)@ == (StatsModel { ecn_rate, ..old(self)@ }),
    {
        self.ecn_rate = ecn_rate;
    }

    /// Notes a packet without a mark, which makes the rate of marked packets
    /// `ecn_rate`.
    pub fn on_not_marked(&mut self, ecn_rate: Float64)
        ensures
            final(self)@ == (StatsModel { ecn_rate, ..old(self)@ }),
    {
        self.ecn_rate = ecn_rate;
    }

    /// Sets the rate of lost packets.
    pub fn set_loss_rate(&mut self, loss_rate: Float64)
        ensures
            final(self)@ == (StatsModel { loss_rate, ..old(self)@ }),
    {
        self.loss_rate = loss_rate;
    }

    /// Sets the round-trip time.
    pub fn on_rtt_measured(&mut self, rtt: Duration)
        ensures
            final(self)@ == (StatsModel { rtt, ..old(self)@ }),
    {
        self.rtt = rtt;
    }

    /// Notes the throughput at `now`.
    pub fn update_window(&mut self, now: Instant, throughput: u64)
        requires
            old(self)@.window.wf(),
            now.nanos >= old(self)@.window.span.nanos,
            old(self)@.window.at(now).values.contains_key(throughput) ==> old(self)@.window.at(
                now,
            ).values[throughput] < u32::MAX,
        ensures
            final(self)@.window.wf(),
            final(self)@ == old(self)@.with_throughput(now, throughput),
    {
        self.throughput = throughput;
        self.throughput_window.add_data(now, throughput);
    }

    /// The largest throughput of the recent past.
    pub fn max_throughput(&self) -> (r: u64)
        requires
            self@.window.wf(),
            self@.window.largest() is Some,
        ensures
            Some(r) == self@.window.largest(),
    {
        match self.throughput_window.max() {
            Some(v) => v,
            None => 0,
        }
    }
}

/// A throughput that was noted counts: the largest throughput exists and is at
/// least the noted one.
pub proof fn noted_throughput_counts(s: StatsModel, now: Instant, throughput: u64)
    requires
        s.window.values.dom().finite(),
    ensures
        s.with_throughput(now, throughput).window.largest() matches Some(m) && m >= throughput,
{
    let w = s.with_throughput(now, throughput).window;
    let a = s.window.at(now);
    assert(a.values.dom().subset_of(s.window.values.dom()));
    vstd::set_lib::lemma_len_subset(a.values.dom(), s.window.values.dom());
    assert(w.values.dom() =~= a.values.dom().insert(throughput));
    assert(w.values.dom().contains(throughput));
    crate::flexicast::congestion::window::lemma_largest_exists(w.values);
    let m = w.largest()->0;
    assert(crate::flexicast::congestion::window::is_largest(w.values, m));
    assert(w.values.contains_key(throughput));
}

/// A noted throughput is the current one, and it is added to the window at that point in time;
/// the other signals stay.
pub proof fn noted_throughput_is_the_current_one(s: StatsModel, now: Instant, throughput: u64)
    ensures
        s.with_throughput(now, throughput).throughput == throughput,
        s.with_throughput(now, throughput).window == s.window.added(now, throughput),
        s.with_throughput(now, throughput).loss_rate == s.loss_rate,
        s.with_throughput(now, throughput).ecn_rate == s.ecn_rate,
        s.with_throughput(now, throughput).rtt == s.rtt,
        s.with_throughput(now, throughput).recv_count == s.recv_count,
        s.with_throughput(now, throughput).lost_count == s.lost_count,
{
}

/// Lost and received packets are counted apart, and each sets the rate of lost packets.
pub proof fn lost_and_received_packets_are_counted(
    a: &mut CongestionStats,
    b: &mut CongestionStats,
    rate: Float64,
)
    requires
        call_ensures(CongestionStats::on_loss, (a, rate), ()),
        call_ensures(CongestionStats::on_received, (b, rate), ()),
        old(a)@.lost_count < usize::MAX,
        old(b)@.recv_count < usize::MAX,
    ensures
        final(a)@.lost_count == old(a)@.lost_count + 1,
        final(a)@.recv_count == old(a)@.recv_count,
        final(b)@.recv_count == old(b)@.recv_count + 1,
        final(b)@.lost_count == old(b)@.lost_count,
        final(a)@.loss_rate == rate,
        final(b)@.loss_rate == rate,
        final(a)@.ecn_rate == old(a)@.ecn_rate,
        final(b)@.ecn_rate == old(b)@.ecn_rate,
        final(a)@.window == old(a)@.window,
        final(b)@.window == old(b)@.window,
{
}

/// Marked and unmarked packets set the rate of marked packets, a loss rate that is reported sets that
/// of lost ones, and a round trip the round-trip time; nothing else changes.
pub proof fn signals_are_noted_apart(
    a: &mut CongestionStats,
    b: &mut CongestionStats,
    c: &mut CongestionStats,
    d: &mut CongestionStats,
    rate: Float64,
    rtt: Duration,
)
    requires
        call_ensures(CongestionStats::on_marked, (a, rate), ()),
        call_ensures(CongestionStats::on_not_marked, (b, rate), ()),
        call_ensures(CongestionStats::set_loss_rate, (c, rate), ()),
        call_ensures(CongestionStats::on_rtt_measured, (d, rtt), ()),
    ensures
        final(a)@.ecn_rate == rate && final(a)@.loss_rate == old(a)@.loss_rate,
        final(b)@.ecn_rate == rate && final(b)@.loss_rate == old(b)@.loss_rate,
        final(c)@.loss_rate == rate && final(c)@.ecn_rate == old(c)@.ecn_rate,
        final(d)@.rtt == rtt && final(d)@.loss_rate == old(d)@.loss_rate && final(d)@.ecn_rate
            == old(d)@.ecn_rate,
        final(a)@.rtt == old(a)@.rtt && final(a)@.window == old(a)@.window,
        final(b)@.rtt == old(b)@.rtt && final(b)@.window == old(b)@.window,
        final(c)@.rtt == old(c)@.rtt && final(c)@.window == old(c)@.window,
        final(d)@.window == old(d)@.window && final(d)@.throughput == old(d)@.throughput,
        final(a)@.lost_count == old(a)@.lost_count && final(a)@.recv_count == old(a)@.recv_count,
        final(c)@.lost_count == old(c)@.lost_count && final(c)@.recv_count == old(c)@.recv_count,
{
}

} // verus!
