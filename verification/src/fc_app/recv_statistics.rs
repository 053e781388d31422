//! Statistics of a receiver on the channels that it joins in turn.

use std::collections::HashMap;
use vstd::prelude::*;

use crate::rate::Float64;

verus! {

broadcast use vstd::std_specs::hash::group_hash_axioms;

/// A change of channel.
#[derive(Clone, Copy, Debug, PartialEq, Eq, Structural)]
pub struct Migration {
    /// Position of the new channel.
    pub new_channel_idx: usize,
    /// Bitrate of the new channel.
    pub new_channel_bitrate: u64,
    /// Timestamp of the last frame that was received before, or -1.
    pub last_recv_timestamp: i64,
}

/// Statistics of the packets with one timestamp.
#[derive(Debug)]
pub struct TimestampStats {
    /// Number of packets that were received.
    pub recv: usize,
    /// Rates of lost packets.
    pub losses: Vec<Float64>,
    /// Instantaneous rates of lost packets.
    pub instant_losses: Vec<Float64>,
}

/// What a [`TimestampStats`] stands for.
#[verifier::ext_equal]
pub struct TimestampModel {
    /// Number of packets that were received.
    pub recv: usize,
    /// Rates of lost packets.
    pub losses: Seq<Float64>,
    /// Instantaneous rates of lost packets.
    pub instant_losses: Seq<Float64>,
}

impl View for TimestampStats {
    type V = TimestampModel;

    open spec fn view(&self) -> TimestampModel {
        TimestampModel {
            recv: self.recv,
            losses: self.losses@,
            instant_losses: self.instant_losses@,
        }
    }
}

/// No packet.
pub open spec fn no_stats() -> TimestampModel {
    TimestampModel { recv: 0, losses: Seq::empty(), instant_losses: Seq::empty() }
}

impl Default for TimestampStats {
    /// No packet.
    fn default() -> (s: TimestampStats)
        ensures
            s@ == no_stats(),
    {
        TimestampStats { recv: 0, losses: Vec::new(), instant_losses: Vec::new() }
    }
}

/// Statistics of the time on one channel.
#[derive(Debug)]
pub struct ChannelStats {
    /// Statistics for each timestamp.
    pub timestamps: HashMap<i64, TimestampStats>,
    /// The change that led to the channel.
    pub migration: Migration,
}

/// What a [`ChannelStats`] stands for.
#[verifier::ext_equal]
pub struct ChannelStatsModel {
    /// Statistics for each timestamp.
    pub timestamps: Map<i64, TimestampModel>,
    /// The change that led to the channel.
    pub migration: Migration,
}

impl View for ChannelStats {
    type V = ChannelStatsModel;

    open spec fn view(&self) -> ChannelStatsModel {
        ChannelStatsModel {
            timestamps: self.timestamps@.map_values(|s: TimestampStats| s@),
            migration: self.migration,
        }
    }
}

impl ChannelStatsModel {
    /// The statistics of a timestamp.
    pub open spec fn at(self, timestamp: u32) -> TimestampModel {
        if self.timestamps.contains_key(timestamp as i64) {
            self.timestamps[timestamp as i64]
        } else {
            no_stats()
        }
    }

    /// The statistics with those of a timestamp replaced.
    pub open spec fn with(self, timestamp: u32, s: TimestampModel) -> ChannelStatsModel {
        ChannelStatsModel { timestamps: self.timestamps.insert(timestamp as i64, s), ..self }
    }
}

/// Statistics of a receiver.
#[derive(Debug)]
pub struct MultiChannelRecvStats {
    /// Statistics of the time on each channel, in turn.
    pub stats: Vec<ChannelStats>,
}

impl View for MultiChannelRecvStats {
    type V = Seq<ChannelStatsModel>;

    open spec fn view(&self) -> Seq<ChannelStatsModel> {
        Seq::new(self.stats@.len(), |i: int| self.stats@[i]@)
    }
}

/// The statistics with those of a timestamp on the current channel replaced.
pub open spec fn with_current(
    s: Seq<ChannelStatsModel>,
    timestamp: u32,
    t: TimestampModel,
) -> Seq<ChannelStatsModel> {
    s.update(s.len() - 1, s.last().with(timestamp, t))
}

impl MultiChannelRecvStats {
    /// No channel.
    pub fn new() -> (s: MultiChannelRecvStats)
        ensures
            s@ == Seq::<ChannelStatsModel>::empty(),
    {
        let s = MultiChannelRecvStats { stats: Vec::new() };
        assert(s@ =~= Seq::<ChannelStatsModel>::empty());
        s
    }

    /// Takes the statistics of a timestamp out of those of the current channel.
    fn take(&mut self, timestamp: u32) -> (t: TimestampStats)
        requires
            old(self)@.len() > 0,
        ensures
            t@ == old(self)@.last().at(timestamp),
            final(self)@ == old(self)@.update(
                old(self)@.len() - 1,
                ChannelStatsModel {
                    timestamps: old(self)@.last().timestamps.remove(timestamp as i64),
                    ..old(self)@.last()
                },
            ),
    {
        let last: usize = self.stats.len() - 1;
        let key: i64 = timestamp as i64;
        let ghost before = self.stats@[last as int]@;
        let taken: Option<TimestampStats> = self.stats[last].timestamps.remove(&key);
        proof {
            assert(self.stats@[last as int]@.timestamps =~= before.timestamps.remove(key));
            assert(self@ =~= old(self)@.update(
                last as int,
                ChannelStatsModel { timestamps: before.timestamps.remove(key), ..before },
            ));
        }
        match taken {
            Some(t) => t,
            None => TimestampStats::default(),
        }
    }

    /// Puts the statistics of a timestamp back.
    fn put(&mut self, timestamp: u32, t: TimestampStats)
        requires
            old(self)@.len() > 0,
        ensures
            final(self)@ == with_current(old(self)@, timestamp, t@),
    {
        let last: usize = self.stats.len() - 1;
        let key: i64 = timestamp as i64;
        let ghost before = self.stats@[last as int]@;
        self.stats[last].timestamps.insert(key, t);
        proof {
            assert(self.stats@[last as int]@.timestamps =~= before.timestamps.insert(key, t@));
            assert(self@ =~= with_current(old(self)@, timestamp, t@));
        }
    }

    /// Notes a rate of lost packets.
    pub fn record_loss(&mut self, timestamp: u32, loss_rate: Float64)
        requires
            old(self)@.len() > 0,
        ensures
            final(self)@ == with_current(
                old(self)@,
                timestamp,
                TimestampModel {
                    losses: old(self)@.last().at(timestamp).losses.push(loss_rate),
                    ..old(self)@.last().at(timestamp)
                },
            ),
    {
        let mut t: TimestampStats = self.take(timestamp);
        t.losses.push(loss_rate);
        self.put(timestamp, t);
        proof {
            lemma_put_back(old(self)@, timestamp, t@);
        }
    }

    /// Notes an instantaneous rate of lost packets.
    pub fn record_instant_loss(&mut self, timestamp: u32, smoothed_loss_rate: Float64)
        requires
            old(self)@.len() > 0,
        ensures
            final(self)@ == with_current(
                old(self)@,
                timestamp,
                TimestampModel {
                    instant_losses: old(self)@.last().at(timestamp).instant_losses.push(
                        smoothed_loss_rate,
                    ),
                    ..old(self)@.last().at(timestamp)
                },
            ),
    {
        let mut t: TimestampStats = self.take(timestamp);
        t.instant_losses.push(smoothed_loss_rate);
        self.put(timestamp, t);
        proof {
            lemma_put_back(old(self)@, timestamp, t@);
        }
    }

    /// Notes a received packet.
    pub fn record_recv(&mut self, timestamp: u32)
        requires
            old(self)@.len() > 0,
            old(self)@.last().at(timestamp).recv < usize::MAX,
        ensures
            final(self)@ == with_current(
                old(self)@,
                timestamp,
                TimestampModel {
                    recv: (old(self)@.last().at(timestamp).recv + 1) as usize,
                    ..old(self)@.last().at(timestamp)
                },
            ),
    {
        let mut t: TimestampStats = self.take(timestamp);
        t.recv += 1;
        self.put(timestamp, t);
        proof {
            lemma_put_back(old(self)@, timestamp, t@);
        }
    }

    /// Notes a change of channel.
    pub fn migrated(&mut self, migration: Migration)
        ensures
            final(self)@ == old(self)@.push(
                ChannelStatsModel { timestamps: Map::empty(), migration },
            ),
    {
        let c = ChannelStats { timestamps: HashMap::new(), migration };
        assert(c@.timestamps =~= Map::<i64, TimestampModel>::empty());
        self.stats.push(c);
        assert(self@ =~= old(self)@.push(
            ChannelStatsModel { timestamps: Map::empty(), migration },
        ));
    }
}

proof fn lemma_put_back(s: Seq<ChannelStatsModel>, timestamp: u32, t: TimestampModel)
    requires
        s.len() > 0,
    ensures
        with_current(
            s.update(
                s.len() - 1,
                ChannelStatsModel {
                    timestamps: s.last().timestamps.remove(timestamp as i64),
                    ..s.last()
                },
            ),
            timestamp,
            t,
        ) == with_current(s, timestamp, t),
{
    let key = timestamp as i64;
    assert(s.last().timestamps.remove(key).insert(key, t) =~= s.last().timestamps.insert(key, t));
    let a = s.update(
        s.len() - 1,
        ChannelStatsModel { timestamps: s.last().timestamps.remove(key), ..s.last() },
    );
    assert(with_current(a, timestamp, t) =~= with_current(s, timestamp, t));
}

/// Statistics are noted for one timestamp of the current channel: they are read back there, and
/// those of the other timestamps and of the former channels stay.
pub proof fn statistics_are_those_of_one_timestamp(
    s: Seq<ChannelStatsModel>,
    timestamp: u32,
    t: TimestampModel,
    other: u32,
    i: int,
)
    requires
        s.len() > 0,
        other != timestamp,
        0 <= i < s.len() - 1,
    ensures
        with_current(s, timestamp, t).len() == s.len(),
        with_current(s, timestamp, t).last().at(timestamp) == t,
        with_current(s, timestamp, t).last().at(other) == s.last().at(other),
        with_current(s, timestamp, t).last().migration == s.last().migration,
        with_current(s, timestamp, t)[i] == s[i],
{
}

/// Nothing is known of a timestamp before its first packet.
pub proof fn unknown_timestamps_have_no_packets(c: ChannelStatsModel, timestamp: u32)
    requires
        !c.timestamps.contains_key(timestamp as i64),
    ensures
        c.at(timestamp).recv == 0,
        c.at(timestamp).losses.len() == 0,
        c.at(timestamp).instant_losses.len() == 0,
{
}

/// A received packet adds one to those of its timestamp, and a rate of lost packets is put behind
/// the earlier ones.
pub proof fn packets_and_rates_are_recorded(
    a: &mut MultiChannelRecvStats,
    b: &mut MultiChannelRecvStats,
    c: &mut MultiChannelRecvStats,
    timestamp: u32,
    rate: Float64,
)
    requires
        old(a)@.len() > 0,
        old(b)@.len() > 0,
        old(c)@.len() > 0,
        old(a)@.last().at(timestamp).recv < usize::MAX,
        call_ensures(MultiChannelRecvStats::record_recv, (a, timestamp), ()),
        call_ensures(MultiChannelRecvStats::record_loss, (b, timestamp, rate), ()),
        call_ensures(MultiChannelRecvStats::record_instant_loss, (c, timestamp, rate), ()),
    ensures
        final(a)@.last().at(timestamp).recv == old(a)@.last().at(timestamp).recv + 1,
        final(a)@.last().at(timestamp).losses == old(a)@.last().at(timestamp).losses,
        final(b)@.last().at(timestamp).recv == old(b)@.last().at(timestamp).recv,
        final(b)@.last().at(timestamp).losses.len() == old(b)@.last().at(timestamp).losses.len() + 1,
        final(b)@.last().at(timestamp).losses.last() == rate,
        final(b)@.last().at(timestamp).instant_losses == old(b)@.last().at(
            timestamp,
        ).instant_losses,
        final(c)@.last().at(timestamp).instant_losses.len() == old(c)@.last().at(
            timestamp,
        ).instant_losses.len() + 1,
        final(c)@.last().at(timestamp).instant_losses.last() == rate,
        final(c)@.last().at(timestamp).losses == old(c)@.last().at(timestamp).losses,
{
}

} // verus!
