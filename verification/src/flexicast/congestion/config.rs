//! Configuration of the congestion control for flexicast.

use vstd::prelude::*;

use crate::config::Config;
use crate::flexicast::congestion::exp3::rewarder::EXP3Rewarder;
use crate::flexicast::congestion::Decision;
use crate::flexicast::congestion::FcCongestionHeuristicOps;
use crate::rate::Float64;
use crate::time::Duration;

verus! {

/// Heuristic used by flexicast for automatic group migration.
#[derive(Clone, Copy, Debug, PartialEq, Eq, Structural)]
pub enum FcCongestionHeuristic {
    /// Use EXP3 to drive which group to join.
    EXP3,
    /// Join the group with the closest rate.
    KMEANS,
}

/// The operations of a heuristic.
pub open spec fn ops_of(heuristic: FcCongestionHeuristic) -> FcCongestionHeuristicOps {
    FcCongestionHeuristicOps {
        should_change_channel: match heuristic {
            FcCongestionHeuristic::KMEANS => Decision::Kmeans,
            FcCongestionHeuristic::EXP3 => Decision::Exp3,
        },
    }
}

impl From<FcCongestionHeuristic> for FcCongestionHeuristicOps {
    fn from(heuristic: FcCongestionHeuristic) -> (r: FcCongestionHeuristicOps) {
        FcCongestionHeuristicOps {
            should_change_channel: match heuristic {
                FcCongestionHeuristic::KMEANS => Decision::Kmeans,
                FcCongestionHeuristic::EXP3 => Decision::Exp3,
            },
        }
    }
}

impl vstd::std_specs::convert::FromSpecImpl<FcCongestionHeuristic> for FcCongestionHeuristicOps {
    open spec fn obeys_from_spec() -> bool {
        true
    }

    open spec fn from_spec(heuristic: FcCongestionHeuristic) -> FcCongestionHeuristicOps {
        ops_of(heuristic)
    }
}

/// Configuration of the congestion control for flexicast.
pub trait FcCongestionConfig {
    /// Sets the delay between two successive pieces of congestion information.
    fn set_fc_congestion_info_delay(&mut self, v: Duration);

    /// Sets the heuristic used for group migration.
    fn set_fc_congestion_heuristic(&mut self, v: FcCongestionHeuristic);

    /// Sets the length of the throughput window.
    fn set_fc_throughput_window(&mut self, v: Duration);

    /// Sets the reward function of the EXP3 heuristic.
    fn set_fc_exp3_rewarder(&mut self, v: EXP3Rewarder);

    /// Sets the loss threshold of the EXP3 heuristic, and its hard loss threshold
    /// to twice this value.
    fn set_fc_exp3_loss_threshold(&mut self, v: Float64);

    /// Sets the hard loss threshold of the EXP3 heuristic. The loss threshold has
    /// to be set before, as that sets the hard loss threshold too.
    fn set_fc_exp3_hard_loss_threshold(&mut self, v: Float64);

    /// Sets the parameter k of the EXP3 heuristic.
    fn set_fc_exp3_k(&mut self, v: Float64);

    /// Sets the migration timeout of the EXP3 heuristic.
    fn set_fc_exp3_migration_timeout(&mut self, v: Duration);

    /// Sets the parameter gamma of the EXP3 instances.
    fn set_fc_exp3_gamma(&mut self, v: Option<Float64>);
}

impl FcCongestionConfig for Config {
    fn set_fc_congestion_info_delay(&mut self, v: Duration)
        ensures
            *final(self) == (Config { fc_congestion_info_delay: v, ..*old(self) }),
    {
        self.fc_congestion_info_delay = v;
    }

    fn set_fc_congestion_heuristic(&mut self, v: FcCongestionHeuristic)
        ensures
            *final(self) == (Config { fc_congestion_heuristic: v, ..*old(self) }),
    {
        self.fc_congestion_heuristic = v;
    }

    fn set_fc_throughput_window(&mut self, v: Duration)
        ensures
            *final(self) == (Config { fc_throughput_window: v, ..*old(self) }),
    {
        self.fc_throughput_window = v;
    }

    fn set_fc_exp3_rewarder(&mut self, v: EXP3Rewarder)
        ensures
            *final(self) == (Config {
                fc_exp3_conf: EXP3Conf { rewarder: v, ..old(self).fc_exp3_conf },
                ..*old(self)
            }),
    {
        self.fc_exp3_conf.rewarder = v;
    }

    fn set_fc_exp3_loss_threshold(&mut self, v: Float64)
        ensures
            *final(self) == (Config {
                fc_exp3_conf: EXP3Conf {
                    loss_threshold: v,
                    hard_loss_threshold: v.twice(),
                    ..old(self).fc_exp3_conf
                },
                ..*old(self)
            }),
    {
        self.fc_exp3_conf.loss_threshold = v;
        self.fc_exp3_conf.hard_loss_threshold = v.double();
    }

    fn set_fc_exp3_hard_loss_threshold(&mut self, v: Float64)
        ensures
            *final(self) == (Config {
                fc_exp3_conf: EXP3Conf { hard_loss_threshold: v, ..old(self).fc_exp3_conf },
                ..*old(self)
            }),
    {
        self.fc_exp3_conf.hard_loss_threshold = v;
    }

    fn set_fc_exp3_k(&mut self, v: Float64)
        ensures
            *final(self) == (Config {
                fc_exp3_conf: EXP3Conf { k: v, ..old(self).fc_exp3_conf },
                ..*old(self)
            }),
    {
        self.fc_exp3_conf.k = v;
    }

    fn set_fc_exp3_migration_timeout(&mut self, v: Duration)
        ensures
            *final(self) == (Config {
                fc_exp3_conf: EXP3Conf { migration_timeout: v, ..old(self).fc_exp3_conf },
                ..*old(self)
            }),
    {
        self.fc_exp3_conf.migration_timeout = v;
    }

    fn set_fc_exp3_gamma(&mut self, v: Option<Float64>)
        ensures
            *final(self) == (Config {
                fc_exp3_conf: EXP3Conf { gamma: v, ..old(self).fc_exp3_conf },
                ..*old(self)
            }),
    {
        self.fc_exp3_conf.gamma = v;
    }
}

/// Configuration of the congestion control for flexicast.
#[derive(Clone, Copy, Debug, PartialEq, Eq, Structural)]
pub struct FcCongestionConf {
    /// Delay between two successive pieces of congestion information.
    pub congestion_info_delay: Duration,
    /// Heuristic for the change of channel.
    pub cc_heuristic: FcCongestionHeuristicOps,
    /// Length of the throughput window.
    pub throughput_window: Duration,
    /// Configuration of EXP3.
    pub exp3_conf: EXP3Conf,
}

impl FcCongestionConf {
    /// The part of a configuration that concerns the congestion control.
    pub fn from_config(config: &Config) -> (c: FcCongestionConf)
        ensures
            c == (FcCongestionConf {
                congestion_info_delay: config.fc_congestion_info_delay,
                cc_heuristic: ops_of(config.fc_congestion_heuristic),
                throughput_window: config.fc_throughput_window,
                exp3_conf: config.fc_exp3_conf,
            }),
    {
        FcCongestionConf {
            congestion_info_delay: config.fc_congestion_info_delay,
            cc_heuristic: FcCongestionHeuristicOps::from(config.fc_congestion_heuristic),
            throughput_window: config.fc_throughput_window,
            exp3_conf: config.fc_exp3_conf,
        }
    }
}

/// Configuration of the EXP3 heuristic.
#[derive(Clone, Copy, Debug, PartialEq, Eq, Structural)]
pub struct EXP3Conf {
    /// Migration timeout.
    pub migration_timeout: Duration,
    /// Loss threshold used in the objective function.
    pub loss_threshold: Float64,
    /// Loss threshold used in the banning of actions.
    pub hard_loss_threshold: Float64,
    /// Parameter k.
    pub k: Float64,
    /// Parameter gamma of the instances.
    pub gamma: Option<Float64>,
    /// Reward function.
    pub rewarder: EXP3Rewarder,
}

/// Pattern of 0.05.
pub const LOSS_THRESHOLD_BITS: u64 = 0x3FA9_9999_9999_999A;

/// Pattern of 25.
pub const K_BITS: u64 = 0x4039_0000_0000_0000;

/// Pattern of 0.15.
pub const GAMMA_BITS: u64 = 0x3FC3_3333_3333_3333;

/// The configuration of EXP3 unless it is changed: the losses are held against
/// 0.05 and twice that, k is 25, gamma is 0.15, and the timeout is a second.
pub open spec fn default_exp3_conf() -> EXP3Conf {
    EXP3Conf {
        loss_threshold: Float64 { bits: LOSS_THRESHOLD_BITS },
        hard_loss_threshold: Float64 { bits: LOSS_THRESHOLD_BITS }.twice(),
        k: Float64 { bits: K_BITS },
        gamma: Some(Float64 { bits: GAMMA_BITS }),
        migration_timeout: Duration { nanos: 1_000_000_000 },
        rewarder: EXP3Rewarder::Loss,
    }
}

impl Default for EXP3Conf {
    fn default() -> (c: EXP3Conf)
        ensures
            c == default_exp3_conf(),
    {
        EXP3Conf {
            loss_threshold: Float64 { bits: LOSS_THRESHOLD_BITS },
            hard_loss_threshold: (Float64 { bits: LOSS_THRESHOLD_BITS }).double(),
            k: Float64 { bits: K_BITS },
            gamma: Some(Float64 { bits: GAMMA_BITS }),
            migration_timeout: Duration::from_secs(1),
            rewarder: EXP3Rewarder::Loss,
        }
    }
}

/// Each heuristic decides in its own way.
pub proof fn heuristics_have_their_operations(heuristic: FcCongestionHeuristic)
    ensures
        ops_of(heuristic).should_change_channel == Decision::Exp3 <==> heuristic
            == FcCongestionHeuristic::EXP3,
        ops_of(heuristic).should_change_channel == Decision::Kmeans <==> heuristic
            == FcCongestionHeuristic::KMEANS,
{
}

/// Unless it is changed, the hard threshold is twice the other one: 0.1 and 0.05. The
/// parameters are 25 and 0.15, and the timeout is a second.
pub proof fn hard_threshold_is_twice_the_other()
    ensures
        default_exp3_conf().loss_threshold.bits == 0x3FA9_9999_9999_999A,
        default_exp3_conf().hard_loss_threshold.bits == 0x3FB9_9999_9999_999A,
        default_exp3_conf().k.bits == 0x4039_0000_0000_0000,
        default_exp3_conf().gamma matches Some(g) && g.bits == 0x3FC3_3333_3333_3333,
        default_exp3_conf().migration_timeout.nanos == 1_000_000_000,
        default_exp3_conf().rewarder == EXP3Rewarder::Loss,
{
}

/// A loss threshold sets the hard one too, to twice its value; the hard one can be set on its own
/// afterwards, and the two then differ.
pub proof fn loss_threshold_sets_the_hard_one(a: &mut Config, b: &mut Config, v: Float64, w: Float64)
    requires
        call_ensures(<Config as FcCongestionConfig>::set_fc_exp3_loss_threshold, (a, v), ()),
        call_ensures(<Config as FcCongestionConfig>::set_fc_exp3_hard_loss_threshold, (b, w), ()),
    ensures
        final(a).fc_exp3_conf.loss_threshold == v,
        final(a).fc_exp3_conf.hard_loss_threshold == v.twice(),
        final(b).fc_exp3_conf.hard_loss_threshold == w,
        final(b).fc_exp3_conf.loss_threshold == old(b).fc_exp3_conf.loss_threshold,
        final(a).fc_exp3_conf.k == old(a).fc_exp3_conf.k,
        final(b).fc_exp3_conf.k == old(b).fc_exp3_conf.k,
{
}

/// Each option sets its own field, and leaves the loss thresholds.
pub proof fn options_set_their_own_field(
    a: &mut Config,
    k: Float64,
    b: &mut Config,
    t: Duration,
    c: &mut Config,
    g: Option<Float64>,
    d: &mut Config,
    w: Duration,
    e: &mut Config,
    delay: Duration,
    f: &mut Config,
    h: FcCongestionHeuristic,
)
    requires
        call_ensures(<Config as FcCongestionConfig>::set_fc_exp3_k, (a, k), ()),
        call_ensures(<Config as FcCongestionConfig>::set_fc_exp3_migration_timeout, (b, t), ()),
        call_ensures(<Config as FcCongestionConfig>::set_fc_exp3_gamma, (c, g), ()),
        call_ensures(<Config as FcCongestionConfig>::set_fc_throughput_window, (d, w), ()),
        call_ensures(<Config as FcCongestionConfig>::set_fc_congestion_info_delay, (e, delay), ()),
        call_ensures(<Config as FcCongestionConfig>::set_fc_congestion_heuristic, (f, h), ()),
    ensures
        final(a).fc_exp3_conf.k == k,
        final(b).fc_exp3_conf.migration_timeout == t,
        final(c).fc_exp3_conf.gamma == g,
        final(d).fc_throughput_window == w,
        final(e).fc_congestion_info_delay == delay,
        final(f).fc_congestion_heuristic == h,
        final(a).fc_exp3_conf.gamma == old(a).fc_exp3_conf.gamma,
        final(b).fc_exp3_conf.k == old(b).fc_exp3_conf.k,
        final(c).fc_exp3_conf.loss_threshold == old(c).fc_exp3_conf.loss_threshold,
        final(d).fc_exp3_conf == old(d).fc_exp3_conf,
        final(e).fc_exp3_conf == old(e).fc_exp3_conf,
        final(f).fc_exp3_conf == old(f).fc_exp3_conf,
{
}

/// The congestion control takes its part of the configuration as it is.
pub proof fn congestion_control_takes_its_part(config: Config, c: FcCongestionConf)
    requires
        call_ensures(FcCongestionConf::from_config, (&config,), c),
    ensures
        c.congestion_info_delay == config.fc_congestion_info_delay,
        c.throughput_window == config.fc_throughput_window,
        c.exp3_conf == config.fc_exp3_conf,
        c.cc_heuristic.should_change_channel is Exp3 <==> config.fc_congestion_heuristic is EXP3,
        c.cc_heuristic.should_change_channel is Kmeans <==> config.fc_congestion_heuristic is KMEANS,
{
}

} // verus!
