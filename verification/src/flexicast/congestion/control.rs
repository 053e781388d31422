//! Congestion control of a connection.

use vstd::prelude::*;

use crate::bytes::copy_bytes;
use crate::connection::Connection;
use crate::connection::ConnectionModel;
use crate::error::McRole;
use crate::flexicast::announce::optional_bytes;
use crate::flexicast::congestion::exp3::decision::exp3_did_change_channel;
use crate::flexicast::congestion::exp3::decision::exp3_should_change_channel;
use crate::flexicast::congestion::exp3::decision::Exp3Outside;
use crate::flexicast::congestion::exp3::Exp3Model;
use crate::flexicast::congestion::kmeans::kmeans_should_change_channel;
use crate::flexicast::congestion::probe::probe_should_change_channel;
use crate::flexicast::congestion::stats::StatsModel;
use crate::flexicast::congestion::CongestionModel;
use crate::flexicast::congestion::Decision;
use crate::flexicast::congestion::FcCongestionInfo;
use crate::flexicast::congestion::InfoModel;
use crate::flexicast::FlexicastAttributes;
use crate::flexicast::FlexicastModel;
use crate::rate::Float64;
use crate::time::Duration;
use crate::time::Instant;

verus! {

/// Congestion control for flexicast.
pub trait FlexicastCongestion {
    /// Sets the congestion information of a receiver.
    fn mc_set_congestion_info(&mut self, info: FcCongestionInfo);

    /// Whether a server should send congestion information at `now`.
    fn should_send_fc_congestion_info(&self, now: Instant) -> bool;
}

impl FlexicastModel {
    /// The state with other congestion information to send.
    pub open spec fn with_local_info(self, info: InfoModel) -> FlexicastModel {
        FlexicastModel {
            congestion: CongestionModel { local: Some(info), ..self.congestion },
            ..self
        }
    }

    /// Whether the heuristic in use can decide.
    pub open spec fn decision_ready(self, now: Instant, outside: Exp3Outside) -> bool {
        match self.congestion.scheduler.should_change_channel {
            Decision::Exp3 => self.exp3_ready(now, outside),
            Decision::Kmeans => self.kmeans_ready(),
            Decision::Probe => self.probe_ready(now),
        }
    }

    /// The state after a decision of the heuristic in use.
    pub open spec fn decided(self, now: Instant, outside: Exp3Outside) -> FlexicastModel {
        match self.congestion.scheduler.should_change_channel {
            Decision::Exp3 => self.exp3_after(now, outside),
            Decision::Kmeans => self,
            Decision::Probe => self.with_probe(self.probed(now)),
        }
    }

    /// The channel that the heuristic in use chooses.
    pub open spec fn choice(self, now: Instant, outside: Exp3Outside) -> Option<Seq<u8>> {
        match self.congestion.scheduler.should_change_channel {
            Decision::Exp3 => self.exp3_choice(now, outside),
            Decision::Kmeans => self.kmeans_choice(),
            Decision::Probe => self.probe_decision(now),
        }
    }
}

impl FlexicastCongestion for FlexicastAttributes {
    fn mc_set_congestion_info(&mut self, info: FcCongestionInfo)
        ensures
            final(self)@ == old(self)@.with_local_info(info@),
            final(self).fc_reliable == old(self).fc_reliable,
    {
        self.congestion_state.local_congestion_info = Some(info);
    }

    fn should_send_fc_congestion_info(&self, now: Instant) -> (r: bool)
        ensures
            r == self@.congestion.should_send(now),
    {
        self.congestion_state.should_send_congestion_info(now)
    }
}

/// The source of a flexicast channel.
#[derive(Debug)]
pub struct FlexicastChannelSource {
    /// The connection that sends on the channel.
    pub channel: Connection,
}

impl ConnectionModel {
    /// Congestion window of the flexicast path.
    pub open spec fn flow_cwnd(self) -> Option<usize> {
        match self.flexicast {
            Some(f) => match f.fc_path_id {
                Some(id) if (id as usize) < self.paths.paths.len() => Some(
                    self.paths.paths[(id as usize) as int].recovery.cwnd,
                ),
                _ => None,
            },
            None => None,
        }
    }

    /// Whether this connection is that of a receiver.
    pub open spec fn is_receiver(self) -> bool {
        self.flexicast matches Some(f) && f.mc_role is Client
    }

    /// Whether this connection announces its channel and has a congestion window.
    pub open spec fn announces_channel(self) -> bool {
        self.flexicast matches Some(f) && f.announces.len() > 0 && self.flow_cwnd() is Some
    }

    /// The channel of this connection and its congestion window.
    pub open spec fn channel_cwnd(self) -> (Seq<u8>, usize) {
        (self.flexicast->0.announces[0].channel_id, self.flow_cwnd()->0)
    }

    /// Congestion information of this connection and of some channels.
    pub open spec fn info(self, channels: Seq<&FlexicastChannelSource>) -> InfoModel {
        InfoModel {
            cwnd: self.fc_flow_cwnd->0,
            mc_cwnds: Seq::new(channels.len(), |i: int| channels[i].channel@.channel_cwnd()),
            rtt: self.paths.paths[self.paths.active as int].recovery.rtt,
        }
    }

    /// The connection with other flexicast state.
    pub open spec fn with_flexicast(self, f: FlexicastModel) -> ConnectionModel {
        ConnectionModel { flexicast: Some(f), ..self }
    }

    /// The connection once it has congestion information of some channels.
    pub open spec fn informed_of(self, channels: Seq<&FlexicastChannelSource>) -> ConnectionModel {
        match self.flexicast {
            Some(f) if self.fc_flow_cwnd is Some => self.with_flexicast(
                f.with_local_info(self.info(channels)),
            ),
            _ => self,
        }
    }

    /// The connection once the application reports a rate of lost packets.
    pub open spec fn with_loss_rate(self, loss_rate: Float64) -> ConnectionModel {
        match self.flexicast {
            Some(f) => self.with_flexicast(
                FlexicastModel {
                    congestion: CongestionModel {
                        stats: StatsModel { loss_rate, ..f.congestion.stats },
                        ..f.congestion
                    },
                    ..f
                },
            ),
            None => self,
        }
    }
}

/// Congestion control of a connection with the flexicast extension.
pub trait FlexicastCongestionConnection {
    /// Whether the heuristic in use can decide.
    spec fn can_decide(&self, now: Instant, outside: Exp3Outside) -> bool;

    /// Whether congestion information can be gathered from some channels.
    spec fn can_inform(&self, fc_channels: Seq<&FlexicastChannelSource>) -> bool;

    /// Whether a receiver should change its channel: returns the identifier of the
    /// channel to join.
    fn fc_should_change_channel(&mut self, now: Instant, outside: Exp3Outside) -> (r: Option<
        Vec<u8>,
    >)
        requires
            old(self).can_decide(now, outside),
    ;

    /// Updates the loss rate of the channel with the one that the application
    /// measures.
    fn update_app_data_loss(&mut self, loss_rate: Float64);

    /// On the server, updates the congestion information to send to the receiver.
    fn update_congestion_info(&mut self, fc_channels: Vec<&FlexicastChannelSource>)
        requires
            old(self).can_inform(fc_channels@),
    ;

    /// Congestion window of the flexicast source.
    fn mc_get_cwnd(&self) -> Option<usize>;
}

impl FlexicastCongestionConnection for Connection {
    open spec fn can_decide(&self, now: Instant, outside: Exp3Outside) -> bool {
        &&& self.wf()
        &&& self@.is_receiver() ==> self@.flexicast->0.decision_ready(now, outside)
    }

    open spec fn can_inform(&self, fc_channels: Seq<&FlexicastChannelSource>) -> bool {
        &&& self.wf()
        &&& self@.fc_flow_cwnd is Some ==> {
            &&& self@.paths.active < self@.paths.paths.len()
            &&& forall|i: int|
                0 <= i < fc_channels.len() ==> (#[trigger] fc_channels[i]).channel.wf()
                    && fc_channels[i].channel@.announces_channel()
        }
    }

    fn fc_should_change_channel(&mut self, now: Instant, outside: Exp3Outside) -> (r: Option<
        Vec<u8>,
    >)
        ensures
            final(self).wf(),
            if old(self)@.is_receiver() {
                &&& final(self)@ == old(self)@.with_flexicast(
                    old(self)@.flexicast->0.decided(now, outside),
                )
                &&& optional_bytes(r) == old(self)@.flexicast->0.choice(now, outside)
            } else {
                r is None && final(self)@ == old(self)@
            },
    {
        match &mut self.flexicast {
            None => None,
            Some(flexicast) => {
                match flexicast.mc_role {
                    McRole::Client(_) => {},
                    _ => {
                        return None;
                    },
                }
                match flexicast.congestion_state.mc_congestion_scheduler.should_change_channel {
                    Decision::Exp3 => exp3_should_change_channel(flexicast, now, outside),
                    Decision::Kmeans => kmeans_should_change_channel(flexicast),
                    Decision::Probe => probe_should_change_channel(flexicast, now),
                }
            },
        }
    }

    fn update_app_data_loss(&mut self, loss_rate: Float64)
        ensures
            final(self)@ == old(self)@.with_loss_rate(loss_rate),
            old(self).wf() ==> final(self).wf(),
    {
        if let Some(flexicast) = &mut self.flexicast {
            flexicast.congestion_state.statistics.set_loss_rate(loss_rate);
        }
    }

    fn update_congestion_info(&mut self, fc_channels: Vec<&FlexicastChannelSource>)
        ensures
            final(self).wf(),
            final(self)@ == old(self)@.informed_of(fc_channels@),
    {
        let cwnd: usize = match self.fc_flow_cwnd {
            Some(c) => c,
            None => {
                return;
            },
        };
        let mut mc_cwnds: Vec<(Vec<u8>, usize)> = Vec::new();
        let mut i: usize = 0;
        while i < fc_channels.len()
            invariant
                i <= fc_channels@.len(),
                forall|k: int|
                    0 <= k < fc_channels@.len() ==> (#[trigger] fc_channels@[k]).channel.wf()
                        && fc_channels@[k].channel@.announces_channel(),
                mc_cwnds@.len() == i,
                forall|k: int|
                    0 <= k < i ==> (#[trigger] mc_cwnds@[k]).0@
                        == fc_channels@[k].channel@.channel_cwnd().0 && mc_cwnds@[k].1
                        == fc_channels@[k].channel@.channel_cwnd().1,
            decreases fc_channels@.len() - i,
        {
            let c: &Connection = &fc_channels[i].channel;
            assert(fc_channels@[i as int].channel@.announces_channel());
            let id: Vec<u8> = match &c.flexicast {
                Some(f) => match f.get_mc_announce_data(0) {
                    Some(a) => copy_bytes(&a.channel_id),
                    None => Vec::new(),
                },
                None => Vec::new(),
            };
            let w: usize = match c.mc_get_cwnd() {
                Some(w) => w,
                None => 0,
            };
            mc_cwnds.push((id, w));
            i += 1;
        }
        let rtt: Duration = self.paths.paths[self.paths.active].recovery.rtt;
        let info = FcCongestionInfo { cwnd, mc_cwnds, rtt };
        proof {
            assert(info@.mc_cwnds =~= self@.info(fc_channels@).mc_cwnds);
        }
        if let Some(flexicast) = &mut self.flexicast {
            flexicast.mc_set_congestion_info(info);
        }
    }

    fn mc_get_cwnd(&self) -> (r: Option<usize>)
        ensures
            r == self@.flow_cwnd(),
    {
        match &self.flexicast {
            Some(f) => match f.fc_path_id {
                Some(id) => {
                    let pid: usize = id as usize;
                    if pid < self.paths.paths.len() {
                        Some(self.paths.paths[pid].recovery.cwnd)
                    } else {
                        None
                    }
                },
                None => None,
            },
            None => None,
        }
    }
}

impl Connection {
    /// Notes that the receiver is on the channel that the EXP3 heuristic chose.
    pub fn fc_did_change_channel(&mut self, now: Instant)
        requires
            old(self).wf(),
        ensures
            final(self).wf(),
            final(self)@ == match old(self)@.flexicast {
                Some(f) => old(self)@.with_flexicast(
                    f.with_exp3(
                        Exp3Model {
                            last_taken_action_instant: now,
                            taken_action: false,
                            ..f.congestion.exp3
                        },
                    ),
                ),
                None => old(self)@,
            },
    {
        if let Some(flexicast) = &mut self.flexicast {
            exp3_did_change_channel(flexicast, now);
        }
    }
}

/// The heuristic that is configured decides, and no other one.
pub proof fn configured_heuristic_decides(m: FlexicastModel, now: Instant, outside: Exp3Outside)
    ensures
        m.congestion.scheduler.should_change_channel is Exp3 ==> m.choice(now, outside)
            == m.exp3_choice(now, outside) && m.decided(now, outside) == m.exp3_after(now, outside)
            && (m.decision_ready(now, outside) <==> m.exp3_ready(now, outside)),
        m.congestion.scheduler.should_change_channel is Kmeans ==> m.choice(now, outside)
            == m.kmeans_choice() && m.decided(now, outside) == m && (m.decision_ready(now, outside)
            <==> m.kmeans_ready()),
        m.congestion.scheduler.should_change_channel is Probe ==> m.choice(now, outside)
            == m.probe_decision(now) && m.decided(now, outside).congestion.probe == m.probed(now)
            && m.decided(now, outside).announces == m.announces && m.decided(
            now,
            outside,
        ).congestion.exp3 == m.congestion.exp3,
{
}

/// A source tells a receiver its congestion window, the round-trip time of the unicast path,
/// and for each channel, in order, the identifier that the channel announces first with the
/// congestion window of its flexicast path.
pub proof fn sources_tell_all_windows(
    c: ConnectionModel,
    channels: Seq<&FlexicastChannelSource>,
    i: int,
)
    requires
        c.flexicast is Some,
        c.fc_flow_cwnd is Some,
        0 <= i < channels.len(),
        channels[i].channel@.announces_channel(),
    ensures
        ({
            let s = channels[i].channel@;
            let f = s.flexicast->0;
            let after = c.informed_of(channels);
            let told = after.flexicast->0.congestion.local;
            &&& told is Some
            &&& told->0.cwnd == c.fc_flow_cwnd->0
            &&& told->0.rtt == c.paths.paths[c.paths.active as int].recovery.rtt
            &&& told->0.mc_cwnds.len() == channels.len()
            &&& told->0.mc_cwnds[i].0 == f.announces[0].channel_id
            &&& told->0.mc_cwnds[i].1
                == s.paths.paths[(f.fc_path_id->0 as usize) as int].recovery.cwnd
            &&& after.streams == c.streams && after.paths == c.paths
            &&& after.flexicast->0.congestion.received == c.flexicast->0.congestion.received
            &&& after.flexicast->0.congestion.next == c.flexicast->0.congestion.next
        }),
{
}

/// Where the flow has no congestion window for the receiver, nothing is told.
pub proof fn nothing_is_told_without_a_window(
    c: ConnectionModel,
    channels: Seq<&FlexicastChannelSource>,
)
    requires
        c.flexicast is None || c.fc_flow_cwnd is None,
    ensures
        c.informed_of(channels) == c,
{
}

/// The window of the flow is that of its flexicast path, where there is one.
pub proof fn flow_window_is_that_of_its_path(c: ConnectionModel, id: u64)
    requires
        c.flexicast is Some,
        c.flexicast->0.fc_path_id == Some(id),
        id <= usize::MAX,
    ensures
        id < c.paths.paths.len() ==> c.flow_cwnd() == Some(c.paths.paths[id as int].recovery.cwnd),
        id >= c.paths.paths.len() ==> c.flow_cwnd() is None,
{
}

/// A reported loss rate is the one that counts from then on, and nothing else changes.
pub proof fn reported_losses_count(c: ConnectionModel, loss_rate: Float64)
    ensures
        c.flexicast is None ==> c.with_loss_rate(loss_rate) == c,
        c.flexicast matches Some(f) ==> {
            let after = c.with_loss_rate(loss_rate);
            let g = after.flexicast->0;
            &&& after.flexicast is Some
            &&& g.congestion.stats.loss_rate == loss_rate
            &&& g.congestion.stats.window == f.congestion.stats.window
            &&& g.congestion.stats.ecn_rate == f.congestion.stats.ecn_rate
            &&& g.congestion.exp3 == f.congestion.exp3
            &&& g.congestion.probe == f.congestion.probe
            &&& g.announces == f.announces && g.fc_chan_id == f.fc_chan_id
            &&& after.streams == c.streams && after.paths == c.paths
        },
{
}

/// A receiver is a connection whose role is that of a client.
pub proof fn receivers_are_clients(c: ConnectionModel)
    ensures
        c.is_receiver() <==> c.flexicast is Some && c.flexicast->0.mc_role is Client,
{
}

/// A receiver gets the decision of its heuristic, and any other connection none.
pub proof fn only_receivers_get_decisions(
    c: &mut Connection,
    now: Instant,
    outside: Exp3Outside,
    r: Option<Vec<u8>>,
)
    requires
        call_ensures(
            <Connection as FlexicastCongestionConnection>::fc_should_change_channel,
            (c, now, outside),
            r,
        ),
    ensures
        ({
            let client = old(c)@.flexicast is Some && old(c)@.flexicast->0.mc_role is Client;
            &&& !client ==> r is None && final(c)@ == old(c)@
            &&& client ==> {
                let f = old(c)@.flexicast->0;
                &&& optional_bytes(r) == f.choice(now, outside)
                &&& final(c)@.flexicast == Some(f.decided(now, outside))
                &&& final(c)@.streams == old(c)@.streams && final(c)@.paths == old(c)@.paths
            }
        }),
{
}

/// The report of a change lets the heuristic act again once its timeout has passed from then on.
pub proof fn reported_changes_start_the_timeout(c: &mut Connection, now: Instant, later: Instant)
    requires
        call_ensures(Connection::fc_did_change_channel, (c, now), ()),
        old(c)@.flexicast is Some,
    ensures
        ({
            let e = final(c)@.flexicast->0.congestion.exp3;
            &&& final(c)@.flexicast is Some
            &&& e.is_due(later) <==> later.nanos > now.nanos + e.conf.migration_timeout.nanos
            &&& e.conf == old(c)@.flexicast->0.congestion.exp3.conf
            &&& e.last_taken_action == old(c)@.flexicast->0.congestion.exp3.last_taken_action
        }),
{
}

} // verus!
