//! State of the flexicast extension on a connection.

pub mod ack;
pub mod announce;
pub mod congestion;
pub mod control;
pub mod delivery;
pub mod laws;
pub mod reliable;

use vstd::prelude::*;

use crate::error::McRole;
use crate::flexicast::announce::announce_index;
use crate::flexicast::announce::announced;
use crate::flexicast::announce::find_announce;
use crate::flexicast::announce::AnnounceModel;
use crate::flexicast::announce::McAnnounceData;
use crate::flexicast::congestion::probe::ProbeState;
use crate::flexicast::congestion::CongestionModel;
use crate::flexicast::congestion::FcCongestionState;
use crate::flexicast::reliable::ReliableFc;
use crate::flexicast::reliable::ReliableModel;

verus! {

/// State of the flexicast extension on a connection.
#[derive(Debug)]
pub struct FlexicastAttributes {
    /// Role of the endpoint.
    pub mc_role: McRole,
    /// Identifier of the flexicast path.
    pub fc_path_id: Option<u64>,
    /// First packet number that the receiver must listen to.
    pub fc_first_pn: Option<u64>,
    /// State of the reliability mechanism.
    pub fc_reliable: ReliableFc,
    /// Identifier and position of the flexicast channel that was joined.
    pub fc_chan_id: Option<(Vec<u8>, usize)>,
    /// Announced channels.
    pub mc_announce_data: Vec<McAnnounceData>,
    /// State of the congestion control.
    pub congestion_state: FcCongestionState,
}

/// What a [`FlexicastAttributes`] stands for.
#[verifier::ext_equal]
pub struct FlexicastModel {
    /// Role of the endpoint.
    pub mc_role: McRole,
    /// Identifier of the flexicast path.
    pub fc_path_id: Option<u64>,
    /// First packet number that the receiver must listen to.
    pub fc_first_pn: Option<u64>,
    /// State of the reliability mechanism.
    pub fc_reliable: ReliableModel,
    /// Identifier and position of the flexicast channel that was joined.
    pub fc_chan_id: Option<(Seq<u8>, usize)>,
    /// Announced channels.
    pub announces: Seq<AnnounceModel>,
    /// State of the congestion control.
    pub congestion: CongestionModel,
}

impl FlexicastModel {
    /// The announcement of the channel that was joined.
    pub open spec fn active(self) -> Option<AnnounceModel> {
        match self.fc_chan_id {
            Some(c) if c.1 < self.announces.len() => Some(self.announces[c.1 as int]),
            _ => None,
        }
    }

    /// Position of the first announcement of the channel `channel_id`.
    pub open spec fn index_of(self, channel_id: Seq<u8>) -> Option<int> {
        announce_index(self.announces, channel_id)
    }

    /// The state with another state of the probing heuristic.
    pub open spec fn with_probe(self, probe: ProbeState) -> FlexicastModel {
        FlexicastModel { congestion: CongestionModel { probe, ..self.congestion }, ..self }
    }
}

impl View for FlexicastAttributes {
    type V = FlexicastModel;

    open spec fn view(&self) -> FlexicastModel {
        FlexicastModel {
            mc_role: self.mc_role,
            fc_path_id: self.fc_path_id,
            fc_first_pn: self.fc_first_pn,
            fc_reliable: self.fc_reliable@,
            fc_chan_id: match self.fc_chan_id {
                Some(c) => Some((c.0@, c.1)),
                None => None,
            },
            announces: announced(self.mc_announce_data@),
            congestion: self.congestion_state@,
        }
    }
}

impl FlexicastAttributes {
    /// The states of the reliability mechanism and of the congestion control are
    /// well formed.
    pub open spec fn wf(&self) -> bool {
        self.fc_reliable.wf() && self.congestion_state@.wf()
    }

    /// The announcement at the position `idx`.
    pub fn get_mc_announce_data(&self, idx: usize) -> (r: Option<&McAnnounceData>)
        ensures
            r is Some <==> idx < self@.announces.len(),
            r matches Some(a) ==> a@ == self@.announces[idx as int],
    {
        if idx < self.mc_announce_data.len() {
            Some(&self.mc_announce_data[idx])
        } else {
            None
        }
    }

    /// Position of the first announcement of the channel `channel_id`.
    pub fn get_mc_announce_data_index(&self, channel_id: &Vec<u8>) -> (r: Option<usize>)
        ensures
            r is Some <==> self@.index_of(channel_id@) is Some,
            r matches Some(i) ==> i < self@.announces.len() && self@.index_of(channel_id@) == Some(
                i as int,
            ),
    {
        find_announce(&self.mc_announce_data, channel_id)
    }

    /// The announcement of the channel that was joined.
    pub fn get_mc_announce_data_active(&self) -> (r: Option<&McAnnounceData>)
        ensures
            r is Some <==> self@.active() is Some,
            r matches Some(a) ==> Some(a@) == self@.active(),
    {
        match &self.fc_chan_id {
            Some(c) => self.get_mc_announce_data(c.1),
            None => None,
        }
    }

    /// Role of the endpoint.
    pub fn get_mc_role(&self) -> (r: McRole)
        ensures
            r == self@.mc_role,
    {
        self.mc_role
    }

    /// Identifier of the flexicast path.
    pub fn get_fc_path_id(&self) -> (r: Option<u64>)
        ensures
            r == self@.fc_path_id,
    {
        self.fc_path_id
    }
}

/// The announcement in use is the one at the position of the channel that was joined, where
/// it is announced.
pub proof fn active_announcement_is_that_of_the_channel(m: FlexicastModel)
    ensures
        m.active() is Some <==> (m.fc_chan_id matches Some(c) && c.1 < m.announces.len()),
        m.active() matches Some(a) ==> a == m.announces[(m.fc_chan_id->0).1 as int],
{
}

} // verus!
