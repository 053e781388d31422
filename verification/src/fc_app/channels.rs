//! The flexicast channels of a receiver, from the announcement to the end.

use vstd::prelude::*;

use crate::bytes::copy_bytes;
use crate::error::McClientStatus;
use crate::error::McRole;
use crate::fc_app::recv_statistics::ChannelStatsModel;
use crate::fc_app::recv_statistics::Migration;
use crate::fc_app::recv_statistics::MultiChannelRecvStats;
use crate::flexicast::announce::announced;
use crate::flexicast::announce::optional_bytes;
use crate::flexicast::announce::AnnounceModel;
use crate::flexicast::announce::McAnnounceData;
use crate::net::IpAddr;
use crate::net::SocketAddr;

verus! {

/// How far a receiver is with a channel.
#[derive(Clone, Copy, Debug, PartialEq, Eq, Structural)]
pub enum ChannelLifetime {
    /// The identifier of the channel has to be given to the connection.
    ProvideCid,
    /// The flexicast path has to be created.
    ProbePath,
    /// The socket is bound, and the group is not joined yet.
    Bind,
    /// The group is joined.
    Joined,
    /// The group has to be left.
    Leaving,
    /// The group is left.
    Left,
}

/// A channel of a receiver.
#[derive(Clone, Copy, Debug)]
pub struct ChannelState {
    /// Number of the socket of the group, once there is one.
    pub mc_socket: Option<u64>,
    /// Address that the flexicast path uses.
    pub bind_addr: SocketAddr,
    /// Position of the announcement of the channel.
    pub fc_chan_idx: usize,
    /// Address of the group.
    pub group_addr: SocketAddr,
    /// How far the receiver is with the channel.
    pub lifetime: ChannelLifetime,
    /// Whether the channel was joined as part of a change of channel.
    pub from_fc_change_channel: bool,
}

/// A path to create for a channel.
#[derive(Clone, Copy, Debug, PartialEq, Eq)]
pub struct PathRequest {
    /// Address of this end of the path.
    pub local: SocketAddr,
    /// Whether the path has to be probed.
    pub probe: bool,
}

/// What to do once the path of a channel is there.
#[derive(Debug)]
pub struct BindRequest {
    /// Address to bind the socket to.
    pub addr: SocketAddr,
    /// Number of the socket that is replaced.
    pub replaced: Option<u64>,
    /// Identifier of the channel to join, where the connection has not joined it.
    pub join: Option<Vec<u8>>,
}

/// What to do about the membership of a group.
#[derive(Clone, Copy, Debug, PartialEq, Eq)]
pub enum Membership {
    /// Nothing: the packets are replicated for this receiver.
    Proxied,
    /// Change the membership of the group, on this interface and for this source.
    Change {
        /// Address of the group.
        group: [u8; 4],
        /// Address of the interface.
        itf: [u8; 4],
        /// Address of the source.
        source: [u8; 4],
    },
    /// Nothing: the addresses do not go together.
    Incompatible,
}

/// The membership that addresses stand for.
pub open spec fn membership(proxy: bool, group: IpAddr, itf: IpAddr, source: IpAddr) -> Membership {
    if proxy {
        Membership::Proxied
    } else {
        match (group, itf, source) {
            (IpAddr::V4(g), IpAddr::V4(i), IpAddr::V4(s)) => Membership::Change {
                group: g,
                itf: i,
                source: s,
            },
            _ => Membership::Incompatible,
        }
    }
}

fn decide_membership(proxy: bool, group: IpAddr, itf: IpAddr, source: IpAddr) -> (m: Membership)
    ensures
        m == membership(proxy, group, itf, source),
{
    if proxy {
        return Membership::Proxied;
    }
    match (group, itf, source) {
        (IpAddr::V4(g), IpAddr::V4(i), IpAddr::V4(s)) => Membership::Change {
            group: g,
            itf: i,
            source: s,
        },
        _ => Membership::Incompatible,
    }
}

/// The address to bind the socket of a channel to: the group, or the own address
/// where the path is probed or the packets are replicated.
pub open spec fn group_addr(a: AnnounceModel, group: [u8; 4], local_ip: IpAddr, proxy: bool) -> SocketAddr {
    if a.probe_path || proxy {
        SocketAddr { ip: local_ip, port: a.udp_port }
    } else {
        SocketAddr { ip: IpAddr::V4(group), port: a.udp_port }
    }
}

impl ChannelState {
    /// The identifier to give to the connection, where that is the next step.
    pub fn provide_cid(&mut self, announces: &Vec<McAnnounceData>) -> (r: Option<Vec<u8>>)
        requires
            old(self).lifetime is ProvideCid ==> old(self).fc_chan_idx < announces@.len(),
        ensures
            if old(self).lifetime is ProvideCid {
                &&& r matches Some(id) && id@
                    == announces@[old(self).fc_chan_idx as int].channel_id@
                &&& *final(self) == (ChannelState {
                    lifetime: ChannelLifetime::ProbePath,
                    ..*old(self)
                })
            } else {
                r is None && *final(self) == *old(self)
            },
    {
        if self.lifetime != ChannelLifetime::ProvideCid {
            return None;
        }
        self.lifetime = ChannelLifetime::ProbePath;
        Some(copy_bytes(&announces[self.fc_chan_idx].channel_id))
    }

    /// The address to bind the socket of a channel to.
    pub fn get_group_ip(mc_announce_data: &McAnnounceData, local_ip: IpAddr, proxy: bool) -> (r:
        SocketAddr)
        ensures
            r == group_addr(mc_announce_data@, mc_announce_data.group_ip, local_ip, proxy),
    {
        if mc_announce_data.probe_path || proxy {
            SocketAddr { ip: local_ip, port: mc_announce_data.udp_port }
        } else {
            SocketAddr {
                ip: IpAddr::V4(mc_announce_data.group_ip),
                port: mc_announce_data.udp_port,
            }
        }
    }

    /// The path to create, where that is the next step.
    pub fn probe(&self, announces: &Vec<McAnnounceData>) -> (r: Option<PathRequest>)
        requires
            self.lifetime is ProbePath ==> self.fc_chan_idx < announces@.len(),
        ensures
            r == if self.lifetime is ProbePath {
                Some(
                    PathRequest {
                        local: self.bind_addr,
                        probe: announces@[self.fc_chan_idx as int].probe_path,
                    },
                )
            } else {
                None
            },
    {
        if self.lifetime != ChannelLifetime::ProbePath {
            return None;
        }
        Some(PathRequest { local: self.bind_addr, probe: announces[self.fc_chan_idx].probe_path })
    }

    /// Notes that the path was created. Returns the socket to bind, which gets the
    /// number `socket`.
    pub fn path_created(
        &mut self,
        announces: &Vec<McAnnounceData>,
        local_ip: IpAddr,
        proxy: bool,
        socket: u64,
    ) -> (r: BindRequest)
        requires
            old(self).fc_chan_idx < announces@.len(),
        ensures
            ({
                let a = announces@[old(self).fc_chan_idx as int];
                &&& r.addr == group_addr(a@, a.group_ip, local_ip, proxy)
                &&& r.replaced == old(self).mc_socket
                &&& optional_bytes(r.join) == if old(self).from_fc_change_channel {
                    None::<Seq<u8>>
                } else {
                    Some(a.channel_id@)
                }
                &&& *final(self) == (ChannelState {
                    mc_socket: Some(socket),
                    lifetime: ChannelLifetime::Bind,
                    ..*old(self)
                })
            }),
    {
        let a: &McAnnounceData = &announces[self.fc_chan_idx];
        let addr: SocketAddr = Self::get_group_ip(a, local_ip, proxy);
        let replaced: Option<u64> = self.mc_socket;
        let join: Option<Vec<u8>> = if self.from_fc_change_channel {
            None
        } else {
            Some(copy_bytes(&a.channel_id))
        };
        self.lifetime = ChannelLifetime::Bind;
        self.mc_socket = Some(socket);
        BindRequest { addr, replaced, join }
    }

    /// Whether the group has to be joined now.
    pub fn should_join_multicast(&self, role: McRole) -> (r: bool)
        ensures
            r == (self.lifetime is Bind && role == McRole::Client(
                McClientStatus::ListenMcPath(true),
            )),
    {
        self.lifetime == ChannelLifetime::Bind && role == McRole::Client(
            McClientStatus::ListenMcPath(true),
        )
    }

    /// Joins the group.
    pub fn join_multicast(&mut self, proxy: bool, itf: IpAddr, source: IpAddr) -> (m: Membership)
        requires
            !(!proxy && old(self).group_addr.ip is V6 && itf is V6 && source is V4),
        ensures
            m == membership(proxy, old(self).group_addr.ip, itf, source),
            *final(self) == (ChannelState { lifetime: ChannelLifetime::Joined, ..*old(self) }),
    {
        let m: Membership = decide_membership(proxy, self.group_addr.ip, itf, source);
        self.lifetime = ChannelLifetime::Joined;
        m
    }

    /// Whether the group has to be left now.
    pub fn should_leave_multicast(&self) -> (r: bool)
        ensures
            r == (self.mc_socket is Some && self.lifetime is Leaving),
    {
        self.mc_socket.is_some() && self.lifetime == ChannelLifetime::Leaving
    }

    /// Leaves the group.
    pub fn leave_multicast(&mut self, itf: IpAddr, source: IpAddr, proxy: bool) -> (m: Membership)
        requires
            !(!proxy && old(self).group_addr.ip is V6 && itf is V6 && source is V6),
        ensures
            m == membership(proxy, old(self).group_addr.ip, itf, source),
            *final(self) == (ChannelState { lifetime: ChannelLifetime::Left, ..*old(self) }),
    {
        let m: Membership = decide_membership(proxy, self.group_addr.ip, itf, source);
        self.lifetime = ChannelLifetime::Left;
        m
    }
}

/// The channels of a receiver.
#[derive(Debug)]
pub struct Channels {
    /// The channels that are not left, in the order in which they were added.
    pub channels: Vec<ChannelState>,
    /// Largest stream that was received on the current channel.
    pub max_stream: u64,
    /// Largest timestamp that was received on the current channel.
    pub max_timestamp: u32,
    /// Statistics.
    pub stats: MultiChannelRecvStats,
    /// Identifier of the channel that is being joined.
    pub changing_cid: Option<Vec<u8>>,
    /// Whether the first channel was joined.
    pub initial_channel_joined: bool,
}

/// What a [`Channels`] stands for.
#[verifier::ext_equal]
pub struct ChannelsModel {
    /// The channels that are not left, in the order in which they were added.
    pub channels: Seq<ChannelState>,
    /// Largest stream that was received on the current channel.
    pub max_stream: u64,
    /// Largest timestamp that was received on the current channel.
    pub max_timestamp: u32,
    /// Statistics.
    pub stats: Seq<ChannelStatsModel>,
    /// Identifier of the channel that is being joined.
    pub changing_cid: Option<Seq<u8>>,
    /// Whether the first channel was joined.
    pub initial_channel_joined: bool,
}

impl View for Channels {
    type V = ChannelsModel;

    open spec fn view(&self) -> ChannelsModel {
        ChannelsModel {
            channels: self.channels@,
            max_stream: self.max_stream,
            max_timestamp: self.max_timestamp,
            stats: self.stats@,
            changing_cid: optional_bytes(self.changing_cid),
            initial_channel_joined: self.initial_channel_joined,
        }
    }
}

/// No channel.
pub open spec fn no_channels() -> ChannelsModel {
    ChannelsModel {
        channels: Seq::empty(),
        max_stream: 0,
        max_timestamp: 0,
        stats: Seq::empty(),
        changing_cid: None,
        initial_channel_joined: false,
    }
}

/// A channel that was just announced.
pub open spec fn new_channel(idx: usize, a: McAnnounceData) -> ChannelState {
    ChannelState {
        mc_socket: None,
        bind_addr: SocketAddr { ip: IpAddr::V4([0u8, 0u8, 0u8, 0u8]), port: a.udp_port },
        group_addr: SocketAddr { ip: IpAddr::V4(a.group_ip), port: a.udp_port },
        lifetime: ChannelLifetime::ProvideCid,
        fc_chan_idx: idx,
        from_fc_change_channel: false,
    }
}

/// The statistics after a change of channel.
pub open spec fn after_migration(
    stats: Seq<ChannelStatsModel>,
    migration: Migration,
) -> Seq<ChannelStatsModel> {
    stats.push(ChannelStatsModel { timestamps: Map::empty(), migration })
}

/// The channels that are not left.
pub open spec fn not_left() -> spec_fn(ChannelState) -> bool {
    |s: ChannelState| s.lifetime !is Left
}

/// A channel that is left if it was joined and is the one at `idx`.
pub open spec fn leaving(s: ChannelState, idx: usize) -> ChannelState {
    if s.fc_chan_idx == idx && s.lifetime is Joined {
        ChannelState { lifetime: ChannelLifetime::Leaving, ..s }
    } else {
        s
    }
}

impl ChannelsModel {
    /// The channels once a change to another channel is done.
    pub open spec fn migrated(self, idx: usize, bitrate: u64) -> ChannelsModel {
        ChannelsModel {
            stats: after_migration(
                self.stats,
                Migration {
                    new_channel_idx: idx,
                    new_channel_bitrate: bitrate,
                    last_recv_timestamp: self.max_timestamp as i64,
                },
            ),
            max_timestamp: 0,
            max_stream: 0,
            changing_cid: None,
            ..self
        }
    }

    /// The channels once another one is added. The first one counts as a change.
    pub open spec fn joined(self, idx: usize, a: McAnnounceData) -> ChannelsModel {
        ChannelsModel {
            channels: self.channels.push(new_channel(idx, a)),
            stats: if self.initial_channel_joined {
                self.stats
            } else {
                after_migration(
                    self.stats,
                    Migration {
                        new_channel_idx: idx,
                        new_channel_bitrate: a.bitrate->0,
                        last_recv_timestamp: -1i64,
                    },
                )
            },
            initial_channel_joined: true,
            ..self
        }
    }

    /// The first channel, where it is joined.
    pub open spec fn current(self) -> Option<ChannelState> {
        if self.channels.len() > 0 && self.channels[0].lifetime is Joined {
            Some(self.channels[0])
        } else {
            None
        }
    }
}

impl Channels {
    /// No channel.
    pub fn new() -> (c: Channels)
        ensures
            c@ == no_channels(),
    {
        Channels {
            channels: Vec::new(),
            max_stream: 0,
            max_timestamp: 0,
            stats: MultiChannelRecvStats::new(),
            changing_cid: None,
            initial_channel_joined: false,
        }
    }

    /// Notes that a change to the channel at `channel_idx` is done, and forgets
    /// what was received on the former channel.
    pub fn migration_done(&mut self, channel_idx: usize, bitrate: u64)
        ensures
            final(self)@ == old(self)@.migrated(channel_idx, bitrate),
    {
        self.stats.migrated(
            Migration {
                new_channel_idx: channel_idx,
                new_channel_bitrate: bitrate,
                last_recv_timestamp: self.max_timestamp as i64,
            },
        );
        self.max_timestamp = 0;
        self.max_stream = 0;
        self.changing_cid = None;
    }

    /// Adds the channel of an announcement.
    pub fn join_channel(&mut self, channel_idx: usize, announce_data: &McAnnounceData)
        requires
            !old(self)@.initial_channel_joined ==> announce_data.bitrate is Some,
        ensures
            final(self)@ == old(self)@.joined(channel_idx, *announce_data),
    {
        let ip: [u8; 4] = [0u8, 0u8, 0u8, 0u8];
        self.channels.push(
            ChannelState {
                mc_socket: None,
                bind_addr: SocketAddr { ip: IpAddr::V4(ip), port: announce_data.udp_port },
                group_addr: SocketAddr {
                    ip: IpAddr::V4(announce_data.group_ip),
                    port: announce_data.udp_port,
                },
                lifetime: ChannelLifetime::ProvideCid,
                fc_chan_idx: channel_idx,
                from_fc_change_channel: false,
            },
        );
        if !self.initial_channel_joined {
            let bitrate: u64 = match announce_data.bitrate {
                Some(b) => b,
                None => 0,
            };
            self.stats.migrated(
                Migration {
                    new_channel_idx: channel_idx,
                    new_channel_bitrate: bitrate,
                    last_recv_timestamp: -1,
                },
            );
            self.initial_channel_joined = true;
        }
    }

    /// Starts to leave the channel at `channel_idx`, where it is joined.
    pub fn leave_channel(&mut self, channel_idx: usize)
        ensures
            final(self)@ == (ChannelsModel {
                channels: old(self)@.channels.map_values(
                    |s: ChannelState| leaving(s, channel_idx),
                ),
                ..old(self)@
            }),
    {
        let ghost before = self.channels@;
        let mut i: usize = 0;
        while i < self.channels.len()
            invariant
                i <= self.channels@.len(),
                self.channels@.len() == before.len(),
                before == old(self).channels@,
                forall|k: int|
                    0 <= k < before.len() ==> #[trigger] self.channels@[k] == if k < i {
                        leaving(before[k], channel_idx)
                    } else {
                        before[k]
                    },
                self.max_stream == old(self).max_stream,
                self.max_timestamp == old(self).max_timestamp,
                self.stats == old(self).stats,
                self.changing_cid == old(self).changing_cid,
                self.initial_channel_joined == old(self).initial_channel_joined,
            decreases self.channels@.len() - i,
        {
            assert(self.channels@[i as int] == before[i as int]);
            if self.channels[i].fc_chan_idx == channel_idx && self.channels[i].lifetime
                == ChannelLifetime::Joined {
                self.channels[i].lifetime = ChannelLifetime::Leaving;
            }
            i += 1;
        }
        assert(self.channels@ =~= before.map_values(|s: ChannelState| leaving(s, channel_idx)));
    }

    /// Statistics of the receiver.
    pub fn get_stats(&mut self) -> (r: &mut MultiChannelRecvStats)
        ensures
            *r == old(self).stats,
            final(self)@ == (ChannelsModel { stats: final(r)@, ..old(self)@ }),
    {
        &mut self.stats
    }

    /// Notes the timestamp of a packet.
    pub fn received_timestamp(&mut self, timestamp: u32)
        ensures
            final(self)@ == (ChannelsModel {
                max_timestamp: if timestamp > old(self)@.max_timestamp {
                    timestamp
                } else {
                    old(self)@.max_timestamp
                },
                ..old(self)@
            }),
    {
        if timestamp > self.max_timestamp {
            self.max_timestamp = timestamp;
        }
    }

    /// The first channel, where it is joined.
    pub fn joined_channel(&self) -> (r: Option<&ChannelState>)
        ensures
            r is Some <==> self@.current() is Some,
            r matches Some(s) ==> Some(*s) == self@.current(),
    {
        if self.channels.len() > 0 && self.channels[0].lifetime == ChannelLifetime::Joined {
            Some(&self.channels[0])
        } else {
            None
        }
    }

    /// The channels that are not left.
    pub fn channels(&self) -> (r: &Vec<ChannelState>)
        ensures
            r@ == self@.channels,
    {
        &self.channels
    }

    /// The channels that are not left, to change them.
    pub fn channels_mut(&mut self) -> (r: &mut Vec<ChannelState>)
        ensures
            r@ == old(self)@.channels,
            final(self)@ == (ChannelsModel { channels: final(r)@, ..old(self)@ }),
    {
        &mut self.channels
    }

    /// Number of the socket of the first channel with the port `port`.
    pub fn get_socket(&self, port: u16) -> (r: Option<u64>)
        ensures
            r == socket_at(self@.channels, port),
    {
        let ghost s = self.channels@;
        let mut i: usize = 0;
        assert(s.skip(0) =~= s);
        while i < self.channels.len()
            invariant
                i <= self.channels@.len(),
                s == self.channels@,
                socket_at(s, port) == socket_at(s.skip(i as int), port),
            decreases self.channels@.len() - i,
        {
            assert(s.skip(i as int)[0] == s[i as int]);
            assert(s.skip(i as int).skip(1) =~= s.skip(i + 1));
            if self.channels[i].bind_addr.port == port {
                return self.channels[i].mc_socket;
            }
            i += 1;
        }
        None
    }

    /// Forgets the channels that are left.
    pub fn clean(&mut self)
        ensures
            final(self)@ == (ChannelsModel {
                channels: old(self)@.channels.filter(not_left()),
                ..old(self)@
            }),
    {
        let ghost s = self.channels@;
        let ghost f = not_left();
        let mut kept: Vec<ChannelState> = Vec::new();
        let mut i: usize = 0;
        proof {
            reveal(Seq::filter);
            assert(kept@ =~= s.take(0).filter(f));
        }
        while i < self.channels.len()
            invariant
                i <= self.channels@.len(),
                s == self.channels@,
                f == not_left(),
                kept@ == s.take(i as int).filter(f),
            decreases self.channels@.len() - i,
        {
            proof {
                reveal(Seq::filter);
                assert(s.take(i + 1).drop_last() =~= s.take(i as int));
            }
            if self.channels[i].lifetime != ChannelLifetime::Left {
                kept.push(self.channels[i]);
            }
            i += 1;
        }
        assert(s.take(i as int) =~= s);
        self.channels = kept;
    }
}

/// Number of the socket of the first channel with the port `port`.
pub open spec fn socket_at(s: Seq<ChannelState>, port: u16) -> Option<u64>
    decreases s.len(),
{
    if s.len() == 0 {
        None
    } else if s[0].bind_addr.port == port {
        s[0].mc_socket
    } else {
        socket_at(s.skip(1), port)
    }
}

/// A channel goes from its announcement to its end in a fixed order: each step of
/// the lifetime has one successor.
pub open spec fn next_lifetime(l: ChannelLifetime) -> ChannelLifetime {
    match l {
        ChannelLifetime::ProvideCid => ChannelLifetime::ProbePath,
        ChannelLifetime::ProbePath => ChannelLifetime::Bind,
        ChannelLifetime::Bind => ChannelLifetime::Joined,
        ChannelLifetime::Joined => ChannelLifetime::Leaving,
        ChannelLifetime::Leaving => ChannelLifetime::Left,
        ChannelLifetime::Left => ChannelLifetime::Left,
    }
}

/// Leaving a channel takes a joined one to its next step, and leaves all the
/// others where they are.
pub proof fn leaving_is_the_next_step(s: ChannelState, idx: usize)
    ensures
        leaving(s, idx).lifetime == s.lifetime || leaving(s, idx).lifetime == next_lifetime(
            s.lifetime,
        ),
        s.lifetime !is Joined ==> leaving(s, idx) == s,
{
}

/// The membership of a group is changed where the packets are not replicated and all the
/// addresses are IPv4 ones: with these addresses.
pub proof fn only_ipv4_groups_are_joined(proxy: bool, group: IpAddr, itf: IpAddr, source: IpAddr)
    ensures
        proxy ==> membership(proxy, group, itf, source) is Proxied,
        !proxy && group is V4 && itf is V4 && source is V4 ==> membership(proxy, group, itf, source)
            == (Membership::Change {
            group: group->V4_0,
            itf: itf->V4_0,
            source: source->V4_0,
        }),
        !proxy && !(group is V4 && itf is V4 && source is V4) ==> membership(
            proxy,
            group,
            itf,
            source,
        ) is Incompatible,
{
}

/// The socket of a channel is bound to the port of the channel, on the address of the group
/// unless the path is probed or the packets are replicated.
pub proof fn sockets_are_bound_to_the_group(
    a: AnnounceModel,
    group: [u8; 4],
    local_ip: IpAddr,
    proxy: bool,
)
    ensures
        group_addr(a, group, local_ip, proxy).port == a.udp_port,
        !a.probe_path && !proxy ==> group_addr(a, group, local_ip, proxy).ip == IpAddr::V4(group),
        a.probe_path || proxy ==> group_addr(a, group, local_ip, proxy).ip == local_ip,
{
}

/// A new channel is announced and nothing else: it has no socket yet, the address of its group,
/// and its path uses any address with the port of the group.
pub proof fn new_channels_start_with_their_identifier(idx: usize, a: McAnnounceData)
    ensures
        ({
            let s = new_channel(idx, a);
            &&& s.lifetime is ProvideCid
            &&& s.mc_socket is None
            &&& s.fc_chan_idx == idx
            &&& !s.from_fc_change_channel
            &&& s.group_addr.ip == IpAddr::V4(a.group_ip) && s.group_addr.port == a.udp_port
            &&& s.bind_addr.ip is V4 && s.bind_addr.port == a.udp_port
            &&& forall|i: int| 0 <= i < 4 ==> #[trigger] s.bind_addr.ip.octets()[i] == 0
        }),
{
}

/// A change that is done starts the statistics of the new channel, with the last timestamp of
/// the former one. What was received on the former channel is forgotten, no change is under
/// way any more, and the channels and the earlier statistics stay.
pub proof fn changes_start_new_statistics(m: ChannelsModel, idx: usize, bitrate: u64)
    ensures
        ({
            let after = m.migrated(idx, bitrate);
            let last = after.stats.last();
            &&& after.stats.len() == m.stats.len() + 1
            &&& after.stats.drop_last() == m.stats
            &&& last.migration.new_channel_idx == idx
            &&& last.migration.new_channel_bitrate == bitrate
            &&& last.migration.last_recv_timestamp == m.max_timestamp
            &&& forall|t: i64| !#[trigger] last.timestamps.contains_key(t)
            &&& after.max_timestamp == 0
            &&& after.max_stream == 0
            &&& after.changing_cid is None
            &&& after.channels == m.channels
            &&& after.initial_channel_joined == m.initial_channel_joined
        }),
{
    assert(m.migrated(idx, bitrate).stats.drop_last() =~= m.stats);
}

/// An added channel is the last one. The first channel that is ever added starts the statistics,
/// before any timestamp; a later one does not.
pub proof fn first_channel_starts_the_statistics(m: ChannelsModel, idx: usize, a: McAnnounceData)
    ensures
        ({
            let after = m.joined(idx, a);
            let last = after.stats.last();
            &&& after.channels.len() == m.channels.len() + 1
            &&& after.channels.drop_last() == m.channels
            &&& after.channels.last() == new_channel(idx, a)
            &&& after.initial_channel_joined
            &&& m.initial_channel_joined ==> after.stats == m.stats
            &&& !m.initial_channel_joined ==> {
                &&& after.stats.len() == m.stats.len() + 1
                &&& after.stats.drop_last() == m.stats
                &&& last.migration.new_channel_idx == idx
                &&& a.bitrate matches Some(b) ==> last.migration.new_channel_bitrate == b
                &&& last.migration.last_recv_timestamp == -1
                &&& forall|t: i64| !#[trigger] last.timestamps.contains_key(t)
            }
            &&& after.max_timestamp == m.max_timestamp
            &&& after.max_stream == m.max_stream
            &&& after.changing_cid == m.changing_cid
        }),
{
    assert(m.joined(idx, a).channels.drop_last() =~= m.channels);
    if !m.initial_channel_joined {
        assert(m.joined(idx, a).stats.drop_last() =~= m.stats);
    }
}

/// The channel in use is the first one, once it is joined.
pub proof fn current_channel_is_the_first(m: ChannelsModel)
    ensures
        m.current() is Some <==> m.channels.len() > 0 && m.channels[0].lifetime is Joined,
        m.current() matches Some(s) ==> s == m.channels[0],
{
}

/// Only a joined channel with the given position starts to leave; nothing else of it changes.
pub proof fn joined_channels_start_to_leave(s: ChannelState, idx: usize)
    ensures
        s.lifetime is Joined && s.fc_chan_idx == idx ==> leaving(s, idx).lifetime is Leaving,
        !(s.lifetime is Joined && s.fc_chan_idx == idx) ==> leaving(s, idx) == s,
        leaving(s, idx).mc_socket == s.mc_socket,
        leaving(s, idx).bind_addr == s.bind_addr,
        leaving(s, idx).group_addr == s.group_addr,
        leaving(s, idx).fc_chan_idx == s.fc_chan_idx,
        leaving(s, idx).from_fc_change_channel == s.from_fc_change_channel,
{
}

/// The socket of a port is that of the first channel with the port.
pub proof fn socket_is_that_of_the_first_channel(s: Seq<ChannelState>, port: u16, i: int)
    ensures
        0 <= i < s.len() && s[i].bind_addr.port == port && (forall|j: int|
            0 <= j < i ==> (#[trigger] s[j]).bind_addr.port != port) ==> socket_at(s, port)
            == s[i].mc_socket,
        (forall|j: int| 0 <= j < s.len() ==> (#[trigger] s[j]).bind_addr.port != port)
            ==> socket_at(s, port) is None,
    decreases s.len(),
{
    if s.len() > 0 {
        let t = s.skip(1);
        socket_is_that_of_the_first_channel(t, port, i - 1);
        assert forall|j: int| 0 <= j < t.len() implies #[trigger] t[j] == s[j + 1] by {}
        if 0 < i < s.len() && s[i].bind_addr.port == port && (forall|j: int|
            0 <= j < i ==> (#[trigger] s[j]).bind_addr.port != port) {
            assert(s[0].bind_addr.port != port);
            assert forall|j: int| 0 <= j < i - 1 implies (#[trigger] t[j]).bind_addr.port
                != port by {
                assert(s[j + 1].bind_addr.port != port);
            }
            assert(t[i - 1] == s[i]);
        }
        if forall|j: int| 0 <= j < s.len() ==> (#[trigger] s[j]).bind_addr.port != port {
            assert(s[0].bind_addr.port != port);
            assert forall|j: int| 0 <= j < t.len() implies (#[trigger] t[j]).bind_addr.port
                != port by {
                assert(s[j + 1].bind_addr.port != port);
            }
        }
    }
}

/// Exactly the channels that are left are forgotten.
pub proof fn left_channels_are_forgotten(s: Seq<ChannelState>, i: int)
    requires
        0 <= i < s.len(),
    ensures
        !(s[i].lifetime is Left) ==> s.filter(not_left()).contains(s[i]),
        forall|k: int|
            0 <= k < s.filter(not_left()).len() ==> !((#[trigger] s.filter(
                not_left(),
            )[k]).lifetime is Left),
{
    broadcast use vstd::seq_lib::group_filter_ensures;

    if !(s[i].lifetime is Left) {
        assert(not_left()(s[i]));
    }
    assert forall|k: int| 0 <= k < s.filter(not_left()).len() implies !((#[trigger] s.filter(
        not_left(),
    )[k]).lifetime is Left) by {
        assert(not_left()(s.filter(not_left())[k]));
    }
}

/// A receiver starts without channels.
pub proof fn receivers_start_without_channels()
    ensures
        no_channels().channels.len() == 0,
        no_channels().stats.len() == 0,
        no_channels().max_stream == 0,
        no_channels().max_timestamp == 0,
        no_channels().changing_cid is None,
        !no_channels().initial_channel_joined,
        no_channels().current() is None,
{
}

/// A channel goes through its steps in order: its identifier is given once, then its path is
/// created, then its socket is bound; the group is joined once the receiver listens, and is left
/// once the channel is to be left and has a socket.
pub proof fn channels_go_through_their_steps(
    s: &mut ChannelState,
    announces: Vec<McAnnounceData>,
    id: Option<Vec<u8>>,
    before: ChannelState,
    path: Option<PathRequest>,
    role: McRole,
    joins: bool,
    leaves: bool,
)
    requires
        before == *old(s),
        call_ensures(ChannelState::provide_cid, (s, &announces), id),
        call_ensures(ChannelState::probe, (&before, &announces), path),
        call_ensures(ChannelState::should_join_multicast, (&before, role), joins),
        call_ensures(ChannelState::should_leave_multicast, (&before,), leaves),
    ensures
        id is Some <==> old(s).lifetime is ProvideCid,
        path is Some <==> old(s).lifetime is ProbePath,
        joins <==> old(s).lifetime is Bind && role == McRole::Client(
            McClientStatus::ListenMcPath(true),
        ),
        leaves <==> old(s).lifetime is Leaving && old(s).mc_socket is Some,
        id is Some ==> final(s).lifetime is ProbePath && (id->0)@
            == announces@[old(s).fc_chan_idx as int].channel_id@,
        id is None ==> *final(s) == *old(s),
        path is Some ==> (path->0).local == old(s).bind_addr && (path->0).probe
            == announces@[old(s).fc_chan_idx as int].probe_path,
{
}

/// Once the path of a channel is there, its socket is bound and is the one of the channel; the one
/// that it had is replaced. The connection joins the channel then, unless a change of channel
/// has already joined it.
pub proof fn bound_sockets_are_those_of_the_channel(
    s: &mut ChannelState,
    announces: Vec<McAnnounceData>,
    local_ip: IpAddr,
    proxy: bool,
    socket: u64,
    r: BindRequest,
)
    requires
        call_ensures(ChannelState::path_created, (s, &announces, local_ip, proxy, socket), r),
        old(s).fc_chan_idx < announces@.len(),
    ensures
        ({
            let a = announces@[old(s).fc_chan_idx as int];
            &&& final(s).lifetime is Bind
            &&& final(s).mc_socket == Some(socket)
            &&& final(s).group_addr == old(s).group_addr && final(s).bind_addr == old(s).bind_addr
                && final(s).fc_chan_idx == old(s).fc_chan_idx
            &&& r.replaced == old(s).mc_socket
            &&& r.addr.port == a.udp_port
            &&& r.addr.ip == if a.probe_path || proxy {
                local_ip
            } else {
                IpAddr::V4(a.group_ip)
            }
            &&& r.join is None <==> old(s).from_fc_change_channel
            &&& r.join is Some ==> (r.join->0)@ == a.channel_id@
        }),
{
}

/// A joined group can be left again with the same membership: joining and leaving a channel differ
/// in the step that follows alone.
pub proof fn groups_are_left_as_they_were_joined(
    s: &mut ChannelState,
    t: &mut ChannelState,
    proxy: bool,
    itf: IpAddr,
    source: IpAddr,
    m: Membership,
    n: Membership,
)
    requires
        old(t).group_addr == old(s).group_addr,
        call_ensures(ChannelState::join_multicast, (s, proxy, itf, source), m),
        call_ensures(ChannelState::leave_multicast, (t, itf, source, proxy), n),
    ensures
        m == n,
        final(s).lifetime is Joined,
        final(t).lifetime is Left,
        m is Proxied <==> proxy,
        m is Change ==> old(s).group_addr.ip == IpAddr::V4(m->group) && itf == IpAddr::V4(m->itf)
            && source == IpAddr::V4(m->source),
        final(s).mc_socket == old(s).mc_socket && final(s).group_addr == old(s).group_addr,
        final(t).mc_socket == old(t).mc_socket && final(t).group_addr == old(t).group_addr,
{
}

/// Leaving a channel touches the joined channels with its position alone, the largest timestamp
/// only grows, and cleaning forgets nothing but channels that are left.
pub proof fn other_channels_stay(
    a: &mut Channels,
    idx: usize,
    b: &mut Channels,
    timestamp: u32,
    c: &mut Channels,
    i: int,
)
    requires
        call_ensures(Channels::leave_channel, (a, idx), ()),
        call_ensures(Channels::received_timestamp, (b, timestamp), ()),
        call_ensures(Channels::clean, (c,), ()),
        0 <= i < old(a)@.channels.len(),
    ensures
        final(a)@.channels.len() == old(a)@.channels.len(),
        ({
            let s = old(a)@.channels[i];
            let t = final(a)@.channels[i];
            &&& s.lifetime is Joined && s.fc_chan_idx == idx ==> t.lifetime is Leaving
            &&& !(s.lifetime is Joined && s.fc_chan_idx == idx) ==> t == s
        }),
        final(a)@.stats == old(a)@.stats,
        final(b)@.max_timestamp >= timestamp && final(b)@.max_timestamp >= old(b)@.max_timestamp,
        final(b)@.max_timestamp == timestamp || final(b)@.max_timestamp == old(b)@.max_timestamp,
        final(b)@.channels == old(b)@.channels,
        final(c)@.channels == old(c)@.channels.filter(|s: ChannelState| !(s.lifetime is Left)),
        final(c)@.stats == old(c)@.stats,
{
    assert(not_left() =~= (|s: ChannelState| !(s.lifetime is Left)));
}

} // verus!
