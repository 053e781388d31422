//! Logic of a flexicast source.

pub mod path_events;
pub mod random;
pub mod server;
pub mod token;

use vstd::prelude::*;

use crate::config::new_config;
use crate::config::ApplicationProtocol;
use crate::config::Config;
use crate::config::CongestionControlAlgorithm;
use crate::error::Error;
use crate::error::FcError;
use crate::fc_app::pacer::PacerType;
use crate::fc_app::pacer::ScaledRates;
use crate::fc_app::pacer::TokenPacer;
use crate::flexicast::announce::AnnounceModel;
use crate::flexicast::announce::FcQos;
use crate::flexicast::announce::McAnnounceData;
use crate::flexicast::congestion::config::FcCongestionConfig;
use crate::net::IpAddr;
use crate::net::SocketAddr;
use crate::source::random::new_scid;
use crate::source::token::CONN_ID_LEN;
use crate::time::Duration;
use crate::time::Instant;

verus! {

/// Largest UDP payload.
pub const MAX_DATAGRAM_SIZE: usize = 1350;

/// Flow control limits.
pub const MAX_DATA: u64 = 100_000_000_000;

/// Length of the queues of datagrams.
pub const DGRAM_QUEUE_LEN: usize = 10000;

/// Largest identifier of a path.
pub const MAX_PATH_ID: u64 = 100;

/// Port of the first channel.
pub const FIRST_SOURCE_PORT: u16 = 4434;

/// Time to live of the packets of the first channel.
pub const FIRST_TTL: u32 = 56;

/// Largest burst of a paced RTP source: ten packets of 1100 bytes.
pub const RTP_BURST: usize = 11000;

/// Seconds in a year, the delay of congestion information that is never sent.
pub const YEAR_SECS: u64 = 31_536_000;

/// Options of a source that do not go together.
#[derive(Clone, Copy, Debug, PartialEq, Eq, Structural)]
pub enum ArgsError {
    /// There are not as many bitrates as RTP sources.
    Bitrates,
    /// There are not as many logs as RTP sources.
    Loggers,
}

/// Why the options of a source do not go together, where flexicast is enabled.
pub open spec fn args_error(
    flexicast: bool,
    nb_bitrates: Option<usize>,
    nb_loggers: Option<usize>,
    nb_rtp: usize,
) -> Option<ArgsError> {
    if flexicast && nb_bitrates is Some && nb_bitrates != Some(nb_rtp) {
        Some(ArgsError::Bitrates)
    } else if flexicast && nb_loggers is Some && nb_loggers != Some(nb_rtp) {
        Some(ArgsError::Loggers)
    } else {
        None
    }
}

/// Checks that there are as many bitrates and logs as RTP sources, where they are
/// given and flexicast is enabled.
pub fn check_args(
    flexicast: bool,
    nb_bitrates: Option<usize>,
    nb_loggers: Option<usize>,
    nb_rtp: usize,
) -> (r: core::result::Result<(), ArgsError>)
    ensures
        match args_error(flexicast, nb_bitrates, nb_loggers, nb_rtp) {
            Some(e) => r == Err::<(), ArgsError>(e),
            None => r == Ok::<(), ArgsError>(()),
        },
{
    if flexicast && nb_bitrates.is_some() && nb_bitrates != Some(nb_rtp) {
        return Err(ArgsError::Bitrates);
    }
    if flexicast && nb_loggers.is_some() && nb_loggers != Some(nb_rtp) {
        return Err(ArgsError::Loggers);
    }
    Ok(())
}

/// Number and bitrate of a channel to create.
#[derive(Clone, Copy, Debug, PartialEq, Eq, Structural)]
pub struct ChannelNumber {
    /// Number of the channel.
    pub idx: u8,
    /// Bitrate of the channel, where it is fixed.
    pub bitrate: Option<u64>,
}

/// The channels to create: one for each bitrate or, without bitrates, one for each
/// RTP source. Numbers are 8-bit integers.
pub open spec fn channel_numbers(
    flexicast: bool,
    bitrates: Option<Seq<u64>>,
    nb_rtp: usize,
) -> Seq<ChannelNumber> {
    if !flexicast {
        Seq::empty()
    } else {
        match bitrates {
            Some(b) => Seq::new(
                b.len(),
                |i: int| ChannelNumber { idx: (i % 256) as u8, bitrate: Some(b[i]) },
            ),
            None => Seq::new(
                (nb_rtp % 256) as nat,
                |i: int| ChannelNumber { idx: i as u8, bitrate: None },
            ),
        }
    }
}

/// The channels to create.
pub fn plan_channels(flexicast: bool, bitrates: &Option<Vec<u64>>, nb_rtp: usize) -> (r: Vec<
    ChannelNumber,
>)
    ensures
        r@ == channel_numbers(
            flexicast,
            match bitrates {
                Some(b) => Some(b@),
                None => None,
            },
            nb_rtp,
        ),
{
    let mut r: Vec<ChannelNumber> = Vec::new();
    let mut i: usize = 0;
    if flexicast {
        match bitrates {
            Some(b) => {
                while i < b.len()
                    invariant
                        i <= b@.len(),
                        r@ == channel_numbers(true, Some(b@), nb_rtp).take(i as int),
                    decreases b@.len() - i,
                {
                    r.push(ChannelNumber { idx: (i % 256) as u8, bitrate: Some(b[i]) });
                    i += 1;
                    assert(r@ =~= channel_numbers(true, Some(b@), nb_rtp).take(i as int));
                }
                assert(r@ =~= channel_numbers(true, Some(b@), nb_rtp));
            },
            None => {
                let n: usize = nb_rtp % 256;
                while i < n
                    invariant
                        i <= n,
                        n == nb_rtp % 256,
                        r@ == channel_numbers(true, None, nb_rtp).take(i as int),
                    decreases n - i,
                {
                    r.push(ChannelNumber { idx: i as u8, bitrate: None });
                    i += 1;
                    assert(r@ =~= channel_numbers(true, None, nb_rtp).take(i as int));
                }
                assert(r@ =~= channel_numbers(true, None, nb_rtp));
            },
        }
    }
    r
}

/// Options of a source that its channels depend on.
#[derive(Clone, Copy, Debug)]
pub struct ChannelArgs {
    /// Address of the source.
    pub src_addr: SocketAddr,
    /// Address of the first group.
    pub mc_addr: SocketAddr,
    /// Whether receivers do not probe the flexicast path.
    pub no_path_probing: bool,
    /// Time to live of the data in milliseconds.
    pub expiration_timer: u64,
}

/// A channel of a source.
#[derive(Debug)]
pub struct FcChannelInfo {
    /// Address that the source sends from.
    pub src_addr: SocketAddr,
    /// Address of the group.
    pub mc_addr: SocketAddr,
    /// Time to live of the packets.
    pub ttl: u32,
    /// Announcement of the channel.
    pub mc_announce_data: McAnnounceData,
}

/// Number of a channel, which is the first one where none is given.
pub open spec fn channel_number(idx: Option<u8>) -> int {
    match idx {
        Some(i) => i as int,
        None => 0,
    }
}

/// Whether the addresses of a channel exist: the group has an IPv4 address, and
/// neither its last byte nor its port overflows.
pub open spec fn channel_fits(args: ChannelArgs, idx: Option<u8>) -> bool {
    &&& args.mc_addr.ip matches IpAddr::V4(a) && a[3] + channel_number(idx) <= u8::MAX
    &&& args.mc_addr.port + channel_number(idx) <= u16::MAX
}

/// The announcement of a channel.
pub open spec fn channel_announce(
    args: ChannelArgs,
    idx: Option<u8>,
    bitrate: Option<u64>,
    channel_id: Seq<u8>,
) -> AnnounceModel {
    AnnounceModel {
        channel_id,
        is_ipv6_addr: false,
        probe_path: !args.no_path_probing,
        reset_stream_on_join: true,
        source_ip: seq![127u8, 0u8, 0u8, 1u8],
        group_ip: args.mc_addr.ip->V4_0@.update(
            3,
            (args.mc_addr.ip->V4_0@[3] + channel_number(idx)) as u8,
        ),
        udp_port: (args.mc_addr.port + channel_number(idx)) as u16,
        public_key: None,
        expiration_timer: args.expiration_timer,
        is_processed: false,
        bitrate,
        fc_channel_algo: None,
        fc_channel_secret: None,
        qos: FcQos { bits: 3 },
    }
}

/// The channel with a number: each number has a source port, a group address and
/// port, and a time to live of its own.
pub fn get_multicast_channel(
    args: &ChannelArgs,
    fc_conn_idx: Option<u8>,
    bitrate: Option<u64>,
    channel_id: Vec<u8>,
) -> (c: FcChannelInfo)
    requires
        channel_fits(*args, fc_conn_idx),
    ensures
        c.src_addr == (SocketAddr {
            ip: args.src_addr.ip,
            port: (FIRST_SOURCE_PORT + channel_number(fc_conn_idx)) as u16,
        }),
        c.mc_announce_data@ == channel_announce(*args, fc_conn_idx, bitrate, channel_id@),
        c.mc_addr == (SocketAddr {
            ip: IpAddr::V4(c.mc_announce_data.group_ip),
            port: c.mc_announce_data.udp_port,
        }),
        c.ttl == FIRST_TTL + channel_number(fc_conn_idx),
        fc_conn_idx is None ==> c.src_addr.port == 4434 && c.ttl == 56,
        fc_conn_idx matches Some(i) ==> c.src_addr.port == 4434 + i && c.ttl == 56 + i,
{
    let idx: u8 = match fc_conn_idx {
        Some(i) => i,
        None => 0,
    };
    let src_addr = SocketAddr { ip: args.src_addr.ip, port: FIRST_SOURCE_PORT + idx as u16 };
    let mut group: [u8; 4] = [0u8, 0u8, 0u8, 0u8];
    if let IpAddr::V4(a) = args.mc_addr.ip {
        group = a;
        group[3] = a[3] + idx;
    }
    let port: u16 = args.mc_addr.port + idx as u16;
    let source_ip: [u8; 4] = [127u8, 0u8, 0u8, 1u8];
    let mc_announce_data = McAnnounceData {
        channel_id,
        is_ipv6_addr: false,
        probe_path: !args.no_path_probing,
        reset_stream_on_join: true,
        source_ip,
        group_ip: group,
        udp_port: port,
        public_key: None,
        expiration_timer: args.expiration_timer,
        is_processed: false,
        bitrate,
        fc_channel_algo: None,
        fc_channel_secret: None,
        qos: FcQos::throughput_and_delay(),
    };
    proof {
        assert(source_ip@ =~= seq![127u8, 0u8, 0u8, 1u8]);
        assert(group@ =~= args.mc_addr.ip->V4_0@.update(
            3,
            (args.mc_addr.ip->V4_0@[3] + channel_number(fc_conn_idx)) as u8,
        ));
    }
    FcChannelInfo {
        src_addr,
        mc_addr: SocketAddr { ip: IpAddr::V4(group), port },
        ttl: FIRST_TTL + idx as u32,
        mc_announce_data,
    }
}

/// Channels with different numbers have different source ports, group addresses,
/// group ports and times to live.
pub proof fn channels_do_not_collide(
    args: ChannelArgs,
    i: u8,
    j: u8,
    bitrate: Option<u64>,
    id: Seq<u8>,
)
    requires
        i != j,
        channel_fits(args, Some(i)),
        channel_fits(args, Some(j)),
    ensures
        channel_announce(args, Some(i), bitrate, id).group_ip != channel_announce(
            args,
            Some(j),
            bitrate,
            id,
        ).group_ip,
        channel_announce(args, Some(i), bitrate, id).udp_port != channel_announce(
            args,
            Some(j),
            bitrate,
            id,
        ).udp_port,
{
    let a = channel_announce(args, Some(i), bitrate, id).group_ip;
    let b = channel_announce(args, Some(j), bitrate, id).group_ip;
    assert(a[3] != b[3]);
}

/// The channel with a number and an identifier that is drawn at random, unless the
/// system has no randomness.
pub fn new_multicast_channel(
    args: &ChannelArgs,
    fc_conn_idx: Option<u8>,
    bitrate: Option<u64>,
) -> (r: Option<FcChannelInfo>)
    requires
        channel_fits(*args, fc_conn_idx),
    ensures
        r matches Some(c) ==> {
            let id = c.mc_announce_data.channel_id@;
            &&& id.len() == CONN_ID_LEN
            &&& c.mc_announce_data@ == channel_announce(*args, fc_conn_idx, bitrate, id)
            &&& c.src_addr == (SocketAddr {
                ip: args.src_addr.ip,
                port: (FIRST_SOURCE_PORT + channel_number(fc_conn_idx)) as u16,
            })
            &&& c.mc_addr == (SocketAddr {
                ip: IpAddr::V4(c.mc_announce_data.group_ip),
                port: c.mc_announce_data.udp_port,
            })
            &&& c.ttl == FIRST_TTL + channel_number(fc_conn_idx)
        },
{
    match new_scid() {
        Some(channel_id) => Some(get_multicast_channel(args, fc_conn_idx, bitrate, channel_id)),
        None => None,
    }
}

/// The pacer of an RTP source, where it is paced.
pub fn rtp_pacer(pacer_type: Option<PacerType>, rates: ScaledRates, now: Instant) -> (r: Option<
    TokenPacer,
>)
    ensures
        r == match pacer_type {
            Some(t) => Some(
                TokenPacer {
                    tokens: 0,
                    rate: match t {
                        PacerType::Higher => rates.higher,
                        PacerType::Optimal => rates.optimal,
                    } / 8,
                    buffer: RTP_BURST,
                    last_action_instant: now,
                },
            ),
            None => None,
        },
        r matches Some(p) ==> p.buffer == 11_000,
{
    match pacer_type {
        Some(t) => Some(t.get_pacer(rates, RTP_BURST, now)),
        None => None,
    }
}

/// A configuration with the application protocol and the limits that all the
/// connections have.
pub open spec fn with_limits(c: Config) -> Config {
    Config {
        application_protos: Some(ApplicationProtocol::H3),
        max_recv_udp_payload_size: Some(MAX_DATAGRAM_SIZE),
        max_send_udp_payload_size: Some(MAX_DATAGRAM_SIZE),
        initial_max_data: Some(MAX_DATA),
        initial_max_stream_data_bidi_local: Some(MAX_DATA),
        initial_max_stream_data_bidi_remote: Some(MAX_DATA),
        initial_max_stream_data_uni: Some(MAX_DATA),
        initial_max_streams_bidi: Some(MAX_DATA),
        initial_max_streams_uni: Some(MAX_DATA),
        initial_max_path_id: Some(MAX_PATH_ID),
        dgram_recv_queue: Some(DGRAM_QUEUE_LEN),
        dgram_send_queue: Some(DGRAM_QUEUE_LEN),
        ..c
    }
}

/// Sets the application protocol and the limits that all the connections have.
pub fn set_limits(c: &mut Config)
    ensures
        *final(c) == with_limits(*old(c)),
{
    c.application_protos = Some(ApplicationProtocol::H3);
    c.max_recv_udp_payload_size = Some(MAX_DATAGRAM_SIZE);
    c.max_send_udp_payload_size = Some(MAX_DATAGRAM_SIZE);
    c.initial_max_data = Some(MAX_DATA);
    c.initial_max_stream_data_bidi_local = Some(MAX_DATA);
    c.initial_max_stream_data_bidi_remote = Some(MAX_DATA);
    c.initial_max_stream_data_uni = Some(MAX_DATA);
    c.initial_max_streams_bidi = Some(MAX_DATA);
    c.initial_max_streams_uni = Some(MAX_DATA);
    c.initial_max_path_id = Some(MAX_PATH_ID);
    c.dgram_recv_queue = Some(DGRAM_QUEUE_LEN);
    c.dgram_send_queue = Some(DGRAM_QUEUE_LEN);
}

/// The configuration of the unicast connections of a source.
pub fn get_config(flexicast: bool) -> (c: Config)
    ensures
        c == (Config {
            disable_active_migration: Some(true),
            active_connection_id_limit: Some(10),
            early_data: Some(true),
            cc_algorithm: Some(CongestionControlAlgorithm::DISABLED),
            pacing: Some(false),
            enable_flexicast: Some(flexicast),
            fc_congestion_info_delay: Duration { nanos: 31_536_000_000_000_000 },
            ..with_limits(new_config())
        }),
{
    let mut c: Config = Config::new();
    set_limits(&mut c);
    c.disable_active_migration = Some(true);
    c.active_connection_id_limit = Some(10);
    c.early_data = Some(true);
    c.cc_algorithm = Some(CongestionControlAlgorithm::DISABLED);
    c.pacing = Some(false);
    c.enable_flexicast = Some(flexicast);
    // Congestion information is not used.
    c.set_fc_congestion_info_delay(Duration::from_secs(YEAR_SECS));
    c
}

/// The configuration of one end of a flexicast channel.
pub fn get_mc_config(enable_fc: bool) -> (c: Config)
    ensures
        c == (Config {
            active_connection_id_limit: Some(5),
            verify_peer: Some(false),
            enable_flexicast: Some(enable_fc),
            pacing: Some(false),
            cc_algorithm: Some(CongestionControlAlgorithm::DISABLED),
            ..with_limits(new_config())
        }),
{
    let mut c: Config = Config::new();
    set_limits(&mut c);
    c.active_connection_id_limit = Some(5);
    c.verify_peer = Some(false);
    c.enable_flexicast = Some(enable_fc);
    c.pacing = Some(false);
    c.cc_algorithm = Some(CongestionControlAlgorithm::DISABLED);
    c
}

/// Where the packets of a channel go: to the proxy, where there is one, and to the
/// group else. Without receivers they go nowhere.
pub fn flow_destination(
    proxy: Option<SocketAddr>,
    mc_addr: SocketAddr,
    number_receivers: u64,
) -> (r: Option<SocketAddr>)
    ensures
        r == if number_receivers == 0 {
            None
        } else if proxy is Some {
            proxy
        } else {
            Some(mc_addr)
        },
{
    if number_receivers == 0 {
        return None;
    }
    match proxy {
        Some(p) => Some(p),
        None => Some(mc_addr),
    }
}

/// What to do when a connection gives no packet to send.
#[derive(Clone, Copy, Debug, PartialEq, Eq, Structural)]
pub enum SendFailure {
    /// Send no more for now.
    Stop,
    /// Close the connection.
    Close,
}

/// What a source does when the connection with a client gives no packet to send:
/// all errors but the lack of packets close it.
pub fn after_send_error(e: Error) -> (r: SendFailure)
    ensures
        r == if e == Error::Done {
            SendFailure::Stop
        } else {
            SendFailure::Close
        },
{
    if e == Error::Done {
        SendFailure::Stop
    } else {
        SendFailure::Close
    }
}

/// Whether an error of the exchange between a unicast connection and its channel
/// ends the source: only one that says that flexicast is disabled does not.
pub fn is_fatal(e: Error) -> (r: bool)
    ensures
        r == (e != Error::Flexicast(FcError::McDisabled)),
{
    e != Error::Flexicast(FcError::McDisabled)
}

/// What became of a datagram.
#[derive(Clone, Copy, Debug, PartialEq, Eq, Structural)]
pub enum DatagramOutcome {
    /// It was sent.
    Sent,
    /// The channel took no more data.
    Full,
}

/// Handles the next RTP packet of `len` bytes for a channel: how many bytes were
/// handled, if there was a packet and the channel took it. Without receivers the
/// packet is dropped; `outcome` is what became of it where there are some.
pub fn send_rtp_data_datagram(
    len: Option<usize>,
    number_receivers: u64,
    outcome: DatagramOutcome,
) -> (r: Option<usize>)
    ensures
        r == if number_receivers > 0 && outcome == DatagramOutcome::Full {
            None
        } else {
            len
        },
{
    match len {
        None => None,
        Some(n) => {
            if number_receivers > 0 && outcome == DatagramOutcome::Full {
                return None;
            }
            Some(n)
        },
    }
}

/// There must be as many bitrates and logs as RTP sources, where they are given and flexicast is
/// enabled; the bitrates are looked at first.
pub proof fn options_go_with_the_sources(
    flexicast: bool,
    nb_bitrates: Option<usize>,
    nb_loggers: Option<usize>,
    nb_rtp: usize,
)
    ensures
        ({
            let e = args_error(flexicast, nb_bitrates, nb_loggers, nb_rtp);
            let bitrates = nb_bitrates matches Some(n) ==> n == nb_rtp;
            let loggers = nb_loggers matches Some(n) ==> n == nb_rtp;
            &&& e is None <==> !flexicast || (bitrates && loggers)
            &&& e == Some(ArgsError::Bitrates) <==> flexicast && !bitrates
            &&& e == Some(ArgsError::Loggers) <==> flexicast && bitrates && !loggers
        }),
{
}

/// There is one channel for each bitrate, in their order, or for each RTP source; none without
/// flexicast. The numbers count from zero.
pub proof fn channels_are_numbered(
    flexicast: bool,
    bitrates: Option<Seq<u64>>,
    nb_rtp: usize,
    i: int,
)
    requires
        bitrates matches Some(b) ==> b.len() <= 256,
        bitrates is None ==> nb_rtp < 256,
    ensures
        ({
            let r = channel_numbers(flexicast, bitrates, nb_rtp);
            &&& !flexicast ==> r.len() == 0
            &&& flexicast ==> r.len() == match bitrates {
                Some(b) => b.len(),
                None => nb_rtp as nat,
            }
            &&& 0 <= i < r.len() ==> r[i].idx == i
            &&& 0 <= i < r.len() ==> r[i].bitrate == match bitrates {
                Some(b) => Some(b[i]),
                None => None,
            }
        }),
{
}

/// The channel with a number has the group address and the port that come as many steps after
/// the first ones; only the last byte of the address differs. It is announced with the
/// identifier, the bitrate and the timer that are given, and as one to probe unless the options
/// say otherwise.
pub proof fn channels_come_one_after_the_other(
    args: ChannelArgs,
    idx: Option<u8>,
    bitrate: Option<u64>,
    id: Seq<u8>,
)
    requires
        channel_fits(args, idx),
    ensures
        ({
            let a = channel_announce(args, idx, bitrate, id);
            let first = args.mc_addr.ip->V4_0@;
            let n = match idx {
                Some(i) => i as int,
                None => 0,
            };
            &&& a.group_ip.len() == 4
            &&& a.group_ip[0] == first[0] && a.group_ip[1] == first[1] && a.group_ip[2] == first[2]
            &&& a.group_ip[3] == first[3] + n
            &&& a.udp_port == args.mc_addr.port + n
            &&& a.channel_id == id
            &&& a.bitrate == bitrate
            &&& a.expiration_timer == args.expiration_timer
            &&& a.probe_path == !args.no_path_probing
            &&& a.reset_stream_on_join
            &&& !a.is_ipv6_addr && !a.is_processed
            &&& a.public_key is None && a.fc_channel_algo is None && a.fc_channel_secret is None
            &&& a.source_ip == seq![127u8, 0u8, 0u8, 1u8]
            &&& a.qos.bits == 3
            &&& channel_number(idx) == n
        }),
{
}

/// All the connections speak HTTP/3, in datagrams of at most 1350 bytes, and have the same
/// limits: a hundred billion bytes and streams, a hundred paths and queues of ten thousand
/// datagrams. The rest of the configuration stays.
pub proof fn limits_are_those_of_all_connections(c: Config)
    ensures
        ({
            let d = with_limits(c);
            &&& d.application_protos == Some(ApplicationProtocol::H3)
            &&& d.max_recv_udp_payload_size == Some(1350usize)
            &&& d.max_send_udp_payload_size == Some(1350usize)
            &&& d.initial_max_data == Some(100_000_000_000u64)
            &&& d.initial_max_stream_data_bidi_local == Some(100_000_000_000u64)
            &&& d.initial_max_stream_data_bidi_remote == Some(100_000_000_000u64)
            &&& d.initial_max_stream_data_uni == Some(100_000_000_000u64)
            &&& d.initial_max_streams_bidi == Some(100_000_000_000u64)
            &&& d.initial_max_streams_uni == Some(100_000_000_000u64)
            &&& d.initial_max_path_id == Some(100u64)
            &&& d.dgram_recv_queue == Some(10_000usize)
            &&& d.dgram_send_queue == Some(10_000usize)
            &&& d.verify_peer == c.verify_peer && d.max_idle_timeout == c.max_idle_timeout
            &&& d.disable_active_migration == c.disable_active_migration
            &&& d.active_connection_id_limit == c.active_connection_id_limit
            &&& d.early_data == c.early_data && d.cc_algorithm == c.cc_algorithm
            &&& d.pacing == c.pacing && d.enable_flexicast == c.enable_flexicast
            &&& d.fc_congestion_info_delay == c.fc_congestion_info_delay
            &&& d.fc_congestion_heuristic == c.fc_congestion_heuristic
            &&& d.fc_throughput_window == c.fc_throughput_window
            &&& d.fc_exp3_conf == c.fc_exp3_conf
        }),
{
}

/// The configuration of a source: its clients may not change their address and use up to ten
/// connection identifiers, early data is taken, and packets are neither paced nor held back by
/// congestion control. Congestion information is sent once a year, that is never.
pub proof fn sources_are_configured(flexicast: bool, c: Config)
    requires
        call_ensures(get_config, (flexicast,), c),
    ensures
        c.enable_flexicast == Some(flexicast),
        c.disable_active_migration == Some(true),
        c.active_connection_id_limit == Some(10u64),
        c.early_data == Some(true),
        c.cc_algorithm == Some(CongestionControlAlgorithm::DISABLED),
        c.pacing == Some(false),
        c.fc_congestion_info_delay.nanos == 365 * 24 * 3600 * 1_000_000_000,
        c.max_send_udp_payload_size == Some(1350usize),
        c.initial_max_data == Some(100_000_000_000u64),
        c.max_idle_timeout is None,
        c.verify_peer is None,
{
}

/// The configuration of one end of a channel: no certificate is verified, up to five connection
/// identifiers are used, and packets are neither paced nor held back by congestion control.
pub proof fn channels_are_configured(enable_fc: bool, c: Config)
    requires
        call_ensures(get_mc_config, (enable_fc,), c),
    ensures
        c.enable_flexicast == Some(enable_fc),
        c.active_connection_id_limit == Some(5u64),
        c.verify_peer == Some(false),
        c.cc_algorithm == Some(CongestionControlAlgorithm::DISABLED),
        c.pacing == Some(false),
        c.max_send_udp_payload_size == Some(1350usize),
        c.initial_max_data == Some(100_000_000_000u64),
        c.disable_active_migration is None,
        c.early_data is None,
{
}

/// Packets of a channel go somewhere exactly if there are receivers: to the proxy where there is
/// one, and to the group else.
pub proof fn packets_go_to_the_proxy_or_the_group(
    proxy: Option<SocketAddr>,
    group: SocketAddr,
    n: u64,
    r: Option<SocketAddr>,
)
    requires
        call_ensures(flow_destination, (proxy, group, n), r),
    ensures
        r is Some <==> n >= 1,
        n >= 1 && proxy is Some ==> r == proxy,
        n >= 1 && proxy is None ==> r == Some(group),
{
}

/// A packet that the channel does not take is not handled, and has to be tried again; any other
/// one is handled with all its bytes, also where there is no receiver for it.
pub proof fn datagrams_are_handled_whole(
    len: Option<usize>,
    n: u64,
    outcome: DatagramOutcome,
    r: Option<usize>,
)
    requires
        call_ensures(send_rtp_data_datagram, (len, n, outcome), r),
    ensures
        r is Some <==> len is Some && (n == 0 || outcome is Sent),
        r is Some ==> r == len,
{
}

/// The lack of packets to send closes nothing, and the lack of flexicast ends no source; every other
/// error does.
pub proof fn only_real_errors_count(e: Error, r: SendFailure, fatal: bool)
    requires
        call_ensures(after_send_error, (e,), r),
        call_ensures(is_fatal, (e,), fatal),
    ensures
        r is Stop <==> e is Done,
        r is Close <==> !(e is Done),
        fatal <==> !(e is Flexicast && e->Flexicast_0 is McDisabled),
{
}

/// The channel with a number sends from the port and with the time to live that come as many
/// steps after those of the first one, and to the group that it announces.
pub proof fn channels_have_their_own_ports(
    args: ChannelArgs,
    idx: Option<u8>,
    bitrate: Option<u64>,
    id: Vec<u8>,
    c: FcChannelInfo,
)
    requires
        call_ensures(get_multicast_channel, (&args, idx, bitrate, id), c),
        channel_fits(args, idx),
    ensures
        ({
            let n = if idx is Some {
                idx->0 as int
            } else {
                0
            };
            &&& c.src_addr.ip == args.src_addr.ip
            &&& c.src_addr.port == 4434 + n
            &&& c.ttl == 56 + n
            &&& c.mc_addr.port == args.mc_addr.port + n
            &&& c.mc_addr.ip is V4
            &&& (c.mc_addr.ip->V4_0)@ == c.mc_announce_data@.group_ip
            &&& c.mc_announce_data@.channel_id == id@
            &&& c.mc_announce_data@.bitrate == bitrate
        }),
{
}

/// An RTP source is paced exactly if a type of pacer is given: at the rate of that type, with
/// bursts of at most ten packets of 1100 bytes.
pub proof fn paced_sources_have_short_bursts(
    t: Option<PacerType>,
    rates: ScaledRates,
    now: Instant,
    r: Option<TokenPacer>,
)
    requires
        call_ensures(rtp_pacer, (t, rates, now), r),
    ensures
        r is Some <==> t is Some,
        r matches Some(p) ==> p.buffer == 10 * 1100 && p.tokens == 0 && p.last_action_instant == now,
        t == Some(PacerType::Higher) ==> r->0.rate == rates.higher / 8,
        t == Some(PacerType::Optimal) ==> r->0.rate == rates.optimal / 8,
{
}

} // verus!
