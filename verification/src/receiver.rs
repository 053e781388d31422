//! Logic of a flexicast receiver.

use vstd::prelude::*;
use vstd::string::StringExecFns;
use vstd::utf8::decode_utf8;
use vstd::utf8::valid_utf8;

use crate::bytes::copy_bytes;
use crate::bytes::same_bytes;
use crate::config::new_config;
use crate::config::Config;
use crate::config::CongestionControlAlgorithm;
use crate::connection::Connection;
use crate::connection::ConnectionModel;
use crate::error::Error;
use crate::error::FcError;
use crate::error::McClientStatus;
use crate::error::McRole;
use crate::fc_app::channels::Channels;
use crate::fc_app::channels::ChannelsModel;
use crate::fc_app::recv_statistics::with_current;
use crate::fc_app::recv_statistics::ChannelStatsModel;
use crate::fc_app::recv_statistics::TimestampModel;
use crate::fc_app::rtp::header_of;
use crate::fc_app::rtp::RtpHeader;
use crate::fc_app::rtp::RTP_HEADER_LEN;
use crate::fc_app::rtp::VIDEO_PAYLOAD_TYPE;
use crate::flexicast::announce::announced;
use crate::fc_app::channels::socket_is_that_of_the_first_channel;
use crate::flexicast::congestion::config::EXP3Conf;
use crate::flexicast::congestion::config::FcCongestionConfig;
use crate::flexicast::congestion::control::FlexicastCongestionConnection;
use crate::flexicast::congestion::exp3::decision::Exp3Outside;
use crate::flexicast::congestion::exp3::Exp3Model;
use crate::flexicast::FlexicastModel;
use crate::net::SocketAddr;
use crate::rate::Float64;
use crate::source::set_limits;
use crate::source::with_limits;
use crate::source::SendFailure;
use crate::text::append_u64;
use crate::text::decimal;
use crate::time::since;
use crate::time::Duration;
use crate::time::Instant;

verus! {

/// Milliseconds without traffic after which a connection without flexicast is
/// closed.
pub const MAX_IDLE_TIMEOUT: u64 = 100_000;

/// Options of a receiver that its configuration depends on.
#[derive(Clone, Copy, Debug, PartialEq, Eq, Structural)]
pub struct ReceiverArgs {
    /// Whether flexicast is enabled.
    pub flexicast: bool,
    /// Migration timeout of EXP3.
    pub migration_timeout: Option<Duration>,
    /// Loss threshold of EXP3.
    pub loss_threshold: Option<Float64>,
    /// Length of the throughput window.
    pub throughput_time_window: Option<Duration>,
    /// Parameter k of EXP3.
    pub k: Option<Float64>,
    /// Parameter gamma of EXP3.
    pub gamma: Option<Float64>,
}

/// The configuration of EXP3 with the options that are given.
pub open spec fn exp3_options(args: ReceiverArgs, c: EXP3Conf) -> EXP3Conf {
    EXP3Conf {
        gamma: if args.gamma is Some {
            args.gamma
        } else {
            c.gamma
        },
        k: match args.k {
            Some(k) => k,
            None => c.k,
        },
        migration_timeout: match args.migration_timeout {
            Some(t) => t,
            None => c.migration_timeout,
        },
        loss_threshold: match args.loss_threshold {
            Some(t) => t,
            None => c.loss_threshold,
        },
        hard_loss_threshold: match args.loss_threshold {
            Some(t) => t.twice(),
            None => c.hard_loss_threshold,
        },
        ..c
    }
}

/// The configuration of a receiver.
pub open spec fn receiver_config(args: ReceiverArgs) -> Config {
    let c = Config {
        verify_peer: Some(false),
        max_idle_timeout: if args.flexicast {
            None
        } else {
            Some(MAX_IDLE_TIMEOUT)
        },
        active_connection_id_limit: Some(100),
        cc_algorithm: Some(CongestionControlAlgorithm::CUBIC),
        ..with_limits(new_config())
    };
    if args.flexicast {
        Config {
            enable_flexicast: Some(true),
            fc_throughput_window: match args.throughput_time_window {
                Some(w) => w,
                None => c.fc_throughput_window,
            },
            fc_exp3_conf: exp3_options(args, c.fc_exp3_conf),
            ..c
        }
    } else {
        c
    }
}

/// The configuration of a receiver.
pub fn get_config(args: &ReceiverArgs) -> (c: Config)
    ensures
        c == receiver_config(*args),
{
    let mut c: Config = Config::new();
    c.verify_peer = Some(false);
    if !args.flexicast {
        c.max_idle_timeout = Some(MAX_IDLE_TIMEOUT);
    }
    set_limits(&mut c);
    c.active_connection_id_limit = Some(100);
    c.cc_algorithm = Some(CongestionControlAlgorithm::CUBIC);
    if args.flexicast {
        c.enable_flexicast = Some(args.flexicast);
        if let Some(gamma) = args.gamma {
            c.set_fc_exp3_gamma(Some(gamma));
        }
        if let Some(k) = args.k {
            c.set_fc_exp3_k(k);
        }
        if let Some(t) = args.migration_timeout {
            c.set_fc_exp3_migration_timeout(t);
        }
        if let Some(w) = args.throughput_time_window {
            c.set_fc_throughput_window(w);
        }
        if let Some(t) = args.loss_threshold {
            c.set_fc_exp3_loss_threshold(t);
        }
    }
    c
}

/// The address to bind the unicast socket to: any address of the family of the
/// server.
pub fn bind_address(is_ipv4: bool, port: u16) -> (r: String)
    ensures
        r@ == (if is_ipv4 {
            "0.0.0.0:"@
        } else {
            "[::]:"@
        }) + decimal(port as int),
{
    let mut s: String = String::new();
    if is_ipv4 {
        s.append("0.0.0.0:");
        assert(s@ =~= "0.0.0.0:"@);
    } else {
        s.append("[::]:");
        assert(s@ =~= "[::]:"@);
    }
    append_u64(&mut s, port as u64);
    s
}

/// How long to wait for packets, unless the time to listen is over: until the
/// timeout of the connection or the end of the time to listen.
pub fn listen_timeout(
    start: Instant,
    now: Instant,
    listen_duration: Duration,
    conn_timeout: Option<Duration>,
) -> (r: Option<Duration>)
    ensures
        ({
            let passed = since(now.nanos as int, start.nanos as int);
            if passed > listen_duration.nanos {
                r is None
            } else {
                let left = listen_duration.nanos - passed;
                r matches Some(d) && d.nanos == match conn_timeout {
                    Some(t) => if t.nanos <= left {
                        t.nanos as int
                    } else {
                        left
                    },
                    None => left,
                }
            }
        }),
{
    let elapsed: Duration = now.duration_since(start);
    if elapsed.nanos > listen_duration.nanos {
        return None;
    }
    let left: Duration = listen_duration.saturating_sub(elapsed);
    match conn_timeout {
        Some(t) => Some(t.min(left)),
        None => Some(left),
    }
}

/// The socket that sends a packet.
#[derive(Clone, Copy, Debug, PartialEq, Eq, Structural)]
pub enum OutSocket {
    /// The unicast socket.
    Unicast,
    /// The socket of a channel.
    Channel(u64),
    /// There is none.
    Unknown,
}

/// The socket that sends a packet from the port `src_port`.
pub fn out_socket(src_port: u16, unicast_port: u16, channels: &Channels) -> (r: OutSocket)
    ensures
        r == if src_port == unicast_port {
            OutSocket::Unicast
        } else {
            match crate::fc_app::channels::socket_at(channels@.channels, src_port) {
                Some(n) => OutSocket::Channel(n),
                None => OutSocket::Unknown,
            }
        },
{
    if src_port == unicast_port {
        return OutSocket::Unicast;
    }
    match channels.get_socket(src_port) {
        Some(n) => OutSocket::Channel(n),
        None => OutSocket::Unknown,
    }
}

/// What a receiver does when its connection gives no packet to send: the lack of
/// packets and that of the flexicast path, which it may just have left, are no
/// reason to close it.
pub fn after_send_error(e: Error) -> (r: SendFailure)
    ensures
        r == if e == Error::Done || e == Error::Flexicast(FcError::McPath) {
            SendFailure::Stop
        } else {
            SendFailure::Close
        },
{
    if e == Error::Done || e == Error::Flexicast(FcError::McPath) {
        SendFailure::Stop
    } else {
        SendFailure::Close
    }
}

/// Whether a receiver with a role prepares the channel that it is to join: it knows
/// one and has not joined it, or changes its channel.
pub fn prepares_channel(role: McRole) -> (r: bool)
    ensures
        r == (role == McRole::Client(McClientStatus::AwareUnjoined) || role == McRole::Client(
            McClientStatus::Changing,
        )),
{
    role == McRole::Client(McClientStatus::AwareUnjoined) || role == McRole::Client(
        McClientStatus::Changing,
    )
}

/// A header of an HTTP/3 message.
#[derive(Debug)]
pub struct Header {
    /// Name.
    pub name: Vec<u8>,
    /// Value.
    pub value: Vec<u8>,
}

/// The text that bytes stand for, with replacement characters in place of what is
/// not UTF-8.
pub uninterp spec fn utf8_lossy(bytes: Seq<u8>) -> Seq<char>;

/// The text of a field of a header: the characters that the bytes encode, with
/// replacement characters where they are not UTF-8.
pub open spec fn field_text(bytes: Seq<u8>) -> Seq<char> {
    if valid_utf8(bytes) {
        decode_utf8(bytes)
    } else {
        utf8_lossy(bytes)
    }
}

/// The function `String::from_utf8_lossy` of the standard library. The text
/// depends on the bytes alone, and valid UTF-8 is decoded as it is. Where the
/// replacement characters stand in other text is left unsaid.
#[verifier::external_body]
fn from_utf8_lossy(bytes: &Vec<u8>) -> (r: String)
    ensures
        r@ == utf8_lossy(bytes@),
        valid_utf8(bytes@) ==> r@ == decode_utf8(bytes@),
{
    String::from_utf8_lossy(bytes).to_string()
}

/// The names and values of some headers as text.
pub fn hdrs_to_strings(hdrs: &Vec<Header>) -> (r: Vec<(String, String)>)
    ensures
        r@.len() == hdrs@.len(),
        forall|i: int|
            0 <= i < r@.len() ==> (#[trigger] r@[i]).0@ == field_text(hdrs@[i].name@)
                && r@[i].1@ == field_text(hdrs@[i].value@),
{
    let mut r: Vec<(String, String)> = Vec::new();
    let mut i: usize = 0;
    while i < hdrs.len()
        invariant
            i <= hdrs@.len(),
            r@.len() == i,
            forall|k: int|
                0 <= k < i ==> (#[trigger] r@[k]).0@ == field_text(hdrs@[k].name@) && r@[k].1@
                    == field_text(hdrs@[k].value@),
        decreases hdrs@.len() - i,
    {
        let name: String = from_utf8_lossy(&hdrs[i].name);
        let value: String = from_utf8_lossy(&hdrs[i].value);
        r.push((name, value));
        i += 1;
    }
    r
}

/// What a receiver does about a change of channel.
#[derive(Clone, Copy, Debug)]
pub enum MigrateAction {
    /// Nothing.
    Nothing,
    /// The receiver stays on its channel.
    Stayed,
    /// The receiver joins another channel.
    Joining,
    /// The receiver leaves its channel: the path from this address is abandoned.
    Leaving(SocketAddr),
}

/// The channel that a receiver is to join: the one that it is changing to, or the
/// one that the heuristic chooses.
pub open spec fn wanted_channel(
    conn: ConnectionModel,
    m: ChannelsModel,
    now: Instant,
    outside: Exp3Outside,
) -> Option<Seq<u8>> {
    if m.changing_cid is Some {
        m.changing_cid
    } else if conn.is_receiver() {
        conn.flexicast->0.choice(now, outside)
    } else {
        None
    }
}

/// The connection once the heuristic was asked, where no change is under way.
pub open spec fn asked_connection(
    conn: ConnectionModel,
    m: ChannelsModel,
    now: Instant,
    outside: Exp3Outside,
) -> ConnectionModel {
    if m.changing_cid is None && conn.is_receiver() {
        conn.with_flexicast(conn.flexicast->0.decided(now, outside))
    } else {
        conn
    }
}

/// The flexicast state once the receiver is on the channel that was decided.
pub open spec fn arrived(f: FlexicastModel, now: Instant) -> FlexicastModel {
    f.with_exp3(
        Exp3Model {
            last_taken_action_instant: now,
            taken_action: false,
            ..f.congestion.exp3
        },
    )
}

/// Whether the announcement of a channel is known and a channel was joined, and the
/// bitrate too where the change is done at once.
pub open spec fn channel_known(f: FlexicastModel, id: Seq<u8>, m: ChannelsModel) -> bool {
    &&& f.active() is Some
    &&& f.index_of(id) matches Some(i) && 0 <= i < f.announces.len() && (f.active()->0.channel_id
        == id || m.channels.len() == 0 ==> f.announces[i].bitrate is Some)
}

/// Changes the channel of a receiver where the heuristic asks for it: leaves the
/// current channel first, and joins the new one once no channel is left.
#[verifier::rlimit(40)]
pub fn check_migrate(
    auto_migration: bool,
    conn: &mut Connection,
    mc_states: &mut Channels,
    now: Instant,
    outside: Exp3Outside,
) -> (r: MigrateAction)
    requires
        old(conn).wf(),
        auto_migration && old(mc_states)@.changing_cid is None ==> old(conn).can_decide(
            now,
            outside,
        ),
        auto_migration && wanted_channel(old(conn)@, old(mc_states)@, now, outside) is Some
            && old(conn)@.flexicast is Some ==> channel_known(
            old(conn)@.flexicast->0,
            wanted_channel(old(conn)@, old(mc_states)@, now, outside)->0,
            old(mc_states)@,
        ),
    ensures
        final(conn).wf(),
        ({
            let m = old(mc_states)@;
            let wanted = wanted_channel(old(conn)@, m, now, outside);
            let asked = asked_connection(old(conn)@, m, now, outside);
            let changing = ChannelsModel { changing_cid: wanted, ..m };
            if !auto_migration {
                &&& r is Nothing
                &&& final(conn)@ == old(conn)@
                &&& final(mc_states)@ == m
            } else if wanted is None || old(conn)@.flexicast is None {
                &&& r is Nothing
                &&& final(conn)@ == asked
                &&& final(mc_states)@ == changing
            } else {
                let f = old(conn)@.flexicast->0;
                let idx = f.index_of(wanted->0)->0 as usize;
                let a = old(conn).flexicast->0.mc_announce_data@[idx as int];
                let bitrate = f.announces[idx as int].bitrate->0;
                if f.active()->0.channel_id == wanted->0 {
                    &&& r is Stayed
                    &&& final(conn)@ == asked.with_flexicast(arrived(asked.flexicast->0, now))
                    &&& final(mc_states)@ == changing.migrated(idx, bitrate)
                } else if m.channels.len() == 0 {
                    &&& r is Joining
                    &&& final(conn)@ == asked
                    &&& final(mc_states)@ == changing.migrated(idx, bitrate).joined(idx, a)
                } else {
                    &&& final(conn)@ == asked
                    &&& match m.current() {
                        Some(s) => {
                            &&& r == MigrateAction::Leaving(s.bind_addr)
                            &&& final(mc_states)@ == (ChannelsModel {
                                channels: m.channels.map_values(
                                    |c: crate::fc_app::channels::ChannelState|
                                        crate::fc_app::channels::leaving(c, s.fc_chan_idx),
                                ),
                                ..changing
                            })
                        },
                        None => r is Nothing && final(mc_states)@ == changing,
                    }
                }
            }
        }),
{
    if !auto_migration {
        return MigrateAction::Nothing;
    }
    let ghost m = mc_states@;
    let ghost announces = conn.flexicast->0.mc_announce_data@;
    if mc_states.changing_cid.is_none() {
        mc_states.changing_cid = conn.fc_should_change_channel(now, outside);
    }
    let channel_id: Vec<u8> = match &mc_states.changing_cid {
        Some(id) => copy_bytes(id),
        None => {
            return MigrateAction::Nothing;
        },
    };
    let (new_idx, bitrate, stays): (usize, u64, bool) = match &conn.flexicast {
        None => {
            return MigrateAction::Nothing;
        },
        Some(f) => {
            let idx: usize = match f.get_mc_announce_data_index(&channel_id) {
                Some(i) => i,
                None => 0,
            };
            let bitrate: u64 = match f.mc_announce_data[idx].bitrate {
                Some(b) => b,
                None => 0,
            };
            let stays: bool = match f.get_mc_announce_data_active() {
                Some(a) => same_bytes(&a.channel_id, &channel_id),
                None => false,
            };
            (idx, bitrate, stays)
        },
    };
    if stays {
        // The receiver stays, and measures its channel anew.
        mc_states.migration_done(new_idx, bitrate);
        conn.fc_did_change_channel(now);
        return MigrateAction::Stayed;
    }
    if mc_states.channels().len() == 0 {
        mc_states.migration_done(new_idx, bitrate);
        if let Some(f) = &conn.flexicast {
            proof {
                let known = announces[new_idx as int];
                let current = f.mc_announce_data@[new_idx as int];
                assert(announced(announces)[new_idx as int] == known@);
                assert(announced(f.mc_announce_data@)[new_idx as int] == current@);
                assert(known.group_ip =~= current.group_ip);
            }
            mc_states.join_channel(new_idx, &f.mc_announce_data[new_idx]);
        }
        return MigrateAction::Joining;
    }
    let current: Option<(SocketAddr, usize)> = match mc_states.joined_channel() {
        Some(s) => Some((s.bind_addr, s.fc_chan_idx)),
        None => None,
    };
    match current {
        Some(c) => {
            mc_states.leave_channel(c.1);
            MigrateAction::Leaving(c.0)
        },
        None => MigrateAction::Nothing,
    }
}

/// The statistics of a receiver once a packet with a timestamp came, at the given
/// rates of lost packets.
pub open spec fn noted_packet(
    s: Seq<ChannelStatsModel>,
    timestamp: u32,
    loss_rate: Float64,
    instant_loss_rate: Float64,
) -> Seq<ChannelStatsModel> {
    let t = s.last().at(timestamp);
    with_current(
        s,
        timestamp,
        TimestampModel {
            recv: (t.recv + 1) as usize,
            losses: t.losses.push(loss_rate),
            instant_losses: t.instant_losses.push(instant_loss_rate),
        },
    )
}

/// The channels once an RTP packet came: only video packets count.
pub open spec fn noted(
    m: ChannelsModel,
    h: RtpHeader,
    loss_rate: Float64,
    instant_loss_rate: Float64,
) -> ChannelsModel {
    if h.payload_type == VIDEO_PAYLOAD_TYPE {
        ChannelsModel {
            max_timestamp: if h.timestamp > m.max_timestamp {
                h.timestamp
            } else {
                m.max_timestamp
            },
            stats: noted_packet(m.stats, h.timestamp, loss_rate, instant_loss_rate),
            ..m
        }
    } else {
        m
    }
}

proof fn lemma_noted(
    s: Seq<ChannelStatsModel>,
    timestamp: u32,
    loss_rate: Float64,
    instant_loss_rate: Float64,
)
    requires
        s.len() > 0,
    ensures
        ({
            let t = s.last().at(timestamp);
            let a = with_current(
                s,
                timestamp,
                TimestampModel { losses: t.losses.push(loss_rate), ..t },
            );
            let u = a.last().at(timestamp);
            let b = with_current(
                a,
                timestamp,
                TimestampModel { instant_losses: u.instant_losses.push(instant_loss_rate), ..u },
            );
            let v = b.last().at(timestamp);
            &&& a.len() == s.len()
            &&& b.len() == s.len()
            &&& v.recv == t.recv
            &&& with_current(
                b,
                timestamp,
                TimestampModel { recv: (v.recv + 1) as usize, ..v },
            ) == noted_packet(s, timestamp, loss_rate, instant_loss_rate)
        }),
{
    let key = timestamp as i64;
    let t = s.last().at(timestamp);
    let a = with_current(s, timestamp, TimestampModel { losses: t.losses.push(loss_rate), ..t });
    let u = a.last().at(timestamp);
    let b = with_current(
        a,
        timestamp,
        TimestampModel { instant_losses: u.instant_losses.push(instant_loss_rate), ..u },
    );
    let v = b.last().at(timestamp);
    let c = with_current(b, timestamp, TimestampModel { recv: (v.recv + 1) as usize, ..v });
    let goal = noted_packet(s, timestamp, loss_rate, instant_loss_rate);
    assert(c.last().timestamps =~= goal.last().timestamps);
    assert(c =~= goal);
}

/// Handles a datagram with an RTP packet at the start of the receive buffer, at the
/// rates of lost packets that follow from it. Returns the position of the channel
/// that is joined.
pub fn process_video_data_datagram(
    conn: &mut Connection,
    channels: &mut Channels,
    buf: &Vec<u8>,
    loss_rate: Float64,
    instant_loss_rate: Float64,
) -> (r: Option<usize>)
    requires
        old(conn).wf(),
        buf@.len() >= RTP_HEADER_LEN,
        header_of(buf@).payload_type == VIDEO_PAYLOAD_TYPE ==> {
            &&& old(channels)@.stats.len() > 0
            &&& old(channels)@.stats.last().at(header_of(buf@).timestamp).recv < usize::MAX
        },
    ensures
        final(conn).wf(),
        final(conn)@ == old(conn)@.with_loss_rate(loss_rate),
        final(channels)@ == noted(
            old(channels)@,
            header_of(buf@),
            loss_rate,
            instant_loss_rate,
        ),
        r == match old(channels)@.current() {
            Some(s) => Some(s.fc_chan_idx),
            None => None,
        },
{
    let rtp: RtpHeader = RtpHeader::from_bytes(buf);
    if rtp.payload_type == VIDEO_PAYLOAD_TYPE {
        proof {
            lemma_noted(channels@.stats, rtp.timestamp, loss_rate, instant_loss_rate);
        }
        channels.received_timestamp(rtp.timestamp);
        channels.stats.record_loss(rtp.timestamp, loss_rate);
        channels.stats.record_instant_loss(rtp.timestamp, instant_loss_rate);
        channels.stats.record_recv(rtp.timestamp);
    }
    conn.update_app_data_loss(loss_rate);
    match channels.joined_channel() {
        Some(s) => Some(s.fc_chan_idx),
        None => None,
    }
}

/// The options that are given replace what is configured, and the others leave it. A loss
/// threshold sets the hard one too, to twice its value.
pub proof fn given_options_are_used(args: ReceiverArgs, c: EXP3Conf)
    ensures
        ({
            let e = exp3_options(args, c);
            &&& args.gamma is Some ==> e.gamma == args.gamma
            &&& args.gamma is None ==> e.gamma == c.gamma
            &&& args.k is Some ==> e.k == args.k->0
            &&& args.k is None ==> e.k == c.k
            &&& args.migration_timeout is Some ==> e.migration_timeout == args.migration_timeout->0
            &&& args.migration_timeout is None ==> e.migration_timeout == c.migration_timeout
            &&& args.loss_threshold is Some ==> e.loss_threshold == args.loss_threshold->0
                && e.hard_loss_threshold == args.loss_threshold->0.twice()
            &&& args.loss_threshold is None ==> e.loss_threshold == c.loss_threshold
                && e.hard_loss_threshold == c.hard_loss_threshold
            &&& e.rewarder == c.rewarder
        }),
{
}

/// A receiver does not verify the source, uses up to a hundred connection identifiers and CUBIC.
/// With flexicast its connection never times out and takes the options that are given; without
/// it, the connection is closed after a hundred seconds without traffic and the options are
/// not looked at.
pub proof fn receivers_are_configured(args: ReceiverArgs)
    ensures
        ({
            let c = receiver_config(args);
            let d = with_limits(new_config());
            &&& c.verify_peer == Some(false)
            &&& c.active_connection_id_limit == Some(100u64)
            &&& c.cc_algorithm == Some(CongestionControlAlgorithm::CUBIC)
            &&& args.flexicast ==> {
                &&& c.max_idle_timeout is None
                &&& c.enable_flexicast == Some(true)
                &&& args.throughput_time_window is Some ==> c.fc_throughput_window
                    == args.throughput_time_window->0
                &&& args.throughput_time_window is None ==> c.fc_throughput_window.nanos
                    == 5_000_000_000
                &&& c.fc_exp3_conf == exp3_options(args, d.fc_exp3_conf)
            }
            &&& !args.flexicast ==> {
                &&& c.max_idle_timeout == Some(100_000u64)
                &&& c.enable_flexicast is None
                &&& c.fc_throughput_window.nanos == 5_000_000_000
                &&& c.fc_exp3_conf == d.fc_exp3_conf
            }
            &&& c.initial_max_data == d.initial_max_data
            &&& c.application_protos == d.application_protos
            &&& c.dgram_recv_queue == d.dgram_recv_queue
            &&& c.fc_congestion_info_delay.nanos == 100_000_000
        }),
{
}

/// A change that is under way goes on: the heuristic is asked only where there is none, and only
/// on the connection of a receiver.
pub proof fn changes_are_finished_first(
    conn: ConnectionModel,
    m: ChannelsModel,
    now: Instant,
    outside: Exp3Outside,
)
    ensures
        m.changing_cid is Some ==> wanted_channel(conn, m, now, outside) == m.changing_cid
            && asked_connection(conn, m, now, outside) == conn,
        m.changing_cid is None && !conn.is_receiver() ==> wanted_channel(conn, m, now, outside)
            is None && asked_connection(conn, m, now, outside) == conn,
        m.changing_cid is None && conn.is_receiver() ==> wanted_channel(conn, m, now, outside)
            == conn.flexicast->0.choice(now, outside) && asked_connection(
            conn,
            m,
            now,
            outside,
        ).flexicast == Some(conn.flexicast->0.decided(now, outside)) && asked_connection(
            conn,
            m,
            now,
            outside,
        ).streams == conn.streams,
{
}

/// A receiver that is on the channel that was decided may take its next action once the timeout
/// has passed from then on; nothing else of the heuristic changes.
pub proof fn arrivals_are_reported(f: FlexicastModel, now: Instant)
    ensures
        ({
            let e = arrived(f, now).congestion.exp3;
            let was = f.congestion.exp3;
            &&& !e.taken_action
            &&& e.last_taken_action_instant == now
            &&& e.last_taken_action == was.last_taken_action
            &&& e.failed_increase_count == was.failed_increase_count
            &&& e.ban_increase_rounds == was.ban_increase_rounds
            &&& e.previous_channel == was.previous_channel
            &&& e.instances == was.instances && e.channels == was.channels
            &&& arrived(f, now).announces == f.announces
            &&& arrived(f, now).fc_chan_id == f.fc_chan_id
            &&& arrived(f, now).congestion.stats == f.congestion.stats
        }),
{
}

/// A video packet, one with the payload type 96, counts once for its timestamp on the current
/// channel, with the rates of lost packets at that time, and its timestamp is the largest one if no
/// larger one came. Other packets are not noted. The channels, the other timestamps and the
/// former channels stay.
pub proof fn video_packets_are_noted(
    m: ChannelsModel,
    h: RtpHeader,
    loss_rate: Float64,
    instant_loss_rate: Float64,
    other: u32,
    i: int,
)
    requires
        m.stats.len() > 0,
        m.stats.last().at(h.timestamp).recv < usize::MAX,
        other != h.timestamp,
        0 <= i < m.stats.len() - 1,
    ensures
        ({
            let after = noted(m, h, loss_rate, instant_loss_rate);
            let t = m.stats.last().at(h.timestamp);
            let u = after.stats.last().at(h.timestamp);
            &&& h.payload_type != 96 ==> after == m
            &&& h.payload_type == 96 ==> {
                &&& after.stats.len() == m.stats.len()
                &&& u.recv == t.recv + 1
                &&& u.losses.len() == t.losses.len() + 1
                &&& u.losses.last() == loss_rate
                &&& u.losses.drop_last() == t.losses
                &&& u.instant_losses.len() == t.instant_losses.len() + 1
                &&& u.instant_losses.last() == instant_loss_rate
                &&& u.instant_losses.drop_last() == t.instant_losses
                &&& after.stats.last().at(other) == m.stats.last().at(other)
                &&& after.stats.last().migration == m.stats.last().migration
                &&& after.stats[i] == m.stats[i]
                &&& after.max_timestamp >= h.timestamp && after.max_timestamp >= m.max_timestamp
                &&& after.max_timestamp == h.timestamp || after.max_timestamp == m.max_timestamp
                &&& after.channels == m.channels
                &&& after.changing_cid == m.changing_cid
                &&& after.max_stream == m.max_stream
            }
        }),
{
    let t = m.stats.last().at(h.timestamp);
    assert(t.losses.push(loss_rate).drop_last() =~= t.losses);
    assert(t.instant_losses.push(instant_loss_rate).drop_last() =~= t.instant_losses);
}

/// Text in UTF-8 is read as it is.
pub proof fn utf8_is_read_as_it_is(bytes: Seq<u8>)
    requires
        valid_utf8(bytes),
    ensures
        field_text(bytes) == decode_utf8(bytes),
{
}

/// A receiver listens until its time is over: it waits for what is left of it, or less where the
/// connection has an earlier timeout.
pub proof fn receivers_listen_for_their_time(
    start: Instant,
    now: Instant,
    span: Duration,
    timeout: Option<Duration>,
    r: Option<Duration>,
)
    requires
        call_ensures(listen_timeout, (start, now, span, timeout), r),
        start.nanos <= now.nanos,
    ensures
        r is None <==> now.nanos > start.nanos + span.nanos,
        r matches Some(d) ==> now.nanos + d.nanos <= start.nanos + span.nanos && (
        timeout matches Some(t) ==> d.nanos <= t.nanos) && (now.nanos + d.nanos == start.nanos
            + span.nanos || timeout == Some(d)),
{
    if let Some(d) = r {
        assert((Duration { nanos: d.nanos }) == d);
    }
}

/// Packets leave through the unicast socket from its port, and through the socket of a channel from
/// the port of the channel.
pub proof fn packets_leave_through_the_socket_of_their_port(
    port: u16,
    unicast: u16,
    channels: Channels,
    r: OutSocket,
    i: int,
)
    requires
        call_ensures(out_socket, (port, unicast, &channels), r),
    ensures
        r is Unicast <==> port == unicast,
        port != unicast && 0 <= i < channels@.channels.len() && channels@.channels[i].bind_addr.port
            == port && (forall|j: int|
            0 <= j < i ==> (#[trigger] channels@.channels[j]).bind_addr.port != port) ==> r
            == match channels@.channels[i].mc_socket {
            Some(n) => OutSocket::Channel(n),
            None => OutSocket::Unknown,
        },
{
    socket_is_that_of_the_first_channel(channels@.channels, port, i);
}

/// A receiver keeps its connection where there is nothing to send, or where its flexicast path is
/// gone; any other error closes it. It prepares a channel while it knows one and has not joined
/// it, and while it changes its channel.
pub proof fn receivers_survive_the_loss_of_their_path(e: Error, r: SendFailure, role: McRole, p: bool)
    requires
        call_ensures(after_send_error, (e,), r),
        call_ensures(prepares_channel, (role,), p),
    ensures
        r is Stop <==> e is Done || (e is Flexicast && e->Flexicast_0 is McPath),
        p <==> role is Client && (role->Client_0 is AwareUnjoined || role->Client_0 is Changing),
{
}

/// A receiver that is to change its channel first leaves the one that it has joined, and joins the
/// new one once it is on none. Where the channel is its own one, it stays, and the heuristic
/// goes on. Without automatic changes nothing happens.
pub proof fn receivers_leave_before_they_join(
    auto_migration: bool,
    conn: &mut Connection,
    st: &mut Channels,
    now: Instant,
    outside: Exp3Outside,
    r: MigrateAction,
)
    requires
        call_ensures(check_migrate, (auto_migration, conn, st, now, outside), r),
        auto_migration && wanted_channel(old(conn)@, old(st)@, now, outside) is Some && old(conn)@.flexicast is Some ==> channel_known(
            old(conn)@.flexicast->0,
            wanted_channel(old(conn)@, old(st)@, now, outside)->0,
            old(st)@,
        ),
        old(conn)@.flexicast is Some ==> old(conn)@.flexicast->0.announces.len() <= usize::MAX,
    ensures
        ({
            let before = old(st)@.channels;
            let after = final(st)@.channels;
            let wanted = wanted_channel(old(conn)@, old(st)@, now, outside);
            let f = old(conn)@.flexicast->0;
            let asked = old(conn)@.flexicast is Some && wanted is Some;
            let other = asked && f.active()->0.channel_id != wanted->0;
            &&& !auto_migration ==> r is Nothing && final(conn)@ == old(conn)@ && final(st)@ == old(st)@
            &&& auto_migration && !asked ==> r is Nothing && after == before
            &&& r is Stayed <==> auto_migration && asked && !other
            &&& r is Joining <==> auto_migration && other && before.len() == 0
            &&& r is Leaving <==> auto_migration && other && before.len() > 0
                && before[0].lifetime is Joined
            &&& r is Stayed ==> after == before && final(st)@.changing_cid is None && !final(conn)@.flexicast->0.congestion.exp3.taken_action
            &&& r is Joining ==> {
                &&& after.len() == 1
                &&& after[0].lifetime is ProvideCid
                &&& after[0].fc_chan_idx < f.announces.len()
                &&& f.announces[after[0].fc_chan_idx as int].channel_id == wanted->0
                &&& final(st)@.changing_cid is None
            }
            &&& r is Leaving ==> {
                &&& r->0 == before[0].bind_addr
                &&& after.len() == before.len()
                &&& after[0].lifetime is Leaving
                &&& final(st)@.changing_cid == wanted
            }
            &&& auto_migration && other && r is Nothing ==> after == before && final(st)@.changing_cid == wanted
        }),
{
    if auto_migration && old(conn)@.flexicast is Some {
        let wanted = wanted_channel(old(conn)@, old(st)@, now, outside);
        if let Some(id) = wanted {
            let f = old(conn)@.flexicast->0;
            let i = f.index_of(id)->0;
            crate::flexicast::announce::announce_index_is_the_first(f.announces, id, i);
        }
    }
}

/// A socket of a receiver is bound to any address of its family.
pub proof fn sockets_are_bound_to_any_address(port: u16, a: String, b: String)
    requires
        call_ensures(bind_address, (true, port), a),
        call_ensures(bind_address, (false, port), b),
    ensures
        a@.take(8) == "0.0.0.0:"@,
        b@.take(5) == "[::]:"@,
        a@.skip(8) == decimal(port as int),
        b@.skip(5) == decimal(port as int),
{
    reveal_strlit("0.0.0.0:");
    reveal_strlit("[::]:");
    assert(a@.take(8) =~= "0.0.0.0:"@);
    assert(b@.take(5) =~= "[::]:"@);
    assert(a@.skip(8) =~= decimal(port as int));
    assert(b@.skip(5) =~= decimal(port as int));
}

} // verus!
