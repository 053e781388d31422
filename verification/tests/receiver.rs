use flexicast::config::ApplicationProtocol;
use flexicast::config::CongestionControlAlgorithm;
use flexicast::connection::Connection;
use flexicast::error::Error;
use flexicast::error::FcError;
use flexicast::error::McClientStatus;
use flexicast::error::McRole;
use flexicast::fc_app::channels::ChannelLifetime;
use flexicast::fc_app::channels::Channels;
use flexicast::flexicast::announce::FcQos;
use flexicast::flexicast::announce::McAnnounceData;
use flexicast::flexicast::congestion::exp3::decision::Exp3Outside;
use flexicast::flexicast::congestion::FcCongestionState;
use flexicast::flexicast::reliable::ReliableFc;
use flexicast::flexicast::FlexicastAttributes;
use flexicast::net::IpAddr;
use flexicast::net::SocketAddr;
use flexicast::path::Path;
use flexicast::path::PathMap;
use flexicast::rate::Float64;
use flexicast::receiver::after_send_error;
use flexicast::receiver::bind_address;
use flexicast::receiver::check_migrate;
use flexicast::receiver::get_config;
use flexicast::receiver::hdrs_to_strings;
use flexicast::receiver::listen_timeout;
use flexicast::receiver::out_socket;
use flexicast::receiver::prepares_channel;
use flexicast::receiver::process_video_data_datagram;
use flexicast::receiver::Header;
use flexicast::receiver::MigrateAction;
use flexicast::receiver::OutSocket;
use flexicast::receiver::ReceiverArgs;
use flexicast::recovery::Recovery;
use flexicast::source::SendFailure;
use flexicast::stream::StreamMap;
use flexicast::time::Duration;
use flexicast::time::Instant;

fn float(x: f64) -> Float64 {
    Float64 { bits: x.to_bits() }
}

fn announce(id: u8) -> McAnnounceData {
    McAnnounceData {
        channel_id: vec![id],
        is_ipv6_addr: false,
        probe_path: false,
        reset_stream_on_join: true,
        source_ip: [127, 0, 0, 1],
        group_ip: [239, 1, 2, id],
        udp_port: 6000 + id as u16,
        public_key: None,
        expiration_timer: 600,
        is_processed: false,
        bitrate: Some(1000 * id as u64),
        fc_channel_algo: None,
        fc_channel_secret: None,
        qos: FcQos::throughput_and_delay(),
    }
}

fn connection(active: usize) -> Connection {
    let rtt = Duration::from_millis(40);
    let paths = PathMap::new(Path { path_id: 0, recovery: Recovery::new(rtt, 500) });
    let mut c = Connection::new(paths, StreamMap::new(10));
    c.flexicast = Some(FlexicastAttributes {
        mc_role: McRole::Client(McClientStatus::ListenMcPath(true)),
        fc_path_id: None,
        fc_first_pn: None,
        fc_reliable: ReliableFc::Undefined,
        fc_chan_id: Some((vec![active as u8 + 1], active)),
        mc_announce_data: vec![announce(1), announce(2)],
        congestion_state: FcCongestionState::with_defaults(Instant { nanos: 0 }),
    });
    c
}

fn outside(drawn: usize) -> Exp3Outside {
    Exp3Outside {
        throughput: 900,
        first_probas: vec![float(0.25); 3],
        reward: float(0.5),
        weights: vec![float(0.2), float(0.3), float(0.5)],
        probas: vec![float(0.3), float(0.3), float(0.4)],
        drawn,
    }
}

const NO_OPTIONS: ReceiverArgs = ReceiverArgs {
    flexicast: false,
    migration_timeout: None,
    loss_threshold: None,
    throughput_time_window: None,
    k: None,
    gamma: None,
};

#[test]
fn options_shape_the_configuration() {
    let c = get_config(&NO_OPTIONS);
    assert_eq!(c.application_protos, Some(ApplicationProtocol::H3));
    assert_eq!((c.max_idle_timeout, c.enable_flexicast), (Some(100_000), None));
    assert_eq!(c.active_connection_id_limit, Some(100));
    assert_eq!(c.cc_algorithm, Some(CongestionControlAlgorithm::CUBIC));
    // Options of the heuristic count with flexicast only.
    let args = ReceiverArgs {
        migration_timeout: Some(Duration::from_secs(7)),
        loss_threshold: Some(float(0.02)),
        throughput_time_window: Some(Duration::from_secs(9)),
        k: Some(float(3.0)),
        gamma: Some(float(0.5)),
        ..NO_OPTIONS
    };
    assert_eq!(get_config(&args), c);
    let c = get_config(&ReceiverArgs { flexicast: true, ..args });
    assert_eq!((c.max_idle_timeout, c.enable_flexicast), (None, Some(true)));
    assert_eq!(c.fc_exp3_conf.migration_timeout, Duration::from_secs(7));
    assert_eq!(c.fc_exp3_conf.hard_loss_threshold, float(0.04));
    assert_eq!((c.fc_exp3_conf.k, c.fc_exp3_conf.gamma), (float(3.0), Some(float(0.5))));
    assert_eq!(c.fc_throughput_window, Duration::from_secs(9));
    let c = get_config(&ReceiverArgs { flexicast: true, ..NO_OPTIONS });
    assert_eq!(c.fc_exp3_conf.gamma, Some(float(0.15)));
}

#[test]
fn any_address_is_bound() {
    assert_eq!(bind_address(true, 9999), "0.0.0.0:9999");
    assert_eq!(bind_address(false, 0), "[::]:0");
}

#[test]
fn listening_ends() {
    let start = Instant { nanos: 50 };
    let total = Duration::from_secs(5);
    let at = |ms| start.after(Duration::from_millis(ms));
    assert_eq!(listen_timeout(start, at(2000), total, None), Some(Duration::from_secs(3)));
    let conn = Some(Duration::from_millis(20));
    assert_eq!(listen_timeout(start, at(2000), total, conn), conn);
    assert_eq!(listen_timeout(start, at(4990), total, conn), Some(Duration::from_millis(10)));
    assert_eq!(listen_timeout(start, at(5000), total, conn), Some(Duration { nanos: 0 }));
    assert_eq!(listen_timeout(start, at(5001), total, conn), None);
}

#[test]
fn sockets_are_found_by_port() {
    let mut c = Channels::new();
    c.join_channel(0, &announce(1));
    assert_eq!(out_socket(9999, 9999, &c), OutSocket::Unicast);
    assert_eq!(out_socket(6001, 9999, &c), OutSocket::Unknown);
    c.channels_mut()[0].mc_socket = Some(5);
    assert_eq!(out_socket(6001, 9999, &c), OutSocket::Channel(5));
    assert_eq!(out_socket(6002, 9999, &c), OutSocket::Unknown);
}

#[test]
fn headers_are_text() {
    let hdrs = vec![
        Header { name: b":status".to_vec(), value: b"200".to_vec() },
        Header { name: "caf\u{e9}".as_bytes().to_vec(), value: vec![b'a', 0xff, b'b'] },
    ];
    let strings = hdrs_to_strings(&hdrs);
    assert_eq!(strings.len(), 2);
    assert_eq!(strings[0], (":status".to_string(), "200".to_string()));
    assert_eq!(strings[1], ("caf\u{e9}".to_string(), "a\u{fffd}b".to_string()));
    assert!(hdrs_to_strings(&vec![]).is_empty());
}

#[test]
fn receiver_leaves_then_joins() {
    let now = Instant { nanos: 60_000_000_000 };
    let mut conn = connection(0);
    let mut c = Channels::new();
    c.join_channel(0, &announce(1));
    c.channels_mut()[0].lifetime = ChannelLifetime::Joined;
    // Without automatic migration nothing happens.
    let a = check_migrate(false, &mut conn, &mut c, now, outside(0));
    assert!(matches!(a, MigrateAction::Nothing));
    // An action is under way: no decision.
    let a = check_migrate(true, &mut conn, &mut c, now, outside(0));
    assert!(matches!(a, MigrateAction::Nothing));
    conn.fc_did_change_channel(Instant { nanos: 0 });
    let later = now.after(Duration::from_secs(1));
    let a = check_migrate(true, &mut conn, &mut c, later, outside(0));
    let from = SocketAddr { ip: IpAddr::V4([0, 0, 0, 0]), port: 6001 };
    assert!(matches!(a, MigrateAction::Leaving(addr) if addr == from));
    assert_eq!(c.changing_cid, Some(vec![2]));
    assert_eq!(c.channels()[0].lifetime, ChannelLifetime::Leaving);
    // The channel is not left yet.
    let a = check_migrate(true, &mut conn, &mut c, later, outside(0));
    assert!(matches!(a, MigrateAction::Nothing));
    c.channels_mut()[0].lifetime = ChannelLifetime::Left;
    c.clean();
    let a = check_migrate(true, &mut conn, &mut c, later, outside(0));
    assert!(matches!(a, MigrateAction::Joining));
    assert_eq!(c.channels()[0].fc_chan_idx, 1);
    assert_eq!(c.changing_cid, None);
    assert_eq!(c.get_stats().stats.last().unwrap().migration.new_channel_bitrate, 2000);
}

#[test]
fn receiver_can_stay() {
    let now = Instant { nanos: 60_000_000_000 };
    let mut conn = connection(0);
    conn.fc_did_change_channel(Instant { nanos: 0 });
    let mut c = Channels::new();
    c.join_channel(0, &announce(1));
    let a = check_migrate(true, &mut conn, &mut c, now, outside(2));
    assert!(matches!(a, MigrateAction::Stayed));
    assert_eq!(c.get_stats().stats.len(), 2);
    let exp3 = &conn.flexicast.as_ref().unwrap().congestion_state.exp3_state;
    assert_eq!((exp3.taken_action, exp3.last_taken_action_instant), (false, now));
}

#[test]
fn datagrams_are_noted() {
    let mut conn = connection(0);
    let mut c = Channels::new();
    c.join_channel(0, &announce(1));
    let mut buf = vec![0x80, 96, 0, 1, 0, 0, 0, 77, 0, 0, 0, 1, 9, 9];
    let idx = process_video_data_datagram(&mut conn, &mut c, &buf, float(0.25), float(0.5));
    assert_eq!(idx, None);
    assert_eq!(c.max_timestamp, 77);
    let t = &c.get_stats().stats[0].timestamps[&77];
    assert_eq!((t.recv, t.losses.clone(), t.instant_losses.clone()), (1, vec![float(0.25)], vec![float(0.5)]));
    let loss = |c: &Connection| c.flexicast.as_ref().unwrap().congestion_state.statistics.loss_rate;
    assert_eq!(loss(&conn), float(0.25));
    // Another payload changes the loss rate only.
    buf[1] = 72;
    c.channels_mut()[0].lifetime = ChannelLifetime::Joined;
    let idx = process_video_data_datagram(&mut conn, &mut c, &buf, float(0.125), float(0.5));
    assert_eq!(idx, Some(0));
    assert_eq!(c.get_stats().stats[0].timestamps[&77].recv, 1);
    assert_eq!(loss(&conn), float(0.125));
}

#[test]
fn receiver_goes_on_after_a_migration() {
    assert_eq!(after_send_error(Error::Done), SendFailure::Stop);
    assert_eq!(after_send_error(Error::Flexicast(FcError::McPath)), SendFailure::Stop);
    assert_eq!(after_send_error(Error::InvalidState), SendFailure::Close);
    assert!(prepares_channel(McRole::Client(McClientStatus::AwareUnjoined)));
    assert!(prepares_channel(McRole::Client(McClientStatus::Changing)));
    assert!(!prepares_channel(McRole::Client(McClientStatus::ListenMcPath(true))));
    assert!(!prepares_channel(McRole::ServerUnicast(McClientStatus::Changing)));
}
