use flexicast::ancillaries::Ancillary;
use flexicast::ancillaries::ECNValue;
use flexicast::config::Config;
use flexicast::connection::Connection;
use flexicast::error::McClientStatus;
use flexicast::error::McRole;
use flexicast::flexicast::announce::FcQos;
use flexicast::flexicast::announce::McAnnounceData;
use flexicast::flexicast::congestion::config::FcCongestionConf;
use flexicast::flexicast::congestion::config::FcCongestionConfig;
use flexicast::flexicast::congestion::config::FcCongestionHeuristic;
use flexicast::flexicast::congestion::control::FlexicastChannelSource;
use flexicast::flexicast::congestion::control::FlexicastCongestion;
use flexicast::flexicast::congestion::control::FlexicastCongestionConnection;
use flexicast::flexicast::congestion::exp3::decision::Exp3Outside;
use flexicast::flexicast::congestion::kmeans::kmeans_should_change_channel;
use flexicast::flexicast::congestion::probe::ProbePhase;
use flexicast::flexicast::congestion::probe::ProbeState;
use flexicast::flexicast::congestion::probe::ProbeStats;
use flexicast::flexicast::congestion::Decision;
use flexicast::flexicast::congestion::FcCongestionInfo;
use flexicast::flexicast::congestion::FcCongestionState;
use flexicast::flexicast::reliable::ReliableFc;
use flexicast::flexicast::FlexicastAttributes;
use flexicast::path::Path;
use flexicast::path::PathMap;
use flexicast::rate::Float32;
use flexicast::rate::Float64;
use flexicast::recovery::Recovery;
use flexicast::stream::StreamMap;
use flexicast::time::Duration;
use flexicast::time::Instant;

fn float(x: f64) -> Float64 {
    Float64 { bits: x.to_bits() }
}

fn float32(x: f32) -> Float32 {
    Float32 { bits: x.to_bits() }
}

fn announce(id: u8) -> McAnnounceData {
    McAnnounceData {
        channel_id: vec![id],
        is_ipv6_addr: false,
        probe_path: false,
        reset_stream_on_join: true,
        source_ip: [127, 0, 0, 1],
        group_ip: [239, 0, 0, id],
        udp_port: 6000,
        public_key: None,
        expiration_timer: 600,
        is_processed: false,
        bitrate: Some(1000),
        fc_channel_algo: None,
        fc_channel_secret: None,
        qos: FcQos::throughput_and_delay(),
    }
}

fn attributes(role: McRole, active: Option<usize>) -> FlexicastAttributes {
    FlexicastAttributes {
        mc_role: role,
        fc_path_id: Some(1),
        fc_first_pn: None,
        fc_reliable: ReliableFc::Undefined,
        fc_chan_id: active.map(|i| (vec![i as u8], i)),
        mc_announce_data: vec![announce(10), announce(11), announce(12)],
        congestion_state: FcCongestionState::with_defaults(Instant { nanos: 0 }),
    }
}

fn receiver(active: Option<usize>) -> FlexicastAttributes {
    attributes(McRole::Client(McClientStatus::ListenMcPath(true)), active)
}

fn outside() -> Exp3Outside {
    Exp3Outside {
        throughput: 0,
        first_probas: vec![],
        reward: float(0.0),
        weights: vec![],
        probas: vec![],
        drawn: 2,
    }
}

fn connection(cwnd: usize) -> Connection {
    let rtt = Duration::from_millis(40);
    let mut paths = PathMap::new(Path { path_id: 0, recovery: Recovery::new(rtt, 500) });
    paths.insert(Path { path_id: 1, recovery: Recovery::new(rtt, cwnd) });
    Connection::new(paths, StreamMap::new(10))
}

#[test]
fn information_is_sent_after_its_delay() {
    let start = Instant { nanos: 0 };
    let mut s = FcCongestionState::with_defaults(start);
    let late = start.after(Duration::from_millis(101));
    // Nothing to send.
    assert!(!s.should_send_congestion_info(late));
    s.local_congestion_info =
        Some(FcCongestionInfo { cwnd: 7, mc_cwnds: vec![], rtt: Duration::from_millis(1) });
    assert!(s.should_send_congestion_info(late));
    assert!(!s.should_send_congestion_info(start.after(Duration::from_millis(100))));
    assert_eq!(s.get_congestion_info().cwnd, 7);
}

#[test]
fn delay_grows_while_the_receiver_stays() {
    let start = Instant { nanos: 0 };
    let mut s = FcCongestionState::with_defaults(start);
    // A migration less than two delays ago.
    s.sending_congestion_info(start.after(Duration::from_millis(200)));
    assert_eq!(s.delay_congestion_info, Duration::from_millis(100));
    assert_eq!(s.next_congestion_info, start.after(Duration::from_millis(300)));
    let mut delays = Vec::new();
    for i in 1..7u64 {
        s.sending_congestion_info(start.after(Duration::from_secs(10 * i)));
        delays.push(s.delay_congestion_info.nanos / 1_000_000);
    }
    assert_eq!(delays, vec![200, 400, 800, 1600, 1600, 1600]);
    s.last_migration = start.after(Duration::from_secs(60));
    s.sending_congestion_info(start.after(Duration::from_secs(60)));
    assert_eq!(s.delay_congestion_info, Duration::from_millis(100));
}

#[test]
fn marks_are_counted() {
    let mut s = FcCongestionState::with_defaults(Instant { nanos: 0 });
    let ce = Ancillary::ECN(ECNValue::CE);
    let list = vec![Ancillary::TTL(3), ce, Ancillary::ECN(ECNValue::ECT0), ce];
    assert_eq!(FcCongestionState::count_marks(&list), 2);
    let marked = vec![float(0.05), float(0.0975)];
    s.update_ancillaries(&list, &marked, float(0.0));
    assert_eq!(s.statistics.ecn_rate, float(0.0975));
    s.update_ancillaries(&vec![Ancillary::TTL(3)], &vec![], float(0.01));
    assert_eq!(s.statistics.ecn_rate, float(0.01));
    s.reset();
    assert_eq!(s.statistics.ecn_rate, float(0.0));
}

#[test]
fn configuration_is_kept() {
    let mut c = Config::new();
    c.set_fc_congestion_info_delay(Duration::from_secs(3));
    c.set_fc_congestion_heuristic(FcCongestionHeuristic::KMEANS);
    c.set_fc_throughput_window(Duration::from_secs(4));
    c.set_fc_exp3_loss_threshold(float(0.03));
    assert_eq!(c.fc_exp3_conf.loss_threshold, float(0.03));
    assert_eq!(c.fc_exp3_conf.hard_loss_threshold, float(0.06));
    c.set_fc_exp3_hard_loss_threshold(float(0.5));
    c.set_fc_exp3_k(float(12.0));
    c.set_fc_exp3_gamma(None);
    c.set_fc_exp3_migration_timeout(Duration::from_secs(9));
    let conf = FcCongestionConf::from_config(&c);
    assert_eq!(conf.cc_heuristic.should_change_channel, Decision::Kmeans);
    assert_eq!(conf.throughput_window, Duration::from_secs(4));
    assert_eq!(conf.exp3_conf.hard_loss_threshold, float(0.5));
    assert_eq!(conf.exp3_conf.k, float(12.0));
    assert_eq!(conf.exp3_conf.gamma, None);
    let state = FcCongestionState::new(&conf, Instant { nanos: 5 });
    assert_eq!(state.delay_congestion_info, Duration::from_secs(3));
    assert_eq!(state.next_congestion_info.nanos, 3_000_000_005);
    assert_eq!(state.exp3_state.conf.migration_timeout, Duration::from_secs(9));
}

#[test]
fn kmeans_joins_the_closest_group() {
    let mut f = receiver(Some(0));
    assert_eq!(kmeans_should_change_channel(&f), None);
    f.congestion_state.received_congestion_info = Some(FcCongestionInfo {
        cwnd: 50,
        mc_cwnds: vec![(vec![10], 90), (vec![11], 60), (vec![12], 40)],
        rtt: Duration::from_millis(1),
    });
    // The first one of those that are equally close.
    assert_eq!(kmeans_should_change_channel(&f), Some(vec![11]));
    f.fc_chan_id = Some((vec![11], 1));
    assert_eq!(kmeans_should_change_channel(&f), None);
}

#[test]
fn probe_congestion_signals() {
    let previous = ProbeStats::default();
    let mut curr = ProbeStats::default();
    assert!(!curr.congestion_occured(&previous));
    curr.loss_rate = float32(0.15);
    assert!(!curr.congestion_occured(&previous));
    curr.loss_rate = float32(0.151);
    assert!(curr.congestion_occured(&previous));
    curr = ProbeStats::default();
    curr.ecn_rate = float32(0.31);
    assert!(curr.congestion_occured(&previous));
    curr = ProbeStats::default();
    curr.rtt = Duration::from_millis(366);
    assert!(!curr.congestion_occured(&previous));
    curr.rtt = Duration::from_millis(367);
    assert!(curr.congestion_occured(&previous));
}

#[test]
fn probe_moves_up_and_falls_back() {
    let start = Instant { nanos: 0 };
    let mut p = ProbeState::new(start);
    p.update_rtt(Duration::from_millis(100));
    // Waits for eight round trips.
    p.update_phase(start.after(Duration::from_millis(800)), Some(0));
    assert_eq!(p.phase, ProbePhase::Waiting(start));
    p.update_phase(start.after(Duration::from_millis(801)), Some(0));
    assert_eq!(p.phase, ProbePhase::Joining);
    assert_eq!(p.join_channel, Some(1));
    // Not joined yet.
    p.update_phase(start.after(Duration::from_millis(900)), Some(0));
    assert_eq!(p.phase, ProbePhase::Joining);
    let joined = start.after(Duration::from_millis(1000));
    p.update_phase(joined, Some(1));
    assert_eq!(p.phase, ProbePhase::Probing(joined));
    assert_eq!(p.join_channel, None);
    p.packets_lost(float32(0.2));
    assert!(p.congestion_occured());
    p.update_phase(joined, Some(1));
    assert_eq!(p.phase, ProbePhase::Fallback);
    assert_eq!((p.join_channel, p.wait_duration), (Some(0), 16));
    let back = start.after(Duration::from_millis(1100));
    p.update_phase(back, Some(0));
    assert_eq!(p.phase, ProbePhase::Waiting(back));
    p.update_phase(back.after(Duration::from_millis(1600)), Some(0));
    assert_eq!(p.phase, ProbePhase::Waiting(back));
    p.update_phase(back.after(Duration::from_millis(1601)), Some(0));
    assert_eq!(p.phase, ProbePhase::Joining);
}

#[test]
fn probe_without_congestion_waits_again() {
    let start = Instant { nanos: 0 };
    let mut p = ProbeState::new(start);
    p.phase = ProbePhase::Probing(start);
    p.packets_recv(float32(0.1));
    p.packet_marked(float32(0.2));
    p.packet_not_marked(float32(0.19));
    assert_eq!(p.congestion_stats_curr.ecn_rate, float32(0.19));
    assert_eq!(p.congestion_stats_curr.loss_rate, float32(0.1));
    p.update_phase(start.after(Duration::from_millis(666)), None);
    assert_eq!(p.phase, ProbePhase::Probing(start));
    let end = start.after(Duration::from_millis(667));
    p.update_phase(end, None);
    assert_eq!(p.phase, ProbePhase::Waiting(end));
}

#[test]
fn connection_asks_its_heuristic() {
    let now = Instant { nanos: 1_000_000_000 };
    let mut c = connection(1000);
    // No flexicast, or not a receiver.
    assert_eq!(c.fc_should_change_channel(now, outside()), None);
    c.flexicast = Some(attributes(McRole::ServerFlexicast, Some(0)));
    assert_eq!(c.fc_should_change_channel(now, outside()), None);
    let mut f = receiver(Some(0));
    f.congestion_state.mc_congestion_scheduler.should_change_channel = Decision::Probe;
    c.flexicast = Some(f);
    // The first call starts the heuristic.
    assert_eq!(c.fc_should_change_channel(now, outside()), None);
    assert!(c.flexicast.as_ref().unwrap().congestion_state.probe_state.started);
    let later = now.after(Duration::from_secs(10));
    assert_eq!(c.fc_should_change_channel(later, outside()), Some(vec![11]));
    // Once it is there, no further change.
    c.flexicast.as_mut().unwrap().fc_chan_id = Some((vec![11], 1));
    assert_eq!(c.fc_should_change_channel(later, outside()), None);
    c.update_app_data_loss(float(0.125));
    let stats = &c.flexicast.as_ref().unwrap().congestion_state.statistics;
    assert_eq!(stats.loss_rate, float(0.125));
}

#[test]
fn server_informs_the_receivers() {
    let mut source = connection(777);
    source.flexicast = Some(attributes(McRole::ServerFlexicast, None));
    assert_eq!(source.mc_get_cwnd(), Some(777));
    let channel = FlexicastChannelSource { channel: source };
    let mut uc = connection(1);
    uc.flexicast =
        Some(attributes(McRole::ServerUnicast(McClientStatus::ListenMcPath(true)), Some(0)));
    // No congestion window is set.
    uc.update_congestion_info(vec![&channel]);
    assert!(uc.flexicast.as_ref().unwrap().congestion_state.local_congestion_info.is_none());
    uc.fc_flow_cwnd = Some(42);
    uc.update_congestion_info(vec![&channel]);
    let f = uc.flexicast.as_ref().unwrap();
    let info = f.congestion_state.get_congestion_info();
    assert_eq!((info.cwnd, info.rtt), (42, Duration::from_millis(40)));
    assert_eq!(info.mc_cwnds, vec![(vec![10], 777)]);
    assert!(f.should_send_fc_congestion_info(Instant { nanos: 200_000_000 }));
    assert!(!f.should_send_fc_congestion_info(Instant { nanos: 1 }));
    // Without a flexicast path there is no window.
    uc.flexicast.as_mut().unwrap().fc_path_id = None;
    assert_eq!(uc.mc_get_cwnd(), None);
    uc.flexicast.as_mut().unwrap().fc_path_id = Some(9);
    assert_eq!(uc.mc_get_cwnd(), None);
}

#[test]
fn throughput_window_is_configured() {
    let now = Instant { nanos: 50_000_000_000 };
    let mut config = Config::new();
    config.set_fc_throughput_window(Duration::from_millis(700));
    let conf = FcCongestionConf::from_config(&config);
    let mut s = FcCongestionState::new(&conf, now);
    assert_eq!(s.statistics.throughput_window.length(), Duration::from_millis(700));
    s.statistics.update_window(now, 4000);
    s.statistics.update_window(now.after(Duration::from_millis(600)), 1000);
    assert_eq!(s.statistics.max_throughput(), 4000);
    s.statistics.update_window(now.after(Duration::from_millis(701)), 2000);
    assert_eq!(s.statistics.max_throughput(), 2000);
    // The signals go, the length stays.
    s.reset();
    assert_eq!(s.statistics.throughput_window.length(), Duration::from_millis(700));
    assert_eq!(s.statistics.throughput_window.max(), None);
    assert_eq!(s.statistics.rtt, Duration::from_millis(333));
    let s = FcCongestionState::with_defaults(now);
    assert_eq!(s.statistics.throughput_window.length(), Duration::from_secs(5));
}
