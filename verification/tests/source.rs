use flexicast::config::ApplicationProtocol;
use flexicast::config::Config;
use flexicast::config::CongestionControlAlgorithm;
use flexicast::error::Error;
use flexicast::error::FcError;
use flexicast::fc_app::pacer::PacerType;
use flexicast::fc_app::pacer::ScaledRates;
use flexicast::net::IpAddr;
use flexicast::net::SocketAddr;
use flexicast::source::after_send_error;
use flexicast::source::check_args;
use flexicast::source::flow_destination;
use flexicast::source::get_config;
use flexicast::source::get_mc_config;
use flexicast::source::get_multicast_channel;
use flexicast::source::is_fatal;
use flexicast::source::new_multicast_channel;
use flexicast::source::path_events::handle_path_event;
use flexicast::source::path_events::handle_path_events;
use flexicast::source::path_events::PathAction;
use flexicast::source::path_events::PathAddrs;
use flexicast::source::path_events::PathEvent;
use flexicast::source::plan_channels;
use flexicast::source::random::cid_of;
use flexicast::source::random::fresh_cid;
use flexicast::source::random::new_scid;
use flexicast::source::random::new_seed;
use flexicast::source::rtp_pacer;
use flexicast::source::send_rtp_data_datagram;
use flexicast::source::server::rtp_stop_timer;
use flexicast::source::server::Clients;
use flexicast::source::server::DropReason;
use flexicast::source::server::PacketAction;
use flexicast::source::server::PacketHeader;
use flexicast::source::server::Timers;
use flexicast::source::token::conn_id;
use flexicast::source::token::conn_id_of_tag;
use flexicast::source::token::mint_token;
use flexicast::source::token::validate_token;
use flexicast::source::ArgsError;
use flexicast::source::ChannelArgs;
use flexicast::source::DatagramOutcome;
use flexicast::source::SendFailure;
use flexicast::time::Duration;
use flexicast::time::Instant;

fn addr(ip: [u8; 4], port: u16) -> SocketAddr {
    SocketAddr { ip: IpAddr::V4(ip), port }
}

#[test]
fn tokens_are_validated() {
    let src = addr([10, 0, 0, 1], 443);
    let token = mint_token(&vec![1, 2, 3], &src);
    assert_eq!(token, b"quiche\x0a\x00\x00\x01\x01\x02\x03".to_vec());
    assert_eq!(validate_token(&src, &token), Some(vec![1, 2, 3]));
    // The port does not count, the address does.
    assert_eq!(validate_token(&addr([10, 0, 0, 1], 9), &token), Some(vec![1, 2, 3]));
    assert_eq!(validate_token(&addr([10, 0, 0, 2], 443), &token), None);
    assert_eq!(validate_token(&src, &b"quich".to_vec()), None);
    assert_eq!(validate_token(&src, &b"quicha\x0a\x00\x00\x01".to_vec()), None);
    assert_eq!(validate_token(&src, &b"quiche\x0a\x00\x00".to_vec()), None);
    assert_eq!(validate_token(&src, &b"quiche\x0a\x00\x00\x01".to_vec()), Some(vec![]));
    let v6 = SocketAddr { ip: IpAddr::V6([7; 16]), port: 1 };
    let token = mint_token(&vec![], &v6);
    assert_eq!(token.len(), 22);
    assert_eq!(validate_token(&v6, &token), Some(vec![]));
    assert_eq!(validate_token(&src, &token), None);
}

#[test]
fn identifiers_come_from_a_keyed_hash() {
    // First case of RFC 4231.
    let id = conn_id(&vec![0x0b; 20], &b"Hi There".to_vec());
    let expected = [
        0xb0, 0x34, 0x4c, 0x61, 0xd8, 0xdb, 0x38, 0x53, 0x5c, 0xa8, 0xaf, 0xce, 0xaf, 0x0b, 0xf1,
        0x2b,
    ];
    assert_eq!(id, expected.to_vec());
    let key = ring::hmac::Key::new(ring::hmac::HMAC_SHA256, &[5; 32]);
    let tag = ring::hmac::sign(&key, &[1, 2]).as_ref().to_vec();
    assert_eq!(conn_id(&vec![5; 32], &vec![1, 2]), conn_id_of_tag(&tag));
    assert_ne!(conn_id(&vec![6; 32], &vec![1, 2]), conn_id_of_tag(&tag));
}

fn header(is_initial: bool, dcid: Vec<u8>, token: Vec<u8>) -> PacketHeader {
    PacketHeader { is_initial, version_supported: true, dcid, token: Some(token) }
}

#[test]
fn packets_are_classified() {
    let src = addr([10, 0, 0, 1], 443);
    let seed = vec![3; 32];
    let mut c = Clients::new(2);
    let id = c.accept(vec![8; 16]);
    c.add_cid(vec![9; 16], id);
    let existing = c.classify(&header(false, vec![9; 16], vec![]), &src, &seed);
    assert!(matches!(existing, PacketAction::Existing(0)));
    let a = c.classify(&header(false, vec![1], vec![]), &src, &seed);
    assert!(matches!(a, PacketAction::Drop(DropReason::NotInitial)));
    let mut h = header(true, vec![1], vec![]);
    h.version_supported = false;
    assert!(matches!(c.classify(&h, &src, &seed), PacketAction::NegotiateVersion));
    // Without a token the client has to come back.
    match c.classify(&header(true, vec![1], vec![]), &src, &seed) {
        PacketAction::Retry { token, scid } => {
            assert_eq!(token, mint_token(&vec![1], &src));
            assert_eq!(scid, conn_id(&seed, &vec![1]));
            // It does so with the identifier that it got.
            match c.classify(&header(true, scid.clone(), token), &src, &seed) {
                PacketAction::Accept { odcid, scid: used } => {
                    assert_eq!(odcid, vec![1]);
                    assert_eq!(used, scid);
                },
                a => panic!("unexpected {:?}", a),
            }
        },
        a => panic!("unexpected {:?}", a),
    }
    let a = c.classify(&header(true, vec![1; 16], vec![1, 2]), &src, &seed);
    assert!(matches!(a, PacketAction::Drop(DropReason::InvalidToken)));
    let token = mint_token(&vec![4], &src);
    let a = c.classify(&header(true, vec![1; 15], token), &src, &seed);
    assert!(matches!(a, PacketAction::Drop(DropReason::InvalidDcid)));
}

#[test]
fn listeners_are_counted() {
    let mut c = Clients::new(2);
    for i in 0..3 {
        assert_eq!(c.accept(vec![i; 16]), i as u64);
    }
    assert!(c.all_gone());
    c.update_receivers_counts(0, Some(1));
    c.update_receivers_counts(1, Some(1));
    c.update_receivers_counts(2, Some(0));
    assert_eq!(c.receivers, vec![1, 2]);
    c.update_receivers_counts(1, Some(0));
    c.update_receivers_counts(1, Some(0));
    c.update_receivers_counts(0, None);
    c.update_receivers_counts(0, None);
    assert_eq!(c.receivers, vec![2, 0]);
    assert!(!c.all_gone());
    c.collect_closed(&vec![1, 7]);
    assert_eq!(c.receivers, vec![1, 0]);
    assert_eq!(c.clients.len(), 2);
    assert_eq!(c.find(&vec![1; 16]), None);
    assert_eq!(c.find(&vec![2; 16]), Some(2));
    // Identifiers of clients are not used again.
    assert_eq!(c.accept(vec![1; 16]), 3);
    // A connection identifier is that of the last client that it was given to.
    c.add_cid(vec![2; 16], 3);
    assert_eq!(c.find(&vec![2; 16]), Some(3));
    c.collect_closed(&vec![3]);
    assert_eq!(c.find(&vec![2; 16]), None);
}

#[test]
fn timers_of_the_source() {
    let start = Instant { nanos: 1_000_000_000 };
    let stop = rtp_stop_timer(600);
    assert_eq!(stop, Duration::from_millis(3000));
    let mut t = Timers::new();
    assert_eq!(t.next_timeout(&vec![], stop, start), Duration::from_millis(300));
    let timeouts = vec![None, Some(Duration::from_millis(40)), Some(Duration::from_millis(50))];
    assert_eq!(t.next_timeout(&timeouts, stop, start), Duration::from_millis(40));
    t.start_rtp_timer = Some(start);
    let late = start.after(Duration::from_millis(2990));
    assert_eq!(t.next_timeout(&timeouts, stop, late), Duration::from_millis(10));
    t.check_rtp(stop, late);
    assert!(!t.can_close_conn_after_rtp);
    t.check_rtp(stop, start.after(stop));
    assert!(t.can_close_conn_after_rtp);
    assert_eq!(t.start_rtp_timer, None);
    // Ten seconds without receivers.
    assert!(!t.check_receivers(true, start));
    assert!(!t.check_receivers(true, start.after(Duration::from_secs(10))));
    assert!(t.check_receivers(true, start.after(Duration::from_millis(10_001))));
    assert!(!t.check_receivers(false, start.after(Duration::from_millis(10_001))));
    assert!(!t.check_receivers(true, start.after(Duration::from_secs(60))));
}

#[test]
fn options_are_checked() {
    assert_eq!(check_args(true, Some(2), Some(2), 2), Ok(()));
    assert_eq!(check_args(true, None, None, 2), Ok(()));
    assert_eq!(check_args(true, Some(1), Some(1), 2), Err(ArgsError::Bitrates));
    assert_eq!(check_args(true, None, Some(1), 2), Err(ArgsError::Loggers));
    assert_eq!(check_args(false, Some(1), Some(1), 2), Ok(()));
}

#[test]
fn channels_are_planned() {
    let p = plan_channels(true, &Some(vec![100, 200]), 2);
    assert_eq!(p.len(), 2);
    assert_eq!((p[1].idx, p[1].bitrate), (1, Some(200)));
    let p = plan_channels(true, &None, 3);
    assert_eq!((p.len(), p[2].idx, p[2].bitrate), (3, 2, None));
    assert!(plan_channels(false, &Some(vec![100]), 1).is_empty());
}

#[test]
fn channels_have_addresses_of_their_own() {
    let args = ChannelArgs {
        src_addr: addr([127, 0, 0, 1], 4433),
        mc_addr: addr([239, 239, 239, 35], 6000),
        no_path_probing: true,
        expiration_timer: 600,
    };
    let c = get_multicast_channel(&args, Some(2), Some(500), vec![4; 16]);
    assert_eq!(c.src_addr, addr([127, 0, 0, 1], 4436));
    assert_eq!(c.mc_addr, addr([239, 239, 239, 37], 6002));
    assert_eq!(c.ttl, 58);
    let a = &c.mc_announce_data;
    assert_eq!((a.channel_id.clone(), a.group_ip, a.udp_port), (vec![4; 16], [239, 239, 239, 37], 6002));
    assert_eq!((a.probe_path, a.reset_stream_on_join, a.is_ipv6_addr), (false, true, false));
    assert_eq!((a.bitrate, a.expiration_timer, a.qos.bits), (Some(500), 600, 3));
    let other = get_multicast_channel(&args, Some(3), Some(500), vec![5; 16]);
    assert_ne!(other.mc_addr, c.mc_addr);
    assert_ne!(other.src_addr, c.src_addr);
    assert_ne!(other.ttl, c.ttl);
    let c = get_multicast_channel(&args, None, None, vec![]);
    assert_eq!(c.mc_addr, addr([239, 239, 239, 35], 6000));
    assert_eq!(c.src_addr.port, 4434);
}

#[test]
fn configurations_of_the_source() {
    let c = get_config(true);
    assert_eq!(c.max_recv_udp_payload_size, Some(1350));
    assert_eq!(c.initial_max_data, Some(100_000_000_000));
    assert_eq!(c.active_connection_id_limit, Some(10));
    assert_eq!(c.cc_algorithm, Some(CongestionControlAlgorithm::DISABLED));
    assert_eq!(c.enable_flexicast, Some(true));
    assert_eq!(c.fc_congestion_info_delay, Duration::from_secs(60 * 60 * 24 * 365));
    assert_eq!(c.application_protos, Some(ApplicationProtocol::H3));
    assert_eq!(get_mc_config(false).application_protos, Some(ApplicationProtocol::H3));
    assert_eq!(Config::new().application_protos, None);
    assert_eq!(get_config(false).enable_flexicast, Some(false));
    let c = get_mc_config(true);
    assert_eq!((c.active_connection_id_limit, c.verify_peer), (Some(5), Some(false)));
    assert_eq!(c.dgram_send_queue, Some(10_000));
    assert_eq!(c.early_data, None);
}

#[test]
fn rtp_sources_are_paced() {
    let now = Instant { nanos: 3 };
    let rates = ScaledRates { higher: 1600, optimal: 800 };
    assert!(rtp_pacer(None, rates, now).is_none());
    let p = rtp_pacer(Some(PacerType::Higher), rates, now).unwrap();
    assert_eq!((p.rate, p.buffer), (200, 11_000));
}

#[test]
fn datagrams_are_dropped_without_receivers() {
    assert_eq!(send_rtp_data_datagram(None, 1, DatagramOutcome::Sent), None);
    assert_eq!(send_rtp_data_datagram(Some(9), 0, DatagramOutcome::Full), Some(9));
    assert_eq!(send_rtp_data_datagram(Some(9), 1, DatagramOutcome::Full), None);
    assert_eq!(send_rtp_data_datagram(Some(9), 1, DatagramOutcome::Sent), Some(9));
}

#[test]
fn flows_go_to_the_group_or_the_proxy() {
    let (g, p) = (addr([239, 0, 0, 1], 1), addr([10, 0, 0, 1], 2));
    assert_eq!(flow_destination(None, g, 1), Some(g));
    assert_eq!(flow_destination(Some(p), g, 3), Some(p));
    assert_eq!(flow_destination(Some(p), g, 0), None);
    assert!(!is_fatal(Error::Flexicast(FcError::McDisabled)));
    assert!(is_fatal(Error::Flexicast(FcError::McPath)));
    assert!(is_fatal(Error::Done));
    assert_eq!(after_send_error(Error::Done), SendFailure::Stop);
    assert_eq!(after_send_error(Error::Flexicast(FcError::McPath)), SendFailure::Close);
}

#[test]
fn path_events_ask_for_actions() {
    let p = PathAddrs { local: addr([1, 1, 1, 1], 1), peer: addr([2, 2, 2, 2], 2) };
    assert!(matches!(handle_path_event(PathEvent::New(p), false), Some(PathAction::Probe(_))));
    assert!(handle_path_event(PathEvent::Validated(p), false).is_none());
    let events = vec![
        PathEvent::FailedValidation(p),
        PathEvent::Validated(p),
        PathEvent::Closed(p, 3),
        PathEvent::ReusedSourceConnectionId(1, p),
        PathEvent::PeerMigrated(p),
        PathEvent::PeerPathStatus(p, true),
    ];
    let actions = handle_path_events(&events, true);
    assert_eq!(actions.len(), 2);
    assert!(matches!(actions[0], PathAction::SetActive(_)));
    assert!(matches!(actions[1], PathAction::SetStatus(_, true)));
}

#[test]
fn identifiers_are_drawn() {
    let mut drawn = vec![7; 16];
    drawn.extend_from_slice(&0x0102_0304_0506_0708_090a_0b0c_0d0e_0ff0u128.to_be_bytes());
    let c = cid_of(&drawn);
    assert_eq!(c.scid, vec![7; 16]);
    assert_eq!(c.reset_token, 0x0102_0304_0506_0708_090a_0b0c_0d0e_0ff0);
    let max = cid_of(&vec![0xff; 32]);
    assert_eq!(max.reset_token, u128::MAX);
    let (a, b) = (fresh_cid().unwrap(), fresh_cid().unwrap());
    assert_eq!(a.scid.len(), 16);
    assert_ne!(a.scid, b.scid);
    assert_ne!(a.reset_token, b.reset_token);
    assert_ne!(new_seed().unwrap(), vec![0; 32]);
    assert_eq!(new_scid().unwrap().len(), 16);
    let args = ChannelArgs {
        src_addr: addr([127, 0, 0, 1], 4433),
        mc_addr: addr([239, 239, 239, 35], 6000),
        no_path_probing: false,
        expiration_timer: 600,
    };
    let c = new_multicast_channel(&args, Some(1), None).unwrap();
    assert_eq!(c.mc_addr, addr([239, 239, 239, 36], 6001));
    assert_eq!(c.mc_announce_data.channel_id.len(), 16);
    assert_ne!(c.mc_announce_data.channel_id, vec![0; 16]);
    assert!(c.mc_announce_data.probe_path);
    assert_eq!(c.mc_announce_data.fc_channel_algo, None);
}
