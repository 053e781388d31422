use flexicast::error::McClientStatus;
use flexicast::error::McRole;
use flexicast::fc_app::channels::ChannelLifetime;
use flexicast::fc_app::channels::ChannelState;
use flexicast::fc_app::channels::Channels;
use flexicast::fc_app::channels::Membership;
use flexicast::fc_app::file_transfer::FileTransferRecv;
use flexicast::fc_app::file_transfer::FileTransferRecvMsg;
use flexicast::fc_app::file_transfer::FileTransferSrc;
use flexicast::fc_app::file_transfer::FileTransferSrcMsg;
use flexicast::fc_app::file_transfer::RecvAction;
use flexicast::fc_app::file_transfer::READ_LEN;
use flexicast::fc_app::pacer::TokenPacer;
use flexicast::fc_app::recv_statistics::Migration;
use flexicast::fc_app::recv_statistics::MultiChannelRecvStats;
use flexicast::fc_app::rtp::RtpHeader;
use flexicast::fc_app::rtp_async::log_header;
use flexicast::fc_app::rtp_async::RtpAsync;
use flexicast::flexicast::announce::FcQos;
use flexicast::flexicast::announce::McAnnounceData;
use flexicast::net::IpAddr;
use flexicast::net::SocketAddr;
use flexicast::rate::Float64;
use flexicast::time::Instant;

fn float(x: f64) -> Float64 {
    Float64 { bits: x.to_bits() }
}

fn announce(id: u8, probe_path: bool) -> McAnnounceData {
    McAnnounceData {
        channel_id: vec![id],
        is_ipv6_addr: false,
        probe_path,
        reset_stream_on_join: true,
        source_ip: [127, 0, 0, 1],
        group_ip: [239, 1, 2, id],
        udp_port: 6000 + id as u16,
        public_key: None,
        expiration_timer: 600,
        is_processed: false,
        bitrate: Some(1000 * id as u64),
        fc_channel_algo: None,
        fc_channel_secret: None,
        qos: FcQos::throughput_and_delay(),
    }
}

/// An RTP packet with a timestamp.
fn rtp(payload_type: u8, marker: bool, timestamp: u32, len: usize) -> Vec<u8> {
    let mut b = vec![0x80, payload_type | if marker { 0x80 } else { 0 }, 0x12, 0x34];
    b.extend_from_slice(&timestamp.to_be_bytes());
    b.extend_from_slice(&[0xde, 0xad, 0xbe, 0xef]);
    b.resize(len, 7);
    b
}

#[test]
fn rtp_header_is_parsed() {
    let h = RtpHeader::from_bytes(&rtp(96, true, 0x01020304, 20));
    assert_eq!((h.version, h.padding, h.extension, h.csrc_count), (2, false, false, 0));
    assert_eq!((h.marker, h.payload_type), (true, 96));
    assert_eq!((h.sequence_number, h.timestamp, h.ssrc), (0x1234, 0x01020304, 0xdeadbeef));
    let mut b = vec![0xff; 12];
    b[1] = 0x7f;
    let h = RtpHeader::from_bytes(&b);
    assert_eq!((h.version, h.padding, h.extension, h.csrc_count), (3, true, true, 15));
    assert_eq!((h.marker, h.payload_type), (false, 127));
}

#[test]
fn queue_counts_the_packets_of_frames() {
    let mut q = RtpAsync::new(None, true);
    assert_eq!(log_header(), "timestamp,frame_idx,number_packets\n");
    assert_eq!(q.handle_rtp(rtp(96, false, 50, 30)), None);
    assert_eq!(q.handle_rtp(rtp(96, false, 50, 30)), None);
    // Other payloads do not count.
    assert_eq!(q.handle_rtp(rtp(72, true, 50, 30)), None);
    assert_eq!(q.handle_rtp(rtp(96, true, 50, 30)).as_deref(), Some("50,0,3\n"));
    assert_eq!(q.handle_rtp(rtp(96, true, 60, 30)).as_deref(), Some("60,1,1\n"));
    assert_eq!(q.frame_count, 2);
    assert!(q.timestamp_count.is_empty());
    // Nothing is kept without receivers.
    assert_eq!(q.next_len(), None);
    let mut quiet = RtpAsync::new(None, false);
    assert_eq!(quiet.handle_rtp(rtp(96, true, 50, 30)), None);
    assert_eq!(quiet.frame_count, 1);
}

#[test]
fn queue_is_paced_and_ordered() {
    let now = Instant { nanos: 0 };
    let mut q = RtpAsync::new(Some(TokenPacer::new(8000, 100, now)), false);
    q.handle_command(2);
    for i in 0..3 {
        q.handle_rtp(rtp(96, false, i, 40 + i as usize));
    }
    assert_eq!(q.next_len(), Some(40));
    assert_eq!(q.next_packet(now, 30), None);
    assert_eq!(q.next_packet(now, 10), Some(rtp(96, false, 0, 40)));
    let p = q.next_packet(now, 90).unwrap();
    assert_eq!(p, rtp(96, false, 1, 41));
    // The flow could not take it.
    q.give_back(p);
    assert_eq!(q.next_packet(now, 100), Some(rtp(96, false, 1, 41)));
    assert_eq!(q.next_packet(now, 0), Some(rtp(96, false, 2, 42)));
    assert_eq!(q.next_packet(now, 0), None);
}

#[test]
fn file_is_sent_in_pieces() {
    assert_eq!(READ_LEN, 2000);
    let mut s = FileTransferSrc::new(2500);
    let m = s.on_read(vec![1; READ_LEN], 2000);
    assert!(matches!(m, FileTransferSrcMsg::Data((b, false)) if b.len() == 2000));
    // Only the bytes that were read go out.
    let m = s.on_read(vec![2; READ_LEN], 500);
    assert!(matches!(m, FileTransferSrcMsg::Data((b, true)) if b == vec![2; 500]));
    assert_eq!(s.nb_bytes_sent, 2500);
    assert!(matches!(s.on_read(vec![0; READ_LEN], 0), FileTransferSrcMsg::Close));
    assert!(matches!(s.on_finish(), FileTransferSrcMsg::Close));
}

#[test]
fn short_file_is_one_piece() {
    let mut s = FileTransferSrc::new(3);
    let mut buffer = vec![0; READ_LEN];
    buffer[..3].copy_from_slice(&[1, 2, 3]);
    let m = s.on_read(buffer, 3);
    assert!(matches!(m, FileTransferSrcMsg::Data((b, true)) if b == vec![1, 2, 3]));
    assert_eq!(s.nb_bytes_sent, 3);
    assert!(matches!(s.on_read(vec![0; READ_LEN], 0), FileTransferSrcMsg::Close));
}

#[test]
fn file_is_received_in_pieces() {
    let mut r = FileTransferRecv::new();
    let a = r.on_message(Some(FileTransferRecvMsg::Data(vec![1, 2, 3])));
    assert!(matches!(a, RecvAction::Write(v) if v == vec![1, 2, 3]));
    assert!(!r.handle_new_data(&vec![1, 2, 3], false));
    assert_eq!(r.nb_bytes_recv, 0);
    assert!(r.handle_new_data(&vec![1, 2, 3], true));
    assert_eq!(r.nb_bytes_recv, 3);
    assert!(matches!(r.on_message(Some(FileTransferRecvMsg::Close)), RecvAction::Close));
    assert!(matches!(r.on_message(None), RecvAction::Stop));
    r.has_file = false;
    let a = r.on_message(Some(FileTransferRecvMsg::Data(vec![1])));
    assert!(matches!(a, RecvAction::Skip));
    assert!(r.handle_new_data(&vec![1], false));
    assert_eq!(r.nb_bytes_recv, 3);
}

#[test]
fn statistics_follow_the_channel() {
    let mut s = MultiChannelRecvStats::new();
    let migration =
        Migration { new_channel_idx: 2, new_channel_bitrate: 500, last_recv_timestamp: -1 };
    s.migrated(migration);
    s.record_loss(7, float(0.25));
    s.record_loss(7, float(0.5));
    s.record_instant_loss(7, float(0.125));
    s.record_recv(7);
    s.record_recv(9);
    assert_eq!(s.stats.len(), 1);
    assert_eq!(s.stats[0].migration, migration);
    let seven = &s.stats[0].timestamps[&7];
    assert_eq!((seven.recv, seven.losses.clone()), (1, vec![float(0.25), float(0.5)]));
    assert_eq!(seven.instant_losses, vec![float(0.125)]);
    assert_eq!(s.stats[0].timestamps[&9].recv, 1);
    s.migrated(migration);
    s.record_recv(7);
    assert_eq!(s.stats[1].timestamps.len(), 1);
    assert_eq!(s.stats[0].timestamps[&7].recv, 1);
}

const LISTENING: McRole = McRole::Client(McClientStatus::ListenMcPath(true));

fn v4(a: [u8; 4]) -> IpAddr {
    IpAddr::V4(a)
}

#[test]
fn channel_is_joined_step_by_step() {
    let announces = vec![announce(1, false), announce(2, true)];
    let mut c = Channels::new();
    c.join_channel(0, &announces[0]);
    assert_eq!(c.channels().len(), 1);
    let s: &mut ChannelState = &mut c.channels_mut()[0];
    assert_eq!(s.bind_addr, SocketAddr { ip: v4([0, 0, 0, 0]), port: 6001 });
    assert_eq!(s.group_addr, SocketAddr { ip: v4([239, 1, 2, 1]), port: 6001 });
    assert_eq!(s.probe(&announces), None);
    assert_eq!(s.provide_cid(&announces), Some(vec![1]));
    assert_eq!(s.provide_cid(&announces), None);
    let request = s.probe(&announces).unwrap();
    assert_eq!((request.local, request.probe), (s.bind_addr, false));
    assert!(!s.should_join_multicast(LISTENING));
    let local = v4([10, 0, 0, 9]);
    let bind = s.path_created(&announces, local, false, 33);
    assert_eq!(bind.addr, SocketAddr { ip: v4([239, 1, 2, 1]), port: 6001 });
    assert_eq!((bind.replaced, bind.join), (None, Some(vec![1])));
    assert!(!s.should_join_multicast(McRole::Client(McClientStatus::AwareUnjoined)));
    assert!(s.should_join_multicast(LISTENING));
    let m = s.join_multicast(false, v4([1, 1, 1, 1]), v4([2, 2, 2, 2]));
    let expected =
        Membership::Change { group: [239, 1, 2, 1], itf: [1, 1, 1, 1], source: [2, 2, 2, 2] };
    assert_eq!(m, expected);
    assert_eq!(c.joined_channel().unwrap().fc_chan_idx, 0);
    assert_eq!(c.get_socket(6001), Some(33));
    assert_eq!(c.get_socket(6002), None);
}

#[test]
fn channel_is_left_and_forgotten() {
    let announces = vec![announce(1, false)];
    let mut c = Channels::new();
    c.join_channel(0, &announces[0]);
    // Only a joined channel can be left.
    c.leave_channel(0);
    assert_eq!(c.channels()[0].lifetime, ChannelLifetime::ProvideCid);
    c.channels_mut()[0].mc_socket = Some(4);
    c.channels_mut()[0].lifetime = ChannelLifetime::Joined;
    c.leave_channel(3);
    assert!(!c.channels()[0].should_leave_multicast());
    c.leave_channel(0);
    assert!(c.channels()[0].should_leave_multicast());
    assert!(c.joined_channel().is_none());
    c.clean();
    assert_eq!(c.channels().len(), 1);
    let m = c.channels_mut()[0].leave_multicast(v4([1, 1, 1, 1]), v4([2, 2, 2, 2]), true);
    assert_eq!(m, Membership::Proxied);
    c.clean();
    assert!(c.channels().is_empty());
}

#[test]
fn membership_needs_addresses_of_one_family() {
    let mut c = Channels::new();
    c.join_channel(0, &announce(1, false));
    let v6 = IpAddr::V6([1; 16]);
    let s = &mut c.channels_mut()[0];
    assert_eq!(s.join_multicast(false, v6, v4([2, 2, 2, 2])), Membership::Incompatible);
    assert_eq!(s.lifetime, ChannelLifetime::Joined);
    assert_eq!(s.join_multicast(true, v6, v6), Membership::Proxied);
    assert_eq!(s.leave_multicast(v4([3, 3, 3, 3]), v6, false), Membership::Incompatible);
    assert_eq!(s.lifetime, ChannelLifetime::Left);
}

#[test]
fn own_address_is_bound_for_probes_and_proxies() {
    let local = IpAddr::V6([9; 16]);
    let a = announce(2, true);
    assert_eq!(
        ChannelState::get_group_ip(&a, local, false),
        SocketAddr { ip: local, port: 6002 }
    );
    let a = announce(2, false);
    assert_eq!(ChannelState::get_group_ip(&a, local, true).ip, local);
    assert_eq!(ChannelState::get_group_ip(&a, local, false).ip, v4([239, 1, 2, 2]));
}

#[test]
fn migrations_are_noted() {
    let mut c = Channels::new();
    c.join_channel(1, &announce(2, false));
    let m = c.get_stats().stats[0].migration;
    assert_eq!((m.new_channel_idx, m.new_channel_bitrate, m.last_recv_timestamp), (1, 2000, -1));
    c.received_timestamp(50);
    c.received_timestamp(40);
    assert_eq!(c.max_timestamp, 50);
    c.changing_cid = Some(vec![3]);
    c.migration_done(0, 700);
    let m = c.get_stats().stats[1].migration;
    assert_eq!((m.new_channel_idx, m.new_channel_bitrate, m.last_recv_timestamp), (0, 700, 50));
    assert_eq!((c.max_timestamp, c.changing_cid.clone()), (0, None));
    // Only the first channel is noted when it is joined.
    c.join_channel(0, &announce(1, false));
    assert_eq!(c.get_stats().stats.len(), 2);
}
