use flexicast::ancillaries::Ancillary;
use flexicast::ancillaries::AncillaryError;
use flexicast::ancillaries::ECNValue;
use flexicast::ancillaries::SocketCodes;
use flexicast::error::Error;
use flexicast::path::Path;
use flexicast::path::PathMap;
use flexicast::ranges::RangeSet;
use flexicast::rate::Float32;
use flexicast::rate::Float64;
use flexicast::recovery::Epoch;
use flexicast::recovery::Frame;
use flexicast::recovery::Recovery;
use flexicast::recovery::Sent;
use flexicast::stream::SendBuf;
use flexicast::stream::StreamMap;
use flexicast::text::hex_dump;
use flexicast::time::Duration;
use flexicast::time::Instant;

fn ranges(list: &[(u64, u64)]) -> RangeSet {
    let mut r = RangeSet::new();
    for (start, end) in list {
        r.insert(*start, *end);
    }
    r
}

#[test]
fn ranges_join_and_split() {
    let mut r = ranges(&[(10, 20), (0, 5), (5, 7)]);
    assert_eq!(r.as_ranges(), &vec![(0, 7), (10, 20)]);
    r.insert(7, 10);
    assert_eq!(r.as_ranges(), &vec![(0, 20)]);
    r.insert(4, 4);
    r.remove(3, 6);
    r.remove(6, 6);
    assert_eq!(r.as_ranges(), &vec![(0, 3), (6, 20)]);
    assert!(r.contains(2) && !r.contains(3) && r.contains(19) && !r.contains(20));
    assert_eq!(r.first_range(), Some((0, 3)));
    assert_eq!(r.last(), Some(19));
    assert_eq!(RangeSet::new().last(), None);
    assert!(RangeSet::new().is_empty() && !r.is_empty());
}

#[test]
fn ranges_are_sets() {
    let a = ranges(&[(0, 10), (20, 30)]);
    let b = ranges(&[(5, 25)]);
    let mut c = a.copy();
    c.subtract(&b);
    assert_eq!(c.as_ranges(), &vec![(0, 5), (25, 30)]);
    let mut c = a.copy();
    c.union_with(&b);
    assert_eq!(c.as_ranges(), &vec![(0, 30)]);
    assert!(c.is_superset(&a) && c.is_superset(&b) && !a.is_superset(&c));
    let mut c = a.copy();
    c.intersect(&b);
    assert!(c.same(&ranges(&[(20, 25), (5, 10)])));
    assert!(!c.same(&a));
}

#[test]
fn stream_data_is_sent_and_acknowledged() {
    let mut b = SendBuf::new();
    assert!(!b.is_flushable());
    assert_eq!(b.write_at_offset(vec![1, 2, 3, 4], 0, false), Ok(4));
    assert_eq!(b.write_at_offset(vec![5, 6], 4, true), Ok(2));
    assert!(b.is_flushable());
    assert_eq!(b.emit(4), Ok(vec![1, 2, 3, 4]));
    // Fewer bytes than asked for: zeroes after them.
    assert_eq!(b.emit(4), Ok(vec![5, 6, 0, 0]));
    assert!(!b.is_flushable());
    // Retransmission of a part.
    b.retransmit(1, 2);
    assert_eq!(b.emit(2), Ok(vec![2, 3]));
    b.ack_and_drop(0, 4);
    assert!(!b.is_complete());
    // Nothing is sent again once it was acknowledged.
    b.retransmit(0, 6);
    assert_eq!(b.emit(2), Ok(vec![5, 6]));
    b.ack_and_drop(4, 2);
    assert!(b.is_complete());
    // The stream ends at its final size.
    assert_eq!(b.write_at_offset(vec![7], 6, false), Err(Error::FinalSize));
    b.shutdown();
    assert_eq!(b.emit(1), Err(Error::FinalSize));
    let mut b = SendBuf::new();
    b.stop(77);
    assert_eq!(b.write_at_offset(vec![7], 0, false), Err(Error::StreamStopped(77)));
}

#[test]
fn streams_are_opened_and_collected() {
    let mut s = StreamMap::new(2);
    s.get_or_create(3, true).unwrap();
    s.get_or_create(7, true).unwrap();
    assert_eq!(s.get_or_create(11, true), Err(Error::StreamLimit));
    s.get_or_create(7, true).unwrap();
    s.write_at_offset(7, vec![9; 10], 0, true).unwrap();
    assert_eq!(s.flushable(), &vec![7]);
    assert_eq!(s.emit(7, 10), Ok(vec![9; 10]));
    assert_eq!(s.emit_again(7, 2, 3), Ok(vec![9; 3]));
    s.ack(7, 0, 10);
    assert!(s.is_collected(7) && s.get(7).is_none());
    assert!(s.flushable().is_empty());
    assert_eq!(s.get_or_create(7, true), Err(Error::Done));
    // A stream that gets no more data is done once what it has is acknowledged.
    s.write_at_offset(3, vec![1, 2], 0, false).unwrap();
    s.ack(3, 0, 2);
    assert!(!s.is_collected(3));
    s.close(3, Some(2));
    assert!(s.is_collected(3));
    assert!(s.fc_get_stream_ids().is_empty());
}

fn packet(pkt_num: u64, time_sent: Instant) -> Sent {
    Sent {
        pkt_num,
        frames: vec![Frame::Other],
        time_sent,
        time_acked: None,
        time_lost: None,
        size: 100,
        is_fc_delegated: false,
    }
}

#[test]
fn older_packets_are_lost_after_the_delay() {
    let mut r = Recovery::new(Duration::from_millis(80), 1000);
    let start = Instant { nanos: 0 };
    for pn in 0..3 {
        r.on_packet_sent(packet(pn, start.after(Duration::from_millis(50 * pn))));
    }
    assert_eq!(r.cwnd_available(), 700);
    assert_eq!(r.get_lowest_pn_app_epoch(), Some(0));
    let out = r.on_ack_received(&ranges(&[(2, 3)]), start.after(Duration::from_millis(100)));
    // The first packet was sent nine eighths of a round trip ago, the second not.
    assert_eq!((out.acked_bytes, out.lost_packets, out.lost_bytes), (100, 1, 100));
    assert_eq!(r.get_lowest_pn_app_epoch(), Some(0));
    assert_eq!(r.detect_lost_packets(start.after(Duration::from_millis(141))), (1, 100));
    // A lost packet is kept for a round trip.
    assert_eq!(r.detect_lost_packets(start.after(Duration::from_millis(179))), (0, 0));
    assert_eq!(r.get_lowest_pn_app_epoch(), Some(0));
    assert_eq!(r.detect_lost_packets(start.after(Duration::from_millis(180))), (0, 0));
    assert_eq!(r.get_lowest_pn_app_epoch(), Some(1));
    // Nothing new.
    let out = r.on_ack_received(&ranges(&[(2, 3)]), start.after(Duration::from_millis(190)));
    assert_eq!((out.acked_bytes, out.lost_packets), (0, 0));
}

#[test]
fn source_keeps_lost_packets() {
    let mut r = Recovery::new(Duration::from_millis(8), 1000);
    r.set_fc_recovery_epoch(true);
    let start = Instant { nanos: 0 };
    r.on_packet_sent(packet(0, start));
    r.on_packet_sent(packet(1, start));
    let late = start.after(Duration::from_secs(1));
    assert_eq!(r.on_ack_received(&ranges(&[(1, 2)]), late).lost_packets, 1);
    let pkts = r.get_sent_pkts();
    assert_eq!(pkts.len(), 2);
    assert!(pkts[0].time_lost.is_some() && pkts[1].time_acked == Some(late));
    let (highest, from) = r.fc_get_sent_pkt(Epoch::Application, 1);
    assert_eq!((highest, from.len(), from[0].pkt_num), (1, 1, 1));
    assert_eq!(r.fc_get_sent_pkt(Epoch::Initial, 0).1.len(), 0);
    r.set_largest_ack(9);
    assert_eq!(r.application.largest_acked_packet, Some(9));
    r.set_largest_ack(4);
    assert_eq!(r.application.largest_acked_packet, Some(9));
}

#[test]
fn paths_are_found_by_identifier() {
    let rec = || Recovery::new(Duration::from_millis(8), 1000);
    let mut m = PathMap::new(Path { path_id: 5, recovery: rec() });
    assert_eq!(m.insert(Path { path_id: 8, recovery: rec() }), 1);
    assert_eq!(m.pid_from_path_id(8), Some(1));
    assert_eq!(m.pid_from_path_id(1), None);
    assert_eq!(m.get(1).unwrap().path_id, 8);
    assert_eq!(m.get(2).unwrap_err(), Error::InvalidState);
    m.get_mut(0).unwrap().path_id = 6;
    assert_eq!(m.get_active().unwrap().path_id, 6);
}

#[test]
fn ecn_values_are_two_bits() {
    let all = [ECNValue::NotEct, ECNValue::ECT1, ECNValue::ECT0, ECNValue::CE];
    for (bits, v) in all.iter().enumerate() {
        assert_eq!(ECNValue::from(bits as u8), *v);
        assert_eq!(ECNValue::from(0xfc | bits as u8), *v);
        assert_eq!(u32::from(*v), bits as u32);
    }
}

#[test]
fn ancillary_data_is_parsed() {
    let parse = |level, kind, data| Ancillary::from_raw(level, kind, data);
    let ecn = Ok(Ancillary::ECN(ECNValue::CE));
    assert_eq!(parse(libc::IPPROTO_IP, libc::IP_TOS, 3), ecn);
    assert_eq!(parse(libc::IPPROTO_IPV6, libc::IPV6_TCLASS, 7), ecn);
    assert_eq!(parse(libc::IPPROTO_IP, libc::IP_TTL, 64), Ok(Ancillary::TTL(64)));
    assert_eq!(parse(libc::IPPROTO_IPV6, libc::IPV6_HOPLIMIT, 255), Ok(Ancillary::TTL(255)));
    // Another system has other numbers.
    let codes = SocketCodes { ip: 0, ipv6: 41, tos: 3, ttl: 4, tclass: 36, hoplimit: 47 };
    assert_eq!(Ancillary::parse(&codes, 0, 3, 2), Ok(Ancillary::ECN(ECNValue::ECT0)));
    assert_eq!(Ancillary::parse(&codes, 41, 47, 9), Ok(Ancillary::TTL(9)));
    assert_eq!(Ancillary::parse(&codes, 0, 1, 2), Err(AncillaryError(0, 1)));
    let err = parse(libc::IPPROTO_IPV6, -4, 0).unwrap_err();
    assert_eq!(err, AncillaryError(41, -4));
    assert_eq!(err.message(), "Invalid ancillary received: level = 41, type = -4");
    assert_eq!(
        AncillaryError(i32::MIN, 0).message(),
        "Invalid ancillary received: level = -2147483648, type = 0"
    );
}

#[test]
fn patterns_compare_as_numbers() {
    let samples = [
        0.0, -0.0, 1.0, -1.0, 0.5, 1e-320, -1e-320, f64::MAX, f64::MIN, f64::INFINITY,
        f64::NEG_INFINITY, f64::NAN, 0.05, 0.1,
    ];
    for a in samples {
        for b in samples {
            let (x, y) = (Float64 { bits: a.to_bits() }, Float64 { bits: b.to_bits() });
            assert_eq!(x.is_above(y), a > b, "{a} > {b}");
        }
        let d = Float64 { bits: a.to_bits() }.double();
        if !a.is_nan() {
            assert_eq!(d.bits, (a * 2.0).to_bits(), "2 * {a}");
        }
    }
    for a in [0.0f32, -0.0, 0.15, 0.3, -7.5, f32::INFINITY, f32::NAN, 1e-40] {
        for b in [0.0f32, 0.15, 0.2, -7.5, f32::NAN, 1e-40] {
            let (x, y) = (Float32 { bits: a.to_bits() }, Float32 { bits: b.to_bits() });
            assert_eq!(x.is_above(y), a > b, "{a} > {b}");
        }
    }
}

#[test]
fn bytes_are_dumped_in_hexadecimal() {
    assert_eq!(hex_dump(&vec![]), "");
    assert_eq!(hex_dump(&vec![0, 1, 0x9f, 0xff, 0x10]), "00019fff10");
}

#[test]
fn time_saturates() {
    let a = Duration::from_millis(1500);
    assert_eq!(a.saturating_sub(Duration::from_secs(1)), Duration::from_millis(500));
    assert_eq!(Duration::from_secs(1).saturating_sub(a), Duration { nanos: 0 });
    assert_eq!(a.times(3), Duration::from_millis(4500));
    assert_eq!(a.min(Duration::from_secs(1)), Duration::from_secs(1));
    let t = Instant { nanos: 10 };
    assert_eq!(t.after(a).duration_since(t), a);
    assert_eq!(t.duration_since(t.after(a)), Duration { nanos: 0 });
}
