use std::collections::HashMap;
use std::collections::HashSet;

use flexicast::connection::Connection;
use flexicast::error::Error;
use flexicast::error::FcError;
use flexicast::error::McClientStatus;
use flexicast::error::McRole;
use flexicast::error::Result;
use flexicast::flexicast::ack::McAck;
use flexicast::flexicast::announce::FcQos;
use flexicast::flexicast::announce::McAnnounceData;
use flexicast::flexicast::congestion::FcCongestionState;
use flexicast::flexicast::reliable::FcUnicastRetransmission;
use flexicast::flexicast::reliable::RFcRecv;
use flexicast::flexicast::reliable::RFcSource;
use flexicast::flexicast::reliable::RFcUcPath;
use flexicast::flexicast::reliable::ReliableFc;
use flexicast::flexicast::FlexicastAttributes;
use flexicast::path::Path;
use flexicast::path::PathMap;
use flexicast::ranges::RangeSet;
use flexicast::recovery::flexicast::FcDelegatedStream;
use flexicast::recovery::Frame;
use flexicast::recovery::Recovery;
use flexicast::recovery::Sent;
use flexicast::stream::StreamMap;
use flexicast::time::Duration;
use flexicast::time::Instant;

/// Length of the streams that the source sends.
const STREAM_LEN: usize = 300;

/// First packet that the receivers listen to: the source sent one before.
const FIRST_PN: u64 = 2;

fn announce(probe_path: bool, expiration_timer: u64) -> McAnnounceData {
    McAnnounceData {
        channel_id: vec![1, 2, 3],
        is_ipv6_addr: false,
        probe_path,
        reset_stream_on_join: true,
        source_ip: [127, 0, 0, 1],
        group_ip: [224, 3, 0, 225],
        udp_port: 7676,
        public_key: None,
        expiration_timer,
        is_processed: false,
        bitrate: None,
        fc_channel_algo: None,
        fc_channel_secret: None,
        qos: FcQos::throughput_and_delay(),
    }
}

fn ranges(list: &[(u64, u64)]) -> RangeSet {
    let mut r = RangeSet::new();
    for (start, end) in list {
        r.insert(*start, *end);
    }
    r
}

/// A connection with a unicast path and a flexicast path. The data of the flow lives
/// for a round trip.
fn connection(role: McRole, fc_reliable: ReliableFc, probe_path: bool, rtt: Duration) -> Connection {
    let mut paths = PathMap::new(Path { path_id: 0, recovery: Recovery::new(rtt, 100_000) });
    paths.insert(Path { path_id: 1, recovery: Recovery::new(rtt, 100_000) });
    let mut c = Connection::new(paths, StreamMap::new(10_000));
    c.flexicast = Some(FlexicastAttributes {
        mc_role: role,
        fc_path_id: Some(1),
        fc_first_pn: Some(FIRST_PN),
        fc_reliable,
        fc_chan_id: Some((vec![1, 2, 3], 0)),
        mc_announce_data: vec![announce(probe_path, (rtt.nanos / 1_000_000) as u64)],
        congestion_state: FcCongestionState::with_defaults(Instant { nanos: 0 }),
    });
    c
}

fn packet(pkt_num: u64, frames: Vec<Frame>, size: usize, time_sent: Instant) -> Sent {
    Sent {
        pkt_num,
        frames,
        time_sent,
        time_acked: None,
        time_lost: None,
        size,
        is_fc_delegated: false,
    }
}

fn stream_frame(stream_id: u64, offset: u64, length: usize, fin: bool) -> Frame {
    Frame::StreamHeader { stream_id, offset, length, fin }
}

/// What a receiver has.
struct Receiver {
    pns: RangeSet,
    streams: HashMap<u64, Vec<u8>>,
}

impl Receiver {
    fn stream_readable(&self, stream_id: u64) -> bool {
        self.streams.contains_key(&stream_id)
    }

    fn stream_recv(&mut self, stream_id: u64, buf: &mut [u8]) -> Result<(usize, bool)> {
        match self.streams.get(&stream_id) {
            Some(data) => {
                buf[..data.len()].copy_from_slice(data);
                Ok((data.len(), true))
            },
            None => Err(Error::Done),
        }
    }
}

/// A source and its receivers, without a network between them.
struct FlexicastPipe {
    source: Connection,
    unicast: Vec<(Connection, Receiver)>,
    next_pn: u64,
    now: Instant,
}

impl FlexicastPipe {
    fn new(nb_recv: usize, probe_path: bool, rtt: Duration) -> FlexicastPipe {
        let now = Instant { nanos: 1_000_000_000 };
        let mut source = connection(
            McRole::ServerFlexicast,
            ReliableFc::FcFlow(RFcSource::default()),
            probe_path,
            rtt,
        );
        source.fc_set_recovery_state().unwrap();
        source
            .paths
            .get_mut(1)
            .unwrap()
            .recovery
            .on_packet_sent(packet(1, vec![Frame::Other], 50, now));
        let mut unicast = Vec::new();
        for _ in 0..nb_recv {
            let uc = connection(
                McRole::ServerUnicast(McClientStatus::ListenMcPath(true)),
                ReliableFc::UcPath(RFcUcPath::default()),
                probe_path,
                rtt,
            );
            unicast.push((uc, Receiver { pns: RangeSet::new(), streams: HashMap::new() }));
        }
        let mut pipe = FlexicastPipe { source, unicast, next_pn: FIRST_PN, now };
        pipe.server_control_to_mc_source().unwrap();
        pipe
    }

    fn sleep(&mut self, d: Duration) {
        self.now = self.now.after(d);
    }

    fn stream_data(stream_id: u64) -> Vec<u8> {
        (0..STREAM_LEN).map(|i| (stream_id as usize + i) as u8).collect()
    }

    /// The source sends a stream in one packet, which some receivers lose.
    fn source_send_single_stream(
        &mut self,
        losses: Option<&RangeSet>,
        stream_id: u64,
    ) -> Result<u64> {
        self.source.streams.get_or_create(stream_id, true)?;
        self.source.streams.write_at_offset(stream_id, Self::stream_data(stream_id), 0, true)?;
        let data = self.source.streams.emit(stream_id, STREAM_LEN)?;
        let pn = self.next_pn;
        self.next_pn += 1;
        self.source.paths.get_mut(1)?.recovery.on_packet_sent(packet(
            pn,
            vec![stream_frame(stream_id, 0, STREAM_LEN, true)],
            STREAM_LEN,
            self.now,
        ));
        for (i, (_, client)) in self.unicast.iter_mut().enumerate() {
            if losses.is_some_and(|l| l.contains(i as u64)) {
                continue;
            }
            client.pns.insert(pn, pn + 1);
            client.streams.insert(stream_id, data.clone());
        }
        Ok(pn)
    }

    /// The receivers acknowledge the packets of the flow that they have.
    fn clients_send(&mut self) -> Result<()> {
        for (uc, client) in self.unicast.iter_mut() {
            uc.paths.get_mut(1)?.recovery.on_ack_received(&client.pns, self.now);
            let rfc = uc.flexicast.as_mut().unwrap().fc_reliable.server_mut().unwrap();
            rfc.mc_ack.on_ack_received(&client.pns);
            rfc.fc_pn_recv.union_with(&client.pns);
        }
        Ok(())
    }

    /// Exchanges control information between the unicast paths and the flow.
    fn server_control_to_mc_source(&mut self) -> Result<()> {
        for (uc, _) in self.unicast.iter_mut() {
            let (first_pn, highest) = {
                let fc = uc.flexicast.as_mut().unwrap();
                let first_pn = fc.fc_first_pn.unwrap();
                let rfc = fc.fc_reliable.server_mut().unwrap();
                if !rfc.notified_fc_source {
                    rfc.notified_fc_source = true;
                    self.source.get_mc_ack_mut().unwrap().new_recv(first_pn);
                }
                (first_pn, rfc.fc_highest_pn)
            };
            match self.source.fc_get_sent_pkt(highest.or(Some(first_pn))) {
                Ok(sent) => uc.fc_on_new_pkt_sent(0, sent)?,
                Err(Error::Done) => {},
                Err(e) => return Err(e),
            }
            let (pns, pieces) = uc.get_new_ack_pn_streams()?;
            let mc_ack = self.source.get_mc_ack_mut().unwrap();
            if let Some(pns) = pns {
                mc_ack.on_ack_received(&pns);
            }
            for piece in pieces.unwrap_or_default() {
                mc_ack.on_stream_ack_received(piece.stream_id, piece.off, piece.len);
            }
            let (full, pieces) = (mc_ack.full_ack(), mc_ack.acked_stream_off());
            if let Some(full) = full {
                self.source.fc_on_ack_received(&full, self.now)?;
            }
            for piece in pieces.unwrap_or_default() {
                self.source.fc_on_stream_ack_received(piece.stream_id, piece.off, piece.len)?;
            }
            self.source.fc_notify_collected_streams(uc);
        }
        self.on_timeout();
        Ok(())
    }

    /// The loss timer of the flow fires.
    fn on_timeout(&mut self) {
        self.source.paths.get_mut(1).unwrap().recovery.detect_lost_packets(self.now);
    }

    /// The source delegates lost streams to the unicast paths. Only the last one
    /// lets the source consider them delegated.
    fn source_delegates_streams_direct(&mut self) -> Result<()> {
        let nb_recv = self.unicast.len();
        for (idx, (uc, _)) in self.unicast.iter_mut().enumerate() {
            let kind = FcUnicastRetransmission::Delegates(idx == nb_recv - 1);
            self.source.rfc_delegate_streams(uc, self.now, kind)?;
        }
        Ok(())
    }

    /// The unicast paths send what was delegated to them, and the receivers
    /// acknowledge it.
    fn advance(&mut self, i: usize) -> Result<()> {
        let (uc, client) = &mut self.unicast[i];
        let ids = uc.streams.flushable().clone();
        for id in ids {
            if !uc.streams.get(id).is_some_and(|s| s.send.is_flushable()) {
                continue;
            }
            let data = uc.streams.emit(id, STREAM_LEN)?;
            client.streams.insert(id, data);
            uc.streams.ack(id, 0, STREAM_LEN);
            let rfc = uc.flexicast.as_mut().unwrap().fc_reliable.server_mut().unwrap();
            rfc.mc_ack.on_stream_ack_received(id, 0, STREAM_LEN as u64);
        }
        Ok(())
    }

    fn get_uc_path_mc_ack(&self, i: usize) -> Option<&McAck> {
        self.unicast.get(i)?.0.flexicast.as_ref()?.fc_reliable.server().map(|s| &s.mc_ack)
    }
}

/// Tests that the received packets are correctly forwarded to the receiver and lie
/// in the ReliableFc structure.
#[test]
fn test_fc_reliable_ack() {
    for probe_path in [false, true] {
        let mut fc_pipe = FlexicastPipe::new(1, probe_path, Duration::from_millis(10));

        assert!(fc_pipe.source_send_single_stream(None, 3).is_ok());
        assert!(fc_pipe.source_send_single_stream(None, 7).is_ok());
        fc_pipe.server_control_to_mc_source().unwrap();

        let mut readables: Vec<u64> = fc_pipe.unicast[0].1.streams.keys().copied().collect();
        readables.sort();
        assert_eq!(readables, vec![3, 7]);

        assert!(fc_pipe.clients_send().is_ok());

        let mc_ack = fc_pipe.get_uc_path_mc_ack(0).unwrap();
        let (_ack_pn, _streams, nb_recv) = mc_ack.get_state();
        assert_eq!(nb_recv, 1);
        let ack_pn = mc_ack.full_ack_poll().unwrap();
        let mut expected_ack_pn = RangeSet::new();
        expected_ack_pn.insert(2, 4);
        assert!(ack_pn.same(&expected_ack_pn));
        assert_eq!(ack_pn.as_ranges(), &vec![(2, 4)]);
    }
}

/// Tests the full reliability mechanism of flexicast using the McAck structure.
#[test]
fn test_fc_quic_reliability_with_mc_ack() {
    let mut fc_pipe = FlexicastPipe::new(2, false, Duration::from_millis(10));
    let sleep_duration = Duration::from_millis(100);

    // First stream is received by both receivers.
    let (_, _, nb) = fc_pipe.source.get_mc_ack_mut().unwrap().get_state();
    assert_eq!(nb, 2);
    fc_pipe.source_send_single_stream(None, 1).unwrap();
    fc_pipe.server_control_to_mc_source().unwrap();

    // The unicast paths have state for the new packets.
    let sent_pkt = fc_pipe.unicast[0].0.paths.get(1).unwrap().recovery.get_sent_pkts();
    assert_eq!(sent_pkt[0].pkt_num, 2);

    // Clients read the stream.
    let mut buf = [0u8; 500];
    assert!(fc_pipe.unicast[0].1.stream_readable(1));
    assert_eq!(fc_pipe.unicast[0].1.stream_recv(1, &mut buf), Ok((300, true)));
    assert!(fc_pipe.unicast[1].1.stream_readable(1));
    assert_eq!(fc_pipe.unicast[1].1.stream_recv(1, &mut buf), Ok((300, true)));
    assert_eq!(&buf[..300], &FlexicastPipe::stream_data(1)[..]);

    // Flexicast source has a packet in waiting for ack.
    let sent_pkt = fc_pipe.source.paths.get(1).unwrap().recovery.get_sent_pkts();
    assert_eq!(sent_pkt[0].pkt_num, 1);
    assert_eq!(sent_pkt[1].pkt_num, 2);
    assert!(sent_pkt[1].time_acked.is_none());
    let nb_ack = fc_pipe.source.acked_bytes;

    // The flexicast source acknowledged the packet because both receivers said it
    // was ok.
    fc_pipe.sleep(sleep_duration);
    fc_pipe.on_timeout();
    fc_pipe.clients_send().unwrap();
    fc_pipe.server_control_to_mc_source().unwrap();

    // The flexicast flow and unicast path have acknowledged packets.
    let sent_pkt = fc_pipe.source.paths.get(1).unwrap().recovery.get_sent_pkts();
    assert!(sent_pkt[1].time_acked.is_some());
    assert!(fc_pipe.source.acked_bytes > nb_ack);

    // McAck state is empty.
    let (pns, ..) = fc_pipe.source.get_mc_ack_mut().unwrap().get_state();
    assert_eq!(pns, 0);

    // Second stream is lost for the first client.
    let client_losses = ranges(&[(0, 1)]);
    let lost_pn = fc_pipe.source_send_single_stream(Some(&client_losses), 7).unwrap();
    fc_pipe.server_control_to_mc_source().unwrap();

    // Only second client receives data.
    assert!(!fc_pipe.unicast[0].1.stream_readable(7));
    assert!(fc_pipe.unicast[1].1.stream_readable(7));
    assert_eq!(fc_pipe.unicast[1].1.stream_recv(7, &mut buf), Ok((300, true)));

    fc_pipe.sleep(sleep_duration);
    fc_pipe.on_timeout();
    fc_pipe.clients_send().unwrap();
    fc_pipe.server_control_to_mc_source().unwrap();

    // No new complete acked packet.
    assert!(fc_pipe.source.acked_bytes > nb_ack);
    assert_eq!(fc_pipe.source.acked_bytes, nb_ack + 300);

    // McAck contains state for this packet because it is not fully acked.
    let mc_ack = fc_pipe.source.get_mc_ack_mut().unwrap();
    let (pns, streams, _) = mc_ack.get_state();
    assert_eq!(pns, 1);
    assert_eq!(streams.len(), 0);
    // Only one client need to ack the packet.
    assert_eq!(mc_ack.missing(lost_pn), Some(1));

    // The arrival of a new stream will trigger a loss for Stream 7.
    fc_pipe.source_send_single_stream(None, 11).unwrap();
    fc_pipe.server_control_to_mc_source().unwrap();
    fc_pipe.sleep(sleep_duration);
    fc_pipe.clients_send().unwrap();
    fc_pipe.server_control_to_mc_source().unwrap();
    fc_pipe.source_delegates_streams_direct().unwrap();

    // The unicast server now has state for the expired streams.
    assert_eq!(fc_pipe.unicast[0].0.streams.flushable(), &vec![7]);
    assert!(fc_pipe.unicast[1].0.streams.flushable().is_empty());
    assert!(!fc_pipe.source.streams.is_collected(7));

    // And the McAck of both the flexicast source and the unicast server have state.
    let (_, streams, _) = fc_pipe.source.get_mc_ack_mut().unwrap().get_state();
    assert_eq!(streams.len(), 1);
    assert_eq!((streams[0].stream_id, streams[0].off), (7, 0));
    assert_eq!((streams[0].len, streams[0].missing), (300, 1));

    let (_, streams, _) = fc_pipe.get_uc_path_mc_ack(0).unwrap().get_state();
    assert_eq!(streams.len(), 1);
    assert_eq!((streams[0].stream_id, streams[0].off), (7, 0));
    assert_eq!((streams[0].len, streams[0].missing), (300, 1));

    fc_pipe.advance(0).unwrap();

    // Client received the stream. State updated on the McAck of the server.
    let (_, streams, _) = fc_pipe.get_uc_path_mc_ack(0).unwrap().get_state();
    assert!(streams.is_empty());

    fc_pipe.server_control_to_mc_source().unwrap();

    // Now the flexicast source does not have any state for the open stream.
    let (_, streams, _) = fc_pipe.source.get_mc_ack_mut().unwrap().get_state();
    assert!(streams.is_empty());
    assert!(fc_pipe.source.streams.is_collected(7));

    // First client now has the second stream.
    assert!(fc_pipe.unicast[0].1.stream_readable(7));
    assert_eq!(fc_pipe.unicast[0].1.stream_recv(7, &mut buf), Ok((300, true)));
    assert_eq!(&buf[..300], &FlexicastPipe::stream_data(7)[..]);
}

/// Tests the reliability mechanism of flexicast with random packet losses.
#[test]
fn test_fc_quic_reliability_short_streams() {
    let mut fc_pipe = FlexicastPipe::new(2, true, Duration::from_millis(1));
    let sleep_duration = Duration::from_millis(2);

    // Send multiple short streams that can lie in a single packet.
    let nb_streams: u64 = 1000;
    for i in 0..nb_streams {
        // Generate random losses.
        let mask: u8 = rand::random();

        // Do not generate losses for the last 2 streams to ensure that we see gaps.
        let client_loss = if mask & 0b1 > 0 && i < nb_streams - 2 {
            let mut losses = RangeSet::new();
            for j in 1..4u64 {
                if mask & 1 << j > 0 {
                    losses.insert(j - 1, j);
                }
            }
            Some(losses)
        } else {
            None
        };

        // The source sends the stream.
        fc_pipe.source_send_single_stream(client_loss.as_ref(), 3 + i * 4).unwrap();

        // The source notifies the unicast instances of the sent packet.
        fc_pipe.server_control_to_mc_source().unwrap();

        // Wait a bit...
        fc_pipe.sleep(sleep_duration);

        // Clients send their feedback to the source.
        fc_pipe.clients_send().unwrap();
        fc_pipe.server_control_to_mc_source().unwrap();

        // Stream delegation.
        fc_pipe.source_delegates_streams_direct().unwrap();

        // Potentially unicast retransmissions.
        for k in 0..2 {
            fc_pipe.advance(k).unwrap();
        }
    }

    // Ensure that each client received all the streams.
    for (_, client) in fc_pipe.unicast.iter() {
        for i in 0..nb_streams {
            assert!(client.stream_readable(3 + i * 4));
            assert_eq!(client.streams[&(3 + i * 4)], FlexicastPipe::stream_data(3 + i * 4));
        }
    }
}

#[test]
fn full_retransmission_sends_all_that_is_missing() {
    let mut fc_pipe = FlexicastPipe::new(2, false, Duration::from_millis(10));
    let first = ranges(&[(0, 1)]);
    fc_pipe.source_send_single_stream(Some(&first), 3).unwrap();
    fc_pipe.source_send_single_stream(None, 7).unwrap();
    fc_pipe.source_send_single_stream(Some(&first), 11).unwrap();
    fc_pipe.server_control_to_mc_source().unwrap();
    fc_pipe.clients_send().unwrap();

    // Nothing is lost for the flow, yet the first receiver falls back on unicast.
    let now = fc_pipe.now;
    let uc = &mut fc_pipe.unicast[0].0;
    fc_pipe.source.rfc_delegate_streams(uc, now, FcUnicastRetransmission::FullRetransmit).unwrap();
    assert_eq!(fc_pipe.unicast[0].0.streams.flushable(), &vec![3, 11]);
    // The flow does not follow these pieces.
    assert!(fc_pipe.source.get_mc_ack_mut().unwrap().get_state().1.is_empty());
    assert!(fc_pipe.get_uc_path_mc_ack(0).unwrap().get_state().1.is_empty());
    fc_pipe.advance(0).unwrap();
    for id in [3, 7, 11] {
        assert_eq!(fc_pipe.unicast[0].1.streams[&id], FlexicastPipe::stream_data(id));
    }
}

#[test]
fn delegated_packets_leave_the_flow() {
    let mut fc_pipe = FlexicastPipe::new(2, false, Duration::from_millis(10));
    fc_pipe.source_send_single_stream(Some(&ranges(&[(0, 2)])), 3).unwrap();
    fc_pipe.source_send_single_stream(None, 7).unwrap();
    fc_pipe.server_control_to_mc_source().unwrap();
    fc_pipe.sleep(Duration::from_millis(100));
    fc_pipe.clients_send().unwrap();
    fc_pipe.server_control_to_mc_source().unwrap();

    // Only the last delegation of the round marks the packet.
    let now = fc_pipe.now;
    let mark = |pipe: &FlexicastPipe| {
        let sent = pipe.source.paths.get(1).unwrap().recovery.get_sent_pkts();
        let lost = sent.iter().find(|p| p.pkt_num == 2).unwrap();
        assert_eq!(lost.time_lost, Some(now));
        lost.is_fc_delegated
    };
    for (i, last) in [(0, false), (1, true)] {
        let uc = &mut fc_pipe.unicast[i].0;
        let kind = FcUnicastRetransmission::Delegates(last);
        fc_pipe.source.rfc_delegate_streams(uc, now, kind).unwrap();
        assert_eq!(fc_pipe.unicast[i].0.streams.flushable(), &vec![3]);
        assert_eq!(mark(&fc_pipe), last);
    }
    let (_, streams, _) = fc_pipe.source.get_mc_ack_mut().unwrap().get_state();
    assert_eq!((streams.len(), streams[0].missing), (1, 2));

    // It stays for a round trip, and another delegation finds it.
    fc_pipe.sleep(Duration::from_millis(9));
    fc_pipe.on_timeout();
    assert!(mark(&fc_pipe));
    fc_pipe.sleep(Duration::from_millis(1));
    fc_pipe.on_timeout();
    let sent = fc_pipe.source.paths.get(1).unwrap().recovery.get_sent_pkts();
    assert!(sent.is_empty());
}

#[test]
fn fallback_of_one_receiver_keeps_the_losses_of_another() {
    let mut fc_pipe = FlexicastPipe::new(2, false, Duration::from_millis(10));
    fc_pipe.source_send_single_stream(Some(&ranges(&[(0, 2)])), 3).unwrap();
    fc_pipe.server_control_to_mc_source().unwrap();
    let now = fc_pipe.now;
    let uc = &mut fc_pipe.unicast[0].0;
    fc_pipe.source.rfc_delegate_streams(uc, now, FcUnicastRetransmission::FullRetransmit).unwrap();
    fc_pipe.source_send_single_stream(None, 7).unwrap();
    fc_pipe.server_control_to_mc_source().unwrap();
    fc_pipe.sleep(Duration::from_millis(100));
    fc_pipe.clients_send().unwrap();
    fc_pipe.server_control_to_mc_source().unwrap();
    let now = fc_pipe.now;
    let uc = &mut fc_pipe.unicast[1].0;
    fc_pipe.source.rfc_delegate_streams(uc, now, FcUnicastRetransmission::Delegates(true)).unwrap();
    assert_eq!(fc_pipe.unicast[1].0.streams.flushable(), &vec![3]);
}

#[test]
fn path_retransmits_the_packets_it_sees_lost() {
    let mut fc_pipe = FlexicastPipe::new(2, false, Duration::from_millis(10));
    let first = ranges(&[(0, 1)]);
    let pn = fc_pipe.source_send_single_stream(Some(&first), 3).unwrap();
    fc_pipe.source_send_single_stream(None, 7).unwrap();
    fc_pipe.server_control_to_mc_source().unwrap();
    fc_pipe.clients_send().unwrap();

    let now = fc_pipe.now;
    let uc = &mut fc_pipe.unicast[0].0;
    let kind = FcUnicastRetransmission::PerUcPath(HashSet::from([pn]));
    fc_pipe.source.rfc_delegate_streams(uc, now, kind).unwrap();
    assert_eq!(fc_pipe.unicast[0].0.streams.flushable(), &vec![3]);
    // The path speaks for its receiver: only the other one is waited for.
    assert_eq!(fc_pipe.source.get_mc_ack_mut().unwrap().missing(pn), Some(1));
}

#[test]
fn delegation_needs_the_right_roles() {
    let rtt = Duration::from_millis(10);
    let now = Instant { nanos: 5 };
    let role = McRole::ServerUnicast(McClientStatus::ListenMcPath(true));
    let uc_path = || ReliableFc::UcPath(RFcUcPath::default());
    let mut uc = connection(role, uc_path(), false, rtt);
    let mut other = connection(role, uc_path(), false, rtt);
    let kind = FcUnicastRetransmission::Delegates(true);

    // Not a source.
    assert_eq!(
        other.rfc_delegate_streams(&mut uc, now, kind.copy()),
        Err(Error::Flexicast(FcError::McInvalidRole(role)))
    );
    // The receiver does not listen to the flexicast path.
    let mut source = connection(
        McRole::ServerFlexicast,
        ReliableFc::FcFlow(RFcSource::default()),
        false,
        rtt,
    );
    uc.flexicast.as_mut().unwrap().mc_role =
        McRole::ServerUnicast(McClientStatus::ListenMcPath(false));
    assert_eq!(source.rfc_delegate_streams(&mut uc, now, kind.copy()), Ok(()));
    // The flow has no path.
    uc.flexicast.as_mut().unwrap().mc_role = role;
    source.flexicast.as_mut().unwrap().fc_path_id = None;
    assert_eq!(
        source.rfc_delegate_streams(&mut uc, now, kind.copy()),
        Err(Error::Flexicast(FcError::McPath))
    );
    source.flexicast.as_mut().unwrap().fc_path_id = Some(9);
    assert_eq!(
        source.rfc_delegate_streams(&mut uc, now, kind.copy()),
        Err(Error::Flexicast(FcError::McPath))
    );
    // Flexicast is disabled.
    source.flexicast = None;
    assert_eq!(source.rfc_delegate_streams(&mut uc, now, kind), Ok(()));
}

#[test]
fn flow_refuses_acknowledgments_without_a_flow() {
    let rtt = Duration::from_millis(10);
    let now = Instant { nanos: 5 };
    let pns = ranges(&[(1, 2)]);
    let role = McRole::Client(McClientStatus::AwareUnjoined);
    let mut c = connection(role, ReliableFc::Receiver(RFcRecv::default()), false, rtt);
    assert_eq!(
        c.fc_on_ack_received(&pns, now),
        Err(Error::Flexicast(FcError::McInvalidRole(role)))
    );
    assert_eq!(
        c.fc_set_recovery_state(),
        Err(Error::Flexicast(FcError::McInvalidRole(McRole::ServerFlexicast)))
    );
    assert!(c.get_mc_ack_mut().is_none());
    c.flexicast.as_mut().unwrap().mc_role = McRole::ServerFlexicast;
    c.flexicast.as_mut().unwrap().fc_path_id = None;
    assert_eq!(c.fc_on_ack_received(&pns, now), Err(Error::Flexicast(FcError::McPath)));
    assert_eq!(c.fc_set_recovery_state(), Err(Error::Flexicast(FcError::McPath)));
    // An unknown path has nothing to acknowledge.
    c.flexicast.as_mut().unwrap().fc_path_id = Some(9);
    assert_eq!(c.fc_on_ack_received(&pns, now), Ok(()));
    c.flexicast = None;
    assert_eq!(c.fc_on_ack_received(&pns, now), Err(Error::Flexicast(FcError::McDisabled)));
    assert_eq!(c.fc_set_recovery_state(), Err(Error::Flexicast(FcError::McDisabled)));
}

#[test]
fn accessors_follow_the_role() {
    let mut r = ReliableFc::Receiver(RFcRecv::default());
    assert!(r.receiver().is_some());
    assert!(r.server().is_none() && r.source().is_none());
    r.client_mut().unwrap().set_rfc_recv_send_ack(true);
    assert!(r.receiver().unwrap().rfc_recv_send_ack);
    let mut s = ReliableFc::FcFlow(RFcSource::default());
    assert!(s.source_mut().is_some() && s.server_mut().is_none() && s.client_mut().is_none());
    assert!(ReliableFc::Undefined.receiver().is_none());
}

#[test]
fn control_functions_need_their_roles() {
    let rtt = Duration::from_millis(10);
    let role = McRole::ServerFlexicast;
    let mut source = connection(role, ReliableFc::FcFlow(RFcSource::default()), false, rtt);
    let invalid = Error::Flexicast(FcError::McInvalidRole(role));
    assert_eq!(source.get_new_ack_pn_streams().unwrap_err(), invalid);
    assert_eq!(source.fc_on_new_pkt_sent(0, vec![]), Err(invalid));
    assert_eq!(source.fc_delegated_streams(0, vec![]), Err(invalid));
    // Nothing was sent.
    assert_eq!(source.fc_get_sent_pkt(None).unwrap_err(), Error::Done);
    source.flexicast.as_mut().unwrap().fc_path_id = Some(4);
    assert_eq!(
        source.fc_get_sent_pkt(None).unwrap_err(),
        Error::Flexicast(FcError::McPath)
    );
    assert_eq!(
        source.fc_get_delegated_stream(FcUnicastRetransmission::FullRetransmit).unwrap_err(),
        Error::InvalidState
    );
    source.flexicast.as_mut().unwrap().fc_path_id = None;
    assert_eq!(
        source.fc_get_sent_pkt(None).unwrap_err(),
        Error::Flexicast(FcError::McPath)
    );

    let uc_role = McRole::ServerUnicast(McClientStatus::ListenMcPath(true));
    let mut uc = connection(uc_role, ReliableFc::Undefined, false, rtt);
    assert_eq!(
        uc.get_new_ack_pn_streams().unwrap_err(),
        Error::Flexicast(FcError::McReliableDisabled)
    );
    assert_eq!(
        uc.fc_get_sent_pkt(None).unwrap_err(),
        Error::Flexicast(FcError::McInvalidRole(McRole::ServerFlexicast))
    );
    uc.fc_set_first_pn(Some(12));
    assert_eq!(uc.flexicast.as_ref().unwrap().fc_first_pn, Some(12));
    uc.flexicast = None;
    assert_eq!(
        uc.get_new_ack_pn_streams().unwrap_err(),
        Error::Flexicast(FcError::McDisabled)
    );
}

#[test]
fn sent_packets_reach_only_the_joined_flow() {
    let rtt = Duration::from_millis(10);
    let now = Instant { nanos: 5 };
    let role = McRole::ServerUnicast(McClientStatus::ListenMcPath(true));
    let mut uc = connection(role, ReliableFc::UcPath(RFcUcPath::default()), false, rtt);
    let sent = |pn| vec![packet(pn, vec![Frame::Other], 10, now)];
    // Another flow: only the highest number is kept.
    uc.fc_on_new_pkt_sent(3, sent(4)).unwrap();
    assert!(uc.paths.get(1).unwrap().recovery.get_sent_pkts().is_empty());
    let highest = |uc: &Connection| {
        uc.flexicast.as_ref().unwrap().fc_reliable.server().unwrap().fc_highest_pn
    };
    assert_eq!(highest(&uc), Some(5));
    // This flow: packets that were seen are not added again.
    let both = vec![packet(4, vec![], 10, now), packet(5, vec![], 20, now)];
    uc.fc_on_new_pkt_sent(0, both).unwrap();
    let pkts = uc.paths.get(1).unwrap().recovery.get_sent_pkts();
    assert_eq!(pkts.iter().map(|p| p.pkt_num).collect::<Vec<_>>(), vec![5]);
    assert_eq!(highest(&uc), Some(6));
    uc.flexicast.as_mut().unwrap().fc_path_id = Some(7);
    assert_eq!(uc.fc_on_new_pkt_sent(0, sent(9)), Err(Error::InvalidState));
    uc.flexicast.as_mut().unwrap().fc_path_id = None;
    assert_eq!(
        uc.fc_on_new_pkt_sent(0, sent(10)),
        Err(Error::Flexicast(FcError::McPath))
    );
    assert_eq!(highest(&uc), Some(11));
}

#[test]
fn controller_carries_pieces_to_the_unicast_path() {
    let mut fc_pipe = FlexicastPipe::new(1, false, Duration::from_millis(10));
    fc_pipe.source_send_single_stream(None, 3).unwrap();
    fc_pipe.source_send_single_stream(None, 7).unwrap();
    let pieces = fc_pipe
        .source
        .fc_get_delegated_stream(FcUnicastRetransmission::FullRetransmit)
        .unwrap();
    assert_eq!(pieces.len(), 2);
    assert_eq!((pieces[0].stream_id, pieces[0].offset, pieces[0].pn), (3, 0, 2));
    assert_eq!((pieces[1].stream_id, pieces[1].fin, pieces[1].pn), (7, true, 3));
    assert_eq!(pieces[1].payload, FlexicastPipe::stream_data(7));

    // Not for the flow that the receiver follows.
    let uc = &mut fc_pipe.unicast[0].0;
    let other = vec![FcDelegatedStream {
        stream_id: 15,
        offset: 0,
        payload: vec![1],
        fin: true,
        pn: 9,
    }];
    uc.fc_delegated_streams(1, other).unwrap();
    assert!(uc.streams.flushable().is_empty());
    uc.fc_delegated_streams(0, pieces).unwrap();
    assert_eq!(uc.streams.flushable(), &vec![3, 7]);
    assert_eq!(uc.streams.emit(3, 300), Ok(FlexicastPipe::stream_data(3)));
}

#[test]
fn collected_streams_end_on_the_unicast_path() {
    let mut fc_pipe = FlexicastPipe::new(1, false, Duration::from_millis(10));
    fc_pipe.source_send_single_stream(None, 3).unwrap();
    let pieces = fc_pipe
        .source
        .fc_get_delegated_stream(FcUnicastRetransmission::FullRetransmit)
        .unwrap();
    fc_pipe.unicast[0].0.fc_delegated_streams(0, pieces).unwrap();
    fc_pipe.source.streams.collect(3);
    let (uc, _) = &mut fc_pipe.unicast[0];
    fc_pipe.source.fc_notify_collected_streams(uc);
    // The data was not acknowledged yet.
    assert!(!uc.streams.is_collected(3));
    uc.streams.emit(3, 300).unwrap();
    uc.streams.ack(3, 0, 300);
    assert!(uc.streams.is_collected(3));
}

#[test]
fn aggregator_waits_for_all_the_receivers() {
    let mut a = McAck::new();
    a.new_recv(0);
    a.new_recv(0);
    a.on_ack_received(&ranges(&[(2, 4)]));
    assert_eq!(a.missing(2), Some(1));
    assert!(a.full_ack_poll().is_none());
    a.on_ack_received(&ranges(&[(3, 5)]));
    assert_eq!(a.full_ack().unwrap().as_ranges(), &vec![(3, 4)]);
    assert!(a.full_ack().is_none());
    // A packet that all have is done: it does not count again.
    a.on_ack_received(&ranges(&[(3, 4)]));
    assert_eq!(a.missing(3), None);
    // A receiver that joins later has to acknowledge what waits from then on.
    a.new_recv(4);
    assert_eq!(a.missing(2), Some(1));
    assert_eq!(a.missing(4), Some(2));
    a.drain_packets(Some(3));
    assert_eq!(a.missing(2), None);
    assert_eq!(a.missing(4), Some(2));
    a.drain_packets(None);
    assert_eq!(a.get_state().0, 0);
}

#[test]
fn delegated_piece_waits_for_its_receivers() {
    let mut a = McAck::new();
    a.new_recv(0);
    a.new_recv(0);
    a.delegate(7, 0, 300);
    a.delegate(7, 0, 200);
    a.delegate(7, 300, 10);
    assert_eq!(a.get_state().1.len(), 2);
    assert_eq!((a.get_state().1[0].len, a.get_state().1[0].missing), (300, 2));
    // A part of the piece is not enough.
    a.on_stream_ack_received(7, 0, 200);
    assert_eq!(a.get_state().1[0].missing, 2);
    a.on_stream_ack_received(7, 0, 300);
    assert!(a.acked_stream_off().is_none());
    a.on_stream_ack_received(7, 0, 300);
    let pieces = a.acked_stream_off().unwrap();
    assert_eq!(pieces.len(), 1);
    assert_eq!((pieces[0].stream_id, pieces[0].off, pieces[0].len), (7, 0, 300));
    assert!(a.acked_stream_off().is_none());
    // What was not delegated is not followed.
    a.on_stream_ack_received(9, 0, 300);
    assert!(a.acked_stream_off().is_none());
}

#[test]
fn sent_packets_are_given_once_and_reset_the_rtt() {
    let mut fc_pipe = FlexicastPipe::new(1, false, Duration::from_millis(10));
    let source = &mut fc_pipe.source;
    source.flexicast.as_mut().unwrap().mc_announce_data[0].expiration_timer = 350;
    let rtt = |c: &Connection, pid| c.paths.get(pid).unwrap().recovery.rtt;
    // Nothing to give: the round-trip time stays.
    assert_eq!(source.fc_get_sent_pkt(Some(2)).unwrap_err(), Error::Done);
    assert_eq!(rtt(source, 1), Duration::from_millis(10));
    let numbers = |v: Vec<Sent>| v.iter().map(|p| p.pkt_num).collect::<Vec<_>>();
    assert_eq!(numbers(source.fc_get_sent_pkt(None).unwrap()), vec![1]);
    assert_eq!(rtt(source, 1), Duration::from_millis(350));
    // The other path keeps its own.
    assert_eq!(rtt(source, 0), Duration::from_millis(10));
    let now = Instant { nanos: 7 };
    for pn in [4, 6] {
        let r = &mut source.paths.get_mut(1).unwrap().recovery;
        r.on_packet_sent(packet(pn, vec![Frame::Other], 10, now));
    }
    assert_eq!(numbers(source.fc_get_sent_pkt(Some(2)).unwrap()), vec![4, 6]);
    assert_eq!(source.fc_get_sent_pkt(Some(7)).unwrap_err(), Error::Done);
    // A source that announces nothing has no timer.
    source.flexicast.as_mut().unwrap().mc_announce_data.clear();
    source.paths.get_mut(1).unwrap().recovery.rtt = Duration::from_millis(20);
    assert_eq!(numbers(source.fc_get_sent_pkt(Some(5)).unwrap()), vec![6]);
    assert_eq!(rtt(source, 1), Duration::from_millis(20));
}

#[test]
fn recovery_state_starts_empty() {
    let mut fc_pipe = FlexicastPipe::new(1, false, Duration::from_millis(10));
    let r = &mut fc_pipe.source.paths.get_mut(1).unwrap().recovery;
    r.fc_recovery.as_mut().unwrap().fc_new_ack_pn.push(3);
    r.fc_recovery.as_mut().unwrap().fc_new_lost_pn.push(4);
    fc_pipe.source.fc_set_recovery_state().unwrap();
    let r = &fc_pipe.source.paths.get(1).unwrap().recovery;
    let f = r.fc_recovery.as_ref().unwrap();
    assert!(f.is_fc_source && f.fc_new_ack_pn.is_empty() && f.fc_new_lost_pn.is_empty());
    assert!(r.application.is_fc_source && r.initial.is_fc_source && r.handshake.is_fc_source);
}

#[test]
fn only_delegated_pieces_are_counted() {
    let mut fc_pipe = FlexicastPipe::new(1, false, Duration::from_millis(10));
    let lost = ranges(&[(0, 1)]);
    for id in [3, 7, 11] {
        fc_pipe.source_send_single_stream(Some(&lost), id).unwrap();
    }
    fc_pipe.server_control_to_mc_source().unwrap();
    let (uc, _) = &mut fc_pipe.unicast[0];
    // The receiver has the stream 3 completely, and knows another end of the stream 7.
    uc.streams.get_or_create(3, true).unwrap();
    uc.streams.write_at_offset(3, vec![1], 0, true).unwrap();
    uc.streams.emit(3, 1).unwrap();
    uc.streams.ack(3, 0, 1);
    assert!(uc.streams.is_collected(3));
    uc.streams.get_or_create(7, true).unwrap();
    uc.streams.write_at_offset(7, vec![1], 0, true).unwrap();
    let mut mc_ack = McAck::new();
    let source = &mut fc_pipe.source;
    let (nb, (needed, had)) = source
        .paths
        .get_mut(1)
        .unwrap()
        .recovery
        .delegate_streams(
            uc,
            &mut source.streams,
            &mut mc_ack,
            FcUnicastRetransmission::FullRetransmit,
        )
        .unwrap();
    assert_eq!(nb, 1);
    assert_eq!(needed.as_ranges(), &vec![(1, 5)]);
    assert!(had.as_ranges().is_empty());
    assert!(uc.streams.get(11).is_some_and(|s| s.send.is_flushable()));
}

#[test]
fn acknowledgments_filter_one_delegation() {
    let mut fc_pipe = FlexicastPipe::new(2, false, Duration::from_millis(10));
    fc_pipe.source_send_single_stream(Some(&ranges(&[(1, 2)])), 3).unwrap();
    fc_pipe.source_send_single_stream(None, 7).unwrap();
    fc_pipe.server_control_to_mc_source().unwrap();
    fc_pipe.sleep(Duration::from_millis(100));
    fc_pipe.clients_send().unwrap();
    fc_pipe.server_control_to_mc_source().unwrap();
    let now = fc_pipe.now;
    let received = |uc: &Connection| {
        let rfc = uc.flexicast.as_ref().unwrap().fc_reliable.server().unwrap();
        rfc.fc_pn_recv.as_ranges().clone()
    };
    // The first receiver has the lost packet, and says so once.
    let uc = &mut fc_pipe.unicast[0].0;
    assert_eq!(received(uc), vec![(2, 4)]);
    fc_pipe.source.rfc_delegate_streams(uc, now, FcUnicastRetransmission::Delegates(false)).unwrap();
    assert!(received(uc).is_empty());
    assert!(uc.streams.flushable().is_empty());
    fc_pipe.source.rfc_delegate_streams(uc, now, FcUnicastRetransmission::Delegates(false)).unwrap();
    assert_eq!(uc.streams.flushable(), &vec![3]);
}
