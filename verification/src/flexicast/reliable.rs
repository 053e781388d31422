//! Reliability management for flexicast. Depending on the role, the attributes
//! are different.

use std::collections::HashSet;
use vstd::prelude::*;

use crate::connection::Connection;
use crate::connection::ConnectionModel;
use crate::error::Error;
use crate::error::FcError;
use crate::error::McClientStatus;
use crate::error::McRole;
use crate::error::Result;
use crate::flexicast::ack::new_ack;
use crate::flexicast::ack::AckModel;
use crate::flexicast::ack::McAck;
use crate::flexicast::FlexicastAttributes;
use crate::path::Path;
use crate::path::position_is_the_first;
use crate::ranges::RangeSet;
use crate::recovery::flexicast::new_fc_recovery;
use crate::recovery::flexicast::numbers;
use crate::recovery::flexicast::to_retransmit;
use crate::recovery::flexicast::Delegation;
use crate::recovery::flexicast::FcRecovery;
use crate::recovery::largest_in;
use crate::recovery::largest_number_is_in_the_set;
use crate::recovery::lemma_largest_in;
use crate::recovery::AckOutcome;
use crate::recovery::EpochModel;
use crate::recovery::RecoveryModel;
use crate::recovery::SentModel;
use crate::stream::acknowledged_bytes_are_released;
use crate::stream::an_acknowledgment_reaches_its_stream_alone;
use crate::stream::both_sides_complete_a_stream;
use crate::stream::everything_is_acknowledged_on_a_complete_side;
use crate::stream::StreamModel;
use crate::time::Instant;

verus! {

broadcast use vstd::std_specs::hash::group_hash_axioms;

/// Reliable flexicast attributes for the receiver.
#[derive(Clone, Copy, Debug, PartialEq, Eq, Structural)]
pub struct RFcRecv {
    /// Next time the receiver sends an acknowledgment of the flexicast path, if
    /// acknowledgments are delayed.
    pub rfc_next_path_ack: Option<Instant>,
    /// Whether the receiver must send positive acknowledgment packets.
    pub rfc_recv_send_ack: bool,
}

impl RFcRecv {
    /// Sets whether the receiver must send positive acknowledgment packets.
    pub fn set_rfc_recv_send_ack(&mut self, v: bool)
        ensures
            *final(self) == (RFcRecv { rfc_recv_send_ack: v, ..*old(self) }),
    {
        self.rfc_recv_send_ack = v;
    }
}

impl Default for RFcRecv {
    /// No acknowledgment is planned, and none must be sent.
    fn default() -> (r: RFcRecv)
        ensures
            r == (RFcRecv { rfc_next_path_ack: None, rfc_recv_send_ack: false }),
    {
        RFcRecv { rfc_next_path_ack: None, rfc_recv_send_ack: false }
    }
}

/// Reliable flexicast attributes for the unicast path of the source.
#[derive(Debug)]
pub struct RFcUcPath {
    /// Acknowledgment aggregator. Its role is not the one that it has on the
    /// flexicast flow: it tells which pieces of streams were delegated to this
    /// path, and which packets of the flow the receiver has.
    pub mc_ack: McAck,
    /// Packet numbers that the receiver acknowledged. Used for the delegation of
    /// streams.
    pub fc_pn_recv: RangeSet,
    /// Whether the flexicast flow is aware that this receiver listens to it.
    pub notified_fc_source: bool,
    /// First packet number of the flexicast flow that this path has not seen.
    pub fc_highest_pn: Option<u64>,
}

/// What a [`RFcUcPath`] stands for.
#[verifier::ext_equal]
pub struct UcPathModel {
    /// Acknowledgment aggregator.
    pub mc_ack: AckModel,
    /// Packet numbers that the receiver acknowledged.
    pub fc_pn_recv: Set<u64>,
    /// Whether the flexicast flow is aware that this receiver listens to it.
    pub notified_fc_source: bool,
    /// First packet number of the flexicast flow that this path has not seen.
    pub fc_highest_pn: Option<u64>,
}

impl View for RFcUcPath {
    type V = UcPathModel;

    open spec fn view(&self) -> UcPathModel {
        UcPathModel {
            mc_ack: self.mc_ack@,
            fc_pn_recv: self.fc_pn_recv@,
            notified_fc_source: self.notified_fc_source,
            fc_highest_pn: self.fc_highest_pn,
        }
    }
}

impl RFcUcPath {
    /// The aggregator and the packet numbers are well formed.
    pub open spec fn wf(&self) -> bool {
        self.mc_ack.wf() && self.fc_pn_recv.wf()
    }
}

/// A unicast path that has seen nothing: its aggregator has one receiver, which
/// has to acknowledge all the packets.
pub open spec fn new_uc_path() -> UcPathModel {
    UcPathModel {
        mc_ack: new_ack().new_recv(0),
        fc_pn_recv: Set::empty(),
        notified_fc_source: false,
        fc_highest_pn: None,
    }
}

impl Default for RFcUcPath {
    /// A unicast path that has seen nothing.
    fn default() -> (r: RFcUcPath)
        ensures
            r.wf(),
            r@ == new_uc_path(),
    {
        let mut mc_ack = McAck::new();
        mc_ack.new_recv(0);
        RFcUcPath {
            mc_ack,
            notified_fc_source: false,
            fc_highest_pn: None,
            fc_pn_recv: RangeSet::new(),
        }
    }
}

/// Reliable flexicast attributes for the flexicast flow.
#[derive(Debug)]
pub struct RFcSource {
    /// Acknowledgment aggregator.
    pub mc_ack: McAck,
}

impl Default for RFcSource {
    /// A flow without receivers.
    fn default() -> (r: RFcSource)
        ensures
            r.mc_ack.wf(),
            r.mc_ack@ == new_ack(),
    {
        RFcSource { mc_ack: McAck::new() }
    }
}

/// Reliable flexicast attributes.
#[derive(Debug)]
pub enum ReliableFc {
    /// Those of the receiver: the next acknowledgments to send.
    Receiver(RFcRecv),
    /// Those of the unicast path of the source: the acknowledgments that the
    /// receiver sent about the flexicast flow.
    UcPath(RFcUcPath),
    /// Those of the flexicast flow.
    FcFlow(RFcSource),
    /// No role yet.
    Undefined,
}

/// What a [`ReliableFc`] stands for.
#[verifier::ext_equal]
pub enum ReliableModel {
    /// Attributes of the receiver.
    Receiver(RFcRecv),
    /// Attributes of the unicast path of the source.
    UcPath(UcPathModel),
    /// Aggregator of the flexicast flow.
    FcFlow(AckModel),
    /// No role yet.
    Undefined,
}

impl View for ReliableFc {
    type V = ReliableModel;

    open spec fn view(&self) -> ReliableModel {
        match self {
            ReliableFc::Receiver(c) => ReliableModel::Receiver(*c),
            ReliableFc::UcPath(s) => ReliableModel::UcPath(s@),
            ReliableFc::FcFlow(s) => ReliableModel::FcFlow(s.mc_ack@),
            ReliableFc::Undefined => ReliableModel::Undefined,
        }
    }
}

impl ReliableFc {
    /// The attributes are well formed.
    pub open spec fn wf(&self) -> bool {
        match self {
            ReliableFc::UcPath(s) => s.wf(),
            ReliableFc::FcFlow(s) => s.mc_ack.wf(),
            _ => true,
        }
    }

    /// Attributes of the receiver.
    pub fn receiver(&self) -> (r: Option<&RFcRecv>)
        ensures
            match *self {
                ReliableFc::Receiver(c) => r == Some(&c),
                _ => r is None,
            },
    {
        match self {
            ReliableFc::Receiver(c) => Some(c),
            _ => None,
        }
    }

    /// Attributes of the unicast path of the source.
    pub fn server(&self) -> (r: Option<&RFcUcPath>)
        ensures
            match *self {
                ReliableFc::UcPath(s) => r == Some(&s),
                _ => r is None,
            },
    {
        match self {
            ReliableFc::UcPath(s) => Some(s),
            _ => None,
        }
    }

    /// Attributes of the flexicast flow.
    pub fn source(&self) -> (r: Option<&RFcSource>)
        ensures
            match *self {
                ReliableFc::FcFlow(s) => r == Some(&s),
                _ => r is None,
            },
    {
        match self {
            ReliableFc::FcFlow(s) => Some(s),
            _ => None,
        }
    }

    /// Attributes of the receiver, to change them.
    pub fn client_mut(&mut self) -> (r: Option<&mut RFcRecv>)
        ensures
            match *old(self) {
                ReliableFc::Receiver(c) => r is Some && *r->0 == c && *final(self)
                    == ReliableFc::Receiver(*final(r->0)),
                _ => r is None && *final(self) == *old(self),
            },
    {
        match self {
            ReliableFc::Receiver(c) => Some(c),
            _ => None,
        }
    }

    /// Attributes of the unicast path of the source, to change them.
    pub fn server_mut(&mut self) -> (r: Option<&mut RFcUcPath>)
        ensures
            match *old(self) {
                ReliableFc::UcPath(s) => r is Some && *r->0 == s && *final(self)
                    == ReliableFc::UcPath(*final(r->0)),
                _ => r is None && *final(self) == *old(self),
            },
    {
        match self {
            ReliableFc::UcPath(s) => Some(s),
            _ => None,
        }
    }

    /// Attributes of the flexicast flow, to change them.
    pub fn source_mut(&mut self) -> (r: Option<&mut RFcSource>)
        ensures
            match *old(self) {
                ReliableFc::FcFlow(s) => r is Some && *r->0 == s && *final(self)
                    == ReliableFc::FcFlow(*final(r->0)),
                _ => r is None && *final(self) == *old(self),
            },
    {
        match self {
            ReliableFc::FcFlow(s) => Some(s),
            _ => None,
        }
    }
}

impl ConnectionModel {
    /// Whether the application has less to send than the path at `pid` takes.
    pub open spec fn app_limited(self, pid: int) -> bool {
        self.tx_buffered < self.paths.paths[pid].recovery.cwnd_available()
    }

    /// The path at `pid` right before an acknowledgment.
    pub open spec fn before_ack(self, pid: int) -> RecoveryModel {
        let r = self.paths.paths[pid].recovery;
        if self.app_limited(pid) {
            RecoveryModel { app_limited: true, ..r }
        } else {
            r
        }
    }

    /// What an acknowledgment of the packets `pns` on the path at `pid` brings.
    pub open spec fn ack_outcome(self, pid: int, pns: Set<u64>, now: Instant) -> AckOutcome {
        self.before_ack(pid).on_ack(pns, now).1
    }

    /// The flexicast flow once the packets `pns` of the path at `pid` are
    /// acknowledged. The aggregator forgets the packets that left the queue.
    pub open spec fn flow_acked(self, pid: int, pns: Set<u64>, now: Instant) -> ConnectionModel {
        let (r, out) = self.before_ack(pid).on_ack(pns, now);
        let c = ConnectionModel {
            paths: self.paths.with_recovery(pid, r),
            lost_count: (self.lost_count + out.lost_packets) as usize,
            lost_bytes: (self.lost_bytes + out.lost_bytes) as u64,
            acked_bytes: (self.acked_bytes + out.acked_bytes) as u64,
            ..self
        };
        match c.flexicast {
            Some(f) => match f.fc_reliable {
                ReliableModel::FcFlow(a) => c.with_reliable(
                    ReliableModel::FcFlow(a.drain(r.lowest_pn())),
                ),
                _ => c,
            },
            None => c,
        }
    }

    /// Why ranges of received packets cannot be given to this connection.
    pub open spec fn ack_refusal(self) -> Option<Error> {
        match self.flexicast {
            None => Some(Error::Flexicast(FcError::McDisabled)),
            Some(f) => if f.mc_role != McRole::ServerFlexicast {
                Some(Error::Flexicast(FcError::McInvalidRole(f.mc_role)))
            } else if f.fc_path_id is None {
                Some(Error::Flexicast(FcError::McPath))
            } else {
                None
            },
        }
    }

    /// Position of the flexicast path.
    pub open spec fn fc_pid(self) -> Option<int> {
        match self.flexicast {
            Some(f) => match f.fc_path_id {
                Some(id) => self.paths.pid(id),
                None => None,
            },
            None => None,
        }
    }

    /// The connection once `len` bytes at `off` of a stream are acknowledged by
    /// all the receivers.
    pub open spec fn stream_acked(self, stream_id: u64, off: u64, len: nat) -> ConnectionModel {
        if self.streams.streams.contains_key(stream_id) {
            ConnectionModel {
                streams: self.streams.ack(stream_id, off, len),
                tx_buffered: if self.tx_buffered >= len {
                    (self.tx_buffered - len) as usize
                } else {
                    0
                },
                ..self
            }
        } else {
            self
        }
    }

    /// Why the recovery mode of a flexicast flow cannot be set.
    pub open spec fn recovery_refusal(self) -> Option<Error> {
        match self.flexicast {
            None => Some(Error::Flexicast(FcError::McDisabled)),
            Some(f) => if f.mc_role != McRole::ServerFlexicast {
                Some(Error::Flexicast(FcError::McInvalidRole(McRole::ServerFlexicast)))
            } else if self.fc_pid() is None {
                Some(Error::Flexicast(FcError::McPath))
            } else {
                None
            },
        }
    }

    /// Whether a receiver listens to the flow through this unicast path.
    pub open spec fn listens(self) -> bool {
        self.flexicast matches Some(f) && f.mc_role == McRole::ServerUnicast(
            McClientStatus::ListenMcPath(true),
        )
    }

    /// Aggregator of this flexicast flow, if it has one.
    pub open spec fn flow_ack(self) -> Option<AckModel> {
        match self.flexicast {
            Some(f) => match f.fc_reliable {
                ReliableModel::FcFlow(a) => Some(a),
                _ => None,
            },
            None => None,
        }
    }

    /// The packets in flight on the flexicast path.
    pub open spec fn flow_sent(self) -> Seq<SentModel> {
        self.paths.paths[self.fc_pid()->0].recovery.application.sent
    }

    /// The start of a delegation from this flow to the unicast path `uc`.
    pub open spec fn flow_delegation(self, uc: ConnectionModel) -> Delegation {
        uc.delegation(self.streams, self.flow_ack()->0)
    }

    /// Whether a delegation from this flow to the unicast path `uc` takes place.
    pub open spec fn delegates_to(self, uc: ConnectionModel) -> bool {
        &&& self.flexicast is Some
        &&& uc.flexicast is Some
        &&& self.flexicast->0.mc_role == McRole::ServerFlexicast
        &&& uc.listens()
        &&& self.fc_pid() is Some
    }

    /// Why this flow cannot delegate to the unicast path `uc`.
    pub open spec fn delegation_refusal(self, uc: ConnectionModel) -> Option<Error> {
        match self.flexicast {
            Some(f) if uc.flexicast is Some => if f.mc_role != McRole::ServerFlexicast {
                Some(Error::Flexicast(FcError::McInvalidRole(f.mc_role)))
            } else if uc.listens() && self.fc_pid() is None {
                Some(Error::Flexicast(FcError::McPath))
            } else {
                None
            },
            _ => None,
        }
    }

    /// This flow after a delegation with the outcome `d` that left the packets
    /// `sent` in flight.
    pub open spec fn after_delegation(self, d: Delegation, sent: Seq<SentModel>) -> ConnectionModel {
        let pid = self.fc_pid()->0;
        let r = self.paths.paths[pid].recovery;
        ConnectionModel {
            streams: d.fc,
            paths: self.paths.with_recovery(
                pid,
                RecoveryModel { application: EpochModel { sent, ..r.application }, ..r },
            ),
            ..self.with_reliable(ReliableModel::FcFlow(d.fc_ack))
        }
    }

    /// This unicast path once it is known that the packets of the path `path_id`
    /// up to `highest` were lost or acknowledged.
    pub open spec fn noted(self, path_id: u64, highest: u64, now: Instant) -> ConnectionModel {
        match self.paths.pid(path_id) {
            Some(pid) => ConnectionModel {
                paths: self.paths.with_recovery(
                    pid,
                    self.paths.paths[pid].recovery.with_largest(highest).detect_lost(now),
                ),
                ..self
            },
            None => self,
        }
    }
}

/// The largest integer of a set, or 0.
pub open spec fn largest_or_zero(s: Set<u64>) -> u64 {
    match largest_in(s) {
        Some(m) => m,
        None => 0,
    }
}

/// The larger of two integers.
pub open spec fn larger(a: u64, b: u64) -> u64 {
    if a >= b {
        a
    } else {
        b
    }
}

impl Connection {
    /// Aggregator of this flexicast flow.
    pub fn get_mc_ack_mut(&mut self) -> (r: Option<&mut McAck>)
        ensures
            match *old(self) {
                Connection {
                    flexicast: Some(
                        FlexicastAttributes { fc_reliable: ReliableFc::FcFlow(s), .. },
                    ),
                    ..
                } => {
                    &&& r is Some
                    &&& *r->0 == s.mc_ack
                    &&& *final(self) == (Connection {
                        flexicast: Some(
                            FlexicastAttributes {
                                fc_reliable: ReliableFc::FcFlow(RFcSource { mc_ack: *final(r->0) }),
                                ..old(self).flexicast->0
                            },
                        ),
                        ..*old(self)
                    })
                },
                _ => r is None && *final(self) == *old(self),
            },
    {
        match &mut self.flexicast {
            Some(f) => match &mut f.fc_reliable {
                ReliableFc::FcFlow(s) => Some(&mut s.mc_ack),
                _ => None,
            },
            None => None,
        }
    }

    /// Gives ranges of received packets from the receivers to the flexicast flow.
    pub fn fc_on_ack_received(&mut self, ranges: &RangeSet, now: Instant) -> (r: Result<()>)
        requires
            old(self).wf(),
            ranges.wf(),
            old(self)@.ack_refusal() is None ==> (old(self)@.fc_pid() matches Some(pid) ==> {
                let out = old(self)@.ack_outcome(pid, ranges@, now);
                &&& old(self)@.lost_count + out.lost_packets <= usize::MAX
                &&& old(self)@.lost_bytes + out.lost_bytes <= u64::MAX
                &&& old(self)@.acked_bytes + out.acked_bytes <= u64::MAX
            }),
        ensures
            final(self).wf(),
            match old(self)@.ack_refusal() {
                Some(e) => r == Err::<(), Error>(e) && final(self)@ == old(self)@,
                None => r == Ok::<(), Error>(()) && final(self)@ == match old(self)@.fc_pid() {
                    Some(pid) => old(self)@.flow_acked(pid, ranges@, now),
                    None => old(self)@,
                },
            },
    {
        let fc_path_id: u64 = match &self.flexicast {
            None => {
                return Err(Error::Flexicast(FcError::McDisabled));
            },
            Some(fca) => {
                if fca.mc_role != McRole::ServerFlexicast {
                    return Err(Error::Flexicast(FcError::McInvalidRole(fca.mc_role)));
                }
                match fca.fc_path_id {
                    Some(id) => id,
                    None => {
                        return Err(Error::Flexicast(FcError::McPath));
                    },
                }
            },
        };
        let pid: usize = match self.paths.pid_from_path_id(fc_path_id) {
            Some(pid) => pid,
            None => {
                return Ok(());
            },
        };
        let ghost before = self@;
        let tx_buffered: usize = self.tx_buffered;
        let ghost old_paths = self.paths.paths@;
        let p: &mut Path = &mut self.paths.paths[pid];
        if tx_buffered < p.recovery.cwnd_available() {
            p.recovery.app_limited = true;
        }
        let out: AckOutcome = p.recovery.on_ack_received(ranges, now);
        let lowest_pn: Option<u64> = p.recovery.get_lowest_pn_app_epoch();
        self.lost_count += out.lost_packets;
        self.lost_bytes += out.lost_bytes as u64;
        self.acked_bytes += out.acked_bytes as u64;
        proof {
            let r = before.before_ack(pid as int).on_ack(ranges@, now).0;
            assert(self.paths@.paths =~= before.paths.with_recovery(pid as int, r).paths);
        }
        // The aggregator forgets the packets that left the queue.
        if let Some(mc_ack) = self.get_mc_ack_mut() {
            mc_ack.drain_packets(lowest_pn);
        }
        Ok(())
    }

    /// Gives a piece of stream that was delegated for unicast retransmission and
    /// that all the receivers have: the flexicast flow releases its memory.
    pub fn fc_on_stream_ack_received(&mut self, stream_id: u64, off: u64, len: u64) -> (r: Result<
        (),
    >)
        requires
            old(self).wf(),
            off + len <= u64::MAX,
            len <= usize::MAX,
        ensures
            final(self).wf(),
            r == Ok::<(), Error>(()),
            final(self)@ == old(self)@.stream_acked(stream_id, off, len as nat),
    {
        if self.streams.get(stream_id).is_some() {
            self.streams.ack(stream_id, off, len as usize);
            self.tx_buffered = if self.tx_buffered >= len as usize {
                self.tx_buffered - len as usize
            } else {
                0
            };
        }
        Ok(())
    }

    /// Sets the recovery mode of the flexicast flow.
    pub fn fc_set_recovery_state(&mut self) -> (r: Result<()>)
        requires
            old(self).wf(),
        ensures
            final(self).wf(),
            match old(self)@.recovery_refusal() {
                Some(e) => r == Err::<(), Error>(e) && final(self)@ == old(self)@,
                None => r == Ok::<(), Error>(()) && final(self)@ == (ConnectionModel {
                    paths: old(self)@.paths.with_recovery(
                        old(self)@.fc_pid()->0,
                        RecoveryModel {
                            fc_recovery: Some(new_fc_recovery(true)),
                            ..old(self)@.paths.paths[old(self)@.fc_pid()->0].recovery.with_source(
                                true,
                            )
                        },
                    ),
                    ..old(self)@
                }),
            },
    {
        let path_id: u64 = match &self.flexicast {
            None => {
                return Err(Error::Flexicast(FcError::McDisabled));
            },
            Some(fca) => {
                if fca.mc_role != McRole::ServerFlexicast {
                    return Err(Error::Flexicast(FcError::McInvalidRole(McRole::ServerFlexicast)));
                }
                match fca.get_fc_path_id() {
                    Some(id) => id,
                    None => {
                        return Err(Error::Flexicast(FcError::McPath));
                    },
                }
            },
        };
        let pid: usize = match self.paths.pid_from_path_id(path_id) {
            Some(pid) => pid,
            None => {
                return Err(Error::Flexicast(FcError::McPath));
            },
        };
        let p: &mut Path = &mut self.paths.paths[pid];
        p.recovery.fc_recovery = Some(FcRecovery::new(true));
        p.recovery.set_fc_recovery_epoch(true);
        proof {
            assert(self.paths@.paths =~= old(self)@.paths.with_recovery(
                pid as int,
                RecoveryModel {
                    fc_recovery: Some(new_fc_recovery(true)),
                    ..old(self)@.paths.paths[pid as int].recovery.with_source(true)
                },
            ).paths);
        }
        Ok(())
    }

    /// The flexicast flow delegates lost pieces of streams to the unicast path
    /// `uc`. Receivers may get the same piece several times if some packets are
    /// delayed.
    ///
    /// The `retr_kind` indicates the type of retransmission that is performed.
    #[verifier::rlimit(40)]
    pub fn rfc_delegate_streams(
        &mut self,
        uc: &mut Connection,
        now: Instant,
        retr_kind: FcUnicastRetransmission,
    ) -> (r: Result<()>)
        requires
            old(self).wf(),
            old(uc).wf(),
            old(self)@.delegates_to(old(uc)@) ==> {
                let s = old(self)@.flow_sent();
                let recv = old(uc)@.received();
                &&& old(self)@.flow_ack() is Some
                &&& retr_kind@.fits()
                &&& old(self)@.flow_delegation(old(uc)@).nb_delegated(s, retr_kind@, recv) <= u64::MAX
                &&& old(self)@.flow_delegation(old(uc)@).outcome(s, retr_kind@, recv).error is None
                    ==> old(uc)@.uc_ack() is Some
            },
        ensures
            final(self).wf(),
            final(uc).wf(),
            match old(self)@.delegation_refusal(old(uc)@) {
                Some(e) => {
                    &&& r == Err::<(), Error>(e)
                    &&& final(self)@ == old(self)@
                    &&& final(uc)@ == old(uc)@
                },
                None => if !old(self)@.delegates_to(old(uc)@) {
                    &&& r == Ok::<(), Error>(())
                    &&& final(self)@ == old(self)@
                    &&& final(uc)@ == old(uc)@
                } else {
                    let s = old(self)@.flow_sent();
                    let recv = old(uc)@.received();
                    let start = old(self)@.flow_delegation(old(uc)@);
                    let d = start.outcome(s, retr_kind@, recv);
                    let sent = start.acked_first(retr_kind@).marked(s, retr_kind@, recv);
                    let highest = larger(
                        largest_or_zero(numbers(to_retransmit(s, retr_kind@, recv))),
                        largest_or_zero(recv),
                    );
                    &&& final(self)@ == old(self)@.after_delegation(d, sent)
                    &&& match d.error {
                        Some(e) => r == Err::<(), Error>(e) && final(uc)@ == old(uc)@.delegated(d),
                        None => r == Ok::<(), Error>(()) && final(uc)@ == old(uc)@.delegated(
                            d,
                        ).noted(old(self)@.flexicast->0.fc_path_id->0, highest, now),
                    }
                },
            },
    {
        let path_id: Option<u64> = match &self.flexicast {
            None => {
                return Ok(());
            },
            Some(fc_fc) => match &uc.flexicast {
                None => {
                    return Ok(());
                },
                Some(fc_uc) => {
                    if fc_fc.mc_role != McRole::ServerFlexicast {
                        return Err(Error::Flexicast(FcError::McInvalidRole(fc_fc.mc_role)));
                    }
                    if fc_uc.mc_role != McRole::ServerUnicast(McClientStatus::ListenMcPath(true)) {
                        return Ok(());
                    }
                    fc_fc.fc_path_id
                },
            },
        };
        let path_id: u64 = match path_id {
            Some(id) => id,
            None => {
                return Err(Error::Flexicast(FcError::McPath));
            },
        };
        let pid: usize = match self.paths.pid_from_path_id(path_id) {
            Some(pid) => pid,
            None => {
                return Err(Error::Flexicast(FcError::McPath));
            },
        };
        let ghost s = self@.flow_sent();
        let ghost recv = uc@.received();
        let ghost start = self@.flow_delegation(uc@);
        let mut mc_ack = McAck::new();
        if let Some(a) = self.get_mc_ack_mut() {
            core::mem::swap(a, &mut mc_ack);
        }
        let p: &mut Path = &mut self.paths.paths[pid];
        let delegated: Result<(u64, (RangeSet, RangeSet))> = p.recovery.delegate_streams(
            uc,
            &mut self.streams,
            &mut mc_ack,
            retr_kind,
        );
        if let Some(a) = self.get_mc_ack_mut() {
            core::mem::swap(a, &mut mc_ack);
        }
        proof {
            let d = start.outcome(s, retr_kind@, recv);
            let sent = start.acked_first(retr_kind@).marked(s, retr_kind@, recv);
            assert(self.paths@.paths =~= old(self)@.after_delegation(d, sent).paths.paths);
            assert(self@ =~= old(self)@.after_delegation(d, sent));
        }
        let (lost_pn, recv_pn): (RangeSet, RangeSet) = match delegated {
            Ok(v) => v.1,
            Err(e) => {
                return Err(e);
            },
        };
        let highest_lost: u64 = largest_number(&lost_pn);
        let highest_recv: u64 = largest_number(&recv_pn);
        let highest_pn: u64 = if highest_lost >= highest_recv {
            highest_lost
        } else {
            highest_recv
        };
        let ghost before = uc@;
        if let Some(pid) = uc.paths.pid_from_path_id(path_id) {
            let p: &mut Path = &mut uc.paths.paths[pid];
            p.recovery.set_largest_ack(highest_pn);
            let _lost: (usize, usize) = p.recovery.detect_lost_packets(now);
            proof {
                assert(uc.paths@.paths =~= before.noted(path_id, highest_pn, now).paths.paths);
            }
        }
        Ok(())
    }
}

/// The largest packet number of a set, or 0.
fn largest_number(pns: &RangeSet) -> (r: u64)
    requires
        pns.wf(),
    ensures
        r == largest_or_zero(pns@),
{
    match pns.last() {
        Some(m) => {
            proof {
                lemma_largest_in(pns@, m);
            }
            m
        },
        None => 0,
    }
}

/// All possible kinds of unicast retransmissions.
#[derive(Debug)]
pub enum FcUnicastRetransmission {
    /// The source retransmits reliable frames that it considers as lost after
    /// acknowledgment aggregation. The value tells whether the flexicast flow can
    /// consider the packets delegated.
    Delegates(bool),
    /// Full retransmission. Happens when the source falls back on unicast for
    /// some receiver.
    FullRetransmit,
    /// This unicast path sees lost packets on its own and does not wait for the
    /// other receivers. The value contains the packet numbers that are lost for
    /// this receiver.
    PerUcPath(HashSet<u64>),
}

/// What a [`FcUnicastRetransmission`] stands for.
#[verifier::ext_equal]
pub enum RetransmissionModel {
    /// What the flow considers as lost.
    Delegates(bool),
    /// Everything in flight.
    FullRetransmit,
    /// The packets that are lost for one receiver.
    PerUcPath(Set<u64>),
}

impl View for FcUnicastRetransmission {
    type V = RetransmissionModel;

    open spec fn view(&self) -> RetransmissionModel {
        match self {
            FcUnicastRetransmission::Delegates(b) => RetransmissionModel::Delegates(*b),
            FcUnicastRetransmission::FullRetransmit => RetransmissionModel::FullRetransmit,
            FcUnicastRetransmission::PerUcPath(s) => RetransmissionModel::PerUcPath(s@),
        }
    }
}

impl FcUnicastRetransmission {
    /// The same kind of retransmission.
    pub fn copy(&self) -> (r: FcUnicastRetransmission)
        ensures
            r@ == self@,
    {
        match self {
            FcUnicastRetransmission::Delegates(b) => FcUnicastRetransmission::Delegates(*b),
            FcUnicastRetransmission::FullRetransmit => FcUnicastRetransmission::FullRetransmit,
            FcUnicastRetransmission::PerUcPath(s) => {
                let mut t: HashSet<u64> = HashSet::new();
                for pn in it: s.iter()
                    invariant
                        t@ == it.seq().take(it.index()).unref().to_set(),
                        it.seq().unref().to_set() == s@,
                        it.index() == it.seq().len() ==> t@ == s@,
                {
                    t.insert(*pn);
                    assert(it.seq().take(it.index() + 1).unref() =~= it.seq().take(
                        it.index(),
                    ).unref().push(*pn));
                    assert(t@ =~= it.seq().take(it.index() + 1).unref().to_set()) by {
                        lemma_push_to_set(it.seq().take(it.index()).unref(), *pn);
                    }
                    assert(it.index() + 1 == it.seq().len() ==> it.seq().take(it.index() + 1)
                        =~= it.seq());
                }
                assert(t@ =~= s@);
                FcUnicastRetransmission::PerUcPath(t)
            },
        }
    }
}

/// Adding an item to a sequence adds it to the set of the items.
pub proof fn lemma_push_to_set(s: Seq<u64>, x: u64)
    ensures
        s.push(x).to_set() == s.to_set().insert(x),
{
    assert forall|y: u64| s.push(x).to_set().contains(y) == s.to_set().insert(x).contains(y) by {
        assert(s.push(x)[s.len() as int] == x);
        if s.contains(y) {
            let i = choose|i: int| 0 <= i < s.len() && s[i] == y;
            assert(s.push(x)[i] == y);
        }
        if s.push(x).contains(y) && y != x {
            let i = choose|i: int| 0 <= i < s.push(x).len() && s.push(x)[i] == y;
            assert(s[i] == y);
        }
    }
    assert(s.push(x).to_set() =~= s.to_set().insert(x));
}

/// Data of a stream of the flow that all the receivers acknowledged is released, and no
/// other data: on a stream that stays open, each byte of the range that was acknowledged is
/// known to be acknowledged and is neither kept nor sent again, and the bytes at all the
/// other offsets are as they were. As much less is buffered, at least nothing. The other
/// streams stay as they were, and so does everything where the stream is not open.
pub proof fn acknowledged_stream_data_is_released(
    c: ConnectionModel,
    id: u64,
    off: u64,
    len: nat,
    x: u64,
    other: u64,
)
    requires
        !c.streams.collected.contains(id),
        other != id,
    ensures
        ({
            let after = c.stream_acked(id, off, len);
            let m = c.streams.streams[id].send;
            let a = after.streams.streams[id].send;
            &&& !c.streams.streams.contains_key(id) ==> after == c
            &&& c.streams.streams.contains_key(id) ==> {
                &&& after.streams.streams.contains_key(id) != after.streams.collected.contains(id)
                &&& after.streams.streams.contains_key(id) && off <= x < off + len
                    ==> a.acked.contains(x) && !a.data.contains_key(x) && !a.pending.contains(x)
                &&& after.streams.streams.contains_key(id) && !(off <= x < off + len) ==> {
                    &&& a.acked.contains(x) == m.acked.contains(x)
                    &&& a.data.contains_key(x) == m.data.contains_key(x)
                    &&& m.data.contains_key(x) ==> a.data[x] == m.data[x]
                    &&& a.pending.contains(x) == m.pending.contains(x)
                }
                &&& len <= c.tx_buffered ==> after.tx_buffered + len == c.tx_buffered
                &&& len >= c.tx_buffered ==> after.tx_buffered == 0
            }
            &&& after.streams.streams.contains_key(other) == c.streams.streams.contains_key(other)
            &&& c.streams.streams.contains_key(other) ==> after.streams.streams[other]
                == c.streams.streams[other]
            &&& after.paths == c.paths
            &&& after.flexicast == c.flexicast
            &&& after.lost_count == c.lost_count
            &&& after.lost_bytes == c.lost_bytes
            &&& after.acked_bytes == c.acked_bytes
            &&& after.fc_flow_cwnd == c.fc_flow_cwnd
        }),
{
    if c.streams.streams.contains_key(id) {
        acknowledged_bytes_are_released(c.streams.streams[id].send, off, len, x);
        an_acknowledgment_reaches_its_stream_alone(c.streams, id, off, len, other);
    }
}

/// A stream of which a receiver acknowledged all the bytes is closed for good, once nothing
/// is left to read on it and the peer sends nothing more: the last range that was missing
/// closes it, and an earlier one does not.
pub proof fn a_stream_ends_with_its_last_acknowledgment(
    c: ConnectionModel,
    id: u64,
    off: u64,
    len: nat,
    end: u64,
)
    requires
        c.streams.streams.contains_key(id),
        !c.streams.collected.contains(id),
        c.streams.streams[id].local,
        !c.streams.streams[id].bidi,
        !c.streams.streams[id].readable,
        !c.streams.streams[id].send.closed,
        c.streams.streams[id].send.fin_off == Some(end),
        forall|x: u64|
            #[trigger] c.streams.streams[id].send.acked.contains(x) ==> x < end,
        off + len <= end,
    ensures
        c.stream_acked(id, off, len).streams.collected.contains(id) <==> forall|x: u64|
            x < end ==> off <= x < off + len
                || #[trigger] c.streams.streams[id].send.acked.contains(x),
{
    let m = c.streams.streams[id].send;
    let a = m.ack(off, len);
    everything_is_acknowledged_on_a_complete_side(a);
    let t = StreamModel { send: a, ..c.streams.streams[id] };
    both_sides_complete_a_stream(t);
    let other = if id == 0 {
        1u64
    } else {
        0u64
    };
    an_acknowledgment_reaches_its_stream_alone(c.streams, id, off, len, other);
    if a.is_complete() {
        assert forall|x: u64| x < end implies off <= x < off + len || #[trigger] m.acked.contains(
            x,
        ) by {
            assert(a.acked.contains(x));
        }
    }
    if forall|x: u64| x < end ==> off <= x < off + len || #[trigger] m.acked.contains(x) {
        assert forall|x: u64| #[trigger] a.acked.contains(x) <==> x < end by {
            assert(m.acked.contains(x) || !m.acked.contains(x));
        }
        assert(a.is_complete());
    }
}

/// Only the source of a flow takes acknowledgments of its packets, and only with a path.
pub proof fn only_sources_take_acknowledgments(c: ConnectionModel)
    ensures
        c.flexicast is None ==> c.ack_refusal() == Some(Error::Flexicast(FcError::McDisabled)) && c.recovery_refusal()
            == Some(Error::Flexicast(FcError::McDisabled)),
        c.flexicast matches Some(f) ==> {
            &&& !(f.mc_role is ServerFlexicast) ==> c.ack_refusal() == Some(
                Error::Flexicast(FcError::McInvalidRole(f.mc_role)),
            ) && c.recovery_refusal() == Some(
                Error::Flexicast(FcError::McInvalidRole(McRole::ServerFlexicast)),
            )
            &&& f.mc_role is ServerFlexicast && f.fc_path_id is None ==> c.ack_refusal() == Some(
                Error::Flexicast(FcError::McPath),
            )
            &&& f.mc_role is ServerFlexicast && f.fc_path_id is Some ==> c.ack_refusal() is None
            &&& f.mc_role is ServerFlexicast ==> c.recovery_refusal() == if c.fc_pid() is Some {
                None
            } else {
                Some(Error::Flexicast(FcError::McPath))
            }
        },
{
}

/// The flexicast path is the first one with the identifier that the flow has for it.
pub proof fn flexicast_path_is_found_by_its_identifier(c: ConnectionModel, i: int)
    ensures
        c.flexicast is None || c.flexicast->0.fc_path_id is None ==> c.fc_pid() is None,
        c.flexicast is Some && c.flexicast->0.fc_path_id is Some ==> {
            let id = c.flexicast->0.fc_path_id->0;
            &&& c.fc_pid() == Some(i) <==> 0 <= i < c.paths.paths.len() && c.paths.paths[i].path_id
                == id && forall|j: int|
                0 <= j < i ==> (#[trigger] c.paths.paths[j]).path_id != id
            &&& c.fc_pid() is None <==> forall|j: int|
                0 <= j < c.paths.paths.len() ==> (#[trigger] c.paths.paths[j]).path_id != id
        },
{
    if c.flexicast is Some && c.flexicast->0.fc_path_id is Some {
        position_is_the_first(c.paths.paths, c.flexicast->0.fc_path_id->0, i);
    }
}

/// Acknowledged packets of the flow are noted on the flexicast path alone. What was lost and
/// acknowledged is added to the counts. The path is limited by the application where less is
/// buffered than its window takes. The aggregator forgets the packets that left the queue,
/// and nothing else of the connection changes.
pub proof fn acknowledged_packets_are_noted(
    c: ConnectionModel,
    pid: int,
    pns: Set<u64>,
    now: Instant,
    i: int,
)
    requires
        0 <= pid < c.paths.paths.len(),
        0 <= i < c.paths.paths.len(),
        c.flexicast matches Some(f) && f.fc_reliable is FcFlow,
        ({
            let out = c.ack_outcome(pid, pns, now);
            &&& c.lost_count + out.lost_packets <= usize::MAX
            &&& c.lost_bytes + out.lost_bytes <= u64::MAX
            &&& c.acked_bytes + out.acked_bytes <= u64::MAX
        }),
    ensures
        ({
            let after = c.flow_acked(pid, pns, now);
            let r = c.paths.paths[pid].recovery;
            let limited = c.tx_buffered < r.cwnd_available();
            let (s, out) = (RecoveryModel { app_limited: r.app_limited || limited, ..r }).on_ack(
                pns,
                now,
            );
            let a = c.flexicast->0.fc_reliable->FcFlow_0;
            let b = after.flexicast->0.fc_reliable->FcFlow_0;
            &&& after.paths.paths[pid].recovery == s
            &&& i != pid ==> after.paths.paths[i] == c.paths.paths[i]
            &&& after.lost_count == c.lost_count + out.lost_packets
            &&& after.lost_bytes == c.lost_bytes + out.lost_bytes
            &&& after.acked_bytes == c.acked_bytes + out.acked_bytes
            &&& after.streams == c.streams
            &&& after.tx_buffered == c.tx_buffered
            &&& after.flexicast->0.fc_reliable is FcFlow
            &&& s.application.sent.len() == 0 ==> b == a.drain(None)
            &&& s.application.sent.len() > 0 ==> b == a.drain(Some(s.application.sent[0].pkt_num))
            &&& after.flexicast->0.announces == c.flexicast->0.announces
            &&& after.flexicast->0.congestion == c.flexicast->0.congestion
        }),
{
    let r = c.paths.paths[pid].recovery;
    if !c.app_limited(pid) {
        assert((RecoveryModel { app_limited: r.app_limited || false, ..r }) == r);
    }
}

/// A flow delegates to the unicast paths of receivers that listen to it, and to no others. It is
/// refused where the connection is not the source of a flow, or has no flexicast path; and
/// where one of the two has no flexicast state, nothing happens.
pub proof fn flows_delegate_to_their_listeners(c: ConnectionModel, uc: ConnectionModel)
    ensures
        ({
            let source = c.flexicast is Some && c.flexicast->0.mc_role is ServerFlexicast;
            let listener = uc.flexicast is Some && uc.flexicast->0.mc_role
                == McRole::ServerUnicast(McClientStatus::ListenMcPath(true));
            &&& c.delegates_to(uc) <==> source && listener && c.fc_pid() is Some
            &&& c.flexicast is None || uc.flexicast is None ==> c.delegation_refusal(uc) is None
            &&& c.flexicast is Some && uc.flexicast is Some && !source ==> c.delegation_refusal(uc)
                == Some(Error::Flexicast(FcError::McInvalidRole(c.flexicast->0.mc_role)))
            &&& source && uc.flexicast is Some && listener && c.fc_pid() is None
                ==> c.delegation_refusal(uc) == Some(Error::Flexicast(FcError::McPath))
            &&& source && uc.flexicast is Some && (!listener || c.fc_pid() is Some)
                ==> c.delegation_refusal(uc) is None
            &&& uc.listens() <==> listener
        }),
{
}

/// After a delegation the flow has the streams and the aggregator of its outcome, and its
/// flexicast path has the packets that were left in flight; its other paths and everything
/// else are as they were.
pub proof fn flows_keep_the_outcome_of_a_delegation(
    c: ConnectionModel,
    d: Delegation,
    sent: Seq<SentModel>,
    i: int,
)
    requires
        c.fc_pid() matches Some(pid) && 0 <= pid < c.paths.paths.len(),
        0 <= i < c.paths.paths.len(),
    ensures
        ({
            let after = c.after_delegation(d, sent);
            let pid = c.fc_pid()->0;
            let r = c.paths.paths[pid].recovery;
            let s = after.paths.paths[pid].recovery;
            &&& after.streams == d.fc
            &&& after.flow_ack() == Some(d.fc_ack)
            &&& s.application.sent == sent
            &&& s.application.largest_acked == r.application.largest_acked
            &&& s.application.is_fc_source == r.application.is_fc_source
            &&& s.rtt == r.rtt && s.cwnd == r.cwnd
            &&& i != pid ==> after.paths.paths[i] == c.paths.paths[i]
            &&& after.tx_buffered == c.tx_buffered && after.lost_count == c.lost_count
                && after.lost_bytes == c.lost_bytes && after.acked_bytes == c.acked_bytes
            &&& after.flexicast->0.announces == c.flexicast->0.announces
            &&& after.flexicast->0.mc_role == c.flexicast->0.mc_role
        }),
{
}

/// The packets of the flow up to the highest delegated or received one count as resolved on the
/// unicast path: that number counts as acknowledged on its path of the flow, losses are
/// declared there, and its other paths stay. Without such a path nothing changes.
pub proof fn delegated_packets_count_as_resolved(
    c: ConnectionModel,
    path_id: u64,
    highest: u64,
    now: Instant,
    i: int,
)
    requires
        0 <= i < c.paths.paths.len(),
    ensures
        ({
            let after = c.noted(path_id, highest, now);
            let is_first = c.paths.paths[i].path_id == path_id && forall|j: int|
                0 <= j < i ==> (#[trigger] c.paths.paths[j]).path_id != path_id;
            let r = c.paths.paths[i].recovery;
            let s = after.paths.paths[i].recovery;
            &&& is_first ==> (s.application.largest_acked matches Some(m) && m >= highest && (
            r.application.largest_acked matches Some(l) ==> m >= l))
            &&& is_first ==> s == r.with_largest(highest).detect_lost(now)
            &&& !is_first ==> after.paths.paths[i] == c.paths.paths[i]
            &&& after.streams == c.streams && after.flexicast == c.flexicast
        }),
{
    position_is_the_first(c.paths.paths, path_id, i);
    if let Some(k) = c.paths.pid(path_id) {
        position_is_the_first(c.paths.paths, path_id, k);
    }
}

/// The larger of two numbers, and the largest one of a set or 0, are none below the others.
pub proof fn larger_numbers_are_bounds(a: u64, b: u64, s: Set<u64>)
    requires
        s.finite(),
    ensures
        larger(a, b) >= a && larger(a, b) >= b,
        larger(a, b) == a || larger(a, b) == b,
        forall|x: u64| #[trigger] s.contains(x) ==> x <= largest_or_zero(s),
        s.contains(largest_or_zero(s)) || (largest_or_zero(s) == 0 && s.len() == 0),
{
    largest_number_is_in_the_set(s);
    if largest_in(s) is None {
        assert(s =~= Set::<u64>::empty());
    }
}

/// A unicast path starts with one receiver, which has acknowledged nothing and has seen nothing
/// of the flow.
pub proof fn new_unicast_paths_have_one_receiver(pn: u64)
    ensures
        new_uc_path().mc_ack.nb_recv == 1,
        !new_uc_path().mc_ack.missing.contains_key(pn),
        !new_uc_path().mc_ack.done.contains(pn),
        !new_uc_path().mc_ack.full.contains(pn),
        new_uc_path().mc_ack.pieces.len() == 0,
        new_uc_path().mc_ack.acked_pieces.len() == 0,
        !new_uc_path().fc_pn_recv.contains(pn),
        !new_uc_path().notified_fc_source,
        new_uc_path().fc_highest_pn is None,
{
}

/// The flow releases a piece that all its receivers acknowledged: its bytes and no others, on its
/// stream and no other one.
pub proof fn acknowledged_pieces_are_released(
    c: &mut Connection,
    id: u64,
    off: u64,
    len: u64,
    r: Result<()>,
    x: u64,
)
    requires
        call_ensures(Connection::fc_on_stream_ack_received, (c, id, off, len), r),
        old(c)@.streams.streams.contains_key(id),
        !old(c)@.streams.collected.contains(id),
        final(c)@.streams.streams.contains_key(id),
    ensures
        ({
            let m = old(c)@.streams.streams[id].send;
            let a = final(c)@.streams.streams[id].send;
            &&& r is Ok
            &&& off <= x < off + len ==> a.acked.contains(x) && !a.data.contains_key(x)
            &&& x < off || x >= off + len ==> {
                &&& a.data.contains_key(x) == m.data.contains_key(x)
                &&& m.data.contains_key(x) ==> a.data[x] == m.data[x]
                &&& a.acked.contains(x) == m.acked.contains(x)
                &&& a.pending.contains(x) == m.pending.contains(x)
            }
        }),
{
    let other = if id == 0 {
        1u64
    } else {
        0u64
    };
    acknowledged_stream_data_is_released(old(c)@, id, off, len as nat, x, other);
}

/// The recovery of the flexicast path of a source becomes that of the source of a flow, in all the
/// spaces of packets; its packets stay.
pub proof fn flow_recovery_is_that_of_a_source(c: &mut Connection, r: Result<()>, pid: int)
    requires
        call_ensures(Connection::fc_set_recovery_state, (c,), r),
        old(c)@.recovery_refusal() is None,
        old(c)@.fc_pid() == Some(pid),
        0 <= pid < old(c)@.paths.paths.len(),
    ensures
        ({
            let was = old(c)@.paths.paths[pid].recovery;
            let is = final(c)@.paths.paths[pid].recovery;
            &&& r is Ok
            &&& is.fc_recovery is Some && is.fc_recovery->0.is_fc_source
            &&& is.application.is_fc_source && is.initial.is_fc_source
            &&& is.handshake.is_fc_source
            &&& is.application.sent == was.application.sent
            &&& is.rtt == was.rtt && is.cwnd == was.cwnd
            &&& final(c)@.streams == old(c)@.streams
        }),
{
}

/// A delegation to a receiver that does not listen changes nothing. One that listens gets its
/// streams and its aggregator from the outcome, the flow keeps the rest of it, and an error of
/// the outcome is the error of the delegation.
pub proof fn delegations_reach_listeners_alone(
    c: &mut Connection,
    uc: &mut Connection,
    now: Instant,
    kind: FcUnicastRetransmission,
    r: Result<()>,
)
    requires
        call_ensures(Connection::rfc_delegate_streams, (c, uc, now, kind), r),
    ensures
        !old(c)@.delegates_to(old(uc)@) ==> final(c)@ == old(c)@ && final(uc)@ == old(uc)@,
        old(c)@.delegates_to(old(uc)@) ==> {
            let s = old(c)@.flow_sent();
            let d = old(c)@.flow_delegation(old(uc)@).outcome(s, kind@, old(uc)@.received());
            &&& r is Ok <==> d.error is None
            &&& r is Err ==> Some(r->Err_0) == d.error
            &&& final(c)@.streams == d.fc
            &&& final(c)@.flow_ack() == Some(d.fc_ack)
            &&& final(uc)@.streams == d.uc
        },
{
}

} // verus!
