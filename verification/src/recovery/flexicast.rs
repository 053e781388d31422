//! Flexicast part of the recovery mechanism.

use std::collections::HashSet;
use vstd::prelude::*;

use crate::connection::Connection;
use crate::connection::ConnectionModel;
use crate::error::Error;
use crate::error::FcError;
use crate::error::Result;
use crate::flexicast::ack::AckModel;
use crate::flexicast::ack::McAck;
use crate::flexicast::laws::retransmission_cancels_out;
use crate::flexicast::laws::send_wf;
use crate::flexicast::reliable::FcUnicastRetransmission;
use crate::flexicast::reliable::ReliableFc;
use crate::flexicast::reliable::ReliableModel;
use crate::flexicast::reliable::RetransmissionModel;
use crate::flexicast::reliable::UcPathModel;
use crate::flexicast::FlexicastModel;
use crate::ranges::span;
use crate::ranges::RangeSet;
use crate::recovery::models;
use crate::recovery::Epoch;
use crate::recovery::EpochModel;
use crate::recovery::Frame;
use crate::recovery::Recovery;
use crate::recovery::RecoveryModel;
use crate::recovery::Sent;
use crate::recovery::SentModel;
use crate::stream::StreamMap;
use crate::stream::StreamsModel;

verus! {

broadcast use vstd::std_specs::hash::group_hash_axioms;

/// Flexicast structure for the recovery mechanism.
#[derive(Debug)]
pub struct FcRecovery {
    /// Whether this is the recovery of the source of a flexicast flow.
    pub is_fc_source: bool,
    /// Packet numbers that have been newly acknowledged.
    pub fc_new_ack_pn: Vec<u64>,
    /// Packet numbers that have been newly declared as lost.
    pub fc_new_lost_pn: Vec<u64>,
}

/// What a [`FcRecovery`] stands for.
#[verifier::ext_equal]
pub struct FcRecoveryModel {
    /// Whether this is the recovery of the source of a flexicast flow.
    pub is_fc_source: bool,
    /// Packet numbers that have been newly acknowledged.
    pub new_acked: Seq<u64>,
    /// Packet numbers that have been newly declared as lost.
    pub new_lost: Seq<u64>,
}

impl View for FcRecovery {
    type V = FcRecoveryModel;

    open spec fn view(&self) -> FcRecoveryModel {
        FcRecoveryModel {
            is_fc_source: self.is_fc_source,
            new_acked: self.fc_new_ack_pn@,
            new_lost: self.fc_new_lost_pn@,
        }
    }
}

/// A flexicast recovery with no packet number.
pub open spec fn new_fc_recovery(is_fc_source: bool) -> FcRecoveryModel {
    FcRecoveryModel { is_fc_source, new_acked: Seq::empty(), new_lost: Seq::empty() }
}

impl FcRecovery {
    /// New flexicast recovery.
    pub fn new(is_fc_source: bool) -> (r: FcRecovery)
        ensures
            r@ == new_fc_recovery(is_fc_source),
    {
        FcRecovery { is_fc_source, fc_new_ack_pn: Vec::new(), fc_new_lost_pn: Vec::new() }
    }
}

/// What a delegation of streams reads and changes besides the packets.
#[verifier::ext_equal]
pub struct Delegation {
    /// Streams of the flexicast flow.
    pub fc: StreamsModel,
    /// Streams of the unicast path.
    pub uc: StreamsModel,
    /// Aggregator of the flexicast flow.
    pub fc_ack: AckModel,
    /// Aggregator of the unicast path, if it has one.
    pub uc_ack: Option<AckModel>,
    /// The error that ended the delegation.
    pub error: Option<Error>,
}

impl RetransmissionModel {
    /// Whether the aggregators have to follow the pieces of streams.
    pub open spec fn follows(self) -> bool {
        self is Delegates
    }

    /// Whether the flow considers the packets delegated afterwards.
    pub open spec fn marks(self) -> bool {
        match self {
            RetransmissionModel::Delegates(last) => last,
            RetransmissionModel::FullRetransmit => true,
            RetransmissionModel::PerUcPath(_) => false,
        }
    }

    /// Whether the search for packets goes on past packets that are neither lost
    /// nor acknowledged.
    pub open spec fn goes_on(self) -> bool {
        match self {
            RetransmissionModel::Delegates(_) => false,
            RetransmissionModel::FullRetransmit => true,
            RetransmissionModel::PerUcPath(pns) => pns != Set::<u64>::empty(),
        }
    }

    /// Whether a packet that the search reaches is one to retransmit.
    pub open spec fn selects(self, p: SentModel) -> bool {
        p.time_lost is Some || match self {
            RetransmissionModel::Delegates(_) => false,
            RetransmissionModel::FullRetransmit => true,
            RetransmissionModel::PerUcPath(pns) => pns.contains(p.pkt_num),
        }
    }

    /// All the packet numbers of the kind have a successor.
    pub open spec fn fits(self) -> bool {
        self matches RetransmissionModel::PerUcPath(pns) ==> !pns.contains(u64::MAX)
    }
}

/// How many packets at the front of the queue are lost or acknowledged.
pub open spec fn resolved_len(s: Seq<SentModel>) -> nat
    decreases s.len(),
{
    if s.len() == 0 || (s[0].time_lost is None && s[0].time_acked is None) {
        0
    } else {
        1 + resolved_len(s.skip(1))
    }
}

/// The lost packets of a queue.
pub open spec fn is_lost() -> spec_fn(SentModel) -> bool {
    |p: SentModel| p.time_lost is Some
}

/// The packets of a kind of retransmission that a receiver that already has
/// `recv` needs.
pub open spec fn needed(kind: RetransmissionModel, recv: Set<u64>) -> spec_fn(SentModel) -> bool {
    |p: SentModel| kind.selects(p) && !recv.contains(p.pkt_num)
}

/// How many packets of a queue a search for packets to retransmit reaches.
pub open spec fn reach(s: Seq<SentModel>, kind: RetransmissionModel) -> nat {
    if kind.goes_on() {
        s.len()
    } else {
        resolved_len(s)
    }
}

/// The packets to retransmit to a receiver that already has `recv`.
pub open spec fn to_retransmit(s: Seq<SentModel>, kind: RetransmissionModel, recv: Set<u64>) -> Seq<
    SentModel,
> {
    s.take(reach(s, kind) as int).filter(needed(kind, recv))
}

/// The packet numbers of some packets.
pub open spec fn numbers(s: Seq<SentModel>) -> Set<u64> {
    Set::new(|pn: u64| exists|i: int| 0 <= i < s.len() && (#[trigger] s[i]).pkt_num == pn)
}

impl Delegation {
    /// A frame of a lost packet goes to the unicast path: a piece of stream is
    /// taken from the flexicast flow and written on the stream of the same
    /// identifier, which is opened where it does not exist.
    #[verifier::opaque]
    pub open spec fn frame(self, f: Frame, follows: bool) -> Delegation {
        match f {
            Frame::StreamHeader { stream_id, offset, length, fin } if self.error is None => {
                let len = length as nat;
                let (uc, opening) = self.uc.get_or_create(
                    stream_id,
                    self.fc.streams[stream_id].local,
                );
                let asked = self.fc.streams[stream_id].send.retransmit(offset, len);
                if !self.fc.streams.contains_key(stream_id) {
                    Delegation { error: Some(Error::InvalidStreamState(stream_id)), ..self }
                } else if opening == Some(Error::Done) {
                    self
                } else if opening is Some {
                    Delegation { error: opening, ..self }
                } else if asked.shutdown {
                    Delegation { fc: self.fc.with_send(stream_id, asked), uc, ..self }
                } else {
                    let taken = Delegation {
                        fc: self.fc.with_send(stream_id, asked.after_emit(len)),
                        uc,
                        fc_ack: if follows {
                            self.fc_ack.delegate(stream_id, offset, length as u64)
                        } else {
                            self.fc_ack
                        },
                        ..self
                    };
                    let (written, refusal) = uc.write_at(stream_id, asked.emitted(len), offset, fin);
                    if refusal == Some(Error::FinalSize) {
                        taken
                    } else if refusal is Some {
                        Delegation { error: refusal, ..taken }
                    } else {
                        Delegation {
                            uc: written,
                            uc_ack: match taken.uc_ack {
                                Some(a) if follows => Some(
                                    a.delegate(stream_id, offset, length as u64),
                                ),
                                a => a,
                            },
                            ..taken
                        }
                    }
                }
            },
            _ => self,
        }
    }

    /// Whether a frame is a piece of stream that is delegated: the unicast path does
    /// not have the whole stream, the stream of the flow is not shut down, and the
    /// unicast path takes the piece.
    pub open spec fn delegates(self, f: Frame) -> bool {
        &&& self.error is None
        &&& f matches Frame::StreamHeader { stream_id, offset, length, fin }
        &&& {
            let len = length as nat;
            let (uc, opening) = self.uc.get_or_create(stream_id, self.fc.streams[stream_id].local);
            let asked = self.fc.streams[stream_id].send.retransmit(offset, len);
            &&& self.fc.streams.contains_key(stream_id)
            &&& opening is None
            &&& !asked.shutdown
            &&& uc.write_at(stream_id, asked.emitted(len), offset, fin).1 is None
        }
    }

    /// How many of the frames of a lost packet are delegated.
    pub open spec fn nb_frames(self, fs: Seq<Frame>, follows: bool) -> nat
        decreases fs.len(),
    {
        if fs.len() == 0 {
            0
        } else {
            self.nb_frames(fs.drop_last(), follows) + if self.frames(
                fs.drop_last(),
                follows,
            ).delegates(fs.last()) {
                1nat
            } else {
                0
            }
        }
    }

    /// How many of the frames of some packets are delegated.
    pub open spec fn nb_packets(self, s: Seq<SentModel>, follows: bool) -> nat
        decreases s.len(),
    {
        if s.len() == 0 {
            0
        } else {
            self.nb_packets(s.drop_last(), follows) + self.packets(
                s.drop_last(),
                follows,
            ).nb_frames(s.last().frames, follows)
        }
    }

    /// How many lost pieces of streams a delegation of the packets of a queue to a
    /// receiver that already has `recv` delegates.
    pub open spec fn nb_delegated(
        self,
        s: Seq<SentModel>,
        kind: RetransmissionModel,
        recv: Set<u64>,
    ) -> nat {
        self.acked_first(kind).nb_packets(to_retransmit(s, kind, recv), kind.follows())
    }

    /// The frames of a lost packet go to the unicast path.
    pub open spec fn frames(self, fs: Seq<Frame>, follows: bool) -> Delegation
        decreases fs.len(),
    {
        if fs.len() == 0 {
            self
        } else {
            self.frames(fs.drop_last(), follows).frame(fs.last(), follows)
        }
    }

    /// The frames of some packets go to the unicast path.
    pub open spec fn packets(self, s: Seq<SentModel>, follows: bool) -> Delegation
        decreases s.len(),
    {
        if s.len() == 0 {
            self
        } else {
            self.packets(s.drop_last(), follows).frames(s.last().frames, follows)
        }
    }

    /// The stream that ends with the frame gets no more data on the unicast path.
    #[verifier::opaque]
    pub open spec fn close(self, f: Frame) -> Delegation {
        match f {
            Frame::StreamHeader {
                stream_id,
                offset,
                length,
                fin,
            } if fin && self.uc.streams.contains_key(stream_id) => Delegation {
                uc: self.uc.close(stream_id, Some((offset + length) as u64)),
                ..self
            },
            _ => self,
        }
    }

    /// The streams that end with one of the frames get no more data.
    pub open spec fn close_frames(self, fs: Seq<Frame>) -> Delegation
        decreases fs.len(),
    {
        if fs.len() == 0 {
            self
        } else {
            self.close_frames(fs.drop_last()).close(fs.last())
        }
    }

    /// The streams that end in one of the packets get no more data.
    pub open spec fn close_packets(self, s: Seq<SentModel>) -> Delegation
        decreases s.len(),
    {
        if s.len() == 0 {
            self
        } else {
            self.close_packets(s.drop_last()).close_frames(s.last().frames)
        }
    }

    /// A path that retransmits on its own says that its receiver has the packets.
    pub open spec fn acked_first(self, kind: RetransmissionModel) -> Delegation {
        match kind {
            RetransmissionModel::PerUcPath(pns) => Delegation {
                fc_ack: self.fc_ack.on_ack(pns),
                ..self
            },
            _ => self,
        }
    }

    /// The outcome of a delegation of the packets of a queue to a receiver that
    /// already has `recv`.
    pub open spec fn outcome(self, s: Seq<SentModel>, kind: RetransmissionModel, recv: Set<u64>) -> Delegation {
        let sent = self.acked_first(kind).packets(to_retransmit(s, kind, recv), kind.follows());
        if sent.error is Some {
            sent
        } else {
            sent.close_packets(s.take(resolved_len(s) as int).filter(is_lost()))
        }
    }

    /// The packets of a queue after a delegation: those that it selects and comes
    /// to are marked, where the kind of retransmission does so.
    pub open spec fn marked(self, s: Seq<SentModel>, kind: RetransmissionModel, recv: Set<u64>) -> Seq<
        SentModel,
    > {
        Seq::new(
            s.len(),
            |i: int|
                if kind.marks() && i < reach(s, kind) && kind.selects(s[i]) && self.packets(
                    s.take(i).filter(needed(kind, recv)),
                    kind.follows(),
                ).error is None {
                    SentModel { is_fc_delegated: true, ..s[i] }
                } else {
                    s[i]
                },
        )
    }
}

/// The parties of a delegation that has met no error.
pub open spec fn parties(
    fc: StreamMap,
    uc: StreamMap,
    fc_ack: McAck,
    uc_ack: Option<McAck>,
) -> Delegation {
    Delegation {
        fc: fc@,
        uc: uc@,
        fc_ack: fc_ack@,
        uc_ack: match uc_ack {
            Some(a) => Some(a@),
            None => None,
        },
        error: None,
    }
}

/// The parties of a delegation are well formed.
pub open spec fn parties_wf(
    fc: StreamMap,
    uc: StreamMap,
    fc_ack: McAck,
    uc_ack: Option<McAck>,
) -> bool {
    &&& fc.wf()
    &&& uc.wf()
    &&& fc_ack.wf()
    &&& uc_ack matches Some(a) ==> a.wf()
}

/// Delegates one frame of a lost packet. Returns whether it is a piece of stream that
/// is delegated.
#[verifier::spinoff_prover]
#[verifier::rlimit(60)]
fn delegate_frame(
    fc: &mut StreamMap,
    uc: &mut StreamMap,
    fc_ack: &mut McAck,
    uc_ack: &mut Option<McAck>,
    f: Frame,
    follows: bool,
) -> (r: Result<bool>)
    requires
        parties_wf(*old(fc), *old(uc), *old(fc_ack), *old(uc_ack)),
        crate::recovery::frame_fits(f),
    ensures
        parties_wf(*final(fc), *final(uc), *final(fc_ack), *final(uc_ack)),
        ({
            let before = parties(*old(fc), *old(uc), *old(fc_ack), *old(uc_ack));
            let after = before.frame(f, follows);
            &&& parties(*final(fc), *final(uc), *final(fc_ack), *final(uc_ack)) == (Delegation {
                error: None,
                ..after
            })
            &&& match after.error {
                Some(e) => r == Err::<bool, Error>(e),
                None => r == Ok::<bool, Error>(before.delegates(f)),
            }
        }),
{
    reveal(Delegation::frame);
    let (stream_id, offset, length, fin): (u64, u64, usize, bool) = match f {
        Frame::StreamHeader { stream_id, offset, length, fin } => (stream_id, offset, length, fin),
        Frame::Other => {
            return Ok(false);
        },
    };
    let local: bool = match fc.get(stream_id) {
        Some(s) => s.local,
        None => {
            return Err(Error::InvalidStreamState(stream_id));
        },
    };
    match uc.get_or_create(stream_id, local) {
        Ok(()) => {},
        Err(Error::Done) => {
            return Ok(false);
        },
        Err(e) => {
            return Err(e);
        },
    }
    let ghost before = parties(*old(fc), *old(uc), *old(fc_ack), *old(uc_ack));
    let ghost opened = before.uc.get_or_create(stream_id, local).0;
    assert(uc@ == opened);
    let ghost asked = before.fc.streams[stream_id].send.retransmit(offset, length as nat);
    let data: Vec<u8> = match fc.emit_again(stream_id, offset, length) {
        Ok(data) => data,
        Err(_) => {
            assert(fc@ == before.fc.with_send(stream_id, asked));
            return Ok(false);
        },
    };
    assert(fc@ == before.fc.with_send(stream_id, asked.after_emit(length as nat)));
    assert(data@ == asked.emitted(length as nat));
    if follows {
        fc_ack.delegate(stream_id, offset, length as u64);
    }
    match uc.write_at_offset(stream_id, data, offset, fin) {
        Ok(_) => {},
        Err(Error::FinalSize) => {
            return Ok(false);
        },
        Err(e) => {
            return Err(e);
        },
    }
    if follows {
        if let Some(a) = uc_ack {
            a.delegate(stream_id, offset, length as u64);
        }
    }
    Ok(true)
}

/// Delegates the frames of a lost packet. Returns how many of them are pieces of
/// streams that are delegated.
fn delegate_frames(
    fc: &mut StreamMap,
    uc: &mut StreamMap,
    fc_ack: &mut McAck,
    uc_ack: &mut Option<McAck>,
    frames: &Vec<Frame>,
    follows: bool,
) -> (r: Result<u64>)
    requires
        parties_wf(*old(fc), *old(uc), *old(fc_ack), *old(uc_ack)),
        forall|k: int|
            0 <= k < frames@.len() ==> crate::recovery::frame_fits(#[trigger] frames@[k]),
        parties(*old(fc), *old(uc), *old(fc_ack), *old(uc_ack)).nb_frames(frames@, follows)
            <= u64::MAX,
    ensures
        parties_wf(*final(fc), *final(uc), *final(fc_ack), *final(uc_ack)),
        ({
            let before = parties(*old(fc), *old(uc), *old(fc_ack), *old(uc_ack));
            let after = before.frames(frames@, follows);
            &&& parties(*final(fc), *final(uc), *final(fc_ack), *final(uc_ack)) == (Delegation {
                error: None,
                ..after
            })
            &&& match after.error {
                Some(e) => r == Err::<u64, Error>(e),
                None => r is Ok && r->Ok_0 == before.nb_frames(frames@, follows),
            }
        }),
{
    let ghost start = parties(*fc, *uc, *fc_ack, *uc_ack);
    let ghost fs = frames@;
    let mut nb: u64 = 0;
    let mut j: usize = 0;
    assert(fs.take(0) =~= Seq::<Frame>::empty());
    while j < frames.len()
        invariant
            j <= fs.len(),
            fs == frames@,
            forall|k: int| 0 <= k < fs.len() ==> crate::recovery::frame_fits(#[trigger] fs[k]),
            start == parties(*old(fc), *old(uc), *old(fc_ack), *old(uc_ack)),
            parties_wf(*fc, *uc, *fc_ack, *uc_ack),
            parties(*fc, *uc, *fc_ack, *uc_ack) == start.frames(fs.take(j as int), follows),
            start.nb_frames(fs, follows) <= u64::MAX,
            nb == start.nb_frames(fs.take(j as int), follows),
        decreases fs.len() - j,
    {
        let frame: Frame = frames[j];
        proof {
            assert(fs.take(j + 1).drop_last() =~= fs.take(j as int));
            lemma_frames_grow(start, fs, j + 1, follows);
        }
        match delegate_frame(fc, uc, fc_ack, uc_ack, frame, follows) {
            Ok(delegated) => {
                if delegated {
                    nb += 1;
                }
            },
            Err(e) => {
                proof {
                    lemma_frames_from(start, fs, j + 1, follows);
                }
                return Err(e);
            },
        }
        j += 1;
    }
    assert(fs.take(j as int) =~= fs);
    Ok(nb)
}

impl FcUnicastRetransmission {
    /// Whether the aggregators have to follow the pieces of streams.
    fn follows(&self) -> (r: bool)
        ensures
            r == self@.follows(),
    {
        match self {
            FcUnicastRetransmission::Delegates(_) => true,
            _ => false,
        }
    }

    /// Whether the flow considers the packets delegated afterwards.
    fn marks(&self) -> (r: bool)
        ensures
            r == self@.marks(),
    {
        match self {
            FcUnicastRetransmission::Delegates(last) => *last,
            FcUnicastRetransmission::FullRetransmit => true,
            FcUnicastRetransmission::PerUcPath(_) => false,
        }
    }

    /// Whether the search for packets goes on past packets that are neither lost
    /// nor acknowledged.
    fn goes_on(&self) -> (r: bool)
        ensures
            r == self@.goes_on(),
    {
        match self {
            FcUnicastRetransmission::Delegates(_) => false,
            FcUnicastRetransmission::FullRetransmit => true,
            FcUnicastRetransmission::PerUcPath(pns) => {
                let none: bool = pns.is_empty();
                assert(none ==> pns@ =~= Set::<u64>::empty());
                !none
            },
        }
    }

    /// Whether a packet that the search reaches is one to retransmit.
    fn selects(&self, p: &Sent) -> (r: bool)
        ensures
            r == self@.selects(p@),
    {
        if p.time_lost.is_some() {
            return true;
        }
        match self {
            FcUnicastRetransmission::Delegates(_) => false,
            FcUnicastRetransmission::FullRetransmit => true,
            FcUnicastRetransmission::PerUcPath(pns) => pns.contains(&p.pkt_num),
        }
    }
}

/// The packets of a longer part of a queue for which `f` holds.
pub proof fn lemma_filter_step(s: Seq<SentModel>, i: int, f: spec_fn(SentModel) -> bool)
    requires
        0 <= i < s.len(),
    ensures
        s.take(i + 1).filter(f) == if f(s[i]) {
            s.take(i).filter(f).push(s[i])
        } else {
            s.take(i).filter(f)
        },
{
    reveal(Seq::filter);
    assert(s.take(i + 1).drop_last() =~= s.take(i));
}

/// Nothing happens after an error.
proof fn lemma_frames_after_error(d: Delegation, fs: Seq<Frame>, follows: bool)
    requires
        d.error is Some,
    ensures
        d.frames(fs, follows) == d,
    decreases fs.len(),
{
    if fs.len() > 0 {
        lemma_frames_after_error(d, fs.drop_last(), follows);
        reveal(Delegation::frame);
    }
}

/// An error in a frame is the outcome of the packet.
proof fn lemma_frames_from(d: Delegation, fs: Seq<Frame>, j: int, follows: bool)
    requires
        0 <= j <= fs.len(),
        d.frames(fs.take(j), follows).error is Some,
    ensures
        d.frames(fs, follows) == d.frames(fs.take(j), follows),
    decreases fs.len() - j,
{
    if j < fs.len() {
        assert(fs.take(j + 1).drop_last() =~= fs.take(j));
        reveal(Delegation::frame);
        lemma_frames_from(d, fs, j + 1, follows);
    } else {
        assert(fs.take(j) =~= fs);
    }
}

/// An error in a packet is the outcome of the packets.
pub proof fn lemma_packets_from(
    d: Delegation,
    s: Seq<SentModel>,
    f: spec_fn(SentModel) -> bool,
    i: int,
    n: int,
    follows: bool,
)
    requires
        0 <= i <= n <= s.len(),
        d.packets(s.take(i).filter(f), follows).error is Some,
    ensures
        d.packets(s.take(n).filter(f), follows) == d.packets(s.take(i).filter(f), follows),
    decreases n - i,
{
    if i < n {
        lemma_filter_step(s, i, f);
        let x = s.take(i).filter(f);
        if f(s[i]) {
            assert(x.push(s[i]).drop_last() =~= x);
            lemma_frames_after_error(d.packets(x, follows), s[i].frames, follows);
        }
        lemma_packets_from(d, s, f, i + 1, n, follows);
    }
}

/// A delegation neither adds nor removes the aggregator of the unicast path.
proof fn lemma_frames_keep_ack(d: Delegation, fs: Seq<Frame>, follows: bool)
    ensures
        d.frames(fs, follows).uc_ack is Some == d.uc_ack is Some,
    decreases fs.len(),
{
    if fs.len() > 0 {
        lemma_frames_keep_ack(d, fs.drop_last(), follows);
        reveal(Delegation::frame);
    }
}

/// A delegation neither adds nor removes the aggregator of the unicast path.
pub proof fn lemma_packets_keep_ack(d: Delegation, s: Seq<SentModel>, follows: bool)
    ensures
        d.packets(s, follows).uc_ack is Some == d.uc_ack is Some,
    decreases s.len(),
{
    if s.len() > 0 {
        lemma_packets_keep_ack(d, s.drop_last(), follows);
        lemma_frames_keep_ack(d.packets(s.drop_last(), follows), s.last().frames, follows);
    }
}

/// A longer part of a queue delegates at least as many pieces of streams.
proof fn lemma_pieces_grow(
    d: Delegation,
    s: Seq<SentModel>,
    f: spec_fn(SentModel) -> bool,
    i: int,
    n: int,
    follows: bool,
)
    requires
        0 <= i <= n <= s.len(),
    ensures
        d.nb_packets(s.take(i).filter(f), follows) <= d.nb_packets(s.take(n).filter(f), follows),
    decreases n - i,
{
    if i < n {
        lemma_filter_step(s, i, f);
        let x = s.take(i).filter(f);
        if f(s[i]) {
            assert(x.push(s[i]).drop_last() =~= x);
        }
        lemma_pieces_grow(d, s, f, i + 1, n, follows);
    }
}

/// A longer part of a packet delegates at least as many pieces of streams.
proof fn lemma_frames_grow(d: Delegation, fs: Seq<Frame>, j: int, follows: bool)
    requires
        0 <= j <= fs.len(),
    ensures
        d.nb_frames(fs.take(j), follows) <= d.nb_frames(fs, follows),
    decreases fs.len() - j,
{
    if j < fs.len() {
        assert(fs.take(j + 1).drop_last() =~= fs.take(j));
        lemma_frames_grow(d, fs, j + 1, follows);
    } else {
        assert(fs.take(j) =~= fs);
    }
}

/// No more packets are resolved than there are.
pub proof fn lemma_resolved_len(s: Seq<SentModel>)
    ensures
        resolved_len(s) <= s.len(),
    decreases s.len(),
{
    if s.len() > 0 && (s[0].time_lost is Some || s[0].time_acked is Some) {
        lemma_resolved_len(s.skip(1));
    }
}

/// Marks change nothing that decides which packets are resolved.
proof fn lemma_resolved_len_same(s: Seq<SentModel>, t: Seq<SentModel>)
    requires
        s.len() == t.len(),
        forall|i: int|
            0 <= i < s.len() ==> (#[trigger] s[i]).time_lost == t[i].time_lost && s[i].time_acked
                == t[i].time_acked,
    ensures
        resolved_len(s) == resolved_len(t),
    decreases s.len(),
{
    if s.len() > 0 {
        assert(s[0].time_lost == t[0].time_lost);
        let u = s.skip(1);
        let v = t.skip(1);
        assert forall|i: int| 0 <= i < u.len() implies (#[trigger] u[i]).time_lost == v[i].time_lost
            && u[i].time_acked == v[i].time_acked by {
            assert(u[i] == s[i + 1]);
        }
        lemma_resolved_len_same(u, v);
    }
}

impl Recovery {
    /// How many packets at the front of the queue are lost or acknowledged.
    fn resolved_len(&self) -> (n: usize)
        ensures
            n == resolved_len(self@.application.sent),
            n <= self@.application.sent.len(),
    {
        let ghost s = self@.application.sent;
        let mut n: usize = 0;
        assert(s.skip(0) =~= s);
        while n < self.application.sent_packets.len() && (
        self.application.sent_packets[n].time_lost.is_some()
            || self.application.sent_packets[n].time_acked.is_some())
            invariant
                n <= self.application.sent_packets@.len(),
                s == self@.application.sent,
                resolved_len(s) == n + resolved_len(s.skip(n as int)),
            decreases self.application.sent_packets@.len() - n,
        {
            assert(s.skip(n as int)[0] == self.application.sent_packets@[n as int]@);
            assert(s.skip(n as int).skip(1) =~= s.skip(n + 1));
            n += 1;
        }
        proof {
            if n < s.len() {
                assert(s.skip(n as int)[0] == self.application.sent_packets@[n as int]@);
            }
        }
        n
    }

    /// Delegates the frames of the packets to retransmit. Returns how many pieces of
    /// streams are delegated, and which packets these are.
    #[verifier::rlimit(60)]
    fn delegate_packets(
        &mut self,
        fc: &mut StreamMap,
        uc: &mut StreamMap,
        fc_ack: &mut McAck,
        uc_ack: &mut Option<McAck>,
        kind: &FcUnicastRetransmission,
        recv: &RangeSet,
    ) -> (r: Result<(u64, RangeSet)>)
        requires
            old(self).wf(),
            parties_wf(*old(fc), *old(uc), *old(fc_ack), *old(uc_ack)),
            recv.wf(),
            parties(*old(fc), *old(uc), *old(fc_ack), *old(uc_ack)).nb_packets(
                to_retransmit(old(self)@.application.sent, kind@, recv@),
                kind@.follows(),
            ) <= u64::MAX,
        ensures
            final(self).wf(),
            parties_wf(*final(fc), *final(uc), *final(fc_ack), *final(uc_ack)),
            ({
                let s = old(self)@.application.sent;
                let start = parties(*old(fc), *old(uc), *old(fc_ack), *old(uc_ack));
                let after = start.packets(to_retransmit(s, kind@, recv@), kind@.follows());
                &&& parties(*final(fc), *final(uc), *final(fc_ack), *final(uc_ack)) == (Delegation {
                    error: None,
                    ..after
                })
                &&& final(self)@ == (RecoveryModel {
                    application: EpochModel {
                        sent: start.marked(s, kind@, recv@),
                        ..old(self)@.application
                    },
                    ..old(self)@
                })
                &&& match after.error {
                    Some(e) => r is Err && r->Err_0 == e,
                    None => r is Ok && r->Ok_0.0 == start.nb_packets(
                        to_retransmit(s, kind@, recv@),
                        kind@.follows(),
                    ) && r->Ok_0.1.wf() && r->Ok_0.1@ == numbers(to_retransmit(s, kind@, recv@)),
                }
            }),
    {
        let ghost s = self@.application.sent;
        let ghost start = parties(*fc, *uc, *fc_ack, *uc_ack);
        let ghost f = needed(kind@, recv@);
        let ghost goal = start.marked(s, kind@, recv@);
        let follows: bool = kind.follows();
        let marks: bool = kind.marks();
        let n: usize = if kind.goes_on() {
            self.application.sent_packets.len()
        } else {
            self.resolved_len()
        };
        let mut nb: u64 = 0;
        let mut lost = RangeSet::new();
        let mut i: usize = 0;
        proof {
            reveal(Seq::filter);
            assert(lost@ =~= numbers(s.take(0).filter(f)));
        }
        while i < n
            invariant
                i <= n,
                n == reach(s, kind@),
                goal == start.marked(s, kind@, recv@),
                n <= s.len(),
                f == needed(kind@, recv@),
                follows == kind@.follows(),
                marks == kind@.marks(),
                recv.wf(),
                s == old(self)@.application.sent,
                old(self).wf(),
                start == parties(*old(fc), *old(uc), *old(fc_ack), *old(uc_ack)),
                start.nb_packets(s.take(n as int).filter(f), follows) <= u64::MAX,
                parties_wf(*fc, *uc, *fc_ack, *uc_ack),
                parties(*fc, *uc, *fc_ack, *uc_ack) == start.packets(
                    s.take(i as int).filter(f),
                    follows,
                ),
                lost.wf(),
                lost@ == numbers(s.take(i as int).filter(f)),
                nb == start.nb_packets(s.take(i as int).filter(f), follows),
                self.application.sent_packets@.len() == s.len(),
                forall|k: int|
                    0 <= k < i ==> (#[trigger] self.application.sent_packets@[k])@ == goal[k],
                forall|k: int|
                    i <= k < s.len() ==> (#[trigger] self.application.sent_packets@[k])@ == s[k],
                same_but_packets(*self, *old(self)),
            decreases n - i,
        {
            proof {
                lemma_filter_step(s, i as int, f);
                assert(self.application.sent_packets@[i as int]@ == s[i as int]);
                assert(start.packets(s.take(i as int).filter(f), follows).error is None);
            }
            if !kind.selects(&self.application.sent_packets[i]) {
                i += 1;
                continue;
            }
            if marks {
                self.application.sent_packets[i].is_fc_delegated = true;
            }
            assert(self.application.sent_packets@[i as int]@ =~= goal[i as int]);
            let pn: u64 = self.application.sent_packets[i].pkt_num;
            if recv.contains(pn) {
                i += 1;
                continue;
            }
            let ghost so_far = s.take(i as int).filter(f);
            let ghost fs = s[i as int].frames;
            assert(s[i as int].fits());
            lost.insert(pn, pn + 1);
            proof {
                lemma_numbers_push(so_far, s[i as int]);
                assert(lost@ =~= numbers(so_far.push(s[i as int])));
                assert(so_far.push(s[i as int]).drop_last() =~= so_far);
                lemma_pieces_grow(start, s, f, i + 1, n as int, follows);
            }
            let frames: &Vec<Frame> = &self.application.sent_packets[i].frames;
            assert(frames@ == fs);
            match delegate_frames(fc, uc, fc_ack, uc_ack, frames, follows) {
                Ok(more) => {
                    nb += more;
                },
                Err(e) => {
                    proof {
                        lemma_packets_from(start, s, f, i + 1, n as int, follows);
                        assert forall|k: int| i < k < s.len() implies goal[k] == s[k] by {
                            if k < n {
                                lemma_packets_from(start, s, f, i + 1, k, follows);
                            }
                        }
                        assert(self@.application.sent =~= goal);
                        lemma_marked_wf(*self, *old(self));
                    }
                    return Err(e);
                },
            }
            i += 1;
        }
        proof {
            assert(self@.application.sent =~= goal);
            lemma_marked_wf(*self, *old(self));
        }
        Ok((nb, lost))
    }
}

impl ConnectionModel {
    /// The packet numbers of the flexicast flow that the receiver of this unicast
    /// path has.
    pub open spec fn received(self) -> Set<u64> {
        match self.flexicast {
            Some(f) => match f.fc_reliable {
                ReliableModel::UcPath(u) => u.fc_pn_recv,
                _ => Set::empty(),
            },
            None => Set::empty(),
        }
    }

    /// Aggregator of this unicast path, if it has one.
    pub open spec fn uc_ack(self) -> Option<AckModel> {
        match self.flexicast {
            Some(f) => match f.fc_reliable {
                ReliableModel::UcPath(u) => Some(u.mc_ack),
                _ => None,
            },
            None => None,
        }
    }

    /// The start of a delegation to this unicast path.
    pub open spec fn delegation(self, fc: StreamsModel, fc_ack: AckModel) -> Delegation {
        Delegation { fc, uc: self.streams, fc_ack, uc_ack: self.uc_ack(), error: None }
    }

    /// The connection with the attributes `r` of the reliability mechanism.
    pub open spec fn with_reliable(self, r: ReliableModel) -> ConnectionModel {
        match self.flexicast {
            Some(f) => ConnectionModel {
                flexicast: Some(FlexicastModel { fc_reliable: r, ..f }),
                ..self
            },
            None => self,
        }
    }

    /// This unicast path with the aggregator `a`.
    pub open spec fn with_uc_ack(self, a: AckModel) -> ConnectionModel {
        match self.flexicast {
            Some(f) => match f.fc_reliable {
                ReliableModel::UcPath(u) => self.with_reliable(
                    ReliableModel::UcPath(UcPathModel { mc_ack: a, ..u }),
                ),
                _ => self,
            },
            None => self,
        }
    }

    /// This unicast path when its receiver has the packets `pns`.
    pub open spec fn with_received(self, pns: Set<u64>) -> ConnectionModel {
        match self.flexicast {
            Some(f) => match f.fc_reliable {
                ReliableModel::UcPath(u) => self.with_reliable(
                    ReliableModel::UcPath(UcPathModel { fc_pn_recv: pns, ..u }),
                ),
                _ => self,
            },
            None => self,
        }
    }

    /// This unicast path after a delegation. Unless there is an error, the packet
    /// numbers that the receiver has are forgotten.
    pub open spec fn delegated(self, d: Delegation) -> ConnectionModel {
        let uc = ConnectionModel { streams: d.uc, ..self };
        match d.uc_ack {
            Some(a) => if d.error is None {
                uc.with_uc_ack(a).with_received(Set::empty())
            } else {
                uc.with_uc_ack(a)
            },
            None => uc,
        }
    }
}

/// Takes the aggregator of a unicast path.
fn take_ack(uc: &mut Connection) -> (r: Option<McAck>)
    requires
        old(uc).wf(),
        old(uc)@.flexicast is Some,
    ensures
        final(uc).wf(),
        final(uc).streams == old(uc).streams,
        match r {
            Some(a) => a.wf() && old(uc)@.uc_ack() == Some(a@),
            None => old(uc)@.uc_ack() is None,
        },
        final(uc)@ == old(uc)@.with_uc_ack(crate::flexicast::ack::new_ack()),
{
    let mut mc_ack = McAck::new();
    if let Some(f) = &mut uc.flexicast {
        if let ReliableFc::UcPath(rfc) = &mut f.fc_reliable {
            core::mem::swap(&mut rfc.mc_ack, &mut mc_ack);
            return Some(mc_ack);
        }
    }
    None
}

/// Gives a unicast path its aggregator back, and forgets the packet numbers that
/// its receiver has if `reset` is set.
fn put_ack(uc: &mut Connection, uc_ack: Option<McAck>, reset: bool)
    requires
        old(uc).wf(),
        old(uc)@.flexicast is Some,
        uc_ack is Some <==> old(uc)@.uc_ack() is Some,
        uc_ack matches Some(a) ==> a.wf(),
    ensures
        final(uc).wf(),
        uc_ack is None ==> final(uc)@ == old(uc)@,
        uc_ack matches Some(a) ==> final(uc)@ == if reset {
            old(uc)@.with_uc_ack(a@).with_received(Set::empty())
        } else {
            old(uc)@.with_uc_ack(a@)
        },
{
    if let Some(mc_ack) = uc_ack {
        if let Some(f) = &mut uc.flexicast {
            if let ReliableFc::UcPath(rfc) = &mut f.fc_reliable {
                rfc.mc_ack = mc_ack;
                if reset {
                    rfc.fc_pn_recv = RangeSet::new();
                }
            }
        }
    }
}

/// The packet numbers of a kind of retransmission.
fn packet_numbers(pns: &HashSet<u64>) -> (r: RangeSet)
    requires
        !pns@.contains(u64::MAX),
    ensures
        r.wf(),
        r@ == pns@,
{
    let mut r = RangeSet::new();
    for pn in it: pns.iter()
        invariant
            !pns@.contains(u64::MAX),
            r.wf(),
            r@ == it.seq().take(it.index()).unref().to_set(),
            it.seq().unref().to_set() == pns@,
            it.index() == it.seq().len() ==> r@ == pns@,
    {
        assert(it.seq().unref()[it.index()] == *pn);
        assert(it.seq().unref().to_set().contains(*pn));
        r.insert(*pn, *pn + 1);
        assert(it.seq().take(it.index() + 1).unref() =~= it.seq().take(it.index()).unref().push(*pn));
        proof {
            crate::flexicast::reliable::lemma_push_to_set(it.seq().take(it.index()).unref(), *pn);
        }
        assert(r@ =~= it.seq().take(it.index() + 1).unref().to_set());
        assert(it.index() + 1 == it.seq().len() ==> it.seq().take(it.index() + 1) =~= it.seq());
    }
    r
}

/// Closes the streams that end in one of the lost packets at the front of the
/// queue.
fn close_streams(recovery: &Recovery, uc: &mut StreamMap, Ghost(d): Ghost<Delegation>)
    requires
        recovery.wf(),
        old(uc).wf(),
        d.uc == old(uc)@,
    ensures
        final(uc).wf(),
        ({
            let s = recovery@.application.sent;
            d.close_packets(s.take(resolved_len(s) as int).filter(is_lost())) == (Delegation {
                uc: final(uc)@,
                ..d
            })
        }),
{
    let ghost s = recovery@.application.sent;
    let ghost f = is_lost();
    let n: usize = recovery.resolved_len();
    let mut i: usize = 0;
    proof {
        reveal(Seq::filter);
        assert(s.take(0).filter(f) =~= Seq::<SentModel>::empty());
    }
    while i < n
        invariant
            i <= n,
            n <= s.len(),
            s == recovery@.application.sent,
            f == is_lost(),
            recovery.wf(),
            uc.wf(),
            d.close_packets(s.take(i as int).filter(f)) == (Delegation { uc: uc@, ..d }),
        decreases n - i,
    {
        proof {
            lemma_filter_step(s, i as int, f);
            assert(recovery.application.sent_packets@[i as int]@ == s[i as int]);
        }
        let p: &Sent = &recovery.application.sent_packets[i];
        if p.time_lost.is_none() {
            i += 1;
            continue;
        }
        let ghost so_far = s.take(i as int).filter(f);
        let ghost fs = s[i as int].frames;
        proof {
            assert(so_far.push(s[i as int]).drop_last() =~= so_far);
            assert(s[i as int].fits());
            assert(fs.take(0) =~= Seq::<Frame>::empty());
        }
        let mut j: usize = 0;
        while j < p.frames.len()
            invariant
                j <= fs.len(),
                p.frames@ == fs,
                forall|k: int|
                    0 <= k < fs.len() ==> crate::recovery::frame_fits(#[trigger] fs[k]),
                uc.wf(),
                d.close_packets(so_far).close_frames(fs.take(j as int)) == (Delegation {
                    uc: uc@,
                    ..d
                }),
            decreases fs.len() - j,
        {
            let frame: Frame = p.frames[j];
            proof {
                assert(frame == fs[j as int]);
                assert(fs.take(j + 1).drop_last() =~= fs.take(j as int));
            }
            reveal(Delegation::close);
            if let Frame::StreamHeader { stream_id, offset, length, fin } = frame {
                if fin {
                    if uc.get(stream_id).is_some() {
                        uc.close(stream_id, Some(offset + length as u64));
                    }
                }
            }
            j += 1;
        }
        proof {
            assert(fs.take(j as int) =~= fs);
        }
        i += 1;
    }
}

impl Recovery {
    /// Delegates the streams to another connection.
    ///
    /// Returns the number of lost pieces of streams that are delegated, the packets
    /// that the receiver needs, and the packets that it has.
    ///
    /// The `retr_kind` determines the strategy of delegation.
    pub fn delegate_streams(
        &mut self,
        uc: &mut Connection,
        local_streams: &mut StreamMap,
        mc_ack: &mut McAck,
        retr_kind: FcUnicastRetransmission,
    ) -> (r: Result<(u64, (RangeSet, RangeSet))>)
        requires
            old(self).wf(),
            old(uc).wf(),
            old(local_streams).wf(),
            old(mc_ack).wf(),
            retr_kind@.fits(),
            old(uc)@.delegation(old(local_streams)@, old(mc_ack)@).nb_delegated(
                old(self)@.application.sent,
                retr_kind@,
                old(uc)@.received(),
            ) <= u64::MAX,
            ({
                let d = old(uc)@.delegation(old(local_streams)@, old(mc_ack)@).outcome(
                    old(self)@.application.sent,
                    retr_kind@,
                    old(uc)@.received(),
                );
                old(uc)@.flexicast is Some && d.error is None ==> old(uc)@.uc_ack() is Some
            }),
        ensures
            final(self).wf(),
            final(uc).wf(),
            final(local_streams).wf(),
            final(mc_ack).wf(),
            old(uc)@.flexicast is None ==> {
                &&& r == Err::<(u64, (RangeSet, RangeSet)), Error>(
                    Error::Flexicast(FcError::McDisabled),
                )
                &&& final(self)@ == old(self)@
                &&& final(uc)@ == old(uc)@
                &&& final(local_streams)@ == old(local_streams)@
                &&& final(mc_ack)@ == old(mc_ack)@
            },
            old(uc)@.flexicast is Some ==> {
                let s = old(self)@.application.sent;
                let recv = old(uc)@.received();
                let start = old(uc)@.delegation(old(local_streams)@, old(mc_ack)@);
                let d = start.outcome(s, retr_kind@, recv);
                &&& final(local_streams)@ == d.fc
                &&& final(mc_ack)@ == d.fc_ack
                &&& final(uc)@ == old(uc)@.delegated(d)
                &&& final(self)@ == (RecoveryModel {
                    application: EpochModel {
                        sent: start.acked_first(retr_kind@).marked(s, retr_kind@, recv),
                        ..old(self)@.application
                    },
                    ..old(self)@
                })
                &&& match d.error {
                    Some(e) => r is Err && r->Err_0 == e,
                    None => {
                        &&& r is Ok
                        &&& r->Ok_0.0 == start.nb_delegated(s, retr_kind@, recv)
                        &&& r->Ok_0.1.0.wf()
                        &&& r->Ok_0.1.0@ == numbers(to_retransmit(s, retr_kind@, recv))
                        &&& r->Ok_0.1.1.wf()
                        &&& r->Ok_0.1.1@ == recv
                    },
                }
            },
    {
        let recv_pn: RangeSet = match &uc.flexicast {
            Some(f) => match f.fc_reliable.server() {
                Some(rfc) => rfc.fc_pn_recv.copy(),
                None => RangeSet::new(),
            },
            None => {
                return Err(Error::Flexicast(FcError::McDisabled));
            },
        };
        // A path that retransmits on its own says that its receiver has the
        // packets, because the flow does not consider them as lost yet.
        if let FcUnicastRetransmission::PerUcPath(pns) = &retr_kind {
            let r: RangeSet = packet_numbers(pns);
            mc_ack.on_ack_received(&r);
        }
        let ghost start = old(uc)@.delegation(old(local_streams)@, old(mc_ack)@).acked_first(
            retr_kind@,
        );
        let ghost s = self@.application.sent;
        let mut uc_ack: Option<McAck> = take_ack(uc);
        assert(parties(*local_streams, uc.streams, *mc_ack, uc_ack) =~= start);
        let sent: Result<(u64, RangeSet)> = self.delegate_packets(
            local_streams,
            &mut uc.streams,
            mc_ack,
            &mut uc_ack,
            &retr_kind,
            &recv_pn,
        );
        let ghost after = start.packets(to_retransmit(s, retr_kind@, recv_pn@), retr_kind@.follows());
        proof {
            lemma_packets_keep_ack(
                start,
                to_retransmit(s, retr_kind@, recv_pn@),
                retr_kind@.follows(),
            );
        }
        let (nb, lost_pn): (u64, RangeSet) = match sent {
            Ok(v) => v,
            Err(e) => {
                put_ack(uc, uc_ack, false);
                return Err(e);
            },
        };
        proof {
            lemma_resolved_len(s);
            lemma_resolved_len_same(s, self@.application.sent);
            lemma_close_same(after, s, self@.application.sent, resolved_len(s) as int);
        }
        // Close the streams of the unicast path that are closed on the flow.
        close_streams(self, &mut uc.streams, Ghost(after));
        // Forget the packet numbers that have been received.
        put_ack(uc, uc_ack, true);
        Ok((nb, (lost_pn, recv_pn)))
    }
}

/// A piece of stream that the unicast paths have to send again.
#[derive(Debug)]
pub struct FcDelegatedStream {
    /// Identifier of the stream.
    pub stream_id: u64,
    /// Offset of the first byte.
    pub offset: u64,
    /// The bytes.
    pub payload: Vec<u8>,
    /// Whether the stream ends after the piece.
    pub fin: bool,
    /// Number of the packet that was lost.
    pub pn: u64,
}

/// What a [`FcDelegatedStream`] stands for.
#[verifier::ext_equal]
pub struct DelegatedModel {
    /// Identifier of the stream.
    pub stream_id: u64,
    /// Offset of the first byte.
    pub offset: u64,
    /// The bytes.
    pub payload: Seq<u8>,
    /// Whether the stream ends after the piece.
    pub fin: bool,
    /// Number of the packet that was lost.
    pub pn: u64,
}

impl View for FcDelegatedStream {
    type V = DelegatedModel;

    open spec fn view(&self) -> DelegatedModel {
        DelegatedModel {
            stream_id: self.stream_id,
            offset: self.offset,
            payload: self.payload@,
            fin: self.fin,
            pn: self.pn,
        }
    }
}

/// What a sequence of pieces of streams stands for.
pub open spec fn pieces_of(s: Seq<FcDelegatedStream>) -> Seq<DelegatedModel> {
    Seq::new(s.len(), |i: int| s[i]@)
}

/// The pieces of streams that were taken from a flexicast flow to delegate them.
#[verifier::ext_equal]
pub struct Collection {
    /// Streams of the flexicast flow.
    pub fc: StreamsModel,
    /// The pieces.
    pub pieces: Seq<DelegatedModel>,
    /// The error that ended the collection.
    pub error: Option<Error>,
}

impl Collection {
    /// A frame of the packet `pn` is taken.
    #[verifier::opaque]
    pub open spec fn frame(self, f: Frame, pn: u64) -> Collection {
        match f {
            Frame::StreamHeader { stream_id, offset, length, fin } if self.error is None => {
                let len = length as nat;
                let asked = self.fc.streams[stream_id].send.retransmit(offset, len);
                if !self.fc.streams.contains_key(stream_id) {
                    Collection { error: Some(Error::InvalidStreamState(stream_id)), ..self }
                } else if asked.shutdown {
                    Collection { fc: self.fc.with_send(stream_id, asked), ..self }
                } else {
                    Collection {
                        fc: self.fc.with_send(stream_id, asked.after_emit(len)),
                        pieces: self.pieces.push(
                            DelegatedModel {
                                stream_id,
                                offset,
                                payload: asked.emitted(len),
                                fin,
                                pn,
                            },
                        ),
                        ..self
                    }
                }
            },
            _ => self,
        }
    }

    /// The frames of the packet `pn` are taken.
    pub open spec fn frames(self, fs: Seq<Frame>, pn: u64) -> Collection
        decreases fs.len(),
    {
        if fs.len() == 0 {
            self
        } else {
            self.frames(fs.drop_last(), pn).frame(fs.last(), pn)
        }
    }

    /// The frames of some packets are taken.
    pub open spec fn packets(self, s: Seq<SentModel>) -> Collection
        decreases s.len(),
    {
        if s.len() == 0 {
            self
        } else {
            self.packets(s.drop_last()).frames(s.last().frames, s.last().pkt_num)
        }
    }

    /// The packets of a queue afterwards: those that are selected before an error
    /// are marked, where the kind of retransmission does so.
    pub open spec fn marked(self, s: Seq<SentModel>, kind: RetransmissionModel) -> Seq<SentModel> {
        Seq::new(
            s.len(),
            |i: int|
                if kind.marks() && i < reach(s, kind) && kind.selects(s[i]) && self.packets(
                    s.take(i).filter(needed(kind, Set::empty())),
                ).error is None {
                    SentModel { is_fc_delegated: true, ..s[i] }
                } else {
                    s[i]
                },
        )
    }
}

/// A collection that starts.
pub open spec fn new_collection(fc: StreamsModel) -> Collection {
    Collection { fc, pieces: Seq::empty(), error: None }
}

/// Nothing happens after an error.
proof fn lemma_collected_frames_from(c: Collection, fs: Seq<Frame>, j: int, pn: u64)
    requires
        0 <= j <= fs.len(),
        c.frames(fs.take(j), pn).error is Some,
    ensures
        c.frames(fs, pn) == c.frames(fs.take(j), pn),
    decreases fs.len() - j,
{
    if j < fs.len() {
        assert(fs.take(j + 1).drop_last() =~= fs.take(j));
        reveal(Collection::frame);
        lemma_collected_frames_from(c, fs, j + 1, pn);
    } else {
        assert(fs.take(j) =~= fs);
    }
}

/// Nothing happens after an error.
proof fn lemma_collected_packets_from(
    c: Collection,
    s: Seq<SentModel>,
    f: spec_fn(SentModel) -> bool,
    i: int,
    n: int,
)
    requires
        0 <= i <= n <= s.len(),
        c.packets(s.take(i).filter(f)).error is Some,
    ensures
        c.packets(s.take(n).filter(f)) == c.packets(s.take(i).filter(f)),
    decreases n - i,
{
    if i < n {
        lemma_filter_step(s, i, f);
        let x = s.take(i).filter(f);
        if f(s[i]) {
            assert(x.push(s[i]).drop_last() =~= x);
            assert(s[i].frames.take(0) =~= Seq::<Frame>::empty());
            lemma_collected_frames_from(c.packets(x), s[i].frames, 0, s[i].pkt_num);
        }
        lemma_collected_packets_from(c, s, f, i + 1, n);
    }
}

/// Takes one frame of a lost packet.
#[verifier::spinoff_prover]
#[verifier::rlimit(60)]
fn collect_frame(
    streams: &mut StreamMap,
    frame: Frame,
    pn: u64,
    out: &mut Vec<FcDelegatedStream>,
) -> (r: Result<()>)
    requires
        old(streams).wf(),
        crate::recovery::frame_fits(frame),
    ensures
        final(streams).wf(),
        ({
            let after = (Collection {
                fc: old(streams)@,
                pieces: pieces_of(old(out)@),
                error: None,
            }).frame(frame, pn);
            &&& final(streams)@ == after.fc
            &&& pieces_of(final(out)@) == after.pieces
            &&& match after.error {
                Some(e) => r == Err::<(), Error>(e),
                None => r == Ok::<(), Error>(()),
            }
        }),
{
    reveal(Collection::frame);
    if let Frame::StreamHeader { stream_id, offset, length, fin } = frame {
        if streams.get(stream_id).is_none() {
            return Err(Error::InvalidStreamState(stream_id));
        }
        let ghost asked = streams@.streams[stream_id].send.retransmit(offset, length as nat);
        if let Ok(payload) = streams.emit_again(stream_id, offset, length) {
            assert(payload@ == asked.emitted(length as nat));
            let ghost before = out@;
            let piece = FcDelegatedStream { stream_id, offset, payload, fin, pn };
            out.push(piece);
            assert(pieces_of(out@) =~= pieces_of(before).push(piece@));
        }
    }
    Ok(())
}

/// Takes the pieces of streams of a lost packet.
fn collect_frames(
    streams: &mut StreamMap,
    frames: &Vec<Frame>,
    pn: u64,
    out: &mut Vec<FcDelegatedStream>,
) -> (r: Result<()>)
    requires
        old(streams).wf(),
        forall|k: int|
            0 <= k < frames@.len() ==> crate::recovery::frame_fits(#[trigger] frames@[k]),
    ensures
        final(streams).wf(),
        ({
            let start = Collection {
                fc: old(streams)@,
                pieces: pieces_of(old(out)@),
                error: None,
            };
            let after = start.frames(frames@, pn);
            &&& final(streams)@ == after.fc
            &&& pieces_of(final(out)@) == after.pieces
            &&& match after.error {
                Some(e) => r == Err::<(), Error>(e),
                None => r == Ok::<(), Error>(()),
            }
        }),
{
    let ghost fs = frames@;
    let ghost start = Collection { fc: streams@, pieces: pieces_of(out@), error: None };
    let mut j: usize = 0;
    assert(fs.take(0) =~= Seq::<Frame>::empty());
    while j < frames.len()
        invariant
            j <= fs.len(),
            fs == frames@,
            forall|k: int| 0 <= k < fs.len() ==> crate::recovery::frame_fits(#[trigger] fs[k]),
            start == (Collection {
                fc: old(streams)@,
                pieces: pieces_of(old(out)@),
                error: None,
            }),
            streams.wf(),
            start.frames(fs.take(j as int), pn) == (Collection {
                fc: streams@,
                pieces: pieces_of(out@),
                error: None,
            }),
        decreases fs.len() - j,
    {
        assert(fs.take(j + 1).drop_last() =~= fs.take(j as int));
        match collect_frame(streams, frames[j], pn, out) {
            Ok(()) => {},
            Err(e) => {
                proof {
                    lemma_collected_frames_from(start, fs, j + 1, pn);
                }
                return Err(e);
            },
        }
        j += 1;
    }
    assert(fs.take(j as int) =~= fs);
    Ok(())
}

impl Recovery {
    /// Takes the pieces of streams that must be delegated to the receivers for
    /// unicast retransmission, whoever received them.
    #[verifier::rlimit(40)]
    pub fn fc_get_delegated_stream(
        &mut self,
        streams: &mut StreamMap,
        retr_kind: FcUnicastRetransmission,
    ) -> (r: Result<Vec<FcDelegatedStream>>)
        requires
            old(self).wf(),
            old(streams).wf(),
        ensures
            final(self).wf(),
            final(streams).wf(),
            ({
                let s = old(self)@.application.sent;
                let start = new_collection(old(streams)@);
                let after = start.packets(to_retransmit(s, retr_kind@, Set::empty()));
                &&& final(streams)@ == after.fc
                &&& final(self)@ == (RecoveryModel {
                    application: EpochModel {
                        sent: start.marked(s, retr_kind@),
                        ..old(self)@.application
                    },
                    ..old(self)@
                })
                &&& match after.error {
                    Some(e) => r is Err && r->Err_0 == e,
                    None => r is Ok && pieces_of(r->Ok_0@) == after.pieces,
                }
            }),
    {
        let ghost s = self@.application.sent;
        let ghost start = new_collection(streams@);
        let ghost f = needed(retr_kind@, Set::empty());
        let ghost goal = start.marked(s, retr_kind@);
        let marks: bool = retr_kind.marks();
        let n: usize = if retr_kind.goes_on() {
            self.application.sent_packets.len()
        } else {
            self.resolved_len()
        };
        let mut out: Vec<FcDelegatedStream> = Vec::new();
        let mut i: usize = 0;
        proof {
            reveal(Seq::filter);
            assert(pieces_of(out@) =~= Seq::<DelegatedModel>::empty());
        }
        while i < n
            invariant
                i <= n,
                n == reach(s, retr_kind@),
                goal == start.marked(s, retr_kind@),
                n <= s.len(),
                f == needed(retr_kind@, Set::empty()),
                marks == retr_kind@.marks(),
                s == old(self)@.application.sent,
                old(self).wf(),
                start == new_collection(old(streams)@),
                streams.wf(),
                start.packets(s.take(i as int).filter(f)) == (Collection {
                    fc: streams@,
                    pieces: pieces_of(out@),
                    error: None,
                }),
                self.application.sent_packets@.len() == s.len(),
                forall|k: int|
                    0 <= k < i ==> (#[trigger] self.application.sent_packets@[k])@ == goal[k],
                forall|k: int|
                    i <= k < s.len() ==> (#[trigger] self.application.sent_packets@[k])@ == s[k],
                same_but_packets(*self, *old(self)),
            decreases n - i,
        {
            proof {
                lemma_filter_step(s, i as int, f);
                assert(self.application.sent_packets@[i as int]@ == s[i as int]);
            }
            if !retr_kind.selects(&self.application.sent_packets[i]) {
                i += 1;
                continue;
            }
            if marks {
                self.application.sent_packets[i].is_fc_delegated = true;
            }
            assert(self.application.sent_packets@[i as int]@ =~= goal[i as int]);
            proof {
                let so_far = s.take(i as int).filter(f);
                assert(so_far.push(s[i as int]).drop_last() =~= so_far);
                assert(s[i as int].fits());
            }
            let p: &Sent = &self.application.sent_packets[i];
            assert(p.frames@ == s[i as int].frames);
            match collect_frames(streams, &p.frames, p.pkt_num, &mut out) {
                Ok(()) => {},
                Err(e) => {
                    proof {
                        lemma_collected_packets_from(start, s, f, i + 1, n as int);
                        assert forall|k: int| i < k < s.len() implies goal[k] == s[k] by {
                            if k < n {
                                lemma_collected_packets_from(start, s, f, i + 1, k);
                            }
                        }
                        assert(self@.application.sent =~= goal);
                        lemma_marked_wf(*self, *old(self));
                    }
                    return Err(e);
                },
            }
            i += 1;
        }
        proof {
            assert(self@.application.sent =~= goal);
            lemma_marked_wf(*self, *old(self));
        }
        Ok(out)
    }

    /// Returns the lowest packet number still in the sending queue of the
    /// application data.
    pub fn get_lowest_pn_app_epoch(&self) -> (r: Option<u64>)
        ensures
            r == self@.lowest_pn(),
    {
        if self.application.sent_packets.len() > 0 {
            Some(self.application.sent_packets[0].pkt_num)
        } else {
            None
        }
    }

    /// Raises the largest packet number that was acknowledged.
    pub fn set_largest_ack(&mut self, largest: u64)
        requires
            old(self).wf(),
        ensures
            final(self).wf(),
            final(self)@ == old(self)@.with_largest(largest),
    {
        let raise: bool = match self.application.largest_acked_packet {
            Some(pn) => pn < largest,
            None => true,
        };
        if raise {
            self.application.largest_acked_packet = Some(largest);
        }
    }

    /// Returns a copy of the packets of a space from the number `max_pn` on, and
    /// the number of the last packet of application data.
    pub fn fc_get_sent_pkt(&self, epoch: Epoch, max_pn: u64) -> (r: (u64, Vec<Sent>))
        ensures
            r.0 == self@.last_pn(),
            models(r.1@) == self@.epoch(epoch).sent.filter(sent_from(max_pn)),
    {
        let n: usize = self.application.sent_packets.len();
        let last: u64 = if n > 0 {
            self.application.sent_packets[n - 1].pkt_num
        } else {
            0
        };
        let queue: &Vec<Sent> = match epoch {
            Epoch::Initial => &self.initial.sent_packets,
            Epoch::Handshake => &self.handshake.sent_packets,
            Epoch::Application => &self.application.sent_packets,
        };
        let ghost s = models(queue@);
        let ghost f = sent_from(max_pn);
        let mut out: Vec<Sent> = Vec::new();
        let mut i: usize = 0;
        proof {
            reveal(Seq::filter);
            assert(models(out@) =~= s.take(0).filter(f));
        }
        while i < queue.len()
            invariant
                i <= queue@.len(),
                s == models(queue@),
                f == sent_from(max_pn),
                models(out@) == s.take(i as int).filter(f),
            decreases queue@.len() - i,
        {
            proof {
                lemma_filter_step(s, i as int, f);
            }
            if queue[i].pkt_num >= max_pn {
                let ghost before = out@;
                let p: Sent = queue[i].copy();
                out.push(p);
                assert(models(out@) =~= models(before).push(p@));
            }
            i += 1;
        }
        assert(s.take(i as int) =~= s);
        (last, out)
    }

    /// Returns a copy of the packets of application data.
    pub fn get_sent_pkts(&self) -> (r: Vec<Sent>)
        ensures
            models(r@) == self@.application.sent,
    {
        let r: Vec<Sent> = self.fc_get_sent_pkt(Epoch::Application, 0).1;
        proof {
            lemma_filter_all(self@.application.sent, sent_from(0));
        }
        r
    }

    /// Sets whether this is the source of a flexicast flow.
    pub fn set_fc_recovery_epoch(&mut self, v: bool)
        requires
            old(self).wf(),
        ensures
            final(self).wf(),
            final(self)@ == old(self)@.with_source(v),
    {
        self.initial.is_fc_source = v;
        self.handshake.is_fc_source = v;
        self.application.is_fc_source = v;
    }
}

impl RecoveryModel {
    /// The number of the first packet in flight.
    pub open spec fn lowest_pn(self) -> Option<u64> {
        if self.application.sent.len() > 0 {
            Some(self.application.sent[0].pkt_num)
        } else {
            None
        }
    }

    /// The number of the last packet in flight, or 0.
    pub open spec fn last_pn(self) -> u64 {
        if self.application.sent.len() > 0 {
            self.application.sent.last().pkt_num
        } else {
            0
        }
    }

    /// The path when the packet `largest` was acknowledged too.
    pub open spec fn with_largest(self, largest: u64) -> RecoveryModel {
        RecoveryModel {
            application: EpochModel {
                largest_acked: crate::recovery::largest_of(
                    self.application.largest_acked,
                    Some(largest),
                ),
                ..self.application
            },
            ..self
        }
    }

    /// The path when all its spaces are those of the source of a flow, or none.
    pub open spec fn with_source(self, v: bool) -> RecoveryModel {
        RecoveryModel {
            initial: EpochModel { is_fc_source: v, ..self.initial },
            handshake: EpochModel { is_fc_source: v, ..self.handshake },
            application: EpochModel { is_fc_source: v, ..self.application },
            ..self
        }
    }
}

/// The packets from the number `max_pn` on.
pub open spec fn sent_from(max_pn: u64) -> spec_fn(SentModel) -> bool {
    |p: SentModel| p.pkt_num >= max_pn
}

/// The numbers of some packets grow.
pub open spec fn ascending(s: Seq<SentModel>) -> bool {
    forall|i: int, j: int|
        0 <= i < j < s.len() ==> (#[trigger] s[i]).pkt_num < (#[trigger] s[j]).pkt_num
}

/// A path after some packets of application data were sent.
pub open spec fn after_sends(r: RecoveryModel, more: Seq<SentModel>) -> RecoveryModel
    decreases more.len(),
{
    if more.len() == 0 {
        r
    } else {
        after_sends(r, more.drop_last()).send(more.last())
    }
}

proof fn lemma_after_sends(r: RecoveryModel, more: Seq<SentModel>)
    ensures
        after_sends(r, more).application.sent == r.application.sent + more,
    decreases more.len(),
{
    if more.len() > 0 {
        lemma_after_sends(r, more.drop_last());
        assert((r.application.sent + more.drop_last()).push(more.last()) =~= r.application.sent
            + more);
    } else {
        assert(r.application.sent + more =~= r.application.sent);
    }
}

/// A filter that keeps the packets from the position `n` on.
proof fn lemma_filter_tail(s: Seq<SentModel>, f: spec_fn(SentModel) -> bool, n: int, k: int)
    requires
        0 <= n <= s.len(),
        0 <= k <= s.len(),
        forall|i: int| 0 <= i < s.len() ==> f(#[trigger] s[i]) == (i >= n),
    ensures
        s.take(k).filter(f) == if k <= n {
            Seq::empty()
        } else {
            s.subrange(n, k)
        },
    decreases k,
{
    if k == 0 {
        reveal(Seq::filter);
        assert(s.take(0).filter(f) =~= Seq::<SentModel>::empty());
    } else {
        lemma_filter_tail(s, f, n, k - 1);
        lemma_filter_step(s, k - 1, f);
        assert(f(s[k - 1]) == (k - 1 >= n));
        if k - 1 >= n {
            assert(s.subrange(n, k) =~= s.subrange(n, k - 1).push(s[k - 1]));
            if k - 1 == n {
                assert(s.subrange(n, k - 1) =~= Seq::<SentModel>::empty());
            }
        }
    }
}

/// Each packet is given out once: a caller that has the packets up to the last one,
/// and asks again from the number after it, gets the packets that were sent since, in
/// the order in which they were sent. None of them is missed, and no other comes
/// again.
pub proof fn packets_sent_since_are_given_once(r: RecoveryModel, more: Seq<SentModel>)
    requires
        r.application.sent.len() > 0,
        ascending(r.application.sent + more),
        r.last_pn() < u64::MAX,
    ensures
        ({
            let next = after_sends(r, more);
            let again = (r.last_pn() + 1) as u64;
            &&& next.epoch(Epoch::Application).sent.filter(sent_from(again)) == more
            &&& next.last_pn() == if more.len() == 0 {
                r.last_pn()
            } else {
                more.last().pkt_num
            }
        }),
{
    let s = r.application.sent;
    let all = s + more;
    let m = r.last_pn();
    let f = sent_from((m + 1) as u64);
    lemma_after_sends(r, more);
    let last = s.len() - 1;
    assert(all[last] == s[last]);
    assert forall|i: int| 0 <= i < all.len() implies f(#[trigger] all[i]) == (i >= s.len()) by {
        if i < last {
            assert(all[i].pkt_num < all[last].pkt_num);
        } else if i > last {
            assert(all[last].pkt_num < all[i].pkt_num);
        }
    }
    lemma_filter_tail(all, f, s.len() as int, all.len() as int);
    assert(all.take(all.len() as int) =~= all);
    assert(all.subrange(s.len() as int, all.len() as int) =~= more);
    if more.len() == 0 {
        assert(more =~= Seq::<SentModel>::empty());
    }
    if more.len() > 0 {
        assert(all.last() == more.last());
    } else {
        assert(all =~= s);
    }
}

/// A filter that keeps everything.
proof fn lemma_filter_all(s: Seq<SentModel>, f: spec_fn(SentModel) -> bool)
    requires
        forall|p: SentModel| #[trigger] f(p),
    ensures
        s.filter(f) == s,
    decreases s.len(),
{
    reveal(Seq::filter);
    if s.len() > 0 {
        lemma_filter_all(s.drop_last(), f);
        assert(s.drop_last().push(s.last()) =~= s);
    }
}

/// Marks change nothing that decides which streams are closed.
proof fn lemma_close_same(d: Delegation, s: Seq<SentModel>, t: Seq<SentModel>, n: int)
    requires
        0 <= n <= s.len(),
        s.len() == t.len(),
        forall|i: int|
            0 <= i < s.len() ==> (#[trigger] s[i]).time_lost == t[i].time_lost && s[i].frames
                == t[i].frames,
    ensures
        d.close_packets(s.take(n).filter(is_lost())) == d.close_packets(
            t.take(n).filter(is_lost()),
        ),
    decreases n,
{
    let f = is_lost();
    if n == 0 {
        reveal(Seq::filter);
        assert(s.take(0) =~= t.take(0));
    } else {
        lemma_close_same(d, s, t, n - 1);
        lemma_filter_step(s, n - 1, f);
        lemma_filter_step(t, n - 1, f);
        assert(s[n - 1].time_lost == t[n - 1].time_lost);
        let x = s.take(n - 1).filter(f);
        let y = t.take(n - 1).filter(f);
        assert(x.push(s[n - 1]).drop_last() =~= x);
        assert(y.push(t[n - 1]).drop_last() =~= y);
    }
}

/// Nothing but the packets of the application data differs.
pub open spec fn same_but_packets(a: Recovery, b: Recovery) -> bool {
    &&& a.initial == b.initial
    &&& a.handshake == b.handshake
    &&& a.application.largest_acked_packet == b.application.largest_acked_packet
    &&& a.application.is_fc_source == b.application.is_fc_source
    &&& a.fc_recovery == b.fc_recovery
    &&& a.rtt == b.rtt
    &&& a.cwnd == b.cwnd
    &&& a.app_limited == b.app_limited
}

/// Marks on packets keep the recovery state well formed.
proof fn lemma_marked_wf(a: Recovery, b: Recovery)
    requires
        b.wf(),
        same_but_packets(a, b),
        a@.application.sent.len() == b@.application.sent.len(),
        forall|i: int|
            0 <= i < a@.application.sent.len() ==> (#[trigger] a@.application.sent[i])
                == b@.application.sent[i] || a@.application.sent[i] == (SentModel {
                is_fc_delegated: true,
                ..b@.application.sent[i]
            }),
    ensures
        a.wf(),
{
    crate::recovery::lemma_same_weight(a@.application.sent, b@.application.sent);
    assert forall|i: int| 0 <= i < a@.application.sent.len() implies (
    #[trigger] a@.application.sent[i]).fits() by {
        assert(b@.application.sent[i].fits());
    }
}

/// The packet numbers of one more packet.
proof fn lemma_numbers_push(s: Seq<SentModel>, p: SentModel)
    ensures
        numbers(s.push(p)) == numbers(s).insert(p.pkt_num),
{
    let t = s.push(p);
    assert forall|pn: u64| numbers(t).contains(pn) == numbers(s).insert(p.pkt_num).contains(pn) by {
        assert(t[s.len() as int] == p);
        if numbers(s).contains(pn) {
            let i = choose|i: int| 0 <= i < s.len() && (#[trigger] s[i]).pkt_num == pn;
            assert(t[i].pkt_num == pn);
        }
        if numbers(t).contains(pn) && pn != p.pkt_num {
            let i = choose|i: int| 0 <= i < t.len() && (#[trigger] t[i]).pkt_num == pn;
            assert(s[i].pkt_num == pn);
        }
    }
    assert(numbers(t) =~= numbers(s).insert(p.pkt_num));
}

/// What each kind of retransmission does. A delegation is followed by the aggregators, looks
/// for lost packets as far as all packets are lost or acknowledged, and marks them if it is
/// the last one. A full retransmission looks at all the packets, takes all of them and marks
/// them. A path on its own looks at all the packets where some are lost for it, takes these
/// and those that the flow lost, and marks none.
pub proof fn kinds_of_retransmissions_differ(kind: RetransmissionModel, p: SentModel)
    ensures
        kind.follows() <==> kind is Delegates,
        kind matches RetransmissionModel::Delegates(last) ==> {
            &&& kind.marks() == last
            &&& !kind.goes_on()
            &&& kind.selects(p) <==> p.time_lost is Some
        },
        kind is FullRetransmit ==> kind.marks() && kind.goes_on() && kind.selects(p),
        kind matches RetransmissionModel::PerUcPath(pns) ==> {
            &&& !kind.marks()
            &&& kind.goes_on() <==> exists|pn: u64| #[trigger] pns.contains(pn)
            &&& kind.selects(p) <==> p.time_lost is Some || pns.contains(p.pkt_num)
        },
{
    if let RetransmissionModel::PerUcPath(pns) = kind {
        if forall|pn: u64| !#[trigger] pns.contains(pn) {
            assert(pns =~= Set::<u64>::empty());
        }
    }
}

/// The search stops at the first packet of the queue that is neither lost nor acknowledged.
pub proof fn search_stops_at_the_first_unresolved(s: Seq<SentModel>, i: int)
    ensures
        resolved_len(s) <= s.len(),
        0 <= i < resolved_len(s) ==> s[i].time_lost is Some || s[i].time_acked is Some,
        resolved_len(s) < s.len() ==> s[resolved_len(s) as int].time_lost is None
            && s[resolved_len(s) as int].time_acked is None,
    decreases s.len(),
{
    if s.len() > 0 && (s[0].time_lost is Some || s[0].time_acked is Some) {
        search_stops_at_the_first_unresolved(s.skip(1), i - 1);
        let n = resolved_len(s) as int;
        if 0 < i < n {
            assert(s.skip(1)[i - 1] == s[i]);
        }
        if n < s.len() {
            assert(s.skip(1)[n - 1] == s[n]);
        }
    }
}

/// The packets that a receiver gets are those of the queue that the search reaches, that the
/// kind of retransmission takes, and that the receiver does not have: each of these, in the
/// order of the queue, and no others.
pub proof fn needed_packets_are_retransmitted(
    s: Seq<SentModel>,
    kind: RetransmissionModel,
    recv: Set<u64>,
    i: int,
)
    requires
        0 <= i < s.len(),
    ensures
        ({
            let r = to_retransmit(s, kind, recv);
            let reached = kind.goes_on() || i < resolved_len(s);
            &&& reached && kind.selects(s[i]) && !recv.contains(s[i].pkt_num) ==> r.contains(s[i])
            &&& ascending(s) && r.contains(s[i]) ==> reached && kind.selects(s[i])
                && !recv.contains(s[i].pkt_num)
            &&& ascending(s) ==> ascending(r)
            &&& forall|k: int|
                0 <= k < r.len() ==> exists|j: int|
                    0 <= j < s.len() && #[trigger] s[j] == #[trigger] r[k]
        }),
{
    broadcast use vstd::seq_lib::group_filter_ensures;

    search_stops_at_the_first_unresolved(s, i);
    let n = reach(s, kind) as int;
    let f = needed(kind, recv);
    let t = s.take(n);
    lemma_filter_items(t, f);
    let r = to_retransmit(s, kind, recv);
    if i < n && f(s[i]) {
        assert(t[i] == s[i]);
        assert(r.contains(t[i]));
    }
    assert forall|k: int| 0 <= k < r.len() implies exists|j: int|
        0 <= j < s.len() && #[trigger] s[j] == #[trigger] r[k] by {
        let j = choose|j: int| 0 <= j < t.len() && #[trigger] t[j] == r[k];
        assert(s[j] == r[k]);
    }
    if ascending(s) {
        assert(ascending(t)) by {
            assert forall|a: int, b: int| 0 <= a < b < t.len() implies (#[trigger] t[a]).pkt_num < (
            #[trigger] t[b]).pkt_num by {
                assert(s[a].pkt_num < s[b].pkt_num);
            }
        }
        lemma_filter_ascending(t, f);
        if r.contains(s[i]) {
            let k = choose|k: int| 0 <= k < r.len() && r[k] == s[i];
            let j = choose|j: int| 0 <= j < t.len() && #[trigger] t[j] == r[k];
            assert(s[j] == s[i]);
            if i < j {
                assert(s[i].pkt_num < s[j].pkt_num);
            } else if j < i {
                assert(s[j].pkt_num < s[i].pkt_num);
            }
        }
    }
}

/// What a filter keeps was there, and passes the filter.
proof fn lemma_filter_items(s: Seq<SentModel>, f: spec_fn(SentModel) -> bool)
    ensures
        forall|k: int|
            0 <= k < s.filter(f).len() ==> f(#[trigger] s.filter(f)[k]) && exists|j: int|
                0 <= j < s.len() && #[trigger] s[j] == s.filter(f)[k],
    decreases s.len(),
{
    reveal(Seq::filter);
    if s.len() > 0 {
        let front = s.drop_last();
        lemma_filter_items(front, f);
        assert forall|k: int| 0 <= k < s.filter(f).len() implies f(#[trigger] s.filter(f)[k])
            && exists|j: int| 0 <= j < s.len() && #[trigger] s[j] == s.filter(f)[k] by {
            if k < front.filter(f).len() {
                assert(s.filter(f)[k] == front.filter(f)[k]);
                let j = choose|j: int| 0 <= j < front.len() && #[trigger] front[j] == front.filter(
                    f,
                )[k];
                assert(s[j] == s.filter(f)[k]);
            } else {
                assert(s[s.len() - 1] == s.filter(f)[k]);
            }
        }
    }
}

proof fn lemma_filter_ascending(s: Seq<SentModel>, f: spec_fn(SentModel) -> bool)
    requires
        ascending(s),
    ensures
        ascending(s.filter(f)),
    decreases s.len(),
{
    reveal(Seq::filter);
    if s.len() > 0 {
        let front = s.drop_last();
        assert(ascending(front)) by {
            assert forall|a: int, b: int| 0 <= a < b < front.len() implies (
            #[trigger] front[a]).pkt_num < (#[trigger] front[b]).pkt_num by {
                assert(s[a].pkt_num < s[b].pkt_num);
            }
        }
        lemma_filter_ascending(front, f);
        lemma_filter_items(front, f);
        let r = s.filter(f);
        let q = front.filter(f);
        assert forall|a: int, b: int| 0 <= a < b < r.len() implies (#[trigger] r[a]).pkt_num < (
        #[trigger] r[b]).pkt_num by {
            assert(r[a] == q[a]);
            if b < q.len() {
                assert(r[b] == q[b]);
            } else {
                let j = choose|j: int| 0 <= j < front.len() && #[trigger] front[j] == q[a];
                assert(s[j].pkt_num < s[s.len() - 1].pkt_num);
            }
        }
    }
}

/// The packets from a number on are given, each of them, and no earlier ones.
pub proof fn packets_from_a_number_on_are_given(s: Seq<SentModel>, from: u64, i: int)
    requires
        ascending(s),
        0 <= i < s.len(),
    ensures
        s.filter(sent_from(from)).contains(s[i]) <==> s[i].pkt_num >= from,
        ascending(s.filter(sent_from(from))),
        forall|k: int|
            0 <= k < s.filter(sent_from(from)).len() ==> (#[trigger] s.filter(
                sent_from(from),
            )[k]).pkt_num >= from,
{
    broadcast use vstd::seq_lib::group_filter_ensures;

    let f = sent_from(from);
    lemma_filter_items(s, f);
    lemma_filter_ascending(s, f);
    if s[i].pkt_num >= from {
        assert(f(s[i]));
    }
    if s.filter(f).contains(s[i]) {
        let k = choose|k: int| 0 <= k < s.filter(f).len() && s.filter(f)[k] == s[i];
        assert(f(s.filter(f)[k]));
    }
}

/// The numbers of some packets are those that one of them has.
pub proof fn numbers_are_those_of_the_packets(s: Seq<SentModel>, i: int, pn: u64)
    ensures
        0 <= i < s.len() ==> numbers(s).contains(s[i].pkt_num),
        numbers(s).contains(pn) ==> exists|j: int|
            0 <= j < s.len() && (#[trigger] s[j]).pkt_num == pn,
{
}

/// Where the kind of retransmission marks packets and meets no error, exactly the packets that
/// it takes on its way are marked, whether or not the receiver has them.
pub proof fn taken_packets_are_marked(
    d: Delegation,
    s: Seq<SentModel>,
    kind: RetransmissionModel,
    recv: Set<u64>,
    i: int,
)
    requires
        0 <= i < s.len(),
        d.packets(s.take(i).filter(needed(kind, recv)), kind.follows()).error is None,
    ensures
        d.marked(s, kind, recv)[i].is_fc_delegated <==> s[i].is_fc_delegated || (kind.marks() && (
        kind.goes_on() || i < resolved_len(s)) && kind.selects(s[i])),
        d.marked(s, kind, recv)[i].pkt_num == s[i].pkt_num,
        d.marked(s, kind, recv)[i].frames == s[i].frames,
        d.marked(s, kind, recv)[i].time_lost == s[i].time_lost,
        d.marked(s, kind, recv)[i].time_acked == s[i].time_acked,
{
}

/// A piece that is taken to be delegated carries the stream, the offset and the end of its
/// frame and the number of its packet. Where the flow still keeps it and nothing before its
/// end waits, its bytes are those of the stream at its offsets, and the flow is as it was. A
/// frame of a stream that is not open ends the collection.
pub proof fn taken_pieces_carry_their_bytes(
    c: Collection,
    stream_id: u64,
    offset: u64,
    length: usize,
    fin: bool,
    pn: u64,
    i: int,
)
    requires
        c.error is None,
        length > 0,
        offset + length <= u64::MAX,
        0 <= i < length,
    ensures
        ({
            let f = Frame::StreamHeader { stream_id, offset, length, fin };
            let after = c.frame(f, pn);
            let m = c.fc.streams[stream_id].send;
            let open = c.fc.streams.contains_key(stream_id);
            &&& !open ==> after.error == Some(Error::InvalidStreamState(stream_id)) && after.pieces
                == c.pieces && after.fc == c.fc
            &&& open ==> after.error is None
            &&& open && m.shutdown ==> after.pieces == c.pieces
            &&& open && !m.shutdown ==> {
                let d = after.pieces.last();
                &&& after.pieces.len() == c.pieces.len() + 1
                &&& after.pieces.drop_last() == c.pieces
                &&& d.stream_id == stream_id && d.offset == offset && d.fin == fin && d.pn == pn
                &&& d.payload.len() == length
            }
            &&& open && !m.shutdown && send_wf(m) && span(
                offset as int,
                offset + length,
            ).subset_of(m.data.dom()) && (forall|x: u64| #[trigger]
                m.pending.contains(x) ==> x >= offset + length) ==> {
                &&& after.pieces.last().payload[i] == m.data[(offset + i) as u64]
                &&& after.fc == c.fc
            }
        }),
{
    reveal(Collection::frame);
    let f = Frame::StreamHeader { stream_id, offset, length, fin };
    let after = c.frame(f, pn);
    let m = c.fc.streams[stream_id].send;
    let len = length as nat;
    if c.fc.streams.contains_key(stream_id) && !m.shutdown {
        assert(after.pieces.drop_last() =~= c.pieces);
        if send_wf(m) && span(offset as int, offset + length).subset_of(m.data.dom()) && (forall|
            x: u64,
        | #[trigger] m.pending.contains(x) ==> x >= offset + length) {
            retransmission_cancels_out(m, offset, len);
            assert(after.fc.streams =~= c.fc.streams);
            assert(after.fc =~= c.fc);
        }
    }
}

/// The frames of a packet are taken in order, and those of packets in the order of the queue.
pub proof fn frames_are_taken_in_order(
    c: Collection,
    a: Seq<Frame>,
    f: Frame,
    s: Seq<SentModel>,
    p: SentModel,
    pn: u64,
)
    ensures
        c.frames(a.push(f), pn) == c.frames(a, pn).frame(f, pn),
        c.frames(Seq::empty(), pn) == c,
        c.packets(s.push(p)) == c.packets(s).frames(p.frames, p.pkt_num),
        c.packets(Seq::empty()) == c,
        new_collection(c.fc).pieces.len() == 0,
        new_collection(c.fc).error is None,
        new_collection(c.fc).fc == c.fc,
{
    assert(a.push(f).drop_last() =~= a);
    assert(s.push(p).drop_last() =~= s);
}

/// A lost piece is skipped where the receiver has its whole stream or the flow has shut the
/// stream down, and where it does not fit the end of the stream on the unicast path; the
/// delegation goes on. It ends where the flow does not know the stream, where the unicast path
/// can open no more streams, and where the receiver stopped the stream.
pub proof fn delegations_skip_or_end(d: Delegation, f: Frame, follows: bool)
    requires
        d.error is None,
    ensures
        ({
            let after = d.frame(f, follows);
            &&& !(f is StreamHeader) ==> after == d
            &&& f matches Frame::StreamHeader { stream_id, offset, length, fin } ==> {
                let known = d.fc.streams.contains_key(stream_id);
                let whole = d.uc.collected.contains(stream_id);
                let is_open = d.uc.streams.contains_key(stream_id);
                let full = !is_open && d.uc.streams.dom().len() >= d.uc.max_streams;
                let m = d.uc.streams[stream_id].send;
                &&& !known ==> after == (Delegation {
                    error: Some(Error::InvalidStreamState(stream_id)),
                    ..d
                })
                &&& known && whole ==> after == d
                &&& known && !whole && full ==> after == (Delegation {
                    error: Some(Error::StreamLimit),
                    ..d
                })
                &&& known && !whole && !full && d.fc.streams[stream_id].send.shutdown
                    ==> after.error is None && after.fc_ack == d.fc_ack && after.uc_ack == d.uc_ack
                &&& known && !whole && is_open && !d.fc.streams[stream_id].send.shutdown
                    && m.stopped is Some ==> after.error == Some(
                    Error::StreamStopped(m.stopped->0),
                )
                &&& known && !whole && is_open && !d.fc.streams[stream_id].send.shutdown
                    && m.stopped is None ==> after.error is None
                &&& known && !whole && !full && !is_open ==> after.error is None
            }
        }),
{
    reveal(Delegation::frame);
}

/// A stream that ends with a lost packet gets no more data on the unicast path: its end is
/// known there. Other frames close nothing.
pub proof fn ended_streams_are_closed(d: Delegation, f: Frame)
    ensures
        !(f is StreamHeader) ==> d.close(f) == d,
        f matches Frame::StreamHeader { stream_id, offset, length, fin } ==> {
            let after = d.close(f);
            &&& !fin || !d.uc.streams.contains_key(stream_id) ==> after == d
            &&& fin && d.uc.streams.contains_key(stream_id) ==> after.fc == d.fc && after.fc_ack
                == d.fc_ack && after.uc_ack == d.uc_ack && after.error == d.error && (
            after.uc.streams.contains_key(stream_id) ==> after.uc.streams[stream_id].send.fin_off
                == Some((offset + length) as u64) && after.uc.streams[stream_id].send.closed
                && after.uc.streams[stream_id].send.data == d.uc.streams[stream_id].send.data
                && after.uc.streams[stream_id].send.pending
                == d.uc.streams[stream_id].send.pending)
        },
{
    reveal(Delegation::close);
}

/// The first and the last packet in flight are those at the ends of the queue.
pub proof fn queue_has_two_ends(r: RecoveryModel)
    ensures
        r.application.sent.len() == 0 ==> r.lowest_pn() is None && r.last_pn() == 0,
        r.application.sent.len() > 0 ==> r.lowest_pn() == Some(r.application.sent[0].pkt_num)
            && r.last_pn() == r.application.sent[r.application.sent.len() - 1].pkt_num,
{
}

/// A number that is acknowledged from outside counts as the largest one unless a larger one was
/// acknowledged; the packets stay.
pub proof fn largest_number_only_grows(r: RecoveryModel, largest: u64)
    ensures
        ({
            let after = r.with_largest(largest);
            &&& after.application.largest_acked is Some
            &&& after.application.largest_acked->0 >= largest
            &&& r.application.largest_acked matches Some(m) ==> after.application.largest_acked->0
                >= m
            &&& after.application.largest_acked == Some(largest)
                || after.application.largest_acked == r.application.largest_acked
            &&& after.application.sent == r.application.sent
            &&& after.initial == r.initial && after.handshake == r.handshake
        }),
{
}

/// All the spaces of a path are told whether it is that of the source of a flow.
pub proof fn all_spaces_are_told(r: RecoveryModel, v: bool)
    ensures
        r.with_source(v).initial.is_fc_source == v,
        r.with_source(v).handshake.is_fc_source == v,
        r.with_source(v).application.is_fc_source == v,
        r.with_source(v).application.sent == r.application.sent,
        r.with_source(v).initial.sent == r.initial.sent,
        r.with_source(v).handshake.sent == r.handshake.sent,
        r.with_source(v).application.largest_acked == r.application.largest_acked,
        r.with_source(v).rtt == r.rtt,
        r.with_source(v).cwnd == r.cwnd,
        new_fc_recovery(v).is_fc_source == v,
        new_fc_recovery(v).new_acked.len() == 0,
        new_fc_recovery(v).new_lost.len() == 0,
{
}

/// After a delegation, the streams and the aggregator of the unicast path are those of its
/// outcome. What the receiver acknowledged is used up, unless the delegation met an error.
pub proof fn delegation_uses_up_acknowledgments(c: ConnectionModel, d: Delegation)
    requires
        c.uc_ack() is Some,
        d.uc_ack is Some,
    ensures
        c.delegated(d).streams == d.uc,
        c.delegated(d).uc_ack() == d.uc_ack,
        d.error is None ==> c.delegated(d).received() == Set::<u64>::empty(),
        d.error is Some ==> c.delegated(d).received() == c.received(),
        c.delegated(d).paths == c.paths,
        c.delegated(d).tx_buffered == c.tx_buffered,
        c.delegated(d).flexicast->0.fc_chan_id == c.flexicast->0.fc_chan_id,
        c.delegated(d).flexicast->0.announces == c.flexicast->0.announces,
        c.delegated(d).flexicast->0.mc_role == c.flexicast->0.mc_role,
{
}

/// A frame is a piece that is delegated exactly when it is one of a stream of the flow that is not
/// shut down, the receiver does not have the whole stream, and the unicast path takes the
/// piece: the stream is open or can be opened, the receiver has not stopped it, and the piece
/// fits the known end.
pub proof fn delegated_frames_are_those_taken(d: Delegation, f: Frame)
    requires
        d.error is None,
        d.uc.streams.dom().disjoint(d.uc.collected),
    ensures
        ({
            let id = f->stream_id;
            let end = f->offset + f->length;
            let m = d.uc.streams[id].send;
            d.delegates(f) <==> {
                &&& f is StreamHeader
                &&& d.fc.streams.contains_key(id)
                &&& !d.fc.streams[id].send.shutdown
                &&& !d.uc.collected.contains(id)
                &&& d.uc.streams.contains_key(id) ==> m.stopped is None && (
                m.fin_off matches Some(e) ==> end < e || (end == e && f->fin))
                &&& !d.uc.streams.contains_key(id) ==> d.uc.streams.dom().len() < d.uc.max_streams
            }
        }),
{
}

/// The delegated pieces are counted one by one, over the frames of a packet and over packets.
pub proof fn delegated_pieces_are_counted(
    d: Delegation,
    fs: Seq<Frame>,
    f: Frame,
    s: Seq<SentModel>,
    p: SentModel,
    follows: bool,
)
    ensures
        d.nb_frames(Seq::empty(), follows) == 0,
        d.frames(fs, follows).delegates(f) ==> d.nb_frames(fs.push(f), follows) == d.nb_frames(
            fs,
            follows,
        ) + 1,
        !d.frames(fs, follows).delegates(f) ==> d.nb_frames(fs.push(f), follows) == d.nb_frames(
            fs,
            follows,
        ),
        d.nb_packets(Seq::empty(), follows) == 0,
        d.nb_packets(s.push(p), follows) == d.nb_packets(s, follows) + d.packets(
            s,
            follows,
        ).nb_frames(p.frames, follows),
{
    assert(fs.push(f).drop_last() =~= fs);
    assert(s.push(p).drop_last() =~= s);
}

/// The count of a delegation is that of the packets that the receiver needs; nothing is counted
/// where it needs none.
pub proof fn delegations_count_needed_packets(
    d: Delegation,
    s: Seq<SentModel>,
    kind: RetransmissionModel,
    recv: Set<u64>,
)
    ensures
        to_retransmit(s, kind, recv).len() == 0 ==> d.nb_delegated(s, kind, recv) == 0,
        !(kind is PerUcPath) ==> d.nb_delegated(s, kind, recv) == d.nb_packets(
            to_retransmit(s, kind, recv),
            kind is Delegates,
        ),
{
}

/// Taken pieces are marked in the same way as delegated ones.
pub proof fn collected_packets_are_marked(
    c: Collection,
    s: Seq<SentModel>,
    kind: RetransmissionModel,
    i: int,
)
    requires
        0 <= i < s.len(),
    ensures
        ({
            let p = c.marked(s, kind)[i];
            let reached = kind.goes_on() || i < resolved_len(s);
            &&& c.marked(s, kind).len() == s.len()
            &&& c.packets(s.take(i).filter(needed(kind, Set::empty()))).error is None ==> (
            p.is_fc_delegated <==> s[i].is_fc_delegated || (kind.marks() && reached
                && kind.selects(s[i])))
            &&& p.pkt_num == s[i].pkt_num && p.frames == s[i].frames && p.size == s[i].size
            &&& p.time_sent == s[i].time_sent && p.time_lost == s[i].time_lost && p.time_acked
                == s[i].time_acked
        }),
{
}

/// What a unicast path knows of its receiver is read from its attributes, and set there; a
/// connection with another role has none.
pub proof fn unicast_paths_know_their_receiver(c: ConnectionModel, a: AckModel, pns: Set<u64>)
    ensures
        (c.flexicast is None || !(c.flexicast->0.fc_reliable is UcPath)) ==> c.uc_ack() is None
            && c.received() == Set::<u64>::empty() && c.with_uc_ack(a) == c && c.with_received(pns)
            == c,
        c.flexicast is Some && c.flexicast->0.fc_reliable is UcPath ==> {
            let u = c.flexicast->0.fc_reliable->UcPath_0;
            &&& c.uc_ack() == Some(u.mc_ack)
            &&& c.received() == u.fc_pn_recv
            &&& c.with_uc_ack(a).uc_ack() == Some(a)
            &&& c.with_uc_ack(a).received() == u.fc_pn_recv
            &&& c.with_received(pns).received() == pns
            &&& c.with_received(pns).uc_ack() == Some(u.mc_ack)
            &&& c.with_uc_ack(a).streams == c.streams && c.with_received(pns).streams == c.streams
            &&& c.with_uc_ack(a).paths == c.paths && c.with_received(pns).paths == c.paths
        },
{
}

} // verus!
