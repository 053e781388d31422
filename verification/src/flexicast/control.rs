//! Exchange of data and control information between the source of a flexicast
//! flow and the unicast connections with the receivers.

use vstd::prelude::*;

use crate::connection::Connection;
use crate::connection::ConnectionModel;
use crate::error::Error;
use crate::error::FcError;
use crate::error::McRole;
use crate::error::Result;
use crate::flexicast::ack::AckModel;
use crate::flexicast::ack::McStreamOff;
use crate::flexicast::reliable::FcUnicastRetransmission;
use crate::flexicast::reliable::ReliableModel;
use crate::flexicast::reliable::UcPathModel;
use crate::flexicast::FlexicastModel;
use crate::path::Path;
use crate::ranges::RangeSet;
use crate::ranges::span;
use crate::recovery::any_packet;
use crate::recovery::bytes_of;
use crate::recovery::flexicast::ascending;
use crate::recovery::flexicast::lemma_filter_step;
use crate::recovery::flexicast::new_collection;
use crate::recovery::flexicast::packets_from_a_number_on_are_given;
use crate::recovery::flexicast::pieces_of;
use crate::recovery::flexicast::sent_from;
use crate::recovery::flexicast::to_retransmit;
use crate::recovery::flexicast::DelegatedModel;
use crate::recovery::flexicast::FcDelegatedStream;
use crate::recovery::models;
use crate::recovery::Epoch;
use crate::recovery::EpochModel;
use crate::recovery::RecoveryModel;
use crate::recovery::Sent;
use crate::recovery::SentModel;
use crate::stream::all_but;
use crate::stream::data_is_written_at_its_offset;
use crate::stream::new_send;
use crate::stream::SendModel;
use crate::stream::StreamMap;
use crate::stream::StreamModel;
use crate::stream::StreamsModel;
use crate::time::Duration;

verus! {

/// A packet that was sent, as the flexicast source shows it.
pub type OpenSent = Sent;

impl ConnectionModel {
    /// Why this is not the unicast connection with a receiver.
    pub open spec fn not_unicast(self) -> Option<Error> {
        match self.flexicast {
            None => Some(Error::Flexicast(FcError::McDisabled)),
            Some(f) => if f.mc_role is ServerUnicast {
                None
            } else {
                Some(Error::Flexicast(FcError::McInvalidRole(f.mc_role)))
            },
        }
    }

    /// Why this is not a unicast path that follows a reliable flexicast flow.
    pub open spec fn not_reliable_unicast(self) -> Option<Error> {
        if self.not_unicast() is Some {
            self.not_unicast()
        } else if self.uc_ack() is None {
            Some(Error::Flexicast(FcError::McReliableDisabled))
        } else {
            None
        }
    }

    /// Why this is not the source of a flexicast flow with a path.
    pub open spec fn not_source(self) -> Option<Error> {
        match self.flexicast {
            None => Some(Error::Flexicast(FcError::McDisabled)),
            Some(f) => if f.mc_role != McRole::ServerFlexicast {
                Some(Error::Flexicast(FcError::McInvalidRole(McRole::ServerFlexicast)))
            } else if f.fc_path_id is None {
                Some(Error::Flexicast(FcError::McPath))
            } else {
                None
            },
        }
    }

    /// Position that the identifier of the flexicast path stands for.
    pub open spec fn fc_index(self) -> usize {
        self.flexicast->0.fc_path_id->0 as usize
    }

    /// The source with the expiration timer of its flow as the round-trip time of the
    /// flexicast path. The flow is the first channel that the source announces; one
    /// that announces none has no timer, and is as it was.
    pub open spec fn with_expiration_rtt(self) -> ConnectionModel {
        let announces = self.flexicast->0.announces;
        let pid = self.fc_index() as int;
        if announces.len() == 0 {
            self
        } else {
            ConnectionModel {
                paths: self.paths.with_recovery(
                    pid,
                    RecoveryModel {
                        rtt: Duration { nanos: (announces[0].expiration_timer * 1_000_000) as u128 },
                        ..self.paths.paths[pid].recovery
                    },
                ),
                ..self
            }
        }
    }

    /// The connection when its receiver must listen from the packet `pn` on.
    pub open spec fn with_first_pn(self, pn: Option<u64>) -> ConnectionModel {
        match self.flexicast {
            Some(f) => ConnectionModel {
                flexicast: Some(FlexicastModel { fc_first_pn: pn, ..f }),
                ..self
            },
            None => self,
        }
    }

    /// Whether this unicast connection follows the flexicast channel at `fc_id`.
    pub open spec fn joined(self, fc_id: int) -> bool {
        self.flexicast matches Some(f) && f.fc_chan_id matches Some(c) && c.1 == fc_id
    }

    /// This unicast path when it has seen the packets before `highest`.
    pub open spec fn with_highest(self, highest: Option<u64>) -> ConnectionModel {
        match self.flexicast->0.fc_reliable {
            ReliableModel::UcPath(u) => self.with_reliable(
                ReliableModel::UcPath(UcPathModel { fc_highest_pn: highest, ..u }),
            ),
            _ => self,
        }
    }

    /// The first packet that this unicast path has not seen.
    pub open spec fn first_unseen(self) -> u64 {
        match self.flexicast->0.fc_reliable {
            ReliableModel::UcPath(u) => match u.fc_highest_pn {
                Some(pn) => pn,
                None => 0,
            },
            _ => 0,
        }
    }

    /// This unicast path once it has seen the packets `sent`, whether or not it
    /// follows their flow.
    pub open spec fn seen(self, sent: Seq<SentModel>) -> ConnectionModel {
        if sent.len() > 0 {
            self.with_highest(Some((sent.last().pkt_num + 1) as u64))
        } else {
            self
        }
    }

    /// The packets in flight on the flexicast path once `sent` are added.
    pub open spec fn with_sent(self, sent: Seq<SentModel>) -> ConnectionModel {
        let pid = self.fc_index() as int;
        let r = self.paths.paths[pid].recovery;
        ConnectionModel {
            paths: self.paths.with_recovery(
                pid,
                RecoveryModel {
                    application: EpochModel {
                        sent: r.application.sent + sent,
                        ..r.application
                    },
                    ..r
                },
            ),
            ..self
        }
    }
}

impl StreamsModel {
    /// A delegated piece is written on a stream, which is opened where it does not
    /// exist. A piece of a stream that is closed for good, or that does not fit
    /// the size of the stream, is skipped.
    pub open spec fn delegate(self, d: DelegatedModel) -> (StreamsModel, Option<Error>) {
        let (opened, e) = self.get_or_create(d.stream_id, true);
        if e == Some(Error::Done) {
            (self, None)
        } else if e is Some {
            (self, e)
        } else {
            let (written, e) = opened.write_at(d.stream_id, d.payload, d.offset, d.fin);
            if e == Some(Error::FinalSize) {
                (opened, None)
            } else {
                (written, e)
            }
        }
    }

    /// Some delegated pieces are written in turn, up to the first error.
    pub open spec fn delegate_all(self, ds: Seq<DelegatedModel>) -> (StreamsModel, Option<Error>)
        decreases ds.len(),
    {
        if ds.len() == 0 {
            (self, None)
        } else {
            let (s, e) = self.delegate_all(ds.drop_last());
            if e is Some {
                (s, e)
            } else {
                s.delegate(ds.last())
            }
        }
    }

    /// The stream `id` once it is known that it gets no more data.
    pub open spec fn ended(self, id: u64) -> StreamModel {
        let s = self.streams[id];
        StreamModel { send: SendModel { closed: true, ..s.send }, ..s }
    }

    /// The open streams of a set that are complete once they get no more data.
    pub open spec fn completed(self, ids: Set<u64>) -> Set<u64> {
        Set::new(
            |id: u64|
                ids.contains(id) && self.streams.contains_key(id) && self.ended(id).is_complete()
                    && !self.ended(id).readable,
        )
    }

    /// The streams once it is known that those of a set get no more data: the
    /// complete ones are closed for good.
    pub open spec fn end_all(self, ids: Set<u64>) -> StreamsModel {
        StreamsModel {
            streams: Map::new(
                |id: u64| self.streams.contains_key(id) && !self.completed(ids).contains(id),
                |id: u64|
                    if ids.contains(id) {
                        self.ended(id)
                    } else {
                        self.streams[id]
                    },
            ),
            collected: self.collected.union(self.completed(ids)),
            flushable: self.flushable.filter(outside(self.completed(ids))),
            ..self
        }
    }
}

/// The integers that are not in a set.
pub open spec fn outside(s: Set<u64>) -> spec_fn(u64) -> bool {
    |x: u64| !s.contains(x)
}

/// All the offsets of the pieces are 64-bit integers.
pub open spec fn pieces_fit(ds: Seq<DelegatedModel>) -> bool {
    forall|i: int|
        0 <= i < ds.len() ==> (#[trigger] ds[i]).offset + ds[i].payload.len() <= u64::MAX
}

impl Connection {
    /// Sets the first packet number that the receiver must listen to.
    pub fn fc_set_first_pn(&mut self, pn: Option<u64>)
        requires
            old(self).wf(),
        ensures
            final(self).wf(),
            final(self)@ == old(self)@.with_first_pn(pn),
    {
        if let Some(fc) = &mut self.flexicast {
            fc.fc_first_pn = pn;
        }
    }

    /// Returns the packet numbers of the flexicast flow that the receiver
    /// acknowledged, and the pieces of streams that had been delegated to this
    /// unicast path and that the receiver acknowledged, since the last call.
    pub fn get_new_ack_pn_streams(&mut self) -> (r: Result<(Option<RangeSet>, Option<McStreamOff>)>)
        requires
            old(self).wf(),
        ensures
            final(self).wf(),
            match old(self)@.not_reliable_unicast() {
                Some(e) => r is Err && r->Err_0 == e && final(self)@ == old(self)@,
                None => {
                    let a = old(self)@.uc_ack()->0;
                    &&& r is Ok
                    &&& (r->Ok_0.0 is None <==> a.full == Set::<u64>::empty())
                    &&& r->Ok_0.0 matches Some(s) ==> s.wf() && s@ == a.full
                    &&& (r->Ok_0.1 is None <==> a.acked_pieces.len() == 0)
                    &&& r->Ok_0.1 matches Some(v) ==> v@ == a.acked_pieces
                    &&& final(self)@ == old(self)@.with_uc_ack(
                        AckModel { full: Set::empty(), acked_pieces: Seq::empty(), ..a },
                    )
                },
            },
    {
        match &mut self.flexicast {
            Some(fc) => {
                match fc.get_mc_role() {
                    McRole::ServerUnicast(_) => {},
                    role => {
                        return Err(Error::Flexicast(FcError::McInvalidRole(role)));
                    },
                }
                match fc.fc_reliable.server_mut() {
                    Some(rfc) => {
                        let new_ack_pn: Option<RangeSet> = rfc.mc_ack.full_ack();
                        let pieces: Option<McStreamOff> = rfc.mc_ack.acked_stream_off();
                        Ok((new_ack_pn, pieces))
                    },
                    None => Err(Error::Flexicast(FcError::McReliableDisabled)),
                }
            },
            None => Err(Error::Flexicast(FcError::McDisabled)),
        }
    }

    /// Returns the packets of the flexicast flow that are still in its sending
    /// queue, from the number `from` on: a caller that hands in the number after the
    /// last one it got has the packets that were sent since. Also resets the
    /// round-trip time of the flexicast path to the expiration timer of the flow.
    pub fn fc_get_sent_pkt(&mut self, from: Option<u64>) -> (r: Result<Vec<Sent>>)
        requires
            old(self).wf(),
        ensures
            final(self).wf(),
            final(self)@ == if r is Ok {
                old(self)@.with_expiration_rtt()
            } else {
                old(self)@
            },
            match old(self)@.not_source() {
                Some(e) => r is Err && r->Err_0 == e,
                None => if old(self)@.fc_index() >= old(self)@.paths.paths.len() {
                    r is Err && r->Err_0 == Error::Flexicast(FcError::McPath)
                } else {
                    let first = if from is Some {
                        from->0
                    } else {
                        0
                    };
                    let sent =
                        old(self)@.paths.paths[old(self)@.fc_index() as int].recovery.application.sent.filter(
                    sent_from(first));
                    if sent.len() == 0 {
                        r is Err && r->Err_0 == Error::Done
                    } else {
                        r is Ok && models(r->Ok_0@) == sent
                    }
                },
            },
    {
        let fc_path_id: u64 = match &self.flexicast {
            None => {
                return Err(Error::Flexicast(FcError::McDisabled));
            },
            Some(flexicast) => {
                if flexicast.get_mc_role() != McRole::ServerFlexicast {
                    return Err(Error::Flexicast(FcError::McInvalidRole(McRole::ServerFlexicast)));
                }
                match flexicast.fc_path_id {
                    Some(id) => id,
                    None => {
                        return Err(Error::Flexicast(FcError::McPath));
                    },
                }
            },
        };
        let max_pn: u64 = match from {
            Some(pn) => pn,
            None => 0,
        };
        let sent: Vec<Sent> = match self.paths.get(fc_path_id as usize) {
            Ok(path) => path.recovery.fc_get_sent_pkt(Epoch::Application, max_pn).1,
            Err(_) => {
                return Err(Error::Flexicast(FcError::McPath));
            },
        };
        assert(models(sent@).len() == sent@.len());
        if sent.len() == 0 {
            return Err(Error::Done);
        }
        let timer: Option<u64> = match &self.flexicast {
            Some(flexicast) => match flexicast.get_mc_announce_data(0) {
                Some(a) => Some(a.expiration_timer),
                None => None,
            },
            None => None,
        };
        if let Some(timer) = timer {
            let p: &mut Path = &mut self.paths.paths[fc_path_id as usize];
            p.recovery.rtt = Duration::from_millis(timer);
            assert(self.paths@.paths =~= old(self)@.with_expiration_rtt().paths.paths);
        }
        Ok(sent)
    }

    /// Notifies the connection of new packets that have been sent on the
    /// flexicast flow. Only available for the unicast connections, and without
    /// effect on the packets in flight if `fc_id` is not the flow that the
    /// receiver has joined.
    pub fn fc_on_new_pkt_sent(&mut self, fc_id: usize, sent: Vec<Sent>) -> (r: Result<()>)
        requires
            old(self).wf(),
            forall|i: int| 0 <= i < sent@.len() ==> (#[trigger] sent@[i])@.fits(),
            old(self)@.not_reliable_unicast() is None && old(self)@.joined(fc_id as int)
                && old(self)@.flexicast->0.fc_path_id is Some && old(self)@.fc_index()
                < old(self)@.paths.paths.len() ==> bytes_of(
                old(self)@.paths.paths[old(self)@.fc_index() as int].recovery.application.sent
                    + models(sent@).filter(sent_from(old(self)@.first_unseen())),
                any_packet(),
            ) <= usize::MAX,
        ensures
            final(self).wf(),
            match old(self)@.not_reliable_unicast() {
                Some(e) => r == Err::<(), Error>(e) && final(self)@ == old(self)@,
                None => {
                    let seen = old(self)@.seen(models(sent@));
                    if !old(self)@.joined(fc_id as int) {
                        r == Ok::<(), Error>(()) && final(self)@ == seen
                    } else if old(self)@.flexicast->0.fc_path_id is None {
                        &&& r == Err::<(), Error>(Error::Flexicast(FcError::McPath))
                        &&& final(self)@ == seen
                    } else if old(self)@.fc_index() >= old(self)@.paths.paths.len() {
                        r == Err::<(), Error>(Error::InvalidState) && final(self)@ == seen
                    } else {
                        &&& r == Ok::<(), Error>(())
                        &&& final(self)@ == seen.with_sent(
                            models(sent@).filter(sent_from(old(self)@.first_unseen())),
                        )
                    }
                },
            },
    {
        let ghost new = models(sent@);
        let n: usize = sent.len();
        let highest: Option<u64> = if n > 0 {
            assert(sent@[n - 1]@.fits());
            Some(sent[n - 1].pkt_num + 1)
        } else {
            None
        };
        let (joined, path_id, from): (bool, Option<u64>, u64) = match &mut self.flexicast {
            None => {
                return Err(Error::Flexicast(FcError::McDisabled));
            },
            Some(flexicast) => {
                match flexicast.get_mc_role() {
                    McRole::ServerUnicast(_) => {},
                    role => {
                        return Err(Error::Flexicast(FcError::McInvalidRole(role)));
                    },
                }
                let from: u64 = match flexicast.fc_reliable.server_mut() {
                    None => {
                        return Err(Error::Flexicast(FcError::McReliableDisabled));
                    },
                    Some(frc) => {
                        let from: u64 = match frc.fc_highest_pn {
                            Some(pn) => pn,
                            None => 0,
                        };
                        if highest.is_some() {
                            frc.fc_highest_pn = highest;
                        }
                        from
                    },
                };
                let joined: bool = match &flexicast.fc_chan_id {
                    Some(c) => c.1 == fc_id,
                    None => false,
                };
                (joined, flexicast.get_fc_path_id(), from)
            },
        };
        let ghost seen = self@;
        assert(seen == old(self)@.seen(new));
        // During a change of channel, packets of the former one may still come.
        if !joined {
            return Ok(());
        }
        let pid: usize = match path_id {
            Some(id) => id as usize,
            None => {
                return Err(Error::Flexicast(FcError::McPath));
            },
        };
        if pid >= self.paths.paths.len() {
            return Err(Error::InvalidState);
        }
        let ghost q = old(self)@.paths.paths[pid as int].recovery.application.sent;
        let ghost f = sent_from(from);
        assert(seen.paths == old(self)@.paths);
        let mut i: usize = 0;
        proof {
            reveal(Seq::filter);
            assert(q + new.take(0).filter(f) =~= q);
            let r = seen.paths.paths[pid as int].recovery;
            assert(seen.with_sent(new.take(0).filter(f)).paths.paths =~= seen.paths.paths);
        }
        while i < sent.len()
            invariant
                i <= sent@.len(),
                new == models(sent@),
                f == sent_from(from),
                forall|k: int| 0 <= k < sent@.len() ==> (#[trigger] sent@[k])@.fits(),
                self.wf(),
                pid < self.paths.paths@.len(),
                pid == seen.fc_index(),
                pid < seen.paths.paths.len(),
                q == seen.paths.paths[pid as int].recovery.application.sent,
                bytes_of(q + new.filter(f), any_packet()) <= usize::MAX,
                self@ == seen.with_sent(new.take(i as int).filter(f)),
            decreases sent@.len() - i,
        {
            proof {
                lemma_filter_step(new, i as int, f);
            }
            if sent[i].pkt_num >= from {
                let pkt: Sent = sent[i].copy();
                let ghost so_far = new.take(i as int).filter(f);
                proof {
                    assert(sent@[i as int]@.fits());
                    assert(pkt@ == new[i as int]);
                    assert(self@.paths.paths[pid as int].recovery.application.sent == q + so_far);
                    assert(self.paths.paths@[pid as int].recovery@.application.sent == q + so_far);
                    assert(q + so_far.push(pkt@) =~= (q + so_far).push(pkt@));
                    assert((q + so_far).push(pkt@).drop_last() =~= q + so_far);
                    lemma_bytes_prefix(q, new, f, i + 1);
                }
                let ghost before = self@.paths.paths;
                let p: &mut Path = &mut self.paths.paths[pid];
                p.recovery.on_packet_sent(pkt);
                proof {
                    let goal = seen.with_sent(so_far.push(pkt@)).paths.paths;
                    let r = seen.paths.paths[pid as int].recovery;
                    assert(before[pid as int].recovery == (RecoveryModel {
                        application: EpochModel { sent: q + so_far, ..r.application },
                        ..r
                    }));
                    assert(self.paths.paths@[pid as int].recovery@ == before[pid as int].recovery.send(
                        pkt@,
                    ));
                    assert(goal[pid as int].recovery == before[pid as int].recovery.send(pkt@));
                    assert(self@.paths.paths =~= before.update(pid as int, goal[pid as int]));
                }
                assert(self@.paths.paths =~= seen.with_sent(so_far.push(pkt@)).paths.paths);
            }
            i += 1;
        }
        assert(new.take(i as int) =~= new);
        Ok(())
    }

    /// Returns the pieces of streams that must be delegated to the receivers for
    /// unicast retransmission, whichever receivers have them: the controller
    /// adjusts them to each receiver.
    pub fn fc_get_delegated_stream(&mut self, retr_kind: FcUnicastRetransmission) -> (r: Result<
        Vec<FcDelegatedStream>,
    >)
        requires
            old(self).wf(),
        ensures
            final(self).wf(),
            match old(self)@.not_source() {
                Some(e) => r is Err && r->Err_0 == e && final(self)@ == old(self)@,
                None => if old(self)@.fc_index() >= old(self)@.paths.paths.len() {
                    &&& r is Err
                    &&& r->Err_0 == Error::InvalidState
                    &&& final(self)@ == old(self)@
                } else {
                    let pid = old(self)@.fc_index() as int;
                    let rec = old(self)@.paths.paths[pid].recovery;
                    let s = rec.application.sent;
                    let start = new_collection(old(self)@.streams);
                    let after = start.packets(to_retransmit(s, retr_kind@, Set::empty()));
                    &&& final(self)@ == (ConnectionModel {
                        streams: after.fc,
                        paths: old(self)@.paths.with_recovery(
                            pid,
                            RecoveryModel {
                                application: EpochModel {
                                    sent: start.marked(s, retr_kind@),
                                    ..rec.application
                                },
                                ..rec
                            },
                        ),
                        ..old(self)@
                    })
                    &&& match after.error {
                        Some(e) => r is Err && r->Err_0 == e,
                        None => r is Ok && pieces_of(r->Ok_0@) == after.pieces,
                    }
                },
            },
    {
        let fc_path_id: u64 = match &self.flexicast {
            None => {
                return Err(Error::Flexicast(FcError::McDisabled));
            },
            Some(flexicast) => {
                if flexicast.get_mc_role() != McRole::ServerFlexicast {
                    return Err(Error::Flexicast(FcError::McInvalidRole(McRole::ServerFlexicast)));
                }
                match flexicast.get_fc_path_id() {
                    Some(id) => id,
                    None => {
                        return Err(Error::Flexicast(FcError::McPath));
                    },
                }
            },
        };
        let pid: usize = fc_path_id as usize;
        if pid >= self.paths.paths.len() {
            return Err(Error::InvalidState);
        }
        let p: &mut Path = &mut self.paths.paths[pid];
        let r: Result<Vec<FcDelegatedStream>> = p.recovery.fc_get_delegated_stream(
            &mut self.streams,
            retr_kind,
        );
        proof {
            let rec = old(self)@.paths.paths[pid as int].recovery;
            let start = new_collection(old(self)@.streams);
            assert(self@.paths.paths =~= old(self)@.paths.with_recovery(
                pid as int,
                RecoveryModel {
                    application: EpochModel {
                        sent: start.marked(rec.application.sent, retr_kind@),
                        ..rec.application
                    },
                    ..rec
                },
            ).paths);
        }
        r
    }

    /// Inserts in the unicast path delegated pieces of streams from the flexicast
    /// source. This creates state for streams that were sent on the flexicast flow
    /// and need unicast retransmission.
    ///
    /// Does nothing if `fc_id` is not the flow that the receiver has joined, since
    /// the receiver may just have changed its flow.
    pub fn fc_delegated_streams(
        &mut self,
        fc_id: u64,
        delegated_streams: Vec<FcDelegatedStream>,
    ) -> (r: Result<()>)
        requires
            old(self).wf(),
            pieces_fit(pieces_of(delegated_streams@)),
        ensures
            final(self).wf(),
            match old(self)@.not_unicast() {
                Some(e) => r == Err::<(), Error>(e) && final(self)@ == old(self)@,
                None => if !old(self)@.joined(fc_id as int) {
                    r == Ok::<(), Error>(()) && final(self)@ == old(self)@
                } else {
                    let (s, e) = old(self)@.streams.delegate_all(pieces_of(delegated_streams@));
                    &&& final(self)@ == (ConnectionModel { streams: s, ..old(self)@ })
                    &&& match e {
                        Some(e) => r == Err::<(), Error>(e),
                        None => r == Ok::<(), Error>(()),
                    }
                },
            },
    {
        let joined: bool = match &self.flexicast {
            None => {
                return Err(Error::Flexicast(FcError::McDisabled));
            },
            Some(flexicast) => {
                match flexicast.get_mc_role() {
                    McRole::ServerUnicast(_) => {},
                    role => {
                        return Err(Error::Flexicast(FcError::McInvalidRole(role)));
                    },
                }
                match &flexicast.fc_chan_id {
                    Some(c) => c.1 as u64 == fc_id,
                    None => false,
                }
            },
        };
        if !joined {
            return Ok(());
        }
        let ghost ds = pieces_of(delegated_streams@);
        let ghost s0 = self.streams@;
        let mut i: usize = 0;
        assert(ds.take(0) =~= Seq::<DelegatedModel>::empty());
        while i < delegated_streams.len()
            invariant
                i <= delegated_streams@.len(),
                ds == pieces_of(delegated_streams@),
                pieces_fit(ds),
                self.wf(),
                old(self)@.not_unicast() is None,
                old(self)@.joined(fc_id as int),
                s0 == old(self)@.streams,
                s0.delegate_all(ds.take(i as int)) == (self.streams@, None::<Error>),
                self@ == (ConnectionModel { streams: self.streams@, ..old(self)@ }),
            decreases delegated_streams@.len() - i,
        {
            proof {
                assert(ds.take(i + 1).drop_last() =~= ds.take(i as int));
                assert(ds.take(i + 1).last() == ds[i as int]);
                assert(ds[i as int] == delegated_streams@[i as int]@);
                assert(ds[i as int].offset + ds[i as int].payload.len() <= u64::MAX);
            }
            match write_delegated(&mut self.streams, &delegated_streams[i]) {
                Ok(()) => {},
                Err(e) => {
                    proof {
                        lemma_delegate_all_from(s0, ds, i + 1);
                    }
                    return Err(e);
                },
            }
            i += 1;
        }
        assert(ds.take(i as int) =~= ds);
        Ok(())
    }

    /// Notifies the unicast path that some streams have been collected on the
    /// flexicast flow. The unicast path then knows that it gets no new unicast
    /// retransmissions of them, and it collects them once all their data is
    /// acknowledged.
    pub fn fc_notify_collected_streams(&self, uc: &mut Connection)
        requires
            self.wf(),
            old(uc).wf(),
        ensures
            final(uc).wf(),
            final(uc)@ == (ConnectionModel {
                streams: old(uc)@.streams.end_all(self@.streams.collected),
                ..old(uc)@
            }),
    {
        let ids: Vec<u64> = uc.streams.fc_get_stream_ids();
        let ghost m = uc.streams@;
        let ghost gone = self@.streams.collected;
        let mut i: usize = 0;
        proof {
            assert(part(ids@, 0, gone) =~= Set::<u64>::empty());
            lemma_end_none(m);
            uc.streams.lemma_wf();
            assert forall|k: int| 0 <= k < ids@.len() implies m.streams.contains_key(
                #[trigger] ids@[k],
            ) by {
                assert(ids@.contains(ids@[k]));
            }
        }
        while i < ids.len()
            invariant
                i <= ids@.len(),
                ids@.no_duplicates(),
                self.wf(),
                uc.wf(),
                gone == self@.streams.collected,
                m == old(uc)@.streams,
                m.streams.dom().disjoint(m.collected),
                forall|k: int| 0 <= k < ids@.len() ==> m.streams.contains_key(#[trigger] ids@[k]),
                forall|id: u64| #[trigger] m.streams.contains_key(id) ==> ids@.contains(id),
                uc@ == (ConnectionModel {
                    streams: m.end_all(part(ids@, i as int, gone)),
                    ..old(uc)@
                }),
            decreases ids@.len() - i,
        {
            let id: u64 = ids[i];
            proof {
                lemma_part_step(ids@, i as int, gone);
            }
            if self.streams.is_collected(id) {
                proof {
                    lemma_end_one_more(m, part(ids@, i as int, gone), id);
                }
                uc.streams.close(id, None);
            }
            i += 1;
        }
        proof {
            let done = part(ids@, i as int, gone);
            assert forall|id: u64| #[trigger] m.streams.contains_key(id) implies done.contains(id)
                == gone.contains(id) by {
                assert(ids@.contains(id));
                let k = choose|k: int| 0 <= k < ids@.len() && ids@[k] == id;
                assert(ids@[k] == id);
            }
            lemma_end_same(m, done, gone);
        }
    }
}

/// The first `n` identifiers, as far as they are in the set `gone`.
spec fn part(ids: Seq<u64>, n: int, gone: Set<u64>) -> Set<u64> {
    Set::new(|id: u64| gone.contains(id) && exists|k: int| 0 <= k < n && #[trigger] ids[k] == id)
}

proof fn lemma_part_step(ids: Seq<u64>, i: int, gone: Set<u64>)
    requires
        0 <= i < ids.len(),
        ids.no_duplicates(),
    ensures
        part(ids, i + 1, gone) == if gone.contains(ids[i]) {
            part(ids, i, gone).insert(ids[i])
        } else {
            part(ids, i, gone)
        },
        !part(ids, i, gone).contains(ids[i]),
{
    let more = part(ids, i + 1, gone);
    let less = part(ids, i, gone);
    let goal = if gone.contains(ids[i]) {
        less.insert(ids[i])
    } else {
        less
    };
    assert forall|id: u64| #[trigger] more.contains(id) == goal.contains(id) by {
        if more.contains(id) {
            let k = choose|k: int| 0 <= k < i + 1 && #[trigger] ids[k] == id;
            assert(ids[k] == id);
        }
        if less.contains(id) {
            let k = choose|k: int| 0 <= k < i && #[trigger] ids[k] == id;
            assert(0 <= k < i + 1 && ids[k] == id);
        }
        assert(ids[i] == ids[i]);
    }
    assert(more =~= goal);
}

/// Nothing changes when no stream ends.
proof fn lemma_end_none(m: StreamsModel)
    ensures
        m.end_all(Set::empty()) == m,
{
    let t = m.end_all(Set::empty());
    assert(m.completed(Set::empty()) =~= Set::<u64>::empty());
    assert(t.streams =~= m.streams);
    assert(t.collected =~= m.collected);
    lemma_keep_all(m.flushable, outside(Set::empty()));
}

proof fn lemma_keep_all(s: Seq<u64>, f: spec_fn(u64) -> bool)
    requires
        forall|i: int| 0 <= i < s.len() ==> f(#[trigger] s[i]),
    ensures
        s.filter(f) == s,
    decreases s.len(),
{
    reveal(Seq::filter);
    if s.len() > 0 {
        assert(f(s[s.len() - 1]));
        assert forall|i: int| 0 <= i < s.drop_last().len() implies f(
            #[trigger] s.drop_last()[i],
        ) by {
            assert(f(s[i]));
        }
        lemma_keep_all(s.drop_last(), f);
        assert(s.drop_last().push(s.last()) =~= s);
    }
}

/// Two filters in turn keep what both keep.
proof fn lemma_filter_twice(
    s: Seq<u64>,
    f: spec_fn(u64) -> bool,
    g: spec_fn(u64) -> bool,
    h: spec_fn(u64) -> bool,
)
    requires
        forall|x: u64| #[trigger] h(x) == (f(x) && g(x)),
    ensures
        s.filter(f).filter(g) == s.filter(h),
    decreases s.len(),
{
    reveal(Seq::filter);
    if s.len() > 0 {
        lemma_filter_twice(s.drop_last(), f, g, h);
        let x = s.drop_last().filter(f);
        assert(h(s.last()) == (f(s.last()) && g(s.last())));
        if f(s.last()) {
            assert(x.push(s.last()).drop_last() =~= x);
        }
    }
}

/// Only the open streams of a set end.
proof fn lemma_end_same(m: StreamsModel, a: Set<u64>, b: Set<u64>)
    requires
        forall|id: u64| #[trigger] m.streams.contains_key(id) ==> a.contains(id) == b.contains(id),
    ensures
        m.end_all(a) == m.end_all(b),
{
    assert(m.completed(a) =~= m.completed(b));
    assert(m.end_all(a).streams =~= m.end_all(b).streams);
    assert(m.end_all(a) =~= m.end_all(b));
}

/// One more stream of a set ends.
proof fn lemma_end_one_more(m: StreamsModel, ids: Set<u64>, id: u64)
    requires
        m.streams.contains_key(id),
        !ids.contains(id),
        m.streams.dom().disjoint(m.collected),
    ensures
        m.end_all(ids).streams.contains_key(id),
        m.end_all(ids).close(id, None) == m.end_all(ids.insert(id)),
{
    let a = m.end_all(ids);
    let b = m.end_all(ids.insert(id));
    let c = a.close(id, None);
    let closed = a.with_send(id, SendModel { closed: true, ..a.streams[id].send });
    assert(closed.streams[id] == m.ended(id));
    if m.ended(id).is_complete() && !m.ended(id).readable {
        assert(m.completed(ids.insert(id)) =~= m.completed(ids).insert(id));
        assert(c.streams =~= b.streams);
        assert(c.collected =~= b.collected);
        lemma_filter_twice(
            m.flushable,
            outside(m.completed(ids)),
            all_but(id),
            outside(m.completed(ids.insert(id))),
        );
    } else {
        assert(m.completed(ids.insert(id)) =~= m.completed(ids));
        assert(c.streams =~= b.streams);
    }
}

/// Nothing happens after an error.
proof fn lemma_delegate_all_from(m: StreamsModel, ds: Seq<DelegatedModel>, i: int)
    requires
        0 <= i <= ds.len(),
        m.delegate_all(ds.take(i)).1 is Some,
    ensures
        m.delegate_all(ds) == m.delegate_all(ds.take(i)),
    decreases ds.len() - i,
{
    if i < ds.len() {
        assert(ds.take(i + 1).drop_last() =~= ds.take(i));
        lemma_delegate_all_from(m, ds, i + 1);
    } else {
        assert(ds.take(i) =~= ds);
    }
}

/// The packets that are kept weigh no more with more packets after them.
proof fn lemma_bytes_prefix(
    q: Seq<SentModel>,
    s: Seq<SentModel>,
    f: spec_fn(SentModel) -> bool,
    i: int,
)
    requires
        0 <= i <= s.len(),
    ensures
        bytes_of(q + s.take(i).filter(f), any_packet()) <= bytes_of(q + s.filter(f), any_packet()),
    decreases s.len() - i,
{
    if i < s.len() {
        lemma_filter_step(s, i, f);
        let x = s.take(i).filter(f);
        if f(s[i]) {
            assert(q + x.push(s[i]) =~= (q + x).push(s[i]));
            assert((q + x).push(s[i]).drop_last() =~= q + x);
        }
        lemma_bytes_prefix(q, s, f, i + 1);
    } else {
        assert(s.take(i) =~= s);
    }
}

/// Writes a delegated piece on its stream.
fn write_delegated(streams: &mut StreamMap, d: &FcDelegatedStream) -> (r: Result<()>)
    requires
        old(streams).wf(),
        d@.offset + d@.payload.len() <= u64::MAX,
    ensures
        final(streams).wf(),
        final(streams)@ == old(streams)@.delegate(d@).0,
        match old(streams)@.delegate(d@).1 {
            Some(e) => r == Err::<(), Error>(e),
            None => r == Ok::<(), Error>(()),
        },
{
    match streams.get_or_create(d.stream_id, true) {
        Ok(()) => {},
        Err(Error::Done) => {
            return Ok(());
        },
        Err(e) => {
            return Err(e);
        },
    }
    let mut payload: Vec<u8> = Vec::new();
    let mut i: usize = 0;
    while i < d.payload.len()
        invariant
            i <= d.payload@.len(),
            payload@ == d.payload@.take(i as int),
        decreases d.payload@.len() - i,
    {
        payload.push(d.payload[i]);
        i += 1;
        assert(payload@ =~= d.payload@.take(i as int));
    }
    assert(payload@ =~= d.payload@);
    match streams.write_at_offset(d.stream_id, payload, d.offset, d.fin) {
        Ok(_) => Ok(()),
        Err(Error::FinalSize) => Ok(()),
        Err(e) => Err(e),
    }
}

proof fn lemma_none_from(s: Seq<SentModel>, pn: u64)
    requires
        forall|i: int| 0 <= i < s.len() ==> (#[trigger] s[i]).pkt_num < pn,
    ensures
        s.filter(sent_from(pn)).len() == 0,
    decreases s.len(),
{
    reveal(Seq::filter);
    if s.len() > 0 {
        assert(s[s.len() - 1].pkt_num < pn);
        assert forall|i: int| 0 <= i < s.drop_last().len() implies (
        #[trigger] s.drop_last()[i]).pkt_num < pn by {
            assert(s[i].pkt_num < pn);
        }
        lemma_none_from(s.drop_last(), pn);
    }
}

/// A unicast path once it was notified of packets of the flow that its receiver has
/// joined.
pub open spec fn notified(c: ConnectionModel, sent: Seq<SentModel>) -> ConnectionModel {
    c.seen(sent).with_sent(sent.filter(sent_from(c.first_unseen())))
}

/// Packets of the flow are seen once: when a unicast path is notified again of packets
/// that it has seen, in the order of their numbers, none of them is added again, and
/// nothing else changes either.
pub proof fn packets_are_seen_once(c: ConnectionModel, sent: Seq<SentModel>)
    requires
        c.flexicast matches Some(f) && f.fc_reliable is UcPath && f.fc_path_id is Some,
        c.fc_index() < c.paths.paths.len(),
        forall|i: int, j: int|
            0 <= i < j < sent.len() ==> (#[trigger] sent[i]).pkt_num < (#[trigger] sent[j]).pkt_num,
        sent.len() > 0 ==> sent.last().pkt_num < u64::MAX,
    ensures
        notified(notified(c, sent), sent) == notified(c, sent),
        sent.len() > 0 ==> notified(c, sent).first_unseen() == sent.last().pkt_num + 1,
        sent.filter(sent_from(notified(c, sent).first_unseen())).len() == 0,
{
    let once = notified(c, sent);
    let pn = once.first_unseen();
    assert forall|i: int| 0 <= i < sent.len() implies (#[trigger] sent[i]).pkt_num < pn by {
        if i < sent.len() - 1 {
            assert(sent[i].pkt_num < sent[sent.len() - 1].pkt_num);
        }
    }
    lemma_none_from(sent, pn);
    let pid = once.fc_index() as int;
    let again = sent.filter(sent_from(pn));
    let q = once.paths.paths[pid].recovery.application.sent;
    assert(q + again =~= q);
    let twice = notified(once, sent);
    assert(once.seen(sent) =~= once);
    assert(twice.paths.paths =~= once.paths.paths);
    assert(twice =~= once);
}

/// The offset after the last byte of a delegated piece.
pub open spec fn piece_end(d: DelegatedModel) -> int {
    d.offset + d.payload.len()
}

/// Whether a delegated piece fits a stream that ends at `end`: it stops before the end, or
/// right there and says so.
pub open spec fn piece_within(d: DelegatedModel, end: int) -> bool {
    piece_end(d) < end || (d.fin && piece_end(d) == end)
}

/// Whether a delegated piece agrees with where its stream is known to end, once those
/// before it are written.
pub open spec fn end_agrees(s: StreamsModel, ds: Seq<DelegatedModel>, k: int) -> bool {
    &&& s.streams.contains_key(ds[k].stream_id) ==> (s.streams[ds[k].stream_id].send.fin_off
        matches Some(end) ==> piece_within(ds[k], end as int))
    &&& forall|j: int|
        0 <= j < k && (#[trigger] ds[j]).stream_id == ds[k].stream_id && ds[j].fin ==> piece_within(
            ds[k],
            piece_end(ds[j]),
        )
}

/// Whether a piece keeps its bytes: no later one of its stream overlaps it.
pub open spec fn not_overwritten(ds: Seq<DelegatedModel>, k: int) -> bool {
    forall|j: int|
        k < j < ds.len() && (#[trigger] ds[j]).stream_id == ds[k].stream_id ==> piece_end(ds[j])
            <= ds[k].offset || piece_end(ds[k]) <= ds[j].offset
}

/// Where a stream can end after some pieces: where it did, or at the end of one of them.
spec fn end_known(s: StreamsModel, t: StreamsModel, ds: Seq<DelegatedModel>, id: u64) -> bool {
    t.streams.contains_key(id) ==> (t.streams[id].send.fin_off matches Some(end) ==> (
    s.streams.contains_key(id) && s.streams[id].send.fin_off == Some(end)) || exists|j: int|
        0 <= j < ds.len() && (#[trigger] ds[j]).stream_id == id && ds[j].fin && piece_end(ds[j])
            == end)
}

/// One delegated piece reaches its stream alone.
proof fn lemma_delegate_one(s: StreamsModel, d: DelegatedModel, id: u64, x: u64)
    requires
        d.offset + d.payload.len() <= u64::MAX,
        s.delegate(d).1 is None,
    ensures
        ({
            let t = s.delegate(d).0;
            let old_send = if s.streams.contains_key(id) {
                s.streams[id].send
            } else {
                new_send()
            };
            let new = t.streams[id].send;
            let fits = s.streams.contains_key(d.stream_id) ==> (
            s.streams[d.stream_id].send.fin_off matches Some(end) ==> piece_within(d, end as int));
            let fresh = id == d.stream_id && fits && d.offset <= x < piece_end(d)
                && !old_send.acked.contains(x);
            &&& t.collected == s.collected
            &&& !s.collected.contains(d.stream_id) ==> t.streams.contains_key(d.stream_id)
            &&& s.streams.contains_key(id) ==> t.streams.contains_key(id)
            &&& id != d.stream_id ==> t.streams.contains_key(id) == s.streams.contains_key(id)
            &&& t.streams.contains_key(id) && !s.collected.contains(id) ==> {
                &&& new.acked == old_send.acked
                &&& fresh ==> new.data.contains_key(x) && new.data[x] == d.payload[x - d.offset]
                    && new.pending.contains(x)
                &&& !fresh ==> new.data.contains_key(x) == old_send.data.contains_key(x)
                    && new.pending.contains(x) == old_send.pending.contains(x)
                &&& !fresh && old_send.data.contains_key(x) ==> new.data[x] == old_send.data[x]
                &&& new.fin_off == if id == d.stream_id && fits && d.fin {
                    Some(piece_end(d) as u64)
                } else {
                    old_send.fin_off
                }
            }
        }),
{
    let (opened, e) = s.get_or_create(d.stream_id, true);
    if e is None {
        data_is_written_at_its_offset(
            opened.streams[d.stream_id].send,
            d.payload,
            d.offset,
            d.fin,
            x,
        );
    }
}

/// What the first `n` pieces leave on the stream `id`.
#[verifier::spinoff_prover]
proof fn lemma_delegated(s: StreamsModel, ds: Seq<DelegatedModel>, n: int, k: int, i: int)
    requires
        pieces_fit(ds),
        0 <= k < ds.len(),
        0 <= n <= ds.len(),
        s.delegate_all(ds.take(n)).1 is None,
        !s.collected.contains(ds[k].stream_id),
        end_agrees(s, ds, k),
        not_overwritten(ds, k),
        0 <= i < ds[k].payload.len() || ds[k].payload.len() == 0,
    ensures
        ({
            let t = s.delegate_all(ds.take(n)).0;
            let id = ds[k].stream_id;
            let x = (ds[k].offset + i) as u64;
            let old_acked = if s.streams.contains_key(id) {
                s.streams[id].send.acked
            } else {
                Set::empty()
            };
            let new = t.streams[id].send;
            &&& t.collected == s.collected
            &&& s.streams.contains_key(id) ==> t.streams.contains_key(id)
            &&& n > k ==> t.streams.contains_key(id)
            &&& t.streams.contains_key(id) ==> new.acked == old_acked
            &&& n <= k ==> end_known(s, t, ds.take(n), id)
            &&& n > k && ds[k].payload.len() > 0 && !old_acked.contains(x)
                ==> new.data.contains_key(x) && new.data[x] == ds[k].payload[i]
                && new.pending.contains(x)
            &&& n > k && ds[k].fin && (forall|j: int|
                k < j < n && (#[trigger] ds[j]).stream_id == id && ds[j].fin ==> piece_end(ds[j])
                    == piece_end(ds[k])) ==> new.fin_off == Some(piece_end(ds[k]) as u64)
        }),
    decreases n,
{
    let id = ds[k].stream_id;
    let x = (ds[k].offset + i) as u64;
    assert(ds[k].offset + ds[k].payload.len() <= u64::MAX);
    if n > 0 {
        let d = ds[n - 1];
        assert(ds.take(n).drop_last() =~= ds.take(n - 1));
        assert(ds.take(n).last() == d);
        assert(d.offset + d.payload.len() <= u64::MAX);
        lemma_delegated(s, ds, n - 1, k, i);
        let t = s.delegate_all(ds.take(n - 1)).0;
        lemma_delegate_one(t, d, id, x);
        let u = s.delegate_all(ds.take(n)).0;
        if n - 1 == k {
            // The end of the stream, where it is known, agrees with the piece.
            if t.streams.contains_key(id) && t.streams[id].send.fin_off is Some {
                let end = t.streams[id].send.fin_off->0;
                if !(s.streams.contains_key(id) && s.streams[id].send.fin_off == Some(end)) {
                    let j = choose|j: int|
                        0 <= j < ds.take(k).len() && (#[trigger] ds.take(k)[j]).stream_id == id
                            && ds.take(k)[j].fin && piece_end(ds.take(k)[j]) == end;
                    assert(ds.take(k)[j] == ds[j]);
                    assert(piece_within(ds[k], piece_end(ds[j])));
                }
                assert(piece_within(d, end as int));
            }
        } else if n <= k {
            if u.streams.contains_key(id) && u.streams[id].send.fin_off is Some {
                let end = u.streams[id].send.fin_off->0;
                if d.stream_id == id && d.fin && piece_end(d) == end {
                    assert(ds.take(n)[n - 1] == d);
                } else if !(s.streams.contains_key(id) && s.streams[id].send.fin_off == Some(
                    end,
                )) {
                    assert(end_known(s, t, ds.take(n - 1), id));
                    let j = choose|j: int|
                        0 <= j < ds.take(n - 1).len() && (#[trigger] ds.take(n - 1)[j]).stream_id
                            == id && ds.take(n - 1)[j].fin && piece_end(ds.take(n - 1)[j]) == end;
                    assert(ds.take(n)[j] == ds.take(n - 1)[j]);
                }
            }
        }
    }
}

/// Delegated pieces wait on the unicast path at their own offsets. After pieces were written
/// without an error, take one whose stream is not closed for good, that agrees with where
/// the stream is known to end, and that no later piece overlaps. Each of its bytes that the
/// receiver has not acknowledged is kept at its offset in the stream and waits to be sent
/// there. Where the piece ends the stream, and no later one moves the end, the stream ends
/// with it.
pub proof fn delegated_pieces_wait_at_their_offsets(
    s: StreamsModel,
    ds: Seq<DelegatedModel>,
    k: int,
    i: int,
)
    requires
        pieces_fit(ds),
        0 <= k < ds.len(),
        s.delegate_all(ds).1 is None,
        !s.collected.contains(ds[k].stream_id),
        end_agrees(s, ds, k),
        not_overwritten(ds, k),
    ensures
        ({
            let d = ds[k];
            let id = d.stream_id;
            let new = s.delegate_all(ds).0.streams[id].send;
            &&& s.delegate_all(ds).0.streams.contains_key(id)
            &&& new.acked == if s.streams.contains_key(id) {
                s.streams[id].send.acked
            } else {
                Set::empty()
            }
            &&& 0 <= i < d.payload.len() && !new.acked.contains((d.offset + i) as u64) ==> {
                let x = (d.offset + i) as u64;
                &&& x == d.offset + i
                &&& new.data.contains_key(x)
                &&& new.data[x] == d.payload[i]
                &&& new.pending.contains(x)
            }
            &&& d.fin && (forall|j: int|
                k < j < ds.len() && (#[trigger] ds[j]).stream_id == id && ds[j].fin ==> ds[j].offset
                    + ds[j].payload.len() == d.offset + d.payload.len()) ==> new.fin_off == Some(
                (d.offset + d.payload.len()) as u64,
            )
        }),
{
    let n = ds.len() as int;
    assert(ds.take(n) =~= ds);
    let d = ds[k];
    let new = s.delegate_all(ds).0.streams[d.stream_id].send;
    lemma_delegated(s, ds, n, k, 0);
    assert(s.delegate_all(ds).0.streams.contains_key(d.stream_id));
    if d.fin && (forall|j: int|
        k < j < ds.len() && (#[trigger] ds[j]).stream_id == d.stream_id && ds[j].fin
            ==> ds[j].offset + ds[j].payload.len() == d.offset + d.payload.len()) {
        assert forall|j: int|
            k < j < n && (#[trigger] ds[j]).stream_id == d.stream_id && ds[j].fin implies piece_end(
            ds[j],
        ) == piece_end(ds[k]) by {}
        assert(new.fin_off == Some(piece_end(ds[k]) as u64));
    }
    if 0 <= i < d.payload.len() {
        assert(d.offset + d.payload.len() <= u64::MAX);
        lemma_delegated(s, ds, n, k, i);
    }
}

/// Delegated pieces change nothing else: a byte at an offset that none of them covers is kept
/// and waits exactly if it did before, with its value, and a stream that none of them is
/// of is as it was. No stream is closed for good, and those that were stay so.
pub proof fn delegated_pieces_change_nothing_else(
    s: StreamsModel,
    ds: Seq<DelegatedModel>,
    id: u64,
    x: u64,
)
    requires
        pieces_fit(ds),
        s.delegate_all(ds).1 is None,
        s.streams.contains_key(id),
        !s.collected.contains(id),
        forall|j: int|
            0 <= j < ds.len() && (#[trigger] ds[j]).stream_id == id ==> x < ds[j].offset || x
                >= ds[j].offset + ds[j].payload.len(),
    ensures
        ({
            let t = s.delegate_all(ds).0;
            let old_send = s.streams[id].send;
            let new = t.streams[id].send;
            &&& t.collected == s.collected
            &&& t.streams.contains_key(id)
            &&& new.data.contains_key(x) == old_send.data.contains_key(x)
            &&& old_send.data.contains_key(x) ==> new.data[x] == old_send.data[x]
            &&& new.pending.contains(x) == old_send.pending.contains(x)
            &&& new.acked == old_send.acked
            &&& (forall|j: int| 0 <= j < ds.len() ==> (#[trigger] ds[j]).stream_id != id)
                ==> t.streams[id] == s.streams[id]
        }),
    decreases ds.len(),
{
    if ds.len() > 0 {
        let front = ds.drop_last();
        assert forall|j: int| 0 <= j < front.len() implies front[j] == #[trigger] ds[j] by {}
        assert(pieces_fit(front)) by {
            assert forall|i: int| 0 <= i < front.len() implies (#[trigger] front[i]).offset
                + front[i].payload.len() <= u64::MAX by {
                assert(ds[i].offset + ds[i].payload.len() <= u64::MAX);
            }
        }
        assert forall|j: int| 0 <= j < front.len() && (#[trigger] front[j]).stream_id == id implies x
            < front[j].offset || x >= front[j].offset + front[j].payload.len() by {
            assert(ds[j].stream_id == id);
        }
        delegated_pieces_change_nothing_else(s, front, id, x);
        let d = ds[ds.len() - 1];
        assert(d.offset + d.payload.len() <= u64::MAX);
        lemma_delegate_one(s.delegate_all(front).0, d, id, x);
        if forall|j: int| 0 <= j < ds.len() ==> (#[trigger] ds[j]).stream_id != id {
            assert forall|j: int| 0 <= j < front.len() implies (#[trigger] front[j]).stream_id
                != id by {
                assert(ds[j].stream_id != id);
            }
        }
    }
}

/// A piece of a stopped stream is refused with the error of the stream, one of a new stream
/// beyond the limit with that of the limit, and the pieces after it are not looked at. A
/// piece of a stream that is closed for good, or one that does not fit the known end of its
/// stream, is skipped without an error.
pub proof fn refused_pieces_stop_a_delegation(s: StreamsModel, ds: Seq<DelegatedModel>, k: int)
    requires
        0 <= k < ds.len(),
        s.delegate_all(ds.take(k)).1 is None,
    ensures
        ({
            let t = s.delegate_all(ds.take(k)).0;
            let d = ds[k];
            let id = d.stream_id;
            let e = s.delegate_all(ds).1;
            let stopped = t.streams.contains_key(id) && t.streams[id].send.stopped is Some;
            let full = !t.streams.contains_key(id) && t.streams.dom().len() >= t.max_streams;
            &&& !t.collected.contains(id) && stopped ==> e == Some(
                Error::StreamStopped(t.streams[id].send.stopped->0),
            ) && s.delegate_all(ds).0 == t
            &&& !t.collected.contains(id) && full ==> e == Some(Error::StreamLimit)
                && s.delegate_all(ds).0 == t
            &&& t.collected.contains(id) || (!stopped && !full) ==> s.delegate_all(
                ds.take(k + 1),
            ).1 is None
        }),
{
    let front = ds.take(k + 1);
    assert(front.drop_last() =~= ds.take(k));
    assert(front.last() == ds[k]);
    if s.delegate_all(front).1 is Some {
        lemma_delegate_all_from(s, ds, k + 1);
    }
}

/// Only the unicast connection with a receiver takes what comes from a flow: any other one
/// refuses it, with its role where it has one. What needs the reliability mechanism is refused
/// where the connection does not follow a reliable flow.
pub proof fn unicast_connections_are_told_apart(c: ConnectionModel)
    ensures
        c.flexicast is None ==> c.not_unicast() == Some(Error::Flexicast(FcError::McDisabled)),
        c.flexicast matches Some(f) ==> {
            &&& f.mc_role is ServerUnicast ==> c.not_unicast() is None
            &&& !(f.mc_role is ServerUnicast) ==> c.not_unicast() == Some(
                Error::Flexicast(FcError::McInvalidRole(f.mc_role)),
            )
            &&& f.mc_role is ServerUnicast && f.fc_reliable is UcPath
                ==> c.not_reliable_unicast() is None
            &&& f.mc_role is ServerUnicast && !(f.fc_reliable is UcPath)
                ==> c.not_reliable_unicast() == Some(Error::Flexicast(FcError::McReliableDisabled))
        },
        c.not_unicast() is Some ==> c.not_reliable_unicast() == c.not_unicast(),
{
}

/// Only the source of a flow with a path gives its packets and pieces.
pub proof fn sources_are_told_apart(c: ConnectionModel)
    ensures
        c.flexicast is None ==> c.not_source() == Some(Error::Flexicast(FcError::McDisabled)),
        c.flexicast matches Some(f) ==> {
            &&& f.mc_role is ServerFlexicast && f.fc_path_id is Some ==> c.not_source() is None
            &&& f.mc_role is ServerFlexicast && f.fc_path_id is None ==> c.not_source() == Some(
                Error::Flexicast(FcError::McPath),
            )
            &&& !(f.mc_role is ServerFlexicast) ==> c.not_source() == Some(
                Error::Flexicast(FcError::McInvalidRole(McRole::ServerFlexicast)),
            )
        },
{
}

/// The round-trip time of the flexicast path is the expiration timer of the first announced
/// channel, in milliseconds. The other paths stay, and so does everything else.
pub proof fn expiration_timer_is_the_round_trip(c: ConnectionModel, i: int)
    requires
        c.flexicast is Some,
        c.flexicast->0.fc_path_id is Some,
        c.fc_index() < c.paths.paths.len(),
        0 <= i < c.paths.paths.len(),
    ensures
        ({
            let after = c.with_expiration_rtt();
            let announces = c.flexicast->0.announces;
            let was = c.paths.paths[i];
            let is = after.paths.paths[i];
            &&& announces.len() == 0 ==> after == c
            &&& announces.len() > 0 && i == c.fc_index() ==> is.recovery.rtt.nanos
                == announces[0].expiration_timer * 1_000_000
            &&& announces.len() > 0 && i == c.fc_index() ==> is.path_id == was.path_id
                && is.recovery.application == was.recovery.application && is.recovery.cwnd
                == was.recovery.cwnd && is.recovery.initial == was.recovery.initial
                && is.recovery.handshake == was.recovery.handshake
            &&& i != c.fc_index() ==> is == was
            &&& after.paths.active == c.paths.active
            &&& after.streams == c.streams
            &&& after.flexicast == c.flexicast
        }),
{
    let t = c.flexicast->0.announces[0].expiration_timer;
    assert(t * 1_000_000 <= u128::MAX);
}

/// A receiver follows the flow at the position of the channel that it joined, and no other
/// one.
pub proof fn receivers_follow_the_joined_flow(c: ConnectionModel, fc_id: int)
    ensures
        c.joined(fc_id) <==> c.flexicast is Some && c.flexicast->0.fc_chan_id is Some && (
        c.flexicast->0.fc_chan_id->0).1 == fc_id,
{
}

/// The first packet that a receiver must listen to is the one that was set.
pub proof fn first_packet_is_set(c: ConnectionModel, pn: Option<u64>)
    ensures
        c.flexicast is None ==> c.with_first_pn(pn) == c,
        c.flexicast matches Some(f) ==> {
            let g = c.with_first_pn(pn).flexicast->0;
            &&& c.with_first_pn(pn).flexicast is Some
            &&& g.fc_first_pn == pn
            &&& g.mc_role == f.mc_role && g.fc_path_id == f.fc_path_id && g.fc_reliable
                == f.fc_reliable && g.fc_chan_id == f.fc_chan_id && g.announces == f.announces
                && g.congestion == f.congestion
            &&& c.with_first_pn(pn).streams == c.streams && c.with_first_pn(pn).paths == c.paths
        },
{
}

/// A unicast path that is notified of packets of its flow, in the order of their numbers, has
/// exactly those in flight that it had not seen, behind those that were there, and has
/// seen all of them from then on. Its other paths, its streams and its aggregator stay.
pub proof fn unseen_packets_are_in_flight(
    c: ConnectionModel,
    sent: Seq<SentModel>,
    i: int,
    j: int,
)
    requires
        c.flexicast matches Some(f) && f.fc_reliable is UcPath && f.fc_path_id is Some,
        c.fc_index() < c.paths.paths.len(),
        ascending(sent),
        0 <= i < sent.len(),
        sent.last().pkt_num < u64::MAX,
        0 <= j < c.paths.paths.len(),
    ensures
        ({
            let u = c.flexicast->0.fc_reliable->UcPath_0;
            let first = match u.fc_highest_pn {
                Some(pn) => pn,
                None => 0,
            };
            let after = notified(c, sent);
            let pid = c.fc_index() as int;
            let before = c.paths.paths[pid].recovery.application.sent;
            let now = after.paths.paths[pid].recovery.application.sent;
            let v = after.flexicast->0.fc_reliable->UcPath_0;
            &&& now.len() >= before.len()
            &&& now.take(before.len() as int) == before
            &&& now.skip(before.len() as int).contains(sent[i]) <==> sent[i].pkt_num >= first
            &&& ascending(now.skip(before.len() as int))
            &&& after.flexicast->0.fc_reliable is UcPath
            &&& v.fc_highest_pn matches Some(pn) && pn == sent.last().pkt_num + 1
            &&& v.mc_ack == u.mc_ack && v.fc_pn_recv == u.fc_pn_recv
            &&& j != pid ==> after.paths.paths[j] == c.paths.paths[j]
            &&& after.paths.paths[j].path_id == c.paths.paths[j].path_id
            &&& after.paths.paths[j].recovery.rtt == c.paths.paths[j].recovery.rtt
            &&& after.streams == c.streams
        }),
{
    let after = notified(c, sent);
    let pid = c.fc_index() as int;
    let before = c.paths.paths[pid].recovery.application.sent;
    let now = after.paths.paths[pid].recovery.application.sent;
    let new = sent.filter(sent_from(c.first_unseen()));
    packets_from_a_number_on_are_given(sent, c.first_unseen(), i);
    assert(now == before + new);
    assert(now.take(before.len() as int) =~= before);
    assert(now.skip(before.len() as int) =~= new);
}

/// A unicast path that is told which streams were closed for good on the flow gets no more data
/// of these: each of them that is open there is closed for good if the receiver has all that
/// is kept of it and nothing is left to read, and else stays open with its data until then.
/// The other streams stay as they were.
pub proof fn streams_end_with_those_of_the_flow(m: StreamsModel, gone: Set<u64>, id: u64)
    requires
        !m.collected.contains(id),
        m.streams.contains_key(id),
    ensures
        ({
            let after = m.end_all(gone);
            let s = m.streams[id];
            let t = after.streams[id];
            let all_sent = (s.send.fin_off matches Some(f) && s.send.acked == span(0, f as int))
                || s.send.data.dom() == Set::<u64>::empty();
            let complete = if s.bidi {
                s.recv_fin && all_sent
            } else if s.local {
                all_sent
            } else {
                s.recv_fin
            };
            let closes = gone.contains(id) && complete && !s.readable;
            &&& after.collected.contains(id) <==> closes
            &&& after.streams.contains_key(id) <==> !closes
            &&& after.flushable.contains(id) <==> !closes && m.flushable.contains(id)
            &&& !closes && gone.contains(id) ==> {
                &&& t.send.closed
                &&& t.send.data == s.send.data && t.send.pending == s.send.pending
                &&& t.send.acked == s.send.acked && t.send.fin_off == s.send.fin_off
                &&& t.local == s.local && t.bidi == s.bidi && t.recv_fin == s.recv_fin
                    && t.readable == s.readable
            }
            &&& !gone.contains(id) ==> t == s
            &&& after.max_streams == m.max_streams
        }),
{
    let f = outside(m.completed(gone));
    assert(m.completed(gone).contains(id) <==> gone.contains(id) && m.ended(id).is_complete()
        && !m.ended(id).readable);
    lemma_kept_ids(m.flushable, f, id);
    assert(f(id) == !m.completed(gone).contains(id));
}

proof fn lemma_kept_ids(s: Seq<u64>, f: spec_fn(u64) -> bool, x: u64)
    ensures
        s.filter(f).contains(x) <==> s.contains(x) && f(x),
    decreases s.len(),
{
    reveal(Seq::filter);
    if s.len() > 0 {
        let front = s.drop_last();
        lemma_kept_ids(front, f, x);
        lemma_contains_last(s, x);
        if f(s.last()) {
            let r = s.filter(f);
            assert(r.drop_last() =~= front.filter(f));
            lemma_contains_last(r, x);
        }
    }
}

proof fn lemma_contains_last(s: Seq<u64>, x: u64)
    requires
        s.len() > 0,
    ensures
        s.contains(x) <==> s.drop_last().contains(x) || s.last() == x,
{
    if s.contains(x) && s.last() != x {
        let i = choose|i: int| 0 <= i < s.len() && s[i] == x;
        assert(s.drop_last()[i] == x);
    }
    if s.drop_last().contains(x) {
        let i = choose|i: int| 0 <= i < s.drop_last().len() && s.drop_last()[i] == x;
        assert(s[i] == x);
    }
    assert(s[s.len() - 1] == s.last());
}

/// What a receiver acknowledged is given once: all the packets and pieces that are complete, and
/// none of them is left for the next time. A connection that follows no reliable flow refuses.
pub proof fn acknowledgments_are_given_once(
    c: &mut Connection,
    r: Result<(Option<RangeSet>, Option<McStreamOff>)>,
    pn: u64,
)
    requires
        call_ensures(Connection::get_new_ack_pn_streams, (c,), r),
        old(c)@.not_reliable_unicast() is None,
    ensures
        ({
            let a = old(c)@.uc_ack()->0;
            let b = final(c)@.uc_ack()->0;
            &&& r is Ok
            &&& a.full.contains(pn) ==> r->Ok_0.0 is Some && (r->Ok_0.0->0)@.contains(pn)
            &&& r->Ok_0.0 is Some ==> ((r->Ok_0.0->0)@.contains(pn) <==> a.full.contains(pn))
            &&& a.acked_pieces.len() > 0 ==> r->Ok_0.1 is Some && (r->Ok_0.1->0)@ == a.acked_pieces
            &&& a.acked_pieces.len() == 0 ==> r->Ok_0.1 is None
            &&& final(c)@.uc_ack() is Some
            &&& !b.full.contains(pn)
            &&& b.acked_pieces.len() == 0
            &&& b.missing == a.missing && b.done == a.done && b.pieces == a.pieces
            &&& final(c)@.streams == old(c)@.streams
        }),
{
}

/// The source gives the packets from a number on, in their order, or says that there are none.
pub proof fn sources_give_packets_from_a_number_on(
    c: &mut Connection,
    from: Option<u64>,
    r: Result<Vec<Sent>>,
    i: int,
)
    requires
        call_ensures(Connection::fc_get_sent_pkt, (c, from), r),
        old(c)@.not_source() is None,
        old(c)@.fc_index() < old(c)@.paths.paths.len(),
        ({
            let s = old(c)@.paths.paths[old(c)@.fc_index() as int].recovery.application.sent;
            ascending(s) && 0 <= i < s.len()
        }),
    ensures
        ({
            let s = old(c)@.paths.paths[old(c)@.fc_index() as int].recovery.application.sent;
            let first = if from is Some {
                from->0
            } else {
                0
            };
            &&& s[i].pkt_num >= first ==> r is Ok
            &&& r is Ok ==> (models(r->Ok_0@).contains(s[i]) <==> s[i].pkt_num >= first)
            &&& r is Ok ==> ascending(models(r->Ok_0@))
            &&& r is Err ==> r->Err_0 == Error::Done && final(c)@ == old(c)@
        }),
{
    let s = old(c)@.paths.paths[old(c)@.fc_index() as int].recovery.application.sent;
    let first = if from is Some {
        from->0
    } else {
        0
    };
    packets_from_a_number_on_are_given(s, first, i);
}

/// Delegated pieces are written on the unicast connection of a receiver that joined their flow, at
/// their own offsets; they change nothing where the receiver joined another flow, and other
/// connections refuse them.
pub proof fn delegated_pieces_reach_those_who_joined(
    c: &mut Connection,
    fc_id: u64,
    ds: Vec<FcDelegatedStream>,
    r: Result<()>,
    k: int,
    i: int,
)
    requires
        call_ensures(Connection::fc_delegated_streams, (c, fc_id, ds), r),
        pieces_fit(pieces_of(ds@)),
        0 <= k < ds@.len(),
        0 <= i < ds@[k].payload@.len(),
        !old(c)@.streams.collected.contains(ds@[k].stream_id),
        end_agrees(old(c)@.streams, pieces_of(ds@), k),
        not_overwritten(pieces_of(ds@), k),
    ensures
        ({
            let unicast = old(c)@.flexicast is Some && old(c)@.flexicast->0.mc_role is ServerUnicast;
            let f = old(c)@.flexicast->0;
            let joined = f.fc_chan_id is Some && (f.fc_chan_id->0).1 == fc_id;
            let d = ds@[k];
            let x = (d.offset + i) as u64;
            let m = final(c)@.streams.streams[d.stream_id].send;
            &&& !unicast ==> r is Err && final(c)@ == old(c)@
            &&& unicast && !joined ==> r is Ok && final(c)@ == old(c)@
            &&& unicast && joined && r is Ok ==> {
                &&& final(c)@.streams.streams.contains_key(d.stream_id)
                &&& x == d.offset + i
                &&& m.acked.contains(x) || (m.data.contains_key(x) && m.data[x] == d.payload@[i]
                    && m.pending.contains(x))
            }
            &&& final(c)@.paths == old(c)@.paths && final(c)@.flexicast == old(c)@.flexicast
        }),
{
    let unicast = old(c)@.flexicast is Some && old(c)@.flexicast->0.mc_role is ServerUnicast;
    if unicast && old(c)@.joined(fc_id as int) && r is Ok {
        assert(pieces_of(ds@)[k] == ds@[k]@);
        delegated_pieces_wait_at_their_offsets(old(c)@.streams, pieces_of(ds@), k, i);
    }
}

/// A unicast path that joined a flow takes the packets of the flow that it has not seen among those
/// in flight, in their order. Where it joined no flow or another one, it only notes the number up
/// to which it has seen the packets. Connections without a reliable unicast path refuse.
pub proof fn packets_of_the_flow_are_taken_once(
    c: &mut Connection,
    fc_id: usize,
    sent: Vec<Sent>,
    r: Result<()>,
    i: int,
)
    requires
        call_ensures(Connection::fc_on_new_pkt_sent, (c, fc_id, sent), r),
        old(c)@.flexicast is Some && old(c)@.flexicast->0.fc_reliable is UcPath,
        old(c)@.not_reliable_unicast() is None,
        old(c)@.flexicast->0.fc_path_id is Some,
        old(c)@.fc_index() < old(c)@.paths.paths.len(),
        ascending(models(sent@)),
        0 <= i < sent@.len(),
        sent@[sent@.len() - 1]@.pkt_num < u64::MAX,
    ensures
        ({
            let f = old(c)@.flexicast->0;
            let u = f.fc_reliable->UcPath_0;
            let v = final(c)@.flexicast->0.fc_reliable->UcPath_0;
            let first = match u.fc_highest_pn {
                Some(pn) => pn,
                None => 0,
            };
            let joined = f.fc_chan_id is Some && (f.fc_chan_id->0).1 == fc_id;
            let pid = old(c)@.fc_index() as int;
            let before = old(c)@.paths.paths[pid].recovery.application.sent;
            let now = final(c)@.paths.paths[pid].recovery.application.sent;
            &&& r is Ok
            &&& v.fc_highest_pn is Some && v.fc_highest_pn->0 == sent@[sent@.len() - 1]@.pkt_num + 1
            &&& !joined ==> now == before
            &&& joined ==> {
                &&& now.len() >= before.len()
                &&& now.take(before.len() as int) == before
                &&& now.skip(before.len() as int).contains(sent@[i]@) <==> sent@[i]@.pkt_num
                    >= first
                &&& ascending(now.skip(before.len() as int))
            }
            &&& final(c)@.streams == old(c)@.streams
        }),
{
    let s = models(sent@);
    assert(s[i] == sent@[i]@);
    assert(s.last() == sent@[sent@.len() - 1]@);
    unseen_packets_are_in_flight(old(c)@, s, i, old(c)@.fc_index() as int);
}

/// A flow tells a unicast connection which streams were closed for good: the connection follows in
/// its own streams alone.
pub proof fn closed_streams_of_the_flow_end(c: Connection, uc: &mut Connection, id: u64)
    requires
        call_ensures(Connection::fc_notify_collected_streams, (&c, uc), ()),
        !old(uc)@.streams.collected.contains(id),
        old(uc)@.streams.streams.contains_key(id),
    ensures
        ({
            let s = old(uc)@.streams.streams[id];
            let t = final(uc)@.streams.streams[id];
            let gone = c@.streams.collected.contains(id);
            &&& !gone ==> final(uc)@.streams.streams.contains_key(id) && t == s
            &&& gone && final(uc)@.streams.streams.contains_key(id) ==> t.send.closed && t.send.data
                == s.send.data && t.send.pending == s.send.pending
            &&& final(uc)@.streams.collected.contains(id) <==> !final(uc)@.streams.streams.contains_key(id)
            &&& final(uc)@.paths == old(uc)@.paths && final(uc)@.flexicast == old(uc)@.flexicast
        }),
{
    streams_end_with_those_of_the_flow(old(uc)@.streams, c@.streams.collected, id);
}

} // verus!
