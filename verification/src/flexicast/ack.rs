//! Aggregation of the acknowledgments of the receivers of a flexicast flow.

use std::collections::HashMap;

use vstd::prelude::*;

use crate::ranges::covers;
use crate::ranges::lemma_covers_push;
use crate::ranges::separated;
use crate::ranges::span;
use crate::ranges::RangeSet;

verus! {

broadcast use vstd::std_specs::hash::group_hash_axioms;

/// A piece of stream that goes to some receivers on their unicast path.
#[derive(Clone, Copy, Debug, PartialEq, Eq, Structural)]
pub struct DelegatedPiece {
    /// Identifier of the stream.
    pub stream_id: u64,
    /// Offset of the first byte.
    pub off: u64,
    /// Number of bytes.
    pub len: u64,
    /// How many receivers have not acknowledged the piece.
    pub missing: u64,
}

/// A piece of stream that all the receivers it was delegated to acknowledged.
#[derive(Clone, Copy, Debug, PartialEq, Eq, Structural)]
pub struct StreamPiece {
    /// Identifier of the stream.
    pub stream_id: u64,
    /// Offset of the first byte.
    pub off: u64,
    /// Number of bytes.
    pub len: u64,
}

/// Pieces of streams.
pub type McStreamOff = Vec<StreamPiece>;

/// Aggregates acknowledgments: a packet is acknowledged once all the receivers
/// acknowledged it, and a delegated piece of stream once all the receivers that
/// it was delegated to acknowledged it.
#[derive(Debug)]
pub struct McAck {
    nb_recv: u64,
    missing: HashMap<u64, u64>,
    done: RangeSet,
    full: RangeSet,
    pieces: Vec<DelegatedPiece>,
    acked_pieces: Vec<StreamPiece>,
}

/// What a [`McAck`] stands for.
#[verifier::ext_equal]
pub struct AckModel {
    /// Number of receivers.
    pub nb_recv: u64,
    /// For each packet that some receivers acknowledged, how many receivers have
    /// not.
    pub missing: Map<u64, u64>,
    /// The packets that all the receivers acknowledged.
    pub done: Set<u64>,
    /// Those of them that were not reported yet.
    pub full: Set<u64>,
    /// The delegated pieces of streams that some receivers have not acknowledged.
    pub pieces: Seq<DelegatedPiece>,
    /// The pieces that were acknowledged and not reported yet.
    pub acked_pieces: Seq<StreamPiece>,
}

/// The position of the piece that starts at `off` of a stream.
pub open spec fn piece_at(pieces: Seq<DelegatedPiece>, stream_id: u64, off: u64) -> Option<int>
    decreases pieces.len(),
{
    if pieces.len() == 0 {
        None
    } else if pieces.last().stream_id == stream_id && pieces.last().off == off {
        Some(pieces.len() - 1)
    } else {
        piece_at(pieces.drop_last(), stream_id, off)
    }
}

impl AckModel {
    /// How many receivers have not acknowledged a packet that is not done.
    pub open spec fn count(self, pn: u64) -> u64 {
        if self.missing.contains_key(pn) {
            self.missing[pn]
        } else {
            self.nb_recv
        }
    }

    /// Whether an acknowledgment of the packets `pns` by one receiver concerns
    /// the packet `pn`.
    pub open spec fn counts(self, pns: Set<u64>, pn: u64) -> bool {
        pns.contains(pn) && !self.done.contains(pn)
    }

    /// The packets for which an acknowledgment of `pns` by one receiver is the
    /// last one that was missing.
    pub open spec fn completed(self, pns: Set<u64>) -> Set<u64> {
        Set::new(|pn: u64| self.counts(pns, pn) && self.count(pn) <= 1)
    }

    /// One receiver acknowledges the packets `pns`.
    pub open spec fn on_ack(self, pns: Set<u64>) -> AckModel {
        AckModel {
            missing: Map::new(
                |pn: u64|
                    (self.missing.contains_key(pn) || self.counts(pns, pn)) && !self.completed(
                        pns,
                    ).contains(pn),
                |pn: u64|
                    if self.counts(pns, pn) {
                        (self.count(pn) - 1) as u64
                    } else {
                        self.missing[pn]
                    },
            ),
            done: self.done.union(self.completed(pns)),
            full: self.full.union(self.completed(pns)),
            ..self
        }
    }

    /// A receiver joins, and has to acknowledge the packets from `first_pn` on.
    pub open spec fn new_recv(self, first_pn: u64) -> AckModel {
        AckModel {
            nb_recv: if self.nb_recv < u64::MAX {
                (self.nb_recv + 1) as u64
            } else {
                u64::MAX
            },
            missing: Map::new(
                |pn: u64| self.missing.contains_key(pn),
                |pn: u64|
                    if pn >= first_pn && self.missing[pn] < u64::MAX {
                        (self.missing[pn] + 1) as u64
                    } else {
                        self.missing[pn]
                    },
            ),
            ..self
        }
    }

    /// Only the packets from `lowest` on are still followed, or none.
    pub open spec fn drain(self, lowest: Option<u64>) -> AckModel {
        let gone = Set::new(|pn: u64| lowest matches Some(p) ==> pn < p);
        AckModel {
            missing: self.missing.remove_keys(gone),
            done: self.done.difference(gone),
            ..self
        }
    }

    /// A piece of stream goes to one more receiver on its unicast path.
    pub open spec fn delegate(self, stream_id: u64, off: u64, len: u64) -> AckModel {
        AckModel {
            pieces: match piece_at(self.pieces, stream_id, off) {
                Some(i) => self.pieces.update(
                    i,
                    DelegatedPiece {
                        len: if len > self.pieces[i].len {
                            len
                        } else {
                            self.pieces[i].len
                        },
                        missing: if self.pieces[i].missing < u64::MAX {
                            (self.pieces[i].missing + 1) as u64
                        } else {
                            u64::MAX
                        },
                        ..self.pieces[i]
                    },
                ),
                None => self.pieces.push(DelegatedPiece { stream_id, off, len, missing: 1 }),
            },
            ..self
        }
    }

    /// One receiver acknowledges `len` bytes at `off` of a stream.
    pub open spec fn on_stream_ack(self, stream_id: u64, off: u64, len: u64) -> AckModel {
        match piece_at(self.pieces, stream_id, off) {
            Some(i) if self.pieces[i].len <= len => {
                let p = self.pieces[i];
                if p.missing <= 1 {
                    AckModel {
                        pieces: self.pieces.remove(i),
                        acked_pieces: self.acked_pieces.push(
                            StreamPiece { stream_id, off, len: p.len },
                        ),
                        ..self
                    }
                } else {
                    AckModel {
                        pieces: self.pieces.update(
                            i,
                            DelegatedPiece { missing: (p.missing - 1) as u64, ..p },
                        ),
                        ..self
                    }
                }
            },
            _ => self,
        }
    }
}

/// An aggregator without receivers.
pub open spec fn new_ack() -> AckModel {
    AckModel {
        nb_recv: 0,
        missing: Map::empty(),
        done: Set::empty(),
        full: Set::empty(),
        pieces: Seq::empty(),
        acked_pieces: Seq::empty(),
    }
}

impl View for McAck {
    type V = AckModel;

    closed spec fn view(&self) -> AckModel {
        AckModel {
            nb_recv: self.nb_recv,
            missing: self.missing@,
            done: self.done@,
            full: self.full@,
            pieces: self.pieces@,
            acked_pieces: self.acked_pieces@,
        }
    }
}

impl McAck {
    /// A packet that is done waits for no acknowledgment.
    pub closed spec fn wf(&self) -> bool {
        &&& self.done.wf()
        &&& self.full.wf()
        &&& self.missing@.dom().disjoint(self.done@)
    }

    /// A packet that is done waits for no acknowledgment.
    pub proof fn lemma_wf(&self)
        requires
            self.wf(),
        ensures
            self@.missing.dom().disjoint(self@.done),
    {
    }

    /// An aggregator without receivers.
    pub fn new() -> (a: McAck)
        ensures
            a.wf(),
            a@ == new_ack(),
    {
        McAck {
            nb_recv: 0,
            missing: HashMap::new(),
            done: RangeSet::new(),
            full: RangeSet::new(),
            pieces: Vec::new(),
            acked_pieces: Vec::new(),
        }
    }

    /// One receiver acknowledges the packets `ranges`.
    pub fn on_ack_received(&mut self, ranges: &RangeSet)
        requires
            old(self).wf(),
            ranges.wf(),
        ensures
            final(self).wf(),
            final(self)@ == old(self)@.on_ack(ranges@),
    {
        let list = ranges.as_ranges();
        let ghost m = self@;
        let mut i: usize = 0;
        assert(m.on_ack(covered(list@.take(0))) =~= m);
        while i < list.len()
            invariant
                i <= list@.len(),
                separated(list@),
                m.missing.dom().disjoint(m.done),
                self.wf(),
                self@ == m.on_ack(covered(list@.take(i as int))),
            decreases list@.len() - i,
        {
            let (a, b): (u64, u64) = list[i];
            let ghost before = covered(list@.take(i as int));
            let mut pn: u64 = a;
            assert(before.union(span(a as int, a as int)) =~= before);
            while pn < b
                invariant
                    a <= pn <= b,
                    m.missing.dom().disjoint(m.done),
                    self.wf(),
                    before == covered(list@.take(i as int)),
                    forall|x: u64| before.contains(x) ==> x < a,
                    self@ == m.on_ack(before.union(span(a as int, pn as int))),
                decreases b - pn,
            {
                let ghost part = before.union(span(a as int, pn as int));
                self.ack_one(pn);
                proof {
                    lemma_ack_one_more(m, part, pn);
                    assert(part.insert(pn) =~= before.union(span(a as int, pn + 1)));
                }
                pn += 1;
            }
            proof {
                lemma_covers_push(list@.take(i as int), (a, b));
                assert(list@.take(i + 1) =~= list@.take(i as int).push((a, b)));
                assert(before.union(span(a as int, b as int)) =~= covered(list@.take(i + 1)));
            }
            i += 1;
        }
        proof {
            assert(list@.take(i as int) =~= list@);
            assert(covered(list@) =~= ranges@);
        }
    }

    /// One receiver acknowledges the packet `pn`.
    fn ack_one(&mut self, pn: u64)
        requires
            old(self).wf(),
            pn < u64::MAX,
        ensures
            final(self).wf(),
            final(self)@ == old(self)@.on_ack(Set::empty().insert(pn)),
    {
        let ghost one = Set::<u64>::empty().insert(pn);
        let ghost m = self@.on_ack(one);
        if self.done.contains(pn) {
            assert(self@ =~= m);
            return;
        }
        let count: u64 = match self.missing.get(&pn) {
            Some(n) => *n,
            None => self.nb_recv,
        };
        if count <= 1 {
            self.missing.remove(&pn);
            self.done.insert(pn, pn + 1);
            self.full.insert(pn, pn + 1);
            assert(span(pn as int, pn + 1) =~= one);
            assert(m.done =~= old(self)@.done.union(one));
            assert(m.full =~= old(self)@.full.union(one));
        } else {
            self.missing.insert(pn, count - 1);
            assert(old(self)@.completed(one) =~= Set::<u64>::empty());
        }
        assert(self@.missing =~= m.missing);
        assert(self@ =~= m);
    }
    /// The packets that some receivers, and not all of them, acknowledged.
    fn waiting(&self) -> (pns: Vec<u64>)
        ensures
            pns@.no_duplicates(),
            pns@.to_set() == self.missing@.dom(),
    {
        let mut pns: Vec<u64> = Vec::new();
        for pn in it: self.missing.keys()
            invariant
                pns@ == it.seq().take(it.index()).unref(),
                it.seq().unref().to_set() == self.missing@.dom(),
                it.seq().no_duplicates(),
                it.index() == it.seq().len() ==> pns@ == it.seq().unref(),
        {
            pns.push(*pn);
            assert(pns@ =~= it.seq().take(it.index() + 1).unref());
            assert(it.index() + 1 == it.seq().len() ==> it.seq().take(it.index() + 1) =~= it.seq());
        }
        pns
    }

    /// A receiver joins, and has to acknowledge the packets from `first_pn` on.
    pub fn new_recv(&mut self, first_pn: u64)
        requires
            old(self).wf(),
        ensures
            final(self).wf(),
            final(self)@ == old(self)@.new_recv(first_pn),
    {
        let ghost goal = self@.new_recv(first_pn);
        let pns: Vec<u64> = self.waiting();
        let ghost before = self.missing@;
        if self.nb_recv < u64::MAX {
            self.nb_recv += 1;
        }
        let mut i: usize = 0;
        while i < pns.len()
            invariant
                i <= pns@.len(),
                pns@.no_duplicates(),
                pns@.to_set() == before.dom(),
                goal == old(self)@.new_recv(first_pn),
                before == old(self)@.missing,
                self.nb_recv == goal.nb_recv,
                self.done == old(self).done,
                self.full == old(self).full,
                self.pieces == old(self).pieces,
                self.acked_pieces == old(self).acked_pieces,
                self.missing@.dom() == before.dom(),
                forall|k: int| 0 <= k < i ==> self.missing@[#[trigger] pns@[k]] == goal.missing[pns@[k]],
                forall|k: int|
                    i <= k < pns@.len() ==> self.missing@[#[trigger] pns@[k]] == before[pns@[k]],
            decreases pns@.len() - i,
        {
            let pn: u64 = pns[i];
            assert(pns@.to_set().contains(pn));
            let n: u64 = *self.missing.get(&pn).unwrap();
            if pn >= first_pn && n < u64::MAX {
                self.missing.insert(pn, n + 1);
            }
            assert(self.missing@.dom() =~= before.dom());
            i += 1;
        }
        assert forall|pn: u64| before.contains_key(pn) implies self.missing@[pn]
            == goal.missing[pn] by {
            assert(pns@.to_set().contains(pn));
            let k = choose|k: int| 0 <= k < pns@.len() && pns@[k] == pn;
            assert(self.missing@[pns@[k]] == goal.missing[pns@[k]]);
        }
        assert(self@.missing =~= goal.missing);
    }

    /// Forgets the packets below `lowest`, or all of them.
    pub fn drain_packets(&mut self, lowest: Option<u64>)
        requires
            old(self).wf(),
        ensures
            final(self).wf(),
            final(self)@ == old(self)@.drain(lowest),
    {
        let ghost goal = self@.drain(lowest);
        match lowest {
            None => {
                self.missing = HashMap::new();
                self.done = RangeSet::new();
            },
            Some(p) => {
                let pns: Vec<u64> = self.waiting();
                let ghost before = self.missing@;
                let mut i: usize = 0;
                while i < pns.len()
                    invariant
                        i <= pns@.len(),
                        self.nb_recv == old(self).nb_recv,
                        self.done == old(self).done,
                        self.full == old(self).full,
                        self.pieces == old(self).pieces,
                        self.acked_pieces == old(self).acked_pieces,
                        forall|pn: u64|
                            #![trigger self.missing@.contains_key(pn)]
                            self.missing@.contains_key(pn) == (before.contains_key(pn) && !(pn < p
                                && pns@.take(i as int).contains(pn))),
                        forall|pn: u64|
                            #![trigger self.missing@[pn]]
                            self.missing@.contains_key(pn) ==> self.missing@[pn] == before[pn],
                    decreases pns@.len() - i,
                {
                    let pn: u64 = pns[i];
                    assert(pns@.take(i + 1) =~= pns@.take(i as int).push(pn));
                    if pn < p {
                        self.missing.remove(&pn);
                    }
                    assert forall|x: u64| #[trigger] pns@.take(i + 1).contains(x) == (pns@.take(
                        i as int,
                    ).contains(x) || x == pn) by {
                        let t = pns@.take(i as int);
                        if t.contains(x) {
                            let k = choose|k: int| 0 <= k < t.len() && t[k] == x;
                            assert(t.push(pn)[k] == x);
                        }
                        if x == pn {
                            assert(t.push(pn)[t.len() as int] == x);
                        }
                    }
                    i += 1;
                }
                assert(pns@.take(i as int) =~= pns@);
                assert forall|pn: u64| #[trigger]
                    before.contains_key(pn) == pns@.contains(pn) by {
                    assert(pns@.to_set().contains(pn) == before.dom().contains(pn));
                }
                self.done.remove(0, p);
            },
        }
        assert(self@.missing =~= goal.missing);
        assert(self@.done =~= goal.done);
        assert(self@ =~= goal);
    }

    /// The position of the piece that starts at `off` of a stream.
    fn find(&self, stream_id: u64, off: u64) -> (r: Option<usize>)
        ensures
            match (r, piece_at(self.pieces@, stream_id, off)) {
                (Some(i), Some(k)) => i == k && i < self.pieces@.len(),
                (None, None) => true,
                _ => false,
            },
    {
        let mut i: usize = self.pieces.len();
        assert(self.pieces@.take(i as int) =~= self.pieces@);
        while i > 0
            invariant
                i <= self.pieces@.len(),
                piece_at(self.pieces@, stream_id, off) == piece_at(
                    self.pieces@.take(i as int),
                    stream_id,
                    off,
                ),
            decreases i,
        {
            i -= 1;
            assert(self.pieces@.take(i + 1).drop_last() =~= self.pieces@.take(i as int));
            if self.pieces[i].stream_id == stream_id && self.pieces[i].off == off {
                return Some(i);
            }
        }
        None
    }

    /// A piece of stream goes to one more receiver on its unicast path.
    pub fn delegate(&mut self, stream_id: u64, off: u64, len: u64)
        requires
            old(self).wf(),
        ensures
            final(self).wf(),
            final(self)@ == old(self)@.delegate(stream_id, off, len),
    {
        match self.find(stream_id, off) {
            Some(i) => {
                let p: DelegatedPiece = self.pieces[i];
                let longest: u64 = if len > p.len {
                    len
                } else {
                    p.len
                };
                let missing: u64 = if p.missing < u64::MAX {
                    p.missing + 1
                } else {
                    u64::MAX
                };
                self.pieces.set(
                    i,
                    DelegatedPiece { stream_id: p.stream_id, off: p.off, len: longest, missing },
                );
            },
            None => {
                self.pieces.push(DelegatedPiece { stream_id, off, len, missing: 1 });
            },
        }
        assert(self@ =~= old(self)@.delegate(stream_id, off, len));
    }

    /// One receiver acknowledges `len` bytes at `off` of a stream.
    pub fn on_stream_ack_received(&mut self, stream_id: u64, off: u64, len: u64)
        requires
            old(self).wf(),
        ensures
            final(self).wf(),
            final(self)@ == old(self)@.on_stream_ack(stream_id, off, len),
    {
        if let Some(i) = self.find(stream_id, off) {
            let p: DelegatedPiece = self.pieces[i];
            if p.len <= len {
                if p.missing <= 1 {
                    self.pieces.remove(i);
                    self.acked_pieces.push(StreamPiece { stream_id, off, len: p.len });
                } else {
                    self.pieces.set(
                        i,
                        DelegatedPiece {
                            stream_id: p.stream_id,
                            off: p.off,
                            len: p.len,
                            missing: p.missing - 1,
                        },
                    );
                }
            }
        }
        assert(self@ =~= old(self)@.on_stream_ack(stream_id, off, len));
    }

    /// The packets that all the receivers acknowledged since the last call.
    pub fn full_ack(&mut self) -> (r: Option<RangeSet>)
        requires
            old(self).wf(),
        ensures
            final(self).wf(),
            final(self)@ == (AckModel { full: Set::empty(), ..old(self)@ }),
            r is None <==> old(self)@.full == Set::<u64>::empty(),
            r matches Some(s) ==> s.wf() && s@ == old(self)@.full,
    {
        if self.full.is_empty() {
            return None;
        }
        let r = self.full.copy();
        self.full = RangeSet::new();
        Some(r)
    }

    /// The packets that all the receivers acknowledged and that
    /// [`McAck::full_ack`] has not returned.
    pub fn full_ack_poll(&self) -> (r: Option<&RangeSet>)
        requires
            self.wf(),
        ensures
            r is None <==> self@.full == Set::<u64>::empty(),
            r matches Some(s) ==> s.wf() && s@ == self@.full,
    {
        if self.full.is_empty() {
            None
        } else {
            Some(&self.full)
        }
    }

    /// The delegated pieces that were acknowledged since the last call.
    pub fn acked_stream_off(&mut self) -> (r: Option<McStreamOff>)
        requires
            old(self).wf(),
        ensures
            final(self).wf(),
            final(self)@ == (AckModel { acked_pieces: Seq::empty(), ..old(self)@ }),
            r is None <==> old(self)@.acked_pieces.len() == 0,
            r matches Some(v) ==> v@ == old(self)@.acked_pieces,
    {
        if self.acked_pieces.len() == 0 {
            assert(self@ =~= (AckModel { acked_pieces: Seq::empty(), ..old(self)@ }));
            return None;
        }
        let mut pieces: Vec<StreamPiece> = Vec::new();
        core::mem::swap(&mut pieces, &mut self.acked_pieces);
        assert(self@ =~= (AckModel { acked_pieces: Seq::empty(), ..old(self)@ }));
        Some(pieces)
    }

    /// How many receivers have not acknowledged the packet `pn`, if some have.
    pub fn missing(&self, pn: u64) -> (r: Option<u64>)
        requires
            self.wf(),
        ensures
            r == if self@.missing.contains_key(pn) {
                Some(self@.missing[pn])
            } else {
                None
            },
    {
        match self.missing.get(&pn) {
            Some(n) => Some(*n),
            None => None,
        }
    }

    /// How many packets wait for acknowledgments, the delegated pieces that wait
    /// for them, and the number of receivers.
    pub fn get_state(&self) -> (r: (usize, &Vec<DelegatedPiece>, u64))
        requires
            self.wf(),
        ensures
            r.0 == self@.missing.dom().len(),
            r.1@ == self@.pieces,
            r.2 == self@.nb_recv,
    {
        (self.missing.len(), &self.pieces, self.nb_recv)
    }
}

/// The integers that some ranges cover.
pub open spec fn covered(ranges: Seq<(u64, u64)>) -> Set<u64> {
    Set::new(|x: u64| covers(ranges, x))
}

proof fn lemma_ack_one_more(m: AckModel, pns: Set<u64>, pn: u64)
    requires
        m.missing.dom().disjoint(m.done),
        !pns.contains(pn),
    ensures
        m.on_ack(pns).on_ack(Set::empty().insert(pn)) == m.on_ack(pns.insert(pn)),
{
    let one = Set::<u64>::empty().insert(pn);
    let a = m.on_ack(pns).on_ack(one);
    let b = m.on_ack(pns.insert(pn));
    assert(m.completed(pns.insert(pn)) =~= m.completed(pns).union(m.on_ack(pns).completed(one)));
    assert(a.missing =~= b.missing);
    assert(a.done =~= b.done);
    assert(a.full =~= b.full);
}

/// An acknowledgment by one receiver counts once for each packet of it that is not done. The
/// packet is done, and is reported, when this was the last acknowledgment that was missing;
/// else one less is missing. A packet of which nothing is known waits for all the receivers.
/// Nothing changes for the other packets, nor for the pieces of streams.
pub proof fn acknowledgments_count_down(a: AckModel, pns: Set<u64>, pn: u64)
    ensures
        ({
            let b = a.on_ack(pns);
            let waits = if a.missing.contains_key(pn) {
                a.missing[pn]
            } else {
                a.nb_recv
            };
            let concerned = pns.contains(pn) && !a.done.contains(pn);
            &&& concerned && waits >= 2 ==> b.missing.contains_key(pn) && b.missing[pn] + 1 == waits
                && !b.done.contains(pn) && b.full.contains(pn) == a.full.contains(pn)
            &&& concerned && waits <= 1 ==> !b.missing.contains_key(pn) && b.done.contains(pn)
                && b.full.contains(pn)
            &&& !concerned ==> {
                &&& b.missing.contains_key(pn) == a.missing.contains_key(pn)
                &&& a.missing.contains_key(pn) ==> b.missing[pn] == a.missing[pn]
                &&& b.done.contains(pn) == a.done.contains(pn)
                &&& b.full.contains(pn) == a.full.contains(pn)
            }
            &&& b.nb_recv == a.nb_recv
            &&& b.pieces == a.pieces
            &&& b.acked_pieces == a.acked_pieces
        }),
{
    assert(a.completed(pns).contains(pn) <==> a.counts(pns, pn) && a.count(pn) <= 1);
}

/// A receiver that joins has to acknowledge the packets from its first one on, and no
/// earlier ones: one more acknowledgment is missing of those that already wait, and all
/// later packets wait for one receiver more.
pub proof fn new_receivers_have_to_acknowledge(a: AckModel, first_pn: u64, pn: u64)
    requires
        a.nb_recv < u64::MAX,
        a.missing.contains_key(pn) ==> a.missing[pn] < u64::MAX,
    ensures
        ({
            let b = a.new_recv(first_pn);
            &&& b.nb_recv == a.nb_recv + 1
            &&& b.missing.contains_key(pn) == a.missing.contains_key(pn)
            &&& a.missing.contains_key(pn) && pn >= first_pn ==> b.missing[pn] == a.missing[pn] + 1
            &&& a.missing.contains_key(pn) && pn < first_pn ==> b.missing[pn] == a.missing[pn]
            &&& b.done == a.done
            &&& b.full == a.full
            &&& b.pieces == a.pieces
            &&& b.acked_pieces == a.acked_pieces
        }),
{
}

/// Packets that left the queue are not followed any more: those before the lowest one, or all
/// of them where the queue is empty. The others are followed as before, and what was not
/// reported yet still is to be.
pub proof fn packets_that_left_are_forgotten(a: AckModel, lowest: Option<u64>, pn: u64)
    ensures
        ({
            let b = a.drain(lowest);
            let stays = match lowest {
                Some(p) => pn >= p,
                None => false,
            };
            &&& b.missing.contains_key(pn) <==> stays && a.missing.contains_key(pn)
            &&& b.missing.contains_key(pn) ==> b.missing[pn] == a.missing[pn]
            &&& b.done.contains(pn) <==> stays && a.done.contains(pn)
            &&& b.full == a.full
            &&& b.nb_recv == a.nb_recv
            &&& b.pieces == a.pieces
            &&& b.acked_pieces == a.acked_pieces
        }),
{
    let gone = Set::new(|pn: u64| lowest matches Some(p) ==> pn < p);
    assert(gone.contains(pn) <==> (lowest matches Some(p) ==> pn < p));
}

/// A delegated piece is found by its stream and its offset, the last one first.
pub proof fn pieces_are_found_by_their_offset(
    pieces: Seq<DelegatedPiece>,
    stream_id: u64,
    off: u64,
    i: int,
)
    ensures
        piece_at(pieces, stream_id, off) == Some(i) <==> 0 <= i < pieces.len()
            && pieces[i].stream_id == stream_id && pieces[i].off == off && forall|j: int|
            i < j < pieces.len() ==> !((#[trigger] pieces[j]).stream_id == stream_id
                && pieces[j].off == off),
        piece_at(pieces, stream_id, off) is None <==> forall|j: int|
            0 <= j < pieces.len() ==> !((#[trigger] pieces[j]).stream_id == stream_id
                && pieces[j].off == off),
    decreases pieces.len(),
{
    if pieces.len() > 0 {
        let front = pieces.drop_last();
        pieces_are_found_by_their_offset(front, stream_id, off, i);
        assert(pieces[pieces.len() - 1] == pieces.last());
        assert forall|j: int| 0 <= j < front.len() implies front[j] == #[trigger] pieces[j] by {}
        if !(pieces.last().stream_id == stream_id && pieces.last().off == off) {
            if piece_at(front, stream_id, off) == Some(i) {
                assert(front[i] == pieces[i]);
                assert forall|j: int| i < j < pieces.len() implies !((
                #[trigger] pieces[j]).stream_id == stream_id && pieces[j].off == off) by {
                    if j < front.len() {
                        assert(front[j] == pieces[j]);
                    }
                }
            }
            if let Some(k) = piece_at(front, stream_id, off) {
                pieces_are_found_by_their_offset(front, stream_id, off, k);
                assert(front[k] == pieces[k]);
            } else {
                assert forall|j: int| 0 <= j < pieces.len() implies !((
                #[trigger] pieces[j]).stream_id == stream_id && pieces[j].off == off) by {
                    if j < front.len() {
                        assert(front[j] == pieces[j]);
                    }
                }
            }
            if 0 <= i < front.len() && pieces[i].stream_id == stream_id && pieces[i].off == off
                && forall|j: int|
                i < j < pieces.len() ==> !((#[trigger] pieces[j]).stream_id == stream_id
                    && pieces[j].off == off) {
                assert forall|j: int| i < j < front.len() implies !((
                #[trigger] front[j]).stream_id == stream_id && front[j].off == off) by {
                    assert(front[j] == pieces[j]);
                }
                assert(front[i] == pieces[i]);
            }
        }
    }
}

/// A delegation to one more receiver adds one to those that a piece waits for, and the piece is
/// as long as the longest delegation of it. A piece that was not followed is followed from then
/// on, for one receiver. The other pieces stay, and so do the packets.
pub proof fn delegations_are_counted(a: AckModel, stream_id: u64, off: u64, len: u64)
    requires
        forall|j: int| 0 <= j < a.pieces.len() ==> (#[trigger] a.pieces[j]).missing < u64::MAX,
    ensures
        ({
            let b = a.delegate(stream_id, off, len);
            &&& piece_at(a.pieces, stream_id, off) is None ==> {
                let p = b.pieces.last();
                &&& b.pieces.len() == a.pieces.len() + 1
                &&& b.pieces.drop_last() == a.pieces
                &&& p.stream_id == stream_id && p.off == off && p.len == len && p.missing == 1
            }
            &&& piece_at(a.pieces, stream_id, off) matches Some(i) ==> {
                let p = b.pieces[i];
                &&& 0 <= i < a.pieces.len()
                &&& b.pieces.len() == a.pieces.len()
                &&& p.stream_id == stream_id && p.off == off
                &&& p.missing == a.pieces[i].missing + 1
                &&& p.len >= len && p.len >= a.pieces[i].len
                &&& p.len == len || p.len == a.pieces[i].len
                &&& forall|j: int|
                    0 <= j < a.pieces.len() && j != i ==> #[trigger] b.pieces[j] == a.pieces[j]
            }
            &&& b.nb_recv == a.nb_recv
            &&& b.missing == a.missing
            &&& b.done == a.done
            &&& b.full == a.full
            &&& b.acked_pieces == a.acked_pieces
        }),
{
    if let Some(i) = piece_at(a.pieces, stream_id, off) {
        pieces_are_found_by_their_offset(a.pieces, stream_id, off, i);
    } else {
        let b = a.delegate(stream_id, off, len);
        assert(b.pieces.drop_last() =~= a.pieces);
    }
}

/// An acknowledgment of a stream counts for the piece that starts at its offset, if it covers
/// the whole piece. One less receiver is missing then; after the last one, the piece is not
/// followed any more, and it is reported with its own length. Any other acknowledgment
/// changes nothing.
pub proof fn stream_acknowledgments_count_down(a: AckModel, stream_id: u64, off: u64, len: u64)
    ensures
        ({
            let b = a.on_stream_ack(stream_id, off, len);
            let k = piece_at(a.pieces, stream_id, off);
            let covers = k is Some && a.pieces[k->0].len <= len;
            &&& !covers ==> b == a
            &&& covers && a.pieces[k->0].missing >= 2 ==> {
                &&& b.pieces.len() == a.pieces.len()
                &&& b.pieces[k->0].missing + 1 == a.pieces[k->0].missing
                &&& b.pieces[k->0].stream_id == stream_id && b.pieces[k->0].off == off
                &&& b.pieces[k->0].len == a.pieces[k->0].len
                &&& forall|j: int|
                    0 <= j < a.pieces.len() && j != k->0 ==> #[trigger] b.pieces[j] == a.pieces[j]
                &&& b.acked_pieces == a.acked_pieces
            }
            &&& covers && a.pieces[k->0].missing <= 1 ==> {
                &&& b.pieces.len() + 1 == a.pieces.len()
                &&& forall|j: int| 0 <= j < k->0 ==> #[trigger] b.pieces[j] == a.pieces[j]
                &&& forall|j: int|
                    k->0 <= j < b.pieces.len() ==> #[trigger] b.pieces[j] == a.pieces[j + 1]
                &&& b.acked_pieces.len() == a.acked_pieces.len() + 1
                &&& b.acked_pieces.drop_last() == a.acked_pieces
                &&& b.acked_pieces.last().stream_id == stream_id
                &&& b.acked_pieces.last().off == off
                &&& b.acked_pieces.last().len == a.pieces[k->0].len
            }
            &&& b.nb_recv == a.nb_recv
            &&& b.missing == a.missing
            &&& b.done == a.done
            &&& b.full == a.full
        }),
{
    let b = a.on_stream_ack(stream_id, off, len);
    if let Some(i) = piece_at(a.pieces, stream_id, off) {
        pieces_are_found_by_their_offset(a.pieces, stream_id, off, i);
        if a.pieces[i].len <= len && a.pieces[i].missing <= 1 {
            assert(b.acked_pieces.drop_last() =~= a.acked_pieces);
        }
    }
}

/// An aggregator starts with no receivers, no packets and no pieces.
pub proof fn new_aggregators_are_empty(pn: u64)
    ensures
        new_ack().nb_recv == 0,
        !new_ack().missing.contains_key(pn),
        !new_ack().done.contains(pn),
        !new_ack().full.contains(pn),
        new_ack().pieces.len() == 0,
        new_ack().acked_pieces.len() == 0,
{
}

/// What was acknowledged is given once, packets and pieces apart: it is not there any more
/// afterwards, and nothing else changes.
pub proof fn complete_acknowledgments_are_given_once(
    a: &mut McAck,
    b: &mut McAck,
    pns: Option<RangeSet>,
    pieces: Option<McStreamOff>,
    pn: u64,
)
    requires
        call_ensures(McAck::full_ack, (a,), pns),
        call_ensures(McAck::acked_stream_off, (b,), pieces),
    ensures
        old(a)@.full.contains(pn) ==> pns is Some && (pns->0)@.contains(pn),
        pns is Some ==> ((pns->0)@.contains(pn) <==> old(a)@.full.contains(pn)),
        !final(a)@.full.contains(pn),
        final(a)@.acked_pieces == old(a)@.acked_pieces,
        final(a)@.missing == old(a)@.missing && final(a)@.done == old(a)@.done,
        old(b)@.acked_pieces.len() > 0 ==> pieces is Some && (pieces->0)@ == old(b)@.acked_pieces,
        old(b)@.acked_pieces.len() == 0 ==> pieces is None,
        final(b)@.acked_pieces.len() == 0,
        final(b)@.full == old(b)@.full && final(b)@.pieces == old(b)@.pieces,
{
}

/// The state tells how many acknowledgments a packet misses, which pieces are delegated, and how many
/// receivers there are.
pub proof fn state_tells_what_is_missing(
    a: McAck,
    pn: u64,
    m: Option<u64>,
    s: (usize, &Vec<DelegatedPiece>, u64),
)
    requires
        call_ensures(McAck::missing, (&a, pn), m),
        call_ensures(McAck::get_state, (&a,), s),
    ensures
        m is Some <==> a@.missing.contains_key(pn),
        m is Some ==> m->0 == a@.missing[pn],
        s.0 == a@.missing.dom().len(),
        s.1@ == a@.pieces,
        s.2 == a@.nb_recv,
{
}

} // verus!
