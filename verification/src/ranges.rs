//! Sets of integers kept as ranges.

use vstd::prelude::*;

verus! {

/// A set of integers, kept as the fewest half-open ranges `start..end` in
/// increasing order.
#[derive(Debug, PartialEq, Eq)]
pub struct RangeSet {
    ranges: Vec<(u64, u64)>,
}

/// Whether one of the ranges of `s` holds `x`.
pub open spec fn covers(s: Seq<(u64, u64)>, x: u64) -> bool {
    exists|i: int| 0 <= i < s.len() && (#[trigger] s[i]).0 <= x < s[i].1
}

/// No range is empty, and a gap separates each range from the next.
pub open spec fn separated(s: Seq<(u64, u64)>) -> bool {
    &&& forall|i: int| 0 <= i < s.len() ==> (#[trigger] s[i]).0 < s[i].1
    &&& forall|i: int, j: int| 0 <= i < j < s.len() ==> (#[trigger] s[i]).1 < (#[trigger] s[j]).0
}

/// The integers from `start` up to, and without, `end`.
pub open spec fn span(start: int, end: int) -> Set<u64> {
    Set::new(|x: u64| start <= x < end)
}

impl View for RangeSet {
    type V = Set<u64>;

    closed spec fn view(&self) -> Set<u64> {
        Set::new(|x: u64| covers(self.ranges@, x))
    }
}

impl RangeSet {
    /// The ranges are in increasing order and cannot be joined further.
    pub closed spec fn wf(&self) -> bool {
        separated(self.ranges@)
    }

    /// The ranges, in increasing order.
    pub closed spec fn spec_ranges(&self) -> Seq<(u64, u64)> {
        self.ranges@
    }

    /// The empty set.
    pub fn new() -> (s: RangeSet)
        ensures
            s.wf(),
            s@ == Set::<u64>::empty(),
    {
        let s = RangeSet { ranges: Vec::new() };
        assert(s@ =~= Set::<u64>::empty());
        s
    }

    /// Adds the integers of `start..end`.
    pub fn insert(&mut self, start: u64, end: u64)
        requires
            old(self).wf(),
        ensures
            final(self).wf(),
            final(self)@ == old(self)@.union(span(start as int, end as int)),
    {
        if start >= end {
            assert(self@ =~= old(self)@.union(span(start as int, end as int)));
            return;
        }
        let mut out: Vec<(u64, u64)> = Vec::new();
        let mut lo: u64 = start;
        let mut hi: u64 = end;
        let mut placed: bool = false;
        let mut i: usize = 0;
        while i < self.ranges.len()
            invariant
                i <= self.ranges@.len(),
                self.ranges@ == old(self).ranges@,
                separated(self.ranges@),
                lo < hi,
                lo <= start,
                hi >= end,
                separated(out@),
                !placed ==> forall|k: int| 0 <= k < out@.len() ==> (#[trigger] out@[k]).1 < lo,
                !placed ==> forall|k: int, j: int|
                    0 <= k < out@.len() && i <= j < self.ranges@.len() ==> (#[trigger] out@[k]).1
                        < (#[trigger] self.ranges@[j]).0,
                placed ==> i > 0 && out@.len() > 0 && out@[out@.len() - 1] == self.ranges@[i - 1],
                forall|x: u64|
                    #![trigger covers(out@, x)]
                    #![trigger covers(self.ranges@.take(i as int), x)]
                    (covers(out@, x) || (!placed && (lo <= x && x < hi))) == (covers(
                        self.ranges@.take(i as int),
                        x,
                    ) || (start <= x && x < end)),
            decreases self.ranges@.len() - i,
        {
            let r: (u64, u64) = self.ranges[i];
            let ghost before = self.ranges@.take(i as int);
            let ghost (out0, lo0, hi0, placed0) = (out@, lo, hi, placed);
            proof {
                lemma_covers_push(before, r);
                assert(self.ranges@.take(i + 1) =~= before.push(r));
            }
            if placed {
                proof {
                    lemma_covers_push(out@, r);
                }
                out.push(r);
            } else if r.1 < lo {
                proof {
                    lemma_covers_push(out@, r);
                }
                out.push(r);
            } else if hi < r.0 {
                proof {
                    lemma_covers_push(out@, (lo, hi));
                    lemma_covers_push(out@.push((lo, hi)), r);
                }
                out.push((lo, hi));
                out.push(r);
                placed = true;
            } else {
                if r.0 < lo {
                    lo = r.0;
                }
                if r.1 > hi {
                    hi = r.1;
                }
            }
            assert forall|x: u64|
                #![trigger covers(out@, x)]
                #![trigger covers(self.ranges@.take(i + 1), x)]
                (covers(out@, x) || (!placed && (lo <= x && x < hi))) == (covers(
                    self.ranges@.take(i + 1),
                    x,
                ) || (start <= x && x < end)) by {
                assert(covers(before.push(r), x) == (covers(before, x) || (r.0 <= x && x < r.1)));
                assert((covers(out0, x) || (!placed0 && (lo0 <= x && x < hi0))) == (covers(
                    before,
                    x,
                ) || (start <= x && x < end)));
            }
            i += 1;
        }
        assert(self.ranges@.take(i as int) =~= self.ranges@);
        if !placed {
            proof {
                lemma_covers_push(out@, (lo, hi));
            }
            out.push((lo, hi));
        }
        self.ranges = out;
        assert(self@ =~= old(self)@.union(span(start as int, end as int)));
    }

    /// Takes the integers of `start..end` out.
    pub fn remove(&mut self, start: u64, end: u64)
        requires
            old(self).wf(),
        ensures
            final(self).wf(),
            final(self)@ == old(self)@.difference(span(start as int, end as int)),
    {
        if start >= end {
            assert(self@ =~= old(self)@.difference(span(start as int, end as int)));
            return;
        }
        let mut out: Vec<(u64, u64)> = Vec::new();
        let mut i: usize = 0;
        while i < self.ranges.len()
            invariant
                i <= self.ranges@.len(),
                self.ranges@ == old(self).ranges@,
                separated(self.ranges@),
                start < end,
                separated(out@),
                i > 0 ==> forall|k: int|
                    0 <= k < out@.len() ==> (#[trigger] out@[k]).1 <= self.ranges@[i - 1].1,
                i == 0 ==> out@.len() == 0,
                forall|x: u64|
                    #[trigger] covers(out@, x) <==> covers(self.ranges@.take(i as int), x) && !(start
                        <= x < end),
            decreases self.ranges@.len() - i,
        {
            let r: (u64, u64) = self.ranges[i];
            let ghost before = self.ranges@.take(i as int);
            proof {
                lemma_covers_push(before, r);
                assert(self.ranges@.take(i + 1) =~= before.push(r));
            }
            let left_end: u64 = if r.1 < start {
                r.1
            } else {
                start
            };
            let right_start: u64 = if r.0 > end {
                r.0
            } else {
                end
            };
            if r.0 < left_end {
                proof {
                    lemma_covers_push(out@, (r.0, left_end));
                }
                out.push((r.0, left_end));
            }
            if right_start < r.1 {
                proof {
                    lemma_covers_push(out@, (right_start, r.1));
                }
                out.push((right_start, r.1));
            }
            i += 1;
        }
        assert(self.ranges@.take(i as int) =~= self.ranges@);
        self.ranges = out;
        assert(self@ =~= old(self)@.difference(span(start as int, end as int)));
    }

    /// Whether the set holds `x`.
    pub fn contains(&self, x: u64) -> (r: bool)
        requires
            self.wf(),
        ensures
            r == self@.contains(x),
    {
        let mut i: usize = 0;
        while i < self.ranges.len()
            invariant
                i <= self.ranges@.len(),
                forall|k: int|
                    0 <= k < i ==> !((#[trigger] self.ranges@[k]).0 <= x < self.ranges@[k].1),
            decreases self.ranges@.len() - i,
        {
            if self.ranges[i].0 <= x && x < self.ranges[i].1 {
                return true;
            }
            i += 1;
        }
        false
    }
    /// Takes the integers of `other` out.
    pub fn subtract(&mut self, other: &RangeSet)
        requires
            old(self).wf(),
            other.wf(),
        ensures
            final(self).wf(),
            final(self)@ == old(self)@.difference(other@),
    {
        let mut i: usize = 0;
        while i < other.ranges.len()
            invariant
                i <= other.ranges@.len(),
                self.wf(),
                forall|x: u64|
                    #![trigger self@.contains(x)]
                    self@.contains(x) == (old(self)@.contains(x) && !covers(
                        other.ranges@.take(i as int),
                        x,
                    )),
            decreases other.ranges@.len() - i,
        {
            let r: (u64, u64) = other.ranges[i];
            self.remove(r.0, r.1);
            proof {
                lemma_covers_push(other.ranges@.take(i as int), r);
                assert(other.ranges@.take(i + 1) =~= other.ranges@.take(i as int).push(r));
            }
            i += 1;
        }
        proof {
            assert(other.ranges@.take(i as int) =~= other.ranges@);
            assert(self@ =~= old(self)@.difference(other@));
        }
    }

    /// Adds the integers of `other`.
    pub fn union_with(&mut self, other: &RangeSet)
        requires
            old(self).wf(),
            other.wf(),
        ensures
            final(self).wf(),
            final(self)@ == old(self)@.union(other@),
    {
        let mut i: usize = 0;
        while i < other.ranges.len()
            invariant
                i <= other.ranges@.len(),
                self.wf(),
                forall|x: u64|
                    #![trigger self@.contains(x)]
                    self@.contains(x) == (old(self)@.contains(x) || covers(
                        other.ranges@.take(i as int),
                        x,
                    )),
            decreases other.ranges@.len() - i,
        {
            let r: (u64, u64) = other.ranges[i];
            self.insert(r.0, r.1);
            proof {
                lemma_covers_push(other.ranges@.take(i as int), r);
                assert(other.ranges@.take(i + 1) =~= other.ranges@.take(i as int).push(r));
            }
            i += 1;
        }
        proof {
            assert(other.ranges@.take(i as int) =~= other.ranges@);
            assert(self@ =~= old(self)@.union(other@));
        }
    }

    /// Keeps the integers that are in `other` too.
    pub fn intersect(&mut self, other: &RangeSet)
        requires
            old(self).wf(),
            other.wf(),
        ensures
            final(self).wf(),
            final(self)@ == old(self)@.intersect(other@),
    {
        let mut outside = self.copy();
        outside.subtract(other);
        self.subtract(&outside);
        assert(self@ =~= old(self)@.intersect(other@));
    }

    /// Whether the set is empty.
    pub fn is_empty(&self) -> (r: bool)
        requires
            self.wf(),
        ensures
            r == (self@ == Set::<u64>::empty()),
    {
        proof {
            if self.ranges@.len() > 0 {
                assert(covers(self.ranges@, self.ranges@[0].0));
                assert(self@.contains(self.ranges@[0].0));
            } else {
                assert(self@ =~= Set::<u64>::empty());
            }
        }
        self.ranges.len() == 0
    }

    /// The lowest range, as long as it can be.
    pub fn first_range(&self) -> (r: Option<(u64, u64)>)
        requires
            self.wf(),
        ensures
            r is None <==> self@ == Set::<u64>::empty(),
            r matches Some((a, b)) ==> {
                &&& a < b
                &&& span(a as int, b as int).subset_of(self@)
                &&& !self@.contains(b)
                &&& forall|x: u64| self@.contains(x) ==> a <= x
            },
    {
        let e: bool = self.is_empty();
        if e {
            return None;
        }
        assert(self.ranges@.len() > 0) by {
            if self.ranges@.len() == 0 {
                assert(self@ =~= Set::<u64>::empty());
            }
        }
        let (a, b): (u64, u64) = self.ranges[0];
        proof {
            lemma_range_is_whole(self.ranges@, 0);
            assert forall|x: u64| span(a as int, b as int).contains(x) implies self@.contains(x) by {
                assert(covers(self.ranges@, x));
            }
            assert forall|x: u64| self@.contains(x) implies a <= x by {
                let i = choose|i: int|
                    0 <= i < self.ranges@.len() && (#[trigger] self.ranges@[i]).0 <= x
                        < self.ranges@[i].1;
                if i > 0 {
                    assert(self.ranges@[0].1 < self.ranges@[i].0);
                }
            }
        }
        Some((a, b))
    }

    /// The largest integer of the set.
    pub fn last(&self) -> (r: Option<u64>)
        requires
            self.wf(),
        ensures
            r is None <==> self@ == Set::<u64>::empty(),
            r matches Some(m) ==> self@.contains(m) && forall|x: u64| self@.contains(x) ==> x <= m,
    {
        let e: bool = self.is_empty();
        if e {
            return None;
        }
        assert(self.ranges@.len() > 0) by {
            if self.ranges@.len() == 0 {
                assert(self@ =~= Set::<u64>::empty());
            }
        }
        let n: usize = self.ranges.len();
        let m: u64 = self.ranges[n - 1].1 - 1;
        proof {
            assert(self.ranges@[n - 1].0 <= m < self.ranges@[n - 1].1);
            assert(covers(self.ranges@, m));
            assert forall|x: u64| self@.contains(x) implies x <= m by {
                let i = choose|i: int|
                    0 <= i < self.ranges@.len() && (#[trigger] self.ranges@[i]).0 <= x
                        < self.ranges@[i].1;
                if i < n - 1 {
                    assert(self.ranges@[i].1 < self.ranges@[n - 1].0);
                }
            }
        }
        Some(m)
    }

    /// Whether every integer of `other` is in this set.
    pub fn is_superset(&self, other: &RangeSet) -> (r: bool)
        requires
            self.wf(),
            other.wf(),
        ensures
            r == other@.subset_of(self@),
    {
        let mut i: usize = 0;
        while i < other.ranges.len()
            invariant
                i <= other.ranges@.len(),
                self.wf(),
                other.wf(),
                forall|x: u64| #[trigger]
                    covers(other.ranges@.take(i as int), x) ==> covers(self.ranges@, x),
            decreases other.ranges@.len() - i,
        {
            let (a, b): (u64, u64) = other.ranges[i];
            let mut j: usize = 0;
            while j < self.ranges.len() && self.ranges[j].1 <= a
                invariant
                    j <= self.ranges@.len(),
                    forall|k: int| 0 <= k < j ==> (#[trigger] self.ranges@[k]).1 <= a,
                decreases self.ranges@.len() - j,
            {
                j += 1;
            }
            if j == self.ranges.len() || a < self.ranges[j].0 || self.ranges[j].1 < b {
                proof {
                    let x: u64 = if j == self.ranges@.len() || a < self.ranges@[j as int].0 {
                        a
                    } else {
                        self.ranges@[j as int].1
                    };
                    assert(covers(other.ranges@, x)) by {
                        assert(other.ranges@[i as int].0 <= x < other.ranges@[i as int].1);
                    }
                    assert(!covers(self.ranges@, x)) by {
                        if covers(self.ranges@, x) {
                            let k = choose|k: int|
                                0 <= k < self.ranges@.len() && (#[trigger] self.ranges@[k]).0 <= x
                                    < self.ranges@[k].1;
                            if k > j {
                                assert(self.ranges@[j as int].1 < self.ranges@[k].0);
                            }
                        }
                    }
                    assert(other@.contains(x) && !self@.contains(x));
                }
                return false;
            }
            proof {
                lemma_covers_push(other.ranges@.take(i as int), (a, b));
                assert(other.ranges@.take(i + 1) =~= other.ranges@.take(i as int).push((a, b)));
                assert forall|x: u64| #[trigger] covers(other.ranges@.take(i + 1), x) implies covers(
                    self.ranges@,
                    x,
                ) by {
                    if a <= x < b {
                        assert(self.ranges@[j as int].0 <= x < self.ranges@[j as int].1);
                    }
                }
            }
            i += 1;
        }
        proof {
            assert(other.ranges@.take(i as int) =~= other.ranges@);
            assert forall|x: u64| other@.contains(x) implies self@.contains(x) by {
                assert(covers(other.ranges@, x));
            }
        }
        true
    }

    /// Whether two sets hold the same integers.
    pub fn same(&self, other: &RangeSet) -> (r: bool)
        requires
            self.wf(),
            other.wf(),
        ensures
            r == (self@ == other@),
    {
        let up: bool = self.is_superset(other);
        let down: bool = other.is_superset(self);
        proof {
            if up && down {
                assert(self@ =~= other@);
            }
        }
        up && down
    }

    /// A set with the same integers.
    pub fn copy(&self) -> (r: RangeSet)
        requires
            self.wf(),
        ensures
            r.wf(),
            r@ == self@,
            r.spec_ranges() == self.spec_ranges(),
    {
        let mut ranges: Vec<(u64, u64)> = Vec::new();
        let mut i: usize = 0;
        while i < self.ranges.len()
            invariant
                i <= self.ranges@.len(),
                ranges@ == self.ranges@.take(i as int),
            decreases self.ranges@.len() - i,
        {
            ranges.push(self.ranges[i]);
            i += 1;
            assert(ranges@ =~= self.ranges@.take(i as int));
        }
        assert(ranges@ =~= self.ranges@);
        RangeSet { ranges }
    }

    /// The ranges `start..end`, in increasing order.
    pub fn as_ranges(&self) -> (r: &Vec<(u64, u64)>)
        requires
            self.wf(),
        ensures
            r@ == self.spec_ranges(),
            separated(r@),
            forall|x: u64| #[trigger] self@.contains(x) == covers(r@, x),
    {
        &self.ranges
    }
}

/// A range of a separated sequence ends where the set that the sequence covers
/// has a gap.
pub proof fn lemma_range_is_whole(s: Seq<(u64, u64)>, i: int)
    requires
        separated(s),
        0 <= i < s.len(),
    ensures
        !covers(s, s[i].1),
        covers(s, s[i].0),
        s[i].0 > 0 ==> !covers(s, (s[i].0 - 1) as u64),
{
    if covers(s, s[i].1) {
        let k = choose|k: int| 0 <= k < s.len() && (#[trigger] s[k]).0 <= s[i].1 < s[k].1;
        if k > i {
            assert(s[i].1 < s[k].0);
        } else if k < i {
            assert(s[k].1 < s[i].0);
        }
    }
    assert(s[i].0 <= s[i].0 < s[i].1);
    if s[i].0 > 0 {
        let x = (s[i].0 - 1) as u64;
        if covers(s, x) {
            let k = choose|k: int| 0 <= k < s.len() && (#[trigger] s[k]).0 <= x < s[k].1;
            if k > i {
                assert(s[i].1 < s[k].0);
            } else if k < i {
                assert(s[k].1 < s[i].0);
            }
        }
    }
}

/// Two sequences of separated ranges that cover the same integers are the same
/// sequence: the ranges of a set depend on its integers alone.
pub proof fn ranges_are_canonical(s: Seq<(u64, u64)>, t: Seq<(u64, u64)>)
    requires
        separated(s),
        separated(t),
        forall|x: u64| #[trigger] covers(s, x) == covers(t, x),
    ensures
        s == t,
    decreases s.len(),
{
    if s.len() == 0 {
        if t.len() > 0 {
            lemma_range_is_whole(t, 0);
            assert(covers(s, t[0].0));
        }
        assert(s =~= t);
    } else if t.len() == 0 {
        lemma_range_is_whole(s, 0);
        assert(covers(t, s[0].0));
    } else {
        lemma_last_ranges_agree(s, t);
        let (s0, t0) = (s.drop_last(), t.drop_last());
        let r = s.last();
        lemma_covers_push(s0, r);
        lemma_covers_push(t0, r);
        assert(s0.push(r) =~= s);
        assert(t0.push(r) =~= t);
        assert forall|x: u64| #[trigger] covers(s0, x) == covers(t0, x) by {
            assert(covers(s, x) == covers(t, x));
            if covers(s0, x) {
                let k = choose|k: int| 0 <= k < s0.len() && (#[trigger] s0[k]).0 <= x < s0[k].1;
                assert(s[k].1 < s[s.len() - 1].0);
            }
            if covers(t0, x) {
                let k = choose|k: int| 0 <= k < t0.len() && (#[trigger] t0[k]).0 <= x < t0[k].1;
                assert(t[k].1 < t[t.len() - 1].0);
            }
        }
        ranges_are_canonical(s0, t0);
    }
}

proof fn lemma_last_ranges_agree(s: Seq<(u64, u64)>, t: Seq<(u64, u64)>)
    requires
        separated(s),
        separated(t),
        s.len() > 0,
        t.len() > 0,
        forall|x: u64| #[trigger] covers(s, x) == covers(t, x),
    ensures
        s.last() == t.last(),
{
    lemma_top_bound(s);
    lemma_top_bound(t);
    let (a, b) = s.last();
    let (c, d) = t.last();
    assert(covers(t, (b - 1) as u64) && covers(s, (d - 1) as u64));
    assert(b == d);
    lemma_range_is_whole(s, s.len() - 1);
    lemma_range_is_whole(t, t.len() - 1);
    if a < c {
        assert(s[s.len() - 1].0 <= c - 1 && c - 1 < s[s.len() - 1].1);
        assert(covers(s, (c - 1) as u64));
    }
    if c < a {
        assert(t[t.len() - 1].0 <= a - 1 && a - 1 < t[t.len() - 1].1);
        assert(covers(t, (a - 1) as u64));
    }
}

proof fn lemma_top_bound(s: Seq<(u64, u64)>)
    requires
        separated(s),
        s.len() > 0,
    ensures
        covers(s, (s.last().1 - 1) as u64),
        forall|x: u64| #[trigger] covers(s, x) ==> x < s.last().1,
{
    let n = s.len() - 1;
    assert(s[n].0 <= s[n].1 - 1 && s[n].1 - 1 < s[n].1);
    assert forall|x: u64| #[trigger] covers(s, x) implies x < s.last().1 by {
        let k = choose|k: int| 0 <= k < s.len() && (#[trigger] s[k]).0 <= x < s[k].1;
        if k < n {
            assert(s[k].1 < s[n].0);
        }
    }
}

/// What a range added at the end of a sequence of ranges covers.
pub proof fn lemma_covers_push(s: Seq<(u64, u64)>, r: (u64, u64))
    ensures
        forall|x: u64| #[trigger] covers(s.push(r), x) <==> covers(s, x) || r.0 <= x < r.1,
{
    assert forall|x: u64| #[trigger] covers(s.push(r), x) <==> covers(s, x) || r.0 <= x < r.1 by {
        if covers(s, x) {
            let i = choose|i: int| 0 <= i < s.len() && (#[trigger] s[i]).0 <= x < s[i].1;
            assert(s.push(r)[i] == s[i]);
        }
        if r.0 <= x < r.1 {
            assert(s.push(r)[s.len() as int] == r);
        }
        if covers(s.push(r), x) {
            let i = choose|i: int|
                0 <= i < s.push(r).len() && (#[trigger] s.push(r)[i]).0 <= x < s.push(r)[i].1;
            if i < s.len() {
                assert(s[i] == s.push(r)[i]);
            }
        }
    }
}

} // verus!
