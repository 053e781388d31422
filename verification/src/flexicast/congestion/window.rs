//! The largest value of the recent past.

use std::collections::HashMap;
use vstd::prelude::*;

use crate::time::Duration;
use crate::time::Instant;

verus! {

broadcast use vstd::std_specs::hash::group_hash_axioms;

/// A window over the values of the last time span, with the largest one that counts. A
/// value counts from when it is added until its entry is too old; that of an entry
/// which another one replaced counts for good.
#[derive(Debug)]
pub struct MaxTimeWindow {
    window: Vec<(Instant, u64)>,
    values: HashMap<u64, u32>,
    span: Duration,
}

/// What a [`MaxTimeWindow`] stands for.
#[verifier::ext_equal]
pub struct WindowModel {
    /// The values with the points in time at which they were added, oldest first.
    pub window: Seq<(Instant, u64)>,
    /// How many times each value counts.
    pub values: Map<u64, u32>,
    /// Length of the window.
    pub span: Duration,
}

/// How many times a value occurs.
pub open spec fn occurrences(w: Seq<(Instant, u64)>, value: u64) -> nat
    decreases w.len(),
{
    if w.len() == 0 {
        0
    } else {
        occurrences(w.drop_last(), value) + if w.last().1 == value {
            1nat
        } else {
            0
        }
    }
}

/// Each point in time is later than those before it.
pub open spec fn in_order(w: Seq<(Instant, u64)>) -> bool {
    forall|i: int, j: int| 0 <= i < j < w.len() ==> (#[trigger] w[i]).0.nanos < (#[trigger] w[j]).0.nanos
}

/// How many entries at the front are older than `lowest`.
pub open spec fn outdated(w: Seq<(Instant, u64)>, lowest: int) -> nat
    decreases w.len(),
{
    if w.len() == 0 || w[0].0.nanos >= lowest {
        0
    } else {
        1 + outdated(w.skip(1), lowest)
    }
}

/// The counts once the values of some entries count one time less each.
pub open spec fn discounted(values: Map<u64, u32>, w: Seq<(Instant, u64)>) -> Map<u64, u32> {
    Map::new(
        |v: u64| values.contains_key(v) && values[v] > occurrences(w, v),
        |v: u64| (values[v] - occurrences(w, v)) as u32,
    )
}

/// The entries once `data` is added at `now`: it takes the place of a value that
/// was added at the same point in time.
pub open spec fn with_entry(w: Seq<(Instant, u64)>, now: Instant, data: u64) -> Seq<(Instant, u64)>
    decreases w.len(),
{
    if w.len() == 0 || w.last().0.nanos < now.nanos {
        w.push((now, data))
    } else if w.last().0.nanos == now.nanos {
        w.drop_last().push((now, data))
    } else {
        with_entry(w.drop_last(), now, data).push(w.last())
    }
}

/// Whether `m` counts, and nothing larger does.
pub open spec fn is_largest(values: Map<u64, u32>, m: u64) -> bool {
    values.contains_key(m) && forall|v: u64| #[trigger] values.contains_key(v) ==> v <= m
}

impl WindowModel {
    /// The entries are in order, and each value counts at least as often as it
    /// occurs.
    pub open spec fn wf(self) -> bool {
        &&& in_order(self.window)
        &&& forall|v: u64| #[trigger] self.values.contains_key(v) ==> self.values[v] >= 1
        &&& forall|v: u64|
            #[trigger] occurrences(self.window, v) > 0 ==> self.values.contains_key(v)
                && self.values[v] >= occurrences(self.window, v)
    }

    /// Each value counts exactly as often as it occurs.
    pub open spec fn exact(self) -> bool {
        forall|v: u64|
            (#[trigger] self.values.contains_key(v)) == (occurrences(self.window, v) > 0) && (
            self.values.contains_key(v) ==> self.values[v] == occurrences(self.window, v))
    }

    /// The window at `now`: older entries than its span are gone.
    pub open spec fn at(self, now: Instant) -> WindowModel {
        let n = outdated(self.window, now.nanos - self.span.nanos) as int;
        WindowModel {
            window: self.window.skip(n),
            values: discounted(self.values, self.window.take(n)),
            ..self
        }
    }

    /// The window once `data` is added at `now`.
    pub open spec fn added(self, now: Instant, data: u64) -> WindowModel {
        let m = self.at(now);
        WindowModel {
            window: with_entry(m.window, now, data),
            values: m.values.insert(
                data,
                if m.values.contains_key(data) {
                    (m.values[data] + 1) as u32
                } else {
                    1
                },
            ),
            ..m
        }
    }

    /// The largest value that counts.
    pub open spec fn largest(self) -> Option<u64> {
        if self.values.dom() == Set::<u64>::empty() {
            None
        } else {
            Some(choose|m: u64| is_largest(self.values, m))
        }
    }
}

impl View for MaxTimeWindow {
    type V = WindowModel;

    closed spec fn view(&self) -> WindowModel {
        WindowModel { window: self.window@, values: self.values@, span: self.span }
    }
}

impl MaxTimeWindow {
    /// An empty window of the length `span`.
    pub fn new(span: Duration) -> (w: MaxTimeWindow)
        ensures
            w@.wf(),
            w@ == (WindowModel { window: Seq::empty(), values: Map::empty(), span }),
    {
        MaxTimeWindow { window: Vec::new(), values: HashMap::new(), span }
    }

    /// Length of the window.
    pub fn length(&self) -> (d: Duration)
        ensures
            d == self@.span,
    {
        self.span
    }

    /// Takes the entries out that are older than the span of the window.
    pub fn time_elapsed(&mut self, now: Instant)
        requires
            old(self)@.wf(),
            now.nanos >= old(self)@.span.nanos,
        ensures
            final(self)@.wf(),
            final(self)@ == old(self)@.at(now),
    {
        let lowest: u128 = now.nanos - self.span.nanos;
        let ghost w = self.window@;
        let ghost m = self@;
        let mut n: usize = 0;
        proof {
            assert(w.skip(0) =~= w);
            assert(w.take(0) =~= Seq::<(Instant, u64)>::empty());
            assert(discounted(m.values, w.take(0)) =~= m.values);
        }
        while n < self.window.len() && self.window[n].0.nanos < lowest
            invariant
                n <= self.window@.len(),
                self.window@ == w,
                self.span == m.span,
                m == (WindowModel { window: w, values: m.values, span: m.span }),
                m.wf(),
                outdated(w, lowest as int) == n + outdated(w.skip(n as int), lowest as int),
                self.values@ == discounted(m.values, w.take(n as int)),
            decreases self.window@.len() - n,
        {
            let value: u64 = self.window[n].1;
            proof {
                assert(w.skip(n as int)[0] == w[n as int]);
                assert(w.skip(n as int).skip(1) =~= w.skip(n + 1));
                assert(w.take(n + 1).drop_last() =~= w.take(n as int));
                lemma_occurrences_prefix(w, n + 1, value);
                assert(occurrences(w, value) > 0);
            }
            let count: u32 = match self.values.get(&value) {
                Some(c) => *c,
                None => {
                    assert(false);
                    0
                },
            };
            if count == 1 {
                self.values.remove(&value);
            } else {
                self.values.insert(value, count - 1);
            }
            proof {
                assert(self.values@ =~= discounted(m.values, w.take(n + 1)));
            }
            n += 1;
        }
        proof {
            if n < w.len() {
                assert(w.skip(n as int)[0] == w[n as int]);
            }
            assert forall|v: u64| #[trigger] occurrences(w.skip(n as int), v) > 0 implies
                self.values@.contains_key(v) && self.values@[v] >= occurrences(w.skip(n as int), v) by {
                lemma_occurrences_split(w, n as int, v);
                assert(occurrences(w, v) > 0);
            }
        }
        let mut kept: Vec<(Instant, u64)> = self.window.split_off(n);
        core::mem::swap(&mut kept, &mut self.window);
        assert(self.window@ =~= w.skip(n as int));
    }

    /// Whether `data` can be added at `now`: the span of the window lies before `now`,
    /// and the value does not count too often.
    pub fn can_add(&self, now: Instant, data: u64) -> (r: bool)
        requires
            self@.wf(),
        ensures
            r == (now.nanos >= self@.span.nanos && (self@.at(now).values.contains_key(data)
                ==> self@.at(now).values[data] < u32::MAX)),
    {
        if now.nanos < self.span.nanos {
            return false;
        }
        let lowest: u128 = now.nanos - self.span.nanos;
        let ghost w = self.window@;
        let ghost gone = outdated(w, lowest as int) as int;
        proof {
            lemma_outdated(w, lowest as int);
        }
        match self.values.get(&data) {
            None => {
                return true;
            },
            Some(count) => {
                if *count < u32::MAX {
                    return true;
                }
            },
        }
        let mut n: usize = 0;
        proof {
            assert(w.skip(0) =~= w);
            assert(w.take(0) =~= Seq::<(Instant, u64)>::empty());
        }
        while n < self.window.len() && self.window[n].0.nanos < lowest
            invariant
                n <= w.len(),
                w == self.window@,
                gone == outdated(w, lowest as int),
                gone <= w.len(),
                gone == n + outdated(w.skip(n as int), lowest as int),
                occurrences(w.take(n as int), data) == 0,
                lowest == now.nanos - self.span.nanos,
                self.values@.contains_key(data),
                now.nanos >= self.span.nanos,
            decreases w.len() - n,
        {
            proof {
                assert(w.skip(n as int)[0] == w[n as int]);
                assert(w.skip(n as int).skip(1) =~= w.skip(n + 1));
                assert(w.take(n + 1).drop_last() =~= w.take(n as int));
            }
            if self.window[n].1 == data {
                proof {
                    assert(w.take(gone)[n as int] == w[n as int]);
                    lemma_occurs(w.take(gone), n as int);
                }
                return true;
            }
            n += 1;
        }
        proof {
            if n < w.len() {
                assert(w.skip(n as int)[0] == w[n as int]);
            }
        }
        false
    }

    /// Adds `data` to the window at `now`.
    pub fn add_data(&mut self, now: Instant, data: u64)
        requires
            old(self)@.wf(),
            now.nanos >= old(self)@.span.nanos,
            old(self)@.at(now).values.contains_key(data) ==> old(self)@.at(now).values[data]
                < u32::MAX,
        ensures
            final(self)@.wf(),
            final(self)@ == old(self)@.added(now, data),
    {
        self.time_elapsed(now);
        let ghost m = self@;
        let ghost w = self.window@;
        let mut i: usize = self.window.len();
        assert(w.take(i as int) =~= w);
        assert(w.skip(i as int) =~= Seq::<(Instant, u64)>::empty());
        assert(with_entry(w.take(i as int), now, data) + w.skip(i as int) =~= with_entry(w, now, data));
        while i > 0 && self.window[i - 1].0.nanos > now.nanos
            invariant
                i <= w.len(),
                self.window@ == w,
                with_entry(w, now, data) == with_entry(w.take(i as int), now, data) + w.skip(i as int),
                self@ == m,
            decreases i,
        {
            proof {
                assert(w.take(i as int).drop_last() =~= w.take(i - 1));
                assert(w.take(i as int).last() == w[i - 1]);
                assert(with_entry(w.take(i - 1), now, data).push(w[i - 1]) + w.skip(i as int)
                    =~= with_entry(w.take(i - 1), now, data) + w.skip(i - 1));
            }
            i -= 1;
        }
        if i > 0 && self.window[i - 1].0.nanos == now.nanos {
            self.window.set(i - 1, (now, data));
            proof {
                assert(w.take(i as int).drop_last() =~= w.take(i - 1));
                assert(w.take(i as int).last() == w[i - 1]);
                assert(w.update(i - 1, (now, data)) =~= w.take(i - 1).push((now, data)) + w.skip(
                    i as int,
                ));
            }
        } else {
            self.window.insert(i, (now, data));
            proof {
                if i > 0 {
                    assert(w.take(i as int).last() == w[i - 1]);
                }
                assert(w.insert(i as int, (now, data)) =~= w.take(i as int).push((now, data)) + w.skip(
                    i as int,
                ));
            }
        }
        let count: u32 = match self.values.get(&data) {
            Some(c) => *c + 1,
            None => 1,
        };
        self.values.insert(data, count);
        proof {
            assert(self.window@ == with_entry(w, now, data));
            assert(self@ =~= old(self)@.added(now, data));
            lemma_with_entry(w, now, data);
            assert forall|v: u64| #[trigger] occurrences(self@.window, v) > 0 implies
                self@.values.contains_key(v) && self@.values[v] >= occurrences(self@.window, v) by {
                lemma_with_entry_occurrences(w, now, data, v);
                assert(occurrences(w, v) > 0 ==> m.values.contains_key(v) && m.values[v]
                    >= occurrences(w, v));
            }
        }
    }

    /// The largest value that counts. Where no two values were added at one point in
    /// time, that is the largest one of the window.
    pub fn max(&self) -> (r: Option<u64>)
        requires
            self@.wf(),
        ensures
            r == self@.largest(),
    {
        let keys: Vec<u64> = self.keys();
        let mut best: Option<u64> = None;
        let mut i: usize = 0;
        while i < keys.len()
            invariant
                i <= keys@.len(),
                keys@.to_set() == self.values@.dom(),
                i == 0 ==> best is None,
                i > 0 ==> best is Some && self.values@.contains_key(best->0),
                forall|k: int| 0 <= k < i ==> #[trigger] keys@[k] <= best->0,
            decreases keys@.len() - i,
        {
            assert(keys@.to_set().contains(keys@[i as int]));
            let better: bool = match best {
                Some(b) => keys[i] > b,
                None => true,
            };
            if better {
                best = Some(keys[i]);
            }
            i += 1;
        }
        proof {
            assert forall|v: u64| self.values@.contains_key(v) implies best is Some && v
                <= best->0 by {
                assert(keys@.to_set().contains(v));
                let k = choose|k: int| 0 <= k < keys@.len() && keys@[k] == v;
                assert(keys@[k] == v);
            }
            if let Some(b) = best {
                assert(self.values@.dom().contains(b));
                assert(is_largest(self.values@, b));
            } else {
                assert(self.values@.dom() =~= Set::<u64>::empty());
            }
        }
        best
    }

    /// The values that count.
    fn keys(&self) -> (keys: Vec<u64>)
        ensures
            keys@.to_set() == self.values@.dom(),
    {
        let mut keys: Vec<u64> = Vec::new();
        for v in it: self.values.keys()
            invariant
                keys@ == it.seq().take(it.index()).unref(),
                it.seq().unref().to_set() == self.values@.dom(),
                it.index() == it.seq().len() ==> keys@ == it.seq().unref(),
        {
            keys.push(*v);
            assert(keys@ =~= it.seq().take(it.index() + 1).unref());
            assert(it.index() + 1 == it.seq().len() ==> it.seq().take(it.index() + 1) =~= it.seq());
        }
        keys
    }

    /// The values of the window, oldest first.
    pub fn iter(&self) -> (r: Vec<u64>)
        ensures
            r@ == self@.window.map_values(|e: (Instant, u64)| e.1),
    {
        let mut out: Vec<u64> = Vec::new();
        let mut i: usize = 0;
        while i < self.window.len()
            invariant
                i <= self.window@.len(),
                out@.len() == i,
                forall|k: int| 0 <= k < i ==> out@[k] == (#[trigger] self.window@[k]).1,
            decreases self.window@.len() - i,
        {
            out.push(self.window[i].1);
            i += 1;
        }
        assert(out@ =~= self@.window.map_values(|e: (Instant, u64)| e.1));
        out
    }
}

proof fn lemma_occurrences_prefix(w: Seq<(Instant, u64)>, n: int, v: u64)
    requires
        0 <= n <= w.len(),
    ensures
        occurrences(w.take(n), v) <= occurrences(w, v),
{
    lemma_occurrences_split(w, n, v);
}

/// The occurrences of a part and of the rest add up.
proof fn lemma_occurrences_split(w: Seq<(Instant, u64)>, n: int, v: u64)
    requires
        0 <= n <= w.len(),
    ensures
        occurrences(w, v) == occurrences(w.take(n), v) + occurrences(w.skip(n), v),
    decreases w.len(),
{
    if n == w.len() {
        assert(w.take(n) =~= w);
        assert(w.skip(n).len() == 0);
    } else {
        assert(w.drop_last().take(n) =~= w.take(n));
        assert(w.drop_last().skip(n) =~= w.skip(n).drop_last());
        assert(w.skip(n).last() == w.last());
        lemma_occurrences_split(w.drop_last(), n, v);
    }
}

/// Adding an entry keeps the order.
proof fn lemma_with_entry(w: Seq<(Instant, u64)>, now: Instant, data: u64)
    requires
        in_order(w),
    ensures
        in_order(with_entry(w, now, data)),
        with_entry(w, now, data).len() > 0,
        forall|i: int|
            0 <= i < with_entry(w, now, data).len() ==> (#[trigger] with_entry(w, now, data)[i]).0
                == now || w.contains(with_entry(w, now, data)[i]),
    decreases w.len(),
{
    let t = with_entry(w, now, data);
    if w.len() == 0 || w.last().0.nanos < now.nanos {
        assert(t =~= w.push((now, data)));
        assert forall|i: int| 0 <= i < t.len() implies (#[trigger] t[i]).0 == now || w.contains(
            t[i],
        ) by {
            if i < w.len() {
                assert(t[i] == w[i]);
            }
        }
    } else if w.last().0.nanos == now.nanos {
        assert(t =~= w.drop_last().push((now, data)));
        assert forall|i: int| 0 <= i < t.len() implies (#[trigger] t[i]).0 == now || w.contains(
            t[i],
        ) by {
            if i < w.len() - 1 {
                assert(t[i] == w[i]);
            }
        }
    } else {
        let u = with_entry(w.drop_last(), now, data);
        lemma_with_entry(w.drop_last(), now, data);
        assert(t =~= u.push(w.last()));
        assert forall|i: int| 0 <= i < t.len() implies (#[trigger] t[i]).0 == now || w.contains(
            t[i],
        ) by {
            if i < u.len() {
                assert(t[i] == u[i]);
                if u[i].0 != now {
                    let k = choose|k: int|
                        0 <= k < w.drop_last().len() && w.drop_last()[k] == u[i];
                    assert(w[k] == t[i]);
                }
            } else {
                assert(w[w.len() - 1] == t[i]);
            }
        }
        assert forall|i: int, j: int| 0 <= i < j < t.len() implies (#[trigger] t[i]).0.nanos < (
        #[trigger] t[j]).0.nanos by {
            if j < u.len() {
                assert(t[i] == u[i] && t[j] == u[j]);
            } else {
                assert(t[i] == u[i]);
                if u[i].0 != now {
                    let k = choose|k: int|
                        0 <= k < w.drop_last().len() && w.drop_last()[k] == u[i];
                    assert(w[k] == u[i]);
                    assert(w[k].0.nanos < w[w.len() - 1].0.nanos);
                }
            }
        }
    }
}

/// An entry adds at most one occurrence, of its value.
proof fn lemma_with_entry_occurrences(w: Seq<(Instant, u64)>, now: Instant, data: u64, v: u64)
    ensures
        occurrences(with_entry(w, now, data), v) <= occurrences(w, v) + if v == data {
            1nat
        } else {
            0
        },
        (forall|i: int| 0 <= i < w.len() ==> (#[trigger] w[i]).0.nanos != now.nanos) ==> occurrences(
            with_entry(w, now, data),
            v,
        ) == occurrences(w, v) + if v == data {
            1nat
        } else {
            0
        },
    decreases w.len(),
{
    let t = with_entry(w, now, data);
    if w.len() == 0 || w.last().0.nanos < now.nanos {
        assert(t.drop_last() =~= w);
    } else if w.last().0.nanos == now.nanos {
        assert(t.drop_last() =~= w.drop_last());
        assert(w[w.len() - 1].0.nanos == now.nanos);
    } else {
        lemma_with_entry_occurrences(w.drop_last(), now, data, v);
        assert(t.drop_last() =~= with_entry(w.drop_last(), now, data));
        assert forall|i: int|
            (forall|k: int| 0 <= k < w.len() ==> (#[trigger] w[k]).0.nanos != now.nanos) && 0 <= i
                < w.drop_last().len() implies (#[trigger] w.drop_last()[i]).0.nanos != now.nanos by {
            assert(w.drop_last()[i] == w[i]);
        }
    }
}

/// As long as no two values are added at the same point in time, each value
/// counts exactly as often as it occurs in the window.
pub proof fn counts_stay_exact(m: WindowModel, now: Instant, data: u64)
    requires
        m.wf(),
        m.exact(),
        forall|i: int| 0 <= i < m.window.len() ==> (#[trigger] m.window[i]).0.nanos != now.nanos,
        m.at(now).values.contains_key(data) ==> m.at(now).values[data] < u32::MAX,
    ensures
        m.at(now).exact(),
        m.added(now, data).exact(),
{
    let n = outdated(m.window, now.nanos - m.span.nanos) as int;
    lemma_outdated(m.window, now.nanos - m.span.nanos);
    let a = m.at(now);
    assert forall|v: u64|
        (#[trigger] a.values.contains_key(v)) == (occurrences(a.window, v) > 0) && (
        a.values.contains_key(v) ==> a.values[v] == occurrences(a.window, v)) by {
        lemma_occurrences_split(m.window, n, v);
        assert(m.values.contains_key(v) == (occurrences(m.window, v) > 0));
    }
    let b = m.added(now, data);
    assert forall|i: int| 0 <= i < a.window.len() implies (#[trigger] a.window[i]).0.nanos
        != now.nanos by {
        assert(a.window[i] == m.window[i + n]);
    }
    assert forall|v: u64|
        (#[trigger] b.values.contains_key(v)) == (occurrences(b.window, v) > 0) && (
        b.values.contains_key(v) ==> b.values[v] == occurrences(b.window, v)) by {
        lemma_with_entry_occurrences(a.window, now, data, v);
        assert(a.values.contains_key(v) == (occurrences(a.window, v) > 0));
    }
}

proof fn lemma_outdated(w: Seq<(Instant, u64)>, lowest: int)
    ensures
        outdated(w, lowest) <= w.len(),
        forall|i: int| 0 <= i < outdated(w, lowest) ==> (#[trigger] w[i]).0.nanos < lowest,
    decreases w.len(),
{
    if w.len() > 0 && w[0].0.nanos < lowest {
        lemma_outdated(w.skip(1), lowest);
        assert forall|i: int| 0 <= i < outdated(w, lowest) implies (#[trigger] w[i]).0.nanos
            < lowest by {
            if i > 0 {
                assert(w.skip(1)[i - 1] == w[i]);
            }
        }
    }
}

/// The largest value is the largest one of the window, and there is one exactly
/// when the window is not empty, where each value counts as often as it occurs.
pub proof fn largest_is_the_maximum_of_the_window(m: WindowModel)
    requires
        m.wf(),
        m.exact(),
        m.values.dom().finite(),
    ensures
        m.largest() is None <==> m.window.len() == 0,
        m.largest() matches Some(v) ==> (exists|i: int|
            0 <= i < m.window.len() && (#[trigger] m.window[i]).1 == v) && (forall|i: int|
            0 <= i < m.window.len() ==> (#[trigger] m.window[i]).1 <= v),
{
    assert forall|i: int| 0 <= i < m.window.len() implies m.values.contains_key(
        (#[trigger] m.window[i]).1,
    ) by {
        lemma_occurs(m.window, i);
        assert(occurrences(m.window, m.window[i].1) > 0);
    }
    if m.window.len() > 0 {
        assert(m.values.dom().contains(m.window[0].1));
    } else {
        assert forall|v: u64| !m.values.dom().contains(v) by {
            assert(occurrences(m.window, v) == 0);
            assert(m.values.contains_key(v) == (occurrences(m.window, v) > 0));
        }
        assert(m.values.dom() =~= Set::<u64>::empty());
    }
    if m.values.dom() != Set::<u64>::empty() {
        lemma_largest_exists(m.values);
        let v = m.largest()->0;
        assert(is_largest(m.values, v));
        lemma_occurs_somewhere(m.window, v);
    }
}

proof fn lemma_occurs(w: Seq<(Instant, u64)>, i: int)
    requires
        0 <= i < w.len(),
    ensures
        occurrences(w, w[i].1) > 0,
    decreases w.len(),
{
    if i < w.len() - 1 {
        assert(w.drop_last()[i] == w[i]);
        lemma_occurs(w.drop_last(), i);
    }
}

proof fn lemma_occurs_somewhere(w: Seq<(Instant, u64)>, v: u64)
    requires
        occurrences(w, v) > 0,
    ensures
        exists|i: int| 0 <= i < w.len() && (#[trigger] w[i]).1 == v,
    decreases w.len(),
{
    if w.last().1 == v {
        assert(w[w.len() - 1].1 == v);
    } else {
        lemma_occurs_somewhere(w.drop_last(), v);
        let i = choose|i: int|
            0 <= i < w.drop_last().len() && (#[trigger] w.drop_last()[i]).1 == v;
        assert(w[i].1 == v);
    }
}

/// Something that counts is the largest.
pub proof fn lemma_largest_exists(values: Map<u64, u32>)
    requires
        values.dom().finite(),
        values.dom() != Set::<u64>::empty(),
    ensures
        exists|m: u64| is_largest(values, m),
{
    let d = values.dom();
    lemma_has_largest(d);
    let b = choose|b: u64| d.contains(b) && forall|v: u64| d.contains(v) ==> v <= b;
    assert(values.contains_key(b));
    assert forall|v: u64| #[trigger] values.contains_key(v) implies v <= b by {
        assert(d.contains(v));
    }
    assert(is_largest(values, b));
}

proof fn lemma_has_largest(s: Set<u64>)
    requires
        s.finite(),
        s != Set::<u64>::empty(),
    ensures
        exists|m: u64| s.contains(m) && forall|v: u64| s.contains(v) ==> v <= m,
    decreases s.len(),
{
    if s.len() == 0 {
        assert(s =~= Set::<u64>::empty());
    }
    let a = s.choose();
    let rest = s.remove(a);
    if rest == Set::<u64>::empty() {
        assert forall|v: u64| s.contains(v) implies v <= a by {
            if v != a {
                assert(rest.contains(v));
            }
        }
    } else {
        lemma_has_largest(rest);
        let m = choose|m: u64| rest.contains(m) && forall|v: u64| rest.contains(v) ==> v <= m;
        let b = if a > m {
            a
        } else {
            m
        };
        assert(s.contains(b));
        assert forall|v: u64| s.contains(v) implies v <= b by {
            if v != a {
                assert(rest.contains(v));
            }
        }
    }
}

/// Whether an entry is not older than `lowest`.
pub open spec fn is_recent(lowest: int) -> spec_fn((Instant, u64)) -> bool {
    |e: (Instant, u64)| e.0.nanos >= lowest
}

proof fn lemma_outdated_steps(w: Seq<(Instant, u64)>, first: int, second: int)
    requires
        first <= second,
    ensures
        outdated(w, first) <= outdated(w, second) <= w.len(),
        outdated(w.skip(outdated(w, first) as int), second) == outdated(w, second) - outdated(
            w,
            first,
        ),
    decreases w.len(),
{
    if w.len() > 0 && w[0].0.nanos < first {
        let rest = w.skip(1);
        lemma_outdated_steps(rest, first, second);
        let n = outdated(rest, first) as int;
        assert(rest.skip(n) =~= w.skip(n + 1));
    } else {
        lemma_outdated(w, second);
        assert(w.skip(0) =~= w);
    }
}

/// The passing of time can be noted in steps: a step to a point in time and then one to
/// a later point is the same as one step there. Noting the same point again changes
/// nothing.
pub proof fn steps_of_time_add_up(m: WindowModel, first: Instant, second: Instant)
    requires
        first.nanos <= second.nanos,
    ensures
        m.at(first).at(second) == m.at(second),
        m.at(first).at(first) == m.at(first),
{
    lemma_two_steps(m, first, second);
    lemma_two_steps(m, first, first);
}

proof fn lemma_two_steps(m: WindowModel, first: Instant, second: Instant)
    requires
        first.nanos <= second.nanos,
    ensures
        m.at(first).at(second) == m.at(second),
{
    let w = m.window;
    let a = outdated(w, first.nanos - m.span.nanos) as int;
    let b = outdated(w, second.nanos - m.span.nanos) as int;
    lemma_outdated_steps(w, first.nanos - m.span.nanos, second.nanos - m.span.nanos);
    let twice = m.at(first).at(second);
    let once = m.at(second);
    assert(w.skip(a).skip(b - a) =~= w.skip(b));
    let rest = w.skip(a).take(b - a);
    assert forall|v: u64| occurrences(w.take(b), v) == occurrences(w.take(a), v) + #[trigger]
        occurrences(rest, v) by {
        lemma_occurrences_split(w.take(b), a, v);
        assert(w.take(b).take(a) =~= w.take(a));
        assert(w.take(b).skip(a) =~= rest);
    }
    assert(twice.values =~= once.values) by {
        assert forall|v: u64| twice.values.contains_key(v) == once.values.contains_key(v) && (
        once.values.contains_key(v) ==> twice.values[v] == once.values[v]) by {
            assert(occurrences(w.take(b), v) == occurrences(w.take(a), v) + occurrences(rest, v));
        }
    }
}

/// What is left at a point in time are the entries that are not older than the span of
/// the window, in the order in which they were.
pub proof fn recent_entries_are_left(m: WindowModel, now: Instant)
    requires
        m.wf(),
    ensures
        m.at(now).window == m.window.filter(is_recent(now.nanos - m.span.nanos)),
{
    let w = m.window;
    let lowest = now.nanos - m.span.nanos;
    let n = outdated(w, lowest) as int;
    lemma_outdated(w, lowest);
    lemma_outdated_end(w, lowest);
    assert forall|i: int| 0 <= i < w.len() implies is_recent(lowest)(#[trigger] w[i]) == (i
        >= n) by {
        if i > n {
            assert(w[n].0.nanos < w[i].0.nanos);
        }
    }
    lemma_filter_tail(w, is_recent(lowest), n, w.len() as int);
    assert(w.take(w.len() as int) =~= w);
    assert(w.subrange(n, w.len() as int) =~= w.skip(n));
    if n == w.len() {
        assert(w.skip(n) =~= Seq::<(Instant, u64)>::empty());
    }
}

proof fn lemma_outdated_end(w: Seq<(Instant, u64)>, lowest: int)
    ensures
        outdated(w, lowest) < w.len() ==> w[outdated(w, lowest) as int].0.nanos >= lowest,
    decreases w.len(),
{
    if w.len() > 0 && w[0].0.nanos < lowest {
        lemma_outdated_end(w.skip(1), lowest);
    }
}

proof fn lemma_filter_tail(
    w: Seq<(Instant, u64)>,
    f: spec_fn((Instant, u64)) -> bool,
    n: int,
    k: int,
)
    requires
        0 <= n <= w.len(),
        0 <= k <= w.len(),
        forall|i: int| 0 <= i < w.len() ==> f(#[trigger] w[i]) == (i >= n),
    ensures
        w.take(k).filter(f) == if k <= n {
            Seq::empty()
        } else {
            w.subrange(n, k)
        },
    decreases k,
{
    reveal(Seq::filter);
    if k > 0 {
        lemma_filter_tail(w, f, n, k - 1);
        assert(w.take(k).drop_last() =~= w.take(k - 1));
        assert(w.take(k).last() == w[k - 1]);
        assert(f(w[k - 1]) == (k - 1 >= n));
        if k - 1 >= n {
            assert(w.subrange(n, k) =~= w.subrange(n, k - 1).push(w[k - 1]));
            if k - 1 == n {
                assert(w.subrange(n, k - 1) =~= Seq::<(Instant, u64)>::empty());
            }
        }
    } else {
        assert(w.take(0).filter(f) =~= Seq::<(Instant, u64)>::empty());
    }
}

/// A call on a window.
pub enum WindowCall {
    /// The passing of time is noted.
    Elapsed(Instant),
    /// A value is added.
    Added(Instant, u64),
}

/// A window after some calls.
pub open spec fn after_calls(m: WindowModel, calls: Seq<WindowCall>) -> WindowModel
    decreases calls.len(),
{
    if calls.len() == 0 {
        m
    } else {
        let before = after_calls(m, calls.drop_last());
        match calls.last() {
            WindowCall::Elapsed(now) => before.at(now),
            WindowCall::Added(now, data) => before.added(now, data),
        }
    }
}

/// No two values are added at one point in time.
pub open spec fn distinct_additions(calls: Seq<WindowCall>) -> bool {
    forall|i: int, j: int|
        0 <= i < j < calls.len() && (#[trigger] calls[i]) is Added && (#[trigger] calls[j])
            is Added ==> calls[i]->Added_0.nanos != calls[j]->Added_0.nanos
}

/// The largest value is the maximum of the window, whatever was done with it: after any
/// calls on a new window that add no two values at one point in time, there is a largest
/// value unless the window is empty, it is in the window, and no value of the window is
/// above it.
pub proof fn largest_is_the_maximum_after_any_calls(span: Duration, calls: Seq<WindowCall>)
    requires
        distinct_additions(calls),
        calls.len() <= u32::MAX,
    ensures
        ({
            let m = after_calls(
                WindowModel { window: Seq::empty(), values: Map::empty(), span },
                calls,
            );
            &&& m.wf()
            &&& m.largest() is None <==> m.window.len() == 0
            &&& m.largest() matches Some(v) ==> (exists|i: int|
                0 <= i < m.window.len() && (#[trigger] m.window[i]).1 == v) && (forall|i: int|
                0 <= i < m.window.len() ==> (#[trigger] m.window[i]).1 <= v)
        }),
{
    lemma_calls(span, calls);
    largest_is_the_maximum_of_the_window(
        after_calls(WindowModel { window: Seq::empty(), values: Map::empty(), span }, calls),
    );
}

proof fn lemma_calls(span: Duration, calls: Seq<WindowCall>)
    requires
        distinct_additions(calls),
        calls.len() <= u32::MAX,
    ensures
        ({
            let m = after_calls(
                WindowModel { window: Seq::empty(), values: Map::empty(), span },
                calls,
            );
            &&& m.wf()
            &&& m.exact()
            &&& m.values.dom().finite()
            &&& m.window.len() <= calls.len()
            &&& forall|i: int|
                0 <= i < m.window.len() ==> exists|j: int|
                    0 <= j < calls.len() && (#[trigger] calls[j]) is Added && calls[j]->Added_0
                        == (#[trigger] m.window[i]).0
        }),
    decreases calls.len(),
{
    let new = WindowModel { window: Seq::empty(), values: Map::empty(), span };
    let m = after_calls(new, calls);
    if calls.len() > 0 {
        let front = calls.drop_last();
        assert forall|i: int, j: int|
            0 <= i < j < front.len() && (#[trigger] front[i]) is Added && (#[trigger] front[j])
                is Added implies front[i]->Added_0.nanos != front[j]->Added_0.nanos by {
            assert(front[i] == calls[i] && front[j] == calls[j]);
        }
        lemma_calls(span, front);
        let before = after_calls(new, front);
        let last = calls.len() - 1;
        let now = match calls.last() {
            WindowCall::Elapsed(now) => now,
            WindowCall::Added(now, _) => now,
        };
        let n = outdated(before.window, now.nanos - before.span.nanos) as int;
        lemma_outdated(before.window, now.nanos - before.span.nanos);
        let a = before.at(now);
        assert forall|i: int| 0 <= i < a.window.len() implies exists|j: int|
            0 <= j < calls.len() && (#[trigger] calls[j]) is Added && calls[j]->Added_0 == (
            #[trigger] a.window[i]).0 by {
            assert(a.window[i] == before.window[i + n]);
            let j = choose|j: int|
                0 <= j < front.len() && (#[trigger] front[j]) is Added && front[j]->Added_0
                    == before.window[i + n].0;
            assert(calls[j] == front[j]);
        }
        assert(a.values.dom().subset_of(before.values.dom()));
        vstd::set_lib::lemma_len_subset(a.values.dom(), before.values.dom());
        lemma_at_exact(before, now);
        if let WindowCall::Added(now, data) = calls.last() {
            assert forall|i: int| 0 <= i < before.window.len() implies (
            #[trigger] before.window[i]).0.nanos != now.nanos by {
                let j = choose|j: int|
                    0 <= j < front.len() && (#[trigger] front[j]) is Added && front[j]->Added_0
                        == before.window[i].0;
                assert(calls[j] == front[j]);
                assert(calls[last] is Added);
            }
            lemma_occurrences_len(a.window, data);
            counts_stay_exact(before, now, data);
            lemma_with_entry(a.window, now, data);
            lemma_with_entry_len(a.window, now, data);
            assert(m.values.dom() =~= a.values.dom().insert(data));
            assert forall|i: int| 0 <= i < m.window.len() implies exists|j: int|
                0 <= j < calls.len() && (#[trigger] calls[j]) is Added && calls[j]->Added_0 == (
                #[trigger] m.window[i]).0 by {
                if m.window[i].0 == now {
                    assert(calls[last] is Added);
                } else {
                    let k = choose|k: int| 0 <= k < a.window.len() && a.window[k] == m.window[i];
                    assert(a.window[k].0 == m.window[i].0);
                }
            }
            lemma_exact_wf(m);
        }
    } else {
        lemma_exact_wf(m);
    }
}

/// Exact counts of entries that are in order make a well-formed window.
proof fn lemma_exact_wf(m: WindowModel)
    requires
        in_order(m.window),
        m.exact(),
    ensures
        m.wf(),
{
    assert forall|v: u64| #[trigger] occurrences(m.window, v) > 0 implies m.values.contains_key(v)
        && m.values[v] >= occurrences(m.window, v) by {
        assert(m.values.contains_key(v) == (occurrences(m.window, v) > 0));
    }
}

proof fn lemma_at_exact(m: WindowModel, now: Instant)
    requires
        m.wf(),
        m.exact(),
    ensures
        m.at(now).exact(),
        m.at(now).wf(),
{
    let n = outdated(m.window, now.nanos - m.span.nanos) as int;
    lemma_outdated(m.window, now.nanos - m.span.nanos);
    let a = m.at(now);
    assert forall|v: u64|
        (#[trigger] a.values.contains_key(v)) == (occurrences(a.window, v) > 0) && (
        a.values.contains_key(v) ==> a.values[v] == occurrences(a.window, v)) by {
        lemma_occurrences_split(m.window, n, v);
        assert(m.values.contains_key(v) == (occurrences(m.window, v) > 0));
    }
    assert(in_order(a.window)) by {
        assert forall|i: int, j: int| 0 <= i < j < a.window.len() implies (
        #[trigger] a.window[i]).0.nanos < (#[trigger] a.window[j]).0.nanos by {
            assert(a.window[i] == m.window[i + n] && a.window[j] == m.window[j + n]);
        }
    }
    lemma_exact_wf(a);
}

proof fn lemma_occurrences_len(w: Seq<(Instant, u64)>, v: u64)
    ensures
        occurrences(w, v) <= w.len(),
    decreases w.len(),
{
    if w.len() > 0 {
        lemma_occurrences_len(w.drop_last(), v);
    }
}

proof fn lemma_with_entry_len(w: Seq<(Instant, u64)>, now: Instant, data: u64)
    ensures
        with_entry(w, now, data).len() <= w.len() + 1,
    decreases w.len(),
{
    if w.len() > 0 {
        lemma_with_entry_len(w.drop_last(), now, data);
    }
}

/// A value that is added is the entry of its point in time, whether or not there was one. All the
/// other entries stay, and each point in time has one.
pub proof fn entries_are_those_of_their_instant(
    w: Seq<(Instant, u64)>,
    now: Instant,
    data: u64,
    e: (Instant, u64),
)
    requires
        in_order(w),
    ensures
        in_order(with_entry(w, now, data)),
        with_entry(w, now, data).contains(e) <==> e == (now, data) || (w.contains(e) && e.0.nanos
            != now.nanos),
    decreases w.len(),
{
    let r = with_entry(w, now, data);
    if w.len() > 0 {
        let front = w.drop_last();
        assert(in_order(front)) by {
            assert forall|i: int, j: int| 0 <= i < j < front.len() implies (
            #[trigger] front[i]).0.nanos < (#[trigger] front[j]).0.nanos by {
                assert(w[i].0.nanos < w[j].0.nanos);
            }
        }
        assert forall|i: int| 0 <= i < front.len() implies (#[trigger] front[i]).0.nanos
            < w.last().0.nanos by {
            assert(w[i].0.nanos < w[w.len() - 1].0.nanos);
        }
        lemma_entry_at_end(w, e);
        if w.last().0.nanos < now.nanos {
            assert(r.drop_last() =~= w);
            lemma_entry_at_end(r, e);
            assert forall|i: int, j: int| 0 <= i < j < r.len() implies (#[trigger] r[i]).0.nanos < (
            #[trigger] r[j]).0.nanos by {
                if i < front.len() {
                    assert(front[i] == w[i]);
                }
                if j < w.len() {
                    assert(w[i].0.nanos < w[j].0.nanos);
                } else if i < front.len() {
                    assert(w[i].0.nanos < w[w.len() - 1].0.nanos);
                }
            }
            if w.contains(e) {
                let i = choose|i: int| 0 <= i < w.len() && w[i] == e;
                if i < front.len() {
                    assert(front[i].0.nanos < w.last().0.nanos);
                }
            }
        } else if w.last().0.nanos == now.nanos {
            assert(r.drop_last() =~= front);
            lemma_entry_at_end(r, e);
            assert forall|i: int, j: int| 0 <= i < j < r.len() implies (#[trigger] r[i]).0.nanos < (
            #[trigger] r[j]).0.nanos by {
                assert(r[i] == front[i]);
                if j < front.len() {
                    assert(r[j] == front[j]);
                }
            }
            if front.contains(e) {
                let i = choose|i: int| 0 <= i < front.len() && front[i] == e;
                assert(front[i].0.nanos < w.last().0.nanos);
            }
        } else {
            entries_are_those_of_their_instant(front, now, data, e);
            let q = with_entry(front, now, data);
            assert(r.drop_last() =~= q);
            lemma_entry_at_end(r, e);
            assert forall|i: int, j: int| 0 <= i < j < r.len() implies (#[trigger] r[i]).0.nanos < (
            #[trigger] r[j]).0.nanos by {
                assert(r[i] == q[i]);
                if j < q.len() {
                    assert(r[j] == q[j]);
                } else {
                    entries_are_those_of_their_instant(front, now, data, q[i]);
                    assert(q.contains(q[i]));
                    if q[i] != (now, data) {
                        let k = choose|k: int| 0 <= k < front.len() && front[k] == q[i];
                        assert(front[k].0.nanos < w.last().0.nanos);
                    }
                }
            }
        }
    } else {
        assert(r.drop_last() =~= w);
        lemma_entry_at_end(r, e);
    }
}

proof fn lemma_entry_at_end(s: Seq<(Instant, u64)>, e: (Instant, u64))
    requires
        s.len() > 0,
    ensures
        s.contains(e) <==> s.drop_last().contains(e) || s.last() == e,
{
    if s.contains(e) && s.last() != e {
        let i = choose|i: int| 0 <= i < s.len() && s[i] == e;
        assert(s.drop_last()[i] == e);
    }
    if s.drop_last().contains(e) {
        let i = choose|i: int| 0 <= i < s.drop_last().len() && s.drop_last()[i] == e;
        assert(s[i] == e);
    }
    assert(s[s.len() - 1] == s.last());
}

/// The entries of a window after a value is added are the value and those that are not older than
/// the span, except for one of the same point in time.
pub proof fn added_values_join_the_recent_ones(
    m: WindowModel,
    now: Instant,
    data: u64,
    e: (Instant, u64),
)
    requires
        m.wf(),
        m.at(now).wf(),
    ensures
        m.added(now, data).window.contains(e) <==> e == (now, data) || (m.window.contains(e)
            && e.0.nanos != now.nanos && e.0.nanos + m.span.nanos >= now.nanos),
        m.added(now, data).span == m.span,
        m.at(now).span == m.span,
{
    broadcast use vstd::seq_lib::group_filter_ensures;

    let f = is_recent(now.nanos - m.span.nanos);
    recent_entries_are_left(m, now);
    entries_are_those_of_their_instant(m.at(now).window, now, data, e);
    let r = m.window.filter(f);
    lemma_recent_items(m.window, f, e);
    assert(f(e) <==> e.0.nanos >= now.nanos - m.span.nanos);
}

proof fn lemma_recent_items(s: Seq<(Instant, u64)>, f: spec_fn((Instant, u64)) -> bool, e: (Instant, u64))
    ensures
        s.filter(f).contains(e) <==> s.contains(e) && f(e),
    decreases s.len(),
{
    reveal(Seq::filter);
    if s.len() > 0 {
        let front = s.drop_last();
        lemma_recent_items(front, f, e);
        lemma_entry_at_end(s, e);
        if f(s.last()) {
            let r = s.filter(f);
            assert(r.drop_last() =~= front.filter(f));
            lemma_entry_at_end(r, e);
        }
    }
}

/// A value counts once more when it is added; a value counts less by the number of its entries
/// that are too old, and not at all when none is left. The other values count as before.
pub proof fn values_count_until_they_are_old(m: WindowModel, now: Instant, data: u64, v: u64)
    requires
        m.at(now).values.contains_key(data) ==> m.at(now).values[data] < u32::MAX,
    ensures
        ({
            let a = m.at(now);
            let b = m.added(now, data);
            let gone = occurrences(m.window.take(m.window.len() - a.window.len()), v);
            let times = |n: WindowModel, v: u64|
                if n.values.contains_key(v) {
                    n.values[v] as int
                } else {
                    0
                };
            &&& gone <= times(m, v) ==> times(a, v) + gone == times(m, v)
            &&& gone >= times(m, v) ==> times(a, v) == 0
            &&& v == data ==> times(b, v) == times(a, v) + 1
            &&& v != data ==> times(b, v) == times(a, v)
        }),
{
    lemma_outdated(m.window, now.nanos - m.span.nanos);
}

} // verus!
