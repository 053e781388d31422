//! Joins the group with the closest rate. This supposes that the congestion
//! window of a receiver reflects its real rate.

use vstd::prelude::*;

use crate::bytes::copy_bytes;
use crate::bytes::same_bytes;
use crate::flexicast::announce::optional_bytes;
use crate::flexicast::FlexicastAttributes;
use crate::flexicast::FlexicastModel;

verus! {

/// How far two windows are apart.
pub open spec fn apart(a: usize, b: usize) -> int {
    if a >= b {
        a - b
    } else {
        b - a
    }
}

/// Whether the group at the position `i` is the first one with the closest
/// window.
pub open spec fn is_closest(groups: Seq<(Seq<u8>, usize)>, cwnd: usize, i: int) -> bool {
    &&& 0 <= i < groups.len()
    &&& forall|j: int|
        0 <= j < groups.len() ==> apart(cwnd, groups[i].1) <= apart(
            cwnd,
            (#[trigger] groups[j]).1,
        )
    &&& forall|j: int|
        0 <= j < i ==> apart(cwnd, groups[i].1) < apart(cwnd, (#[trigger] groups[j]).1)
}

/// There is only one such group.
pub proof fn closest_group_is_unique(
    groups: Seq<(Seq<u8>, usize)>,
    cwnd: usize,
    i: int,
    j: int,
)
    requires
        is_closest(groups, cwnd, i),
        is_closest(groups, cwnd, j),
    ensures
        i == j,
{
    if i < j {
        assert(apart(cwnd, groups[j].1) < apart(cwnd, groups[i].1));
    } else if j < i {
        assert(apart(cwnd, groups[i].1) < apart(cwnd, groups[j].1));
    }
}

/// How far two windows are apart.
fn distance(a: usize, b: usize) -> (r: usize)
    ensures
        r == apart(a, b),
{
    if a >= b {
        a - b
    } else {
        b - a
    }
}

impl FlexicastModel {
    /// Whether the heuristic has what it needs: a group, and a channel that was
    /// joined.
    pub open spec fn kmeans_ready(self) -> bool {
        self.congestion.received matches Some(info) ==> info.mc_cwnds.len() > 0
            && self.active() is Some
    }

    /// The channel that the heuristic wants to join, where it is not the current
    /// one: that of the closest group.
    pub open spec fn kmeans_choice(self) -> Option<Seq<u8>> {
        match self.congestion.received {
            None => None,
            Some(info) => {
                let i = choose|i: int| is_closest(info.mc_cwnds, info.cwnd, i);
                let id = info.mc_cwnds[i].0;
                if id == self.active()->0.channel_id {
                    None
                } else {
                    Some(id)
                }
            },
        }
    }
}

/// The difference of two windows, whichever is the larger one.
pub proof fn distance_is_the_difference(a: usize, b: usize)
    ensures
        apart(a, b) == apart(b, a),
        a <= b ==> apart(a, b) == b - a,
        b <= a ==> apart(a, b) == a - b,
{
}

/// Some group of a list is the first one with the closest window.
proof fn lemma_some_group_is_closest(groups: Seq<(Seq<u8>, usize)>, cwnd: usize) -> (i: int)
    requires
        groups.len() > 0,
    ensures
        is_closest(groups, cwnd, i),
    decreases groups.len(),
{
    let last = groups.len() - 1;
    if last == 0 {
        0
    } else {
        let front = groups.drop_last();
        let i = lemma_some_group_is_closest(front, cwnd);
        assert forall|j: int| 0 <= j < last implies apart(cwnd, groups[i].1) <= apart(
            cwnd,
            (#[trigger] groups[j]).1,
        ) by {
            assert(front[j] == groups[j]);
        }
        assert forall|j: int| 0 <= j < i implies apart(cwnd, groups[i].1) < apart(
            cwnd,
            (#[trigger] groups[j]).1,
        ) by {
            assert(front[j] == groups[j]);
        }
        if apart(cwnd, groups[last].1) < apart(cwnd, groups[i].1) {
            last
        } else {
            i
        }
    }
}

/// The channel on which the heuristic wants the receiver, the current one or the one that
/// it gives, is that of a group `g` whose window is no further from that of the receiver
/// than the window of any other group. Of several such groups it is the first one. Without a report nothing changes, and the current channel is never given.
pub proof fn no_group_is_closer(m: FlexicastModel) -> (g: int)
    requires
        m.kmeans_ready(),
    ensures
        m.congestion.received is None ==> m.kmeans_choice() is None,
        m.kmeans_choice() is Some ==> m.kmeans_choice() != Some(m.active()->0.channel_id),
        m.congestion.received matches Some(info) ==> {
            let cwnd = info.cwnd as int;
            let id = if m.kmeans_choice() is Some {
                m.kmeans_choice()->0
            } else {
                m.active()->0.channel_id
            };
            &&& 0 <= g < info.mc_cwnds.len()
            &&& info.mc_cwnds[g].0 == id
            &&& forall|h: int|
                0 <= h < info.mc_cwnds.len() ==> {
                    let w = (#[trigger] info.mc_cwnds[h]).1 as int;
                    let v = info.mc_cwnds[g].1 as int;
                    &&& cwnd - v <= cwnd - w || cwnd - v <= w - cwnd
                    &&& v - cwnd <= cwnd - w || v - cwnd <= w - cwnd
                }
            &&& forall|h: int|
                0 <= h < g ==> {
                    ||| (#[trigger] info.mc_cwnds[h]).1 < info.mc_cwnds[g].1 && info.mc_cwnds[h].1
                        + info.mc_cwnds[g].1 < 2 * cwnd
                    ||| info.mc_cwnds[h].1 > info.mc_cwnds[g].1 && info.mc_cwnds[h].1
                        + info.mc_cwnds[g].1 > 2 * cwnd
                }
        },
{
    match m.congestion.received {
        None => 0,
        Some(info) => {
            let i = lemma_some_group_is_closest(info.mc_cwnds, info.cwnd);
            let j = choose|j: int| is_closest(info.mc_cwnds, info.cwnd, j);
            closest_group_is_unique(info.mc_cwnds, info.cwnd, i, j);
            i
        },
    }
}

/// The channel to join, where it is not the current one: that of the group with
/// the window closest to that of the receiver.
pub fn kmeans_should_change_channel(flexicast: &FlexicastAttributes) -> (r: Option<Vec<u8>>)
    requires
        flexicast@.kmeans_ready(),
    ensures
        optional_bytes(r) == flexicast@.kmeans_choice(),
{
    match &flexicast.congestion_state.received_congestion_info {
        None => None,
        Some(info) => {
            let ghost groups = info@.mc_cwnds;
            let cwnd: usize = info.cwnd;
            let mut best: usize = 0;
            let mut i: usize = 0;
            while i < info.mc_cwnds.len()
                invariant
                    i <= info.mc_cwnds@.len(),
                    info.mc_cwnds@.len() > 0,
                    groups == info@.mc_cwnds,
                    cwnd == info.cwnd,
                    best < info.mc_cwnds@.len(),
                    best <= i,
                    i > 0 ==> best < i,
                    forall|j: int|
                        0 <= j < i ==> apart(cwnd, groups[best as int].1) <= apart(
                            cwnd,
                            (#[trigger] groups[j]).1,
                        ),
                    forall|j: int|
                        0 <= j < best ==> apart(cwnd, groups[best as int].1) < apart(
                            cwnd,
                            (#[trigger] groups[j]).1,
                        ),
                decreases info.mc_cwnds@.len() - i,
            {
                assert(groups[i as int].1 == info.mc_cwnds@[i as int].1);
                assert(groups[best as int].1 == info.mc_cwnds@[best as int].1);
                if distance(cwnd, info.mc_cwnds[i].1) < distance(cwnd, info.mc_cwnds[best].1) {
                    best = i;
                }
                i += 1;
            }
            proof {
                assert(flexicast@.congestion.received == Some(info@));
                assert(is_closest(info@.mc_cwnds, info@.cwnd, best as int));
                let i = choose|i: int| is_closest(info@.mc_cwnds, info@.cwnd, i);
                closest_group_is_unique(info@.mc_cwnds, info@.cwnd, i, best as int);
            }
            assert(groups[best as int].0 == info.mc_cwnds@[best as int].0@);
            let id: &Vec<u8> = &info.mc_cwnds[best].0;
            match flexicast.get_mc_announce_data_active() {
                Some(active) => {
                    if same_bytes(&active.channel_id, id) {
                        return None;
                    }
                },
                None => {},
            }
            Some(copy_bytes(id))
        },
    }
}

} // verus!
