//! The decision of the EXP3 heuristic.

use vstd::arithmetic::power2::lemma2_to64;
use vstd::arithmetic::power2::lemma_pow2_unfold;
use vstd::arithmetic::power2::pow2;
use vstd::prelude::*;

use crate::bytes::copy_bytes;
use crate::bytes::same_bytes;
use crate::flexicast::announce::announced;
use crate::flexicast::announce::optional_bytes;
use crate::flexicast::congestion::exp3::action_of;
use crate::flexicast::congestion::exp3::announced_channel_is_ordered;
use crate::flexicast::congestion::exp3::banned_rounds;
use crate::flexicast::congestion::exp3::by_bitrate;
use crate::flexicast::congestion::exp3::ids;
use crate::flexicast::congestion::exp3::instance::valid_reward;
use crate::flexicast::congestion::exp3::instance::EXP3Error;
use crate::flexicast::congestion::exp3::instance::InstanceModel;
use crate::flexicast::congestion::exp3::number_of_action;
use crate::flexicast::congestion::exp3::order_channels;
use crate::flexicast::congestion::exp3::views;
use crate::flexicast::congestion::exp3::Action;
use crate::flexicast::congestion::exp3::EXP3State;
use crate::flexicast::congestion::exp3::Exp3Model;
use crate::flexicast::congestion::CongestionModel;
use crate::flexicast::FlexicastAttributes;
use crate::flexicast::FlexicastModel;
use crate::rate::Float64;
use crate::time::Instant;

verus! {

/// What the heuristic gets from outside: what is computed in floating point, and
/// the action that was drawn.
#[derive(Debug)]
pub struct Exp3Outside {
    /// Current throughput in bits per second.
    pub throughput: u64,
    /// Probabilities of the actions on a channel that is new.
    pub first_probas: Vec<Float64>,
    /// Reward of the last action.
    pub reward: Float64,
    /// Weights of the channel of the last action once it has its reward.
    pub weights: Vec<Float64>,
    /// Probabilities of the actions on the current channel.
    pub probas: Vec<Float64>,
    /// The action that was drawn.
    pub drawn: usize,
}

/// Position of the first item that is `x`.
pub open spec fn first_position(s: Seq<Seq<u8>>, x: Seq<u8>) -> Option<int>
    decreases s.len(),
{
    if s.len() == 0 {
        None
    } else if first_position(s.drop_last(), x) is Some {
        first_position(s.drop_last(), x)
    } else if s.last() == x {
        Some(s.len() - 1)
    } else {
        None
    }
}

proof fn lemma_position_stays(s: Seq<Seq<u8>>, x: Seq<u8>, n: int)
    requires
        0 <= n <= s.len(),
        first_position(s.take(n), x) is Some,
    ensures
        first_position(s, x) == first_position(s.take(n), x),
    decreases s.len() - n,
{
    if n < s.len() {
        assert(s.take(n + 1).drop_last() =~= s.take(n));
        lemma_position_stays(s, x, n + 1);
    } else {
        assert(s.take(n) =~= s);
    }
}

proof fn lemma_no_position(s: Seq<Seq<u8>>, x: Seq<u8>, i: int)
    requires
        0 <= i < s.len(),
        s[i] == x,
    ensures
        first_position(s, x) is Some,
    decreases s.len(),
{
    if i < s.len() - 1 {
        assert(s.drop_last()[i] == s[i]);
        lemma_no_position(s.drop_last(), x, i);
    }
}

/// Position of a channel in a list that holds it.
fn position(list: &Vec<Vec<u8>>, channel_id: &Vec<u8>) -> (r: usize)
    requires
        views(list@).contains(channel_id@),
    ensures
        r < list@.len(),
        first_position(views(list@), channel_id@) == Some(r as int),
        list@[r as int]@ == channel_id@,
{
    let ghost s = views(list@);
    let mut i: usize = 0;
    assert(s.take(0) =~= Seq::<Seq<u8>>::empty());
    while i < list.len()
        invariant
            i <= list@.len(),
            s == views(list@),
            first_position(s.take(i as int), channel_id@) is None,
        decreases list@.len() - i,
    {
        assert(s.take(i + 1).drop_last() =~= s.take(i as int));
        assert(s.take(i + 1).last() == list@[i as int]@);
        if same_bytes(&list[i], channel_id) {
            proof {
                lemma_position_stays(s, channel_id@, i + 1);
            }
            return i;
        }
        i += 1;
    }
    proof {
        assert(s.take(i as int) =~= s);
        let k = choose|k: int| 0 <= k < s.len() && s[k] == channel_id@;
        lemma_no_position(s, channel_id@, k);
    }
    0
}

impl FlexicastModel {
    /// Whether the heuristic knows the current channel and its bitrate.
    pub open spec fn exp3_joined(self) -> bool {
        self.active() matches Some(a) && a.bitrate is Some
    }

    /// Position of the current channel among those in the order of their bitrates.
    pub open spec fn exp3_position(self) -> int {
        first_position(ids(by_bitrate(self.announces)), self.active()->0.channel_id)->0
    }

    /// Whether an action is banned on the current channel.
    pub open spec fn exp3_bans(self, a: Action) -> bool {
        self.congestion.exp3.is_banned(
            a,
            self.congestion.stats.loss_rate,
            self.exp3_position(),
            self.announces.len() as int,
        )
    }

    /// Whether the heuristic can decide at `now` with what it gets from outside:
    /// the throughput can be noted and, if it is time for an action, the reward of the
    /// last one, if there is one, is valid and the action is one of those that are not
    /// banned.
    pub open spec fn exp3_ready(self, now: Instant, outside: Exp3Outside) -> bool {
        let w = self.congestion.stats.window;
        &&& self.exp3_joined()
        &&& now.nanos >= w.span.nanos
        &&& w.at(now).values.contains_key(outside.throughput) ==> w.at(
            now,
        ).values[outside.throughput] < u32::MAX
        &&& self.congestion.exp3.is_due(now) ==> {
            &&& self.congestion.exp3.previous_channel is Some ==> valid_reward(outside.reward)
            &&& outside.drawn < 3
            &&& !self.exp3_bans(action_of(outside.drawn))
        }
    }

    /// The heuristic after an action.
    pub open spec fn exp3_acted(self, outside: Exp3Outside) -> Exp3Model {
        self.congestion.exp3.informed(self.announces, outside.first_probas@).rewarded(
            outside.weights@,
        ).after_ban().judged(self.congestion.stats.loss_rate).acted(
            self.active()->0.channel_id,
            outside.probas@,
            outside.drawn,
        )
    }

    /// The state after a decision at `now`.
    pub open spec fn exp3_after(self, now: Instant, outside: Exp3Outside) -> FlexicastModel {
        FlexicastModel {
            congestion: CongestionModel {
                stats: self.congestion.stats.with_throughput(now, outside.throughput),
                exp3: if self.congestion.exp3.is_due(now) {
                    self.exp3_acted(outside)
                } else {
                    self.congestion.exp3
                },
                ..self.congestion
            },
            ..self
        }
    }

    /// The channel that the receiver should be on, if it is time for an action: the
    /// neighbour in the order of the bitrates where the action asks for it and
    /// there is one, and the current channel else.
    pub open spec fn exp3_choice(self, now: Instant, outside: Exp3Outside) -> Option<Seq<u8>> {
        if self.congestion.exp3.is_due(now) {
            Some(
                self.exp3_acted(outside).target(self.exp3_position(), action_of(outside.drawn)),
            )
        } else {
            None
        }
    }
}

impl EXP3State {
    /// Gives the instance of the last channel its reward, if there is one.
    fn reward_previous(&mut self, value: Float64, weights: Vec<Float64>)
        requires
            old(self)@.wf(),
            old(self)@.previous_channel is Some ==> valid_reward(value),
        ensures
            final(self)@.shaped(),
            final(self)@ == old(self)@.rewarded(weights@),
            forall|i: int|
                0 <= i < final(self)@.instances.len() ==> (
                #[trigger] final(self)@.instances[i]).taken_action is None,
    {
        let found: Option<usize> = match &self.previous_channel {
            Some(c) => self.find(c),
            None => None,
        };
        proof {
            assert forall|i: int| 0 <= i < self@.instances.len() && found is None implies (
            #[trigger] self@.instances[i]).taken_action is None by {
                if self@.instances[i].taken_action is Some {
                    assert(self@.channels.contains(self@.channels[i]));
                }
            }
        }
        if let Some(i) = found {
            let ghost before = self@;
            proof {
                assert(before.instances[i as int].taken_action is Some);
            }
            let _r: core::result::Result<(), EXP3Error> = self.instances[i].instance.reward(
                value,
                weights,
            );
            proof {
                assert(self@.channels =~= before.channels);
                assert(self@.instances =~= before.instances.update(
                    i as int,
                    InstanceModel {
                        weights: weights@,
                        taken_action: None,
                        ..before.instances[i as int]
                    },
                ));
                assert forall|k: int| 0 <= k < self@.instances.len() implies (
                #[trigger] self@.instances[k]).taken_action is None by {
                    if k != i && self@.instances[k].taken_action is Some {
                        assert(before.instances[k].taken_action is Some);
                        assert(before.channels[k] == before.channels[i as int]);
                    }
                }
            }
        }
    }

    /// Takes an action on a channel that has an instance.
    fn act(
        &mut self,
        channel_id: &Vec<u8>,
        banned: &Vec<usize>,
        probas: Vec<Float64>,
        drawn: usize,
    )
        requires
            old(self)@.shaped(),
            old(self)@.channels.contains(channel_id@),
            forall|i: int|
                0 <= i < old(self)@.instances.len() ==> (
                #[trigger] old(self)@.instances[i]).taken_action is None,
            drawn < 3,
            !banned@.contains(drawn),
        ensures
            final(self)@.wf(),
            final(self)@ == old(self)@.acted(channel_id@, probas@, drawn),
    {
        let ghost before = self@;
        if let Some(i) = self.find(channel_id) {
            let _r: core::result::Result<usize, EXP3Error> = self.instances[i].instance.take_action(
                banned,
                probas,
                drawn,
            );
            self.previous_channel = Some(copy_bytes(channel_id));
            self.last_taken_action = Some(Action::from_number(drawn));
            self.taken_action = true;
            proof {
                assert(self@.channels =~= before.channels);
                assert(self@.instances =~= before.instances.update(
                    i as int,
                    InstanceModel {
                        probas: probas@,
                        taken_action: Some(drawn),
                        ..before.instances[i as int]
                    },
                ));
            }
        }
    }
}

/// The numbers of the actions that are banned on the current channel, if it is
/// time for an action.
pub fn exp3_banned(flexicast: &FlexicastAttributes, now: Instant) -> (r: Option<Vec<usize>>)
    requires
        flexicast.wf(),
        flexicast@.exp3_joined(),
    ensures
        r is Some <==> flexicast@.congestion.exp3.is_due(now),
        r matches Some(b) ==> (forall|a: Action| #[trigger]
            b@.contains(number_of_action(a)) <==> flexicast@.exp3_bans(a)) && (forall|i: int|
            0 <= i < b@.len() ==> #[trigger] b@[i] < 3),
{
    if !flexicast.congestion_state.exp3_state.wait_timeout_elapsed(now) {
        return None;
    }
    match (&flexicast.fc_chan_id, flexicast.get_mc_announce_data_active()) {
        (Some(c), Some(active)) => {
            let ghost k = c.1 as int;
            let order: Vec<Vec<u8>> = order_channels(&flexicast.mc_announce_data);
            proof {
                announced_channel_is_ordered(flexicast@.announces, k);
                crate::flexicast::congestion::exp3::ordered_channels_are_those_announced(
                    flexicast@.announces,
                );
                assert(views(order@).len() == order@.len());
            }
            let idx: usize = position(&order, &active.channel_id);
            Some(
                flexicast.congestion_state.exp3_state.banned_actions(
                    flexicast.congestion_state.statistics.loss_rate,
                    idx,
                    order.len(),
                ),
            )
        },
        _ => None,
    }
}

/// The channel that the receiver should be on, if it is time for an action.
pub fn exp3_should_change_channel(
    flexicast: &mut FlexicastAttributes,
    now: Instant,
    outside: Exp3Outside,
) -> (r: Option<Vec<u8>>)
    requires
        old(flexicast).wf(),
        old(flexicast)@.exp3_ready(now, outside),
    ensures
        final(flexicast).wf(),
        final(flexicast)@ == old(flexicast)@.exp3_after(now, outside),
        optional_bytes(r) == old(flexicast)@.exp3_choice(now, outside),
{
    let ghost m = flexicast@;
    let ghost k = (m.fc_chan_id->0).1 as int;
    // First note the throughput in the window.
    flexicast.congestion_state.statistics.update_window(now, outside.throughput);
    if !flexicast.congestion_state.exp3_state.wait_timeout_elapsed(now) {
        return None;
    }
    let channel_id: Vec<u8> = match flexicast.get_mc_announce_data_active() {
        Some(a) => copy_bytes(&a.channel_id),
        None => {
            return None;
        },
    };
    let loss_rate: Float64 = flexicast.congestion_state.statistics.loss_rate;
    flexicast.congestion_state.exp3_state.update_instances(
        &flexicast.mc_announce_data,
        &outside.first_probas,
    );
    proof {
        assert(flexicast.mc_announce_data@[k]@.channel_id == channel_id@);
        assert(flexicast.congestion_state.exp3_state@.channels.contains(channel_id@));
        announced_channel_is_ordered(m.announces, k);
        crate::flexicast::congestion::exp3::ordered_channels_are_those_announced(m.announces);
        assert(views(flexicast.congestion_state.exp3_state.ordered_channels@).len()
            == flexicast.congestion_state.exp3_state.ordered_channels@.len());
        lemma_instances_keep(m.congestion.exp3, m.announces, outside.first_probas@);
    }
    let idx: usize = position(
        &flexicast.congestion_state.exp3_state.ordered_channels,
        &channel_id,
    );
    let Exp3Outside { throughput: _, first_probas: _, reward, weights, probas, drawn } = outside;
    flexicast.congestion_state.exp3_state.reward_previous(reward, weights);
    let banned: Vec<usize> = flexicast.congestion_state.exp3_state.get_banned(loss_rate, idx);
    flexicast.congestion_state.exp3_state.update_trial_count(loss_rate);
    proof {
        assert(number_of_action(action_of(drawn)) == drawn);
        assert(!banned@.contains(number_of_action(action_of(drawn))));
    }
    flexicast.congestion_state.exp3_state.act(&channel_id, &banned, probas, drawn);
    let n: usize = flexicast.congestion_state.exp3_state.ordered_channels.len();
    let target: usize = match Action::from_number(drawn) {
        Action::Increase => if idx < n - 1 {
            idx + 1
        } else {
            idx
        },
        Action::Decrease => if idx > 0 {
            idx - 1
        } else {
            idx
        },
        Action::Stay => idx,
    };
    let r: Vec<u8> = copy_bytes(&flexicast.congestion_state.exp3_state.ordered_channels[target]);
    proof {
        assert(flexicast.congestion_state.exp3_state@ == m.exp3_acted(outside));
        assert(flexicast@.congestion.exp3.previous_channel == Some(channel_id@));
    }
    Some(r)
}

/// What is announced changes neither the bans nor the configuration.
proof fn lemma_instances_keep(
    m: Exp3Model,
    list: Seq<crate::flexicast::announce::AnnounceModel>,
    first: Seq<Float64>,
)
    ensures
        m.with_instances(list, first).ban_increase_rounds == m.ban_increase_rounds,
        m.with_instances(list, first).conf == m.conf,
        m.with_instances(list, first).last_taken_action == m.last_taken_action,
        m.with_instances(list, first).previous_channel == m.previous_channel,
        m.with_instances(list, first).failed_increase_count == m.failed_increase_count,
        m.with_instances(list, first).last_taken_action_instant == m.last_taken_action_instant,
    decreases list.len(),
{
    if list.len() > 0 {
        lemma_instances_keep(m, list.drop_last(), first);
    }
}

/// Notes that the receiver is on the channel that was decided: the next action
/// comes after the timeout.
pub fn exp3_did_change_channel(flexicast: &mut FlexicastAttributes, now: Instant)
    requires
        old(flexicast).wf(),
    ensures
        final(flexicast).wf(),
        final(flexicast)@ == old(flexicast)@.with_exp3(
            Exp3Model {
                last_taken_action_instant: now,
                taken_action: false,
                ..old(flexicast)@.congestion.exp3
            },
        ),
{
    flexicast.congestion_state.exp3_state.last_taken_action_instant = now;
    flexicast.congestion_state.exp3_state.taken_action = false;
    proof {
        let e = flexicast.congestion_state.exp3_state@;
        let o = old(flexicast)@.congestion.exp3;
        assert(e.channels =~= o.channels);
        assert(e.instances =~= o.instances);
    }
}

impl FlexicastModel {
    /// The state with another state of the EXP3 heuristic.
    pub open spec fn with_exp3(self, exp3: Exp3Model) -> FlexicastModel {
        FlexicastModel { congestion: CongestionModel { exp3, ..self.congestion }, ..self }
    }
}

/// After an action the heuristic waits: however often and however late it is asked
/// again, it decides nothing until the receiver is on the channel that was decided. From
/// that report on, the next action comes once more than the timeout has passed.
pub proof fn actions_alternate_with_changes(
    m: FlexicastModel,
    now: Instant,
    outside: Exp3Outside,
    later: Instant,
    other: Exp3Outside,
    report: Instant,
)
    requires
        m.exp3_choice(now, outside) is Some,
    ensures
        ({
            let acted = m.exp3_after(now, outside);
            let reported = acted.with_exp3(
                Exp3Model {
                    last_taken_action_instant: report,
                    taken_action: false,
                    ..acted.congestion.exp3
                },
            );
            &&& acted.exp3_choice(later, other) is None
            &&& acted.exp3_after(later, other).congestion.exp3 == acted.congestion.exp3
            &&& reported.exp3_choice(later, other) is Some <==> later.nanos > report.nanos
                + m.congestion.exp3.conf.migration_timeout.nanos
        }),
{
    lemma_instances_keep(m.congestion.exp3, m.announces, outside.first_probas@);
}

/// Only increases are judged: a decision after another action, or after none, keeps the
/// number of failed increases, and one round of a ban is over with it, whatever the loss
/// rate.
pub proof fn only_increases_are_judged(m: FlexicastModel, now: Instant, outside: Exp3Outside)
    requires
        m.exp3_choice(now, outside) is Some,
        m.congestion.exp3.last_taken_action != Some(Action::Increase),
    ensures
        ({
            let before = m.congestion.exp3;
            let after = m.exp3_after(now, outside).congestion.exp3;
            &&& after.failed_increase_count == before.failed_increase_count
            &&& before.ban_increase_rounds > 0 ==> after.ban_increase_rounds + 1
                == before.ban_increase_rounds
            &&& before.ban_increase_rounds == 0 ==> after.ban_increase_rounds == 0
        }),
{
    lemma_instances_keep(m.congestion.exp3, m.announces, outside.first_probas@);
}

/// An increase failed when the losses are above the threshold that it brought. Failures in a
/// row are counted up to four; one that did not fail ends the row. After `n` failures in a
/// row, further increases are banned for one round less than two to the power of `n`.
pub proof fn failed_increases_ban_further_ones(
    m: FlexicastModel,
    now: Instant,
    outside: Exp3Outside,
)
    requires
        m.exp3_choice(now, outside) is Some,
        m.congestion.exp3.last_taken_action == Some(Action::Increase),
        m.congestion.exp3.failed_increase_count <= 4,
    ensures
        ({
            let before = m.congestion.exp3;
            let after = m.exp3_after(now, outside).congestion.exp3;
            let failed = m.congestion.stats.loss_rate.above(before.conf.hard_loss_threshold);
            let n = after.failed_increase_count;
            &&& !failed ==> n == 0
            &&& failed && before.failed_increase_count < 4 ==> n == before.failed_increase_count + 1
            &&& failed && before.failed_increase_count == 4 ==> n == 4
            &&& after.ban_increase_rounds + 1 == pow2(n as nat)
        }),
{
    lemma_instances_keep(m.congestion.exp3, m.announces, outside.first_probas@);
    let n = m.exp3_after(now, outside).congestion.exp3.failed_increase_count;
    lemma_banned_rounds(n as nat);
}

/// One more than the rounds of a ban is a power of two.
proof fn lemma_banned_rounds(n: nat)
    requires
        n <= 4,
    ensures
        banned_rounds(n) + 1 == pow2(n),
        banned_rounds(n) <= 15,
    decreases n,
{
    lemma2_to64();
    reveal_with_fuel(banned_rounds, 5);
    if n > 0 {
        lemma_banned_rounds((n - 1) as nat);
        lemma_pow2_unfold(n);
    }
}

/// A decision with its instant and what it got from outside.
pub struct Exp3Round {
    /// The state before the decision.
    pub state: FlexicastModel,
    /// When it is made.
    pub now: Instant,
    /// What the heuristic gets from outside.
    pub outside: Exp3Outside,
}

/// Whether some decisions were made in turn. Between two of them the receiver changes its
/// channel and reports it; what is announced, what was measured and the channel may have
/// changed in any way.
pub open spec fn are_rounds(rounds: Seq<Exp3Round>) -> bool {
    &&& forall|i: int|
        0 <= i < rounds.len() ==> {
            let r = #[trigger] rounds[i];
            &&& r.state.exp3_choice(r.now, r.outside) is Some
            &&& r.state.exp3_ready(r.now, r.outside)
        }
    &&& forall|i: int, j: int|
        0 <= i < rounds.len() && j == i + 1 && j < rounds.len() ==> {
            let before = (#[trigger] rounds[i]).state.exp3_after(
                rounds[i].now,
                rounds[i].outside,
            ).congestion.exp3;
            let next = (#[trigger] rounds[j]).state.congestion.exp3;
            next == Exp3Model {
                taken_action: false,
                last_taken_action_instant: next.last_taken_action_instant,
                ..before
            }
        }
}

proof fn lemma_ban_goes_on(rounds: Seq<Exp3Round>, k: int)
    requires
        are_rounds(rounds),
        1 <= k < rounds.len(),
        rounds[0].outside.drawn != 0,
        rounds[1].state.congestion.exp3.ban_increase_rounds + 1 >= k,
    ensures
        rounds[k].state.congestion.exp3.ban_increase_rounds + k
            == rounds[1].state.congestion.exp3.ban_increase_rounds + 1,
        rounds[k].state.congestion.exp3.last_taken_action != Some(Action::Increase),
        rounds[k].state.congestion.exp3.failed_increase_count
            == rounds[1].state.congestion.exp3.failed_increase_count,
    decreases k,
{
    let r = rounds[k - 1];
    let after = r.state.exp3_after(r.now, r.outside).congestion.exp3;
    assert(rounds[k].state.congestion.exp3.last_taken_action == after.last_taken_action);
    assert(after.last_taken_action == Some(action_of(r.outside.drawn)));
    if k > 1 {
        lemma_ban_goes_on(rounds, k - 1);
        only_increases_are_judged(r.state, r.now, r.outside);
        assert(r.state.exp3_bans(Action::Increase));
    }
}

/// A failed increase bans further ones for a while. Take a decision that judges an increase
/// as failed and does not take another one, and let `n` be the number of failures in a row
/// then. In each of the next decisions, one less than two to the power of `n` of them, an
/// increase is banned, whatever the loss rates and whatever channels are announced; none is
/// taken, and the number of failures stays. In the decision after these, the ban is over.
pub proof fn failed_increase_bans_for_a_while(rounds: Seq<Exp3Round>, k: int)
    requires
        are_rounds(rounds),
        rounds[0].state.congestion.exp3.last_taken_action == Some(Action::Increase),
        rounds[0].state.congestion.exp3.failed_increase_count <= 4,
        rounds[0].state.congestion.stats.loss_rate.above(
            rounds[0].state.congestion.exp3.conf.hard_loss_threshold,
        ),
        rounds[0].outside.drawn != 0,
        1 <= k < rounds.len(),
        k <= pow2(rounds[1].state.congestion.exp3.failed_increase_count as nat),
    ensures
        ({
            let earlier = rounds[0].state.congestion.exp3.failed_increase_count;
            let n = rounds[1].state.congestion.exp3.failed_increase_count;
            &&& n == if earlier < 4 {
                earlier + 1
            } else {
                4
            }
            &&& rounds[k].state.congestion.exp3.failed_increase_count == n
            &&& k < pow2(n as nat) ==> rounds[k].state.exp3_bans(Action::Increase)
            &&& k < pow2(n as nat) ==> rounds[k].outside.drawn != 0
            &&& k == pow2(n as nat) ==> rounds[k].state.congestion.exp3.ban_increase_rounds == 0
        }),
{
    let r = rounds[0];
    let first = rounds[1];
    failed_increases_ban_further_ones(r.state, r.now, r.outside);
    assert(first.state.congestion.exp3.ban_increase_rounds == r.state.exp3_after(
        r.now,
        r.outside,
    ).congestion.exp3.ban_increase_rounds);
    lemma_ban_goes_on(rounds, k);
    let last = rounds[k];
    assert(last.state.exp3_ready(last.now, last.outside));
}

/// The position of an item is the first one at which it stands, and there is one exactly if
/// it stands somewhere.
pub proof fn first_position_is_the_first(s: Seq<Seq<u8>>, x: Seq<u8>, i: int)
    ensures
        first_position(s, x) == Some(i) <==> 0 <= i < s.len() && s[i] == x && forall|j: int|
            0 <= j < i ==> #[trigger] s[j] != x,
        first_position(s, x) is None <==> !s.contains(x),
    decreases s.len(),
{
    if s.len() > 0 {
        let front = s.drop_last();
        first_position_is_the_first(front, x, i);
        if let Some(k) = first_position(front, x) {
            first_position_is_the_first(front, x, k);
            assert(front[k] == s[k]);
            assert(s.contains(x));
            assert forall|j: int| 0 <= j < k implies #[trigger] s[j] != x by {
                assert(front[j] == s[j]);
            }
        } else {
            assert forall|j: int| 0 <= j < front.len() implies #[trigger] s[j] != x by {
                assert(front[j] == s[j]);
                assert(front.contains(front[j]));
            }
            assert(s[s.len() - 1] == s.last());
        }
        if first_position(s, x) == Some(i) && i < front.len() {
            assert(front[i] == s[i]);
        }
    }
}

/// The receiver goes one step up or down in the order of the bitrates, or stays: it joins the
/// channel right after its own one when an increase is drawn, the one right before it when
/// a decrease is, and its own one else, or where there is no such channel. The channels
/// are in the order of their bitrates.
pub proof fn actions_lead_to_a_neighbour(m: FlexicastModel, now: Instant, outside: Exp3Outside)
    requires
        m.exp3_choice(now, outside) is Some,
        m.exp3_joined(),
        exists|k: int|
            0 <= k < m.announces.len() && m.active() == Some(#[trigger] m.announces[k]),
        outside.drawn < 3,
    ensures
        ({
            let order = by_bitrate(m.announces);
            let i = m.exp3_position();
            let r = m.exp3_choice(now, outside)->0;
            &&& order.len() == m.announces.len()
            &&& forall|a: int, b: int|
                0 <= a <= b < order.len() ==> (#[trigger] order[a]).1 <= (#[trigger] order[b]).1
            &&& 0 <= i < order.len()
            &&& order[i].0 == m.active()->0.channel_id
            &&& outside.drawn == 0 && i + 1 < order.len() ==> r == order[i + 1].0
            &&& outside.drawn == 1 && i > 0 ==> r == order[i - 1].0
            &&& outside.drawn == 0 && i + 1 == order.len() ==> r == order[i].0
            &&& outside.drawn == 1 && i == 0 ==> r == order[i].0
            &&& outside.drawn == 2 ==> r == order[i].0
        }),
{
    let k = choose|k: int|
        0 <= k < m.announces.len() && m.active() == Some(#[trigger] m.announces[k]);
    let order = by_bitrate(m.announces);
    let id = m.active()->0.channel_id;
    announced_channel_is_ordered(m.announces, k);
    crate::flexicast::congestion::exp3::ordered_channels_are_those_announced(m.announces);
    first_position_is_the_first(ids(order), id, m.exp3_position());
}

/// An action is noted on the channel on which it is taken, and it waits there for its reward.
/// The channel of the action before it gets its new weights and waits no more. All the other
/// instances that were there stay as they were, and the heuristic waits until the change
/// is reported.
pub proof fn actions_are_noted_on_their_channel(
    m: FlexicastModel,
    now: Instant,
    outside: Exp3Outside,
    i: int,
)
    requires
        m.exp3_choice(now, outside) is Some,
        m.exp3_joined(),
        exists|k: int|
            0 <= k < m.announces.len() && m.active() == Some(#[trigger] m.announces[k]),
        m.congestion.exp3.wf(),
        0 <= i < m.congestion.exp3.channels.len(),
        outside.drawn < 3,
    ensures
        ({
            let before = m.congestion.exp3;
            let after = m.exp3_after(now, outside).congestion.exp3;
            let id = m.active()->0.channel_id;
            let c = before.channels[i];
            let was = before.instances[i];
            let is = after.instances[i];
            &&& after.channels[i] == c
            &&& after.taken_action
            &&& after.previous_channel == Some(id)
            &&& after.last_taken_action == Some(action_of(outside.drawn))
            &&& after.last_taken_action_instant == before.last_taken_action_instant
            &&& after.conf == before.conf
            &&& is.k == was.k && is.gamma == was.gamma
            &&& is.taken_action == if c == id {
                Some(outside.drawn)
            } else {
                None
            }
            &&& is.probas == if c == id {
                outside.probas@
            } else {
                was.probas
            }
            &&& is.weights == if before.previous_channel == Some(c) {
                outside.weights@
            } else {
                was.weights
            }
        }),
{
    let before = m.congestion.exp3;
    lemma_instances_keep(before, m.announces, outside.first_probas@);
    lemma_instances_prefix(before, m.announces, outside.first_probas@, i);
    let told = before.informed(m.announces, outside.first_probas@);
    let id = m.active()->0.channel_id;
    let k = choose|k: int|
        0 <= k < m.announces.len() && m.active() == Some(#[trigger] m.announces[k]);
    announced_channels_have_instances(before, m.announces, outside.first_probas@, k);
    if let Some(p) = before.previous_channel {
        if told.channels.contains(p) {
            let j = told.channels.index_of(p);
            assert(told.channels[j] == p);
            if j == i {
                assert(before.channels[i] == p);
            }
            if before.channels[i] == p {
                assert(told.channels[i] == told.channels[j]);
            }
        } else if before.channels[i] == p {
            assert(told.channels[i] == p);
        }
    }
    let j = told.channels.index_of(id);
    assert(told.channels[j] == id);
    if before.channels[i] == id {
        assert(told.channels[i] == told.channels[j]);
    }
}

/// Instances stay where they are when more are added.
proof fn lemma_instances_prefix(
    m: Exp3Model,
    list: Seq<crate::flexicast::announce::AnnounceModel>,
    first: Seq<Float64>,
    i: int,
)
    requires
        m.shaped(),
        0 <= i < m.channels.len(),
    ensures
        ({
            let t = m.with_instances(list, first);
            &&& t.channels.len() == t.instances.len()
            &&& t.channels.no_duplicates()
            &&& i < t.channels.len()
            &&& t.channels[i] == m.channels[i]
            &&& t.instances[i] == m.instances[i]
        }),
    decreases list.len(),
{
    if list.len() > 0 {
        lemma_instances_prefix(m, list.drop_last(), first, i);
    }
}

/// Each announced channel has an instance once an action is taken. A channel that had none
/// gets one for three actions, with the configured exploration rate and the probabilities
/// that were handed in.
pub proof fn announced_channels_have_instances(
    m: Exp3Model,
    list: Seq<crate::flexicast::announce::AnnounceModel>,
    first: Seq<Float64>,
    k: int,
)
    requires
        m.shaped(),
        0 <= k < list.len(),
    ensures
        ({
            let t = m.informed(list, first);
            let id = list[k].channel_id;
            &&& t.channels.contains(id)
            &&& !m.channels.contains(id) ==> exists|j: int|
                m.channels.len() <= j < t.channels.len() && #[trigger] t.channels[j] == id
                    && t.instances[j].k == 3 && (m.conf.gamma matches Some(g) ==> t.instances[j].gamma == g)
                    && t.instances[j].probas == first && t.instances[j].taken_action is None
        }),
    decreases list.len(),
{
    let front = list.drop_last();
    let t = m.with_instances(front, first);
    let u = m.with_instances(list, first);
    let id = list[k].channel_id;
    lemma_instances_keep(m, front, first);
    lemma_instances_shape(m, front, first);
    if k < front.len() {
        announced_channels_have_instances(m, front, first, k);
        let s = m.informed(front, first);
        assert(s.channels == t.channels && s.instances == t.instances);
        let j = choose|j: int| 0 <= j < t.channels.len() && t.channels[j] == id;
        assert(u.channels[j] == id);
        if !m.channels.contains(id) {
            let j = choose|j: int|
                m.channels.len() <= j < s.channels.len() && #[trigger] s.channels[j] == id
                    && s.instances[j].k == 3 && (m.conf.gamma matches Some(g) ==> s.instances[j].gamma == g)
                    && s.instances[j].probas == first && s.instances[j].taken_action is None;
            assert(u.channels[j] == id);
            assert(m.informed(list, first).channels[j] == id);
        }
    } else if t.channels.contains(id) {
        if !m.channels.contains(id) {
            let j = choose|j: int| 0 <= j < t.channels.len() && t.channels[j] == id;
            lemma_new_instance(m, front, first, j);
            assert(m.informed(list, first).channels[j] == id);
        }
    } else {
        let j = t.channels.len() as int;
        assert(u.channels[j] == id);
        assert(m.informed(list, first).channels[j] == id);
    }
}

proof fn lemma_instances_shape(
    m: Exp3Model,
    list: Seq<crate::flexicast::announce::AnnounceModel>,
    first: Seq<Float64>,
)
    requires
        m.shaped(),
    ensures
        m.with_instances(list, first).channels.len() == m.with_instances(list, first).instances.len(),
        m.with_instances(list, first).channels.len() >= m.channels.len(),
    decreases list.len(),
{
    if list.len() > 0 {
        lemma_instances_shape(m, list.drop_last(), first);
    }
}

/// An instance for a channel that had none is a new one.
proof fn lemma_new_instance(
    m: Exp3Model,
    list: Seq<crate::flexicast::announce::AnnounceModel>,
    first: Seq<Float64>,
    j: int,
)
    requires
        m.shaped(),
        0 <= j < m.with_instances(list, first).channels.len(),
        !m.channels.contains(m.with_instances(list, first).channels[j]),
    ensures
        ({
            let t = m.with_instances(list, first);
            &&& m.channels.len() <= j
            &&& t.instances[j].k == 3
            &&& (m.conf.gamma matches Some(g) ==> t.instances[j].gamma == g)
            &&& t.instances[j].probas == first
            &&& t.instances[j].taken_action is None
        }),
    decreases list.len(),
{
    if list.len() > 0 {
        let t = m.with_instances(list.drop_last(), first);
        lemma_instances_shape(m, list.drop_last(), first);
        if j < t.channels.len() {
            assert(m.with_instances(list, first).channels[j] == t.channels[j]);
            lemma_new_instance(m, list.drop_last(), first, j);
        }
    } else {
        assert(m.channels.contains(m.channels[j]));
    }
}

/// On the current channel, the loss rate that was measured and the place of the channel among
/// the announced ones decide what is banned: no increase on the last one in the order of the
/// bitrates, no decrease on the first one.
pub proof fn bans_are_those_of_the_current_channel(m: FlexicastModel)
    requires
        m.exp3_joined(),
        exists|k: int|
            0 <= k < m.announces.len() && m.active() == Some(#[trigger] m.announces[k]),
    ensures
        ({
            let order = ids(by_bitrate(m.announces));
            let id = m.active()->0.channel_id;
            let loss = m.congestion.stats.loss_rate;
            let few = (Float64 { bits: 0x3F74_7AE1_47AE_147B }).above(loss);
            let many = !few && loss.above(m.congestion.exp3.conf.hard_loss_threshold);
            let lowest = order[0] == id;
            let highest = order[order.len() - 1] == id && forall|j: int|
                0 <= j < order.len() - 1 ==> #[trigger] order[j] != id;
            &&& m.exp3_bans(Action::Increase) <==> many || highest
                || m.congestion.exp3.ban_increase_rounds > 0
            &&& m.exp3_bans(Action::Decrease) <==> few || lowest
            &&& m.exp3_bans(Action::Stay) <==> many && !lowest
        }),
{
    let k = choose|k: int|
        0 <= k < m.announces.len() && m.active() == Some(#[trigger] m.announces[k]);
    let order = ids(by_bitrate(m.announces));
    let id = m.active()->0.channel_id;
    announced_channel_is_ordered(m.announces, k);
    crate::flexicast::congestion::exp3::ordered_channels_are_those_announced(m.announces);
    let i = m.exp3_position();
    first_position_is_the_first(order, id, i);
    first_position_is_the_first(order, id, 0);
    first_position_is_the_first(order, id, order.len() - 1);
    crate::flexicast::congestion::exp3::losses_decide_the_bans(
        m.congestion.exp3,
        m.congestion.stats.loss_rate,
        i,
        m.announces.len() as int,
    );
}

/// The actions that are told to be banned are exactly those that the decision may not draw, and
/// they are told only when it is time for an action.
pub proof fn told_bans_are_those_of_the_decision(
    f: FlexicastAttributes,
    now: Instant,
    r: Option<Vec<usize>>,
    a: Action,
)
    requires
        call_ensures(exp3_banned, (&f, now), r),
    ensures
        r is Some <==> !f@.congestion.exp3.taken_action && now.nanos
            > f@.congestion.exp3.last_taken_action_instant.nanos
            + f@.congestion.exp3.conf.migration_timeout.nanos,
        r is Some ==> ((r->0)@.contains(number_of_action(a)) <==> f@.exp3_bans(a)),
{
}

/// The report that a change is done lets the next action come once the timeout has passed.
pub proof fn changes_are_awaited(f: &mut FlexicastAttributes, now: Instant, later: Instant)
    requires
        call_ensures(exp3_did_change_channel, (f, now), ()),
    ensures
        ({
            let e = final(f)@.congestion.exp3;
            let b = old(f)@.congestion.exp3;
            &&& e.is_due(later) <==> later.nanos > now.nanos + b.conf.migration_timeout.nanos
            &&& e.conf == b.conf && e.instances == b.instances && e.channels == b.channels
            &&& e.ban_increase_rounds == b.ban_increase_rounds
            &&& e.failed_increase_count == b.failed_increase_count
            &&& e.previous_channel == b.previous_channel
            &&& final(f)@.announces == old(f)@.announces && final(f)@.mc_role == old(f)@.mc_role
        }),
{
}

} // verus!
