//! The EXP3 heuristic: joins channels depending on what rewarded before.

pub mod decision;
pub mod instance;
pub mod rewarder;

use vstd::prelude::*;

use crate::bytes::copy_bytes;
use crate::bytes::same_bytes;
use crate::flexicast::announce::announced;
use crate::flexicast::announce::AnnounceModel;
use crate::flexicast::announce::McAnnounceData;
use crate::flexicast::congestion::config::EXP3Conf;
use crate::flexicast::congestion::exp3::instance::copy_probas;
use crate::flexicast::congestion::exp3::instance::new_instance;
use crate::flexicast::congestion::exp3::instance::InstanceModel;
use crate::flexicast::congestion::exp3::instance::EXP3;
use crate::rate::Float64;
use crate::time::Instant;

verus! {

/// Pattern of 0.005, the loss rate below which no channel is left for a lower
/// one.
pub const LOW_LOSS_BITS: u64 = 0x3F74_7AE1_47AE_147B;

/// Largest number of failed increases that is counted.
pub const MAX_BACKOFF: u32 = 4;

/// What a receiver does about its channel.
#[derive(Clone, Copy, Debug, PartialEq, Eq, Structural)]
pub enum Action {
    /// Join the channel with the next higher bitrate.
    Increase,
    /// Join the channel with the next lower bitrate.
    Decrease,
    /// Stay on the channel.
    Stay,
}

/// The action with a number.
pub open spec fn action_of(value: usize) -> Action {
    if value == 0 {
        Action::Increase
    } else if value == 1 {
        Action::Decrease
    } else {
        Action::Stay
    }
}

/// The number of an action.
pub open spec fn number_of_action(value: Action) -> usize {
    match value {
        Action::Increase => 0,
        Action::Decrease => 1,
        Action::Stay => 2,
    }
}

impl Action {
    /// The action with a number.
    pub fn from_number(value: usize) -> (r: Action)
        requires
            value < 3,
        ensures
            r == action_of(value),
            number_of_action(r) == value,
    {
        if value == 0 {
            Action::Increase
        } else if value == 1 {
            Action::Decrease
        } else {
            Action::Stay
        }
    }
}

impl From<Action> for usize {
    fn from(value: Action) -> (r: usize) {
        match value {
            Action::Increase => 0,
            Action::Decrease => 1,
            Action::Stay => 2,
        }
    }
}

impl vstd::std_specs::convert::FromSpecImpl<Action> for usize {
    open spec fn obeys_from_spec() -> bool {
        true
    }

    open spec fn from_spec(value: Action) -> usize {
        number_of_action(value)
    }
}

/// Each action has its number.
pub proof fn actions_are_numbered(value: Action)
    ensures
        number_of_action(value) < 3,
        action_of(number_of_action(value)) == value,
{
}

/// The EXP3 instance of a channel.
#[derive(Debug)]
pub struct ChannelInstance {
    /// Identifier of the channel.
    pub channel_id: Vec<u8>,
    /// The instance.
    pub instance: EXP3,
}

/// State of the EXP3 heuristic.
#[derive(Debug)]
pub struct EXP3State {
    /// An instance for each channel.
    pub instances: Vec<ChannelInstance>,
    /// Whether the last action is still under way.
    pub taken_action: bool,
    /// The last action.
    pub last_taken_action: Option<Action>,
    /// When the last action was done.
    pub last_taken_action_instant: Instant,
    /// How many increases failed in a row.
    pub failed_increase_count: u32,
    /// For how many rounds an increase is banned.
    pub ban_increase_rounds: u32,
    /// The channels, lowest bitrate first.
    pub ordered_channels: Vec<Vec<u8>>,
    /// The channel of the last action.
    pub previous_channel: Option<Vec<u8>>,
    /// Configuration.
    pub conf: EXP3Conf,
}

/// What an [`EXP3State`] stands for.
#[verifier::ext_equal]
pub struct Exp3Model {
    /// The channels that have an instance.
    pub channels: Seq<Seq<u8>>,
    /// The instance of each of these channels.
    pub instances: Seq<InstanceModel>,
    /// Whether the last action is still under way.
    pub taken_action: bool,
    /// The last action.
    pub last_taken_action: Option<Action>,
    /// When the last action was done.
    pub last_taken_action_instant: Instant,
    /// How many increases failed in a row.
    pub failed_increase_count: u32,
    /// For how many rounds an increase is banned.
    pub ban_increase_rounds: u32,
    /// The channels, lowest bitrate first.
    pub ordered_channels: Seq<Seq<u8>>,
    /// The channel of the last action.
    pub previous_channel: Option<Seq<u8>>,
    /// Configuration.
    pub conf: EXP3Conf,
}

/// What some sequences of bytes stand for.
pub open spec fn views(v: Seq<Vec<u8>>) -> Seq<Seq<u8>> {
    Seq::new(v.len(), |i: int| v[i]@)
}

impl View for EXP3State {
    type V = Exp3Model;

    open spec fn view(&self) -> Exp3Model {
        Exp3Model {
            channels: Seq::new(self.instances@.len(), |i: int| self.instances@[i].channel_id@),
            instances: Seq::new(self.instances@.len(), |i: int| self.instances@[i].instance@),
            taken_action: self.taken_action,
            last_taken_action: self.last_taken_action,
            last_taken_action_instant: self.last_taken_action_instant,
            failed_increase_count: self.failed_increase_count,
            ban_increase_rounds: self.ban_increase_rounds,
            ordered_channels: views(self.ordered_channels@),
            previous_channel: match self.previous_channel {
                Some(c) => Some(c@),
                None => None,
            },
            conf: self.conf,
        }
    }
}

/// A heuristic that waits for its first action.
pub open spec fn new_exp3_state(conf: EXP3Conf, now: Instant) -> Exp3Model {
    Exp3Model {
        channels: Seq::empty(),
        instances: Seq::empty(),
        taken_action: true,
        last_taken_action: None,
        last_taken_action_instant: now,
        failed_increase_count: 0,
        ban_increase_rounds: 0,
        ordered_channels: Seq::empty(),
        previous_channel: None,
        conf,
    }
}

/// Channels with their bitrates once one more is put behind those that are not
/// faster.
pub open spec fn with_channel(s: Seq<(Seq<u8>, u64)>, c: (Seq<u8>, u64)) -> Seq<(Seq<u8>, u64)>
    decreases s.len(),
{
    if s.len() == 0 || s.last().1 <= c.1 {
        s.push(c)
    } else {
        with_channel(s.drop_last(), c).push(s.last())
    }
}

/// The announced channels, lowest bitrate first; equal ones as announced. A
/// channel without a bitrate counts as one with the bitrate 0.
pub open spec fn by_bitrate(list: Seq<AnnounceModel>) -> Seq<(Seq<u8>, u64)>
    decreases list.len(),
{
    if list.len() == 0 {
        Seq::empty()
    } else {
        with_channel(
            by_bitrate(list.drop_last()),
            (list.last().channel_id, rate_of(list.last())),
        )
    }
}

/// The bitrate of a channel, or 0.
pub open spec fn rate_of(a: AnnounceModel) -> u64 {
    match a.bitrate {
        Some(b) => b,
        None => 0,
    }
}

/// The identifiers of some channels.
pub open spec fn ids(s: Seq<(Seq<u8>, u64)>) -> Seq<Seq<u8>> {
    Seq::new(s.len(), |i: int| s[i].0)
}

/// For how many rounds an increase is banned after `n` failed ones: twice as many
/// and one more for each.
pub open spec fn banned_rounds(n: nat) -> nat
    decreases n,
{
    if n == 0 {
        0
    } else {
        2 * banned_rounds((n - 1) as nat) + 1
    }
}

impl Exp3Model {
    /// Each channel has one instance of three actions, and failed increases are
    /// counted up to the limit.
    pub open spec fn shaped(self) -> bool {
        &&& self.channels.len() == self.instances.len()
        &&& self.channels.no_duplicates()
        &&& forall|i: int|
            0 <= i < self.instances.len() ==> (#[trigger] self.instances[i]).k == 3
        &&& self.failed_increase_count <= MAX_BACKOFF
    }

    /// Besides, the last action waits for its reward on the channel on which it was
    /// taken, and no other one does.
    pub open spec fn wf(self) -> bool {
        &&& self.shaped()
        &&& forall|i: int|
            0 <= i < self.instances.len() ==> ((#[trigger] self.instances[i]).taken_action is Some
                <==> self.previous_channel == Some(self.channels[i]))
    }

    /// The instances once one exists for each announced channel. The probabilities
    /// `first` are those of new instances.
    pub open spec fn with_instances(
        self,
        list: Seq<AnnounceModel>,
        first: Seq<Float64>,
    ) -> Exp3Model
        decreases list.len(),
    {
        if list.len() == 0 {
            self
        } else {
            let m = self.with_instances(list.drop_last(), first);
            let id = list.last().channel_id;
            if m.channels.contains(id) {
                m
            } else {
                Exp3Model {
                    channels: m.channels.push(id),
                    instances: m.instances.push(new_instance(3, self.conf.gamma, first)),
                    ..m
                }
            }
        }
    }

    /// The state once it knows the announced channels.
    pub open spec fn informed(self, list: Seq<AnnounceModel>, first: Seq<Float64>) -> Exp3Model {
        Exp3Model { ordered_channels: ids(by_bitrate(list)), ..self.with_instances(list, first) }
    }

    /// Whether it is time for an action.
    pub open spec fn is_due(self, now: Instant) -> bool {
        !self.taken_action && now.nanos > self.last_taken_action_instant.nanos
            + self.conf.migration_timeout.nanos
    }

    /// Whether an action is banned on the channel at the position `idx` of `n`, at
    /// the given loss rate. Some action is always left.
    pub open spec fn is_banned(self, a: Action, loss_rate: Float64, idx: int, n: int) -> bool {
        let low = (Float64 { bits: LOW_LOSS_BITS }).above(loss_rate);
        let high = !low && loss_rate.above(self.conf.hard_loss_threshold);
        let decrease = low || idx == 0;
        let increase = high || self.ban_increase_rounds > 0 || idx == n - 1;
        match a {
            Action::Increase => increase,
            Action::Decrease => decrease,
            Action::Stay => high && !(decrease && increase),
        }
    }

    /// The state once the banned actions of a round are known: a round of a ban is
    /// over.
    pub open spec fn after_ban(self) -> Exp3Model {
        Exp3Model {
            ban_increase_rounds: if self.ban_increase_rounds > 0 {
                (self.ban_increase_rounds - 1) as u32
            } else {
                0
            },
            ..self
        }
    }

    /// The state once the last action is judged by the loss rate: an increase that
    /// brought too many losses failed, and further ones are banned for a while.
    pub open spec fn judged(self, loss_rate: Float64) -> Exp3Model {
        if self.last_taken_action == Some(Action::Increase) {
            let failed: u32 = if loss_rate.above(self.conf.hard_loss_threshold) {
                if self.failed_increase_count < MAX_BACKOFF {
                    (self.failed_increase_count + 1) as u32
                } else {
                    MAX_BACKOFF
                }
            } else {
                0
            };
            Exp3Model {
                failed_increase_count: failed,
                ban_increase_rounds: banned_rounds(failed as nat) as u32,
                ..self
            }
        } else {
            self
        }
    }

    /// The state once the instance of the last channel got its reward, if there is
    /// one.
    pub open spec fn rewarded(self, weights: Seq<Float64>) -> Exp3Model {
        match self.previous_channel {
            Some(c) if self.channels.contains(c) => {
                let i = self.channels.index_of(c);
                Exp3Model {
                    instances: self.instances.update(
                        i,
                        InstanceModel { weights, taken_action: None, ..self.instances[i] },
                    ),
                    ..self
                }
            },
            _ => self,
        }
    }

    /// The state once the action `drawn` is taken on the channel `id`.
    pub open spec fn acted(self, id: Seq<u8>, probas: Seq<Float64>, drawn: usize) -> Exp3Model {
        let i = self.channels.index_of(id);
        Exp3Model {
            instances: self.instances.update(
                i,
                InstanceModel { probas, taken_action: Some(drawn), ..self.instances[i] },
            ),
            previous_channel: Some(id),
            last_taken_action: Some(action_of(drawn)),
            taken_action: true,
            ..self
        }
    }

    /// The channel that an action on the one at the position `idx` leads to.
    pub open spec fn target(self, idx: int, a: Action) -> Seq<u8> {
        match a {
            Action::Increase if idx < self.ordered_channels.len() - 1 => self.ordered_channels[idx
                + 1],
            Action::Decrease if idx > 0 => self.ordered_channels[idx - 1],
            _ => self.ordered_channels[idx],
        }
    }
}

impl EXP3State {
    /// A heuristic that waits for its first action.
    pub fn new(config: &EXP3Conf, now: Instant) -> (s: EXP3State)
        ensures
            s@.wf(),
            s@ == new_exp3_state(*config, now),
    {
        let s = EXP3State {
            instances: Vec::new(),
            taken_action: true,
            last_taken_action: None,
            last_taken_action_instant: now,
            failed_increase_count: 0,
            ban_increase_rounds: 0,
            ordered_channels: Vec::new(),
            previous_channel: None,
            conf: *config,
        };
        proof {
            assert(s@.channels =~= Seq::<Seq<u8>>::empty());
            assert(s@.instances =~= Seq::<InstanceModel>::empty());
            assert(s@.ordered_channels =~= Seq::<Seq<u8>>::empty());
        }
        s
    }

    /// Position of the instance of a channel.
    pub fn find(&self, channel_id: &Vec<u8>) -> (r: Option<usize>)
        requires
            self@.shaped(),
        ensures
            r is Some <==> self@.channels.contains(channel_id@),
            r matches Some(i) ==> i < self@.channels.len() && self@.channels.index_of(channel_id@)
                == i && self@.channels[i as int] == channel_id@,
    {
        let mut i: usize = 0;
        while i < self.instances.len()
            invariant
                i <= self.instances@.len(),
                self@.shaped(),
                forall|k: int| 0 <= k < i ==> self@.channels[k] != channel_id@,
            decreases self.instances@.len() - i,
        {
            assert(self@.channels[i as int] == self.instances@[i as int].channel_id@);
            if same_bytes(&self.instances[i].channel_id, channel_id) {
                proof {
                    assert(self@.channels.contains(channel_id@));
                }
                return Some(i);
            }
            i += 1;
        }
        None
    }

    /// Adds instances for new channels, which start with the probabilities `first`, and
    /// puts the channels in the order of their bitrates.
    pub fn update_instances(&mut self, announce_data: &Vec<McAnnounceData>, first: &Vec<Float64>)
        requires
            old(self)@.wf(),
            old(self)@.previous_channel matches Some(c) ==> old(self)@.channels.contains(c),
        ensures
            final(self)@.wf(),
            final(self)@ == old(self)@.informed(announced(announce_data@), first@),
            forall|c: Seq<u8>| #[trigger]
                old(self)@.channels.contains(c) ==> final(self)@.channels.contains(c),
            forall|i: int|
                0 <= i < announce_data@.len() ==> final(self)@.channels.contains(
                    (#[trigger] announce_data@[i])@.channel_id,
                ),
    {
        let ghost list = announced(announce_data@);
        let ghost m0 = self@;
        let mut i: usize = 0;
        assert(list.take(0) =~= Seq::<AnnounceModel>::empty());
        while i < announce_data.len()
            invariant
                i <= announce_data@.len(),
                list == announced(announce_data@),
                m0 == old(self)@,
                self@.wf(),
                self@ == m0.with_instances(list.take(i as int), first@),
                m0.previous_channel matches Some(c) ==> m0.channels.contains(c),
                self@.previous_channel == m0.previous_channel,
                self.conf == m0.conf,
                forall|c: Seq<u8>| #[trigger]
                    m0.channels.contains(c) ==> self@.channels.contains(c),
                forall|k: int|
                    0 <= k < i ==> self@.channels.contains(
                        (#[trigger] announce_data@[k])@.channel_id,
                    ),
            decreases announce_data@.len() - i,
        {
            proof {
                assert(list.take(i + 1).drop_last() =~= list.take(i as int));
                assert(list.take(i + 1).last() == announce_data@[i as int]@);
            }
            let id: &Vec<u8> = &announce_data[i].channel_id;
            if self.find(id).is_none() {
                let ghost before = self@;
                let instance = EXP3::new(3, self.conf.gamma, copy_probas(first));
                self.instances.push(ChannelInstance { channel_id: copy_bytes(id), instance });
                proof {
                    assert(self@.channels =~= before.channels.push(id@));
                    assert(self@.instances =~= before.instances.push(
                        new_instance(3, m0.conf.gamma, first@),
                    ));
                    lemma_contains_push(before.channels, id@);
                    assert(self@ =~= m0.with_instances(list.take(i + 1), first@));
                }
            }
            i += 1;
        }
        assert(list.take(i as int) =~= list);
        let ghost before = self@;
        self.ordered_channels = order_channels(announce_data);
        proof {
            assert(self@.channels =~= before.channels);
            assert(self@.instances =~= before.instances);
        }
    }

    /// Whether it is time for an action.
    pub fn wait_timeout_elapsed(&self, now: Instant) -> (r: bool)
        ensures
            r == self@.is_due(now),
    {
        let since: u128 = if now.nanos >= self.last_taken_action_instant.nanos {
            now.nanos - self.last_taken_action_instant.nanos
        } else {
            0
        };
        !self.taken_action && since > self.conf.migration_timeout.nanos
    }

    /// The numbers of the actions that are banned on the channel at the position
    /// `current_channel_idx`, at the given loss rate.
    pub fn banned_actions(&self, loss_rate: Float64, current_channel_idx: usize, nb_channels: usize) -> (r:
        Vec<usize>)
        requires
            nb_channels >= 1,
        ensures
            forall|a: Action| #[trigger]
                r@.contains(number_of_action(a)) <==> self@.is_banned(
                    a,
                    loss_rate,
                    current_channel_idx as int,
                    nb_channels as int,
                ),
            forall|i: int| 0 <= i < r@.len() ==> #[trigger] r@[i] < 3,
            r@.no_duplicates(),
    {
        let low: bool = (Float64 { bits: LOW_LOSS_BITS }).is_above(loss_rate);
        let high: bool = !low && loss_rate.is_above(self.conf.hard_loss_threshold);
        let decrease: bool = low || current_channel_idx == 0;
        let increase: bool = high || self.ban_increase_rounds > 0 || current_channel_idx
            == nb_channels - 1;
        let stay: bool = high && !(decrease && increase);
        let mut r: Vec<usize> = Vec::new();
        let ghost e = r@;
        if increase {
            r.push(0);
        }
        let ghost f = r@;
        if decrease {
            r.push(1);
        }
        let ghost g = r@;
        if stay {
            r.push(2);
        }
        proof {
            assert(f.contains(0) == increase) by {
                if increase {
                    assert(f[0] == 0);
                }
            }
            assert(g.contains(0) == increase && g.contains(1) == decrease) by {
                if increase {
                    assert(g[0] == 0);
                }
                if decrease {
                    assert(g[g.len() - 1] == 1);
                }
            }
            assert(r@.contains(0) == increase && r@.contains(1) == decrease && r@.contains(2)
                == stay) by {
                if increase {
                    assert(r@[0] == 0);
                }
                if decrease {
                    assert(r@[g.len() - 1] == 1);
                }
                if stay {
                    assert(r@[r@.len() - 1] == 2);
                }
            }
        }
        r
    }

    /// The numbers of the actions that are banned in this round. A round of a ban
    /// is over with it.
    pub fn get_banned(&mut self, loss_rate: Float64, current_channel_idx: usize) -> (r: Vec<usize>)
        requires
            old(self)@.shaped(),
            old(self)@.ordered_channels.len() >= 1,
        ensures
            final(self)@.shaped(),
            final(self)@ == old(self)@.after_ban(),
            forall|a: Action| #[trigger]
                r@.contains(number_of_action(a)) <==> old(self)@.is_banned(
                    a,
                    loss_rate,
                    current_channel_idx as int,
                    old(self)@.ordered_channels.len() as int,
                ),
            forall|i: int| 0 <= i < r@.len() ==> #[trigger] r@[i] < 3,
            r@.no_duplicates(),
    {
        let r: Vec<usize> = self.banned_actions(
            loss_rate,
            current_channel_idx,
            self.ordered_channels.len(),
        );
        if self.ban_increase_rounds > 0 {
            self.ban_increase_rounds -= 1;
        }
        proof {
            assert(self@.channels =~= old(self)@.channels);
            assert(self@.instances =~= old(self)@.instances);
        }
        r
    }

    /// Judges the last action by the loss rate that it brought.
    pub fn update_trial_count(&mut self, loss_rate: Float64)
        requires
            old(self)@.shaped(),
        ensures
            final(self)@.shaped(),
            final(self)@ == old(self)@.judged(loss_rate),
    {
        if self.last_taken_action == Some(Action::Increase) {
            if loss_rate.is_above(self.conf.hard_loss_threshold) {
                self.failed_increase_count += 1;
            } else {
                self.failed_increase_count = 0;
            }
            if self.failed_increase_count > MAX_BACKOFF {
                self.failed_increase_count = MAX_BACKOFF;
            }
            self.ban_increase_rounds = match self.failed_increase_count {
                0 => 0,
                1 => 1,
                2 => 3,
                3 => 7,
                _ => 15,
            };
            proof {
                reveal_with_fuel(banned_rounds, 5);
            }
        }
        proof {
            assert(self@.channels =~= old(self)@.channels);
            assert(self@.instances =~= old(self)@.instances);
        }
    }
}

proof fn lemma_contains_push(s: Seq<Seq<u8>>, x: Seq<u8>)
    ensures
        s.push(x).contains(x),
        forall|y: Seq<u8>| #[trigger] s.contains(y) ==> s.push(x).contains(y),
{
    assert(s.push(x)[s.len() as int] == x);
    assert forall|y: Seq<u8>| #[trigger] s.contains(y) implies s.push(x).contains(y) by {
        let i = choose|i: int| 0 <= i < s.len() && s[i] == y;
        assert(s.push(x)[i] == y);
    }
}

/// The announced channels, lowest bitrate first; equal ones as announced.
pub fn order_channels(announce_data: &Vec<McAnnounceData>) -> (r: Vec<Vec<u8>>)
    ensures
        views(r@) == ids(by_bitrate(announced(announce_data@))),
{
    let ghost list = announced(announce_data@);
    let mut out: Vec<Vec<u8>> = Vec::new();
    let mut rates: Vec<u64> = Vec::new();
    let mut i: usize = 0;
    proof {
        assert(list.take(0) =~= Seq::<AnnounceModel>::empty());
        assert(paired(out@, rates@) =~= by_bitrate(list.take(0)));
    }
    while i < announce_data.len()
        invariant
            i <= announce_data@.len(),
            list == announced(announce_data@),
            out@.len() == rates@.len(),
            paired(out@, rates@) == by_bitrate(list.take(i as int)),
        decreases announce_data@.len() - i,
    {
        let a: &McAnnounceData = &announce_data[i];
        let rate: u64 = match a.bitrate {
            Some(b) => b,
            None => 0,
        };
        let ghost s = paired(out@, rates@);
        let ghost c = (a.channel_id@, rate);
        proof {
            assert(list.take(i + 1).drop_last() =~= list.take(i as int));
            assert(list.take(i + 1).last() == a@);
            assert(s.take(s.len() as int) =~= s);
            assert(s.skip(s.len() as int) =~= Seq::<(Seq<u8>, u64)>::empty());
            assert(with_channel(s, c) =~= with_channel(s.take(s.len() as int), c) + s.skip(
                s.len() as int,
            ));
        }
        let mut j: usize = out.len();
        while j > 0 && rates[j - 1] > rate
            invariant
                j <= out@.len(),
                out@.len() == rates@.len(),
                s == paired(out@, rates@),
                c.1 == rate,
                with_channel(s, c) == with_channel(s.take(j as int), c) + s.skip(j as int),
            decreases j,
        {
            proof {
                assert(s.take(j as int).drop_last() =~= s.take(j - 1));
                assert(s.take(j as int).last() == s[j - 1]);
                assert(s[j - 1].1 == rates@[j - 1]);
                assert(with_channel(s.take(j - 1), c).push(s[j - 1]) + s.skip(j as int)
                    =~= with_channel(s.take(j - 1), c) + s.skip(j - 1));
            }
            j -= 1;
        }
        proof {
            if j > 0 {
                assert(s.take(j as int).last() == s[j - 1]);
                assert(s[j - 1].1 == rates@[j - 1]);
            }
        }
        let ghost o = out@;
        let ghost q = rates@;
        let id: Vec<u8> = copy_bytes(&a.channel_id);
        out.insert(j, id);
        rates.insert(j, rate);
        proof {
            assert(paired(out@, rates@) =~= s.take(j as int).push(c) + s.skip(j as int));
        }
        i += 1;
    }
    assert(list.take(i as int) =~= list);
    proof {
        assert(views(out@) =~= ids(paired(out@, rates@)));
    }
    out
}

/// Channels with their bitrates.
spec fn paired(out: Seq<Vec<u8>>, rates: Seq<u64>) -> Seq<(Seq<u8>, u64)> {
    Seq::new(out.len(), |i: int| (out[i]@, rates[i]))
}

/// Whether channels are in the order of their bitrates.
pub open spec fn ordered(s: Seq<(Seq<u8>, u64)>) -> bool {
    forall|i: int, j: int| 0 <= i <= j < s.len() ==> (#[trigger] s[i]).1 <= (#[trigger] s[j]).1
}

proof fn lemma_with_channel(s: Seq<(Seq<u8>, u64)>, c: (Seq<u8>, u64))
    requires
        ordered(s),
    ensures
        ordered(with_channel(s, c)),
        with_channel(s, c).len() == s.len() + 1,
        with_channel(s, c).to_multiset() == s.to_multiset().insert(c),
        forall|i: int|
            0 <= i < with_channel(s, c).len() ==> (#[trigger] with_channel(s, c)[i]) == c
                || s.contains(with_channel(s, c)[i]),
    decreases s.len(),
{
    broadcast use vstd::seq_lib::group_to_multiset_ensures;

    let t = with_channel(s, c);
    if s.len() == 0 || s.last().1 <= c.1 {
        assert(t =~= s.push(c));
        assert forall|i: int| 0 <= i < t.len() implies (#[trigger] t[i]) == c || s.contains(t[i]) by {
            if i < s.len() {
                assert(t[i] == s[i]);
            }
        }
        assert forall|i: int, j: int| 0 <= i <= j < t.len() implies (#[trigger] t[i]).1 <= (
        #[trigger] t[j]).1 by {
            if i < s.len() {
                assert(s[i].1 <= s[s.len() - 1].1);
            }
        }
    } else {
        let d = s.drop_last();
        lemma_with_channel(d, c);
        let u = with_channel(d, c);
        assert(t =~= u.push(s.last()));
        assert(s =~= d.push(s.last()));
        assert(t.to_multiset() =~= s.to_multiset().insert(c));
        assert forall|i: int| 0 <= i < t.len() implies (#[trigger] t[i]) == c || s.contains(t[i]) by {
            if i < u.len() {
                assert(t[i] == u[i]);
                if u[i] != c {
                    let k = choose|k: int| 0 <= k < d.len() && d[k] == u[i];
                    assert(s[k] == t[i]);
                }
            } else {
                assert(s[s.len() - 1] == t[i]);
            }
        }
        assert forall|i: int, j: int| 0 <= i <= j < t.len() implies (#[trigger] t[i]).1 <= (
        #[trigger] t[j]).1 by {
            if j < u.len() {
                assert(t[i] == u[i] && t[j] == u[j]);
            } else if i < u.len() {
                assert(t[i] == u[i]);
                if u[i] != c {
                    let k = choose|k: int| 0 <= k < d.len() && d[k] == u[i];
                    assert(s[k].1 <= s[s.len() - 1].1);
                }
            }
        }
    }
}

/// The channels of an announced list with their bitrates, as announced.
pub open spec fn as_announced(list: Seq<AnnounceModel>) -> Seq<(Seq<u8>, u64)> {
    Seq::new(list.len(), |i: int| (list[i].channel_id, rate_of(list[i])))
}

/// The channels in the order of their bitrates are the announced ones.
pub proof fn ordered_channels_are_those_announced(list: Seq<AnnounceModel>)
    ensures
        ordered(by_bitrate(list)),
        by_bitrate(list).len() == list.len(),
        by_bitrate(list).to_multiset() == as_announced(list).to_multiset(),
    decreases list.len(),
{
    broadcast use vstd::seq_lib::group_to_multiset_ensures;

    if list.len() > 0 {
        let d = list.drop_last();
        ordered_channels_are_those_announced(d);
        let c = (list.last().channel_id, rate_of(list.last()));
        lemma_with_channel(by_bitrate(d), c);
        assert(as_announced(list) =~= as_announced(d).push(c));
    } else {
        assert(by_bitrate(list) =~= as_announced(list));
    }
}

/// An announced channel is one of the ordered channels.
pub proof fn announced_channel_is_ordered(list: Seq<AnnounceModel>, i: int)
    requires
        0 <= i < list.len(),
    ensures
        ids(by_bitrate(list)).contains(list[i].channel_id),
{
    broadcast use vstd::seq_lib::group_to_multiset_ensures;

    ordered_channels_are_those_announced(list);
    let c = as_announced(list)[i];
    let s = by_bitrate(list);
    assert(as_announced(list).contains(c));
    assert(as_announced(list).to_multiset().count(c) > 0);
    assert(s.contains(c));
    let k = choose|k: int| 0 <= k < s.len() && s[k] == c;
    assert(ids(s)[k] == list[i].channel_id);
}

/// Some action is always left, and one that stays in the range of the channels.
pub proof fn some_action_is_left(m: Exp3Model, loss_rate: Float64, idx: int, n: int)
    requires
        0 <= idx < n,
    ensures
        exists|a: Action| !#[trigger] m.is_banned(a, loss_rate, idx, n),
        idx == 0 ==> m.is_banned(Action::Decrease, loss_rate, idx, n),
        idx == n - 1 ==> m.is_banned(Action::Increase, loss_rate, idx, n),
{
    if m.is_banned(Action::Increase, loss_rate, idx, n) && m.is_banned(
        Action::Decrease,
        loss_rate,
        idx,
        n,
    ) {
        assert(!m.is_banned(Action::Stay, loss_rate, idx, n));
    }
}

/// An increase is banned for at most fifteen rounds, and each failure in a row up
/// to the limit bans it for longer.
pub proof fn bans_grow_with_failures(n: nat)
    requires
        n <= MAX_BACKOFF,
    ensures
        banned_rounds(n) <= 15,
        n > 0 ==> banned_rounds(n) > banned_rounds((n - 1) as nat),
{
    reveal_with_fuel(banned_rounds, 5);
    if n == 0 {
    } else if n == 1 {
    } else if n == 2 {
    } else if n == 3 {
    } else {
        assert(n == 4);
    }
}

/// The losses and the place of the channel decide what is banned. Below a loss rate of 0.005
/// the receiver may not go down, and it may stay. Above the hard threshold it must go down
/// where it can: it may not go up, and it may stay only on the lowest channel. In between it
/// may do all three. No one goes beyond the lowest and the highest channel, and no one goes
/// up while increases are banned.
pub proof fn losses_decide_the_bans(m: Exp3Model, loss_rate: Float64, idx: int, n: int)
    requires
        0 <= idx < n,
    ensures
        ({
            let few = (Float64 { bits: 0x3F74_7AE1_47AE_147B }).above(loss_rate);
            let many = !few && loss_rate.above(m.conf.hard_loss_threshold);
            &&& m.is_banned(Action::Increase, loss_rate, idx, n) <==> many || idx + 1 == n
                || m.ban_increase_rounds != 0
            &&& few ==> m.is_banned(Action::Decrease, loss_rate, idx, n)
            &&& !few ==> (m.is_banned(Action::Decrease, loss_rate, idx, n) <==> idx == 0)
            &&& m.is_banned(Action::Stay, loss_rate, idx, n) <==> many && idx > 0
        }),
{
}

/// An action comes once more than the timeout has passed since the last change was reported,
/// and none before it is. A new heuristic waits for such a report.
pub proof fn actions_wait_for_the_timeout(m: Exp3Model, conf: EXP3Conf, start: Instant, now: Instant)
    ensures
        m.is_due(now) <==> !m.taken_action && now.nanos - m.last_taken_action_instant.nanos
            > m.conf.migration_timeout.nanos,
        !new_exp3_state(conf, start).is_due(now),
        new_exp3_state(conf, start).conf == conf,
        new_exp3_state(conf, start).last_taken_action is None,
        new_exp3_state(conf, start).previous_channel is None,
        new_exp3_state(conf, start).failed_increase_count == 0,
        new_exp3_state(conf, start).ban_increase_rounds == 0,
        new_exp3_state(conf, start).channels.len() == 0,
        new_exp3_state(conf, start).instances.len() == 0,
{
}

/// A channel is put right behind those with at most its bitrate, and the order of the
/// others stays: `k` is its place among channels that are in order.
pub proof fn a_channel_comes_behind_those_not_faster(
    s: Seq<(Seq<u8>, u64)>,
    c: (Seq<u8>, u64),
    k: int,
)
    requires
        0 <= k <= s.len(),
        forall|i: int| 0 <= i < k ==> (#[trigger] s[i]).1 <= c.1,
        forall|i: int| k <= i < s.len() ==> (#[trigger] s[i]).1 > c.1,
    ensures
        with_channel(s, c) == s.take(k).push(c) + s.skip(k),
    decreases s.len(),
{
    if k == s.len() {
        assert(s.take(k) =~= s);
        assert(s.push(c) =~= s.take(k).push(c) + s.skip(k));
    } else {
        assert(s[s.len() - 1].1 > c.1);
        let d = s.drop_last();
        assert forall|i: int| k <= i < d.len() implies (#[trigger] d[i]).1 > c.1 by {
            assert(s[i].1 > c.1);
        }
        assert forall|i: int| 0 <= i < k implies (#[trigger] d[i]).1 <= c.1 by {
            assert(s[i].1 <= c.1);
        }
        a_channel_comes_behind_those_not_faster(d, c, k);
        assert(d.take(k) =~= s.take(k));
        assert((s.take(k).push(c) + d.skip(k)).push(s.last()) =~= s.take(k).push(c) + s.skip(k));
    }
}

/// A channel without a bitrate counts as one with the bitrate 0.
pub proof fn missing_bitrates_are_zero(a: AnnounceModel)
    ensures
        a.bitrate is None ==> rate_of(a) == 0,
        a.bitrate is Some ==> Some(rate_of(a)) == a.bitrate,
{
}

/// The actions bear the numbers 0, 1 and 2: up, down and stay.
pub proof fn actions_have_their_numbers()
    ensures
        number_of_action(Action::Increase) == 0,
        number_of_action(Action::Decrease) == 1,
        number_of_action(Action::Stay) == 2,
        action_of(0) == Action::Increase,
        action_of(1) == Action::Decrease,
        action_of(2) == Action::Stay,
{
}

} // verus!
