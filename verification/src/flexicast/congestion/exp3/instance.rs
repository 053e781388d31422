//! An EXP3 instance: a choice between some actions that learns from rewards.

use vstd::prelude::*;

use crate::rate::Float64;

verus! {

/// Pattern of 1.
pub const ONE_BITS: u64 = 0x3FF0_0000_0000_0000;

/// Pattern of 0.1.
pub const DEFAULT_GAMMA_BITS: u64 = 0x3FB9_9999_9999_999A;

/// Errors of an EXP3 instance.
#[derive(Clone, Copy, Debug, PartialEq, Eq, Structural)]
pub enum EXP3Error {
    /// The last action waits for its reward.
    AlreadyTaken,
    /// No action waits for a reward.
    NotTaken,
    /// The reward is not between 0 and 1.
    InvalidReward,
}

/// An EXP3 instance. The caller computes the weights and the probabilities, and
/// draws the action.
#[derive(Debug)]
pub struct EXP3 {
    /// Number of actions.
    pub k: usize,
    /// Weight of each action.
    pub weights: Vec<Float64>,
    /// Probability of each action, as it was last computed.
    pub probas: Vec<Float64>,
    /// Part of the probability that is shared evenly.
    pub gamma: Float64,
    /// The action that waits for its reward.
    pub taken_action: Option<usize>,
}

/// What an [`EXP3`] stands for.
#[verifier::ext_equal]
pub struct InstanceModel {
    /// Number of actions.
    pub k: usize,
    /// Weight of each action.
    pub weights: Seq<Float64>,
    /// Probability of each action, as it was last computed.
    pub probas: Seq<Float64>,
    /// Part of the probability that is shared evenly.
    pub gamma: Float64,
    /// The action that waits for its reward.
    pub taken_action: Option<usize>,
}

impl View for EXP3 {
    type V = InstanceModel;

    open spec fn view(&self) -> InstanceModel {
        InstanceModel {
            k: self.k,
            weights: self.weights@,
            probas: self.probas@,
            gamma: self.gamma,
            taken_action: self.taken_action,
        }
    }
}

/// An instance on which no action was taken: all the weights are 1, and the
/// probabilities are `probas`.
pub open spec fn new_instance(
    k: usize,
    gamma: Option<Float64>,
    probas: Seq<Float64>,
) -> InstanceModel {
    InstanceModel {
        k,
        weights: Seq::new(k as nat, |i: int| Float64 { bits: ONE_BITS }),
        probas,
        gamma: match gamma {
            Some(g) => g,
            None => Float64 { bits: DEFAULT_GAMMA_BITS },
        },
        taken_action: None,
    }
}

/// Whether a reward is between 0 and 1. What is not a number passes.
pub open spec fn valid_reward(value: Float64) -> bool {
    !value.above(Float64 { bits: ONE_BITS }) && !(Float64 { bits: 0 }).above(value)
}

/// Some probabilities with those of the banned actions set to 0.
pub open spec fn allowed(probas: Seq<Float64>, banned: Seq<usize>) -> Seq<Float64> {
    Seq::new(
        probas.len(),
        |i: int|
            if banned.contains(i as usize) {
                Float64 { bits: 0 }
            } else {
                probas[i]
            },
    )
}

/// Whether `x` is one of the items.
pub fn is_among(items: &Vec<usize>, x: usize) -> (r: bool)
    ensures
        r == items@.contains(x),
{
    let mut i: usize = 0;
    while i < items.len()
        invariant
            i <= items@.len(),
            forall|k: int| 0 <= k < i ==> items@[k] != x,
        decreases items@.len() - i,
    {
        if items[i] == x {
            return true;
        }
        i += 1;
    }
    false
}

/// The probabilities to draw with: those of the banned actions are 0.
pub fn allowed_probas(probas: &Vec<Float64>, banned: &Vec<usize>) -> (r: Vec<Float64>)
    ensures
        r@ == allowed(probas@, banned@),
{
    let mut r: Vec<Float64> = Vec::new();
    let mut i: usize = 0;
    while i < probas.len()
        invariant
            i <= probas@.len(),
            r@ == allowed(probas@, banned@).take(i as int),
        decreases probas@.len() - i,
    {
        if is_among(banned, i) {
            r.push(Float64 { bits: 0 });
        } else {
            r.push(probas[i]);
        }
        i += 1;
        assert(r@ =~= allowed(probas@, banned@).take(i as int));
    }
    assert(r@ =~= allowed(probas@, banned@));
    r
}

/// Probabilities that are the same.
pub(crate) fn copy_probas(probas: &Vec<Float64>) -> (r: Vec<Float64>)
    ensures
        r@ == probas@,
{
    let mut r: Vec<Float64> = Vec::new();
    let mut i: usize = 0;
    while i < probas.len()
        invariant
            i <= probas@.len(),
            r@ == probas@.take(i as int),
        decreases probas@.len() - i,
    {
        r.push(probas[i]);
        i += 1;
        assert(r@ =~= probas@.take(i as int));
    }
    assert(r@ =~= probas@);
    r
}

impl EXP3 {
    /// An instance with `k` actions on which no action was taken. The caller computes
    /// the probabilities `probas` that equal weights make.
    pub fn new(k: usize, gamma: Option<Float64>, probas: Vec<Float64>) -> (e: EXP3)
        ensures
            e@ == new_instance(k, gamma, probas@),
    {
        let mut weights: Vec<Float64> = Vec::new();
        let mut i: usize = 0;
        while i < k
            invariant
                i <= k,
                weights@.len() == i,
                forall|j: int| 0 <= j < i ==> weights@[j] == (Float64 { bits: ONE_BITS }),
            decreases k - i,
        {
            weights.push(Float64 { bits: ONE_BITS });
            i += 1;
        }
        let gamma: Float64 = match gamma {
            Some(g) => g,
            None => Float64 { bits: DEFAULT_GAMMA_BITS },
        };
        assert(weights@ =~= Seq::new(k as nat, |i: int| Float64 { bits: ONE_BITS }));
        EXP3 { k, weights, probas, gamma, taken_action: None }
    }

    /// Takes the action `drawn`, which was drawn with the probabilities `probas`
    /// among the actions that are not banned.
    pub fn take_action(&mut self, banned: &Vec<usize>, probas: Vec<Float64>, drawn: usize) -> (r:
        core::result::Result<usize, EXP3Error>)
        requires
            drawn < old(self)@.k,
            !banned@.contains(drawn),
        ensures
            match old(self)@.taken_action {
                Some(_) => r == Err::<usize, EXP3Error>(EXP3Error::AlreadyTaken) && final(self)@
                    == old(self)@,
                None => r == Ok::<usize, EXP3Error>(drawn) && final(self)@ == (InstanceModel {
                    probas: probas@,
                    taken_action: Some(drawn),
                    ..old(self)@
                }),
            },
    {
        if self.taken_action.is_some() {
            return Err(EXP3Error::AlreadyTaken);
        }
        self.probas = probas;
        self.taken_action = Some(drawn);
        Ok(drawn)
    }

    /// Rewards the last action with `value`, which makes the weights `weights`.
    pub fn reward(&mut self, value: Float64, weights: Vec<Float64>) -> (r: core::result::Result<
        (),
        EXP3Error,
    >)
        ensures
            if !valid_reward(value) {
                r == Err::<(), EXP3Error>(EXP3Error::InvalidReward) && final(self)@ == old(self)@
            } else if old(self)@.taken_action is None {
                r == Err::<(), EXP3Error>(EXP3Error::NotTaken) && final(self)@ == old(self)@
            } else {
                r == Ok::<(), EXP3Error>(()) && final(self)@ == (InstanceModel {
                    weights: weights@,
                    taken_action: None,
                    ..old(self)@
                })
            },
    {
        if value.is_above(Float64 { bits: ONE_BITS }) || (Float64 { bits: 0 }).is_above(value) {
            return Err(EXP3Error::InvalidReward);
        }
        if self.taken_action.is_none() {
            return Err(EXP3Error::NotTaken);
        }
        self.weights = weights;
        self.taken_action = None;
        Ok(())
    }
}

/// A new instance prefers no action: each of them has the weight 1. It takes its exploration
/// rate from the configuration, and 0.1 where none is configured.
pub proof fn new_instances_prefer_nothing(
    k: usize,
    gamma: Option<Float64>,
    probas: Seq<Float64>,
    i: int,
)
    requires
        0 <= i < k,
    ensures
        new_instance(k, gamma, probas).k == k,
        new_instance(k, gamma, probas).weights.len() == k,
        new_instance(k, gamma, probas).weights[i].bits == 0x3FF0_0000_0000_0000,
        new_instance(k, gamma, probas).probas == probas,
        new_instance(k, gamma, probas).taken_action is None,
        gamma matches Some(g) ==> new_instance(k, gamma, probas).gamma == g,
        gamma is None ==> new_instance(k, gamma, probas).gamma.bits == 0x3FB9_9999_9999_999A,
{
}

/// Rewards lie between 0 and 1: the patterns up to that of 1, that of the negative zero, and
/// those of what is not a number pass, and no others.
pub proof fn rewards_lie_between_zero_and_one(value: Float64)
    ensures
        valid_reward(value) <==> value.bits <= 0x3FF0_0000_0000_0000 || value.bits
            == 0x8000_0000_0000_0000 || 0x7FF0_0000_0000_0000 < value.bits < 0x8000_0000_0000_0000
            || value.bits > 0xFFF0_0000_0000_0000,
{
}

/// A banned action is never drawn: its probability is 0. Those of the other actions stay.
pub proof fn banned_actions_are_not_drawn(probas: Seq<Float64>, banned: Seq<usize>, i: int)
    requires
        0 <= i < probas.len(),
        i <= usize::MAX,
    ensures
        allowed(probas, banned).len() == probas.len(),
        banned.contains(i as usize) ==> allowed(probas, banned)[i].bits == 0,
        !banned.contains(i as usize) ==> allowed(probas, banned)[i] == probas[i],
{
}

/// Actions and rewards alternate: an action is taken once the one before has its reward, and a
/// reward between zero and one is taken once there is an action. What is refused changes nothing.
pub proof fn actions_and_rewards_alternate(
    a: &mut EXP3,
    b: &mut EXP3,
    banned: Vec<usize>,
    probas: Vec<Float64>,
    drawn: usize,
    r: core::result::Result<usize, EXP3Error>,
    value: Float64,
    weights: Vec<Float64>,
    q: core::result::Result<(), EXP3Error>,
)
    requires
        call_ensures(EXP3::take_action, (a, &banned, probas, drawn), r),
        call_ensures(EXP3::reward, (b, value, weights), q),
    ensures
        r is Ok <==> old(a)@.taken_action is None,
        r is Ok ==> r->Ok_0 == drawn && final(a)@.taken_action == Some(drawn) && final(a)@.probas
            == probas@,
        r is Err ==> r->Err_0 is AlreadyTaken && final(a)@ == old(a)@,
        final(a)@.weights == old(a)@.weights && final(a)@.gamma == old(a)@.gamma && final(a)@.k
            == old(a)@.k,
        value.bits <= 0x3FF0_0000_0000_0000 ==> (q is Ok <==> old(b)@.taken_action is Some),
        0x3FF0_0000_0000_0000 < value.bits <= 0x7FF0_0000_0000_0000 ==> q is Err && q->Err_0
            is InvalidReward,
        value.bits <= 0x3FF0_0000_0000_0000 && q is Err ==> q->Err_0 is NotTaken,
        q is Ok ==> final(b)@.taken_action is None && final(b)@.weights == weights@,
        q is Err ==> final(b)@ == old(b)@,
        final(b)@.probas == old(b)@.probas && final(b)@.gamma == old(b)@.gamma && final(b)@.k
            == old(b)@.k,
{
}

} // verus!
