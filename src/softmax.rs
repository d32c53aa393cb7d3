use crate::environment::{Environment, PROB_SCALE};
use crate::random::draw_below;
use crate::tracker::{TrackerView, ValueTracker};
use rand::rngs::StdRng;
use vstd::prelude::*;

verus! {

/// Inverse temperatures are fractions of this scale: `BETA_SCALE` stands for 1.
pub const BETA_SCALE: u64 = 1000;

/// Sum of the first `k` weights of `w`.
pub open spec fn prefix(w: Seq<u64>, k: int) -> int
    decreases k,
{
    if k <= 0 {
        0
    } else {
        prefix(w, k - 1) + w[k - 1]
    }
}

proof fn lemma_prefix_monotone(w: Seq<u64>, j: int, k: int)
    requires
        0 <= j <= k,
    ensures
        prefix(w, j) <= prefix(w, k),
    decreases k - j,
{
    if j < k {
        lemma_prefix_monotone(w, j, k - 1);
    }
}

/// Sum of all weights.
pub fn weight_total(weights: &Vec<u64>) -> (r: u64)
    requires
        prefix(weights@, weights@.len() as int) <= u64::MAX,
    ensures
        r == prefix(weights@, weights@.len() as int),
{
    let n = weights.len();
    let mut sum: u64 = 0;
    let mut i: usize = 0;
    while i < n
        invariant
            n == weights@.len(),
            i <= n,
            sum == prefix(weights@, i as int),
            prefix(weights@, n as int) <= u64::MAX,
        decreases n - i,
    {
        proof {
            lemma_prefix_monotone(weights@, i + 1, n as int);
        }
        sum = sum + weights[i];
        i = i + 1;
    }
    sum
}

/// Categorical choice by cumulative weight: for `draw` below the total, the
/// arm `r` whose slice `prefix(r) <= draw < prefix(r + 1)` holds the draw, so a
/// draw uniform over `0..total` picks each arm with probability
/// `weight / total`. A draw at or past the total gives the last arm: the
/// result is always an arm.
pub fn select_by_weights(weights: &Vec<u64>, draw: u64) -> (r: usize)
    requires
        weights@.len() > 0,
        prefix(weights@, weights@.len() as int) <= u64::MAX,
    ensures
        r < weights@.len(),
        draw < prefix(weights@, weights@.len() as int) ==> prefix(weights@, r as int) <= draw
            < prefix(weights@, r + 1),
        draw >= prefix(weights@, weights@.len() as int) ==> r == weights@.len() - 1,
{
    let n = weights.len();
    let mut cumulative: u64 = 0;
    let mut i: usize = 0;
    while i < n
        invariant
            n == weights@.len(),
            n > 0,
            i <= n,
            cumulative == prefix(weights@, i as int),
            draw >= cumulative,
            prefix(weights@, n as int) <= u64::MAX,
        decreases n - i,
    {
        proof {
            lemma_prefix_monotone(weights@, i + 1, n as int);
        }
        cumulative = cumulative + weights[i];
        if draw < cumulative {
            proof {
                lemma_prefix_monotone(weights@, i + 1, n as int);
            }
            return i;
        }
        i = i + 1;
    }
    n - 1
}

/// Samples arms from the Boltzmann distribution over their mean rewards with
/// inverse temperature `beta`.
pub struct SoftmaxAgent {
    tracker: ValueTracker,
    beta: u64,
}

impl SoftmaxAgent {
    /// The agent's tracker.
    pub closed spec fn tracker_view(&self) -> TrackerView {
        self.tracker@
    }

    /// Inverse temperature, in units of `1 / BETA_SCALE`.
    pub closed spec fn beta_spec(&self) -> u64 {
        self.beta
    }

    /// A tracker that holds its invariant, and a positive `beta`.
    pub closed spec fn wf(&self) -> bool {
        self.tracker.wf() && self.beta > 0
    }

    /// A fresh agent over `arm_count` arms with inverse temperature
    /// `beta / BETA_SCALE`.
    pub fn new(arm_count: usize, beta: u64) -> (r: SoftmaxAgent)
        requires
            arm_count > 0,
            beta > 0,
        ensures
            r.wf(),
            r.tracker_view() == TrackerView::empty(arm_count as nat),
            r.beta_spec() == beta,
    {
        SoftmaxAgent { tracker: ValueTracker::new(arm_count), beta }
    }

    /// The agent's tracker.
    pub fn tracker(&self) -> (r: &ValueTracker)
        requires
            self.wf(),
        ensures
            r.wf(),
            r@ == self.tracker_view(),
    {
        &self.tracker
    }

    /// Inverse temperature, in units of `1 / BETA_SCALE`.
    pub fn beta(&self) -> (r: u64)
        ensures
            r == self.beta_spec(),
    {
        self.beta
    }

    /// Chooses an arm with probability proportional to its weight, where
    /// `weights[a]` is arm `a`'s Boltzmann weight `exp(beta * mean(a))` on a
    /// common integer scale: a draw uniform over `0..total` placed by
    /// `select_by_weights`. The result is always an arm.
    pub fn policy(&self, weights: &Vec<u64>, rng: &mut StdRng) -> (r: usize)
        requires
            self.wf(),
            weights@.len() == self.tracker_view().pulls.len(),
            0 < prefix(weights@, weights@.len() as int) <= u64::MAX,
        ensures
            r < self.tracker_view().pulls.len(),
            weights@[r as int] > 0,
    {
        let z = weight_total(weights);
        let draw = draw_below(rng, z);
        let r = select_by_weights(weights, draw);
        proof {
            assert(prefix(weights@, r + 1) == prefix(weights@, r as int) + weights@[r as int]);
        }
        r
    }

    /// One step: chooses an arm by `policy` with the given weights, pulls it
    /// in `env` and records the reward.
    pub fn act(&mut self, env: &Environment, rng: &mut StdRng, weights: &Vec<u64>)
        requires
            old(self).wf(),
            env.wf(),
            env@.len() == old(self).tracker_view().pulls.len(),
            old(self).tracker_view().total_pulls < u64::MAX,
            weights@.len() == old(self).tracker_view().pulls.len(),
            0 < prefix(weights@, weights@.len() as int) <= u64::MAX,
        ensures
            final(self).wf(),
            final(self).beta_spec() == old(self).beta_spec(),
            exists|a: int, reward: int|
                0 <= a < env@.len() && 0 <= reward <= 1 && weights@[a] > 0
                    && final(self).tracker_view() == old(self).tracker_view().record(a, reward)
                    && (env@[a] == 0 ==> reward == 0) && (env@[a] == PROB_SCALE ==> reward == 1),
    {
        let action = self.policy(weights, rng);
        let reward = env.pull(rng, action);
        self.tracker.update(action, reward);
    }
}

} // verus!
