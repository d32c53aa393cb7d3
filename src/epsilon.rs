use crate::environment::{Environment, PROB_SCALE};
use crate::random::draw_below;
use crate::tracker::{lemma_fraction_trans, lemma_wide_product, TrackerView, ValueTracker};
use rand::rngs::StdRng;
use vstd::prelude::*;

verus! {

/// Explores a uniformly random arm with probability `epsilon` and otherwise
/// exploits the arm with the best mean reward.
pub struct EpsilonGreedyAgent {
    tracker: ValueTracker,
    epsilon: u64,
}

impl EpsilonGreedyAgent {
    /// The agent's tracker.
    pub closed spec fn tracker_view(&self) -> TrackerView {
        self.tracker@
    }

    /// Exploration probability, in units of `1 / PROB_SCALE`.
    pub closed spec fn epsilon_spec(&self) -> u64 {
        self.epsilon
    }

    /// `r` is the decision for an exploration draw `u` in `0..PROB_SCALE` and
    /// a random arm `random_arm`: the greedy arm when `u` is at least
    /// `epsilon`, else the random arm.
    pub open spec fn decides(&self, u: int, random_arm: int, r: int) -> bool {
        &&& 0 <= u < PROB_SCALE
        &&& 0 <= random_arm < self.tracker_view().pulls.len()
        &&& u >= self.epsilon_spec() ==> self.tracker_view().is_greedy(r)
        &&& u < self.epsilon_spec() ==> r == random_arm
    }

    /// A tracker that holds its invariant, and `epsilon` at most `PROB_SCALE`.
    pub closed spec fn wf(&self) -> bool {
        self.tracker.wf() && self.epsilon <= PROB_SCALE
    }

    /// A fresh agent over `arm_count` arms exploring with probability
    /// `epsilon / PROB_SCALE`.
    pub fn new(arm_count: usize, epsilon: u64) -> (r: EpsilonGreedyAgent)
        requires
            arm_count > 0,
            epsilon <= PROB_SCALE,
        ensures
            r.wf(),
            r.tracker_view() == TrackerView::empty(arm_count as nat),
            r.epsilon_spec() == epsilon,
    {
        EpsilonGreedyAgent { tracker: ValueTracker::new(arm_count), epsilon }
    }

    /// The agent's tracker.
    pub fn tracker(&self) -> (r: &ValueTracker)
        requires
            self.wf(),
        ensures
            r.wf(),
            r@ == self.tracker_view(),
    {
        &self.tracker
    }

    /// Exploration probability, in units of `1 / PROB_SCALE`.
    pub fn epsilon(&self) -> (r: u64)
        ensures
            r == self.epsilon_spec(),
    {
        self.epsilon
    }

    /// The arm with the greatest mean reward; among equal means the lowest
    /// index, so a tracker with no reward yet gives arm 0.
    pub fn select_greedy(&self) -> (r: usize)
        requires
            self.wf(),
        ensures
            self.tracker_view().is_greedy(r as int),
    {
        let ghost v = self.tracker@;
        let n = self.tracker.arm_count();
        let mut best: usize = 0;
        let mut best_mean = self.tracker.mean(0);
        let mut i: usize = 1;
        while i < n
            invariant
                self.tracker.wf(),
                v == self.tracker@,
                n == v.pulls.len(),
                best < i <= n,
                best_mean.0 as int == v.mean(best as int).0,
                best_mean.1 as int == v.mean(best as int).1,
                forall|b: int| 0 <= b < i ==> !#[trigger] v.exceeds(b, best as int),
                forall|b: int| 0 <= b < best ==> #[trigger] v.exceeds(best as int, b),
            decreases n - i,
        {
            let m = self.tracker.mean(i);
            proof {
                lemma_wide_product(m.0, best_mean.1);
                lemma_wide_product(best_mean.0, m.1);
            }
            let lhs = (m.0 as u128) * (best_mean.1 as u128);
            let rhs = (best_mean.0 as u128) * (m.1 as u128);
            if lhs > rhs {
                proof {
                    let (p, q) = v.mean(i as int);
                    let (x, y) = v.mean(best as int);
                    assert forall|b: int| 0 <= b < i + 1 implies !#[trigger] v.exceeds(b, i as int) by {
                        if b < i {
                            let (s, t) = v.mean(b);
                            assert(!v.exceeds(b, best as int));
                            lemma_fraction_trans(s, t, x, y, p, q);
                        }
                    }
                    assert forall|b: int| 0 <= b < i implies #[trigger] v.exceeds(i as int, b) by {
                        let (s, t) = v.mean(b);
                        assert(!v.exceeds(b, best as int));
                        lemma_fraction_trans(s, t, x, y, p, q);
                    }
                }
                best = i;
                best_mean = m;
            }
            i = i + 1;
        }
        best
    }

    /// A uniformly random arm.
    pub fn select_random(&self, rng: &mut StdRng) -> (r: usize)
        requires
            self.wf(),
        ensures
            r < self.tracker_view().pulls.len(),
    {
        let n = self.tracker.arm_count();
        draw_below(rng, n as u64) as usize
    }

    /// The decision for an exploration draw `explore_draw` in `0..PROB_SCALE`
    /// and a random arm `random_arm`: the greedy arm when the draw is at least
    /// `epsilon`, else the random arm.
    pub fn policy_for_draws(&self, explore_draw: u64, random_arm: usize) -> (r: usize)
        requires
            self.wf(),
        ensures
            explore_draw >= self.epsilon_spec() ==> self.tracker_view().is_greedy(r as int),
            explore_draw < self.epsilon_spec() ==> r == random_arm,
    {
        if explore_draw >= self.epsilon {
            self.select_greedy()
        } else {
            random_arm
        }
    }

    /// Chooses an arm: draws `u` uniformly in `0..PROB_SCALE` and a uniformly
    /// random arm, and decides by `policy_for_draws`: with probability
    /// `epsilon` the random arm, otherwise the greedy one. With `epsilon` 0 it
    /// is always the greedy arm.
    pub fn policy(&self, rng: &mut StdRng) -> (r: usize)
        requires
            self.wf(),
        ensures
            r < self.tracker_view().pulls.len(),
            exists|u: int, random_arm: int| #[trigger] self.decides(u, random_arm, r as int),
            self.epsilon_spec() == 0 ==> self.tracker_view().is_greedy(r as int),
    {
        let u = draw_below(rng, PROB_SCALE);
        let random_arm = self.select_random(rng);
        let r = self.policy_for_draws(u, random_arm);
        assert(self.decides(u as int, random_arm as int, r as int));
        r
    }

    /// One step: chooses an arm by `policy`, pulls it in `env` and records the
    /// reward.
    pub fn act(&mut self, env: &Environment, rng: &mut StdRng)
        requires
            old(self).wf(),
            env.wf(),
            env@.len() == old(self).tracker_view().pulls.len(),
            old(self).tracker_view().total_pulls < u64::MAX,
        ensures
            final(self).wf(),
            final(self).epsilon_spec() == old(self).epsilon_spec(),
            exists|a: int, reward: int|
                0 <= a < env@.len() && 0 <= reward <= 1 && final(self).tracker_view()
                    == old(self).tracker_view().record(a, reward) && (old(self).epsilon_spec() == 0
                    ==> old(self).tracker_view().is_greedy(a)) && (env@[a] == 0 ==> reward == 0)
                    && (env@[a] == PROB_SCALE ==> reward == 1),
    {
        let action = self.policy(rng);
        let reward = env.pull(rng, action);
        self.tracker.update(action, reward);
    }
}

} // verus!
