use crate::tracker::{lemma_wide_product, ValueTracker};
use vstd::prelude::*;

verus! {

/// When a run may stop: after at least `min_trials` pulls, with an average
/// reward of at least `target_num / target_den`.
pub struct StopRule {
    pub min_trials: u64,
    pub target_num: u64,
    pub target_den: u64,
}

impl StopRule {
    /// A rule with the given minimum number of pulls and target average
    /// `target_num / target_den`.
    pub fn new(min_trials: u64, target_num: u64, target_den: u64) -> (r: StopRule)
        requires
            target_den > 0,
        ensures
            r.min_trials == min_trials,
            r.target_num == target_num,
            r.target_den == target_den,
    {
        StopRule { min_trials, target_num, target_den }
    }

    /// Whether the run goes on: fewer than `min_trials` pulls so far, or an
    /// average reward `total_reward / total_pulls` below the target. Once
    /// both bounds are met the run is done.
    pub fn keep_running(&self, tracker: &ValueTracker) -> (r: bool)
        requires
            self.target_den > 0,
        ensures
            r == (tracker@.total_pulls < self.min_trials || tracker@.total_reward * self.target_den
                < self.target_num * tracker@.total_pulls),
    {
        let t = tracker.total_pulls();
        if t < self.min_trials {
            return true;
        }
        let reward = tracker.total_reward();
        proof {
            lemma_wide_product(reward, self.target_den);
            lemma_wide_product(self.target_num, t);
        }
        let lhs = (reward as u128) * (self.target_den as u128);
        let rhs = (self.target_num as u128) * (t as u128);
        lhs < rhs
    }
}

} // verus!
