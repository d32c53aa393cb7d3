use crate::random::draw_below;
use rand::rngs::StdRng;
use vstd::prelude::*;

verus! {

/// Probabilities are fractions of this scale: `PROB_SCALE` stands for 1.
pub const PROB_SCALE: u64 = 1_000_000;

/// A set of arms, each paying 1 with a fixed probability and 0 otherwise.
pub struct Environment {
    success_probability: Vec<u64>,
}

impl View for Environment {
    type V = Seq<u64>;

    /// Success probability of each arm, in units of `1 / PROB_SCALE`.
    closed spec fn view(&self) -> Seq<u64> {
        self.success_probability@
    }
}

impl Environment {
    /// At least one arm, and every probability at most `PROB_SCALE`.
    pub open spec fn wf(&self) -> bool {
        &&& self@.len() > 0
        &&& forall|a: int| 0 <= a < self@.len() ==> #[trigger] self@[a] <= PROB_SCALE
    }

    /// An environment with one arm per entry of `success_probability`, each
    /// given in units of `1 / PROB_SCALE`.
    pub fn new(success_probability: Vec<u64>) -> (r: Environment)
        requires
            success_probability@.len() > 0,
            forall|a: int|
                0 <= a < success_probability@.len() ==> #[trigger] success_probability@[a]
                    <= PROB_SCALE,
        ensures
            r.wf(),
            r@ == success_probability@,
    {
        Environment { success_probability }
    }

    /// Number of arms.
    pub fn arm_count(&self) -> (r: usize)
        ensures
            r == self@.len(),
    {
        self.success_probability.len()
    }

    /// Success probability of arm `a`, in units of `1 / PROB_SCALE`.
    pub fn success_probability(&self, a: usize) -> (r: u64)
        requires
            a < self@.len(),
        ensures
            r == self@[a as int],
    {
        self.success_probability[a]
    }

    /// The reward of arm `action` for a uniform draw `draw` in
    /// `0..PROB_SCALE`: 1 when the draw falls below the arm's probability,
    /// else 0.
    pub fn reward_for_draw(&self, action: usize, draw: u64) -> (r: u64)
        requires
            action < self@.len(),
        ensures
            r == if draw < self@[action as int] { 1u64 } else { 0u64 },
    {
        if draw < self.success_probability[action] {
            1
        } else {
            0
        }
    }

    /// Pulls arm `action`: draws uniformly in `0..PROB_SCALE` and pays 1 when
    /// the draw is below the arm's probability. The reward is 0 or 1; it is
    /// always 0 for probability 0 and always 1 for probability `PROB_SCALE`.
    pub fn pull(&self, rng: &mut StdRng, action: usize) -> (r: u64)
        requires
            self.wf(),
            action < self@.len(),
        ensures
            r <= 1,
            self@[action as int] == 0 ==> r == 0,
            self@[action as int] == PROB_SCALE ==> r == 1,
    {
        let draw = draw_below(rng, PROB_SCALE);
        self.reward_for_draw(action, draw)
    }
}

} // verus!
