use crate::environment::{Environment, PROB_SCALE};
use crate::tracker::{TrackerView, ValueTracker};
use rand::rngs::StdRng;
use vstd::arithmetic::div_mod::{lemma_div_is_ordered, lemma_div_is_ordered_by_denominator};
use vstd::prelude::*;

verus! {

/// Scores are fractions of this scale: `SCORE_SCALE` stands for 1.
pub const SCORE_SCALE: u64 = 1_000_000;

/// Largest accepted natural logarithm of the pull total, in units of
/// `1 / SCORE_SCALE` (100; the logarithm of any `u64` is below 45).
pub const LOG_LIMIT: u64 = 100_000_000;

/// Inputs of `isqrt` lie below this bound, 2 to the power 50.
pub const ISQRT_LIMIT: u64 = 1_125_899_906_842_624;

/// Integer square root: the largest `r` with `r * r <= x`.
pub open spec fn root(x: int) -> int
    decreases x,
{
    if x <= 0 {
        0
    } else if (root(x - 1) + 1) * (root(x - 1) + 1) <= x {
        root(x - 1) + 1
    } else {
        root(x - 1)
    }
}

/// `root(x)` squared is at most `x`, and its successor squared exceeds `x`.
pub proof fn lemma_root(x: int)
    requires
        x >= 0,
    ensures
        root(x) >= 0,
        root(x) * root(x) <= x < (root(x) + 1) * (root(x) + 1),
    decreases x,
{
    if x > 0 {
        lemma_root(x - 1);
        let r = root(x - 1);
        assert((r + 1) * (r + 1) < (r + 2) * (r + 2)) by (nonlinear_arith)
            requires r >= 0;
    }
}

proof fn lemma_root_unique(x: int, r: int)
    requires
        x >= 0,
        r >= 0,
        r * r <= x < (r + 1) * (r + 1),
    ensures
        root(x) == r,
{
    lemma_root(x);
    let s = root(x);
    if s < r {
        assert((s + 1) * (s + 1) <= r * r) by (nonlinear_arith)
            requires s + 1 <= r, s >= 0;
    } else if r < s {
        assert((r + 1) * (r + 1) <= s * s) by (nonlinear_arith)
            requires r + 1 <= s, r >= 0;
    }
}

/// The integer square root does not decrease as its argument grows.
pub proof fn lemma_root_monotone(x: int, y: int)
    requires
        0 <= x <= y,
    ensures
        root(x) <= root(y),
{
    lemma_root(x);
    lemma_root(y);
    if root(y) < root(x) {
        let (a, b) = (root(y), root(x));
        assert((a + 1) * (a + 1) <= b * b) by (nonlinear_arith)
            requires a + 1 <= b, a >= 0;
    }
}

/// Integer square root of `x`.
pub fn isqrt(x: u64) -> (r: u64)
    requires
        x < ISQRT_LIMIT,
    ensures
        r == root(x as int),
        r < 33_554_432,
{
    let mut lo: u64 = 0;
    let mut hi: u64 = 33_554_432;
    assert(33_554_432 * 33_554_432 == ISQRT_LIMIT) by (nonlinear_arith);
    while hi - lo > 1
        invariant
            lo < hi <= 33_554_432,
            lo * lo <= x,
            x < hi * hi,
        decreases hi - lo,
    {
        let mid = lo + (hi - lo) / 2;
        assert(mid * mid <= 33_554_432 * 33_554_432) by (nonlinear_arith)
            requires mid <= 33_554_432;
        if mid * mid <= x {
            lo = mid;
        } else {
            hi = mid;
        }
    }
    proof {
        lemma_root_unique(x as int, lo as int);
    }
    lo
}

/// Every arm has been pulled at least once.
pub open spec fn warmed_up(v: TrackerView) -> bool {
    forall|a: int| 0 <= a < v.pulls.len() ==> #[trigger] v.pulls[a] > 0
}

/// Arm `a`'s mean reward on the score scale, rounded down (0 for an arm
/// never pulled).
pub open spec fn exploitation_spec(v: TrackerView, a: int) -> int {
    v.mean(a).0 * SCORE_SCALE / v.mean(a).1
}

/// Arm `a`'s exploration bonus `sqrt(2 * ln(total) / pulls[a])` on the score
/// scale, rounded down, for `log_total` the logarithm of the pull total on
/// that scale.
pub open spec fn bonus_spec(v: TrackerView, a: int, log_total: int) -> int {
    root(2 * log_total * SCORE_SCALE / v.pulls[a])
}

/// Arm `a`'s upper confidence bound on the score scale: estimate plus bonus.
pub open spec fn ucb_score(v: TrackerView, a: int, log_total: int) -> int {
    exploitation_spec(v, a) + bonus_spec(v, a, log_total)
}

/// Order of candidates given by score and pull count: entry `a` is preferred
/// to entry `b` when its score is higher, or when the scores are equal and
/// `a` has fewer pulls. Of two arms with equal estimates the one with fewer
/// pulls has the strictly larger exact bonus, so a tie left by rounding goes
/// to it.
pub open spec fn preferred(score_a: int, pulls_a: int, score_b: int, pulls_b: int) -> bool {
    score_a > score_b || (score_a == score_b && pulls_a < pulls_b)
}

/// `g` is the best entry of `scores` and `pulls` under `preferred`: no entry
/// is preferred to it, and it is preferred to every earlier entry.
pub open spec fn is_first_best(scores: Seq<u64>, pulls: Seq<u64>, g: int) -> bool {
    &&& 0 <= g < scores.len()
    &&& forall|b: int|
        0 <= b < scores.len() ==> !#[trigger] preferred(
            scores[b] as int,
            pulls[b] as int,
            scores[g] as int,
            pulls[g] as int,
        )
    &&& forall|b: int|
        0 <= b < g ==> #[trigger] preferred(
            scores[g] as int,
            pulls[g] as int,
            scores[b] as int,
            pulls[b] as int,
        )
}

/// UCB1 prefers arm `a` to arm `b`.
pub open spec fn ucb_prefers(v: TrackerView, log_total: int, a: int, b: int) -> bool {
    preferred(ucb_score(v, a, log_total), v.pulls[a], ucb_score(v, b, log_total), v.pulls[b])
}

/// `g` is the UCB1 choice: no arm is preferred to it, and it is preferred to
/// every earlier arm (exact ties go to the lowest index).
pub open spec fn is_ucb_choice(v: TrackerView, log_total: int, g: int) -> bool {
    &&& 0 <= g < v.pulls.len()
    &&& forall|b: int| 0 <= b < v.pulls.len() ==> !#[trigger] ucb_prefers(v, log_total, b, g)
    &&& forall|b: int| 0 <= b < g ==> #[trigger] ucb_prefers(v, log_total, g, b)
}

/// Index of the best entry: the highest score; among equal scores the fewest
/// pulls; among those the lowest index.
pub fn select_best(scores: &Vec<u64>, pulls: &Vec<u64>) -> (r: usize)
    requires
        scores@.len() > 0,
        pulls@.len() == scores@.len(),
    ensures
        is_first_best(scores@, pulls@, r as int),
{
    let mut best: usize = 0;
    let mut i: usize = 1;
    while i < scores.len()
        invariant
            scores@.len() > 0,
            pulls@.len() == scores@.len(),
            best < i <= scores@.len(),
            forall|b: int|
                0 <= b < i ==> !#[trigger] preferred(
                    scores@[b] as int,
                    pulls@[b] as int,
                    scores@[best as int] as int,
                    pulls@[best as int] as int,
                ),
            forall|b: int|
                0 <= b < best ==> #[trigger] preferred(
                    scores@[best as int] as int,
                    pulls@[best as int] as int,
                    scores@[b] as int,
                    pulls@[b] as int,
                ),
        decreases scores@.len() - i,
    {
        if scores[i] > scores[best] || (scores[i] == scores[best] && pulls[i] < pulls[best]) {
            proof {
                let (si, pi) = (scores@[i as int] as int, pulls@[i as int] as int);
                let (sb, pb) = (scores@[best as int] as int, pulls@[best as int] as int);
                assert forall|b: int| 0 <= b < i + 1 implies !#[trigger] preferred(
                    scores@[b] as int,
                    pulls@[b] as int,
                    si,
                    pi,
                ) by {
                    if b < i {
                        assert(!preferred(scores@[b] as int, pulls@[b] as int, sb, pb));
                    }
                }
                assert forall|b: int| 0 <= b < i implies #[trigger] preferred(
                    si,
                    pi,
                    scores@[b] as int,
                    pulls@[b] as int,
                ) by {
                    assert(!preferred(scores@[b] as int, pulls@[b] as int, sb, pb));
                }
            }
            best = i;
        } else {
            proof {
                let (sb, pb) = (scores@[best as int] as int, pulls@[best as int] as int);
                assert forall|b: int| 0 <= b < i + 1 implies !#[trigger] preferred(
                    scores@[b] as int,
                    pulls@[b] as int,
                    sb,
                    pb,
                ) by {
                    if b < i {
                        assert(!preferred(scores@[b] as int, pulls@[b] as int, sb, pb));
                    }
                }
            }
        }
        i = i + 1;
    }
    best
}

/// Of two pulled arms with equal estimates, the one with fewer pulls is
/// strictly preferred by UCB1.
pub proof fn lemma_fewer_pulls_preferred(v: TrackerView, log_total: int, a: int, b: int)
    requires
        0 <= a < v.pulls.len(),
        0 <= b < v.pulls.len(),
        0 < v.pulls[a] < v.pulls[b],
        exploitation_spec(v, a) == exploitation_spec(v, b),
        log_total >= 0,
    ensures
        ucb_prefers(v, log_total, a, b),
{
    let k = 2 * log_total * SCORE_SCALE;
    lemma_div_is_ordered_by_denominator(k, v.pulls[a], v.pulls[b]);
    assert(k / v.pulls[b] >= 0) by (nonlinear_arith)
        requires k >= 0, v.pulls[b] > 0;
    lemma_root_monotone(k / v.pulls[b], k / v.pulls[a]);
}

/// With every arm pulled and every estimate at 0, the UCB1 choice is the
/// least-pulled arm, and the lowest index among the least-pulled arms.
pub proof fn lemma_zero_estimates_choose_least_pulled(v: TrackerView, log_total: int, g: int)
    requires
        v.rewards.len() == v.pulls.len(),
        warmed_up(v),
        forall|a: int| 0 <= a < v.pulls.len() ==> #[trigger] v.rewards[a] == 0,
        log_total >= 0,
        is_ucb_choice(v, log_total, g),
    ensures
        forall|b: int| 0 <= b < v.pulls.len() ==> v.pulls[g] <= #[trigger] v.pulls[b],
        forall|b: int| 0 <= b < g ==> v.pulls[g] < #[trigger] v.pulls[b],
{
    assert forall|b: int| 0 <= b < v.pulls.len() implies v.pulls[g] <= #[trigger] v.pulls[b] by {
        assert(v.pulls[b] > 0 && v.rewards[b] == 0 && v.rewards[g] == 0);
        if v.pulls[b] < v.pulls[g] {
            lemma_fewer_pulls_preferred(v, log_total, b, g);
            assert(!ucb_prefers(v, log_total, b, g));
        }
    }
    assert forall|b: int| 0 <= b < g implies v.pulls[g] < #[trigger] v.pulls[b] by {
        assert(v.pulls[b] > 0 && v.rewards[b] == 0 && v.rewards[g] == 0);
        assert(ucb_prefers(v, log_total, g, b));
        assert(v.pulls[g] <= v.pulls[b]);
        if v.pulls[g] == v.pulls[b] {
            assert(exploitation_spec(v, g) == exploitation_spec(v, b));
            assert(bonus_spec(v, g, log_total) == bonus_spec(v, b, log_total));
        }
    }
}

/// UCB1: chooses the arm with the highest mean reward plus exploration bonus
/// `sqrt(2 * ln(total) / pulls[a])`, after a warm-up that pulls each arm once.
pub struct OptimisticAgent {
    tracker: ValueTracker,
}

impl OptimisticAgent {
    /// The agent's tracker.
    pub closed spec fn tracker_view(&self) -> TrackerView {
        self.tracker@
    }

    /// The tracker holds its invariant.
    pub closed spec fn wf(&self) -> bool {
        self.tracker.wf()
    }

    /// A fresh agent over `arm_count` arms.
    pub fn new(arm_count: usize) -> (r: OptimisticAgent)
        requires
            arm_count > 0,
        ensures
            r.wf(),
            r.tracker_view() == TrackerView::empty(arm_count as nat),
    {
        OptimisticAgent { tracker: ValueTracker::new(arm_count) }
    }

    /// The agent's tracker.
    pub fn tracker(&self) -> (r: &ValueTracker)
        requires
            self.wf(),
        ensures
            r.wf(),
            r@ == self.tracker_view(),
    {
        &self.tracker
    }

    /// The next warm-up pull: the first arm never pulled, or `None` once
    /// every arm has been pulled.
    pub fn warmup_action(&self) -> (r: Option<usize>)
        requires
            self.wf(),
        ensures
            r is None <==> warmed_up(self.tracker_view()),
            r matches Some(a) ==> a < self.tracker_view().pulls.len() && self.tracker_view().pulls[a as int] == 0
                && forall|b: int| 0 <= b < a ==> #[trigger] self.tracker_view().pulls[b] > 0,
    {
        let n = self.tracker.arm_count();
        let mut i: usize = 0;
        while i < n
            invariant
                self.tracker.wf(),
                n == self.tracker@.pulls.len(),
                i <= n,
                forall|b: int| 0 <= b < i ==> #[trigger] self.tracker@.pulls[b] > 0,
            decreases n - i,
        {
            if self.tracker.pull_count(i) == 0 {
                return Some(i);
            }
            i = i + 1;
        }
        None
    }

    /// Arm `a`'s mean reward on the score scale, rounded down.
    pub fn exploitation_value(&self, a: usize) -> (r: u64)
        requires
            self.wf(),
            a < self.tracker_view().pulls.len(),
        ensures
            r == exploitation_spec(self.tracker_view(), a as int),
            r <= SCORE_SCALE,
    {
        let (s, c) = self.tracker.mean(a);
        let num = (s as u128) * (SCORE_SCALE as u128);
        proof {
            let (si, ci) = (s as int, c as int);
            assert(si <= ci);
            assert(si * SCORE_SCALE <= ci * SCORE_SCALE) by (nonlinear_arith)
                requires si <= ci;
            lemma_div_is_ordered(si * SCORE_SCALE, ci * SCORE_SCALE, ci);
            assert((ci * SCORE_SCALE) / ci == SCORE_SCALE) by (nonlinear_arith)
                requires ci > 0;
        }
        (num / (c as u128)) as u64
    }

    /// Arm `a`'s exploration bonus on the score scale, rounded down, for
    /// `log_total` the natural logarithm of the pull total on that scale.
    pub fn exploration_bonus(&self, a: usize, log_total: u64) -> (r: u64)
        requires
            self.wf(),
            a < self.tracker_view().pulls.len(),
            self.tracker_view().pulls[a as int] > 0,
            log_total <= LOG_LIMIT,
        ensures
            r == bonus_spec(self.tracker_view(), a as int, log_total as int),
            r < 33_554_432,
    {
        let c = self.tracker.pull_count(a);
        let k = 2 * log_total * SCORE_SCALE;
        let q = k / c;
        isqrt(q)
    }

    /// The UCB1 score of every arm.
    pub fn scores(&self, log_total: u64) -> (r: Vec<u64>)
        requires
            self.wf(),
            warmed_up(self.tracker_view()),
            log_total <= LOG_LIMIT,
        ensures
            r@.len() == self.tracker_view().pulls.len(),
            forall|a: int| 0 <= a < r@.len() ==> #[trigger] r@[a] == ucb_score(self.tracker_view(), a, log_total as int),
    {
        let n = self.tracker.arm_count();
        let mut r: Vec<u64> = Vec::new();
        let mut i: usize = 0;
        while i < n
            invariant
                self.wf(),
                warmed_up(self.tracker_view()),
                log_total <= LOG_LIMIT,
                n == self.tracker_view().pulls.len(),
                i <= n,
                r@.len() == i,
                forall|a: int| 0 <= a < i ==> #[trigger] r@[a] == ucb_score(self.tracker_view(), a, log_total as int),
            decreases n - i,
        {
            assert(self.tracker_view().pulls[i as int] > 0);
            let s = self.exploitation_value(i) + self.exploration_bonus(i, log_total);
            r.push(s);
            i = i + 1;
        }
        r
    }

    /// The UCB1 choice: the arm with the highest score; on equal scores the
    /// one with fewer pulls (the larger exact bonus), then the lowest index.
    /// Every arm must have been pulled, so no bonus divides by zero.
    pub fn policy(&self, log_total: u64) -> (r: usize)
        requires
            self.wf(),
            warmed_up(self.tracker_view()),
            log_total <= LOG_LIMIT,
        ensures
            is_ucb_choice(self.tracker_view(), log_total as int, r as int),
            (forall|a: int| 0 <= a < self.tracker_view().pulls.len() ==> #[trigger] self.tracker_view().rewards[a] == 0)
                ==> (forall|b: int| 0 <= b < self.tracker_view().pulls.len()
                    ==> self.tracker_view().pulls[r as int] <= #[trigger] self.tracker_view().pulls[b])
                && (forall|b: int| 0 <= b < r ==> self.tracker_view().pulls[r as int] < #[trigger] self.tracker_view().pulls[b]),
    {
        let s = self.scores(log_total);
        let n = self.tracker.arm_count();
        let mut pulls: Vec<u64> = Vec::new();
        let mut i: usize = 0;
        while i < n
            invariant
                self.tracker.wf(),
                n == self.tracker@.pulls.len(),
                i <= n,
                pulls@.len() == i,
                forall|a: int| 0 <= a < i ==> #[trigger] pulls@[a] as int == self.tracker@.pulls[a],
            decreases n - i,
        {
            pulls.push(self.tracker.pull_count(i));
            i = i + 1;
        }
        let r = select_best(&s, &pulls);
        proof {
            let v = self.tracker_view();
            let l = log_total as int;
            assert forall|b: int| 0 <= b < v.pulls.len() implies !#[trigger] ucb_prefers(v, l, b, r as int) by {
                assert(!preferred(s@[b] as int, pulls@[b] as int, s@[r as int] as int, pulls@[r as int] as int));
            }
            assert forall|b: int| 0 <= b < r implies #[trigger] ucb_prefers(v, l, r as int, b) by {
                assert(preferred(s@[r as int] as int, pulls@[r as int] as int, s@[b] as int, pulls@[b] as int));
            }
            if forall|a: int| 0 <= a < v.pulls.len() ==> #[trigger] v.rewards[a] == 0 {
                lemma_zero_estimates_choose_least_pulled(v, l, r as int);
            }
        }
        r
    }

    /// Pulls arm `action`, chosen by the caller (warm-up or `policy`), in
    /// `env` and records the reward.
    pub fn act(&mut self, env: &Environment, rng: &mut StdRng, action: usize)
        requires
            old(self).wf(),
            env.wf(),
            env@.len() == old(self).tracker_view().pulls.len(),
            action < env@.len(),
            old(self).tracker_view().total_pulls < u64::MAX,
        ensures
            final(self).wf(),
            exists|reward: int|
                0 <= reward <= 1 && final(self).tracker_view() == old(self).tracker_view().record(
                    action as int,
                    reward,
                ) && (env@[action as int] == 0 ==> reward == 0) && (env@[action as int]
                    == PROB_SCALE ==> reward == 1),
    {
        let reward = env.pull(rng, action);
        self.tracker.update(action, reward);
    }
}

} // verus!
