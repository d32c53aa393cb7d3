use vstd::prelude::*;

verus! {

/// Sum of a sequence of integers.
pub open spec fn total(s: Seq<int>) -> int
    decreases s.len(),
{
    if s.len() == 0 {
        0
    } else {
        total(s.drop_last()) + s.last()
    }
}

/// Number of entries of `h` (pairs of arm and reward) that concern arm `a`.
pub open spec fn pulls_in(h: Seq<(int, int)>, a: int) -> int
    decreases h.len(),
{
    if h.len() == 0 {
        0
    } else {
        pulls_in(h.drop_last(), a) + if h.last().0 == a { 1int } else { 0int }
    }
}

/// Sum of the rewards recorded in `h` for arm `a`.
pub open spec fn rewards_in(h: Seq<(int, int)>, a: int) -> int
    decreases h.len(),
{
    if h.len() == 0 {
        0
    } else {
        rewards_in(h.drop_last(), a) + if h.last().0 == a { h.last().1 } else { 0int }
    }
}

/// Sum of all rewards recorded in `h`.
pub open spec fn all_rewards_in(h: Seq<(int, int)>) -> int
    decreases h.len(),
{
    if h.len() == 0 {
        0
    } else {
        all_rewards_in(h.drop_last()) + h.last().1
    }
}

/// Every entry of `h` names an arm below `n` and carries a reward of 0 or 1.
pub open spec fn valid_history(n: nat, h: Seq<(int, int)>) -> bool {
    forall|i: int|
        0 <= i < h.len() ==> 0 <= #[trigger] h[i].0 < n && 0 <= h[i].1 <= 1
}

/// Abstract state of a tracker: per-arm pull counts and reward sums, and the
/// aggregate pull count and reward sum.
pub struct TrackerView {
    pub pulls: Seq<int>,
    pub rewards: Seq<int>,
    pub total_pulls: int,
    pub total_reward: int,
}

impl TrackerView {
    /// The state of a fresh tracker over `n` arms.
    pub open spec fn empty(n: nat) -> TrackerView {
        TrackerView {
            pulls: Seq::new(n, |i: int| 0int),
            rewards: Seq::new(n, |i: int| 0int),
            total_pulls: 0,
            total_reward: 0,
        }
    }

    /// The state after recording `reward` for arm `a`.
    pub open spec fn record(self, a: int, reward: int) -> TrackerView {
        TrackerView {
            pulls: self.pulls.update(a, self.pulls[a] + 1),
            rewards: self.rewards.update(a, self.rewards[a] + reward),
            total_pulls: self.total_pulls + 1,
            total_reward: self.total_reward + reward,
        }
    }

    /// The state reached from a fresh tracker over `n` arms by recording the
    /// entries of `h` in order.
    pub open spec fn replay(n: nat, h: Seq<(int, int)>) -> TrackerView
        decreases h.len(),
    {
        if h.len() == 0 {
            TrackerView::empty(n)
        } else {
            TrackerView::replay(n, h.drop_last()).record(h.last().0, h.last().1)
        }
    }

    /// The mean reward of arm `a` as a fraction (numerator, denominator);
    /// 0/1 for an arm never pulled.
    pub open spec fn mean(self, a: int) -> (int, int) {
        if self.pulls[a] == 0 {
            (0, 1)
        } else {
            (self.rewards[a], self.pulls[a])
        }
    }

    /// Arm `a`'s mean reward is strictly greater than arm `b`'s.
    pub open spec fn exceeds(self, a: int, b: int) -> bool {
        self.mean(a).0 * self.mean(b).1 > self.mean(b).0 * self.mean(a).1
    }

    /// `g` is the greedy arm: no arm's mean exceeds its mean, and its mean
    /// exceeds that of every arm before it (ties go to the lowest index).
    pub open spec fn is_greedy(self, g: int) -> bool {
        &&& 0 <= g < self.pulls.len()
        &&& forall|b: int| 0 <= b < self.pulls.len() ==> !#[trigger] self.exceeds(b, g)
        &&& forall|b: int| 0 <= b < g ==> #[trigger] self.exceeds(g, b)
    }
}

/// The product of two `u64` values fits in a `u128`.
pub proof fn lemma_wide_product(a: u64, b: u64)
    ensures
        (a as int) * (b as int) <= u128::MAX,
{
    assert((a as int) * (b as int) <= (u64::MAX as int) * (u64::MAX as int)) by (nonlinear_arith)
        requires a as int <= u64::MAX as int, b as int <= u64::MAX as int, 0 <= a as int, 0 <= b as int;
}

/// Strict-then-weak comparison of fractions with positive denominators is
/// transitive: a/b < c/d <= e/f, or a/b <= c/d < e/f, gives a/b < e/f.
pub proof fn lemma_fraction_trans(a: int, b: int, c: int, d: int, e: int, f: int)
    requires
        b > 0,
        d > 0,
        f > 0,
        a * d <= c * b,
        c * f <= e * d,
        a * d < c * b || c * f < e * d,
    ensures
        a * f < e * b,
{
    assert(a * d * f <= c * b * f) by (nonlinear_arith)
        requires a * d <= c * b, f > 0;
    assert(c * f * b <= e * d * b) by (nonlinear_arith)
        requires c * f <= e * d, b > 0;
    assert(a * d * f < c * b * f || c * f * b < e * d * b) by (nonlinear_arith)
        requires a * d < c * b || c * f < e * d, b > 0, f > 0;
    assert((a * f) * d < (e * b) * d) by (nonlinear_arith)
        requires a * d * f <= c * b * f, c * f * b <= e * d * b,
            a * d * f < c * b * f || c * f * b < e * d * b;
    assert(a * f < e * b) by (nonlinear_arith)
        requires (a * f) * d < (e * b) * d, d > 0;
}

/// The greedy arm is unique: any two arms that both meet the greedy
/// characterisation are the same arm.
pub proof fn lemma_greedy_unique(v: TrackerView, g1: int, g2: int)
    requires
        v.is_greedy(g1),
        v.is_greedy(g2),
    ensures
        g1 == g2,
{
    if g1 < g2 {
        assert(v.exceeds(g2, g1));
        assert(!v.exceeds(g2, g1));
    } else if g2 < g1 {
        assert(v.exceeds(g1, g2));
        assert(!v.exceeds(g1, g2));
    }
}

/// Per-arm pull counts and reward sums, with their aggregates.
///
/// Rewards are 0 or 1, so the value estimate of an arm is the exact fraction
/// `reward_sum[a] / pull_count[a]`, the arithmetic mean of its rewards.
pub struct ValueTracker {
    pull_count: Vec<u64>,
    reward_sum: Vec<u64>,
    total_pulls: u64,
    total_reward: u64,
}

impl View for ValueTracker {
    type V = TrackerView;

    closed spec fn view(&self) -> TrackerView {
        TrackerView {
            pulls: self.pull_count@.map_values(|x: u64| x as int),
            rewards: self.reward_sum@.map_values(|x: u64| x as int),
            total_pulls: self.total_pulls as int,
            total_reward: self.total_reward as int,
        }
    }
}

proof fn lemma_total_update(s: Seq<int>, i: int, d: int)
    requires
        0 <= i < s.len(),
    ensures
        total(s.update(i, s[i] + d)) == total(s) + d,
    decreases s.len(),
{
    let t = s.update(i, s[i] + d);
    if i == s.len() - 1 {
        assert(t.drop_last() =~= s.drop_last());
    } else {
        lemma_total_update(s.drop_last(), i, d);
        assert(t.drop_last() =~= s.drop_last().update(i, s[i] + d));
    }
}

proof fn lemma_total_zero(n: nat)
    ensures
        total(Seq::new(n, |i: int| 0int)) == 0,
    decreases n,
{
    if n > 0 {
        lemma_total_zero((n - 1) as nat);
        assert(Seq::new(n, |i: int| 0int).drop_last() =~= Seq::new((n - 1) as nat, |i: int| 0int));
    }
}

proof fn lemma_total_bounded(s: Seq<int>, b: Seq<int>)
    requires
        s.len() == b.len(),
        forall|i: int| 0 <= i < s.len() ==> 0 <= #[trigger] s[i] <= b[i],
    ensures
        0 <= total(s) <= total(b),
    decreases s.len(),
{
    if s.len() > 0 {
        lemma_total_bounded(s.drop_last(), b.drop_last());
    }
}

proof fn lemma_elem_le_total(s: Seq<int>, i: int)
    requires
        0 <= i < s.len(),
        forall|j: int| 0 <= j < s.len() ==> 0 <= #[trigger] s[j],
    ensures
        s[i] <= total(s),
    decreases s.len(),
{
    if i < s.len() - 1 {
        lemma_elem_le_total(s.drop_last(), i);
    }
    lemma_total_bounded(s.drop_last(), s.drop_last());
}

impl ValueTracker {
    /// The tracker's invariant: one count and one reward sum per arm, at least
    /// one arm, no arm with more reward than pulls, and aggregates equal to
    /// the sums of the per-arm values.
    pub open spec fn wf(&self) -> bool {
        &&& self@.pulls.len() > 0
        &&& self@.rewards.len() == self@.pulls.len()
        &&& forall|a: int|
            0 <= a < self@.pulls.len() ==> 0 <= #[trigger] self@.rewards[a] <= self@.pulls[a]
        &&& self@.total_pulls == total(self@.pulls)
        &&& self@.total_reward == total(self@.rewards)
    }

    /// Number of arms tracked.
    pub open spec fn arms(&self) -> nat {
        self@.pulls.len()
    }

    /// A fresh tracker over `arm_count` arms, with every count and sum at 0.
    pub fn new(arm_count: usize) -> (r: ValueTracker)
        requires
            arm_count > 0,
        ensures
            r.wf(),
            r@ == TrackerView::empty(arm_count as nat),
    {
        let r = ValueTracker {
            pull_count: vec![0u64; arm_count],
            reward_sum: vec![0u64; arm_count],
            total_pulls: 0,
            total_reward: 0,
        };
        proof {
            lemma_total_zero(arm_count as nat);
            assert(r@.pulls =~= Seq::new(arm_count as nat, |i: int| 0int));
            assert(r@.rewards =~= Seq::new(arm_count as nat, |i: int| 0int));
        }
        r
    }

    /// Records `reward` (0 or 1) for arm `action`: the arm's reward sum grows
    /// by `reward` over its count before the pull, and its count then by one,
    /// so its estimate stays the mean of its rewards.
    pub fn update(&mut self, action: usize, reward: u64)
        requires
            old(self).wf(),
            action < old(self).arms(),
            reward <= 1,
            old(self)@.total_pulls < u64::MAX,
        ensures
            final(self).wf(),
            final(self).arms() == old(self).arms(),
            final(self)@ == old(self)@.record(action as int, reward as int),
    {
        let ghost before = self@;
        let c = self.pull_count[action];
        let s = self.reward_sum[action];
        proof {
            lemma_elem_le_total(before.pulls, action as int);
            lemma_total_bounded(before.rewards, before.pulls);
            assert(before.rewards[action as int] <= before.pulls[action as int]);
            assert(s <= c);
        }
        self.reward_sum.set(action, s + reward);
        self.pull_count.set(action, c + 1);
        self.total_pulls = self.total_pulls + 1;
        self.total_reward = self.total_reward + reward;
        proof {
            lemma_total_update(before.pulls, action as int, 1);
            lemma_total_update(before.rewards, action as int, reward as int);
            assert(self@.pulls =~= before.pulls.update(action as int, before.pulls[action as int] + 1));
            assert(self@.rewards =~= before.rewards.update(
                action as int,
                before.rewards[action as int] + reward,
            ));
        }
    }
}

/// Replaying any sequence of updates on a fresh tracker over `n` arms leaves,
/// for every arm, a pull count equal to the number of updates of that arm and
/// a reward sum equal to the sum of their rewards, so that the arm's estimate
/// is the arithmetic mean of its rewards (0 before any pull); the aggregate
/// pull count is the number of updates and the sum of the per-arm counts, and
/// the aggregate reward is the sum of all rewards.
pub proof fn lemma_replay_tracks_history(n: nat, h: Seq<(int, int)>, a: int)
    requires
        n > 0,
        valid_history(n, h),
        0 <= a < n,
    ensures
        TrackerView::replay(n, h).pulls.len() == n,
        TrackerView::replay(n, h).rewards.len() == n,
        TrackerView::replay(n, h).pulls[a] == pulls_in(h, a),
        TrackerView::replay(n, h).rewards[a] == rewards_in(h, a),
        TrackerView::replay(n, h).total_pulls == h.len(),
        TrackerView::replay(n, h).total_pulls == total(TrackerView::replay(n, h).pulls),
        TrackerView::replay(n, h).total_reward == all_rewards_in(h),
        TrackerView::replay(n, h).total_reward == total(TrackerView::replay(n, h).rewards),
        TrackerView::replay(n, h).mean(a) == (if pulls_in(h, a) == 0 {
            (0int, 1int)
        } else {
            (rewards_in(h, a), pulls_in(h, a))
        }),
    decreases h.len(),
{
    if h.len() == 0 {
        lemma_total_zero(n);
    } else {
        let g = h.drop_last();
        assert(valid_history(n, g)) by {
            assert forall|i: int| 0 <= i < g.len() implies 0 <= #[trigger] g[i].0 < n && 0 <= g[i].1
                <= 1 by {
                assert(g[i] == h[i]);
            }
        }
        let (b, r) = h.last();
        assert(h[h.len() - 1] == h.last());
        lemma_replay_tracks_history(n, g, a);
        lemma_replay_tracks_history(n, g, b);
        let v = TrackerView::replay(n, g);
        lemma_total_update(v.pulls, b, 1);
        lemma_total_update(v.rewards, b, r);
    }
}

impl ValueTracker {
    /// Number of arms.
    pub fn arm_count(&self) -> (r: usize)
        requires
            self.wf(),
        ensures
            r == self.arms(),
    {
        self.pull_count.len()
    }

    /// How many times arm `a` was pulled.
    pub fn pull_count(&self, a: usize) -> (r: u64)
        requires
            self.wf(),
            a < self.arms(),
        ensures
            r == self@.pulls[a as int],
    {
        self.pull_count[a]
    }

    /// Sum of the rewards observed for arm `a`.
    pub fn reward_sum(&self, a: usize) -> (r: u64)
        requires
            self.wf(),
            a < self.arms(),
        ensures
            r == self@.rewards[a as int],
    {
        self.reward_sum[a]
    }

    /// Mean reward of arm `a` as a fraction (numerator, denominator): the
    /// reward sum over the pull count, or 0/1 for an arm never pulled.
    pub fn mean(&self, a: usize) -> (r: (u64, u64))
        requires
            self.wf(),
            a < self.arms(),
        ensures
            r.0 as int == self@.mean(a as int).0,
            r.1 as int == self@.mean(a as int).1,
            r.1 > 0,
    {
        let c = self.pull_count[a];
        if c == 0 {
            (0, 1)
        } else {
            (self.reward_sum[a], c)
        }
    }

    /// Total number of pulls over all arms.
    pub fn total_pulls(&self) -> (r: u64)
        ensures
            r == self@.total_pulls,
    {
        self.total_pulls
    }

    /// Sum of all rewards over all arms.
    pub fn total_reward(&self) -> (r: u64)
        ensures
            r == self@.total_reward,
    {
        self.total_reward
    }
}

} // verus!
