use bandit::{
    isqrt, select_best, select_by_weights, weight_total, Environment, EpsilonGreedyAgent,
    OptimisticAgent, SoftmaxAgent, StopRule, ValueTracker, BETA_SCALE, LOG_LIMIT, PROB_SCALE,
    SCORE_SCALE,
};
use rand::rngs::StdRng;
use rand::SeedableRng;

fn boltzmann_weights(tracker: &ValueTracker, beta: u64) -> Vec<u64> {
    let b = beta as f64 / BETA_SCALE as f64;
    (0..tracker.arm_count())
        .map(|a| {
            let (num, den) = tracker.mean(a);
            let w = ((num as f64 / den as f64) * b).exp() * 1000.0;
            w.round().max(1.0) as u64
        })
        .collect()
}

fn log_total(tracker: &ValueTracker) -> u64 {
    ((tracker.total_pulls() as f64).ln() * SCORE_SCALE as f64).floor() as u64
}

#[test]
fn tracker_starts_empty() {
    let t = ValueTracker::new(3);
    assert_eq!(t.arm_count(), 3);
    assert_eq!(t.total_pulls(), 0);
    assert_eq!(t.total_reward(), 0);
    for a in 0..3 {
        assert_eq!(t.pull_count(a), 0);
        assert_eq!(t.reward_sum(a), 0);
        assert_eq!(t.mean(a), (0, 1));
    }
}

#[test]
fn tracker_means_match_replayed_history() {
    let history: Vec<(usize, u64)> =
        vec![(0, 1), (2, 0), (0, 0), (1, 1), (0, 1), (2, 1), (2, 1), (0, 0), (1, 1)];
    let mut t = ValueTracker::new(4);
    let mut counts = [0u64; 4];
    let mut sums = [0u64; 4];
    for &(a, r) in &history {
        t.update(a, r);
        counts[a] += 1;
        sums[a] += r;
        assert_eq!(t.total_pulls(), counts.iter().sum::<u64>());
        assert_eq!(t.total_reward(), sums.iter().sum::<u64>());
    }
    for a in 0..4 {
        assert_eq!(t.pull_count(a), counts[a]);
        assert_eq!(t.reward_sum(a), sums[a]);
    }
    assert_eq!(t.mean(0), (2, 4));
    assert_eq!(t.mean(1), (2, 2));
    assert_eq!(t.mean(2), (2, 3));
    assert_eq!(t.mean(3), (0, 1));
    assert_eq!(t.total_pulls(), 9);
    assert_eq!(t.total_reward(), 6);
}

#[test]
fn reward_for_draw_compares_with_probability() {
    let env = Environment::new(vec![250_000, 0, PROB_SCALE]);
    assert_eq!(env.arm_count(), 3);
    assert_eq!(env.success_probability(0), 250_000);
    assert_eq!(env.reward_for_draw(0, 0), 1);
    assert_eq!(env.reward_for_draw(0, 249_999), 1);
    assert_eq!(env.reward_for_draw(0, 250_000), 0);
    assert_eq!(env.reward_for_draw(1, 0), 0);
    assert_eq!(env.reward_for_draw(2, PROB_SCALE - 1), 1);
}

#[test]
fn pull_is_binary_and_extremes_are_fixed() {
    let env = Environment::new(vec![0, PROB_SCALE, 500_000]);
    let mut rng = StdRng::seed_from_u64(1);
    for _ in 0..1000 {
        assert_eq!(env.pull(&mut rng, 0), 0);
        assert_eq!(env.pull(&mut rng, 1), 1);
        let r = env.pull(&mut rng, 2);
        assert!(r == 0 || r == 1);
    }
}

#[test]
fn pull_mean_converges_to_probability() {
    let env = Environment::new(vec![300_000]);
    let mut rng = StdRng::seed_from_u64(42);
    let n = 10_000;
    let mut sum = 0u64;
    for _ in 0..n {
        sum += env.pull(&mut rng, 0);
    }
    let mean = sum as f64 / n as f64;
    assert!((mean - 0.3).abs() < 0.05, "mean {}", mean);
}

#[test]
fn greedy_of_empty_tracker_is_first_arm() {
    let agent = EpsilonGreedyAgent::new(5, 100_000);
    assert_eq!(agent.select_greedy(), 0);
    assert_eq!(agent.epsilon(), 100_000);
}

#[test]
fn greedy_prefers_highest_mean_and_lowest_index_on_ties() {
    let env = Environment::new(vec![200_000, 800_000, 500_000]);
    let mut rng = StdRng::seed_from_u64(3);
    let mut agent = EpsilonGreedyAgent::new(3, PROB_SCALE);
    for _ in 0..300 {
        agent.act(&env, &mut rng);
    }
    let t = agent.tracker();
    let mut expected = 0;
    for a in 1..3 {
        let (n, d) = t.mean(a);
        let (bn, bd) = t.mean(expected);
        if n as u128 * bd as u128 > bn as u128 * d as u128 {
            expected = a;
        }
    }
    assert_eq!(agent.select_greedy(), expected);
    assert_eq!(expected, 1);

    let paying = Environment::new(vec![PROB_SCALE, PROB_SCALE]);
    let mut tied = EpsilonGreedyAgent::new(2, PROB_SCALE);
    for _ in 0..20 {
        tied.act(&paying, &mut rng);
    }
    assert!(tied.tracker().pull_count(1) > 0);
    assert_eq!(tied.select_greedy(), 0);
}

#[test]
fn policy_for_draws_splits_on_epsilon() {
    let agent = EpsilonGreedyAgent::new(4, 200_000);
    assert_eq!(agent.policy_for_draws(200_000, 3), 0);
    assert_eq!(agent.policy_for_draws(900_000, 3), 0);
    assert_eq!(agent.policy_for_draws(199_999, 3), 3);
    assert_eq!(agent.policy_for_draws(0, 2), 2);
}

#[test]
fn zero_epsilon_policy_is_always_greedy() {
    let env = Environment::new(vec![100_000, 900_000, 500_000]);
    let mut rng = StdRng::seed_from_u64(5);
    let mut agent = EpsilonGreedyAgent::new(3, 0);
    for _ in 0..200 {
        assert_eq!(agent.policy(&mut rng), agent.select_greedy());
        agent.act(&env, &mut rng);
    }
}

#[test]
fn full_epsilon_policy_is_uniform() {
    let agent = EpsilonGreedyAgent::new(4, PROB_SCALE);
    let mut rng = StdRng::seed_from_u64(11);
    let mut freq = [0u32; 4];
    let n = 20_000;
    for _ in 0..n {
        freq[agent.policy(&mut rng)] += 1;
    }
    for f in freq {
        let share = f as f64 / n as f64;
        assert!((share - 0.25).abs() < 0.02, "share {}", share);
    }
}

#[test]
fn greedy_without_exploration_stays_on_first_arm() {
    // Arm 0 never pays and arm 1 always does; with no exploration the
    // greedy choice keeps arm 0, whose mean 0 is never exceeded by arm 1's.
    let env = Environment::new(vec![0, PROB_SCALE]);
    let rule = StopRule::new(5, 9, 10);
    let mut rng = StdRng::seed_from_u64(9);
    let mut agent = EpsilonGreedyAgent::new(2, 0);
    for _ in 0..50 {
        assert!(rule.keep_running(agent.tracker()));
        agent.act(&env, &mut rng);
    }
    assert_eq!(agent.tracker().pull_count(0), 50);
    assert_eq!(agent.tracker().pull_count(1), 0);
    assert_eq!(agent.tracker().total_reward(), 0);
    assert!(rule.keep_running(agent.tracker()));
}

#[test]
fn epsilon_agent_run_reaches_target() {
    let env = Environment::new(vec![0, PROB_SCALE]);
    let rule = StopRule::new(5, 9, 10);
    let mut rng = StdRng::seed_from_u64(21);
    let mut agent = EpsilonGreedyAgent::new(2, 100_000);
    let mut steps = 0;
    while rule.keep_running(agent.tracker()) {
        agent.act(&env, &mut rng);
        steps += 1;
        assert!(steps < 100_000);
    }
    let t = agent.tracker();
    assert!(t.total_pulls() >= 5);
    assert!(t.total_reward() * 10 >= 9 * t.total_pulls());
    assert_eq!(t.mean(0).0, 0);
    assert_eq!(t.mean(1).0, t.mean(1).1);
}

#[test]
fn weight_total_sums_weights() {
    assert_eq!(weight_total(&vec![3, 0, 5, 2]), 10);
    assert_eq!(weight_total(&vec![]), 0);
}

#[test]
fn select_by_weights_places_draws_in_slices() {
    let w = vec![3, 0, 5, 2];
    assert_eq!(select_by_weights(&w, 0), 0);
    assert_eq!(select_by_weights(&w, 2), 0);
    assert_eq!(select_by_weights(&w, 3), 2);
    assert_eq!(select_by_weights(&w, 7), 2);
    assert_eq!(select_by_weights(&w, 8), 3);
    assert_eq!(select_by_weights(&w, 9), 3);
}

#[test]
fn select_by_weights_falls_back_to_last_arm() {
    let w = vec![1, 1, 1];
    assert_eq!(select_by_weights(&w, 3), 2);
    assert_eq!(select_by_weights(&w, u64::MAX), 2);
    assert_eq!(select_by_weights(&vec![0, 0], 0), 1);
}

#[test]
fn softmax_policy_stays_in_range() {
    let agent = SoftmaxAgent::new(3, 10 * BETA_SCALE);
    assert_eq!(agent.beta(), 10_000);
    let mut rng = StdRng::seed_from_u64(13);
    let weights = vec![1, u64::MAX - 2, 1];
    for _ in 0..1000 {
        let a = agent.policy(&weights, &mut rng);
        assert!(a < 3);
    }
    let sparse = vec![0, 0, 7];
    for _ in 0..100 {
        assert_eq!(agent.policy(&sparse, &mut rng), 2);
    }
}

#[test]
fn softmax_agent_run_reaches_target() {
    let env = Environment::new(vec![0, PROB_SCALE]);
    let rule = StopRule::new(5, 9, 10);
    let mut rng = StdRng::seed_from_u64(17);
    let mut agent = SoftmaxAgent::new(2, 10 * BETA_SCALE);
    let mut steps = 0;
    while rule.keep_running(agent.tracker()) {
        let w = boltzmann_weights(agent.tracker(), agent.beta());
        agent.act(&env, &mut rng, &w);
        steps += 1;
        assert!(steps < 100_000);
    }
    let t = agent.tracker();
    assert!(t.total_reward() * 10 >= 9 * t.total_pulls());
    assert!(t.pull_count(1) > t.pull_count(0));
}

#[test]
fn isqrt_exact_values() {
    assert_eq!(isqrt(0), 0);
    assert_eq!(isqrt(1), 1);
    assert_eq!(isqrt(3), 1);
    assert_eq!(isqrt(4), 2);
    assert_eq!(isqrt(15), 3);
    assert_eq!(isqrt(16), 4);
    assert_eq!(isqrt(17), 4);
    assert_eq!(isqrt(1_000_000_000_000), 1_000_000);
    assert_eq!(isqrt(200_000_000_000_000), 14_142_135);
}

#[test]
fn select_best_prefers_score_then_fewer_pulls_then_index() {
    assert_eq!(select_best(&vec![4], &vec![1]), 0);
    assert_eq!(select_best(&vec![1, 7, 3, 7], &vec![1, 5, 1, 5]), 1);
    assert_eq!(select_best(&vec![1, 7, 3, 7], &vec![1, 5, 1, 4]), 3);
    assert_eq!(select_best(&vec![0, 0, 0], &vec![2, 2, 2]), 0);
    assert_eq!(select_best(&vec![0, 0, 0], &vec![3, 2, 2]), 1);
    assert_eq!(select_best(&vec![2, 1, 9], &vec![1, 1, 9]), 2);
}

#[test]
fn optimistic_separates_close_pull_counts() {
    let env = Environment::new(vec![0, 0]);
    let mut rng = StdRng::seed_from_u64(12);
    let mut agent = OptimisticAgent::new(2);
    for _ in 0..1_000_001 {
        agent.act(&env, &mut rng, 0);
    }
    for _ in 0..1_000_000 {
        agent.act(&env, &mut rng, 1);
    }
    let l = log_total(agent.tracker());
    assert_eq!(l, 14_508_658);
    assert_eq!(agent.exploration_bonus(0, l), agent.exploration_bonus(1, l));
    assert_eq!(agent.policy(l), 1);
}

#[test]
fn warmup_visits_each_arm_in_order() {
    let env = Environment::new(vec![100_000, 200_000, 400_000]);
    let mut rng = StdRng::seed_from_u64(2);
    let mut agent = OptimisticAgent::new(3);
    let mut order = Vec::new();
    while let Some(a) = agent.warmup_action() {
        order.push(a);
        agent.act(&env, &mut rng, a);
    }
    assert_eq!(order, vec![0, 1, 2]);
    assert_eq!(agent.tracker().total_pulls(), 3);
}

#[test]
fn optimistic_scores_are_exact() {
    let env = Environment::new(vec![0, 0, PROB_SCALE]);
    let mut rng = StdRng::seed_from_u64(4);
    let mut agent = OptimisticAgent::new(3);
    agent.act(&env, &mut rng, 0);
    agent.act(&env, &mut rng, 1);
    agent.act(&env, &mut rng, 1);
    agent.act(&env, &mut rng, 2);
    let log4 = 1_386_294;
    assert_eq!(log_total(agent.tracker()), log4);
    assert_eq!(agent.exploitation_value(0), 0);
    assert_eq!(agent.exploitation_value(2), SCORE_SCALE);
    let fresh = OptimisticAgent::new(2);
    assert_eq!(fresh.exploitation_value(1), 0);
    assert_eq!(agent.exploration_bonus(0, log4), 1_665_109);
    assert_eq!(agent.exploration_bonus(1, log4), 1_177_409);
    assert_eq!(agent.scores(log4), vec![1_665_109, 1_177_409, 2_665_109]);
    assert_eq!(agent.policy(log4), 2);
}

#[test]
fn optimistic_prefers_least_pulled_when_estimates_tie() {
    let env = Environment::new(vec![0, 0, 0]);
    let mut rng = StdRng::seed_from_u64(6);
    let mut agent = OptimisticAgent::new(3);
    for a in [0, 1, 2, 0, 1] {
        agent.act(&env, &mut rng, a);
    }
    let l = log_total(agent.tracker());
    assert!(l <= LOG_LIMIT);
    assert_eq!(agent.policy(l), 2);
    agent.act(&env, &mut rng, 2);
    agent.act(&env, &mut rng, 2);
    let l = log_total(agent.tracker());
    assert_eq!(agent.policy(l), 0);
}

#[test]
fn optimistic_agent_run_reaches_target() {
    let env = Environment::new(vec![0, PROB_SCALE]);
    let rule = StopRule::new(5, 9, 10);
    let mut rng = StdRng::seed_from_u64(8);
    let mut agent = OptimisticAgent::new(2);
    while let Some(a) = agent.warmup_action() {
        agent.act(&env, &mut rng, a);
    }
    let mut steps = 0;
    while rule.keep_running(agent.tracker()) {
        let a = agent.policy(log_total(agent.tracker()));
        agent.act(&env, &mut rng, a);
        steps += 1;
        assert!(steps < 100_000);
    }
    let t = agent.tracker();
    assert!(t.total_pulls() >= 5);
    assert!(t.total_reward() * 10 >= 9 * t.total_pulls());
}

#[test]
fn stop_rule_needs_both_bounds() {
    let rule = StopRule::new(3, 2, 3);
    let mut t = ValueTracker::new(2);
    assert!(rule.keep_running(&t));
    t.update(0, 1);
    t.update(0, 1);
    assert!(rule.keep_running(&t));
    t.update(1, 0);
    // 2 of 3: exactly the target
    assert!(!rule.keep_running(&t));
    t.update(1, 0);
    // 2 of 4: below the target
    assert!(rule.keep_running(&t));
    assert!(!StopRule::new(0, 1, 1).keep_running(&ValueTracker::new(1)));
}
