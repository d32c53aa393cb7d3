//! Multi-armed bandit simulation: a Bernoulli reward environment and three
//! action-selection strategies (epsilon-greedy, softmax, UCB1) sharing one
//! verified value tracker whose estimates are exact means.

mod random;

pub mod driver;
pub mod environment;
pub mod epsilon;
pub mod optimistic;
pub mod softmax;
pub mod tracker;

pub use driver::StopRule;
pub use environment::{Environment, PROB_SCALE};
pub use epsilon::EpsilonGreedyAgent;
pub use optimistic::{isqrt, select_best, OptimisticAgent, LOG_LIMIT, SCORE_SCALE};
pub use softmax::{select_by_weights, weight_total, SoftmaxAgent, BETA_SCALE};
pub use tracker::ValueTracker;
