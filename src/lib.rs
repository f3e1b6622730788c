//! A multi-armed bandit engine: per-arm reward statistics, exploration
//! policies that read and update them, and a simulator that measures regret.
//!
//! Rewards are exact fixed-point numbers: one unit of an `i64` reward is
//! `1 / REWARD_SCALE` of a reward point. Means are exact ratios.

pub mod error;
pub mod ratio;
pub mod text;
mod random;

pub mod reward;
pub mod arm;
pub mod entities;
pub mod armlogic;
pub mod state;

pub mod epsilon_greedy;
pub mod policy;
pub mod policies;

pub mod environment;
pub mod simulator;
pub mod metrics;
