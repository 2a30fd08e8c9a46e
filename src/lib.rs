//! Real-time domain threat scoring: hard-intel gate, lexical featurizer,
//! threshold policy with a bandit-decided uncertain band, reason composition,
//! TTL caches, LinUCB statistics and request telemetry.
//!
//! Probabilities and bounded scores are held as integers in millionths
//! (`PROB_ONE` stands for 1.0); the bandit's statistics in millionths
//! squared. The student model's logistic function and the bandit's matrix
//! inversion are computed by the caller in floating point and handed in.

pub mod action;
pub mod text;
pub mod domain;
pub mod intel;
pub mod features;
pub mod url_features;
pub mod decision;
pub mod cache;
pub mod bandit;
pub mod telemetry;
pub mod engine;
pub mod config;
