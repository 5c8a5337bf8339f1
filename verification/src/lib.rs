//! Command prediction library for an interactive terminal assistant.
//!
//! The core of the crate is the prediction pipeline: it turns a partial
//! command line plus an environment snapshot into a ranked, deduplicated
//! list of candidate completions, caches results for identical inputs,
//! and learns from the candidates the user accepts.
//!
//! All durations and instants are carried as explicit integer arguments
//! (milliseconds or seconds), and all environment facts (marker files,
//! version-control queries) arrive as plain values, so that every rule in
//! the pipeline is checkable; reading the clock, the filesystem and the
//! network is left to the embedding application.

pub mod ai;
pub mod cache;
pub mod config;
pub mod context;
pub mod conversation;
pub mod engine;
pub mod learning;
pub mod metrics;
pub mod models;
pub mod ranking;
pub mod shell;
pub mod telemetry;
pub mod text;
pub mod util;

pub use cache::PredictionCache;
pub use context::ContextAnalyzer;
pub use engine::PredictionEngine;
pub use learning::UserLearningSystem;
pub use models::{Confidence, Prediction, PredictionSource, PredictionType};
pub use ranking::PredictionRanker;
