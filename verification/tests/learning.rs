//! The learning store: recording acceptances, boosting scores, and the
//! persisted blob's round trip.

use rustfig::learning::UserLearningSystem;
use rustfig::models::{Confidence, Prediction, PredictionSource, PredictionType};

fn pred(text: &str, conf: u32) -> Prediction {
    Prediction::new(
        text.to_string(),
        PredictionType::FullCommand,
        PredictionSource::History,
        Confidence(conf),
        0,
    )
}

#[test]
fn recording_creates_then_increments() {
    let mut learning = UserLearningSystem::new();
    let p = pred("cargo build", 500);
    learning.record_accepted_prediction(&p, 1000);
    assert_eq!(learning.patterns.len(), 1);
    assert_eq!(learning.patterns[0].text, "cargo build");
    assert_eq!(learning.patterns[0].count, 1);
    assert_eq!(learning.patterns[0].last_used, 1000);
    learning.record_accepted_prediction(&p, 2000);
    assert_eq!(learning.patterns.len(), 1);
    assert_eq!(learning.patterns[0].count, 2);
    assert_eq!(learning.patterns[0].last_used, 2000);
}

#[test]
fn save_is_due_every_hundred_acceptances() {
    let mut learning = UserLearningSystem::new();
    let p = pred("ls", 500);
    // the very first acceptance crosses the interval
    assert!(learning.record_accepted_prediction(&p, 0));
    for _ in 1..100 {
        assert!(!learning.record_accepted_prediction(&p, 0));
    }
    // the hundred-and-first does again
    assert!(learning.record_accepted_prediction(&p, 0));
}

#[test]
fn adjust_scores_boosts_matching_text_only() {
    let mut learning = UserLearningSystem::new();
    let accepted = pred("cargo build", 500);
    for _ in 0..3 {
        learning.record_accepted_prediction(&accepted, 0);
    }
    let mut v = vec![pred("cargo build", 500), pred("cargo run", 500)];
    learning.adjust_scores(&mut v, "");
    // three acceptances: 0.5 + 0.3 = 0.8
    assert_eq!(v[0].confidence.0, 800);
    // no pattern: untouched
    assert_eq!(v[1].confidence.0, 500);
}

#[test]
fn boost_saturates_at_ten_acceptances() {
    let mut learning = UserLearningSystem::new();
    let accepted = pred("make", 100);
    for _ in 0..12 {
        learning.record_accepted_prediction(&accepted, 0);
    }
    let mut v = vec![pred("make", 100), pred("make", 900)];
    learning.adjust_scores(&mut v, "");
    // ten or more acceptances always lift the candidate to the cap
    assert_eq!(v[0].confidence.0, 1000);
    assert_eq!(v[1].confidence.0, 1000);
}

#[test]
fn boost_is_clamped_to_one() {
    let mut learning = UserLearningSystem::new();
    let accepted = pred("top", 0);
    for _ in 0..4 {
        learning.record_accepted_prediction(&accepted, 0);
    }
    let mut v = vec![pred("top", 800)];
    learning.adjust_scores(&mut v, "");
    // 0.8 + 0.4 clamps to 1.0
    assert_eq!(v[0].confidence.0, 1000);
}

#[test]
fn store_round_trips_through_bytes() {
    let mut learning = UserLearningSystem::new();
    learning.record_accepted_prediction(&pred("cargo build", 500), 11);
    learning.record_accepted_prediction(&pred("git status", 500), 22);
    learning.record_accepted_prediction(&pred("cargo build", 500), 33);
    let bytes = learning.to_bytes();
    let loaded = UserLearningSystem::from_bytes(&bytes).unwrap();
    assert_eq!(loaded.patterns.len(), 2);
    assert_eq!(loaded.patterns[0].text, "cargo build");
    assert_eq!(loaded.patterns[0].count, 2);
    assert_eq!(loaded.patterns[0].last_used, 33);
    assert_eq!(loaded.patterns[1].text, "git status");
    assert_eq!(loaded.patterns[1].count, 1);
    assert_eq!(loaded.patterns[1].last_used, 22);
    assert_eq!(loaded.modification_count, 0);
}

#[test]
fn empty_store_round_trips() {
    let learning = UserLearningSystem::new();
    let bytes = learning.to_bytes();
    let loaded = UserLearningSystem::from_bytes(&bytes).unwrap();
    assert_eq!(loaded.patterns.len(), 0);
}

#[test]
fn corrupt_bytes_are_rejected() {
    // too short for a header
    assert!(UserLearningSystem::from_bytes(&[1, 2, 3]).is_none());
    // a wrong version tag
    let mut learning = UserLearningSystem::new();
    learning.record_accepted_prediction(&pred("x", 500), 0);
    let mut bytes = learning.to_bytes();
    bytes[0] = 99;
    assert!(UserLearningSystem::from_bytes(&bytes).is_none());
    // truncated in the middle of an entry
    let good = learning.to_bytes();
    assert!(UserLearningSystem::from_bytes(&good[..good.len() - 1]).is_none());
    // trailing junk
    let mut padded = learning.to_bytes();
    padded.push(0);
    assert!(UserLearningSystem::from_bytes(&padded).is_none());
}
