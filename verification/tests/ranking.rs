//! Ranking: scoring, ordering, deduplication and the ghost threshold.

use rustfig::models::{Confidence, Prediction, PredictionSource, PredictionType};
use rustfig::ranking::PredictionRanker;

fn pred(text: &str, source: PredictionSource, conf: u32) -> Prediction {
    Prediction::new(text.to_string(), PredictionType::FullCommand, source, Confidence(conf), 0)
}

#[test]
fn scoring_applies_source_and_type_multipliers() {
    let ranker = PredictionRanker::new();
    let mut v = vec![pred("git status", PredictionSource::GitContext, 800)];
    ranker.rank(&mut v);
    // 0.8 x 1.1 (git context) x 1.1 (full command) = 0.968
    assert_eq!(v[0].confidence.0, 968);
}

#[test]
fn scoring_clamps_to_one() {
    let ranker = PredictionRanker::new();
    let mut v = vec![pred("ls -la", PredictionSource::History, 800)];
    ranker.rank(&mut v);
    // 0.8 x 1.2 x 1.1 = 1.056, clamped to 1.0
    assert_eq!(v[0].confidence.0, 1000);
}

#[test]
fn scoring_adds_usage_bonus() {
    let ranker = PredictionRanker::new();
    let mut p = pred("make", PredictionSource::CommandPatterns, 500);
    p.usage_count = 3;
    let mut v = vec![p];
    ranker.rank(&mut v);
    // 0.5 x 1.0 x 1.1 + 3/5 x 0.2 = 0.55 + 0.12 = 0.67
    assert_eq!(v[0].confidence.0, 670);
    let mut q = pred("make", PredictionSource::CommandPatterns, 500);
    q.usage_count = 9;
    let mut w = vec![q];
    ranker.rank(&mut w);
    // the bonus saturates at 0.2
    assert_eq!(w[0].confidence.0, 750);
}

#[test]
fn rank_sorts_descending() {
    let ranker = PredictionRanker::new();
    let mut v = vec![
        pred("low", PredictionSource::DirectoryContext, 300),
        pred("high", PredictionSource::DirectoryContext, 900),
        pred("mid", PredictionSource::DirectoryContext, 600),
    ];
    ranker.rank(&mut v);
    assert_eq!(v[0].text, "high");
    assert_eq!(v[1].text, "mid");
    assert_eq!(v[2].text, "low");
}

#[test]
fn rank_is_stable_for_ties() {
    let ranker = PredictionRanker::new();
    let mut v = vec![
        pred("first", PredictionSource::DirectoryContext, 500),
        pred("second", PredictionSource::DirectoryContext, 500),
        pred("third", PredictionSource::DirectoryContext, 500),
    ];
    ranker.rank(&mut v);
    // equal scores keep their input order
    assert_eq!(v[0].text, "first");
    assert_eq!(v[1].text, "second");
    assert_eq!(v[2].text, "third");
}

#[test]
fn rank_deterministic_over_input_order() {
    // the same unordered candidate set with distinct scores ranks
    // identically whichever source delivered first
    let ranker = PredictionRanker::new();
    let mut a = vec![
        pred("one", PredictionSource::DirectoryContext, 700),
        pred("two", PredictionSource::DirectoryContext, 400),
        pred("three", PredictionSource::DirectoryContext, 900),
    ];
    let mut b = vec![
        pred("three", PredictionSource::DirectoryContext, 900),
        pred("one", PredictionSource::DirectoryContext, 700),
        pred("two", PredictionSource::DirectoryContext, 400),
    ];
    ranker.rank(&mut a);
    ranker.rank(&mut b);
    let ta: Vec<&str> = a.iter().map(|p| p.text.as_str()).collect();
    let tb: Vec<&str> = b.iter().map(|p| p.text.as_str()).collect();
    assert_eq!(ta, tb);
    assert_eq!(ta, vec!["three", "one", "two"]);
}

#[test]
fn dedup_keeps_higher_scoring_duplicate() {
    let ranker = PredictionRanker::new();
    // identical text, different provenance and confidence
    let mut v = vec![
        pred("git status", PredictionSource::History, 700),
        pred("git status", PredictionSource::GitContext, 800),
    ];
    ranker.rank(&mut v);
    assert_eq!(v.len(), 1);
    // the git-context one scores 0.968, the history one 0.924
    assert!(matches!(v[0].source, PredictionSource::GitContext));
    assert_eq!(v[0].confidence.0, 968);
}

#[test]
fn filter_for_ghost_picks_first_confident_candidate() {
    let ranker = PredictionRanker::new();
    let v = vec![
        pred("a", PredictionSource::DirectoryContext, 900),
        pred("b", PredictionSource::DirectoryContext, 300),
    ];
    let ghost = ranker.filter_for_ghost(&v);
    assert_eq!(ghost.unwrap().text, "a");
}

#[test]
fn filter_for_ghost_rejects_low_confidence_top() {
    let ranker = PredictionRanker::new();
    let mut v = vec![
        pred("a", PredictionSource::DirectoryContext, 300),
        pred("b", PredictionSource::DirectoryContext, 200),
    ];
    // ranked and non-empty, but the top candidate sits below 0.4
    let r = PredictionRanker::new();
    r.rank(&mut v);
    assert!(v[0].confidence.0 < 400);
    assert!(ranker.filter_for_ghost(&v).is_none());
}

#[test]
fn confidence_threshold_is_two_fifths() {
    assert!(Confidence(400).is_high_enough_for_ghost());
    assert!(!Confidence(399).is_high_enough_for_ghost());
    assert_eq!(Confidence(750).value(), 750);
}
