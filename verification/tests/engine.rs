//! The engine end to end: the worked example, cache-hit stability and
//! the acceptance feedback path.

use rustfig::context::ContextFacts;
use rustfig::engine::PredictionEngine;
use rustfig::models::{Confidence, Prediction, PredictionSource, PredictionType};

fn rust_git_facts() -> ContextFacts {
    ContextFacts {
        current_dir: "/work/project".to_string(),
        current_command: String::new(),
        has_git_dir: true,
        git_reports_work_tree: None,
        has_dockerfile: false,
        has_compose_file: false,
        has_cargo_manifest: true,
        has_node_manifest: false,
        has_requirements_file: false,
        has_setup_script: false,
        has_go_module: false,
    }
}

#[test]
fn worked_example_empty_input_rust_repo() {
    // input "" in a Rust project inside a repository, no prior learning:
    // the exact ranked list and scores
    let mut engine = PredictionEngine::new();
    let facts = rust_git_facts();
    let result = engine.predict("", 5, 0, &facts);
    let texts: Vec<&str> = result.iter().map(|p| p.text.as_str()).collect();
    assert_eq!(texts, vec!["ls -la", "git status", "cargo run", "cargo build", "cargo test"]);
    let scores: Vec<u32> = result.iter().map(|p| p.confidence.0).collect();
    assert_eq!(scores, vec![1000, 968, 935, 880, 770]);
    // the surviving duplicate comes from the git context, not history
    assert!(matches!(result[1].source, PredictionSource::GitContext));
}

#[test]
fn limit_truncates_the_ranked_list() {
    let mut engine = PredictionEngine::new();
    let result = engine.predict("", 3, 0, &rust_git_facts());
    assert_eq!(result.len(), 3);
    assert_eq!(result[0].text, "ls -la");
    assert_eq!(result[2].text, "cargo run");
}

#[test]
fn cache_hit_returns_identical_list() {
    let mut engine = PredictionEngine::new();
    let facts = rust_git_facts();
    let first = engine.predict("", 5, 1000, &facts);
    // a second call within the time-to-live, even with different facts,
    // answers from the cache with the identical list
    let mut other_facts = rust_git_facts();
    other_facts.has_cargo_manifest = false;
    other_facts.has_git_dir = false;
    let second = engine.predict("", 5, 2000, &other_facts);
    assert_eq!(first.len(), second.len());
    for (a, b) in first.iter().zip(second.iter()) {
        assert_eq!(a.text, b.text);
        assert_eq!(a.confidence.0, b.confidence.0);
        assert_eq!(a.timestamp, b.timestamp);
    }
}

#[test]
fn cache_expires_after_ttl() {
    let mut engine = PredictionEngine::new();
    let first = engine.predict("", 5, 0, &rust_git_facts());
    assert_eq!(first[0].timestamp, 0);
    // past the five-minute time-to-live the pipeline runs again
    let later = engine.predict("", 5, 300_000, &rust_git_facts());
    assert_eq!(later[0].timestamp, 300_000);
}

#[test]
fn git_source_only_contributes_inside_repository() {
    let mut engine = PredictionEngine::new();
    let mut facts = rust_git_facts();
    facts.has_git_dir = false;
    facts.git_reports_work_tree = Some(false);
    let result = engine.predict("", 5, 0, &facts);
    // without the git source, "git status" comes from history alone
    let git_status = result.iter().find(|p| p.text == "git status").unwrap();
    assert!(matches!(git_status.source, PredictionSource::History));
    assert_eq!(git_status.confidence.0, 924);
}

#[test]
fn learning_reorders_later_predictions() {
    let mut engine = PredictionEngine::new();
    let accepted = Prediction::new(
        "cargo build".to_string(),
        PredictionType::FullCommand,
        PredictionSource::DirectoryContext,
        Confidence(800),
        0,
    );
    for _ in 0..10 {
        engine.record_prediction_accepted(&accepted, 0);
    }
    let result = engine.predict("", 5, 0, &rust_git_facts());
    // with the boost saturated, "cargo build" scores the cap before
    // ranking and sorts to the top band
    let built = result.iter().find(|p| p.text == "cargo build").unwrap();
    assert_eq!(built.confidence.0, 1000);
    assert_eq!(result[0].confidence.0, 1000);
}

#[test]
fn acceptance_reports_save_due_on_interval() {
    let mut engine = PredictionEngine::new();
    let p = Prediction::new(
        "ls".to_string(),
        PredictionType::FullCommand,
        PredictionSource::History,
        Confidence(800),
        0,
    );
    assert!(engine.record_prediction_accepted(&p, 0));
    assert!(!engine.record_prediction_accepted(&p, 0));
    assert_eq!(engine.user_learning.patterns[0].count, 2);
}

#[test]
fn git_prefix_input_suggests_git_commands() {
    let mut engine = PredictionEngine::new();
    let result = engine.predict("git ", 5, 0, &rust_git_facts());
    let texts: Vec<&str> = result.iter().map(|p| p.text.as_str()).collect();
    // history offers "git status" and "git pull"; the git context adds
    // "git checkout " and "git pull origin main"
    assert!(texts.contains(&"git status"));
    assert!(texts.contains(&"git pull"));
    assert!(texts.contains(&"git checkout "));
    assert!(texts.contains(&"git pull origin main"));
}

#[test]
fn unknown_input_predicts_nothing() {
    let mut engine = PredictionEngine::new();
    let result = engine.predict("zzz unknown", 5, 0, &rust_git_facts());
    assert!(result.is_empty());
    // and an empty result is never cached
    assert_eq!(engine.prediction_cache.entries.len(), 0);
}
