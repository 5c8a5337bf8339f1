//! The value types and the smaller components: models, context
//! analysis, conversations, telemetry, metrics and text helpers.

use rustfig::ai::extract_suggestions;
use rustfig::context::{parse_branch_listing, parse_git_status, ContextAnalyzer, ContextFacts, ProjectType};
use rustfig::conversation::{session_step, Conversation, ConversationManager, SessionAction};
use rustfig::config::Config;
use rustfig::metrics::PerformanceMetrics;
use rustfig::models::{Confidence, Prediction, PredictionSource, PredictionType};
use rustfig::telemetry::{init, is_telemetry_enabled, set_telemetry_enabled, TelemetrySwitch, UsageTracker};
use rustfig::text::{first_token, u64_to_string};
use rustfig::util::{fast_starts_with, fast_string_match, PeriodicTask};

fn facts() -> ContextFacts {
    ContextFacts {
        current_dir: "/work".to_string(),
        current_command: "git".to_string(),
        has_git_dir: false,
        git_reports_work_tree: None,
        has_dockerfile: false,
        has_compose_file: false,
        has_cargo_manifest: false,
        has_node_manifest: false,
        has_requirements_file: false,
        has_setup_script: false,
        has_go_module: false,
    }
}

#[test]
fn ghost_text_is_the_untyped_suffix() {
    let p = Prediction::new(
        "git status".to_string(),
        PredictionType::FullCommand,
        PredictionSource::History,
        Confidence(800),
        0,
    );
    assert_eq!(p.get_ghost_text(""), "git status");
    assert_eq!(p.get_ghost_text("git st"), "atus");
    assert_eq!(p.get_ghost_text("ls"), "");
}

#[test]
fn prediction_builders_set_fields() {
    let p = Prediction::new(
        "ls".to_string(),
        PredictionType::FullCommand,
        PredictionSource::History,
        Confidence(800),
        7,
    );
    assert_eq!(p.display_text, "ls");
    assert_eq!(p.tokens_completed, 1);
    assert_eq!(p.usage_count, 0);
    assert_eq!(p.timestamp, 7);
    let p = p
        .with_display_text("ls (list)")
        .with_explanation("lists the directory")
        .with_tokens_completed(2)
        .with_metadata("origin", "shell");
    assert_eq!(p.display_text, "ls (list)");
    assert_eq!(p.explanation.as_deref(), Some("lists the directory"));
    assert_eq!(p.tokens_completed, 2);
    assert_eq!(p.metadata[0], ("origin".to_string(), "shell".to_string()));
    // replacing under the same key keeps one value per key
    let p = p.with_metadata("origin", "history");
    assert_eq!(p.metadata.len(), 1);
    assert_eq!(p.metadata[0].1, "history");
    let mut p = p;
    p.record_usage(9);
    assert_eq!(p.usage_count, 1);
    assert_eq!(p.timestamp, 9);
    assert!(p.is_fresh(10, 15));
    assert!(!p.is_fresh(5, 15));
}

#[test]
fn analyzer_detects_project_and_repository() {
    let analyzer = ContextAnalyzer::new();
    let mut f = facts();
    f.has_cargo_manifest = true;
    f.has_git_dir = true;
    f.has_dockerfile = true;
    let ctx = analyzer.analyze(&f);
    assert!(ctx.in_git_repo);
    assert!(ctx.in_docker_context);
    assert_eq!(ctx.project_type, ProjectType::Rust);
    assert_eq!(ctx.current_command, "git");
    assert_eq!(ctx.current_dir, "/work");
}

#[test]
fn analyzer_fails_open_on_tool_failure() {
    let analyzer = ContextAnalyzer::new();
    let mut f = facts();
    // no marker directory and the tool could not run: not a repository
    f.git_reports_work_tree = None;
    assert!(!analyzer.is_git_repository(&f));
    f.git_reports_work_tree = Some(false);
    assert!(!analyzer.is_git_repository(&f));
    f.git_reports_work_tree = Some(true);
    assert!(analyzer.is_git_repository(&f));
}

#[test]
fn analyzer_priority_order_prefers_cargo() {
    let analyzer = ContextAnalyzer::new();
    let mut f = facts();
    f.has_cargo_manifest = true;
    f.has_node_manifest = true;
    f.has_go_module = true;
    assert_eq!(analyzer.detect_project_type(&f), ProjectType::Rust);
    f.has_cargo_manifest = false;
    assert_eq!(analyzer.detect_project_type(&f), ProjectType::Node);
    f.has_node_manifest = false;
    assert_eq!(analyzer.detect_project_type(&f), ProjectType::Go);
    f.has_go_module = false;
    assert_eq!(analyzer.detect_project_type(&f), ProjectType::Unknown);
    f.has_setup_script = true;
    assert_eq!(analyzer.detect_project_type(&f), ProjectType::Python);
}

#[test]
fn git_status_reads_porcelain_lines() {
    let status = parse_git_status(b"M  src/lib.rs\n?? notes.txt\n");
    assert!(status.has_modified);
    assert!(status.has_untracked);
    let status = parse_git_status(b" M src/lib.rs\n");
    assert!(status.has_modified);
    assert!(!status.has_untracked);
    let status = parse_git_status(b"A  new.rs\n");
    assert!(!status.has_modified);
    assert!(!status.has_untracked);
    let status = parse_git_status(b"");
    assert!(!status.has_modified);
}

#[test]
fn branch_listing_strips_the_marker() {
    let branches = parse_branch_listing(b"  main\n* feature/cache\n  wip\n");
    assert_eq!(branches, vec!["main", "feature/cache", "wip"]);
}

#[test]
fn conversation_builds_prompt_and_caps_history() {
    let mut c = Conversation::new("/data/conversations", "local", 1700000000);
    assert_eq!(c.id, "conv_1700000000");
    assert_eq!(c.storage_path, "/data/conversations/conv_1700000000.json");
    c.add_user_message("hello", 1);
    c.add_assistant_message("hi there", 2);
    assert_eq!(c.build_prompt(), "User: hello\nAssistant: hi there\nAssistant:");
    assert_eq!(c.get_messages().len(), 2);
    assert_eq!(c.last_used, 2);
    // the history caps at twenty messages, oldest dropped first
    for i in 0..25 {
        c.add_user_message(&format!("m{}", i), 10 + i);
    }
    assert_eq!(c.get_messages().len(), 20);
    assert_eq!(c.get_messages()[0].content, "m5");
    assert_eq!(c.get_messages()[19].content, "m24");
}

#[test]
fn manager_tracks_active_conversation() {
    let mut m = ConversationManager::new("/data/conversations");
    let id1 = m.new_conversation("local", 100);
    let id2 = m.new_conversation("local", 200);
    assert_eq!(m.active_conversation_id.as_deref(), Some(id2.as_str()));
    assert!(m.set_active_conversation(&id1).is_ok());
    assert!(m.set_active_conversation("conv_404").is_err());
    let listed = m.list_conversations();
    assert_eq!(listed.len(), 2);
    assert_eq!(listed[0].0, id1);
    let path = m.delete_conversation(&id1).unwrap();
    assert_eq!(path, "/data/conversations/conv_100.json");
    // the first remaining conversation becomes active
    assert_eq!(m.active_conversation_id.as_deref(), Some(id2.as_str()));
    assert!(m.delete_conversation(&id1).is_err());
}

#[test]
fn manager_activates_most_recent_loaded() {
    let mut m = ConversationManager::new("/data");
    m.register_loaded(Conversation::new("/data", "local", 10));
    m.register_loaded(Conversation::new("/data", "local", 30));
    m.register_loaded(Conversation::new("/data", "local", 20));
    m.activate_most_recent();
    assert_eq!(m.active_conversation_id.as_deref(), Some("conv_30"));
}

#[test]
fn session_decisions_follow_the_keywords() {
    assert_eq!(session_step("exit"), SessionAction::Exit);
    assert_eq!(session_step("QUIT"), SessionAction::Exit);
    assert_eq!(session_step("Clear"), SessionAction::NewConversation);
    assert_eq!(session_step(""), SessionAction::Skip);
    assert_eq!(session_step("how do I undo a commit"), SessionAction::Send);
}

#[test]
fn telemetry_switch_follows_configuration() {
    let config = Config::default();
    let mut switch = init(&config);
    assert!(!is_telemetry_enabled(&switch));
    set_telemetry_enabled(&mut switch, true);
    assert!(is_telemetry_enabled(&switch));
}

#[test]
fn tracker_queues_and_flushes_events() {
    let config = Config::default().telemetry.unwrap();
    let mut tracker = UsageTracker::new(config, "user-1".to_string(), "/data/usage.json".to_string());
    let on = TelemetrySwitch { enabled: true };
    let off = TelemetrySwitch { enabled: false };
    assert!(tracker.record_command(&off, "ls", 0).is_none());
    assert_eq!(tracker.event_queue.len(), 0);
    assert!(tracker.record_command(&on, "ls", 5).is_none());
    assert_eq!(tracker.event_queue.len(), 1);
    assert_eq!(tracker.event_queue[0].event_type, "command_executed");
    assert_eq!(tracker.event_queue[0].properties[0], ("command".to_string(), "ls".to_string()));
    let batch = tracker.flush().unwrap();
    assert_eq!(batch.len(), 1);
    assert!(tracker.flush().is_none());
    // the queue drains by itself at one hundred events
    let mut drained = None;
    for i in 0..100 {
        drained = tracker.record_ghost_accepted(&on, "x", i);
        if i < 99 {
            assert!(drained.is_none());
        }
    }
    assert_eq!(drained.unwrap().len(), 100);
    assert_eq!(tracker.event_queue.len(), 0);
    // a failed save goes back into the queue
    tracker.requeue_events(vec![]);
    assert_eq!(tracker.event_queue.len(), 0);
}

#[test]
fn metrics_aggregate_operation_timings() {
    let mut pm = PerformanceMetrics::new("engine");
    let t = pm.measure_operation("predict", 100);
    t.record(&mut pm, 350);
    let t = pm.measure_operation("predict", 400);
    t.record(&mut pm, 500);
    assert_eq!(pm.get_operation_count(), 2);
    let ops = pm.get_metrics();
    assert_eq!(ops.len(), 1);
    assert_eq!(ops[0].name, "predict");
    assert_eq!(ops[0].call_count, 2);
    assert_eq!(ops[0].total_duration_ns, 350);
    assert_eq!(ops[0].min_duration_ns, 100);
    assert_eq!(ops[0].max_duration_ns, 250);
    assert_eq!(ops[0].avg_duration(), 175);
    let mut pm2 = pm;
    pm2.reset();
    assert_eq!(pm2.get_operation_count(), 0);
    assert_eq!(pm2.get_metrics().len(), 0);
}

#[test]
fn periodic_and_matching_helpers() {
    let mut task = PeriodicTask::new(100, 0);
    assert!(!task.should_run(50));
    assert!(task.should_run(120));
    assert!(!task.should_run(150));
    assert!(fast_starts_with("cargo build", "cargo"));
    assert!(!fast_starts_with("cargo", "cargo build"));
    assert!(fast_string_match("run the tests now", "tests"));
    assert!(!fast_string_match("run", "tests"));
}

#[test]
fn periodic_task_runs_the_work_exactly_when_due() {
    let mut task = PeriodicTask::new(100, 0);
    let mut ran = 0u32;
    assert!(!task.run_if_needed(50, || ran += 1));
    assert_eq!(ran, 0);
    assert!(task.run_if_needed(120, || ran += 1));
    assert_eq!(ran, 1);
    assert!(!task.run_if_needed(150, || ran += 1));
    assert_eq!(ran, 1);
}

#[test]
fn first_token_takes_the_command_word() {
    assert_eq!(first_token("git status"), "git");
    assert_eq!(first_token("   cargo  build"), "cargo");
    assert_eq!(first_token(""), "");
    assert_eq!(first_token("  \t "), "");
    assert_eq!(first_token("ls"), "ls");
}

#[test]
fn decimal_rendering_matches() {
    assert_eq!(u64_to_string(0), "0");
    assert_eq!(u64_to_string(42), "42");
    assert_eq!(u64_to_string(1700000000), "1700000000");
    assert_eq!(u64_to_string(u64::MAX), "18446744073709551615");
}

#[test]
fn suggestions_parse_a_json_array() {
    let out = extract_suggestions("Sure: [\"git status\", \"git log\"] as requested");
    assert_eq!(out, vec!["git status", "git log"]);
}

#[test]
fn suggestions_fall_back_to_bullets() {
    // brackets present but no valid JSON array between them
    let out = extract_suggestions("[not json\n- git status\n* git log\nplain line]\n");
    assert_eq!(out, vec!["git status", "git log"]);
}

#[test]
fn suggestions_fall_back_to_lines() {
    let out = extract_suggestions("git status\n\n  git log  \n");
    assert_eq!(out, vec!["git status", "git log"]);
}

#[test]
fn config_defaults_match_the_reference_values() {
    let c = Config::default();
    assert_eq!(c.prediction.max_predictions, 5);
    assert_eq!(c.prediction.min_ghost_confidence_permille, 400);
    assert_eq!(c.prediction.cache_size, 1000);
    assert_eq!(c.prediction.cache_ttl_seconds, 300);
    assert!(!c.ai.enabled);
    assert_eq!(c.general.input_timeout_ms, 10);
    assert_eq!(c.ui.dropdown_width, 50);
    assert_eq!(c.suggestions.max_suggestions, 10);
    assert_eq!(c.suggestions.ignored_dirs, vec![".git", "node_modules", "target"]);
    let ollama = c.ollama.unwrap();
    assert_eq!(ollama.model, "codellama:7b-instruct");
    assert_eq!(ollama.timeout_secs, 3);
}

#[test]
fn ai_cache_expires_and_evicts() {
    let mut cache = rustfig::ai::AiCache::new(2, 60);
    cache.set("prompt a", "answer a".to_string(), 0);
    assert_eq!(cache.get("prompt a", 30).as_deref(), Some("answer a"));
    // expired entries stop answering
    assert!(cache.get("prompt a", 60).is_none());
    // replacing under the same key keeps one entry
    cache.set("prompt a", "answer b".to_string(), 10);
    assert_eq!(cache.get("prompt a", 20).as_deref(), Some("answer b"));
    // a full cache of live entries drops its oldest on insertion
    cache.set("prompt b", "answer c".to_string(), 20);
    cache.set("prompt c", "answer d".to_string(), 30);
    assert!(cache.get("prompt a", 40).is_none());
    assert!(cache.get("prompt b", 40).is_some());
    assert!(cache.get("prompt c", 40).is_some());
    cache.clear();
    assert!(cache.get("prompt b", 40).is_none());
}
