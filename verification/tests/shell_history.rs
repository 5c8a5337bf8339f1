//! Shell history files: the zsh and fish entry formats.

use rustfig::shell::{parse_fish_history, parse_zsh_history};

#[test]
fn zsh_extended_history_yields_commands() {
    let content = b": 1700000000:0;git status\n: 1700000001:0;cargo build\n";
    let entries = parse_zsh_history(content, 10);
    assert_eq!(entries, vec!["git status", "cargo build"]);
}

#[test]
fn zsh_blank_and_plain_lines_are_skipped() {
    let content = b"\n   \nno separator here\n: 1:0;ls\n";
    let entries = parse_zsh_history(content, 10);
    assert_eq!(entries, vec!["ls"]);
}

#[test]
fn zsh_limit_caps_the_entries() {
    let content = b": 1:0;a\n: 2:0;b\n: 3:0;c\n";
    let entries = parse_zsh_history(content, 2);
    assert_eq!(entries, vec!["a", "b"]);
}

#[test]
fn fish_history_reads_cmd_lines() {
    let content = b"- cmd: git status\n  when: 1700000000\n- cmd: cargo test \n";
    let entries = parse_fish_history(content, 10);
    assert_eq!(entries, vec!["git status", "cargo test"]);
}

#[test]
fn fish_limit_caps_the_entries() {
    let content = b"- cmd: a\n- cmd: b\n- cmd: c\n";
    let entries = parse_fish_history(content, 1);
    assert_eq!(entries, vec!["a"]);
}
