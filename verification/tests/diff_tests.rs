use linediff::engine::{diff_lines, Change, ChangeTag};
use linediff::service::{generate_diff, DiffConfig, FileDiff};
use linediff::text::{chars_of, split_lines};

fn chars(s: &str) -> Vec<char> {
    s.chars().collect()
}

fn lines(s: &str) -> Vec<Vec<char>> {
    split_lines(&chars_of(s))
}

fn line_str(l: &[char]) -> String {
    l.iter().collect()
}

#[test]
fn split_keeps_terminators() {
    let ls = lines("a\nb\nc");
    assert_eq!(ls.len(), 3);
    assert_eq!(line_str(&ls[0]), "a\n");
    assert_eq!(line_str(&ls[1]), "b\n");
    assert_eq!(line_str(&ls[2]), "c");
}

#[test]
fn split_empty_and_terminator_only() {
    assert_eq!(lines("").len(), 0);
    let ls = lines("\n");
    assert_eq!(ls.len(), 1);
    assert_eq!(line_str(&ls[0]), "\n");
}

fn tags(script: &[Change]) -> Vec<ChangeTag> {
    script.iter().map(|c| c.tag).collect()
}

#[test]
fn script_one_line_replaced() {
    let script = diff_lines(&lines("a\nb\nc\n"), &lines("a\nX\nc\n"));
    assert_eq!(
        tags(&script),
        vec![ChangeTag::Equal, ChangeTag::Delete, ChangeTag::Insert, ChangeTag::Equal]
    );
    assert_eq!(line_str(&script[1].content), "b\n");
    assert_eq!(line_str(&script[2].content), "X\n");
}

#[test]
fn script_identical_inputs_all_equal() {
    let script = diff_lines(&lines("a\nb\n"), &lines("a\nb\n"));
    assert_eq!(tags(&script), vec![ChangeTag::Equal, ChangeTag::Equal]);
}

#[test]
fn script_disjoint_inputs_no_equal() {
    let script = diff_lines(&lines("a\nb\n"), &lines("x\ny\n"));
    assert_eq!(
        tags(&script),
        vec![ChangeTag::Delete, ChangeTag::Delete, ChangeTag::Insert, ChangeTag::Insert]
    );
}

#[test]
fn script_reconstructs_both_sides() {
    let original = "a\nb\nc";
    let modified = "a\nX\nc\nd\n";
    let script = diff_lines(&lines(original), &lines(modified));
    let mut old_text = String::new();
    let mut new_text = String::new();
    for c in &script {
        if c.tag != ChangeTag::Insert {
            old_text.push_str(&line_str(&c.content));
        }
        if c.tag != ChangeTag::Delete {
            new_text.push_str(&line_str(&c.content));
        }
    }
    assert_eq!(old_text, original);
    assert_eq!(new_text, modified);
}

#[test]
fn trailing_newline_difference_is_a_change() {
    let script = diff_lines(&lines("a\n"), &lines("a"));
    assert_eq!(tags(&script), vec![ChangeTag::Delete, ChangeTag::Insert]);
    assert_eq!(line_str(&script[0].content), "a\n");
    assert_eq!(line_str(&script[1].content), "a");
}

#[test]
fn one_line_replaced_full_output() {
    let d = generate_diff(
        "file.ts".to_string(),
        "a\nb\nc\n".to_string(),
        "a\nX\nc\n".to_string(),
        None,
    );
    assert_eq!(d.path, "file.ts");
    assert_eq!(d.additions, 1);
    assert_eq!(d.deletions, 1);
    assert_eq!(
        d.diff_text,
        "--- [before] file.ts\n+++ [after]  file.ts\n@@ -1,3 +1,3 @@\n a\n-b\n+X\n c\n"
    );
}

#[test]
fn identical_inputs_headers_only() {
    let d = generate_diff(
        "same.txt".to_string(),
        "a\nb\nc\n".to_string(),
        "a\nb\nc\n".to_string(),
        None,
    );
    assert_eq!(d.additions, 0);
    assert_eq!(d.deletions, 0);
    assert_eq!(d.diff_text, "--- [before] same.txt\n+++ [after]  same.txt\n");
}

#[test]
fn empty_inputs_headers_only() {
    let d = generate_diff("e".to_string(), String::new(), String::new(), None);
    assert_eq!(d.additions, 0);
    assert_eq!(d.deletions, 0);
    assert_eq!(d.diff_text, "--- [before] e\n+++ [after]  e\n");
}

#[test]
fn deterministic_output() {
    let run = || {
        generate_diff(
            "f".to_string(),
            "a\nb\nc\n".to_string(),
            "a\nX\nc\n".to_string(),
            Some(DiffConfig { context_lines: Some(1), max_lines_per_file: Some(2) }),
        )
    };
    let d1: FileDiff = run();
    let d2: FileDiff = run();
    assert_eq!(d1.path, d2.path);
    assert_eq!(d1.diff_text, d2.diff_text);
    assert_eq!(d1.additions, d2.additions);
    assert_eq!(d1.deletions, d2.deletions);
}

#[test]
fn truncation_after_one_rendered_line() {
    let d = generate_diff(
        "file.ts".to_string(),
        "a\nb\nc\n".to_string(),
        "a\nX\nc\n".to_string(),
        Some(DiffConfig { context_lines: None, max_lines_per_file: Some(1) }),
    );
    assert_eq!(
        d.diff_text,
        "--- [before] file.ts\n+++ [after]  file.ts\n@@ -1,3 +1,3 @@\n a\n... (diff truncated)\n"
    );
    assert!(d.additions + d.deletions <= 1);
}

#[test]
fn zero_bound_disables_truncation() {
    let mut modified = String::new();
    for i in 0..10_000 {
        modified.push_str(&format!("line{}\n", i));
    }
    let d = generate_diff(
        "big".to_string(),
        String::new(),
        modified,
        Some(DiffConfig { context_lines: None, max_lines_per_file: Some(0) }),
    );
    assert!(!d.diff_text.contains("... (diff truncated)"));
    assert_eq!(d.additions, 10_000);
    assert_eq!(d.deletions, 0);
    assert!(d.diff_text.starts_with("--- [before] big\n+++ [after]  big\n@@ -1,0 +1,10000 @@\n+line0\n"));
    assert!(d.diff_text.ends_with("+line9999\n"));
}

#[test]
fn default_bound_truncates_large_diff() {
    let mut modified = String::new();
    for i in 0..600 {
        modified.push_str(&format!("line{}\n", i));
    }
    let d = generate_diff("big".to_string(), String::new(), modified, None);
    assert!(d.diff_text.contains("... (diff truncated)"));
    assert_eq!(d.additions, 500);
}

#[test]
fn far_apart_changes_make_two_hunks() {
    let original = "A\ne1\ne2\ne3\ne4\ne5\ne6\ne7\nB\n";
    let modified = "A2\ne1\ne2\ne3\ne4\ne5\ne6\ne7\nB2\n";
    let d = generate_diff("f".to_string(), original.to_string(), modified.to_string(), None);
    assert_eq!(d.additions, 2);
    assert_eq!(d.deletions, 2);
    let expected = "--- [before] f\n+++ [after]  f\n@@ -1,4 +1,4 @@\n-A\n+A2\n e1\n e2\n e3\n@@ -6,4 +6,4 @@\n e5\n e6\n e7\n-B\n+B2\n";
    assert_eq!(d.diff_text, expected);
}

#[test]
fn nearby_changes_share_one_hunk() {
    let original = "A\ne1\ne2\nB\n";
    let modified = "A2\ne1\ne2\nB2\n";
    let d = generate_diff("f".to_string(), original.to_string(), modified.to_string(), None);
    let expected = "--- [before] f\n+++ [after]  f\n@@ -1,4 +1,4 @@\n-A\n+A2\n e1\n e2\n-B\n+B2\n";
    assert_eq!(d.diff_text, expected);
}

#[test]
fn context_radius_zero_keeps_changes_only() {
    let d = generate_diff(
        "f".to_string(),
        "a\nb\nc\n".to_string(),
        "a\nX\nc\n".to_string(),
        Some(DiffConfig { context_lines: Some(0), max_lines_per_file: None }),
    );
    assert_eq!(
        d.diff_text,
        "--- [before] f\n+++ [after]  f\n@@ -2,1 +2,1 @@\n-b\n+X\n"
    );
}

#[test]
fn missing_terminator_gets_one_for_rendering() {
    let d = generate_diff(
        "f".to_string(),
        "a".to_string(),
        "b".to_string(),
        None,
    );
    assert_eq!(
        d.diff_text,
        "--- [before] f\n+++ [after]  f\n@@ -1,1 +1,1 @@\n-a\n+b\n"
    );
    assert_eq!(d.additions, 1);
    assert_eq!(d.deletions, 1);
}

#[test]
fn hunk_positions_and_counts() {
    let script = diff_lines(&lines("a\nb\nc\nd\ne\n"), &lines("a\nb\nX\nd\ne\n"));
    let hunks = linediff::hunks::group_hunks(&script, 1);
    assert_eq!(hunks.len(), 1);
    let h = &hunks[0];
    assert_eq!(h.old_start, 2);
    assert_eq!(h.old_count, 3);
    assert_eq!(h.new_start, 2);
    assert_eq!(h.new_count, 3);
    assert_eq!(h.changes.len(), 4);
    assert_eq!(line_str(&h.changes[1].content), "c\n");
    assert_eq!(line_str(&h.changes[2].content), "X\n");
}

#[test]
fn chars_of_preserves_text() {
    let v = chars_of("héllo\n");
    assert_eq!(v, chars("héllo\n"));
}
