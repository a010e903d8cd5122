use gitent::diff::{DiffLine, DiffLineType, FileDiff};
use gitent::models::{Change, ChangeType};
use uuid::Uuid;

#[test]
fn test_diff_computation() {
    let old_text = "line 1\nline 2\nline 3\n";
    let new_text = "line 1\nline 2 modified\nline 3\nline 4\n";

    let diff_lines = FileDiff::compute_diff(old_text, new_text);

    assert!(!diff_lines.is_empty());
    assert!(diff_lines
        .iter()
        .any(|l| l.line_type == DiffLineType::Addition));
    assert!(diff_lines
        .iter()
        .any(|l| l.line_type == DiffLineType::Deletion));
}

#[test]
fn test_file_diff_from_change() {
    let session_id = Uuid::new_v4().as_u128();
    let change = Change::new(ChangeType::Modify, String::from("test.txt"), session_id)
        .with_content_before(b"Hello\nWorld\n".to_vec())
        .with_content_after(b"Hello\nRust\nWorld\n".to_vec());

    let file_diff = FileDiff::from_change(&change).unwrap();

    assert_eq!(file_diff.path, "test.txt");
    assert!(file_diff.old_content.is_some());
    assert!(file_diff.new_content.is_some());
    assert!(!file_diff.diff_lines.is_empty());
}

fn line(line_type: DiffLineType, content: &str, old: Option<usize>, new: Option<usize>) -> DiffLine {
    DiffLine { line_type, content: content.to_string(), old_line_number: old, new_line_number: new }
}

#[test]
fn edit_script_is_numbered_in_both_snapshots() {
    let lines = FileDiff::compute_diff("Hello\nWorld\n", "Hello\nRust\nWorld\n");
    assert_eq!(
        lines,
        vec![
            line(DiffLineType::Context, "Hello\n", Some(1), Some(1)),
            line(DiffLineType::Addition, "Rust\n", None, Some(2)),
            line(DiffLineType::Context, "World\n", Some(2), Some(3)),
        ]
    );
}

#[test]
fn deletions_advance_the_old_counter_only() {
    let lines = FileDiff::compute_diff("a\nb\nc\n", "a\nc\n");
    assert_eq!(
        lines,
        vec![
            line(DiffLineType::Context, "a\n", Some(1), Some(1)),
            line(DiffLineType::Deletion, "b\n", Some(2), None),
            line(DiffLineType::Context, "c\n", Some(3), Some(2)),
        ]
    );
}

#[test]
fn number_lines_counts_each_side() {
    let script = vec![
        (DiffLineType::Deletion, "x\n".to_string()),
        (DiffLineType::Deletion, "y\n".to_string()),
        (DiffLineType::Addition, "z\n".to_string()),
        (DiffLineType::Context, "w\n".to_string()),
    ];
    assert_eq!(
        FileDiff::number_lines(&script),
        vec![
            line(DiffLineType::Deletion, "x\n", Some(1), None),
            line(DiffLineType::Deletion, "y\n", Some(2), None),
            line(DiffLineType::Addition, "z\n", None, Some(1)),
            line(DiffLineType::Context, "w\n", Some(3), Some(2)),
        ]
    );
    assert!(FileDiff::number_lines(&vec![]).is_empty());
}

#[test]
fn diff_of_content_against_itself_has_no_hunks() {
    let text = "one\ntwo\nthree\n";
    let change = Change::from_parts(1, 0, ChangeType::Modify, String::from("same.txt"), 2)
        .with_content_before(text.as_bytes().to_vec())
        .with_content_after(text.as_bytes().to_vec());
    let diff = FileDiff::from_change(&change).unwrap();
    assert_eq!(diff.diff_lines.len(), 3);
    assert!(diff.diff_lines.iter().all(|l| l.line_type == DiffLineType::Context));
    let unified = diff.format_unified(3);
    assert_eq!(unified, "--- same.txt\n+++ same.txt\n");
    assert!(!unified.contains("@@"));
    assert_eq!(diff.format_unified(0), "--- same.txt\n+++ same.txt\n");
}

#[test]
fn missing_or_binary_content_gives_an_empty_script() {
    let only_after = Change::from_parts(1, 0, ChangeType::Create, String::from("a.txt"), 2)
        .with_content_after(b"x".to_vec());
    let diff = FileDiff::from_change(&only_after).unwrap();
    assert_eq!(diff.old_content, None);
    assert_eq!(diff.new_content, Some("x".to_string()));
    assert!(diff.diff_lines.is_empty());
    assert_eq!(diff.format_unified(3), "--- a.txt\n+++ a.txt\n");

    let binary = Change::from_parts(1, 0, ChangeType::Modify, String::from("b.bin"), 2)
        .with_content_before(vec![0xff, 0xfe, 0x00])
        .with_content_after(b"text\n".to_vec());
    let diff = FileDiff::from_change(&binary).unwrap();
    assert_eq!(diff.old_content, None);
    assert_eq!(diff.new_content, Some("text\n".to_string()));
    assert!(diff.diff_lines.is_empty());

    let neither = Change::from_parts(1, 0, ChangeType::Delete, String::from("c"), 2);
    let diff = FileDiff::from_change(&neither).unwrap();
    assert_eq!(diff.old_content, None);
    assert_eq!(diff.new_content, None);
    assert!(diff.diff_lines.is_empty());
}

#[test]
fn unified_diff_of_one_insertion() {
    let change = Change::from_parts(1, 0, ChangeType::Modify, String::from("test.txt"), 2)
        .with_content_before(b"Hello\nWorld\n".to_vec())
        .with_content_after(b"Hello\nRust\nWorld\n".to_vec());
    let diff = FileDiff::from_change(&change).unwrap();
    assert_eq!(
        diff.format_unified(3),
        "--- test.txt\n+++ test.txt\n@@ -1,2 +1,3 @@\n Hello\n+Rust\n World\n"
    );
    assert_eq!(
        diff.format_unified(1),
        "--- test.txt\n+++ test.txt\n@@ -1,2 +1,3 @@\n Hello\n+Rust\n World\n"
    );
    assert_eq!(
        diff.format_unified(0),
        "--- test.txt\n+++ test.txt\n@@ -0,0 +2,1 @@\n+Rust\n"
    );
}

fn six_lines() -> FileDiff {
    FileDiff {
        path: "f".to_string(),
        old_content: None,
        new_content: None,
        diff_lines: vec![
            line(DiffLineType::Context, "a\n", Some(1), Some(1)),
            line(DiffLineType::Deletion, "b\n", Some(2), None),
            line(DiffLineType::Context, "c\n", Some(3), Some(2)),
            line(DiffLineType::Context, "d\n", Some(4), Some(3)),
            line(DiffLineType::Addition, "e\n", None, Some(4)),
            line(DiffLineType::Context, "f\n", Some(5), Some(5)),
        ],
    }
}

#[test]
fn each_run_of_changes_is_padded_with_context() {
    assert_eq!(
        six_lines().format_unified(1),
        "--- f\n+++ f\n@@ -1,3 +1,2 @@\n a\n-b\n c\n@@ -4,2 +3,3 @@\n d\n+e\n f\n"
    );
}

#[test]
fn without_context_a_hunk_is_its_run_of_changes() {
    assert_eq!(
        six_lines().format_unified(0),
        "--- f\n+++ f\n@@ -2,1 +0,0 @@\n-b\n@@ -0,0 +4,1 @@\n+e\n"
    );
}

#[test]
fn runs_that_little_context_keeps_apart_share_a_hunk() {
    let whole = "--- f\n+++ f\n@@ -1,5 +1,5 @@\n a\n-b\n c\n d\n+e\n f\n";
    assert_eq!(six_lines().format_unified(2), whole);
    assert_eq!(six_lines().format_unified(10), whole);
    assert_eq!(six_lines().format_unified(usize::MAX), whole);
}

#[test]
fn context_is_not_shown_twice() {
    let diff = FileDiff {
        path: "g".to_string(),
        old_content: None,
        new_content: None,
        diff_lines: vec![
            line(DiffLineType::Deletion, "a\n", Some(1), None),
            line(DiffLineType::Context, "b\n", Some(2), Some(1)),
            line(DiffLineType::Context, "c\n", Some(3), Some(2)),
            line(DiffLineType::Context, "d\n", Some(4), Some(3)),
            line(DiffLineType::Context, "e\n", Some(5), Some(4)),
            line(DiffLineType::Addition, "f\n", None, Some(5)),
            line(DiffLineType::Context, "g\n", Some(6), Some(6)),
            line(DiffLineType::Context, "h\n", Some(7), Some(7)),
            line(DiffLineType::Context, "i\n", Some(8), Some(8)),
            line(DiffLineType::Context, "j\n", Some(9), Some(9)),
        ],
    };
    assert_eq!(
        diff.format_unified(3),
        "--- g\n+++ g\n@@ -1,4 +1,3 @@\n-a\n b\n c\n d\n@@ -5,4 +4,5 @@\n e\n+f\n g\n h\n i\n"
    );
}

#[test]
fn hunk_header_counts_each_snapshot() {
    let diff = FileDiff {
        path: "p".to_string(),
        old_content: None,
        new_content: None,
        diff_lines: vec![
            line(DiffLineType::Addition, "n\n", None, Some(1)),
            line(DiffLineType::Addition, "m\n", None, Some(2)),
            line(DiffLineType::Deletion, "o\n", Some(1), None),
        ],
    };
    assert_eq!(
        diff.format_unified(0),
        "--- p\n+++ p\n@@ -1,1 +1,2 @@\n+n\n+m\n-o\n"
    );
    assert_eq!(diff.format_unified(1), diff.format_unified(0));
    let added = FileDiff {
        path: "q".to_string(),
        old_content: None,
        new_content: None,
        diff_lines: vec![line(DiffLineType::Addition, "n\n", None, Some(1))],
    };
    assert_eq!(added.format_unified(3), "--- q\n+++ q\n@@ -0,0 +1,1 @@\n+n\n");
}

#[test]
fn last_line_without_newline_is_printed_with_one() {
    let lines = FileDiff::compute_diff("a\nb", "a\nc");
    assert_eq!(
        lines,
        vec![
            line(DiffLineType::Context, "a\n", Some(1), Some(1)),
            line(DiffLineType::Deletion, "b\n", Some(2), None),
            line(DiffLineType::Addition, "c\n", None, Some(2)),
        ]
    );
    assert!(FileDiff::compute_diff("", "").is_empty());
}
