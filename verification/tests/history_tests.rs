use codememory::git::CommitSummary;
use codememory::history::{change_rows, diff_tree_args, needs_recording};

#[test]
fn recorded_commits_are_skipped() {
    assert!(needs_recording(0));
    assert!(!needs_recording(1));
    assert!(!needs_recording(7));
}

#[test]
fn diff_tree_arguments() {
    assert_eq!(diff_tree_args("abc"), vec!["diff-tree", "--no-commit-id", "--name-only", "-r", "abc"]);
}

#[test]
fn one_row_per_changed_file() {
    let c = CommitSummary { hash: "h1".to_string(), message: "fix login".to_string() };
    let rows = change_rows("proj", &c, Some(b"src/a.rs\n\nsrc/b.rs\n".as_slice()));
    assert_eq!(rows.len(), 2);
    assert_eq!(rows[0].project_id, "proj");
    assert_eq!(rows[0].relative_path, "src/a.rs");
    assert_eq!(rows[1].relative_path, "src/b.rs");
    assert_eq!(rows[1].commit_hash, "h1");
    assert_eq!(rows[1].commit_message, "fix login");
}

#[test]
fn no_rows_when_git_failed() {
    let c = CommitSummary { hash: "h1".to_string(), message: "m".to_string() };
    assert!(change_rows("proj", &c, None).is_empty());
}
