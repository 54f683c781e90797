use codememory::working_set::{changed_files, changed_files_from_text, needs_branch_diff};

fn strings(v: &[&str]) -> Vec<String> {
    v.iter().map(|s| s.to_string()).collect()
}

#[test]
fn master_and_main_are_not_diffed() {
    assert!(!needs_branch_diff("master"));
    assert!(!needs_branch_diff("main"));
    assert!(needs_branch_diff("feature"));
    assert!(needs_branch_diff("detached"));
}

#[test]
fn diff_adds_new_paths_only() {
    let files = changed_files_from_text("a.rs\n\nb.rs\n", "feature", Some("b.rs\nc.rs\n\nc.rs\n"));
    assert_eq!(files, strings(&["a.rs", "b.rs", "c.rs"]));
}

#[test]
fn diff_is_ignored_on_main() {
    let files = changed_files_from_text("a.rs\n", "main", Some("c.rs\n"));
    assert_eq!(files, strings(&["a.rs"]));
}

#[test]
fn missing_diff_keeps_listed_files() {
    assert_eq!(changed_files_from_text("a.rs\na.rs\n", "feature", None), strings(&["a.rs", "a.rs"]));
}

#[test]
fn changed_files_from_raw_output() {
    let files = changed_files(b"x.rs\n", "topic", Some(b"y.rs\n".as_slice()));
    assert_eq!(files, strings(&["x.rs", "y.rs"]));
}
