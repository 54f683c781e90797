use codememory::git::GitProvider;

#[test]
fn provider_keeps_its_path() {
    let g = GitProvider::new("/repo/path").ok().unwrap();
    assert_eq!(g.repo_path, "/repo/path");
}

#[test]
fn branch_is_trimmed_output() {
    assert_eq!(GitProvider::branch_from_text("  feature/x \n"), "feature/x");
}

#[test]
fn empty_branch_output_means_detached() {
    assert_eq!(GitProvider::branch_from_text(""), "detached");
    assert_eq!(GitProvider::branch_from_text(" \n\t"), "detached");
}

#[test]
fn branch_from_raw_output() {
    assert_eq!(GitProvider::current_branch_from_output(b"main\n"), "main");
    assert_eq!(GitProvider::current_branch_from_output(b""), "detached");
}

#[test]
fn commits_parsed_from_log() {
    let cs = GitProvider::commits_from_text("abc|first msg\ndef|a|b\nno separator\n\r\n123|crlf\r\n");
    let got: Vec<(String, String)> = cs.into_iter().map(|c| (c.hash, c.message)).collect();
    assert_eq!(
        got,
        vec![
            ("abc".to_string(), "first msg".to_string()),
            ("def".to_string(), "a|b".to_string()),
            ("123".to_string(), "crlf".to_string()),
        ]
    );
}

#[test]
fn commits_from_raw_output() {
    let cs = GitProvider::recent_commits_from_output("h1|m1\nh2|m2".as_bytes());
    assert_eq!(cs.len(), 2);
    assert_eq!(cs[1].hash, "h2");
    assert_eq!(cs[1].message, "m2");
}

#[test]
fn commit_lines_round_trip() {
    let text = "x|y|z\nq|\n|r\n";
    for c in GitProvider::commits_from_text(text) {
        assert!(!c.hash.contains('|'));
        let line = format!("{}|{}", c.hash, c.message);
        assert!(text.lines().any(|l| l == line));
    }
}

#[test]
fn git_arguments() {
    assert_eq!(GitProvider::current_branch_args(), vec!["branch", "--show-current"]);
    assert_eq!(
        GitProvider::recent_commits_args(3),
        vec!["log", "-3", "--pretty=format:%H|%s"]
    );
    assert_eq!(GitProvider::recent_commits_args(50)[1], "-50");
}
