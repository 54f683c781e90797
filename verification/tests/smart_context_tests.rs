use codememory::file_details::{FileDetails, FileSymbol};
use codememory::search::SearchResult;
use codememory::smart_context::{
    churn_boost_of, matched_files, rank_context, rank_decay_at, saturating_add, FileDeps, ScoreBoard,
    ScoredFile, SmartContext,
};

fn hit(name: &str, kind: &str, file: &str) -> SearchResult {
    SearchResult {
        symbol_name: name.to_string(),
        kind: kind.to_string(),
        file_path: file.to_string(),
        start_line: 1,
        end_line: 2,
    }
}

fn board_rows(b: ScoreBoard) -> Vec<(String, i64, Vec<String>)> {
    b.into_ranked().into_iter().map(|e| (e.path, e.score, e.reasons)).collect()
}

fn strings(v: &[&str]) -> Vec<String> {
    v.iter().map(|s| s.to_string()).collect()
}

#[test]
fn decay_formula() {
    assert_eq!(rank_decay_at(0), 100);
    assert_eq!(rank_decay_at(1), 92);
    assert_eq!(rank_decay_at(9), 28);
    assert_eq!(rank_decay_at(13), -4);
    assert_eq!(rank_decay_at(usize::MAX), i64::MIN);
}

#[test]
fn churn_formula() {
    assert_eq!(churn_boost_of(1), 10);
    assert_eq!(churn_boost_of(2), 20);
    assert_eq!(churn_boost_of(3), 30);
    assert_eq!(churn_boost_of(40), 30);
    assert_eq!(churn_boost_of(-1), -10);
    assert_eq!(churn_boost_of(i64::MIN), i64::MIN);
}

#[test]
fn saturating_addition() {
    assert_eq!(saturating_add(2, 3), 5);
    assert_eq!(saturating_add(i64::MAX, 1), i64::MAX);
    assert_eq!(saturating_add(i64::MIN, -1), i64::MIN);
}

#[test]
fn search_hits_accumulate_per_file() {
    let mut b = ScoreBoard::new();
    b.add_search_results(&vec![
        hit("ProjectIndexer", "struct_item", "src/indexer.rs"),
        hit("helper", "function_item", "src/util.rs"),
        hit("index_file", "function_item", "src/indexer.rs"),
    ]);
    let rows = board_rows(b);
    assert_eq!(rows.len(), 2);
    assert_eq!(rows[0].0, "src/indexer.rs");
    assert_eq!(rows[0].1, 100 + 84);
    assert_eq!(
        rows[0].2,
        strings(&[
            "FTS5 match: ProjectIndexer (struct_item)",
            "FTS5 match: index_file (function_item)"
        ])
    );
    assert_eq!(rows[1], ("src/util.rs".to_string(), 92, strings(&["FTS5 match: helper (function_item)"])));
}

#[test]
fn dependency_boosts() {
    let mut b = ScoreBoard::new();
    b.add_search_results(&vec![hit("f", "function_item", "a.rs")]);
    let matched = b.paths();
    assert_eq!(matched, strings(&["a.rs"]));
    b.add_dependencies("a.rs", &strings(&["b.rs", "c.rs"]), &strings(&["c.rs"]));
    let rows = board_rows(b);
    assert_eq!(rows[0], ("a.rs".to_string(), 100, strings(&["FTS5 match: f (function_item)"])));
    assert_eq!(rows[1], ("c.rs".to_string(), 50, strings(&["imported by a.rs", "imports a.rs"])));
    assert_eq!(rows[2], ("b.rs".to_string(), 30, strings(&["imported by a.rs"])));
}

#[test]
fn git_and_working_set_boosts() {
    let mut b = ScoreBoard::new();
    b.add_search_results(&vec![hit("f", "function_item", "a.rs")]);
    b.add_commit_matches(&strings(&["d.rs"]));
    b.add_recent_churn(&vec![("a.rs".to_string(), 5), ("x.rs".to_string(), 2), ("d.rs".to_string(), 2)]);
    b.add_working_set(&strings(&["w.rs", "a.rs"]));
    let rows = board_rows(b);
    assert_eq!(
        rows[0],
        (
            "a.rs".to_string(),
            100 + 30 + 50,
            strings(&[
                "FTS5 match: f (function_item)",
                "changed 5 times recently",
                "in current working set"
            ])
        )
    );
    assert_eq!(
        rows[1],
        (
            "d.rs".to_string(),
            60,
            strings(&["recently changed in matching commit", "changed 2 times recently"])
        )
    );
    assert_eq!(rows[2], ("w.rs".to_string(), 50, strings(&["in current working set"])));
    assert_eq!(rows.len(), 3);
}

#[test]
fn ranking_keeps_the_ten_best_and_keeps_ties_in_order() {
    let mut b = ScoreBoard::new();
    let paths: Vec<String> = (0..14).map(|i| format!("f{}.rs", i)).collect();
    b.add_working_set(&paths);
    b.add_commit_matches(&strings(&["f13.rs"]));
    let rows = board_rows(b);
    assert_eq!(rows.len(), 10);
    assert_eq!(rows[0].0, "f13.rs");
    assert_eq!(rows[0].1, 90);
    let rest: Vec<String> = rows[1..].iter().map(|r| r.0.clone()).collect();
    assert_eq!(rest, (0..9).map(|i| format!("f{}.rs", i)).collect::<Vec<_>>());
    for w in rows.windows(2) {
        assert!(w[0].1 >= w[1].1);
    }
}

#[test]
fn empty_board_ranks_nothing() {
    assert!(ScoreBoard::new().into_ranked().is_empty());
}

fn details(path: &str) -> FileDetails {
    FileDetails {
        relative_path: path.to_string(),
        size_bytes: 10,
        line_count: 2,
        symbols: vec![FileSymbol { name: "f".to_string(), kind: "function_item".to_string(), start_line: 0, end_line: 1 }],
    }
}

#[test]
fn assemble_skips_files_without_details() {
    let ranked = vec![
        ScoredFile { path: "a.rs".to_string(), score: 180, reasons: strings(&["r1"]) },
        ScoredFile { path: "gone.rs".to_string(), score: 90, reasons: strings(&["r2"]) },
        ScoredFile { path: "b.rs".to_string(), score: 50, reasons: strings(&["r3"]) },
    ];
    let ctx = SmartContext::assemble(ranked, vec![Some(details("a.rs")), None, Some(details("b.rs"))]);
    assert_eq!(ctx.files.len(), 2);
    assert_eq!(ctx.files[0].details.relative_path, "a.rs");
    assert_eq!(ctx.files[0].confidence_hundredths, 180);
    assert_eq!(ctx.files[0].reasons, strings(&["r1"]));
    assert_eq!(ctx.files[1].details.relative_path, "b.rs");
    assert_eq!(ctx.files[1].confidence_hundredths, 50);
}

fn ranked_rows(v: Vec<ScoredFile>) -> Vec<(String, i64, Vec<String>)> {
    v.into_iter().map(|e| (e.path, e.score, e.reasons)).collect()
}

#[test]
fn matched_files_in_first_order() {
    let hits = vec![hit("a", "function_item", "x.rs"), hit("b", "function_item", "y.rs"), hit("c", "struct_item", "x.rs")];
    assert_eq!(matched_files(&hits), strings(&["x.rs", "y.rs"]));
}

#[test]
fn search_only_context_sums_decays() {
    let hits = vec![hit("a", "function_item", "x.rs"), hit("b", "function_item", "y.rs"), hit("c", "struct_item", "x.rs")];
    let deps = vec![FileDeps { file: "x.rs".to_string(), imports: vec![], importers: vec![] }];
    let rows = ranked_rows(rank_context(&hits, &deps, &vec![], &vec![], None));
    assert_eq!(
        rows,
        vec![
            (
                "x.rs".to_string(),
                184,
                strings(&["FTS5 match: a (function_item)", "FTS5 match: c (struct_item)"])
            ),
            ("y.rs".to_string(), 92, strings(&["FTS5 match: b (function_item)"])),
        ]
    );
}

#[test]
fn full_pipeline_composes_stages() {
    let hits = vec![hit("login", "function_item", "auth.rs")];
    let deps = vec![
        FileDeps { file: "auth.rs".to_string(), imports: strings(&["db.rs"]), importers: strings(&["main.rs"]) },
        FileDeps { file: "other.rs".to_string(), imports: strings(&["never.rs"]), importers: vec![] },
    ];
    let commits = strings(&["db.rs"]);
    let churn = vec![("auth.rs".to_string(), 2), ("unseen.rs".to_string(), 5)];
    let ws = strings(&["main.rs"]);
    let rows = ranked_rows(rank_context(&hits, &deps, &commits, &churn, Some(&ws)));
    assert_eq!(
        rows,
        vec![
            (
                "auth.rs".to_string(),
                120,
                strings(&["FTS5 match: login (function_item)", "changed 2 times recently"])
            ),
            (
                "db.rs".to_string(),
                70,
                strings(&["imported by auth.rs", "recently changed in matching commit"])
            ),
            (
                "main.rs".to_string(),
                70,
                strings(&["imports auth.rs", "in current working set"])
            ),
        ]
    );
}
