use codememory::onboarding::{add_reasons, reason_for, OnboardingEntry};

fn entry(path: &str, imports: i64) -> OnboardingEntry {
    OnboardingEntry {
        relative_path: path.to_string(),
        language: "rust".to_string(),
        symbol_count: 3,
        import_count: imports,
        reason: String::new(),
    }
}

#[test]
fn reasons_by_position_imports_and_entry_points() {
    let out = add_reasons(vec![entry("src/main.rs", 5), entry("lib/util.rs", 0), entry("src/app_state.rs", 4)]);
    assert_eq!(out.len(), 3);
    assert_eq!(
        out[0].reason,
        "most symbols — likely the core module, imports 5 dependencies, entry point"
    );
    assert_eq!(out[1].reason, "key module");
    assert_eq!(out[2].reason, "imports 4 dependencies, entry point");
    assert_eq!(out[2].relative_path, "src/app_state.rs");
    assert_eq!(out[2].import_count, 4);
}

#[test]
fn three_imports_are_not_mentioned() {
    assert_eq!(reason_for(1, 3, "x/index.ts"), "entry point");
    assert_eq!(reason_for(2, 3, "x/y.ts"), "key module");
    assert_eq!(reason_for(0, 0, "x/y.ts"), "most symbols — likely the core module");
}

#[test]
fn empty_list_stays_empty() {
    assert!(add_reasons(Vec::new()).is_empty());
}
