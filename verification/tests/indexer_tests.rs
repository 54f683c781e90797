use codememory::digest::{content_hash, file_id_for};
use codememory::indexer::{
    extract_imports, extract_todos, file_record, indexable_content, is_unchanged, MAX_INDEXED_BYTES,
};

#[test]
fn record_of_a_file() {
    let r = file_record("p", "src/a.rs", "fn a() {}\n// é\n");
    assert_eq!(r.file_id, file_id_for("p", "src/a.rs"));
    assert_eq!(r.size_bytes, 16);
    assert_eq!(r.line_count, 2);
    assert_eq!(r.content_hash, content_hash("fn a() {}\n// é\n"));
}

#[test]
fn unchanged_files_are_detected() {
    let r = file_record("p", "a.rs", "x");
    assert!(is_unchanged(&Some(content_hash("x")), &r));
    assert!(!is_unchanged(&Some(content_hash("y")), &r));
    assert!(!is_unchanged(&None, &r));
}

#[test]
fn large_and_binary_files_are_skipped() {
    assert_eq!(indexable_content(b"fn main() {}"), Some("fn main() {}".to_string()));
    assert_eq!(indexable_content(b"a\0b"), None);
    assert_eq!(indexable_content(&[0xff, 0xfe, 0x41]), None);
    assert_eq!(indexable_content(&vec![b'a'; MAX_INDEXED_BYTES + 1]), None);
    assert!(indexable_content(&vec![b'a'; MAX_INDEXED_BYTES]).is_some());
}

#[test]
fn todo_markers_with_line_numbers() {
    let todos = extract_todos("fn a() {}\n  // TODO: store imports\nlet x = 1; // FIXME\n// HACK around\n// todo lower\n");
    let got: Vec<(usize, String)> = todos.into_iter().map(|t| (t.line_number, t.content)).collect();
    assert_eq!(
        got,
        vec![
            (2, "// TODO: store imports".to_string()),
            (3, "let x = 1; // FIXME".to_string()),
            (4, "// HACK around".to_string()),
        ]
    );
}

#[test]
fn large_file_is_processed_line_by_line() {
    let mut content = String::new();
    for i in 0..20000 {
        content.push_str(&format!("line {} of a long file\n", i));
    }
    content.push_str("// TODO last\n");
    let r = file_record("p", "big.rs", &content);
    assert_eq!(r.line_count, 20001);
    let todos = extract_todos(&content);
    assert_eq!(todos.len(), 1);
    assert_eq!(todos[0].line_number, 20001);
}

fn import_rows(content: &str) -> Vec<(usize, String, String)> {
    extract_imports(content).into_iter().map(|i| (i.line_number, i.kind, i.target)).collect()
}

#[test]
fn imports_of_each_language() {
    let rs = "use crate::db::connection;\nfn main() {}\n";
    assert_eq!(import_rows(rs), vec![(1, "use".to_string(), "crate::db::connection".to_string())]);
    let py = "import os\nfrom app.models import User\nx = 1\n";
    assert_eq!(
        import_rows(py),
        vec![(1, "import".to_string(), "os".to_string()), (2, "from".to_string(), "app.models".to_string())]
    );
    let ts = "import { a } from './auth';\n  import \"./side\";\nconst b = 2;\n";
    assert_eq!(
        import_rows(ts),
        vec![(1, "import".to_string(), "./auth".to_string()), (2, "import".to_string(), "./side".to_string())]
    );
}

#[test]
fn lines_without_imports_give_none() {
    assert!(import_rows("").is_empty());
    assert!(import_rows("use\nimport ';'\nimported stuff here\n").is_empty());
}
