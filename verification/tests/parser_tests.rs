use codememory::parsers::tree_sitter::{
    grammar_for_extension, symbols_from_matches, Grammar, RawCapture, RawMatch, TreeSitterParser,
};

#[test]
fn grammars_by_extension() {
    assert!(matches!(grammar_for_extension("rs"), Some(Grammar::Rust)));
    assert!(matches!(grammar_for_extension("py"), Some(Grammar::Python)));
    for e in ["ts", "tsx", "js", "jsx"] {
        assert!(matches!(grammar_for_extension(e), Some(Grammar::TypeScript)));
    }
    assert!(grammar_for_extension("md").is_none());
    assert!(grammar_for_extension("").is_none());
}

fn names(syms: &[codememory::parsers::tree_sitter::Symbol]) -> Vec<(String, String, usize, usize)> {
    syms.iter().map(|s| (s.name.clone(), s.kind.clone(), s.start_line, s.end_line)).collect()
}

fn sym(n: &str, k: &str, s: usize, e: usize) -> (String, String, usize, usize) {
    (n.to_string(), k.to_string(), s, e)
}

#[test]
fn rust_symbols() {
    let mut p = TreeSitterParser::new();
    let src = "fn foo() {}\nstruct Bar;\nimpl Bar {\n    fn baz(&self) {}\n}\n";
    let syms = p.parse_file("src/lib.rs", src).ok().unwrap();
    assert_eq!(
        names(&syms),
        vec![
            sym("foo", "function_item", 0, 0),
            sym("Bar", "struct_item", 1, 1),
            sym("Bar", "impl_item", 2, 4),
            sym("baz", "function_item", 3, 3),
        ]
    );
    assert!(syms.iter().all(|s| s.parent_name.is_none()));
}

#[test]
fn rust_struct_impl_method_in_order() {
    let mut p = TreeSitterParser::new();
    let src = "struct S;\nimpl S {\n    fn m(&self) {}\n}";
    let got = names(&p.parse_file("lib.rs", src).ok().unwrap());
    assert_eq!(got, vec![sym("S", "struct_item", 0, 0), sym("S", "impl_item", 1, 3), sym("m", "function_item", 2, 2)]);
}

#[test]
fn python_and_typescript_symbols() {
    let mut p = TreeSitterParser::new();
    let py = names(&p.parse_file("a/b.py", "class A:\n    def f(self):\n        pass\n").ok().unwrap());
    assert_eq!(py, vec![sym("A", "class_definition", 0, 2), sym("f", "function_definition", 1, 2)]);
    let ts = names(&p.parse_file("x.ts", "function g() {}\nclass C { m() {} }\n").ok().unwrap());
    assert_eq!(
        ts,
        vec![sym("g", "function_declaration", 0, 0), sym("C", "class_declaration", 1, 1), sym("m", "method_definition", 1, 1)]
    );
}

#[test]
fn javascript_uses_typescript_grammar() {
    let mut p = TreeSitterParser::new();
    let js = names(&p.parse_file("x.js", "function f() {}\nclass C {\n  g() {}\n}").ok().unwrap());
    assert_eq!(
        js,
        vec![sym("f", "function_declaration", 0, 0), sym("C", "class_declaration", 1, 3), sym("g", "method_definition", 2, 2)]
    );
}

#[test]
fn fresh_parser_needs_no_setup() {
    let mut p = TreeSitterParser::new();
    let got = names(&p.parse_file("a.rs", "fn f() {}").ok().unwrap());
    assert_eq!(got, vec![sym("f", "function_item", 0, 0)]);
}

#[test]
fn earlier_use_leaves_no_trace() {
    let mut used = TreeSitterParser::new();
    let _ = used.parse_file("a.py", "def g():\n    pass\n");
    let _ = used.parse_file("b.ts", "class K {}");
    let first = names(&used.parse_file("c.rs", "fn h() {}\nstruct T;").ok().unwrap());
    let again = names(&used.parse_file("c.rs", "fn h() {}\nstruct T;").ok().unwrap());
    let fresh = names(&TreeSitterParser::new().parse_file("c.rs", "fn h() {}\nstruct T;").ok().unwrap());
    assert_eq!(first, fresh);
    assert_eq!(again, fresh);
}

#[test]
fn empty_and_broken_content_still_parse() {
    let mut p = TreeSitterParser::new();
    assert!(p.parse_file("e.rs", "").ok().unwrap().is_empty());
    assert!(p.parse_file("e.py", "").ok().unwrap().is_empty());
    assert!(p.parse_file("broken.rs", "fn ( {{{ struct").is_ok());
    assert!(p.parse_file("broken.ts", "class { function").is_ok());
}

#[test]
fn unsupported_files_have_no_symbols() {
    let mut p = TreeSitterParser::new();
    assert!(p.parse_file("README.md", "# fn foo() {}").ok().unwrap().is_empty());
    assert!(p.parse_file("Makefile", "all:").ok().unwrap().is_empty());
}

fn cap(index: u32, text: Option<&str>, kind: &str, s: usize, e: usize) -> RawCapture {
    RawCapture { index, text: text.map(|t| t.to_string()), kind: kind.to_string(), start_row: s, end_row: e }
}

#[test]
fn symbols_from_raw_matches() {
    let ms = vec![
        RawMatch { captures: vec![cap(1, None, "function_item", 2, 5), cap(0, Some("run"), "identifier", 2, 2)] },
        RawMatch { captures: vec![cap(1, None, "struct_item", 7, 7), cap(0, None, "identifier", 7, 7)] },
        RawMatch { captures: vec![cap(0, Some("Z"), "type_identifier", 9, 9)] },
    ];
    let syms = symbols_from_matches(&ms, 0, 1);
    assert_eq!(
        names(&syms),
        vec![
            ("run".to_string(), "function_item".to_string(), 2, 5),
            ("Z".to_string(), "".to_string(), 0, 0),
        ]
    );
}
