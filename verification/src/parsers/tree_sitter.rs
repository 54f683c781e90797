use vstd::prelude::*;
use vstd::string::*;
use crate::text::join_spec;
use crate::parsers::syntax::{
    capture_index, collect_matches, grammar_fits, match_views, new_parser, new_query, parse_content,
    python_language, query_capture_index, query_compiles, query_matches, rust_language,
    set_parser_language, typescript_language, GrammarLanguage, SyntaxParser,
};

verus! {

broadcast use vstd::string::group_string_axioms;

/// A symbol found in a source file: its name, the kind of syntax node that
/// defines it, and the rows (from 0) where that node starts and ends.
pub struct Symbol {
    pub name: String,
    pub kind: String,
    pub start_line: usize,
    pub end_line: usize,
    pub parent_name: Option<String>,
}

/// One capture of a query match, as plain values: the capture's index in
/// the query, the text of the captured node (`None` when it is not valid
/// UTF-8), the node's kind and its first and last rows.
pub struct RawCapture {
    pub index: u32,
    pub text: Option<String>,
    pub kind: String,
    pub start_row: usize,
    pub end_row: usize,
}

/// One match of a query: its captures in order.
pub struct RawMatch {
    pub captures: Vec<RawCapture>,
}

/// The languages whose symbols are extracted.
pub enum Grammar {
    Rust,
    Python,
    TypeScript,
}

/// Why a file could not be parsed.
pub enum ParseError {
    /// The grammar does not fit the tree-sitter library.
    Language,
    /// The symbol query does not compile for the grammar.
    Query,
    /// The symbol query lacks the `name` or the `symbol` capture.
    MissingCapture,
}

/// `std::path::Path::extension` of `path`, when it has one.
pub uninterp spec fn path_extension_spec(path: Seq<char>) -> Option<Seq<char>>;

/// `std::path::Path::extension`, for a path given as text. The contract
/// names the result; the rules by which std finds the file name and its
/// extension are left unsaid.
#[verifier::external_body]
fn path_extension(path: &str) -> (ext: Option<String>)
    ensures
        match ext {
            Some(e) => path_extension_spec(path@) == Some(e@),
            None => path_extension_spec(path@) is None,
        },
{
    match std::path::Path::new(path).extension() {
        Some(e) => Some(e.to_string_lossy().into_owned()),
        None => None,
    }
}

/// The grammar that the extension `ext` selects, if any.
pub open spec fn grammar_for_spec(ext: Seq<char>) -> Option<Grammar> {
    if ext == "rs"@ {
        Some(Grammar::Rust)
    } else if ext == "py"@ {
        Some(Grammar::Python)
    } else if ext == "ts"@ || ext == "tsx"@ || ext == "js"@ || ext == "jsx"@ {
        Some(Grammar::TypeScript)
    } else {
        None
    }
}

/// The extension that the file at `path` is parsed by: empty when it has
/// none.
pub open spec fn file_extension_spec(path: Seq<char>) -> Seq<char> {
    match path_extension_spec(path) {
        Some(e) => e,
        None => seq![],
    }
}

fn str_is(s: &str, t: &str) -> (b: bool)
    ensures
        b == (s@ == t@),
{
    s.to_owned() == t.to_owned()
}

/// The grammar for the extension `ext`: Rust for `rs`, Python for `py`, and
/// TypeScript for `ts`, `tsx`, `js` and `jsx`.
pub fn grammar_for_extension(ext: &str) -> (g: Option<Grammar>)
    ensures
        g == grammar_for_spec(ext@),
{
    if str_is(ext, "rs") {
        Some(Grammar::Rust)
    } else if str_is(ext, "py") {
        Some(Grammar::Python)
    } else if str_is(ext, "ts") || str_is(ext, "tsx") || str_is(ext, "js") || str_is(ext, "jsx") {
        Some(Grammar::TypeScript)
    } else {
        None
    }
}

/// The query that finds the symbols of a grammar: functions, structs and
/// impl blocks in Rust; functions and classes in Python; functions, classes
/// and methods in TypeScript. Each pattern captures the defining node as
/// `symbol` and its name as `name`.
pub open spec fn query_source_spec(g: Grammar) -> Seq<char> {
    match g {
        Grammar::Rust => "(function_item name: (identifier) @name) @symbol
                 (struct_item name: (type_identifier) @name) @symbol
                 (impl_item type: (type_identifier) @name) @symbol"@,
        Grammar::Python => "(function_definition name: (identifier) @name) @symbol
                 (class_definition name: (identifier) @name) @symbol"@,
        Grammar::TypeScript => "(function_declaration name: (identifier) @name) @symbol
                 (class_declaration name: (type_identifier) @name) @symbol
                 (method_definition name: (property_identifier) @name) @symbol"@,
    }
}

/// The pattern that captures every node of kind `kind` as `symbol` and its
/// child in the field `field`, a node of kind `name_kind`, as `name`, with
/// no further constraint.
pub open spec fn symbol_pattern(kind: Seq<char>, field: Seq<char>, name_kind: Seq<char>) -> Seq<char> {
    "("@ + kind + " "@ + field + ": ("@ + name_kind + ") @name) @symbol"@
}

/// The separator between the patterns of a query.
pub open spec fn pattern_separator() -> Seq<char> {
    "\n                 "@
}

/// The kinds of symbol that a grammar defines, each with the field and the
/// node kind of its name: Rust functions, structs and impl blocks (named by
/// the implemented type); Python functions and classes; TypeScript
/// functions, classes and methods.
pub open spec fn symbol_kinds(g: Grammar) -> Seq<(Seq<char>, Seq<char>, Seq<char>)> {
    match g {
        Grammar::Rust => seq![
            ("function_item"@, "name"@, "identifier"@),
            ("struct_item"@, "name"@, "type_identifier"@),
            ("impl_item"@, "type"@, "type_identifier"@),
        ],
        Grammar::Python => seq![
            ("function_definition"@, "name"@, "identifier"@),
            ("class_definition"@, "name"@, "identifier"@),
        ],
        Grammar::TypeScript => seq![
            ("function_declaration"@, "name"@, "identifier"@),
            ("class_declaration"@, "name"@, "type_identifier"@),
            ("method_definition"@, "name"@, "property_identifier"@),
        ],
    }
}

/// Each symbol query is one unconstrained pattern per kind of symbol of its
/// grammar, and nothing else: every function, struct, impl block, class or
/// method node with a name child is a match, whatever else it holds (a
/// return type, parameters, a body, attributes).
pub proof fn lemma_symbol_queries(g: Grammar)
    ensures
        query_source_spec(g) == join_spec(
            symbol_kinds(g).map_values(
                |k: (Seq<char>, Seq<char>, Seq<char>)| symbol_pattern(k.0, k.1, k.2),
            ),
            pattern_separator(),
        ),
{
    reveal_strlit("(");
    reveal_strlit(" ");
    reveal_strlit(": (");
    reveal_strlit(") @name) @symbol");
    reveal_strlit("\n                 ");
    reveal_strlit("name");
    reveal_strlit("type");
    reveal_strlit("identifier");
    reveal_strlit("type_identifier");
    reveal_strlit("property_identifier");
    let ps = symbol_kinds(g).map_values(
        |k: (Seq<char>, Seq<char>, Seq<char>)| symbol_pattern(k.0, k.1, k.2),
    );
    reveal_with_fuel(join_spec, 4);
    match g {
        Grammar::Rust => {
            reveal_strlit("function_item");
            reveal_strlit("struct_item");
            reveal_strlit("impl_item");
            reveal_strlit(
                "(function_item name: (identifier) @name) @symbol
                 (struct_item name: (type_identifier) @name) @symbol
                 (impl_item type: (type_identifier) @name) @symbol",
            );
            assert(ps.drop_last().drop_last() =~= seq![ps[0]]);
            assert(ps.drop_last().len() == 2);
            assert(ps.drop_last().last() == ps[1]);
            assert(join_spec(ps.drop_last().drop_last(), pattern_separator()) == ps[0]);
            assert(join_spec(ps.drop_last(), pattern_separator()) == ps[0] + pattern_separator()
                + ps[1]);
            assert(query_source_spec(g) =~= ps[0] + pattern_separator() + ps[1] + pattern_separator()
                + ps[2]);
        },
        Grammar::Python => {
            reveal_strlit("function_definition");
            reveal_strlit("class_definition");
            reveal_strlit(
                "(function_definition name: (identifier) @name) @symbol
                 (class_definition name: (identifier) @name) @symbol",
            );
            assert(ps.drop_last() =~= seq![ps[0]]);
            assert(join_spec(ps.drop_last(), pattern_separator()) == ps[0]);
            assert(query_source_spec(g) =~= ps[0] + pattern_separator() + ps[1]);
        },
        Grammar::TypeScript => {
            reveal_strlit("function_declaration");
            reveal_strlit("class_declaration");
            reveal_strlit("method_definition");
            reveal_strlit(
                "(function_declaration name: (identifier) @name) @symbol
                 (class_declaration name: (type_identifier) @name) @symbol
                 (method_definition name: (property_identifier) @name) @symbol",
            );
            assert(ps.drop_last().drop_last() =~= seq![ps[0]]);
            assert(ps.drop_last().len() == 2);
            assert(ps.drop_last().last() == ps[1]);
            assert(join_spec(ps.drop_last().drop_last(), pattern_separator()) == ps[0]);
            assert(join_spec(ps.drop_last(), pattern_separator()) == ps[0] + pattern_separator()
                + ps[1]);
            assert(query_source_spec(g) =~= ps[0] + pattern_separator() + ps[1] + pattern_separator()
                + ps[2]);
        },
    }
}

/// The symbol query for `g` (see `query_source_spec`).
pub fn query_source(g: &Grammar) -> (q: &'static str)
    ensures
        q@ == query_source_spec(*g),
{
    match g {
        Grammar::Rust => "(function_item name: (identifier) @name) @symbol
                 (struct_item name: (type_identifier) @name) @symbol
                 (impl_item type: (type_identifier) @name) @symbol",
        Grammar::Python => "(function_definition name: (identifier) @name) @symbol
                 (class_definition name: (identifier) @name) @symbol",
        Grammar::TypeScript => "(function_declaration name: (identifier) @name) @symbol
                 (class_declaration name: (type_identifier) @name) @symbol
                 (method_definition name: (property_identifier) @name) @symbol",
    }
}


/// The name, kind and rows gathered from the captures `caps` of one match:
/// the text of the last `name` capture that is valid UTF-8, and the kind
/// and rows of the last `symbol` capture; empty name and kind and rows 0
/// where there is none.
pub open spec fn capture_state(
    caps: Seq<(u32, Option<Seq<char>>, Seq<char>, usize, usize)>,
    name_idx: u32,
    symbol_idx: u32,
) -> (Seq<char>, Seq<char>, usize, usize)
    decreases caps.len(),
{
    if caps.len() == 0 {
        (seq![], seq![], 0, 0)
    } else {
        let (n, k, s, e) = capture_state(caps.drop_last(), name_idx, symbol_idx);
        let c = caps.last();
        if c.0 == name_idx {
            match c.1 {
                Some(t) => (t, k, s, e),
                None => (n, k, s, e),
            }
        } else if c.0 == symbol_idx {
            (n, c.2, c.3, c.4)
        } else {
            (n, k, s, e)
        }
    }
}

/// The symbols of the matches `ms`: one per match whose name is not empty.
pub open spec fn symbols_spec(
    ms: Seq<Seq<(u32, Option<Seq<char>>, Seq<char>, usize, usize)>>,
    name_idx: u32,
    symbol_idx: u32,
) -> Seq<(Seq<char>, Seq<char>, usize, usize)>
    decreases ms.len(),
{
    if ms.len() == 0 {
        seq![]
    } else {
        let rest = symbols_spec(ms.drop_last(), name_idx, symbol_idx);
        let st = capture_state(ms.last(), name_idx, symbol_idx);
        if st.0.len() > 0 {
            rest.push(st)
        } else {
            rest
        }
    }
}

/// Name, kind and rows of each symbol.
pub open spec fn symbol_views(v: Seq<Symbol>) -> Seq<(Seq<char>, Seq<char>, usize, usize)> {
    v.map_values(|s: Symbol| (s.name@, s.kind@, s.start_line, s.end_line))
}

/// The symbols of the query matches `ms`, where `name_idx` and `symbol_idx`
/// are the indices of the `name` and `symbol` captures. No symbol has a
/// parent.
pub fn symbols_from_matches(ms: &Vec<RawMatch>, name_idx: u32, symbol_idx: u32) -> (syms: Vec<
    Symbol,
>)
    ensures
        symbol_views(syms@) == symbols_spec(match_views(ms@), name_idx, symbol_idx),
        forall|i: int| 0 <= i < syms@.len() ==> (#[trigger] syms@[i]).parent_name is None,
{
    let ghost all = match_views(ms@);
    let mut syms: Vec<Symbol> = Vec::new();
    let mut m: usize = 0;
    assert(all.take(0) =~= Seq::empty());
    while m < ms.len()
        invariant
            m <= ms@.len(),
            all == match_views(ms@),
            symbol_views(syms@) == symbols_spec(all.take(m as int), name_idx, symbol_idx),
            forall|i: int| 0 <= i < syms@.len() ==> (#[trigger] syms@[i]).parent_name is None,
        decreases ms@.len() - m,
    {
        let caps = &ms[m].captures;
        let ghost cv = crate::parsers::syntax::capture_views(caps@);
        assert(all[m as int] == cv);
        let mut name = String::new();
        let mut kind = String::new();
        let mut start_line: usize = 0;
        let mut end_line: usize = 0;
        let mut c: usize = 0;
        assert(cv.take(0) =~= Seq::empty());
        while c < caps.len()
            invariant
                c <= caps@.len(),
                cv == crate::parsers::syntax::capture_views(caps@),
                (name@, kind@, start_line, end_line) == capture_state(
                    cv.take(c as int),
                    name_idx,
                    symbol_idx,
                ),
            decreases caps@.len() - c,
        {
            assert(cv.take(c + 1).drop_last() =~= cv.take(c as int));
            assert(cv.take(c + 1).last() == crate::parsers::syntax::capture_view(caps@[c as int]));
            let cap = &caps[c];
            if cap.index == name_idx {
                match &cap.text {
                    Some(t) => {
                        name = t.clone();
                    },
                    None => {},
                }
            } else if cap.index == symbol_idx {
                kind = cap.kind.clone();
                start_line = cap.start_row;
                end_line = cap.end_row;
            }
            c = c + 1;
        }
        assert(cv.take(cv.len() as int) =~= cv);
        assert(all.take(m + 1).drop_last() =~= all.take(m as int));
        assert(all.take(m + 1).last() == cv);
        if name.as_str().unicode_len() > 0 {
            let ghost prev = syms@;
            syms.push(Symbol { name, kind, start_line, end_line, parent_name: None });
            assert(symbol_views(syms@) =~= symbol_views(prev).push(
                (syms@.last().name@, syms@.last().kind@, start_line, end_line),
            ));
        }
        m = m + 1;
    }
    assert(all.take(all.len() as int) =~= all);
    syms
}

/// The tree-sitter language of a grammar.
fn language_of(g: &Grammar) -> (l: GrammarLanguage)
    ensures
        l@ == *g,
{
    match g {
        Grammar::Rust => rust_language(),
        Grammar::Python => python_language(),
        Grammar::TypeScript => typescript_language(),
    }
}

/// What parsing a file of grammar `g` with text `content` gives: the error
/// of the first step that fails (the grammar does not fit the library, the
/// symbol query does not compile, or it lacks the `name` or `symbol`
/// capture), else the symbols of the query's matches over the file's tree.
pub open spec fn grammar_symbols_spec(g: Grammar, content: Seq<char>) -> Result<
    Seq<(Seq<char>, Seq<char>, usize, usize)>,
    ParseError,
> {
    let q = query_source_spec(g);
    if !grammar_fits(g) {
        Err(ParseError::Language)
    } else if !query_compiles(g, q) {
        Err(ParseError::Query)
    } else {
        match (query_capture_index(g, q, "name"@), query_capture_index(g, q, "symbol"@)) {
            (Some(n), Some(s)) => Ok(symbols_spec(query_matches(g, q, content), n, s)),
            _ => Err(ParseError::MissingCapture),
        }
    }
}

/// What parsing the file at `path` with text `content` gives: no symbols
/// when its extension selects no grammar, else `grammar_symbols_spec`.
pub open spec fn file_symbols_spec(path: Seq<char>, content: Seq<char>) -> Result<
    Seq<(Seq<char>, Seq<char>, usize, usize)>,
    ParseError,
> {
    match grammar_for_spec(file_extension_spec(path)) {
        None => Ok(seq![]),
        Some(g) => grammar_symbols_spec(g, content),
    }
}

/// Extracts symbols from source files with tree-sitter.
pub struct TreeSitterParser {
    parser: SyntaxParser,
}

impl TreeSitterParser {
    /// A parser that has not parsed anything yet.
    pub fn new() -> (p: TreeSitterParser) {
        TreeSitterParser { parser: new_parser() }
    }

    /// The symbols defined in `content`, the text of the file at `path`
    /// (see `file_symbols_spec`). Each symbol has a non-empty name and no
    /// parent. The result depends on `path` and `content` alone, not on
    /// what the parser parsed before.
    pub fn parse_file(&mut self, path: &str, content: &str) -> (r: Result<Vec<Symbol>, ParseError>)
        ensures
            match (r, file_symbols_spec(path@, content@)) {
                (Ok(v), Ok(s)) => symbol_views(v@) == s,
                (Err(e), Err(f)) => e == f,
                _ => false,
            },
            r matches Ok(v) ==> forall|i: int|
                0 <= i < v@.len() ==> (#[trigger] v@[i]).name@.len() > 0 && v@[i].parent_name is None,
    {
        let ext = match path_extension(path) {
            Some(e) => e,
            None => String::new(),
        };
        let grammar = match grammar_for_extension(ext.as_str()) {
            Some(g) => g,
            None => {
                assert(symbol_views(Seq::<Symbol>::empty()) =~= seq![]);
                return Ok(Vec::new());
            },
        };
        let language = language_of(&grammar);
        match set_parser_language(&mut self.parser, &language) {
            Ok(()) => {},
            Err(_) => {
                return Err(ParseError::Language);
            },
        }
        let tree = parse_content(&mut self.parser, content);
        let query = match new_query(&language, query_source(&grammar)) {
            Ok(q) => q,
            Err(_) => {
                return Err(ParseError::Query);
            },
        };
        let name_idx = match capture_index(&query, "name") {
            Some(i) => i,
            None => {
                return Err(ParseError::MissingCapture);
            },
        };
        let symbol_idx = match capture_index(&query, "symbol") {
            Some(i) => i,
            None => {
                return Err(ParseError::MissingCapture);
            },
        };
        let matches = collect_matches(&query, &tree, content);
        let syms = symbols_from_matches(&matches, name_idx, symbol_idx);
        proof {
            lemma_symbols_named(match_views(matches@), name_idx, symbol_idx);
            assert forall|i: int| 0 <= i < syms@.len() implies (#[trigger] syms@[i]).name@.len() > 0 by {
                assert(symbol_views(syms@)[i].0 == syms@[i].name@);
            }
        }
        Ok(syms)
    }
}

/// Every symbol extracted from query matches has a name.
pub proof fn lemma_symbols_named(
    ms: Seq<Seq<(u32, Option<Seq<char>>, Seq<char>, usize, usize)>>,
    name_idx: u32,
    symbol_idx: u32,
)
    ensures
        forall|i: int|
            0 <= i < symbols_spec(ms, name_idx, symbol_idx).len() ==> (#[trigger] symbols_spec(
                ms,
                name_idx,
                symbol_idx,
            )[i]).0.len() > 0,
    decreases ms.len(),
{
    if ms.len() > 0 {
        lemma_symbols_named(ms.drop_last(), name_idx, symbol_idx);
        let rest = symbols_spec(ms.drop_last(), name_idx, symbol_idx);
        let all = symbols_spec(ms, name_idx, symbol_idx);
        assert forall|i: int| 0 <= i < all.len() implies (#[trigger] all[i]).0.len() > 0 by {
            if i < rest.len() {
                assert(all[i] == rest[i]);
            }
        }
    }
}

} // verus!
