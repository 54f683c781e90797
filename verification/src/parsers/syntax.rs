//! Handles on tree-sitter's parser, languages, trees and queries. Each
//! handle carries, as its view, the plain values it was made from: the
//! grammar of a language, the language a parser is set to, the grammar and
//! text of a tree, the grammar and source of a query. Only the functions of
//! this module make handles, so a view always tells how its handle came to
//! be.
use vstd::prelude::*;
use streaming_iterator::StreamingIterator;
use crate::parsers::tree_sitter::{Grammar, RawCapture, RawMatch};

verus! {

#[verifier::external_type_specification]
#[verifier::external_body]
pub struct ExParser(::tree_sitter::Parser);

#[verifier::external_type_specification]
#[verifier::external_body]
pub struct ExLanguage(::tree_sitter::Language);

#[verifier::external_type_specification]
#[verifier::external_body]
pub struct ExTree(::tree_sitter::Tree);

#[verifier::external_type_specification]
#[verifier::external_body]
pub struct ExQuery(::tree_sitter::Query);

#[verifier::external_type_specification]
#[verifier::external_body]
pub struct ExLanguageError(::tree_sitter::LanguageError);

#[verifier::external_type_specification]
#[verifier::external_body]
pub struct ExQueryError(::tree_sitter::QueryError);

/// A capture as plain values: index, text, kind, first and last row.
pub open spec fn capture_view(c: RawCapture) -> (u32, Option<Seq<char>>, Seq<char>, usize, usize) {
    (
        c.index,
        match c.text {
            Some(t) => Some(t@),
            None => None,
        },
        c.kind@,
        c.start_row,
        c.end_row,
    )
}

/// The captures of one match as plain values.
pub open spec fn capture_views(cs: Seq<RawCapture>) -> Seq<
    (u32, Option<Seq<char>>, Seq<char>, usize, usize),
> {
    cs.map_values(|c: RawCapture| capture_view(c))
}

/// Matches as plain values.
pub open spec fn match_views(ms: Seq<RawMatch>) -> Seq<
    Seq<(u32, Option<Seq<char>>, Seq<char>, usize, usize)>,
> {
    ms.map_values(|m: RawMatch| capture_views(m.captures@))
}

/// Whether the tree-sitter library accepts the grammar `g`: its ABI
/// version lies in the range that the library supports.
pub uninterp spec fn grammar_fits(g: Grammar) -> bool;

/// Whether the query `source` compiles for the grammar `g`.
pub uninterp spec fn query_compiles(g: Grammar, source: Seq<char>) -> bool;

/// The index of the capture `name` in the query `source` for the grammar
/// `g`, if the query has that capture.
pub uninterp spec fn query_capture_index(g: Grammar, source: Seq<char>, name: Seq<char>) -> Option<
    u32,
>;

/// The matches of the query `source` over the tree that the grammar `g`
/// gives for `content`, in the order tree-sitter yields them.
pub uninterp spec fn query_matches(g: Grammar, source: Seq<char>, content: Seq<char>) -> Seq<
    Seq<(u32, Option<Seq<char>>, Seq<char>, usize, usize)>,
>;

/// A tree-sitter language and the grammar it is.
pub struct GrammarLanguage {
    language: ::tree_sitter::Language,
    grammar: Ghost<Grammar>,
}

impl View for GrammarLanguage {
    type V = Grammar;

    closed spec fn view(&self) -> Grammar {
        self.grammar@
    }
}

/// A tree-sitter parser and the grammar it is set to, if any.
pub struct SyntaxParser {
    parser: ::tree_sitter::Parser,
    grammar: Ghost<Option<Grammar>>,
}

impl View for SyntaxParser {
    type V = Option<Grammar>;

    closed spec fn view(&self) -> Option<Grammar> {
        self.grammar@
    }
}

/// A syntax tree and the grammar and text it was parsed from.
pub struct SyntaxTree {
    tree: ::tree_sitter::Tree,
    source: Ghost<(Grammar, Seq<char>)>,
}

impl View for SyntaxTree {
    type V = (Grammar, Seq<char>);

    closed spec fn view(&self) -> (Grammar, Seq<char>) {
        self.source@
    }
}

/// A compiled query and the grammar and source it was compiled from.
pub struct SyntaxQuery {
    query: ::tree_sitter::Query,
    source: Ghost<(Grammar, Seq<char>)>,
}

impl View for SyntaxQuery {
    type V = (Grammar, Seq<char>);

    closed spec fn view(&self) -> (Grammar, Seq<char>) {
        self.source@
    }
}

/// `tree_sitter::Parser::new`: a parser with no language set.
#[verifier::external_body]
pub(crate) fn new_parser() -> (p: SyntaxParser)
    ensures
        p@ is None,
{
    SyntaxParser { parser: ::tree_sitter::Parser::new(), grammar: Ghost(None) }
}

/// `tree_sitter_rust::LANGUAGE`, as a `tree_sitter::Language`.
#[verifier::external_body]
pub(crate) fn rust_language() -> (l: GrammarLanguage)
    ensures
        l@ == Grammar::Rust,
{
    GrammarLanguage { language: tree_sitter_rust::LANGUAGE.into(), grammar: Ghost(Grammar::Rust) }
}

/// `tree_sitter_python::LANGUAGE`, as a `tree_sitter::Language`.
#[verifier::external_body]
pub(crate) fn python_language() -> (l: GrammarLanguage)
    ensures
        l@ == Grammar::Python,
{
    GrammarLanguage {
        language: tree_sitter_python::LANGUAGE.into(),
        grammar: Ghost(Grammar::Python),
    }
}

/// `tree_sitter_typescript::LANGUAGE_TYPESCRIPT`, as a
/// `tree_sitter::Language`.
#[verifier::external_body]
pub(crate) fn typescript_language() -> (l: GrammarLanguage)
    ensures
        l@ == Grammar::TypeScript,
{
    GrammarLanguage {
        language: tree_sitter_typescript::LANGUAGE_TYPESCRIPT.into(),
        grammar: Ghost(Grammar::TypeScript),
    }
}

/// `tree_sitter::Parser::set_language`: succeeds exactly when the grammar
/// fits the library, and then sets the parser to it; on failure the parser
/// is left as it was.
#[verifier::external_body]
pub(crate) fn set_parser_language(parser: &mut SyntaxParser, language: &GrammarLanguage) -> (r: Result<
    (),
    ::tree_sitter::LanguageError,
>)
    ensures
        r is Ok <==> grammar_fits(language@),
        r is Ok ==> final(parser)@ == Some(language@),
        r is Err ==> final(parser)@ == old(parser)@,
{
    let r = parser.parser.set_language(&language.language);
    if r.is_ok() {
        parser.grammar = Ghost(Some(language@));
    }
    r
}

/// `tree_sitter::Parser::parse` of `content`, with no earlier tree. With a
/// language set and neither a timeout nor a cancellation flag, the parser
/// always gives a tree; it is the tree of `content` in the parser's
/// grammar, and the parser stays set to that grammar.
#[verifier::external_body]
pub(crate) fn parse_content(parser: &mut SyntaxParser, content: &str) -> (t: SyntaxTree)
    requires
        old(parser)@ is Some,
    ensures
        final(parser)@ == old(parser)@,
        t@ == (old(parser)@->0, content@),
{
    let source = Ghost((parser.grammar@->0, content@));
    SyntaxTree { tree: parser.parser.parse(content, None).unwrap(), source }
}

/// `tree_sitter::Query::new`: compiles `source` for the language; the
/// query compiles exactly when `query_compiles` says so.
#[verifier::external_body]
pub(crate) fn new_query(language: &GrammarLanguage, source: &str) -> (q: Result<
    SyntaxQuery,
    ::tree_sitter::QueryError,
>)
    ensures
        q is Ok <==> query_compiles(language@, source@),
        q matches Ok(query) ==> query@ == (language@, source@),
{
    match ::tree_sitter::Query::new(&language.language, source) {
        Ok(query) => Ok(SyntaxQuery { query, source: Ghost((language@, source@)) }),
        Err(e) => Err(e),
    }
}

/// `tree_sitter::Query::capture_index_for_name`.
#[verifier::external_body]
pub(crate) fn capture_index(query: &SyntaxQuery, name: &str) -> (i: Option<u32>)
    ensures
        i == query_capture_index(query@.0, query@.1, name@),
{
    query.query.capture_index_for_name(name)
}

/// `tree_sitter::QueryCursor::matches` of `query` over the whole `tree` of
/// `content`, drained into plain values. The matches come from a streaming
/// iterator that borrows the cursor, the query and the tree, which verified
/// code cannot drive; so the cursor is made, the matches are walked and
/// each capture's node is read (its text, kind and rows) here. The result
/// is `query_matches` of the query's grammar and source and the tree's
/// text; the text must be the one the tree was parsed from, since node
/// texts are cut out of it.
#[verifier::external_body]
pub(crate) fn collect_matches(query: &SyntaxQuery, tree: &SyntaxTree, content: &str) -> (ms: Vec<RawMatch>)
    requires
        tree@ == (query@.0, content@),
    ensures
        match_views(ms@) == query_matches(query@.0, query@.1, content@),
{
    let mut cursor = ::tree_sitter::QueryCursor::new();
    let mut matches = cursor.matches(&query.query, tree.tree.root_node(), content.as_bytes());
    let mut out = Vec::new();
    while let Some(m) = matches.next() {
        let captures = m.captures.iter().map(|c| RawCapture {
            index: c.index,
            text: c.node.utf8_text(content.as_bytes()).ok().map(String::from),
            kind: c.node.kind().to_string(),
            start_row: c.node.start_position().row,
            end_row: c.node.end_position().row,
        });
        out.push(RawMatch { captures: captures.collect() });
    }
    out
}

} // verus!
