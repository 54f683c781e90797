use codememory::search::{fts_query, fts_term, like_pattern};

#[test]
fn single_word_query_is_a_prefix_phrase() {
    assert_eq!(fts_query("TreeSitter"), "\"TreeSitter\"*");
}

#[test]
fn quotes_are_removed_from_the_query() {
    assert_eq!(fts_query("Tree\"Sitter\""), "\"TreeSitter\"*");
    assert_eq!(fts_term("\"\""), "\"\"*");
}

#[test]
fn several_words_are_joined_by_or() {
    assert_eq!(fts_query("indexer  hashing"), "\"indexer\"* OR \"hashing\"*");
}

#[test]
fn query_without_words_gives_empty_term() {
    assert_eq!(fts_query(""), "\"\"*");
    assert_eq!(fts_query("   "), "\"\"*");
}

#[test]
fn like_pattern_wraps_query() {
    assert_eq!(like_pattern("fix login"), "%fix login%");
}

#[test]
fn a_lone_quote_adds_no_term() {
    assert_eq!(fts_query("a \""), "\"a\"*");
    assert_eq!(fts_query("a \""), fts_query("a "));
    assert_eq!(fts_query("\" \""), "\"\"*");
}
