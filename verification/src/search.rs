use vstd::prelude::*;
use vstd::string::*;
use crate::text::{
    join, join_spec, other_than, push_char, push_str, remove_all, remove_char, views, words,
    words_spec,
};

verus! {

broadcast use vstd::string::group_string_axioms;

/// One symbol found by the full-text search, with the file it lives in.
pub struct SearchResult {
    pub symbol_name: String,
    pub kind: String,
    pub file_path: String,
    pub start_line: i64,
    pub end_line: i64,
}

/// The full-text term for the word `w`: the word with its double quotes
/// removed, quoted, and marked as a prefix (`*`).
pub open spec fn fts_term_spec(w: Seq<char>) -> Seq<char> {
    seq!['"'] + remove_all(w, '"') + seq!['"', '*']
}

/// The full-text query for a search for `query`: its double quotes are
/// removed, then the terms of its words are joined by ` OR `, so that a
/// symbol matching any word is found; a query without words gives the empty
/// term.
pub open spec fn fts_query_spec(query: Seq<char>) -> Seq<char> {
    let ws = words_spec(remove_all(query, '"'));
    if ws.len() == 0 {
        fts_term_spec(seq![])
    } else {
        join_spec(ws.map_values(|w: Seq<char>| fts_term_spec(w)), " OR "@)
    }
}

/// The full-text term for the word `w`.
pub fn fts_term(w: &str) -> (t: String)
    ensures
        t@ == fts_term_spec(w@),
{
    let mut t = String::new();
    push_char(&mut t, '"');
    let inner = remove_char(w, '"');
    push_str(&mut t, inner.as_str());
    push_char(&mut t, '"');
    push_char(&mut t, '*');
    assert(t@ =~= fts_term_spec(w@));
    t
}

/// The full-text query that the search runs for `query`.
pub fn fts_query(query: &str) -> (q: String)
    ensures
        q@ == fts_query_spec(query@),
{
    let clean = remove_char(query, '"');
    let ws = words(clean.as_str());
    if ws.len() == 0 {
        proof {
            reveal_strlit("");
        }
        return fts_term("");
    }
    let mut terms: Vec<String> = Vec::new();
    let mut i: usize = 0;
    assert(views(ws@).take(0).map_values(|w: Seq<char>| fts_term_spec(w)) =~= Seq::<Seq<char>>::empty());
    while i < ws.len()
        invariant
            i <= ws@.len(),
            views(terms@) == views(ws@).take(i as int).map_values(|w: Seq<char>| fts_term_spec(w)),
        decreases ws@.len() - i,
    {
        let ghost prev = terms@;
        terms.push(fts_term(ws[i].as_str()));
        assert(views(terms@) =~= views(prev).push(fts_term_spec(ws@[i as int]@)));
        assert(views(ws@).take(i + 1).map_values(|w: Seq<char>| fts_term_spec(w)) =~= views(ws@).take(
            i as int,
        ).map_values(|w: Seq<char>| fts_term_spec(w)).push(fts_term_spec(ws@[i as int]@)));
        i = i + 1;
    }
    assert(views(ws@).take(ws@.len() as int) =~= views(ws@));
    join(&terms, " OR ")
}

/// A term holds exactly two double quotes, around the word: no quote of
/// the user's query can close a phrase early.
pub proof fn lemma_fts_term_quotes(w: Seq<char>)
    ensures
        fts_term_spec(w)[0] == '"',
        fts_term_spec(w)[fts_term_spec(w).len() - 2] == '"',
        fts_term_spec(w).last() == '*',
        forall|i: int| 1 <= i < fts_term_spec(w).len() - 2 ==> #[trigger] fts_term_spec(w)[i] != '"',
{
    let inner = remove_all(w, '"');
    assert forall|i: int| 1 <= i < fts_term_spec(w).len() - 2 implies #[trigger] fts_term_spec(w)[i]
        != '"' by {
        assert(fts_term_spec(w)[i] == inner[i - 1]);
        let pred = other_than('"');
        assert(0 <= i - 1 < w.filter(pred).len());
        w.lemma_filter_pred(pred, i - 1);
    }
}

/// Removing a character twice removes no more than removing it once.
proof fn lemma_remove_all_twice(s: Seq<char>, c: char)
    ensures
        remove_all(remove_all(s, c), c) == remove_all(s, c),
    decreases s.len(),
{
    reveal_with_fuel(Seq::filter, 1);
    if s.len() > 0 {
        lemma_remove_all_twice(s.drop_last(), c);
        let r = remove_all(s.drop_last(), c);
        if s.last() != c {
            assert(remove_all(s, c) == r.push(s.last()));
            assert(r.push(s.last()).drop_last() =~= r);
        }
    }
}

/// Double quotes in a query change nothing: the query and the query with
/// its double quotes removed give the same full-text query.
pub proof fn lemma_quotes_ignored(query: Seq<char>)
    ensures
        fts_query_spec(query) == fts_query_spec(remove_all(query, '"')),
{
    lemma_remove_all_twice(query, '"');
}

/// `t` occurs in `s` as a contiguous piece.
pub open spec fn occurs_in(t: Seq<char>, s: Seq<char>) -> bool {
    exists|k: int| 0 <= k && k + t.len() <= s.len() && #[trigger] s.subrange(k, k + t.len()) == t
}

proof fn lemma_occurs_in_prefix(t: Seq<char>, a: Seq<char>, b: Seq<char>)
    requires
        occurs_in(t, a),
    ensures
        occurs_in(t, a + b),
{
    let k = choose|k: int| 0 <= k && k + t.len() <= a.len() && #[trigger] a.subrange(k, k + t.len()) == t;
    assert((a + b).subrange(k, k + t.len()) =~= a.subrange(k, k + t.len()));
}

/// A join ends with its last part.
proof fn lemma_join_ends_with(parts: Seq<Seq<char>>, sep: Seq<char>)
    requires
        parts.len() > 0,
    ensures
        join_spec(parts, sep).len() >= parts.last().len(),
        join_spec(parts, sep).subrange(
            join_spec(parts, sep).len() - parts.last().len(),
            join_spec(parts, sep).len() as int,
        ) == parts.last(),
{
    let j = join_spec(parts, sep);
    if parts.len() == 1 {
        assert(j.subrange(0, j.len() as int) =~= j);
    } else {
        let pre = join_spec(parts.drop_last(), sep) + sep;
        assert(j == pre + parts.last());
        assert(j.subrange(pre.len() as int, j.len() as int) =~= parts.last());
    }
}

/// Each part of a join occurs in it, and each two neighbouring parts occur
/// in it with the separator between them.
proof fn lemma_join_parts(parts: Seq<Seq<char>>, sep: Seq<char>, i: int)
    requires
        0 <= i < parts.len(),
    ensures
        occurs_in(parts[i], join_spec(parts, sep)),
        i + 1 < parts.len() ==> occurs_in(parts[i] + sep + parts[i + 1], join_spec(parts, sep)),
    decreases parts.len(),
{
    let j = join_spec(parts, sep);
    let n = parts.len() - 1;
    if parts.len() == 1 {
        assert(j == parts[0]);
        assert(j.subrange(0, 0 + parts[0].len() as int) =~= parts[0]);
    } else {
        let pj = join_spec(parts.drop_last(), sep);
        assert(j == pj + sep + parts.last());
        assert(j == pj + (sep + parts.last()));
        if i < n {
            lemma_join_parts(parts.drop_last(), sep, i);
            assert(parts.drop_last()[i] == parts[i]);
            lemma_occurs_in_prefix(parts[i], pj, sep + parts.last());
            if i + 1 < n {
                assert(parts.drop_last()[i + 1] == parts[i + 1]);
                lemma_occurs_in_prefix(parts[i] + sep + parts[i + 1], pj, sep + parts.last());
            } else {
                lemma_join_ends_with(parts.drop_last(), sep);
                let t = parts[i] + sep + parts[i + 1];
                let k = pj.len() - parts[i].len();
                assert(parts.drop_last().last() == parts[i]);
                assert(j.subrange(k, k + t.len()) =~= t);
            }
        } else {
            let k: int = (pj.len() + sep.len()) as int;
            assert(i == n);
            assert(parts[i] == parts.last());
            assert(j.subrange(k, k + parts[i].len()) =~= parts[i]);
        }
    }
}

/// Every word of the query is searched, each as a quoted prefix term, and
/// neighbouring words are alternatives (` OR `): a symbol that matches any
/// one word is found, whatever the number of words.
pub proof fn lemma_every_word_searched(query: Seq<char>, i: int)
    requires
        0 <= i < words_spec(remove_all(query, '"')).len(),
    ensures
        occurs_in(fts_term_spec(words_spec(remove_all(query, '"'))[i]), fts_query_spec(query)),
        i + 1 < words_spec(remove_all(query, '"')).len() ==> occurs_in(
            fts_term_spec(words_spec(remove_all(query, '"'))[i]) + " OR "@ + fts_term_spec(
                words_spec(remove_all(query, '"'))[i + 1],
            ),
            fts_query_spec(query),
        ),
{
    let ws = words_spec(remove_all(query, '"'));
    let terms = ws.map_values(|w: Seq<char>| fts_term_spec(w));
    lemma_join_parts(terms, " OR "@, i);
}

/// The term of a word holds the word without its double quotes, between
/// double quotes, marked as a prefix.
pub proof fn lemma_term_shape(w: Seq<char>)
    ensures
        fts_term_spec(w) == seq!['"'] + remove_all(w, '"') + seq!['"', '*'],
{
}

/// The `LIKE` pattern that finds commit messages containing `query`.
pub open spec fn like_pattern_spec(query: Seq<char>) -> Seq<char> {
    seq!['%'] + query + seq!['%']
}

/// The `LIKE` pattern that finds commit messages containing `query`.
pub fn like_pattern(query: &str) -> (p: String)
    ensures
        p@ == like_pattern_spec(query@),
{
    let mut p = String::new();
    push_char(&mut p, '%');
    push_str(&mut p, query);
    push_char(&mut p, '%');
    assert(p@ =~= like_pattern_spec(query@));
    p
}

} // verus!
