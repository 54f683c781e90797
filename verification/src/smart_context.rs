use vstd::prelude::*;
use vstd::string::*;
use crate::file_details::FileDetails;
use crate::search::SearchResult;
use crate::text::{int_decimal, push_decimal, push_str, views};

verus! {

broadcast use vstd::string::group_string_axioms;

/// A file on the score board: its path, its score in hundredths, and the
/// reasons that earned it, in the order they were given.
pub struct ScoredFile {
    pub path: String,
    pub score: i64,
    pub reasons: Vec<String>,
}

/// The value of a board entry: path, score in hundredths, reasons.
pub type EntryView = (Seq<char>, i64, Seq<Seq<char>>);

/// The value of a board entry.
pub open spec fn entry_view(e: ScoredFile) -> EntryView {
    (e.path@, e.score, views(e.reasons@))
}

/// The values of a list of board entries.
pub open spec fn entry_views(v: Seq<ScoredFile>) -> Seq<EntryView> {
    v.map_values(|e: ScoredFile| entry_view(e))
}

/// `x` clamped to the range of `i64`.
pub open spec fn clamp_i64(x: int) -> i64 {
    if x > i64::MAX {
        i64::MAX
    } else if x < i64::MIN {
        i64::MIN
    } else {
        x as i64
    }
}

/// `a + b`, saturating at the bounds of `i64`.
pub fn saturating_add(a: i64, b: i64) -> (r: i64)
    ensures
        r == clamp_i64(a + b),
{
    match a.checked_add(b) {
        Some(s) => s,
        None => if b > 0 {
            i64::MAX
        } else {
            i64::MIN
        },
    }
}

/// The board has an entry for `p`.
pub open spec fn has_path(b: Seq<EntryView>, p: Seq<char>) -> bool {
    exists|i: int| 0 <= i < b.len() && #[trigger] b[i].0 == p
}

/// No path has two entries.
pub open spec fn distinct_paths(b: Seq<EntryView>) -> bool {
    forall|i: int, j: int| 0 <= i < b.len() && 0 <= j < b.len() && i != j ==> #[trigger] b[i].0 != #[trigger] b[j].0
}

/// The entry of `p`: its score and reasons.
pub open spec fn lookup(b: Seq<EntryView>, p: Seq<char>) -> Option<(i64, Seq<Seq<char>>)> {
    if has_path(b, p) {
        let i = choose|i: int| 0 <= i < b.len() && #[trigger] b[i].0 == p;
        Some((b[i].1, b[i].2))
    } else {
        None
    }
}

/// Adds `amount` to the score of `p` and records `reason`; a path not yet on
/// the board enters with score `amount`.
pub open spec fn add_to(b: Seq<EntryView>, p: Seq<char>, amount: i64, reason: Seq<char>) -> Seq<
    EntryView,
> {
    if has_path(b, p) {
        let i = choose|i: int| 0 <= i < b.len() && #[trigger] b[i].0 == p;
        b.update(i, (p, clamp_i64(b[i].1 + amount), b[i].2.push(reason)))
    } else {
        b.push((p, amount, seq![reason]))
    }
}

/// As `add_to`, for a path already on the board; otherwise nothing changes.
pub open spec fn add_if_present(b: Seq<EntryView>, p: Seq<char>, amount: i64, reason: Seq<char>) -> Seq<
    EntryView,
> {
    if has_path(b, p) {
        add_to(b, p, amount, reason)
    } else {
        b
    }
}

/// `add_to` for each path of `paths` in turn, with one amount and reason.
pub open spec fn add_each(b: Seq<EntryView>, paths: Seq<Seq<char>>, amount: i64, reason: Seq<char>) -> Seq<
    EntryView,
>
    decreases paths.len(),
{
    if paths.len() == 0 {
        b
    } else {
        add_to(add_each(b, paths.drop_last(), amount, reason), paths.last(), amount, reason)
    }
}

/// The boost, in hundredths, of the search hit at position `i`: 1.00 for
/// the first, 0.08 less for each later one.
pub open spec fn rank_decay(i: int) -> i64 {
    clamp_i64(100 - 8 * i)
}

/// The reason recorded for a search hit.
pub open spec fn fts_reason(name: Seq<char>, kind: Seq<char>) -> Seq<char> {
    "FTS5 match: "@ + name + " ("@ + kind + ")"@
}

/// Stage 1: each search hit boosts its file by `rank_decay` of its position.
pub open spec fn search_stage(b: Seq<EntryView>, rs: Seq<SearchResult>) -> Seq<EntryView>
    decreases rs.len(),
{
    if rs.len() == 0 {
        b
    } else {
        let k = rs.len() - 1;
        add_to(
            search_stage(b, rs.drop_last()),
            rs[k].file_path@,
            rank_decay(k),
            fts_reason(rs[k].symbol_name@, rs[k].kind@),
        )
    }
}

/// Stage 2, for one matched file: the files it imports gain 0.30, the files
/// that import it gain 0.20.
pub open spec fn dependency_stage(
    b: Seq<EntryView>,
    file: Seq<char>,
    imports: Seq<Seq<char>>,
    importers: Seq<Seq<char>>,
) -> Seq<EntryView> {
    add_each(add_each(b, imports, 30, "imported by "@ + file), importers, 20, "imports "@ + file)
}

/// Stage 3: files changed in commits whose message matches gain 0.40.
pub open spec fn commit_stage(b: Seq<EntryView>, paths: Seq<Seq<char>>) -> Seq<EntryView> {
    add_each(b, paths, 40, "recently changed in matching commit"@)
}

/// The churn boost, in hundredths, of a file changed `freq` times: 0.10
/// per change, at most 0.30.
pub open spec fn churn_boost(freq: i64) -> i64 {
    if freq >= 3 {
        30
    } else {
        clamp_i64(10 * freq)
    }
}

/// The reason recorded for a file changed `freq` times.
pub open spec fn churn_reason(freq: i64) -> Seq<char> {
    "changed "@ + int_decimal(freq as int) + " times recently"@
}

/// Stage 3, churn: files already on the board gain `churn_boost` of their
/// recent change count; files not on the board are left out.
pub open spec fn churn_stage(b: Seq<EntryView>, rows: Seq<(Seq<char>, i64)>) -> Seq<EntryView>
    decreases rows.len(),
{
    if rows.len() == 0 {
        b
    } else {
        let (p, freq) = rows.last();
        add_if_present(churn_stage(b, rows.drop_last()), p, churn_boost(freq), churn_reason(freq))
    }
}

/// Stage 4: files of the current working set gain 0.50.
pub open spec fn working_set_stage(b: Seq<EntryView>, files: Seq<Seq<char>>) -> Seq<EntryView> {
    add_each(b, files, 50, "in current working set"@)
}

/// The board of scores that the ranking stages fill.
pub struct ScoreBoard {
    entries: Vec<ScoredFile>,
}

impl View for ScoreBoard {
    type V = Seq<EntryView>;

    closed spec fn view(&self) -> Seq<EntryView> {
        entry_views(self.entries@)
    }
}

proof fn lemma_add_to_facts(b: Seq<EntryView>, p: Seq<char>, amount: i64, reason: Seq<char>, i: int)
    requires
        distinct_paths(b),
        0 <= i < b.len(),
        b[i].0 == p,
    ensures
        add_to(b, p, amount, reason) == b.update(
            i,
            (p, clamp_i64(b[i].1 + amount), b[i].2.push(reason)),
        ),
        lookup(b, p) == Some((b[i].1, b[i].2)),
{
    let j = choose|j: int| 0 <= j < b.len() && #[trigger] b[j].0 == p;
    assert(b[j].0 == b[i].0);
}

impl ScoreBoard {
    /// The board holds each path at most once.
    pub open spec fn wf(&self) -> bool {
        distinct_paths(self@)
    }

    /// An empty board.
    pub fn new() -> (b: ScoreBoard)
        ensures
            b@ == Seq::<EntryView>::empty(),
            b.wf(),
    {
        let b = ScoreBoard { entries: Vec::new() };
        assert(b@ =~= Seq::<EntryView>::empty());
        b
    }

    /// The position of `path` on the board.
    fn find(&self, path: &String) -> (r: Option<usize>)
        ensures
            match r {
                Some(i) => i < self@.len() && self@[i as int].0 == path@,
                None => !has_path(self@, path@),
            },
    {
        let mut i: usize = 0;
        while i < self.entries.len()
            invariant
                i <= self.entries@.len(),
                self@ == entry_views(self.entries@),
                forall|j: int| 0 <= j < i ==> self@[j].0 != path@,
            decreases self.entries@.len() - i,
        {
            if self.entries[i].path == *path {
                return Some(i);
            }
            i = i + 1;
        }
        None
    }

    /// Adds `amount` to the score of `path`, entering it if needed.
    pub fn add(&mut self, path: String, amount: i64, reason: String)
        requires
            old(self).wf(),
        ensures
            final(self).wf(),
            final(self)@ == add_to(old(self)@, path@, amount, reason@),
    {
        match self.find(&path) {
            Some(i) => {
                proof {
                    lemma_add_to_facts(self@, path@, amount, reason@, i as int);
                }
                let ghost before = self.entries@;
                let mut e = self.entries.remove(i);
                e.score = saturating_add(e.score, amount);
                let ghost rs = e.reasons@;
                e.reasons.push(reason);
                assert(views(e.reasons@) =~= views(rs).push(reason@));
                self.entries.insert(i, e);
                assert(self.entries@ =~= before.update(i as int, e));
                assert(self@ =~= entry_views(before).update(i as int, entry_view(e)));
            },
            None => {
                let ghost before = self.entries@;
                let mut reasons = Vec::new();
                reasons.push(reason);
                assert(views(reasons@) =~= seq![reason@]);
                let e = ScoredFile { path, score: amount, reasons };
                self.entries.push(e);
                assert(self@ =~= entry_views(before).push(entry_view(e)));
            },
        }
    }

    /// As `add`, for a path already on the board; otherwise nothing changes.
    pub fn add_if_present(&mut self, path: String, amount: i64, reason: String)
        requires
            old(self).wf(),
        ensures
            final(self).wf(),
            final(self)@ == add_if_present(old(self)@, path@, amount, reason@),
    {
        match self.find(&path) {
            Some(i) => {
                assert(has_path(self@, path@));
                self.add(path, amount, reason);
            },
            None => {},
        }
    }

    /// Adds `amount` with `reason` to each path of `paths` in turn.
    pub fn add_each(&mut self, paths: &Vec<String>, amount: i64, reason: &str)
        requires
            old(self).wf(),
        ensures
            final(self).wf(),
            final(self)@ == add_each(old(self)@, views(paths@), amount, reason@),
    {
        let ghost b0 = self@;
        let mut i: usize = 0;
        assert(views(paths@).take(0) =~= Seq::<Seq<char>>::empty());
        while i < paths.len()
            invariant
                i <= paths@.len(),
                self.wf(),
                self@ == add_each(b0, views(paths@).take(i as int), amount, reason@),
            decreases paths@.len() - i,
        {
            assert(views(paths@).take(i + 1).drop_last() =~= views(paths@).take(i as int));
            self.add(paths[i].clone(), amount, reason.to_owned());
            i = i + 1;
        }
        assert(views(paths@).take(paths@.len() as int) =~= views(paths@));
    }

    /// The paths on the board, in the order they entered it.
    pub fn paths(&self) -> (ps: Vec<String>)
        ensures
            views(ps@) == self@.map_values(|e: EntryView| e.0),
    {
        let mut ps: Vec<String> = Vec::new();
        let mut i: usize = 0;
        while i < self.entries.len()
            invariant
                i <= self.entries@.len(),
                self@ == entry_views(self.entries@),
                views(ps@) == self@.take(i as int).map_values(|e: EntryView| e.0),
            decreases self.entries@.len() - i,
        {
            let ghost prev = ps@;
            ps.push(self.entries[i].path.clone());
            assert(views(ps@) =~= views(prev).push(self@[i as int].0));
            assert(self@.take(i + 1).map_values(|e: EntryView| e.0) =~= self@.take(
                i as int,
            ).map_values(|e: EntryView| e.0).push(self@[i as int].0));
            i = i + 1;
        }
        assert(self@.take(self@.len() as int) =~= self@);
        ps
    }
}


/// The boost of the search hit at position `i`.
pub fn rank_decay_at(i: usize) -> (d: i64)
    ensures
        d == rank_decay(i as int),
{
    if (i as u64) > 1152921504606846988u64 {
        i64::MIN
    } else {
        let k = i as i64;
        (100 - 4 * k) - 4 * k
    }
}

/// The churn boost of a file changed `freq` times.
pub fn churn_boost_of(freq: i64) -> (d: i64)
    ensures
        d == churn_boost(freq),
{
    if freq >= 3 {
        30
    } else if freq < -922337203685477580 {
        i64::MIN
    } else {
        10 * freq
    }
}

impl ScoreBoard {
    /// Stage 1: scores the files of the search hits `results`, best first.
    pub fn add_search_results(&mut self, results: &Vec<SearchResult>)
        requires
            old(self).wf(),
        ensures
            final(self).wf(),
            final(self)@ == search_stage(old(self)@, results@),
    {
        let ghost b0 = self@;
        let mut i: usize = 0;
        assert(results@.take(0) =~= Seq::<SearchResult>::empty());
        while i < results.len()
            invariant
                i <= results@.len(),
                self.wf(),
                self@ == search_stage(b0, results@.take(i as int)),
            decreases results@.len() - i,
        {
            let r = &results[i];
            let mut reason = "FTS5 match: ".to_owned();
            push_str(&mut reason, r.symbol_name.as_str());
            push_str(&mut reason, " (");
            push_str(&mut reason, r.kind.as_str());
            push_str(&mut reason, ")");
            assert(reason@ =~= fts_reason(r.symbol_name@, r.kind@));
            assert(results@.take(i + 1).drop_last() =~= results@.take(i as int));
            assert(results@.take(i + 1)[i as int] == results@[i as int]);
            self.add(r.file_path.clone(), rank_decay_at(i), reason);
            i = i + 1;
        }
        assert(results@.take(results@.len() as int) =~= results@);
    }

    /// Stage 2, for the matched file `file`: `imports` are the files it
    /// imports, `importers` the files that import it.
    pub fn add_dependencies(&mut self, file: &str, imports: &Vec<String>, importers: &Vec<String>)
        requires
            old(self).wf(),
        ensures
            final(self).wf(),
            final(self)@ == dependency_stage(old(self)@, file@, views(imports@), views(importers@)),
    {
        let mut r1 = "imported by ".to_owned();
        push_str(&mut r1, file);
        self.add_each(imports, 30, r1.as_str());
        let mut r2 = "imports ".to_owned();
        push_str(&mut r2, file);
        self.add_each(importers, 20, r2.as_str());
    }

    /// Stage 3: `paths` were changed in commits whose message matches.
    pub fn add_commit_matches(&mut self, paths: &Vec<String>)
        requires
            old(self).wf(),
        ensures
            final(self).wf(),
            final(self)@ == commit_stage(old(self)@, views(paths@)),
    {
        self.add_each(paths, 40, "recently changed in matching commit");
    }

    /// Stage 3, churn: each row is a path and how often it changed recently.
    pub fn add_recent_churn(&mut self, rows: &Vec<(String, i64)>)
        requires
            old(self).wf(),
        ensures
            final(self).wf(),
            final(self)@ == churn_stage(
                old(self)@,
                rows@.map_values(|r: (String, i64)| (r.0@, r.1)),
            ),
    {
        let ghost b0 = self@;
        let ghost rv = rows@.map_values(|r: (String, i64)| (r.0@, r.1));
        let mut i: usize = 0;
        assert(rv.take(0) =~= Seq::<(Seq<char>, i64)>::empty());
        while i < rows.len()
            invariant
                i <= rows@.len(),
                rv == rows@.map_values(|r: (String, i64)| (r.0@, r.1)),
                self.wf(),
                self@ == churn_stage(b0, rv.take(i as int)),
            decreases rows@.len() - i,
        {
            let (path, freq) = &rows[i];
            let mut reason = "changed ".to_owned();
            push_decimal(&mut reason, *freq);
            push_str(&mut reason, " times recently");
            assert(reason@ =~= churn_reason(*freq));
            assert(rv.take(i + 1).drop_last() =~= rv.take(i as int));
            assert(rv.take(i + 1).last() == (path@, *freq));
            self.add_if_present(path.clone(), churn_boost_of(*freq), reason);
            i = i + 1;
        }
        assert(rv.take(rows@.len() as int) =~= rv);
    }

    /// Stage 4: `files` make up the current working set.
    pub fn add_working_set(&mut self, files: &Vec<String>)
        requires
            old(self).wf(),
        ensures
            final(self).wf(),
            final(self)@ == working_set_stage(old(self)@, views(files@)),
    {
        self.add_each(files, 50, "in current working set");
    }
}


/// Scores never increase along `s`.
pub open spec fn sorted_desc(s: Seq<EntryView>) -> bool {
    forall|i: int, j: int| 0 <= i < j < s.len() ==> #[trigger] s[i].1 >= #[trigger] s[j].1
}

/// `s` with `e` placed after every entry whose score is at least `e`'s.
pub open spec fn insert_desc(s: Seq<EntryView>, e: EntryView) -> Seq<EntryView>
    decreases s.len(),
{
    if s.len() == 0 {
        seq![e]
    } else if s.last().1 >= e.1 {
        s.push(e)
    } else {
        insert_desc(s.drop_last(), e).push(s.last())
    }
}

/// `b` sorted by score, highest first; entries with equal scores keep the
/// order they had on the board.
pub open spec fn sort_desc(b: Seq<EntryView>) -> Seq<EntryView>
    decreases b.len(),
{
    if b.len() == 0 {
        b
    } else {
        insert_desc(sort_desc(b.drop_last()), b.last())
    }
}

/// The number of files that the pruning stage keeps.
pub open spec fn max_ranked() -> int {
    10
}

/// Stage 5: the board sorted by score, pruned to its first ten entries.
pub open spec fn ranked_spec(b: Seq<EntryView>) -> Seq<EntryView> {
    let s = sort_desc(b);
    if s.len() <= max_ranked() {
        s
    } else {
        s.take(max_ranked())
    }
}

proof fn lemma_insert_desc_bound(s: Seq<EntryView>, e: EntryView, m: i64)
    requires
        forall|i: int| 0 <= i < s.len() ==> #[trigger] s[i].1 >= m,
        e.1 >= m,
    ensures
        forall|i: int| 0 <= i < insert_desc(s, e).len() ==> #[trigger] insert_desc(s, e)[i].1 >= m,
    decreases s.len(),
{
    if s.len() == 0 {
    } else if s.last().1 >= e.1 {
        assert forall|i: int| 0 <= i < s.push(e).len() implies #[trigger] s.push(e)[i].1 >= m by {
            if i < s.len() {
                assert(s.push(e)[i] == s[i]);
            }
        }
    } else {
        let t = s.drop_last();
        lemma_insert_desc_bound(t, e, m);
        let r = insert_desc(t, e).push(s.last());
        assert forall|i: int| 0 <= i < r.len() implies #[trigger] r[i].1 >= m by {
            if i < r.len() - 1 {
                assert(r[i] == insert_desc(t, e)[i]);
            } else {
                assert(s.last() == s[s.len() - 1]);
            }
        }
    }
}

proof fn lemma_insert_desc_sorted(s: Seq<EntryView>, e: EntryView)
    requires
        sorted_desc(s),
    ensures
        sorted_desc(insert_desc(s, e)),
    decreases s.len(),
{
    if s.len() > 0 && s.last().1 < e.1 {
        let t = s.drop_last();
        lemma_insert_desc_sorted(t, e);
        lemma_insert_desc_bound(t, e, s.last().1);
        let r = insert_desc(t, e).push(s.last());
        assert forall|i: int, j: int| 0 <= i < j < r.len() implies #[trigger] r[i].1 >= #[trigger] r[j].1 by {
            if j == r.len() - 1 {
                assert(r[i] == insert_desc(t, e)[i]);
            }
        }
    }
}

proof fn lemma_insert_desc_multiset(s: Seq<EntryView>, e: EntryView)
    ensures
        insert_desc(s, e).to_multiset() =~= s.to_multiset().insert(e),
    decreases s.len(),
{
    broadcast use vstd::seq_lib::group_to_multiset_ensures;

    if s.len() == 0 {
        assert(seq![e] =~= Seq::<EntryView>::empty().push(e));
    } else if s.last().1 < e.1 {
        lemma_insert_desc_multiset(s.drop_last(), e);
        assert(s =~= s.drop_last().push(s.last()));
    }
}

/// Sorting yields scores that never increase.
pub proof fn lemma_sort_desc_sorted(b: Seq<EntryView>)
    ensures
        sorted_desc(sort_desc(b)),
    decreases b.len(),
{
    if b.len() > 0 {
        lemma_sort_desc_sorted(b.drop_last());
        lemma_insert_desc_sorted(sort_desc(b.drop_last()), b.last());
    }
}

/// Sorting neither loses nor adds an entry.
pub proof fn lemma_sort_desc_permutes(b: Seq<EntryView>)
    ensures
        sort_desc(b).to_multiset() == b.to_multiset(),
        sort_desc(b).len() == b.len(),
    decreases b.len(),
{
    broadcast use vstd::seq_lib::group_to_multiset_ensures;

    if b.len() > 0 {
        lemma_sort_desc_permutes(b.drop_last());
        lemma_insert_desc_multiset(sort_desc(b.drop_last()), b.last());
        assert(b =~= b.drop_last().push(b.last()));
    }
    assert(sort_desc(b).to_multiset().len() == b.to_multiset().len());
}

/// The pruning stage keeps the best files: at most ten, best first, each
/// from the board, and every file it drops scores no higher than every
/// file it keeps.
pub proof fn lemma_ranked_is_top(b: Seq<EntryView>)
    ensures
        ranked_spec(b).len() == if b.len() <= max_ranked() {
            b.len() as int
        } else {
            max_ranked()
        },
        sorted_desc(ranked_spec(b)),
        forall|k: int| 0 <= k < ranked_spec(b).len() ==> b.contains(#[trigger] ranked_spec(b)[k]),
        forall|i: int|
            0 <= i < b.len() ==> ranked_spec(b).contains(#[trigger] b[i]) || forall|k: int|
                0 <= k < ranked_spec(b).len() ==> b[i].1 <= #[trigger] ranked_spec(b)[k].1,
{
    broadcast use vstd::seq_lib::group_to_multiset_ensures;

    let s = sort_desc(b);
    let r = ranked_spec(b);
    lemma_sort_desc_sorted(b);
    lemma_sort_desc_permutes(b);
    assert forall|k: int| 0 <= k < r.len() implies b.contains(#[trigger] r[k]) by {
        assert(r[k] == s[k]);
        assert(s.contains(s[k]));
        assert(s.to_multiset().count(s[k]) > 0);
    }
    assert forall|i: int| 0 <= i < b.len() implies r.contains(#[trigger] b[i]) || forall|k: int|
        0 <= k < r.len() ==> b[i].1 <= #[trigger] r[k].1 by {
        assert(b.contains(b[i]));
        assert(b.to_multiset().count(b[i]) > 0);
        assert(s.contains(b[i]));
        let j = choose|j: int| 0 <= j < s.len() && s[j] == b[i];
        if j < r.len() {
            assert(r[j] == s[j]);
        } else {
            assert forall|k: int| 0 <= k < r.len() implies b[i].1 <= #[trigger] r[k].1 by {
                assert(r[k] == s[k]);
            }
        }
    }
}

proof fn lemma_insert_desc_at(s: Seq<EntryView>, e: EntryView, pos: int)
    requires
        0 <= pos <= s.len(),
        forall|k: int| 0 <= k < pos ==> #[trigger] s[k].1 >= e.1,
        forall|k: int| pos <= k < s.len() ==> #[trigger] s[k].1 < e.1,
    ensures
        insert_desc(s, e) == s.insert(pos, e),
    decreases s.len(),
{
    if s.len() == 0 {
        assert(s.insert(pos, e) =~= seq![e]);
    } else if s.last().1 >= e.1 {
        assert(pos == s.len());
        assert(s.insert(pos, e) =~= s.push(e));
    } else {
        lemma_insert_desc_at(s.drop_last(), e, pos);
        assert(s.drop_last().insert(pos, e).push(s.last()) =~= s.insert(pos, e));
    }
}

impl ScoreBoard {
    /// Stage 5: the files of the board, best first, at most ten.
    pub fn into_ranked(self) -> (ranked: Vec<ScoredFile>)
        ensures
            entry_views(ranked@) == ranked_spec(self@),
    {
        let ghost b0 = self@;
        let mut src = self.entries;
        assert(b0.len() == src.len());
        let mut out: Vec<ScoredFile> = Vec::new();
        let mut k: usize = 0;
        assert(b0.take(0) =~= Seq::<EntryView>::empty());
        assert(entry_views(src@) =~= b0.skip(0));
        while src.len() > 0
            invariant
                k <= b0.len(),
                b0.len() <= usize::MAX,
                entry_views(src@) == b0.skip(k as int),
                entry_views(out@) == sort_desc(b0.take(k as int)),
            decreases src@.len(),
        {
            let ghost src_before = src@;
            let e = src.remove(0);
            assert(entry_view(e) == b0[k as int]) by {
                assert(src_before.len() > 0);
                assert(entry_views(src_before).len() == src_before.len());
                assert(b0.skip(k as int).len() > 0);
                assert(b0.skip(k as int)[0] == b0[k as int]);
                assert(src_before[0] == e);
                assert(entry_views(src_before)[0] == entry_view(src_before[0]));
                assert(entry_views(src_before)[0] == b0.skip(k as int)[0]);
            }
            assert(entry_views(src@) =~= b0.skip(k + 1)) by {
                assert(entry_views(src@) =~= entry_views(src_before).drop_first());
            }
            proof {
                lemma_sort_desc_sorted(b0.take(k as int));
            }
            let mut pos = out.len();
            while pos > 0 && out[pos - 1].score < e.score
                invariant
                    pos <= out@.len(),
                    forall|j: int| pos <= j < out@.len() ==> #[trigger] out@[j].score < e.score,
                decreases pos,
            {
                pos = pos - 1;
            }
            proof {
                let s = entry_views(out@);
                assert forall|j: int| 0 <= j < pos implies #[trigger] s[j].1 >= e.score by {
                    assert(s[pos - 1].1 >= e.score);
                    assert(sorted_desc(s));
                    if j < pos - 1 {
                        assert(s[j].1 >= s[pos - 1].1);
                    }
                }
                assert forall|j: int| pos <= j < s.len() implies #[trigger] s[j].1 < e.score by {
                    assert(out@[j].score < e.score);
                }
                lemma_insert_desc_at(s, entry_view(e), pos as int);
                assert(b0.take(k + 1).drop_last() =~= b0.take(k as int));
            }
            let ghost out_before = out@;
            out.insert(pos, e);
            assert(entry_views(out@) =~= entry_views(out_before).insert(pos as int, entry_view(e)));
            k = k + 1;
        }
        proof {
            lemma_sort_desc_permutes(b0.take(k as int));
            assert(b0.skip(k as int).len() == 0);
            assert(b0.take(k as int) =~= b0);
        }
        out.truncate(10);
        assert(entry_views(out@) =~= ranked_spec(b0));
        out
    }
}


/// Adding to the board keeps each path on it at most once.
pub proof fn lemma_add_to_distinct(b: Seq<EntryView>, p: Seq<char>, amount: i64, reason: Seq<char>)
    requires
        distinct_paths(b),
    ensures
        distinct_paths(add_to(b, p, amount, reason)),
{
    let n = add_to(b, p, amount, reason);
    if has_path(b, p) {
        let i = choose|i: int| 0 <= i < b.len() && #[trigger] b[i].0 == p;
        assert forall|x: int, y: int| 0 <= x < n.len() && 0 <= y < n.len() && x != y implies #[trigger] n[x].0
            != #[trigger] n[y].0 by {
            if x == i {
                assert(n[y].0 == b[y].0);
            } else if y == i {
                assert(n[x].0 == b[x].0);
            } else {
                assert(n[x].0 == b[x].0 && n[y].0 == b[y].0);
            }
        }
    } else {
        assert forall|x: int, y: int| 0 <= x < n.len() && 0 <= y < n.len() && x != y implies #[trigger] n[x].0
            != #[trigger] n[y].0 by {
            if x == b.len() {
                assert(n[y] == b[y]);
            } else if y == b.len() {
                assert(n[x] == b[x]);
            } else {
                assert(n[x] == b[x] && n[y] == b[y]);
            }
        }
    }
}

/// The score board accumulates: adding `amount` for `p` adds it to the
/// score of `p` (which enters with `amount` if it was not on the board) and
/// appends `reason` to its reasons; every other path keeps its entry.
pub proof fn lemma_add_to_lookup(
    b: Seq<EntryView>,
    p: Seq<char>,
    amount: i64,
    reason: Seq<char>,
    q: Seq<char>,
)
    requires
        distinct_paths(b),
    ensures
        lookup(add_to(b, p, amount, reason), q) == if q == p {
            Some(
                match lookup(b, p) {
                    Some((score, reasons)) => (clamp_i64(score + amount), reasons.push(reason)),
                    None => (amount, seq![reason]),
                },
            )
        } else {
            lookup(b, q)
        },
{
    let n = add_to(b, p, amount, reason);
    lemma_add_to_distinct(b, p, amount, reason);
    if has_path(b, p) {
        let i = choose|i: int| 0 <= i < b.len() && #[trigger] b[i].0 == p;
        lemma_add_to_facts(b, p, amount, reason, i);
        assert(n[i].0 == p);
        lemma_add_to_facts(n, p, amount, reason, i);
        if q != p {
            if has_path(b, q) {
                let j = choose|j: int| 0 <= j < b.len() && #[trigger] b[j].0 == q;
                assert(n[j] == b[j]);
                lemma_add_to_facts(b, q, amount, reason, j);
                lemma_add_to_facts(n, q, amount, reason, j);
            } else {
                assert forall|j: int| 0 <= j < n.len() implies #[trigger] n[j].0 != q by {
                    if j != i {
                        assert(n[j] == b[j]);
                    }
                }
            }
        }
    } else {
        let i = b.len() as int;
        assert(n[i].0 == p);
        lemma_add_to_facts(n, p, amount, reason, i);
        if q != p {
            if has_path(b, q) {
                let j = choose|j: int| 0 <= j < b.len() && #[trigger] b[j].0 == q;
                assert(n[j] == b[j]);
                lemma_add_to_facts(b, q, amount, reason, j);
                lemma_add_to_facts(n, q, amount, reason, j);
            } else {
                assert forall|j: int| 0 <= j < n.len() implies #[trigger] n[j].0 != q by {
                    if j != i {
                        assert(n[j] == b[j]);
                    }
                }
            }
        }
    }
}


/// A file of the smart context: what the index holds about it, its score in
/// hundredths (the score rounded to two decimals, times 100), and why it was
/// chosen.
pub struct RankedFile {
    pub details: FileDetails,
    pub confidence_hundredths: i64,
    pub reasons: Vec<String>,
}

/// The files chosen for a task, best first.
pub struct SmartContext {
    pub files: Vec<RankedFile>,
}

/// The ranked files whose details were found, each joined with its
/// details, in rank order.
pub open spec fn with_details(ranked: Seq<ScoredFile>, details: Seq<Option<FileDetails>>) -> Seq<
    RankedFile,
>
    recommends
        ranked.len() == details.len(),
    decreases details.len(),
{
    if details.len() == 0 || ranked.len() == 0 {
        seq![]
    } else {
        let rest = with_details(ranked.drop_last(), details.drop_last());
        match details.last() {
            Some(d) => rest.push(
                RankedFile {
                    details: d,
                    confidence_hundredths: ranked.last().score,
                    reasons: ranked.last().reasons,
                },
            ),
            None => rest,
        }
    }
}

impl SmartContext {
    /// Joins each ranked file with its details (`details[i]` belongs to
    /// `ranked[i]`); files whose details are missing are left out.
    pub fn assemble(ranked: Vec<ScoredFile>, details: Vec<Option<FileDetails>>) -> (ctx: SmartContext)
        requires
            ranked@.len() == details@.len(),
        ensures
            ctx.files@ == with_details(ranked@, details@),
    {
        let ghost r0 = ranked@;
        let ghost d0 = details@;
        let mut ranked = ranked;
        let mut details = details;
        let mut files: Vec<RankedFile> = Vec::new();
        let mut k: usize = 0;
        assert(r0.len() == ranked.len());
        assert(r0.take(0) =~= Seq::<ScoredFile>::empty());
        assert(ranked@ =~= r0.skip(0));
        assert(details@ =~= d0.skip(0));
        while ranked.len() > 0
            invariant
                r0.len() == d0.len(),
                r0.len() <= usize::MAX,
                k <= r0.len(),
                ranked@ == r0.skip(k as int),
                details@ == d0.skip(k as int),
                files@ == with_details(r0.take(k as int), d0.take(k as int)),
            decreases ranked@.len(),
        {
            let r = ranked.remove(0);
            let d = details.remove(0);
            assert(r == r0[k as int]);
            assert(d == d0[k as int]);
            assert(r0.take(k + 1).drop_last() =~= r0.take(k as int));
            assert(d0.take(k + 1).drop_last() =~= d0.take(k as int));
            assert(ranked@ =~= r0.skip(k + 1));
            assert(details@ =~= d0.skip(k + 1));
            match d {
                Some(d) => {
                    files.push(
                        RankedFile { details: d, confidence_hundredths: r.score, reasons: r.reasons },
                    );
                },
                None => {},
            }
            k = k + 1;
        }
        assert(r0.take(k as int) =~= r0);
        assert(d0.take(k as int) =~= d0);
        SmartContext { files }
    }
}

/// The paths of the board, in order.
pub open spec fn board_paths(b: Seq<EntryView>) -> Seq<Seq<char>> {
    b.map_values(|e: EntryView| e.0)
}

proof fn lemma_add_to_paths(b: Seq<EntryView>, p: Seq<char>, amount: i64, reason: Seq<char>)
    ensures
        has_path(b, p) ==> board_paths(add_to(b, p, amount, reason)) == board_paths(b),
        !has_path(b, p) ==> board_paths(add_to(b, p, amount, reason)) == board_paths(b).push(p),
{
    if has_path(b, p) {
        let i = choose|i: int| 0 <= i < b.len() && #[trigger] b[i].0 == p;
        assert(board_paths(add_to(b, p, amount, reason)) =~= board_paths(b));
    } else {
        assert(board_paths(add_to(b, p, amount, reason)) =~= board_paths(b).push(p));
    }
}

/// The churn boost never puts a file on the board: the board keeps its
/// paths, in order.
pub proof fn lemma_churn_adds_no_file(b: Seq<EntryView>, rows: Seq<(Seq<char>, i64)>)
    ensures
        board_paths(churn_stage(b, rows)) == board_paths(b),
    decreases rows.len(),
{
    if rows.len() > 0 {
        lemma_churn_adds_no_file(b, rows.drop_last());
        let prev = churn_stage(b, rows.drop_last());
        let (p, freq) = rows.last();
        lemma_add_to_paths(prev, p, churn_boost(freq), churn_reason(freq));
    }
}

/// A boost that may enter new files keeps every file already on the board
/// and puts each boosted file on it.
pub proof fn lemma_add_each_paths(b: Seq<EntryView>, paths: Seq<Seq<char>>, amount: i64, reason: Seq<char>)
    ensures
        forall|p: Seq<char>| has_path(b, p) ==> #[trigger] has_path(add_each(b, paths, amount, reason), p),
        forall|k: int| 0 <= k < paths.len() ==> has_path(add_each(b, paths, amount, reason), #[trigger] paths[k]),
    decreases paths.len(),
{
    if paths.len() > 0 {
        let prev = add_each(b, paths.drop_last(), amount, reason);
        lemma_add_each_paths(b, paths.drop_last(), amount, reason);
        lemma_add_to_paths(prev, paths.last(), amount, reason);
        let n = add_each(b, paths, amount, reason);
        assert forall|p: Seq<char>| has_path(prev, p) implies #[trigger] has_path(n, p) by {
            let i = choose|i: int| 0 <= i < prev.len() && #[trigger] prev[i].0 == p;
            assert(board_paths(n)[i] == board_paths(prev)[i]);
            assert(n[i].0 == p);
        }
        assert(has_path(n, paths.last())) by {
            if has_path(prev, paths.last()) {
            } else {
                assert(board_paths(n)[prev.len() as int] == paths.last());
                assert(n[prev.len() as int].0 == paths.last());
            }
        }
        assert forall|k: int| 0 <= k < paths.len() implies has_path(n, #[trigger] paths[k]) by {
            if k < paths.len() - 1 {
                assert(paths.drop_last()[k] == paths[k]);
                assert(has_path(prev, paths[k]));
            }
        }
    }
}


/// The import edges of a file that the search matched: the files it imports
/// and the files that import it.
pub struct FileDeps {
    pub file: String,
    pub imports: Vec<String>,
    pub importers: Vec<String>,
}

/// The value of a file's import edges.
pub open spec fn file_deps_view(d: FileDeps) -> (Seq<char>, Seq<Seq<char>>, Seq<Seq<char>>) {
    (d.file@, views(d.imports@), views(d.importers@))
}

/// Stage 2 for a list of files: `dependency_stage` for each entry in turn
/// whose file is on the board `matched`, the board after the search stage;
/// edges of other files are not followed, so only files matched by the
/// search are expanded.
pub open spec fn deps_stage(
    b: Seq<EntryView>,
    matched: Seq<EntryView>,
    deps: Seq<(Seq<char>, Seq<Seq<char>>, Seq<Seq<char>>)>,
) -> Seq<EntryView>
    decreases deps.len(),
{
    if deps.len() == 0 {
        b
    } else {
        let rest = deps_stage(b, matched, deps.drop_last());
        let d = deps.last();
        if has_path(matched, d.0) {
            dependency_stage(rest, d.0, d.1, d.2)
        } else {
            rest
        }
    }
}

/// The board after the four scoring stages, from an empty board: search
/// hits, import edges of the matched files, matching commits and recent
/// churn, and the working set when it could be read.
pub open spec fn context_board(
    hits: Seq<SearchResult>,
    deps: Seq<(Seq<char>, Seq<Seq<char>>, Seq<Seq<char>>)>,
    commits: Seq<Seq<char>>,
    churn: Seq<(Seq<char>, i64)>,
    working_set: Option<Seq<Seq<char>>>,
) -> Seq<EntryView> {
    let b1 = search_stage(seq![], hits);
    let b4 = churn_stage(commit_stage(deps_stage(b1, b1, deps), commits), churn);
    match working_set {
        Some(f) => working_set_stage(b4, f),
        None => b4,
    }
}

/// The board has an entry for `p` exactly when `p` is among its paths.
proof fn lemma_has_path_paths(b: Seq<EntryView>, p: Seq<char>)
    ensures
        has_path(b, p) <==> board_paths(b).contains(p),
{
    if has_path(b, p) {
        let i = choose|i: int| 0 <= i < b.len() && #[trigger] b[i].0 == p;
        assert(board_paths(b)[i] == p);
    }
    if board_paths(b).contains(p) {
        let i = choose|i: int| 0 <= i < board_paths(b).len() && board_paths(b)[i] == p;
        assert(b[i].0 == p);
    }
}

/// Whether `p` is one of `ps`.
fn contains_path(ps: &Vec<String>, p: &String) -> (r: bool)
    ensures
        r == views(ps@).contains(p@),
{
    let mut i: usize = 0;
    while i < ps.len()
        invariant
            i <= ps@.len(),
            forall|j: int| 0 <= j < i ==> ps@[j]@ != p@,
        decreases ps@.len() - i,
    {
        if ps[i] == *p {
            assert(views(ps@)[i as int] == p@);
            return true;
        }
        i = i + 1;
    }
    proof {
        if views(ps@).contains(p@) {
            let j = choose|j: int| 0 <= j < views(ps@).len() && views(ps@)[j] == p@;
            assert(ps@[j]@ == p@);
        }
    }
    false
}

/// The files that the search hits `hits` match, in the order they first
/// occur: the files whose import edges stage 2 follows.
pub fn matched_files(hits: &Vec<SearchResult>) -> (ps: Vec<String>)
    ensures
        views(ps@) == board_paths(search_stage(seq![], hits@)),
{
    let mut board = ScoreBoard::new();
    board.add_search_results(hits);
    board.paths()
}

/// The files most relevant to a task, best first, at most ten: the search
/// hits `hits`, the import edges `deps` of matched files, the files
/// `commits` changed in commits whose message matches, the recent change
/// counts `churn`, and the working set, when it could be read, are scored
/// in that order, then the board is ranked.
pub fn rank_context(
    hits: &Vec<SearchResult>,
    deps: &Vec<FileDeps>,
    commits: &Vec<String>,
    churn: &Vec<(String, i64)>,
    working_set: Option<&Vec<String>>,
) -> (ranked: Vec<ScoredFile>)
    ensures
        entry_views(ranked@) == ranked_spec(
            context_board(
                hits@,
                deps@.map_values(|d: FileDeps| file_deps_view(d)),
                views(commits@),
                churn@.map_values(|r: (String, i64)| (r.0@, r.1)),
                match working_set {
                    Some(f) => Some(views(f@)),
                    None => None,
                },
            ),
        ),
{
    let mut board = ScoreBoard::new();
    board.add_search_results(hits);
    let ghost b1 = board@;
    let matched = board.paths();
    let ghost dv = deps@.map_values(|d: FileDeps| file_deps_view(d));
    let mut i: usize = 0;
    assert(dv.take(0) =~= Seq::<(Seq<char>, Seq<Seq<char>>, Seq<Seq<char>>)>::empty());
    while i < deps.len()
        invariant
            i <= deps@.len(),
            dv == deps@.map_values(|d: FileDeps| file_deps_view(d)),
            views(matched@) == board_paths(b1),
            board.wf(),
            board@ == deps_stage(b1, b1, dv.take(i as int)),
        decreases deps@.len() - i,
    {
        let d = &deps[i];
        assert(dv.take(i + 1).drop_last() =~= dv.take(i as int));
        assert(dv.take(i + 1).last() == file_deps_view(*d));
        proof {
            lemma_has_path_paths(b1, d.file@);
        }
        if contains_path(&matched, &d.file) {
            board.add_dependencies(d.file.as_str(), &d.imports, &d.importers);
        }
        i = i + 1;
    }
    assert(dv.take(deps@.len() as int) =~= dv);
    board.add_commit_matches(commits);
    board.add_recent_churn(churn);
    match working_set {
        Some(f) => board.add_working_set(f),
        None => {},
    }
    board.into_ranked()
}


/// How many entries of `ps` are `q`.
pub open spec fn count_of(ps: Seq<Seq<char>>, q: Seq<char>) -> nat
    decreases ps.len(),
{
    if ps.len() == 0 {
        0
    } else {
        count_of(ps.drop_last(), q) + if ps.last() == q {
            1nat
        } else {
            0nat
        }
    }
}

/// `n` copies of the reason `r`.
pub open spec fn repeated(r: Seq<char>, n: nat) -> Seq<Seq<char>> {
    Seq::new(n, |_i: int| r)
}

/// The entry of `q` after it gained `amount` `n` times with `reason`, from
/// its entry `e` before (none if it was not on the board).
pub open spec fn boosted(e: Option<(i64, Seq<Seq<char>>)>, n: nat, amount: i64, reason: Seq<char>) -> Option<
    (i64, Seq<Seq<char>>),
> {
    if n == 0 {
        e
    } else {
        match e {
            Some((score, rs)) => Some(((score + amount * n) as i64, rs + repeated(reason, n))),
            None => Some(((amount * n) as i64, repeated(reason, n))),
        }
    }
}

/// A score far from the bounds of `i64`.
pub open spec fn moderate(e: Option<(i64, Seq<Seq<char>>)>) -> bool {
    match e {
        Some((score, _)) => -2_000_000_000_000_000 <= score <= 2_000_000_000_000_000,
        None => true,
    }
}

/// A boost given to each of `paths` accumulates: a path that occurs `n`
/// times gains `n` times the amount and `n` copies of the reason; the board
/// keeps each path once.
pub proof fn lemma_add_each_lookup(
    b: Seq<EntryView>,
    paths: Seq<Seq<char>>,
    amount: i64,
    reason: Seq<char>,
    q: Seq<char>,
)
    requires
        distinct_paths(b),
        0 <= amount <= 1000,
        paths.len() <= 1_000_000,
        moderate(lookup(b, q)),
    ensures
        distinct_paths(add_each(b, paths, amount, reason)),
        count_of(paths, q) <= paths.len(),
        lookup(add_each(b, paths, amount, reason), q) == boosted(
            lookup(b, q),
            count_of(paths, q),
            amount,
            reason,
        ),
    decreases paths.len(),
{
    if paths.len() > 0 {
        let prev = add_each(b, paths.drop_last(), amount, reason);
        lemma_add_each_lookup(b, paths.drop_last(), amount, reason, q);
        lemma_add_to_distinct(prev, paths.last(), amount, reason);
        lemma_add_to_lookup(prev, paths.last(), amount, reason, q);
        let c = count_of(paths.drop_last(), q);
        if paths.last() == q {
            assert(amount * (c + 1) == amount * c + amount) by (nonlinear_arith);
            assert(0 <= amount * c <= 1000 * 1_000_000) by (nonlinear_arith)
                requires
                    0 <= amount <= 1000,
                    c <= 1_000_000,
            ;
            assert(repeated(reason, c).push(reason) =~= repeated(reason, c + 1));
            assert(seq![reason] =~= repeated(reason, 1));
            match lookup(b, q) {
                Some((score, rs)) => {
                    assert((rs + repeated(reason, c)).push(reason) =~= rs + repeated(reason, c + 1));
                    assert(rs.push(reason) =~= rs + repeated(reason, 1));
                    if c == 0 {
                        assert(lookup(prev, q) == Some((score, rs)));
                    } else {
                        assert(lookup(prev, q) == Some(
                            ((score + amount * c) as i64, rs + repeated(reason, c)),
                        ));
                    }
                },
                None => {
                    if c == 0 {
                        assert(lookup(prev, q) is None);
                    } else {
                        assert(lookup(prev, q) == Some(((amount * c) as i64, repeated(reason, c))));
                    }
                },
            }
        }
    }
}

/// The score of `p` from the search hits `hits`: the sum of `rank_decay`
/// over the positions of the hits in `p`.
pub open spec fn hit_score(hits: Seq<SearchResult>, p: Seq<char>) -> int
    decreases hits.len(),
{
    if hits.len() == 0 {
        0
    } else {
        let k = hits.len() - 1;
        hit_score(hits.drop_last(), p) + if hits[k].file_path@ == p {
            rank_decay(k) as int
        } else {
            0
        }
    }
}

/// The reasons `p` gets from the search hits `hits`: one per hit in `p`, in
/// order.
pub open spec fn hit_reasons(hits: Seq<SearchResult>, p: Seq<char>) -> Seq<Seq<char>>
    decreases hits.len(),
{
    if hits.len() == 0 {
        seq![]
    } else {
        let k = hits.len() - 1;
        let rest = hit_reasons(hits.drop_last(), p);
        if hits[k].file_path@ == p {
            rest.push(fts_reason(hits[k].symbol_name@, hits[k].kind@))
        } else {
            rest
        }
    }
}

/// The search stage, from an empty board, gives each file of the hits the
/// sum of the decayed boosts of its hits and one reason per hit, in order;
/// files without a hit are not on the board.
pub proof fn lemma_search_lookup(hits: Seq<SearchResult>, p: Seq<char>)
    requires
        hits.len() <= 1000,
    ensures
        distinct_paths(search_stage(seq![], hits)),
        -8000 * hits.len() <= hit_score(hits, p) <= 100 * hits.len(),
        hit_reasons(hits, p).len() == 0 ==> hit_score(hits, p) == 0,
        lookup(search_stage(seq![], hits), p) == if hit_reasons(hits, p).len() == 0 {
            None
        } else {
            Some((hit_score(hits, p) as i64, hit_reasons(hits, p)))
        },
    decreases hits.len(),
{
    if hits.len() == 0 {
        assert(!has_path(Seq::<EntryView>::empty(), p));
    } else {
        let k = hits.len() - 1;
        lemma_search_lookup(hits.drop_last(), p);
        let prev = search_stage(seq![], hits.drop_last());
        assert(rank_decay(k) == 100 - 8 * k);
        lemma_add_to_distinct(
            prev,
            hits[k].file_path@,
            rank_decay(k),
            fts_reason(hits[k].symbol_name@, hits[k].kind@),
        );
        lemma_add_to_lookup(
            prev,
            hits[k].file_path@,
            rank_decay(k),
            fts_reason(hits[k].symbol_name@, hits[k].kind@),
            p,
        );
        let reason = fts_reason(hits[k].symbol_name@, hits[k].kind@);
        let rest = hit_reasons(hits.drop_last(), p);
        if hits[k].file_path@ == p {
            assert(rest.len() == 0 ==> seq![reason] =~= rest.push(reason));
        }
    }
}

/// Edges of files that the search did not match are not followed.
pub proof fn lemma_unmatched_not_expanded(
    b: Seq<EntryView>,
    matched: Seq<EntryView>,
    deps: Seq<(Seq<char>, Seq<Seq<char>>, Seq<Seq<char>>)>,
)
    requires
        forall|i: int| 0 <= i < deps.len() ==> !has_path(matched, #[trigger] deps[i].0),
    ensures
        deps_stage(b, matched, deps) == b,
    decreases deps.len(),
{
    if deps.len() > 0 {
        lemma_unmatched_not_expanded(b, matched, deps.drop_last());
        assert(!has_path(matched, deps[deps.len() - 1].0));
    }
}

/// Files without import edges, and no commits, churn or working set, leave
/// the search ranking as it is: each file of the hits scores the sum of the
/// decayed boosts of its hits, with one search reason per hit, and no other
/// file is on the board.
pub proof fn lemma_search_only_context(
    hits: Seq<SearchResult>,
    deps: Seq<(Seq<char>, Seq<Seq<char>>, Seq<Seq<char>>)>,
    p: Seq<char>,
)
    requires
        hits.len() <= 1000,
        forall|i: int| 0 <= i < deps.len() ==> (#[trigger] deps[i]).1.len() == 0 && deps[i].2.len() == 0,
    ensures
        context_board(hits, deps, seq![], seq![], None) == search_stage(seq![], hits),
        lookup(context_board(hits, deps, seq![], seq![], None), p) == if hit_reasons(hits, p).len()
            == 0 {
            None
        } else {
            Some((hit_score(hits, p) as i64, hit_reasons(hits, p)))
        },
{
    let b1 = search_stage(seq![], hits);
    lemma_no_edges(b1, b1, deps);
    lemma_search_lookup(hits, p);
}

proof fn lemma_no_edges(
    b: Seq<EntryView>,
    matched: Seq<EntryView>,
    deps: Seq<(Seq<char>, Seq<Seq<char>>, Seq<Seq<char>>)>,
)
    requires
        forall|i: int| 0 <= i < deps.len() ==> (#[trigger] deps[i]).1.len() == 0 && deps[i].2.len() == 0,
    ensures
        deps_stage(b, matched, deps) == b,
    decreases deps.len(),
{
    if deps.len() > 0 {
        lemma_no_edges(b, matched, deps.drop_last());
        assert(deps[deps.len() - 1].1.len() == 0);
    }
}

/// Stage 2 for one matched file `f`: a file that `f` imports `k` times
/// gains 0.30 and the reason "imported by f" `k` times; a file that imports
/// `f` `m` times gains 0.20 and "imports f" `m` times, after those; a file
/// not yet on the board enters it.
pub proof fn lemma_dependency_boost(
    b: Seq<EntryView>,
    f: Seq<char>,
    imports: Seq<Seq<char>>,
    importers: Seq<Seq<char>>,
    g: Seq<char>,
)
    requires
        distinct_paths(b),
        imports.len() <= 1_000_000,
        importers.len() <= 1_000_000,
        lookup(b, g) matches Some((score, _)) ==> -1_000_000_000_000_000 <= score
            <= 1_000_000_000_000_000,
    ensures
        lookup(dependency_stage(b, f, imports, importers), g) == boosted(
            boosted(lookup(b, g), count_of(imports, g), 30, "imported by "@ + f),
            count_of(importers, g),
            20,
            "imports "@ + f,
        ),
{
    let r1 = "imported by "@ + f;
    lemma_add_each_lookup(b, imports, 30, r1, g);
    let b2 = add_each(b, imports, 30, r1);
    let c = count_of(imports, g);
    assert(0 <= 30 * c <= 30_000_000) by (nonlinear_arith)
        requires
            c <= 1_000_000,
    ;
    match lookup(b, g) {
        Some((score, rs)) => {
            assert(moderate(lookup(b2, g)));
        },
        None => {
            assert(moderate(lookup(b2, g)));
        },
    }
    lemma_add_each_lookup(b2, importers, 20, "imports "@ + f, g);
}

/// A board of at most ten files is ranked whole: the pruning stage only
/// reorders it.
pub proof fn lemma_few_files_all_kept(b: Seq<EntryView>)
    requires
        b.len() <= max_ranked(),
    ensures
        ranked_spec(b).to_multiset() == b.to_multiset(),
{
    lemma_sort_desc_permutes(b);
}

/// The search stage puts at most one file per hit on an empty board.
pub proof fn lemma_search_board_size(hits: Seq<SearchResult>)
    ensures
        search_stage(seq![], hits).len() <= hits.len(),
    decreases hits.len(),
{
    if hits.len() > 0 {
        let k = hits.len() - 1;
        lemma_search_board_size(hits.drop_last());
    }
}

/// A path occurs in `ps` exactly when it is counted there.
proof fn lemma_count_zero(ps: Seq<Seq<char>>, q: Seq<char>)
    ensures
        count_of(ps, q) == 0 <==> !ps.contains(q),
    decreases ps.len(),
{
    if ps.len() > 0 {
        lemma_count_zero(ps.drop_last(), q);
        if ps.drop_last().contains(q) {
            let k = choose|k: int| 0 <= k < ps.drop_last().len() && ps.drop_last()[k] == q;
            assert(ps[k] == q);
        }
        if ps.contains(q) {
            let k = choose|k: int| 0 <= k < ps.len() && ps[k] == q;
            if k < ps.len() - 1 {
                assert(ps.drop_last()[k] == q);
            }
        }
    }
}

/// Boosting `paths` keeps the board free of duplicates and leaves every
/// other path's entry as it was.
proof fn lemma_add_each_keeps(
    b: Seq<EntryView>,
    paths: Seq<Seq<char>>,
    amount: i64,
    reason: Seq<char>,
    q: Seq<char>,
)
    requires
        distinct_paths(b),
    ensures
        distinct_paths(add_each(b, paths, amount, reason)),
        !paths.contains(q) ==> lookup(add_each(b, paths, amount, reason), q) == lookup(b, q),
    decreases paths.len(),
{
    if paths.len() > 0 {
        let prev = add_each(b, paths.drop_last(), amount, reason);
        lemma_add_each_keeps(b, paths.drop_last(), amount, reason, q);
        lemma_add_to_distinct(prev, paths.last(), amount, reason);
        lemma_add_to_lookup(prev, paths.last(), amount, reason, q);
        if !paths.contains(q) {
            assert(paths.last() != q) by {
                assert(paths[paths.len() - 1] == paths.last());
            }
            assert(!paths.drop_last().contains(q)) by {
                if paths.drop_last().contains(q) {
                    let k = choose|k: int| 0 <= k < paths.drop_last().len() && paths.drop_last()[k] == q;
                    assert(paths[k] == q);
                }
            }
        }
    }
}

/// A path boosted once from `paths` and not on the board before enters it
/// with the amount and the single reason.
proof fn lemma_add_each_once(
    b: Seq<EntryView>,
    paths: Seq<Seq<char>>,
    amount: i64,
    reason: Seq<char>,
    q: Seq<char>,
)
    requires
        distinct_paths(b),
        lookup(b, q) is None,
        count_of(paths, q) == 1,
    ensures
        lookup(add_each(b, paths, amount, reason), q) == Some((amount, seq![reason])),
    decreases paths.len(),
{
    let prev = add_each(b, paths.drop_last(), amount, reason);
    lemma_add_each_keeps(b, paths.drop_last(), amount, reason, q);
    lemma_add_to_lookup(prev, paths.last(), amount, reason, q);
    if paths.last() == q {
        lemma_count_zero(paths.drop_last(), q);
    } else {
        lemma_add_each_once(b, paths.drop_last(), amount, reason, q);
    }
}

/// A path among `paths` ends with the reason of that boost.
proof fn lemma_add_each_last_reason(
    b: Seq<EntryView>,
    paths: Seq<Seq<char>>,
    amount: i64,
    reason: Seq<char>,
    q: Seq<char>,
)
    requires
        distinct_paths(b),
        paths.contains(q),
    ensures
        lookup(add_each(b, paths, amount, reason), q) matches Some((_, rs)) && rs.len() > 0
            && rs.last() == reason,
    decreases paths.len(),
{
    let prev = add_each(b, paths.drop_last(), amount, reason);
    lemma_add_each_keeps(b, paths.drop_last(), amount, reason, q);
    lemma_add_to_lookup(prev, paths.last(), amount, reason, q);
    if paths.last() != q {
        let k = choose|k: int| 0 <= k < paths.len() && paths[k] == q;
        assert(k < paths.len() - 1);
        assert(paths.drop_last()[k] == q);
        lemma_add_each_last_reason(b, paths.drop_last(), amount, reason, q);
    }
}

/// The search stage keeps the board free of duplicates, and a path that no
/// hit is in stays off the board.
proof fn lemma_search_absent(hits: Seq<SearchResult>, q: Seq<char>)
    ensures
        distinct_paths(search_stage(seq![], hits)),
        (forall|i: int| 0 <= i < hits.len() ==> (#[trigger] hits[i]).file_path@ != q) ==> lookup(
            search_stage(seq![], hits),
            q,
        ) is None,
    decreases hits.len(),
{
    if hits.len() == 0 {
        assert(!has_path(Seq::<EntryView>::empty(), q));
    } else {
        let k = hits.len() - 1;
        lemma_search_absent(hits.drop_last(), q);
        let prev = search_stage(seq![], hits.drop_last());
        let reason = fts_reason(hits[k].symbol_name@, hits[k].kind@);
        lemma_add_to_distinct(prev, hits[k].file_path@, rank_decay(k), reason);
        lemma_add_to_lookup(prev, hits[k].file_path@, rank_decay(k), reason, q);
        if forall|i: int| 0 <= i < hits.len() ==> (#[trigger] hits[i]).file_path@ != q {
            assert forall|i: int| 0 <= i < hits.drop_last().len() implies (
            #[trigger] hits.drop_last()[i]).file_path@ != q by {
                assert(hits.drop_last()[i] == hits[i]);
            }
            assert(hits[k].file_path@ != q);
        }
    }
}

/// Stage 2 keeps the board free of duplicates and leaves alone a path that
/// no edge names.
proof fn lemma_deps_keeps(
    b: Seq<EntryView>,
    matched: Seq<EntryView>,
    deps: Seq<(Seq<char>, Seq<Seq<char>>, Seq<Seq<char>>)>,
    q: Seq<char>,
)
    requires
        distinct_paths(b),
    ensures
        distinct_paths(deps_stage(b, matched, deps)),
        (forall|i: int|
            0 <= i < deps.len() ==> !(#[trigger] deps[i]).1.contains(q) && !deps[i].2.contains(q))
            ==> lookup(deps_stage(b, matched, deps), q) == lookup(b, q),
    decreases deps.len(),
{
    if deps.len() > 0 {
        let rest = deps_stage(b, matched, deps.drop_last());
        let d = deps.last();
        lemma_deps_keeps(b, matched, deps.drop_last(), q);
        lemma_add_each_keeps(rest, d.1, 30, "imported by "@ + d.0, q);
        let mid = add_each(rest, d.1, 30, "imported by "@ + d.0);
        lemma_add_each_keeps(mid, d.2, 20, "imports "@ + d.0, q);
        if forall|i: int|
            0 <= i < deps.len() ==> !(#[trigger] deps[i]).1.contains(q) && !deps[i].2.contains(q) {
            assert forall|i: int| 0 <= i < deps.drop_last().len() implies !(
            #[trigger] deps.drop_last()[i]).1.contains(q) && !deps.drop_last()[i].2.contains(q) by {
                assert(deps.drop_last()[i] == deps[i]);
            }
            assert(deps[deps.len() - 1] == d);
        }
    }
}

/// The churn boost keeps the board free of duplicates and never puts a
/// path on it.
proof fn lemma_churn_absent(b: Seq<EntryView>, rows: Seq<(Seq<char>, i64)>, q: Seq<char>)
    requires
        distinct_paths(b),
    ensures
        distinct_paths(churn_stage(b, rows)),
        lookup(b, q) is None ==> lookup(churn_stage(b, rows), q) is None,
    decreases rows.len(),
{
    if rows.len() > 0 {
        let prev = churn_stage(b, rows.drop_last());
        let (p, freq) = rows.last();
        lemma_churn_absent(b, rows.drop_last(), q);
        if has_path(prev, p) {
            lemma_add_to_distinct(prev, p, churn_boost(freq), churn_reason(freq));
            lemma_add_to_lookup(prev, p, churn_boost(freq), churn_reason(freq), q);
        }
    }
}

/// The board before the working-set stage is free of duplicates.
proof fn lemma_context_distinct(
    hits: Seq<SearchResult>,
    deps: Seq<(Seq<char>, Seq<Seq<char>>, Seq<Seq<char>>)>,
    commits: Seq<Seq<char>>,
    churn: Seq<(Seq<char>, i64)>,
    q: Seq<char>,
)
    ensures
        distinct_paths(
            churn_stage(
                commit_stage(
                    deps_stage(search_stage(seq![], hits), search_stage(seq![], hits), deps),
                    commits,
                ),
                churn,
            ),
        ),
{
    let b1 = search_stage(seq![], hits);
    lemma_search_absent(hits, q);
    lemma_deps_keeps(b1, b1, deps, q);
    let b2 = deps_stage(b1, b1, deps);
    lemma_add_each_keeps(b2, commits, 40, "recently changed in matching commit"@, q);
    lemma_churn_absent(commit_stage(b2, commits), churn, q);
}

/// The working-set stage comes last: a file that only the working set names
/// (no search hit, no import edge, no matching commit), once, scores
/// exactly 0.50 with the single reason "in current working set", however
/// often it changed recently; churn boosts only files already scored.
pub proof fn lemma_working_set_only_file(
    hits: Seq<SearchResult>,
    deps: Seq<(Seq<char>, Seq<Seq<char>>, Seq<Seq<char>>)>,
    commits: Seq<Seq<char>>,
    churn: Seq<(Seq<char>, i64)>,
    working_set: Seq<Seq<char>>,
    p: Seq<char>,
)
    requires
        forall|i: int| 0 <= i < hits.len() ==> (#[trigger] hits[i]).file_path@ != p,
        forall|i: int| 0 <= i < deps.len() ==> !(#[trigger] deps[i]).1.contains(p) && !deps[i].2.contains(p),
        !commits.contains(p),
        count_of(working_set, p) == 1,
    ensures
        lookup(context_board(hits, deps, commits, churn, Some(working_set)), p) == Some(
            (50i64, seq!["in current working set"@]),
        ),
{
    let b1 = search_stage(seq![], hits);
    lemma_search_absent(hits, p);
    lemma_deps_keeps(b1, b1, deps, p);
    let b2 = deps_stage(b1, b1, deps);
    lemma_add_each_keeps(b2, commits, 40, "recently changed in matching commit"@, p);
    let b3 = commit_stage(b2, commits);
    lemma_churn_absent(b3, churn, p);
    let b4 = churn_stage(b3, churn);
    lemma_add_each_once(b4, working_set, 50, "in current working set"@, p);
}

/// Every file of the working set ends with the reason "in current working
/// set": no later stage adds to its reasons.
pub proof fn lemma_working_set_reason_last(
    hits: Seq<SearchResult>,
    deps: Seq<(Seq<char>, Seq<Seq<char>>, Seq<Seq<char>>)>,
    commits: Seq<Seq<char>>,
    churn: Seq<(Seq<char>, i64)>,
    working_set: Seq<Seq<char>>,
    p: Seq<char>,
)
    requires
        working_set.contains(p),
    ensures
        lookup(context_board(hits, deps, commits, churn, Some(working_set)), p) matches Some(
            (_, rs),
        ) && rs.len() > 0 && rs.last() == "in current working set"@,
{
    lemma_context_distinct(hits, deps, commits, churn, p);
    let b1 = search_stage(seq![], hits);
    let b4 = churn_stage(commit_stage(deps_stage(b1, b1, deps), commits), churn);
    lemma_add_each_last_reason(b4, working_set, 50, "in current working set"@, p);
}

} // verus!
