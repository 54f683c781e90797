use vstd::prelude::*;
use vstd::string::*;
use crate::text::{contains_str, int_decimal, join, join_spec, push_decimal, push_str, seq_contains, views};

verus! {

broadcast use vstd::string::group_string_axioms;

/// A file of the reading list for newcomers, with why it is on the list.
pub struct OnboardingEntry {
    pub relative_path: String,
    pub language: String,
    pub symbol_count: i64,
    pub import_count: i64,
    pub reason: String,
}

/// A path that names an entry point: it holds `main`, `index` or `app`.
pub open spec fn is_entry_point(path: Seq<char>) -> bool {
    seq_contains(path, "main"@) || seq_contains(path, "index"@) || seq_contains(path, "app"@)
}

/// The reasons for the file at `position` of the list (0 for the file with
/// the most symbols): the first file is the core module; a file importing
/// more than three dependencies says so; an entry point says so.
pub open spec fn reason_parts(position: int, import_count: i64, path: Seq<char>) -> Seq<Seq<char>> {
    (if position == 0 {
        seq!["most symbols — likely the core module"@]
    } else {
        seq![]
    }) + (if import_count > 3 {
        seq!["imports "@ + int_decimal(import_count as int) + " dependencies"@]
    } else {
        seq![]
    }) + (if is_entry_point(path) {
        seq!["entry point"@]
    } else {
        seq![]
    })
}

/// The reason text: the reasons joined by `, `, or `key module` if none.
pub open spec fn reason_spec(position: int, import_count: i64, path: Seq<char>) -> Seq<char> {
    let parts = reason_parts(position, import_count, path);
    if parts.len() == 0 {
        "key module"@
    } else {
        join_spec(parts, ", "@)
    }
}

/// The reason why the file at `position`, with `import_count` imports, is
/// on the reading list.
pub fn reason_for(position: usize, import_count: i64, path: &str) -> (r: String)
    ensures
        r@ == reason_spec(position as int, import_count, path@),
{
    let mut parts: Vec<String> = Vec::new();
    if position == 0 {
        parts.push("most symbols — likely the core module".to_owned());
    }
    if import_count > 3 {
        let mut p = "imports ".to_owned();
        push_decimal(&mut p, import_count);
        push_str(&mut p, " dependencies");
        parts.push(p);
    }
    if contains_str(path, "main") || contains_str(path, "index") || contains_str(path, "app") {
        parts.push("entry point".to_owned());
    }
    assert(views(parts@) =~= reason_parts(position as int, import_count, path@));
    if parts.len() == 0 {
        "key module".to_owned()
    } else {
        join(&parts, ", ")
    }
}

/// The entries of a list, their reasons set by position (see `reason_spec`);
/// the other fields stay as they were.
pub open spec fn with_reasons_spec(before: Seq<OnboardingEntry>, after: Seq<OnboardingEntry>) -> bool {
    &&& after.len() == before.len()
    &&& forall|i: int|
        0 <= i < before.len() ==> {
            &&& (#[trigger] after[i]).relative_path == before[i].relative_path
            &&& after[i].language == before[i].language
            &&& after[i].symbol_count == before[i].symbol_count
            &&& after[i].import_count == before[i].import_count
            &&& after[i].reason@ == reason_spec(i, before[i].import_count, before[i].relative_path@)
        }
}

/// Sets the reason of each entry of the reading list, which is ordered by
/// symbol count, most first.
pub fn add_reasons(entries: Vec<OnboardingEntry>) -> (out: Vec<OnboardingEntry>)
    ensures
        with_reasons_spec(entries@, out@),
{
    let ghost e0 = entries@;
    let mut rest = entries;
    let mut out: Vec<OnboardingEntry> = Vec::new();
    let mut k: usize = 0;
    assert(e0.len() == rest.len());
    assert(rest@ =~= e0.skip(0));
    while rest.len() > 0
        invariant
            k <= e0.len(),
            e0.len() <= usize::MAX,
            rest@ == e0.skip(k as int),
            out@.len() == k,
            forall|i: int|
                0 <= i < k ==> {
                    &&& (#[trigger] out@[i]).relative_path == e0[i].relative_path
                    &&& out@[i].language == e0[i].language
                    &&& out@[i].symbol_count == e0[i].symbol_count
                    &&& out@[i].import_count == e0[i].import_count
                    &&& out@[i].reason@ == reason_spec(i, e0[i].import_count, e0[i].relative_path@)
                },
        decreases rest@.len(),
    {
        let e = rest.remove(0);
        assert(e == e0[k as int]);
        assert(rest@ =~= e0.skip(k + 1));
        let reason = reason_for(k, e.import_count, e.relative_path.as_str());
        out.push(
            OnboardingEntry {
                relative_path: e.relative_path,
                language: e.language,
                symbol_count: e.symbol_count,
                import_count: e.import_count,
                reason,
            },
        );
        k = k + 1;
    }
    out
}

/// Every file on the reading list gets a reason: the text is never empty.
pub proof fn lemma_reason_not_empty(position: int, import_count: i64, path: Seq<char>)
    ensures
        reason_spec(position, import_count, path).len() > 0,
{
    let parts = reason_parts(position, import_count, path);
    if parts.len() == 0 {
        reveal_strlit("key module");
    } else {
        reveal_strlit("most symbols — likely the core module");
        reveal_strlit("entry point");
        reveal_strlit("imports ");
        assert forall|i: int| 0 <= i < parts.len() implies (#[trigger] parts[i]).len() > 0 by {}
        lemma_join_not_empty(parts, ", "@);
    }
}

proof fn lemma_join_not_empty(parts: Seq<Seq<char>>, sep: Seq<char>)
    requires
        parts.len() > 0,
        forall|i: int| 0 <= i < parts.len() ==> (#[trigger] parts[i]).len() > 0,
    ensures
        join_spec(parts, sep).len() > 0,
    decreases parts.len(),
{
    if parts.len() > 1 {
        assert(parts.last() == parts[parts.len() - 1]);
    }
}

} // verus!
