use vstd::prelude::*;
use vstd::string::*;
use crate::text::{decode_lossy, lines_spec, non_empty, non_empty_lines, utf8_lossy, views};

verus! {

broadcast use vstd::string::group_string_axioms;

/// What the developer is working on: the branch, the session, the task
/// recorded for it, and the files changed in the working tree.
pub struct WorkingSet {
    pub branch: String,
    pub session_id: String,
    pub active_task: Option<String>,
    pub changed_files: Vec<String>,
}

/// Files that differ from `master` are added unless the branch is `master`
/// or `main` itself.
pub open spec fn diffs_against_master(branch: Seq<char>) -> bool {
    branch != "master"@ && branch != "main"@
}

/// Whether the branch is compared with `master` (see `diffs_against_master`).
pub fn needs_branch_diff(branch: &str) -> (b: bool)
    ensures
        b == diffs_against_master(branch@),
{
    let s = branch.to_owned();
    !(s == "master".to_owned()) && !(s == "main".to_owned())
}

/// `acc` extended by each path of `extra` that is non-empty and not yet
/// present, in order.
pub open spec fn append_new(acc: Seq<Seq<char>>, extra: Seq<Seq<char>>) -> Seq<Seq<char>>
    decreases extra.len(),
{
    if extra.len() == 0 {
        acc
    } else {
        let a = append_new(acc, extra.drop_last());
        let p = extra.last();
        if p.len() > 0 && !a.contains(p) {
            a.push(p)
        } else {
            a
        }
    }
}

/// The changed files: the non-empty lines of `git ls-files`, then the
/// non-empty lines of the branch diff that are not listed yet, when the
/// branch is compared with `master` and the diff could be run.
pub open spec fn changed_files_spec(
    ls_out: Seq<char>,
    branch: Seq<char>,
    diff_out: Option<Seq<char>>,
) -> Seq<Seq<char>> {
    let listed = non_empty(lines_spec(ls_out));
    match diff_out {
        Some(d) if diffs_against_master(branch) => append_new(listed, lines_spec(d)),
        _ => listed,
    }
}

/// The changed files from git's text output; `diff_out` is `None` when the
/// branch diff could not be run.
pub fn changed_files_from_text(ls_out: &str, branch: &str, diff_out: Option<&str>) -> (files: Vec<
    String,
>)
    ensures
        views(files@) == changed_files_spec(
            ls_out@,
            branch@,
            match diff_out {
                Some(d) => Some(d@),
                None => None,
            },
        ),
{
    let mut files = non_empty_lines(ls_out);
    if needs_branch_diff(branch) {
        match diff_out {
            Some(d) => {
                let extra = crate::text::lines(d);
                let ghost acc0 = views(files@);
                let mut i: usize = 0;
                assert(views(extra@).take(0) =~= Seq::<Seq<char>>::empty());
                while i < extra.len()
                    invariant
                        i <= extra@.len(),
                        views(extra@) == lines_spec(d@),
                        views(files@) == append_new(acc0, views(extra@).take(i as int)),
                    decreases extra@.len() - i,
                {
                    assert(views(extra@).take(i + 1).drop_last() =~= views(extra@).take(i as int));
                    assert(views(extra@).take(i + 1).last() == extra@[i as int]@);
                    let line = &extra[i];
                    if line.as_str().unicode_len() > 0 && !contains_string(&files, line) {
                        let ghost prev = files@;
                        files.push(line.clone());
                        assert(views(files@) =~= views(prev).push(line@));
                    }
                    i = i + 1;
                }
                assert(views(extra@).take(extra@.len() as int) =~= views(extra@));
            },
            None => {},
        }
    }
    files
}

/// Whether `v` holds a string equal to `s`.
fn contains_string(v: &Vec<String>, s: &String) -> (b: bool)
    ensures
        b == views(v@).contains(s@),
{
    let mut i: usize = 0;
    while i < v.len()
        invariant
            i <= v@.len(),
            forall|j: int| 0 <= j < i ==> v@[j]@ != s@,
        decreases v@.len() - i,
    {
        if v[i] == *s {
            assert(views(v@)[i as int] == s@);
            return true;
        }
        i = i + 1;
    }
    assert(!views(v@).contains(s@)) by {
        if views(v@).contains(s@) {
            let j = choose|j: int| 0 <= j < views(v@).len() && views(v@)[j] == s@;
            assert(v@[j]@ == s@);
        }
    }
    false
}

/// The changed files from the standard output of
/// `git ls-files --others --exclude-standard --modified` and, when it could
/// be run, of `git diff --name-only master...HEAD`.
pub fn changed_files(ls_stdout: &[u8], branch: &str, diff_stdout: Option<&[u8]>) -> (files: Vec<
    String,
>)
    ensures
        views(files@) == changed_files_spec(
            utf8_lossy(ls_stdout@),
            branch@,
            match diff_stdout {
                Some(d) => Some(utf8_lossy(d@)),
                None => None,
            },
        ),
{
    let ls = decode_lossy(ls_stdout);
    match diff_stdout {
        Some(d) => {
            let diff = decode_lossy(d);
            changed_files_from_text(ls.as_str(), branch, Some(diff.as_str()))
        },
        None => changed_files_from_text(ls.as_str(), branch, None),
    }
}

} // verus!

verus! {

/// Merging a branch diff into the listed files keeps the listed files, in
/// order, at the front; adds every non-empty path of the diff that is not
/// there yet; and adds nothing twice and nothing that is not in the diff.
pub proof fn lemma_append_new(acc: Seq<Seq<char>>, extra: Seq<Seq<char>>)
    ensures
        append_new(acc, extra).len() >= acc.len(),
        append_new(acc, extra).take(acc.len() as int) == acc,
        forall|p: Seq<char>| #[trigger] extra.contains(p) && p.len() > 0 ==> append_new(acc, extra).contains(p),
        forall|k: int|
            acc.len() <= k < append_new(acc, extra).len() ==> {
                &&& extra.contains(#[trigger] append_new(acc, extra)[k])
                &&& append_new(acc, extra)[k].len() > 0
                &&& !append_new(acc, extra).take(k).contains(append_new(acc, extra)[k])
            },
    decreases extra.len(),
{
    if extra.len() > 0 {
        let e = extra.drop_last();
        lemma_append_new(acc, e);
        let a = append_new(acc, e);
        let r = append_new(acc, extra);
        let p = extra.last();
        if p.len() > 0 && !a.contains(p) {
            assert(r == a.push(p));
            assert(r.take(acc.len() as int) =~= a.take(acc.len() as int));
            assert(r.take(a.len() as int) =~= a);
        } else {
            assert(r == a);
        }
        assert forall|q: Seq<char>| #[trigger] extra.contains(q) && q.len() > 0 implies r.contains(q) by {
            let j = choose|j: int| 0 <= j < extra.len() && extra[j] == q;
            if j < extra.len() - 1 {
                assert(e[j] == q);
                assert(e.contains(q));
                let m = choose|m: int| 0 <= m < a.len() && a[m] == q;
                assert(r[m] == q);
            } else if r != a {
                assert(r[a.len() as int] == q);
            }
        }
        assert forall|k: int| acc.len() <= k < r.len() implies {
            &&& extra.contains(#[trigger] r[k])
            &&& r[k].len() > 0
            &&& !r.take(k).contains(r[k])
        } by {
            if k < a.len() {
                assert(r[k] == a[k]);
                assert(r.take(k) =~= a.take(k));
                let j = choose|j: int| 0 <= j < e.len() && e[j] == a[k];
                assert(extra[j] == a[k]);
            } else {
                assert(r[k] == p);
                assert(extra[extra.len() - 1] == p);
                assert(r.take(k) =~= a);
            }
        }
    }
}

/// Every branch other than `master` and `main` is compared with `master`,
/// whatever its name (`feature/login` too): each non-empty path of its diff
/// is among the changed files, as is each non-empty path that git lists.
pub proof fn lemma_branch_diff_included(ls_out: Seq<char>, branch: Seq<char>, diff_out: Seq<char>, p: Seq<char>)
    requires
        branch != "master"@,
        branch != "main"@,
        p.len() > 0,
        lines_spec(diff_out).contains(p) || lines_spec(ls_out).contains(p),
    ensures
        changed_files_spec(ls_out, branch, Some(diff_out)).contains(p),
{
    let listed = non_empty(lines_spec(ls_out));
    lemma_append_new(listed, lines_spec(diff_out));
    if lines_spec(ls_out).contains(p) {
        lemma_non_empty_keeps(lines_spec(ls_out), p);
        let r = append_new(listed, lines_spec(diff_out));
        let k = choose|k: int| 0 <= k < listed.len() && listed[k] == p;
        assert(r.take(listed.len() as int)[k] == p);
        assert(r[k] == p);
    }
}

/// On `master` and on `main` the branch diff is not used: the changed files
/// are those git lists, whether or not a diff was run.
pub proof fn lemma_main_branches_ignore_diff(ls_out: Seq<char>, branch: Seq<char>, diff_out: Seq<char>)
    requires
        branch == "master"@ || branch == "main"@,
    ensures
        changed_files_spec(ls_out, branch, Some(diff_out)) == changed_files_spec(ls_out, branch, None),
        changed_files_spec(ls_out, branch, None) == non_empty(lines_spec(ls_out)),
{
}

proof fn lemma_non_empty_keeps(ls: Seq<Seq<char>>, p: Seq<char>)
    requires
        p.len() > 0,
        ls.contains(p),
    ensures
        non_empty(ls).contains(p),
{
    let k = choose|k: int| 0 <= k < ls.len() && ls[k] == p;
    ls.lemma_filter_contains_rev(|l: Seq<char>| l.len() > 0, p);
}

} // verus!
