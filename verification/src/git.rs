use vstd::prelude::*;
use vstd::string::*;
use crate::text::{
    decode_lossy, is_first_index, is_ws, lemma_trim_shape, lines, lines_spec, nat_decimal, push_char, push_nat_decimal,
    split_once, split_once_spec, trim, trim_spec, utf8_lossy, views,
};

verus! {

broadcast use vstd::string::group_string_axioms;

/// Access to the git repository that lives at `repo_path`. Running git is
/// left to the caller; the provider turns git's output into values.
pub struct GitProvider {
    pub repo_path: String,
}

/// Errors of the git layer.
pub enum GitError {
    /// The git command could not be run.
    CommandFailed,
}

/// One commit of `git log`: its hash and its subject line.
pub struct CommitSummary {
    pub hash: String,
    pub message: String,
}

/// The branch name that `git branch --show-current` printed as `out`:
/// the trimmed output, or `detached` when it is empty.
pub open spec fn branch_spec(out: Seq<char>) -> Seq<char> {
    let t = trim_spec(out);
    if t.len() == 0 {
        "detached"@
    } else {
        t
    }
}

/// The commits among lines of the form `<hash>|<subject>`: each line split
/// at its first `|`; lines without one are skipped.
pub open spec fn commits_spec(lines: Seq<Seq<char>>) -> Seq<(Seq<char>, Seq<char>)>
    decreases lines.len(),
{
    if lines.len() == 0 {
        seq![]
    } else {
        let rest = commits_spec(lines.drop_last());
        match split_once_spec(lines.last(), '|') {
            Some(p) => rest.push(p),
            None => rest,
        }
    }
}

/// The (hash, subject) pairs of a list of commits.
pub open spec fn commit_views(v: Seq<CommitSummary>) -> Seq<(Seq<char>, Seq<char>)> {
    v.map_values(|c: CommitSummary| (c.hash@, c.message@))
}

impl GitProvider {
    /// Creates a provider for the repository at `path`; this never fails.
    pub fn new(path: &str) -> (res: Result<GitProvider, GitError>)
        ensures
            res matches Ok(g) && g.repo_path@ == path@,
    {
        Ok(GitProvider { repo_path: path.to_owned() })
    }

    /// The arguments of `git branch --show-current`.
    pub fn current_branch_args() -> (args: Vec<String>)
        ensures
            views(args@) == seq!["branch"@, "--show-current"@],
    {
        let mut args = Vec::new();
        args.push("branch".to_owned());
        args.push("--show-current".to_owned());
        assert(views(args@) =~= seq!["branch"@, "--show-current"@]);
        args
    }

    /// The current branch, from the standard output of
    /// `git branch --show-current`.
    pub fn current_branch_from_output(stdout: &[u8]) -> (branch: String)
        ensures
            branch@ == branch_spec(utf8_lossy(stdout@)),
    {
        let text = decode_lossy(stdout);
        Self::branch_from_text(text.as_str())
    }

    /// The current branch, from the text that git printed.
    pub fn branch_from_text(out: &str) -> (branch: String)
        ensures
            branch@ == branch_spec(out@),
    {
        let t = trim(out);
        if t.as_str().unicode_len() == 0 {
            "detached".to_owned()
        } else {
            t
        }
    }

    /// The arguments of `git log -<limit> --pretty=format:%H|%s`.
    pub fn recent_commits_args(limit: usize) -> (args: Vec<String>)
        ensures
            views(args@) == seq![
                "log"@,
                seq!['-'] + nat_decimal(limit as nat),
                "--pretty=format:%H|%s"@,
            ],
    {
        let mut args = Vec::new();
        args.push("log".to_owned());
        let mut count = String::new();
        push_char(&mut count, '-');
        push_nat_decimal(&mut count, limit as u64);
        args.push(count);
        args.push("--pretty=format:%H|%s".to_owned());
        assert(views(args@) =~= seq![
            "log"@,
            seq!['-'] + nat_decimal(limit as nat),
            "--pretty=format:%H|%s"@,
        ]);
        args
    }

    /// The commits listed in the standard output of `recent_commits_args`.
    pub fn recent_commits_from_output(stdout: &[u8]) -> (commits: Vec<CommitSummary>)
        ensures
            commit_views(commits@) == commits_spec(lines_spec(utf8_lossy(stdout@))),
    {
        let text = decode_lossy(stdout);
        Self::commits_from_text(text.as_str())
    }

    /// The commits listed in `out`, one `<hash>|<subject>` per line.
    pub fn commits_from_text(out: &str) -> (commits: Vec<CommitSummary>)
        ensures
            commit_views(commits@) == commits_spec(lines_spec(out@)),
    {
        let ls = lines(out);
        let mut commits: Vec<CommitSummary> = Vec::new();
        let mut i: usize = 0;
        assert(views(ls@).take(0) =~= Seq::<Seq<char>>::empty());
        while i < ls.len()
            invariant
                i <= ls@.len(),
                views(ls@) == lines_spec(out@),
                commit_views(commits@) == commits_spec(views(ls@).take(i as int)),
            decreases ls@.len() - i,
        {
            assert(views(ls@).take(i + 1).drop_last() =~= views(ls@).take(i as int));
            assert(views(ls@).take(i + 1).last() == ls@[i as int]@);
            match split_once(ls[i].as_str(), '|') {
                Some((hash, message)) => {
                    let ghost prev = commits@;
                    commits.push(CommitSummary { hash, message });
                    assert(commit_views(commits@) =~= commit_views(prev).push(
                        (commits@.last().hash@, commits@.last().message@),
                    ));
                },
                None => {},
            }
            i = i + 1;
        }
        assert(views(ls@).take(ls@.len() as int) =~= views(ls@));
        commits
    }
}

/// Splitting at the first separator loses nothing: the parts joined by the
/// separator give the line back, and the first part holds no separator.
pub proof fn lemma_split_once_roundtrip(s: Seq<char>, c: char)
    ensures
        split_once_spec(s, c) matches Some((a, b)) ==> {
            &&& a.push(c) + b == s
            &&& !a.contains(c)
        },
        split_once_spec(s, c) is None <==> !s.contains(c),
{
    if exists|i: int| is_first_index(s, c, i) {
        let i = choose|i: int| is_first_index(s, c, i);
        assert(s.take(i).push(c) + s.skip(i + 1) =~= s);
        if s.take(i).contains(c) {
            let j = choose|j: int| 0 <= j < s.take(i).len() && s.take(i)[j] == c;
            assert(s[j] == c);
        }
        assert(s.contains(c));
    } else {
        if s.contains(c) {
            let j = choose|j: int| 0 <= j < s.len() && s[j] == c;
            lemma_first_occurrence_exists(s, c, j);
        }
    }
}

proof fn lemma_first_occurrence_exists(s: Seq<char>, c: char, j: int)
    requires
        0 <= j < s.len(),
        s[j] == c,
    ensures
        exists|i: int| is_first_index(s, c, i),
    decreases j,
{
    if forall|k: int| 0 <= k < j ==> s[k] != c {
        assert(is_first_index(s, c, j));
    } else {
        let k = choose|k: int| 0 <= k < j && s[k] == c;
        lemma_first_occurrence_exists(s, c, k);
    }
}

/// Every commit read from git's log is one of its lines, split once at
/// `|`: the hash holds no `|`, and `hash|subject` is that line.
pub proof fn lemma_commits_are_lines(lines: Seq<Seq<char>>)
    ensures
        forall|k: int|
            0 <= k < commits_spec(lines).len() ==> {
                let (h, m) = #[trigger] commits_spec(lines)[k];
                &&& !h.contains('|')
                &&& lines.contains(h.push('|') + m)
            },
    decreases lines.len(),
{
    if lines.len() > 0 {
        lemma_commits_are_lines(lines.drop_last());
        lemma_split_once_roundtrip(lines.last(), '|');
        let rest = commits_spec(lines.drop_last());
        assert forall|k: int| 0 <= k < commits_spec(lines).len() implies {
            let (h, m) = #[trigger] commits_spec(lines)[k];
            &&& !h.contains('|')
            &&& lines.contains(h.push('|') + m)
        } by {
            if k < rest.len() {
                let (h, m) = rest[k];
                let j = choose|j: int| 0 <= j < lines.drop_last().len() && lines.drop_last()[j]
                    == h.push('|') + m;
                assert(lines[j] == h.push('|') + m);
            } else {
                assert(lines[lines.len() - 1] == lines.last());
            }
        }
    }
}

/// The current branch is never empty and never starts or ends with
/// whitespace: it is the trimmed output of git, or `detached`.
pub proof fn lemma_branch_is_trimmed(out: Seq<char>)
    ensures
        branch_spec(out).len() > 0,
        !is_ws(branch_spec(out)[0]),
        !is_ws(branch_spec(out).last()),
{
    lemma_trim_shape(out);
    if trim_spec(out).len() == 0 {
        reveal_strlit("detached");
    }
}

} // verus!
