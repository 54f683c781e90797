use vstd::prelude::*;
use vstd::string::*;
use crate::git::CommitSummary;
use crate::text::{decode_lossy, lines_spec, non_empty, non_empty_lines, utf8_lossy, views};

verus! {

broadcast use vstd::string::group_string_axioms;

/// A row of the change history: one file touched by one commit.
pub struct ChangeRow {
    pub project_id: String,
    pub relative_path: String,
    pub commit_hash: String,
    pub commit_message: String,
}

/// The value of a change row: project, path, commit hash, message.
pub type ChangeRowView = (Seq<char>, Seq<char>, Seq<char>, Seq<char>);

/// The values of a list of change rows.
pub open spec fn change_row_views(v: Seq<ChangeRow>) -> Seq<ChangeRowView> {
    v.map_values(
        |r: ChangeRow| (r.project_id@, r.relative_path@, r.commit_hash@, r.commit_message@),
    )
}

/// A commit is recorded unless rows for its hash exist already.
pub open spec fn needs_recording_spec(recorded_rows: i64) -> bool {
    recorded_rows <= 0
}

/// Whether the commit whose hash has `recorded_rows` rows in the history
/// still has to be recorded.
pub fn needs_recording(recorded_rows: i64) -> (b: bool)
    ensures
        b == needs_recording_spec(recorded_rows),
{
    recorded_rows <= 0
}

/// The arguments of `git diff-tree --no-commit-id --name-only -r <hash>`.
pub fn diff_tree_args(hash: &str) -> (args: Vec<String>)
    ensures
        views(args@) == seq!["diff-tree"@, "--no-commit-id"@, "--name-only"@, "-r"@, hash@],
{
    let mut args = Vec::new();
    args.push("diff-tree".to_owned());
    args.push("--no-commit-id".to_owned());
    args.push("--name-only".to_owned());
    args.push("-r".to_owned());
    args.push(hash.to_owned());
    assert(views(args@) =~= seq!["diff-tree"@, "--no-commit-id"@, "--name-only"@, "-r"@, hash@]);
    args
}

/// The rows for the files that `commit` changed, one per non-empty line of
/// git's file list; none when the list could not be had.
pub open spec fn change_rows_spec(
    project_id: Seq<char>,
    hash: Seq<char>,
    message: Seq<char>,
    files_out: Option<Seq<char>>,
) -> Seq<ChangeRowView> {
    match files_out {
        Some(out) => non_empty(lines_spec(out)).map_values(
            |p: Seq<char>| (project_id, p, hash, message),
        ),
        None => seq![],
    }
}

/// The rows to record for `commit`, from the standard output of
/// `diff_tree_args` (`None` when git could not be run).
pub fn change_rows(project_id: &str, commit: &CommitSummary, diff_stdout: Option<&[u8]>) -> (rows: Vec<
    ChangeRow,
>)
    ensures
        change_row_views(rows@) == change_rows_spec(
            project_id@,
            commit.hash@,
            commit.message@,
            match diff_stdout {
                Some(d) => Some(utf8_lossy(d@)),
                None => None,
            },
        ),
{
    let mut rows: Vec<ChangeRow> = Vec::new();
    match diff_stdout {
        Some(d) => {
            let text = decode_lossy(d);
            let files = non_empty_lines(text.as_str());
            let ghost fv = views(files@);
            let mut i: usize = 0;
            while i < files.len()
                invariant
                    i <= files@.len(),
                    fv == views(files@),
                    change_row_views(rows@) == fv.take(i as int).map_values(
                        |p: Seq<char>| (project_id@, p, commit.hash@, commit.message@),
                    ),
                decreases files@.len() - i,
            {
                let ghost prev = rows@;
                rows.push(
                    ChangeRow {
                        project_id: project_id.to_owned(),
                        relative_path: files[i].clone(),
                        commit_hash: commit.hash.clone(),
                        commit_message: commit.message.clone(),
                    },
                );
                assert(change_row_views(rows@) =~= change_row_views(prev).push(
                    (project_id@, fv[i as int], commit.hash@, commit.message@),
                ));
                assert(fv.take(i + 1).map_values(
                    |p: Seq<char>| (project_id@, p, commit.hash@, commit.message@),
                ) =~= fv.take(i as int).map_values(
                    |p: Seq<char>| (project_id@, p, commit.hash@, commit.message@),
                ).push((project_id@, fv[i as int], commit.hash@, commit.message@)));
                i = i + 1;
            }
            assert(fv.take(files@.len() as int) =~= fv);
        },
        None => {
            assert(change_row_views(rows@) =~= Seq::<ChangeRowView>::empty());
        },
    }
    rows
}

} // verus!
