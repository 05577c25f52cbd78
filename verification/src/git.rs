//! What the analysis reads from Git, in plain values: changed files from
//! `git diff --name-status` output, file listings filtered by extension, and
//! the few decisions taken on Git's error text.
use vstd::prelude::*;

use crate::paths::{extension, extension_of_name, file_name_of};
use crate::text::{
    join_spec, chars_of, concat2, strs_view, contains_text, has_infix, is_blank, lines, lines_spec, owned,
    split_chars, split_spec, str_eq, trim_spec, views,
};

verus! {

/// The pseudo-ref that stands for the Git index.
pub const INDEX_REF: &'static str = ":index";

/// The pseudo-ref that stands for the working tree.
pub const WORKTREE_REF: &'static str = ":worktree";

/// Shown when the `git` executable cannot be started.
pub const GIT_NOT_FOUND_MESSAGE: &'static str = "`git` was not found on PATH. sniffdiff requires Git to read diffs and file contents; install Git and try again.";

/// How Git reports a changed file.
#[derive(Debug, PartialEq, Eq)]
pub enum FileStatus {
    Added,
    Modified,
    Deleted,
    Renamed { old_path: String },
}

/// One line of `git diff --name-status`.
#[derive(Debug, PartialEq, Eq)]
pub struct ChangedFile {
    pub path: String,
    pub status: FileStatus,
}

/// The abstract value of a file status.
pub enum StatusView {
    Added,
    Modified,
    Deleted,
    Renamed(Seq<char>),
}

/// The abstract value of a changed file.
pub struct ChangedFileView {
    pub path: Seq<char>,
    pub status: StatusView,
}

impl View for ChangedFile {
    type V = ChangedFileView;

    open spec fn view(&self) -> ChangedFileView {
        ChangedFileView {
            path: self.path@,
            status: match self.status {
                FileStatus::Added => StatusView::Added,
                FileStatus::Modified => StatusView::Modified,
                FileStatus::Deleted => StatusView::Deleted,
                FileStatus::Renamed { old_path } => StatusView::Renamed(old_path@),
            },
        }
    }
}

impl ChangedFile {
    /// A copy of the changed file.
    pub fn copy(&self) -> (r: ChangedFile)
        ensures
            r@ == self@,
    {
        ChangedFile {
            path: self.path.clone(),
            status: match &self.status {
                FileStatus::Added => FileStatus::Added,
                FileStatus::Modified => FileStatus::Modified,
                FileStatus::Deleted => FileStatus::Deleted,
                FileStatus::Renamed { old_path } => FileStatus::Renamed { old_path: old_path.clone() },
            },
        }
    }
}

/// Why Git's output or a Git command could not be used.
#[derive(Debug)]
pub enum GitError {
    AddedMissingPath,
    ModifiedMissingPath,
    DeletedMissingPath,
    RenamedMissingNewPath,
    UnsupportedLine(String),
    Spawn(String),
}

/// The abstract value of a Git error.
pub enum GitErrorView {
    AddedMissingPath,
    ModifiedMissingPath,
    DeletedMissingPath,
    RenamedMissingNewPath,
    UnsupportedLine(Seq<char>),
    Spawn(Seq<char>),
}

impl View for GitError {
    type V = GitErrorView;

    open spec fn view(&self) -> GitErrorView {
        match self {
            GitError::AddedMissingPath => GitErrorView::AddedMissingPath,
            GitError::ModifiedMissingPath => GitErrorView::ModifiedMissingPath,
            GitError::DeletedMissingPath => GitErrorView::DeletedMissingPath,
            GitError::RenamedMissingNewPath => GitErrorView::RenamedMissingNewPath,
            GitError::UnsupportedLine(l) => GitErrorView::UnsupportedLine(l@),
            GitError::Spawn(m) => GitErrorView::Spawn(m@),
        }
    }
}

/// The message of a Git error.
pub open spec fn git_error_message(e: GitErrorView) -> Seq<char> {
    match e {
        GitErrorView::AddedMissingPath => "added file missing path"@,
        GitErrorView::ModifiedMissingPath => "modified file missing path"@,
        GitErrorView::DeletedMissingPath => "deleted file missing path"@,
        GitErrorView::RenamedMissingNewPath => "renamed file missing new path"@,
        GitErrorView::UnsupportedLine(l) => "unsupported git name-status line: "@ + l,
        GitErrorView::Spawn(m) => m,
    }
}

impl GitError {
    /// The human-readable message of the error.
    pub fn to_string(&self) -> (r: String)
        ensures
            r@ == git_error_message(self@),
    {
        match self {
            GitError::AddedMissingPath => owned("added file missing path"),
            GitError::ModifiedMissingPath => owned("modified file missing path"),
            GitError::DeletedMissingPath => owned("deleted file missing path"),
            GitError::RenamedMissingNewPath => owned("renamed file missing new path"),
            GitError::UnsupportedLine(l) => concat2(
                "unsupported git name-status line: ",
                l.as_str(),
            ),
            GitError::Spawn(m) => m.clone(),
        }
    }
}

/// What one `--name-status` line means: tab-separated columns, the status
/// letter first (`A`, `M`, `D`, or `R` with old and new paths).
pub open spec fn name_status_spec(line: Seq<char>) -> Result<ChangedFileView, GitErrorView> {
    let cols = split_spec(line, '\t');
    let status = cols[0];
    if status.len() == 0 {
        Err(GitErrorView::UnsupportedLine(line))
    } else if status[0] == 'A' {
        if cols.len() > 1 {
            Ok(ChangedFileView { path: cols[1], status: StatusView::Added })
        } else {
            Err(GitErrorView::AddedMissingPath)
        }
    } else if status[0] == 'M' {
        if cols.len() > 1 {
            Ok(ChangedFileView { path: cols[1], status: StatusView::Modified })
        } else {
            Err(GitErrorView::ModifiedMissingPath)
        }
    } else if status[0] == 'D' {
        if cols.len() > 1 {
            Ok(ChangedFileView { path: cols[1], status: StatusView::Deleted })
        } else {
            Err(GitErrorView::DeletedMissingPath)
        }
    } else if status[0] == 'R' {
        if cols.len() > 2 {
            Ok(ChangedFileView { path: cols[2], status: StatusView::Renamed(cols[1]) })
        } else {
            Err(GitErrorView::RenamedMissingNewPath)
        }
    } else {
        Err(GitErrorView::UnsupportedLine(line))
    }
}

/// Parses one line of `git diff --name-status` output.
pub fn parse_name_status_line(line: &str) -> (r: Result<ChangedFile, GitError>)
    ensures
        match r {
            Ok(f) => name_status_spec(line@) == Ok::<ChangedFileView, GitErrorView>(f@),
            Err(e) => name_status_spec(line@) == Err::<ChangedFileView, GitErrorView>(e@),
        },
{
    let v = chars_of(line);
    let cols = split_chars(v.as_slice(), '\t');
    proof {
        crate::text::lemma_split_nonempty(line@, '\t');
        assert(views(cols@)[0] == cols@[0]@);
        assert(cols@.len() > 1 ==> views(cols@)[1] == cols@[1]@);
        assert(cols@.len() > 2 ==> views(cols@)[2] == cols@[2]@);
    }
    let status = chars_of(cols[0].as_str());
    if status.len() == 0 {
        return Err(GitError::UnsupportedLine(owned(line)));
    }
    let letter = status[0];
    if letter == 'A' {
        if cols.len() > 1 {
            return Ok(ChangedFile { path: cols[1].clone(), status: FileStatus::Added });
        }
        return Err(GitError::AddedMissingPath);
    }
    if letter == 'M' {
        if cols.len() > 1 {
            return Ok(ChangedFile { path: cols[1].clone(), status: FileStatus::Modified });
        }
        return Err(GitError::ModifiedMissingPath);
    }
    if letter == 'D' {
        if cols.len() > 1 {
            return Ok(ChangedFile { path: cols[1].clone(), status: FileStatus::Deleted });
        }
        return Err(GitError::DeletedMissingPath);
    }
    if letter == 'R' {
        if cols.len() > 2 {
            return Ok(
                ChangedFile {
                    path: cols[2].clone(),
                    status: FileStatus::Renamed { old_path: cols[1].clone() },
                },
            );
        }
        return Err(GitError::RenamedMissingNewPath);
    }
    Err(GitError::UnsupportedLine(owned(line)))
}

/// The non-blank lines of a text, in order.
pub open spec fn non_blank_lines(s: Seq<char>) -> Seq<Seq<char>> {
    lines_spec(s).filter(non_blank())
}

/// The predicate "not blank after trimming".
pub open spec fn non_blank() -> spec_fn(Seq<char>) -> bool {
    |l: Seq<char>| trim_spec(l).len() != 0
}

/// The predicate "has one of these extensions".
pub open spec fn extension_in(exts: Seq<Seq<char>>) -> spec_fn(Seq<char>) -> bool {
    |l: Seq<char>| has_extension_spec(l, exts)
}

/// Parses the whole output of `git diff --name-status`: every non-blank line
/// must parse, and the first that does not gives the error.
pub fn parse_name_status_output(output: &str) -> (r: Result<Vec<ChangedFile>, GitError>)
    ensures
        match r {
            Ok(files) => files@.len() == non_blank_lines(output@).len() && forall|i: int|
                0 <= i < files@.len() ==> name_status_spec(non_blank_lines(output@)[i]) == Ok::<
                    ChangedFileView,
                    GitErrorView,
                >(#[trigger] files@[i]@),
            Err(e) => exists|i: int|
                0 <= i < non_blank_lines(output@).len() && name_status_spec(
                    #[trigger] non_blank_lines(output@)[i],
                ) == Err::<ChangedFileView, GitErrorView>(e@) && forall|j: int|
                    0 <= j < i ==> name_status_spec(non_blank_lines(output@)[j]) is Ok,
        },
{
    let all = lines(output);
    let ghost all_v = views(all@);
    let ghost pred = non_blank();
    let mut files: Vec<ChangedFile> = Vec::new();
    let mut i: usize = 0;
    while i < all.len()
        invariant
            0 <= i <= all.len(),
            all_v == views(all@),
            all_v == lines_spec(output@),
            pred == non_blank(),
            files@.len() == all_v.subrange(0, i as int).filter(pred).len(),
            forall|k: int|
                0 <= k < files@.len() ==> name_status_spec(
                    all_v.subrange(0, i as int).filter(pred)[k],
                ) == Ok::<ChangedFileView, GitErrorView>(#[trigger] files@[k]@),
        decreases all.len() - i,
    {
        let ghost prefix = all_v.subrange(0, i as int);
        proof {
            assert(all_v.subrange(0, i + 1) =~= prefix.push(all_v[i as int]));
            crate::text::lemma_push_filter(prefix, pred, all_v[i as int]);
            assert(all_v[i as int] == all@[i as int]@);
        }
        if !is_blank(all[i].as_str()) {
            match parse_name_status_line(all[i].as_str()) {
                Ok(f) => {
                    files.push(f);
                },
                Err(e) => {
                    proof {
                        let full = all_v.filter(pred);
                        let idx = files@.len() as int;
                        lemma_filter_prefix(all_v, pred, i as int + 1);
                        assert(all_v.subrange(0, i + 1).filter(pred) == all_v.subrange(
                            0,
                            i as int,
                        ).filter(pred).push(all_v[i as int]));
                        assert(full[idx] == all_v[i as int]);
                        assert forall|j: int| 0 <= j < idx implies name_status_spec(
                            full[j],
                        ) is Ok by {
                            assert(full[j] == all_v.subrange(0, i as int).filter(pred)[j]);
                            assert(name_status_spec(full[j]) == Ok::<
                                ChangedFileView,
                                GitErrorView,
                            >(files@[j]@));
                        }
                    }
                    return Err(e);
                },
            }
        }
        i = i + 1;
    }
    proof {
        assert(all_v.subrange(0, all_v.len() as int) =~= all_v);
    }
    Ok(files)
}

/// A prefix's filtered elements are a prefix of the whole sequence's.
pub proof fn lemma_filter_prefix(s: Seq<Seq<char>>, pred: spec_fn(Seq<char>) -> bool, n: int)
    requires
        0 <= n <= s.len(),
    ensures
        s.subrange(0, n).filter(pred).len() <= s.filter(pred).len(),
        forall|j: int|
            0 <= j < s.subrange(0, n).filter(pred).len() ==> #[trigger] s.filter(pred)[j] == s.subrange(
                0,
                n,
            ).filter(pred)[j],
    decreases s.len() - n,
{
    if n < s.len() {
        lemma_filter_prefix(s, pred, n + 1);
        assert(s.subrange(0, n + 1) =~= s.subrange(0, n).push(s[n]));
        crate::text::lemma_push_filter(s.subrange(0, n), pred, s[n]);
    } else {
        assert(s.subrange(0, n) =~= s);
    }
}

/// Whether a path's extension is one of `extensions`.
pub open spec fn has_extension_spec(p: Seq<char>, extensions: Seq<Seq<char>>) -> bool {
    match extension_of_name(file_name_of(p)) {
        Some(e) => extensions.contains(e),
        None => false,
    }
}

/// Whether a path's extension is one of `extensions`.
pub fn has_extension(path: &str, extensions: &[&str]) -> (r: bool)
    ensures
        r == has_extension_spec(path@, strs_view(extensions@)),
{
    let ghost exts = strs_view(extensions@);
    match extension(path) {
        Some(e) => {
            let mut i: usize = 0;
            while i < extensions.len()
                invariant
                    0 <= i <= extensions.len(),
                    exts == strs_view(extensions@),
                    extension_of_name(file_name_of(path@)) == Some(e@),
                    forall|j: int| 0 <= j < i ==> exts[j] != e@,
                decreases extensions.len() - i,
            {
                if str_eq(extensions[i], e.as_str()) {
                    proof {
                        assert(exts[i as int] == e@);
                        assert(exts.contains(e@));
                    }
                    return true;
                }
                i = i + 1;
            }
            proof {
                if exts.contains(e@) {
                    let k = choose|k: int| 0 <= k < exts.len() && exts[k] == e@;
                    assert(exts[k] != e@);
                }
            }
            false
        },
        None => false,
    }
}

/// The lines of a file listing (`git ls-tree`/`git ls-files` output) whose
/// extension is one of `extensions`, in listing order.
pub fn paths_with_extension(listing: &str, extensions: &[&str]) -> (r: Vec<String>)
    ensures
        views(r@) == lines_spec(listing@).filter(extension_in(strs_view(extensions@))),
{
    let ghost exts = strs_view(extensions@);
    let ghost pred = extension_in(exts);
    let all = lines(listing);
    let ghost all_v = views(all@);
    let mut r: Vec<String> = Vec::new();
    let mut i: usize = 0;
    while i < all.len()
        invariant
            0 <= i <= all.len(),
            all_v == views(all@),
            exts == strs_view(extensions@),
            pred == extension_in(exts),
            all_v == lines_spec(listing@),
            views(r@) == all_v.subrange(0, i as int).filter(pred),
        decreases all.len() - i,
    {
        proof {
            assert(all_v.subrange(0, i + 1) =~= all_v.subrange(0, i as int).push(all_v[i as int]));
            crate::text::lemma_push_filter(all_v.subrange(0, i as int), pred, all_v[i as int]);
            assert(all_v[i as int] == all@[i as int]@);
        }
        let keep = has_extension(all[i].as_str(), extensions);
        proof {
            assert(keep == pred(all_v[i as int]));
        }
        if keep {
            let ghost before = views(r@);
            r.push(all[i].clone());
            proof {
                assert(views(r@) =~= before.push(all@[i as int]@));
            }
        }
        i = i + 1;
    }
    proof {
        assert(all_v.subrange(0, all_v.len() as int) =~= all_v);
    }
    r
}

/// Git's wording when a path is absent from the ref, index or working tree
/// that was asked for; such a read yields "no file" rather than an error.
pub open spec fn is_missing_object_spec(stderr: Seq<char>) -> bool {
    ||| has_infix(stderr, "exists on disk, but not in"@)
    ||| has_infix(stderr, "exists on disk, but not in the index"@)
    ||| has_infix(stderr, "pathspec"@)
    ||| has_infix(stderr, "does not exist"@)
}

/// Whether Git's error text says the requested object is missing.
pub fn is_missing_git_object_error(stderr: &str) -> (r: bool)
    ensures
        r == is_missing_object_spec(stderr@),
{
    contains_text(stderr, "exists on disk, but not in") || contains_text(
        stderr,
        "exists on disk, but not in the index",
    ) || contains_text(stderr, "pathspec") || contains_text(stderr, "does not exist")
}

/// `parts` joined by `sep` (`[&str]::join`).
pub fn join_strs(parts: &[&str], sep: &str) -> (r: String)
    ensures
        r@ == join_spec(strs_view(parts@), sep@),
{
    let ghost pv = strs_view(parts@);
    let mut r = String::new();
    let mut i: usize = 0;
    while i < parts.len()
        invariant
            0 <= i <= parts.len(),
            pv == strs_view(parts@),
            r@ == join_spec(pv.subrange(0, i as int), sep@),
        decreases parts.len() - i,
    {
        proof {
            assert(pv.subrange(0, i + 1).drop_last() =~= pv.subrange(0, i as int));
            assert(pv.subrange(0, i + 1).last() == parts@[i as int]@);
        }
        if i > 0 {
            r.append(sep);
        } else {
            proof {
                assert(r@ =~= Seq::<char>::empty());
            }
        }
        r.append(parts[i]);
        i = i + 1;
    }
    proof {
        assert(pv.subrange(0, parts.len() as int) =~= pv);
    }
    r
}

/// The message for a `git` process that could not be started: a fixed
/// explanation when the executable is missing, otherwise the command and the
/// operating system's error text.
pub open spec fn spawn_error_spec(args: Seq<Seq<char>>, not_found: bool, error_text: Seq<char>) -> Seq<char> {
    if not_found {
        GIT_NOT_FOUND_MESSAGE@
    } else {
        "failed to run git "@ + join_spec(args, " "@) + ": "@ + error_text
    }
}

/// Declares `std::io::Error` to the verifier.
#[verifier::external_type_specification]
#[verifier::external_body]
pub struct ExIoError(std::io::Error);

/// `std::io::Error::kind` compared with `ErrorKind::NotFound`.
#[verifier::external_body]
fn io_error_is_not_found(error: &std::io::Error) -> bool {
    matches!(error.kind(), std::io::ErrorKind::NotFound)
}

/// `std::io::Error`'s `Display` text (`ToString::to_string`).
#[verifier::external_body]
fn io_error_text(error: &std::io::Error) -> String {
    error.to_string()
}

/// The error for a `git` process that could not be started.
pub fn git_spawn_error(args: &[&str], error: &std::io::Error) -> (r: GitError)
    ensures
        r matches GitError::Spawn(m) && exists|not_found: bool, text: Seq<char>|
            m@ == #[trigger] spawn_error_spec(strs_view(args@), not_found, text),
{
    let not_found = io_error_is_not_found(error);
    let text = io_error_text(error);
    let m = spawn_error_message(args, not_found, text.as_str());
    proof {
        assert(m@ == spawn_error_spec(strs_view(args@), not_found, text@));
    }
    GitError::Spawn(m)
}

/// The spawn-error message for a given error kind and text.
pub fn spawn_error_message(args: &[&str], not_found: bool, error_text: &str) -> (r: String)
    ensures
        r@ == spawn_error_spec(strs_view(args@), not_found, error_text@),
{
    if not_found {
        owned(GIT_NOT_FOUND_MESSAGE)
    } else {
        let joined = join_strs(args, " ");
        let mut m = owned("failed to run git ");
        m.append(joined.as_str());
        m.append(": ");
        m.append(error_text);
        m
    }
}

} // verus!
