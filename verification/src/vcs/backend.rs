//! What the version-control backends have in common.
use vstd::prelude::*;

use crate::paths;
use crate::text;
use crate::time::Timestamp;

verus! {

/// The version-control system of a repository.
#[derive(Clone, Copy, PartialEq, Eq, Structural, Debug)]
pub enum VcsType {
    Jj,
    Git,
    Absent,
}

/// Why a version-control operation failed.
#[derive(Clone, Debug)]
pub enum VcsError {
    NotARepository,
    DirtyWorkingCopy,
    DetachedHead,
    UnbornRepository,
    NothingToCommit,
    NoWorkingCopy,
    BookmarkExists(String),
    BookmarkNotFound(String),
    TargetNotFound(String),
    OperationFailed(String),
    Git(String),
    Jj(String),
}

/// The view of a version-control error.
pub enum VcsFault {
    NotARepository,
    DirtyWorkingCopy,
    DetachedHead,
    UnbornRepository,
    NothingToCommit,
    NoWorkingCopy,
    BookmarkExists(Seq<char>),
    BookmarkNotFound(Seq<char>),
    TargetNotFound(Seq<char>),
    OperationFailed(Seq<char>),
    Git(Seq<char>),
    Jj(Seq<char>),
}

impl View for VcsError {
    type V = VcsFault;

    open spec fn view(&self) -> VcsFault {
        match self {
            VcsError::NotARepository => VcsFault::NotARepository,
            VcsError::DirtyWorkingCopy => VcsFault::DirtyWorkingCopy,
            VcsError::DetachedHead => VcsFault::DetachedHead,
            VcsError::UnbornRepository => VcsFault::UnbornRepository,
            VcsError::NothingToCommit => VcsFault::NothingToCommit,
            VcsError::NoWorkingCopy => VcsFault::NoWorkingCopy,
            VcsError::BookmarkExists(s) => VcsFault::BookmarkExists(s@),
            VcsError::BookmarkNotFound(s) => VcsFault::BookmarkNotFound(s@),
            VcsError::TargetNotFound(s) => VcsFault::TargetNotFound(s@),
            VcsError::OperationFailed(s) => VcsFault::OperationFailed(s@),
            VcsError::Git(s) => VcsFault::Git(s@),
            VcsError::Jj(s) => VcsFault::Jj(s@),
        }
    }
}

impl VcsFault {
    /// The text of the error.
    pub open spec fn message(self) -> Seq<char> {
        match self {
            VcsFault::NotARepository => "not a repository"@,
            VcsFault::DirtyWorkingCopy => "working copy has uncommitted changes"@,
            VcsFault::DetachedHead => "detached HEAD"@,
            VcsFault::UnbornRepository => "repository has no commits"@,
            VcsFault::NothingToCommit => "nothing to commit"@,
            VcsFault::NoWorkingCopy => "no working copy"@,
            VcsFault::BookmarkExists(s) => "bookmark already exists: "@ + s,
            VcsFault::BookmarkNotFound(s) => "bookmark not found: "@ + s,
            VcsFault::TargetNotFound(s) => "target not found: "@ + s,
            VcsFault::OperationFailed(s) => "operation failed: "@ + s,
            VcsFault::Git(s) => "git error: "@ + s,
            VcsFault::Jj(s) => "jj error: "@ + s,
        }
    }
}

impl VcsError {
    /// The text of the error.
    pub fn message(&self) -> (out: String)
        ensures
            out@ == self@.message(),
    {
        match self {
            VcsError::NotARepository => text::owned("not a repository"),
            VcsError::DirtyWorkingCopy => text::owned("working copy has uncommitted changes"),
            VcsError::DetachedHead => text::owned("detached HEAD"),
            VcsError::UnbornRepository => text::owned("repository has no commits"),
            VcsError::NothingToCommit => text::owned("nothing to commit"),
            VcsError::NoWorkingCopy => text::owned("no working copy"),
            VcsError::BookmarkExists(s) => text::joined("bookmark already exists: ", s.as_str()),
            VcsError::BookmarkNotFound(s) => text::joined("bookmark not found: ", s.as_str()),
            VcsError::TargetNotFound(s) => text::joined("target not found: ", s.as_str()),
            VcsError::OperationFailed(s) => text::joined("operation failed: ", s.as_str()),
            VcsError::Git(s) => text::joined("git error: ", s.as_str()),
            VcsError::Jj(s) => text::joined("jj error: ", s.as_str()),
        }
    }
}

/// Whether a message says that a merge could not be done by moving the branch forward, in
/// whatever case it is written.
pub open spec fn fast_forward_rejected(message: Seq<char>) -> bool {
    text::has_substring(text::ascii_lower(message), "not possible to fast-forward"@)
}

/// Whether a message says that a merge could not be done by moving the branch forward.
pub fn is_fast_forward_rejected_message(message: &str) -> (out: bool)
    ensures
        out == fast_forward_rejected(message@),
{
    let lower: String = text::ascii_lowercase(message);
    text::contains(lower.as_str(), "not possible to fast-forward")
}

/// What happened to a file in the working copy.
#[derive(Clone, Copy, PartialEq, Eq, Structural, Debug)]
pub enum FileStatusKind {
    Modified,
    Added,
    Deleted,
    Renamed,
    Untracked,
    Conflict,
}

/// A file that differs in the working copy.
#[derive(Clone, Debug)]
pub struct FileStatus {
    pub path: String,
    pub status: FileStatusKind,
}

/// The view of a file that differs.
pub struct FileStatusView {
    pub path: Seq<char>,
    pub status: FileStatusKind,
}

impl View for FileStatus {
    type V = FileStatusView;

    open spec fn view(&self) -> FileStatusView {
        FileStatusView { path: self.path@, status: self.status }
    }
}

/// The state of the working copy.
#[derive(Clone, Debug)]
pub struct VcsStatus {
    pub files: Vec<FileStatus>,
    pub working_copy_id: Option<String>,
}

/// The view of the state of the working copy.
#[verifier::ext_equal]
pub struct StatusView {
    pub files: Seq<FileStatusView>,
    pub working_copy_id: Option<Seq<char>>,
}

/// The views of files that differ.
pub open spec fn file_views(s: Seq<FileStatus>) -> Seq<FileStatusView> {
    s.map_values(|f: FileStatus| f@)
}

impl View for VcsStatus {
    type V = StatusView;

    open spec fn view(&self) -> StatusView {
        StatusView {
            files: file_views(self.files@),
            working_copy_id: text::opt_text(self.working_copy_id),
        }
    }
}

impl VcsStatus {
    /// Whether the working copy differs in no file.
    pub fn is_clean(&self) -> (out: bool)
        ensures
            out == (self@.files.len() == 0),
    {
        self.files.len() == 0
    }
}

/// A commit in the history.
#[derive(Clone, Debug)]
pub struct LogEntry {
    pub id: String,
    pub description: String,
    pub author: String,
    pub timestamp: Timestamp,
}

/// The view of a commit in the history.
pub struct LogView {
    pub id: Seq<char>,
    pub description: Seq<char>,
    pub author: Seq<char>,
    pub timestamp: Timestamp,
}

impl View for LogEntry {
    type V = LogView;

    open spec fn view(&self) -> LogView {
        LogView {
            id: self.id@,
            description: self.description@,
            author: self.author@,
            timestamp: self.timestamp,
        }
    }
}

/// The views of commits in the history.
pub open spec fn log_views(s: Seq<LogEntry>) -> Seq<LogView> {
    s.map_values(|e: LogEntry| e@)
}

/// How a file changed.
#[derive(Clone, Copy, PartialEq, Eq, Structural, Debug)]
pub enum ChangeType {
    Added,
    Modified,
    Deleted,
    Renamed,
}

/// A file that changed.
#[derive(Clone, Debug)]
pub struct DiffEntry {
    pub path: String,
    pub change_type: ChangeType,
}

/// The view of a file that changed.
pub struct DiffView {
    pub path: Seq<char>,
    pub change_type: ChangeType,
}

impl View for DiffEntry {
    type V = DiffView;

    open spec fn view(&self) -> DiffView {
        DiffView { path: self.path@, change_type: self.change_type }
    }
}

/// The views of files that changed.
pub open spec fn diff_views(s: Seq<DiffEntry>) -> Seq<DiffView> {
    s.map_values(|e: DiffEntry| e@)
}

/// A commit that was made.
#[derive(Clone, Debug)]
pub struct CommitResult {
    pub id: String,
    pub message: String,
}

/// The view of a commit that was made.
pub struct CommitView {
    pub id: Seq<char>,
    pub message: Seq<char>,
}

impl View for CommitResult {
    type V = CommitView;

    open spec fn view(&self) -> CommitView {
        CommitView { id: self.id@, message: self.message@ }
    }
}

/// The repository around a directory.
#[derive(Clone, Debug)]
pub struct VcsInfo {
    pub vcs_type: VcsType,
    pub root: String,
}

/// The outcome of a version-control operation, by the views of what it gives.
pub open spec fn vcs_outcome<T: View>(r: Result<T, VcsError>) -> Result<T::V, VcsFault> {
    match r {
        Ok(x) => Ok(x@),
        Err(e) => Err(e@),
    }
}

/// Whether a bookmark is among those asked for.
pub open spec fn wanted(name: Seq<char>, prefix: Option<Seq<char>>) -> bool {
    prefix is Some ==> text::has_prefix(name, prefix->0)
}

/// The repository around a directory: the nearest directory upwards with a jj repository in it;
/// where there is none all the way up, the nearest with a git repository.
pub open spec fn detected(
    dirs: Seq<Seq<char>>,
    jj: Seq<Seq<char>>,
    git: Seq<Seq<char>>,
) -> (VcsType, Option<Seq<char>>) {
    match paths::first_listed(dirs, jj) {
        Some(dir) => (VcsType::Jj, Some(dir)),
        None => match paths::first_listed(dirs, git) {
            Some(dir) => (VcsType::Git, Some(dir)),
            None => (VcsType::Absent, None),
        },
    }
}

/// Finds the repository around a directory. `jj` and `git` are the directories that hold a
/// repository of that kind.
pub fn detect_vcs_type(start_dir: &str, jj: &Vec<String>, git: &Vec<String>) -> (out: (
    VcsType,
    Option<String>,
))
    ensures
        (out.0, text::opt_text(out.1)) == detected(
            paths::ancestors(start_dir@),
            text::texts(jj@),
            text::texts(git@),
        ),
{
    let dirs: Vec<String> = paths::ancestors_of(start_dir);
    if let Some(dir) = paths::find_listed(&dirs, jj) {
        return (VcsType::Jj, Some(dir));
    }
    if let Some(dir) = paths::find_listed(&dirs, git) {
        return (VcsType::Git, Some(dir));
    }
    (VcsType::Absent, None)
}

/// A jj repository is always preferred: with one in a directory upwards, whatever git repositories
/// there are, a jj repository is found; a git repository is found only where there is none of jj.
pub proof fn law_jj_is_preferred(
    start_dir: Seq<char>,
    jj: Seq<Seq<char>>,
    git: Seq<Seq<char>>,
)
    ensures
        ({
            let dirs = paths::ancestors(start_dir);
            let (kind, root) = detected(dirs, jj, git);
            &&& kind == VcsType::Jj <==> exists|dir: Seq<char>|
                #[trigger] dirs.contains(dir) && jj.contains(dir)
            &&& kind == VcsType::Absent <==> !exists|dir: Seq<char>|
                #[trigger] dirs.contains(dir) && (jj.contains(dir) || git.contains(dir))
            &&& kind == VcsType::Absent <==> root is None
            &&& root is Some ==> dirs.contains(root->0)
        }),
{
    let dirs = paths::ancestors(start_dir);
    lemma_first_listed(dirs, jj);
    lemma_first_listed(dirs, git);
}

/// Something is found exactly where one of the directories is listed, and it is one of both.
proof fn lemma_first_listed(dirs: Seq<Seq<char>>, list: Seq<Seq<char>>)
    ensures
        match paths::first_listed(dirs, list) {
            Some(dir) => dirs.contains(dir) && list.contains(dir),
            None => forall|dir: Seq<char>| #[trigger] dirs.contains(dir) ==> !list.contains(dir),
        },
    decreases dirs.len(),
{
    if dirs.len() > 0 && !list.contains(dirs[0]) {
        let rest = dirs.drop_first();
        lemma_first_listed(rest, list);
        assert forall|dir: Seq<char>| rest.contains(dir) implies #[trigger] dirs.contains(dir) by {
            let i = choose|i: int| 0 <= i < rest.len() && rest[i] == dir;
            assert(dirs[i + 1] == dir);
        }
        assert forall|dir: Seq<char>| #[trigger] dirs.contains(dir) && list.contains(dir) implies rest.contains(
            dir,
        ) by {
            let i = choose|i: int| 0 <= i < dirs.len() && dirs[i] == dir;
            assert(rest[i - 1] == dir);
        }
    } else if dirs.len() > 0 {
        assert(dirs.contains(dirs[0]));
    }
}

} // verus!
