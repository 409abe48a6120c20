//! The git backend: what is asked of git, and what its answers mean.
use vstd::prelude::*;

use crate::db::task_repo;
use crate::text;
use crate::time;
use crate::time::Timestamp;
use crate::vcs::backend;
use crate::vcs::backend::{
    ChangeType, CommitResult, CommitView, DiffEntry, DiffView, FileStatus, FileStatusKind,
    FileStatusView, LogEntry, LogView, StatusView, VcsError, VcsFault, VcsStatus, VcsType,
};

verus! {

/// A git repository, by the root of its working copy.
#[derive(Debug)]
pub struct GixBackend {
    pub root: String,
}

impl GixBackend {
    /// The repository that a search found: the root of its working copy, where it has one, or why
    /// the search failed.
    pub fn open(found: Result<Option<String>, String>) -> (out: Result<GixBackend, VcsError>)
        ensures
            match (found, out) {
                (Ok(Some(root)), Ok(b)) => b.root@ == root@,
                (Ok(None), Err(e)) => e@ == VcsFault::NoWorkingCopy,
                (Err(why), Err(e)) => e@ == VcsFault::OperationFailed("discover: "@ + why@),
                _ => false,
            },
    {
        match found {
            Ok(Some(root)) => Ok(GixBackend { root }),
            Ok(None) => Err(VcsError::NoWorkingCopy),
            Err(why) => Err(VcsError::OperationFailed(text::joined("discover: ", why.as_str()))),
        }
    }

    /// The kind of the repository.
    pub fn vcs_type(&self) -> (out: VcsType)
        ensures
            out == VcsType::Git,
    {
        VcsType::Git
    }

    /// The root of the working copy.
    pub fn root(&self) -> (out: &str)
        ensures
            out@ == self.root@,
    {
        self.root.as_str()
    }
}

/// What came of running git.
#[derive(Debug)]
pub enum GitReply {
    Ran { success: bool, stdout: String, stderr: String },
    NotRun(String),
}

/// The view of what came of running git.
pub enum GitReplyView {
    Ran { success: bool, stdout: Seq<char>, stderr: Seq<char> },
    NotRun(Seq<char>),
}

impl View for GitReply {
    type V = GitReplyView;

    open spec fn view(&self) -> GitReplyView {
        match self {
            GitReply::Ran { success, stdout, stderr } => GitReplyView::Ran {
                success: *success,
                stdout: stdout@,
                stderr: stderr@,
            },
            GitReply::NotRun(why) => GitReplyView::NotRun(why@),
        }
    }
}

// ---- the working copy ----

/// A difference that git reports.
#[derive(Debug)]
pub enum StatusItem {
    /// A tracked file differs from the index.
    Modification { path: String },
    /// A file is not tracked.
    DirectoryContents { path: String },
    /// A file was moved.
    Rewrite { source: String, target: String },
    /// The index differs from the last commit.
    TreeIndex { path: String },
}

/// The path that is shown for a difference.
pub open spec fn item_path(item: StatusItem) -> Seq<char> {
    match item {
        StatusItem::Modification { path } => path@,
        StatusItem::DirectoryContents { path } => path@,
        StatusItem::Rewrite { source, target } => source@ + " -> "@ + target@,
        StatusItem::TreeIndex { path } => path@,
    }
}

/// What the status says of a difference. What is staged counts as modified.
pub open spec fn item_status(item: StatusItem) -> FileStatusView {
    FileStatusView {
        path: item_path(item),
        status: match item {
            StatusItem::Modification { path } => FileStatusKind::Modified,
            StatusItem::DirectoryContents { path } => FileStatusKind::Untracked,
            StatusItem::Rewrite { source, target } => FileStatusKind::Renamed,
            StatusItem::TreeIndex { path } => FileStatusKind::Modified,
        },
    }
}

/// What the diff says of a difference.
pub open spec fn item_change(item: StatusItem) -> DiffView {
    DiffView {
        path: item_path(item),
        change_type: match item {
            StatusItem::Modification { path } => ChangeType::Modified,
            StatusItem::DirectoryContents { path } => ChangeType::Added,
            StatusItem::Rewrite { source, target } => ChangeType::Renamed,
            StatusItem::TreeIndex { path } => ChangeType::Modified,
        },
    }
}

/// The state of the working copy.
pub open spec fn status_of(head_id: Option<Seq<char>>, items: Seq<StatusItem>) -> StatusView {
    StatusView {
        files: items.map_values(|i: StatusItem| item_status(i)),
        working_copy_id: match head_id {
            Some(id) => Some(text::shortened(id, 8)),
            None => None,
        },
    }
}

fn path_of(item: &StatusItem) -> (out: String)
    ensures
        out@ == item_path(*item),
{
    match item {
        StatusItem::Modification { path } => path.clone(),
        StatusItem::DirectoryContents { path } => path.clone(),
        StatusItem::Rewrite { source, target } => {
            let from: String = text::joined(source.as_str(), " -> ");
            text::joined(from.as_str(), target.as_str())
        },
        StatusItem::TreeIndex { path } => path.clone(),
    }
}

/// The state of the working copy, from the last commit and the differences that git reports.
pub fn status(head_id: Option<&str>, items: &Vec<StatusItem>) -> (out: VcsStatus)
    ensures
        out@ == status_of(task_repo::opt_str(head_id), items@),
{
    let mut files: Vec<FileStatus> = Vec::new();
    let mut i: usize = 0;
    while i < items.len()
        invariant
            i <= items.len(),
            backend::file_views(files@) == items@.take(i as int).map_values(
                |x: StatusItem| item_status(x),
            ),
        decreases items.len() - i,
    {
        let ghost before = files@;
        let kind: FileStatusKind = match &items[i] {
            StatusItem::Modification { path: _ } => FileStatusKind::Modified,
            StatusItem::DirectoryContents { path: _ } => FileStatusKind::Untracked,
            StatusItem::Rewrite { source: _, target: _ } => FileStatusKind::Renamed,
            StatusItem::TreeIndex { path: _ } => FileStatusKind::Modified,
        };
        let file = FileStatus { path: path_of(&items[i]), status: kind };
        let ghost v = file@;
        files.push(file);
        proof {
            assert(v == item_status(items@[i as int]));
            assert(backend::file_views(files@) =~= backend::file_views(before).push(v));
            assert(items@.take(i + 1) =~= items@.take(i as int).push(items@[i as int]));
            assert(backend::file_views(files@) =~= items@.take(i + 1).map_values(
                |x: StatusItem| item_status(x),
            ));
        }
        i += 1;
    }
    assert(items@.take(items@.len() as int) =~= items@);
    let working_copy_id: Option<String> = match head_id {
        Some(id) => Some(text::truncated(id, 8)),
        None => None,
    };
    VcsStatus { files, working_copy_id }
}

/// The files that changed, from the differences that git reports.
pub fn diff(items: &Vec<StatusItem>) -> (out: Vec<DiffEntry>)
    ensures
        backend::diff_views(out@) == items@.map_values(|x: StatusItem| item_change(x)),
{
    let mut entries: Vec<DiffEntry> = Vec::new();
    let mut i: usize = 0;
    while i < items.len()
        invariant
            i <= items.len(),
            backend::diff_views(entries@) == items@.take(i as int).map_values(
                |x: StatusItem| item_change(x),
            ),
        decreases items.len() - i,
    {
        let ghost before = entries@;
        let change: ChangeType = match &items[i] {
            StatusItem::Modification { path: _ } => ChangeType::Modified,
            StatusItem::DirectoryContents { path: _ } => ChangeType::Added,
            StatusItem::Rewrite { source: _, target: _ } => ChangeType::Renamed,
            StatusItem::TreeIndex { path: _ } => ChangeType::Modified,
        };
        let entry = DiffEntry { path: path_of(&items[i]), change_type: change };
        let ghost v = entry@;
        entries.push(entry);
        proof {
            assert(v == item_change(items@[i as int]));
            assert(backend::diff_views(entries@) =~= backend::diff_views(before).push(v));
            assert(items@.take(i + 1) =~= items@.take(i as int).push(items@[i as int]));
            assert(backend::diff_views(entries@) =~= items@.take(i + 1).map_values(
                |x: StatusItem| item_change(x),
            ));
        }
        i += 1;
    }
    assert(items@.take(items@.len() as int) =~= items@);
    entries
}

// ---- the history ----

/// Who wrote a commit and when, as far as it can be read.
#[derive(Debug)]
pub struct Author {
    pub name: String,
    pub seconds: Option<i64>,
}

/// What the history says of a commit. Without an author that can be read, or a time that can be
/// represented, it is `now` that counts.
pub open spec fn log_entry_of(
    id: Seq<char>,
    message: Seq<char>,
    author: Option<Author>,
    now: Timestamp,
) -> LogView {
    LogView {
        id: text::shortened(id, 12),
        description: text::trimmed(message),
        author: match author {
            Some(a) => a.name@,
            None => "Unknown"@,
        },
        timestamp: match author {
            Some(a) => match a.seconds {
                Some(s) => match time::at_secs(s as int, 0) {
                    Some(t) => t,
                    None => now,
                },
                None => now,
            },
            None => now,
        },
    }
}

/// What the history says of a commit.
pub fn log_entry(id: &str, message: &str, author: Option<Author>, now: Timestamp) -> (out: LogEntry)
    ensures
        out@ == log_entry_of(id@, message@, author, now),
{
    let timestamp: Timestamp = match &author {
        Some(a) => match a.seconds {
            Some(s) => match time::from_secs(s) {
                Some(t) => t,
                None => now,
            },
            None => now,
        },
        None => now,
    };
    let name: String = match author {
        Some(a) => a.name,
        None => text::owned("Unknown"),
    };
    LogEntry {
        id: text::truncated(id, 12),
        description: text::trim(message),
        author: name,
        timestamp,
    }
}

/// The identifier by which the last commit is known.
pub fn current_commit_id(head_id: &str) -> (out: String)
    ensures
        out@ == text::shortened(head_id@, 12),
{
    text::truncated(head_id, 12)
}

// ---- commits ----

/// What git is asked while a commit is made.
#[derive(Clone, Copy, PartialEq, Eq, Structural, Debug)]
pub enum CommitPhase {
    Status,
    Add,
    Write,
    Id,
}

/// What comes next while a commit is made.
#[derive(Debug)]
pub enum CommitNext {
    Ask(CommitPhase),
    Over(Result<CommitResult, VcsError>),
}

/// The view of what comes next while a commit is made.
pub enum CommitNextView {
    Ask(CommitPhase),
    Over(Result<CommitView, VcsFault>),
}

impl View for CommitNext {
    type V = CommitNextView;

    open spec fn view(&self) -> CommitNextView {
        match self {
            CommitNext::Ask(p) => CommitNextView::Ask(*p),
            CommitNext::Over(r) => CommitNextView::Over(backend::vcs_outcome(*r)),
        }
    }
}

/// The arguments of git in a phase of a commit.
pub open spec fn commit_arguments(phase: CommitPhase, message: Seq<char>) -> Seq<Seq<char>> {
    match phase {
        CommitPhase::Status => seq!["status"@, "--porcelain"@],
        CommitPhase::Add => seq!["add"@, "-A"@],
        CommitPhase::Write => seq!["commit"@, "--no-gpg-sign"@, "-m"@, message],
        CommitPhase::Id => seq!["rev-parse"@, "HEAD"@],
    }
}

/// The beginning of the text of an error in a phase of a commit: where git did not run, and where
/// it failed.
pub open spec fn commit_error(phase: CommitPhase, ran: bool) -> Seq<char> {
    match (phase, ran) {
        (CommitPhase::Status, false) => "failed to run git status: "@,
        (CommitPhase::Status, true) => "git status failed: "@,
        (CommitPhase::Add, false) => "failed to run git add: "@,
        (CommitPhase::Add, true) => "git add -A failed: "@,
        (CommitPhase::Write, false) => "failed to run git commit: "@,
        (CommitPhase::Write, true) => "git commit failed: "@,
        (CommitPhase::Id, false) => "failed to run git rev-parse: "@,
        (CommitPhase::Id, true) => "git rev-parse HEAD failed: "@,
    }
}

/// A commit goes on: nothing is staged where nothing changed, everything is staged before the
/// commit, and the commit is known by the beginning of its identifier.
pub open spec fn commit_goes_on(phase: CommitPhase, message: Seq<char>, reply: GitReplyView) -> CommitNextView {
    match reply {
        GitReplyView::NotRun(why) => CommitNextView::Over(
            Err(VcsFault::OperationFailed(commit_error(phase, false) + why)),
        ),
        GitReplyView::Ran { success, stdout, stderr } => if !success {
            CommitNextView::Over(
                Err(VcsFault::OperationFailed(commit_error(phase, true) + stderr)),
            )
        } else {
            match phase {
                CommitPhase::Status => if text::trimmed(stdout).len() == 0 {
                    CommitNextView::Over(Err(VcsFault::NothingToCommit))
                } else {
                    CommitNextView::Ask(CommitPhase::Add)
                },
                CommitPhase::Add => CommitNextView::Ask(CommitPhase::Write),
                CommitPhase::Write => CommitNextView::Ask(CommitPhase::Id),
                CommitPhase::Id => CommitNextView::Over(
                    Ok(CommitView { id: text::shortened(text::trimmed(stdout), 12), message }),
                ),
            }
        },
    }
}

fn args2(a: &str, b: &str) -> (out: Vec<String>)
    ensures
        text::texts(out@) == seq![a@, b@],
{
    let mut out: Vec<String> = Vec::new();
    out.push(text::owned(a));
    out.push(text::owned(b));
    assert(text::texts(out@) =~= seq![a@, b@]);
    out
}

fn args3(a: &str, b: &str, c: &str) -> (out: Vec<String>)
    ensures
        text::texts(out@) == seq![a@, b@, c@],
{
    let mut out: Vec<String> = args2(a, b);
    let ghost before = text::texts(out@);
    out.push(text::owned(c));
    assert(text::texts(out@) =~= before.push(c@));
    assert(before.push(c@) =~= seq![a@, b@, c@]);
    out
}

fn args4(a: &str, b: &str, c: &str, d: &str) -> (out: Vec<String>)
    ensures
        text::texts(out@) == seq![a@, b@, c@, d@],
{
    let mut out: Vec<String> = args3(a, b, c);
    let ghost before = text::texts(out@);
    out.push(text::owned(d));
    assert(text::texts(out@) =~= before.push(d@));
    assert(before.push(d@) =~= seq![a@, b@, c@, d@]);
    out
}

/// The arguments of git in a phase of a commit.
pub fn commit_args(phase: CommitPhase, message: &str) -> (out: Vec<String>)
    ensures
        text::texts(out@) == commit_arguments(phase, message@),
{
    match phase {
        CommitPhase::Status => args2("status", "--porcelain"),
        CommitPhase::Add => args2("add", "-A"),
        CommitPhase::Write => args4("commit", "--no-gpg-sign", "-m", message),
        CommitPhase::Id => args2("rev-parse", "HEAD"),
    }
}

fn commit_failed(phase: CommitPhase, ran: bool, why: &str) -> (out: CommitNext)
    ensures
        out@ == CommitNextView::Over(
            Err(VcsFault::OperationFailed(commit_error(phase, ran) + why@)),
        ),
{
    let start: &str = match (phase, ran) {
        (CommitPhase::Status, false) => "failed to run git status: ",
        (CommitPhase::Status, true) => "git status failed: ",
        (CommitPhase::Add, false) => "failed to run git add: ",
        (CommitPhase::Add, true) => "git add -A failed: ",
        (CommitPhase::Write, false) => "failed to run git commit: ",
        (CommitPhase::Write, true) => "git commit failed: ",
        (CommitPhase::Id, false) => "failed to run git rev-parse: ",
        (CommitPhase::Id, true) => "git rev-parse HEAD failed: ",
    };
    CommitNext::Over(Err(VcsError::OperationFailed(text::joined(start, why))))
}

/// Goes on with a commit. It begins with `CommitPhase::Status`.
pub fn commit_next(phase: CommitPhase, message: &str, reply: &GitReply) -> (out: CommitNext)
    ensures
        out@ == commit_goes_on(phase, message@, reply@),
{
    match reply {
        GitReply::NotRun(why) => commit_failed(phase, false, why.as_str()),
        GitReply::Ran { success, stdout, stderr } => {
            if !*success {
                return commit_failed(phase, true, stderr.as_str());
            }
            match phase {
                CommitPhase::Status => {
                    let rest: Vec<char> = text::chars_of(text::trim(stdout.as_str()).as_str());
                    if rest.len() == 0 {
                        CommitNext::Over(Err(VcsError::NothingToCommit))
                    } else {
                        CommitNext::Ask(CommitPhase::Add)
                    }
                },
                CommitPhase::Add => CommitNext::Ask(CommitPhase::Write),
                CommitPhase::Write => CommitNext::Ask(CommitPhase::Id),
                CommitPhase::Id => {
                    let full_id: String = text::trim(stdout.as_str());
                    CommitNext::Over(
                        Ok(
                            CommitResult {
                                id: text::truncated(full_id.as_str(), 12),
                                message: text::owned(message),
                            },
                        ),
                    )
                },
            }
        },
    }
}

// ---- branches ----

/// The name of the reference behind a branch.
pub open spec fn branch_ref(name: Seq<char>) -> Seq<char> {
    "refs/heads/"@ + name
}

/// Whether a branch is among the references of a repository.
pub open spec fn branch_exists(refs: Seq<Seq<char>>, name: Seq<char>) -> bool {
    refs.contains(branch_ref(name))
}

/// Whether a branch is among the references of a repository.
fn has_branch(refs: &Vec<String>, name: &str) -> (out: bool)
    ensures
        out == branch_exists(text::texts(refs@), name@),
{
    let full: String = text::joined("refs/heads/", name);
    crate::paths::listed(refs, full.as_str())
}

/// The arguments with which git makes a branch, unless it is there already.
pub fn create_bookmark_args(refs: &Vec<String>, name: &str, target: Option<&str>) -> (out: Result<
    Vec<String>,
    VcsError,
>)
    ensures
        match out {
            Ok(args) => !branch_exists(text::texts(refs@), name@) && text::texts(args@) == (
            match target {
                Some(t) => seq!["branch"@, name@, t@],
                None => seq!["branch"@, name@],
            }),
            Err(e) => branch_exists(text::texts(refs@), name@) && e@ == VcsFault::BookmarkExists(
                name@,
            ),
        },
{
    if has_branch(refs, name) {
        return Err(VcsError::BookmarkExists(text::owned(name)));
    }
    match target {
        Some(t) => Ok(args3("branch", name, t)),
        None => Ok(args2("branch", name)),
    }
}

/// What came of making a branch.
pub open spec fn bookmark_created(target: Option<Seq<char>>, reply: GitReplyView) -> Result<(), VcsFault> {
    match reply {
        GitReplyView::NotRun(why) => Err(VcsFault::Git("failed to run git branch: "@ + why)),
        GitReplyView::Ran { success, stdout, stderr } => if success {
            Ok(())
        } else if text::has_substring(stderr, "not a valid object name"@) || text::has_substring(
            stderr,
            "unknown revision"@,
        ) {
            Err(
                VcsFault::TargetNotFound(
                    match target {
                        Some(t) => t,
                        None => "HEAD"@,
                    },
                ),
            )
        } else {
            Err(VcsFault::Git("git branch failed: "@ + stderr))
        },
    }
}

/// What came of making a branch.
pub fn create_bookmark_result(target: Option<&str>, reply: &GitReply) -> (out: Result<(), VcsError>)
    ensures
        backend::vcs_outcome(out) == bookmark_created(task_repo::opt_str(target), reply@),
{
    match reply {
        GitReply::NotRun(why) => Err(
            VcsError::Git(text::joined("failed to run git branch: ", why.as_str())),
        ),
        GitReply::Ran { success, stdout: _, stderr } => {
            if *success {
                Ok(())
            } else if text::contains(stderr.as_str(), "not a valid object name") || text::contains(
                stderr.as_str(),
                "unknown revision",
            ) {
                let name: &str = match target {
                    Some(t) => t,
                    None => "HEAD",
                };
                Err(VcsError::TargetNotFound(text::owned(name)))
            } else {
                Err(VcsError::Git(text::joined("git branch failed: ", stderr.as_str())))
            }
        },
    }
}

/// The arguments with which git deletes a branch, where it is there.
pub fn delete_bookmark_args(refs: &Vec<String>, name: &str) -> (out: Result<Vec<String>, VcsError>)
    ensures
        match out {
            Ok(args) => branch_exists(text::texts(refs@), name@) && text::texts(args@)
                == seq!["branch"@, "-d"@, name@],
            Err(e) => !branch_exists(text::texts(refs@), name@) && e@ == VcsFault::BookmarkNotFound(
                name@,
            ),
        },
{
    if !has_branch(refs, name) {
        return Err(VcsError::BookmarkNotFound(text::owned(name)));
    }
    Ok(args3("branch", "-d", name))
}

/// What came of deleting a branch.
pub fn delete_bookmark_result(reply: &GitReply) -> (out: Result<(), VcsError>)
    ensures
        backend::vcs_outcome(out) == (match reply@ {
            GitReplyView::NotRun(why) => Err(
                VcsFault::Git("failed to run git branch -d: "@ + why),
            ),
            GitReplyView::Ran { success, stdout, stderr } => if success {
                Ok(())
            } else {
                Err(VcsFault::Git("git branch -d failed: "@ + stderr))
            },
        }),
{
    match reply {
        GitReply::NotRun(why) => Err(
            VcsError::Git(text::joined("failed to run git branch -d: ", why.as_str())),
        ),
        GitReply::Ran { success, stdout: _, stderr } => {
            if *success {
                Ok(())
            } else {
                Err(VcsError::Git(text::joined("git branch -d failed: ", stderr.as_str())))
            }
        },
    }
}

/// The branches behind these references that are asked for, in the order of the references.
pub open spec fn branches(refs: Seq<Seq<char>>, prefix: Option<Seq<char>>) -> Seq<Seq<char>>
    decreases refs.len(),
{
    if refs.len() == 0 {
        Seq::empty()
    } else {
        let rest = branches(refs.drop_last(), prefix);
        let r = refs.last();
        let name = r.skip(11);
        if text::has_prefix(r, "refs/heads/"@) && backend::wanted(name, prefix) {
            rest.push(name)
        } else {
            rest
        }
    }
}

/// The branches of a repository, in order.
pub fn list_bookmarks(refs: &Vec<String>, prefix: Option<&str>) -> (out: Vec<String>)
    ensures
        text::texts(out@) == text::sorted(
            branches(text::texts(refs@), task_repo::opt_str(prefix)),
        ),
{
    let ghost all = text::texts(refs@);
    let ghost p = task_repo::opt_str(prefix);
    let mut found: Vec<String> = Vec::new();
    let mut i: usize = 0;
    assert(text::texts(found@) =~= branches(all.take(0), p));
    while i < refs.len()
        invariant
            i <= refs.len(),
            all == text::texts(refs@),
            p == task_repo::opt_str(prefix),
            text::texts(found@) == branches(all.take(i as int), p),
        decreases refs.len() - i,
    {
        let ghost before = found@;
        proof {
            assert(all.take(i + 1).drop_last() =~= all.take(i as int));
            assert(all.take(i + 1).last() == refs@[i as int]@);
            reveal_strlit("refs/heads/");
        }
        if text::starts_with(refs[i].as_str(), "refs/heads/") {
            let name: String = text::after(refs[i].as_str(), 11);
            let asked: bool = match prefix {
                Some(x) => text::starts_with(name.as_str(), x),
                None => true,
            };
            if asked {
                let ghost v = name@;
                found.push(name);
                assert(text::texts(found@) =~= text::texts(before).push(v));
            }
        }
        i += 1;
    }
    assert(all.take(all.len() as int) =~= all);
    text::sort(found)
}

// ---- moving about ----

/// The arguments with which git checks something out. What is not committed must not be lost.
pub fn checkout_args(clean: bool, target: &str) -> (out: Result<Vec<String>, VcsError>)
    ensures
        match out {
            Ok(args) => clean && text::texts(args@) == seq!["checkout"@, target@],
            Err(e) => !clean && e@ == VcsFault::DirtyWorkingCopy,
        },
{
    if !clean {
        return Err(VcsError::DirtyWorkingCopy);
    }
    Ok(args2("checkout", target))
}

/// What came of checking something out.
pub open spec fn checked_out(target: Seq<char>, reply: GitReplyView) -> Result<(), VcsFault> {
    match reply {
        GitReplyView::NotRun(why) => Err(VcsFault::Git("failed to run git checkout: "@ + why)),
        GitReplyView::Ran { success, stdout, stderr } => if success {
            Ok(())
        } else if text::has_substring(stderr, "did not match any"@) || text::has_substring(
            stderr,
            "pathspec"@,
        ) || text::has_substring(stderr, "not a valid object name"@) {
            Err(VcsFault::TargetNotFound(target))
        } else {
            Err(VcsFault::Git("git checkout failed: "@ + stderr))
        },
    }
}

/// What came of checking something out.
pub fn checkout_result(target: &str, reply: &GitReply) -> (out: Result<(), VcsError>)
    ensures
        backend::vcs_outcome(out) == checked_out(target@, reply@),
{
    match reply {
        GitReply::NotRun(why) => Err(
            VcsError::Git(text::joined("failed to run git checkout: ", why.as_str())),
        ),
        GitReply::Ran { success, stdout: _, stderr } => {
            let s: &str = stderr.as_str();
            if *success {
                Ok(())
            } else if text::contains(s, "did not match any") || text::contains(s, "pathspec")
                || text::contains(s, "not a valid object name") {
                Err(VcsError::TargetNotFound(text::owned(target)))
            } else {
                Err(VcsError::Git(text::joined("git checkout failed: ", s)))
            }
        },
    }
}

/// What git is asked to learn the name of the current branch.
#[derive(Debug)]
pub enum BranchPhase {
    /// Which branch is checked out?
    Name,
    /// None is; is there a commit at all?
    Nameless,
    /// This one is; is there a commit on it?
    Verify(String),
}

/// The view of what git is asked.
pub enum BranchPhaseView {
    Name,
    Nameless,
    Verify(Seq<char>),
}

impl View for BranchPhase {
    type V = BranchPhaseView;

    open spec fn view(&self) -> BranchPhaseView {
        match self {
            BranchPhase::Name => BranchPhaseView::Name,
            BranchPhase::Nameless => BranchPhaseView::Nameless,
            BranchPhase::Verify(name) => BranchPhaseView::Verify(name@),
        }
    }
}

/// What comes next on the way to the name of the current branch.
#[derive(Debug)]
pub enum BranchNext {
    Ask(BranchPhase),
    Over(Result<String, VcsError>),
}

/// The view of what comes next.
pub enum BranchNextView {
    Ask(BranchPhaseView),
    Over(Result<Seq<char>, VcsFault>),
}

impl View for BranchNext {
    type V = BranchNextView;

    open spec fn view(&self) -> BranchNextView {
        match self {
            BranchNext::Ask(p) => BranchNextView::Ask(p@),
            BranchNext::Over(r) => BranchNextView::Over(backend::vcs_outcome(*r)),
        }
    }
}

/// The arguments of git on the way to the name of the current branch.
pub fn branch_args(phase: &BranchPhase) -> (out: Vec<String>)
    ensures
        text::texts(out@) == (match phase@ {
            BranchPhaseView::Name => seq!["symbolic-ref"@, "--quiet"@, "--short"@, "HEAD"@],
            _ => seq!["rev-parse"@, "--verify"@, "HEAD"@],
        }),
{
    match phase {
        BranchPhase::Name => args4("symbolic-ref", "--quiet", "--short", "HEAD"),
        _ => args3("rev-parse", "--verify", "HEAD"),
    }
}

/// The search for the name of the current branch goes on. A repository without commits has no
/// branch yet; one whose commits are checked out without a branch is detached.
pub open spec fn branch_goes_on(phase: BranchPhaseView, reply: GitReplyView) -> BranchNextView {
    match reply {
        GitReplyView::NotRun(why) => BranchNextView::Over(
            Err(
                VcsFault::Git(
                    (if phase is Name {
                        "failed to run git symbolic-ref: "@
                    } else {
                        "failed to run git rev-parse: "@
                    }) + why,
                ),
            ),
        ),
        GitReplyView::Ran { success, stdout, stderr } => match phase {
            BranchPhaseView::Name => if !success {
                BranchNextView::Ask(BranchPhaseView::Nameless)
            } else if text::trimmed(stdout).len() == 0 {
                BranchNextView::Over(Err(VcsFault::DetachedHead))
            } else {
                BranchNextView::Ask(BranchPhaseView::Verify(text::trimmed(stdout)))
            },
            BranchPhaseView::Nameless => BranchNextView::Over(
                Err(
                    if success {
                        VcsFault::DetachedHead
                    } else {
                        VcsFault::UnbornRepository
                    },
                ),
            ),
            BranchPhaseView::Verify(name) => BranchNextView::Over(
                if success {
                    Ok(name)
                } else {
                    Err(VcsFault::UnbornRepository)
                },
            ),
        },
    }
}

/// Goes on with the search for the name of the current branch. It begins with `BranchPhase::Name`.
pub fn branch_next(phase: BranchPhase, reply: &GitReply) -> (out: BranchNext)
    ensures
        out@ == branch_goes_on(phase@, reply@),
{
    match reply {
        GitReply::NotRun(why) => {
            let start: &str = match &phase {
                BranchPhase::Name => "failed to run git symbolic-ref: ",
                _ => "failed to run git rev-parse: ",
            };
            BranchNext::Over(Err(VcsError::Git(text::joined(start, why.as_str()))))
        },
        GitReply::Ran { success, stdout, stderr: _ } => match phase {
            BranchPhase::Name => {
                if !*success {
                    return BranchNext::Ask(BranchPhase::Nameless);
                }
                let name: String = text::trim(stdout.as_str());
                let rest: Vec<char> = text::chars_of(name.as_str());
                if rest.len() == 0 {
                    BranchNext::Over(Err(VcsError::DetachedHead))
                } else {
                    BranchNext::Ask(BranchPhase::Verify(name))
                }
            },
            BranchPhase::Nameless => if *success {
                BranchNext::Over(Err(VcsError::DetachedHead))
            } else {
                BranchNext::Over(Err(VcsError::UnbornRepository))
            },
            BranchPhase::Verify(name) => if *success {
                BranchNext::Over(Ok(name))
            } else {
                BranchNext::Over(Err(VcsError::UnbornRepository))
            },
        },
    }
}

/// The arguments with which git moves the branch that is checked out forward.
pub fn merge_args(source: &str) -> (out: Vec<String>)
    ensures
        text::texts(out@) == seq!["merge"@, "--ff-only"@, source@],
{
    args3("merge", "--ff-only", source)
}

/// What git says of a merge that failed, on both channels.
pub open spec fn merge_message(stdout: Seq<char>, stderr: Seq<char>) -> Seq<char> {
    text::trimmed(stderr) + "\n"@ + text::trimmed(stdout)
}

/// What came of moving a branch forward: whether it was moved, and whether the source has to be
/// checked out again because it was not.
pub open spec fn merged(reply: GitReplyView) -> (Result<bool, VcsFault>, bool) {
    match reply {
        GitReplyView::NotRun(why) => (
            Err(VcsFault::Git("failed to run git merge --ff-only: "@ + why)),
            false,
        ),
        GitReplyView::Ran { success, stdout, stderr } => if success {
            (Ok(true), false)
        } else if backend::fast_forward_rejected(merge_message(stdout, stderr)) {
            (Ok(false), true)
        } else {
            (
                Err(
                    VcsFault::Git(
                        "git merge --ff-only failed: "@ + text::trimmed(
                            merge_message(stdout, stderr),
                        ),
                    ),
                ),
                true,
            )
        },
    }
}

/// What came of moving a branch forward.
pub fn merge_result(reply: &GitReply) -> (out: (Result<bool, VcsError>, bool))
    ensures
        (
            match out.0 {
                Ok(b) => Ok(b),
                Err(e) => Err(e@),
            },
            out.1,
        ) == merged(reply@),
{
    match reply {
        GitReply::NotRun(why) => (
            Err(VcsError::Git(text::joined("failed to run git merge --ff-only: ", why.as_str()))),
            false,
        ),
        GitReply::Ran { success, stdout, stderr } => {
            if *success {
                return (Ok(true), false);
            }
            let first: String = text::joined(text::trim(stderr.as_str()).as_str(), "\n");
            let combined: String = text::joined(
                first.as_str(),
                text::trim(stdout.as_str()).as_str(),
            );
            if backend::is_fast_forward_rejected_message(combined.as_str()) {
                return (Ok(false), true);
            }
            (
                Err(
                    VcsError::Git(
                        text::joined(
                            "git merge --ff-only failed: ",
                            text::trim(combined.as_str()).as_str(),
                        ),
                    ),
                ),
                true,
            )
        },
    }
}

} // verus!
