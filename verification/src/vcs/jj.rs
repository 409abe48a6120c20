//! The jj backend: what is made of what the repository holds.
use vstd::prelude::*;

use crate::db::task_repo;
use crate::paths;
use crate::text;
use crate::time;
use crate::time::Timestamp;
use crate::vcs::backend;
use crate::vcs::backend::{
    ChangeType, CommitResult, CommitView, DiffEntry, DiffView, FileStatus, FileStatusKind,
    FileStatusView, LogEntry, LogView, StatusView, VcsError, VcsFault, VcsStatus, VcsType,
};

verus! {

/// A jj repository, by the root of its workspace.
#[derive(Debug)]
pub struct JjBackend {
    pub root: String,
}

impl JjBackend {
    /// The repository whose workspace has the given root.
    pub fn open(path: &str) -> (out: JjBackend)
        ensures
            out.root@ == path@,
    {
        JjBackend { root: text::owned(path) }
    }

    /// The kind of the repository.
    pub fn vcs_type(&self) -> (out: VcsType)
        ensures
            out == VcsType::Jj,
    {
        VcsType::Jj
    }

    /// The root of the workspace.
    pub fn root(&self) -> (out: &str)
        ensures
            out@ == self.root@,
    {
        self.root.as_str()
    }
}

// ---- change identifiers ----

/// The letter that stands for a half byte: `z` for 0 down to `k` for 15.
pub open spec fn reverse_digit(n: int) -> char {
    (0x7a - n) as char
}

/// Bytes written with two letters each, the higher half first.
pub open spec fn reverse_hex(data: Seq<u8>) -> Seq<char> {
    Seq::new(
        2 * data.len(),
        |i: int|
            if i % 2 == 0 {
                reverse_digit(data[i / 2] as int / 16)
            } else {
                reverse_digit(data[i / 2] as int % 16)
            },
    )
}

/// `jj_lib::hex_util::encode_reverse_hex` writes each byte as two letters, from `z` for 0 down to
/// `k` for 15, the higher half first.
#[verifier::external_body]
fn encode_reverse_hex(data: &Vec<u8>) -> (out: String)
    ensures
        out@ == reverse_hex(data@),
{
    jj_lib::hex_util::encode_reverse_hex(data.as_slice())
}

/// The beginning of a change identifier, as it is shown.
fn short_id(change_id: &Vec<u8>, n: usize) -> (out: String)
    ensures
        out@ == text::shortened(reverse_hex(change_id@), n as nat),
{
    text::truncated(encode_reverse_hex(change_id).as_str(), n)
}

/// The identifier by which the current change is known.
pub fn current_commit_id(change_id: &Vec<u8>) -> (out: String)
    ensures
        out@ == text::shortened(reverse_hex(change_id@), 12),
{
    short_id(change_id, 12)
}

// ---- the working copy ----

/// The state of the working copy: jj keeps it as a commit, which is empty or not.
pub open spec fn status_of(change_id: Seq<u8>, is_empty: bool, has_conflict: bool) -> StatusView {
    StatusView {
        files: if is_empty {
            Seq::empty()
        } else {
            seq![
                FileStatusView {
                    path: "(working copy has changes)"@,
                    status: if has_conflict {
                        FileStatusKind::Conflict
                    } else {
                        FileStatusKind::Modified
                    },
                },
            ]
        },
        working_copy_id: Some(text::shortened(reverse_hex(change_id), 8)),
    }
}

/// The state of the working copy.
pub fn status(change_id: &Vec<u8>, is_empty: bool, has_conflict: bool) -> (out: VcsStatus)
    ensures
        out@ == status_of(change_id@, is_empty, has_conflict),
{
    let mut files: Vec<FileStatus> = Vec::new();
    if !is_empty {
        files.push(
            FileStatus {
                path: text::owned("(working copy has changes)"),
                status: if has_conflict {
                    FileStatusKind::Conflict
                } else {
                    FileStatusKind::Modified
                },
            },
        );
    }
    let out = VcsStatus { files, working_copy_id: Some(short_id(change_id, 8)) };
    assert(out@.files =~= status_of(change_id@, is_empty, has_conflict).files);
    out
}

/// The files that changed: the working copy as a whole, where it is not empty.
pub fn diff(is_empty: bool) -> (out: Vec<DiffEntry>)
    ensures
        backend::diff_views(out@) == if is_empty {
            Seq::empty()
        } else {
            seq![DiffView { path: "(working copy)"@, change_type: ChangeType::Modified }]
        },
{
    let mut out: Vec<DiffEntry> = Vec::new();
    if !is_empty {
        out.push(
            DiffEntry { path: text::owned("(working copy)"), change_type: ChangeType::Modified },
        );
        assert(backend::diff_views(out@) =~= seq![
            DiffView { path: "(working copy)"@, change_type: ChangeType::Modified },
        ]);
    } else {
        assert(backend::diff_views(out@) =~= Seq::empty());
    }
    out
}

// ---- commits ----

/// Whether there is anything to commit: an empty change that is described already is left alone.
pub open spec fn worth_committing(is_empty: bool, description: Seq<char>) -> bool {
    !is_empty || text::trimmed(description).len() == 0
}

/// Whether the current change may be described and a new one be put on top of it.
pub fn check_commit(is_empty: bool, description: &str) -> (out: Result<(), VcsError>)
    ensures
        match out {
            Ok(_) => worth_committing(is_empty, description@),
            Err(e) => !worth_committing(is_empty, description@) && e@ == VcsFault::NothingToCommit,
        },
{
    let rest: Vec<char> = text::chars_of(text::trim(description).as_str());
    if is_empty && rest.len() > 0 {
        return Err(VcsError::NothingToCommit);
    }
    Ok(())
}

/// The commit that was made.
pub fn commit_result(change_id: &Vec<u8>, message: &str) -> (out: CommitResult)
    ensures
        out@ == (CommitView {
            id: text::shortened(reverse_hex(change_id@), 12),
            message: message@,
        }),
{
    CommitResult { id: short_id(change_id, 12), message: text::owned(message) }
}

/// The description of the operation that makes a commit.
pub fn commit_label(message: &str) -> (out: String)
    ensures
        out@ == "describe: "@ + text::line_of(message@),
{
    text::joined("describe: ", text::first_line(message).as_str())
}

// ---- the history ----

/// A commit as the repository holds it.
#[derive(Debug)]
pub struct Commit {
    pub change_id: Vec<u8>,
    pub description: String,
    pub author: String,
    pub millis: i64,
    pub parents: Vec<String>,
}

/// What the history says of a commit. A time that cannot be represented is taken as `now`.
pub open spec fn log_entry_of(c: Commit, now: Timestamp) -> LogView {
    LogView {
        id: text::shortened(reverse_hex(c.change_id@), 12),
        description: text::trimmed(c.description@),
        author: c.author@,
        timestamp: match time::at_secs(c.millis as int / 1000, c.millis as int % 1000 * 1_000_000) {
            Some(t) => t,
            None => now,
        },
    }
}

/// What the history says of a commit.
fn log_entry(c: &Commit, now: Timestamp) -> (out: LogEntry)
    ensures
        out@ == log_entry_of(*c, now),
{
    let timestamp: Timestamp = match time::from_millis(c.millis) {
        Some(t) => t,
        None => now,
    };
    LogEntry {
        id: short_id(&c.change_id, 12),
        description: text::trim(c.description.as_str()),
        author: c.author.clone(),
        timestamp,
    }
}

/// A walk through the history, from a commit to its parents, breadth first.
#[derive(Debug)]
pub struct LogWalk {
    pub limit: usize,
    pub queue: Vec<String>,
    pub visited: Vec<String>,
    pub entries: Vec<LogEntry>,
}

/// The view of a walk through the history.
#[verifier::ext_equal]
pub struct WalkView {
    pub limit: nat,
    pub queue: Seq<Seq<char>>,
    pub visited: Seq<Seq<char>>,
    pub entries: Seq<LogView>,
}

impl View for LogWalk {
    type V = WalkView;

    open spec fn view(&self) -> WalkView {
        WalkView {
            limit: self.limit as nat,
            queue: text::texts(self.queue@),
            visited: text::texts(self.visited@),
            entries: backend::log_views(self.entries@),
        }
    }
}

/// The next commit that a walk asks for, and the walk after that. Each commit is asked for once;
/// none is where enough was seen or nothing is left.
pub open spec fn walk_on(w: WalkView) -> (Option<Seq<char>>, WalkView)
    decreases w.queue.len(),
{
    if w.entries.len() >= w.limit || w.queue.len() == 0 {
        (None, w)
    } else {
        let rest = WalkView { queue: w.queue.skip(1), ..w };
        if w.visited.contains(w.queue[0]) {
            walk_on(rest)
        } else {
            (Some(w.queue[0]), WalkView { visited: w.visited.push(w.queue[0]), ..rest })
        }
    }
}

/// The walk after a commit was seen.
pub open spec fn walk_saw(w: WalkView, c: Commit, now: Timestamp) -> WalkView {
    WalkView {
        queue: w.queue + text::texts(c.parents@),
        entries: w.entries.push(log_entry_of(c, now)),
        ..w
    }
}

/// What holds of every walk: no commit is visited twice, and no more commits are shown than were
/// visited and asked for.
pub open spec fn walk_sound(w: WalkView) -> bool {
    &&& w.visited.no_duplicates()
    &&& w.entries.len() <= w.visited.len()
    &&& w.entries.len() <= w.limit
}

impl LogWalk {
    /// A walk from a commit, of at most `limit` commits.
    pub fn new(start: &str, limit: usize) -> (out: LogWalk)
        ensures
            out@ == (WalkView {
                limit: limit as nat,
                queue: seq![start@],
                visited: Seq::empty(),
                entries: Seq::empty(),
            }),
    {
        let mut queue: Vec<String> = Vec::new();
        queue.push(text::owned(start));
        let out = LogWalk { limit, queue, visited: Vec::new(), entries: Vec::new() };
        proof {
            assert(out@.queue =~= seq![start@]);
            assert(out@.visited =~= Seq::<Seq<char>>::empty());
            assert(out@.entries =~= Seq::<LogView>::empty());
        }
        out
    }

    /// The next commit to look at; none where the walk is over.
    pub fn next(&mut self) -> (out: Option<String>)
        ensures
            (text::opt_text(out), final(self)@) == walk_on(old(self)@),
    {
        while self.entries.len() < self.limit && self.queue.len() > 0
            invariant
                walk_on(self@) == walk_on(old(self)@),
            decreases self.queue.len(),
        {
            let ghost w = self@;
            assert(w.queue.len() == self.queue@.len());
            assert(w.queue[0] == self.queue@[0]@);
            assert(w.entries.len() == self.entries@.len());
            let id: String = self.queue.remove(0);
            assert(self@.queue =~= w.queue.skip(1));
            if !paths::listed(&self.visited, id.as_str()) {
                let ghost seen = self.visited@;
                let copy: String = id.clone();
                self.visited.push(copy);
                assert(text::texts(self.visited@) =~= text::texts(seen).push(id@));
                assert(self@ =~= walk_on(w).1);
                return Some(id);
            }
        }
        assert(self@.entries.len() == self.entries@.len());
        assert(self@.queue.len() == self.queue@.len());
        None
    }

    /// Takes note of the commit that was asked for.
    pub fn saw(&mut self, c: Commit, now: Timestamp)
        ensures
            final(self)@ == walk_saw(old(self)@, c, now),
    {
        let ghost w = self@;
        let ghost before = self.entries@;
        let entry: LogEntry = log_entry(&c, now);
        let ghost v = entry@;
        self.entries.push(entry);
        assert(backend::log_views(self.entries@) =~= backend::log_views(before).push(v));
        let mut parents: Vec<String> = c.parents;
        let ghost old_queue = self.queue@;
        let ghost more = parents@;
        self.queue.append(&mut parents);
        assert(text::texts(self.queue@) =~= text::texts(old_queue) + text::texts(more));
        assert(self@ =~= walk_saw(w, c, now));
    }
}

/// Walks stay sound: asking for the next commit and taking note of it never visit a commit twice
/// and never show more than was asked for.
pub proof fn law_walk_sound(w: WalkView, c: Commit, now: Timestamp)
    requires
        walk_sound(w),
    ensures
        walk_sound(walk_on(w).1),
        walk_on(w).0 is Some ==> {
            &&& !w.visited.contains(walk_on(w).0->0)
            &&& walk_sound(walk_saw(walk_on(w).1, c, now))
        },
    decreases w.queue.len(),
{
    if w.entries.len() < w.limit && w.queue.len() > 0 {
        let rest = WalkView { queue: w.queue.skip(1), ..w };
        if w.visited.contains(w.queue[0]) {
            law_walk_sound(rest, c, now);
        }
    }
}

// ---- bookmarks ----

/// Whether a bookmark of that name may be made.
pub fn check_new_bookmark(names: &Vec<String>, name: &str) -> (out: Result<(), VcsError>)
    ensures
        match out {
            Ok(_) => !text::texts(names@).contains(name@),
            Err(e) => text::texts(names@).contains(name@) && e@ == VcsFault::BookmarkExists(name@),
        },
{
    if paths::listed(names, name) {
        return Err(VcsError::BookmarkExists(text::owned(name)));
    }
    Ok(())
}

/// Whether there is a bookmark of that name to delete.
pub fn check_bookmark(names: &Vec<String>, name: &str) -> (out: Result<(), VcsError>)
    ensures
        match out {
            Ok(_) => text::texts(names@).contains(name@),
            Err(e) => !text::texts(names@).contains(name@) && e@ == VcsFault::BookmarkNotFound(
                name@,
            ),
        },
{
    if !paths::listed(names, name) {
        return Err(VcsError::BookmarkNotFound(text::owned(name)));
    }
    Ok(())
}

/// The bookmarks that are asked for, in the order in which the repository gives them.
pub fn list_bookmarks(names: &Vec<String>, prefix: Option<&str>) -> (out: Vec<String>)
    ensures
        text::texts(out@) == text::texts(names@).filter(
            |n: Seq<char>| backend::wanted(n, task_repo::opt_str(prefix)),
        ),
{
    let ghost all = text::texts(names@);
    let ghost f = |n: Seq<char>| backend::wanted(n, task_repo::opt_str(prefix));
    let mut out: Vec<String> = Vec::new();
    let mut i: usize = 0;
    proof {
        crate::model::lemma_filter_empty(all, f);
        assert(text::texts(out@) =~= all.take(0).filter(f));
    }
    while i < names.len()
        invariant
            i <= names.len(),
            all == text::texts(names@),
            f == (|n: Seq<char>| backend::wanted(n, task_repo::opt_str(prefix))),
            text::texts(out@) == all.take(i as int).filter(f),
        decreases names.len() - i,
    {
        let ghost before = out@;
        proof {
            crate::model::lemma_filter_take(all, f, i as int);
            assert(all[i as int] == names@[i as int]@);
        }
        let asked: bool = match prefix {
            Some(p) => text::starts_with(names[i].as_str(), p),
            None => true,
        };
        if asked {
            out.push(names[i].clone());
            assert(text::texts(out@) =~= text::texts(before).push(names@[i as int]@));
        }
        i += 1;
    }
    proof {
        crate::model::lemma_filter_empty(all, f);
    }
    out
}

// ---- finding a commit ----

/// A bookmark with the commit that it points to; none where it is in conflict.
#[derive(Debug)]
pub struct Bookmark {
    pub name: String,
    pub commit: Option<String>,
}

/// The commit of the first bookmark of that name that is not in conflict.
pub open spec fn bookmarked(bookmarks: Seq<Bookmark>, target: Seq<char>) -> Option<Seq<char>>
    decreases bookmarks.len(),
{
    if bookmarks.len() == 0 {
        None
    } else if bookmarks[0].name@ == target && bookmarks[0].commit is Some {
        text::opt_text(bookmarks[0].commit)
    } else {
        bookmarked(bookmarks.skip(1), target)
    }
}

/// The commit of the first bookmark of that name that is not in conflict.
pub fn resolve_bookmark(bookmarks: &Vec<Bookmark>, target: &str) -> (out: Option<String>)
    ensures
        text::opt_text(out) == bookmarked(bookmarks@, target@),
{
    let mut i: usize = 0;
    assert(bookmarks@.skip(0) =~= bookmarks@);
    while i < bookmarks.len()
        invariant
            i <= bookmarks.len(),
            bookmarked(bookmarks@, target@) == bookmarked(bookmarks@.skip(i as int), target@),
        decreases bookmarks.len() - i,
    {
        assert(bookmarks@.skip(i as int).skip(1) =~= bookmarks@.skip(i + 1));
        if text::same(bookmarks[i].name.as_str(), target) {
            if let Some(c) = &bookmarks[i].commit {
                return Some(c.clone());
            }
        }
        i += 1;
    }
    None
}

/// What the repository finds under the beginning of a change identifier.
#[derive(Debug)]
pub enum PrefixLookup {
    /// The text is no such beginning, or the search failed.
    Unreadable,
    NoMatch,
    Ambiguous,
    /// One change, with the first of its commits where it has one.
    Match(Option<String>),
}

/// What a text stands for where it is no bookmark.
pub fn resolve_prefix(lookup: PrefixLookup, target: &str) -> (out: Result<String, VcsError>)
    ensures
        backend::vcs_outcome(out) == (match lookup {
            PrefixLookup::Match(Some(c)) => Ok(c@),
            PrefixLookup::Ambiguous => Err(
                VcsFault::Jj("ambiguous change ID prefix: "@ + target@),
            ),
            _ => Err(VcsFault::TargetNotFound(target@)),
        }),
{
    match lookup {
        PrefixLookup::Match(Some(c)) => Ok(c),
        PrefixLookup::Ambiguous => Err(
            VcsError::Jj(text::joined("ambiguous change ID prefix: ", target)),
        ),
        _ => Err(VcsError::TargetNotFound(text::owned(target))),
    }
}

} // verus!
