//! What is made of the words of git and of the commits of jj.
use vstd::prelude::*;

use crate::path_laws;
use crate::text;
use crate::text_laws;
use crate::time;
use crate::time::Timestamp;
use crate::vcs::backend;
use crate::vcs::backend::{ChangeType, FileStatusKind, VcsFault, VcsType};
use crate::vcs::git;
use crate::vcs::git::{
    Author, BranchNextView, BranchPhaseView, CommitNextView, CommitPhase, GitReplyView, StatusItem,
};
use crate::vcs::jj;
use crate::vcs::jj::{Bookmark, Commit, WalkView};

verus! {

/// Whether a text is the beginning of another, cut off at a length where that is longer.
pub open spec fn cut(t: Seq<char>, s: Seq<char>, n: nat) -> bool {
    &&& t.is_prefix_of(s)
    &&& s.len() <= n ==> t.len() == s.len()
    &&& s.len() > n ==> t.len() == n
}

// ---- git ----

/// The status lists each difference once, in order. A changed and a staged file is modified, one
/// that is not tracked is untracked, and a moved one is renamed from where it was to where it is. The
/// diff lists the same, where a file that is not tracked is added. The commit is known by its first
/// eight characters.
pub proof fn law_git_status(head: Option<Seq<char>>, items: Seq<StatusItem>, i: int)
    requires
        0 <= i < items.len(),
    ensures
        ({
            let s = git::status_of(head, items);
            let f = s.files[i];
            let d = git::item_change(items[i]);
            &&& s.files.len() == items.len()
            &&& head is None <==> s.working_copy_id is None
            &&& head is Some ==> cut(s.working_copy_id->0, head->0, 8)
            &&& d.path == f.path
            &&& items[i] matches StatusItem::Modification { path } ==> f.path == path@ && f.status
                == FileStatusKind::Modified && d.change_type == ChangeType::Modified
            &&& items[i] matches StatusItem::TreeIndex { path } ==> f.path == path@ && f.status
                == FileStatusKind::Modified && d.change_type == ChangeType::Modified
            &&& items[i] matches StatusItem::DirectoryContents { path } ==> f.path == path@
                && f.status == FileStatusKind::Untracked && d.change_type == ChangeType::Added
            &&& items[i] matches StatusItem::Rewrite { source, target } ==> f.path == source@
                + seq![' ', '-', '>', ' '] + target@ && f.status == FileStatusKind::Renamed
                && d.change_type == ChangeType::Renamed
        }),
{
    reveal_strlit(" -> ");
    assert(" -> "@ =~= seq![' ', '-', '>', ' ']);
}

/// The history shows a commit by the first twelve characters of its identifier, its message without
/// the white space around it, its author and its time; where those are not known, `Unknown` and the
/// present.
pub proof fn law_git_history(
    id: Seq<char>,
    message: Seq<char>,
    author: Option<Author>,
    now: Timestamp,
)
    ensures
        ({
            let e = git::log_entry_of(id, message, author, now);
            &&& cut(e.id, id, 12)
            &&& text_laws::stripped(e.description, message)
            &&& author matches Some(a) ==> e.author == a.name@
            &&& author is None ==> e.author == "Unknown"@ && e.timestamp == now
            &&& author matches Some(a) ==> (a.seconds is None ==> e.timestamp == now)
            &&& author matches Some(a) ==> (a.seconds matches Some(s) ==> {
                &&& time::representable(s as int) ==> e.timestamp.secs == s && e.timestamp.nanos == 0
                &&& !time::representable(s as int) ==> e.timestamp == now
            })
        }),
{
    text_laws::law_trimming(message);
}

/// A commit is made in turn: where the status is blank there is nothing to commit, else everything
/// is added, the message is committed, and the identifier is read. A failure of git ends it, with
/// what git wrote.
pub proof fn law_git_commit(
    phase: CommitPhase,
    message: Seq<char>,
    stdout: Seq<char>,
    stderr: Seq<char>,
    why: Seq<char>,
)
    ensures
        ({
            let ok = git::commit_goes_on(
                phase,
                message,
                GitReplyView::Ran { success: true, stdout, stderr },
            );
            let bad = git::commit_goes_on(
                phase,
                message,
                GitReplyView::Ran { success: false, stdout, stderr },
            );
            let none = git::commit_goes_on(phase, message, GitReplyView::NotRun(why));
            let args = git::commit_arguments(phase, message);
            &&& phase == CommitPhase::Status ==> {
                &&& text_laws::blank(stdout) ==> ok == CommitNextView::Over(
                    Err(VcsFault::NothingToCommit),
                )
                &&& !text_laws::blank(stdout) ==> ok == CommitNextView::Ask(CommitPhase::Add)
                &&& args == seq!["status"@, "--porcelain"@]
            }
            &&& phase == CommitPhase::Add ==> ok == CommitNextView::Ask(CommitPhase::Write) && args
                == seq!["add"@, "-A"@]
            &&& phase == CommitPhase::Write ==> {
                &&& ok == CommitNextView::Ask(CommitPhase::Id)
                &&& args[0] == "commit"@ && path_laws::given(args, "-m"@, message)
            }
            &&& phase == CommitPhase::Id ==> {
                &&& args == seq!["rev-parse"@, "HEAD"@]
                &&& ok matches CommitNextView::Over(Ok(c)) && c.message == message && exists|
                    id: Seq<char>,
                | #[trigger]
                    text_laws::stripped(id, stdout) && cut(c.id, id, 12)
            }
            &&& bad matches CommitNextView::Over(Err(VcsFault::OperationFailed(t))) && text_laws::mentions(
                t,
                stderr,
            )
            &&& none matches CommitNextView::Over(Err(VcsFault::OperationFailed(t))) && text_laws::mentions(
                t,
                why,
            )
        }),
{
    let args = git::commit_arguments(phase, message);
    text_laws::law_trimming(stdout);
    if phase == CommitPhase::Write {
        assert(path_laws::given_at(args, "-m"@, message, 2));
    }
    let empty = Seq::<char>::empty();
    let a = git::commit_error(phase, true);
    let b = git::commit_error(phase, false);
    assert(a + stderr =~= a + stderr + empty);
    assert(b + why =~= b + why + empty);
    if phase == CommitPhase::Id {
        assert(text_laws::stripped(text::trimmed(stdout), stdout));
    }
}

/// The branches are the references under `refs/heads/`, each without that, where they begin with
/// what is asked for.
pub proof fn law_git_branches(
    refs: Seq<Seq<char>>,
    prefix: Option<Seq<char>>,
    name: Seq<char>,
)
    ensures
        git::branches(refs, prefix).contains(name) <==> {
            &&& refs.contains("refs/heads/"@ + name)
            &&& prefix is Some ==> text_laws::begins(name, prefix->0)
        },
        git::branch_exists(refs, name) <==> git::branches(refs, None).contains(name),
    decreases refs.len(),
{
    lemma_branches(refs, prefix, name);
    lemma_branches(refs, None, name);
}

proof fn lemma_branches(refs: Seq<Seq<char>>, prefix: Option<Seq<char>>, name: Seq<char>)
    ensures
        git::branches(refs, prefix).contains(name) <==> {
            &&& refs.contains("refs/heads/"@ + name)
            &&& prefix is Some ==> text_laws::begins(name, prefix->0)
        },
    decreases refs.len(),
{
    reveal_strlit("refs/heads/");
    let heads = "refs/heads/"@;
    let all = git::branches(refs, prefix);
    if prefix is Some {
        text_laws::lemma_begins(name, prefix->0);
    }
    if refs.len() > 0 {
        let before = refs.drop_last();
        let rest = git::branches(before, prefix);
        let r = refs.last();
        lemma_branches(before, prefix, name);
        text_laws::lemma_begins(r, heads);
        assert(refs =~= before.push(r));
        assert(refs.contains(heads + name) <==> before.contains(heads + name) || r == heads + name)
            by {
            if before.contains(heads + name) {
                let i = choose|i: int| 0 <= i < before.len() && before[i] == heads + name;
                assert(refs[i] == heads + name);
            }
            if refs.contains(heads + name) {
                let i = choose|i: int| 0 <= i < refs.len() && refs[i] == heads + name;
                if i < before.len() {
                    assert(before[i] == heads + name);
                }
            }
            if r == heads + name {
                assert(refs[refs.len() - 1] == heads + name);
            }
        }
        if r == heads + name {
            assert(r.skip(11) =~= name);
            assert(text_laws::begins(r, heads));
        }
        if text::has_prefix(r, heads) && backend::wanted(r.skip(11), prefix) {
            assert(all == rest.push(r.skip(11)));
            assert(all.contains(name) <==> rest.contains(name) || r.skip(11) == name) by {
                if rest.contains(name) {
                    let i = choose|i: int| 0 <= i < rest.len() && rest[i] == name;
                    assert(all[i] == name);
                }
                if all.contains(name) {
                    let i = choose|i: int| 0 <= i < all.len() && all[i] == name;
                    if i < rest.len() {
                        assert(rest[i] == name);
                    }
                }
                if r.skip(11) == name {
                    assert(all[all.len() - 1] == name);
                }
            }
        }
    }
}

/// A branch is made where git succeeds. Where git says that it does not know what the branch should
/// point to, that is not found, `HEAD` where nothing is named; any other failure is passed on.
pub proof fn law_git_new_branch(target: Option<Seq<char>>, stdout: Seq<char>, stderr: Seq<char>)
    ensures
        ({
            let bad = git::bookmark_created(
                target,
                GitReplyView::Ran { success: false, stdout, stderr },
            );
            let unknown = text_laws::mentions(stderr, "not a valid object name"@) || text_laws::mentions(
                stderr,
                "unknown revision"@,
            );
            &&& git::bookmark_created(target, GitReplyView::Ran { success: true, stdout, stderr })
                is Ok
            &&& unknown ==> bad == Err::<(), VcsFault>(
                VcsFault::TargetNotFound(
                    if target is Some {
                        target->0
                    } else {
                        "HEAD"@
                    },
                ),
            )
            &&& !unknown ==> (bad matches Err(VcsFault::Git(t)) && text_laws::mentions(t, stderr))
            &&& git::bookmark_created(target, GitReplyView::NotRun(stderr)) matches Err(
                VcsFault::Git(t),
            ) && text_laws::mentions(t, stderr)
        }),
{
    text_laws::lemma_mentions(stderr, "not a valid object name"@);
    text_laws::lemma_mentions(stderr, "unknown revision"@);
    lemma_at_the_end("git branch failed: "@, stderr);
    lemma_at_the_end("failed to run git branch: "@, stderr);
}

proof fn lemma_at_the_end(a: Seq<char>, b: Seq<char>)
    ensures
        text_laws::mentions(a + b, b),
{
    assert(a + b =~= a + b + Seq::<char>::empty());
}

/// Something is checked out where git succeeds. Where git says that it does not know it, it is not
/// found; any other failure is passed on.
pub proof fn law_git_checkout(target: Seq<char>, stdout: Seq<char>, stderr: Seq<char>)
    ensures
        ({
            let bad = git::checked_out(
                target,
                GitReplyView::Ran { success: false, stdout, stderr },
            );
            let unknown = text_laws::mentions(stderr, "did not match any"@) || text_laws::mentions(stderr, "pathspec"@)
                || text_laws::mentions(stderr, "not a valid object name"@);
            &&& git::checked_out(target, GitReplyView::Ran { success: true, stdout, stderr }) is Ok
            &&& unknown ==> bad == Err::<(), VcsFault>(VcsFault::TargetNotFound(target))
            &&& !unknown ==> (bad matches Err(VcsFault::Git(t)) && text_laws::mentions(t, stderr))
            &&& git::checked_out(target, GitReplyView::NotRun(stderr)) matches Err(VcsFault::Git(t))
                && text_laws::mentions(t, stderr)
        }),
{
    text_laws::lemma_mentions(stderr, "did not match any"@);
    text_laws::lemma_mentions(stderr, "pathspec"@);
    text_laws::lemma_mentions(stderr, "not a valid object name"@);
    lemma_at_the_end("git checkout failed: "@, stderr);
    lemma_at_the_end("failed to run git checkout: "@, stderr);
}

/// The current branch is what git names, where there is a commit on it; without a name, a repository
/// with commits is detached, and one without is unborn.
pub proof fn law_git_current_branch(name: Seq<char>, stdout: Seq<char>, stderr: Seq<char>)
    ensures
        ({
            let yes = GitReplyView::Ran { success: true, stdout, stderr };
            let no = GitReplyView::Ran { success: false, stdout, stderr };
            &&& git::branch_goes_on(BranchPhaseView::Name, no) == BranchNextView::Ask(
                BranchPhaseView::Nameless,
            )
            &&& text_laws::blank(stdout) ==> git::branch_goes_on(BranchPhaseView::Name, yes)
                == BranchNextView::Over(Err(VcsFault::DetachedHead))
            &&& !text_laws::blank(stdout) ==> (git::branch_goes_on(
                BranchPhaseView::Name,
                yes,
            ) matches BranchNextView::Ask(BranchPhaseView::Verify(n)) && text_laws::stripped(
                n,
                stdout,
            ))
            &&& git::branch_goes_on(BranchPhaseView::Nameless, yes) == BranchNextView::Over(
                Err(VcsFault::DetachedHead),
            )
            &&& git::branch_goes_on(BranchPhaseView::Nameless, no) == BranchNextView::Over(
                Err(VcsFault::UnbornRepository),
            )
            &&& git::branch_goes_on(BranchPhaseView::Verify(name), yes) == BranchNextView::Over(
                Ok(name),
            )
            &&& git::branch_goes_on(BranchPhaseView::Verify(name), no) == BranchNextView::Over(
                Err(VcsFault::UnbornRepository),
            )
        }),
{
    text_laws::law_trimming(stdout);
}

/// A branch is moved forward where git succeeds, and not moved where git says, in whatever case, that
/// it is not possible to fast-forward; any other failure is an error. Unless it was moved, or git was
/// not run, the source has to be checked out again.
pub proof fn law_git_merge(stdout: Seq<char>, stderr: Seq<char>, why: Seq<char>)
    ensures
        ({
            let no = git::merged(GitReplyView::Ran { success: false, stdout, stderr });
            let said = text::ascii_lower(git::merge_message(stdout, stderr));
            let apart = text_laws::mentions(said, "not possible to fast-forward"@);
            &&& git::merged(GitReplyView::Ran { success: true, stdout, stderr }) == (
                Ok::<bool, VcsFault>(true),
                false,
            )
            &&& apart ==> no == (Ok::<bool, VcsFault>(false), true)
            &&& !apart ==> no.0 is Err && no.0->Err_0 is Git && no.1
            &&& git::merged(GitReplyView::NotRun(why)).0 is Err && !git::merged(
                GitReplyView::NotRun(why),
            ).1
            &&& exists|a: Seq<char>, b: Seq<char>|
                {
                    &&& #[trigger] text_laws::stripped(a, stderr)
                    &&& #[trigger] text_laws::stripped(b, stdout)
                    &&& git::merge_message(stdout, stderr) == a + seq!['\n'] + b
                }
        }),
{
    text_laws::lemma_mentions(
        text::ascii_lower(git::merge_message(stdout, stderr)),
        "not possible to fast-forward"@,
    );
    text_laws::law_trimming(stderr);
    text_laws::law_trimming(stdout);
    reveal_strlit("\n");
    assert("\n"@ =~= seq!['\n']);
    assert(text_laws::stripped(text::trimmed(stderr), stderr));
    assert(text_laws::stripped(text::trimmed(stdout), stdout));
}

/// Whether a message tells of a merge that was not possible does not depend on its case.
pub proof fn law_rejections_in_any_case(message: Seq<char>)
    ensures
        backend::fast_forward_rejected(message) <==> backend::fast_forward_rejected(
            text::ascii_lower(message),
        ),
        text_laws::mentions(message, "not possible to fast-forward"@) ==> backend::fast_forward_rejected(
            message,
        ),
{
    let part = "not possible to fast-forward"@;
    let low = text::ascii_lower(message);
    text_laws::law_lower_case(message);
    reveal_strlit("not possible to fast-forward");
    if text_laws::mentions(message, part) {
        let (a, b) = choose|a: Seq<char>, b: Seq<char>| message == #[trigger] (a + part + b);
        let x = text::ascii_lower(a);
        let y = text::ascii_lower(b);
        assert(text::ascii_lower(part) =~= part);
        assert(low =~= x + part + y);
        text_laws::lemma_mentions(low, part);
    }
}

// ---- jj ----

/// A change is written with two letters of `k` to `z` for each byte, from which the byte can be read
/// back.
pub proof fn law_change_ids(data: Seq<u8>, i: int)
    requires
        0 <= i < data.len(),
    ensures
        ({
            let s = jj::reverse_hex(data);
            let high = 'z' as int - s[2 * i] as int;
            let low = 'z' as int - s[2 * i + 1] as int;
            &&& s.len() == 2 * data.len()
            &&& 0 <= high < 16 && 0 <= low < 16
            &&& data[i] == 16 * high + low
        }),
{
    let s = jj::reverse_hex(data);
    assert((2 * i) % 2 == 0 && (2 * i) / 2 == i);
    assert((2 * i + 1) % 2 == 1 && (2 * i + 1) / 2 == i);
    assert(s[2 * i] == jj::reverse_digit(data[i] as int / 16));
    assert(s[2 * i + 1] == jj::reverse_digit(data[i] as int % 16));
}

/// The working copy of jj is clean where its change is empty; else it is one entry, in conflict or
/// modified. It is known by the first eight letters of the change.
pub proof fn law_jj_status(change: Seq<u8>, is_empty: bool, has_conflict: bool)
    ensures
        ({
            let s = jj::status_of(change, is_empty, has_conflict);
            &&& s.files.len() == 0 <==> is_empty
            &&& !is_empty ==> s.files.len() == 1 && s.files[0].status == (if has_conflict {
                FileStatusKind::Conflict
            } else {
                FileStatusKind::Modified
            })
            &&& s.working_copy_id is Some && cut(s.working_copy_id->0, jj::reverse_hex(change), 8)
        }),
{
}

/// A change of jj is committed where it holds something or is not described yet.
pub proof fn law_jj_commit(is_empty: bool, description: Seq<char>)
    ensures
        jj::worth_committing(is_empty, description) <==> !is_empty || text_laws::blank(description),
{
    text_laws::law_trimming(description);
}

/// The history of jj shows a commit by the first twelve letters of its change, its description
/// without the white space around it, its author, and its time to the millisecond; the present where
/// the time cannot be represented.
pub proof fn law_jj_history(c: Commit, now: Timestamp)
    ensures
        ({
            let e = jj::log_entry_of(c, now);
            let secs = c.millis as int / 1000;
            &&& cut(e.id, jj::reverse_hex(c.change_id@), 12)
            &&& text_laws::stripped(e.description, c.description@)
            &&& e.author == c.author@
            &&& time::representable(secs) ==> c.millis * 1_000_000 == e.timestamp.secs
                * 1_000_000_000 + e.timestamp.nanos && e.timestamp.nanos < 1_000_000_000
            &&& !time::representable(secs) ==> e.timestamp == now
        }),
{
    text_laws::law_trimming(c.description@);
}

/// Whether a commit is the first of a queue that was not visited.
pub open spec fn first_new(w: WalkView, i: int) -> bool {
    &&& 0 <= i < w.queue.len()
    &&& !w.visited.contains(w.queue[i])
    &&& forall|j: int| 0 <= j < i ==> w.visited.contains(#[trigger] w.queue[j])
}

/// A walk asks for the first commit in its queue that it has not visited, and has visited it from
/// then on; it asks for none where it has enough, or has visited all. What it has seen stays.
pub proof fn law_walks_go_on(w: WalkView)
    ensures
        ({
            let (next, v) = jj::walk_on(w);
            &&& v.entries == w.entries && v.limit == w.limit
            &&& w.entries.len() >= w.limit ==> next is None
            &&& (forall|j: int| 0 <= j < w.queue.len() ==> w.visited.contains(#[trigger] w.queue[j]))
                ==> next is None
            &&& next is None ==> v.visited == w.visited && (w.entries.len() >= w.limit || forall|
                j: int,
            |
                0 <= j < w.queue.len() ==> w.visited.contains(#[trigger] w.queue[j]))
            &&& next matches Some(x) ==> v.visited == w.visited.push(x) && exists|i: int| #[trigger]
                first_new(w, i) && w.queue[i] == x && v.queue == w.queue.skip(i + 1)
        }),
    decreases w.queue.len(),
{
    if w.entries.len() < w.limit && w.queue.len() > 0 {
        let rest = WalkView { queue: w.queue.skip(1), ..w };
        if w.visited.contains(w.queue[0]) {
            law_walks_go_on(rest);
            let (next, v) = jj::walk_on(rest);
            if forall|j: int| 0 <= j < w.queue.len() ==> w.visited.contains(#[trigger] w.queue[j]) {
                assert forall|j: int| 0 <= j < rest.queue.len() implies rest.visited.contains(
                    #[trigger] rest.queue[j],
                ) by {
                    assert(rest.queue[j] == w.queue[j + 1]);
                }
            }
            match next {
                Some(x) => {
                    let i = choose|i: int| #[trigger]
                        first_new(rest, i) && rest.queue[i] == x && v.queue == rest.queue.skip(
                            i + 1,
                        );
                    assert(w.queue[i + 1] == rest.queue[i]);
                    assert forall|j: int| 0 <= j < i + 1 implies w.visited.contains(
                        #[trigger] w.queue[j],
                    ) by {
                        if j > 0 {
                            assert(rest.queue[j - 1] == w.queue[j]);
                        }
                    }
                    assert(rest.queue.skip(i + 1) =~= w.queue.skip(i + 2));
                    assert(first_new(w, i + 1));
                },
                None => {
                    assert forall|j: int| 0 <= j < w.queue.len() implies w.visited.contains(
                        #[trigger] w.queue[j],
                    ) by {
                        if j > 0 {
                            assert(rest.queue[j - 1] == w.queue[j]);
                        }
                    }
                },
            }
        } else {
            assert(first_new(w, 0));
        }
    }
}

/// A commit that a walk saw is shown behind those it saw before, and its parents are queued behind
/// those that were queued before.
pub proof fn law_walks_see(w: WalkView, c: Commit, now: Timestamp, k: int)
    ensures
        ({
            let v = jj::walk_saw(w, c, now);
            &&& v.entries.len() == w.entries.len() + 1 && v.entries.take(w.entries.len() as int)
                == w.entries
            &&& cut(v.entries.last().id, jj::reverse_hex(c.change_id@), 12)
            &&& v.queue.len() == w.queue.len() + c.parents@.len()
            &&& 0 <= k < w.queue.len() ==> v.queue[k] == w.queue[k]
            &&& 0 <= k < c.parents@.len() ==> v.queue[w.queue.len() + k] == c.parents@[k]@
            &&& v.visited == w.visited && v.limit == w.limit
        }),
{
    law_jj_history(c, now);
    let v = jj::walk_saw(w, c, now);
    assert(v.entries.take(w.entries.len() as int) =~= w.entries);
}

/// Whether a bookmark is the first of a name that points to a commit.
pub open spec fn first_named(all: Seq<Bookmark>, name: Seq<char>, i: int) -> bool {
    &&& 0 <= i < all.len() && points(all[i], name)
    &&& forall|j: int| 0 <= j < i ==> !points(#[trigger] all[j], name)
}

/// Whether a bookmark has a name and points to a commit.
pub open spec fn points(b: Bookmark, name: Seq<char>) -> bool {
    b.name@ == name && b.commit is Some
}

/// A bookmark stands for the commit of the first of that name that points to one.
pub proof fn law_jj_bookmarks(all: Seq<Bookmark>, name: Seq<char>)
    ensures
        match jj::bookmarked(all, name) {
            Some(c) => exists|i: int| #[trigger] first_named(all, name, i) && all[i].commit->0@ == c,
            None => forall|j: int| 0 <= j < all.len() ==> !points(#[trigger] all[j], name),
        },
    decreases all.len(),
{
    if all.len() > 0 {
        if points(all[0], name) {
            assert(first_named(all, name, 0));
        } else {
            let rest = all.skip(1);
            law_jj_bookmarks(rest, name);
            match jj::bookmarked(rest, name) {
                Some(c) => {
                    let i = choose|i: int| #[trigger]
                        first_named(rest, name, i) && rest[i].commit->0@ == c;
                    assert(all[i + 1] == rest[i]);
                    assert forall|j: int| 0 <= j < i + 1 implies !points(#[trigger] all[j], name) by {
                        if j > 0 {
                            assert(rest[j - 1] == all[j]);
                        }
                    }
                    assert(first_named(all, name, i + 1));
                },
                None => {
                    assert forall|j: int| 0 <= j < all.len() implies !points(
                        #[trigger] all[j],
                        name,
                    ) by {
                        if j > 0 {
                            assert(rest[j - 1] == all[j]);
                        }
                    }
                },
            }
        }
    }
}

// ---- which of them ----

/// The repository around a directory is that of the nearest directory with jj in it, however near
/// git is; where there is none, that of the nearest with git in it.
pub proof fn law_detection(dirs: Seq<Seq<char>>, jj: Seq<Seq<char>>, git: Seq<Seq<char>>)
    ensures
        ({
            let (kind, root) = backend::detected(dirs, jj, git);
            let has_jj = exists|i: int| 0 <= i < dirs.len() && jj.contains(#[trigger] dirs[i]);
            let has_git = exists|i: int| 0 <= i < dirs.len() && git.contains(#[trigger] dirs[i]);
            &&& has_jj ==> kind == VcsType::Jj && exists|i: int| #[trigger]
                path_laws::first_on(dirs, jj, i) && root == Some(dirs[i])
            &&& !has_jj && has_git ==> kind == VcsType::Git && exists|i: int| #[trigger]
                path_laws::first_on(dirs, git, i) && root == Some(dirs[i])
            &&& !has_jj && !has_git ==> kind == VcsType::Absent && root is None
        }),
{
    path_laws::lemma_first_listed(dirs, jj);
    path_laws::lemma_first_listed(dirs, git);
}

} // verus!
