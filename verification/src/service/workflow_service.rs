//! Starting and completing tasks together with the repository.
//!
//! Each operation is a run of steps. A step either asks for one thing to be done in the
//! repository, and goes on with what came of it, or ends the run. The repository comes first:
//! nothing that says a task is started or completed is stored before the repository has done its
//! part.
use vstd::prelude::*;

use crate::db::task_repo;
use crate::error;
use crate::error::{Fault, NotReadyReason, OsError, ReasonView};
use crate::id::{LearningId, TaskId};
use crate::model;
use crate::model::Db;
use crate::service::readiness;
use crate::service::rules;
use crate::service::task_service;
use crate::service::task_service::TaskService;
use crate::text;
use crate::time::Timestamp;
use crate::types::{LifecycleState, RowView, Task, TaskView};
use crate::vcs::backend::{VcsError, VcsFault, VcsType};

verus! {

// ---- what is asked of the repository ----

/// Something to be done in the repository.
#[derive(Debug)]
pub enum VcsAction {
    /// Tell the branch that is checked out.
    CurrentBranchName,
    /// Make a bookmark at the current commit.
    CreateBookmark { name: String },
    /// Check a bookmark or a commit out.
    Checkout { target: String },
    /// Tell the current commit of the task's repository.
    CurrentCommitId,
    /// Tell the commit of the directory that the program runs in, where there is one.
    WorkingCommitId,
    /// Commit all changes.
    Commit { message: String },
    /// Move a branch forward to another one.
    MergeFastForward { source: String, target: String },
    /// Delete a bookmark.
    DeleteBookmark { name: String },
}

/// The view of an action.
pub enum ActionView {
    CurrentBranchName,
    CreateBookmark { name: Seq<char> },
    Checkout { target: Seq<char> },
    CurrentCommitId,
    WorkingCommitId,
    Commit { message: Seq<char> },
    MergeFastForward { source: Seq<char>, target: Seq<char> },
    DeleteBookmark { name: Seq<char> },
}

impl View for VcsAction {
    type V = ActionView;

    open spec fn view(&self) -> ActionView {
        match self {
            VcsAction::CurrentBranchName => ActionView::CurrentBranchName,
            VcsAction::CreateBookmark { name } => ActionView::CreateBookmark { name: name@ },
            VcsAction::Checkout { target } => ActionView::Checkout { target: target@ },
            VcsAction::CurrentCommitId => ActionView::CurrentCommitId,
            VcsAction::WorkingCommitId => ActionView::WorkingCommitId,
            VcsAction::Commit { message } => ActionView::Commit { message: message@ },
            VcsAction::MergeFastForward { source, target } => ActionView::MergeFastForward {
                source: source@,
                target: target@,
            },
            VcsAction::DeleteBookmark { name } => ActionView::DeleteBookmark { name: name@ },
        }
    }
}

/// What came of an action.
#[derive(Debug)]
pub enum VcsReply {
    /// The branch that is checked out.
    Branch(Result<Option<String>, VcsError>),
    /// Whether the action was done.
    Done(Result<(), VcsError>),
    /// A commit.
    Id(Result<String, VcsError>),
    /// A commit, where there is one.
    MaybeId(Option<String>),
    /// Whether the branch could be moved forward.
    Merged(Result<bool, VcsError>),
}

/// The view of what came of an action.
pub enum ReplyView {
    Branch(Result<Option<Seq<char>>, VcsFault>),
    Done(Result<(), VcsFault>),
    Id(Result<Seq<char>, VcsFault>),
    MaybeId(Option<Seq<char>>),
    Merged(Result<bool, VcsFault>),
}

impl View for VcsReply {
    type V = ReplyView;

    open spec fn view(&self) -> ReplyView {
        match self {
            VcsReply::Branch(Ok(b)) => ReplyView::Branch(Ok(text::opt_text(*b))),
            VcsReply::Branch(Err(e)) => ReplyView::Branch(Err(e@)),
            VcsReply::Done(Ok(u)) => ReplyView::Done(Ok(*u)),
            VcsReply::Done(Err(e)) => ReplyView::Done(Err(e@)),
            VcsReply::Id(Ok(s)) => ReplyView::Id(Ok(s@)),
            VcsReply::Id(Err(e)) => ReplyView::Id(Err(e@)),
            VcsReply::MaybeId(s) => ReplyView::MaybeId(text::opt_text(*s)),
            VcsReply::Merged(Ok(b)) => ReplyView::Merged(Ok(*b)),
            VcsReply::Merged(Err(e)) => ReplyView::Merged(Err(e@)),
        }
    }
}

// ---- where a run stands ----

/// What the start of a task waits for.
#[derive(Debug)]
pub enum StartPhase {
    /// The branch, to record it for a task that was started without one.
    Backfill,
    /// The checkout of a task that is started already.
    Recheckout,
    /// The branch that the task is started from.
    Base,
    /// The bookmark.
    Create { base: Option<String> },
    /// The checkout.
    Check { base: Option<String> },
    /// The commit.
    Sha { base: Option<String> },
}

/// The view of what a start waits for.
pub enum StartPhaseView {
    Backfill,
    Recheckout,
    Base,
    Create { base: Option<Seq<char>> },
    Check { base: Option<Seq<char>> },
    Sha { base: Option<Seq<char>> },
}

impl View for StartPhase {
    type V = StartPhaseView;

    open spec fn view(&self) -> StartPhaseView {
        match self {
            StartPhase::Backfill => StartPhaseView::Backfill,
            StartPhase::Recheckout => StartPhaseView::Recheckout,
            StartPhase::Base => StartPhaseView::Base,
            StartPhase::Create { base } => StartPhaseView::Create { base: text::opt_text(*base) },
            StartPhase::Check { base } => StartPhaseView::Check { base: text::opt_text(*base) },
            StartPhase::Sha { base } => StartPhaseView::Sha { base: text::opt_text(*base) },
        }
    }
}

/// What the completion of a task waits for. `id` is the task that is being completed, which is the
/// requested one or one above it.
#[derive(Debug)]
pub enum CompletePhase {
    /// The commit.
    Commit { id: TaskId, milestone: bool },
    /// The merge into the branch that the task was started from.
    Merge { id: TaskId, milestone: bool, source: String, base: String },
    /// The commit to record.
    Sha { id: TaskId, milestone: bool },
    /// The commit to leave the task's bookmark for.
    Head { id: TaskId, milestone: bool },
    /// The checkout of that commit.
    Leave { id: TaskId, milestone: bool, target: String },
    /// The deletion of the first of these bookmarks.
    Delete { id: TaskId, milestone: bool, queue: Vec<(TaskId, String)> },
    /// The commit to record for a parent that is completed with its children.
    ParentSha { id: TaskId },
}

/// The view of a list of bookmarks to delete.
pub open spec fn queue_view(q: Seq<(TaskId, String)>) -> Seq<(TaskId, Seq<char>)> {
    q.map_values(|x: (TaskId, String)| (x.0, x.1@))
}

/// The view of what a completion waits for.
#[verifier::ext_equal]
pub enum CompletePhaseView {
    Commit { id: TaskId, milestone: bool },
    Merge { id: TaskId, milestone: bool, source: Seq<char>, base: Seq<char> },
    Sha { id: TaskId, milestone: bool },
    Head { id: TaskId, milestone: bool },
    Leave { id: TaskId, milestone: bool, target: Seq<char> },
    Delete { id: TaskId, milestone: bool, queue: Seq<(TaskId, Seq<char>)> },
    ParentSha { id: TaskId },
}

impl View for CompletePhase {
    type V = CompletePhaseView;

    open spec fn view(&self) -> CompletePhaseView {
        match self {
            CompletePhase::Commit { id, milestone } => CompletePhaseView::Commit {
                id: *id,
                milestone: *milestone,
            },
            CompletePhase::Merge { id, milestone, source, base } => CompletePhaseView::Merge {
                id: *id,
                milestone: *milestone,
                source: source@,
                base: base@,
            },
            CompletePhase::Sha { id, milestone } => CompletePhaseView::Sha {
                id: *id,
                milestone: *milestone,
            },
            CompletePhase::Head { id, milestone } => CompletePhaseView::Head {
                id: *id,
                milestone: *milestone,
            },
            CompletePhase::Leave { id, milestone, target } => CompletePhaseView::Leave {
                id: *id,
                milestone: *milestone,
                target: target@,
            },
            CompletePhase::Delete { id, milestone, queue } => CompletePhaseView::Delete {
                id: *id,
                milestone: *milestone,
                queue: queue_view(queue@),
            },
            CompletePhase::ParentSha { id } => CompletePhaseView::ParentSha { id: *id },
        }
    }
}

/// The completion of a task under way. Once the requested task is completed, `answer` holds it.
#[derive(Debug)]
pub struct Completion {
    pub result: Option<String>,
    pub learnings: Vec<String>,
    pub answer: Option<Task>,
    pub phase: CompletePhase,
}

/// The view of a completion under way.
#[verifier::ext_equal]
pub struct CompletionView {
    pub result: Option<Seq<char>>,
    pub learnings: Seq<Seq<char>>,
    pub answer: Option<TaskView>,
    pub phase: CompletePhaseView,
}

/// The view of an optional task.
pub open spec fn opt_task(t: Option<Task>) -> Option<TaskView> {
    match t {
        Some(x) => Some(x@),
        None => None,
    }
}

impl View for Completion {
    type V = CompletionView;

    open spec fn view(&self) -> CompletionView {
        CompletionView {
            result: text::opt_text(self.result),
            learnings: text::texts(self.learnings@),
            answer: opt_task(self.answer),
            phase: self.phase@,
        }
    }
}

/// A run that waits for the repository.
#[derive(Debug)]
pub enum Run {
    Start { id: TaskId, phase: StartPhase },
    Complete(Completion),
}

/// The view of a run.
#[verifier::ext_equal]
pub enum RunView {
    Start { id: TaskId, phase: StartPhaseView },
    Complete(CompletionView),
}

impl View for Run {
    type V = RunView;

    open spec fn view(&self) -> RunView {
        match self {
            Run::Start { id, phase } => RunView::Start { id: *id, phase: phase@ },
            Run::Complete(c) => RunView::Complete(c@),
        }
    }
}

/// What comes next in a run.
#[derive(Debug)]
pub enum Next {
    /// The repository has to do something; the run goes on with what comes of it.
    Do { action: VcsAction, run: Run },
    /// The run is over.
    Over(Result<Task, OsError>),
}

/// The view of what comes next.
#[verifier::ext_equal]
pub enum NextView {
    Do { action: ActionView, run: RunView },
    Over(Result<TaskView, Fault>),
}

impl View for Next {
    type V = NextView;

    open spec fn view(&self) -> NextView {
        match self {
            Next::Do { action, run } => NextView::Do { action: action@, run: run@ },
            Next::Over(r) => NextView::Over(error::outcome(*r)),
        }
    }
}

/// A step of a run, with a warning for the user where part of the cleanup did not work.
#[derive(Debug)]
pub struct Step {
    pub warning: Option<String>,
    pub next: Next,
}

/// The view of a step.
#[verifier::ext_equal]
pub struct StepView {
    pub warning: Option<Seq<char>>,
    pub next: NextView,
}

impl View for Step {
    type V = StepView;

    open spec fn view(&self) -> StepView {
        StepView { warning: text::opt_text(self.warning), next: self.next@ }
    }
}

/// Whether a run is one that steps lead to: once the requested task is completed, its answer is
/// there.
pub open spec fn sound(run: RunView) -> bool {
    match run {
        RunView::Start { id, phase } => true,
        RunView::Complete(c) => match c.phase {
            CompletePhaseView::Head { id, milestone } => c.answer is Some,
            CompletePhaseView::Leave { id, milestone, target } => c.answer is Some,
            CompletePhaseView::Delete { id, milestone, queue } => c.answer is Some && queue.len()
                > 0,
            CompletePhaseView::ParentSha { id } => c.answer is Some,
            _ => true,
        },
    }
}

/// Whether the run that a step goes on with, if any, is one that steps lead to.
pub open spec fn sound_step(s: StepView) -> bool {
    match s.next {
        NextView::Do { action, run } => sound(run),
        NextView::Over(r) => true,
    }
}

/// Whether something came back that the run waits for.
pub open spec fn fits(run: RunView, reply: ReplyView) -> bool {
    match run {
        RunView::Start { id, phase } => match phase {
            StartPhaseView::Backfill => reply is Branch,
            StartPhaseView::Recheckout => reply is Done,
            StartPhaseView::Base => reply is Branch,
            StartPhaseView::Create { base } => reply is Done,
            StartPhaseView::Check { base } => reply is Done,
            StartPhaseView::Sha { base } => reply is Id,
        },
        RunView::Complete(c) => match c.phase {
            CompletePhaseView::Commit { id, milestone } => reply is Done,
            CompletePhaseView::Merge { id, milestone, source, base } => reply is Merged,
            CompletePhaseView::Sha { id, milestone } => reply is MaybeId,
            CompletePhaseView::Head { id, milestone } => reply is Id,
            CompletePhaseView::Leave { id, milestone, target } => reply is Done,
            CompletePhaseView::Delete { id, milestone, queue } => reply is Done,
            CompletePhaseView::ParentSha { id } => reply is MaybeId,
        },
    }
}

// ---- starting ----

/// The bookmark of a task: the one that is recorded, else one named after the task.
pub open spec fn bookmark_of(d: Db, id: TaskId) -> Seq<char> {
    match d.row(id).bookmark {
        Some(b) => b,
        None => "task/"@ + id.text(),
    }
}

/// A list of identifiers, separated by commas.
pub open spec fn ids_joined(ids: Seq<TaskId>) -> Seq<char>
    decreases ids.len(),
{
    if ids.len() == 0 {
        Seq::empty()
    } else if ids.len() == 1 {
        ids[0].text()
    } else {
        ids_joined(ids.drop_last()) + ", "@ + ids.last().text()
    }
}

/// The blockers of a task that are not completed.
pub open spec fn open_blockers(d: Db, id: TaskId) -> Seq<TaskId> {
    d.blockers_of(id).filter(|b: TaskId| !(d.has(b) && d.row(b).completed))
}

/// Why a task cannot be started although it is active: it is blocked, or not the next ready task
/// under itself.
pub open spec fn target_fault(d: Db, id: TaskId) -> Option<Fault> {
    let description = d.row(id).description;
    if d.effectively_blocked(id) {
        let blockers = open_blockers(d, id);
        let next = readiness::next_among(d, d.roots_ordered());
        Some(
            Fault::NotNextReady {
                message: "Cannot start '"@ + description + "' - blocked by "@ + ids_joined(blockers)
                    + ". "@ + (match next {
                    Some(n) => "Start '"@ + n.text() + "' instead."@,
                    None => "No ready tasks available."@,
                }),
                requested: id,
                next_ready: next,
                reason: ReasonView::Blocked { blockers },
            },
        )
    } else {
        match readiness::next_under(d, id, 3) {
            Some(n) => if n == id {
                None
            } else {
                Some(
                    Fault::NotNextReady {
                        message: "Cannot start '"@ + description
                            + "' - has incomplete children. Start '"@ + d.row(n).description
                            + "' instead."@,
                        requested: id,
                        next_ready: Some(n),
                        reason: ReasonView::HasIncompleteChildren,
                    },
                )
            },
            None => Some(
                Fault::NotNextReady {
                    message: "Cannot start '"@ + description
                        + "' - no ready tasks in subtree (all complete or blocked)."@,
                    requested: id,
                    next_ready: None,
                    reason: ReasonView::NoReadyTasksInSubtree,
                },
            ),
        }
    }
}

/// Why a task that is not active cannot be started.
pub open spec fn inactive_fault(s: LifecycleState) -> Option<Fault> {
    match s {
        LifecycleState::Completed => Some(Fault::CannotStartCompleted),
        LifecycleState::Cancelled => Some(Fault::CannotStartCancelled),
        LifecycleState::Archived => Some(Fault::CannotModifyArchived),
        _ => None,
    }
}

/// A step that ends the run.
pub open spec fn over(r: Result<TaskView, Fault>) -> StepView {
    StepView { warning: None, next: NextView::Over(r) }
}

/// A step that goes on in the start of a task.
pub open spec fn start_on(action: ActionView, id: TaskId, phase: StartPhaseView) -> StepView {
    StepView { warning: None, next: NextView::Do { action, run: RunView::Start { id, phase } } }
}

/// The start of a task begins.
pub open spec fn begin_start(d: Db, git: bool, id: TaskId) -> StepView {
    if !d.has(id) {
        over(Err(Fault::TaskNotFound(id)))
    } else if inactive_fault(d.row(id).state()) is Some {
        over(Err(inactive_fault(d.row(id).state())->0))
    } else if d.row(id).started_at is Some && d.row(id).bookmark is Some {
        if d.row(id).base_ref is None && git {
            start_on(ActionView::CurrentBranchName, id, StartPhaseView::Backfill)
        } else {
            start_on(
                ActionView::Checkout { target: bookmark_of(d, id) },
                id,
                StartPhaseView::Recheckout,
            )
        }
    } else if target_fault(d, id) is Some {
        over(Err(target_fault(d, id)->0))
    } else if git {
        start_on(ActionView::CurrentBranchName, id, StartPhaseView::Base)
    } else {
        start_on(
            ActionView::CreateBookmark { name: bookmark_of(d, id) },
            id,
            StartPhaseView::Create { base: None },
        )
    }
}

/// The start of what is to be started for a task begins.
pub open spec fn begin_follow(d: Db, git: bool, root: TaskId) -> StepView {
    match readiness::resolve(d, root, Seq::empty()) {
        Ok(target) => begin_start(d, git, target),
        Err(f) => over(Err(f)),
    }
}

/// The tasks above a task are marked as started where they are not.
pub open spec fn bubbled_start(d: Db, id: TaskId, now: Timestamp, levels: nat) -> Db
    decreases levels,
{
    if levels == 0 {
        d
    } else {
        match d.parent(id) {
            None => d,
            Some(p) => {
                let e = if d.row(p).started_at is None {
                    d.starting(p, now)
                } else {
                    d
                };
                bubbled_start(e, p, now, (levels - 1) as nat)
            },
        }
    }
}

/// What is stored when a task is started: its bookmark, its commit, its branch, and the time, for
/// it and for the tasks above it.
pub open spec fn started(
    d: Db,
    id: TaskId,
    sha: Seq<char>,
    base: Option<Seq<char>>,
    now: Timestamp,
) -> Db {
    let a = d.with_bookmark(id, Some(bookmark_of(d, id)), now);
    let b = a.with_start_commit(id, sha, now);
    let c = match base {
        Some(r) => b.with_base_ref(id, r, now),
        None => b,
    };
    let e = if d.row(id).started_at is None {
        c.starting(id, now)
    } else {
        c
    };
    bubbled_start(e, id, now, 2)
}

/// The start of a task goes on.
pub open spec fn resume_start(
    d: Db,
    id: TaskId,
    phase: StartPhaseView,
    reply: ReplyView,
    now: Timestamp,
) -> (Db, StepView) {
    if !d.has(id) {
        (d, over(Err(Fault::TaskNotFound(id))))
    } else {
        let bookmark = bookmark_of(d, id);
        match (phase, reply) {
            (StartPhaseView::Backfill, ReplyView::Branch(r)) => match r {
                Err(e) => (d, over(Err(error::fault_of_vcs(e)))),
                Ok(None) => (d, over(Err(Fault::CannotStartDetachedHead))),
                Ok(Some(b)) => if b == bookmark {
                    (d, over(Err(Fault::MissingBaseRef { task_id: id })))
                } else {
                    (
                        d.with_base_ref(id, b, now),
                        start_on(
                            ActionView::Checkout { target: bookmark },
                            id,
                            StartPhaseView::Recheckout,
                        ),
                    )
                },
            },
            (StartPhaseView::Recheckout, ReplyView::Done(r)) => match r {
                Err(e) => (d, over(Err(error::fault_of_vcs(e)))),
                Ok(_) => (d, over(rules::get(d, id))),
            },
            (StartPhaseView::Base, ReplyView::Branch(r)) => match r {
                Err(e) => (d, over(Err(error::fault_of_vcs(e)))),
                Ok(None) => (d, over(Err(Fault::CannotStartDetachedHead))),
                Ok(Some(b)) => (
                    d,
                    start_on(
                        ActionView::CreateBookmark { name: bookmark },
                        id,
                        StartPhaseView::Create { base: Some(b) },
                    ),
                ),
            },
            (StartPhaseView::Create { base }, ReplyView::Done(r)) => {
                let go = (
                    d,
                    start_on(
                        ActionView::Checkout { target: bookmark },
                        id,
                        StartPhaseView::Check { base },
                    ),
                );
                match r {
                    Ok(_) => go,
                    Err(VcsFault::BookmarkExists(_)) => go,
                    Err(e) => (d, over(Err(error::fault_of_vcs(e)))),
                }
            },
            (StartPhaseView::Check { base }, ReplyView::Done(r)) => match r {
                Err(e) => (d, over(Err(error::fault_of_vcs(e)))),
                Ok(_) => (
                    d,
                    start_on(ActionView::CurrentCommitId, id, StartPhaseView::Sha { base }),
                ),
            },
            (StartPhaseView::Sha { base }, ReplyView::Id(r)) => match r {
                Err(e) => (d, over(Err(error::fault_of_vcs(e)))),
                Ok(sha) => {
                    let e = started(d, id, sha, base, now);
                    (e, over(rules::get(e, id)))
                },
            },
            _ => vstd::pervasive::arbitrary(),
        }
    }
}

// ---- completing ----

/// The message of the commit that completes a task.
pub open spec fn commit_message(d: Db, id: TaskId, milestone: bool, result: Option<Seq<char>>) -> Seq<
    char,
> {
    (if milestone {
        "Milestone: "@
    } else {
        "Complete: "@
    }) + d.row(id).description + "\n\n"@ + (match result {
        Some(r) => r,
        None => Seq::empty(),
    })
}

/// A step that goes on in a completion.
pub open spec fn complete_on(
    action: ActionView,
    c: CompletionView,
    phase: CompletePhaseView,
    warning: Option<Seq<char>>,
) -> StepView {
    StepView {
        warning,
        next: NextView::Do {
            action,
            run: RunView::Complete(CompletionView { phase, ..c }),
        },
    }
}

/// The result of the task that is being completed: the requested one has the given result, those
/// above it have none.
pub open spec fn result_now(c: CompletionView) -> Option<Seq<char>> {
    if c.answer is None {
        c.result
    } else {
        None
    }
}

/// The learnings of the task that is being completed.
pub open spec fn learnings_now(c: CompletionView) -> Seq<Seq<char>> {
    if c.answer is None {
        c.learnings
    } else {
        Seq::empty()
    }
}

/// A completion begins with the commit, for a task that can be completed.
pub open spec fn begin_commit(d: Db, id: TaskId, c: CompletionView) -> StepView {
    let milestone = d.depth(id) == 0;
    complete_on(
        ActionView::Commit { message: commit_message(d, id, milestone, result_now(c)) },
        c,
        CompletePhaseView::Commit { id, milestone },
        None,
    )
}

/// A new completion.
pub open spec fn fresh_completion(
    id: TaskId,
    result: Option<Seq<char>>,
    learnings: Seq<Seq<char>>,
) -> CompletionView {
    CompletionView {
        result,
        learnings,
        answer: None,
        phase: CompletePhaseView::Commit { id, milestone: false },
    }
}

/// The completion of a task begins. A completed task is answered as it is.
pub open spec fn begin_complete(
    d: Db,
    id: TaskId,
    result: Option<Seq<char>>,
    learnings: Seq<Seq<char>>,
) -> StepView {
    if !d.has(id) {
        over(Err(Fault::TaskNotFound(id)))
    } else if d.row(id).archived {
        over(Err(Fault::CannotCompleteArchived))
    } else if d.row(id).cancelled {
        over(Err(Fault::CannotCompleteCancelled))
    } else if d.row(id).completed {
        over(Ok(rules::full_task(d, id)))
    } else {
        begin_commit(d, id, fresh_completion(id, result, learnings))
    }
}

/// The answer that a completion has by now.
pub open spec fn answered(c: CompletionView) -> StepView {
    over(Ok(c.answer->0))
}

/// Whether nothing stands in the way of completing a task after one below it: none of its children
/// is pending and it is not blocked.
pub open spec fn settled(d: Db, id: TaskId) -> bool {
    !d.has_pending_children(id) && !d.effectively_blocked(id)
}

/// After everything under a milestone is completed, the milestone is.
pub open spec fn complete_above(d: Db, id: TaskId, c: CompletionView) -> StepView {
    if d.row(id).archived {
        over(Err(Fault::CannotCompleteArchived))
    } else if d.row(id).cancelled {
        over(Err(Fault::CannotCompleteCancelled))
    } else if d.row(id).completed {
        answered(c)
    } else {
        begin_commit(d, id, c)
    }
}

/// After a task is completed, its parent is too, where none of its children is pending and it is
/// not blocked. A task that was completed before is completed again, so that what was learned below
/// it is passed on; one that was cancelled stays so, and the completion ends there.
pub open spec fn bubble_up(d: Db, id: TaskId, c: CompletionView) -> StepView {
    match d.parent(id) {
        None => answered(c),
        Some(p) => if !settled(d, p) {
            answered(c)
        } else if d.depth(p) == 0 {
            complete_above(d, p, c)
        } else if d.row(p).cancelled {
            answered(c)
        } else {
            complete_on(
                ActionView::WorkingCommitId,
                c,
                CompletePhaseView::ParentSha { id: p },
                None,
            )
        },
    }
}

/// A step with a warning added.
pub open spec fn warned(s: StepView, warning: Option<Seq<char>>) -> StepView {
    StepView { warning, ..s }
}

/// After the cleanup: a milestone is done, for another task its parent is looked at.
pub open spec fn after_cleanup(
    d: Db,
    id: TaskId,
    milestone: bool,
    c: CompletionView,
    warning: Option<Seq<char>>,
) -> StepView {
    if milestone {
        warned(answered(c), warning)
    } else {
        warned(bubble_up(d, id, c), warning)
    }
}

/// In a git repository a task with a bookmark is merged into the branch that it was started from
/// before it counts as completed.
pub open spec fn gate(d: Db, git: bool, id: TaskId, milestone: bool, c: CompletionView) -> StepView {
    if git && d.row(id).bookmark is Some {
        match d.row(id).base_ref {
            None => over(Err(Fault::MissingBaseRef { task_id: id })),
            Some(base) => complete_on(
                ActionView::MergeFastForward { source: d.row(id).bookmark->0, target: base },
                c,
                CompletePhaseView::Merge { id, milestone, source: d.row(id).bookmark->0, base },
                None,
            ),
        }
    } else {
        complete_on(
            ActionView::WorkingCommitId,
            c,
            CompletePhaseView::Sha { id, milestone },
            None,
        )
    }
}

/// The first of these tasks that has a start commit.
pub open spec fn first_start_commit(d: Db, ids: Seq<TaskId>) -> Option<Seq<char>>
    decreases ids.len(),
{
    if ids.len() == 0 {
        None
    } else {
        match first_start_commit(d, ids.drop_last()) {
            Some(s) => Some(s),
            None => d.row(ids.last()).start_commit,
        }
    }
}

/// The commit to leave a task's bookmark for: the current one, else the one at which the task was
/// started, else, for a milestone, one at which a task below it was started.
pub open spec fn leave_target(
    d: Db,
    id: TaskId,
    milestone: bool,
    head: Result<Seq<char>, VcsFault>,
) -> Option<Seq<char>> {
    match head {
        Ok(h) => Some(h),
        Err(_) => match d.row(id).start_commit {
            Some(s) => Some(s),
            None => if milestone {
                first_start_commit(d, d.descendants(id))
            } else {
                None
            },
        },
    }
}

/// The bookmarks of these tasks, with the tasks.
pub open spec fn bookmarked(d: Db, ids: Seq<TaskId>) -> Seq<(TaskId, Seq<char>)>
    decreases ids.len(),
{
    if ids.len() == 0 {
        Seq::empty()
    } else {
        let rest = bookmarked(d, ids.drop_last());
        match d.row(ids.last()).bookmark {
            Some(b) => rest.push((ids.last(), b)),
            None => rest,
        }
    }
}

/// The bookmarks to delete: the task's own, for a milestone after those of all tasks below it.
pub open spec fn cleanup_queue(d: Db, id: TaskId, milestone: bool) -> Seq<(TaskId, Seq<char>)> {
    if milestone {
        bookmarked(d, d.descendants(id).push(id))
    } else {
        bookmarked(d, seq![id])
    }
}

/// The next bookmark is deleted, or the cleanup is over.
pub open spec fn next_delete(
    d: Db,
    id: TaskId,
    milestone: bool,
    queue: Seq<(TaskId, Seq<char>)>,
    c: CompletionView,
    warning: Option<Seq<char>>,
) -> StepView {
    if queue.len() == 0 {
        after_cleanup(d, id, milestone, c, warning)
    } else {
        complete_on(
            ActionView::DeleteBookmark { name: queue[0].1 },
            c,
            CompletePhaseView::Delete { id, milestone, queue },
            warning,
        )
    }
}

/// The warning for a bookmark that could not be deleted.
pub open spec fn delete_warning(owner: TaskId, id: TaskId, milestone: bool, name: Seq<char>, e: VcsFault) -> Seq<
    char,
> {
    (if milestone && owner == id {
        "warn: failed to delete milestone bookmark "@
    } else {
        "warn: failed to delete bookmark "@
    }) + name + ": "@ + e.message()
}

/// The warning for a task whose bookmark cannot be left.
pub open spec fn no_target_warning(d: Db, id: TaskId, milestone: bool) -> Seq<char> {
    if milestone {
        "warn: no checkout target available - skipping milestone branch cleanup"@
    } else {
        "warn: no checkout target available - skipping branch cleanup for "@ + (match d.row(
            id,
        ).bookmark {
            Some(b) => b,
            None => Seq::empty(),
        })
    }
}

/// The task that a phase is about.
pub open spec fn phase_id(p: CompletePhaseView) -> TaskId {
    match p {
        CompletePhaseView::Commit { id, milestone } => id,
        CompletePhaseView::Merge { id, milestone, source, base } => id,
        CompletePhaseView::Sha { id, milestone } => id,
        CompletePhaseView::Head { id, milestone } => id,
        CompletePhaseView::Leave { id, milestone, target } => id,
        CompletePhaseView::Delete { id, milestone, queue } => id,
        CompletePhaseView::ParentSha { id } => id,
    }
}

/// The completion of a task goes on.
pub open spec fn resume_complete(
    d: Db,
    git: bool,
    c: CompletionView,
    reply: ReplyView,
    ids: Seq<LearningId>,
    now: Timestamp,
) -> (Db, StepView) {
    if !d.has(phase_id(c.phase)) {
        (d, over(Err(Fault::TaskNotFound(phase_id(c.phase)))))
    } else {
        match (c.phase, reply) {
            (CompletePhaseView::Commit { id, milestone }, ReplyView::Done(r)) => match r {
                Ok(_) => (d, gate(d, git, id, milestone, c)),
                Err(VcsFault::NothingToCommit) => (d, gate(d, git, id, milestone, c)),
                Err(e) => (d, over(Err(error::fault_of_vcs(e)))),
            },
            (
                CompletePhaseView::Merge { id, milestone, source, base },
                ReplyView::Merged(r),
            ) => match r {
                Err(e) => (d, over(Err(error::fault_of_vcs(e)))),
                Ok(merged) => if merged {
                    (
                        d,
                        complete_on(
                            ActionView::WorkingCommitId,
                            c,
                            CompletePhaseView::Sha { id, milestone },
                            None,
                        ),
                    )
                } else {
                    (
                        d,
                        over(
                            Err(
                                Fault::TaskIntegrationRequired {
                                    task_id: id,
                                    source_ref: source,
                                    base_ref: base,
                                },
                            ),
                        ),
                    )
                },
            },
            (CompletePhaseView::Sha { id, milestone }, ReplyView::MaybeId(sha)) => {
                let (e, r) = rules::complete(d, id, result_now(c), learnings_now(c), sha, ids, now);
                match r {
                    Err(f) => (e, over(Err(f))),
                    Ok(t) => {
                        let c2 = CompletionView {
                            answer: if c.answer is None {
                                Some(t)
                            } else {
                                c.answer
                            },
                            ..c
                        };
                        if milestone || d.row(id).bookmark is Some {
                            (
                                e,
                                complete_on(
                                    ActionView::CurrentCommitId,
                                    c2,
                                    CompletePhaseView::Head { id, milestone },
                                    None,
                                ),
                            )
                        } else {
                            (e, bubble_up(e, id, c2))
                        }
                    },
                }
            },
            (CompletePhaseView::Head { id, milestone }, ReplyView::Id(head)) => {
                match leave_target(d, id, milestone, head) {
                    Some(target) => (
                        d,
                        complete_on(
                            ActionView::Checkout { target },
                            c,
                            CompletePhaseView::Leave { id, milestone, target },
                            None,
                        ),
                    ),
                    None => (
                        d,
                        after_cleanup(
                            d,
                            id,
                            milestone,
                            c,
                            Some(no_target_warning(d, id, milestone)),
                        ),
                    ),
                }
            },
            (CompletePhaseView::Leave { id, milestone, target }, ReplyView::Done(r)) => match r {
                Err(e) => (
                    d,
                    after_cleanup(
                        d,
                        id,
                        milestone,
                        c,
                        Some(
                            "warn: failed to checkout "@ + target + ": "@ + e.message()
                                + " - skipping branch cleanup"@,
                        ),
                    ),
                ),
                Ok(_) => (
                    d,
                    next_delete(d, id, milestone, cleanup_queue(d, id, milestone), c, None),
                ),
            },
            (CompletePhaseView::Delete { id, milestone, queue }, ReplyView::Done(r)) => {
                let rest = queue.drop_first();
                match r {
                    Ok(_) => {
                        let e = d.with_bookmark(queue[0].0, None, now);
                        (e, next_delete(e, id, milestone, rest, c, None))
                    },
                    Err(f) => (
                        d,
                        next_delete(
                            d,
                            id,
                            milestone,
                            rest,
                            c,
                            Some(delete_warning(queue[0].0, id, milestone, queue[0].1, f)),
                        ),
                    ),
                }
            },
            (CompletePhaseView::ParentSha { id }, ReplyView::MaybeId(sha)) => {
                let (e, r) = rules::complete(d, id, None, Seq::empty(), sha, ids, now);
                match r {
                    Err(f) => (e, over(Err(f))),
                    Ok(_) => (e, bubble_up(e, id, c)),
                }
            },
            _ => vstd::pervasive::arbitrary(),
        }
    }
}

// ---- carrying the steps out ----

/// A step that ends the run.
fn over_step(r: Result<Task, OsError>) -> (out: Step)
    ensures
        out@ == over(error::outcome(r)),
{
    Step { warning: None, next: Next::Over(r) }
}

/// A step that goes on in the start of a task.
fn start_step(action: VcsAction, id: TaskId, phase: StartPhase) -> (out: Step)
    ensures
        out@ == start_on(action@, id, phase@),
{
    Step { warning: None, next: Next::Do { action, run: Run::Start { id, phase } } }
}

/// A step that goes on in a completion.
fn complete_step(action: VcsAction, c: Completion, phase: CompletePhase, warning: Option<String>) -> (out:
    Step)
    ensures
        out@ == complete_on(action@, c@, phase@, text::opt_text(warning)),
{
    let run = Run::Complete(
        Completion { result: c.result, learnings: c.learnings, answer: c.answer, phase },
    );
    Step { warning, next: Next::Do { action, run } }
}

/// A list of identifiers, separated by commas.
fn join_ids(ids: &Vec<TaskId>) -> (out: String)
    ensures
        out@ == ids_joined(ids@),
{
    let mut out: String = String::new();
    let mut i: usize = 0;
    assert(ids@.take(0) =~= Seq::<TaskId>::empty());
    while i < ids.len()
        invariant
            i <= ids.len(),
            out@ == ids_joined(ids@.take(i as int)),
        decreases ids.len() - i,
    {
        let ghost before = out@;
        if i > 0 {
            out.append(", ");
        }
        out.append(ids[i].to_text().as_str());
        proof {
            let t = ids@.take(i + 1);
            assert(t.drop_last() =~= ids@.take(i as int));
            assert(t.last() == ids@[i as int]);
            if i == 0 {
                assert(out@ =~= ids@[0].text());
            }
        }
        i += 1;
    }
    assert(ids@.take(ids@.len() as int) =~= ids@);
    out
}

/// Starting and completing tasks in a repository of the given kind.
pub struct TaskWorkflowService {
    pub task_service: TaskService,
    pub vcs_type: VcsType,
}

impl View for TaskWorkflowService {
    type V = Db;

    open spec fn view(&self) -> Db {
        self.task_service@
    }
}

impl TaskWorkflowService {
    /// A service on the given tasks, in a repository of the given kind.
    pub fn new(task_service: TaskService, vcs_type: VcsType) -> (out: TaskWorkflowService)
        ensures
            out@ == task_service@,
            out.vcs_type == vcs_type,
    {
        TaskWorkflowService { task_service, vcs_type }
    }

    /// The operations on the tasks.
    pub fn task_service(&self) -> (out: &TaskService)
        ensures
            out@ == self@,
    {
        &self.task_service
    }

    /// Whether the repository is a git repository.
    pub open spec fn git(&self) -> bool {
        self.vcs_type == VcsType::Git
    }

    fn is_git(&self) -> (out: bool)
        ensures
            out == self.git(),
    {
        self.vcs_type == VcsType::Git
    }

    /// The bookmark of a task.
    fn bookmark_for(&self, id: TaskId) -> (out: String)
        requires
            self@.wf(),
            self@.has(id),
        ensures
            out@ == bookmark_of(self@, id),
    {
        match task_repo::get_bookmark(&self.task_service.store, &id) {
            Some(b) => b,
            None => text::joined("task/", id.to_text().as_str()),
        }
    }

    /// The description of a task.
    fn description_of(&self, id: TaskId) -> (out: String)
        requires
            self@.wf(),
            self@.has(id),
        ensures
            out@ == self@.row(id).description,
    {
        match self.task_service.store.find(id) {
            Some(i) => self.task_service.store.tasks[i].description.clone(),
            None => String::new(),
        }
    }

    /// The blockers of a task that are not completed.
    fn open_blockers_of(&self, id: TaskId) -> (out: Vec<TaskId>)
        requires
            self@.wf(),
        ensures
            out@ == open_blockers(self@, id),
    {
        let ghost d = self@;
        let ghost f = |b: TaskId| !(d.has(b) && d.row(b).completed);
        let blockers: Vec<TaskId> = task_repo::get_blockers(&self.task_service.store, &id);
        let mut out: Vec<TaskId> = Vec::new();
        let mut i: usize = 0;
        proof {
            model::lemma_filter_empty(blockers@, f);
        }
        while i < blockers.len()
            invariant
                i <= blockers.len(),
                d == self@,
                d.wf(),
                f == (|b: TaskId| !(d.has(b) && d.row(b).completed)),
                out@ == blockers@.take(i as int).filter(f),
            decreases blockers.len() - i,
        {
            proof {
                model::lemma_filter_take(blockers@, f, i as int);
            }
            if !task_repo::is_task_completed(&self.task_service.store, &blockers[i]) {
                out.push(blockers[i]);
            }
            i += 1;
        }
        proof {
            model::lemma_filter_empty(blockers@, f);
        }
        out
    }

    /// Whether a task is the next ready one under itself.
    pub fn validate_start_target(&self, id: &TaskId) -> (out: Result<(), OsError>)
        requires
            self@.wf(),
            self@.has(*id),
        ensures
            match out {
                Ok(_) => target_fault(self@, *id) is None,
                Err(e) => target_fault(self@, *id) == Some(e@),
            },
    {
        let ghost d = self@;
        let description: String = self.description_of(*id);
        if self.task_service.chain_is_blocked(*id) {
            let blockers: Vec<TaskId> = self.open_blockers_of(*id);
            let next: Option<TaskId> = match self.task_service.next_ready(None) {
                Ok(n) => n,
                Err(_) => None,
            };
            let mut message: String = text::joined("Cannot start '", description.as_str());
            message.append("' - blocked by ");
            message.append(join_ids(&blockers).as_str());
            message.append(". ");
            match next {
                Some(n) => {
                    let mut hint: String = text::joined("Start '", n.to_text().as_str());
                    hint.append("' instead.");
                    message.append(hint.as_str());
                },
                None => {
                    message.append("No ready tasks available.");
                },
            }
            let err = OsError::NotNextReady {
                message,
                requested: *id,
                next_ready: next,
                reason: NotReadyReason::Blocked { blockers },
            };
            assert(Some(err@) =~= target_fault(d, *id));
            return Err(err);
        }
        proof {
            model::lemma_chain_step(d, *id);
        }
        match self.task_service.next_ready(Some(id)) {
            Err(_) => Ok(()),
            Ok(Some(ready)) => {
                if ready == *id {
                    return Ok(());
                }
                proof {
                    readiness::lemma_next_under(d, *id, 3);
                }
                let mut message: String = text::joined("Cannot start '", description.as_str());
                message.append("' - has incomplete children. Start '");
                message.append(self.description_of(ready).as_str());
                message.append("' instead.");
                Err(
                    OsError::NotNextReady {
                        message,
                        requested: *id,
                        next_ready: Some(ready),
                        reason: NotReadyReason::HasIncompleteChildren,
                    },
                )
            },
            Ok(None) => {
                let mut message: String = text::joined("Cannot start '", description.as_str());
                message.append("' - no ready tasks in subtree (all complete or blocked).");
                Err(
                    OsError::NotNextReady {
                        message,
                        requested: *id,
                        next_ready: None,
                        reason: NotReadyReason::NoReadyTasksInSubtree,
                    },
                )
            },
        }
    }

    /// Begins the start of a task.
    pub fn start(&self, id: &TaskId) -> (out: Step)
        requires
            self@.wf(),
        ensures
            out@ == begin_start(self@, self.git(), *id),
            sound_step(out@),
    {
        let i: usize = match self.task_service.store.find(*id) {
            Some(i) => i,
            None => {
                return over_step(Err(OsError::TaskNotFound(*id)));
            },
        };
        let task: Task = self.task_service.store.tasks[i].to_task();
        match task.lifecycle_state() {
            LifecycleState::Completed => {
                return over_step(Err(OsError::CannotStartCompleted));
            },
            LifecycleState::Cancelled => {
                return over_step(Err(OsError::CannotStartCancelled));
            },
            LifecycleState::Archived => {
                return over_step(Err(OsError::CannotModifyArchived));
            },
            _ => {},
        }
        let bookmark: String = self.bookmark_for(*id);
        if task.started_at.is_some() && task.bookmark.is_some() {
            if task.base_ref.is_none() && self.is_git() {
                return start_step(VcsAction::CurrentBranchName, *id, StartPhase::Backfill);
            }
            return start_step(
                VcsAction::Checkout { target: bookmark },
                *id,
                StartPhase::Recheckout,
            );
        }
        if let Err(e) = self.validate_start_target(id) {
            return over_step(Err(e));
        }
        if self.is_git() {
            start_step(VcsAction::CurrentBranchName, *id, StartPhase::Base)
        } else {
            start_step(
                VcsAction::CreateBookmark { name: bookmark },
                *id,
                StartPhase::Create { base: None },
            )
        }
    }

    /// Begins the start of what is to be started for a task, following blockers.
    pub fn start_follow_blockers(&self, root: &TaskId) -> (out: Step)
        requires
            self@.wf(),
        ensures
            out@ == begin_follow(self@, self.git(), *root),
            sound_step(out@),
    {
        match self.task_service.resolve_start_target(root) {
            Ok(target) => self.start(&target),
            Err(e) => over_step(Err(e)),
        }
    }

    /// Marks the tasks above a task as started where they are not.
    fn bubble_start_to_ancestors(&mut self, id: TaskId, levels: usize, now: Timestamp)
        requires
            old(self)@.wf(),
        ensures
            final(self)@.wf(),
            final(self)@ == bubbled_start(old(self)@, id, now, levels as nat),
            final(self).vcs_type == old(self).vcs_type,
        decreases levels,
    {
        if levels == 0 {
            return;
        }
        let store = &self.task_service.store;
        if let Some(p) = task_repo::get_parent(store, id) {
            proof {
                model::lemma_up_has(self@, id, 1);
                assert(self@.up(id, 0) == Some(id));
            }
            if let Some(i) = store.find(p) {
                if store.tasks[i].started_at.is_none() {
                    let _ = self.task_service.start_at(&p, now);
                }
            }
            self.bubble_start_to_ancestors(p, levels - 1, now);
        }
    }

    /// Stores that a task is started, for it and for the tasks above it.
    fn record_start(&mut self, id: TaskId, sha: &str, base: &Option<String>, now: Timestamp)
        requires
            old(self)@.wf(),
            old(self)@.has(id),
        ensures
            final(self)@.wf(),
            final(self)@ == started(old(self)@, id, sha@, text::opt_text(*base), now),
            final(self).vcs_type == old(self).vcs_type,
    {
        let ghost d = self@;
        let bookmark: String = self.bookmark_for(id);
        let fresh: bool = match self.task_service.store.find(id) {
            Some(i) => self.task_service.store.tasks[i].started_at.is_none(),
            None => false,
        };
        task_repo::set_bookmark(&mut self.task_service.store, &id, bookmark.as_str(), now);
        task_repo::set_start_commit(&mut self.task_service.store, &id, sha, now);
        if let Some(b) = base {
            task_repo::set_base_ref(&mut self.task_service.store, &id, b.as_str(), now);
        }
        let ghost c = self@;
        if fresh {
            let _ = self.task_service.start_at(&id, now);
        }
        self.bubble_start_to_ancestors(id, 2, now);
    }

    /// Goes on with the start of a task.
    fn resume_start_at(&mut self, id: TaskId, phase: StartPhase, reply: VcsReply, now: Timestamp) -> (out:
        Step)
        requires
            old(self)@.wf(),
            fits((RunView::Start { id, phase: phase@ }), reply@),
        ensures
            final(self)@.wf(),
            (final(self)@, out@) == resume_start(old(self)@, id, phase@, reply@, now),
            sound_step(out@),
            final(self).vcs_type == old(self).vcs_type,
    {
        if !task_repo::task_exists(&self.task_service.store, &id) {
            return over_step(Err(OsError::TaskNotFound(id)));
        }
        let bookmark: String = self.bookmark_for(id);
        match (phase, reply) {
            (StartPhase::Backfill, VcsReply::Branch(r)) => match r {
                Err(e) => over_step(Err(OsError::from(e))),
                Ok(None) => over_step(Err(OsError::CannotStartDetachedHead)),
                Ok(Some(b)) => {
                    if text::same(b.as_str(), bookmark.as_str()) {
                        return over_step(Err(OsError::MissingBaseRef { task_id: id }));
                    }
                    task_repo::set_base_ref(&mut self.task_service.store, &id, b.as_str(), now);
                    start_step(
                        VcsAction::Checkout { target: bookmark },
                        id,
                        StartPhase::Recheckout,
                    )
                },
            },
            (StartPhase::Recheckout, VcsReply::Done(r)) => match r {
                Err(e) => over_step(Err(OsError::from(e))),
                Ok(_) => over_step(self.task_service.get(&id)),
            },
            (StartPhase::Base, VcsReply::Branch(r)) => match r {
                Err(e) => over_step(Err(OsError::from(e))),
                Ok(None) => over_step(Err(OsError::CannotStartDetachedHead)),
                Ok(Some(b)) => start_step(
                    VcsAction::CreateBookmark { name: bookmark },
                    id,
                    StartPhase::Create { base: Some(b) },
                ),
            },
            (StartPhase::Create { base }, VcsReply::Done(r)) => match r {
                Ok(_) => start_step(
                    VcsAction::Checkout { target: bookmark },
                    id,
                    StartPhase::Check { base },
                ),
                Err(VcsError::BookmarkExists(_)) => start_step(
                    VcsAction::Checkout { target: bookmark },
                    id,
                    StartPhase::Check { base },
                ),
                Err(e) => over_step(Err(OsError::from(e))),
            },
            (StartPhase::Check { base }, VcsReply::Done(r)) => match r {
                Err(e) => over_step(Err(OsError::from(e))),
                Ok(_) => start_step(VcsAction::CurrentCommitId, id, StartPhase::Sha { base }),
            },
            (StartPhase::Sha { base }, VcsReply::Id(r)) => match r {
                Err(e) => over_step(Err(OsError::from(e))),
                Ok(sha) => {
                    self.record_start(id, sha.as_str(), &base, now);
                    over_step(self.task_service.get(&id))
                },
            },
            _ => vstd::pervasive::unreached(),
        }
    }

    /// The message of the commit that completes a task.
    fn commit_message_for(&self, id: TaskId, milestone: bool, result: Option<&str>) -> (out: String)
        requires
            self@.wf(),
            self@.has(id),
        ensures
            out@ == commit_message(self@, id, milestone, task_repo::opt_str(result)),
    {
        let mut out: String = if milestone {
            text::owned("Milestone: ")
        } else {
            text::owned("Complete: ")
        };
        out.append(self.description_of(id).as_str());
        out.append("\n\n");
        if let Some(r) = result {
            out.append(r);
        }
        assert(out@ =~= commit_message(self@, id, milestone, task_repo::opt_str(result)));
        out
    }

    /// Begins a completion with the commit.
    fn commit_first(&self, id: TaskId, c: Completion) -> (out: Step)
        requires
            self@.wf(),
            self@.has(id),
        ensures
            out@ == begin_commit(self@, id, c@),
            sound_step(out@),
    {
        let milestone: bool = task_repo::get_task_depth(&self.task_service.store, &id) == 0;
        let message: String = match (&c.answer, &c.result) {
            (None, Some(r)) => self.commit_message_for(id, milestone, Some(r.as_str())),
            _ => self.commit_message_for(id, milestone, None),
        };
        complete_step(
            VcsAction::Commit { message },
            c,
            CompletePhase::Commit { id, milestone },
            None,
        )
    }

    /// Begins the completion of a task, with learnings.
    pub fn complete_with_learnings(
        &self,
        id: &TaskId,
        result: Option<&str>,
        learnings: &Vec<String>,
    ) -> (out: Step)
        requires
            self@.wf(),
        ensures
            out@ == begin_complete(
                self@,
                *id,
                task_repo::opt_str(result),
                text::texts(learnings@),
            ),
            sound_step(out@),
    {
        let i: usize = match self.task_service.store.find(*id) {
            Some(i) => i,
            None => {
                return over_step(Err(OsError::TaskNotFound(*id)));
            },
        };
        let row = &self.task_service.store.tasks[i];
        if row.archived {
            return over_step(Err(OsError::CannotCompleteArchived));
        }
        if row.cancelled {
            return over_step(Err(OsError::CannotCompleteCancelled));
        }
        if row.completed {
            return over_step(self.task_service.get(id));
        }
        let c = Completion {
            result: match result {
                Some(r) => Some(text::owned(r)),
                None => None,
            },
            learnings: text::clone_strings(learnings),
            answer: None,
            phase: CompletePhase::Commit { id: *id, milestone: false },
        };
        assert(c@ =~= fresh_completion(*id, task_repo::opt_str(result), text::texts(learnings@)));
        self.commit_first(*id, c)
    }

    /// Begins the completion of a task, without learnings.
    pub fn complete(&self, id: &TaskId, result: Option<&str>) -> (out: Step)
        requires
            self@.wf(),
        ensures
            out@ == begin_complete(self@, *id, task_repo::opt_str(result), Seq::empty()),
            sound_step(out@),
    {
        let none: Vec<String> = Vec::new();
        assert(text::texts(none@) =~= Seq::<Seq<char>>::empty());
        self.complete_with_learnings(id, result, &none)
    }

    /// Begins the completion of a milestone, with learnings. Another task is completed as such.
    pub fn complete_milestone_with_learnings(
        &self,
        id: &TaskId,
        result: Option<&str>,
        learnings: &Vec<String>,
    ) -> (out: Step)
        requires
            self@.wf(),
        ensures
            out@ == begin_complete(
                self@,
                *id,
                task_repo::opt_str(result),
                text::texts(learnings@),
            ),
            sound_step(out@),
    {
        self.complete_with_learnings(id, result, learnings)
    }

    /// Begins the completion of a milestone, without learnings.
    pub fn complete_milestone(&self, id: &TaskId, result: Option<&str>) -> (out: Step)
        requires
            self@.wf(),
        ensures
            out@ == begin_complete(self@, *id, task_repo::opt_str(result), Seq::empty()),
            sound_step(out@),
    {
        self.complete(id, result)
    }

    /// The answer of a completion, which is over.
    fn answer_step(&self, c: Completion, warning: Option<String>) -> (out: Step)
        requires
            c@.answer is Some,
        ensures
            out@ == warned(answered(c@), text::opt_text(warning)),
    {
        match c.answer {
            Some(t) => Step { warning, next: Next::Over(Ok(t)) },
            None => vstd::pervasive::unreached(),
        }
    }

    /// Whether nothing stands in the way of completing a task after one below it.
    fn is_settled(&self, id: TaskId) -> (out: bool)
        requires
            self@.wf(),
            self@.has(id),
        ensures
            out == settled(self@, id),
    {
        !task_repo::has_pending_children(&self.task_service.store, &id)
            && !self.task_service.chain_is_blocked(id)
    }

    /// Completes the milestone above a completed task.
    fn milestone_step(&self, m: TaskId, c: Completion, warning: Option<String>) -> (out: Step)
        requires
            self@.wf(),
            self@.has(m),
            c@.answer is Some,
        ensures
            out@ == warned(complete_above(self@, m, c@), text::opt_text(warning)),
            sound_step(out@),
    {
        let store = &self.task_service.store;
        if let Some(i) = store.find(m) {
            let row = &store.tasks[i];
            if row.archived {
                return Step { warning, next: Next::Over(Err(OsError::CannotCompleteArchived)) };
            }
            if row.cancelled {
                return Step { warning, next: Next::Over(Err(OsError::CannotCompleteCancelled)) };
            }
            if row.completed {
                return self.answer_step(c, warning);
            }
        }
        let step: Step = self.commit_first(m, c);
        Step { warning, next: step.next }
    }

    /// Looks at the parent of a completed task.
    fn bubble_up_completion(&self, id: TaskId, c: Completion, warning: Option<String>) -> (out: Step)
        requires
            self@.wf(),
            self@.has(id),
            c@.answer is Some,
        ensures
            out@ == warned(bubble_up(self@, id, c@), text::opt_text(warning)),
            sound_step(out@),
    {
        let store = &self.task_service.store;
        let p: TaskId = match task_repo::get_parent(store, id) {
            None => {
                return self.answer_step(c, warning);
            },
            Some(p) => p,
        };
        proof {
            model::lemma_depth_child(self@, id);
        }
        if !self.is_settled(p) {
            return self.answer_step(c, warning);
        }
        if task_repo::get_task_depth(store, &p) == 0 {
            return self.milestone_step(p, c, warning);
        }
        if let Some(i) = store.find(p) {
            if store.tasks[i].cancelled {
                return self.answer_step(c, warning);
            }
        }
        complete_step(
            VcsAction::WorkingCommitId,
            c,
            CompletePhase::ParentSha { id: p },
            warning,
        )
    }

    /// Goes on after the cleanup.
    fn finish_cleanup(&self, id: TaskId, milestone: bool, c: Completion, warning: Option<String>) -> (out:
        Step)
        requires
            self@.wf(),
            self@.has(id),
            c@.answer is Some,
        ensures
            out@ == after_cleanup(self@, id, milestone, c@, text::opt_text(warning)),
            sound_step(out@),
    {
        if milestone {
            self.answer_step(c, warning)
        } else {
            self.bubble_up_completion(id, c, warning)
        }
    }

    /// Asks for the merge into the branch that a task was started from, where there has to be one.
    pub fn enforce_git_integration_gate(&self, id: TaskId, milestone: bool, c: Completion) -> (out:
        Step)
        requires
            self@.wf(),
            self@.has(id),
        ensures
            out@ == gate(self@, self.git(), id, milestone, c@),
            sound_step(out@),
    {
        let store = &self.task_service.store;
        if self.is_git() {
            if let Some(i) = store.find(id) {
                if let Some(bookmark) = &store.tasks[i].bookmark {
                    return match &store.tasks[i].base_ref {
                        None => over_step(Err(OsError::MissingBaseRef { task_id: id })),
                        Some(base) => complete_step(
                            VcsAction::MergeFastForward {
                                source: bookmark.clone(),
                                target: base.clone(),
                            },
                            c,
                            CompletePhase::Merge {
                                id,
                                milestone,
                                source: bookmark.clone(),
                                base: base.clone(),
                            },
                            None,
                        ),
                    };
                }
            }
        }
        complete_step(
            VcsAction::WorkingCommitId,
            c,
            CompletePhase::Sha { id, milestone },
            None,
        )
    }

    /// The start commit of a task.
    fn start_commit_of(&self, id: TaskId) -> (out: Option<String>)
        requires
            self@.wf(),
            self@.has(id),
        ensures
            text::opt_text(out) == self@.row(id).start_commit,
    {
        match self.task_service.store.find(id) {
            Some(i) => text::clone_opt(&self.task_service.store.tasks[i].start_commit),
            None => None,
        }
    }

    /// The first of these tasks that has a start commit.
    fn find_start_commit(&self, ids: &Vec<TaskId>) -> (out: Option<String>)
        requires
            self@.wf(),
            forall|i: int| 0 <= i < ids.len() ==> self@.has(#[trigger] ids@[i]),
        ensures
            text::opt_text(out) == first_start_commit(self@, ids@),
    {
        let ghost d = self@;
        let mut i: usize = 0;
        assert(ids@.take(0) =~= Seq::<TaskId>::empty());
        while i < ids.len()
            invariant
                i <= ids.len(),
                d == self@,
                d.wf(),
                forall|i: int| 0 <= i < ids.len() ==> d.has(#[trigger] ids@[i]),
                first_start_commit(d, ids@.take(i as int)) is None,
            decreases ids.len() - i,
        {
            assert(d.has(ids@[i as int]));
            proof {
                let t = ids@.take(i + 1);
                assert(t.drop_last() =~= ids@.take(i as int));
                assert(t.last() == ids@[i as int]);
            }
            if let Some(s) = self.start_commit_of(ids[i]) {
                proof {
                    lemma_first_start_commit_prefix(d, ids@, i + 1);
                }
                return Some(s);
            }
            i += 1;
        }
        assert(ids@.take(ids@.len() as int) =~= ids@);
        None
    }

    /// The commit to leave a task's bookmark for.
    fn leave_target_for(&self, id: TaskId, milestone: bool, head: Result<String, VcsError>) -> (out:
        Option<String>)
        requires
            self@.wf(),
            self@.has(id),
        ensures
            text::opt_text(out) == leave_target(self@, id, milestone, reply_id(head)),
    {
        if let Ok(h) = head {
            return Some(h);
        }
        if let Some(s) = self.start_commit_of(id) {
            return Some(s);
        }
        if !milestone {
            return None;
        }
        let below: Vec<TaskId> = task_repo::descendant_ids(&self.task_service.store, id);
        proof {
            assert forall|i: int| 0 <= i < below.len() implies self@.has(#[trigger] below@[i]) by {
                assert(below@.contains(below@[i]));
                model::lemma_descendants(self@, id, below@[i]);
            }
        }
        self.find_start_commit(&below)
    }

    /// The bookmarks to delete.
    fn cleanup_list(&self, id: TaskId, milestone: bool) -> (out: Vec<(TaskId, String)>)
        requires
            self@.wf(),
            self@.has(id),
        ensures
            queue_view(out@) == cleanup_queue(self@, id, milestone),
    {
        let ghost d = self@;
        let mut ids: Vec<TaskId> = Vec::new();
        if milestone {
            ids = task_repo::descendant_ids(&self.task_service.store, id);
        }
        proof {
            assert forall|i: int| 0 <= i < ids.len() implies d.has(#[trigger] ids@[i]) by {
                assert(ids@.contains(ids@[i]));
                model::lemma_descendants(d, id, ids@[i]);
            }
        }
        let ghost below = ids@;
        ids.push(id);
        proof {
            if !milestone {
                assert(ids@ =~= seq![id]);
            }
            assert forall|i: int| 0 <= i < ids.len() implies d.has(#[trigger] ids@[i]) by {
                if i < below.len() {
                    assert(ids@[i] == below[i]);
                }
            }
        }
        let mut out: Vec<(TaskId, String)> = Vec::new();
        let mut i: usize = 0;
        proof {
            assert(ids@.take(0) =~= Seq::<TaskId>::empty());
            assert(queue_view(out@) =~= bookmarked(d, ids@.take(0)));
        }
        while i < ids.len()
            invariant
                i <= ids.len(),
                d == self@,
                d.wf(),
                forall|i: int| 0 <= i < ids.len() ==> d.has(#[trigger] ids@[i]),
                queue_view(out@) == bookmarked(d, ids@.take(i as int)),
            decreases ids.len() - i,
        {
            assert(d.has(ids@[i as int]));
            let ghost before = out@;
            proof {
                let t = ids@.take(i + 1);
                assert(t.drop_last() =~= ids@.take(i as int));
                assert(t.last() == ids@[i as int]);
            }
            if let Some(b) = task_repo::get_bookmark(&self.task_service.store, &ids[i]) {
                let ghost v = b@;
                out.push((ids[i], b));
                assert(queue_view(out@) =~= queue_view(before).push((ids@[i as int], v)));
            }
            i += 1;
        }
        assert(ids@.take(ids@.len() as int) =~= ids@);
        out
    }

    /// Asks for the deletion of the next bookmark, or goes on after the cleanup.
    fn delete_next(
        &self,
        id: TaskId,
        milestone: bool,
        queue: Vec<(TaskId, String)>,
        c: Completion,
        warning: Option<String>,
    ) -> (out: Step)
        requires
            self@.wf(),
            self@.has(id),
            c@.answer is Some,
        ensures
            out@ == next_delete(
                self@,
                id,
                milestone,
                queue_view(queue@),
                c@,
                text::opt_text(warning),
            ),
            sound_step(out@),
    {
        if queue.len() == 0 {
            return self.finish_cleanup(id, milestone, c, warning);
        }
        let name: String = queue[0].1.clone();
        complete_step(
            VcsAction::DeleteBookmark { name },
            c,
            CompletePhase::Delete { id, milestone, queue },
            warning,
        )
    }

    /// Completes a task in the tables and goes on with its cleanup, or with its parent.
    #[verifier::spinoff_prover]
    #[verifier::rlimit(40)]
    fn record_completion(
        &mut self,
        id: TaskId,
        milestone: bool,
        c: Completion,
        sha: Option<String>,
        ids: &Vec<LearningId>,
        now: Timestamp,
    ) -> (out: Step)
        requires
            old(self)@.wf(),
            old(self)@.has(id),
            ids.len() >= rules::ids_needed(old(self)@, c@.learnings.len()),
            c@.phase == (CompletePhaseView::Sha { id, milestone }),
        ensures
            final(self)@.wf(),
            (final(self)@, out@) == resume_complete(
                old(self)@,
                old(self).git(),
                c@,
                ReplyView::MaybeId(text::opt_text(sha)),
                ids@,
                now,
            ),
            sound_step(out@),
            final(self).vcs_type == old(self).vcs_type,
    {
        let ghost d = self@;
        let has_bookmark: bool = task_repo::get_bookmark(&self.task_service.store, &id).is_some();
        let own: bool = c.answer.is_none();
        let none: Vec<String> = Vec::new();
        assert(text::texts(none@) =~= Seq::<Seq<char>>::empty());
        let sha_str: Option<&str> = match &sha {
            Some(s) => Some(s.as_str()),
            None => None,
        };
        let done: Result<Task, OsError> = if own {
            let result: Option<&str> = match &c.result {
                Some(r) => Some(r.as_str()),
                None => None,
            };
            self.task_service.complete_at(&id, result, &c.learnings, sha_str, ids, now)
        } else {
            self.task_service.complete_at(&id, None, &none, sha_str, ids, now)
        };
        match done {
            Err(e) => over_step(Err(e)),
            Ok(t) => {
                proof {
                    lemma_complete_has(
                        d,
                        id,
                        result_now(c@),
                        learnings_now(c@),
                        text::opt_text(sha),
                        ids@,
                        now,
                    );
                }
                let c2 = Completion {
                    result: c.result,
                    learnings: c.learnings,
                    answer: if own {
                        Some(t)
                    } else {
                        c.answer
                    },
                    phase: c.phase,
                };
                if milestone || has_bookmark {
                    complete_step(
                        VcsAction::CurrentCommitId,
                        c2,
                        CompletePhase::Head { id, milestone },
                        None,
                    )
                } else {
                    self.bubble_up_completion(id, c2, None)
                }
            },
        }
    }

    /// Stores that the parent of a completed task is completed, and goes on from there.
    fn record_parent(
        &mut self,
        id: TaskId,
        c: Completion,
        sha: Option<String>,
        ids: &Vec<LearningId>,
        now: Timestamp,
    ) -> (out: Step)
        requires
            old(self)@.wf(),
            old(self)@.has(id),
            ids.len() >= rules::ids_needed(old(self)@, c@.learnings.len()),
            c@.phase == (CompletePhaseView::ParentSha { id }),
            c@.answer is Some,
        ensures
            final(self)@.wf(),
            (final(self)@, out@) == resume_complete(
                old(self)@,
                old(self).git(),
                c@,
                ReplyView::MaybeId(text::opt_text(sha)),
                ids@,
                now,
            ),
            sound_step(out@),
            final(self).vcs_type == old(self).vcs_type,
    {
        let ghost d = self@;
        let none: Vec<String> = Vec::new();
        assert(text::texts(none@) =~= Seq::<Seq<char>>::empty());
        let sha_str: Option<&str> = match &sha {
            Some(s) => Some(s.as_str()),
            None => None,
        };
        match self.task_service.complete_at(&id, None, &none, sha_str, ids, now) {
            Err(e) => over_step(Err(e)),
            Ok(_) => {
                proof {
                    lemma_complete_has(d, id, None, Seq::empty(), text::opt_text(sha), ids@, now);
                }
                self.bubble_up_completion(id, c, None)
            },
        }
    }

    /// Goes on with the completion of a task.
    fn resume_complete_at(
        &mut self,
        c: Completion,
        reply: VcsReply,
        ids: &Vec<LearningId>,
        now: Timestamp,
    ) -> (out: Step)
        requires
            old(self)@.wf(),
            sound(RunView::Complete(c@)),
            fits(RunView::Complete(c@), reply@),
            ids.len() >= rules::ids_needed(old(self)@, c@.learnings.len()),
        ensures
            final(self)@.wf(),
            (final(self)@, out@) == resume_complete(
                old(self)@,
                old(self).git(),
                c@,
                reply@,
                ids@,
                now,
            ),
            sound_step(out@),
            final(self).vcs_type == old(self).vcs_type,
    {
        let ghost d = self@;
        let ghost cv = c@;
        let about: TaskId = match &c.phase {
            CompletePhase::Commit { id, milestone: _ } => *id,
            CompletePhase::Merge { id, milestone: _, source: _, base: _ } => *id,
            CompletePhase::Sha { id, milestone: _ } => *id,
            CompletePhase::Head { id, milestone: _ } => *id,
            CompletePhase::Leave { id, milestone: _, target: _ } => *id,
            CompletePhase::Delete { id, milestone: _, queue: _ } => *id,
            CompletePhase::ParentSha { id } => *id,
        };
        if !task_repo::task_exists(&self.task_service.store, &about) {
            return over_step(Err(OsError::TaskNotFound(about)));
        }
        let Completion { result, learnings, answer, phase } = c;
        match (phase, reply) {
            (CompletePhase::Commit { id, milestone }, VcsReply::Done(r)) => {
                let rest = Completion {
                    result,
                    learnings,
                    answer,
                    phase: CompletePhase::Commit { id, milestone },
                };
                match r {
                    Ok(_) => self.enforce_git_integration_gate(id, milestone, rest),
                    Err(VcsError::NothingToCommit) => self.enforce_git_integration_gate(
                        id,
                        milestone,
                        rest,
                    ),
                    Err(e) => over_step(Err(OsError::from(e))),
                }
            },
            (
                CompletePhase::Merge { id, milestone, source, base },
                VcsReply::Merged(r),
            ) => match r {
                Err(e) => over_step(Err(OsError::from(e))),
                Ok(merged) => {
                    if merged {
                        let rest = Completion {
                            result,
                            learnings,
                            answer,
                            phase: CompletePhase::Sha { id, milestone },
                        };
                        complete_step(
                            VcsAction::WorkingCommitId,
                            rest,
                            CompletePhase::Sha { id, milestone },
                            None,
                        )
                    } else {
                        over_step(
                            Err(
                                OsError::TaskIntegrationRequired {
                                    task_id: id,
                                    source_ref: source,
                                    base_ref: base,
                                },
                            ),
                        )
                    }
                },
            },
            (CompletePhase::Sha { id, milestone }, VcsReply::MaybeId(sha)) => {
                let rest = Completion {
                    result,
                    learnings,
                    answer,
                    phase: CompletePhase::Sha { id, milestone },
                };
                self.record_completion(id, milestone, rest, sha, ids, now)
            },
            (CompletePhase::Head { id, milestone }, VcsReply::Id(head)) => {
                let rest = Completion {
                    result,
                    learnings,
                    answer,
                    phase: CompletePhase::Head { id, milestone },
                };
                match self.leave_target_for(id, milestone, head) {
                    Some(target) => {
                        let to: String = target.clone();
                        complete_step(
                            VcsAction::Checkout { target: to },
                            rest,
                            CompletePhase::Leave { id, milestone, target },
                            None,
                        )
                    },
                    None => {
                        let warning: String = self.no_target_text(id, milestone);
                        self.finish_cleanup(id, milestone, rest, Some(warning))
                    },
                }
            },
            (CompletePhase::Leave { id, milestone, target }, VcsReply::Done(r)) => {
                match r {
                    Err(e) => {
                        let mut warning: String = text::joined(
                            "warn: failed to checkout ",
                            target.as_str(),
                        );
                        warning.append(": ");
                        warning.append(e.message().as_str());
                        warning.append(" - skipping branch cleanup");
                        let rest = Completion {
                            result,
                            learnings,
                            answer,
                            phase: CompletePhase::Leave { id, milestone, target },
                        };
                        self.finish_cleanup(id, milestone, rest, Some(warning))
                    },
                    Ok(_) => {
                        let queue: Vec<(TaskId, String)> = self.cleanup_list(id, milestone);
                        let rest = Completion {
                            result,
                            learnings,
                            answer,
                            phase: CompletePhase::Leave { id, milestone, target },
                        };
                        self.delete_next(id, milestone, queue, rest, None)
                    },
                }
            },
            (CompletePhase::Delete { id, milestone, queue }, VcsReply::Done(r)) => {
                let ghost q = queue_view(queue@);
                let owner: TaskId = queue[0].0;
                let name: String = queue[0].1.clone();
                let mut left: Vec<(TaskId, String)> = queue;
                let ghost qs = left@;
                left.remove(0);
                assert(queue_view(left@) =~= q.drop_first());
                match r {
                    Ok(_) => {
                        task_repo::clear_bookmark(&mut self.task_service.store, &owner, now);
                        proof {
                            if d.has(owner) {
                                model::lemma_row(d, owner);
                                let r = RowView { bookmark: None, updated_at: now, ..d.row(owner) };
                                model::lemma_with_row(d, owner, r);
                            }
                        }
                        let rest = Completion {
                            result,
                            learnings,
                            answer,
                            phase: CompletePhase::Head { id, milestone },
                        };
                        proof {
                            lemma_next_delete_phase(self@, id, milestone, q.drop_first(), rest@, cv, None);
                        }
                        self.delete_next(id, milestone, left, rest, None)
                    },
                    Err(e) => {
                        let mut warning: String = if milestone && owner == id {
                            text::owned("warn: failed to delete milestone bookmark ")
                        } else {
                            text::owned("warn: failed to delete bookmark ")
                        };
                        warning.append(name.as_str());
                        warning.append(": ");
                        warning.append(e.message().as_str());
                        let rest = Completion {
                            result,
                            learnings,
                            answer,
                            phase: CompletePhase::Head { id, milestone },
                        };
                        proof {
                            lemma_next_delete_phase(
                                self@,
                                id,
                                milestone,
                                q.drop_first(),
                                rest@,
                                cv,
                                Some(warning@),
                            );
                        }
                        self.delete_next(id, milestone, left, rest, Some(warning))
                    },
                }
            },
            (CompletePhase::ParentSha { id }, VcsReply::MaybeId(sha)) => {
                let rest = Completion {
                    result,
                    learnings,
                    answer,
                    phase: CompletePhase::ParentSha { id },
                };
                self.record_parent(id, rest, sha, ids, now)
            },
            _ => vstd::pervasive::unreached(),
        }
    }

    /// The warning for a task whose bookmark cannot be left.
    fn no_target_text(&self, id: TaskId, milestone: bool) -> (out: String)
        requires
            self@.wf(),
            self@.has(id),
        ensures
            out@ == no_target_warning(self@, id, milestone),
    {
        if milestone {
            return text::owned(
                "warn: no checkout target available - skipping milestone branch cleanup",
            );
        }
        let bookmark: String = match task_repo::get_bookmark(&self.task_service.store, &id) {
            Some(b) => b,
            None => String::new(),
        };
        text::joined(
            "warn: no checkout target available - skipping branch cleanup for ",
            bookmark.as_str(),
        )
    }

    /// Goes on with a run.
    pub fn resume_at(
        &mut self,
        run: Run,
        reply: VcsReply,
        ids: &Vec<LearningId>,
        now: Timestamp,
    ) -> (out: Step)
        requires
            old(self)@.wf(),
            sound(run@),
            fits(run@, reply@),
            ids.len() >= rules::ids_needed(old(self)@, learnings_in(run@)),
        ensures
            final(self)@.wf(),
            (final(self)@, out@) == resume(old(self)@, old(self).git(), run@, reply@, ids@, now),
            sound_step(out@),
            final(self).vcs_type == old(self).vcs_type,
    {
        match run {
            Run::Start { id, phase } => self.resume_start_at(id, phase, reply, now),
            Run::Complete(c) => self.resume_complete_at(c, reply, ids, now),
        }
    }

    /// Goes on with a run, now.
    pub fn resume(&mut self, run: Run, reply: VcsReply) -> (out: Step)
        requires
            old(self)@.wf(),
            sound(run@),
            fits(run@, reply@),
        ensures
            final(self)@.wf(),
            exists|ids: Seq<LearningId>, now: Timestamp|
                ids.len() >= rules::ids_needed(old(self)@, learnings_in(run@)) && (
                    final(self)@,
                    out@,
                ) == #[trigger] resume(old(self)@, old(self).git(), run@, reply@, ids, now),
            sound_step(out@),
            final(self).vcs_type == old(self).vcs_type,
    {
        let texts: usize = match &run {
            Run::Start { id: _, phase: _ } => 0,
            Run::Complete(c) => c.learnings.len(),
        };
        let ids: Vec<LearningId> = task_service::fresh_ids(
            texts,
            self.task_service.store.learnings.len(),
        );
        let now: Timestamp = crate::time::now();
        self.resume_at(run, reply, &ids, now)
    }
}

/// The texts that a run still has to store as learnings.
pub open spec fn learnings_in(run: RunView) -> nat {
    match run {
        RunView::Start { id, phase } => 0,
        RunView::Complete(c) => c.learnings.len(),
    }
}

/// A run goes on.
pub open spec fn resume(
    d: Db,
    git: bool,
    run: RunView,
    reply: ReplyView,
    ids: Seq<LearningId>,
    now: Timestamp,
) -> (Db, StepView) {
    match run {
        RunView::Start { id, phase } => resume_start(d, id, phase, reply, now),
        RunView::Complete(c) => resume_complete(d, git, c, reply, ids, now),
    }
}

/// The view of a commit that was asked for.
pub open spec fn reply_id(r: Result<String, VcsError>) -> Result<Seq<char>, VcsFault> {
    match r {
        Ok(s) => Ok(s@),
        Err(e) => Err(e@),
    }
}

proof fn lemma_first_start_commit_prefix(d: Db, ids: Seq<TaskId>, n: int)
    requires
        0 <= n <= ids.len(),
        first_start_commit(d, ids.take(n)) is Some,
    ensures
        first_start_commit(d, ids) == first_start_commit(d, ids.take(n)),
    decreases ids.len() - n,
{
    if n == ids.len() {
        assert(ids.take(n) =~= ids);
    } else {
        assert(ids.take(n + 1).drop_last() =~= ids.take(n));
        lemma_first_start_commit_prefix(d, ids, n + 1);
    }
}

/// A task that is completed stays stored.
proof fn lemma_complete_has(
    d: Db,
    id: TaskId,
    result: Option<Seq<char>>,
    learnings: Seq<Seq<char>>,
    sha: Option<Seq<char>>,
    ids: Seq<LearningId>,
    now: Timestamp,
)
    requires
        d.wf(),
        d.has(id),
    ensures
        rules::completed(d, id, result, learnings, sha, ids, now).has(id),
{
    crate::service::laws::lemma_completed(d, id, result, learnings, sha, ids, now);
}

/// What a completion waited for does not matter for the next deletion.
proof fn lemma_next_delete_phase(
    d: Db,
    id: TaskId,
    milestone: bool,
    queue: Seq<(TaskId, Seq<char>)>,
    a: CompletionView,
    b: CompletionView,
    warning: Option<Seq<char>>,
)
    requires
        a.result == b.result,
        a.learnings == b.learnings,
        a.answer == b.answer,
    ensures
        next_delete(d, id, milestone, queue, a, warning) == next_delete(
            d,
            id,
            milestone,
            queue,
            b,
            warning,
        ),
{
}

} // verus!
