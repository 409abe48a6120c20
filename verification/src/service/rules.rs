//! What each operation does: from the stored state and the request to the new state and the
//! answer.
use vstd::prelude::*;

use crate::db::learning_repo;
use crate::error::{ConstraintError, Fault};
use crate::id::{LearningId, TaskId};
use crate::keep;
use crate::model;
use crate::model::Db;
use crate::time::Timestamp;
use crate::types::{
    BlockerRelation, ContextView, CreateView, FilterView, InheritedView, LearningView,
    LifecycleState, RowView, TaskView, UpdateView,
};

verus! {

/// The new state and the answer of an operation that gives a task back.
pub type Reply = (Db, Result<TaskView, Fault>);

/// Whether a priority is one of 0, 1 and 2.
pub open spec fn valid_priority(p: i32) -> bool {
    0 <= p <= 2
}

/// Whether a path starts at the root.
pub open spec fn absolute(path: Seq<char>) -> bool {
    path.len() > 0 && path[0] == '/'
}

/// Whether the component of a path at a position is `..`.
pub open spec fn dotdot_at(path: Seq<char>, i: int) -> bool {
    &&& 0 <= i
    &&& i + 2 <= path.len()
    &&& path[i] == '.'
    &&& path[i + 1] == '.'
    &&& i == 0 || path[i - 1] == '/'
    &&& i + 2 == path.len() || path[i + 2] == '/'
}

/// Why a path to a repository is refused: it has to be relative, without `..` components.
pub open spec fn repo_path_fault(path: Seq<char>) -> Option<Fault> {
    if absolute(path) {
        Some(Fault::InvalidRepoPath { path, why: "must be a relative path"@ })
    } else if exists|i: int| dotdot_at(path, i) {
        Some(Fault::InvalidRepoPath { path, why: "must not contain '..' components"@ })
    } else {
        None
    }
}

/// Why a task cannot be put under a parent.
pub open spec fn attach_fault(d: Db, parent: TaskId) -> Option<Fault> {
    if !d.has(parent) {
        Some(Fault::ParentNotFound(parent))
    } else if !d.row(parent).active() {
        Some(
            Fault::CannotAttachChildToInactiveParent {
                parent_id: parent,
                state: d.row(parent).state().name(),
            },
        )
    } else {
        None
    }
}

/// Why a new task under this parent cannot have these blockers, looking at them in order.
pub open spec fn blockers_fault(
    d: Db,
    parent: Option<TaskId>,
    blockers: Seq<TaskId>,
    id: TaskId,
    from: int,
) -> Option<Fault>
    decreases blockers.len() - from,
{
    if from >= blockers.len() {
        None
    } else if !d.has(blockers[from]) {
        Some(Fault::BlockerNotFound(blockers[from]))
    } else if parent is Some && d.in_subtree(blockers[from], parent->0) {
        Some(
            Fault::InvalidBlockerRelation {
                message: "Cannot block a task by its ancestor"@,
                task_id: id,
                blocker_id: blockers[from],
            },
        )
    } else {
        blockers_fault(d, parent, blockers, id, from + 1)
    }
}

/// Why a new task is refused.
pub open spec fn create_fault(d: Db, c: CreateView, id: TaskId) -> Option<Fault> {
    if c.priority is Some && !valid_priority(c.priority->0) {
        Some(Fault::InvalidPriority(c.priority->0))
    } else if c.repo_path is Some && repo_path_fault(c.repo_path->0) is Some {
        repo_path_fault(c.repo_path->0)
    } else if c.parent_id is Some && attach_fault(d, c.parent_id->0) is Some {
        attach_fault(d, c.parent_id->0)
    } else if c.parent_id is Some && d.depth(c.parent_id->0) >= model::MAX_DEPTH {
        Some(Fault::MaxDepthExceeded)
    } else {
        blockers_fault(d, c.parent_id, c.blocked_by, id, 0)
    }
}

/// A new task is stored under the given identifier.
pub open spec fn create(d: Db, c: CreateView, id: TaskId, now: Timestamp) -> Reply {
    let n = model::first_repeat(c.blocked_by, 0);
    match create_fault(d, c, id) {
        Some(f) => (d, Err(f)),
        None => if d.has(id) {
            (d, Err(Fault::Database(ConstraintError::TaskExists(id))))
        } else if n < c.blocked_by.len() {
            (
                d.creating(c, id, now, n),
                Err(
                    Fault::Database(
                        ConstraintError::BlockerExists(
                            BlockerRelation { task_id: id, blocker_id: c.blocked_by[n] },
                        ),
                    ),
                ),
            )
        } else {
            let e = d.creating(c, id, now, n);
            (e, Ok(e.task(id)))
        },
    }
}

/// The context of a task.
pub open spec fn context_of(d: Db, id: Option<TaskId>) -> Option<Seq<char>> {
    match id {
        Some(i) => if d.has(i) {
            Some(d.row(i).context)
        } else {
            None
        },
        None => None,
    }
}

/// The context texts that a task sees.
pub open spec fn context_chain(d: Db, id: TaskId) -> ContextView {
    let own = d.row(id).context;
    if d.depth(id) == 0 {
        ContextView { own, parent: None, milestone: None }
    } else if d.depth(id) == 1 {
        let parent = context_of(d, d.up(id, 1));
        ContextView { own, parent, milestone: parent }
    } else {
        ContextView {
            own,
            parent: context_of(d, d.up(id, 1)),
            milestone: context_of(d, d.up(id, 2)),
        }
    }
}

/// The learnings of a task, where there is one.
pub open spec fn learnings_at(d: Db, id: Option<TaskId>) -> Seq<LearningView> {
    match id {
        Some(i) => d.learnings_of(i),
        None => Seq::empty(),
    }
}

/// The learnings that a task inherits: a task from its milestone, a subtask from its task and its
/// milestone.
pub open spec fn inherited(d: Db, id: TaskId) -> InheritedView {
    if d.depth(id) == 0 {
        InheritedView { milestone: Seq::empty(), parent: Seq::empty() }
    } else if d.depth(id) == 1 {
        InheritedView { milestone: learnings_at(d, d.up(id, 1)), parent: Seq::empty() }
    } else {
        InheritedView {
            milestone: learnings_at(d, d.up(id, 2)),
            parent: learnings_at(d, d.up(id, 1)),
        }
    }
}

/// A task with everything that is computed for it.
pub open spec fn full_task(d: Db, id: TaskId) -> TaskView {
    TaskView {
        context_chain: Some(context_chain(d, id)),
        learnings: Some(inherited(d, id)),
        ..d.task(id)
    }
}

/// A task is looked up.
pub open spec fn get(d: Db, id: TaskId) -> Result<TaskView, Fault> {
    if d.has(id) {
        Ok(full_task(d, id))
    } else {
        Err(Fault::TaskNotFound(id))
    }
}

/// Whether a task is ready: active, with neither it nor a task above it waiting for a blocker.
pub open spec fn ready(d: Db, id: TaskId) -> bool {
    d.row(id).active() && !d.effectively_blocked(id)
}

/// The identifiers of the tasks that a listing gives.
pub open spec fn list_ids(d: Db, f: FilterView) -> Seq<TaskId> {
    d.listed(f).filter(|x: TaskId| f.ready ==> ready(d, x))
}

/// Tasks are listed.
pub open spec fn list(d: Db, f: FilterView) -> Seq<TaskView> {
    list_ids(d, f).map_values(|x: TaskId| d.task(x))
}

/// The first of these blockers that is the given task or stands above it.
pub open spec fn first_above(d: Db, blockers: Seq<TaskId>, p: TaskId, from: int) -> Option<TaskId>
    decreases blockers.len() - from,
{
    if from >= blockers.len() {
        None
    } else if d.in_subtree(blockers[from], p) {
        Some(blockers[from])
    } else {
        first_above(d, blockers, p, from + 1)
    }
}

/// Why a task cannot be moved under a new parent.
pub open spec fn move_fault(d: Db, id: TaskId, p: TaskId) -> Option<Fault> {
    if attach_fault(d, p) is Some {
        attach_fault(d, p)
    } else if d.in_subtree(id, p) {
        Some(Fault::ParentCycle)
    } else if d.depth(p) >= model::MAX_DEPTH {
        Some(Fault::MaxDepthExceeded)
    } else if d.depth(p) + 1 + keep::height(d, id) > model::MAX_DEPTH {
        Some(Fault::MaxDepthExceeded)
    } else {
        match first_above(d, d.blockers_of(id), p, 0) {
            Some(b) => Some(
                Fault::InvalidBlockerRelation {
                    message: "Reparent would make a blocker an ancestor"@,
                    task_id: id,
                    blocker_id: b,
                },
            ),
            None => None,
        }
    }
}

/// Why the repository of a task cannot be set or cleared.
pub open spec fn repo_change_fault(r: RowView, u: UpdateView) -> Option<Fault> {
    if u.repo_path is Some && u.clear_repo_path {
        Some(
            Fault::InvalidRepoPath {
                path: "<conflict>"@,
                why: "cannot provide repo_path and clear_repo_path together"@,
            },
        )
    } else if u.repo_path is Some && repo_path_fault(u.repo_path->0) is Some {
        repo_path_fault(u.repo_path->0)
    } else if u.repo_path is Some && r.started_at is Some {
        Some(
            Fault::InvalidRepoPath {
                path: u.repo_path->0,
                why: "cannot change repo_path after task is started"@,
            },
        )
    } else if u.clear_repo_path && r.started_at is Some {
        Some(
            Fault::InvalidRepoPath {
                path: match r.repo_path {
                    Some(p) => p,
                    None => "<none>"@,
                },
                why: "cannot change repo_path after task is started"@,
            },
        )
    } else {
        None
    }
}

/// Why a task cannot be changed: it is not there, or archived.
pub open spec fn mutable_fault(d: Db, id: TaskId) -> Option<Fault> {
    if !d.has(id) {
        Some(Fault::TaskNotFound(id))
    } else if d.row(id).archived {
        Some(Fault::CannotModifyArchived)
    } else {
        None
    }
}

/// Why an update is refused.
pub open spec fn update_fault(d: Db, id: TaskId, u: UpdateView) -> Option<Fault> {
    if mutable_fault(d, id) is Some {
        mutable_fault(d, id)
    } else if u.priority is Some && !valid_priority(u.priority->0) {
        Some(Fault::InvalidPriority(u.priority->0))
    } else if repo_change_fault(d.row(id), u) is Some {
        repo_change_fault(d.row(id), u)
    } else if u.parent_id is Some {
        move_fault(d, id, u.parent_id->0)
    } else {
        None
    }
}

/// A task is updated.
pub open spec fn update(d: Db, id: TaskId, u: UpdateView, now: Timestamp) -> Reply {
    match update_fault(d, id, u) {
        Some(f) => (d, Err(f)),
        None => {
            let e = d.updating(id, u, now);
            (e, Ok(e.task(id)))
        },
    }
}

/// A task is marked as started.
pub open spec fn start(d: Db, id: TaskId, now: Timestamp) -> Reply {
    if d.has(id) {
        let e = d.starting(id, now);
        (e, Ok(e.task(id)))
    } else {
        (d, Err(Fault::TaskNotFound(id)))
    }
}

/// Why a task cannot be completed.
pub open spec fn complete_fault(d: Db, id: TaskId) -> Option<Fault> {
    if !d.has(id) {
        Some(Fault::TaskNotFound(id))
    } else if d.has_pending_children(id) {
        Some(Fault::PendingChildren)
    } else {
        None
    }
}

/// The state after a task is completed: its learnings are added, it is marked, and all its
/// learnings go to its parent.
pub open spec fn completed(
    d: Db,
    id: TaskId,
    result: Option<Seq<char>>,
    learnings: Seq<Seq<char>>,
    sha: Option<Seq<char>>,
    ids: Seq<LearningId>,
    now: Timestamp,
) -> Db {
    let a = learning_repo::adding_all(d, id, learnings, ids, now);
    let b = a.completing(id, result, sha, now);
    match d.parent(id) {
        Some(p) => learning_repo::bubbling(b, id, p, ids.skip(learnings.len() as int), now),
        None => b,
    }
}

/// A task is completed.
pub open spec fn complete(
    d: Db,
    id: TaskId,
    result: Option<Seq<char>>,
    learnings: Seq<Seq<char>>,
    sha: Option<Seq<char>>,
    ids: Seq<LearningId>,
    now: Timestamp,
) -> Reply {
    match complete_fault(d, id) {
        Some(f) => (d, Err(f)),
        None => {
            let e = completed(d, id, result, learnings, sha, ids, now);
            (e, Ok(e.task(id)))
        },
    }
}

/// How many identifiers for learnings are enough to complete a task.
pub open spec fn ids_needed(d: Db, learnings: nat) -> nat {
    2 * learnings + d.learnings.len()
}

/// Why a task cannot be reopened: only completed tasks can.
pub open spec fn reopen_fault(d: Db, id: TaskId) -> Option<Fault> {
    if !d.has(id) {
        Some(Fault::TaskNotFound(id))
    } else {
        match d.row(id).state() {
            LifecycleState::Completed => None,
            LifecycleState::Cancelled => Some(Fault::CannotReopenCancelled),
            LifecycleState::Archived => Some(Fault::CannotModifyArchived),
            other => Some(Fault::CannotReopenActive { state: other.name() }),
        }
    }
}

/// A task is reopened.
pub open spec fn reopen(d: Db, id: TaskId, now: Timestamp) -> Reply {
    match reopen_fault(d, id) {
        Some(f) => (d, Err(f)),
        None => {
            let e = d.reopening(id, now);
            (e, Ok(e.task(id)))
        },
    }
}

/// Why a task cannot be cancelled: only active tasks without pending children can.
pub open spec fn cancel_fault(d: Db, id: TaskId) -> Option<Fault> {
    if !d.has(id) {
        Some(Fault::TaskNotFound(id))
    } else {
        match d.row(id).state() {
            LifecycleState::Completed => Some(Fault::CannotCancelCompleted),
            LifecycleState::Cancelled => Some(Fault::AlreadyCancelled),
            LifecycleState::Archived => Some(Fault::CannotModifyArchived),
            _ => if d.has_pending_children(id) {
                Some(Fault::PendingChildren)
            } else {
                None
            },
        }
    }
}

/// A task is cancelled.
pub open spec fn cancel(d: Db, id: TaskId, now: Timestamp) -> Reply {
    match cancel_fault(d, id) {
        Some(f) => (d, Err(f)),
        None => {
            let e = d.cancelling(id, now);
            (e, Ok(e.task(id)))
        },
    }
}

/// Whether a row is finished in any way.
pub open spec fn over(r: RowView) -> bool {
    r.completed || r.cancelled || r.archived
}

/// Why a task cannot be archived: only finished tasks can, a milestone only when everything below
/// it is finished.
pub open spec fn archive_fault(d: Db, id: TaskId) -> Option<Fault> {
    if !d.has(id) {
        Some(Fault::TaskNotFound(id))
    } else {
        match d.row(id).state() {
            LifecycleState::Pending => Some(Fault::CannotArchiveActive),
            LifecycleState::InProgress => Some(Fault::CannotArchiveActive),
            LifecycleState::Archived => Some(Fault::AlreadyArchived),
            _ => if d.depth(id) == 0 && exists|x: TaskId| #[trigger]
                d.ancestor(id, x) && !over(d.row(x)) {
                Some(Fault::CannotArchiveActive)
            } else {
                None
            },
        }
    }
}

/// Whether archiving a task marks a row: the task's own, and for a milestone those below it that
/// are not archived yet.
pub open spec fn archive_marks(d: Db, id: TaskId, r: RowView) -> bool {
    r.id == id || (d.depth(id) == 0 && d.ancestor(id, r.id) && !r.archived)
}

/// The state after a task is archived.
pub open spec fn archived(d: Db, id: TaskId, now: Timestamp) -> Db {
    Db {
        tasks: d.tasks.map_values(
            |r: RowView|
                if archive_marks(d, id, r) {
                    model::archived_row(r, now)
                } else {
                    r
                },
        ),
        ..d
    }
}

/// A task is archived.
pub open spec fn archive(d: Db, id: TaskId, now: Timestamp) -> Reply {
    match archive_fault(d, id) {
        Some(f) => (d, Err(f)),
        None => {
            let e = archived(d, id, now);
            (e, Ok(e.task(id)))
        },
    }
}

/// A task is deleted, with everything below it.
pub open spec fn delete(d: Db, id: TaskId) -> (Db, Result<(), Fault>) {
    if d.has(id) {
        (d.deleting(id), Ok(()))
    } else {
        (d, Err(Fault::TaskNotFound(id)))
    }
}

/// Whether the task at a position waits for the next one.
pub open spec fn waits_at(d: Db, p: Seq<TaskId>, i: int) -> bool {
    d.blockers.contains(BlockerRelation { task_id: p[i], blocker_id: p[i + 1] })
}

/// Whether these tasks are linked in order, each waiting for the next.
pub open spec fn waits_along(d: Db, p: Seq<TaskId>) -> bool {
    &&& p.len() > 0
    &&& forall|i: int| 0 <= i < p.len() - 1 ==> #[trigger] waits_at(d, p, i)
}

/// Whether a task is another one or waits for it, directly or through others.
pub open spec fn waits_for(d: Db, from: TaskId, to: TaskId) -> bool {
    exists|p: Seq<TaskId>| #[trigger] waits_along(d, p) && p[0] == from && p.last() == to
}

/// Why a task cannot wait for another.
pub open spec fn relation_fault(message: Seq<char>, task: TaskId, blocker: TaskId) -> Option<Fault> {
    Some(Fault::InvalidBlockerRelation { message, task_id: task, blocker_id: blocker })
}

/// Why a blocker is refused.
pub open spec fn block_fault(d: Db, task: TaskId, blocker: TaskId) -> Option<Fault> {
    if mutable_fault(d, task) is Some {
        mutable_fault(d, task)
    } else if !d.has(blocker) {
        Some(Fault::BlockerNotFound(blocker))
    } else if task == blocker {
        relation_fault("Cannot block a task by itself"@, task, blocker)
    } else if d.ancestor(blocker, task) {
        relation_fault("Cannot block a task by its ancestor"@, task, blocker)
    } else if d.ancestor(task, blocker) {
        relation_fault("Cannot block a task by its descendant"@, task, blocker)
    } else if waits_for(d, blocker, task) {
        Some(Fault::BlockerCycle)
    } else {
        None
    }
}

/// A blocker is added to a task.
pub open spec fn add_blocker(d: Db, task: TaskId, blocker: TaskId) -> Reply {
    match block_fault(d, task, blocker) {
        Some(f) => (d, Err(f)),
        None => {
            let e = d.with_blocker(BlockerRelation { task_id: task, blocker_id: blocker });
            (e, Ok(full_task(e, task)))
        },
    }
}

/// A blocker is removed from a task.
pub open spec fn remove_blocker(d: Db, task: TaskId, blocker: TaskId) -> Reply {
    match mutable_fault(d, task) {
        Some(f) => (d, Err(f)),
        None => {
            let e = d.without_blocker(BlockerRelation { task_id: task, blocker_id: blocker });
            (e, Ok(full_task(e, task)))
        },
    }
}

} // verus!
