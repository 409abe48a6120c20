//! Why an operation is refused.
use vstd::prelude::*;

use crate::id::{LearningId, TaskId};
use crate::text;
use crate::types::BlockerRelation;
use crate::vcs::backend::{VcsError, VcsFault};

verus! {

/// Why a task cannot be started.
#[derive(Clone, Debug)]
pub enum NotReadyReason {
    /// A child has to be started first.
    HasIncompleteChildren,
    /// The task waits for these blockers.
    Blocked { blockers: Vec<TaskId> },
    /// Every task below is finished or blocked.
    NoReadyTasksInSubtree,
}

/// The view of a reason.
#[verifier::ext_equal]
pub enum ReasonView {
    HasIncompleteChildren,
    Blocked { blockers: Seq<TaskId> },
    NoReadyTasksInSubtree,
}

impl View for NotReadyReason {
    type V = ReasonView;

    open spec fn view(&self) -> ReasonView {
        match self {
            NotReadyReason::HasIncompleteChildren => ReasonView::HasIncompleteChildren,
            NotReadyReason::Blocked { blockers } => ReasonView::Blocked { blockers: blockers@ },
            NotReadyReason::NoReadyTasksInSubtree => ReasonView::NoReadyTasksInSubtree,
        }
    }
}

/// A rule of the stored tables that a change would break.
#[derive(Clone, Copy, PartialEq, Eq, Structural, Debug)]
pub enum ConstraintError {
    /// There is a task with this identifier.
    TaskExists(TaskId),
    /// The edge is stored already.
    BlockerExists(BlockerRelation),
    /// There is no task with this identifier to refer to.
    NotStored(TaskId),
}

/// Why an operation is refused.
#[derive(Clone, Debug)]
pub enum OsError {
    Database(ConstraintError),
    TaskNotFound(TaskId),
    ParentNotFound(TaskId),
    BlockerNotFound(TaskId),
    LearningNotFound(LearningId),
    MaxDepthExceeded,
    ParentCycle,
    BlockerCycle,
    /// A cycle met while following blockers to something that can be started.
    BlockerCycleDetected { message: String, chain: Vec<TaskId> },
    /// Nothing can be started under the requested task.
    NoStartableTask { message: String, requested: TaskId },
    /// The task is not the next ready one.
    NotNextReady {
        message: String,
        requested: TaskId,
        next_ready: Option<TaskId>,
        reason: NotReadyReason,
    },
    /// A task cannot wait for itself, for a task above it or for a task below it.
    InvalidBlockerRelation { message: String, task_id: TaskId, blocker_id: TaskId },
    PendingChildren,
    CannotCancelCompleted,
    AlreadyCancelled,
    CannotArchiveActive,
    AlreadyArchived,
    CannotModifyArchived,
    CannotReopenCancelled,
    CannotReopenActive { state: String },
    CannotStartCompleted,
    CannotStartCancelled,
    CannotStartDetachedHead,
    CannotStartUnbornRepository,
    TaskIntegrationRequired { task_id: TaskId, source_ref: String, base_ref: String },
    MissingBaseRef { task_id: TaskId },
    CannotCompleteCancelled,
    CannotCompleteArchived,
    CannotAttachChildToInactiveParent { parent_id: TaskId, state: String },
    InvalidPriority(i32),
    InvalidRepoPath { path: String, reason: String },
    Io(String),
    Json(String),
    NotARepository,
    DirtyWorkingCopy,
    Vcs(VcsError),
}

/// The view of an error.
#[verifier::ext_equal]
pub enum Fault {
    Database(ConstraintError),
    TaskNotFound(TaskId),
    ParentNotFound(TaskId),
    BlockerNotFound(TaskId),
    LearningNotFound(LearningId),
    MaxDepthExceeded,
    ParentCycle,
    BlockerCycle,
    BlockerCycleDetected { message: Seq<char>, chain: Seq<TaskId> },
    NoStartableTask { message: Seq<char>, requested: TaskId },
    NotNextReady {
        message: Seq<char>,
        requested: TaskId,
        next_ready: Option<TaskId>,
        reason: ReasonView,
    },
    InvalidBlockerRelation { message: Seq<char>, task_id: TaskId, blocker_id: TaskId },
    PendingChildren,
    CannotCancelCompleted,
    AlreadyCancelled,
    CannotArchiveActive,
    AlreadyArchived,
    CannotModifyArchived,
    CannotReopenCancelled,
    CannotReopenActive { state: Seq<char> },
    CannotStartCompleted,
    CannotStartCancelled,
    CannotStartDetachedHead,
    CannotStartUnbornRepository,
    TaskIntegrationRequired { task_id: TaskId, source_ref: Seq<char>, base_ref: Seq<char> },
    MissingBaseRef { task_id: TaskId },
    CannotCompleteCancelled,
    CannotCompleteArchived,
    CannotAttachChildToInactiveParent { parent_id: TaskId, state: Seq<char> },
    InvalidPriority(i32),
    InvalidRepoPath { path: Seq<char>, why: Seq<char> },
    Io(Seq<char>),
    Json(Seq<char>),
    NotARepository,
    DirtyWorkingCopy,
    Vcs(VcsFault),
}

impl View for OsError {
    type V = Fault;

    open spec fn view(&self) -> Fault {
        match self {
            OsError::Database(c) => Fault::Database(*c),
            OsError::TaskNotFound(id) => Fault::TaskNotFound(*id),
            OsError::ParentNotFound(id) => Fault::ParentNotFound(*id),
            OsError::BlockerNotFound(id) => Fault::BlockerNotFound(*id),
            OsError::LearningNotFound(id) => Fault::LearningNotFound(*id),
            OsError::MaxDepthExceeded => Fault::MaxDepthExceeded,
            OsError::ParentCycle => Fault::ParentCycle,
            OsError::BlockerCycle => Fault::BlockerCycle,
            OsError::BlockerCycleDetected { message, chain } => Fault::BlockerCycleDetected {
                message: message@,
                chain: chain@,
            },
            OsError::NoStartableTask { message, requested } => Fault::NoStartableTask {
                message: message@,
                requested: *requested,
            },
            OsError::NotNextReady { message, requested, next_ready, reason } => Fault::NotNextReady {
                message: message@,
                requested: *requested,
                next_ready: *next_ready,
                reason: reason@,
            },
            OsError::InvalidBlockerRelation { message, task_id, blocker_id } =>
            Fault::InvalidBlockerRelation {
                message: message@,
                task_id: *task_id,
                blocker_id: *blocker_id,
            },
            OsError::PendingChildren => Fault::PendingChildren,
            OsError::CannotCancelCompleted => Fault::CannotCancelCompleted,
            OsError::AlreadyCancelled => Fault::AlreadyCancelled,
            OsError::CannotArchiveActive => Fault::CannotArchiveActive,
            OsError::AlreadyArchived => Fault::AlreadyArchived,
            OsError::CannotModifyArchived => Fault::CannotModifyArchived,
            OsError::CannotReopenCancelled => Fault::CannotReopenCancelled,
            OsError::CannotReopenActive { state } => Fault::CannotReopenActive { state: state@ },
            OsError::CannotStartCompleted => Fault::CannotStartCompleted,
            OsError::CannotStartCancelled => Fault::CannotStartCancelled,
            OsError::CannotStartDetachedHead => Fault::CannotStartDetachedHead,
            OsError::CannotStartUnbornRepository => Fault::CannotStartUnbornRepository,
            OsError::TaskIntegrationRequired { task_id, source_ref, base_ref } =>
            Fault::TaskIntegrationRequired {
                task_id: *task_id,
                source_ref: source_ref@,
                base_ref: base_ref@,
            },
            OsError::MissingBaseRef { task_id } => Fault::MissingBaseRef { task_id: *task_id },
            OsError::CannotCompleteCancelled => Fault::CannotCompleteCancelled,
            OsError::CannotCompleteArchived => Fault::CannotCompleteArchived,
            OsError::CannotAttachChildToInactiveParent { parent_id, state } =>
            Fault::CannotAttachChildToInactiveParent { parent_id: *parent_id, state: state@ },
            OsError::InvalidPriority(p) => Fault::InvalidPriority(*p),
            OsError::InvalidRepoPath { path, reason } => Fault::InvalidRepoPath {
                path: path@,
                why: reason@,
            },
            OsError::Io(s) => Fault::Io(s@),
            OsError::Json(s) => Fault::Json(s@),
            OsError::NotARepository => Fault::NotARepository,
            OsError::DirtyWorkingCopy => Fault::DirtyWorkingCopy,
            OsError::Vcs(e) => Fault::Vcs(e@),
        }
    }
}

/// What a version-control error means for an operation on tasks.
pub open spec fn fault_of_vcs(e: VcsFault) -> Fault {
    match e {
        VcsFault::NotARepository => Fault::NotARepository,
        VcsFault::DirtyWorkingCopy => Fault::DirtyWorkingCopy,
        VcsFault::DetachedHead => Fault::CannotStartDetachedHead,
        VcsFault::UnbornRepository => Fault::CannotStartUnbornRepository,
        other => Fault::Vcs(other),
    }
}

/// The outcome of an operation, with its value and its error taken by their views.
pub open spec fn outcome<T: View>(r: Result<T, OsError>) -> Result<T::V, Fault> {
    match r {
        Ok(v) => Ok(v@),
        Err(e) => Err(e@),
    }
}

impl ConstraintError {
    /// The text of the error.
    pub open spec fn text(self) -> Seq<char> {
        match self {
            ConstraintError::TaskExists(_) => "UNIQUE constraint failed: tasks.id"@,
            ConstraintError::BlockerExists(_) =>
            "UNIQUE constraint failed: task_blockers.task_id, task_blockers.blocker_id"@,
            ConstraintError::NotStored(_) => "FOREIGN KEY constraint failed"@,
        }
    }

    /// The text of the error.
    pub fn message(&self) -> (out: String)
        ensures
            out@ == self.text(),
    {
        match self {
            ConstraintError::TaskExists(_) => text::owned("UNIQUE constraint failed: tasks.id"),
            ConstraintError::BlockerExists(_) => text::owned(
                "UNIQUE constraint failed: task_blockers.task_id, task_blockers.blocker_id",
            ),
            ConstraintError::NotStored(_) => text::owned("FOREIGN KEY constraint failed"),
        }
    }
}

impl Fault {
    /// The text of the error.
    pub open spec fn text(self) -> Seq<char> {
        match self {
            Fault::Database(c) => "Database error: "@ + c.text(),
            Fault::TaskNotFound(id) => "Task "@ + id.text() + " not found"@,
            Fault::ParentNotFound(id) => "Parent task not found: "@ + id.text(),
            Fault::BlockerNotFound(id) => "Blocker task not found: "@ + id.text(),
            Fault::LearningNotFound(id) => "Learning not found: "@ + id.text(),
            Fault::MaxDepthExceeded => "Max task depth (2) exceeded"@,
            Fault::ParentCycle => "Cycle detected in parent chain"@,
            Fault::BlockerCycle => "Cycle detected in blocker chain"@,
            Fault::BlockerCycleDetected { message, chain } => message,
            Fault::NoStartableTask { message, requested } => message,
            Fault::NotNextReady { message, requested, next_ready, reason } => message,
            Fault::InvalidBlockerRelation { message, task_id, blocker_id } => message,
            Fault::PendingChildren => "Cannot complete task with pending children"@,
            Fault::CannotCancelCompleted => "Cannot cancel completed task"@,
            Fault::AlreadyCancelled => "Task is already cancelled"@,
            Fault::CannotArchiveActive =>
            "Cannot archive active task (must be completed or cancelled first)"@,
            Fault::AlreadyArchived => "Task is already archived"@,
            Fault::CannotModifyArchived => "Cannot modify archived task"@,
            Fault::CannotReopenCancelled => "Cannot reopen cancelled task"@,
            Fault::CannotReopenActive { state } => "Cannot reopen active task (task is "@ + state
                + ", must be completed)"@,
            Fault::CannotStartCompleted => "Cannot start completed task"@,
            Fault::CannotStartCancelled => "Cannot start cancelled task"@,
            Fault::CannotStartDetachedHead => "Cannot start from detached HEAD in git repository"@,
            Fault::CannotStartUnbornRepository =>
            "Cannot start in git repository without any commits"@,
            Fault::TaskIntegrationRequired { task_id, source_ref, base_ref } =>
            "Task integration required before completion: merge "@ + source_ref + " into "@
                + base_ref + " for task "@ + task_id.text(),
            Fault::MissingBaseRef { task_id } => "Missing baseRef for started task: "@
                + task_id.text()
                + " (checkout intended base branch, run tasks.start(task_id), then retry complete)"@,
            Fault::CannotCompleteCancelled => "Cannot complete cancelled task"@,
            Fault::CannotCompleteArchived => "Cannot complete archived task"@,
            Fault::CannotAttachChildToInactiveParent { parent_id, state } =>
            "Cannot attach child to inactive parent (parent "@ + parent_id.text() + " is "@ + state
                + ")"@,
            Fault::InvalidPriority(p) => "Invalid priority: "@ + text::int_text(p as int)
                + " (must be 0-2)"@,
            Fault::InvalidRepoPath { path, why } => "Invalid repo path '"@ + path + "': "@ + why,
            Fault::Io(s) => "IO error: "@ + s,
            Fault::Json(s) => "JSON error: "@ + s,
            Fault::NotARepository => "No VCS repository found in current directory"@,
            Fault::DirtyWorkingCopy =>
            "Working copy has uncommitted changes - commit or stash first"@,
            Fault::Vcs(e) => "VCS error: "@ + e.message(),
        }
    }
}

fn three(a: &str, b: &str, c: &str) -> (out: String)
    ensures
        out@ == a@ + b@ + c@,
{
    let mut out: String = text::joined(a, b);
    out.append(c);
    out
}

impl From<VcsError> for OsError {
    /// What a version-control error means for an operation on tasks.
    fn from(err: VcsError) -> (out: OsError) {
        match err {
            VcsError::NotARepository => OsError::NotARepository,
            VcsError::DirtyWorkingCopy => OsError::DirtyWorkingCopy,
            VcsError::DetachedHead => OsError::CannotStartDetachedHead,
            VcsError::UnbornRepository => OsError::CannotStartUnbornRepository,
            other => OsError::Vcs(other),
        }
    }
}

impl vstd::std_specs::convert::FromSpecImpl<VcsError> for OsError {
    open spec fn obeys_from_spec() -> bool {
        true
    }

    open spec fn from_spec(err: VcsError) -> OsError {
        match err {
            VcsError::NotARepository => OsError::NotARepository,
            VcsError::DirtyWorkingCopy => OsError::DirtyWorkingCopy,
            VcsError::DetachedHead => OsError::CannotStartDetachedHead,
            VcsError::UnbornRepository => OsError::CannotStartUnbornRepository,
            other => OsError::Vcs(other),
        }
    }
}

impl OsError {
    /// The text of the error.
    pub fn message(&self) -> (out: String)
        ensures
            out@ == self@.text(),
    {
        match self {
            OsError::Database(c) => text::joined("Database error: ", c.message().as_str()),
            OsError::TaskNotFound(id) => three("Task ", id.to_text().as_str(), " not found"),
            OsError::ParentNotFound(id) => text::joined(
                "Parent task not found: ",
                id.to_text().as_str(),
            ),
            OsError::BlockerNotFound(id) => text::joined(
                "Blocker task not found: ",
                id.to_text().as_str(),
            ),
            OsError::LearningNotFound(id) => text::joined(
                "Learning not found: ",
                id.to_text().as_str(),
            ),
            OsError::MaxDepthExceeded => text::owned("Max task depth (2) exceeded"),
            OsError::ParentCycle => text::owned("Cycle detected in parent chain"),
            OsError::BlockerCycle => text::owned("Cycle detected in blocker chain"),
            OsError::BlockerCycleDetected { message, chain: _ } => message.clone(),
            OsError::NoStartableTask { message, requested: _ } => message.clone(),
            OsError::NotNextReady { message, requested: _, next_ready: _, reason: _ } =>
            message.clone(),
            OsError::InvalidBlockerRelation { message, task_id: _, blocker_id: _ } =>
            message.clone(),
            OsError::PendingChildren => text::owned("Cannot complete task with pending children"),
            OsError::CannotCancelCompleted => text::owned("Cannot cancel completed task"),
            OsError::AlreadyCancelled => text::owned("Task is already cancelled"),
            OsError::CannotArchiveActive => text::owned(
                "Cannot archive active task (must be completed or cancelled first)",
            ),
            OsError::AlreadyArchived => text::owned("Task is already archived"),
            OsError::CannotModifyArchived => text::owned("Cannot modify archived task"),
            OsError::CannotReopenCancelled => text::owned("Cannot reopen cancelled task"),
            OsError::CannotReopenActive { state } => three(
                "Cannot reopen active task (task is ",
                state.as_str(),
                ", must be completed)",
            ),
            OsError::CannotStartCompleted => text::owned("Cannot start completed task"),
            OsError::CannotStartCancelled => text::owned("Cannot start cancelled task"),
            OsError::CannotStartDetachedHead => text::owned(
                "Cannot start from detached HEAD in git repository",
            ),
            OsError::CannotStartUnbornRepository => text::owned(
                "Cannot start in git repository without any commits",
            ),
            OsError::TaskIntegrationRequired { task_id, source_ref, base_ref } => {
                let mut out: String = three(
                    "Task integration required before completion: merge ",
                    source_ref.as_str(),
                    " into ",
                );
                out.append(base_ref.as_str());
                out.append(" for task ");
                out.append(task_id.to_text().as_str());
                out
            },
            OsError::MissingBaseRef { task_id } => three(
                "Missing baseRef for started task: ",
                task_id.to_text().as_str(),
                " (checkout intended base branch, run tasks.start(task_id), then retry complete)",
            ),
            OsError::CannotCompleteCancelled => text::owned("Cannot complete cancelled task"),
            OsError::CannotCompleteArchived => text::owned("Cannot complete archived task"),
            OsError::CannotAttachChildToInactiveParent { parent_id, state } => {
                let mut out: String = three(
                    "Cannot attach child to inactive parent (parent ",
                    parent_id.to_text().as_str(),
                    " is ",
                );
                out.append(state.as_str());
                out.append(")");
                out
            },
            OsError::InvalidPriority(p) => three(
                "Invalid priority: ",
                text::format_i32(*p).as_str(),
                " (must be 0-2)",
            ),
            OsError::InvalidRepoPath { path, reason } => {
                let mut out: String = three("Invalid repo path '", path.as_str(), "': ");
                out.append(reason.as_str());
                out
            },
            OsError::Io(s) => text::joined("IO error: ", s.as_str()),
            OsError::Json(s) => text::joined("JSON error: ", s.as_str()),
            OsError::NotARepository => text::owned(
                "No VCS repository found in current directory",
            ),
            OsError::DirtyWorkingCopy => text::owned(
                "Working copy has uncommitted changes - commit or stash first",
            ),
            OsError::Vcs(e) => text::joined("VCS error: ", e.message().as_str()),
        }
    }
}

} // verus!
