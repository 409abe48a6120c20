//! Tasks, learnings and the inputs of the operations on them, with their mathematical views.
use vstd::prelude::*;

use crate::id::{LearningId, TaskId};
use crate::text;
use crate::time::Timestamp;

verus! {

/// Where a task stands in its life.
#[derive(Clone, Copy, PartialEq, Eq, Structural, Debug)]
pub enum LifecycleState {
    Pending,
    InProgress,
    Completed,
    Cancelled,
    Archived,
}

/// A task as it is stored.
#[derive(Clone, Debug)]
pub struct TaskRow {
    pub id: TaskId,
    pub parent_id: Option<TaskId>,
    pub description: String,
    pub context: String,
    pub result: Option<String>,
    pub priority: i32,
    pub completed: bool,
    pub completed_at: Option<Timestamp>,
    pub created_at: Timestamp,
    pub updated_at: Timestamp,
    pub started_at: Option<Timestamp>,
    pub commit_sha: Option<String>,
    pub bookmark: Option<String>,
    pub start_commit: Option<String>,
    pub base_ref: Option<String>,
    pub repo_path: Option<String>,
    pub cancelled: bool,
    pub cancelled_at: Option<Timestamp>,
    pub archived: bool,
    pub archived_at: Option<Timestamp>,
}

/// The view of a stored task.
pub struct RowView {
    pub id: TaskId,
    pub parent_id: Option<TaskId>,
    pub description: Seq<char>,
    pub context: Seq<char>,
    pub result: Option<Seq<char>>,
    pub priority: i32,
    pub completed: bool,
    pub completed_at: Option<Timestamp>,
    pub created_at: Timestamp,
    pub updated_at: Timestamp,
    pub started_at: Option<Timestamp>,
    pub commit_sha: Option<Seq<char>>,
    pub bookmark: Option<Seq<char>>,
    pub start_commit: Option<Seq<char>>,
    pub base_ref: Option<Seq<char>>,
    pub repo_path: Option<Seq<char>>,
    pub cancelled: bool,
    pub cancelled_at: Option<Timestamp>,
    pub archived: bool,
    pub archived_at: Option<Timestamp>,
}

impl View for TaskRow {
    type V = RowView;

    open spec fn view(&self) -> RowView {
        RowView {
            id: self.id,
            parent_id: self.parent_id,
            description: self.description@,
            context: self.context@,
            result: text::opt_text(self.result),
            priority: self.priority,
            completed: self.completed,
            completed_at: self.completed_at,
            created_at: self.created_at,
            updated_at: self.updated_at,
            started_at: self.started_at,
            commit_sha: text::opt_text(self.commit_sha),
            bookmark: text::opt_text(self.bookmark),
            start_commit: text::opt_text(self.start_commit),
            base_ref: text::opt_text(self.base_ref),
            repo_path: text::opt_text(self.repo_path),
            cancelled: self.cancelled,
            cancelled_at: self.cancelled_at,
            archived: self.archived,
            archived_at: self.archived_at,
        }
    }
}

impl RowView {
    /// The state in which a task is: archived before cancelled before completed, and active
    /// tasks by whether they were started.
    pub open spec fn state(self) -> LifecycleState {
        if self.archived {
            LifecycleState::Archived
        } else if self.cancelled {
            LifecycleState::Cancelled
        } else if self.completed {
            LifecycleState::Completed
        } else if self.started_at is Some {
            LifecycleState::InProgress
        } else {
            LifecycleState::Pending
        }
    }

    /// Whether work on the task can go on.
    pub open spec fn active(self) -> bool {
        !self.completed && !self.cancelled && !self.archived
    }

    /// Whether the task no longer holds its parent up.
    pub open spec fn finished(self) -> bool {
        self.completed || self.cancelled
    }

    /// Whether the task, as a blocker, lets its dependents go: only completion does, not
    /// cancellation.
    pub open spec fn satisfies(self) -> bool {
        self.completed && !self.cancelled
    }
}

/// A dependency edge: `task_id` waits for `blocker_id`.
#[derive(Clone, Copy, PartialEq, Eq, Structural, Debug)]
pub struct BlockerRelation {
    pub task_id: TaskId,
    pub blocker_id: TaskId,
}

/// A piece of knowledge attached to a task.
#[derive(Clone, Debug)]
pub struct Learning {
    pub id: LearningId,
    pub task_id: TaskId,
    pub content: String,
    pub source_task_id: Option<TaskId>,
    pub created_at: Timestamp,
}

/// The view of a learning.
pub struct LearningView {
    pub id: LearningId,
    pub task_id: TaskId,
    pub content: Seq<char>,
    pub source_task_id: Option<TaskId>,
    pub created_at: Timestamp,
}

impl View for Learning {
    type V = LearningView;

    open spec fn view(&self) -> LearningView {
        LearningView {
            id: self.id,
            task_id: self.task_id,
            content: self.content@,
            source_task_id: self.source_task_id,
            created_at: self.created_at,
        }
    }
}

/// The views of a sequence of learnings.
pub open spec fn learning_views(s: Seq<Learning>) -> Seq<LearningView> {
    s.map_values(|l: Learning| l@)
}

/// The context texts that a task sees: its own, its parent's and its milestone's.
#[derive(Clone, Debug)]
pub struct TaskContext {
    pub own: String,
    pub parent: Option<String>,
    pub milestone: Option<String>,
}

/// The view of a context chain.
pub struct ContextView {
    pub own: Seq<char>,
    pub parent: Option<Seq<char>>,
    pub milestone: Option<Seq<char>>,
}

impl View for TaskContext {
    type V = ContextView;

    open spec fn view(&self) -> ContextView {
        ContextView {
            own: self.own@,
            parent: text::opt_text(self.parent),
            milestone: text::opt_text(self.milestone),
        }
    }
}

/// The learnings that a task inherits.
#[derive(Clone, Debug)]
pub struct InheritedLearnings {
    pub milestone: Vec<Learning>,
    pub parent: Vec<Learning>,
}

/// The view of inherited learnings.
#[verifier::ext_equal]
pub struct InheritedView {
    pub milestone: Seq<LearningView>,
    pub parent: Seq<LearningView>,
}

impl View for InheritedLearnings {
    type V = InheritedView;

    open spec fn view(&self) -> InheritedView {
        InheritedView {
            milestone: learning_views(self.milestone@),
            parent: learning_views(self.parent@),
        }
    }
}

/// A task with what is computed for it: its place in the hierarchy and its blockers.
#[derive(Clone, Debug)]
pub struct Task {
    pub id: TaskId,
    pub parent_id: Option<TaskId>,
    pub description: String,
    pub context: String,
    pub context_chain: Option<TaskContext>,
    pub learnings: Option<InheritedLearnings>,
    pub result: Option<String>,
    pub priority: i32,
    pub completed: bool,
    pub completed_at: Option<Timestamp>,
    pub created_at: Timestamp,
    pub updated_at: Timestamp,
    pub started_at: Option<Timestamp>,
    pub commit_sha: Option<String>,
    pub bookmark: Option<String>,
    pub start_commit: Option<String>,
    pub base_ref: Option<String>,
    pub repo_path: Option<String>,
    pub depth: Option<i32>,
    pub blocked_by: Vec<TaskId>,
    pub blocks: Vec<TaskId>,
    pub effectively_blocked: bool,
    pub cancelled: bool,
    pub cancelled_at: Option<Timestamp>,
    pub archived: bool,
    pub archived_at: Option<Timestamp>,
}

/// The view of a task.
#[verifier::ext_equal]
pub struct TaskView {
    pub row: RowView,
    pub context_chain: Option<ContextView>,
    pub learnings: Option<InheritedView>,
    pub depth: Option<i32>,
    pub blocked_by: Seq<TaskId>,
    pub blocks: Seq<TaskId>,
    pub effectively_blocked: bool,
}

impl View for Task {
    type V = TaskView;

    open spec fn view(&self) -> TaskView {
        TaskView {
            row: RowView {
                id: self.id,
                parent_id: self.parent_id,
                description: self.description@,
                context: self.context@,
                result: text::opt_text(self.result),
                priority: self.priority,
                completed: self.completed,
                completed_at: self.completed_at,
                created_at: self.created_at,
                updated_at: self.updated_at,
                started_at: self.started_at,
                commit_sha: text::opt_text(self.commit_sha),
                bookmark: text::opt_text(self.bookmark),
                start_commit: text::opt_text(self.start_commit),
                base_ref: text::opt_text(self.base_ref),
                repo_path: text::opt_text(self.repo_path),
                cancelled: self.cancelled,
                cancelled_at: self.cancelled_at,
                archived: self.archived,
                archived_at: self.archived_at,
            },
            context_chain: match self.context_chain {
                Some(c) => Some(c@),
                None => None,
            },
            learnings: match self.learnings {
                Some(l) => Some(l@),
                None => None,
            },
            depth: self.depth,
            blocked_by: self.blocked_by@,
            blocks: self.blocks@,
            effectively_blocked: self.effectively_blocked,
        }
    }
}

/// The views of a sequence of tasks.
pub open spec fn task_views(s: Seq<Task>) -> Seq<TaskView> {
    s.map_values(|t: Task| t@)
}

/// What a new task is made of.
#[derive(Clone, Debug)]
pub struct CreateTaskInput {
    pub description: String,
    pub context: Option<String>,
    pub parent_id: Option<TaskId>,
    pub priority: Option<i32>,
    pub blocked_by: Vec<TaskId>,
    pub repo_path: Option<String>,
}

/// The view of a new task's input.
#[verifier::ext_equal]
pub struct CreateView {
    pub description: Seq<char>,
    pub context: Option<Seq<char>>,
    pub parent_id: Option<TaskId>,
    pub priority: Option<i32>,
    pub blocked_by: Seq<TaskId>,
    pub repo_path: Option<Seq<char>>,
}

impl View for CreateTaskInput {
    type V = CreateView;

    open spec fn view(&self) -> CreateView {
        CreateView {
            description: self.description@,
            context: text::opt_text(self.context),
            parent_id: self.parent_id,
            priority: self.priority,
            blocked_by: self.blocked_by@,
            repo_path: text::opt_text(self.repo_path),
        }
    }
}

impl Default for CreateTaskInput {
    fn default() -> (out: Self)
        ensures
            out@ == (CreateView {
                description: Seq::empty(),
                context: None,
                parent_id: None,
                priority: None,
                blocked_by: Seq::empty(),
                repo_path: None,
            }),
    {
        CreateTaskInput {
            description: String::new(),
            context: None,
            parent_id: None,
            priority: None,
            blocked_by: Vec::new(),
            repo_path: None,
        }
    }
}

/// The fields of a task that an update sets.
#[derive(Clone, Debug)]
pub struct UpdateTaskInput {
    pub description: Option<String>,
    pub context: Option<String>,
    pub priority: Option<i32>,
    pub parent_id: Option<TaskId>,
    pub repo_path: Option<String>,
    pub clear_repo_path: bool,
}

/// The view of an update.
pub struct UpdateView {
    pub description: Option<Seq<char>>,
    pub context: Option<Seq<char>>,
    pub priority: Option<i32>,
    pub parent_id: Option<TaskId>,
    pub repo_path: Option<Seq<char>>,
    pub clear_repo_path: bool,
}

impl View for UpdateTaskInput {
    type V = UpdateView;

    open spec fn view(&self) -> UpdateView {
        UpdateView {
            description: text::opt_text(self.description),
            context: text::opt_text(self.context),
            priority: self.priority,
            parent_id: self.parent_id,
            repo_path: text::opt_text(self.repo_path),
            clear_repo_path: self.clear_repo_path,
        }
    }
}

impl Default for UpdateTaskInput {
    fn default() -> (out: Self)
        ensures
            out@ == (UpdateView {
                description: None,
                context: None,
                priority: None,
                parent_id: None,
                repo_path: None,
                clear_repo_path: false,
            }),
    {
        UpdateTaskInput {
            description: None,
            context: None,
            priority: None,
            parent_id: None,
            repo_path: None,
            clear_repo_path: false,
        }
    }
}

/// Which tasks a listing shows. An absent condition lets every task through.
#[derive(Clone, Debug)]
pub struct ListTasksFilter {
    pub parent_id: Option<TaskId>,
    pub ready: bool,
    pub completed: Option<bool>,
    pub depth: Option<i32>,
    pub archived: Option<bool>,
    pub repo_path: Option<String>,
}

/// The view of a listing's filter.
pub struct FilterView {
    pub parent_id: Option<TaskId>,
    pub ready: bool,
    pub completed: Option<bool>,
    pub depth: Option<i32>,
    pub archived: Option<bool>,
    pub repo_path: Option<Seq<char>>,
}

impl View for ListTasksFilter {
    type V = FilterView;

    open spec fn view(&self) -> FilterView {
        FilterView {
            parent_id: self.parent_id,
            ready: self.ready,
            completed: self.completed,
            depth: self.depth,
            archived: self.archived,
            repo_path: text::opt_text(self.repo_path),
        }
    }
}

impl Default for ListTasksFilter {
    fn default() -> (out: Self)
        ensures
            out@ == (FilterView {
                parent_id: None,
                ready: false,
                completed: None,
                depth: None,
                archived: None,
                repo_path: None,
            }),
    {
        ListTasksFilter {
            parent_id: None,
            ready: false,
            completed: None,
            depth: None,
            archived: None,
            repo_path: None,
        }
    }
}

impl LifecycleState {
    /// The name of a state.
    pub open spec fn name(self) -> Seq<char> {
        match self {
            LifecycleState::Pending => "Pending"@,
            LifecycleState::InProgress => "InProgress"@,
            LifecycleState::Completed => "Completed"@,
            LifecycleState::Cancelled => "Cancelled"@,
            LifecycleState::Archived => "Archived"@,
        }
    }

    /// The name of a state.
    pub fn to_text(self) -> (out: String)
        ensures
            out@ == self.name(),
    {
        match self {
            LifecycleState::Pending => text::owned("Pending"),
            LifecycleState::InProgress => text::owned("InProgress"),
            LifecycleState::Completed => text::owned("Completed"),
            LifecycleState::Cancelled => text::owned("Cancelled"),
            LifecycleState::Archived => text::owned("Archived"),
        }
    }
}

impl Task {
    /// The state in which the task is.
    pub fn lifecycle_state(&self) -> (s: LifecycleState)
        ensures
            s == self@.row.state(),
    {
        if self.archived {
            LifecycleState::Archived
        } else if self.cancelled {
            LifecycleState::Cancelled
        } else if self.completed {
            LifecycleState::Completed
        } else if self.started_at.is_some() {
            LifecycleState::InProgress
        } else {
            LifecycleState::Pending
        }
    }

    /// Whether work on the task can go on.
    pub fn is_active_for_work(&self) -> (b: bool)
        ensures
            b == self@.row.active(),
    {
        !self.completed && !self.cancelled && !self.archived
    }

    /// Whether the task no longer holds its parent up.
    pub fn is_finished_for_hierarchy(&self) -> (b: bool)
        ensures
            b == self@.row.finished(),
    {
        self.completed || self.cancelled
    }

    /// Whether the task, as a blocker, lets its dependents go.
    pub fn satisfies_blocker(&self) -> (b: bool)
        ensures
            b == self@.row.satisfies(),
    {
        self.completed && !self.cancelled
    }
}

impl Learning {
    /// A copy of the learning.
    pub fn copy(&self) -> (out: Learning)
        ensures
            out@ == self@,
    {
        Learning {
            id: self.id,
            task_id: self.task_id,
            content: self.content.clone(),
            source_task_id: self.source_task_id,
            created_at: self.created_at,
        }
    }
}

impl TaskRow {
    /// A copy of the row.
    pub fn copy(&self) -> (out: TaskRow)
        ensures
            out@ == self@,
    {
        TaskRow {
            id: self.id,
            parent_id: self.parent_id,
            description: self.description.clone(),
            context: self.context.clone(),
            result: text::clone_opt(&self.result),
            priority: self.priority,
            completed: self.completed,
            completed_at: self.completed_at,
            created_at: self.created_at,
            updated_at: self.updated_at,
            started_at: self.started_at,
            commit_sha: text::clone_opt(&self.commit_sha),
            bookmark: text::clone_opt(&self.bookmark),
            start_commit: text::clone_opt(&self.start_commit),
            base_ref: text::clone_opt(&self.base_ref),
            repo_path: text::clone_opt(&self.repo_path),
            cancelled: self.cancelled,
            cancelled_at: self.cancelled_at,
            archived: self.archived,
            archived_at: self.archived_at,
        }
    }

    /// The task that the row holds, with nothing computed for it yet.
    pub fn to_task(&self) -> (out: Task)
        ensures
            out@ == (TaskView {
                row: self@,
                context_chain: None,
                learnings: None,
                depth: None,
                blocked_by: Seq::empty(),
                blocks: Seq::empty(),
                effectively_blocked: false,
            }),
    {
        Task {
            id: self.id,
            parent_id: self.parent_id,
            description: self.description.clone(),
            context: self.context.clone(),
            context_chain: None,
            learnings: None,
            result: text::clone_opt(&self.result),
            priority: self.priority,
            completed: self.completed,
            completed_at: self.completed_at,
            created_at: self.created_at,
            updated_at: self.updated_at,
            started_at: self.started_at,
            commit_sha: text::clone_opt(&self.commit_sha),
            bookmark: text::clone_opt(&self.bookmark),
            start_commit: text::clone_opt(&self.start_commit),
            base_ref: text::clone_opt(&self.base_ref),
            repo_path: text::clone_opt(&self.repo_path),
            depth: None,
            blocked_by: Vec::new(),
            blocks: Vec::new(),
            effectively_blocked: false,
            cancelled: self.cancelled,
            cancelled_at: self.cancelled_at,
            archived: self.archived,
            archived_at: self.archived_at,
        }
    }
}

} // verus!
