//! What the commands take, as given on the command line.
use vstd::prelude::*;

use crate::id::{LearningId, TaskId};
use crate::service::readiness;
use crate::text;

verus! {

/// A command on tasks.
#[derive(Debug)]
pub enum TaskCommand {
    Create(CreateArgs),
    Get { id: TaskId },
    List(ListArgs),
    Update(UpdateArgs),
    Start { id: TaskId },
    Complete(CompleteArgs),
    Reopen { id: TaskId },
    Cancel { id: TaskId },
    Archive { id: TaskId },
    Delete { id: TaskId },
    Block(BlockArgs),
    Unblock(UnblockArgs),
    NextReady(NextReadyArgs),
    Tree(TreeArgs),
    Search(SearchArgs),
    Progress(ProgressArgs),
}

/// What a new task is made of.
#[derive(Debug)]
pub struct CreateArgs {
    pub description: String,
    pub context: Option<String>,
    pub parent: Option<TaskId>,
    pub priority: Option<i32>,
    pub blocked_by: Vec<TaskId>,
    pub repo: Option<String>,
}

/// Which tasks to list.
#[derive(Debug)]
pub struct ListArgs {
    pub parent: Option<TaskId>,
    pub ready: bool,
    pub completed: bool,
    pub milestones: bool,
    pub tasks: bool,
    pub subtasks: bool,
    pub archived: bool,
    pub all: bool,
    pub flat: bool,
    pub repo: Option<String>,
}

/// What to change in a task.
#[derive(Debug)]
pub struct UpdateArgs {
    pub id: TaskId,
    pub description: Option<String>,
    pub context: Option<String>,
    pub priority: Option<i32>,
    pub parent: Option<TaskId>,
    pub repo: Option<String>,
    pub clear_repo: bool,
}

/// How a task is completed.
#[derive(Debug)]
pub struct CompleteArgs {
    pub id: TaskId,
    pub result: Option<String>,
    pub learnings: Vec<String>,
}

/// A blocker to add.
#[derive(Debug)]
pub struct BlockArgs {
    pub id: TaskId,
    pub by: TaskId,
}

/// A blocker to remove.
#[derive(Debug)]
pub struct UnblockArgs {
    pub id: TaskId,
    pub by: TaskId,
}

/// Where to look for the next ready task.
#[derive(Debug)]
pub struct NextReadyArgs {
    pub milestone: Option<TaskId>,
}

/// Which tree to show.
#[derive(Debug)]
pub struct TreeArgs {
    pub id: Option<TaskId>,
}

/// What to search for.
#[derive(Debug)]
pub struct SearchArgs {
    pub query: String,
}

/// Whose progress to show.
#[derive(Debug)]
pub struct ProgressArgs {
    pub id: Option<TaskId>,
}

/// A command on learnings.
#[derive(Debug)]
pub enum LearningCommand {
    Add(AddArgs),
    List { task_id: TaskId },
    Delete { id: LearningId },
}

/// A learning to add.
#[derive(Debug)]
pub struct AddArgs {
    pub task_id: TaskId,
    pub content: String,
    pub source: Option<TaskId>,
}

/// A command on the repository.
#[derive(Debug)]
pub enum VcsCommand {
    Detect,
    Status,
    Log(LogArgs),
    Diff(DiffArgs),
    Commit(CommitArgs),
    Cleanup(CleanupArgs),
}

/// How much of the history to show.
#[derive(Debug)]
pub struct LogArgs {
    pub limit: usize,
}

/// What to compare with.
#[derive(Debug)]
pub struct DiffArgs {
    pub base: Option<String>,
}

/// What to say of a commit.
#[derive(Debug)]
pub struct CommitArgs {
    pub message: String,
}

/// Whether orphaned branches are deleted or only shown.
#[derive(Debug)]
pub struct CleanupArgs {
    pub delete: bool,
}

/// A command on the data as a whole.
#[derive(Debug)]
pub enum DataCommand {
    /// Writes everything to a file.
    Export { output: Option<String> },
}

/// Whether two commands on tasks ask for the same.
pub open spec fn same_task_cmd(a: TaskCommand, b: TaskCommand) -> bool {
    match (a, b) {
        (TaskCommand::Create(x), TaskCommand::Create(y)) => {
            &&& x.description@ == y.description@
            &&& text::opt_text(x.context) == text::opt_text(y.context)
            &&& x.parent == y.parent
            &&& x.priority == y.priority
            &&& x.blocked_by@ == y.blocked_by@
            &&& text::opt_text(x.repo) == text::opt_text(y.repo)
        },
        (TaskCommand::Get { id: x }, TaskCommand::Get { id: y }) => x == y,
        (TaskCommand::List(x), TaskCommand::List(y)) => {
            &&& x.parent == y.parent
            &&& x.ready == y.ready
            &&& x.completed == y.completed
            &&& x.milestones == y.milestones
            &&& x.tasks == y.tasks
            &&& x.subtasks == y.subtasks
            &&& x.archived == y.archived
            &&& x.all == y.all
            &&& x.flat == y.flat
            &&& text::opt_text(x.repo) == text::opt_text(y.repo)
        },
        (TaskCommand::Update(x), TaskCommand::Update(y)) => {
            &&& x.id == y.id
            &&& text::opt_text(x.description) == text::opt_text(y.description)
            &&& text::opt_text(x.context) == text::opt_text(y.context)
            &&& x.priority == y.priority
            &&& x.parent == y.parent
            &&& text::opt_text(x.repo) == text::opt_text(y.repo)
            &&& x.clear_repo == y.clear_repo
        },
        (TaskCommand::Start { id: x }, TaskCommand::Start { id: y }) => x == y,
        (TaskCommand::Complete(x), TaskCommand::Complete(y)) => {
            &&& x.id == y.id
            &&& text::opt_text(x.result) == text::opt_text(y.result)
            &&& text::texts(x.learnings@) == text::texts(y.learnings@)
        },
        (TaskCommand::Reopen { id: x }, TaskCommand::Reopen { id: y }) => x == y,
        (TaskCommand::Cancel { id: x }, TaskCommand::Cancel { id: y }) => x == y,
        (TaskCommand::Archive { id: x }, TaskCommand::Archive { id: y }) => x == y,
        (TaskCommand::Delete { id: x }, TaskCommand::Delete { id: y }) => x == y,
        (TaskCommand::Block(x), TaskCommand::Block(y)) => x.id == y.id && x.by == y.by,
        (TaskCommand::Unblock(x), TaskCommand::Unblock(y)) => x.id == y.id && x.by == y.by,
        (TaskCommand::NextReady(x), TaskCommand::NextReady(y)) => x.milestone == y.milestone,
        (TaskCommand::Tree(x), TaskCommand::Tree(y)) => x.id == y.id,
        (TaskCommand::Search(x), TaskCommand::Search(y)) => x.query@ == y.query@,
        (TaskCommand::Progress(x), TaskCommand::Progress(y)) => x.id == y.id,
        _ => false,
    }
}

/// A copy of a command on tasks.
pub fn clone_task_cmd(cmd: &TaskCommand) -> (out: TaskCommand)
    ensures
        same_task_cmd(*cmd, out),
{
    match cmd {
        TaskCommand::Create(args) => TaskCommand::Create(
            CreateArgs {
                description: args.description.clone(),
                context: text::clone_opt(&args.context),
                parent: args.parent,
                priority: args.priority,
                blocked_by: readiness::copy_ids(&args.blocked_by),
                repo: text::clone_opt(&args.repo),
            },
        ),
        TaskCommand::Get { id } => TaskCommand::Get { id: *id },
        TaskCommand::List(args) => TaskCommand::List(
            ListArgs {
                parent: args.parent,
                ready: args.ready,
                completed: args.completed,
                milestones: args.milestones,
                tasks: args.tasks,
                subtasks: args.subtasks,
                archived: args.archived,
                all: args.all,
                flat: args.flat,
                repo: text::clone_opt(&args.repo),
            },
        ),
        TaskCommand::Update(args) => TaskCommand::Update(
            UpdateArgs {
                id: args.id,
                description: text::clone_opt(&args.description),
                context: text::clone_opt(&args.context),
                priority: args.priority,
                parent: args.parent,
                repo: text::clone_opt(&args.repo),
                clear_repo: args.clear_repo,
            },
        ),
        TaskCommand::Start { id } => TaskCommand::Start { id: *id },
        TaskCommand::Complete(args) => TaskCommand::Complete(
            CompleteArgs {
                id: args.id,
                result: text::clone_opt(&args.result),
                learnings: text::clone_strings(&args.learnings),
            },
        ),
        TaskCommand::Reopen { id } => TaskCommand::Reopen { id: *id },
        TaskCommand::Cancel { id } => TaskCommand::Cancel { id: *id },
        TaskCommand::Archive { id } => TaskCommand::Archive { id: *id },
        TaskCommand::Delete { id } => TaskCommand::Delete { id: *id },
        TaskCommand::Block(args) => TaskCommand::Block(BlockArgs { id: args.id, by: args.by }),
        TaskCommand::Unblock(args) => TaskCommand::Unblock(
            UnblockArgs { id: args.id, by: args.by },
        ),
        TaskCommand::NextReady(args) => TaskCommand::NextReady(
            NextReadyArgs { milestone: args.milestone },
        ),
        TaskCommand::Tree(args) => TaskCommand::Tree(TreeArgs { id: args.id }),
        TaskCommand::Search(args) => TaskCommand::Search(SearchArgs { query: args.query.clone() }),
        TaskCommand::Progress(args) => TaskCommand::Progress(ProgressArgs { id: args.id }),
    }
}

/// Whether two commands on learnings ask for the same.
pub open spec fn same_learning_cmd(a: LearningCommand, b: LearningCommand) -> bool {
    match (a, b) {
        (LearningCommand::Add(x), LearningCommand::Add(y)) => x.task_id == y.task_id && x.content@
            == y.content@ && x.source == y.source,
        (LearningCommand::List { task_id: x }, LearningCommand::List { task_id: y }) => x == y,
        (LearningCommand::Delete { id: x }, LearningCommand::Delete { id: y }) => x == y,
        _ => false,
    }
}

/// A copy of a command on learnings.
pub fn clone_learning_cmd(cmd: &LearningCommand) -> (out: LearningCommand)
    ensures
        same_learning_cmd(*cmd, out),
{
    match cmd {
        LearningCommand::Add(args) => LearningCommand::Add(
            AddArgs { task_id: args.task_id, content: args.content.clone(), source: args.source },
        ),
        LearningCommand::List { task_id } => LearningCommand::List { task_id: *task_id },
        LearningCommand::Delete { id } => LearningCommand::Delete { id: *id },
    }
}

/// Whether two commands on the repository ask for the same.
pub open spec fn same_vcs_cmd(a: VcsCommand, b: VcsCommand) -> bool {
    match (a, b) {
        (VcsCommand::Detect, VcsCommand::Detect) => true,
        (VcsCommand::Status, VcsCommand::Status) => true,
        (VcsCommand::Log(x), VcsCommand::Log(y)) => x.limit == y.limit,
        (VcsCommand::Diff(x), VcsCommand::Diff(y)) => text::opt_text(x.base) == text::opt_text(
            y.base,
        ),
        (VcsCommand::Commit(x), VcsCommand::Commit(y)) => x.message@ == y.message@,
        (VcsCommand::Cleanup(x), VcsCommand::Cleanup(y)) => x.delete == y.delete,
        _ => false,
    }
}

/// A copy of a command on the repository. The cleanup of branches needs the stored tasks too and
/// goes its own way.
pub fn clone_vcs_cmd(cmd: &VcsCommand) -> (out: VcsCommand)
    requires
        !(cmd is Cleanup),
    ensures
        same_vcs_cmd(*cmd, out),
{
    match cmd {
        VcsCommand::Detect => VcsCommand::Detect,
        VcsCommand::Status => VcsCommand::Status,
        VcsCommand::Log(args) => VcsCommand::Log(LogArgs { limit: args.limit }),
        VcsCommand::Diff(args) => VcsCommand::Diff(DiffArgs { base: text::clone_opt(&args.base) }),
        VcsCommand::Commit(args) => VcsCommand::Commit(
            CommitArgs { message: args.message.clone() },
        ),
        VcsCommand::Cleanup(args) => VcsCommand::Cleanup(clone_cleanup_args(args)),
    }
}

/// A copy of the arguments of a cleanup.
pub fn clone_cleanup_args(args: &CleanupArgs) -> (out: CleanupArgs)
    ensures
        out.delete == args.delete,
{
    CleanupArgs { delete: args.delete }
}

/// A copy of a command on the data as a whole.
pub fn clone_data_cmd(cmd: &DataCommand) -> (out: DataCommand)
    ensures
        match (*cmd, out) {
            (DataCommand::Export { output: x }, DataCommand::Export { output: y }) =>
            text::opt_text(x) == text::opt_text(y),
        },
{
    match cmd {
        DataCommand::Export { output } => DataCommand::Export { output: text::clone_opt(output) },
    }
}

/// Reads the identifier of a task from the command line. The prefix has to be there.
pub fn parse_task_id(s: &str) -> (out: Result<TaskId, String>)
    ensures
        match out {
            Ok(id) => TaskId::of_text(s@) == Some(id),
            Err(e) => TaskId::of_text(s@) is None && e@ == "Invalid task ID: "@ + s@,
        },
{
    match TaskId::parse(s) {
        Some(id) => Ok(id),
        None => Err(text::joined("Invalid task ID: ", s)),
    }
}

} // verus!
