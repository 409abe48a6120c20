//! The commands on tasks.
use vstd::prelude::*;

use crate::commands::args::{CreateArgs, ListArgs, TaskCommand, UpdateArgs};
use crate::db::task_repo;
use crate::error;
use crate::error::{Fault, OsError};
use crate::id::TaskId;
use crate::model;
use crate::model::Db;
use crate::paths;
use crate::service::context;
use crate::service::context::{TaskWithContext, WithContextView};
use crate::service::readiness;
use crate::service::ready_laws;
use crate::service::rules;
use crate::service::task_service::TaskService;
use crate::service::workflow_service;
use crate::service::workflow_service::{Step, StepView, TaskWorkflowService};
use crate::text;
use crate::time::Timestamp;
use crate::types;
use crate::types::{
    CreateTaskInput, CreateView, FilterView, ListTasksFilter, RowView, Task, TaskView,
    UpdateTaskInput, UpdateView,
};
use crate::vcs::backend::VcsError;

verus! {

/// How far a group of tasks has come.
#[derive(Clone, Copy, PartialEq, Eq, Structural, Debug)]
pub struct TaskProgressResult {
    pub total: usize,
    pub completed: usize,
    pub ready: usize,
    pub blocked: usize,
}

/// A task with the tasks below it.
#[derive(Debug)]
pub struct TaskTree {
    pub task: Task,
    pub children: Vec<TaskTree>,
}

/// The view of a tree of tasks.
#[verifier::ext_equal]
pub struct TreeView {
    pub task: TaskView,
    pub children: Seq<TreeView>,
}

/// The view of a tree of tasks.
pub open spec fn tree_view(t: TaskTree) -> TreeView
    decreases t,
{
    TreeView {
        task: t.task@,
        children: Seq::new(
            t.children@.len(),
            |i: int|
                if 0 <= i < t.children@.len() {
                    tree_view(t.children@[i])
                } else {
                    vstd::pervasive::arbitrary()
                },
        ),
    }
}

/// The views of several trees.
pub open spec fn tree_views(s: Seq<TaskTree>) -> Seq<TreeView> {
    Seq::new(s.len(), |i: int| tree_view(s[i]))
}

/// What a command on tasks gives.
#[derive(Debug)]
pub enum TaskResult {
    One(Task),
    OneWithContext(TaskWithContext),
    MaybeOneWithContext(Option<TaskWithContext>),
    Many(Vec<Task>),
    Deleted,
    Tree(TaskTree),
    Trees(Vec<TaskTree>),
    Progress(TaskProgressResult),
}

/// The view of what a command on tasks gives.
#[verifier::ext_equal]
pub enum ResultView {
    One(TaskView),
    OneWithContext(WithContextView),
    MaybeOneWithContext(Option<WithContextView>),
    Many(Seq<TaskView>),
    Deleted,
    Tree(TreeView),
    Trees(Seq<TreeView>),
    Progress(TaskProgressResult),
}

impl View for TaskResult {
    type V = ResultView;

    open spec fn view(&self) -> ResultView {
        match self {
            TaskResult::One(t) => ResultView::One(t@),
            TaskResult::OneWithContext(t) => ResultView::OneWithContext(t@),
            TaskResult::MaybeOneWithContext(Some(t)) => ResultView::MaybeOneWithContext(Some(t@)),
            TaskResult::MaybeOneWithContext(None) => ResultView::MaybeOneWithContext(None),
            TaskResult::Many(ts) => ResultView::Many(types::task_views(ts@)),
            TaskResult::Deleted => ResultView::Deleted,
            TaskResult::Tree(t) => ResultView::Tree(tree_view(*t)),
            TaskResult::Trees(ts) => ResultView::Trees(tree_views(ts@)),
            TaskResult::Progress(p) => ResultView::Progress(*p),
        }
    }
}

// ---- what the arguments mean ----

/// The new task that the arguments of a creation describe.
pub open spec fn create_view(args: CreateArgs) -> CreateView {
    CreateView {
        description: args.description@,
        context: text::opt_text(args.context),
        parent_id: args.parent,
        priority: args.priority,
        blocked_by: args.blocked_by@,
        repo_path: text::opt_text(args.repo),
    }
}

/// The change that the arguments of an update describe.
pub open spec fn update_view(args: UpdateArgs) -> UpdateView {
    UpdateView {
        description: text::opt_text(args.description),
        context: text::opt_text(args.context),
        priority: args.priority,
        parent_id: args.parent,
        repo_path: text::opt_text(args.repo),
        clear_repo_path: args.clear_repo,
    }
}

/// The filter that the arguments of a listing describe. Archived tasks are hidden unless they are
/// asked for.
pub open spec fn list_view(args: ListArgs) -> FilterView {
    FilterView {
        parent_id: args.parent,
        ready: args.ready,
        completed: if args.completed {
            Some(true)
        } else {
            None
        },
        depth: if args.milestones {
            Some(0i32)
        } else if args.tasks {
            Some(1i32)
        } else if args.subtasks {
            Some(2i32)
        } else {
            None
        },
        archived: if args.archived {
            Some(true)
        } else if args.all {
            None
        } else {
            Some(false)
        },
        repo_path: text::opt_text(args.repo),
    }
}

/// The filter that lets every task through.
pub open spec fn any_task() -> FilterView {
    FilterView {
        parent_id: None,
        ready: false,
        completed: None,
        depth: None,
        archived: None,
        repo_path: None,
    }
}

/// The filter that lets the children of a task through.
pub open spec fn children_of(id: TaskId) -> FilterView {
    FilterView { parent_id: Some(id), ..any_task() }
}

/// The filter that lets milestones through.
pub open spec fn milestones() -> FilterView {
    FilterView { depth: Some(0), ..any_task() }
}

// ---- trees ----

/// The tree of a task, down to `levels` levels below it.
pub open spec fn tree(d: Db, t: TaskView, levels: nat) -> TreeView
    decreases levels,
{
    if levels == 0 {
        TreeView { task: t, children: Seq::empty() }
    } else {
        let ids = rules::list_ids(d, children_of(t.row.id));
        TreeView {
            task: t,
            children: Seq::new(
                ids.len(),
                |i: int| tree(d, d.task(ids[i]), (levels - 1) as nat),
            ),
        }
    }
}

/// The trees of these tasks.
pub open spec fn trees(d: Db, ids: Seq<TaskId>) -> Seq<TreeView> {
    Seq::new(ids.len(), |i: int| tree(d, d.task(ids[i]), 3))
}

/// A filter for the children of a task.
fn children_filter(id: TaskId) -> (out: ListTasksFilter)
    ensures
        out@ == children_of(id),
{
    ListTasksFilter {
        parent_id: Some(id),
        ready: false,
        completed: None,
        depth: None,
        archived: None,
        repo_path: None,
    }
}

/// Builds the trees of listed tasks, down to `levels` levels below them.
fn grow(svc: &TaskService, list: Vec<Task>, levels: usize) -> (out: Vec<TaskTree>)
    requires
        svc@.wf(),
    ensures
        out@.len() == list@.len(),
        forall|i: int|
            0 <= i < out@.len() ==> tree_view(#[trigger] out@[i]) == tree(
                svc@,
                list@[i]@,
                levels as nat,
            ),
    decreases levels, 1nat,
{
    let ghost all = list@;
    let mut left: Vec<Task> = list;
    let mut out: Vec<TaskTree> = Vec::new();
    while left.len() > 0
        invariant
            svc@.wf(),
            left@ == all.skip(out@.len() as int),
            out@.len() <= all.len(),
            forall|i: int|
                0 <= i < out@.len() ==> tree_view(#[trigger] out@[i]) == tree(
                    svc@,
                    all[i]@,
                    levels as nat,
                ),
        decreases left.len(),
    {
        let ghost n = out@.len() as int;
        assert(left@[0] == all[n]);
        let task: Task = left.remove(0);
        assert(left@ =~= all.skip(n + 1));
        let node: TaskTree = build_tree_recursive(svc, task, levels);
        let ghost before = out@;
        out.push(node);
        assert forall|i: int| 0 <= i < out@.len() implies tree_view(#[trigger] out@[i]) == tree(
            svc@,
            all[i]@,
            levels as nat,
        ) by {
            if i < n {
                assert(out@[i] == before[i]);
            }
        }
    }
    assert(left@.len() == 0);
    out
}

/// Builds the tree of a task, down to `levels` levels below it.
pub fn build_tree_recursive(svc: &TaskService, task: Task, levels: usize) -> (out: TaskTree)
    requires
        svc@.wf(),
    ensures
        tree_view(out) == tree(svc@, task@, levels as nat),
    decreases levels, 0nat,
{
    let ghost d = svc@;
    if levels == 0 {
        let out = TaskTree { task, children: Vec::new() };
        assert(tree_view(out).children =~= Seq::<TreeView>::empty());
        return out;
    }
    let list: Vec<Task> = svc.list(&children_filter(task.id));
    let ghost ids = rules::list_ids(d, children_of(task.id));
    let ghost all = list@;
    let ghost views = types::task_views(all);
    let children: Vec<TaskTree> = grow(svc, list, levels - 1);
    let out = TaskTree { task, children };
    proof {
        assert(views == ids.map_values(|x: TaskId| d.task(x)));
        assert(views.len() == all.len());
        assert(views.len() == ids.len());
        let t = tree(d, task@, levels as nat);
        assert(tree_view(out).children =~= t.children) by {
            assert forall|i: int| 0 <= i < ids.len() implies tree_view(out).children[i]
                == t.children[i] by {
                assert(all[i]@ == views[i]);
                assert(tree_view(out.children@[i]) == tree(d, all[i]@, (levels - 1) as nat));
            }
        }
    }
    out
}

/// The tree of a task.
pub fn build_tree_for_task(svc: &TaskService, root_id: &TaskId) -> (out: Result<TaskTree, OsError>)
    requires
        svc@.wf(),
    ensures
        match out {
            Ok(t) => svc@.has(*root_id) && tree_view(t) == tree(
                svc@,
                rules::full_task(svc@, *root_id),
                3,
            ),
            Err(e) => !svc@.has(*root_id) && e@ == Fault::TaskNotFound(*root_id),
        },
{
    match svc.get(root_id) {
        Ok(task) => Ok(build_tree_recursive(svc, task, 3)),
        Err(e) => Err(e),
    }
}

/// The trees of all milestones.
pub fn build_all_trees(svc: &TaskService) -> (out: Vec<TaskTree>)
    requires
        svc@.wf(),
    ensures
        tree_views(out@) == trees(svc@, rules::list_ids(svc@, milestones())),
{
    let ghost d = svc@;
    let filter = ListTasksFilter {
        parent_id: None,
        ready: false,
        completed: None,
        depth: Some(0),
        archived: None,
        repo_path: None,
    };
    let list: Vec<Task> = svc.list(&filter);
    let ghost ids = rules::list_ids(d, milestones());
    let ghost all = list@;
    let ghost views = types::task_views(all);
    assert(filter@ == milestones());
    let out: Vec<TaskTree> = grow(svc, list, 3);
    proof {
        assert(views == ids.map_values(|x: TaskId| d.task(x)));
        assert(views.len() == all.len());
        assert(views.len() == ids.len());
        assert(tree_views(out@) =~= trees(d, ids)) by {
            assert forall|i: int| 0 <= i < ids.len() implies tree_views(out@)[i] == trees(d, ids)[i] by {
                assert(views[i] == all[i]@);
                assert(tree_view(out@[i]) == tree(d, all[i]@, 3));
            }
        }
    }
    out
}

// ---- progress ----

/// Whether a row belongs to a task or to what is below it; without a task every row does.
pub open spec fn in_scope(d: Db, root: Option<TaskId>, r: RowView) -> bool {
    root is Some ==> d.in_subtree(root->0, r.id)
}

/// How many rows have a property.
pub open spec fn count(d: Db, p: spec_fn(RowView) -> bool) -> usize {
    d.tasks.filter(p).len() as usize
}

/// How far the tasks in scope have come: what is not completed is either blocked or ready, whether
/// or not it was cancelled or archived.
pub open spec fn progress(d: Db, root: Option<TaskId>) -> TaskProgressResult {
    TaskProgressResult {
        total: count(d, |r: RowView| in_scope(d, root, r)),
        completed: count(d, |r: RowView| in_scope(d, root, r) && r.completed),
        ready: count(
            d,
            |r: RowView| in_scope(d, root, r) && !r.completed && !d.effectively_blocked(r.id),
        ),
        blocked: count(
            d,
            |r: RowView| in_scope(d, root, r) && !r.completed && d.effectively_blocked(r.id),
        ),
    }
}

/// How far a task and what is below it have come, or all tasks.
pub fn calculate_progress(svc: &TaskService, root_id: Option<TaskId>) -> (out: Result<
    TaskProgressResult,
    OsError,
>)
    requires
        svc@.wf(),
    ensures
        match out {
            Ok(p) => (root_id is Some ==> svc@.has(root_id->0)) && p == progress(svc@, root_id),
            Err(e) => root_id is Some && !svc@.has(root_id->0) && e@ == Fault::TaskNotFound(
                root_id->0,
            ),
        },
{
    let ghost d = svc@;
    if let Some(id) = root_id {
        if !task_repo::task_exists(&svc.store, &id) {
            return Err(OsError::TaskNotFound(id));
        }
    }
    let ghost s = d.tasks;
    let ghost f0 = |r: RowView| in_scope(d, root_id, r);
    let ghost f1 = |r: RowView| in_scope(d, root_id, r) && r.completed;
    let ghost f2 = |r: RowView|
        in_scope(d, root_id, r) && !r.completed && !d.effectively_blocked(r.id);
    let ghost f3 = |r: RowView|
        in_scope(d, root_id, r) && !r.completed && d.effectively_blocked(r.id);
    let mut out = TaskProgressResult { total: 0, completed: 0, ready: 0, blocked: 0 };
    let mut i: usize = 0;
    proof {
        model::lemma_filter_empty(s, f0);
        model::lemma_filter_empty(s, f1);
        model::lemma_filter_empty(s, f2);
        model::lemma_filter_empty(s, f3);
    }
    while i < svc.store.tasks.len()
        invariant
            i <= svc.store.tasks.len(),
            d == svc@,
            d.wf(),
            s == d.tasks,
            f0 == (|r: RowView| in_scope(d, root_id, r)),
            f1 == (|r: RowView| in_scope(d, root_id, r) && r.completed),
            f2 == (|r: RowView|
                in_scope(d, root_id, r) && !r.completed && !d.effectively_blocked(r.id)),
            f3 == (|r: RowView|
                in_scope(d, root_id, r) && !r.completed && d.effectively_blocked(r.id)),
            out.total == s.take(i as int).filter(f0).len(),
            out.completed == s.take(i as int).filter(f1).len(),
            out.ready == s.take(i as int).filter(f2).len(),
            out.blocked == s.take(i as int).filter(f3).len(),
            out.total <= i,
            out.completed <= i,
            out.ready <= i,
            out.blocked <= i,
        decreases svc.store.tasks.len() - i,
    {
        let r = &svc.store.tasks[i];
        proof {
            assert(s[i as int] == r@);
            model::lemma_pos(d, i as int);
            model::lemma_filter_take(s, f0, i as int);
            model::lemma_filter_take(s, f1, i as int);
            model::lemma_filter_take(s, f2, i as int);
            model::lemma_filter_take(s, f3, i as int);
        }
        let inside: bool = match root_id {
            Some(root) => r.id == root || task_repo::is_ancestor(&svc.store, &root, &r.id),
            None => true,
        };
        if inside {
            out.total += 1;
            if r.completed {
                out.completed += 1;
            }
            if !r.completed {
                if svc.chain_is_blocked(r.id) {
                    out.blocked += 1;
                } else {
                    out.ready += 1;
                }
            }
        }
        i += 1;
    }
    proof {
        model::lemma_filter_empty(s, f0);
        model::lemma_filter_empty(s, f1);
        model::lemma_filter_empty(s, f2);
        model::lemma_filter_empty(s, f3);
    }
    Ok(out)
}

// ---- searching ----

/// Whether one of these texts holds the query.
pub open spec fn any_holds(
    description: Seq<char>,
    context: Seq<char>,
    result: Option<Seq<char>>,
    query: Seq<char>,
) -> bool {
    ||| text::has_substring(description, query)
    ||| text::has_substring(context, query)
    ||| result is Some && text::has_substring(result->0, query)
}

/// Whether one of these texts holds the query.
pub fn texts_hold(description: &str, context: &str, result: &Option<String>, query: &str) -> (out:
    bool)
    ensures
        out == any_holds(description@, context@, text::opt_text(*result), query@),
{
    text::contains(description, query) || text::contains(context, query) || match result {
        Some(r) => text::contains(r.as_str(), query),
        None => false,
    }
}

/// The text in small letters, where there is one.
pub open spec fn opt_lowercase(s: Option<Seq<char>>) -> Option<Seq<char>> {
    match s {
        Some(t) => Some(text::lowercase(t)),
        None => None,
    }
}

/// Whether a task is found by a query: its description, its context or its result holds it,
/// whatever the case of the letters.
pub open spec fn found(r: RowView, query: Seq<char>) -> bool {
    any_holds(
        text::lowercase(r.description),
        text::lowercase(r.context),
        opt_lowercase(r.result),
        text::lowercase(query),
    )
}

/// The tasks that a query finds.
pub open spec fn search(d: Db, query: Seq<char>) -> Seq<TaskView> {
    rules::list(d, any_task()).filter(|t: TaskView| found(t.row, query))
}

/// The tasks that a query finds, in the order of a listing.
pub fn search_tasks(svc: &TaskService, query: &str) -> (out: Vec<Task>)
    requires
        svc@.wf(),
    ensures
        types::task_views(out@) == search(svc@, query@),
{
    let filter = ListTasksFilter {
        parent_id: None,
        ready: false,
        completed: None,
        depth: None,
        archived: None,
        repo_path: None,
    };
    assert(filter@ == any_task());
    let query_lower: String = text::to_lowercase(query);
    let list: Vec<Task> = svc.list(&filter);
    let ghost all = list@;
    let ghost views = types::task_views(all);
    let ghost f = |t: TaskView| found(t.row, query@);
    let mut left: Vec<Task> = list;
    let mut out: Vec<Task> = Vec::new();
    let ghost mut n: int = 0;
    proof {
        model::lemma_filter_empty(views, f);
        assert(types::task_views(out@) =~= views.take(0).filter(f));
    }
    while left.len() > 0
        invariant
            views == types::task_views(all),
            f == (|t: TaskView| found(t.row, query@)),
            query_lower@ == text::lowercase(query@),
            0 <= n <= all.len(),
            left@ == all.skip(n),
            types::task_views(out@) == views.take(n).filter(f),
        decreases left.len(),
    {
        proof {
            model::lemma_filter_take(views, f, n);
            assert(left@[0] == all[n]);
        }
        let task: Task = left.remove(0);
        assert(left@ =~= all.skip(n + 1));
        let ghost before = out@;
        let ghost v = task@;
        let description: String = text::to_lowercase(task.description.as_str());
        let context: String = text::to_lowercase(task.context.as_str());
        let result: Option<String> = match &task.result {
            Some(r) => Some(text::to_lowercase(r.as_str())),
            None => None,
        };
        if texts_hold(description.as_str(), context.as_str(), &result, query_lower.as_str()) {
            out.push(task);
            assert(types::task_views(out@) =~= types::task_views(before).push(v));
        }
        proof {
            n = n + 1;
        }
    }
    proof {
        assert(n == all.len());
        model::lemma_filter_empty(views, f);
    }
    out
}

// ---- handling ----

/// An answer with one task.
pub open spec fn one(r: rules::Reply) -> (Db, Result<ResultView, Fault>) {
    (
        r.0,
        match r.1 {
            Ok(t) => Ok(ResultView::One(t)),
            Err(f) => Err(f),
        },
    )
}

/// Whether a command on tasks leaves the stored state as it is.
pub open spec fn reads(cmd: TaskCommand) -> bool {
    ||| cmd is Get
    ||| cmd is List
    ||| cmd is NextReady
    ||| cmd is Tree
    ||| cmd is Search
    ||| cmd is Progress
    ||| cmd is Start
    ||| cmd is Complete
}

/// What a command that only reads gives. Starting and completing a task need a repository.
pub open spec fn seen(d: Db, cmd: TaskCommand) -> Result<ResultView, Fault> {
    match cmd {
        TaskCommand::Get { id } => match rules::get(d, id) {
            Ok(t) => Ok(ResultView::OneWithContext(context::with_context(d, t))),
            Err(f) => Err(f),
        },
        TaskCommand::List(args) => Ok(ResultView::Many(rules::list(d, list_view(args)))),
        TaskCommand::NextReady(args) => match readiness::next_ready(d, args.milestone) {
            Err(f) => Err(f),
            Ok(None) => Ok(ResultView::MaybeOneWithContext(None)),
            Ok(Some(x)) => match rules::get(d, x) {
                Ok(t) => Ok(ResultView::MaybeOneWithContext(Some(context::with_context(d, t)))),
                Err(f) => Err(f),
            },
        },
        TaskCommand::Tree(args) => match args.id {
            Some(root) => match rules::get(d, root) {
                Ok(t) => Ok(ResultView::Tree(tree(d, t, 3))),
                Err(f) => Err(f),
            },
            None => Ok(ResultView::Trees(trees(d, rules::list_ids(d, milestones())))),
        },
        TaskCommand::Search(args) => Ok(ResultView::Many(search(d, args.query@))),
        TaskCommand::Progress(args) => if args.id is Some && !d.has(args.id->0) {
            Err(Fault::TaskNotFound(args.id->0))
        } else {
            Ok(ResultView::Progress(progress(d, args.id)))
        },
        _ => Err(Fault::NotARepository),
    }
}

/// What a command on tasks does: from the stored state to the new state and the answer.
pub open spec fn handled(d: Db, cmd: TaskCommand, id: TaskId, now: Timestamp) -> (
    Db,
    Result<ResultView, Fault>,
) {
    match cmd {
        TaskCommand::Create(args) => one(rules::create(d, create_view(args), id, now)),
        TaskCommand::Update(args) => one(rules::update(d, args.id, update_view(args), now)),
        TaskCommand::Reopen { id } => one(rules::reopen(d, id, now)),
        TaskCommand::Cancel { id } => one(rules::cancel(d, id, now)),
        TaskCommand::Archive { id } => one(rules::archive(d, id, now)),
        TaskCommand::Delete { id } => {
            let r = rules::delete(d, id);
            (
                r.0,
                match r.1 {
                    Ok(_) => Ok(ResultView::Deleted),
                    Err(f) => Err(f),
                },
            )
        },
        TaskCommand::Block(args) => one(rules::add_blocker(d, args.id, args.by)),
        TaskCommand::Unblock(args) => one(rules::remove_blocker(d, args.id, args.by)),
        _ => (d, seen(d, cmd)),
    }
}

fn one_result(r: Result<Task, OsError>) -> (out: Result<TaskResult, OsError>)
    ensures
        error::outcome(out) == (match error::outcome(r) {
            Ok(t) => Ok(ResultView::One(t)),
            Err(f) => Err(f),
        }),
{
    match r {
        Ok(t) => Ok(TaskResult::One(t)),
        Err(e) => Err(e),
    }
}

/// The new task that the arguments of a creation describe.
pub fn create_input(args: CreateArgs) -> (out: CreateTaskInput)
    ensures
        out@ == create_view(args),
{
    CreateTaskInput {
        description: args.description,
        context: args.context,
        parent_id: args.parent,
        priority: args.priority,
        blocked_by: args.blocked_by,
        repo_path: args.repo,
    }
}

/// The change that the arguments of an update describe.
pub fn update_input(args: UpdateArgs) -> (out: UpdateTaskInput)
    ensures
        out@ == update_view(args),
{
    UpdateTaskInput {
        description: args.description,
        context: args.context,
        priority: args.priority,
        parent_id: args.parent,
        repo_path: args.repo,
        clear_repo_path: args.clear_repo,
    }
}

/// The filter that the arguments of a listing describe.
pub fn list_filter(args: ListArgs) -> (out: ListTasksFilter)
    ensures
        out@ == list_view(args),
{
    let depth: Option<i32> = if args.milestones {
        Some(0)
    } else if args.tasks {
        Some(1)
    } else if args.subtasks {
        Some(2)
    } else {
        None
    };
    let archived: Option<bool> = if args.archived {
        Some(true)
    } else if args.all {
        None
    } else {
        Some(false)
    };
    ListTasksFilter {
        parent_id: args.parent,
        ready: args.ready,
        completed: if args.completed {
            Some(true)
        } else {
            None
        },
        depth,
        archived,
        repo_path: args.repo,
    }
}

/// A task with its context and what was learned above it.
fn with_context_of(svc: &TaskService, id: &TaskId) -> (out: Result<TaskWithContext, OsError>)
    requires
        svc@.wf(),
    ensures
        error::outcome(out) == (match rules::get(svc@, *id) {
            Ok(t) => Ok(context::with_context(svc@, t)),
            Err(f) => Err(f),
        }),
{
    match svc.get(id) {
        Ok(task) => {
            proof {
                model::lemma_row(svc@, *id);
            }
            Ok(context::get_task_with_context(svc, task))
        },
        Err(e) => Err(e),
    }
}

/// What a command that only reads gives.
fn look(svc: &TaskService, cmd: TaskCommand) -> (out: Result<TaskResult, OsError>)
    requires
        svc@.wf(),
        reads(cmd),
    ensures
        error::outcome(out) == seen(svc@, cmd),
{
    match cmd {
        TaskCommand::Get { id } => match with_context_of(svc, &id) {
            Ok(t) => Ok(TaskResult::OneWithContext(t)),
            Err(e) => Err(e),
        },
        TaskCommand::List(args) => Ok(TaskResult::Many(svc.list(&list_filter(args)))),
        TaskCommand::NextReady(args) => match svc.next_ready(args.milestone.as_ref()) {
            Err(e) => Err(e),
            Ok(None) => Ok(TaskResult::MaybeOneWithContext(None)),
            Ok(Some(x)) => match with_context_of(svc, &x) {
                Ok(t) => Ok(TaskResult::MaybeOneWithContext(Some(t))),
                Err(e) => Err(e),
            },
        },
        TaskCommand::Tree(args) => match args.id {
            Some(root) => match build_tree_for_task(svc, &root) {
                Ok(t) => Ok(TaskResult::Tree(t)),
                Err(e) => Err(e),
            },
            None => Ok(TaskResult::Trees(build_all_trees(svc))),
        },
        TaskCommand::Search(args) => Ok(TaskResult::Many(search_tasks(svc, args.query.as_str()))),
        TaskCommand::Progress(args) => match calculate_progress(svc, args.id) {
            Ok(p) => Ok(TaskResult::Progress(p)),
            Err(e) => Err(e),
        },
        _ => Err(OsError::NotARepository),
    }
}

/// Carries out a command on tasks. A new task gets the given identifier.
pub fn handle_at(svc: &mut TaskService, cmd: TaskCommand, id: TaskId, now: Timestamp) -> (out: Result<
    TaskResult,
    OsError,
>)
    requires
        old(svc)@.wf(),
    ensures
        final(svc)@.wf(),
        (final(svc)@, error::outcome(out)) == handled(old(svc)@, cmd, id, now),
{
    match cmd {
        TaskCommand::Create(args) => one_result(svc.create_at(&create_input(args), id, now)),
        TaskCommand::Update(args) => {
            let target: TaskId = args.id;
            one_result(svc.update_at(&target, &update_input(args), now))
        },
        TaskCommand::Reopen { id } => one_result(svc.reopen_at(&id, now)),
        TaskCommand::Cancel { id } => one_result(svc.cancel_at(&id, now)),
        TaskCommand::Archive { id } => one_result(svc.archive_at(&id, now)),
        TaskCommand::Delete { id } => match svc.delete(&id) {
            Ok(_) => Ok(TaskResult::Deleted),
            Err(e) => Err(e),
        },
        TaskCommand::Block(args) => one_result(svc.add_blocker(&args.id, &args.by)),
        TaskCommand::Unblock(args) => one_result(svc.remove_blocker(&args.id, &args.by)),
        other => look(svc, other),
    }
}

/// Carries out a command on tasks, now. A new task gets a new identifier.
pub fn handle(svc: &mut TaskService, cmd: TaskCommand) -> (out: Result<TaskResult, OsError>)
    requires
        old(svc)@.wf(),
    ensures
        final(svc)@.wf(),
        exists|id: TaskId, now: Timestamp|
            (final(svc)@, error::outcome(out)) == #[trigger] handled(old(svc)@, cmd, id, now),
{
    let id: TaskId = TaskId::new();
    let now: Timestamp = crate::time::now();
    handle_at(svc, cmd, id, now)
}

/// What a command needs beyond the stored tasks.
#[derive(Clone, Copy, PartialEq, Eq, Structural, Debug)]
pub enum Needs {
    /// A repository: starting and completing a task work in one.
    Repository,
    /// A repository where there is one: a deletion leaves bookmarks over.
    Leftovers,
    /// Nothing.
    Nothing,
}

/// What a command needs beyond the stored tasks.
pub fn needs(cmd: &TaskCommand) -> (out: Needs)
    ensures
        out == (match *cmd {
            TaskCommand::Start { id: _ } => Needs::Repository,
            TaskCommand::Complete(_) => Needs::Repository,
            TaskCommand::Delete { id: _ } => Needs::Leftovers,
            _ => Needs::Nothing,
        }),
{
    match cmd {
        TaskCommand::Start { id: _ } => Needs::Repository,
        TaskCommand::Complete(_) => Needs::Repository,
        TaskCommand::Delete { id: _ } => Needs::Leftovers,
        _ => Needs::Nothing,
    }
}

// ---- deleting ----

/// A bookmark that is left over, with the directory of its repository.
#[derive(Debug)]
pub struct Leftover {
    pub dir: String,
    pub bookmark: String,
}

/// The view of bookmarks that are left over: directories and names.
pub open spec fn leftover_views(s: Seq<Leftover>) -> Seq<(Seq<char>, Seq<char>)> {
    s.map_values(|l: Leftover| (l.dir@, l.bookmark@))
}

/// The directory of a task's repository.
pub open spec fn repo_dir(root: Seq<char>, repo_path: Option<Seq<char>>) -> Seq<char> {
    match repo_path {
        Some(rel) => paths::join(root, rel),
        None => root,
    }
}

/// The directory of a task's repository, below the root of the workspace where it has a path.
pub fn repo_dir_of(root: &str, repo_path: &Option<String>) -> (out: String)
    ensures
        out@ == repo_dir(root@, text::opt_text(*repo_path)),
{
    match repo_path {
        Some(rel) => paths::joined(root, rel.as_str()),
        None => text::owned(root),
    }
}

/// The directory whose repository a command works in: that of the task that it starts or completes.
/// Where there is no such task, and for any other command, it is the root of the workspace.
pub open spec fn command_dir(d: Db, cmd: TaskCommand, root: Seq<char>) -> Seq<char> {
    match cmd {
        TaskCommand::Start { id } => match readiness::resolve(d, id, Seq::empty()) {
            Ok(target) => repo_dir(root, d.row(target).repo_path),
            Err(_) => root,
        },
        TaskCommand::Complete(args) => if d.has(args.id) {
            repo_dir(root, d.row(args.id).repo_path)
        } else {
            root
        },
        _ => root,
    }
}

/// The directory whose repository a command works in.
pub fn workflow_dir(svc: &TaskService, cmd: &TaskCommand, root: &str) -> (out: String)
    requires
        svc@.wf(),
    ensures
        out@ == command_dir(svc@, *cmd, root@),
{
    proof {
        if let TaskCommand::Start { id } = cmd {
            ready_laws::law_start_target(svc@, *id);
        }
    }
    let id: TaskId = match cmd {
        TaskCommand::Start { id } => match svc.resolve_start_target(id) {
            Ok(target) => target,
            Err(_) => {
                return text::owned(root);
            },
        },
        TaskCommand::Complete(args) => args.id,
        _ => {
            return text::owned(root);
        },
    };
    match svc.get(&id) {
        Ok(task) => repo_dir_of(root, &task.repo_path),
        Err(_) => text::owned(root),
    }
}

/// The bookmarks of these tasks, each with the directory of its repository.
pub open spec fn leftovers(d: Db, ids: Seq<TaskId>, root: Seq<char>) -> Seq<(Seq<char>, Seq<char>)>
    decreases ids.len(),
{
    if ids.len() == 0 {
        Seq::empty()
    } else {
        let rest = leftovers(d, ids.drop_last(), root);
        let r = d.row(ids.last());
        if r.bookmark is Some {
            rest.push((repo_dir(root, r.repo_path), r.bookmark->0))
        } else {
            rest
        }
    }
}

/// What a deletion leaves over for the repositories to delete: the bookmarks of the task and then
/// of the tasks below it. Without a workspace nothing is left over.
pub open spec fn deletion_leftovers(d: Db, cmd: TaskCommand, workspace_root: Option<Seq<char>>) -> Seq<
    (Seq<char>, Seq<char>),
> {
    match (cmd, workspace_root) {
        (TaskCommand::Delete { id }, Some(root)) => if d.has(id) {
            leftovers(d, seq![id] + d.descendants(id), root)
        } else {
            Seq::empty()
        },
        _ => Seq::empty(),
    }
}

fn leftover_bookmarks(svc: &TaskService, ids: &Vec<TaskId>, root: &str) -> (out: Vec<Leftover>)
    requires
        svc@.wf(),
        forall|i: int| 0 <= i < ids.len() ==> svc@.has(#[trigger] ids@[i]),
    ensures
        leftover_views(out@) == leftovers(svc@, ids@, root@),
{
    let mut out: Vec<Leftover> = Vec::new();
    let mut i: usize = 0;
    assert(ids@.take(0) =~= Seq::<TaskId>::empty());
    assert(leftover_views(out@) =~= leftovers(svc@, ids@.take(0), root@));
    while i < ids.len()
        invariant
            i <= ids.len(),
            svc@.wf(),
            forall|k: int| 0 <= k < ids.len() ==> svc@.has(#[trigger] ids@[k]),
            leftover_views(out@) == leftovers(svc@, ids@.take(i as int), root@),
        decreases ids.len() - i,
    {
        let ghost before = out@;
        proof {
            assert(ids@.take(i + 1).drop_last() =~= ids@.take(i as int));
            assert(svc@.has(ids@[i as int]));
        }
        if let Some(task) = task_repo::get_task(&svc.store, &ids[i]) {
            if let Some(bookmark) = task.bookmark {
                let dir: String = repo_dir_of(root, &task.repo_path);
                let item = Leftover { dir, bookmark };
                out.push(item);
                assert(leftover_views(out@) =~= leftover_views(before).push(
                    (item.dir@, item.bookmark@),
                ));
            }
        }
        i += 1;
    }
    assert(ids@.take(ids@.len() as int) =~= ids@);
    out
}

/// The bookmarks that a deletion will leave over.
fn deletion_bookmarks(svc: &TaskService, id: TaskId, root: &str) -> (out: Vec<Leftover>)
    requires
        svc@.wf(),
        svc@.has(id),
    ensures
        leftover_views(out@) == leftovers(svc@, seq![id] + svc@.descendants(id), root@),
{
    let below: Vec<TaskId> = task_repo::descendant_ids(&svc.store, id);
    let mut ids: Vec<TaskId> = Vec::new();
    ids.push(id);
    let mut i: usize = 0;
    assert(ids@ =~= seq![id] + below@.take(0));
    while i < below.len()
        invariant
            i <= below.len(),
            ids@ == seq![id] + below@.take(i as int),
        decreases below.len() - i,
    {
        ids.push(below[i]);
        i += 1;
        assert(ids@ =~= seq![id] + below@.take(i as int));
    }
    proof {
        assert(below@.take(below@.len() as int) =~= below@);
        assert forall|k: int| 0 <= k < ids.len() implies svc@.has(#[trigger] ids@[k]) by {
            if k > 0 {
                assert(below@.contains(below@[k - 1]));
                model::lemma_descendants(svc@, id, below@[k - 1]);
            }
        }
    }
    leftover_bookmarks(svc, &ids, root)
}

/// Carries out a deletion. The second result is what the repositories still have to delete: a
/// failure there changes nothing in the answer.
pub fn handle_delete_at(
    svc: &mut TaskService,
    cmd: TaskCommand,
    workspace_root: Option<&str>,
    id: TaskId,
    now: Timestamp,
) -> (out: (Result<TaskResult, OsError>, Vec<Leftover>))
    requires
        old(svc)@.wf(),
    ensures
        final(svc)@.wf(),
        (final(svc)@, error::outcome(out.0)) == handled(old(svc)@, cmd, id, now),
        leftover_views(out.1@) == deletion_leftovers(
            old(svc)@,
            cmd,
            task_repo::opt_str(workspace_root),
        ),
{
    let ghost d = svc@;
    let left: Vec<Leftover> = match (&cmd, workspace_root) {
        (TaskCommand::Delete { id }, Some(root)) => if task_repo::task_exists(&svc.store, id) {
            deletion_bookmarks(svc, *id, root)
        } else {
            Vec::new()
        },
        _ => Vec::new(),
    };
    assert(leftover_views(left@) =~= deletion_leftovers(
        d,
        cmd,
        task_repo::opt_str(workspace_root),
    ));
    (handle_at(svc, cmd, id, now), left)
}

/// Carries out a deletion, now.
pub fn handle_delete(svc: &mut TaskService, cmd: TaskCommand, workspace_root: Option<&str>) -> (out: (
    Result<TaskResult, OsError>,
    Vec<Leftover>,
))
    requires
        old(svc)@.wf(),
    ensures
        final(svc)@.wf(),
        exists|id: TaskId, now: Timestamp|
            (final(svc)@, error::outcome(out.0)) == #[trigger] handled(old(svc)@, cmd, id, now),
        leftover_views(out.1@) == deletion_leftovers(
            old(svc)@,
            cmd,
            task_repo::opt_str(workspace_root),
        ),
{
    let id: TaskId = TaskId::new();
    let now: Timestamp = crate::time::now();
    handle_delete_at(svc, cmd, workspace_root, id, now)
}

/// The warning for a bookmark that could not be deleted.
pub fn leftover_warning(bookmark: &str, e: &VcsError) -> (out: String)
    ensures
        out@ == "warn: failed to delete bookmark "@ + bookmark@ + ": "@ + e@.message(),
{
    let a: String = text::joined("warn: failed to delete bookmark ", bookmark);
    let b: String = text::joined(a.as_str(), ": ");
    text::joined(b.as_str(), e.message().as_str())
}

// ---- commands that need a repository ----

/// What handling a command leads to: steps that a repository takes part in, or an answer.
#[derive(Debug)]
pub enum Handled {
    Step(Step),
    Answer(Result<TaskResult, OsError>),
}

/// The view of what handling a command leads to.
#[verifier::ext_equal]
pub enum HandledView {
    Step(StepView),
    Answer(Result<ResultView, Fault>),
}

impl View for Handled {
    type V = HandledView;

    open spec fn view(&self) -> HandledView {
        match self {
            Handled::Step(s) => HandledView::Step(s@),
            Handled::Answer(r) => HandledView::Answer(error::outcome(*r)),
        }
    }
}

/// A command is handled where there is a repository.
pub open spec fn handled_in_repo(d: Db, git: bool, cmd: TaskCommand, id: TaskId, now: Timestamp) -> (
    Db,
    HandledView,
) {
    match cmd {
        TaskCommand::Start { id } => (
            d,
            HandledView::Step(workflow_service::begin_follow(d, git, id)),
        ),
        TaskCommand::Complete(args) => (
            d,
            HandledView::Step(
                workflow_service::begin_complete(
                    d,
                    args.id,
                    text::opt_text(args.result),
                    text::texts(args.learnings@),
                ),
            ),
        ),
        _ => {
            let r = handled(d, cmd, id, now);
            (r.0, HandledView::Answer(r.1))
        },
    }
}

/// Carries out a command where there is a repository. Starting and completing a task take steps in
/// the repository; a new task gets the given identifier.
pub fn handle_workflow_at(
    workflow: &mut TaskWorkflowService,
    cmd: TaskCommand,
    id: TaskId,
    now: Timestamp,
) -> (out: Handled)
    requires
        old(workflow)@.wf(),
    ensures
        final(workflow)@.wf(),
        final(workflow).vcs_type == old(workflow).vcs_type,
        (final(workflow)@, out@) == handled_in_repo(
            old(workflow)@,
            old(workflow).git(),
            cmd,
            id,
            now,
        ),
        out is Step ==> workflow_service::sound_step(out->Step_0@),
{
    match cmd {
        TaskCommand::Start { id } => Handled::Step(workflow.start_follow_blockers(&id)),
        TaskCommand::Complete(args) => {
            let result: Option<&str> = match &args.result {
                Some(r) => Some(r.as_str()),
                None => None,
            };
            Handled::Step(workflow.complete_with_learnings(&args.id, result, &args.learnings))
        },
        other => Handled::Answer(handle_at(&mut workflow.task_service, other, id, now)),
    }
}

/// Carries out a command where there is a repository, now.
pub fn handle_workflow(workflow: &mut TaskWorkflowService, cmd: TaskCommand) -> (out: Handled)
    requires
        old(workflow)@.wf(),
    ensures
        final(workflow)@.wf(),
        final(workflow).vcs_type == old(workflow).vcs_type,
        exists|id: TaskId, now: Timestamp|
            (final(workflow)@, out@) == #[trigger] handled_in_repo(
                old(workflow)@,
                old(workflow).git(),
                cmd,
                id,
                now,
            ),
        out is Step ==> workflow_service::sound_step(out->Step_0@),
{
    let id: TaskId = TaskId::new();
    let now: Timestamp = crate::time::now();
    handle_workflow_at(workflow, cmd, id, now)
}

} // verus!
