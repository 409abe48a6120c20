//! Creating, reading and changing tasks.
use vstd::prelude::*;

use crate::service::rules;
use crate::db::learning_repo;
use crate::db::store::Store;
use crate::db::task_repo;
use crate::error;
use crate::error::{Fault, OsError};
use crate::id::{LearningId, TaskId};
use crate::keep;
use crate::model;
use crate::model::{Db, MAX_DEPTH};
use crate::text;
use crate::time::Timestamp;
use crate::types;
use crate::types::{
    BlockerRelation, CreateTaskInput, InheritedLearnings, Learning, LifecycleState,
    LearningView, ListTasksFilter, RowView, Task, TaskContext, UpdateTaskInput,
};

verus! {

/// Whether a path to a repository is acceptable: relative, without `..` components.
pub fn validate_repo_path(repo_path: &str) -> (out: Result<(), OsError>)
    ensures
        match out {
            Ok(_) => rules::repo_path_fault(repo_path@) is None,
            Err(e) => rules::repo_path_fault(repo_path@) == Some(e@),
        },
{
    let chars: Vec<char> = text::chars_of(repo_path);
    if chars.len() > 0 && chars[0] == '/' {
        return Err(
            OsError::InvalidRepoPath {
                path: text::owned(repo_path),
                reason: text::owned("must be a relative path"),
            },
        );
    }
    let mut i: usize = 0;
    while i < chars.len()
        invariant
            i <= chars.len(),
            chars@ == repo_path@,
            !rules::absolute(repo_path@),
            forall|k: int| 0 <= k < i ==> !rules::dotdot_at(repo_path@, k),
        decreases chars.len() - i,
    {
        if chars.len() - i >= 2 && chars[i] == '.' && chars[i + 1] == '.' && (i == 0 || chars[i - 1]
            == '/') && (i + 2 == chars.len() || chars[i + 2] == '/') {
            assert(rules::dotdot_at(repo_path@, i as int));
            return Err(
                OsError::InvalidRepoPath {
                    path: text::owned(repo_path),
                    reason: text::owned("must not contain '..' components"),
                },
            );
        }
        i += 1;
    }
    Ok(())
}

/// The operations on stored tasks.
pub struct TaskService {
    pub store: Store,
}

impl View for TaskService {
    type V = Db;

    open spec fn view(&self) -> Db {
        self.store@
    }
}

impl TaskService {
    /// A service on the given tables.
    pub fn new(store: Store) -> (out: TaskService)
        ensures
            out@ == store@,
    {
        TaskService { store }
    }

    /// How many levels a task stands below its milestone.
    fn get_depth(&self, id: &TaskId) -> (out: i32)
        requires
            self@.wf(),
        ensures
            out == self@.depth(*id),
    {
        task_repo::get_task_depth(&self.store, id)
    }

    /// Whether `potential_ancestor` stands above `task_id`.
    fn is_ancestor(&self, potential_ancestor: &TaskId, task_id: &TaskId) -> (out: bool)
        requires
            self@.wf(),
        ensures
            out == self@.ancestor(*potential_ancestor, *task_id),
    {
        task_repo::is_ancestor(&self.store, potential_ancestor, task_id)
    }

    /// Whether `potential_descendant` stands below `task_id`.
    fn is_descendant(&self, potential_descendant: &TaskId, task_id: &TaskId) -> (out: bool)
        requires
            self@.wf(),
        ensures
            out == self@.ancestor(*task_id, *potential_descendant),
    {
        self.is_ancestor(task_id, potential_descendant)
    }

    /// Whether moving a task under a new parent would put it above itself.
    fn would_create_parent_cycle(&self, task_id: &TaskId, new_parent_id: &TaskId) -> (out: bool)
        requires
            self@.wf(),
        ensures
            out == self@.in_subtree(*task_id, *new_parent_id),
    {
        *task_id == *new_parent_id || self.is_ancestor(task_id, new_parent_id)
    }

    /// Whether the chain of tasks from one upwards waits for a blocker.
    fn is_chain_blocked(&self, from: Option<TaskId>) -> (out: bool)
        requires
            self@.wf(),
            from is Some ==> self@.has(from->0),
        ensures
            out == self@.chain_blocked(from),
        decreases (if from is Some { self@.depth(from->0) + 1 } else { 0 }),
    {
        match from {
            None => false,
            Some(id) => {
                let blockers: Vec<TaskId> = task_repo::get_blockers(&self.store, &id);
                proof {
                    model::lemma_chain_step(self@, id);
                    if self@.parent(id) is Some {
                        model::lemma_depth_child(self@, id);
                    }
                }
                if !task_repo::all_satisfied(&self.store, &blockers) {
                    return true;
                }
                let parent: Option<TaskId> = task_repo::get_parent(&self.store, id);
                self.is_chain_blocked(parent)
            },
        }
    }

    /// Whether a stored task or any task above it waits for a blocker.
    pub fn chain_is_blocked(&self, id: TaskId) -> (out: bool)
        requires
            self@.wf(),
            self@.has(id),
        ensures
            out == self@.effectively_blocked(id),
    {
        self.is_chain_blocked(Some(id))
    }

    /// Whether a task or any task above it waits for a blocker. The task's own blockers and parent
    /// are taken as given.
    pub fn is_effectively_blocked(&self, task: &Task) -> (out: Result<bool, OsError>)
        requires
            self@.wf(),
        ensures
            ({
                let own = !self@.all_satisfied(task@.blocked_by);
                let parent = task@.row.parent_id;
                match out {
                    Ok(b) => (own || parent is None || self@.has(parent->0)) && b == (own
                        || self@.chain_blocked(parent)),
                    Err(e) => !own && parent is Some && !self@.has(parent->0) && e@
                        == Fault::TaskNotFound(parent->0),
                }
            }),
    {
        if !task_repo::all_satisfied(&self.store, &task.blocked_by) {
            return Ok(true);
        }
        match task.parent_id {
            None => Ok(false),
            Some(p) => {
                if !task_repo::task_exists(&self.store, &p) {
                    return Err(OsError::TaskNotFound(p));
                }
                Ok(self.is_chain_blocked(Some(p)))
            },
        }
    }

    /// A task with its edges, its depth and whether it is effectively blocked.
    fn enriched(&self, id: TaskId) -> (out: Result<Task, OsError>)
        requires
            self@.wf(),
        ensures
            match out {
                Ok(t) => self@.has(id) && t@ == self@.task(id),
                Err(e) => !self@.has(id) && e@ == Fault::TaskNotFound(id),
            },
    {
        match task_repo::get_task(&self.store, &id) {
            Some(mut task) => {
                task.depth = Some(self.get_depth(&id));
                task.effectively_blocked = self.is_chain_blocked(Some(id));
                assert(task@ =~= self@.task(id));
                Ok(task)
            },
            None => Err(OsError::TaskNotFound(id)),
        }
    }

    /// The context of a task, where there is one.
    pub fn context_of(&self, id: Option<TaskId>) -> (out: Option<String>)
        requires
            self@.wf(),
        ensures
            text::opt_text(out) == rules::context_of(self@, id),
    {
        match id {
            Some(i) => match self.store.find(i) {
                Some(p) => Some(self.store.tasks[p].context.clone()),
                None => None,
            },
            None => None,
        }
    }

    /// The parent of a task, where there is one.
    pub fn parent_of(&self, id: Option<TaskId>) -> (out: Option<TaskId>)
        requires
            self@.wf(),
        ensures
            out == (match id {
                Some(i) => self@.parent(i),
                None => None,
            }),
    {
        match id {
            Some(i) => task_repo::get_parent(&self.store, i),
            None => None,
        }
    }

    /// The context texts that a task sees.
    fn assemble_context_chain(&self, task: &Task) -> (out: TaskContext)
        requires
            self@.wf(),
            self@.has(task.id),
            task@ == self@.task(task.id),
        ensures
            out@ == rules::context_chain(self@, task.id),
    {
        let depth: i32 = match task.depth {
            Some(d) => d,
            None => 0,
        };
        let own: String = task.context.clone();
        let parent_id: Option<TaskId> = task.parent_id;
        proof {
            model::lemma_shallow(self@, task.id);
        }
        if depth == 0 {
            TaskContext { own, parent: None, milestone: None }
        } else if depth == 1 {
            let parent: Option<String> = self.context_of(parent_id);
            TaskContext { own, parent: text::clone_opt(&parent), milestone: parent }
        } else {
            let parent: Option<String> = self.context_of(parent_id);
            let milestone_id: Option<TaskId> = self.parent_of(parent_id);
            let milestone: Option<String> = self.context_of(milestone_id);
            TaskContext { own, parent, milestone }
        }
    }

    /// The learnings of a task, where there is one.
    pub fn learnings_at(&self, id: Option<TaskId>) -> (out: Vec<Learning>)
        ensures
            types::learning_views(out@) == rules::learnings_at(self@, id),
    {
        match id {
            Some(i) => learning_repo::list_learnings(&self.store, &i),
            None => {
                let out: Vec<Learning> = Vec::new();
                assert(types::learning_views(out@) =~= Seq::empty());
                out
            },
        }
    }

    /// The learnings that a task inherits.
    fn assemble_inherited_learnings(&self, task: &Task) -> (out: InheritedLearnings)
        requires
            self@.wf(),
            self@.has(task.id),
            task@ == self@.task(task.id),
        ensures
            out@ == rules::inherited(self@, task.id),
    {
        let depth: i32 = match task.depth {
            Some(d) => d,
            None => 0,
        };
        let parent_id: Option<TaskId> = task.parent_id;
        proof {
            model::lemma_shallow(self@, task.id);
        }
        if depth == 0 {
            let out = InheritedLearnings { milestone: Vec::new(), parent: Vec::new() };
            assert(out@ =~= rules::inherited(self@, task.id));
            out
        } else if depth == 1 {
            let out = InheritedLearnings {
                milestone: self.learnings_at(parent_id),
                parent: Vec::new(),
            };
            assert(out@ =~= rules::inherited(self@, task.id));
            out
        } else {
            let parent: Vec<Learning> = self.learnings_at(parent_id);
            let milestone_id: Option<TaskId> = self.parent_of(parent_id);
            let milestone: Vec<Learning> = self.learnings_at(milestone_id);
            InheritedLearnings { milestone, parent }
        }
    }

    /// A task with its context chain and the learnings it inherits.
    pub fn get(&self, id: &TaskId) -> (out: Result<Task, OsError>)
        requires
            self@.wf(),
        ensures
            error::outcome(out) == rules::get(self@, *id),
    {
        match self.enriched(*id) {
            Ok(mut task) => {
                proof {
                    model::lemma_row(self@, *id);
                }
                let chain: TaskContext = self.assemble_context_chain(&task);
                let learnings: InheritedLearnings = self.assemble_inherited_learnings(&task);
                task.context_chain = Some(chain);
                task.learnings = Some(learnings);
                assert(task@ =~= rules::full_task(self@, *id));
                Ok(task)
            },
            Err(e) => Err(e),
        }
    }

    /// The tasks that a filter lets through, by priority and then by creation time. Ready tasks are
    /// those whose ancestors wait for nothing either.
    pub fn list(&self, filter: &ListTasksFilter) -> (out: Vec<Task>)
        requires
            self@.wf(),
        ensures
            types::task_views(out@) == rules::list(self@, filter@),
    {
        let ids: Vec<TaskId> = task_repo::list_ids(&self.store, filter);
        let ghost d = self@;
        let ghost f = |x: TaskId| filter@.ready ==> rules::ready(d, x);
        let ghost g = |x: TaskId| d.task(x);
        let mut out: Vec<Task> = Vec::new();
        let mut i: usize = 0;
        proof {
            model::lemma_listed(d, filter@);
            model::lemma_filter_empty(ids@, f);
            assert(types::task_views(out@) =~= ids@.take(0).filter(f).map_values(g));
        }
        while i < ids.len()
            invariant
                i <= ids.len(),
                d == self@,
                d.wf(),
                forall|k: int| 0 <= k < ids.len() ==> d.has(#[trigger] ids@[k]),
                f == (|x: TaskId| filter@.ready ==> rules::ready(d, x)),
                g == (|x: TaskId| d.task(x)),
                types::task_views(out@) == ids@.take(i as int).filter(f).map_values(g),
            decreases ids.len() - i,
        {
            let ghost before = out@;
            proof {
                model::lemma_filter_take(ids@, f, i as int);
            }
            assert(d.has(ids@[i as int]));
            if let Ok(task) = self.enriched(ids[i]) {
                let ghost v = task@;
                if !filter.ready || (task.is_active_for_work() && !task.effectively_blocked) {
                    out.push(task);
                    assert(types::task_views(out@) =~= types::task_views(before).push(v));
                }
            }
            i += 1;
            assert(types::task_views(out@) =~= ids@.take(i as int).filter(f).map_values(g));
        }
        proof {
            model::lemma_filter_empty(ids@, f);
        }
        out
    }

    /// Stores a new task under the given identifier.
    pub fn create_at(&mut self, input: &CreateTaskInput, id: TaskId, now: Timestamp) -> (out: Result<
        Task,
        OsError,
    >)
        requires
            old(self)@.wf(),
        ensures
            final(self)@.wf(),
            (final(self)@, error::outcome(out)) == rules::create(old(self)@, input@, id, now),
    {
        let ghost d = self@;
        if let Some(priority) = input.priority {
            if !(0 <= priority && priority <= 2) {
                return Err(OsError::InvalidPriority(priority));
            }
        }
        if let Some(path) = &input.repo_path {
            if let Err(e) = validate_repo_path(path.as_str()) {
                return Err(e);
            }
        }
        if let Some(parent_id) = input.parent_id {
            match task_repo::get_task(&self.store, &parent_id) {
                None => {
                    return Err(OsError::ParentNotFound(parent_id));
                },
                Some(parent) => {
                    if !parent.is_active_for_work() {
                        return Err(
                            OsError::CannotAttachChildToInactiveParent {
                                parent_id,
                                state: parent.lifecycle_state().to_text(),
                            },
                        );
                    }
                },
            }
            if self.get_depth(&parent_id) >= MAX_DEPTH {
                return Err(OsError::MaxDepthExceeded);
            }
        }
        let mut i: usize = 0;
        while i < input.blocked_by.len()
            invariant
                i <= input.blocked_by.len(),
                *self == *old(self),
                d == self@,
                d.wf(),
                rules::create_fault(d, input@, id) == rules::blockers_fault(
                    d,
                    input.parent_id,
                    input.blocked_by@,
                    id,
                    i as int,
                ),
                forall|k: int| 0 <= k < i ==> d.has(#[trigger] input.blocked_by@[k]),
            decreases input.blocked_by.len() - i,
        {
            let blocker_id: TaskId = input.blocked_by[i];
            if !task_repo::task_exists(&self.store, &blocker_id) {
                return Err(OsError::BlockerNotFound(blocker_id));
            }
            if let Some(parent_id) = input.parent_id {
                if blocker_id == parent_id || self.is_ancestor(&blocker_id, &parent_id) {
                    return Err(
                        OsError::InvalidBlockerRelation {
                            message: text::owned("Cannot block a task by its ancestor"),
                            task_id: id,
                            blocker_id,
                        },
                    );
                }
            }
            i += 1;
        }
        proof {
            model::lemma_first_refused(d, id, input.blocked_by@, 0);
        }
        match task_repo::create_task(&mut self.store, input, id, now) {
            Err(e) => Err(e),
            Ok(_) => self.enriched(id),
        }
    }

    /// Stores a new task now, under a new identifier.
    pub fn create(&mut self, input: &CreateTaskInput) -> (out: Result<Task, OsError>)
        requires
            old(self)@.wf(),
        ensures
            final(self)@.wf(),
            exists|id: TaskId, now: Timestamp|
                (final(self)@, error::outcome(out)) == #[trigger] rules::create(
                    old(self)@,
                    input@,
                    id,
                    now,
                ),
    {
        let id: TaskId = TaskId::new();
        let now: Timestamp = crate::time::now();
        self.create_at(input, id, now)
    }

    /// A task that may be changed.
    fn guard_mutable(&self, id: &TaskId) -> (out: Result<Task, OsError>)
        requires
            self@.wf(),
        ensures
            match out {
                Ok(t) => rules::mutable_fault(self@, *id) is None && t@ == self@.bare_task(*id),
                Err(e) => rules::mutable_fault(self@, *id) == Some(e@),
            },
    {
        match task_repo::get_task(&self.store, id) {
            None => Err(OsError::TaskNotFound(*id)),
            Some(task) => {
                if task.archived {
                    Err(OsError::CannotModifyArchived)
                } else {
                    Ok(task)
                }
            },
        }
    }

    /// How many levels of tasks there are below a task.
    fn max_subtree_depth(&self, id: &TaskId) -> (out: i32)
        requires
            self@.wf(),
            self@.has(*id),
        ensures
            out == keep::height(self@, *id),
            0 <= out <= 2 - self@.depth(*id),
        decreases 2 - self@.depth(*id),
    {
        let ghost d = self@;
        let children: Vec<TaskId> = task_repo::child_ids(&self.store, *id);
        let mut max: i32 = 0;
        let mut i: usize = 0;
        proof {
            model::lemma_children_stored(d, *id);
            model::lemma_shallow(d, *id);
        }
        while i < children.len()
            invariant
                i <= children.len(),
                d == self@,
                d.wf(),
                d.has(*id),
                children@ == d.children(*id),
                forall|k: int|
                    0 <= k < children.len() ==> d.has(#[trigger] children@[k]) && d.parent(
                        children@[k],
                    ) == Some(*id),
                0 <= max <= 2 - d.depth(*id),
                i == 0 ==> max == 0,
                i > 0 ==> max >= 1,
                forall|k: int| 0 <= k < i ==> keep::height(d, #[trigger] children@[k]) < max,
                max > 0 ==> exists|k: int|
                    0 <= k < i && keep::height(d, #[trigger] children@[k]) == max - 1,
            decreases children.len() - i,
        {
            let c: TaskId = children[i];
            assert(d.has(children@[i as int]));
            proof {
                model::lemma_depth_child(d, c);
                model::lemma_shallow(d, c);
            }
            let child_depth: i32 = 1 + self.max_subtree_depth(&c);
            if child_depth > max {
                max = child_depth;
            }
            i += 1;
        }
        proof {
            lemma_height(d, *id, max as int);
        }
        max
    }

    /// Changes the fields that an update names.
    pub fn update_at(&mut self, id: &TaskId, input: &UpdateTaskInput, now: Timestamp) -> (out:
        Result<Task, OsError>)
        requires
            old(self)@.wf(),
        ensures
            final(self)@.wf(),
            (final(self)@, error::outcome(out)) == rules::update(old(self)@, *id, input@, now),
    {
        let ghost d = self@;
        let task: Task = match self.guard_mutable(id) {
            Ok(t) => t,
            Err(e) => {
                return Err(e);
            },
        };
        if let Some(priority) = input.priority {
            if !(0 <= priority && priority <= 2) {
                return Err(OsError::InvalidPriority(priority));
            }
        }
        if input.repo_path.is_some() && input.clear_repo_path {
            return Err(
                OsError::InvalidRepoPath {
                    path: text::owned("<conflict>"),
                    reason: text::owned("cannot provide repo_path and clear_repo_path together"),
                },
            );
        }
        if let Some(path) = &input.repo_path {
            if let Err(e) = validate_repo_path(path.as_str()) {
                return Err(e);
            }
            if task.started_at.is_some() {
                return Err(
                    OsError::InvalidRepoPath {
                        path: path.clone(),
                        reason: text::owned("cannot change repo_path after task is started"),
                    },
                );
            }
        }
        if input.clear_repo_path {
            if task.started_at.is_some() {
                return Err(
                    OsError::InvalidRepoPath {
                        path: match &task.repo_path {
                            Some(p) => p.clone(),
                            None => text::owned("<none>"),
                        },
                        reason: text::owned("cannot change repo_path after task is started"),
                    },
                );
            }
        }
        assert(rules::repo_change_fault(d.row(*id), input@) is None);
        if let Some(new_parent_id) = input.parent_id {
            if let Err(e) = self.check_move(id, &new_parent_id) {
                return Err(e);
            }
        }
        assert(rules::update_fault(d, *id, input@) is None);
        let ghost r = model::updated_row(d.row(*id), input@, now);
        proof {
            model::lemma_row(d, *id);
            if input.parent_id is Some {
                keep::lemma_reparent(d, *id, r);
            } else {
                model::lemma_with_row_same_parent(d, *id, r);
            }
            model::lemma_with_row(d, *id, r);
        }
        match task_repo::update_task(&mut self.store, id, input, now) {
            Err(e) => Err(e),
            Ok(_) => self.enriched(*id),
        }
    }

    /// Whether a task may be moved under a new parent.
    fn check_move(&self, id: &TaskId, new_parent_id: &TaskId) -> (out: Result<(), OsError>)
        requires
            self@.wf(),
            self@.has(*id),
        ensures
            match out {
                Ok(_) => rules::move_fault(self@, *id, *new_parent_id) is None,
                Err(e) => rules::move_fault(self@, *id, *new_parent_id) == Some(e@),
            },
    {
        let ghost d = self@;
        match task_repo::get_task(&self.store, new_parent_id) {
            None => {
                return Err(OsError::ParentNotFound(*new_parent_id));
            },
            Some(parent) => {
                if !parent.is_active_for_work() {
                    return Err(
                        OsError::CannotAttachChildToInactiveParent {
                            parent_id: *new_parent_id,
                            state: parent.lifecycle_state().to_text(),
                        },
                    );
                }
            },
        }
        if self.would_create_parent_cycle(id, new_parent_id) {
            return Err(OsError::ParentCycle);
        }
        let parent_depth: i32 = self.get_depth(new_parent_id);
        if parent_depth >= MAX_DEPTH {
            return Err(OsError::MaxDepthExceeded);
        }
        let subtree_depth: i32 = self.max_subtree_depth(id);
        if parent_depth + 1 + subtree_depth > MAX_DEPTH {
            return Err(OsError::MaxDepthExceeded);
        }
        let blockers: Vec<TaskId> = task_repo::get_blockers(&self.store, id);
        let mut i: usize = 0;
        while i < blockers.len()
            invariant
                i <= blockers.len(),
                d == self@,
                d.wf(),
                blockers@ == d.blockers_of(*id),
                rules::first_above(d, blockers@, *new_parent_id, 0) == rules::first_above(
                    d,
                    blockers@,
                    *new_parent_id,
                    i as int,
                ),
                rules::move_fault(d, *id, *new_parent_id) == (match rules::first_above(
                    d,
                    blockers@,
                    *new_parent_id,
                    0,
                ) {
                    Some(b) => Some(
                        Fault::InvalidBlockerRelation {
                            message: "Reparent would make a blocker an ancestor"@,
                            task_id: *id,
                            blocker_id: b,
                        },
                    ),
                    None => None,
                }),
            decreases blockers.len() - i,
        {
            let b: TaskId = blockers[i];
            if b == *new_parent_id || self.is_ancestor(&b, new_parent_id) {
                return Err(
                    OsError::InvalidBlockerRelation {
                        message: text::owned("Reparent would make a blocker an ancestor"),
                        task_id: *id,
                        blocker_id: b,
                    },
                );
            }
            i += 1;
        }
        Ok(())
    }

    /// Changes the fields that an update names, now.
    pub fn update(&mut self, id: &TaskId, input: &UpdateTaskInput) -> (out: Result<Task, OsError>)
        requires
            old(self)@.wf(),
        ensures
            final(self)@.wf(),
            exists|now: Timestamp|
                (final(self)@, error::outcome(out)) == #[trigger] rules::update(
                    old(self)@,
                    *id,
                    input@,
                    now,
                ),
    {
        let now: Timestamp = crate::time::now();
        self.update_at(id, input, now)
    }

    /// Marks a task as started.
    pub fn start_at(&mut self, id: &TaskId, now: Timestamp) -> (out: Result<Task, OsError>)
        requires
            old(self)@.wf(),
        ensures
            final(self)@.wf(),
            (final(self)@, error::outcome(out)) == rules::start(old(self)@, *id, now),
    {
        if !task_repo::task_exists(&self.store, id) {
            return Err(OsError::TaskNotFound(*id));
        }
        match task_repo::start_task(&mut self.store, id, now) {
            Err(e) => Err(e),
            Ok(_) => self.enriched(*id),
        }
    }

    /// Marks a task as started now.
    pub fn start(&mut self, id: &TaskId) -> (out: Result<Task, OsError>)
        requires
            old(self)@.wf(),
        ensures
            final(self)@.wf(),
            exists|now: Timestamp|
                (final(self)@, error::outcome(out)) == #[trigger] rules::start(
                    old(self)@,
                    *id,
                    now,
                ),
    {
        let now: Timestamp = crate::time::now();
        self.start_at(id, now)
    }

    /// Completes a task: adds the learnings to it, marks it and copies all its learnings to its
    /// parent. The edges to and from it stay.
    pub fn complete_at(
        &mut self,
        id: &TaskId,
        result: Option<&str>,
        learnings: &Vec<String>,
        commit_sha: Option<&str>,
        ids: &Vec<LearningId>,
        now: Timestamp,
    ) -> (out: Result<Task, OsError>)
        requires
            old(self)@.wf(),
            ids.len() >= rules::ids_needed(old(self)@, learnings@.len()),
        ensures
            final(self)@.wf(),
            (final(self)@, error::outcome(out)) == rules::complete(
                old(self)@,
                *id,
                task_repo::opt_str(result),
                text::texts(learnings@),
                task_repo::opt_str(commit_sha),
                ids@,
                now,
            ),
    {
        let ghost d = self@;
        if !task_repo::task_exists(&self.store, id) {
            return Err(OsError::TaskNotFound(*id));
        }
        if task_repo::has_pending_children(&self.store, id) {
            return Err(OsError::PendingChildren);
        }
        let parent: Option<TaskId> = task_repo::get_parent(&self.store, *id);
        learning_repo::add_learnings(&mut self.store, *id, learnings, ids, now);
        let ghost a = self@;
        proof {
            learning_repo::lemma_adding_all(d, *id, text::texts(learnings@), ids@, now);
            keep::lemma_same_tasks(d, a);
        }
        let done: Result<Task, OsError> = task_repo::complete_task(
            &mut self.store,
            id,
            result,
            commit_sha,
            now,
        );
        let ghost b = self@;
        if let Some(p) = parent {
            proof {
                model::lemma_row(a, *id);
                let r = RowView {
                    completed: true,
                    completed_at: Some(now),
                    result: task_repo::opt_str(result),
                    commit_sha: task_repo::opt_str(commit_sha),
                    updated_at: now,
                    ..a.row(*id)
                };
                assert(b == a.with_row(*id, r));
                model::lemma_with_row(a, *id, r);
                model::lemma_depth_child(d, *id);
                assert(a.has(p));
                assert(b.has(p));
                assert(b.learnings == a.learnings);
                b.learnings.lemma_filter_len(|l: LearningView| l.task_id == *id);
            }
            let rest: Vec<LearningId> = ids_after(ids, learnings.len());
            learning_repo::bubble_learnings(&mut self.store, id, &p, &rest, now);
            proof {
                learning_repo::lemma_copying(b, b.learnings_of(*id), p, rest@, now);
                keep::lemma_same_tasks(b, self@);
            }
        }
        assert(self@ == rules::completed(
            d,
            *id,
            task_repo::opt_str(result),
            text::texts(learnings@),
            task_repo::opt_str(commit_sha),
            ids@,
            now,
        ));
        match done {
            Err(e) => Err(e),
            Ok(_) => self.enriched(*id),
        }
    }

    /// Completes a task now, with learnings and the commit that it is in.
    pub fn complete_with_learnings_and_commit_sha(
        &mut self,
        id: &TaskId,
        result: Option<&str>,
        learnings: &Vec<String>,
        commit_sha: Option<&str>,
    ) -> (out: Result<Task, OsError>)
        requires
            old(self)@.wf(),
        ensures
            final(self)@.wf(),
            exists|ids: Seq<LearningId>, now: Timestamp|
                ids.len() >= rules::ids_needed(old(self)@, learnings@.len()) && (
                    final(self)@,
                    error::outcome(out),
                ) == #[trigger] rules::complete(
                    old(self)@,
                    *id,
                    task_repo::opt_str(result),
                    text::texts(learnings@),
                    task_repo::opt_str(commit_sha),
                    ids,
                    now,
                ),
    {
        let ids: Vec<LearningId> = fresh_ids(learnings.len(), self.store.learnings.len());
        let now: Timestamp = crate::time::now();
        self.complete_at(id, result, learnings, commit_sha, &ids, now)
    }

    /// Completes a task now, with learnings. `current_commit` is the commit of the working copy,
    /// where there is one.
    pub fn complete_with_learnings(
        &mut self,
        id: &TaskId,
        result: Option<&str>,
        learnings: &Vec<String>,
        current_commit: Option<&str>,
    ) -> (out: Result<Task, OsError>)
        requires
            old(self)@.wf(),
        ensures
            final(self)@.wf(),
            exists|ids: Seq<LearningId>, now: Timestamp|
                ids.len() >= rules::ids_needed(old(self)@, learnings@.len()) && (
                    final(self)@,
                    error::outcome(out),
                ) == #[trigger] rules::complete(
                    old(self)@,
                    *id,
                    task_repo::opt_str(result),
                    text::texts(learnings@),
                    task_repo::opt_str(current_commit),
                    ids,
                    now,
                ),
    {
        self.complete_with_learnings_and_commit_sha(id, result, learnings, current_commit)
    }

    /// Completes a task now, without learnings.
    pub fn complete(&mut self, id: &TaskId, result: Option<&str>, current_commit: Option<&str>) -> (out:
        Result<Task, OsError>)
        requires
            old(self)@.wf(),
        ensures
            final(self)@.wf(),
            exists|ids: Seq<LearningId>, now: Timestamp|
                ids.len() >= rules::ids_needed(old(self)@, 0) && (
                    final(self)@,
                    error::outcome(out),
                ) == #[trigger] rules::complete(
                    old(self)@,
                    *id,
                    task_repo::opt_str(result),
                    Seq::empty(),
                    task_repo::opt_str(current_commit),
                    ids,
                    now,
                ),
    {
        let none: Vec<String> = Vec::new();
        assert(text::texts(none@) =~= Seq::<Seq<char>>::empty());
        self.complete_with_learnings(id, result, &none, current_commit)
    }

    /// Takes a completed task up again.
    pub fn reopen_at(&mut self, id: &TaskId, now: Timestamp) -> (out: Result<Task, OsError>)
        requires
            old(self)@.wf(),
        ensures
            final(self)@.wf(),
            (final(self)@, error::outcome(out)) == rules::reopen(old(self)@, *id, now),
    {
        let task: Task = match task_repo::get_task(&self.store, id) {
            Some(t) => t,
            None => {
                return Err(OsError::TaskNotFound(*id));
            },
        };
        match task.lifecycle_state() {
            LifecycleState::Completed => {},
            LifecycleState::Cancelled => {
                return Err(OsError::CannotReopenCancelled);
            },
            LifecycleState::Archived => {
                return Err(OsError::CannotModifyArchived);
            },
            other => {
                return Err(OsError::CannotReopenActive { state: other.to_text() });
            },
        }
        match task_repo::reopen_task(&mut self.store, id, now) {
            Err(e) => Err(e),
            Ok(_) => self.enriched(*id),
        }
    }

    /// Takes a completed task up again, now.
    pub fn reopen(&mut self, id: &TaskId) -> (out: Result<Task, OsError>)
        requires
            old(self)@.wf(),
        ensures
            final(self)@.wf(),
            exists|now: Timestamp|
                (final(self)@, error::outcome(out)) == #[trigger] rules::reopen(
                    old(self)@,
                    *id,
                    now,
                ),
    {
        let now: Timestamp = crate::time::now();
        self.reopen_at(id, now)
    }

    /// Removes a task and everything below it.
    pub fn delete(&mut self, id: &TaskId) -> (out: Result<(), OsError>)
        requires
            old(self)@.wf(),
        ensures
            final(self)@.wf(),
            (final(self)@, error::outcome(out)) == rules::delete(old(self)@, *id),
    {
        if !task_repo::task_exists(&self.store, id) {
            return Err(OsError::TaskNotFound(*id));
        }
        task_repo::delete_task(&mut self.store, id);
        Ok(())
    }

    /// Cancels an active task without pending children.
    pub fn cancel_at(&mut self, id: &TaskId, now: Timestamp) -> (out: Result<Task, OsError>)
        requires
            old(self)@.wf(),
        ensures
            final(self)@.wf(),
            (final(self)@, error::outcome(out)) == rules::cancel(old(self)@, *id, now),
    {
        let task: Task = match task_repo::get_task(&self.store, id) {
            Some(t) => t,
            None => {
                return Err(OsError::TaskNotFound(*id));
            },
        };
        match task.lifecycle_state() {
            LifecycleState::Completed => {
                return Err(OsError::CannotCancelCompleted);
            },
            LifecycleState::Cancelled => {
                return Err(OsError::AlreadyCancelled);
            },
            LifecycleState::Archived => {
                return Err(OsError::CannotModifyArchived);
            },
            _ => {},
        }
        if task_repo::has_pending_children(&self.store, id) {
            return Err(OsError::PendingChildren);
        }
        match task_repo::cancel_task(&mut self.store, id, now) {
            Err(e) => Err(e),
            Ok(_) => self.enriched(*id),
        }
    }

    /// Cancels an active task without pending children, now.
    pub fn cancel(&mut self, id: &TaskId) -> (out: Result<Task, OsError>)
        requires
            old(self)@.wf(),
        ensures
            final(self)@.wf(),
            exists|now: Timestamp|
                (final(self)@, error::outcome(out)) == #[trigger] rules::cancel(
                    old(self)@,
                    *id,
                    now,
                ),
    {
        let now: Timestamp = crate::time::now();
        self.cancel_at(id, now)
    }

    /// Archives a finished task, and with a milestone everything below it.
    pub fn archive_at(&mut self, id: &TaskId, now: Timestamp) -> (out: Result<Task, OsError>)
        requires
            old(self)@.wf(),
        ensures
            final(self)@.wf(),
            (final(self)@, error::outcome(out)) == rules::archive(old(self)@, *id, now),
    {
        let ghost d = self@;
        let task: Task = match task_repo::get_task(&self.store, id) {
            Some(t) => t,
            None => {
                return Err(OsError::TaskNotFound(*id));
            },
        };
        match task.lifecycle_state() {
            LifecycleState::Completed => {},
            LifecycleState::Cancelled => {},
            LifecycleState::Archived => {
                return Err(OsError::AlreadyArchived);
            },
            _ => {
                return Err(OsError::CannotArchiveActive);
            },
        }
        let depth: i32 = self.get_depth(id);
        if depth == 0 {
            if self.has_active_descendant(id) {
                return Err(OsError::CannotArchiveActive);
            }
        }
        let mut i: usize = 0;
        assert(rules::archive_fault(d, *id) is None);
        assert(self@.tasks =~= archived_upto(d, *id, now, 0));
        proof {
            model::lemma_row(d, *id);
        }
        while i < self.store.tasks.len()
            invariant
                i <= self.store.tasks.len(),
                d.wf(),
                d.has(*id),
                self@.wf(),
                depth == d.depth(*id),
                self@.tasks == archived_upto(d, *id, now, i as int),
                self@.blockers == d.blockers,
                self@.learnings == d.learnings,
                forall|x: TaskId, y: TaskId| #[trigger] self@.ancestor(x, y) == d.ancestor(x, y),
                forall|x: TaskId| #[trigger] self@.has(x) == d.has(x),
            decreases self.store.tasks.len() - i,
        {
            let ghost e = self@;
            let row_id: TaskId = self.store.tasks[i].id;
            assert(e.tasks[i as int] == self.store.tasks[i as int]@);
            assert(d.tasks[i as int] == e.tasks[i as int]);
            let marked: bool = row_id == *id || (depth == 0 && !self.store.tasks[i].archived
                && self.is_ancestor(id, &row_id));
            assert(marked == rules::archive_marks(d, *id, d.tasks[i as int]));
            if marked {
                let ghost r = model::archived_row(e.row(row_id), now);
                proof {
                    model::lemma_pos(e, i as int);
                    model::lemma_with_row_same_parent(e, row_id, r);
                    model::lemma_with_row(e, row_id, r);
                }
                let _ = task_repo::archive_task(&mut self.store, &row_id, now);
                assert(self@ == e.with_row(row_id, r));
                proof {
                    assert forall|x: TaskId, y: TaskId| #[trigger] self@.ancestor(x, y)
                        == d.ancestor(x, y) by {
                        assert(self@.ancestor(x, y) == e.ancestor(x, y));
                    }
                    assert forall|x: TaskId| #[trigger] self@.has(x) == d.has(x) by {
                        assert(self@.has(x) == e.has(x));
                    }
                }
            }
            i += 1;
            assert(self@.tasks =~= archived_upto(d, *id, now, i as int));
        }
        assert(self@ =~= rules::archived(d, *id, now));
        self.enriched(*id)
    }

    /// Whether some task below this one is not finished in any way.
    fn has_active_descendant(&self, id: &TaskId) -> (out: bool)
        requires
            self@.wf(),
        ensures
            out == exists|x: TaskId| #[trigger]
                self@.ancestor(*id, x) && !rules::over(self@.row(x)),
    {
        let ghost d = self@;
        let mut i: usize = 0;
        while i < self.store.tasks.len()
            invariant
                i <= self.store.tasks.len(),
                d == self@,
                d.wf(),
                forall|k: int|
                    0 <= k < i ==> !(d.ancestor(*id, (#[trigger] d.tasks[k]).id) && !rules::over(
                        d.tasks[k],
                    )),
            decreases self.store.tasks.len() - i,
        {
            let r = &self.store.tasks[i];
            assert(d.tasks[i as int] == r@);
            if !r.completed && !r.cancelled && !r.archived && self.is_ancestor(id, &r.id) {
                proof {
                    model::lemma_pos(d, i as int);
                }
                return true;
            }
            i += 1;
        }
        proof {
            assert forall|x: TaskId| !(#[trigger] d.ancestor(*id, x) && !rules::over(d.row(x))) by {
                if d.ancestor(*id, x) {
                    model::lemma_ancestor_stored(d, *id, x);
                    assert(d.tasks[d.pos(x)].id == x);
                }
            }
        }
        false
    }

    /// Archives a finished task, and with a milestone everything below it, now.
    pub fn archive(&mut self, id: &TaskId) -> (out: Result<Task, OsError>)
        requires
            old(self)@.wf(),
        ensures
            final(self)@.wf(),
            exists|now: Timestamp|
                (final(self)@, error::outcome(out)) == #[trigger] rules::archive(
                    old(self)@,
                    *id,
                    now,
                ),
    {
        let now: Timestamp = crate::time::now();
        self.archive_at(id, now)
    }

    /// Makes a task wait for another.
    pub fn add_blocker(&mut self, task_id: &TaskId, blocker_id: &TaskId) -> (out: Result<
        Task,
        OsError,
    >)
        requires
            old(self)@.wf(),
        ensures
            final(self)@.wf(),
            (final(self)@, error::outcome(out)) == rules::add_blocker(
                old(self)@,
                *task_id,
                *blocker_id,
            ),
    {
        let ghost d = self@;
        if let Err(e) = self.guard_mutable(task_id) {
            return Err(e);
        }
        if !task_repo::task_exists(&self.store, blocker_id) {
            return Err(OsError::BlockerNotFound(*blocker_id));
        }
        if *task_id == *blocker_id {
            return Err(
                OsError::InvalidBlockerRelation {
                    message: text::owned("Cannot block a task by itself"),
                    task_id: *task_id,
                    blocker_id: *blocker_id,
                },
            );
        }
        if self.is_ancestor(blocker_id, task_id) {
            return Err(
                OsError::InvalidBlockerRelation {
                    message: text::owned("Cannot block a task by its ancestor"),
                    task_id: *task_id,
                    blocker_id: *blocker_id,
                },
            );
        }
        if self.is_descendant(blocker_id, task_id) {
            return Err(
                OsError::InvalidBlockerRelation {
                    message: text::owned("Cannot block a task by its descendant"),
                    task_id: *task_id,
                    blocker_id: *blocker_id,
                },
            );
        }
        if self.would_create_blocker_cycle(task_id, blocker_id) {
            return Err(OsError::BlockerCycle);
        }
        if let Err(e) = task_repo::add_blocker(&mut self.store, task_id, blocker_id) {
            return Err(e);
        }
        proof {
            keep::lemma_same_tasks(d, self@);
        }
        self.get(task_id)
    }

    /// Makes a task wait for another no longer.
    pub fn remove_blocker(&mut self, task_id: &TaskId, blocker_id: &TaskId) -> (out: Result<
        Task,
        OsError,
    >)
        requires
            old(self)@.wf(),
        ensures
            final(self)@.wf(),
            (final(self)@, error::outcome(out)) == rules::remove_blocker(
                old(self)@,
                *task_id,
                *blocker_id,
            ),
    {
        let ghost d = self@;
        if let Err(e) = self.guard_mutable(task_id) {
            return Err(e);
        }
        task_repo::remove_blocker(&mut self.store, task_id, blocker_id);
        proof {
            keep::lemma_same_tasks(d, self@);
        }
        self.get(task_id)
    }

    /// Whether a task would wait for itself, directly or through others, if it waited for the
    /// given one.
    fn would_create_blocker_cycle(&self, task_id: &TaskId, new_blocker_id: &TaskId) -> (out: bool)
        requires
            self@.wf(),
            self@.has(*new_blocker_id),
        ensures
            out == rules::waits_for(self@, *new_blocker_id, *task_id),
    {
        let ghost d = self@;
        let mut visited: Vec<TaskId> = Vec::new();
        let mut stack: Vec<TaskId> = Vec::new();
        stack.push(*new_blocker_id);
        proof {
            let p = seq![*new_blocker_id];
            assert(rules::waits_along(d, p));
            assert(p[0] == *new_blocker_id && p.last() == *new_blocker_id);
        }
        while stack.len() > 0
            invariant
                d == self@,
                d.wf(),
                d.has(*new_blocker_id),
                visited@.no_duplicates(),
                visited@.contains(*new_blocker_id) || stack@.contains(*new_blocker_id),
                forall|i: int|
                    0 <= i < stack.len() ==> d.has(#[trigger] stack@[i]) && rules::waits_for(
                        d,
                        *new_blocker_id,
                        stack@[i],
                    ),
                forall|i: int| 0 <= i < visited.len() ==> d.has(#[trigger] visited@[i]),
                !visited@.contains(*task_id),
                forall|e: BlockerRelation|
                    d.blockers.contains(e) && visited@.contains(#[trigger] e.task_id)
                        ==> visited@.contains(e.blocker_id) || stack@.contains(e.blocker_id),
            decreases d.tasks.len() - visited.len(), stack.len(),
        {
            let ghost whole = stack@;
            let current: TaskId = stack[stack.len() - 1];
            stack.pop();
            assert(whole == stack@.push(current));
            assert(whole[whole.len() - 1] == current);
            proof {
                assert forall|x: TaskId| whole.contains(x) implies x == current || stack@.contains(
                    x,
                ) by {
                    let i = choose|i: int| 0 <= i < whole.len() && whole[i] == x;
                    if i < stack.len() {
                        assert(stack@[i] == x);
                    }
                }
                assert forall|i: int| 0 <= i < stack.len() implies d.has(#[trigger] stack@[i])
                    && rules::waits_for(d, *new_blocker_id, stack@[i]) by {
                    assert(whole[i] == stack@[i]);
                }
                lemma_stored_distinct(d, visited@);
            }
            if current == *task_id {
                return true;
            }
            if task_repo::holds(&visited, current) {
                continue;
            }
            let ghost seen = visited@;
            visited.push(current);
            proof {
                assert(visited@.no_duplicates());
                assert forall|i: int| 0 <= i < visited.len() implies d.has(#[trigger] visited@[i]) by {
                    if i < seen.len() {
                        assert(visited@[i] == seen[i]);
                    }
                }
                lemma_stored_distinct(d, visited@);
                assert(visited@[seen.len() as int] == current);
                assert forall|x: TaskId| seen.contains(x) implies visited@.contains(x) by {
                    let i = choose|i: int| 0 <= i < seen.len() && seen[i] == x;
                    assert(visited@[i] == x);
                }
                assert forall|x: TaskId| visited@.contains(x) implies x == current || seen.contains(
                    x,
                ) by {
                    let i = choose|i: int| 0 <= i < visited.len() && visited@[i] == x;
                    if i < seen.len() {
                        assert(seen[i] == x);
                    }
                }
            }
            let mut next: Vec<TaskId> = task_repo::get_blockers(&self.store, &current);
            let ghost added = next@;
            let ghost rest = stack@;
            stack.append(&mut next);
            proof {
                assert(stack@ == rest + added);
                assert forall|i: int| 0 <= i < stack.len() implies d.has(#[trigger] stack@[i])
                    && rules::waits_for(d, *new_blocker_id, stack@[i]) by {
                    if i < rest.len() {
                        assert(stack@[i] == rest[i]);
                    } else {
                        let b = added[i - rest.len()];
                        assert(added.contains(b));
                        lemma_blockers_of(d, current, b);
                        lemma_waits_step(d, *new_blocker_id, current, b);
                    }
                }
                assert forall|x: TaskId| rest.contains(x) implies stack@.contains(x) by {
                    let i = choose|i: int| 0 <= i < rest.len() && rest[i] == x;
                    assert(stack@[i] == x);
                }
                assert forall|e: BlockerRelation|
                    d.blockers.contains(e) && visited@.contains(
                        #[trigger] e.task_id,
                    ) implies visited@.contains(e.blocker_id) || stack@.contains(e.blocker_id) by {
                    if e.task_id == current {
                        assert(e == BlockerRelation { task_id: current, blocker_id: e.blocker_id });
                        lemma_blockers_of(d, current, e.blocker_id);
                        let i = choose|i: int| 0 <= i < added.len() && added[i] == e.blocker_id;
                        assert(stack@[rest.len() + i] == e.blocker_id);
                    } else {
                        assert(seen.contains(e.task_id));
                        if !seen.contains(e.blocker_id) {
                            assert(whole.contains(e.blocker_id));
                        }
                    }
                }
                if !seen.contains(*new_blocker_id) {
                    assert(whole.contains(*new_blocker_id));
                }
            }
        }
        proof {
            assert(stack@ =~= Seq::<TaskId>::empty());
            if rules::waits_for(d, *new_blocker_id, *task_id) {
                let p = choose|p: Seq<TaskId>| #[trigger]
                    rules::waits_along(d, p) && p[0] == *new_blocker_id && p.last() == *task_id;
                lemma_closed(d, visited@, p, p.len() - 1);
            }
        }
        false
    }
}

/// How the heights of the children of a task give its own.
proof fn lemma_height(d: Db, id: TaskId, max: int)
    requires
        d.wf(),
        d.has(id),
        0 <= max <= 2,
        d.children(id).len() == 0 ==> max == 0,
        d.children(id).len() > 0 ==> max >= 1,
        forall|k: int|
            0 <= k < d.children(id).len() ==> keep::height(d, #[trigger] d.children(id)[k]) < max,
        max > 0 ==> exists|k: int|
            0 <= k < d.children(id).len() && keep::height(d, #[trigger] d.children(id)[k]) == max
                - 1,
    ensures
        max == keep::height(d, id),
{
    let kids = d.children(id);
    if exists|x: TaskId| #[trigger] d.up(x, 2) == Some(id) {
        let x = choose|x: TaskId| #[trigger] d.up(x, 2) == Some(id);
        let c = d.up(x, 1)->0;
        model::lemma_children(d, id, c);
        assert(kids.contains(c));
        let k = choose|k: int| 0 <= k < kids.len() && kids[k] == c;
        assert(d.up(x, 1) == Some(c));
        assert(keep::height(d, kids[k]) >= 1);
    } else if exists|x: TaskId| #[trigger] d.up(x, 1) == Some(id) {
        let x = choose|x: TaskId| #[trigger] d.up(x, 1) == Some(id);
        assert(d.up(x, 0) == Some(x));
        assert(d.parent(x) == Some(id));
        model::lemma_children(d, id, x);
        assert(kids.contains(x));
        let k = choose|k: int| 0 <= k < kids.len() && keep::height(d, #[trigger] kids[k]) == max - 1;
        let c = kids[k];
        assert(kids.contains(c));
        model::lemma_children(d, id, c);
        if max >= 2 {
            if exists|y: TaskId| #[trigger] d.up(y, 1) == Some(c) {
                let y = choose|y: TaskId| #[trigger] d.up(y, 1) == Some(c);
                assert(d.up(y, 2) == Some(id));
            } else {
                let y = choose|y: TaskId| #[trigger] d.up(y, 2) == Some(c);
                assert(d.up(y, 1) is Some);
                let z = d.up(y, 1)->0;
                assert(d.up(z, 0) == Some(z));
                assert(d.up(z, 1) == Some(c));
            }
        }
    } else {
        if kids.len() > 0 {
            let c = kids[0];
            assert(kids.contains(c));
            model::lemma_children(d, id, c);
            assert(d.up(c, 0) == Some(c));
            assert(d.up(c, 1) == Some(id));
        }
    }
}

/// The rows after archiving has looked at the first `n` of them.
spec fn archived_upto(d: Db, id: TaskId, now: Timestamp, n: int) -> Seq<RowView> {
    Seq::new(
        d.tasks.len(),
        |i: int|
            if i < n && rules::archive_marks(d, id, d.tasks[i]) {
                model::archived_row(d.tasks[i], now)
            } else {
                d.tasks[i]
            },
    )
}

/// The identifiers after the first `n`.
fn ids_after(ids: &Vec<LearningId>, n: usize) -> (out: Vec<LearningId>)
    requires
        n <= ids.len(),
    ensures
        out@ == ids@.skip(n as int),
{
    let mut out: Vec<LearningId> = Vec::new();
    let mut i: usize = n;
    while i < ids.len()
        invariant
            n <= i <= ids.len(),
            out@ == ids@.subrange(n as int, i as int),
        decreases ids.len() - i,
    {
        out.push(ids[i]);
        i += 1;
        assert(out@ =~= ids@.subrange(n as int, i as int));
    }
    assert(out@ =~= ids@.skip(n as int));
    out
}

/// New identifiers, enough for completing a task with `learnings` texts where `stored` learnings
/// are stored.
pub fn fresh_ids(learnings: usize, stored: usize) -> (out: Vec<LearningId>)
    ensures
        out@.len() == 2 * learnings + stored,
{
    let mut out: Vec<LearningId> = Vec::new();
    let mut i: usize = 0;
    while i < learnings
        invariant
            i <= learnings,
            out@.len() == 2 * i,
        decreases learnings - i,
    {
        out.push(LearningId::new());
        out.push(LearningId::new());
        i += 1;
    }
    let mut j: usize = 0;
    while j < stored
        invariant
            j <= stored,
            out@.len() == 2 * learnings + j,
        decreases stored - j,
    {
        out.push(LearningId::new());
        j += 1;
    }
    out
}

/// The blockers of a task are the other ends of its edges.
pub proof fn lemma_blockers_of(d: Db, id: TaskId, b: TaskId)
    requires
        d.edges_ok(),
    ensures
        d.blockers_of(id).contains(b) <==> d.blockers.contains(
            BlockerRelation { task_id: id, blocker_id: b },
        ),
        d.blockers_of(id).contains(b) ==> d.has(b),
{
    let f = |e: BlockerRelation| e.task_id == id;
    let s = d.blockers.filter(f);
    let e = BlockerRelation { task_id: id, blocker_id: b };
    if d.blockers_of(id).contains(b) {
        let i = choose|i: int| 0 <= i < d.blockers_of(id).len() && d.blockers_of(id)[i] == b;
        d.blockers.lemma_filter_pred(f, i);
        assert(s[i] == e);
        assert(s.contains(e));
        d.blockers.lemma_filter_contains_rev(f, e);
        let j = choose|j: int| 0 <= j < d.blockers.len() && d.blockers[j] == e;
        assert(d.has(d.blockers[j].blocker_id));
    }
    if d.blockers.contains(e) {
        let j = choose|j: int| 0 <= j < d.blockers.len() && d.blockers[j] == e;
        assert(f(d.blockers[j]));
        d.blockers.lemma_filter_contains(f, j);
        let i = choose|i: int| 0 <= i < s.len() && s[i] == e;
        assert(d.blockers_of(id)[i] == b);
    }
}

/// Waiting for a task is waiting for its blockers.
pub proof fn lemma_waits_step(d: Db, from: TaskId, mid: TaskId, to: TaskId)
    requires
        rules::waits_for(d, from, mid),
        d.blockers.contains(BlockerRelation { task_id: mid, blocker_id: to }),
    ensures
        rules::waits_for(d, from, to),
{
    let p = choose|p: Seq<TaskId>| #[trigger]
        rules::waits_along(d, p) && p[0] == from && p.last() == mid;
    let q = p.push(to);
    assert forall|i: int| 0 <= i < q.len() - 1 implies #[trigger] rules::waits_at(d, q, i) by {
        if i < p.len() - 1 {
            assert(rules::waits_at(d, p, i));
            assert(p[i] == q[i]);
            assert(p[i + 1] == q[i + 1]);
        }
    }
    assert(rules::waits_along(d, q));
    assert(q[0] == from && q.last() == to);
}

/// What is closed under blockers holds the whole of a path that starts in it.
proof fn lemma_closed(d: Db, closed: Seq<TaskId>, p: Seq<TaskId>, n: int)
    requires
        rules::waits_along(d, p),
        closed.contains(p[0]),
        forall|e: BlockerRelation|
            d.blockers.contains(e) && closed.contains(#[trigger] e.task_id) ==> closed.contains(
                e.blocker_id,
            ),
        0 <= n < p.len(),
    ensures
        closed.contains(p[n]),
    decreases n,
{
    if n > 0 {
        lemma_closed(d, closed, p, n - 1);
        let e = BlockerRelation { task_id: p[n - 1], blocker_id: p[n] };
        assert(rules::waits_at(d, p, n - 1));
        assert(closed.contains(e.task_id));
    }
}

/// There are no more distinct stored identifiers than stored tasks.
pub proof fn lemma_stored_distinct(d: Db, s: Seq<TaskId>)
    requires
        s.no_duplicates(),
        forall|i: int| 0 <= i < s.len() ==> d.has(#[trigger] s[i]),
    ensures
        s.len() <= d.tasks.len(),
{
    let all = model::row_ids(d.tasks);
    s.unique_seq_to_set();
    all.lemma_cardinality_of_set();
    assert forall|x: TaskId| s.to_set().contains(x) implies all.to_set().contains(x) by {
        let i = choose|i: int| 0 <= i < s.len() && s[i] == x;
        assert(d.has(s[i]));
        let p = d.pos(x);
        assert(d.tasks[p].id == x);
        assert(all[p] == x);
    }
    vstd::set_lib::lemma_len_subset(s.to_set(), all.to_set());
}

} // verus!
