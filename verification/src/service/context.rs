//! A task together with the contexts and learnings that bear on it.
use vstd::prelude::*;

use crate::db::learning_repo;
use crate::db::task_repo;
use crate::id::TaskId;
use crate::model;
use crate::model::Db;
use crate::service::rules;
use crate::service::task_service::TaskService;
use crate::types;
use crate::types::{ContextView, Learning, LearningView, Task, TaskContext, TaskView};

verus! {

/// The learnings that bear on a task: its own, its parent's and its milestone's.
#[derive(Debug)]
pub struct ContextLearnings {
    pub own: Vec<Learning>,
    pub parent: Vec<Learning>,
    pub milestone: Vec<Learning>,
}

/// The view of the learnings that bear on a task.
#[verifier::ext_equal]
pub struct ContextLearningsView {
    pub own: Seq<LearningView>,
    pub parent: Seq<LearningView>,
    pub milestone: Seq<LearningView>,
}

impl View for ContextLearnings {
    type V = ContextLearningsView;

    open spec fn view(&self) -> ContextLearningsView {
        ContextLearningsView {
            own: types::learning_views(self.own@),
            parent: types::learning_views(self.parent@),
            milestone: types::learning_views(self.milestone@),
        }
    }
}

/// A task together with the contexts and learnings that bear on it.
#[derive(Debug)]
pub struct TaskWithContext {
    pub task: Task,
    pub context: TaskContext,
    pub learnings: ContextLearnings,
}

/// The view of a task with its contexts and learnings.
#[verifier::ext_equal]
pub struct WithContextView {
    pub task: TaskView,
    pub context: ContextView,
    pub learnings: ContextLearningsView,
}

impl View for TaskWithContext {
    type V = WithContextView;

    open spec fn view(&self) -> WithContextView {
        WithContextView { task: self.task@, context: self.context@, learnings: self.learnings@ }
    }
}

/// The contexts by depth: a milestone has its own, a task its own and its milestone's, a subtask
/// those and its parent's.
pub open spec fn contexts(d: Db, id: TaskId) -> ContextView {
    let own = d.row(id).context;
    if d.depth(id) == 0 {
        ContextView { own, parent: None, milestone: None }
    } else if d.depth(id) == 1 {
        ContextView { own, parent: None, milestone: rules::context_of(d, d.up(id, 1)) }
    } else {
        ContextView {
            own,
            parent: rules::context_of(d, d.up(id, 1)),
            milestone: rules::context_of(d, d.up(id, 2)),
        }
    }
}

/// The learnings by depth, in the same way.
pub open spec fn learnings(d: Db, id: TaskId) -> ContextLearningsView {
    let own = d.learnings_of(id);
    if d.depth(id) == 0 {
        ContextLearningsView { own, parent: Seq::empty(), milestone: Seq::empty() }
    } else if d.depth(id) == 1 {
        ContextLearningsView {
            own,
            parent: Seq::empty(),
            milestone: rules::learnings_at(d, d.up(id, 1)),
        }
    } else {
        ContextLearningsView {
            own,
            parent: rules::learnings_at(d, d.up(id, 1)),
            milestone: rules::learnings_at(d, d.up(id, 2)),
        }
    }
}

/// A stored task with its contexts and learnings.
pub open spec fn with_context(d: Db, t: TaskView) -> WithContextView {
    WithContextView {
        task: t,
        context: contexts(d, t.row.id),
        learnings: learnings(d, t.row.id),
    }
}

/// Adds the contexts and learnings to a task.
pub fn get_task_with_context(svc: &TaskService, task: Task) -> (out: TaskWithContext)
    requires
        svc@.wf(),
        svc@.has(task.id),
    ensures
        out@ == with_context(svc@, task@),
{
    let ghost d = svc@;
    let id: TaskId = task.id;
    let depth: i32 = task_repo::get_task_depth(&svc.store, &id);
    proof {
        model::lemma_shallow(d, id);
    }
    let parent_id: Option<TaskId> = task_repo::get_parent(&svc.store, id);
    let milestone_id: Option<TaskId> = if depth == 1 {
        parent_id
    } else if depth >= 2 {
        svc.parent_of(parent_id)
    } else {
        None
    };
    let inner_parent: Option<TaskId> = if depth >= 2 {
        parent_id
    } else {
        None
    };
    let own_context: String = match svc.store.find(id) {
        Some(i) => svc.store.tasks[i].context.clone(),
        None => String::new(),
    };
    let context = TaskContext {
        own: own_context,
        parent: svc.context_of(inner_parent),
        milestone: svc.context_of(milestone_id),
    };
    let learned = ContextLearnings {
        own: learning_repo::list_learnings(&svc.store, &id),
        parent: svc.learnings_at(inner_parent),
        milestone: svc.learnings_at(milestone_id),
    };
    assert(context@ =~= contexts(d, id));
    assert(learned@ =~= learnings(d, id));
    TaskWithContext { task, context, learnings: learned }
}

} // verus!
