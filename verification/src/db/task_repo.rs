//! Queries and updates on tasks and their dependency edges.
use vstd::prelude::*;

use crate::db::store;
use crate::db::store::Store;
use crate::error::{ConstraintError, Fault, OsError};
use crate::id::TaskId;
use crate::keep;
use crate::model;
use crate::model::Db;
use crate::order::Rank;
use crate::order;
use crate::text;
use crate::time::Timestamp;
use crate::types::{
    BlockerRelation, CreateTaskInput, Learning, LearningView, ListTasksFilter, RowView, Task,
    TaskRow, UpdateTaskInput,
};
use crate::types;

verus! {

/// Whether there is a task with this identifier.
pub fn task_exists(db: &Store, id: &TaskId) -> (out: bool)
    requires
        db@.unique_ids(),
    ensures
        out == db@.has(*id),
{
    db.find(*id).is_some()
}

/// The blockers of a task, in the order in which they were added.
pub fn get_blockers(db: &Store, task_id: &TaskId) -> (out: Vec<TaskId>)
    ensures
        out@ == db@.blockers_of(*task_id),
{
    let mut out: Vec<TaskId> = Vec::new();
    let ghost f = |e: BlockerRelation| e.task_id == *task_id;
    let ghost g = |e: BlockerRelation| e.blocker_id;
    let mut i: usize = 0;
    proof {
        model::lemma_filter_empty(db.blockers@, f);
    }
    while i < db.blockers.len()
        invariant
            i <= db.blockers.len(),
            f == (|e: BlockerRelation| e.task_id == *task_id),
            g == (|e: BlockerRelation| e.blocker_id),
            out@ == db.blockers@.take(i as int).filter(f).map_values(g),
        decreases db.blockers.len() - i,
    {
        proof {
            model::lemma_filter_take(db.blockers@, f, i as int);
        }
        let ghost before = out@;
        if db.blockers[i].task_id == *task_id {
            out.push(db.blockers[i].blocker_id);
        }
        i += 1;
        assert(out@ =~= db.blockers@.take(i as int).filter(f).map_values(g));
    }
    proof {
        model::lemma_filter_empty(db.blockers@, f);
    }
    out
}

/// The tasks that a task blocks, in the order in which the edges were added.
pub fn get_blocking(db: &Store, blocker_id: &TaskId) -> (out: Vec<TaskId>)
    ensures
        out@ == db@.blocked_by(*blocker_id),
{
    let mut out: Vec<TaskId> = Vec::new();
    let ghost f = |e: BlockerRelation| e.blocker_id == *blocker_id;
    let ghost g = |e: BlockerRelation| e.task_id;
    let mut i: usize = 0;
    proof {
        model::lemma_filter_empty(db.blockers@, f);
    }
    while i < db.blockers.len()
        invariant
            i <= db.blockers.len(),
            f == (|e: BlockerRelation| e.blocker_id == *blocker_id),
            g == (|e: BlockerRelation| e.task_id),
            out@ == db.blockers@.take(i as int).filter(f).map_values(g),
        decreases db.blockers.len() - i,
    {
        proof {
            model::lemma_filter_take(db.blockers@, f, i as int);
        }
        if db.blockers[i].blocker_id == *blocker_id {
            out.push(db.blockers[i].task_id);
        }
        i += 1;
        assert(out@ =~= db.blockers@.take(i as int).filter(f).map_values(g));
    }
    proof {
        model::lemma_filter_empty(db.blockers@, f);
    }
    out
}

/// A task with its edges.
pub fn get_task(db: &Store, id: &TaskId) -> (out: Option<Task>)
    requires
        db@.unique_ids(),
    ensures
        match out {
            Some(t) => db@.has(*id) && t@ == db@.bare_task(*id),
            None => !db@.has(*id),
        },
{
    match db.find(*id) {
        Some(i) => {
            let mut task: Task = db.tasks[i].to_task();
            task.blocked_by = get_blockers(db, id);
            task.blocks = get_blocking(db, id);
            assert(task@ =~= db@.bare_task(*id));
            Some(task)
        },
        None => None,
    }
}

/// The parent of a task.
pub fn get_parent(db: &Store, id: TaskId) -> (out: Option<TaskId>)
    requires
        db@.unique_ids(),
    ensures
        out == db@.parent(id),
{
    match db.find(id) {
        Some(i) => db.tasks[i].parent_id,
        None => None,
    }
}

/// How many levels a task stands below its milestone.
pub fn get_task_depth(db: &Store, id: &TaskId) -> (out: i32)
    requires
        db@.wf(),
    ensures
        out == db@.depth(*id),
{
    let ghost d = db@;
    proof {
        assert(d.up(*id, 0) == Some(*id));
        assert(d.up(*id, 1) == d.parent(*id));
        if d.has(*id) {
            model::lemma_shallow(d, *id);
        }
        if d.parent(*id) is None {
            assert(d.up(*id, 1) is None);
        }
    }
    let mut depth: i32 = 0;
    let mut current: TaskId = *id;
    loop
        invariant
            d == db@,
            d.wf(),
            0 <= depth <= 2,
            d.up(*id, depth as nat) == Some(current),
            d.has(*id) ==> d.up(*id, 3) is None,
            !d.has(*id) ==> d.parent(*id) is None,
            d.up(*id, 1) == d.parent(*id),
            depth > 0 ==> d.has(*id),
        ensures
            d.up(*id, depth as nat) is Some,
            d.up(*id, (depth + 1) as nat) is None,
            0 <= depth <= 2,
        decreases 3 - depth,
    {
        assert(d.up(*id, (depth + 1) as nat) == d.parent(current));
        match get_parent(db, current) {
            Some(p) => {
                depth += 1;
                current = p;
            },
            None => {
                break;
            },
        }
    }
    proof {
        if depth == 0 {
        } else if depth == 1 {
            assert(d.up(*id, 1) is Some);
        } else {
            if d.up(*id, 1) is None {
                crate::model::lemma_up_none(d, *id, 1, 2);
            }
        }
    }
    depth
}

/// Whether a task has a child that is neither completed nor cancelled.
pub fn has_pending_children(db: &Store, id: &TaskId) -> (out: bool)
    ensures
        out == db@.has_pending_children(*id),
{
    let mut i: usize = 0;
    while i < db.tasks.len()
        invariant
            i <= db.tasks.len(),
            forall|k: int|
                0 <= k < i ==> !((#[trigger] db@.tasks[k]).parent_id == Some(*id)
                    && !db@.tasks[k].finished()),
        decreases db.tasks.len() - i,
    {
        let r = &db.tasks[i];
        assert(r@ == db@.tasks[i as int]);
        if r.parent_id == Some(*id) && !r.completed && !r.cancelled {
            return true;
        }
        i += 1;
    }
    false
}

/// Whether a task is completed. A task that is not stored is not.
pub fn is_task_completed(db: &Store, id: &TaskId) -> (out: bool)
    requires
        db@.unique_ids(),
    ensures
        out == (db@.has(*id) && db@.row(*id).completed),
{
    match db.find(*id) {
        Some(i) => db.tasks[i].completed,
        None => false,
    }
}

/// Whether a task, as a blocker, lets its dependents go. A cancelled task does not, nor does one
/// that is not stored.
pub fn is_task_satisfies_blocker(db: &Store, id: &TaskId) -> (out: bool)
    requires
        db@.unique_ids(),
    ensures
        out == db@.satisfied(*id),
{
    match db.find(*id) {
        Some(i) => db.tasks[i].completed && !db.tasks[i].cancelled,
        None => false,
    }
}

/// Whether each of these blockers lets its dependents go.
pub fn all_satisfied(db: &Store, ids: &Vec<TaskId>) -> (out: bool)
    requires
        db@.unique_ids(),
    ensures
        out == db@.all_satisfied(ids@),
{
    let mut i: usize = 0;
    while i < ids.len()
        invariant
            i <= ids.len(),
            db@.unique_ids(),
            forall|k: int| 0 <= k < i ==> db@.satisfied(#[trigger] ids@[k]),
        decreases ids.len() - i,
    {
        if !is_task_satisfies_blocker(db, &ids[i]) {
            return false;
        }
        i += 1;
    }
    true
}

/// The children of a task, in the order in which they were stored.
pub fn child_ids(db: &Store, parent_id: TaskId) -> (out: Vec<TaskId>)
    ensures
        out@ == db@.children(parent_id),
{
    let mut out: Vec<TaskId> = Vec::new();
    let ghost s = db@.tasks;
    let ghost f = |r: RowView| r.parent_id == Some(parent_id);
    let mut i: usize = 0;
    proof {
        model::lemma_filter_empty(s, f);
    }
    while i < db.tasks.len()
        invariant
            i <= db.tasks.len(),
            s == db@.tasks,
            f == (|r: RowView| r.parent_id == Some(parent_id)),
            out@ == model::row_ids(s.take(i as int).filter(f)),
        decreases db.tasks.len() - i,
    {
        proof {
            model::lemma_filter_take(s, f, i as int);
        }
        assert(s[i as int] == db.tasks[i as int]@);
        if db.tasks[i].parent_id == Some(parent_id) {
            out.push(db.tasks[i].id);
        }
        i += 1;
        assert(out@ =~= model::row_ids(s.take(i as int).filter(f)));
    }
    proof {
        model::lemma_filter_empty(s, f);
    }
    out
}

/// The milestones, in the order in which they were stored.
fn root_ids(db: &Store) -> (out: Vec<TaskId>)
    ensures
        out@ == db@.roots(),
{
    let mut out: Vec<TaskId> = Vec::new();
    let ghost s = db@.tasks;
    let ghost f = |r: RowView| r.parent_id is None;
    let mut i: usize = 0;
    proof {
        model::lemma_filter_empty(s, f);
    }
    while i < db.tasks.len()
        invariant
            i <= db.tasks.len(),
            s == db@.tasks,
            f == (|r: RowView| r.parent_id is None),
            out@ == model::row_ids(s.take(i as int).filter(f)),
        decreases db.tasks.len() - i,
    {
        proof {
            model::lemma_filter_take(s, f, i as int);
        }
        assert(s[i as int] == db.tasks[i as int]@);
        if db.tasks[i].parent_id.is_none() {
            out.push(db.tasks[i].id);
        }
        i += 1;
        assert(out@ =~= model::row_ids(s.take(i as int).filter(f)));
    }
    proof {
        model::lemma_filter_empty(s, f);
    }
    out
}

/// Puts tasks into the order in which they are taken up.
fn in_order(db: &Store, ids: &Vec<TaskId>) -> (out: Vec<TaskId>)
    requires
        db@.unique_ids(),
        forall|i: int| 0 <= i < ids.len() ==> db@.has(#[trigger] ids@[i]),
    ensures
        out@ == crate::order::ranked(ids@.map_values(|c: TaskId| db@.rank(c))),
{
    let mut ranks: Vec<Rank> = Vec::new();
    let ghost g = |c: TaskId| db@.rank(c);
    let mut i: usize = 0;
    while i < ids.len()
        invariant
            i <= ids.len(),
            db@.unique_ids(),
            g == (|c: TaskId| db@.rank(c)),
            forall|i: int| 0 <= i < ids.len() ==> db@.has(#[trigger] ids@[i]),
            ranks@ == ids@.take(i as int).map_values(g),
        decreases ids.len() - i,
    {
        assert(db@.has(ids@[i as int]));
        match db.find(ids[i]) {
            Some(p) => {
                let r = &db.tasks[p];
                ranks.push(
                    Rank {
                        completed: false,
                        depth: 0,
                        priority: r.priority,
                        created_at: r.created_at,
                        tie: 0,
                        id: r.id,
                    },
                );
            },
            None => {},
        }
        i += 1;
        assert(ranks@ =~= ids@.take(i as int).map_values(g));
    }
    assert(ids@.take(ids@.len() as int) =~= ids@);
    order::sort_ranked(&ranks)
}

/// The children of a task, in the order in which they are taken up.
pub fn child_ids_ordered(db: &Store, parent_id: TaskId) -> (out: Vec<TaskId>)
    requires
        db@.unique_ids(),
    ensures
        out@ == db@.children_ordered(parent_id),
{
    let ids: Vec<TaskId> = child_ids(db, parent_id);
    proof {
        assert forall|i: int| 0 <= i < ids.len() implies db@.has(#[trigger] ids@[i]) by {
            assert(db@.children(parent_id).contains(ids@[i]));
            model::lemma_children(db@, parent_id, ids@[i]);
        }
    }
    in_order(db, &ids)
}

/// The milestones, in the order in which they are taken up.
pub fn root_ids_ordered(db: &Store) -> (out: Vec<TaskId>)
    requires
        db@.unique_ids(),
    ensures
        out@ == db@.roots_ordered(),
{
    let ids: Vec<TaskId> = root_ids(db);
    proof {
        assert forall|i: int| 0 <= i < ids.len() implies db@.has(#[trigger] ids@[i]) by {
            let f = |r: RowView| r.parent_id is None;
            crate::model::lemma_filter_distinct_ids(db@.tasks, f);
            let s = db@.tasks.filter(f);
            assert(s[i].id == ids@[i]);
            let j = choose|j: int| 0 <= j < db@.tasks.len() && db@.tasks[j] == s[i];
            assert(db@.tasks[j].id == ids@[i]);
        }
    }
    in_order(db, &ids)
}

/// The tasks with these identifiers, with their edges.
pub fn tasks_of(db: &Store, ids: &Vec<TaskId>) -> (out: Vec<Task>)
    requires
        db@.unique_ids(),
        forall|i: int| 0 <= i < ids.len() ==> db@.has(#[trigger] ids@[i]),
    ensures
        types::task_views(out@) == ids@.map_values(|x: TaskId| db@.bare_task(x)),
{
    let mut out: Vec<Task> = Vec::new();
    let ghost g = |x: TaskId| db@.bare_task(x);
    let mut i: usize = 0;
    while i < ids.len()
        invariant
            i <= ids.len(),
            db@.unique_ids(),
            g == (|x: TaskId| db@.bare_task(x)),
            forall|i: int| 0 <= i < ids.len() ==> db@.has(#[trigger] ids@[i]),
            types::task_views(out@) == ids@.take(i as int).map_values(g),
        decreases ids.len() - i,
    {
        assert(db@.has(ids@[i as int]));
        let ghost before = types::task_views(out@);
        match get_task(db, &ids[i]) {
            Some(t) => {
                out.push(t);
                assert(types::task_views(out@) =~= before.push(t@));
            },
            None => {},
        }
        i += 1;
        assert(types::task_views(out@) =~= ids@.take(i as int).map_values(g));
    }
    assert(ids@.take(ids@.len() as int) =~= ids@);
    out
}

/// Whether a listing with this filter shows the row at a position.
fn row_shown(db: &Store, filter: &ListTasksFilter, i: usize) -> (out: bool)
    requires
        db@.wf(),
        i < db.tasks.len(),
    ensures
        out == db@.shown(filter@, db.tasks[i as int].id),
{
    let r = &db.tasks[i];
    proof {
        assert(r@ == db@.tasks[i as int]);
        model::lemma_pos(db@, i as int);
    }
    if filter.parent_id.is_some() && r.parent_id != filter.parent_id {
        return false;
    }
    if let Some(completed) = filter.completed {
        if r.completed != completed {
            return false;
        }
    }
    if let Some(depth) = filter.depth {
        if get_task_depth(db, &r.id) != depth {
            return false;
        }
    }
    if let Some(archived) = filter.archived {
        if r.archived != archived {
            return false;
        }
    }
    if let Some(path) = &filter.repo_path {
        match &r.repo_path {
            Some(own) => {
                if !text::same(own.as_str(), path.as_str()) {
                    return false;
                }
            },
            None => {
                return false;
            },
        }
    }
    if filter.ready {
        if r.completed || r.cancelled || r.archived {
            return false;
        }
        let blockers: Vec<TaskId> = get_blockers(db, &r.id);
        return all_satisfied(db, &blockers);
    }
    true
}

/// The tasks that a listing shows, by priority and then by creation time.
pub fn list_ids(db: &Store, filter: &ListTasksFilter) -> (out: Vec<TaskId>)
    requires
        db@.wf(),
    ensures
        out@ == db@.listed(filter@),
{
    let mut ranks: Vec<Rank> = Vec::new();
    let ghost s = db@.all_ranks();
    let ghost f = |r: Rank| db@.shown(filter@, r.id);
    let mut i: usize = 0;
    proof {
        model::lemma_filter_empty(s, f);
    }
    while i < db.tasks.len()
        invariant
            i <= db.tasks.len(),
            db@.wf(),
            s == db@.all_ranks(),
            f == (|r: Rank| db@.shown(filter@, r.id)),
            ranks@ == s.take(i as int).filter(f),
        decreases db.tasks.len() - i,
    {
        proof {
            model::lemma_filter_take(s, f, i as int);
            assert(db@.tasks[i as int] == db.tasks[i as int]@);
        }
        if row_shown(db, filter, i) {
            let r = &db.tasks[i];
            ranks.push(
                Rank {
                    completed: false,
                    depth: 0,
                    priority: r.priority,
                    created_at: r.created_at,
                    tie: i as u64,
                    id: r.id,
                },
            );
        }
        i += 1;
    }
    proof {
        model::lemma_filter_empty(s, f);
    }
    order::sort_ranked(&ranks)
}

/// The tasks that a listing shows, by priority and then by creation time. A ready task is active
/// and waits for no blocker of its own.
pub fn list_tasks(db: &Store, filter: &ListTasksFilter) -> (out: Vec<Task>)
    requires
        db@.wf(),
    ensures
        types::task_views(out@) == db@.listed(filter@).map_values(|x: TaskId| db@.bare_task(x)),
{
    let ids: Vec<TaskId> = list_ids(db, filter);
    proof {
        model::lemma_listed(db@, filter@);
    }
    tasks_of(db, &ids)
}

/// The children of a task with their edges, in the order in which they were stored.
pub fn get_children(db: &Store, parent_id: &TaskId) -> (out: Vec<Task>)
    requires
        db@.wf(),
    ensures
        types::task_views(out@) == db@.children(*parent_id).map_values(
            |x: TaskId| db@.bare_task(x),
        ),
{
    let ids: Vec<TaskId> = child_ids(db, *parent_id);
    proof {
        model::lemma_children_stored(db@, *parent_id);
    }
    tasks_of(db, &ids)
}

/// The milestones with their edges, by priority, creation time and identifier.
pub fn list_roots(db: &Store) -> (out: Vec<Task>)
    requires
        db@.wf(),
    ensures
        types::task_views(out@) == db@.roots_ordered().map_values(|x: TaskId| db@.bare_task(x)),
{
    let ids: Vec<TaskId> = root_ids_ordered(db);
    proof {
        model::lemma_roots_stored(db@);
    }
    tasks_of(db, &ids)
}

/// The children of a task with their edges, by priority, creation time and identifier.
pub fn get_children_ordered(db: &Store, parent_id: &TaskId) -> (out: Vec<Task>)
    requires
        db@.wf(),
    ensures
        types::task_views(out@) == db@.children_ordered(*parent_id).map_values(
            |x: TaskId| db@.bare_task(x),
        ),
{
    let ids: Vec<TaskId> = child_ids_ordered(db, *parent_id);
    proof {
        model::lemma_children_stored(db@, *parent_id);
    }
    tasks_of(db, &ids)
}

/// Appends the tasks below a task.
fn push_below(db: &Store, id: TaskId, levels: usize, out: &mut Vec<TaskId>)
    ensures
        final(out)@ == old(out)@ + db@.below(id, levels as nat),
    decreases levels,
{
    if levels == 0 {
        assert(out@ + db@.below(id, 0) =~= out@);
        return;
    }
    let kids: Vec<TaskId> = child_ids(db, id);
    let ghost start = out@;
    let ghost rest = (levels - 1) as nat;
    let mut i: usize = 0;
    while i < kids.len()
        invariant
            i <= kids.len(),
            out@ == start + kids@.take(i as int),
        decreases kids.len() - i,
    {
        out.push(kids[i]);
        i += 1;
        assert(out@ =~= start + kids@.take(i as int));
    }
    assert(kids@.take(kids@.len() as int) =~= kids@);
    let ghost mid = out@;
    let mut j: usize = kids.len();
    assert(kids@.take(kids@.len() as int) =~= kids@);
    assert(mid + db@.below_all(kids@, rest) =~= out@ + db@.below_all(kids@.take(j as int), rest));
    while j > 0
        invariant
            j <= kids.len(),
            levels > 0,
            rest == levels - 1,
            mid + db@.below_all(kids@, rest) == out@ + db@.below_all(kids@.take(j as int), rest),
        decreases j,
    {
        let ghost before = out@;
        let ghost t = kids@.take(j as int);
        push_below(db, kids[j - 1], levels - 1, out);
        assert(t.last() == kids@[j - 1]);
        assert(t.drop_last() =~= kids@.take(j - 1));
        assert(before + db@.below_all(t, rest) =~= out@ + db@.below_all(t.drop_last(), rest));
        j -= 1;
    }
    assert(db@.below_all(kids@.take(0), rest) =~= Seq::<TaskId>::empty());
    assert(out@ =~= mid + db@.below_all(kids@, rest));
    assert(out@ =~= start + db@.below(id, levels as nat));
}

/// The identifiers of all tasks below a task.
pub fn descendant_ids(db: &Store, root_id: TaskId) -> (out: Vec<TaskId>)
    ensures
        out@ == db@.descendants(root_id),
{
    let mut out: Vec<TaskId> = Vec::new();
    push_below(db, root_id, 3, &mut out);
    assert(out@ =~= db@.descendants(root_id));
    out
}

/// All tasks below a task, with their edges.
pub fn get_all_descendants(db: &Store, root_id: &TaskId) -> (out: Vec<Task>)
    requires
        db@.wf(),
    ensures
        types::task_views(out@) == db@.descendants(*root_id).map_values(
            |x: TaskId| db@.bare_task(x),
        ),
{
    let ids: Vec<TaskId> = descendant_ids(db, *root_id);
    proof {
        assert forall|i: int| 0 <= i < ids.len() implies db@.has(#[trigger] ids@[i]) by {
            assert(ids@.contains(ids@[i]));
            model::lemma_descendants(db@, *root_id, ids@[i]);
        }
    }
    tasks_of(db, &ids)
}

/// Whether `a` stands above `t` in the hierarchy.
pub fn is_ancestor(db: &Store, a: &TaskId, t: &TaskId) -> (out: bool)
    requires
        db@.wf(),
    ensures
        out == db@.ancestor(*a, *t),
{
    let ghost d = db@;
    let mut current: TaskId = *t;
    let ghost mut k: nat = 0;
    proof {
        if d.has(*t) {
            model::lemma_shallow(d, *t);
        }
        assert(d.up(*t, 0) == Some(*t));
    }
    loop
        invariant
            d == db@,
            d.wf(),
            d.up(*t, k) == Some(current),
            d.ancestor(*a, *t) <==> d.ancestor(*a, current),
            k > 0 ==> d.has(*t),
            d.has(*t) ==> d.up(*t, 3) is None,
            k <= 2,
        decreases 3 - k,
    {
        proof {
            model::lemma_ancestor_step(d, *a, current);
            assert(d.up(*t, k + 1) == d.parent(current));
        }
        match get_parent(db, current) {
            Some(p) => {
                if p == *a {
                    return true;
                }
                current = p;
                proof {
                    k = k + 1;
                }
            },
            None => {
                return false;
            },
        }
    }
}

/// The text of an optional string slice.
pub open spec fn opt_str(s: Option<&str>) -> Option<Seq<char>> {
    match s {
        Some(t) => Some(t@),
        None => None,
    }
}

fn own_opt(s: Option<&str>) -> (out: Option<String>)
    ensures
        text::opt_text(out) == opt_str(s),
{
    match s {
        Some(t) => Some(text::owned(t)),
        None => None,
    }
}

/// The task after a change of its row.
fn reread(db: &Store, id: &TaskId) -> (out: Result<Task, OsError>)
    requires
        db@.unique_ids(),
    ensures
        match out {
            Ok(t) => db@.has(*id) && t@ == db@.bare_task(*id),
            Err(e) => !db@.has(*id) && e@ == Fault::TaskNotFound(*id),
        },
{
    match get_task(db, id) {
        Some(t) => Ok(t),
        None => Err(OsError::TaskNotFound(*id)),
    }
}

/// Stores a new task with its blockers. An unknown parent is refused before anything is stored. A
/// blocker that is named twice or is unknown breaks a rule of the tables: the task and the edges
/// before it stay stored. How deep the parent stands is the caller's concern.
pub fn create_task(db: &mut Store, input: &CreateTaskInput, id: TaskId, now: Timestamp) -> (out:
    Result<Task, OsError>)
    requires
        old(db)@.wf(),
    ensures
        final(db)@.unique_ids(),
        keep::placeable(old(db)@, input@.parent_id) ==> final(db)@.wf(),
        ({
            let n = model::first_refused(old(db)@, id, input@.blocked_by, 0);
            let b = input@.blocked_by[n];
            if old(db)@.has(id) {
                &&& final(db)@ == old(db)@
                &&& out matches Err(e) && e@ == Fault::Database(ConstraintError::TaskExists(id))
            } else if input@.parent_id matches Some(p) && p != id && !old(db)@.has(p) {
                &&& final(db)@ == old(db)@
                &&& out matches Err(e) && e@ == Fault::Database(
                    ConstraintError::NotStored(input@.parent_id->0),
                )
            } else if n < input@.blocked_by.len() {
                &&& final(db)@ == old(db)@.creating(input@, id, now, n)
                &&& out matches Err(e) && e@ == Fault::Database(
                    if model::repeats(input@.blocked_by, n) {
                        ConstraintError::BlockerExists(
                            BlockerRelation { task_id: id, blocker_id: b },
                        )
                    } else {
                        ConstraintError::NotStored(b)
                    },
                )
            } else {
                &&& final(db)@ == old(db)@.creating(input@, id, now, n)
                &&& final(db)@.has(id)
                &&& out matches Ok(t) && t@ == final(db)@.bare_task(id)
            }
        }),
{
    if task_exists(db, &id) {
        return Err(OsError::Database(ConstraintError::TaskExists(id)));
    }
    if let Some(p) = input.parent_id {
        if p != id && !task_exists(db, &p) {
            return Err(OsError::Database(ConstraintError::NotStored(p)));
        }
    }
    let ghost d = db@;
    let row = TaskRow {
        id,
        parent_id: input.parent_id,
        description: input.description.clone(),
        context: match &input.context {
            Some(t) => t.clone(),
            None => String::new(),
        },
        result: None,
        priority: match input.priority {
            Some(p) => p,
            None => 1,
        },
        completed: false,
        completed_at: None,
        created_at: now,
        updated_at: now,
        started_at: None,
        commit_sha: None,
        bookmark: None,
        start_commit: None,
        base_ref: None,
        repo_path: text::clone_opt(&input.repo_path),
        cancelled: false,
        cancelled_at: None,
        archived: false,
        archived_at: None,
    };
    let ghost r = row@;
    let ghost olds = db.tasks@;
    assert(r =~= Db::new_row(input@, id, now));
    db.tasks.push(row);
    proof {
        assert(store::row_views(db.tasks@) =~= store::row_views(olds).push(r));
        keep::lemma_one_more(d, r);
        if keep::placeable(d, r.parent_id) {
            keep::lemma_with_task(d, r);
        }
        assert(d.blockers + model::edges_to(id, input@.blocked_by.take(0)) =~= d.blockers);
        assert(db@ =~= keep::with_task(d, r));
        // No edge names the new task yet.
        assert forall|i: int| 0 <= i < d.blockers.len() implies (#[trigger] d.blockers[i]).task_id
            != id by {
            assert(d.has(d.blockers[i].task_id));
        }
    }
    let mut i: usize = 0;
    while i < input.blocked_by.len()
        invariant
            i <= input.blocked_by.len(),
            d == old(db)@,
            !d.has(id),
            db@ == d.creating(input@, id, now, i as int),
            db@.unique_ids(),
            keep::placeable(d, input@.parent_id) ==> db@.wf(),
            forall|x: TaskId| #[trigger] db@.has(x) <==> d.has(x) || x == id,
            input@.parent_id matches Some(p) ==> p == id || d.has(p),
            forall|k: int| 0 <= k < i ==> db@.has(#[trigger] input.blocked_by@[k]),
            forall|k: int| 0 <= k < d.blockers.len() ==> (#[trigger] d.blockers[k]).task_id != id,
            model::first_refused(d, id, input@.blocked_by, 0) == model::first_refused(
                d,
                id,
                input@.blocked_by,
                i as int,
            ),
        decreases input.blocked_by.len() - i,
    {
        let b: TaskId = input.blocked_by[i];
        let edge = BlockerRelation { task_id: id, blocker_id: b };
        let ghost before = db@;
        let ghost bs = input@.blocked_by;
        proof {
            assert(before.blockers == d.blockers + model::edges_to(id, bs.take(i as int)));
            if before.blockers.contains(edge) {
                let k = choose|k: int| 0 <= k < before.blockers.len() && before.blockers[k] == edge;
                if k < d.blockers.len() {
                    assert(d.blockers[k].task_id == id);
                }
                let m = k - d.blockers.len();
                assert(bs[m] == bs[i as int]);
                assert(model::repeats(bs, i as int));
            }
            if model::repeats(bs, i as int) {
                let m = choose|m: int| 0 <= m < i && bs[m] == bs[i as int];
                assert(before.blockers[d.blockers.len() + m] == edge);
            }
        }
        if !task_exists(db, &b) {
            return Err(OsError::Database(ConstraintError::NotStored(b)));
        }
        proof {
            if before.wf() {
                keep::lemma_with_edge(before, edge);
            }
        }
        if !put_edge(db, edge) {
            return Err(OsError::Database(ConstraintError::BlockerExists(edge)));
        }
        proof {
            assert(bs.take(i + 1) =~= bs.take(i as int).push(b));
            assert(model::edges_to(id, bs.take(i + 1)) =~= model::edges_to(
                id,
                bs.take(i as int),
            ).push(edge));
            assert(db@ =~= d.creating(input@, id, now, i + 1));
            keep::lemma_same_tasks(before, db@);
            assert forall|x: TaskId| #[trigger] db@.has(x) <==> d.has(x) || x == id by {
                assert(before.has(x) <==> d.has(x) || x == id);
            }
        }
        i += 1;
    }
    reread(db, &id)
}

/// Adds an edge between stored tasks where it is not stored yet.
pub fn add_blocker(db: &mut Store, task_id: &TaskId, blocker_id: &TaskId) -> (out: Result<
    (),
    OsError,
>)
    requires
        old(db)@.wf(),
    ensures
        final(db)@.wf(),
        match out {
            Ok(_) => {
                &&& old(db)@.has(*task_id) && old(db)@.has(*blocker_id)
                &&& final(db)@ == old(db)@.with_blocker(
                    BlockerRelation { task_id: *task_id, blocker_id: *blocker_id },
                )
            },
            Err(e) => {
                &&& final(db)@ == old(db)@
                &&& !old(db)@.has(*task_id) || !old(db)@.has(*blocker_id)
                &&& e@ == Fault::Database(
                    ConstraintError::NotStored(
                        if old(db)@.has(*task_id) {
                            *blocker_id
                        } else {
                            *task_id
                        },
                    ),
                )
            },
        },
{
    if !task_exists(db, task_id) {
        return Err(OsError::Database(ConstraintError::NotStored(*task_id)));
    }
    if !task_exists(db, blocker_id) {
        return Err(OsError::Database(ConstraintError::NotStored(*blocker_id)));
    }
    let edge = BlockerRelation { task_id: *task_id, blocker_id: *blocker_id };
    proof {
        keep::lemma_with_edge(db@, edge);
    }
    put_edge(db, edge);
    Ok(())
}

/// Adds an edge where it is not stored yet, and tells whether it was added.
fn put_edge(db: &mut Store, edge: BlockerRelation) -> (added: bool)
    ensures
        final(db)@ == old(db)@.with_blocker(edge),
        added == !old(db)@.blockers.contains(edge),
{
    let mut i: usize = 0;
    while i < db.blockers.len()
        invariant
            i <= db.blockers.len(),
            *db == *old(db),
            forall|k: int| 0 <= k < i ==> db.blockers@[k] != edge,
        decreases db.blockers.len() - i,
    {
        if db.blockers[i] == edge {
            assert(db@.blockers[i as int] == edge);
            assert(db@.blockers.contains(edge));
            return false;
        }
        i += 1;
    }
    assert(!old(db)@.blockers.contains(edge));
    db.blockers.push(edge);
    true
}

/// Removes an edge.
pub fn remove_blocker(db: &mut Store, task_id: &TaskId, blocker_id: &TaskId)
    requires
        old(db)@.wf(),
    ensures
        final(db)@.wf(),
        final(db)@ == old(db)@.without_blocker(
            BlockerRelation { task_id: *task_id, blocker_id: *blocker_id },
        ),
{
    let edge = BlockerRelation { task_id: *task_id, blocker_id: *blocker_id };
    let ghost s = db.blockers@;
    let ghost f = model::other_than(edge);
    let mut kept: Vec<BlockerRelation> = Vec::new();
    let mut i: usize = 0;
    proof {
        keep::lemma_without_edge(db@, edge);
        model::lemma_filter_empty(s, f);
    }
    while i < db.blockers.len()
        invariant
            i <= db.blockers.len(),
            s == db.blockers@,
            f == model::other_than(edge),
            kept@ == s.take(i as int).filter(f),
        decreases db.blockers.len() - i,
    {
        proof {
            model::lemma_filter_take(s, f, i as int);
        }
        if db.blockers[i] != edge {
            kept.push(db.blockers[i]);
        }
        i += 1;
    }
    proof {
        model::lemma_filter_empty(s, f);
    }
    db.blockers = kept;
}

/// Sets the fields that an update names. An unknown parent is refused; where a stored one stands is
/// the caller's concern.
pub fn update_task(db: &mut Store, id: &TaskId, input: &UpdateTaskInput, now: Timestamp) -> (out:
    Result<Task, OsError>)
    requires
        old(db)@.unique_ids(),
    ensures
        final(db)@.unique_ids(),
        if !old(db)@.has(*id) {
            &&& final(db)@ == old(db)@
            &&& out matches Err(e) && e@ == Fault::TaskNotFound(*id)
        } else if input@.parent_id matches Some(p) && !old(db)@.has(p) {
            &&& final(db)@ == old(db)@
            &&& out matches Err(e) && e@ == Fault::Database(
                ConstraintError::NotStored(input@.parent_id->0),
            )
        } else {
            &&& final(db)@ == old(db)@.updating(*id, input@, now)
            &&& final(db)@.has(*id)
            &&& out matches Ok(t) && t@ == final(db)@.bare_task(*id)
        },
{
    let ghost d = db@;
    if let Some(i) = db.find(*id) {
        if let Some(p) = input.parent_id {
            if !task_exists(db, &p) {
                return Err(OsError::Database(ConstraintError::NotStored(p)));
            }
        }
        let ghost s = db.tasks@;
        let mut row: TaskRow = db.tasks[i].copy();
        row.updated_at = now;
        if let Some(t) = &input.description {
            row.description = t.clone();
        }
        if let Some(t) = &input.context {
            row.context = t.clone();
        }
        if let Some(p) = input.priority {
            row.priority = p;
        }
        if let Some(p) = input.parent_id {
            row.parent_id = Some(p);
        }
        if let Some(t) = &input.repo_path {
            row.repo_path = Some(t.clone());
        } else if input.clear_repo_path {
            row.repo_path = None;
        }
        let ghost r = row;
        db.tasks.set(i, row);
        proof {
            store::lemma_row_views_update(s, i as int, r);
            assert(r@ =~= model::updated_row(d.row(*id), input@, now));
            assert(db@ =~= d.updating(*id, input@, now));
            model::lemma_with_row(d, *id, r@);
        }
    }
    reread(db, id)
}

/// Replaces a row by one for the same task under the same parent.
fn put_row(db: &mut Store, i: usize, row: TaskRow)
    requires
        old(db)@.wf(),
        i < old(db).tasks.len(),
        row.id == old(db).tasks[i as int].id,
        row.parent_id == old(db).tasks[i as int].parent_id,
    ensures
        final(db)@.wf(),
        final(db)@.has(row.id),
        old(db)@.has(row.id),
        final(db)@ == old(db)@.with_row(row.id, row@),
        final(db)@.row(row.id) == row@,
{
    let ghost d = db@;
    let ghost s = db.tasks@;
    let ghost r = row;
    proof {
        assert(d.tasks[i as int] == s[i as int]@);
        model::lemma_pos(d, i as int);
    }
    db.tasks.set(i, row);
    proof {
        store::lemma_row_views_update(s, i as int, r);
        assert(db@ =~= d.with_row(r.id, r@));
        model::lemma_with_row_same_parent(d, r.id, r@);
        model::lemma_with_row(d, r.id, r@);
    }
}

/// Records that a task is started.
pub fn start_task(db: &mut Store, id: &TaskId, now: Timestamp) -> (out: Result<Task, OsError>)
    requires
        old(db)@.wf(),
    ensures
        final(db)@.wf(),
        final(db)@ == old(db)@.starting(*id, now),
        match out {
            Ok(t) => old(db)@.has(*id) && final(db)@.has(*id) && t@ == final(db)@.bare_task(*id),
            Err(e) => !old(db)@.has(*id) && e@ == Fault::TaskNotFound(*id),
        },
{
    let ghost d = db@;
    if let Some(i) = db.find(*id) {
        let mut row: TaskRow = db.tasks[i].copy();
        row.started_at = Some(now);
        row.updated_at = now;
        put_row(db, i, row);
        assert(db@ =~= d.starting(*id, now));
    }
    proof {
        if d.has(*id) {
            model::lemma_with_row(d, *id, db@.row(*id));
        }
    }
    reread(db, id)
}

/// Records that a task is completed, with its result and the commit it is in.
pub fn complete_task(
    db: &mut Store,
    id: &TaskId,
    result: Option<&str>,
    commit_sha: Option<&str>,
    now: Timestamp,
) -> (out: Result<Task, OsError>)
    requires
        old(db)@.wf(),
    ensures
        final(db)@.wf(),
        final(db)@ == old(db)@.completing(*id, opt_str(result), opt_str(commit_sha), now),
        match out {
            Ok(t) => old(db)@.has(*id) && final(db)@.has(*id) && t@ == final(db)@.bare_task(*id),
            Err(e) => !old(db)@.has(*id) && e@ == Fault::TaskNotFound(*id),
        },
{
    let ghost d = db@;
    if let Some(i) = db.find(*id) {
        let mut row: TaskRow = db.tasks[i].copy();
        row.completed = true;
        row.completed_at = Some(now);
        row.result = own_opt(result);
        row.commit_sha = own_opt(commit_sha);
        row.updated_at = now;
        put_row(db, i, row);
        assert(db@ =~= d.completing(*id, opt_str(result), opt_str(commit_sha), now));
    }
    proof {
        if d.has(*id) {
            model::lemma_with_row(d, *id, db@.row(*id));
        }
    }
    reread(db, id)
}

/// Records that a completed task is taken up again. Its result stays.
pub fn reopen_task(db: &mut Store, id: &TaskId, now: Timestamp) -> (out: Result<Task, OsError>)
    requires
        old(db)@.wf(),
    ensures
        final(db)@.wf(),
        final(db)@ == old(db)@.reopening(*id, now),
        match out {
            Ok(t) => old(db)@.has(*id) && final(db)@.has(*id) && t@ == final(db)@.bare_task(*id),
            Err(e) => !old(db)@.has(*id) && e@ == Fault::TaskNotFound(*id),
        },
{
    let ghost d = db@;
    if let Some(i) = db.find(*id) {
        let mut row: TaskRow = db.tasks[i].copy();
        row.completed = false;
        row.completed_at = None;
        row.updated_at = now;
        put_row(db, i, row);
        assert(db@ =~= d.reopening(*id, now));
    }
    proof {
        if d.has(*id) {
            model::lemma_with_row(d, *id, db@.row(*id));
        }
    }
    reread(db, id)
}

/// Records that a task is cancelled.
pub fn cancel_task(db: &mut Store, id: &TaskId, now: Timestamp) -> (out: Result<Task, OsError>)
    requires
        old(db)@.wf(),
    ensures
        final(db)@.wf(),
        final(db)@ == old(db)@.cancelling(*id, now),
        match out {
            Ok(t) => old(db)@.has(*id) && final(db)@.has(*id) && t@ == final(db)@.bare_task(*id),
            Err(e) => !old(db)@.has(*id) && e@ == Fault::TaskNotFound(*id),
        },
{
    let ghost d = db@;
    if let Some(i) = db.find(*id) {
        let mut row: TaskRow = db.tasks[i].copy();
        row.cancelled = true;
        row.cancelled_at = Some(now);
        row.updated_at = now;
        put_row(db, i, row);
        assert(db@ =~= d.cancelling(*id, now));
    }
    proof {
        if d.has(*id) {
            model::lemma_with_row(d, *id, db@.row(*id));
        }
    }
    reread(db, id)
}

/// Records that a task is archived.
pub fn archive_task(db: &mut Store, id: &TaskId, now: Timestamp) -> (out: Result<Task, OsError>)
    requires
        old(db)@.wf(),
    ensures
        final(db)@.wf(),
        final(db)@ == old(db)@.archiving(*id, now),
        match out {
            Ok(t) => old(db)@.has(*id) && final(db)@.has(*id) && t@ == final(db)@.bare_task(*id),
            Err(e) => !old(db)@.has(*id) && e@ == Fault::TaskNotFound(*id),
        },
{
    let ghost d = db@;
    if let Some(i) = db.find(*id) {
        let mut row: TaskRow = db.tasks[i].copy();
        row.archived = true;
        row.archived_at = Some(now);
        row.updated_at = now;
        put_row(db, i, row);
        assert(db@ =~= d.archiving(*id, now));
    }
    proof {
        if d.has(*id) {
            model::lemma_with_row(d, *id, db@.row(*id));
        }
    }
    reread(db, id)
}

/// Records the bookmark of a task.
pub fn set_bookmark(db: &mut Store, id: &TaskId, bookmark: &str, now: Timestamp)
    requires
        old(db)@.wf(),
    ensures
        final(db)@.wf(),
        final(db)@ == old(db)@.with_bookmark(*id, Some(bookmark@), now),
{
    let ghost d = db@;
    if let Some(i) = db.find(*id) {
        let mut row: TaskRow = db.tasks[i].copy();
        row.bookmark = Some(text::owned(bookmark));
        row.updated_at = now;
        put_row(db, i, row);
        assert(db@ =~= d.with_bookmark(*id, Some(bookmark@), now));
    }
}

/// Forgets the bookmark of a task.
pub fn clear_bookmark(db: &mut Store, id: &TaskId, now: Timestamp)
    requires
        old(db)@.wf(),
    ensures
        final(db)@.wf(),
        final(db)@ == old(db)@.with_bookmark(*id, None, now),
{
    let ghost d = db@;
    if let Some(i) = db.find(*id) {
        let mut row: TaskRow = db.tasks[i].copy();
        row.bookmark = None;
        row.updated_at = now;
        put_row(db, i, row);
        assert(db@ =~= d.with_bookmark(*id, None, now));
    }
}

/// Records the commit at which a task was started.
pub fn set_start_commit(db: &mut Store, id: &TaskId, start_commit: &str, now: Timestamp)
    requires
        old(db)@.wf(),
    ensures
        final(db)@.wf(),
        final(db)@ == old(db)@.with_start_commit(*id, start_commit@, now),
{
    let ghost d = db@;
    if let Some(i) = db.find(*id) {
        let mut row: TaskRow = db.tasks[i].copy();
        row.start_commit = Some(text::owned(start_commit));
        row.updated_at = now;
        put_row(db, i, row);
        assert(db@ =~= d.with_start_commit(*id, start_commit@, now));
    }
}

/// Records the branch that a task was started from.
pub fn set_base_ref(db: &mut Store, id: &TaskId, base_ref: &str, now: Timestamp)
    requires
        old(db)@.wf(),
    ensures
        final(db)@.wf(),
        final(db)@ == old(db)@.with_base_ref(*id, base_ref@, now),
{
    let ghost d = db@;
    if let Some(i) = db.find(*id) {
        let mut row: TaskRow = db.tasks[i].copy();
        row.base_ref = Some(text::owned(base_ref));
        row.updated_at = now;
        put_row(db, i, row);
        assert(db@ =~= d.with_base_ref(*id, base_ref@, now));
    }
}

/// The bookmark of a task.
pub fn get_bookmark(db: &Store, id: &TaskId) -> (out: Option<String>)
    requires
        db@.unique_ids(),
    ensures
        text::opt_text(out) == (if db@.has(*id) {
            db@.row(*id).bookmark
        } else {
            None
        }),
{
    match db.find(*id) {
        Some(i) => text::clone_opt(&db.tasks[i].bookmark),
        None => None,
    }
}

/// The bookmarks of these tasks, where they have one.
pub open spec fn bookmarks(d: Db, ids: Seq<TaskId>) -> Seq<Seq<char>>
    decreases ids.len(),
{
    if ids.len() == 0 {
        Seq::empty()
    } else {
        let rest = bookmarks(d, ids.drop_last());
        if d.has(ids.last()) && d.row(ids.last()).bookmark is Some {
            rest.push(d.row(ids.last()).bookmark->0)
        } else {
            rest
        }
    }
}

/// The bookmarks of a task and of all tasks below it.
pub fn get_all_bookmarks(db: &Store, id: &TaskId) -> (out: Vec<String>)
    requires
        db@.unique_ids(),
    ensures
        text::texts(out@) == bookmarks(db@, seq![*id] + db@.descendants(*id)),
{
    let below: Vec<TaskId> = descendant_ids(db, *id);
    let ghost all = seq![*id] + below@;
    let mut out: Vec<String> = Vec::new();
    if let Some(b) = get_bookmark(db, id) {
        out.push(b);
    }
    proof {
        reveal_with_fuel(bookmarks, 2);
        assert(all.take(1) =~= seq![*id]);
        assert(seq![*id].drop_last() =~= Seq::<TaskId>::empty());
        assert(text::texts(out@) =~= bookmarks(db@, all.take(1)));
    }
    let mut i: usize = 0;
    while i < below.len()
        invariant
            i <= below.len(),
            db@.unique_ids(),
            all == seq![*id] + below@,
            text::texts(out@) == bookmarks(db@, all.take(i + 1)),
        decreases below.len() - i,
    {
        let ghost before = out@;
        proof {
            assert(all.take(i + 2).drop_last() =~= all.take(i + 1));
            assert(all.take(i + 2).last() == below@[i as int]);
        }
        if let Some(b) = get_bookmark(db, &below[i]) {
            out.push(b);
            assert(text::texts(out@) =~= text::texts(before).push(b@));
        }
        i += 1;
    }
    assert(all.take(all.len() as int) =~= all);
    out
}

/// Whether a list holds an identifier.
pub fn holds(ids: &Vec<TaskId>, id: TaskId) -> (out: bool)
    ensures
        out == ids@.contains(id),
{
    let mut i: usize = 0;
    while i < ids.len()
        invariant
            i <= ids.len(),
            forall|k: int| 0 <= k < i ==> ids@[k] != id,
        decreases ids.len() - i,
    {
        if ids[i] == id {
            assert(ids@[i as int] == id);
            return true;
        }
        i += 1;
    }
    false
}

/// Removes a task and everything below it, with the learnings and the edges of these tasks.
pub fn delete_task(db: &mut Store, id: &TaskId)
    requires
        old(db)@.wf(),
    ensures
        final(db)@.wf(),
        final(db)@ == old(db)@.deleting(*id),
{
    let ghost d = db@;
    let mut gone: Vec<TaskId> = descendant_ids(db, *id);
    gone.push(*id);
    proof {
        keep::lemma_deleting(d, *id);
        let below = d.descendants(*id);
        assert forall|x: TaskId| #[trigger] gone@.contains(x) <==> d.in_subtree(*id, x) by {
            model::lemma_descendants(d, *id, x);
            if gone@.contains(x) {
                let i = choose|i: int| 0 <= i < gone@.len() && gone@[i] == x;
                if i < below.len() {
                    assert(below[i] == x);
                }
            }
            if below.contains(x) {
                let i = choose|i: int| 0 <= i < below.len() && below[i] == x;
                assert(gone@[i] == x);
            }
            assert(gone@[below.len() as int] == *id);
        }
    }
    let ghost rows = d.tasks;
    let ghost f = |r: RowView| !d.in_subtree(*id, r.id);
    let mut tasks: Vec<TaskRow> = Vec::new();
    let mut i: usize = 0;
    proof {
        model::lemma_filter_empty(rows, f);
        assert(store::row_views(tasks@) =~= rows.take(0).filter(f));
    }
    while i < db.tasks.len()
        invariant
            i <= db.tasks.len(),
            d == db@,
            rows == d.tasks,
            f == (|r: RowView| !d.in_subtree(*id, r.id)),
            forall|x: TaskId| #[trigger] gone@.contains(x) <==> d.in_subtree(*id, x),
            store::row_views(tasks@) == rows.take(i as int).filter(f),
        decreases db.tasks.len() - i,
    {
        let ghost before = tasks@;
        proof {
            model::lemma_filter_take(rows, f, i as int);
            assert(rows[i as int] == db.tasks[i as int]@);
        }
        if !holds(&gone, db.tasks[i].id) {
            let row: TaskRow = db.tasks[i].copy();
            let ghost r = row@;
            tasks.push(row);
            assert(store::row_views(tasks@) =~= store::row_views(before).push(r));
        }
        i += 1;
    }
    let ghost edges = d.blockers;
    let ghost g = |e: BlockerRelation|
        !d.in_subtree(*id, e.task_id) && !d.in_subtree(*id, e.blocker_id);
    let mut blockers: Vec<BlockerRelation> = Vec::new();
    let mut j: usize = 0;
    proof {
        model::lemma_filter_empty(rows, f);
        model::lemma_filter_empty(edges, g);
    }
    while j < db.blockers.len()
        invariant
            j <= db.blockers.len(),
            d == db@,
            edges == d.blockers,
            g == (|e: BlockerRelation|
                !d.in_subtree(*id, e.task_id) && !d.in_subtree(*id, e.blocker_id)),
            forall|x: TaskId| #[trigger] gone@.contains(x) <==> d.in_subtree(*id, x),
            blockers@ == edges.take(j as int).filter(g),
        decreases db.blockers.len() - j,
    {
        proof {
            model::lemma_filter_take(edges, g, j as int);
        }
        let e: BlockerRelation = db.blockers[j];
        if !holds(&gone, e.task_id) && !holds(&gone, e.blocker_id) {
            blockers.push(e);
        }
        j += 1;
    }
    let ghost notes = d.learnings;
    let ghost h = |l: LearningView| !d.in_subtree(*id, l.task_id);
    let mut learnings: Vec<Learning> = Vec::new();
    let mut k: usize = 0;
    proof {
        model::lemma_filter_empty(edges, g);
        model::lemma_filter_empty(notes, h);
        assert(types::learning_views(learnings@) =~= notes.take(0).filter(h));
    }
    while k < db.learnings.len()
        invariant
            k <= db.learnings.len(),
            d == db@,
            notes == d.learnings,
            h == (|l: LearningView| !d.in_subtree(*id, l.task_id)),
            forall|x: TaskId| #[trigger] gone@.contains(x) <==> d.in_subtree(*id, x),
            types::learning_views(learnings@) == notes.take(k as int).filter(h),
        decreases db.learnings.len() - k,
    {
        let ghost before = learnings@;
        proof {
            model::lemma_filter_take(notes, h, k as int);
            assert(notes[k as int] == db.learnings[k as int]@);
        }
        if !holds(&gone, db.learnings[k].task_id) {
            let l: Learning = db.learnings[k].copy();
            let ghost v = l@;
            learnings.push(l);
            assert(types::learning_views(learnings@) =~= types::learning_views(before).push(v));
        }
        k += 1;
    }
    proof {
        model::lemma_filter_empty(notes, h);
    }
    db.tasks = tasks;
    db.blockers = blockers;
    db.learnings = learnings;
    assert(db@ =~= d.deleting(*id));
}

} // verus!
