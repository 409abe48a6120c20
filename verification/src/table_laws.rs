//! What the rows and the edges of the tables say of the hierarchy and of what holds a task up.
//!
//! The functions here look at rows and edges only. The laws tie everything that the model derives
//! from the tables to them.
use vstd::prelude::*;

use crate::id::TaskId;
use crate::model;
use crate::model::Db;
use crate::service::task_service;
use crate::types::{BlockerRelation, LifecycleState, RowView};

verus! {

/// Whether a row of the table is that of a task.
pub open spec fn row_of(d: Db, x: TaskId, r: RowView) -> bool {
    d.tasks.contains(r) && r.id == x
}

/// Whether a row of the table is that of a task with this identifier.
pub open spec fn stored(d: Db, x: TaskId) -> bool {
    exists|r: RowView| #[trigger] row_of(d, x, r)
}

/// Whether the row of a task names another one as its parent.
pub open spec fn child_of(d: Db, x: TaskId, p: TaskId) -> bool {
    exists|r: RowView| #[trigger] d.tasks.contains(r) && r.id == x && r.parent_id == Some(p)
}

/// Whether one task is another one, its parent or its parent's parent.
pub open spec fn at_or_above(d: Db, a: TaskId, x: TaskId) -> bool {
    ||| a == x
    ||| child_of(d, x, a)
    ||| exists|p: TaskId| #[trigger] child_of(d, x, p) && child_of(d, p, a)
}

/// Whether there is an edge from a task to a blocker.
pub open spec fn edge(d: Db, x: TaskId, b: TaskId) -> bool {
    d.blockers.contains(BlockerRelation { task_id: x, blocker_id: b })
}

/// Whether the row of a task says that it is completed, and not cancelled.
pub open spec fn done(d: Db, b: TaskId) -> bool {
    exists|r: RowView|
        #[trigger] d.tasks.contains(r) && r.id == b && r.completed && !r.cancelled
}

/// Whether a task or one above it has an edge to a blocker that is not done.
pub open spec fn held_up(d: Db, x: TaskId) -> bool {
    exists|a: TaskId, b: TaskId|
        #[trigger] at_or_above(d, a, x) && #[trigger] edge(d, a, b) && !done(d, b)
}

/// Whether a task has a child that is neither completed nor cancelled.
pub open spec fn open_child(d: Db, p: TaskId) -> bool {
    exists|r: RowView|
        #[trigger] d.tasks.contains(r) && r.parent_id == Some(p) && !r.completed && !r.cancelled
}

/// A task is stored where a row has its identifier, and that row is its row.
pub proof fn law_rows(d: Db, x: TaskId)
    requires
        d.unique_ids(),
    ensures
        d.has(x) <==> stored(d, x),
        forall|r: RowView| #[trigger] row_of(d, x, r) <==> d.has(x) && r == d.row(x),
{
    if d.has(x) {
        model::lemma_row(d, x);
        assert(d.tasks[d.pos(x)] == d.row(x));
        assert(row_of(d, x, d.row(x)));
    }
    assert forall|r: RowView| #[trigger] row_of(d, x, r) implies d.has(x) && r == d.row(x) by {
        let i = choose|i: int| 0 <= i < d.tasks.len() && d.tasks[i] == r;
        model::lemma_pos(d, i);
    }
}

/// The parent of a task is the one that its row names; the tasks above it are its parent and its
/// parent's parent; its depth is how many they are.
pub proof fn law_hierarchy(d: Db, a: TaskId, x: TaskId)
    requires
        d.wf(),
    ensures
        d.parent(x) == Some(a) <==> child_of(d, x, a),
        d.ancestor(a, x) <==> at_or_above(d, a, x) && a != x,
        d.in_subtree(a, x) <==> at_or_above(d, a, x),
        child_of(d, x, a) ==> d.has(a) && d.has(x),
        d.depth(x) == 0 <==> !exists|p: TaskId| child_of(d, x, p),
        d.depth(x) == 2 <==> exists|p: TaskId, m: TaskId|
            #[trigger] child_of(d, x, p) && #[trigger] child_of(d, p, m),
        0 <= d.depth(x) <= 2,
        child_of(d, x, a) ==> d.depth(x) == d.depth(a) + 1,
{
    lemma_child(d, x, a);
    assert(d.up(x, 0) == Some(x));
    assert(d.up(x, 1) == d.parent(x));
    model::lemma_up_from_parent(d, x, 1);
    assert forall|p: TaskId| #[trigger] child_of(d, x, p) <==> d.parent(x) == Some(p) by {
        lemma_child(d, x, p);
    }
    assert forall|p: TaskId, m: TaskId|
        #[trigger] child_of(d, x, p) && #[trigger] child_of(d, p, m) implies d.up(x, 2) == Some(
        m,
    ) by {
        lemma_child(d, x, p);
        lemma_child(d, p, m);
        assert(d.up(p, 0) == Some(p));
        assert(d.up(p, 1) == Some(m));
    }
    if d.parent(x) is Some {
        let p = d.parent(x)->0;
        assert(child_of(d, x, p));
        model::lemma_depth_child(d, x);
        if d.up(x, 2) is Some {
            let m = d.up(x, 2)->0;
            assert(d.up(p, 0) == Some(p));
            assert(d.up(p, 1) == Some(m));
            lemma_child(d, p, m);
        }
    }
    if d.has(x) {
        model::lemma_ancestor(d, a, x);
        if d.ancestor(a, x) {
            model::lemma_shallow(d, x);
            lemma_no_self(d, x);
        }
    } else if d.ancestor(a, x) {
        model::lemma_ancestor_stored(d, a, x);
    }
    if at_or_above(d, a, x) && a != x {
        if !child_of(d, x, a) {
            let p = choose|p: TaskId| #[trigger] child_of(d, x, p) && child_of(d, p, a);
            assert(d.up(x, 2) == Some(a));
        }
    }
}

/// No task is above itself.
proof fn lemma_no_self(d: Db, x: TaskId)
    requires
        d.wf(),
        d.has(x),
    ensures
        !d.ancestor(x, x),
{
    model::lemma_ancestor(d, x, x);
    model::lemma_shallow(d, x);
    if d.up(x, 1) == Some(x) {
        model::lemma_up_from_parent(d, x, 1);
        model::lemma_up_from_parent(d, x, 2);
    }
    if d.up(x, 2) == Some(x) {
        let p = d.parent(x)->0;
        model::lemma_up_from_parent(d, x, 1);
        model::lemma_up_from_parent(d, x, 2);
        model::lemma_up_from_parent(d, p, 1);
        assert(d.up(p, 1) == Some(x));
        assert(d.up(p, 2) == d.up(x, 1));
    }
}

pub proof fn lemma_child(d: Db, x: TaskId, p: TaskId)
    requires
        d.unique_ids(),
    ensures
        child_of(d, x, p) <==> d.parent(x) == Some(p),
{
    law_rows(d, x);
    if d.parent(x) == Some(p) {
        assert(row_of(d, x, d.row(x)));
        assert(d.tasks.contains(d.row(x)));
    }
    if child_of(d, x, p) {
        let r = choose|r: RowView|
            #[trigger] d.tasks.contains(r) && r.id == x && r.parent_id == Some(p);
        assert(row_of(d, x, r));
    }
}

/// A task waits for a blocker of its own where an edge leads from it to a task that is not done, and
/// it is blocked where that holds of it or of a task above it.
pub proof fn law_what_holds_a_task_up(d: Db, x: TaskId)
    requires
        d.wf(),
    ensures
        d.directly_blocked(x) <==> exists|b: TaskId| #[trigger] edge(d, x, b) && !done(d, b),
        d.effectively_blocked(x) <==> held_up(d, x),
        forall|b: TaskId| #[trigger] d.satisfied(b) <==> done(d, b),
        forall|b: TaskId| #[trigger] d.blockers_of(x).contains(b) <==> edge(d, x, b),
{
    assert forall|b: TaskId| #[trigger] d.satisfied(b) <==> done(d, b) by {
        lemma_done(d, b);
    }
    assert forall|b: TaskId| #[trigger] d.blockers_of(x).contains(b) <==> edge(d, x, b) by {
        task_service::lemma_blockers_of(d, x, b);
    }
    lemma_waits(d, x);
    if d.effectively_blocked(x) {
        let k = choose|k: nat|
            (#[trigger] d.up(x, k)) is Some && d.directly_blocked(d.up(x, k)->0);
        let a = d.up(x, k)->0;
        lemma_waits(d, a);
        let b = choose|b: TaskId| #[trigger] edge(d, a, b) && !done(d, b);
        assert(d.up(x, 0) == Some(x));
        if k > 0 {
            assert(d.ancestor(a, x));
        }
        law_hierarchy(d, a, x);
        assert(at_or_above(d, a, x) && edge(d, a, b));
    }
    if held_up(d, x) {
        let (a, b) = choose|a: TaskId, b: TaskId|
            #[trigger] at_or_above(d, a, x) && #[trigger] edge(d, a, b) && !done(d, b);
        law_hierarchy(d, a, x);
        lemma_waits(d, a);
        assert(d.up(x, 0) == Some(x));
        if a != x {
            let k = choose|k: nat| k >= 1 && #[trigger] d.up(x, k) == Some(a);
            assert(d.up(x, k) is Some && d.directly_blocked(d.up(x, k)->0));
        }
    }
}

proof fn lemma_done(d: Db, b: TaskId)
    requires
        d.unique_ids(),
    ensures
        d.satisfied(b) <==> done(d, b),
{
    law_rows(d, b);
    if d.satisfied(b) {
        assert(row_of(d, b, d.row(b)));
        assert(d.tasks.contains(d.row(b)));
    }
    if done(d, b) {
        let r = choose|r: RowView|
            #[trigger] d.tasks.contains(r) && r.id == b && r.completed && !r.cancelled;
        assert(row_of(d, b, r));
    }
}

proof fn lemma_waits(d: Db, x: TaskId)
    requires
        d.wf(),
    ensures
        d.directly_blocked(x) <==> exists|b: TaskId| #[trigger] edge(d, x, b) && !done(d, b),
{
    let bs = d.blockers_of(x);
    if d.directly_blocked(x) {
        let i = choose|i: int| 0 <= i < bs.len() && !d.satisfied(#[trigger] bs[i]);
        task_service::lemma_blockers_of(d, x, bs[i]);
        lemma_done(d, bs[i]);
        assert(bs.contains(bs[i]));
        assert(edge(d, x, bs[i]));
    }
    if exists|b: TaskId| #[trigger] edge(d, x, b) && !done(d, b) {
        let b = choose|b: TaskId| #[trigger] edge(d, x, b) && !done(d, b);
        task_service::lemma_blockers_of(d, x, b);
        lemma_done(d, b);
        let i = choose|i: int| 0 <= i < bs.len() && bs[i] == b;
        assert(!d.satisfied(bs[i]));
    }
}

/// A task has pending children where a row below it is neither completed nor cancelled.
pub proof fn law_pending_children(d: Db, p: TaskId)
    ensures
        d.has_pending_children(p) <==> open_child(d, p),
{
    if d.has_pending_children(p) {
        let i = choose|i: int|
            0 <= i < d.tasks.len() && (#[trigger] d.tasks[i]).parent_id == Some(p)
                && !d.tasks[i].finished();
        assert(d.tasks.contains(d.tasks[i]));
    }
    if open_child(d, p) {
        let r = choose|r: RowView|
            #[trigger] d.tasks.contains(r) && r.parent_id == Some(p) && !r.completed
                && !r.cancelled;
        let i = choose|i: int| 0 <= i < d.tasks.len() && d.tasks[i] == r;
        assert(d.tasks[i].parent_id == Some(p) && !d.tasks[i].finished());
    }
}

/// The state of a task by the flags of its row: archiving counts before cancelling, cancelling
/// before completing, and only an active task is pending or in progress.
pub proof fn law_states(r: RowView)
    ensures
        r.state() == LifecycleState::Archived <==> r.archived,
        r.state() == LifecycleState::Cancelled <==> r.cancelled && !r.archived,
        r.state() == LifecycleState::Completed <==> r.completed && !r.cancelled && !r.archived,
        r.state() == LifecycleState::InProgress <==> !r.completed && !r.cancelled && !r.archived
            && r.started_at is Some,
        r.state() == LifecycleState::Pending <==> !r.completed && !r.cancelled && !r.archived
            && r.started_at is None,
        r.active() <==> !r.completed && !r.cancelled && !r.archived,
        r.finished() <==> r.completed || r.cancelled,
        r.satisfies() <==> r.completed && !r.cancelled,
{
}

/// What is asked of stored tables: no two rows share an identifier, every parent is stored, no task
/// is more than two levels down, the edges join stored tasks and are there once, the learnings
/// belong to stored tasks, and no text is there twice for a task from one source.
pub proof fn law_valid_tables(d: Db)
    ensures
        d.wf() <==> {
            &&& forall|i: int, j: int|
                0 <= i < j < d.tasks.len() ==> (#[trigger] d.tasks[i]).id != (#[trigger] d.tasks[j]).id
            &&& forall|r: RowView| #[trigger]
                d.tasks.contains(r) && r.parent_id is Some ==> stored(d, r.parent_id->0)
            &&& !exists|x: TaskId, p: TaskId, m: TaskId, t: TaskId| #[trigger]
                child_of(d, x, p) && #[trigger] child_of(d, p, m) && #[trigger] child_of(d, m, t)
            &&& d.blockers.no_duplicates()
            &&& forall|e: BlockerRelation| #[trigger]
                d.blockers.contains(e) ==> stored(d, e.task_id) && stored(d, e.blocker_id)
            &&& forall|i: int|
                0 <= i < d.learnings.len() ==> stored(d, (#[trigger] d.learnings[i]).task_id)
            &&& forall|i: int, j: int|
                0 <= i < j < d.learnings.len() ==> !((#[trigger] d.learnings[i]).task_id == (
                #[trigger] d.learnings[j]).task_id && d.learnings[i].source_task_id
                    == d.learnings[j].source_task_id && d.learnings[i].content
                    == d.learnings[j].content)
        },
{
    if d.unique_ids() {
        assert forall|x: TaskId| d.has(x) <==> #[trigger] stored(d, x) by {
            law_rows(d, x);
        }
        lemma_levels(d);
        if d.parents_exist() {
            assert forall|r: RowView| #[trigger]
                d.tasks.contains(r) && r.parent_id is Some implies d.has(r.parent_id->0) by {
                let i = choose|i: int| 0 <= i < d.tasks.len() && d.tasks[i] == r;
                assert(d.tasks[i].parent_id is Some);
            }
        }
        assert forall|i: int| 0 <= i < d.tasks.len() implies d.tasks.contains(
            #[trigger] d.tasks[i],
        ) by {}
        assert forall|i: int| 0 <= i < d.blockers.len() implies d.blockers.contains(
            #[trigger] d.blockers[i],
        ) by {}
        if d.edges_ok() {
            assert forall|e: BlockerRelation| #[trigger] d.blockers.contains(e) implies d.has(
                e.task_id,
            ) && d.has(e.blocker_id) by {
                let i = choose|i: int| 0 <= i < d.blockers.len() && d.blockers[i] == e;
                assert(d.has(d.blockers[i].task_id));
            }
        }
    }
}

/// No task is more than two levels down where no four rows hang together.
proof fn lemma_levels(d: Db)
    requires
        d.unique_ids(),
    ensures
        d.shallow() <==> !exists|x: TaskId, p: TaskId, m: TaskId, t: TaskId| #[trigger]
            child_of(d, x, p) && #[trigger] child_of(d, p, m) && #[trigger] child_of(d, m, t),
{
    assert forall|x: TaskId, p: TaskId, m: TaskId, t: TaskId| #[trigger]
        child_of(d, x, p) && #[trigger] child_of(d, p, m) && #[trigger] child_of(
            d,
            m,
            t,
        ) implies d.has(x) && d.up(x, 3) == Some(t) by {
        lemma_child(d, x, p);
        lemma_child(d, p, m);
        lemma_child(d, m, t);
        assert(d.up(x, 0) == Some(x));
        assert(d.up(x, 1) == Some(p));
        assert(d.up(x, 2) == Some(m));
    }
    if d.shallow() {
        assert forall|x: TaskId| d.has(x) implies #[trigger] d.up(x, 3) is None by {
            model::lemma_row(d, x);
            assert(d.up(d.tasks[d.pos(x)].id, 3) is None);
        }
    } else {
        let i = choose|i: int|
            0 <= i < d.tasks.len() && d.up((#[trigger] d.tasks[i]).id, 3) is Some;
        let x = d.tasks[i].id;
        assert(d.up(x, 0) == Some(x));
        let p = d.up(x, 1)->0;
        let m = d.up(x, 2)->0;
        let t = d.up(x, 3)->0;
        lemma_child(d, x, p);
        lemma_child(d, p, m);
        lemma_child(d, m, t);
        assert(child_of(d, x, p) && child_of(d, p, m) && child_of(d, m, t));
    }
}

} // verus!
