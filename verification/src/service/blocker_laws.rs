//! What holds of blockers, whatever is done to the tasks.
use vstd::prelude::*;

use crate::id::{LearningId, TaskId};
use crate::keep;
use crate::model;
use crate::model::Db;
use crate::service::laws;
use crate::service::rules;
use crate::service::task_service;
use crate::time::Timestamp;
use crate::types::{BlockerRelation, CreateView, RowView, UpdateView};

verus! {

/// No task waits for itself, directly or through others.
pub open spec fn acyclic(d: Db) -> bool {
    forall|e: BlockerRelation| #[trigger]
        d.blockers.contains(e) ==> !rules::waits_for(d, e.blocker_id, e.task_id)
}

/// Fewer edges make no new paths.
proof fn lemma_fewer_edges(d: Db, e: Db, p: Seq<TaskId>)
    requires
        forall|x: BlockerRelation| #[trigger]
            e.blockers.contains(x) ==> d.blockers.contains(x),
        rules::waits_along(e, p),
    ensures
        rules::waits_along(d, p),
{
    assert forall|i: int| 0 <= i < p.len() - 1 implies #[trigger] rules::waits_at(d, p, i) by {
        assert(rules::waits_at(e, p, i));
    }
}

/// Fewer edges make no cycle.
pub proof fn lemma_acyclic_fewer(d: Db, e: Db)
    requires
        acyclic(d),
        forall|x: BlockerRelation| #[trigger]
            e.blockers.contains(x) ==> d.blockers.contains(x),
    ensures
        acyclic(e),
{
    assert forall|x: BlockerRelation| #[trigger] e.blockers.contains(x) implies !rules::waits_for(
        e,
        x.blocker_id,
        x.task_id,
    ) by {
        if rules::waits_for(e, x.blocker_id, x.task_id) {
            let p = choose|p: Seq<TaskId>| #[trigger]
                rules::waits_along(e, p) && p[0] == x.blocker_id && p.last() == x.task_id;
            lemma_fewer_edges(d, e, p);
            assert(rules::waits_along(d, p));
            assert(rules::waits_for(d, x.blocker_id, x.task_id));
        }
    }
}

/// A path that first meets a task at position `j` and uses one more edge than there was, out of
/// that task, does without the edge up to there.
proof fn lemma_path_without(d: Db, e: Db, new: BlockerRelation, p: Seq<TaskId>, j: int)
    requires
        rules::waits_along(e, p),
        forall|x: BlockerRelation| #[trigger]
            e.blockers.contains(x) ==> d.blockers.contains(x) || x == new,
        0 <= j < p.len(),
        forall|i: int| 0 <= i < j ==> #[trigger] p[i] != new.task_id,
    ensures
        rules::waits_along(d, p.take(j + 1)),
{
    let q = p.take(j + 1);
    assert forall|i: int| 0 <= i < q.len() - 1 implies #[trigger] rules::waits_at(d, q, i) by {
        assert(rules::waits_at(e, p, i));
        assert(q[i] == p[i]);
        assert(q[i + 1] == p[i + 1]);
        assert(p[i] != new.task_id);
    }
}

/// The first position of a task on a path that holds it.
proof fn lemma_first_on(p: Seq<TaskId>, t: TaskId) -> (j: int)
    requires
        p.contains(t),
    ensures
        0 <= j < p.len(),
        p[j] == t,
        forall|i: int| 0 <= i < j ==> #[trigger] p[i] != t,
    decreases p.len(),
{
    let k = choose|k: int| 0 <= k < p.len() && p[k] == t;
    if p.take(k).contains(t) {
        let q = p.take(k);
        let j = lemma_first_on(q, t);
        assert forall|i: int| 0 <= i < j implies #[trigger] p[i] != t by {
            assert(q[i] == p[i]);
        }
        assert(q[j] == p[j]);
        j
    } else {
        assert forall|i: int| 0 <= i < k implies #[trigger] p[i] != t by {
            assert(p.take(k)[i] == p[i]);
        }
        k
    }
}

/// A cycle is gone round from any place on it.
proof fn lemma_go_round(e: Db, p: Seq<TaskId>, i: int, x: BlockerRelation)
    requires
        rules::waits_along(e, p),
        0 <= i < p.len() - 1,
        e.blockers.contains(x),
        p[0] == x.blocker_id,
        p.last() == x.task_id,
    ensures
        ({
            let q = p.skip(i + 1) + p.take(i + 1);
            rules::waits_along(e, q) && q[0] == p[i + 1] && q.last() == p[i]
        }),
{
    let q = p.skip(i + 1) + p.take(i + 1);
    let m = p.len() - (i + 1);
    assert forall|k: int| 0 <= k < q.len() - 1 implies #[trigger] rules::waits_at(e, q, k) by {
        if k < m - 1 {
            assert(q[k] == p[k + i + 1]);
            assert(q[k + 1] == p[k + i + 2]);
            assert(rules::waits_at(e, p, k + i + 1));
        } else if k == m - 1 {
            assert(q[k] == p[p.len() - 1]);
            assert(q[k + 1] == p[0]);
            assert(x == (BlockerRelation { task_id: q[k], blocker_id: q[k + 1] }));
        } else {
            assert(q[k] == p[k - m]);
            assert(q[k + 1] == p[k - m + 1]);
            assert(rules::waits_at(e, p, k - m));
        }
    }
}

/// An edge to a task that does not wait for where the edge comes from makes no cycle.
proof fn lemma_acyclic_edge(d: Db, e: Db, new: BlockerRelation)
    requires
        acyclic(d),
        !rules::waits_for(d, new.blocker_id, new.task_id),
        forall|x: BlockerRelation| #[trigger]
            e.blockers.contains(x) ==> d.blockers.contains(x) || x == new,
    ensures
        acyclic(e),
{
    let t = new.task_id;
    let b = new.blocker_id;
    // No path in the new state leads from the blocker to the task.
    assert forall|q: Seq<TaskId>| #[trigger] rules::waits_along(e, q) && q[0] == b implies q.last()
        != t by {
        if q.last() == t {
            assert(q[q.len() - 1] == t);
            assert(q.contains(t));
            let j = lemma_first_on(q, t);
            lemma_path_without(d, e, new, q, j);
            let r = q.take(j + 1);
            assert(r[0] == b);
            assert(r.last() == t);
            assert(rules::waits_along(d, r));
        }
    }
    assert forall|x: BlockerRelation| #[trigger] e.blockers.contains(x) implies !rules::waits_for(
        e,
        x.blocker_id,
        x.task_id,
    ) by {
        if rules::waits_for(e, x.blocker_id, x.task_id) {
            let p = choose|p: Seq<TaskId>| #[trigger]
                rules::waits_along(e, p) && p[0] == x.blocker_id && p.last() == x.task_id;
            if x == new {
                assert(p.last() != t);
            } else if exists|i: int|
                0 <= i < p.len() - 1 && #[trigger] rules::waits_at(e, p, i) && p[i] == t && p[i + 1]
                    == b {
                // The cycle runs over the new edge: going round it from the blocker leads to the
                // task.
                let i = choose|i: int|
                    0 <= i < p.len() - 1 && #[trigger] rules::waits_at(e, p, i) && p[i] == t && p[i
                        + 1] == b;
                lemma_go_round(e, p, i, x);
            } else {
                assert forall|i: int| 0 <= i < p.len() - 1 implies #[trigger] rules::waits_at(
                    d,
                    p,
                    i,
                ) by {
                    assert(rules::waits_at(e, p, i));
                }
                assert(rules::waits_along(d, p));
                assert(rules::waits_for(d, x.blocker_id, x.task_id));
            }
        }
    }
}

/// Adding a blocker never makes a cycle, accepted or refused: the blockers are acyclic afterwards
/// where they were before.
pub proof fn law_add_blocker_keeps_acyclic(d: Db, task: TaskId, blocker: TaskId)
    requires
        acyclic(d),
    ensures
        acyclic(rules::add_blocker(d, task, blocker).0),
{
    let new = BlockerRelation { task_id: task, blocker_id: blocker };
    let e = d.with_blocker(new);
    if rules::block_fault(d, task, blocker) is None {
        assert forall|x: BlockerRelation| #[trigger]
            e.blockers.contains(x) implies d.blockers.contains(x) || x == new by {
            if !d.blockers.contains(new) {
                let i = choose|i: int| 0 <= i < e.blockers.len() && e.blockers[i] == x;
                if i < d.blockers.len() {
                    assert(d.blockers[i] == x);
                }
            }
        }
        lemma_acyclic_edge(d, e, new);
    }
}

/// What is filtered out of a sequence is gone, and nothing is new.
proof fn lemma_filter_fewer(d: Db, e: Db, f: spec_fn(BlockerRelation) -> bool)
    requires
        e.blockers == d.blockers.filter(f),
    ensures
        forall|x: BlockerRelation| #[trigger] e.blockers.contains(x) ==> d.blockers.contains(x),
{
    assert forall|x: BlockerRelation| #[trigger] e.blockers.contains(x) implies d.blockers.contains(
        x,
    ) by {
        d.blockers.lemma_filter_contains_rev(f, x);
    }
}

/// Removing a blocker or a task makes no cycle.
pub proof fn law_removing_keeps_acyclic(d: Db, task: TaskId, blocker: TaskId)
    requires
        acyclic(d),
    ensures
        acyclic(rules::remove_blocker(d, task, blocker).0),
        acyclic(rules::delete(d, task).0),
{
    let r = BlockerRelation { task_id: task, blocker_id: blocker };
    lemma_filter_fewer(d, d.without_blocker(r), model::other_than(r));
    lemma_acyclic_fewer(d, d.without_blocker(r));
    lemma_filter_fewer(
        d,
        d.deleting(task),
        |e: BlockerRelation|
            !d.in_subtree(task, e.task_id) && !d.in_subtree(task, e.blocker_id),
    );
    lemma_acyclic_fewer(d, d.deleting(task));
}

/// A new task, whatever it waits for, makes no cycle: nothing waits for it yet.
pub proof fn law_create_keeps_acyclic(d: Db, c: CreateView, id: TaskId, now: Timestamp)
    requires
        d.wf(),
        acyclic(d),
    ensures
        acyclic(rules::create(d, c, id, now).0),
{
    let n = model::first_repeat(c.blocked_by, 0);
    let e = d.creating(c, id, now, n);
    if rules::create_fault(d, c, id) is None && !d.has(id) {
        lemma_first_repeat(c.blocked_by, 0);
        assert forall|x: BlockerRelation| #[trigger] e.blockers.contains(x) implies x.blocker_id != id
            && (d.blockers.contains(x) || x.task_id == id) by {
            let i = choose|i: int| 0 <= i < e.blockers.len() && e.blockers[i] == x;
            if i < d.blockers.len() {
                assert(d.blockers[i] == x);
                assert(d.has(d.blockers[i].blocker_id));
            } else {
                let k = i - d.blockers.len();
                assert(x == model::edges_to(id, c.blocked_by.take(n))[k]);
                assert(x.blocker_id == c.blocked_by[k]);
                lemma_blockers_stored(d, c.parent_id, c.blocked_by, id, 0, k);
            }
        }
        assert forall|x: BlockerRelation| #[trigger]
            e.blockers.contains(x) implies !rules::waits_for(e, x.blocker_id, x.task_id) by {
            if rules::waits_for(e, x.blocker_id, x.task_id) {
                let p = choose|p: Seq<TaskId>| #[trigger]
                    rules::waits_along(e, p) && p[0] == x.blocker_id && p.last() == x.task_id;
                assert forall|i: int| 0 <= i < p.len() implies #[trigger] p[i] != id by {
                    if i > 0 {
                        assert(rules::waits_at(e, p, i - 1));
                    }
                }
                assert(p[p.len() - 1] != id);
                assert(x.task_id != id);
                assert forall|i: int| 0 <= i < p.len() - 1 implies #[trigger] rules::waits_at(
                    d,
                    p,
                    i,
                ) by {
                    assert(rules::waits_at(e, p, i));
                    assert(p[i] != id);
                }
                assert(rules::waits_along(d, p));
                assert(rules::waits_for(d, x.blocker_id, x.task_id));
            }
        }
    }
}

/// The first repetition lies within the sequence or at its end.
proof fn lemma_first_repeat(s: Seq<TaskId>, from: int)
    requires
        0 <= from <= s.len(),
    ensures
        from <= model::first_repeat(s, from) <= s.len(),
    decreases s.len() - from,
{
    if from < s.len() && !model::repeats(s, from) {
        lemma_first_repeat(s, from + 1);
    }
}

/// The blockers of a new task that is not refused are stored.
proof fn lemma_blockers_stored(
    d: Db,
    parent: Option<TaskId>,
    blockers: Seq<TaskId>,
    id: TaskId,
    from: int,
    k: int,
)
    requires
        0 <= from <= k < blockers.len(),
        rules::blockers_fault(d, parent, blockers, id, from) is None,
    ensures
        d.has(blockers[k]),
        parent is Some ==> !d.in_subtree(blockers[k], parent->0),
    decreases blockers.len() - from,
{
    if from < k {
        lemma_blockers_stored(d, parent, blockers, id, from + 1, k);
    }
}

/// Operations that change neither edges nor which tasks there are make no cycle.
pub proof fn law_other_operations_keep_acyclic(
    d: Db,
    id: TaskId,
    u: UpdateView,
    result: Option<Seq<char>>,
    learnings: Seq<Seq<char>>,
    sha: Option<Seq<char>>,
    ids: Seq<LearningId>,
    now: Timestamp,
)
    requires
        d.wf(),
        acyclic(d),
    ensures
        acyclic(rules::update(d, id, u, now).0),
        acyclic(rules::start(d, id, now).0),
        acyclic(rules::complete(d, id, result, learnings, sha, ids, now).0),
        acyclic(rules::reopen(d, id, now).0),
        acyclic(rules::cancel(d, id, now).0),
        acyclic(rules::archive(d, id, now).0),
{
    if d.has(id) {
        laws::lemma_completed(d, id, result, learnings, sha, ids, now);
        lemma_acyclic_fewer(d, rules::completed(d, id, result, learnings, sha, ids, now));
    }
    lemma_acyclic_fewer(d, d.updating(id, u, now));
    lemma_acyclic_fewer(d, d.starting(id, now));
    lemma_acyclic_fewer(d, d.reopening(id, now));
    lemma_acyclic_fewer(d, d.cancelling(id, now));
    lemma_acyclic_fewer(d, rules::archived(d, id, now));
}

/// A task that is blocked holds up everything below it.
pub proof fn law_blocking_is_inherited(d: Db, a: TaskId, t: TaskId)
    requires
        d.effectively_blocked(a),
        d.in_subtree(a, t),
    ensures
        d.effectively_blocked(t),
{
    let j = choose|j: nat|
        (#[trigger] d.up(a, j)) is Some && d.directly_blocked(d.up(a, j)->0);
    if t != a {
        let k = choose|k: nat| k >= 1 && #[trigger] d.up(t, k) == Some(a);
        lemma_up_up(d, t, k, j);
        assert(d.up(t, k + j) == d.up(a, j));
    }
}

/// Going up in two goes.
pub proof fn lemma_up_up(d: Db, t: TaskId, k: nat, j: nat)
    requires
        d.up(t, k) is Some,
    ensures
        d.up(t, k + j) == d.up(d.up(t, k)->0, j),
    decreases j,
{
    if j > 0 {
        lemma_up_up(d, t, k, (j - 1) as nat);
        assert((k + j - 1) as nat == k + (j - 1) as nat);
    }
}

/// No task stands above itself.
pub proof fn law_no_parent_cycle(d: Db, t: TaskId)
    requires
        d.wf(),
        d.has(t),
    ensures
        !d.ancestor(t, t),
{
    model::lemma_ancestor(d, t, t);
    model::lemma_shallow(d, t);
    if d.up(t, 1) == Some(t) {
        model::lemma_depth_child(d, t);
    }
    if d.up(t, 2) == Some(t) {
        lemma_up_up(d, t, 2, 2);
        model::lemma_up_none(d, t, 3, 4);
    }
}

/// No task is more than two levels below its milestone, and those at the deepest level have no
/// children.
pub proof fn law_three_levels(d: Db, t: TaskId, c: TaskId)
    requires
        d.wf(),
        d.has(t),
    ensures
        0 <= d.depth(t) <= model::MAX_DEPTH,
        d.up(t, 3) is None,
        d.depth(t) == model::MAX_DEPTH ==> d.parent(c) != Some(t),
{
    model::lemma_shallow(d, t);
    if d.parent(c) == Some(t) {
        model::lemma_depth_child(d, c);
    }
}

/// A blocker holds its dependents up until it is completed; a cancelled one always does.
pub proof fn law_only_completion_satisfies(d: Db, t: TaskId, b: TaskId)
    requires
        d.wf(),
        d.blockers.contains(BlockerRelation { task_id: t, blocker_id: b }),
        !d.row(b).completed || d.row(b).cancelled,
    ensures
        d.directly_blocked(t),
        d.effectively_blocked(t),
{
    task_service::lemma_blockers_of(d, t, b);
    let s = d.blockers_of(t);
    let i = choose|i: int| 0 <= i < s.len() && s[i] == b;
    assert(!d.satisfied(s[i]));
    model::lemma_chain_step(d, t);
}

/// Completing a task leaves every edge in place, and lets exactly its own dependents go: what
/// other blockers do stays as it was.
pub proof fn law_completion_keeps_edges(
    d: Db,
    id: TaskId,
    result: Option<Seq<char>>,
    learnings: Seq<Seq<char>>,
    sha: Option<Seq<char>>,
    ids: Seq<LearningId>,
    now: Timestamp,
    x: TaskId,
)
    requires
        d.wf(),
        rules::complete_fault(d, id) is None,
    ensures
        ({
            let e = rules::complete(d, id, result, learnings, sha, ids, now).0;
            &&& e.blockers == d.blockers
            &&& e.satisfied(x) == if x == id {
                !d.row(id).cancelled
            } else {
                d.satisfied(x)
            }
        }),
{
    laws::lemma_completed(d, id, result, learnings, sha, ids, now);
    let e = rules::completed(d, id, result, learnings, sha, ids, now);
    assert(e.has(x) == d.has(x));
}

/// Reopening a task holds its dependents up again, with everything below them.
pub proof fn law_reopening_blocks_again(d: Db, id: TaskId, now: Timestamp, t: TaskId, x: TaskId)
    requires
        d.wf(),
        rules::reopen_fault(d, id) is None,
        d.blockers.contains(BlockerRelation { task_id: t, blocker_id: id }),
        d.in_subtree(t, x),
    ensures
        rules::reopen(d, id, now).0.effectively_blocked(x),
{
    let e = d.reopening(id, now);
    let r = RowView { completed: false, completed_at: None, updated_at: now, ..d.row(id) };
    model::lemma_row(d, id);
    assert(e == d.with_row(id, r));
    model::lemma_with_row(d, id, r);
    model::lemma_with_row_same_parent(d, id, r);
    law_only_completion_satisfies(e, t, id);
    assert(e.ancestor(t, x) == d.ancestor(t, x));
    law_blocking_is_inherited(e, t, x);
}

/// Where a task gets a parent or a blocker, none of its own blockers stands above it afterwards.
pub proof fn law_no_blocker_above(
    d: Db,
    id: TaskId,
    c: CreateView,
    u: UpdateView,
    blocker: TaskId,
    now: Timestamp,
)
    requires
        d.wf(),
    ensures
        rules::create(d, c, id, now).1 is Ok ==> ({
            let e = rules::create(d, c, id, now).0;
            e.blockers_of(id).contains(blocker) ==> !e.ancestor(blocker, id)
        }),
        u.parent_id is Some && rules::update(d, id, u, now).1 is Ok ==> ({
            let e = rules::update(d, id, u, now).0;
            e.blockers_of(id).contains(blocker) ==> !e.ancestor(blocker, id)
        }),
        rules::add_blocker(d, id, blocker).1 is Ok ==> ({
            let e = rules::add_blocker(d, id, blocker).0;
            e.blockers_of(id).contains(blocker) && !e.ancestor(blocker, id) && !e.ancestor(
                id,
                blocker,
            )
        }),
{
    if rules::create(d, c, id, now).1 is Ok {
        lemma_create_no_blocker_above(d, id, c, blocker, now);
    }
    if u.parent_id is Some && rules::update(d, id, u, now).1 is Ok {
        lemma_move_no_blocker_above(d, id, u, blocker, now);
    }
    if rules::add_blocker(d, id, blocker).1 is Ok {
        let r = BlockerRelation { task_id: id, blocker_id: blocker };
        let e = d.with_blocker(r);
        keep::lemma_with_edge(d, r);
        keep::lemma_same_tasks(d, e);
        task_service::lemma_blockers_of(e, id, blocker);
        if !d.blockers.contains(r) {
            assert(e.blockers[d.blockers.len() as int] == r);
        }
    }
}

proof fn lemma_create_no_blocker_above(
    d: Db,
    id: TaskId,
    c: CreateView,
    blocker: TaskId,
    now: Timestamp,
)
    requires
        d.wf(),
        rules::create(d, c, id, now).1 is Ok,
    ensures
        ({
            let e = rules::create(d, c, id, now).0;
            e.blockers_of(id).contains(blocker) ==> !e.ancestor(blocker, id)
        }),
{
    let n = model::first_repeat(c.blocked_by, 0);
    let e = d.creating(c, id, now, n);
    let row = Db::new_row(c, id, now);
    keep::lemma_with_task(d, row);
    let w = keep::with_task(d, row);
    assert(w.tasks == e.tasks);
    keep::lemma_same_tasks(w, e);
    if e.blockers_of(id).contains(blocker) {
        let f = |x: BlockerRelation| x.task_id == id;
        let s = e.blockers.filter(f);
        let k = choose|k: int| 0 <= k < e.blockers_of(id).len() && e.blockers_of(id)[k] == blocker;
        assert(s[k].blocker_id == blocker);
        assert(s.contains(s[k]));
        e.blockers.lemma_filter_contains_rev(f, s[k]);
        e.blockers.lemma_filter_pred(f, k);
        let i = choose|i: int| 0 <= i < e.blockers.len() && e.blockers[i] == s[k];
        if i < d.blockers.len() {
            assert(d.has(d.blockers[i].task_id));
        }
        let m = i - d.blockers.len();
        lemma_first_repeat(c.blocked_by, 0);
        assert(s[k] == model::edges_to(id, c.blocked_by.take(n))[m]);
        assert(blocker == c.blocked_by[m]);
        lemma_blockers_stored(d, c.parent_id, c.blocked_by, id, 0, m);
        model::lemma_ancestor_step(e, blocker, id);
        match c.parent_id {
            Some(p) => {
                assert(e.parent(id) == Some(p));
                if e.ancestor(blocker, p) {
                    let q = choose|q: nat| q >= 1 && #[trigger] e.up(p, q) == Some(blocker);
                    assert(w.up(p, q) == d.up(p, q));
                    assert(d.ancestor(blocker, p));
                }
            },
            None => {},
        }
    }
}

/// Where no blocker stands above the new parent, the search over them finds none.
proof fn lemma_first_above(d: Db, blockers: Seq<TaskId>, p: TaskId, from: int, k: int)
    requires
        0 <= from <= k < blockers.len(),
        rules::first_above(d, blockers, p, from) is None,
    ensures
        !d.in_subtree(blockers[k], p),
    decreases blockers.len() - from,
{
    if from < k {
        lemma_first_above(d, blockers, p, from + 1, k);
    }
}

/// Above a task that is not below another one, moving the other one changes nothing.
proof fn lemma_up_not_below(d: Db, e: Db, id: TaskId, p: TaskId, k: nat)
    requires
        forall|y: TaskId| y != id ==> #[trigger] e.parent(y) == d.parent(y),
        !d.in_subtree(id, p),
    ensures
        e.up(p, k) == d.up(p, k),
    decreases k,
{
    if k > 0 {
        lemma_up_not_below(d, e, id, p, (k - 1) as nat);
        match d.up(p, (k - 1) as nat) {
            Some(y) => {
                if y == id {
                    if k - 1 == 0 {
                        assert(p == id);
                    } else {
                        assert(d.ancestor(id, p));
                    }
                }
            },
            None => {},
        }
    }
}

proof fn lemma_move_no_blocker_above(
    d: Db,
    id: TaskId,
    u: UpdateView,
    blocker: TaskId,
    now: Timestamp,
)
    requires
        d.wf(),
        u.parent_id is Some,
        rules::update(d, id, u, now).1 is Ok,
    ensures
        ({
            let e = rules::update(d, id, u, now).0;
            e.blockers_of(id).contains(blocker) ==> !e.ancestor(blocker, id)
        }),
{
    let p = u.parent_id->0;
    let r = model::updated_row(d.row(id), u, now);
    model::lemma_row(d, id);
    let e = d.updating(id, u, now);
    assert(e == d.with_row(id, r));
    model::lemma_with_row(d, id, r);
    assert(e.blockers_of(id) == d.blockers_of(id));
    if e.blockers_of(id).contains(blocker) && e.ancestor(blocker, id) {
        let s = d.blockers_of(id);
        let k = choose|k: int| 0 <= k < s.len() && s[k] == blocker;
        lemma_first_above(d, s, p, 0, k);
        model::lemma_ancestor_step(e, blocker, id);
        assert(e.parent(id) == Some(p));
        assert forall|y: TaskId| y != id implies #[trigger] e.parent(y) == d.parent(y) by {
            assert(e.has(y) == d.has(y));
        }
        if e.ancestor(blocker, p) {
            let q = choose|q: nat| q >= 1 && #[trigger] e.up(p, q) == Some(blocker);
            lemma_up_not_below(d, e, id, p, q);
            assert(d.ancestor(blocker, p));
        }
    }
}

} // verus!
