//! What is started for a task, and what starting it does, by the rows and the edges.
use vstd::prelude::*;

use crate::error::{Fault, ReasonView};
use crate::id::TaskId;
use crate::model;
use crate::model::Db;
use crate::service::laws;
use crate::service::order_laws;
use crate::service::readiness;
use crate::service::ready_laws;
use crate::service::workflow_service;
use crate::service::workflow_service::{
    ActionView, NextView, ReplyView, RunView, StartPhaseView, StepView,
};
use crate::table_laws;
use crate::text_laws;
use crate::time::Timestamp;
use crate::types::{BlockerRelation, RowView, TaskView};
use crate::vcs::backend::VcsFault;

verus! {

// ---- what is started ----

/// Whether a task has an edge to a blocker that is not done.
pub open spec fn waits(d: Db, x: TaskId) -> bool {
    exists|b: TaskId| #[trigger] table_laws::edge(d, x, b) && !table_laws::done(d, b)
}

proof fn lemma_unsatisfied(d: Db, x: TaskId)
    requires
        d.wf(),
    ensures
        readiness::unsatisfied(d, x).len() > 0 <==> waits(d, x),
{
    let f = |b: TaskId| !d.satisfied(b);
    let bs = d.blockers_of(x);
    let u = readiness::unsatisfied(d, x);
    table_laws::law_what_holds_a_task_up(d, x);
    if u.len() > 0 {
        assert(u.contains(u[0]));
        laws::lemma_filter_exact(bs, f, u[0]);
        assert(bs.contains(u[0]));
        assert(table_laws::edge(d, x, u[0]) && !table_laws::done(d, u[0]));
    }
    if waits(d, x) {
        let b = choose|b: TaskId| #[trigger] table_laws::edge(d, x, b) && !table_laws::done(d, b);
        assert(bs.contains(b));
        assert(!d.satisfied(b));
        laws::lemma_filter_exact(bs, f, b);
        assert(u.contains(b));
    }
}

/// A path is open where no task on it waits.
proof fn lemma_open(d: Db, path: Seq<TaskId>)
    requires
        d.wf(),
        forall|i: int| 0 <= i < path.len() ==> !waits(d, #[trigger] path[i]),
    ensures
        readiness::blockage(d, path).len() == 0,
    decreases path.len(),
{
    if path.len() > 0 {
        assert forall|i: int| 0 <= i < path.drop_last().len() implies !waits(
            d,
            #[trigger] path.drop_last()[i],
        ) by {
            assert(path[i] == path.drop_last()[i]);
        }
        lemma_open(d, path.drop_last());
        lemma_unsatisfied(d, path.last());
        assert(!waits(d, path[path.len() - 1]));
    }
}

/// The tasks on the way from a milestone to a task are those at or above it.
proof fn lemma_lineage(d: Db, x: TaskId)
    requires
        d.wf(),
        d.has(x),
    ensures
        readiness::lineage(d, x).len() > 0,
        readiness::lineage(d, x).last() == x,
        forall|i: int|
            0 <= i < readiness::lineage(d, x).len() ==> table_laws::at_or_above(
                d,
                #[trigger] readiness::lineage(d, x)[i],
                x,
            ),
        forall|a: TaskId| #[trigger]
            table_laws::at_or_above(d, a, x) ==> readiness::lineage(d, x).contains(a),
        forall|i: int, j: int|
            0 <= i < j < readiness::lineage(d, x).len() ==> table_laws::at_or_above(
                d,
                #[trigger] readiness::lineage(d, x)[i],
                #[trigger] readiness::lineage(d, x)[j],
            ) && readiness::lineage(d, x)[i] != readiness::lineage(d, x)[j],
{
    let l = readiness::lineage(d, x);
    model::lemma_shallow(d, x);
    assert forall|i: int| 0 <= i < l.len() implies table_laws::at_or_above(
        d,
        #[trigger] l[i],
        x,
    ) by {
        if l[i] != x {
            let k: nat = (l.len() - 1 - i) as nat;
            assert(d.up(x, k) == Some(l[i]));
            assert(d.ancestor(l[i], x));
        }
        table_laws::law_hierarchy(d, l[i], x);
    }
    assert forall|a: TaskId| #[trigger] table_laws::at_or_above(d, a, x) implies l.contains(a) by {
        table_laws::law_hierarchy(d, a, x);
        if a == x {
            assert(l[l.len() - 1] == x);
        } else {
            model::lemma_ancestor(d, a, x);
            if d.up(x, 1) == Some(a) {
                assert(l[l.len() - 2] == a);
            } else {
                assert(l[0] == a);
            }
        }
    }
    assert forall|i: int, j: int| 0 <= i < j < l.len() implies table_laws::at_or_above(
        d,
        #[trigger] l[i],
        #[trigger] l[j],
    ) && l[i] != l[j] by {
        let p = d.parent(x)->0;
        model::lemma_depth_child(d, x);
        assert(d.up(p, 0) == Some(p));
        assert(d.up(p, 1) == d.parent(p));
        model::lemma_up_from_parent(d, x, 1);
        if d.up(x, 2) is Some {
            model::lemma_depth_child(d, p);
        }
        table_laws::law_hierarchy(d, l[i], l[j]);
        if j == l.len() - 1 {
            assert(l[j] == x);
            assert(table_laws::at_or_above(d, l[i], x));
        } else {
            assert(l[j] == p && d.parent(p) == Some(l[i]));
            assert(d.up(p, 1) == Some(l[i]));
            assert(d.ancestor(l[i], p));
        }
    }
}

/// A task that is neither completed nor cancelled, has no open child and is held up by nothing is
/// what is started for it.
pub proof fn law_a_free_task_is_started_itself(d: Db, r: RowView)
    requires
        d.wf(),
        d.tasks.contains(r),
        !r.completed,
        !r.cancelled,
        !table_laws::open_child(d, r.id),
        !table_laws::held_up(d, r.id),
    ensures
        readiness::resolve(d, r.id, Seq::empty()) == Ok::<TaskId, Fault>(r.id),
{
    table_laws::law_rows(d, r.id);
    assert(table_laws::row_of(d, r.id, r));
    table_laws::law_pending_children(d, r.id);
    let path = readiness::lineage(d, r.id);
    lemma_lineage(d, r.id);
    assert forall|i: int| 0 <= i < path.len() implies !waits(d, #[trigger] path[i]) by {
        if waits(d, path[i]) {
            let b = choose|b: TaskId| #[trigger]
                table_laws::edge(d, path[i], b) && !table_laws::done(d, b);
            assert(table_laws::at_or_above(d, path[i], r.id) && table_laws::edge(d, path[i], b));
        }
    }
    lemma_open(d, path);
    let ls = readiness::leaves(d, r.id, path, 3);
    assert(ls =~= seq![path]);
    assert(ls.drop_last() =~= Seq::<Seq<TaskId>>::empty());
    reveal_with_fuel(readiness::resolve_leaves, 2);
}

/// Nothing is started for a task that is completed or cancelled.
pub proof fn law_nothing_is_started_for_a_finished_task(d: Db, r: RowView)
    requires
        d.wf(),
        d.tasks.contains(r),
        r.completed || r.cancelled,
    ensures
        readiness::resolve(d, r.id, Seq::empty()) == Err::<TaskId, Fault>(
            Fault::NoStartableTask {
                message: "No startable task found under "@ + r.id.text(),
                requested: r.id,
            },
        ),
{
    table_laws::law_rows(d, r.id);
    assert(table_laws::row_of(d, r.id, r));
    let ls = readiness::leaves(d, r.id, readiness::lineage(d, r.id), 3);
    assert(ls =~= Seq::<Seq<TaskId>>::empty());
}

/// The first leaf under an unfinished task.
proof fn lemma_first_leaf(d: Db, id: TaskId, levels: nat)
    requires
        d.wf(),
        d.has(id),
        !d.row(id).finished(),
        levels + d.depth(id) >= 3,
    ensures
        readiness::leaves(d, id, readiness::lineage(d, id), levels).len() > 0,
        ({
            let l = readiness::leaves(d, id, readiness::lineage(d, id), levels)[0];
            &&& l.len() > 0
            &&& d.in_subtree(id, l.last())
            &&& first_in_line(d, id, l.last())
            &&& d.has(l.last()) && l == readiness::lineage(d, l.last())
            &&& !d.row(l.last()).finished() && !d.has_pending_children(l.last())
        }),
    decreases levels,
{
    let path = readiness::lineage(d, id);
    let ls = readiness::leaves(d, id, path, levels);
    lemma_lineage(d, id);
    assert(0 <= d.depth(id) <= 2);
    assert(levels > 0);
    if !d.has_pending_children(id) {
        assert(ls =~= seq![path]);
        assert forall|q: TaskId, s: RowView, t: RowView|
            !(#[trigger] earlier_on_the_way(d, id, id, q, s, t)) by {
            if earlier_on_the_way(d, id, id, q, s, t) {
                lemma_not_below_itself(d, id, q, s);
            }
        }
    } else {
        let kids = d.children_ordered(id);
        let rest = (levels - 1) as nat;
        model::lemma_children_stored(d, id);
        let i = choose|i: int|
            0 <= i < d.tasks.len() && (#[trigger] d.tasks[i]).parent_id == Some(id)
                && !d.tasks[i].finished();
        model::lemma_pos(d, i);
        assert(kids.contains(d.tasks[i].id));
        let n0 = choose|n: int| 0 <= n < kids.len() && kids[n] == d.tasks[i].id;
        let n = first_open(d, kids, 0);
        lemma_first_open(d, kids, 0, n0);
        let c = kids[n];
        model::lemma_depth_child(d, c);
        lemma_first_leaf(d, c, rest);
        ready_laws::lemma_lineage_child(d, id, c);
        lemma_leaves_skip(d, kids, path, rest, n);
        let inner = readiness::leaves(d, c, path.push(c), rest);
        assert(ls[0] == inner[0]);
        let x = inner[0].last();
        assert(d.in_subtree(id, x)) by {
            lemma_below_child(d, id, c, x);
        }
        assert forall|q: TaskId, s: RowView, t: RowView| #[trigger]
            earlier_on_the_way(d, id, x, q, s, t) implies t.completed || t.cancelled by {
            lemma_line_step(d, id, c, x, q, s, t, n);
        }
    }
}

/// Whether a row stands before that of a task on the way from one task down to another.
pub open spec fn earlier_on_the_way(
    d: Db,
    root: TaskId,
    x: TaskId,
    q: TaskId,
    s: RowView,
    t: RowView,
) -> bool {
    &&& d.tasks.contains(s) && d.tasks.contains(t)
    &&& s.parent_id == Some(q) && t.parent_id == Some(q)
    &&& table_laws::at_or_above(d, root, q)
    &&& table_laws::at_or_above(d, s.id, x)
    &&& order_laws::row_before(t, s)
}

/// Whether everything that stands before a task on the way to it is finished.
pub open spec fn first_in_line(d: Db, root: TaskId, x: TaskId) -> bool {
    forall|q: TaskId, s: RowView, t: RowView| #[trigger]
        earlier_on_the_way(d, root, x, q, s, t) ==> t.completed || t.cancelled
}

/// A child of a task at or below another is not at or above that one.
proof fn lemma_not_below_itself(d: Db, id: TaskId, q: TaskId, s: RowView)
    requires
        d.wf(),
        d.has(id),
        d.tasks.contains(s),
        s.parent_id == Some(q),
        table_laws::at_or_above(d, id, q),
    ensures
        !table_laws::at_or_above(d, s.id, id),
{
    table_laws::law_rows(d, s.id);
    assert(table_laws::row_of(d, s.id, s));
    model::lemma_depth_child(d, s.id);
    table_laws::law_hierarchy(d, id, q);
    table_laws::law_hierarchy(d, s.id, id);
    lemma_depths(d, id, q);
    if d.in_subtree(s.id, id) {
        lemma_depths(d, s.id, id);
    }
}

proof fn lemma_depths(d: Db, a: TaskId, x: TaskId)
    requires
        d.wf(),
        d.has(x),
        d.in_subtree(a, x),
    ensures
        d.depth(a) <= d.depth(x),
        a != x ==> d.depth(a) < d.depth(x),
{
    if a != x {
        let k = choose|k: nat| k >= 1 && #[trigger] d.up(x, k) == Some(a);
        readiness::lemma_up_depth(d, x, k, a);
    }
}

/// The place of the first unfinished task.
spec fn first_open(d: Db, ids: Seq<TaskId>, from: int) -> int
    decreases ids.len() - from,
{
    if from >= ids.len() || !d.row(ids[from]).finished() {
        from
    } else {
        first_open(d, ids, from + 1)
    }
}

proof fn lemma_first_open(d: Db, ids: Seq<TaskId>, from: int, n: int)
    requires
        0 <= from <= n < ids.len(),
        !d.row(ids[n]).finished(),
    ensures
        from <= first_open(d, ids, from) <= n,
        !d.row(ids[first_open(d, ids, from)]).finished(),
        forall|k: int|
            from <= k < first_open(d, ids, from) ==> d.row(#[trigger] ids[k]).finished(),
    decreases ids.len() - from,
{
    if d.row(ids[from]).finished() {
        lemma_first_open(d, ids, from + 1, n);
    }
}

/// Finished tasks have no leaves: what comes first are the leaves of the first unfinished one.
proof fn lemma_leaves_skip(d: Db, ids: Seq<TaskId>, path: Seq<TaskId>, levels: nat, n: int)
    requires
        0 <= n < ids.len(),
        forall|k: int| 0 <= k < n ==> d.row(#[trigger] ids[k]).finished(),
        readiness::leaves(d, ids[n], path.push(ids[n]), levels).len() > 0,
    ensures
        readiness::leaves_all(d, ids, path, levels).len() > 0,
        readiness::leaves_all(d, ids, path, levels)[0] == readiness::leaves(
            d,
            ids[n],
            path.push(ids[n]),
            levels,
        )[0],
    decreases ids.len(),
{
    let rest = ids.drop_last();
    if n == ids.len() - 1 {
        lemma_leaves_none(d, rest, path, levels);
    } else {
        assert forall|k: int| 0 <= k < n implies d.row(#[trigger] rest[k]).finished() by {
            assert(rest[k] == ids[k]);
        }
        assert(rest[n] == ids[n]);
        lemma_leaves_skip(d, rest, path, levels, n);
    }
}

proof fn lemma_leaves_none(d: Db, ids: Seq<TaskId>, path: Seq<TaskId>, levels: nat)
    requires
        forall|k: int| 0 <= k < ids.len() ==> d.row(#[trigger] ids[k]).finished(),
    ensures
        readiness::leaves_all(d, ids, path, levels).len() == 0,
    decreases ids.len(),
{
    if ids.len() > 0 {
        let rest = ids.drop_last();
        assert forall|k: int| 0 <= k < rest.len() implies d.row(#[trigger] rest[k]).finished() by {
            assert(rest[k] == ids[k]);
        }
        lemma_leaves_none(d, rest, path, levels);
        let c = ids.last();
        assert(d.row(ids[ids.len() - 1]).finished());
        assert(readiness::leaves(d, c, path.push(c), levels).len() == 0);
        assert(readiness::leaves_all(d, ids, path, levels) == readiness::leaves_all(
            d,
            rest,
            path,
            levels,
        ) + readiness::leaves(d, c, path.push(c), levels));
    }
}

proof fn lemma_below_child(d: Db, id: TaskId, c: TaskId, x: TaskId)
    requires
        d.parent(c) == Some(id),
        d.in_subtree(c, x),
    ensures
        d.ancestor(id, x),
{
    if x == c {
        assert(d.up(x, 0) == Some(x));
        assert(d.up(x, 1) == Some(id));
    } else {
        let k = choose|k: nat| k >= 1 && #[trigger] d.up(x, k) == Some(c);
        assert(d.up(x, k + 1) == Some(id));
    }
}

proof fn lemma_line_step(
    d: Db,
    id: TaskId,
    c: TaskId,
    x: TaskId,
    q: TaskId,
    s: RowView,
    t: RowView,
    n: int,
)
    requires
        d.wf(),
        d.has(id),
        d.has(x),
        d.in_subtree(c, x),
        0 <= n < d.children_ordered(id).len(),
        d.children_ordered(id)[n] == c,
        forall|k: int|
            0 <= k < n ==> d.row(#[trigger] d.children_ordered(id)[k]).finished(),
        first_in_line(d, c, x),
        earlier_on_the_way(d, id, x, q, s, t),
    ensures
        t.completed || t.cancelled,
{
    let kids = d.children_ordered(id);
    model::lemma_children_stored(d, id);
    table_laws::law_rows(d, s.id);
    table_laws::law_rows(d, t.id);
    assert(table_laws::row_of(d, s.id, s));
    assert(table_laws::row_of(d, t.id, t));
    table_laws::law_hierarchy(d, s.id, x);
    table_laws::law_hierarchy(d, id, q);
    assert(d.up(x, 0) == Some(x));
    let m: nat = if s.id == x {
        0
    } else {
        choose|m: nat| m >= 1 && #[trigger] d.up(x, m) == Some(s.id)
    };
    let v: nat = if c == x {
        0
    } else {
        choose|v: nat| v >= 1 && #[trigger] d.up(x, v) == Some(c)
    };
    readiness::lemma_up_depth(d, x, m, s.id);
    readiness::lemma_up_depth(d, x, v, c);
    model::lemma_depth_child(d, s.id);
    model::lemma_depth_child(d, c);
    if q == id {
        assert(m == v);
        assert(s.id == c);
        order_laws::law_children_come_by_priority_and_age(d, id, 0, 0, s, t, t.id);
        assert(table_laws::child_of(d, t.id, id));
        let k = choose|k: int| 0 <= k < kids.len() && kids[k] == t.id;
        assert(table_laws::row_of(d, kids[n], s));
        assert(table_laws::row_of(d, kids[k], t));
        if n < k {
            order_laws::law_children_come_by_priority_and_age(d, id, n, k, s, t, t.id);
        }
        if n == k {
            assert(s == t);
        }
        assert(d.row(kids[k]).finished());
    } else {
        lemma_depths(d, id, q);
        assert(m < v);
        assert(d.up(x, m + 1) == Some(q));
        model::lemma_up_has(d, x, m + 1);
        lemma_rest(d, x, m + 1, v);
        assert(d.up(q, (v - m - 1) as nat) == Some(c));
        assert(d.up(q, 0) == Some(q));
        if v > m + 1 {
            assert(d.ancestor(c, q));
        }
        table_laws::law_hierarchy(d, c, q);
        assert(earlier_on_the_way(d, c, x, q, s, t));
    }
}

proof fn lemma_rest(d: Db, x: TaskId, j: nat, k: nat)
    requires
        j <= k,
        d.up(x, j) is Some,
    ensures
        d.up(x, k) == d.up(d.up(x, j)->0, (k - j) as nat),
    decreases k,
{
    if k > j {
        lemma_rest(d, x, j, (k - 1) as nat);
    } else {
        assert(d.up(d.up(x, j)->0, 0) == d.up(x, j));
    }
}

/// Where nothing around a task waits for a blocker, what is started for it is the first unfinished
/// task under it without an open child: all that stands before it, or before one between it and the
/// task, by the smaller priority number, the earlier creation or the smaller identifier, is finished.
pub proof fn law_the_first_open_leaf_is_started(d: Db, r: RowView)
    requires
        d.wf(),
        d.tasks.contains(r),
        !r.completed,
        !r.cancelled,
        forall|a: TaskId| #[trigger]
            waits(d, a) ==> !table_laws::at_or_above(d, a, r.id) && !table_laws::at_or_above(
                d,
                r.id,
                a,
            ),
    ensures
        readiness::resolve(d, r.id, Seq::empty()) matches Ok(x) && {
            &&& table_laws::at_or_above(d, r.id, x)
            &&& first_in_line(d, r.id, x)
            &&& !table_laws::open_child(d, x)
            &&& exists|q: RowView| #[trigger]
                table_laws::row_of(d, x, q) && !q.completed && !q.cancelled
        },
{
    let id = r.id;
    table_laws::law_rows(d, id);
    assert(table_laws::row_of(d, id, r));
    assert(0 <= d.depth(id));
    lemma_first_leaf(d, id, 3);
    let ls = readiness::leaves(d, id, readiness::lineage(d, id), 3);
    let l = ls[0];
    let x = l.last();
    lemma_lineage(d, x);
    table_laws::law_hierarchy(d, id, x);
    assert forall|i: int| 0 <= i < l.len() implies !waits(d, #[trigger] l[i]) by {
        let a = l[i];
        assert(table_laws::at_or_above(d, a, x));
        assert(l.contains(id));
        let j = choose|j: int| 0 <= j < l.len() && l[j] == id;
        if i <= j {
            assert(table_laws::at_or_above(d, a, id));
        } else {
            assert(table_laws::at_or_above(d, id, a));
        }
    }
    lemma_open(d, l);
    let first = ls.take(1);
    assert(first.drop_last() =~= Seq::<Seq<TaskId>>::empty());
    assert(first.last() == l);
    reveal_with_fuel(readiness::resolve_leaves, 2);
    assert(readiness::resolve_leaves(d, first, Seq::empty()) == Some(Ok::<TaskId, Fault>(x)));
    readiness::lemma_resolve_leaves_prefix(d, ls, Seq::empty(), 1);
    table_laws::law_pending_children(d, x);
    table_laws::law_rows(d, x);
    assert(table_laws::row_of(d, x, d.row(x)));
}

/// Where a task without an open child is held up, the first blocker that is not done, of the topmost
/// task at or above it that waits, is followed: what is started for the blocker is started.
pub proof fn law_blockers_are_followed(d: Db, r: RowView, q: TaskId, n: int, x: TaskId)
    requires
        d.wf(),
        d.tasks.contains(r),
        !r.completed,
        !r.cancelled,
        !table_laws::open_child(d, r.id),
        table_laws::at_or_above(d, q, r.id),
        forall|a: TaskId| #[trigger]
            table_laws::at_or_above(d, a, q) && a != q ==> !waits(d, a),
        0 <= n < d.blockers.len(),
        d.blockers[n].task_id == q,
        !table_laws::done(d, d.blockers[n].blocker_id),
        forall|m: int|
            0 <= m < n && (#[trigger] d.blockers[m]).task_id == q ==> table_laws::done(
                d,
                d.blockers[m].blocker_id,
            ),
        readiness::resolve(d, d.blockers[n].blocker_id, seq![d.blockers[n].blocker_id]) == Ok::<
            TaskId,
            Fault,
        >(x),
    ensures
        readiness::resolve(d, r.id, Seq::empty()) == Ok::<TaskId, Fault>(x),
{
    let id = r.id;
    let b = d.blockers[n].blocker_id;
    table_laws::law_rows(d, id);
    assert(table_laws::row_of(d, id, r));
    table_laws::law_pending_children(d, id);
    let path = readiness::lineage(d, id);
    lemma_lineage(d, id);
    let j = choose|j: int| 0 <= j < path.len() && path[j] == q;
    let above = path.take(j);
    assert forall|i: int| 0 <= i < above.len() implies !waits(d, #[trigger] above[i]) by {
        assert(above[i] == path[i]);
        assert(table_laws::at_or_above(d, path[i], path[j]));
    }
    lemma_open(d, above);
    let upto = path.take(j + 1);
    assert(upto.drop_last() =~= above);
    assert(upto.last() == q);
    assert(d.blockers.contains(d.blockers[n]));
    assert(table_laws::edge(d, q, b));
    lemma_unsatisfied(d, q);
    assert(readiness::blockage(d, upto) == readiness::unsatisfied(d, q));
    readiness::lemma_blockage_prefix(d, path, j + 1);
    let bs = readiness::unsatisfied(d, q);
    lemma_first_unsatisfied(d, q, n);
    assert(bs[0] == b);
    let first = bs.take(1);
    let none = Seq::<TaskId>::empty();
    assert(first.drop_last() =~= Seq::<TaskId>::empty());
    assert(first.last() == b);
    assert(none.push(b) =~= seq![b]);
    reveal_with_fuel(readiness::resolve_blockers, 2);
    assert(readiness::resolve_blockers(d, first, none) == Some(Ok::<TaskId, Fault>(x)));
    readiness::lemma_resolve_blockers_prefix(d, bs, none, 1);
    let ls = readiness::leaves(d, id, path, 3);
    assert(ls =~= seq![path]);
    assert(ls.drop_last() =~= Seq::<Seq<TaskId>>::empty());
    reveal_with_fuel(readiness::resolve_leaves, 2);
}

proof fn lemma_first_unsatisfied(d: Db, q: TaskId, n: int)
    requires
        d.wf(),
        0 <= n < d.blockers.len(),
        d.blockers[n].task_id == q,
        !table_laws::done(d, d.blockers[n].blocker_id),
        forall|m: int|
            0 <= m < n && (#[trigger] d.blockers[m]).task_id == q ==> table_laws::done(
                d,
                d.blockers[m].blocker_id,
            ),
    ensures
        readiness::unsatisfied(d, q).len() > 0,
        readiness::unsatisfied(d, q)[0] == d.blockers[n].blocker_id,
{
    let f = |e: BlockerRelation| e.task_id == q;
    let g = |e: BlockerRelation| e.blocker_id;
    let h = |b: TaskId| !d.satisfied(b);
    let e = d.blockers[n];
    let a = d.blockers.take(n);
    let c = d.blockers.skip(n + 1);
    assert(d.blockers =~= a + (seq![e] + c));
    Seq::filter_distributes_over_add(a, seq![e] + c, f);
    Seq::filter_distributes_over_add(seq![e], c, f);
    table_laws::law_what_holds_a_task_up(d, q);
    assert(seq![e].filter(f) =~= seq![e]) by {
        reveal(Seq::filter);
        assert(seq![e].drop_last() =~= Seq::<BlockerRelation>::empty());
        reveal_with_fuel(Seq::filter, 2);
    }
    let fa = a.filter(f).map_values(g);
    let fc = c.filter(f).map_values(g);
    let b = e.blocker_id;
    assert(d.blockers_of(q) =~= fa + (seq![b] + fc));
    Seq::filter_distributes_over_add(fa, seq![b] + fc, h);
    Seq::filter_distributes_over_add(seq![b], fc, h);
    assert(!d.satisfied(b));
    assert(seq![b].filter(h) =~= seq![b]) by {
        assert(seq![b].drop_last() =~= Seq::<TaskId>::empty());
        reveal_with_fuel(Seq::filter, 2);
    }
    assert(fa.filter(h).len() == 0) by {
        if fa.filter(h).len() > 0 {
            let y = fa.filter(h)[0];
            assert(fa.filter(h).contains(y));
            laws::lemma_filter_exact(fa, h, y);
            let i = choose|i: int| 0 <= i < fa.len() && fa[i] == y;
            let w = a.filter(f)[i];
            assert(a.filter(f).contains(w));
            laws::lemma_filter_exact(a, f, w);
            let m = choose|m: int| 0 <= m < a.len() && a[m] == w;
            assert(d.blockers[m] == w);
            assert(d.satisfied(y));
        }
    }
}

/// Whether a task is an unfinished one without an open child, under another one and reached from it
/// through unfinished tasks.
pub open spec fn leaf_under(d: Db, root: TaskId, r: RowView) -> bool {
    &&& d.tasks.contains(r) && !r.completed && !r.cancelled && !table_laws::open_child(d, r.id)
    &&& table_laws::at_or_above(d, root, r.id)
    &&& forall|q: RowView| #[trigger]
        d.tasks.contains(q) && table_laws::at_or_above(d, root, q.id) && table_laws::at_or_above(
            d,
            q.id,
            r.id,
        ) ==> !q.completed && !q.cancelled
}

/// Nothing is started for a task only where every leaf under it is held up, and where nothing is
/// started either for any blocker that is not done, of the topmost task at or above a leaf that
/// waits.
pub proof fn law_nothing_to_start(d: Db, root: TaskId, r: RowView, q: TaskId, b: TaskId)
    requires
        d.wf(),
        d.has(root),
        readiness::resolve(d, root, Seq::empty()) matches Err(f) && f is NoStartableTask,
        leaf_under(d, root, r),
    ensures
        table_laws::held_up(d, r.id),
        table_laws::at_or_above(d, q, r.id) && (forall|a: TaskId| #[trigger]
            table_laws::at_or_above(d, a, q) && a != q ==> !waits(d, a)) && table_laws::edge(d, q, b)
            && !table_laws::done(d, b) ==> (readiness::resolve(d, b, seq![b]) matches Err(f) && f
            is NoStartableTask),
{
    let ls = readiness::leaves(d, root, readiness::lineage(d, root), 3);
    let path = readiness::lineage(d, r.id);
    let none = Seq::<TaskId>::empty();
    lemma_leaf_under(d, root, r);
    let n = choose|n: int| 0 <= n < ls.len() && ls[n] == path;
    lemma_lineage(d, r.id);
    let upto = ls.take(n + 1);
    assert(upto.drop_last() =~= ls.take(n));
    assert(upto.last() == path);
    if readiness::resolve_leaves(d, upto, none) is Some {
        readiness::lemma_resolve_leaves_prefix(d, ls, none, n + 1);
        lemma_not_unstartable(d, ls, none);
    }
    if readiness::resolve_leaves(d, ls.take(n), none) is Some {
        readiness::lemma_resolve_leaves_prefix(d, ls, none, n);
        lemma_not_unstartable(d, ls, none);
    }
    let bs = readiness::blockage(d, path);
    assert(bs.len() > 0);
    if !table_laws::held_up(d, r.id) {
        assert forall|i: int| 0 <= i < path.len() implies !waits(d, #[trigger] path[i]) by {
            if waits(d, path[i]) {
                let x = choose|x: TaskId| #[trigger]
                    table_laws::edge(d, path[i], x) && !table_laws::done(d, x);
                assert(table_laws::at_or_above(d, path[i], r.id) && table_laws::edge(
                    d,
                    path[i],
                    x,
                ));
            }
        }
        lemma_open(d, path);
    }
    if table_laws::at_or_above(d, q, r.id) && (forall|a: TaskId| #[trigger]
        table_laws::at_or_above(d, a, q) && a != q ==> !waits(d, a)) && table_laws::edge(d, q, b)
        && !table_laws::done(d, b) {
        lemma_blockage_of(d, r.id, q, b);
        let k = choose|k: int| 0 <= k < bs.len() && bs[k] == b;
        let some = bs.take(k + 1);
        assert(some.drop_last() =~= bs.take(k));
        assert(some.last() == b);
        assert(none.push(b) =~= seq![b]);
        if readiness::resolve_blockers(d, some, none) is Some {
            readiness::lemma_resolve_blockers_prefix(d, bs, none, k + 1);
        }
        if readiness::resolve_blockers(d, bs.take(k), none) is Some {
            readiness::lemma_resolve_blockers_prefix(d, bs, none, k);
        }
    }
}

/// The answer that leaves give is never that nothing can be started.
proof fn lemma_not_unstartable(d: Db, ls: Seq<Seq<TaskId>>, stack: Seq<TaskId>)
    ensures
        readiness::resolve_leaves(d, ls, stack) matches Some(Err(f)) ==> !(f is NoStartableTask),
    decreases ls.len(),
{
    if ls.len() > 0 {
        lemma_not_unstartable(d, ls.drop_last(), stack);
        lemma_blockers_not_unstartable(d, readiness::blockage(d, ls.last()), stack);
    }
}

proof fn lemma_blockers_not_unstartable(d: Db, bs: Seq<TaskId>, stack: Seq<TaskId>)
    ensures
        readiness::resolve_blockers(d, bs, stack) matches Some(Err(f)) ==> !(f is NoStartableTask),
    decreases bs.len(),
{
    if bs.len() > 0 {
        lemma_blockers_not_unstartable(d, bs.drop_last(), stack);
    }
}

/// What holds up a path are the blockers of the topmost task on it that waits.
proof fn lemma_blockage_of(d: Db, x: TaskId, q: TaskId, b: TaskId)
    requires
        d.wf(),
        d.has(x),
        table_laws::at_or_above(d, q, x),
        forall|a: TaskId| #[trigger] table_laws::at_or_above(d, a, q) && a != q ==> !waits(d, a),
        table_laws::edge(d, q, b),
        !table_laws::done(d, b),
    ensures
        readiness::blockage(d, readiness::lineage(d, x)).contains(b),
{
    let path = readiness::lineage(d, x);
    lemma_lineage(d, x);
    let j = choose|j: int| 0 <= j < path.len() && path[j] == q;
    let above = path.take(j);
    assert forall|i: int| 0 <= i < above.len() implies !waits(d, #[trigger] above[i]) by {
        assert(above[i] == path[i]);
        assert(table_laws::at_or_above(d, path[i], path[j]));
    }
    lemma_open(d, above);
    let upto = path.take(j + 1);
    assert(upto.drop_last() =~= above);
    assert(upto.last() == q);
    lemma_unsatisfied(d, q);
    readiness::lemma_blockage_prefix(d, path, j + 1);
    table_laws::law_what_holds_a_task_up(d, q);
    let f = |y: TaskId| !d.satisfied(y);
    assert(d.blockers_of(q).contains(b));
    assert(!d.satisfied(b));
    laws::lemma_filter_exact(d.blockers_of(q), f, b);
}

proof fn lemma_leaf_under(d: Db, root: TaskId, r: RowView)
    requires
        d.wf(),
        d.has(root),
        leaf_under(d, root, r),
    ensures
        d.has(r.id),
        readiness::leaves(d, root, readiness::lineage(d, root), 3).contains(
            readiness::lineage(d, r.id),
        ),
{
    let x = r.id;
    table_laws::law_rows(d, x);
    assert(table_laws::row_of(d, x, r));
    table_laws::law_pending_children(d, x);
    table_laws::law_hierarchy(d, root, x);
    assert(d.up(x, 0) == Some(x));
    let k: nat = if x == root {
        0
    } else {
        choose|k: nat| k >= 1 && #[trigger] d.up(x, k) == Some(root)
    };
    readiness::lemma_up_depth(d, x, k, root);
    assert(0 <= d.depth(root) && d.depth(x) <= 2);
    assert forall|j: nat| j <= k implies !d.row((#[trigger] d.up(x, j))->0).finished() by {
        lemma_rest(d, x, j, k);
        model::lemma_up_has(d, x, j);
        let y = d.up(x, j)->0;
        let w = (k - j) as nat;
        assert(d.up(y, w) == Some(root));
        assert(d.up(y, 0) == Some(y));
        if j > 0 {
            assert(d.ancestor(y, x));
        }
        if w > 0 {
            assert(d.ancestor(root, y));
        }
        table_laws::law_hierarchy(d, y, x);
        table_laws::law_hierarchy(d, root, y);
        model::lemma_row(d, y);
        assert(d.tasks.contains(d.row(y)));
    }
    lemma_leaf_listed(d, root, x, k, 3);
}

proof fn lemma_leaf_listed(d: Db, id: TaskId, x: TaskId, k: nat, levels: nat)
    requires
        d.wf(),
        d.has(x),
        d.up(x, k) == Some(id),
        forall|j: nat| j <= k ==> !d.row((#[trigger] d.up(x, j))->0).finished(),
        !d.has_pending_children(x),
        levels > k,
    ensures
        readiness::leaves(d, id, readiness::lineage(d, id), levels).contains(
            readiness::lineage(d, x),
        ),
    decreases k,
{
    let path = readiness::lineage(d, id);
    let ls = readiness::leaves(d, id, path, levels);
    assert(!d.row(d.up(x, k)->0).finished());
    if k == 0 {
        assert(d.up(x, 0) == Some(x));
        assert(ls =~= seq![path]);
        assert(ls[0] == path);
    } else {
        let j = (k - 1) as nat;
        let c = d.up(x, j)->0;
        let rest = (levels - 1) as nat;
        model::lemma_up_has(d, x, j);
        assert(d.parent(c) == Some(id));
        assert(!d.row(c).finished());
        lemma_leaf_listed(d, c, x, j, rest);
        ready_laws::lemma_lineage_child(d, id, c);
        model::lemma_children_stored(d, id);
        assert(d.children_ordered(id).contains(c));
        let n = choose|n: int| 0 <= n < d.children_ordered(id).len() && d.children_ordered(id)[n] == c;
        assert(d.has_pending_children(id)) by {
            model::lemma_row(d, c);
            let i = d.pos(c);
            assert(d.tasks[i].parent_id == Some(id) && !d.tasks[i].finished());
        }
        lemma_leaves_hold(d, d.children_ordered(id), path, rest, n, readiness::lineage(d, x));
    }
}

proof fn lemma_leaves_hold(
    d: Db,
    ids: Seq<TaskId>,
    path: Seq<TaskId>,
    levels: nat,
    n: int,
    l: Seq<TaskId>,
)
    requires
        0 <= n < ids.len(),
        readiness::leaves(d, ids[n], path.push(ids[n]), levels).contains(l),
    ensures
        readiness::leaves_all(d, ids, path, levels).contains(l),
    decreases ids.len(),
{
    let all = readiness::leaves_all(d, ids, path, levels);
    let rest = readiness::leaves_all(d, ids.drop_last(), path, levels);
    let own = readiness::leaves(d, ids.last(), path.push(ids.last()), levels);
    assert(all == rest + own);
    if n == ids.len() - 1 {
        let i = choose|i: int| 0 <= i < own.len() && own[i] == l;
        assert(all[rest.len() + i] == l);
    } else {
        assert(ids.drop_last()[n] == ids[n]);
        lemma_leaves_hold(d, ids.drop_last(), path, levels, n, l);
        let i = choose|i: int| 0 <= i < rest.len() && rest[i] == l;
        assert(all[i] == l);
    }
}

/// A blocker that is being followed and is met again ends the search with the chain that leads to it.
pub proof fn law_chains_are_told(d: Db, b: TaskId, stack: Seq<TaskId>)
    requires
        stack.contains(b),
    ensures
        readiness::resolve_blockers(d, seq![b], stack) matches Some(
            Err(Fault::BlockerCycleDetected { message, chain }),
        ) && chain == stack.push(b) && message == "Blocker cycle detected: "@ + told(chain),
{
    let one = seq![b];
    assert(one.drop_last() =~= Seq::<TaskId>::empty());
    assert(one.last() == b);
    reveal_with_fuel(readiness::resolve_blockers, 2);
    lemma_told(stack.push(b));
}

/// A chain of tasks with arrows between them.
pub open spec fn told(chain: Seq<TaskId>) -> Seq<char>
    decreases chain.len(),
{
    if chain.len() == 0 {
        Seq::empty()
    } else if chain.len() == 1 {
        chain[0].text()
    } else {
        chain[0].text() + seq![' ', '-', '>', ' '] + told(chain.skip(1))
    }
}

proof fn lemma_told(chain: Seq<TaskId>)
    ensures
        readiness::chain_text(chain) == told(chain),
    decreases chain.len(),
{
    reveal_strlit(" -> ");
    assert(" -> "@ =~= seq![' ', '-', '>', ' ']);
    if chain.len() > 1 {
        let a = chain.drop_last();
        let b = chain.skip(1);
        lemma_told(a);
        lemma_told(b);
        if chain.len() == 2 {
            assert(a =~= seq![chain[0]]);
            assert(b =~= seq![chain[1]]);
        } else {
            let m = a.skip(1);
            assert(b.drop_last() =~= m);
            lemma_told(m);
            assert(readiness::chain_text(b) == readiness::chain_text(m) + " -> "@
                + chain.last().text());
        }
        assert(readiness::chain_text(chain) =~= told(chain));
    }
}

// ---- what starting does ----

/// A start is refused for a task that is archived, cancelled or completed, in this order. One that
/// was started before, and whose bookmark is known, is checked out again, in a git repository after
/// its branch is asked for where that is not known. Any other is started where nothing holds it up
/// and no child of it is open, and refused otherwise.
pub proof fn law_when_a_start_goes_on(d: Db, git: bool, r: RowView)
    requires
        d.wf(),
        d.tasks.contains(r),
    ensures
        ({
            let s = workflow_service::begin_start(d, git, r.id);
            let live = !r.archived && !r.cancelled && !r.completed;
            let again = r.started_at is Some && r.bookmark is Some;
            let name = match r.bookmark {
                Some(b) => b,
                None => "task/"@ + r.id.text(),
            };
            &&& s.warning is None
            &&& r.archived ==> s.next == NextView::Over(Err(Fault::CannotModifyArchived))
            &&& !r.archived && r.cancelled ==> s.next == NextView::Over(
                Err(Fault::CannotStartCancelled),
            )
            &&& !r.archived && !r.cancelled && r.completed ==> s.next == NextView::Over(
                Err(Fault::CannotStartCompleted),
            )
            &&& live && again && git && r.base_ref is None ==> s.next == (NextView::Do {
                action: ActionView::CurrentBranchName,
                run: RunView::Start { id: r.id, phase: StartPhaseView::Backfill },
            })
            &&& live && again && !(git && r.base_ref is None) ==> s.next == (NextView::Do {
                action: ActionView::Checkout { target: r.bookmark->0 },
                run: RunView::Start { id: r.id, phase: StartPhaseView::Recheckout },
            })
            &&& live && !again && (table_laws::held_up(d, r.id) || table_laws::open_child(d, r.id))
                ==> (s.next matches NextView::Over(Err(f)) && refuses(d, r, f))
            &&& live && !again && !table_laws::held_up(d, r.id) && !table_laws::open_child(d, r.id)
                && git ==> s.next == (NextView::Do {
                action: ActionView::CurrentBranchName,
                run: RunView::Start { id: r.id, phase: StartPhaseView::Base },
            })
            &&& live && !again && !table_laws::held_up(d, r.id) && !table_laws::open_child(d, r.id)
                && !git ==> s.next == (NextView::Do {
                action: ActionView::CreateBookmark { name },
                run: RunView::Start { id: r.id, phase: StartPhaseView::Create { base: None } },
            })
        }),
{
    table_laws::law_rows(d, r.id);
    assert(table_laws::row_of(d, r.id, r));
    table_laws::law_what_holds_a_task_up(d, r.id);
    table_laws::law_pending_children(d, r.id);
    let live = !r.archived && !r.cancelled && !r.completed;
    if live && !d.effectively_blocked(r.id) {
        if !d.has_pending_children(r.id) {
            ready_laws::law_workable_task_is_next_under_itself(d, r.id);
        } else {
            readiness::lemma_next_under(d, r.id, 3);
        }
    }
    if live && d.effectively_blocked(r.id) {
        let f = |b: TaskId| !(d.has(b) && d.row(b).completed);
        assert forall|b: TaskId|
            workflow_service::open_blockers(d, r.id).contains(b) <==> #[trigger] table_laws::edge(
                d,
                r.id,
                b,
            ) && !completed(d, b) by {
            laws::lemma_filter_exact(d.blockers_of(r.id), f, b);
            table_laws::law_rows(d, b);
            if d.has(b) {
                assert(table_laws::row_of(d, b, d.row(b)));
            }
        }
        ready_laws::law_next_ready(d, None, r.id, r.id);
    }
    lemma_refusal(d, r.id);
}

/// The message of a refusal begins with the description of the task.
proof fn lemma_refusal(d: Db, id: TaskId)
    ensures
        workflow_service::target_fault(d, id) matches Some(
            Fault::NotNextReady { message, requested, next_ready, reason },
        ) ==> text_laws::mentions(message, "Cannot start '"@ + d.row(id).description + "' - "@),
{
    reveal_strlit("' - ");
    reveal_strlit("' - blocked by ");
    reveal_strlit("blocked by ");
    reveal_strlit("' - has incomplete children. Start '");
    reveal_strlit("has incomplete children. Start '");
    reveal_strlit("' - no ready tasks in subtree (all complete or blocked).");
    reveal_strlit("no ready tasks in subtree (all complete or blocked).");
    assert("' - blocked by "@ =~= "' - "@ + "blocked by "@);
    assert("' - has incomplete children. Start '"@ =~= "' - "@
        + "has incomplete children. Start '"@);
    assert("' - no ready tasks in subtree (all complete or blocked)."@ =~= "' - "@
        + "no ready tasks in subtree (all complete or blocked)."@);
    let none = Seq::<char>::empty();
    let start = "Cannot start '"@ + d.row(id).description + "' - "@;
    match workflow_service::target_fault(d, id) {
        Some(Fault::NotNextReady { message, requested, next_ready, reason }) => {
            if d.effectively_blocked(id) {
                let bs = workflow_service::ids_joined(workflow_service::open_blockers(d, id));
                let tail = match next_ready {
                    Some(n) => "Start '"@ + n.text() + "' instead."@,
                    None => "No ready tasks available."@,
                };
                assert(message =~= none + start + ("blocked by "@ + bs + ". "@ + tail));
            } else if let Some(n) = next_ready {
                assert(message =~= none + start + ("has incomplete children. Start '"@ + d.row(
                    n,
                ).description + "' instead."@));
            } else {
                assert(message =~= none + start
                    + "no ready tasks in subtree (all complete or blocked)."@);
            }
        },
        _ => {},
    }
}

/// Whether the row of a task says that it is completed.
pub open spec fn completed(d: Db, b: TaskId) -> bool {
    exists|r: RowView| #[trigger] table_laws::row_of(d, b, r) && r.completed
}

/// Whether a refusal names a task and says why it cannot be started: its blockers that are not
/// completed where it is held up, else the open children under it.
pub open spec fn refuses(d: Db, r: RowView, f: Fault) -> bool {
    let id = r.id;
    match f {
        Fault::NotNextReady { message, requested, next_ready, reason } => {
            &&& requested == id
            &&& text_laws::mentions(message, "Cannot start '"@ + r.description + "' - "@)
            &&& table_laws::held_up(d, id) ==> readiness::next_ready(d, None) == Ok::<
                Option<TaskId>,
                Fault,
            >(next_ready)
            &&& table_laws::held_up(d, id) ==> (reason matches ReasonView::Blocked { blockers }
                && (forall|b: TaskId| #[trigger]
                table_laws::edge(d, id, b) && !completed(d, b) <==> blockers.contains(b)))
            &&& !table_laws::held_up(d, id) && next_ready is Some ==> reason
                == ReasonView::HasIncompleteChildren && d.in_subtree(id, next_ready->0)
                && next_ready->0 != id
            &&& !table_laws::held_up(d, id) && next_ready is None ==> reason
                == ReasonView::NoReadyTasksInSubtree
        },
        _ => false,
    }
}

/// A start asks the repository in turn: for the branch in a git repository, for a new bookmark, to
/// check it out, and for the commit; then the start is stored.
pub proof fn law_order_of_a_start(
    d: Db,
    r: RowView,
    branch: Seq<char>,
    sha: Seq<char>,
    base: Option<Seq<char>>,
    e: VcsFault,
    now: Timestamp,
)
    requires
        d.wf(),
        d.tasks.contains(r),
    ensures
        ({
            let id = r.id;
            let name = match r.bookmark {
                Some(b) => b,
                None => "task/"@ + id.text(),
            };
            let ok = ReplyView::Done(Ok(()));
            &&& workflow_service::resume_start(
                d,
                id,
                StartPhaseView::Base,
                ReplyView::Branch(Ok(Some(branch))),
                now,
            ) == (
                d,
                asks(
                    ActionView::CreateBookmark { name },
                    id,
                    StartPhaseView::Create { base: Some(branch) },
                ),
            )
            &&& workflow_service::resume_start(
                d,
                id,
                StartPhaseView::Base,
                ReplyView::Branch(Ok(None)),
                now,
            ) == (d, refused(Fault::CannotStartDetachedHead))
            &&& workflow_service::resume_start(d, id, StartPhaseView::Create { base }, ok, now) == (
                d,
                asks(ActionView::Checkout { target: name }, id, StartPhaseView::Check { base }),
            )
            &&& workflow_service::resume_start(
                d,
                id,
                StartPhaseView::Create { base },
                ReplyView::Done(Err(VcsFault::BookmarkExists(branch))),
                now,
            ) == (
                d,
                asks(ActionView::Checkout { target: name }, id, StartPhaseView::Check { base }),
            )
            &&& workflow_service::resume_start(d, id, StartPhaseView::Check { base }, ok, now) == (
                d,
                asks(ActionView::CurrentCommitId, id, StartPhaseView::Sha { base }),
            )
            &&& branch != name ==> ({
                let (n, s) = workflow_service::resume_start(
                    d,
                    id,
                    StartPhaseView::Backfill,
                    ReplyView::Branch(Ok(Some(branch))),
                    now,
                );
                &&& s == asks(ActionView::Checkout { target: name }, id, StartPhaseView::Recheckout)
                &&& n.row(id) == RowView { base_ref: Some(branch), updated_at: now, ..r }
            })
            &&& branch == name ==> workflow_service::resume_start(
                d,
                id,
                StartPhaseView::Backfill,
                ReplyView::Branch(Ok(Some(branch))),
                now,
            ) == (d, refused(Fault::MissingBaseRef { task_id: id }))
            &&& workflow_service::resume_start(
                d,
                id,
                StartPhaseView::Recheckout,
                ok,
                now,
            ).1.next matches NextView::Over(Ok(t)) && t.row == r
        }),
{
    table_laws::law_rows(d, r.id);
    assert(table_laws::row_of(d, r.id, r));
    model::lemma_with_row(
        d,
        r.id,
        RowView { base_ref: Some(branch), updated_at: now, ..d.row(r.id) },
    );
}

/// Whether an error is what a fault of the repository means: that there is none, that it is dirty,
/// detached or without commits, or the fault itself.
pub open spec fn means(f: Fault, e: VcsFault) -> bool {
    &&& e is NotARepository <==> f is NotARepository
    &&& e is DirtyWorkingCopy <==> f is DirtyWorkingCopy
    &&& e is DetachedHead <==> f is CannotStartDetachedHead
    &&& e is UnbornRepository <==> f is CannotStartUnbornRepository
    &&& !(e is NotARepository || e is DirtyWorkingCopy || e is DetachedHead
        || e is UnbornRepository) ==> f == Fault::Vcs(e)
}

/// Whether a step ends with an error that a fault of the repository means, and nothing was stored.
pub open spec fn ends_with(d: Db, r: (Db, StepView), e: VcsFault) -> bool {
    r.0 == d && (r.1.next matches NextView::Over(Err(f)) && means(f, e))
}

/// A fault of the repository ends a start, whatever was asked for, and nothing is stored; only that
/// the bookmark exists already does not.
pub proof fn law_faults_end_a_start(
    d: Db,
    id: TaskId,
    base: Option<Seq<char>>,
    e: VcsFault,
    now: Timestamp,
)
    requires
        d.has(id),
    ensures
        ({
            let done = ReplyView::Done(Err(e));
            let branch = ReplyView::Branch(Err(e));
            let check = StartPhaseView::Check { base };
            let create = StartPhaseView::Create { base };
            let again = StartPhaseView::Recheckout;
            let sha = StartPhaseView::Sha { base };
            &&& ends_with(
                d,
                workflow_service::resume_start(d, id, StartPhaseView::Backfill, branch, now),
                e,
            )
            &&& ends_with(
                d,
                workflow_service::resume_start(d, id, StartPhaseView::Base, branch, now),
                e,
            )
            &&& ends_with(d, workflow_service::resume_start(d, id, again, done, now), e)
            &&& ends_with(d, workflow_service::resume_start(d, id, check, done, now), e)
            &&& ends_with(
                d,
                workflow_service::resume_start(d, id, sha, ReplyView::Id(Err(e)), now),
                e,
            )
            &&& !(e is BookmarkExists) ==> ends_with(
                d,
                workflow_service::resume_start(d, id, create, done, now),
                e,
            )
        }),
{
}

/// A step that asks the repository for something in a start.
pub open spec fn asks(action: ActionView, id: TaskId, phase: StartPhaseView) -> StepView {
    StepView { warning: None, next: NextView::Do { action, run: RunView::Start { id, phase } } }
}

/// A step that refuses.
pub open spec fn refused(f: Fault) -> StepView {
    StepView { warning: None, next: NextView::Over(Err::<TaskView, Fault>(f)) }
}

/// Whether the row at a place after a start was stored is what it should be: that of the task has its
/// bookmark, the commit, the branch where one is given, and the time of its first start; one above it
/// that was not started is started now; any other stays.
pub open spec fn start_stored(
    d: Db,
    e: Db,
    id: TaskId,
    sha: Seq<char>,
    base: Option<Seq<char>>,
    now: Timestamp,
    i: int,
) -> bool {
    let r = d.tasks[i];
    if r.id == id {
        e.tasks[i] == RowView {
            bookmark: Some(
                match r.bookmark {
                    Some(b) => b,
                    None => "task/"@ + id.text(),
                },
            ),
            start_commit: Some(sha),
            base_ref: if base is Some {
                base
            } else {
                r.base_ref
            },
            started_at: Some(
                match r.started_at {
                    Some(t) => t,
                    None => now,
                },
            ),
            updated_at: now,
            ..r
        }
    } else if table_laws::at_or_above(d, r.id, id) && r.started_at is None {
        e.tasks[i] == RowView { started_at: Some(now), updated_at: now, ..r }
    } else {
        e.tasks[i] == r
    }
}

/// When a start is stored, the rows of the task and of those above it are marked; nothing else
/// changes, and the answer is the row of the task as it is now.
pub proof fn law_what_a_start_stores(
    d: Db,
    id: TaskId,
    sha: Seq<char>,
    base: Option<Seq<char>>,
    now: Timestamp,
    i: int,
)
    requires
        d.wf(),
        0 <= i < d.tasks.len(),
        d.has(id),
    ensures
        ({
            let (e, s) = workflow_service::resume_start(
                d,
                id,
                StartPhaseView::Sha { base },
                ReplyView::Id(Ok(sha)),
                now,
            );
            &&& e.tasks.len() == d.tasks.len() && e.blockers == d.blockers && e.learnings
                == d.learnings
            &&& start_stored(d, e, id, sha, base, now, i)
            &&& s.next matches NextView::Over(Ok(t)) && t.row.id == id && e.tasks.contains(t.row)
        }),
{
    lemma_started(d, id, sha, base, now, i);
}

proof fn lemma_started(
    d: Db,
    id: TaskId,
    sha: Seq<char>,
    base: Option<Seq<char>>,
    now: Timestamp,
    i: int,
)
    requires
        d.wf(),
        0 <= i < d.tasks.len(),
        d.has(id),
    ensures
        ({
            let e = workflow_service::started(d, id, sha, base, now);
            &&& e.tasks.len() == d.tasks.len() && e.blockers == d.blockers && e.learnings
                == d.learnings
            &&& start_stored(d, e, id, sha, base, now, i)
            &&& e.has(id) && e.row(id).id == id && e.tasks.contains(e.row(id))
        }),
{
    let r = d.tasks[i];
    let e = workflow_service::started(d, id, sha, base, now);
    let m = lemma_started_row(d, id, sha, base, now);
    lemma_started_above(m, id, now, 2);
    table_laws::law_hierarchy(d, r.id, id);
    let j = d.pos(id);
    assert(0 <= j < d.tasks.len() && d.tasks[j].id == id);
    assert(m.tasks[i].id == r.id && m.tasks[j].id == id);
    lemma_within_two(d, m, r.id, id);
    assert(e.tasks[j].id == id);
    model::lemma_pos(e, j);
    assert(e.tasks.contains(e.tasks[j]));
}

proof fn lemma_within_two(d: Db, m: Db, a: TaskId, id: TaskId)
    requires
        d.wf(),
        d.has(id),
        forall|x: TaskId| #[trigger] m.parent(x) == d.parent(x),
    ensures
        within(m, a, id, 2) <==> d.ancestor(a, id),
{
    model::lemma_up_same(d, m, id, 1);
    model::lemma_up_same(d, m, id, 2);
    if d.ancestor(a, id) {
        model::lemma_ancestor(d, a, id);
        assert(m.up(id, 1) == Some(a) || m.up(id, 2) == Some(a));
    }
    if within(m, a, id, 2) {
        let k = choose|k: nat| 1 <= k <= 2 && #[trigger] m.up(id, k) == Some(a);
        model::lemma_up_same(d, m, id, k);
        assert(d.up(id, k) == Some(a));
    }
}

/// Whether a task is a given number of levels above another, or fewer.
spec fn within(d: Db, a: TaskId, x: TaskId, levels: nat) -> bool {
    exists|k: nat| 1 <= k <= levels && #[trigger] d.up(x, k) == Some(a)
}

/// The row of the task itself when a start is stored.
proof fn lemma_started_row(
    d: Db,
    id: TaskId,
    sha: Seq<char>,
    base: Option<Seq<char>>,
    now: Timestamp,
) -> (m: Db)
    requires
        d.wf(),
        d.has(id),
    ensures
        workflow_service::started(d, id, sha, base, now) == workflow_service::bubbled_start(
            m,
            id,
            now,
            2,
        ),
        m.wf(),
        m.has(id),
        m.blockers == d.blockers,
        m.learnings == d.learnings,
        m.tasks.len() == d.tasks.len(),
        forall|x: TaskId| #[trigger] m.parent(x) == d.parent(x),
        forall|i: int|
            0 <= i < d.tasks.len() && (#[trigger] d.tasks[i]).id != id ==> m.tasks[i] == d.tasks[i],
        forall|i: int|
            0 <= i < d.tasks.len() && (#[trigger] d.tasks[i]).id == id ==> m.tasks[i] == (RowView {
                bookmark: Some(
                    match d.tasks[i].bookmark {
                        Some(b) => b,
                        None => "task/"@ + id.text(),
                    },
                ),
                start_commit: Some(sha),
                base_ref: if base is Some {
                    base
                } else {
                    d.tasks[i].base_ref
                },
                started_at: Some(
                    match d.tasks[i].started_at {
                        Some(t) => t,
                        None => now,
                    },
                ),
                updated_at: now,
                ..d.tasks[i]
            }),
{
    let bookmark = workflow_service::bookmark_of(d, id);
    let a = d.with_bookmark(id, Some(bookmark), now);
    lemma_put(d, id, RowView { bookmark: Some(bookmark), updated_at: now, ..d.row(id) });
    let b = a.with_start_commit(id, sha, now);
    lemma_put(a, id, RowView { start_commit: Some(sha), updated_at: now, ..a.row(id) });
    let c = match base {
        Some(x) => b.with_base_ref(id, x, now),
        None => b,
    };
    if base is Some {
        lemma_put(b, id, RowView { base_ref: base, updated_at: now, ..b.row(id) });
    }
    let m = if d.row(id).started_at is None {
        c.starting(id, now)
    } else {
        c
    };
    if d.row(id).started_at is None {
        lemma_put(c, id, RowView { started_at: Some(now), updated_at: now, ..c.row(id) });
    }
    m
}

/// The rows above a task when a start is stored.
proof fn lemma_started_above(d: Db, id: TaskId, now: Timestamp, levels: nat)
    requires
        d.wf(),
        d.has(id),
    ensures
        ({
            let e = workflow_service::bubbled_start(d, id, now, levels);
            &&& e.wf()
            &&& e.tasks.len() == d.tasks.len() && e.blockers == d.blockers && e.learnings
                == d.learnings
            &&& forall|i: int|
                0 <= i < d.tasks.len() && within(d, (#[trigger] d.tasks[i]).id, id, levels)
                    && d.tasks[i].started_at is None ==> e.tasks[i] == (RowView {
                    started_at: Some(now),
                    updated_at: now,
                    ..d.tasks[i]
                })
            &&& forall|i: int|
                0 <= i < d.tasks.len() && !(within(d, (#[trigger] d.tasks[i]).id, id, levels)
                    && d.tasks[i].started_at is None) ==> e.tasks[i] == d.tasks[i]
        }),
    decreases levels,
{
    if levels == 0 {
    } else if d.parent(id) is None {
        assert forall|a: TaskId| !within(d, a, id, levels) by {
            if within(d, a, id, levels) {
                let k = choose|k: nat| 1 <= k <= levels && #[trigger] d.up(id, k) == Some(a);
                model::lemma_up_from_parent(d, id, (k - 1) as nat);
            }
        }
    } else {
        let p = d.parent(id)->0;
        let rest = (levels - 1) as nat;
        model::lemma_depth_child(d, id);
        let m = if d.row(p).started_at is None {
            d.starting(p, now)
        } else {
            d
        };
        if d.row(p).started_at is None {
            lemma_put(d, p, RowView { started_at: Some(now), updated_at: now, ..d.row(p) });
        }
        lemma_started_above(m, p, now, rest);
        let e = workflow_service::bubbled_start(d, id, now, levels);
        assert forall|i: int| 0 <= i < d.tasks.len() implies e.tasks[i] == if within(
            d,
            (#[trigger] d.tasks[i]).id,
            id,
            levels,
        ) && d.tasks[i].started_at is None {
            RowView { started_at: Some(now), updated_at: now, ..d.tasks[i] }
        } else {
            d.tasks[i]
        } by {
            let a = d.tasks[i].id;
            model::lemma_pos(d, i);
            assert(m.tasks[i].id == a);
            lemma_within(d, m, a, id, p, levels);
        }
    }
}

proof fn lemma_within(d: Db, m: Db, a: TaskId, id: TaskId, p: TaskId, levels: nat)
    requires
        levels > 0,
        d.parent(id) == Some(p),
        forall|x: TaskId| #[trigger] m.parent(x) == d.parent(x),
    ensures
        within(d, a, id, levels) <==> a == p || within(m, a, p, (levels - 1) as nat),
{
    if within(d, a, id, levels) {
        let k = choose|k: nat| 1 <= k <= levels && #[trigger] d.up(id, k) == Some(a);
        model::lemma_up_from_parent(d, id, (k - 1) as nat);
        model::lemma_up_same(d, m, p, (k - 1) as nat);
        if k == 1 {
            assert(d.up(p, 0) == Some(p));
        }
    }
    if a == p {
        assert(d.up(id, 0) == Some(id));
        assert(d.up(id, 1) == Some(p));
    }
    if within(m, a, p, (levels - 1) as nat) {
        let k = choose|k: nat| 1 <= k <= levels - 1 && #[trigger] m.up(p, k) == Some(a);
        model::lemma_up_from_parent(d, id, k);
        model::lemma_up_same(d, m, p, k);
        assert(d.up(id, k + 1) == Some(a));
    }
}

/// Replacing the row of a task by one of the same task under the same parent.
proof fn lemma_put(d: Db, id: TaskId, r: RowView)
    requires
        d.wf(),
        d.has(id),
        r.id == id,
        r.parent_id == d.row(id).parent_id,
    ensures
        ({
            let e = d.set_row(id, r);
            &&& e.wf()
            &&& e.has(id) && e.row(id) == r
            &&& e.blockers == d.blockers && e.learnings == d.learnings
            &&& e.tasks.len() == d.tasks.len()
            &&& forall|x: TaskId| #[trigger] e.has(x) == d.has(x)
            &&& forall|x: TaskId| #[trigger] e.parent(x) == d.parent(x)
            &&& forall|i: int|
                0 <= i < d.tasks.len() ==> e.tasks[i] == if (#[trigger] d.tasks[i]).id == id {
                    r
                } else {
                    d.tasks[i]
                }
        }),
{
    model::lemma_with_row(d, id, r);
    model::lemma_with_row_same_parent(d, id, r);
    let e = d.set_row(id, r);
    assert forall|i: int| 0 <= i < d.tasks.len() implies e.tasks[i] == if (
    #[trigger] d.tasks[i]).id == id {
        r
    } else {
        d.tasks[i]
    } by {
        model::lemma_pos(d, i);
    }
}

} // verus!
