//! Which task is chosen, by the rows and the edges.
use vstd::prelude::*;

use crate::error::Fault;
use crate::id::TaskId;
use crate::model;
use crate::model::Db;
use crate::service::order_laws;
use crate::service::readiness;
use crate::service::ready_laws;
use crate::table_laws;
use crate::types::RowView;

verus! {

/// Whether a row is neither completed nor cancelled nor archived.
pub open spec fn live(r: RowView) -> bool {
    !r.completed && !r.cancelled && !r.archived
}

/// Whether a task can be taken up under another one: every row from it up to that one is live and
/// has no edge to a blocker that is not done, and no child of it is open.
pub open spec fn can_be_taken_up(d: Db, root: TaskId, y: TaskId) -> bool {
    &&& table_laws::at_or_above(d, root, y)
    &&& table_laws::stored(d, y)
    &&& forall|a: TaskId| #[trigger]
        table_laws::at_or_above(d, a, y) && table_laws::at_or_above(d, root, a) ==> clear(d, a)
    &&& !table_laws::open_child(d, y)
}

/// Whether the row of a task is live and every blocker of it is done.
pub open spec fn clear(d: Db, a: TaskId) -> bool {
    &&& forall|r: RowView| #[trigger] table_laws::row_of(d, a, r) ==> live(r)
    &&& forall|b: TaskId| #[trigger] table_laws::edge(d, a, b) ==> table_laws::done(d, b)
}

proof fn lemma_passable(d: Db, a: TaskId)
    requires
        d.wf(),
        d.has(a),
    ensures
        readiness::passable(d, a) <==> clear(d, a),
{
    table_laws::law_rows(d, a);
    table_laws::law_what_holds_a_task_up(d, a);
    assert(table_laws::row_of(d, a, d.row(a)));
}

/// What is ready under a task is what can be taken up under it.
proof fn lemma_taken_up(d: Db, root: TaskId, y: TaskId)
    requires
        d.wf(),
        d.has(root),
        d.has(y),
    ensures
        readiness::ready_under(d, root, y) <==> can_be_taken_up(d, root, y),
{
    table_laws::law_pending_children(d, y);
    table_laws::law_rows(d, y);
    table_laws::law_hierarchy(d, root, y);
    assert(table_laws::row_of(d, y, d.row(y)));
    assert(d.up(y, 0) == Some(y));
    if readiness::ready_under(d, root, y) {
        let k = choose|k: nat| #[trigger] readiness::open_path(d, root, y, k);
        if k > 0 {
            assert(d.ancestor(root, y));
        }
        assert forall|a: TaskId| #[trigger]
            table_laws::at_or_above(d, a, y) && table_laws::at_or_above(d, root, a) implies clear(
            d,
            a,
        ) by {
            lemma_between(d, root, a, y, k);
            let j = choose|j: nat| j <= k && #[trigger] d.up(y, j) == Some(a);
            assert(readiness::passable(d, d.up(y, j)->0));
            model::lemma_up_has(d, y, j);
            lemma_passable(d, a);
        }
    }
    if can_be_taken_up(d, root, y) {
        let k: nat = if root == y {
            0
        } else {
            choose|k: nat| k >= 1 && #[trigger] d.up(y, k) == Some(root)
        };
        assert forall|j: nat| j <= k implies readiness::passable(
            d,
            (#[trigger] d.up(y, j))->0,
        ) by {
            if d.up(y, j) is None {
                model::lemma_up_none(d, y, j, k);
            }
            let a = d.up(y, j)->0;
            model::lemma_up_has(d, y, j);
            if j > 0 {
                assert(d.ancestor(a, y));
            }
            table_laws::law_hierarchy(d, a, y);
            lemma_up_rest(d, y, j, k);
            assert(d.up(a, (k - j) as nat) == Some(root));
            assert(d.up(a, 0) == Some(a));
            if k > j {
                assert(d.ancestor(root, a));
            }
            table_laws::law_hierarchy(d, root, a);
            assert(table_laws::at_or_above(d, a, y));
            lemma_passable(d, a);
        }
        assert(readiness::open_path(d, root, y, k));
    }
}

/// Going up in two parts is going up.
proof fn lemma_up_rest(d: Db, x: TaskId, j: nat, k: nat)
    requires
        j <= k,
        d.up(x, j) is Some,
    ensures
        d.up(x, k) == d.up(d.up(x, j)->0, (k - j) as nat),
    decreases k,
{
    if k > j {
        lemma_up_rest(d, x, j, (k - 1) as nat);
    } else {
        assert(d.up(d.up(x, j)->0, 0) == d.up(x, j));
    }
}

/// A task between two others is met on the way from the one to the other.
proof fn lemma_between(d: Db, root: TaskId, a: TaskId, y: TaskId, k: nat)
    requires
        d.wf(),
        d.has(y),
        d.up(y, k) == Some(root),
        table_laws::at_or_above(d, a, y),
        table_laws::at_or_above(d, root, a),
    ensures
        exists|j: nat| j <= k && #[trigger] d.up(y, j) == Some(a),
{
    assert(d.up(y, 0) == Some(y));
    table_laws::law_hierarchy(d, a, y);
    table_laws::law_hierarchy(d, root, a);
    let j: nat = if a == y {
        0
    } else {
        choose|j: nat| j >= 1 && #[trigger] d.up(y, j) == Some(a)
    };
    if j > k {
        readiness::lemma_up_depth(d, y, j, a);
        readiness::lemma_up_depth(d, y, k, root);
        if root != a {
            let n = choose|n: nat| n >= 1 && #[trigger] d.up(a, n) == Some(root);
            readiness::lemma_up_depth(d, a, n, root);
        }
    }
}

/// Where nothing is found within as many levels as there are, nothing is there.
proof fn lemma_nothing_found(d: Db, r: TaskId, levels: nat, y: TaskId)
    requires
        d.wf(),
        d.has(r),
        levels + d.depth(r) >= 3,
        readiness::next_under(d, r, levels) is None,
    ensures
        !readiness::ready_under(d, r, y),
{
    let p = |x: TaskId| readiness::ready_under(d, r, x);
    let w = readiness::walk(d, r, levels);
    readiness::lemma_first_where(w, p);
    if readiness::ready_under(d, r, y) {
        let k = choose|k: nat| #[trigger] readiness::open_path(d, r, y, k);
        assert(d.up(y, k) == Some(r));
        assert(d.up(y, 0) == Some(y));
        if k == 0 {
            assert(y == r);
        } else {
            model::lemma_up_from_parent(d, y, (k - 1) as nat);
        }
        readiness::lemma_up_depth(d, y, k, r);
        readiness::lemma_walk(d, r, levels, y);
        assert(w.contains(y));
        let i = choose|i: int| 0 <= i < w.len() && w[i] == y;
        assert(!p(w[i]));
    }
}

/// Of two tasks under one parent the first in the order of rows stands first.
proof fn lemma_places(d: Db, q: TaskId, s: RowView, t: RowView)
    requires
        d.wf(),
        d.tasks.contains(s),
        d.tasks.contains(t),
        s.parent_id == Some(q),
        t.parent_id == Some(q),
        order_laws::row_before(t, s),
    ensures
        exists|i: int, k: int|
            0 <= k < i < d.children_ordered(q).len() && #[trigger] d.children_ordered(q)[i] == s.id
                && #[trigger] d.children_ordered(q)[k] == t.id,
{
    let kids = d.children_ordered(q);
    order_laws::law_children_come_by_priority_and_age(d, q, 0, 0, s, t, s.id);
    order_laws::law_children_come_by_priority_and_age(d, q, 0, 0, s, t, t.id);
    assert(table_laws::child_of(d, s.id, q));
    assert(table_laws::child_of(d, t.id, q));
    let i = choose|i: int| 0 <= i < kids.len() && kids[i] == s.id;
    let k = choose|k: int| 0 <= k < kids.len() && kids[k] == t.id;
    assert(table_laws::row_of(d, kids[i], s));
    assert(table_laws::row_of(d, kids[k], t));
    table_laws::law_rows(d, s.id);
    if i < k {
        order_laws::law_children_come_by_priority_and_age(d, q, i, k, s, t, s.id);
    }
    if i == k {
        assert(s == t);
    }
}

/// Nothing under an earlier sibling of a task on the way to what was found can be taken up.
proof fn lemma_earlier_siblings(
    d: Db,
    r: TaskId,
    levels: nat,
    x: TaskId,
    q: TaskId,
    s: RowView,
    t: RowView,
    y: TaskId,
)
    requires
        d.wf(),
        d.has(r),
        levels + d.depth(r) >= 3,
        readiness::next_under(d, r, levels) == Some(x),
        d.in_subtree(r, q),
        s.parent_id == Some(q),
        t.parent_id == Some(q),
        d.tasks.contains(s),
        d.tasks.contains(t),
        d.in_subtree(s.id, x),
        order_laws::row_before(t, s),
    ensures
        !readiness::ready_under(d, t.id, y),
    decreases levels,
{
    let kids = d.children_ordered(r);
    table_laws::law_rows(d, s.id);
    table_laws::law_rows(d, t.id);
    assert(table_laws::row_of(d, s.id, s));
    assert(table_laws::row_of(d, t.id, t));
    readiness::lemma_next_under(d, r, levels);
    model::lemma_children_stored(d, r);
    model::lemma_depth_child(d, s.id);
    model::lemma_depth_child(d, t.id);
    lemma_deeper(d, r, q);
    lemma_deeper(d, s.id, x);
    if levels > 0 {
        let rest = (levels - 1) as nat;
        assert(x != r);
        readiness::lemma_next_under_child(d, r, rest);
        let i = choose|i: int|
            0 <= i < kids.len() && readiness::next_under(d, #[trigger] kids[i], rest) == Some(x)
                && (forall|k: int|
                0 <= k < i ==> readiness::next_under(d, #[trigger] kids[k], rest) is None);
        let c = kids[i];
        readiness::lemma_next_under(d, c, rest);
        let n = choose|n: nat| #[trigger] readiness::open_path(d, c, x, n);
        assert(d.up(x, n) == Some(c));
        assert(d.up(x, 0) == Some(x));
        model::lemma_depth_child(d, c);
        readiness::lemma_up_depth(d, x, n, c);
        let m: nat = if s.id == x {
            0
        } else {
            choose|m: nat| m >= 1 && #[trigger] d.up(x, m) == Some(s.id)
        };
        readiness::lemma_up_depth(d, x, m, s.id);
        if q == r {
            assert(n == m);
            assert(c == s.id);
            lemma_places(d, q, s, t);
            let (i2, k) = choose|i2: int, k: int|
                0 <= k < i2 < kids.len() && #[trigger] kids[i2] == s.id && #[trigger] kids[k]
                    == t.id;
            assert(i2 == i);
            assert(readiness::next_under(d, kids[k], rest) is None);
            lemma_nothing_found(d, t.id, rest, y);
        } else {
            assert(d.up(x, m + 1) == Some(q));
            readiness::lemma_up_depth(d, x, m + 1, q);
            assert(n >= m + 1) by {
                let v = choose|v: nat| v >= 1 && #[trigger] d.up(q, v) == Some(r);
                readiness::lemma_up_depth(d, q, v, r);
            }
            lemma_up_rest(d, x, m + 1, n);
            assert(d.up(q, (n - m - 1) as nat) == Some(c));
            assert(d.up(q, 0) == Some(q));
            if n > m + 1 {
                assert(d.ancestor(c, q));
            }
            lemma_earlier_siblings(d, c, rest, x, q, s, t, y);
        }
    }
}

/// What is below a task is no less deep.
proof fn lemma_deeper(d: Db, a: TaskId, x: TaskId)
    requires
        d.wf(),
        d.has(x),
        d.in_subtree(a, x),
    ensures
        d.depth(a) <= d.depth(x),
        a != x ==> d.depth(a) < d.depth(x),
{
    if a != x {
        let k = choose|k: nat| k >= 1 && #[trigger] d.up(x, k) == Some(a);
        readiness::lemma_up_depth(d, x, k, a);
    }
}

/// The first of the milestones under which something is found.
proof fn lemma_first_milestone(d: Db, ids: Seq<TaskId>)
    ensures
        readiness::next_among(d, ids) matches Some(x) ==> exists|i: int|
            0 <= i < ids.len() && readiness::next_under(d, #[trigger] ids[i], 3) == Some(x) && (
            forall|k: int| 0 <= k < i ==> readiness::next_under(d, #[trigger] ids[k], 3) is None),
        readiness::next_among(d, ids) is None ==> forall|k: int|
            0 <= k < ids.len() ==> readiness::next_under(d, #[trigger] ids[k], 3) is None,
    decreases ids.len(),
{
    if ids.len() > 0 {
        let rest = ids.drop_last();
        lemma_first_milestone(d, rest);
        let n = ids.len() - 1;
        assert(ids[n] == ids.last());
        match readiness::next_among(d, rest) {
            Some(x) => {
                let i = choose|i: int|
                    0 <= i < rest.len() && readiness::next_under(d, #[trigger] rest[i], 3) == Some(
                        x,
                    ) && (forall|k: int|
                        0 <= k < i ==> readiness::next_under(d, #[trigger] rest[k], 3) is None);
                assert(readiness::next_under(d, ids[i], 3) == Some(x));
                assert forall|k: int| 0 <= k < i implies readiness::next_under(
                    d,
                    #[trigger] ids[k],
                    3,
                ) is None by {
                    assert(rest[k] == ids[k]);
                }
            },
            None => {
                assert forall|k: int| 0 <= k < n implies readiness::next_under(
                    d,
                    #[trigger] ids[k],
                    3,
                ) is None by {
                    assert(rest[k] == ids[k]);
                }
            },
        }
    }
}

/// The next ready task is the first one: it can be taken up, and under no task that stands before it
/// or before one above it, by the smaller priority number, the earlier creation or the smaller
/// identifier, is there anything that can be taken up. Where a task is named, what stands before it
/// does not count.
pub proof fn law_next_ready_is_the_first(
    d: Db,
    milestone: Option<TaskId>,
    s: RowView,
    t: RowView,
    y: TaskId,
)
    requires
        d.wf(),
        readiness::next_ready(d, milestone) matches Ok(Some(x)) && {
            &&& d.tasks.contains(s) && d.tasks.contains(t)
            &&& s.parent_id == t.parent_id
            &&& table_laws::at_or_above(d, s.id, x)
            &&& order_laws::row_before(t, s)
            &&& match milestone {
                None => true,
                Some(root) => s.parent_id matches Some(q) && table_laws::at_or_above(d, root, q),
            }
        },
    ensures
        !can_be_taken_up(d, t.id, y),
{
    let x = readiness::next_ready(d, milestone)->Ok_0->0;
    table_laws::law_rows(d, s.id);
    table_laws::law_rows(d, t.id);
    table_laws::law_rows(d, y);
    assert(table_laws::row_of(d, s.id, s));
    assert(table_laws::row_of(d, t.id, t));
    table_laws::law_hierarchy(d, s.id, x);
    if d.has(y) {
        lemma_taken_up(d, t.id, y);
    }
    match milestone {
        Some(root) => {
            let q = s.parent_id->0;
            table_laws::law_hierarchy(d, root, q);
            assert(d.depth(root) >= 0);
            lemma_earlier_siblings(d, root, 3, x, q, s, t, y);
        },
        None => {
            let roots = d.roots_ordered();
            model::lemma_roots_stored(d);
            lemma_first_milestone(d, roots);
            let i = choose|i: int|
                0 <= i < roots.len() && readiness::next_under(d, #[trigger] roots[i], 3) == Some(x)
                    && (forall|k: int|
                    0 <= k < i ==> readiness::next_under(d, #[trigger] roots[k], 3) is None);
            let r = roots[i];
            assert(roots.contains(r));
            readiness::lemma_next_under(d, r, 3);
            let n = choose|n: nat| #[trigger] readiness::open_path(d, r, x, n);
            assert(d.up(x, n) == Some(r));
            assert(d.up(x, 0) == Some(x));
            assert(d.up(r, 0) == Some(r));
            assert(d.up(r, 1) == d.parent(r));
            readiness::lemma_up_depth(d, x, n, r);
            let m: nat = if s.id == x {
                0
            } else {
                choose|m: nat| m >= 1 && #[trigger] d.up(x, m) == Some(s.id)
            };
            readiness::lemma_up_depth(d, x, m, s.id);
            match s.parent_id {
                None => {
                    assert(d.up(s.id, 0) == Some(s.id));
                    assert(d.up(s.id, 1) == d.parent(s.id));
                    assert(n == m);
                    assert(r == s.id);
                    assert(roots.contains(t.id));
                    let k = choose|k: int| 0 <= k < roots.len() && roots[k] == t.id;
                    assert(table_laws::row_of(d, roots[i], s));
                    assert(table_laws::row_of(d, roots[k], t));
                    if i < k {
                        order_laws::law_milestones_come_by_priority_and_age(d, i, k, s, t, s);
                    }
                    if i == k {
                        assert(s == t);
                    }
                    assert(readiness::next_under(d, roots[k], 3) is None);
                    assert(d.depth(t.id) >= 0);
                    lemma_nothing_found(d, t.id, 3, y);
                },
                Some(q) => {
                    assert(d.up(x, m + 1) == Some(q));
                    model::lemma_depth_child(d, s.id);
                    readiness::lemma_up_depth(d, x, m + 1, q);
                    lemma_up_rest(d, x, m + 1, n);
                    assert(d.up(q, (n - m - 1) as nat) == Some(r));
                    assert(d.up(q, 0) == Some(q));
                    if n > m + 1 {
                        assert(d.ancestor(r, q));
                    }
                    lemma_earlier_siblings(d, r, 3, x, q, s, t, y);
                },
            }
        },
    }
}

/// The next ready task can be taken up: its row and the rows above it are live up to the named task
/// or the milestone, no blocker of any task from it up to its milestone is open, and no child of it
/// is open. Where none is given, nothing can be taken up.
pub proof fn law_next_ready_can_be_taken_up(d: Db, milestone: Option<TaskId>, r: RowView, y: TaskId)
    requires
        d.wf(),
        d.tasks.contains(r),
    ensures
        match readiness::next_ready(d, milestone) {
            Ok(Some(x)) => {
                &&& !table_laws::held_up(d, x)
                &&& milestone is Some ==> can_be_taken_up(d, milestone->0, x)
                &&& milestone is None ==> exists|m: TaskId| #[trigger]
                    can_be_taken_up(d, m, x) && (forall|p: TaskId| !table_laws::child_of(d, m, p))
            },
            Ok(None) => {
                &&& milestone is None && r.parent_id is None ==> !can_be_taken_up(d, r.id, y)
                &&& milestone is Some ==> !(can_be_taken_up(d, milestone->0, y)
                    && !table_laws::held_up(d, y))
            },
            Err(f) => milestone is Some && f == Fault::TaskNotFound(milestone->0) && (forall|
                q: RowView,
            | #[trigger]
                d.tasks.contains(q) ==> q.id != milestone->0),
        },
{
    table_laws::law_rows(d, r.id);
    table_laws::law_rows(d, y);
    assert(table_laws::row_of(d, r.id, r));
    ready_laws::law_next_ready(d, milestone, y, r.id);
    table_laws::law_what_holds_a_task_up(d, y);
    if d.has(y) {
        lemma_taken_up(d, r.id, y);
        if milestone is Some && d.has(milestone->0) {
            lemma_taken_up(d, milestone->0, y);
            if can_be_taken_up(d, milestone->0, y) {
                table_laws::law_hierarchy(d, y, y);
                assert(table_laws::at_or_above(d, y, y));
                assert(clear(d, y));
                assert(table_laws::row_of(d, y, d.row(y)));
            }
        }
    }
    match readiness::next_ready(d, milestone) {
        Ok(Some(x)) => {
            table_laws::law_what_holds_a_task_up(d, x);
            match milestone {
                Some(root) => {
                    readiness::lemma_next_under(d, root, 3);
                    lemma_taken_up(d, root, x);
                },
                None => {
                    let roots = d.roots_ordered();
                    model::lemma_roots_stored(d);
                    lemma_first_milestone(d, roots);
                    let i = choose|i: int|
                        0 <= i < roots.len() && readiness::next_under(d, #[trigger] roots[i], 3)
                            == Some(x) && (forall|k: int|
                            0 <= k < i ==> readiness::next_under(d, #[trigger] roots[k], 3) is None);
                    let m = roots[i];
                    assert(roots.contains(m));
                    readiness::lemma_next_under(d, m, 3);
                    lemma_taken_up(d, m, x);
                    assert forall|p: TaskId| !table_laws::child_of(d, m, p) by {
                        table_laws::lemma_child(d, m, p);
                    }
                },
            }
        },
        Ok(None) => {},
        Err(f) => {
            table_laws::law_rows(d, milestone->0);
            assert forall|q: RowView| #[trigger] d.tasks.contains(q) implies q.id
                != milestone->0 by {
                if q.id == milestone->0 {
                    assert(table_laws::row_of(d, milestone->0, q));
                }
            }
        },
    }
}

} // verus!
