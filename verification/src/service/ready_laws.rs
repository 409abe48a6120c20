//! What holds of the tasks that are found ready.
use vstd::prelude::*;

use crate::error::Fault;
use crate::id::TaskId;
use crate::model;
use crate::model::Db;
use crate::service::blocker_laws;
use crate::service::readiness;
use crate::service::rules;

verus! {

/// The next ready task is a stored, active task without pending children that nothing holds up at
/// any level, under the task that was asked about. Where none is found, there is none.
pub proof fn law_next_ready(d: Db, milestone: Option<TaskId>, t: TaskId, m: TaskId)
    requires
        d.wf(),
    ensures
        match readiness::next_ready(d, milestone) {
            Ok(Some(x)) => {
                &&& d.has(x)
                &&& rules::ready(d, x)
                &&& !d.has_pending_children(x)
                &&& milestone is Some ==> d.in_subtree(milestone->0, x)
            },
            Ok(None) => {
                &&& milestone is Some ==> !(readiness::ready_under(d, milestone->0, t)
                    && rules::ready(d, t))
                &&& milestone is None && d.has(m) && d.parent(m) is None
                    ==> !readiness::ready_under(d, m, t)
            },
            Err(f) => milestone is Some && !d.has(milestone->0) && f == Fault::TaskNotFound(
                milestone->0,
            ),
        },
{
    match milestone {
        Some(r) => {
            if d.has(r) && d.chain_blocked(d.parent(r)) {
                if readiness::ready_under(d, r, t) {
                    let k = choose|k: nat| #[trigger] readiness::open_path(d, r, t, k);
                    assert(d.up(t, 0) == Some(t));
                    if k > 0 {
                        assert(d.ancestor(r, t));
                    }
                    model::lemma_chain_step(d, r);
                    blocker_laws::law_blocking_is_inherited(d, r, t);
                }
            } else if d.has(r) {
                lemma_next_found(d, r);
                match readiness::next_under(d, r, 3) {
                    Some(x) => {
                        lemma_open_from(d, r, x);
                    },
                    None => {
                        lemma_none_found(d, r, t);
                    },
                }
            }
        },
        None => {
            let roots = d.roots_ordered();
            model::lemma_roots_stored(d);
            lemma_next_among(d, roots);
            match readiness::next_among(d, roots) {
                Some(x) => {
                    let i = choose|i: int|
                        0 <= i < roots.len() && readiness::next_under(d, #[trigger] roots[i], 3)
                            == Some(x);
                    let r = roots[i];
                    assert(roots.contains(r));
                    lemma_next_found(d, r);
                    lemma_open_from(d, r, x);
                },
                None => {
                    if d.has(m) && d.parent(m) is None {
                        assert(roots.contains(m));
                        let i = choose|i: int| 0 <= i < roots.len() && roots[i] == m;
                        assert(readiness::next_under(d, roots[i], 3) is None);
                        lemma_none_found(d, m, t);
                    }
                },
            }
        },
    }
}

proof fn lemma_next_found(d: Db, r: TaskId)
    requires
        d.wf(),
        d.has(r),
    ensures
        match readiness::next_under(d, r, 3) {
            Some(x) => {
                &&& d.has(x)
                &&& readiness::ready_under(d, r, x)
                &&& d.row(x).active()
                &&& !d.has_pending_children(x)
                &&& !d.directly_blocked(x)
                &&& d.in_subtree(r, x)
            },
            None => true,
        },
{
    readiness::lemma_next_under(d, r, 3);
    if let Some(x) = readiness::next_under(d, r, 3) {
        let k = choose|k: nat| #[trigger] readiness::open_path(d, r, x, k);
        assert(d.up(x, 0) == Some(x));
        assert(readiness::passable(d, d.up(x, 0)->0));
        if k > 0 {
            assert(d.ancestor(r, x));
        }
    }
}

/// Where nothing is found under a task, nothing under it is ready.
proof fn lemma_none_found(d: Db, r: TaskId, t: TaskId)
    requires
        d.wf(),
        d.has(r),
        readiness::next_under(d, r, 3) is None,
    ensures
        !readiness::ready_under(d, r, t),
{
    let p = |x: TaskId| readiness::ready_under(d, r, x);
    let w = readiness::walk(d, r, 3);
    readiness::lemma_first_where(w, p);
    if readiness::ready_under(d, r, t) {
        let k = choose|k: nat| #[trigger] readiness::open_path(d, r, t, k);
        assert(d.up(t, k) == Some(r));
        assert(d.up(t, 0) == Some(t));
        if k == 0 {
            assert(t == r);
        } else {
            model::lemma_up_from_parent(d, t, (k - 1) as nat);
        }
        model::lemma_shallow(d, t);
        if k >= 3 {
            model::lemma_up_none(d, t, 3, k);
        }
        readiness::lemma_walk(d, r, 3, t);
        assert(w.contains(t));
        let i = choose|i: int| 0 <= i < w.len() && w[i] == t;
        assert(!p(w[i]));
    }
}

/// The search over several tasks finds what the search under one of them finds.
proof fn lemma_next_among(d: Db, ids: Seq<TaskId>)
    ensures
        match readiness::next_among(d, ids) {
            Some(x) => exists|i: int|
                0 <= i < ids.len() && readiness::next_under(d, #[trigger] ids[i], 3) == Some(x),
            None => forall|i: int|
                0 <= i < ids.len() ==> readiness::next_under(d, #[trigger] ids[i], 3) is None,
        },
    decreases ids.len(),
{
    if ids.len() > 0 {
        let rest = ids.drop_last();
        lemma_next_among(d, rest);
        match readiness::next_among(d, rest) {
            Some(x) => {
                let i = choose|i: int|
                    0 <= i < rest.len() && readiness::next_under(d, #[trigger] rest[i], 3) == Some(
                        x,
                    );
                assert(ids[i] == rest[i]);
            },
            None => {
                assert(ids[ids.len() - 1] == ids.last());
                assert forall|i: int|
                    0 <= i < ids.len() && readiness::next_under(d, ids.last(), 3) is None implies readiness::next_under(
                    d,
                    #[trigger] ids[i],
                    3,
                ) is None by {
                    if i < rest.len() {
                        assert(rest[i] == ids[i]);
                    }
                }
            },
        }
    }
}

/// Where work gets through from a task that nothing above holds up, nothing holds up what it gets
/// through to.
proof fn lemma_open_from(d: Db, r: TaskId, x: TaskId)
    requires
        d.wf(),
        d.has(r),
        !d.chain_blocked(d.parent(r)),
        readiness::ready_under(d, r, x),
    ensures
        !d.effectively_blocked(x),
{
    let k = choose|k: nat| #[trigger] readiness::open_path(d, r, x, k);
    if d.effectively_blocked(x) {
        let j = choose|j: nat|
            (#[trigger] d.up(x, j)) is Some && d.directly_blocked(d.up(x, j)->0);
        if j <= k {
            assert(readiness::passable(d, d.up(x, j)->0));
        } else {
            lemma_up_add(d, x, k, (j - k) as nat);
            assert(d.up(r, (j - k) as nat) == d.up(x, j));
            model::lemma_up_from_parent(d, r, (j - k - 1) as nat);
            let p = d.parent(r)->0;
            assert(d.up(p, (j - k - 1) as nat) == d.up(x, j));
        }
    }
}

/// Going up in two parts is going up.
proof fn lemma_up_add(d: Db, x: TaskId, k: nat, n: nat)
    requires
        d.up(x, k) is Some,
    ensures
        d.up(x, k + n) == d.up(d.up(x, k)->0, n),
    decreases n,
{
    if n > 0 {
        lemma_up_add(d, x, k, (n - 1) as nat);
    } else {
        assert(d.up(d.up(x, k)->0, 0) == d.up(x, k));
    }
}

/// What is found to be started for a task is a stored, unfinished task without pending children
/// that nothing holds up at any level.
pub proof fn law_start_target(d: Db, root: TaskId)
    requires
        d.wf(),
    ensures
        match readiness::resolve(d, root, Seq::empty()) {
            Ok(x) => {
                &&& d.has(x)
                &&& !d.row(x).finished()
                &&& !d.has_pending_children(x)
                &&& !d.effectively_blocked(x)
            },
            Err(f) => !d.has(root) ==> f == Fault::TaskNotFound(root),
        },
{
    lemma_resolve(d, root, Seq::empty());
}

/// Whether a task can be worked on.
pub open spec fn workable(d: Db, x: TaskId) -> bool {
    &&& d.has(x)
    &&& !d.row(x).finished()
    &&& !d.has_pending_children(x)
    &&& !d.effectively_blocked(x)
}

proof fn lemma_resolve(d: Db, root: TaskId, stack: Seq<TaskId>)
    requires
        d.wf(),
    ensures
        readiness::resolve(d, root, stack) is Ok ==> workable(
            d,
            readiness::resolve(d, root, stack)->Ok_0,
        ),
    decreases d.tasks.len() + 1 - stack.len(), 3nat, 0nat,
{
    if d.has(root) {
        let path = readiness::lineage(d, root);
        let ls = readiness::leaves(d, root, path, 3);
        assert forall|i: int| 0 <= i < ls.len() implies leaf_of(d, #[trigger] ls[i]) by {
            assert(ls.contains(ls[i]));
            lemma_leaf(d, root, path, 3, ls[i]);
        }
        lemma_resolve_leaves(d, ls, stack);
    }
}

/// An active task that can be worked on is the next ready task under itself.
pub proof fn law_workable_task_is_next_under_itself(d: Db, x: TaskId)
    requires
        d.wf(),
        workable(d, x),
        d.row(x).active(),
    ensures
        readiness::next_under(d, x, 3) == Some(x),
{
    assert(d.up(x, 0) == Some(x));
    model::lemma_chain_step(d, x);
    assert(readiness::open_path(d, x, x, 0));
    lemma_next_found(d, x);
    match readiness::next_under(d, x, 3) {
        Some(y) => {
            let k = choose|k: nat| #[trigger] readiness::open_path(d, x, y, k);
            if k == 0 {
                assert(d.up(y, 0) == Some(y));
            } else {
                let c = d.up(y, (k - 1) as nat);
                assert(d.up(y, k) == Some(x));
                assert(readiness::passable(d, c->0));
                assert(d.parent(c->0) == Some(x));
                let i = choose|i: int| 0 <= i < d.tasks.len() && d.tasks[i] == d.row(c->0);
                model::lemma_row(d, c->0);
                assert(d.tasks[i].parent_id == Some(x) && !d.tasks[i].finished());
            }
        },
        None => {
            lemma_none_found(d, x, x);
        },
    }
}

/// Whether a path leads from a milestone to a stored, unfinished task without pending children.
pub open spec fn leaf_of(d: Db, l: Seq<TaskId>) -> bool {
    &&& l.len() > 0
    &&& l == readiness::lineage(d, l.last())
    &&& d.has(l.last())
    &&& !d.row(l.last()).finished()
    &&& !d.has_pending_children(l.last())
}

/// The path to a child continues the path to its parent.
pub proof fn lemma_lineage_child(d: Db, id: TaskId, c: TaskId)
    requires
        d.wf(),
        d.has(c),
        d.parent(c) == Some(id),
    ensures
        readiness::lineage(d, c) == readiness::lineage(d, id).push(c),
{
    assert(d.up(c, 0) == Some(c));
    assert(d.up(id, 0) == Some(id));
    model::lemma_up_from_parent(d, c, 0);
    model::lemma_up_from_parent(d, c, 1);
    model::lemma_up_from_parent(d, c, 2);
    model::lemma_shallow(d, c);
    assert(readiness::lineage(d, c) =~= readiness::lineage(d, id).push(c));
}

proof fn lemma_leaf(d: Db, id: TaskId, path: Seq<TaskId>, levels: nat, l: Seq<TaskId>)
    requires
        d.wf(),
        d.has(id),
        path == readiness::lineage(d, id),
        readiness::leaves(d, id, path, levels).contains(l),
    ensures
        leaf_of(d, l),
    decreases levels, 1nat, 0nat,
{
    let s = readiness::leaves(d, id, path, levels);
    let i = choose|i: int| 0 <= i < s.len() && s[i] == l;
    if levels > 0 && !d.row(id).finished() && d.has_pending_children(id) {
        let kids = d.children_ordered(id);
        model::lemma_children_stored(d, id);
        assert forall|k: int| 0 <= k < kids.len() implies d.has(#[trigger] kids[k]) && d.parent(
            kids[k],
        ) == Some(id) by {
            assert(kids.contains(kids[k]));
        }
        lemma_leaf_all(d, id, kids, path, (levels - 1) as nat, l);
    }
}

proof fn lemma_leaf_all(
    d: Db,
    id: TaskId,
    ids: Seq<TaskId>,
    path: Seq<TaskId>,
    levels: nat,
    l: Seq<TaskId>,
)
    requires
        d.wf(),
        path == readiness::lineage(d, id),
        forall|i: int| 0 <= i < ids.len() ==> d.has(#[trigger] ids[i]) && d.parent(ids[i]) == Some(id),
        readiness::leaves_all(d, ids, path, levels).contains(l),
    ensures
        leaf_of(d, l),
    decreases levels, 2nat, ids.len(),
{
    if ids.len() > 0 {
        let c = ids.last();
        let a = readiness::leaves_all(d, ids.drop_last(), path, levels);
        let b = readiness::leaves(d, c, path.push(c), levels);
        let i = choose|i: int| 0 <= i < (a + b).len() && (a + b)[i] == l;
        assert(ids[ids.len() - 1] == c);
        if i < a.len() {
            assert(a[i] == l);
            let rest = ids.drop_last();
            assert forall|k: int| 0 <= k < rest.len() implies d.has(#[trigger] rest[k]) && d.parent(
                rest[k],
            ) == Some(id) by {
                assert(rest[k] == ids[k]);
            }
            lemma_leaf_all(d, id, rest, path, levels, l);
        } else {
            assert(b[i - a.len()] == l);
            lemma_lineage_child(d, id, c);
            lemma_leaf(d, c, path.push(c), levels, l);
        }
    }
}

proof fn lemma_resolve_leaves(d: Db, ls: Seq<Seq<TaskId>>, stack: Seq<TaskId>)
    requires
        d.wf(),
        forall|i: int| 0 <= i < ls.len() ==> leaf_of(d, #[trigger] ls[i]),
    ensures
        match readiness::resolve_leaves(d, ls, stack) {
            Some(Ok(x)) => workable(d, x),
            _ => true,
        },
    decreases d.tasks.len() + 1 - stack.len(), 2nat, ls.len(),
{
    if ls.len() > 0 {
        let rest = ls.drop_last();
        assert forall|i: int| 0 <= i < rest.len() implies leaf_of(d, #[trigger] rest[i]) by {
            assert(rest[i] == ls[i]);
        }
        lemma_resolve_leaves(d, rest, stack);
        let l = ls.last();
        assert(leaf_of(d, ls[ls.len() - 1]));
        let b = readiness::blockage(d, l);
        if b.len() == 0 {
            lemma_open_lineage(d, l.last());
        } else {
            lemma_resolve_blockers(d, b, stack);
        }
    }
}

/// Nothing on a path is held up where nothing holds the path up.
proof fn lemma_open_path(d: Db, l: Seq<TaskId>, i: int)
    requires
        0 <= i < l.len(),
        readiness::blockage(d, l).len() == 0,
    ensures
        !d.directly_blocked(l[i]),
    decreases l.len(),
{
    if i < l.len() - 1 {
        assert(l.drop_last()[i] == l[i]);
        lemma_open_path(d, l.drop_last(), i);
    } else {
        let s = d.blockers_of(l.last());
        let f = |b: TaskId| !d.satisfied(b);
        assert(s.filter(f).len() == 0);
        assert forall|k: int| 0 <= k < s.len() implies d.satisfied(#[trigger] s[k]) by {
            if !d.satisfied(s[k]) {
                s.lemma_filter_contains(f, k);
            }
        }
    }
}

/// Where nothing holds up the path from the milestone to a task, the task is not blocked.
proof fn lemma_open_lineage(d: Db, x: TaskId)
    requires
        d.wf(),
        d.has(x),
        readiness::blockage(d, readiness::lineage(d, x)).len() == 0,
    ensures
        !d.effectively_blocked(x),
{
    let l = readiness::lineage(d, x);
    assert(d.up(x, 0) == Some(x));
    assert(d.up(x, 1) == d.parent(x));
    if d.effectively_blocked(x) {
        let k = choose|k: nat|
            (#[trigger] d.up(x, k)) is Some && d.directly_blocked(d.up(x, k)->0);
        model::lemma_shallow(d, x);
        if k >= 3 {
            model::lemma_up_none(d, x, 3, k);
        }
        if k == 2 && d.up(x, 1) is None {
            model::lemma_up_none(d, x, 1, 2);
        }
        assert(l[l.len() - 1 - k] == d.up(x, k)->0);
        lemma_open_path(d, l, l.len() - 1 - k);
    }
}

proof fn lemma_resolve_blockers(d: Db, bs: Seq<TaskId>, stack: Seq<TaskId>)
    requires
        d.wf(),
    ensures
        match readiness::resolve_blockers(d, bs, stack) {
            Some(Ok(x)) => workable(d, x),
            _ => true,
        },
    decreases d.tasks.len() + 1 - stack.len(), 1nat, bs.len(),
{
    if bs.len() > 0 {
        lemma_resolve_blockers(d, bs.drop_last(), stack);
        let b = bs.last();
        if !stack.contains(b) && stack.len() <= d.tasks.len() {
            lemma_resolve(d, b, stack.push(b));
        }
    }
}

/// Where a task is ready, no task above it waits for anything either.
pub proof fn law_ready_is_unblocked_at_every_level(d: Db, t: TaskId, a: TaskId)
    requires
        rules::ready(d, t),
        d.in_subtree(a, t),
    ensures
        !d.directly_blocked(a),
        !d.effectively_blocked(a),
{
    if d.effectively_blocked(a) {
        blocker_laws::law_blocking_is_inherited(d, a, t);
    }
    model::lemma_chain_step(d, a);
}

} // verus!
