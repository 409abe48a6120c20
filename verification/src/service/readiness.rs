//! Which task to take up next, and what to start when a task is blocked.
use vstd::prelude::*;

use crate::db::task_repo;
use crate::error::{Fault, OsError};
use crate::id::TaskId;
use crate::model;
use crate::model::Db;
use crate::service::task_service;
use crate::service::task_service::TaskService;
use crate::text;

verus! {

// ---- the next ready task ----

/// Whether a task lets work through: it is active and waits for no blocker of its own.
pub open spec fn passable(d: Db, id: TaskId) -> bool {
    d.row(id).active() && !d.directly_blocked(id)
}

/// Whether `t` is reached from `root` by going down `k` levels through tasks that let work
/// through, both ends included.
pub open spec fn open_path(d: Db, root: TaskId, t: TaskId, k: nat) -> bool {
    &&& d.up(t, k) == Some(root)
    &&& forall|j: nat| j <= k ==> passable(d, (#[trigger] d.up(t, j))->0)
}

/// Whether a task under `root` is ready: work gets through to it, and none of its children is
/// pending.
pub open spec fn ready_under(d: Db, root: TaskId, t: TaskId) -> bool {
    (exists|k: nat| #[trigger] open_path(d, root, t, k)) && !d.has_pending_children(t)
}

/// A task and the tasks below it, down to `levels` levels in all: what is below each child in
/// turn, and then the task itself.
pub open spec fn walk(d: Db, id: TaskId, levels: nat) -> Seq<TaskId>
    decreases levels, 1nat, 0nat,
{
    if levels == 0 {
        Seq::empty()
    } else {
        walk_all(d, d.children_ordered(id), (levels - 1) as nat).push(id)
    }
}

/// The walks of several tasks, one after the other.
pub open spec fn walk_all(d: Db, ids: Seq<TaskId>, levels: nat) -> Seq<TaskId>
    decreases levels, 2nat, ids.len(),
{
    if ids.len() == 0 {
        Seq::empty()
    } else {
        walk_all(d, ids.drop_last(), levels) + walk(d, ids.last(), levels)
    }
}

/// The first of these tasks that has a property.
pub open spec fn first_where(s: Seq<TaskId>, p: spec_fn(TaskId) -> bool) -> Option<TaskId>
    decreases s.len(),
{
    if s.len() == 0 {
        None
    } else {
        match first_where(s.drop_last(), p) {
            Some(x) => Some(x),
            None => if p(s.last()) {
                Some(s.last())
            } else {
                None
            },
        }
    }
}

/// The next ready task under a task: the first one on its walk.
pub open spec fn next_under(d: Db, root: TaskId, levels: nat) -> Option<TaskId> {
    first_where(walk(d, root, levels), |t: TaskId| ready_under(d, root, t))
}

/// The next ready task under the first of these tasks that has one.
pub open spec fn next_among(d: Db, ids: Seq<TaskId>) -> Option<TaskId>
    decreases ids.len(),
{
    if ids.len() == 0 {
        None
    } else {
        match next_among(d, ids.drop_last()) {
            Some(x) => Some(x),
            None => next_under(d, ids.last(), 3),
        }
    }
}

/// The next ready task, under a given task or over all milestones in order. Where a task above the
/// given one waits for a blocker, nothing under it is ready.
pub open spec fn next_ready(d: Db, milestone: Option<TaskId>) -> Result<Option<TaskId>, Fault> {
    match milestone {
        Some(id) => if !d.has(id) {
            Err(Fault::TaskNotFound(id))
        } else if d.chain_blocked(d.parent(id)) {
            Ok(None)
        } else {
            Ok(next_under(d, id, 3))
        },
        None => Ok(next_among(d, d.roots_ordered())),
    }
}

/// Searching two lists one after the other.
proof fn lemma_first_where_add(a: Seq<TaskId>, b: Seq<TaskId>, p: spec_fn(TaskId) -> bool)
    ensures
        first_where(a + b, p) == (match first_where(a, p) {
            Some(x) => Some(x),
            None => first_where(b, p),
        }),
    decreases b.len(),
{
    if b.len() == 0 {
        assert(a + b =~= a);
    } else {
        assert((a + b).drop_last() =~= a + b.drop_last());
        lemma_first_where_add(a, b.drop_last(), p);
    }
}

/// Searching by two properties that agree on the list.
proof fn lemma_first_where_same(
    s: Seq<TaskId>,
    p: spec_fn(TaskId) -> bool,
    q: spec_fn(TaskId) -> bool,
)
    requires
        forall|i: int| 0 <= i < s.len() ==> p(#[trigger] s[i]) == q(s[i]),
    ensures
        first_where(s, p) == first_where(s, q),
    decreases s.len(),
{
    if s.len() > 0 {
        let t = s.drop_last();
        assert forall|i: int| 0 <= i < t.len() implies p(#[trigger] t[i]) == q(t[i]) by {
            assert(s[i] == t[i]);
        }
        lemma_first_where_same(t, p, q);
        assert(p(s[s.len() - 1]) == q(s[s.len() - 1]));
    }
}

/// What a search finds is on the list and has the property; it finds nothing only where nothing
/// has.
pub proof fn lemma_first_where(s: Seq<TaskId>, p: spec_fn(TaskId) -> bool)
    ensures
        match first_where(s, p) {
            Some(x) => s.contains(x) && p(x),
            None => forall|i: int| 0 <= i < s.len() ==> !p(#[trigger] s[i]),
        },
    decreases s.len(),
{
    if s.len() > 0 {
        let t = s.drop_last();
        lemma_first_where(t, p);
        match first_where(t, p) {
            Some(x) => {
                let i = choose|i: int| 0 <= i < t.len() && t[i] == x;
                assert(s[i] == x);
            },
            None => {
                if p(s.last()) {
                    assert(s[s.len() - 1] == s.last());
                } else {
                    assert forall|i: int| 0 <= i < s.len() implies !p(#[trigger] s[i]) by {
                        if i < t.len() {
                            assert(t[i] == s[i]);
                        }
                    }
                }
            },
        }
    }
}

/// What is on the walk of a task reaches it by going up.
pub proof fn lemma_walk(d: Db, id: TaskId, levels: nat, t: TaskId)
    requires
        d.wf(),
        d.has(id),
    ensures
        walk(d, id, levels).contains(t) <==> exists|k: nat|
            k < levels && #[trigger] d.up(t, k) == Some(id),
    decreases levels, 1nat, 0nat,
{
    assert(d.up(t, 0) == Some(t));
    if levels > 0 {
        let kids = d.children_ordered(id);
        let rest = (levels - 1) as nat;
        let a = walk_all(d, kids, rest);
        model::lemma_children_stored(d, id);
        lemma_walk_all(d, kids, rest, t);
        let w = walk(d, id, levels);
        assert(w == a.push(id));
        if w.contains(t) {
            let i = choose|i: int| 0 <= i < w.len() && w[i] == t;
            if i < a.len() {
                assert(a[i] == t);
                assert(a.contains(t));
                let k = choose|k: nat|
                    k < rest && (#[trigger] d.up(t, k)) is Some && kids.contains(d.up(t, k)->0);
                let c = d.up(t, k)->0;
                assert(kids.contains(c));
                assert(d.parent(c) == Some(id));
                assert(d.up(t, k + 1) == Some(id));
            } else {
                assert(d.up(t, 0) == Some(id));
            }
        }
        if exists|k: nat| k < levels && #[trigger] d.up(t, k) == Some(id) {
            let k = choose|k: nat| k < levels && #[trigger] d.up(t, k) == Some(id);
            if k == 0 {
                assert(w[a.len() as int] == t);
            } else {
                let c = d.up(t, (k - 1) as nat)->0;
                assert(d.parent(c) == Some(id));
                assert(kids.contains(c));
                assert(kids.contains(d.up(t, (k - 1) as nat)->0));
                assert(a.contains(t));
                let i = choose|i: int| 0 <= i < a.len() && a[i] == t;
                assert(w[i] == t);
            }
        }
    }
}

proof fn lemma_walk_all(d: Db, ids: Seq<TaskId>, levels: nat, t: TaskId)
    requires
        d.wf(),
        forall|i: int| 0 <= i < ids.len() ==> d.has(#[trigger] ids[i]),
    ensures
        walk_all(d, ids, levels).contains(t) <==> exists|k: nat|
            k < levels && (#[trigger] d.up(t, k)) is Some && ids.contains(d.up(t, k)->0),
    decreases levels, 2nat, ids.len(),
{
    if ids.len() > 0 {
        let c = ids.last();
        let s = ids.drop_last();
        let a = walk_all(d, s, levels);
        let b = walk(d, c, levels);
        let w = walk_all(d, ids, levels);
        assert(ids[ids.len() - 1] == c);
        assert forall|i: int| 0 <= i < s.len() implies d.has(#[trigger] s[i]) by {
            assert(ids[i] == s[i]);
        }
        lemma_walk_all(d, s, levels, t);
        lemma_walk(d, c, levels, t);
        assert(w == a + b);
        if w.contains(t) {
            let i = choose|i: int| 0 <= i < w.len() && w[i] == t;
            if i < a.len() {
                assert(a[i] == t);
                assert(a.contains(t));
                let k = choose|k: nat|
                    k < levels && (#[trigger] d.up(t, k)) is Some && s.contains(d.up(t, k)->0);
                let j = choose|j: int| 0 <= j < s.len() && s[j] == d.up(t, k)->0;
                assert(ids[j] == d.up(t, k)->0);
                assert(ids.contains(d.up(t, k)->0));
            } else {
                assert(b[i - a.len()] == t);
                assert(b.contains(t));
                let k = choose|k: nat| k < levels && #[trigger] d.up(t, k) == Some(c);
                assert(ids.contains(d.up(t, k)->0));
            }
        }
        if exists|k: nat|
            k < levels && (#[trigger] d.up(t, k)) is Some && ids.contains(d.up(t, k)->0) {
            let k = choose|k: nat|
                k < levels && (#[trigger] d.up(t, k)) is Some && ids.contains(d.up(t, k)->0);
            let x = d.up(t, k)->0;
            if x == c {
                assert(b.contains(t));
                let i = choose|i: int| 0 <= i < b.len() && b[i] == t;
                assert(w[a.len() + i] == t);
            } else {
                let j = choose|j: int| 0 <= j < ids.len() && ids[j] == x;
                assert(s[j] == x);
                assert(s.contains(d.up(t, k)->0));
                assert(a.contains(t));
                let i = choose|i: int| 0 <= i < a.len() && a[i] == t;
                assert(w[i] == t);
            }
        }
    } else {
        assert(walk_all(d, ids, levels) =~= Seq::<TaskId>::empty());
    }
}

/// A task stands as many levels below another as its depth is greater.
pub proof fn lemma_up_depth(d: Db, t: TaskId, k: nat, r: TaskId)
    requires
        d.wf(),
        d.has(t),
        d.up(t, k) == Some(r),
    ensures
        d.depth(t) == d.depth(r) + k,
        d.has(r),
    decreases k,
{
    assert(d.up(t, 0) == Some(t));
    if k > 0 {
        let m = d.up(t, (k - 1) as nat)->0;
        lemma_up_depth(d, t, (k - 1) as nat, m);
        model::lemma_depth_child(d, m);
    }
}

/// Work gets through to a task below a child exactly where it gets through the parent and from
/// the child on.
proof fn lemma_ready_below(d: Db, id: TaskId, c: TaskId, t: TaskId, m: nat)
    requires
        d.wf(),
        d.has(t),
        d.parent(c) == Some(id),
        d.up(t, m) == Some(c),
    ensures
        ready_under(d, id, t) <==> passable(d, id) && ready_under(d, c, t),
{
    assert(d.up(t, m + 1) == Some(id));
    lemma_up_depth(d, t, m, c);
    lemma_up_depth(d, t, m + 1, id);
    if ready_under(d, id, t) {
        let k = choose|k: nat| #[trigger] open_path(d, id, t, k);
        lemma_up_depth(d, t, k, id);
        assert(k == m + 1);
        assert(passable(d, d.up(t, k)->0));
        assert forall|j: nat| j <= m implies passable(d, (#[trigger] d.up(t, j))->0) by {}
        assert(open_path(d, c, t, m));
    }
    if passable(d, id) && ready_under(d, c, t) {
        let k = choose|k: nat| #[trigger] open_path(d, c, t, k);
        lemma_up_depth(d, t, k, c);
        assert(k == m);
        assert forall|j: nat| j <= m + 1 implies passable(d, (#[trigger] d.up(t, j))->0) by {
            if j == m + 1 {
                assert(d.up(t, j) == Some(id));
            }
        }
        assert(open_path(d, id, t, m + 1));
    }
}

/// Whether the task itself is ready under itself.
proof fn lemma_ready_self(d: Db, id: TaskId)
    requires
        d.wf(),
        d.has(id),
    ensures
        ready_under(d, id, id) <==> passable(d, id) && !d.has_pending_children(id),
{
    assert(d.up(id, 0) == Some(id));
    if ready_under(d, id, id) {
        let k = choose|k: nat| #[trigger] open_path(d, id, id, k);
        assert(passable(d, d.up(id, 0)->0));
    }
    if passable(d, id) {
        assert forall|j: nat| j <= 0 implies passable(d, (#[trigger] d.up(id, j))->0) by {
            assert(j == 0);
        }
        assert(open_path(d, id, id, 0));
    }
}

/// Nothing is ready under a task that lets no work through.
proof fn lemma_not_passable(d: Db, id: TaskId, levels: nat)
    requires
        !passable(d, id),
    ensures
        next_under(d, id, levels) is None,
{
    let p = |t: TaskId| ready_under(d, id, t);
    let w = walk(d, id, levels);
    lemma_first_where(w, p);
    match first_where(w, p) {
        Some(x) => {
            let k = choose|k: nat| #[trigger] open_path(d, id, x, k);
            assert(d.up(x, k) == Some(id));
            assert(passable(d, d.up(x, k)->0));
        },
        None => {},
    }
}

/// The next ready task under a task is a stored task under it.
pub proof fn lemma_next_under(d: Db, root: TaskId, levels: nat)
    requires
        d.wf(),
        d.has(root),
    ensures
        next_under(d, root, levels) is Some ==> d.has(next_under(d, root, levels)->0) && ready_under(
            d,
            root,
            next_under(d, root, levels)->0,
        ),
{
    let w = walk(d, root, levels);
    let p = |t: TaskId| ready_under(d, root, t);
    lemma_first_where(w, p);
    if next_under(d, root, levels) is Some {
        let x = next_under(d, root, levels)->0;
        assert(w.contains(x));
        lemma_walk(d, root, levels, x);
        let k = choose|k: nat| k < levels && #[trigger] d.up(x, k) == Some(root);
        assert(d.up(x, 0) == Some(x));
        if k > 0 {
            model::lemma_up_from_parent(d, x, (k - 1) as nat);
        }
    }
}

/// The next ready task under the children of a task that lets work through.
spec fn next_in(d: Db, ids: Seq<TaskId>, levels: nat) -> Option<TaskId>
    decreases ids.len(),
{
    if ids.len() == 0 {
        None
    } else {
        match next_in(d, ids.drop_last(), levels) {
            Some(x) => Some(x),
            None => next_under(d, ids.last(), levels),
        }
    }
}

/// Searching the children one by one is searching the walk of all of them.
proof fn lemma_next_in(d: Db, id: TaskId, ids: Seq<TaskId>, levels: nat)
    requires
        d.wf(),
        d.has(id),
        passable(d, id),
        forall|i: int| 0 <= i < ids.len() ==> d.has(#[trigger] ids[i]) && d.parent(ids[i]) == Some(id),
    ensures
        next_in(d, ids, levels) == first_where(
            walk_all(d, ids, levels),
            |t: TaskId| ready_under(d, id, t),
        ),
    decreases ids.len(),
{
    let p = |t: TaskId| ready_under(d, id, t);
    if ids.len() > 0 {
        let c = ids.last();
        let s = ids.drop_last();
        assert(ids[ids.len() - 1] == c);
        assert forall|i: int| 0 <= i < s.len() implies d.has(#[trigger] s[i]) && d.parent(s[i])
            == Some(id) by {
            assert(ids[i] == s[i]);
        }
        lemma_next_in(d, id, s, levels);
        let q = |t: TaskId| ready_under(d, c, t);
        let w = walk(d, c, levels);
        assert forall|i: int| 0 <= i < w.len() implies q(#[trigger] w[i]) == p(w[i]) by {
            assert(w.contains(w[i]));
            lemma_walk(d, c, levels, w[i]);
            let m = choose|m: nat| m < levels && #[trigger] d.up(w[i], m) == Some(c);
            if m > 0 {
                model::lemma_up_from_parent(d, w[i], (m - 1) as nat);
            }
            assert(d.up(w[i], 0) == Some(w[i]));
            lemma_ready_below(d, id, c, w[i], m);
        }
        lemma_first_where_same(w, q, p);
        lemma_first_where_add(walk_all(d, s, levels), w, p);
    }
}

// ---- following blockers ----

/// The search under several tasks finds what the search under the first of them that gives anything
/// finds.
proof fn lemma_next_in_first(d: Db, ids: Seq<TaskId>, levels: nat)
    ensures
        match next_in(d, ids, levels) {
            Some(x) => exists|i: int|
                0 <= i < ids.len() && next_under(d, #[trigger] ids[i], levels) == Some(x) && (forall|
                    k: int,
                |
                    0 <= k < i ==> next_under(d, #[trigger] ids[k], levels) is None),
            None => forall|k: int|
                0 <= k < ids.len() ==> next_under(d, #[trigger] ids[k], levels) is None,
        },
    decreases ids.len(),
{
    if ids.len() > 0 {
        let rest = ids.drop_last();
        lemma_next_in_first(d, rest, levels);
        assert forall|k: int| 0 <= k < rest.len() implies #[trigger] ids[k] == rest[k] by {}
        match next_in(d, rest, levels) {
            Some(x) => {
                let i = choose|i: int|
                    0 <= i < rest.len() && next_under(d, #[trigger] rest[i], levels) == Some(x) && (
                    forall|k: int|
                        0 <= k < i ==> next_under(d, #[trigger] rest[k], levels) is None);
                assert(next_under(d, ids[i], levels) == Some(x));
                assert forall|k: int| 0 <= k < i implies next_under(d, #[trigger] ids[k], levels) is None by {
                    assert(rest[k] == ids[k]);
                }
            },
            None => {
                let n = ids.len() - 1;
                assert(ids[n] == ids.last());
                assert forall|k: int| 0 <= k < n implies next_under(d, #[trigger] ids[k], levels) is None by {
                    assert(rest[k] == ids[k]);
                }
                if next_under(d, ids.last(), levels) is Some {
                    assert(next_under(d, ids[n], levels) is Some);
                }
            },
        }
    }
}

/// What is found under a task is the task itself, or what is found under the first of its children
/// that gives anything.
pub proof fn lemma_next_under_child(d: Db, root: TaskId, levels: nat)
    requires
        d.wf(),
        d.has(root),
        next_under(d, root, levels + 1) is Some,
        next_under(d, root, levels + 1) != Some(root),
    ensures
        exists|i: int|
            0 <= i < d.children_ordered(root).len() && next_under(
                d,
                #[trigger] d.children_ordered(root)[i],
                levels,
            ) == next_under(d, root, levels + 1) && (forall|k: int|
                0 <= k < i ==> next_under(
                    d,
                    #[trigger] d.children_ordered(root)[k],
                    levels,
                ) is None),
{
    let kids = d.children_ordered(root);
    let p = |t: TaskId| ready_under(d, root, t);
    let below = walk_all(d, kids, levels);
    assert(walk(d, root, levels + 1) =~= below + seq![root]);
    lemma_first_where_add(below, seq![root], p);
    lemma_next_under(d, root, levels + 1);
    let x = next_under(d, root, levels + 1)->0;
    if !passable(d, root) {
        lemma_not_passable(d, root, levels + 1);
    }
    model::lemma_children_stored(d, root);
    lemma_next_in(d, root, kids, levels);
    lemma_first_where(seq![root], p);
    if first_where(below, p) is None {
        assert(seq![root].contains(x));
    }
    assert(next_in(d, kids, levels) == Some(x));
    lemma_next_in_first(d, kids, levels);
}

/// A task behind the tasks above it, its milestone first.
pub open spec fn lineage(d: Db, id: TaskId) -> Seq<TaskId> {
    match d.up(id, 1) {
        None => seq![id],
        Some(p) => match d.up(id, 2) {
            None => seq![p, id],
            Some(m) => seq![m, p, id],
        },
    }
}

/// The leaves of unfinished work under a task, each as the path that leads to it from the task
/// given first: unfinished tasks without a pending child, in order.
pub open spec fn leaves(d: Db, id: TaskId, path: Seq<TaskId>, levels: nat) -> Seq<Seq<TaskId>>
    decreases levels, 1nat, 0nat,
{
    if levels == 0 || d.row(id).finished() {
        Seq::empty()
    } else if !d.has_pending_children(id) {
        seq![path]
    } else {
        leaves_all(d, d.children_ordered(id), path, (levels - 1) as nat)
    }
}

/// The leaves under each of these tasks, whose paths continue the given one.
pub open spec fn leaves_all(
    d: Db,
    ids: Seq<TaskId>,
    path: Seq<TaskId>,
    levels: nat,
) -> Seq<Seq<TaskId>>
    decreases levels, 2nat, ids.len(),
{
    if ids.len() == 0 {
        Seq::empty()
    } else {
        leaves_all(d, ids.drop_last(), path, levels) + leaves(
            d,
            ids.last(),
            path.push(ids.last()),
            levels,
        )
    }
}

/// The blockers of a task that do not let it go yet.
pub open spec fn unsatisfied(d: Db, id: TaskId) -> Seq<TaskId> {
    d.blockers_of(id).filter(|b: TaskId| !d.satisfied(b))
}

/// The blockers that hold up the first blocked task on a path; none where the path is open.
pub open spec fn blockage(d: Db, path: Seq<TaskId>) -> Seq<TaskId>
    decreases path.len(),
{
    if path.len() == 0 {
        Seq::empty()
    } else {
        let above = blockage(d, path.drop_last());
        if above.len() > 0 {
            above
        } else {
            unsatisfied(d, path.last())
        }
    }
}

/// The error for a task under which nothing can be started.
pub open spec fn no_startable(root: TaskId) -> Fault {
    Fault::NoStartableTask {
        message: "No startable task found under "@ + root.text(),
        requested: root,
    }
}

/// How a chain of tasks reads in a message.
pub open spec fn chain_text(chain: Seq<TaskId>) -> Seq<char>
    decreases chain.len(),
{
    if chain.len() == 0 {
        Seq::empty()
    } else if chain.len() == 1 {
        chain[0].text()
    } else {
        chain_text(chain.drop_last()) + " -> "@ + chain.last().text()
    }
}

/// The error for a blocker that is met twice.
pub open spec fn cycle_found(chain: Seq<TaskId>) -> Fault {
    Fault::BlockerCycleDetected {
        message: "Blocker cycle detected: "@ + chain_text(chain),
        chain,
    }
}

/// What to start for a requested task. The leaves under it are tried in order: one that nothing
/// holds up, from its milestone down, is it; otherwise the blockers that hold it up are followed in
/// turn. `stack` holds the blockers that are being followed.
pub open spec fn resolve(d: Db, root: TaskId, stack: Seq<TaskId>) -> Result<TaskId, Fault>
    decreases d.tasks.len() + 1 - stack.len(), 3nat, 0nat,
{
    if !d.has(root) {
        Err(Fault::TaskNotFound(root))
    } else {
        match resolve_leaves(d, leaves(d, root, lineage(d, root), 3), stack) {
            Some(r) => r,
            None => Err(no_startable(root)),
        }
    }
}

/// The answer that these leaves give, where they give one.
pub open spec fn resolve_leaves(d: Db, ls: Seq<Seq<TaskId>>, stack: Seq<TaskId>) -> Option<
    Result<TaskId, Fault>,
>
    decreases d.tasks.len() + 1 - stack.len(), 2nat, ls.len(),
{
    if ls.len() == 0 {
        None
    } else {
        match resolve_leaves(d, ls.drop_last(), stack) {
            Some(r) => Some(r),
            None => {
                let b = blockage(d, ls.last());
                if b.len() == 0 {
                    Some(Ok(ls.last().last()))
                } else {
                    resolve_blockers(d, b, stack)
                }
            },
        }
    }
}

/// The answer that following these blockers gives, where it gives one.
pub open spec fn resolve_blockers(d: Db, bs: Seq<TaskId>, stack: Seq<TaskId>) -> Option<
    Result<TaskId, Fault>,
>
    decreases d.tasks.len() + 1 - stack.len(), 1nat, bs.len(),
{
    if bs.len() == 0 {
        None
    } else {
        match resolve_blockers(d, bs.drop_last(), stack) {
            Some(r) => Some(r),
            None => {
                let b = bs.last();
                if stack.contains(b) || stack.len() > d.tasks.len() {
                    Some(Err(cycle_found(stack.push(b))))
                } else {
                    match resolve(d, b, stack.push(b)) {
                        Ok(x) => Some(Ok(x)),
                        Err(Fault::NoStartableTask { message, requested }) => None,
                        Err(e) => Some(Err(e)),
                    }
                }
            },
        }
    }
}

impl TaskService {
    /// The next ready task, under a given task or over all milestones in order.
    pub fn next_ready(&self, milestone: Option<&TaskId>) -> (out: Result<Option<TaskId>, OsError>)
        requires
            self@.wf(),
        ensures
            match out {
                Ok(r) => next_ready(self@, opt_id(milestone)) == Ok::<Option<TaskId>, Fault>(r),
                Err(e) => next_ready(self@, opt_id(milestone)) == Err::<Option<TaskId>, Fault>(e@),
            },
    {
        match milestone {
            Some(id) => {
                if !task_repo::task_exists(&self.store, id) {
                    return Err(OsError::TaskNotFound(*id));
                }
                let unblocked: bool = match task_repo::get_parent(&self.store, *id) {
                    Some(p) => {
                        proof {
                            model::lemma_depth_child(self@, *id);
                        }
                        !self.chain_is_blocked(p)
                    },
                    None => true,
                };
                Ok(self.find_next_ready_under(*id, unblocked, 3))
            },
            None => {
                let ghost d = self@;
                let roots: Vec<TaskId> = task_repo::root_ids_ordered(&self.store);
                proof {
                    model::lemma_roots_stored(d);
                    assert(roots@.take(0) =~= Seq::<TaskId>::empty());
                }
                let mut i: usize = 0;
                while i < roots.len()
                    invariant
                        i <= roots.len(),
                        d == self@,
                        d.wf(),
                        roots@ == d.roots_ordered(),
                        milestone is None,
                        forall|k: int| 0 <= k < roots.len() ==> d.has(#[trigger] roots@[k]),
                        next_among(d, roots@.take(i as int)) is None,
                    decreases roots.len() - i,
                {
                    assert(d.has(roots@[i as int]));
                    proof {
                        let t = roots@.take(i + 1);
                        assert(t.drop_last() =~= roots@.take(i as int));
                        assert(t.last() == roots@[i as int]);
                    }
                    if let Some(ready) = self.find_next_ready_under(roots[i], true, 3) {
                        proof {
                            lemma_next_among_prefix(d, roots@, i + 1, ready);
                        }
                        return Ok(Some(ready));
                    }
                    i += 1;
                }
                assert(roots@.take(roots@.len() as int) =~= roots@);
                Ok(None)
            },
        }
    }

    /// The next ready task under a task. `ancestors_unblocked` tells whether work gets through to
    /// the task from above.
    fn find_next_ready_under(&self, id: TaskId, ancestors_unblocked: bool, levels: usize) -> (out:
        Option<TaskId>)
        requires
            self@.wf(),
            self@.has(id),
        ensures
            out == (if ancestors_unblocked {
                next_under(self@, id, levels as nat)
            } else {
                None
            }),
        decreases levels,
    {
        let ghost d = self@;
        let ghost p = |t: TaskId| ready_under(d, id, t);
        let ghost kids = d.children_ordered(id);
        if levels == 0 {
            return None;
        }
        let ghost rest = (levels - 1) as nat;
        let active: bool = match self.store.find(id) {
            Some(i) => !self.store.tasks[i].completed && !self.store.tasks[i].cancelled
                && !self.store.tasks[i].archived,
            None => false,
        };
        if !active {
            proof {
                lemma_not_passable(d, id, levels as nat);
            }
            return None;
        }
        let blockers: Vec<TaskId> = task_repo::get_blockers(&self.store, &id);
        let task_unblocked: bool = task_repo::all_satisfied(&self.store, &blockers);
        let effectively_unblocked: bool = ancestors_unblocked && task_unblocked;
        let children: Vec<TaskId> = task_repo::child_ids_ordered(&self.store, id);
        proof {
            model::lemma_children_stored(d, id);
            assert(children@.take(0) =~= Seq::<TaskId>::empty());
        }
        let mut i: usize = 0;
        while i < children.len()
            invariant
                i <= children.len(),
                levels > 0,
                rest == levels - 1,
                d == self@,
                d.wf(),
                d.has(id),
                kids == d.children_ordered(id),
                children@ == kids,
                p == (|t: TaskId| ready_under(d, id, t)),
                effectively_unblocked ==> ancestors_unblocked && passable(d, id),
                ancestors_unblocked && !effectively_unblocked ==> !passable(d, id),
                forall|k: int|
                    0 <= k < kids.len() ==> d.has(#[trigger] kids[k]) && d.parent(kids[k]) == Some(
                        id,
                    ),
                effectively_unblocked ==> next_in(d, kids.take(i as int), rest) is None,
            decreases children.len() - i,
        {
            assert(d.has(kids[i as int]));
            proof {
                let t = kids.take(i + 1);
                assert(t.drop_last() =~= kids.take(i as int));
                assert(t.last() == kids[i as int]);
            }
            if let Some(ready) = self.find_next_ready_under(
                children[i],
                effectively_unblocked,
                levels - 1,
            ) {
                proof {
                    lemma_next_in_prefix(d, kids, rest, i + 1, ready);
                    lemma_next_in(d, id, kids, rest);
                    let w = walk_all(d, kids, rest);
                    assert(walk(d, id, levels as nat).drop_last() =~= w);
                }
                return Some(ready);
            }
            i += 1;
        }
        assert(kids.take(kids.len() as int) =~= kids);
        proof {
            if effectively_unblocked {
                lemma_next_in(d, id, kids, rest);
                lemma_ready_self(d, id);
                let w = walk(d, id, levels as nat);
                assert(w.drop_last() =~= walk_all(d, kids, rest));
                assert(w.last() == id);
            } else if ancestors_unblocked {
                lemma_not_passable(d, id, levels as nat);
            }
        }
        if effectively_unblocked && !task_repo::has_pending_children(&self.store, &id) {
            return Some(id);
        }
        None
    }

    /// The leaves of unfinished work under a task.
    fn push_leaves(
        &self,
        id: TaskId,
        path: &Vec<TaskId>,
        levels: usize,
        out: &mut Vec<Vec<TaskId>>,
    )
        requires
            self@.wf(),
            self@.has(id),
        ensures
            paths(final(out)@) == paths(old(out)@) + leaves(self@, id, path@, levels as nat),
        decreases levels,
    {
        let ghost d = self@;
        let ghost start = out@;
        if levels == 0 {
            assert(paths(out@) + leaves(d, id, path@, 0) =~= paths(out@));
            return;
        }
        let finished: bool = match self.store.find(id) {
            Some(i) => self.store.tasks[i].completed || self.store.tasks[i].cancelled,
            None => true,
        };
        if finished {
            assert(paths(out@) + leaves(d, id, path@, levels as nat) =~= paths(out@));
            return;
        }
        if !task_repo::has_pending_children(&self.store, &id) {
            let own: Vec<TaskId> = copy_ids(path);
            out.push(own);
            assert(paths(out@) =~= paths(start) + seq![path@]);
            return;
        }
        let children: Vec<TaskId> = task_repo::child_ids_ordered(&self.store, id);
        let ghost kids = d.children_ordered(id);
        let ghost rest = (levels - 1) as nat;
        proof {
            model::lemma_children_stored(d, id);
            assert(kids.take(0) =~= Seq::<TaskId>::empty());
            assert(paths(out@) =~= paths(start) + leaves_all(d, kids.take(0), path@, rest));
        }
        let mut i: usize = 0;
        while i < children.len()
            invariant
                i <= children.len(),
                levels > 0,
                rest == levels - 1,
                d == self@,
                d.wf(),
                children@ == kids,
                forall|k: int| 0 <= k < kids.len() ==> d.has(#[trigger] kids[k]),
                paths(out@) == paths(start) + leaves_all(d, kids.take(i as int), path@, rest),
            decreases children.len() - i,
        {
            let c: TaskId = children[i];
            assert(d.has(kids[i as int]));
            let mut child_path: Vec<TaskId> = copy_ids(path);
            child_path.push(c);
            let ghost before = paths(out@);
            self.push_leaves(c, &child_path, levels - 1, out);
            proof {
                let t = kids.take(i + 1);
                assert(t.drop_last() =~= kids.take(i as int));
                assert(t.last() == c);
                assert(paths(out@) =~= paths(start) + leaves_all(d, t, path@, rest));
            }
            i += 1;
        }
        assert(kids.take(kids.len() as int) =~= kids);
    }

    /// A task behind the tasks above it, its milestone first.
    fn lineage_of(&self, id: TaskId) -> (out: Vec<TaskId>)
        requires
            self@.wf(),
        ensures
            out@ == lineage(self@, id),
    {
        let ghost d = self@;
        proof {
            assert(d.up(id, 0) == Some(id));
            assert(d.up(id, 1) == d.parent(id));
        }
        let mut out: Vec<TaskId> = Vec::new();
        if let Some(p) = task_repo::get_parent(&self.store, id) {
            assert(d.up(id, 2) == d.parent(p));
            if let Some(m) = task_repo::get_parent(&self.store, p) {
                out.push(m);
            }
            out.push(p);
        }
        out.push(id);
        assert(out@ =~= lineage(d, id));
        out
    }

    /// The leaves of unfinished work under a task, each as the path from its milestone to it.
    fn collect_incomplete_leaves(&self, root: TaskId) -> (out: Vec<Vec<TaskId>>)
        requires
            self@.wf(),
            self@.has(root),
        ensures
            paths(out@) == leaves(self@, root, lineage(self@, root), 3),
    {
        let mut out: Vec<Vec<TaskId>> = Vec::new();
        let path: Vec<TaskId> = self.lineage_of(root);
        self.push_leaves(root, &path, 3, &mut out);
        assert(paths(out@) =~= leaves(self@, root, lineage(self@, root), 3));
        out
    }

    /// The blockers of a task that do not let it go yet.
    fn unsatisfied_blockers(&self, id: TaskId) -> (out: Vec<TaskId>)
        requires
            self@.wf(),
        ensures
            out@ == unsatisfied(self@, id),
    {
        let ghost d = self@;
        let ghost f = |b: TaskId| !d.satisfied(b);
        let blockers: Vec<TaskId> = task_repo::get_blockers(&self.store, &id);
        let mut out: Vec<TaskId> = Vec::new();
        let mut i: usize = 0;
        proof {
            model::lemma_filter_empty(blockers@, f);
        }
        while i < blockers.len()
            invariant
                i <= blockers.len(),
                d == self@,
                d.wf(),
                f == (|b: TaskId| !d.satisfied(b)),
                out@ == blockers@.take(i as int).filter(f),
            decreases blockers.len() - i,
        {
            proof {
                model::lemma_filter_take(blockers@, f, i as int);
            }
            if !task_repo::is_task_satisfies_blocker(&self.store, &blockers[i]) {
                out.push(blockers[i]);
            }
            i += 1;
        }
        proof {
            model::lemma_filter_empty(blockers@, f);
        }
        out
    }

    /// The blockers that hold up the first blocked task on a path.
    fn first_blockage_along_chain(&self, path: &Vec<TaskId>) -> (out: Vec<TaskId>)
        requires
            self@.wf(),
        ensures
            out@ == blockage(self@, path@),
    {
        let ghost d = self@;
        let mut i: usize = 0;
        assert(path@.take(0) =~= Seq::<TaskId>::empty());
        while i < path.len()
            invariant
                i <= path.len(),
                d == self@,
                d.wf(),
                blockage(d, path@.take(i as int)).len() == 0,
            decreases path.len() - i,
        {
            let held: Vec<TaskId> = self.unsatisfied_blockers(path[i]);
            proof {
                let t = path@.take(i + 1);
                assert(t.drop_last() =~= path@.take(i as int));
                assert(t.last() == path@[i as int]);
            }
            if held.len() > 0 {
                proof {
                    lemma_blockage_prefix(d, path@, i + 1);
                }
                return held;
            }
            i += 1;
        }
        assert(path@.take(path@.len() as int) =~= path@);
        let none: Vec<TaskId> = Vec::new();
        assert(none@ =~= blockage(d, path@));
        none
    }

    /// What to start for a requested task, following blockers where it is held up.
    pub fn resolve_start_target(&self, requested_root: &TaskId) -> (out: Result<TaskId, OsError>)
        requires
            self@.wf(),
        ensures
            match out {
                Ok(t) => resolve(self@, *requested_root, Seq::empty()) == Ok::<TaskId, Fault>(t),
                Err(e) => resolve(self@, *requested_root, Seq::empty()) == Err::<TaskId, Fault>(e@),
            },
    {
        let stack: Vec<TaskId> = Vec::new();
        self.resolve_start_target_inner(*requested_root, &stack)
    }

    fn resolve_start_target_inner(&self, root: TaskId, stack: &Vec<TaskId>) -> (out: Result<
        TaskId,
        OsError,
    >)
        requires
            self@.wf(),
            stack@.no_duplicates(),
            forall|i: int| 0 <= i < stack.len() ==> self@.has(#[trigger] stack@[i]),
        ensures
            match out {
                Ok(t) => resolve(self@, root, stack@) == Ok::<TaskId, Fault>(t),
                Err(e) => resolve(self@, root, stack@) == Err::<TaskId, Fault>(e@),
            },
        decreases self@.tasks.len() + 1 - stack@.len(), 1nat,
    {
        let ghost d = self@;
        if !task_repo::task_exists(&self.store, &root) {
            return Err(OsError::TaskNotFound(root));
        }
        let found: Vec<Vec<TaskId>> = self.collect_incomplete_leaves(root);
        let ghost ls = paths(found@);
        proof {
            assert(ls.take(0) =~= Seq::<Seq<TaskId>>::empty());
            task_service::lemma_stored_distinct(d, stack@);
        }
        let mut i: usize = 0;
        while i < found.len()
            invariant
                i <= found.len(),
                d == self@,
                d.wf(),
                d.has(root),
                ls == paths(found@),
                ls == leaves(d, root, lineage(d, root), 3),
                stack@.no_duplicates(),
                forall|i: int| 0 <= i < stack.len() ==> d.has(#[trigger] stack@[i]),
                stack.len() <= d.tasks.len(),
                resolve_leaves(d, ls.take(i as int), stack@) is None,
            decreases found.len() - i,
        {
            proof {
                let t = ls.take(i + 1);
                assert(t.drop_last() =~= ls.take(i as int));
                assert(t.last() == found@[i as int]@);
                assert(ls.contains(ls[i as int]));
                lemma_leaf_nonempty(d, root, lineage(d, root), 3, ls[i as int]);
            }
            let held: Vec<TaskId> = self.first_blockage_along_chain(&found[i]);
            if held.len() == 0 {
                let leaf: TaskId = found[i][found[i].len() - 1];
                proof {
                    assert(resolve_leaves(d, ls.take(i + 1), stack@) == Some(
                        Ok::<TaskId, Fault>(leaf),
                    ));
                    lemma_resolve_leaves_prefix(d, ls, stack@, i + 1);
                }
                return Ok(leaf);
            }
            proof {
                assert forall|k: int| 0 <= k < held.len() implies d.has(#[trigger] held@[k]) by {
                    lemma_blockage_stored(d, found@[i as int]@, k);
                }
            }
            match self.follow_blockers(&held, stack) {
                Some(answer) => {
                    proof {
                        lemma_resolve_leaves_prefix(d, ls, stack@, i + 1);
                    }
                    return answer;
                },
                None => {},
            }
            i += 1;
        }
        assert(ls.take(ls.len() as int) =~= ls);
        let message: String = text::joined("No startable task found under ", root.to_text().as_str());
        Err(OsError::NoStartableTask { message, requested: root })
    }

    /// Follows blockers in turn until one gives an answer.
    fn follow_blockers(&self, blockers: &Vec<TaskId>, stack: &Vec<TaskId>) -> (out: Option<
        Result<TaskId, OsError>,
    >)
        requires
            self@.wf(),
            stack@.no_duplicates(),
            forall|i: int| 0 <= i < stack.len() ==> self@.has(#[trigger] stack@[i]),
            forall|i: int| 0 <= i < blockers.len() ==> self@.has(#[trigger] blockers@[i]),
        ensures
            match out {
                Some(Ok(t)) => resolve_blockers(self@, blockers@, stack@) == Some(
                    Ok::<TaskId, Fault>(t),
                ),
                Some(Err(e)) => resolve_blockers(self@, blockers@, stack@) == Some(
                    Err::<TaskId, Fault>(e@),
                ),
                None => resolve_blockers(self@, blockers@, stack@) is None,
            },
        decreases self@.tasks.len() + 1 - stack@.len(), 0nat,
    {
        let ghost d = self@;
        proof {
            task_service::lemma_stored_distinct(d, stack@);
            assert(blockers@.take(0) =~= Seq::<TaskId>::empty());
        }
        let mut i: usize = 0;
        while i < blockers.len()
            invariant
                i <= blockers.len(),
                d == self@,
                d.wf(),
                stack@.no_duplicates(),
                stack.len() <= d.tasks.len(),
                forall|i: int| 0 <= i < stack.len() ==> d.has(#[trigger] stack@[i]),
                forall|i: int| 0 <= i < blockers.len() ==> d.has(#[trigger] blockers@[i]),
                resolve_blockers(d, blockers@.take(i as int), stack@) is None,
            decreases blockers.len() - i,
        {
            let b: TaskId = blockers[i];
            assert(d.has(blockers@[i as int]));
            proof {
                let t = blockers@.take(i + 1);
                assert(t.drop_last() =~= blockers@.take(i as int));
                assert(t.last() == b);
            }
            let mut deeper: Vec<TaskId> = copy_ids(stack);
            deeper.push(b);
            if task_repo::holds(stack, b) {
                let message: String = text::joined(
                    "Blocker cycle detected: ",
                    format_chain(&deeper).as_str(),
                );
                proof {
                    lemma_resolve_blockers_prefix(d, blockers@, stack@, i + 1);
                }
                return Some(Err(OsError::BlockerCycleDetected { message, chain: deeper }));
            }
            proof {
                assert(deeper@.no_duplicates());
                assert forall|k: int| 0 <= k < deeper.len() implies d.has(#[trigger] deeper@[k]) by {
                    if k < stack.len() {
                        assert(deeper@[k] == stack@[k]);
                    }
                }
                task_service::lemma_stored_distinct(d, deeper@);
            }
            match self.resolve_start_target_inner(b, &deeper) {
                Ok(x) => {
                    proof {
                        lemma_resolve_blockers_prefix(d, blockers@, stack@, i + 1);
                    }
                    return Some(Ok(x));
                },
                Err(OsError::NoStartableTask { message: _, requested: _ }) => {},
                Err(e) => {
                    proof {
                        lemma_resolve_blockers_prefix(d, blockers@, stack@, i + 1);
                    }
                    return Some(Err(e));
                },
            }
            i += 1;
        }
        assert(blockers@.take(blockers@.len() as int) =~= blockers@);
        None
    }
}

/// The identifier behind an optional reference.
pub open spec fn opt_id(id: Option<&TaskId>) -> Option<TaskId> {
    match id {
        Some(i) => Some(*i),
        None => None,
    }
}

/// The views of a list of paths.
pub open spec fn paths(s: Seq<Vec<TaskId>>) -> Seq<Seq<TaskId>> {
    s.map_values(|v: Vec<TaskId>| v@)
}

/// A copy of a list of identifiers.
pub fn copy_ids(ids: &Vec<TaskId>) -> (out: Vec<TaskId>)
    ensures
        out@ == ids@,
{
    let mut out: Vec<TaskId> = Vec::new();
    let mut i: usize = 0;
    while i < ids.len()
        invariant
            i <= ids.len(),
            out@ == ids@.take(i as int),
        decreases ids.len() - i,
    {
        out.push(ids[i]);
        i += 1;
    }
    assert(ids@.take(ids@.len() as int) =~= ids@);
    out
}

/// How a chain of tasks reads in a message.
fn format_chain(chain: &Vec<TaskId>) -> (out: String)
    ensures
        out@ == chain_text(chain@),
{
    let mut out: String = String::new();
    let mut i: usize = 0;
    assert(chain@.take(0) =~= Seq::<TaskId>::empty());
    while i < chain.len()
        invariant
            i <= chain.len(),
            out@ == chain_text(chain@.take(i as int)),
        decreases chain.len() - i,
    {
        let ghost before = out@;
        if i > 0 {
            out.append(" -> ");
        }
        out.append(chain[i].to_text().as_str());
        proof {
            let t = chain@.take(i + 1);
            assert(t.drop_last() =~= chain@.take(i as int));
            assert(t.last() == chain@[i as int]);
            if i == 0 {
                assert(out@ =~= chain@[0].text());
            } else {
                assert(out@ =~= before + " -> "@ + chain@[i as int].text());
            }
        }
        i += 1;
    }
    assert(chain@.take(chain@.len() as int) =~= chain@);
    out
}

proof fn lemma_next_among_prefix(d: Db, ids: Seq<TaskId>, n: int, x: TaskId)
    requires
        0 <= n <= ids.len(),
        next_among(d, ids.take(n)) == Some(x),
    ensures
        next_among(d, ids) == Some(x),
    decreases ids.len() - n,
{
    if n == ids.len() {
        assert(ids.take(n) =~= ids);
    } else {
        assert(ids.take(n + 1).drop_last() =~= ids.take(n));
        lemma_next_among_prefix(d, ids, n + 1, x);
    }
}

proof fn lemma_next_in_prefix(d: Db, ids: Seq<TaskId>, levels: nat, n: int, x: TaskId)
    requires
        0 <= n <= ids.len(),
        next_in(d, ids.take(n), levels) == Some(x),
    ensures
        next_in(d, ids, levels) == Some(x),
    decreases ids.len() - n,
{
    if n == ids.len() {
        assert(ids.take(n) =~= ids);
    } else {
        assert(ids.take(n + 1).drop_last() =~= ids.take(n));
        lemma_next_in_prefix(d, ids, levels, n + 1, x);
    }
}

pub proof fn lemma_blockage_prefix(d: Db, path: Seq<TaskId>, n: int)
    requires
        0 <= n <= path.len(),
        blockage(d, path.take(n)).len() > 0,
    ensures
        blockage(d, path) == blockage(d, path.take(n)),
    decreases path.len() - n,
{
    if n == path.len() {
        assert(path.take(n) =~= path);
    } else {
        assert(path.take(n + 1).drop_last() =~= path.take(n));
        lemma_blockage_prefix(d, path, n + 1);
    }
}

pub proof fn lemma_resolve_leaves_prefix(d: Db, ls: Seq<Seq<TaskId>>, stack: Seq<TaskId>, n: int)
    requires
        0 <= n <= ls.len(),
        resolve_leaves(d, ls.take(n), stack) is Some,
    ensures
        resolve_leaves(d, ls, stack) == resolve_leaves(d, ls.take(n), stack),
    decreases ls.len() - n,
{
    if n == ls.len() {
        assert(ls.take(n) =~= ls);
    } else {
        assert(ls.take(n + 1).drop_last() =~= ls.take(n));
        lemma_resolve_leaves_prefix(d, ls, stack, n + 1);
    }
}

pub proof fn lemma_resolve_blockers_prefix(d: Db, bs: Seq<TaskId>, stack: Seq<TaskId>, n: int)
    requires
        0 <= n <= bs.len(),
        resolve_blockers(d, bs.take(n), stack) is Some,
    ensures
        resolve_blockers(d, bs, stack) == resolve_blockers(d, bs.take(n), stack),
    decreases bs.len() - n,
{
    if n == bs.len() {
        assert(bs.take(n) =~= bs);
    } else {
        assert(bs.take(n + 1).drop_last() =~= bs.take(n));
        lemma_resolve_blockers_prefix(d, bs, stack, n + 1);
    }
}

/// What holds up a path are stored tasks.
proof fn lemma_blockage_stored(d: Db, path: Seq<TaskId>, k: int)
    requires
        d.wf(),
        0 <= k < blockage(d, path).len(),
    ensures
        d.has(blockage(d, path)[k]),
    decreases path.len(),
{
    if path.len() > 0 {
        let above = blockage(d, path.drop_last());
        if above.len() > 0 {
            lemma_blockage_stored(d, path.drop_last(), k);
        } else {
            let f = |b: TaskId| !d.satisfied(b);
            let s = d.blockers_of(path.last());
            let t = unsatisfied(d, path.last());
            assert(t.contains(t[k]));
            s.lemma_filter_contains_rev(f, t[k]);
            task_service::lemma_blockers_of(d, path.last(), t[k]);
        }
    }
}

/// The path to a leaf continues the path it was given.
pub proof fn lemma_leaf_nonempty(
    d: Db,
    id: TaskId,
    path: Seq<TaskId>,
    levels: nat,
    l: Seq<TaskId>,
)
    requires
        leaves(d, id, path, levels).contains(l),
        path.len() > 0,
    ensures
        l.len() > 0,
    decreases levels, 1nat, 0nat,
{
    let s = leaves(d, id, path, levels);
    if levels > 0 && !d.row(id).finished() && d.has_pending_children(id) {
        lemma_leaf_nonempty_all(d, d.children_ordered(id), path, (levels - 1) as nat, l);
    } else {
        let i = choose|i: int| 0 <= i < s.len() && s[i] == l;
        assert(s[i] == path);
    }
}

proof fn lemma_leaf_nonempty_all(
    d: Db,
    ids: Seq<TaskId>,
    path: Seq<TaskId>,
    levels: nat,
    l: Seq<TaskId>,
)
    requires
        leaves_all(d, ids, path, levels).contains(l),
    ensures
        l.len() > 0,
    decreases levels, 2nat, ids.len(),
{
    if ids.len() > 0 {
        let a = leaves_all(d, ids.drop_last(), path, levels);
        let b = leaves(d, ids.last(), path.push(ids.last()), levels);
        let i = choose|i: int| 0 <= i < (a + b).len() && (a + b)[i] == l;
        if i < a.len() {
            assert(a[i] == l);
            assert(a.contains(l));
            lemma_leaf_nonempty_all(d, ids.drop_last(), path, levels, l);
        } else {
            assert(b[i - a.len()] == l);
            assert(b.contains(l));
            lemma_leaf_nonempty(d, ids.last(), path.push(ids.last()), levels, l);
        }
    }
}

} // verus!
