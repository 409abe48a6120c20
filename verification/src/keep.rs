//! What each change of the stored state keeps.
use vstd::prelude::*;

use crate::id::TaskId;
use crate::model;
use crate::model::Db;
use crate::types::{BlockerRelation, LearningView, RowView};

verus! {

/// The state with one more task.
pub open spec fn with_task(d: Db, r: RowView) -> Db {
    Db { tasks: d.tasks.push(r), ..d }
}

/// Whether a task may stand at this place: at the top, or under a task that is not a subtask.
pub open spec fn placeable(d: Db, parent: Option<TaskId>) -> bool {
    match parent {
        Some(p) => d.has(p) && d.depth(p) < 2,
        None => true,
    }
}

/// Adding a task, wherever it stands, leaves the rows of the others as they are.
pub proof fn lemma_one_more(d: Db, r: RowView)
    requires
        d.unique_ids(),
        !d.has(r.id),
    ensures
        with_task(d, r).unique_ids(),
        forall|x: TaskId| #[trigger] with_task(d, r).has(x) <==> d.has(x) || x == r.id,
        forall|x: TaskId| d.has(x) ==> #[trigger] with_task(d, r).row(x) == d.row(x),
        with_task(d, r).row(r.id) == r,
{
    let e = with_task(d, r);
    assert(e.unique_ids()) by {
        assert forall|i: int, j: int| 0 <= i < j < e.tasks.len() implies (#[trigger] e.tasks[i]).id
            != (#[trigger] e.tasks[j]).id by {
            assert(e.tasks[i] == d.tasks[i]);
            if j < d.tasks.len() {
                assert(e.tasks[j] == d.tasks[j]);
            }
        }
    }
    assert forall|x: TaskId| #[trigger] e.has(x) <==> d.has(x) || x == r.id by {
        if d.has(x) {
            assert(e.tasks[d.pos(x)].id == x);
        }
        assert(e.tasks[d.tasks.len() as int].id == r.id);
        if e.has(x) {
            let i = e.pos(x);
            if i < d.tasks.len() {
                assert(d.tasks[i].id == x);
            }
        }
    }
    assert forall|x: TaskId| d.has(x) implies #[trigger] e.row(x) == d.row(x) by {
        let i = d.pos(x);
        assert(e.tasks[i] == d.tasks[i]);
        model::lemma_pos(e, i);
    }
    model::lemma_pos(e, d.tasks.len() as int);
}

/// Adding a task leaves the others as they are.
pub proof fn lemma_with_task(d: Db, r: RowView)
    requires
        d.wf(),
        !d.has(r.id),
        placeable(d, r.parent_id),
    ensures
        with_task(d, r).wf(),
        forall|x: TaskId| #[trigger] with_task(d, r).has(x) <==> d.has(x) || x == r.id,
        forall|x: TaskId| d.has(x) ==> #[trigger] with_task(d, r).row(x) == d.row(x),
        with_task(d, r).row(r.id) == r,
        forall|x: TaskId, k: nat| d.has(x) ==> #[trigger] with_task(d, r).up(x, k) == d.up(x, k),
        forall|x: TaskId| d.has(x) ==> #[trigger] with_task(d, r).depth(x) == d.depth(x),
        with_task(d, r).parent(r.id) == r.parent_id,
        forall|x: TaskId| #[trigger] with_task(d, r).blockers_of(x) == d.blockers_of(x),
        forall|x: TaskId| #[trigger] with_task(d, r).blocked_by(x) == d.blocked_by(x),
{
    let e = with_task(d, r);
    lemma_one_more(d, r);
    assert forall|x: TaskId, k: nat| d.has(x) implies #[trigger] e.up(x, k) == d.up(x, k) by {
        lemma_up_old(d, e, x, k);
    }
    assert forall|x: TaskId| d.has(x) implies #[trigger] e.depth(x) == d.depth(x) by {
        assert(e.up(x, 1) == d.up(x, 1));
        assert(e.up(x, 2) == d.up(x, 2));
    }
    assert(e.parents_exist()) by {
        assert forall|i: int| 0 <= i < e.tasks.len() implies match (#[trigger] e.tasks[i]).parent_id {
            Some(p) => e.has(p),
            None => true,
        } by {
            if i < d.tasks.len() {
                assert(e.tasks[i] == d.tasks[i]);
            }
        }
    }
    assert(e.shallow()) by {
        assert forall|i: int| 0 <= i < e.tasks.len() implies e.up((#[trigger] e.tasks[i]).id, 3) is None by {
            if i < d.tasks.len() {
                assert(e.tasks[i] == d.tasks[i]);
                assert(d.has(d.tasks[i].id));
                assert(d.up(d.tasks[i].id, 3) is None);
                assert(e.up(e.tasks[i].id, 3) == d.up(d.tasks[i].id, 3));
            } else {
                let x = r.id;
                assert(e.parent(x) == r.parent_id);
                model::lemma_up_from_parent(e, x, 2);
                if r.parent_id is Some {
                    let p = r.parent_id->0;
                    assert(e.up(p, 2) == d.up(p, 2));
                    model::lemma_shallow(d, p);
                }
            }
        }
    }
    assert forall|i: int| 0 <= i < e.blockers.len() implies e.has((#[trigger] e.blockers[i]).task_id)
        && e.has(e.blockers[i].blocker_id) by {
        assert(d.has(d.blockers[i].task_id) && d.has(d.blockers[i].blocker_id));
    }
    assert forall|i: int| 0 <= i < e.learnings.len() implies e.has(
        (#[trigger] e.learnings[i]).task_id,
    ) by {
        assert(d.has(d.learnings[i].task_id));
    }
}

/// The chain above a task that was stored before does not change.
proof fn lemma_up_old(d: Db, e: Db, x: TaskId, k: nat)
    requires
        d.parents_exist(),
        d.has(x),
        forall|y: TaskId| d.has(y) ==> #[trigger] e.has(y),
        forall|y: TaskId| d.has(y) ==> #[trigger] e.row(y) == d.row(y),
    ensures
        e.up(x, k) == d.up(x, k),
    decreases k,
{
    if k > 0 {
        lemma_up_old(d, e, x, (k - 1) as nat);
        model::lemma_up_has(d, x, (k - 1) as nat);
        if d.up(x, (k - 1) as nat) is Some {
            let p = d.up(x, (k - 1) as nat)->0;
            assert(e.has(p));
            assert(e.row(p) == d.row(p));
        }
    }
}

/// What depends on the rows alone does not change with the edges or the learnings.
pub proof fn lemma_same_tasks(d: Db, e: Db)
    requires
        e.tasks == d.tasks,
    ensures
        forall|x: TaskId| #[trigger] e.has(x) == d.has(x),
        forall|x: TaskId| #[trigger] e.row(x) == d.row(x),
        forall|x: TaskId| #[trigger] e.parent(x) == d.parent(x),
        forall|x: TaskId, k: nat| #[trigger] e.up(x, k) == d.up(x, k),
        forall|x: TaskId| #[trigger] e.depth(x) == d.depth(x),
        forall|x: TaskId, y: TaskId| #[trigger] e.ancestor(x, y) == d.ancestor(x, y),
        forall|x: TaskId| #[trigger] e.children(x) == d.children(x),
        forall|x: TaskId| #[trigger] e.children_ordered(x) == d.children_ordered(x),
        forall|x: TaskId| #[trigger] e.satisfied(x) == d.satisfied(x),
        forall|x: TaskId| #[trigger] e.has_pending_children(x) == d.has_pending_children(x),
        e.unique_ids() == d.unique_ids(),
        e.parents_exist() == d.parents_exist(),
        e.shallow() == d.shallow(),
{
    assert forall|x: TaskId| #[trigger] e.has(x) == d.has(x) by {
        if e.has(x) {
            assert(d.tasks[e.pos(x)].id == x);
        }
        if d.has(x) {
            assert(e.tasks[d.pos(x)].id == x);
        }
    }
    assert forall|x: TaskId| #[trigger] e.row(x) == d.row(x) by {}
    assert forall|x: TaskId, k: nat| #[trigger] e.up(x, k) == d.up(x, k) by {
        model::lemma_up_same(d, e, x, k);
    }
    assert forall|x: TaskId| #[trigger] e.depth(x) == d.depth(x) by {
        assert(e.up(x, 1) == d.up(x, 1));
        assert(e.up(x, 2) == d.up(x, 2));
    }
    assert forall|x: TaskId, y: TaskId| #[trigger] e.ancestor(x, y) == d.ancestor(x, y) by {
        if e.ancestor(x, y) {
            let k = choose|k: nat| k >= 1 && #[trigger] e.up(y, k) == Some(x);
            assert(d.up(y, k) == Some(x));
        }
        if d.ancestor(x, y) {
            let k = choose|k: nat| k >= 1 && #[trigger] d.up(y, k) == Some(x);
            assert(e.up(y, k) == Some(x));
        }
    }
    assert forall|x: TaskId| #[trigger] e.children_ordered(x) == d.children_ordered(x) by {
        assert(e.children(x) == d.children(x));
        assert(e.children(x).map_values(|c: TaskId| e.rank(c)) =~= d.children(x).map_values(
            |c: TaskId| d.rank(c),
        ));
    }
    assert(e.parents_exist() == d.parents_exist()) by {
        assert forall|i: int| 0 <= i < d.tasks.len() implies (match (#[trigger] d.tasks[i]).parent_id {
            Some(p) => e.has(p) == d.has(p),
            None => true,
        }) by {}
        if d.parents_exist() {
            assert forall|i: int| 0 <= i < e.tasks.len() implies match (#[trigger] e.tasks[i]).parent_id {
                Some(p) => e.has(p),
                None => true,
            } by {
                assert(d.tasks[i] == e.tasks[i]);
            }
        }
        if e.parents_exist() {
            assert forall|i: int| 0 <= i < d.tasks.len() implies match (#[trigger] d.tasks[i]).parent_id {
                Some(p) => d.has(p),
                None => true,
            } by {
                assert(d.tasks[i] == e.tasks[i]);
            }
        }
    }
    assert(e.shallow() == d.shallow()) by {
        assert forall|i: int| 0 <= i < d.tasks.len() implies e.up((#[trigger] d.tasks[i]).id, 3)
            == d.up(d.tasks[i].id, 3) by {}
        if d.shallow() {
            assert forall|i: int| 0 <= i < e.tasks.len() implies e.up(
                (#[trigger] e.tasks[i]).id,
                3,
            ) is None by {
                assert(d.tasks[i] == e.tasks[i]);
            }
        }
        if e.shallow() {
            assert forall|i: int| 0 <= i < d.tasks.len() implies d.up(
                (#[trigger] d.tasks[i]).id,
                3,
            ) is None by {
                assert(d.tasks[i] == e.tasks[i]);
            }
        }
    }
}

/// Adding an edge between stored tasks keeps the invariant.
pub proof fn lemma_with_edge(d: Db, e: BlockerRelation)
    requires
        d.wf(),
        d.has(e.task_id),
        d.has(e.blocker_id),
    ensures
        d.with_blocker(e).wf(),
        d.with_blocker(e).tasks == d.tasks,
        d.with_blocker(e).learnings == d.learnings,
{
    let f = d.with_blocker(e);
    lemma_same_tasks(d, f);
    if !d.blockers.contains(e) {
        assert(f.blockers.no_duplicates()) by {
            assert forall|i: int, j: int|
                0 <= i < f.blockers.len() && 0 <= j < f.blockers.len() && i != j implies f.blockers[i]
                != f.blockers[j] by {
                if i == d.blockers.len() {
                    assert(d.blockers.contains(d.blockers[j]));
                } else if j == d.blockers.len() {
                    assert(d.blockers.contains(d.blockers[i]));
                }
            }
        }
        assert forall|i: int| 0 <= i < f.blockers.len() implies f.has(
            (#[trigger] f.blockers[i]).task_id,
        ) && f.has(f.blockers[i].blocker_id) by {
            if i < d.blockers.len() {
                assert(f.blockers[i] == d.blockers[i]);
            }
        }
        lemma_learnings_same(d, f);
    }
}

/// The learnings stay in order where the same tasks are stored.
pub proof fn lemma_learnings_same(d: Db, e: Db)
    requires
        d.learnings_ok(),
        e.learnings == d.learnings,
        forall|x: TaskId| d.has(x) ==> #[trigger] e.has(x),
    ensures
        e.learnings_ok(),
{
    assert forall|i: int| 0 <= i < e.learnings.len() implies e.has(
        (#[trigger] e.learnings[i]).task_id,
    ) by {
        assert(d.has(d.learnings[i].task_id));
    }
}

/// A filter keeps elements distinct, and keeps only elements that were there.
pub proof fn lemma_filter_distinct<A>(s: Seq<A>, f: spec_fn(A) -> bool)
    requires
        s.no_duplicates(),
    ensures
        s.filter(f).no_duplicates(),
        forall|i: int| 0 <= i < s.filter(f).len() ==> s.contains(#[trigger] s.filter(f)[i]) && f(
            s.filter(f)[i],
        ),
    decreases s.len(),
{
    reveal(Seq::filter);
    if s.len() > 0 {
        let t = s.drop_last();
        assert(t.no_duplicates());
        lemma_filter_distinct(t, f);
        let g = t.filter(f);
        let h = s.filter(f);
        assert forall|i: int| 0 <= i < h.len() implies s.contains(#[trigger] h[i]) && f(h[i]) by {
            if i < g.len() {
                assert(h[i] == g[i]);
                let j = choose|j: int| 0 <= j < t.len() && t[j] == g[i];
                assert(s[j] == h[i]);
            } else {
                assert(s[s.len() - 1] == h[i]);
            }
        }
        assert forall|i: int, j: int| 0 <= i < h.len() && 0 <= j < h.len() && i != j implies h[i]
            != h[j] by {
            if i < g.len() && j < g.len() {
                assert(g[i] != g[j]);
            } else {
                let m = if i < g.len() {
                    i
                } else {
                    j
                };
                assert(t.contains(g[m]));
                let k = choose|k: int| 0 <= k < t.len() && t[k] == g[m];
                assert(s[k] != s[s.len() - 1]);
            }
        }
    }
}

/// Removing an edge keeps the invariant.
pub proof fn lemma_without_edge(d: Db, e: BlockerRelation)
    requires
        d.wf(),
    ensures
        d.without_blocker(e).wf(),
        d.without_blocker(e).tasks == d.tasks,
        d.without_blocker(e).learnings == d.learnings,
{
    let f = d.without_blocker(e);
    lemma_same_tasks(d, f);
    lemma_filter_distinct(d.blockers, model::other_than(e));
    assert forall|i: int| 0 <= i < f.blockers.len() implies f.has((#[trigger] f.blockers[i]).task_id)
        && f.has(f.blockers[i].blocker_id) by {
        assert(d.blockers.contains(f.blockers[i]));
        let j = choose|j: int| 0 <= j < d.blockers.len() && d.blockers[j] == f.blockers[i];
        assert(d.has(d.blockers[j].task_id));
    }
    lemma_learnings_same(d, f);
}

/// Deleting a task and what is below it keeps the invariant, and leaves the rest as it is.
pub proof fn lemma_deleting(d: Db, id: TaskId)
    requires
        d.wf(),
    ensures
        d.deleting(id).wf(),
        forall|x: TaskId| #[trigger] d.deleting(id).has(x) <==> d.has(x) && !d.in_subtree(id, x),
        forall|x: TaskId|
            d.has(x) && !d.in_subtree(id, x) ==> #[trigger] d.deleting(id).row(x) == d.row(x),
{
    let e = d.deleting(id);
    let f = |r: RowView| !d.in_subtree(id, r.id);
    let s = d.tasks;
    model::lemma_filter_distinct_ids(s, f);
    let ids = model::row_ids(e.tasks);
    assert(e.unique_ids()) by {
        assert forall|i: int, j: int| 0 <= i < j < e.tasks.len() implies (#[trigger] e.tasks[i]).id
            != (#[trigger] e.tasks[j]).id by {
            assert(ids[i] != ids[j]);
        }
    }
    assert forall|x: TaskId| #[trigger] e.has(x) <==> d.has(x) && !d.in_subtree(id, x) by {
        if e.has(x) {
            let i = e.pos(x);
            s.lemma_filter_pred(f, i);
            let j = choose|j: int| 0 <= j < s.len() && s[j] == e.tasks[i];
            assert(s[j].id == x);
        }
        if d.has(x) && !d.in_subtree(id, x) {
            let p = d.pos(x);
            assert(f(s[p]));
            s.lemma_filter_contains(f, p);
            let i = choose|i: int| 0 <= i < e.tasks.len() && e.tasks[i] == s[p];
            assert(e.tasks[i].id == x);
        }
    }
    assert forall|x: TaskId| d.has(x) && !d.in_subtree(id, x) implies #[trigger] e.row(x) == d.row(
        x,
    ) by {
        let p = d.pos(x);
        assert(f(s[p]));
        s.lemma_filter_contains(f, p);
        let i = choose|i: int| 0 <= i < e.tasks.len() && e.tasks[i] == s[p];
        model::lemma_pos(e, i);
    }
    // What is kept has a kept parent.
    assert forall|x: TaskId| #[trigger] e.has(x) implies e.parent(x) == d.parent(x) && (d.parent(
        x,
    ) is Some ==> e.has(d.parent(x)->0)) by {
        assert(e.row(x) == d.row(x));
        if d.parent(x) is Some {
            let p = d.parent(x)->0;
            model::lemma_up_has(d, x, 1);
            assert(d.up(x, 0) == Some(x));
            model::lemma_ancestor_step(d, id, x);
            assert(d.has(p));
        }
    }
    assert(e.parents_exist()) by {
        assert forall|i: int| 0 <= i < e.tasks.len() implies match (#[trigger] e.tasks[i]).parent_id {
            Some(p) => e.has(p),
            None => true,
        } by {
            model::lemma_pos(e, i);
            assert(e.has(e.tasks[i].id));
            assert(e.parent(e.tasks[i].id) == e.tasks[i].parent_id);
        }
    }
    assert(e.shallow()) by {
        assert forall|i: int| 0 <= i < e.tasks.len() implies e.up((#[trigger] e.tasks[i]).id, 3) is None by {
            let x = e.tasks[i].id;
            assert(e.has(x));
            lemma_up_kept(d, e, x, 3);
            model::lemma_shallow(d, x);
        }
    }
    let g = |b: BlockerRelation| !d.in_subtree(id, b.task_id) && !d.in_subtree(id, b.blocker_id);
    lemma_filter_distinct(d.blockers, g);
    assert forall|i: int| 0 <= i < e.blockers.len() implies e.has((#[trigger] e.blockers[i]).task_id)
        && e.has(e.blockers[i].blocker_id) by {
        assert(d.blockers.contains(e.blockers[i]) && g(e.blockers[i]));
        let j = choose|j: int| 0 <= j < d.blockers.len() && d.blockers[j] == e.blockers[i];
        assert(d.has(d.blockers[j].task_id) && d.has(d.blockers[j].blocker_id));
    }
    let h = |l: LearningView| !d.in_subtree(id, l.task_id);
    lemma_filter_learnings(d.learnings, h);
    assert forall|i: int| 0 <= i < e.learnings.len() implies e.has(
        (#[trigger] e.learnings[i]).task_id,
    ) by {
        assert(d.learnings.contains(e.learnings[i]) && h(e.learnings[i]));
        let j = choose|j: int| 0 <= j < d.learnings.len() && d.learnings[j] == e.learnings[i];
        assert(d.has(d.learnings[j].task_id));
    }
}

/// The chain above a kept task does not change.
proof fn lemma_up_kept(d: Db, e: Db, x: TaskId, k: nat)
    requires
        e.has(x),
        forall|y: TaskId|
            #[trigger] e.has(y) ==> e.parent(y) == d.parent(y) && (d.parent(y) is Some ==> e.has(
                d.parent(y)->0,
            )),
    ensures
        e.up(x, k) == d.up(x, k),
        e.up(x, k) is Some ==> e.has(e.up(x, k)->0),
    decreases k,
{
    if k > 0 {
        lemma_up_kept(d, e, x, (k - 1) as nat);
    }
}

/// A filter keeps only learnings that were there, and none twice.
pub proof fn lemma_filter_learnings(s: Seq<LearningView>, f: spec_fn(LearningView) -> bool)
    requires
        forall|i: int, j: int|
            0 <= i < j < s.len() ==> !model::same_learning(#[trigger] s[i], #[trigger] s[j]),
    ensures
        forall|i: int, j: int|
            0 <= i < j < s.filter(f).len() ==> !model::same_learning(
                #[trigger] s.filter(f)[i],
                #[trigger] s.filter(f)[j],
            ),
        forall|i: int|
            0 <= i < s.filter(f).len() ==> s.contains(#[trigger] s.filter(f)[i]) && f(
                s.filter(f)[i],
            ),
    decreases s.len(),
{
    reveal(Seq::filter);
    if s.len() > 0 {
        let t = s.drop_last();
        assert forall|i: int, j: int| 0 <= i < j < t.len() implies !model::same_learning(
            #[trigger] t[i],
            #[trigger] t[j],
        ) by {
            assert(!model::same_learning(s[i], s[j]));
        }
        lemma_filter_learnings(t, f);
        let g = t.filter(f);
        let h = s.filter(f);
        assert forall|i: int| 0 <= i < h.len() implies s.contains(#[trigger] h[i]) && f(h[i]) by {
            if i < g.len() {
                assert(h[i] == g[i]);
                let j = choose|j: int| 0 <= j < t.len() && t[j] == g[i];
                assert(s[j] == h[i]);
            } else {
                assert(s[s.len() - 1] == h[i]);
            }
        }
        assert forall|i: int, j: int| 0 <= i < j < h.len() implies !model::same_learning(
            #[trigger] h[i],
            #[trigger] h[j],
        ) by {
            if j < g.len() {
                assert(!model::same_learning(g[i], g[j]));
            } else {
                assert(t.contains(g[i]));
                let k = choose|k: int| 0 <= k < t.len() && t[k] == g[i];
                assert(!model::same_learning(s[k], s[s.len() - 1]));
            }
        }
    }
}

/// How many levels of tasks there are below a task.
pub open spec fn height(d: Db, id: TaskId) -> int {
    if exists|x: TaskId| #[trigger] d.up(x, 2) == Some(id) {
        2
    } else if exists|x: TaskId| #[trigger] d.up(x, 1) == Some(id) {
        1
    } else {
        0
    }
}

/// Moving a task under another keeps the invariant where the new parent is not below the task and
/// the whole subtree fits.
pub proof fn lemma_reparent(d: Db, id: TaskId, r: RowView)
    requires
        d.wf(),
        d.has(id),
        r.id == id,
        r.parent_id is Some,
        d.has(r.parent_id->0),
        !d.in_subtree(id, r.parent_id->0),
        d.depth(r.parent_id->0) + 1 + height(d, id) <= 2,
    ensures
        d.with_row(id, r).wf(),
{
    let e = d.with_row(id, r);
    let np = r.parent_id->0;
    model::lemma_with_row(d, id, r);
    assert forall|x: TaskId| d.has(x) && x != id implies #[trigger] e.parent(x) == d.parent(x) by {
        assert(e.has(x));
        assert(e.row(x) == d.row(x));
    }
    assert forall|x: TaskId| !d.has(x) implies #[trigger] e.parent(x) is None by {
        assert(e.has(x) == d.has(x));
    }
    assert(e.parent(id) == Some(np)) by {
        assert(e.has(id));
    }
    assert(e.parents_exist()) by {
        assert forall|i: int| 0 <= i < e.tasks.len() implies match (#[trigger] e.tasks[i]).parent_id {
            Some(p) => e.has(p),
            None => true,
        } by {
            if i != d.pos(id) {
                assert(e.tasks[i] == d.tasks[i]);
                if e.tasks[i].parent_id is Some {
                    assert(d.has(e.tasks[i].parent_id->0));
                }
            } else {
                assert(e.has(np) == d.has(np));
            }
        }
    }
    // The chain above the new parent does not meet the task.
    model::lemma_shallow(d, np);
    model::lemma_ancestor(d, id, np);
    assert(d.parent(np) != Some(id));
    assert(d.up(np, 2) != Some(id));
    assert(e.parent(np) == d.parent(np));
    if d.parent(np) is Some {
        let g = d.parent(np)->0;
        model::lemma_up_has(d, np, 1);
        assert(e.parent(g) == d.parent(g));
        assert(d.up(np, 2) == d.parent(g));
    }
    assert(e.up(np, 0) == Some(np));
    assert(e.up(np, 1) == d.up(np, 1));
    assert(e.up(np, 2) == d.up(np, 2));
    if d.up(np, 2) is Some {
        model::lemma_up_has(d, np, 2);
        let q = d.up(np, 2)->0;
        assert(e.parent(q) == d.parent(q));
    }
    assert(e.up(np, 3) == d.up(np, 3));
    assert(e.shallow()) by {
        assert forall|i: int| 0 <= i < e.tasks.len() implies e.up((#[trigger] e.tasks[i]).id, 3) is None by {
            let x = e.tasks[i].id;
            assert(d.tasks[i].id == x);
            assert(d.has(x));
            model::lemma_shallow(d, x);
            model::lemma_up_from_parent(e, x, 2);
            model::lemma_up_from_parent(d, x, 2);
            if x == id {
                assert(e.up(np, 2) is None);
            } else if d.parent(x) is None {
                assert(e.parent(x) is None);
            } else {
                let p = d.parent(x)->0;
                model::lemma_up_has(d, x, 1);
                assert(d.up(x, 1) == Some(p));
                assert(e.parent(x) == Some(p));
                model::lemma_up_from_parent(e, p, 1);
                model::lemma_up_from_parent(d, p, 1);
                if p == id {
                    // One level below the task.
                    assert(d.up(x, 1) == Some(id));
                    assert(height(d, id) >= 1);
                    assert(e.up(id, 2) == e.up(np, 1));
                    assert(d.up(np, 1) is None);
                } else if d.parent(p) is None {
                    assert(e.parent(p) is None);
                } else {
                    let q = d.parent(p)->0;
                    assert(d.up(x, 2) == Some(q));
                    model::lemma_up_has(d, x, 2);
                    assert(e.parent(p) == Some(q));
                    if q == id {
                        assert(height(d, id) == 2);
                        assert(false);
                    } else {
                        assert(e.up(q, 0) == Some(q));
                        assert(e.up(q, 1) == e.parent(q));
                        assert(d.up(q, 0) == Some(q));
                        assert(d.up(q, 1) == d.parent(q));
                    }
                }
            }
        }
    }
    assert(e.blockers == d.blockers);
    assert forall|i: int| 0 <= i < e.blockers.len() implies e.has((#[trigger] e.blockers[i]).task_id)
        && e.has(e.blockers[i].blocker_id) by {
        assert(d.has(d.blockers[i].task_id) && d.has(d.blockers[i].blocker_id));
    }
    lemma_learnings_same(d, e);
}

/// Two sequences without repetitions and without common elements make one without repetitions.
pub proof fn lemma_join<A>(a: Seq<A>, b: Seq<A>)
    requires
        a.no_duplicates(),
        b.no_duplicates(),
        forall|x: A| #[trigger] a.contains(x) ==> !b.contains(x),
    ensures
        (a + b).no_duplicates(),
        forall|x: A| #[trigger] (a + b).contains(x) <==> a.contains(x) || b.contains(x),
{
    let s = a + b;
    assert forall|i: int, j: int| 0 <= i < s.len() && 0 <= j < s.len() && i != j implies s[i]
        != s[j] by {
        if i < a.len() && j >= a.len() {
            assert(a.contains(a[i]));
            assert(b.contains(b[j - a.len()]));
        }
        if j < a.len() && i >= a.len() {
            assert(a.contains(a[j]));
            assert(b.contains(b[i - a.len()]));
        }
    }
    assert forall|x: A| #[trigger] s.contains(x) <==> a.contains(x) || b.contains(x) by {
        if s.contains(x) {
            let i = choose|i: int| 0 <= i < s.len() && s[i] == x;
            if i < a.len() {
                assert(a[i] == x);
            } else {
                assert(b[i - a.len()] == x);
            }
        }
        if a.contains(x) {
            let i = choose|i: int| 0 <= i < a.len() && a[i] == x;
            assert(s[i] == x);
        }
        if b.contains(x) {
            let i = choose|i: int| 0 <= i < b.len() && b[i] == x;
            assert(s[a.len() + i] == x);
        }
    }
}

} // verus!
