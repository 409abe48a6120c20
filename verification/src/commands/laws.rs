//! What holds of what the commands give.
use vstd::prelude::*;

use crate::commands::data;
use crate::commands::task;
use crate::commands::task::TreeView;
use crate::id::TaskId;
use crate::keep;
use crate::model;
use crate::model::Db;
use crate::output::forest;
use crate::service::blocker_laws;
use crate::service::laws;
use crate::service::readiness;
use crate::service::rules;
use crate::service::task_service;
use crate::types::{BlockerRelation, FilterView, LearningView, RowView, TaskView};

verus! {

/// The tasks of a tree: the node's, then those of its children in order.
pub open spec fn tree_ids(t: TreeView) -> Seq<TaskId>
    decreases t, t.children.len() + 1,
{
    seq![t.task.row.id] + children_ids(t, t.children.len())
}

/// The tasks of the first `n` children of a node.
pub open spec fn children_ids(t: TreeView, n: nat) -> Seq<TaskId>
    decreases t, n,
{
    if n == 0 || n > t.children.len() {
        Seq::empty()
    } else {
        children_ids(t, (n - 1) as nat) + tree_ids(t.children[n - 1])
    }
}

/// The tree of a task holds the task and everything below it, each once.
pub proof fn law_tree_holds_each_task_once(d: Db, id: TaskId, x: TaskId)
    requires
        d.wf(),
        d.has(id),
    ensures
        ({
            let ids = tree_ids(task::tree(d, rules::full_task(d, id), 3));
            &&& ids.no_duplicates()
            &&& ids.contains(x) <==> d.in_subtree(id, x)
        }),
{
    model::lemma_row(d, id);
    lemma_tree(d, rules::full_task(d, id), 3);
    assert(d.up(x, 0) == Some(x));
    if d.in_subtree(id, x) {
        if x != id {
            let k = choose|k: nat| k >= 1 && #[trigger] d.up(x, k) == Some(id);
            model::lemma_ancestor_stored(d, id, x);
            model::lemma_shallow(d, x);
            if k > 3 {
                model::lemma_up_none(d, x, 3, k);
            }
        }
        let k = choose|k: nat| k <= 3 && #[trigger] d.up(x, k) == Some(id);
        assert(within(d, id, x, 3));
    }
    if within(d, id, x, 3) {
        let k = choose|k: nat| k <= 3 && #[trigger] d.up(x, k) == Some(id);
        if k == 0 {
            assert(x == id);
        } else {
            assert(d.ancestor(id, x));
        }
    }
}

/// Whether a task is reached by going down at most `levels` levels from another.
spec fn within(d: Db, id: TaskId, x: TaskId, levels: nat) -> bool {
    exists|k: nat| k <= levels && #[trigger] d.up(x, k) == Some(id)
}

/// The children that a listing gives are the stored children, each once.
proof fn lemma_children_listed(d: Db, id: TaskId)
    requires
        d.wf(),
    ensures
        rules::list_ids(d, task::children_of(id)).no_duplicates(),
        forall|c: TaskId| #[trigger]
            rules::list_ids(d, task::children_of(id)).contains(c) <==> d.parent(c) == Some(id),
{
    let f = task::children_of(id);
    laws::law_listing_is_exact(d, f, id);
    assert forall|c: TaskId| #[trigger] rules::list_ids(d, f).contains(c) <==> d.parent(c) == Some(
        id,
    ) by {
        laws::law_listing_is_exact(d, f, c);
    }
}

proof fn lemma_tree(d: Db, t: TaskView, levels: nat)
    requires
        d.wf(),
        d.has(t.row.id),
    ensures
        tree_ids(task::tree(d, t, levels)).no_duplicates(),
        forall|x: TaskId| #[trigger]
            tree_ids(task::tree(d, t, levels)).contains(x) <==> within(d, t.row.id, x, levels),
    decreases levels, 0nat,
{
    let id = t.row.id;
    let node = task::tree(d, t, levels);
    let all = tree_ids(node);
    if levels == 0 {
        assert(all =~= seq![id]);
        assert forall|x: TaskId| #[trigger] all.contains(x) <==> within(d, id, x, 0) by {
            assert(d.up(x, 0) == Some(x));
            if all.contains(x) {
                assert(all[0] == x);
            }
            if x == id {
                assert(all[0] == x);
            }
        }
    } else {
        let rest = (levels - 1) as nat;
        let ids = rules::list_ids(d, task::children_of(id));
        lemma_children_listed(d, id);
        assert forall|i: int| 0 <= i < ids.len() implies d.parent(#[trigger] ids[i]) == Some(id)
            && d.has(ids[i]) by {
            assert(ids.contains(ids[i]));
        }
        lemma_children(d, id, node, ids, rest, ids.len());
        let kids = children_ids(node, ids.len());
        assert(all =~= seq![id] + kids);
        assert(!kids.contains(id)) by {
            if kids.contains(id) {
                assert(under(d, ids, ids.len(), id, rest));
                let i = choose|i: int| 0 <= i < ids.len() && within(d, #[trigger] ids[i], id, rest);
                let k = choose|k: nat| k <= rest && #[trigger] d.up(id, k) == Some(ids[i]);
                assert(d.up(id, k + 1) == Some(id));
                assert(d.ancestor(id, id));
                blocker_laws::law_no_parent_cycle(d, id);
            }
        }
        keep::lemma_join(seq![id], kids);
        assert forall|x: TaskId| #[trigger] all.contains(x) <==> within(d, id, x, levels) by {
            assert(d.up(x, 0) == Some(x));
            if all.contains(x) {
                let i = choose|i: int| 0 <= i < all.len() && all[i] == x;
                if i > 0 {
                    assert(kids[i - 1] == x);
                    assert(kids.contains(x));
                    let j = choose|j: int| 0 <= j < ids.len() && within(d, #[trigger] ids[j], x, rest);
                    let k = choose|k: nat| k <= rest && #[trigger] d.up(x, k) == Some(ids[j]);
                    assert(d.up(x, k + 1) == Some(id));
                } else {
                    assert(d.up(x, 0) == Some(id));
                }
            }
            if within(d, id, x, levels) {
                let k = choose|k: nat| k <= levels && #[trigger] d.up(x, k) == Some(id);
                if k == 0 {
                    assert(all[0] == x);
                } else {
                    let c = d.up(x, (k - 1) as nat)->0;
                    assert(d.parent(c) == Some(id));
                    assert(ids.contains(c));
                    let j = choose|j: int| 0 <= j < ids.len() && ids[j] == c;
                    assert(within(d, ids[j], x, rest));
                    assert(under(d, ids, ids.len(), x, rest));
                    assert(kids.contains(x));
                    let i = choose|i: int| 0 <= i < kids.len() && kids[i] == x;
                    assert(all[i + 1] == x);
                }
            }
        }
    }
}

/// Whether a task is reached from one of the first `n` of these tasks.
spec fn under(d: Db, ids: Seq<TaskId>, n: nat, x: TaskId, levels: nat) -> bool {
    exists|i: int| 0 <= i < n && within(d, #[trigger] ids[i], x, levels)
}

proof fn lemma_children(
    d: Db,
    id: TaskId,
    node: TreeView,
    ids: Seq<TaskId>,
    rest: nat,
    n: nat,
)
    requires
        d.wf(),
        d.has(id),
        ids.no_duplicates(),
        forall|i: int| 0 <= i < ids.len() ==> d.parent(#[trigger] ids[i]) == Some(id) && d.has(ids[i]),
        n <= ids.len(),
        node.children.len() == ids.len(),
        forall|i: int|
            0 <= i < ids.len() ==> #[trigger] node.children[i] == task::tree(
                d,
                d.task(ids[i]),
                rest,
            ),
    ensures
        children_ids(node, n).no_duplicates(),
        forall|x: TaskId| #[trigger]
            children_ids(node, n).contains(x) <==> under(d, ids, n, x, rest),
    decreases rest, n,
{
    let all = children_ids(node, n);
    if n == 0 {
        assert(all =~= Seq::<TaskId>::empty());
    } else {
        let before = children_ids(node, (n - 1) as nat);
        let c = ids[n - 1];
        let last = tree_ids(node.children[n - 1]);
        lemma_children(d, id, node, ids, rest, (n - 1) as nat);
        model::lemma_row(d, c);
        lemma_tree(d, d.task(c), rest);
        assert(all == before + last);
        assert forall|x: TaskId| #[trigger] before.contains(x) implies !last.contains(x) by {
            if last.contains(x) {
                let i = choose|i: int| 0 <= i < n - 1 && within(d, #[trigger] ids[i], x, rest);
                let k1 = choose|k: nat| k <= rest && #[trigger] d.up(x, k) == Some(ids[i]);
                let k2 = choose|k: nat| k <= rest && #[trigger] d.up(x, k) == Some(c);
                lemma_same_level(d, id, x, ids[i], k1, c, k2);
                assert(ids[i] != ids[n - 1]);
            }
        }
        keep::lemma_join(before, last);
        assert forall|x: TaskId| #[trigger] all.contains(x) <==> under(d, ids, n, x, rest) by {
            if all.contains(x) {
                let i = choose|i: int| 0 <= i < all.len() && all[i] == x;
                if i < before.len() {
                    assert(before[i] == x);
                    assert(before.contains(x));
                    let j = choose|j: int| 0 <= j < n - 1 && within(d, #[trigger] ids[j], x, rest);
                    assert(within(d, ids[j], x, rest));
                } else {
                    assert(last[i - before.len()] == x);
                    assert(last.contains(x));
                    assert(within(d, ids[n - 1], x, rest));
                }
            }
            if under(d, ids, n, x, rest) {
                let j = choose|j: int| 0 <= j < n && within(d, #[trigger] ids[j], x, rest);
                if j < n - 1 {
                    assert(under(d, ids, (n - 1) as nat, x, rest));
                    assert(before.contains(x));
                    let i = choose|i: int| 0 <= i < before.len() && before[i] == x;
                    assert(all[i] == x);
                } else {
                    assert(last.contains(x));
                    let i = choose|i: int| 0 <= i < last.len() && last[i] == x;
                    assert(all[before.len() + i] == x);
                }
            }
        }
    }
}

/// A task is reached from one of two siblings only.
proof fn lemma_same_level(
    d: Db,
    id: TaskId,
    x: TaskId,
    a: TaskId,
    i: nat,
    b: TaskId,
    j: nat,
)
    requires
        d.wf(),
        d.up(x, i) == Some(a),
        d.up(x, j) == Some(b),
        d.parent(a) == Some(id),
        d.parent(b) == Some(id),
    ensures
        a == b,
{
    assert(d.up(x, 0) == Some(x));
    assert(d.has(x)) by {
        if i > 0 {
            model::lemma_up_from_parent(d, x, (i - 1) as nat);
        }
    }
    readiness::lemma_up_depth(d, x, i, a);
    readiness::lemma_up_depth(d, x, j, b);
    model::lemma_depth_child(d, a);
    model::lemma_depth_child(d, b);
}

/// The tasks below a task come out each once, however many levels are looked at; down to the last
/// level they are all the tasks that it stands above.
pub proof fn law_descendants_come_once(d: Db, id: TaskId, levels: nat, x: TaskId)
    requires
        d.wf(),
    ensures
        d.below(id, levels).no_duplicates(),
        d.descendants(id).contains(x) <==> d.ancestor(id, x),
    decreases levels, 1nat, 0nat,
{
    model::lemma_descendants(d, id, x);
    if levels > 0 {
        let rest = (levels - 1) as nat;
        let kids = d.children(id);
        let deeper = d.below_all(kids, rest);
        model::lemma_children_distinct(d, id);
        model::lemma_children_stored(d, id);
        lemma_below_all_distinct(d, id, kids, rest);
        assert forall|y: TaskId| #[trigger] kids.contains(y) implies !deeper.contains(y) by {
            if deeper.contains(y) {
                model::lemma_below_all(d, kids, rest, y);
                let k = choose|k: nat|
                    1 <= k <= rest && (#[trigger] d.up(y, k)) is Some && kids.contains(d.up(y, k)->0);
                let c = d.up(y, k)->0;
                model::lemma_children(d, id, y);
                model::lemma_children(d, id, c);
                assert(d.up(y, 0) == Some(y));
                lemma_same_level(d, id, y, y, 0, c, k);
                assert(d.ancestor(y, y));
                blocker_laws::law_no_parent_cycle(d, y);
            }
        }
        keep::lemma_join(kids, deeper);
    }
}

proof fn lemma_below_all_distinct(d: Db, id: TaskId, ids: Seq<TaskId>, levels: nat)
    requires
        d.wf(),
        ids.no_duplicates(),
        forall|i: int| 0 <= i < ids.len() ==> d.parent(#[trigger] ids[i]) == Some(id),
    ensures
        d.below_all(ids, levels).no_duplicates(),
    decreases levels, 2nat, ids.len(),
{
    if ids.len() > 0 {
        let last = ids.last();
        let rest = ids.drop_last();
        let a = d.below(last, levels);
        let b = d.below_all(rest, levels);
        law_descendants_come_once(d, last, levels, last);
        lemma_below_all_distinct(d, id, rest, levels);
        assert forall|y: TaskId| #[trigger] a.contains(y) implies !b.contains(y) by {
            if b.contains(y) {
                model::lemma_below(d, last, levels, y);
                model::lemma_below_all(d, rest, levels, y);
                let i = choose|k: nat| 1 <= k <= levels && #[trigger] d.up(y, k) == Some(last);
                let j = choose|k: nat|
                    1 <= k <= levels && (#[trigger] d.up(y, k)) is Some && rest.contains(
                        d.up(y, k)->0,
                    );
                let c = d.up(y, j)->0;
                let n = choose|n: int| 0 <= n < rest.len() && rest[n] == c;
                assert(ids[n] == c);
                lemma_same_level(d, id, y, last, i, c, j);
                assert(ids[n] != ids[ids.len() - 1]);
            }
        }
        keep::lemma_join(a, b);
    }
}

/// The tasks that a listing gives can be drawn as a forest: none is there twice.
pub proof fn law_listed_tasks_are_distinct(d: Db, f: FilterView)
    requires
        d.wf(),
    ensures
        forest::distinct(rules::list(d, f)),
{
    let ids = rules::list_ids(d, f);
    let list = rules::list(d, f);
    assert forall|i: int, j: int| 0 <= i < j < list.len() implies (#[trigger] list[i]).row.id != (
    #[trigger] list[j]).row.id by {
        laws::law_listing_is_exact(d, f, ids[i]);
        laws::law_listing_is_exact(d, f, ids[j]);
        assert(ids.contains(ids[i]) && ids.contains(ids[j]));
        model::lemma_row(d, ids[i]);
        model::lemma_row(d, ids[j]);
        assert(ids[i] != ids[j]);
    }
}

/// Progress adds up: every task in scope is counted as completed, ready or blocked, and as one of
/// them only.
pub proof fn law_progress_adds_up(d: Db, root: Option<TaskId>)
    requires
        d.tasks.len() <= usize::MAX,
    ensures
        ({
            let p = task::progress(d, root);
            &&& p.completed + p.ready + p.blocked == p.total
            &&& p.total <= d.tasks.len()
            &&& root is None ==> p.total == d.tasks.len()
        }),
{
    let f0 = |r: RowView| task::in_scope(d, root, r);
    let f1 = |r: RowView| task::in_scope(d, root, r) && r.completed;
    let f2 = |r: RowView|
        task::in_scope(d, root, r) && !r.completed && !d.effectively_blocked(r.id);
    let f3 = |r: RowView|
        task::in_scope(d, root, r) && !r.completed && d.effectively_blocked(r.id);
    lemma_counts(d.tasks, f0, f1, f2, f3, d.tasks.len() as int);
    assert(d.tasks.take(d.tasks.len() as int) =~= d.tasks);
}

proof fn lemma_counts(
    s: Seq<RowView>,
    f0: spec_fn(RowView) -> bool,
    f1: spec_fn(RowView) -> bool,
    f2: spec_fn(RowView) -> bool,
    f3: spec_fn(RowView) -> bool,
    n: int,
)
    requires
        0 <= n <= s.len(),
        forall|r: RowView| f1(r) ==> #[trigger] f0(r) && !f2(r) && !f3(r),
        forall|r: RowView| f2(r) ==> #[trigger] f0(r) && !f3(r),
        forall|r: RowView| f3(r) ==> #[trigger] f0(r),
        forall|r: RowView| #[trigger] f0(r) ==> f1(r) || f2(r) || f3(r),
    ensures
        s.take(n).filter(f1).len() + s.take(n).filter(f2).len() + s.take(n).filter(f3).len()
            == s.take(n).filter(f0).len(),
        s.take(n).filter(f0).len() <= n,
        (forall|r: RowView| #[trigger] f0(r)) ==> s.take(n).filter(f0).len() == n,
    decreases n,
{
    if n == 0 {
        model::lemma_filter_empty(s, f0);
        model::lemma_filter_empty(s, f1);
        model::lemma_filter_empty(s, f2);
        model::lemma_filter_empty(s, f3);
    } else {
        lemma_counts(s, f0, f1, f2, f3, n - 1);
        model::lemma_filter_take(s, f0, n - 1);
        model::lemma_filter_take(s, f1, n - 1);
        model::lemma_filter_take(s, f2, n - 1);
        model::lemma_filter_take(s, f3, n - 1);
        assert(f0(s[n - 1]) == f0(s[n - 1]));
    }
}

/// An export leaves nothing out, adds nothing and repeats nothing: it holds every stored task,
/// every learning and every edge, each once.
pub proof fn law_export_is_complete(d: Db, exported_at: Seq<char>)
    requires
        d.wf(),
    ensures
        ({
            let e = data::export_of(d, exported_at);
            &&& e.tasks.to_multiset() == d.tasks.map_values(
                |r: RowView| data::exported(r),
            ).to_multiset()
            &&& e.learnings.to_multiset() == d.learnings.to_multiset()
            &&& e.blockers.to_multiset() == d.blockers.to_multiset()
        }),
{
    let ids = data::all_ids(d);
    let e = data::export_of(d, exported_at);
    model::lemma_listed(d, task::any_task());
    lemma_export_tasks(d, exported_at);
    lemma_learnings_distinct(d, ids);
    assert forall|l: LearningView| #[trigger] e.learnings.contains(l) <==> d.learnings.contains(
        l,
    ) by {
        lemma_all_learnings(d, ids, l);
        if d.learnings.contains(l) {
            let i = choose|i: int| 0 <= i < d.learnings.len() && d.learnings[i] == l;
            assert(d.has(d.learnings[i].task_id));
            assert(ids.contains(l.task_id));
        }
    }
    lemma_same_contents(e.learnings, d.learnings);
    lemma_blockers_distinct(d, ids);
    assert forall|b: BlockerRelation| #[trigger] e.blockers.contains(b) <==> d.blockers.contains(
        b,
    ) by {
        lemma_all_blockers(d, ids, b);
        if d.blockers.contains(b) {
            let i = choose|i: int| 0 <= i < d.blockers.len() && d.blockers[i] == b;
            assert(d.has(d.blockers[i].task_id));
            assert(ids.contains(b.task_id));
        }
    }
    lemma_same_contents(e.blockers, d.blockers);
}

/// Lists without duplicates that hold the same things differ in order only.
proof fn lemma_same_contents<A>(a: Seq<A>, b: Seq<A>)
    requires
        a.no_duplicates(),
        b.no_duplicates(),
        forall|x: A| #[trigger] a.contains(x) <==> b.contains(x),
    ensures
        a.to_multiset() == b.to_multiset(),
{
    broadcast use vstd::multiset::group_multiset_axioms;

    a.to_multiset_ensures();
    b.to_multiset_ensures();
    a.lemma_multiset_has_no_duplicates();
    b.lemma_multiset_has_no_duplicates();
    assert forall|x: A| a.to_multiset().count(x) == b.to_multiset().count(x) by {
        assert(a.contains(x) <==> b.contains(x));
        assert(a.to_multiset().contains(x) <==> a.to_multiset().count(x) > 0);
        assert(b.to_multiset().contains(x) <==> b.to_multiset().count(x) > 0);
    }
    assert(a.to_multiset() =~= b.to_multiset());
}

proof fn lemma_export_tasks(d: Db, exported_at: Seq<char>)
    requires
        d.wf(),
    ensures
        data::export_of(d, exported_at).tasks.to_multiset() == d.tasks.map_values(
            |r: RowView| data::exported(r),
        ).to_multiset(),
{
    let ids = data::all_ids(d);
    let a = data::export_of(d, exported_at).tasks;
    let b = d.tasks.map_values(|r: RowView| data::exported(r));
    model::lemma_listed(d, task::any_task());
    assert forall|i: int| 0 <= i < a.len() implies (#[trigger] a[i]).id == ids[i] by {
        assert(d.has(ids[i]));
        model::lemma_row(d, ids[i]);
    }
    assert(a.no_duplicates());
    assert forall|i: int, j: int| 0 <= i < b.len() && 0 <= j < b.len() && i != j implies b[i]
        != b[j] by {
        assert(b[i].id == d.tasks[i].id && b[j].id == d.tasks[j].id);
    }
    assert forall|x: data::ExportTaskView| #[trigger] a.contains(x) <==> b.contains(x) by {
        if a.contains(x) {
            let i = choose|i: int| 0 <= i < a.len() && a[i] == x;
            assert(d.has(ids[i]));
            model::lemma_row(d, ids[i]);
            let j = choose|j: int| 0 <= j < d.tasks.len() && d.tasks[j] == d.row(ids[i]);
            assert(b[j] == x);
        }
        if b.contains(x) {
            let j = choose|j: int| 0 <= j < b.len() && b[j] == x;
            model::lemma_pos(d, j);
            assert(ids.contains(d.tasks[j].id));
            let i = choose|i: int| 0 <= i < ids.len() && ids[i] == d.tasks[j].id;
            assert(a[i] == x);
        }
    }
    lemma_same_contents(a, b);
}

proof fn lemma_learnings_distinct(d: Db, ids: Seq<TaskId>)
    requires
        d.wf(),
        ids.no_duplicates(),
    ensures
        d.learnings.no_duplicates(),
        data::learnings_of_all(d, ids).no_duplicates(),
    decreases ids.len(),
{
    assert forall|i: int, j: int|
        0 <= i < d.learnings.len() && 0 <= j < d.learnings.len() && i != j implies d.learnings[i]
        != d.learnings[j] by {
        if i < j {
            assert(!model::same_learning(d.learnings[i], d.learnings[j]));
        } else {
            assert(!model::same_learning(d.learnings[j], d.learnings[i]));
        }
    }
    if ids.len() > 0 {
        let rest = ids.drop_last();
        let id = ids.last();
        lemma_learnings_distinct(d, rest);
        let f = |m: LearningView| m.task_id == id;
        keep::lemma_filter_distinct(d.learnings, f);
        let before = data::learnings_of_all(d, rest);
        assert forall|l: LearningView| #[trigger] before.contains(l) implies !d.learnings_of(
            id,
        ).contains(l) by {
            lemma_all_learnings(d, rest, l);
            laws::lemma_filter_exact(d.learnings, f, l);
            if l.task_id == id {
                let i = choose|i: int| 0 <= i < rest.len() && rest[i] == id;
                assert(ids[i] == ids[ids.len() - 1]);
            }
        }
        keep::lemma_join(before, d.learnings_of(id));
    }
}

proof fn lemma_blockers_distinct(d: Db, ids: Seq<TaskId>)
    requires
        d.edges_ok(),
        ids.no_duplicates(),
    ensures
        data::blockers_of_all(d, ids).no_duplicates(),
    decreases ids.len(),
{
    if ids.len() > 0 {
        let rest = ids.drop_last();
        let id = ids.last();
        lemma_blockers_distinct(d, rest);
        let f = |e: BlockerRelation| e.task_id == id;
        let edges = d.blockers.filter(f);
        keep::lemma_filter_distinct(d.blockers, f);
        let own = model::edges_to(id, d.blockers_of(id));
        assert forall|i: int| 0 <= i < edges.len() implies own[i] == #[trigger] edges[i] by {
            d.blockers.lemma_filter_pred(f, i);
        }
        assert(own =~= edges);
        let before = data::blockers_of_all(d, rest);
        assert forall|b: BlockerRelation| #[trigger] before.contains(b) implies !own.contains(b) by {
            lemma_all_blockers(d, rest, b);
            laws::lemma_filter_exact(d.blockers, f, b);
            if b.task_id == id {
                let i = choose|i: int| 0 <= i < rest.len() && rest[i] == id;
                assert(ids[i] == ids[ids.len() - 1]);
            }
        }
        keep::lemma_join(before, own);
    }
}

proof fn lemma_all_learnings(d: Db, ids: Seq<TaskId>, l: LearningView)
    ensures
        data::learnings_of_all(d, ids).contains(l) <==> d.learnings.contains(l) && ids.contains(
            l.task_id,
        ),
    decreases ids.len(),
{
    if ids.len() > 0 {
        let rest = ids.drop_last();
        let id = ids.last();
        lemma_all_learnings(d, rest, l);
        let f = |m: LearningView| m.task_id == id;
        laws::lemma_filter_exact(d.learnings, f, l);
        lemma_join_contains(data::learnings_of_all(d, rest), d.learnings_of(id), l);
        lemma_last_or_rest(ids, l.task_id);
    }
}

proof fn lemma_all_blockers(d: Db, ids: Seq<TaskId>, b: BlockerRelation)
    requires
        d.edges_ok(),
    ensures
        data::blockers_of_all(d, ids).contains(b) <==> d.blockers.contains(b) && ids.contains(
            b.task_id,
        ),
    decreases ids.len(),
{
    if ids.len() > 0 {
        let rest = ids.drop_last();
        let id = ids.last();
        lemma_all_blockers(d, rest, b);
        let own = model::edges_to(id, d.blockers_of(id));
        task_service::lemma_blockers_of(d, id, b.blocker_id);
        assert(own.contains(b) <==> d.blockers.contains(b) && b.task_id == id) by {
            if own.contains(b) {
                let i = choose|i: int| 0 <= i < own.len() && own[i] == b;
                assert(d.blockers_of(id)[i] == b.blocker_id);
                assert(d.blockers_of(id).contains(b.blocker_id));
            }
            if d.blockers.contains(b) && b.task_id == id {
                let i = choose|i: int|
                    0 <= i < d.blockers_of(id).len() && d.blockers_of(id)[i] == b.blocker_id;
                assert(own[i] == b);
            }
        }
        lemma_join_contains(data::blockers_of_all(d, rest), own, b);
        lemma_last_or_rest(ids, b.task_id);
    }
}

proof fn lemma_join_contains<A>(a: Seq<A>, b: Seq<A>, x: A)
    ensures
        (a + b).contains(x) <==> a.contains(x) || b.contains(x),
{
    if (a + b).contains(x) {
        let i = choose|i: int| 0 <= i < (a + b).len() && (a + b)[i] == x;
        if i < a.len() {
            assert(a[i] == x);
        } else {
            assert(b[i - a.len()] == x);
        }
    }
    if a.contains(x) {
        let i = choose|i: int| 0 <= i < a.len() && a[i] == x;
        assert((a + b)[i] == x);
    }
    if b.contains(x) {
        let i = choose|i: int| 0 <= i < b.len() && b[i] == x;
        assert((a + b)[a.len() + i] == x);
    }
}

proof fn lemma_last_or_rest(ids: Seq<TaskId>, x: TaskId)
    requires
        ids.len() > 0,
    ensures
        ids.contains(x) <==> ids.drop_last().contains(x) || ids.last() == x,
{
    lemma_join_contains(ids.drop_last(), seq![ids.last()], x);
    assert(ids =~= ids.drop_last() + seq![ids.last()]);
    assert(seq![ids.last()].contains(x) <==> ids.last() == x) by {
        if ids.last() == x {
            assert(seq![ids.last()][0] == x);
        }
    }
}

} // verus!
