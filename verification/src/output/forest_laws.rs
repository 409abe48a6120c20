//! What holds of the lists that are drawn as a forest.
use vstd::prelude::*;

use crate::id::TaskId;
use crate::keep;
use crate::model;
use crate::model::Db;
use crate::order;
use crate::order::Rank;
use crate::output::forest;
use crate::output::paint;
use crate::output::paint::Colors;
use crate::output::status;
use crate::service::laws;
use crate::service::rules;
use crate::types::{FilterView, TaskView};

verus! {

/// The tasks on the lines for a task and for what is under it, down to `levels` levels.
pub open spec fn node_ids(list: Seq<TaskView>, id: TaskId, levels: nat) -> Seq<TaskId>
    decreases levels, 0nat,
{
    seq![id] + (if levels == 0 {
        Seq::empty()
    } else {
        kids_ids(list, forest::kids(list, id), forest::kids(list, id).len(), (levels - 1) as nat)
    })
}

/// The tasks on the lines for the first `n` of these siblings.
pub open spec fn kids_ids(list: Seq<TaskView>, ids: Seq<TaskId>, n: nat, levels: nat) -> Seq<TaskId>
    decreases levels, n,
{
    if n == 0 {
        Seq::empty()
    } else {
        kids_ids(list, ids, (n - 1) as nat, levels) + node_ids(list, ids[n - 1], levels)
    }
}

/// The tasks on the lines for the first `n` of these roots.
pub open spec fn roots_ids(list: Seq<TaskView>, ids: Seq<TaskId>, n: nat) -> Seq<TaskId>
    decreases n,
{
    if n == 0 {
        Seq::empty()
    } else {
        roots_ids(list, ids, (n - 1) as nat) + node_ids(list, ids[n - 1], list.len() + 1)
    }
}

/// The tasks on the lines of a forest, in order.
pub open spec fn forest_ids(list: Seq<TaskView>) -> Seq<TaskId> {
    roots_ids(list, forest::roots(list), forest::roots(list).len())
}

/// Whether a line shows a task on a list, behind what connects it to the lines above.
pub open spec fn shows(c: Colors, list: Seq<TaskView>, line: Seq<char>, id: TaskId) -> bool {
    let t = forest::on_list_as(list, id);
    exists|lead: Seq<char>| line == #[trigger] (lead + status::task_line(c, t, status::title(c, t)))
}

/// Whether these lines show these tasks, one each.
pub open spec fn show_all(
    c: Colors,
    list: Seq<TaskView>,
    lines: Seq<Seq<char>>,
    ids: Seq<TaskId>,
) -> bool {
    &&& lines.len() == ids.len()
    &&& forall|i: int| 0 <= i < ids.len() ==> shows(c, list, #[trigger] lines[i], ids[i])
}

/// A listing that is drawn as a forest has one line for each task on it, and no others but the
/// summary: tasks stand under their parents or, where those are not listed, as roots.
pub proof fn law_forest_shows_each_task_once(d: Db, f: FilterView, c: Colors, x: TaskId)
    requires
        d.wf(),
    ensures
        ({
            let list = rules::list(d, f);
            let roots = forest::roots(list);
            let ids = forest_ids(list);
            &&& ids.no_duplicates()
            &&& ids.contains(x) <==> forest::on_list(list, x)
            &&& show_all(c, list, forest::forest_lines(c, list, roots, roots.len()), ids)
        }),
{
    let list = rules::list(d, f);
    let roots = forest::roots(list);
    lemma_listing(d, f);
    lemma_kids_and_roots(d, list, x);
    lemma_roots_ids(d, list, roots.len());
    lemma_roots_shown(c, list, roots, roots.len());
    let ids = forest_ids(list);
    let top = list.len() + 1;
    if ids.contains(x) {
        let i = choose|i: int|
            0 <= i < roots.len() && reached(d, list, #[trigger] roots[i], x, top);
        let k = choose|k: nat| k <= top && #[trigger] climb(d, list, x, k) == Some(roots[i]);
        lemma_climb_back(d, list, x, k);
    }
    if forest::on_list(list, x) {
        let k = lemma_root(d, list, x);
        let r = climb(d, list, x, k)->0;
        lemma_kids_and_roots(d, list, r);
        assert(roots.contains(r));
        let i = choose|i: int| 0 <= i < roots.len() && roots[i] == r;
        let j = choose|j: int| 0 <= j < list.len() && (#[trigger] list[j]).row.id == x;
        assert(k <= top);
        assert(reached(d, list, roots[i], x, top));
        assert(from_one_of(d, list, roots, roots.len(), x, top));
    }
}

/// Whether a list holds tasks of a state, none of them twice.
spec fn drawn_from(d: Db, list: Seq<TaskView>) -> bool {
    &&& forest::distinct(list)
    &&& forall|i: int|
        0 <= i < list.len() ==> d.has((#[trigger] list[i]).row.id) && list[i].row == d.row(
            list[i].row.id,
        )
}

proof fn lemma_listing(d: Db, f: FilterView)
    requires
        d.wf(),
    ensures
        drawn_from(d, rules::list(d, f)),
{
    let ids = rules::list_ids(d, f);
    let list = rules::list(d, f);
    assert forall|i: int| 0 <= i < list.len() implies d.has((#[trigger] list[i]).row.id)
        && list[i].row == d.row(list[i].row.id) && list[i].row.id == ids[i] by {
        laws::law_listing_is_exact(d, f, ids[i]);
        assert(ids.contains(ids[i]));
        model::lemma_row(d, ids[i]);
        assert(list[i] == d.task(ids[i]));
    }
    assert forall|i: int, j: int| 0 <= i < j < list.len() implies (#[trigger] list[i]).row.id != (
    #[trigger] list[j]).row.id by {
        laws::law_listing_is_exact(d, f, ids[i]);
    }
}

/// The task on a list that is reached by going up `k` levels without leaving the list.
spec fn climb(d: Db, list: Seq<TaskView>, x: TaskId, k: nat) -> Option<TaskId>
    decreases k,
{
    if k == 0 {
        if forest::on_list(list, x) {
            Some(x)
        } else {
            None
        }
    } else {
        match climb(d, list, x, (k - 1) as nat) {
            Some(p) => listed_parent(d, list, p),
            None => None,
        }
    }
}

/// The parent of a task, where it is on the list too.
spec fn listed_parent(d: Db, list: Seq<TaskView>, p: TaskId) -> Option<TaskId> {
    match d.parent(p) {
        Some(q) => if forest::on_list(list, q) {
            Some(q)
        } else {
            None
        },
        None => None,
    }
}

/// Whether a task is reached by going down at most `levels` levels on the list.
spec fn reached(d: Db, list: Seq<TaskView>, id: TaskId, x: TaskId, levels: nat) -> bool {
    exists|k: nat| k <= levels && #[trigger] climb(d, list, x, k) == Some(id)
}

/// Whether a task is reached from one of the first `n` of these tasks.
spec fn from_one_of(
    d: Db,
    list: Seq<TaskView>,
    ids: Seq<TaskId>,
    n: nat,
    x: TaskId,
    levels: nat,
) -> bool {
    exists|i: int| 0 <= i < n && reached(d, list, #[trigger] ids[i], x, levels)
}

/// Going up leads from a stored task on the list to another, one level at a time.
proof fn lemma_climb_back(d: Db, list: Seq<TaskView>, x: TaskId, k: nat)
    requires
        d.wf(),
        drawn_from(d, list),
        climb(d, list, x, k) is Some,
    ensures
        forest::on_list(list, x),
        forest::on_list(list, climb(d, list, x, k)->0),
        d.depth(climb(d, list, x, k)->0) == d.depth(x) - k,
    decreases k,
{
    if k > 0 {
        lemma_climb_back(d, list, x, (k - 1) as nat);
        let p = climb(d, list, x, (k - 1) as nat)->0;
        let i = choose|i: int| 0 <= i < list.len() && (#[trigger] list[i]).row.id == p;
        assert(d.has(p));
        model::lemma_depth_child(d, p);
    }
}

/// Beyond the end of a climb there is nothing.
proof fn lemma_climb_none(d: Db, list: Seq<TaskView>, x: TaskId, j: nat, k: nat)
    requires
        climb(d, list, x, j) is None,
        j <= k,
    ensures
        climb(d, list, x, k) is None,
    decreases k,
{
    if j < k {
        lemma_climb_none(d, list, x, j, (k - 1) as nat);
    }
}

/// Climbing from a task is climbing from its parent with one step before.
proof fn lemma_climb_from_parent(d: Db, list: Seq<TaskView>, x: TaskId, k: nat)
    requires
        forest::on_list(list, x),
        listed_parent(d, list, x) is Some,
    ensures
        climb(d, list, x, k + 1) == climb(d, list, listed_parent(d, list, x)->0, k),
    decreases k,
{
    if k == 0 {
        assert(climb(d, list, x, 0) == Some(x));
    } else {
        lemma_climb_from_parent(d, list, x, (k - 1) as nat);
    }
}

/// Every task on a list stands under a root.
proof fn lemma_root(d: Db, list: Seq<TaskView>, x: TaskId) -> (k: nat)
    requires
        d.wf(),
        drawn_from(d, list),
        forest::on_list(list, x),
    ensures
        k <= 2,
        climb(d, list, x, k) is Some,
        listed_parent(d, list, climb(d, list, x, k)->0) is None,
    decreases d.depth(x),
{
    if listed_parent(d, list, x) is None {
        assert(climb(d, list, x, 0) == Some(x));
        0
    } else {
        let p = listed_parent(d, list, x)->0;
        let i = choose|i: int| 0 <= i < list.len() && (#[trigger] list[i]).row.id == x;
        assert(d.has(x));
        model::lemma_depth_child(d, x);
        let k = lemma_root(d, list, p);
        lemma_climb_from_parent(d, list, x, k);
        lemma_climb_back(d, list, x, k + 1);
        k + 1
    }
}

/// Sorting the tasks with a property keeps each of them, once.
proof fn lemma_ranked_filter(
    list: Seq<TaskView>,
    f: spec_fn(TaskView) -> bool,
    g: spec_fn(TaskView) -> Rank,
    x: TaskId,
)
    requires
        forest::distinct(list),
        forall|t: TaskView| (#[trigger] g(t)).id == t.row.id,
    ensures
        order::ranked(list.filter(f).map_values(g)).no_duplicates(),
        order::ranked(list.filter(f).map_values(g)).contains(x) <==> exists|i: int|
            0 <= i < list.len() && (#[trigger] list[i]).row.id == x && f(list[i]),
{
    let kept = list.filter(f);
    let ranks = kept.map_values(g);
    order::lemma_ranked(ranks);
    keep::lemma_filter_distinct(list, f);
    assert forall|i: int| 0 <= i < kept.len() implies list.contains(#[trigger] kept[i]) && f(
        kept[i],
    ) by {
        assert(kept.contains(kept[i]));
        laws::lemma_filter_exact(list, f, kept[i]);
    }
    let ids = ranks.map_values(|r: Rank| r.id);
    assert forall|i: int, j: int| 0 <= i < ids.len() && 0 <= j < ids.len() && i != j implies ids[i]
        != ids[j] by {
        assert(list.contains(kept[i]) && list.contains(kept[j]));
        assert(ids[i] == kept[i].row.id && ids[j] == kept[j].row.id);
        let a = choose|a: int| 0 <= a < list.len() && list[a] == kept[i];
        let b = choose|b: int| 0 <= b < list.len() && list[b] == kept[j];
        assert(kept[i] != kept[j]);
        assert(list[a].row.id != list[b].row.id);
    }
    if order::ranked(ranks).contains(x) {
        let i = choose|i: int| 0 <= i < ranks.len() && (#[trigger] ranks[i]).id == x;
        assert(list.contains(kept[i]));
        let a = choose|a: int| 0 <= a < list.len() && list[a] == kept[i];
        assert(list[a].row.id == x && f(list[a]));
    }
    if exists|i: int| 0 <= i < list.len() && (#[trigger] list[i]).row.id == x && f(list[i]) {
        let i = choose|i: int| 0 <= i < list.len() && (#[trigger] list[i]).row.id == x && f(list[i]);
        laws::lemma_filter_exact(list, f, list[i]);
        assert(list.contains(list[i]));
        let j = choose|j: int| 0 <= j < kept.len() && kept[j] == list[i];
        assert(ranks[j].id == x);
    }
}

/// The tasks under a task are those whose parent it is; the roots are those whose parent is not on
/// the list.
proof fn lemma_kids_and_roots(d: Db, list: Seq<TaskView>, id: TaskId)
    requires
        d.wf(),
        drawn_from(d, list),
    ensures
        forest::kids(list, id).no_duplicates(),
        forall|x: TaskId| #[trigger]
            forest::kids(list, id).contains(x) <==> forest::on_list(list, x) && d.parent(x) == Some(id),
        forest::roots(list).no_duplicates(),
        forall|x: TaskId| #[trigger]
            forest::roots(list).contains(x) <==> forest::on_list(list, x) && listed_parent(
                d,
                list,
                x,
            ) is None,
{
    let f = |t: TaskView| t.row.parent_id == Some(id);
    let g = |t: TaskView| forest::sibling_rank(t);
    let e = |t: TaskView| !forest::under_another(list, t);
    let h = |t: TaskView| forest::root_rank(t);
    lemma_ranked_filter(list, f, g, id);
    lemma_ranked_filter(list, e, h, id);
    assert forall|x: TaskId| #[trigger]
        forest::kids(list, id).contains(x) <==> forest::on_list(list, x) && d.parent(x) == Some(
            id,
        ) by {
        lemma_ranked_filter(list, f, g, x);
        if forest::on_list(list, x) {
            let i = choose|i: int| 0 <= i < list.len() && (#[trigger] list[i]).row.id == x;
            assert(d.parent(x) == list[i].row.parent_id);
        }
    }
    assert forall|x: TaskId| #[trigger]
        forest::roots(list).contains(x) <==> forest::on_list(list, x) && listed_parent(
            d,
            list,
            x,
        ) is None by {
        lemma_ranked_filter(list, e, h, x);
        if forest::on_list(list, x) {
            let i = choose|i: int| 0 <= i < list.len() && (#[trigger] list[i]).row.id == x;
            assert(d.parent(x) == list[i].row.parent_id);
            assert(e(list[i]) <==> listed_parent(d, list, x) is None);
        }
        if forest::roots(list).contains(x) {
            let j = choose|j: int|
                0 <= j < list.len() && (#[trigger] list[j]).row.id == x && e(list[j]);
            assert(d.parent(x) == list[j].row.parent_id);
        }
    }
}

/// The lines for a task are for the tasks that are reached from it, each once.
proof fn lemma_node_ids(d: Db, list: Seq<TaskView>, id: TaskId, levels: nat)
    requires
        d.wf(),
        drawn_from(d, list),
        forest::on_list(list, id),
    ensures
        node_ids(list, id, levels).no_duplicates(),
        forall|x: TaskId| #[trigger]
            node_ids(list, id, levels).contains(x) <==> reached(d, list, id, x, levels),
    decreases levels, 0nat,
{
    let all = node_ids(list, id, levels);
    let own = seq![id];
    let kids = forest::kids(list, id);
    let rest: Seq<TaskId> = if levels == 0 {
        Seq::empty()
    } else {
        kids_ids(list, kids, kids.len(), (levels - 1) as nat)
    };
    if levels > 0 {
        lemma_kids_ids(d, list, id, kids.len(), (levels - 1) as nat);
        lemma_kids_and_roots(d, list, id);
    }
    assert forall|x: TaskId| #[trigger] own.contains(x) implies !rest.contains(x) && x == id by {
        assert(x == own[0]);
        if rest.contains(id) {
            let below = (levels - 1) as nat;
            let i = choose|i: int|
                0 <= i < kids.len() && reached(d, list, #[trigger] kids[i], id, below);
            let k = choose|k: nat| k <= below && #[trigger] climb(d, list, id, k) == Some(kids[i]);
            lemma_climb_back(d, list, id, k);
            lemma_kid_depth(d, list, id, i);
        }
    }
    keep::lemma_join(own, rest);
    assert(own[0] == id);
    assert forall|x: TaskId| #[trigger] all.contains(x) <==> reached(d, list, id, x, levels) by {
        if own.contains(x) {
            assert(climb(d, list, x, 0) == Some(id));
        }
        if rest.contains(x) {
            let below = (levels - 1) as nat;
            let i = choose|i: int|
                0 <= i < kids.len() && reached(d, list, #[trigger] kids[i], x, below);
            let k = choose|k: nat| k <= below && #[trigger] climb(d, list, x, k) == Some(kids[i]);
            assert(kids.contains(kids[i]));
            assert(climb(d, list, x, k + 1) == Some(id));
        }
        if reached(d, list, id, x, levels) {
            let k = choose|k: nat| k <= levels && #[trigger] climb(d, list, x, k) == Some(id);
            if k == 0 {
                assert(own.contains(x));
            } else {
                let below = (levels - 1) as nat;
                let q = climb(d, list, x, (k - 1) as nat)->0;
                lemma_climb_back(d, list, x, (k - 1) as nat);
                assert(kids.contains(q));
                let i = choose|i: int| 0 <= i < kids.len() && kids[i] == q;
                assert(reached(d, list, kids[i], x, below));
                assert(from_one_of(d, list, kids, kids.len(), x, below));
            }
        }
    }
}

/// A task stands one level below the one that it is under.
proof fn lemma_kid_depth(d: Db, list: Seq<TaskView>, id: TaskId, i: int)
    requires
        d.wf(),
        drawn_from(d, list),
        0 <= i < forest::kids(list, id).len(),
    ensures
        forest::on_list(list, forest::kids(list, id)[i]),
        d.depth(forest::kids(list, id)[i]) == d.depth(id) + 1,
{
    let c = forest::kids(list, id)[i];
    lemma_kids_and_roots(d, list, id);
    assert(forest::kids(list, id).contains(c));
    let j = choose|j: int| 0 <= j < list.len() && (#[trigger] list[j]).row.id == c;
    assert(d.has(c));
    model::lemma_depth_child(d, c);
}

/// The lines for siblings are for the tasks that are reached from them, each once.
proof fn lemma_kids_ids(d: Db, list: Seq<TaskView>, id: TaskId, n: nat, levels: nat)
    requires
        d.wf(),
        drawn_from(d, list),
        n <= forest::kids(list, id).len(),
    ensures
        kids_ids(list, forest::kids(list, id), n, levels).no_duplicates(),
        forall|x: TaskId| #[trigger]
            kids_ids(list, forest::kids(list, id), n, levels).contains(x) <==> from_one_of(
                d,
                list,
                forest::kids(list, id),
                n,
                x,
                levels,
            ),
    decreases levels, n + 1,
{
    let ids = forest::kids(list, id);
    if n > 0 {
        let m = (n - 1) as nat;
        let before = kids_ids(list, ids, m, levels);
        let last = node_ids(list, ids[n - 1], levels);
        lemma_kids_ids(d, list, id, m, levels);
        lemma_kid_depth(d, list, id, n - 1);
        lemma_node_ids(d, list, ids[n - 1], levels);
        lemma_kids_and_roots(d, list, id);
        assert forall|x: TaskId| #[trigger] before.contains(x) implies !last.contains(x) by {
            if last.contains(x) {
                let i = choose|i: int| 0 <= i < m && reached(d, list, #[trigger] ids[i], x, levels);
                let k1 = choose|k: nat| k <= levels && #[trigger] climb(d, list, x, k) == Some(ids[i]);
                let k2 = choose|k: nat|
                    k <= levels && #[trigger] climb(d, list, x, k) == Some(ids[n - 1]);
                lemma_kid_depth(d, list, id, i);
                lemma_climb_back(d, list, x, k1);
                lemma_climb_back(d, list, x, k2);
                assert(ids[i] == ids[n - 1]);
            }
        }
        keep::lemma_join(before, last);
        lemma_one_more(d, list, ids, n, levels);
    }
}

/// What is reached from the first `n` tasks is reached from those before or from the last.
proof fn lemma_one_more(d: Db, list: Seq<TaskView>, ids: Seq<TaskId>, n: nat, levels: nat)
    requires
        0 < n <= ids.len(),
    ensures
        forall|x: TaskId| #[trigger]
            from_one_of(d, list, ids, n, x, levels) <==> from_one_of(
                d,
                list,
                ids,
                (n - 1) as nat,
                x,
                levels,
            ) || reached(d, list, ids[n - 1], x, levels),
{
    let m = (n - 1) as nat;
    assert forall|x: TaskId| #[trigger]
        from_one_of(d, list, ids, n, x, levels) <==> from_one_of(d, list, ids, m, x, levels)
            || reached(d, list, ids[n - 1], x, levels) by {
        if from_one_of(d, list, ids, m, x, levels) {
            let i = choose|i: int| 0 <= i < m && reached(d, list, #[trigger] ids[i], x, levels);
            assert(0 <= i < n && reached(d, list, ids[i], x, levels));
        }
        if from_one_of(d, list, ids, n, x, levels) {
            let i = choose|i: int| 0 <= i < n && reached(d, list, #[trigger] ids[i], x, levels);
            if i < m {
                assert(reached(d, list, ids[i], x, levels));
            }
        }
    }
}

/// The lines for roots are for the tasks that are reached from them, each once.
proof fn lemma_roots_ids(d: Db, list: Seq<TaskView>, n: nat)
    requires
        d.wf(),
        drawn_from(d, list),
        n <= forest::roots(list).len(),
    ensures
        roots_ids(list, forest::roots(list), n).no_duplicates(),
        forall|x: TaskId| #[trigger]
            roots_ids(list, forest::roots(list), n).contains(x) <==> from_one_of(
                d,
                list,
                forest::roots(list),
                n,
                x,
                list.len() + 1,
            ),
    decreases n,
{
    let ids = forest::roots(list);
    let top = list.len() + 1;
    if n > 0 {
        let m = (n - 1) as nat;
        let r = ids[n - 1];
        let before = roots_ids(list, ids, m);
        let last = node_ids(list, r, top);
        lemma_roots_ids(d, list, m);
        lemma_kids_and_roots(d, list, r);
        assert(ids.contains(r));
        lemma_node_ids(d, list, r, top);
        assert forall|x: TaskId| #[trigger] before.contains(x) implies !last.contains(x) by {
            if last.contains(x) {
                let i = choose|i: int| 0 <= i < m && reached(d, list, #[trigger] ids[i], x, top);
                let k1 = choose|k: nat| k <= top && #[trigger] climb(d, list, x, k) == Some(ids[i]);
                let k2 = choose|k: nat| k <= top && #[trigger] climb(d, list, x, k) == Some(r);
                assert(ids.contains(ids[i]));
                assert(climb(d, list, x, k1 + 1) is None);
                assert(climb(d, list, x, k2 + 1) is None);
                if k1 < k2 {
                    lemma_climb_none(d, list, x, k1 + 1, k2);
                }
                if k2 < k1 {
                    lemma_climb_none(d, list, x, k2 + 1, k1);
                }
                assert(ids[i] == ids[n - 1]);
            }
        }
        keep::lemma_join(before, last);
        lemma_one_more(d, list, ids, n, top);
    }
}

/// Joined lines show joined tasks.
proof fn lemma_show_join(
    c: Colors,
    list: Seq<TaskView>,
    lines: Seq<Seq<char>>,
    ids: Seq<TaskId>,
    more: Seq<Seq<char>>,
    others: Seq<TaskId>,
)
    requires
        show_all(c, list, lines, ids),
        show_all(c, list, more, others),
    ensures
        show_all(c, list, lines + more, ids + others),
{
    assert forall|i: int| 0 <= i < (ids + others).len() implies shows(
        c,
        list,
        #[trigger] (lines + more)[i],
        (ids + others)[i],
    ) by {
        if i >= ids.len() {
            assert(shows(c, list, more[i - ids.len()], others[i - ids.len()]));
        } else {
            assert(shows(c, list, lines[i], ids[i]));
        }
    }
}

proof fn lemma_child_shown(
    c: Colors,
    list: Seq<TaskView>,
    id: TaskId,
    line_prefix: Seq<char>,
    child_prefix: Seq<char>,
    levels: nat,
)
    ensures
        show_all(
            c,
            list,
            forest::child_lines(c, list, id, line_prefix, child_prefix, levels),
            node_ids(list, id, levels),
        ),
    decreases levels, 0nat,
{
    let t = forest::on_list_as(list, id);
    let lead = paint::painted(line_prefix, c.tree_line);
    let own = lead + status::task_line(c, t, status::title(c, t));
    assert(shows(c, list, own, id));
    assert(show_all(c, list, seq![own], seq![id]));
    if levels == 0 {
        assert(show_all(c, list, Seq::empty(), Seq::empty()));
        lemma_show_join(c, list, seq![own], seq![id], Seq::empty(), Seq::empty());
    } else {
        let kids = forest::kids(list, id);
        let below = (levels - 1) as nat;
        lemma_kids_shown(c, list, kids, kids.len(), child_prefix, below);
        lemma_show_join(
            c,
            list,
            seq![own],
            seq![id],
            forest::kids_lines(c, list, kids, kids.len(), child_prefix, below),
            kids_ids(list, kids, kids.len(), below),
        );
    }
}

proof fn lemma_kids_shown(
    c: Colors,
    list: Seq<TaskView>,
    ids: Seq<TaskId>,
    n: nat,
    prefix: Seq<char>,
    levels: nat,
)
    ensures
        show_all(
            c,
            list,
            forest::kids_lines(c, list, ids, n, prefix, levels),
            kids_ids(list, ids, n, levels),
        ),
    decreases levels, n + 1,
{
    if n > 0 {
        let m = (n - 1) as nat;
        let last = n == ids.len();
        let line_prefix = prefix + forest::connector(last);
        let child_prefix = prefix + forest::continuation(last);
        lemma_kids_shown(c, list, ids, m, prefix, levels);
        lemma_child_shown(c, list, ids[n - 1], line_prefix, child_prefix, levels);
        lemma_show_join(
            c,
            list,
            forest::kids_lines(c, list, ids, m, prefix, levels),
            kids_ids(list, ids, m, levels),
            forest::child_lines(c, list, ids[n - 1], line_prefix, child_prefix, levels),
            node_ids(list, ids[n - 1], levels),
        );
    }
}

proof fn lemma_roots_shown(c: Colors, list: Seq<TaskView>, ids: Seq<TaskId>, n: nat)
    ensures
        show_all(c, list, forest::forest_lines(c, list, ids, n), roots_ids(list, ids, n)),
    decreases n,
{
    if n > 0 {
        let m = (n - 1) as nat;
        let r = ids[n - 1];
        let t = forest::on_list_as(list, r);
        let own = status::task_line(c, t, status::title(c, t));
        let kids = forest::kids(list, r);
        let none = Seq::<char>::empty();
        lemma_roots_shown(c, list, ids, m);
        assert(own =~= none + own);
        assert(shows(c, list, own, r));
        assert(show_all(c, list, seq![own], seq![r]));
        lemma_kids_shown(c, list, kids, kids.len(), none, list.len());
        lemma_show_join(
            c,
            list,
            seq![own],
            seq![r],
            forest::kids_lines(c, list, kids, kids.len(), none, list.len()),
            kids_ids(list, kids, kids.len(), list.len()),
        );
        lemma_show_join(
            c,
            list,
            forest::forest_lines(c, list, ids, m),
            roots_ids(list, ids, m),
            forest::root_lines(c, list, r),
            node_ids(list, r, list.len() + 1),
        );
    }
}

} // verus!
