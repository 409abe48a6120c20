//! The order in which tasks are shown and taken up, by the priorities and the times in their rows.
use vstd::prelude::*;

use crate::id::TaskId;
use crate::model;
use crate::model::Db;
use crate::order;
use crate::order::Rank;
use crate::output::forest;
use crate::service::laws;
use crate::service::rules;
use crate::table_laws;
use crate::time::Timestamp;
use crate::types::{FilterView, RowView, TaskView};

verus! {

/// Whether one point in time is before another.
pub open spec fn earlier(a: Timestamp, b: Timestamp) -> bool {
    a.secs < b.secs || a.secs == b.secs && a.nanos < b.nanos
}

/// Whether a row stands before another one: by the smaller priority number, then by the earlier
/// creation, then by the smaller identifier.
pub open spec fn row_before(a: RowView, b: RowView) -> bool {
    ||| a.priority < b.priority
    ||| a.priority == b.priority && earlier(a.created_at, b.created_at)
    ||| a.priority == b.priority && a.created_at == b.created_at && a.id.ulid < b.id.ulid
}

/// Whether a row stands no later than another one by priority and creation.
pub open spec fn no_later(a: RowView, b: RowView) -> bool {
    a.priority < b.priority || a.priority == b.priority && !earlier(b.created_at, a.created_at)
}

/// Ranked tasks come in the order of their ranks: finished ones last, then the smaller depth, the
/// smaller priority number, the earlier creation, the smaller tie breaker and the smaller
/// identifier.
pub proof fn law_ranks(s: Seq<Rank>, i: int, j: int)
    requires
        0 <= i < j < order::ranked(s).len(),
        s.map_values(|r: Rank| r.id).no_duplicates(),
    ensures
        exists|a: Rank, b: Rank|
            #![trigger s.contains(a), s.contains(b)]
            {
                &&& s.contains(a) && a.id == order::ranked(s)[i]
                &&& s.contains(b) && b.id == order::ranked(s)[j]
                &&& !(a.completed && !b.completed)
                &&& a.completed == b.completed ==> a.depth <= b.depth
                &&& a.completed == b.completed && a.depth == b.depth ==> a.priority <= b.priority
                &&& a.completed == b.completed && a.depth == b.depth && a.priority == b.priority
                    ==> !earlier(b.created_at, a.created_at)
                &&& a.completed == b.completed && a.depth == b.depth && a.priority == b.priority
                    && a.created_at == b.created_at ==> a.tie <= b.tie
                &&& a.completed == b.completed && a.depth == b.depth && a.priority == b.priority
                    && a.created_at == b.created_at && a.tie == b.tie ==> a.id.ulid < b.id.ulid
            },
{
    let t = s.sort_by(order::rank_order());
    order::lemma_rank_order();
    s.lemma_sort_by_ensures(order::rank_order());
    order::lemma_ranked(s);
    let a = t[i];
    let b = t[j];
    vstd::seq_lib::to_multiset_contains(t, a);
    vstd::seq_lib::to_multiset_contains(s, a);
    vstd::seq_lib::to_multiset_contains(t, b);
    vstd::seq_lib::to_multiset_contains(s, b);
    assert(t.contains(a) && t.contains(b));
    let r = order::rank_order();
    assert(r(a, b));
    assert(order::ranked(s)[i] != order::ranked(s)[j]);
    assert(a.id != b.id);
    assert(a.id.ulid != b.id.ulid);
    assert(s.contains(a) && s.contains(b));
}

/// The children of a task are taken up by priority, 0 first, then by age, then by identifier; all of
/// them are, each once.
pub proof fn law_children_come_by_priority_and_age(
    d: Db,
    p: TaskId,
    i: int,
    j: int,
    a: RowView,
    b: RowView,
    x: TaskId,
)
    requires
        d.wf(),
    ensures
        ({
            let s = d.children_ordered(p);
            &&& s.contains(x) <==> table_laws::child_of(d, x, p)
            &&& s.no_duplicates()
            &&& 0 <= i < j < s.len() && table_laws::row_of(d, s[i], a) && table_laws::row_of(
                d,
                s[j],
                b,
            ) ==> row_before(a, b)
        }),
{
    let s = d.children_ordered(p);
    model::lemma_children_stored(d, p);
    table_laws::lemma_child(d, x, p);
    if 0 <= i < j < s.len() && table_laws::row_of(d, s[i], a) && table_laws::row_of(d, s[j], b) {
        let ids = d.children(p);
        model::lemma_children_distinct(d, p);
        assert forall|k: int| 0 <= k < ids.len() implies d.has(#[trigger] ids[k]) by {}
        lemma_ranked_rows(d, ids, i, j, a, b);
    }
}

/// The milestones are taken up by priority, 0 first, then by age, then by identifier; all of them
/// are, each once.
pub proof fn law_milestones_come_by_priority_and_age(
    d: Db,
    i: int,
    j: int,
    a: RowView,
    b: RowView,
    r: RowView,
)
    requires
        d.wf(),
    ensures
        ({
            let s = d.roots_ordered();
            &&& d.tasks.contains(r) ==> (s.contains(r.id) <==> r.parent_id is None)
            &&& s.no_duplicates()
            &&& 0 <= i < j < s.len() && table_laws::row_of(d, s[i], a) && table_laws::row_of(
                d,
                s[j],
                b,
            ) ==> row_before(a, b)
        }),
{
    let s = d.roots_ordered();
    model::lemma_roots_stored(d);
    if d.tasks.contains(r) {
        table_laws::law_rows(d, r.id);
        assert(table_laws::row_of(d, r.id, r));
    }
    if 0 <= i < j < s.len() && table_laws::row_of(d, s[i], a) && table_laws::row_of(d, s[j], b) {
        let f = |r: RowView| r.parent_id is None;
        let ids = d.roots();
        model::lemma_filter_distinct_ids(d.tasks, f);
        assert forall|k: int| 0 <= k < ids.len() implies d.has(#[trigger] ids[k]) by {
            let rows = d.tasks.filter(f);
            assert(rows[k].id == ids[k]);
            let n = choose|n: int| 0 <= n < d.tasks.len() && d.tasks[n] == rows[k];
            assert(d.tasks[n].id == ids[k]);
        }
        lemma_ranked_rows(d, ids, i, j, a, b);
    }
}

/// Tasks that are ranked by their rows.
proof fn lemma_ranked_rows(d: Db, ids: Seq<TaskId>, i: int, j: int, a: RowView, b: RowView)
    requires
        d.wf(),
        ids.no_duplicates(),
        forall|k: int| 0 <= k < ids.len() ==> d.has(#[trigger] ids[k]),
        ({
            let s = order::ranked(ids.map_values(|c: TaskId| d.rank(c)));
            &&& 0 <= i < j < s.len()
            &&& table_laws::row_of(d, s[i], a)
            &&& table_laws::row_of(d, s[j], b)
        }),
    ensures
        row_before(a, b),
{
    let ranks = ids.map_values(|c: TaskId| d.rank(c));
    let s = order::ranked(ranks);
    let ids2 = ranks.map_values(|r: Rank| r.id);
    assert forall|k: int| 0 <= k < ids.len() implies (#[trigger] ranks[k]).id == ids[k] by {
        model::lemma_row(d, ids[k]);
    }
    assert(ids2 =~= ids);
    law_ranks(ranks, i, j);
    let (ra, rb) = choose|ra: Rank, rb: Rank|
        #![trigger ranks.contains(ra), ranks.contains(rb)]
        {
            &&& ranks.contains(ra) && ra.id == s[i]
            &&& ranks.contains(rb) && rb.id == s[j]
            &&& !(ra.completed && !rb.completed)
            &&& ra.completed == rb.completed ==> ra.depth <= rb.depth
            &&& ra.completed == rb.completed && ra.depth == rb.depth ==> ra.priority
                <= rb.priority
            &&& ra.completed == rb.completed && ra.depth == rb.depth && ra.priority == rb.priority
                ==> !earlier(rb.created_at, ra.created_at)
            &&& ra.completed == rb.completed && ra.depth == rb.depth && ra.priority == rb.priority
                && ra.created_at == rb.created_at ==> ra.tie <= rb.tie
            &&& ra.completed == rb.completed && ra.depth == rb.depth && ra.priority == rb.priority
                && ra.created_at == rb.created_at && ra.tie == rb.tie ==> ra.id.ulid < rb.id.ulid
        };
    let k = choose|k: int| 0 <= k < ranks.len() && ranks[k] == ra;
    let m = choose|m: int| 0 <= m < ranks.len() && ranks[m] == rb;
    assert(d.has(ids[k]) && d.has(ids[m]));
    table_laws::law_rows(d, ids[k]);
    table_laws::law_rows(d, ids[m]);
    model::lemma_row(d, ids[k]);
    model::lemma_row(d, ids[m]);
    assert(a == d.row(ids[k]) && b == d.row(ids[m]));
}

/// A listing comes by priority, 0 first, then by age, and rows alike in both come as they were
/// stored; each task is there once.
pub proof fn law_listings_come_by_priority_and_age(
    d: Db,
    f: FilterView,
    i: int,
    j: int,
    a: int,
    b: int,
)
    requires
        d.wf(),
        d.tasks.len() <= u64::MAX,
        0 <= a < d.tasks.len(),
        0 <= b < d.tasks.len(),
        ({
            let s = rules::list_ids(d, f);
            0 <= i < j < s.len() && d.tasks[a].id == s[i] && d.tasks[b].id == s[j]
        }),
    ensures
        no_later(d.tasks[a], d.tasks[b]),
        d.tasks[a].priority == d.tasks[b].priority && d.tasks[a].created_at
            == d.tasks[b].created_at ==> a < b,
        rules::list_ids(d, f)[i] != rules::list_ids(d, f)[j],
{
    let all = d.listed(f);
    let g = |x: TaskId| f.ready ==> rules::ready(d, x);
    let s = all.filter(g);
    model::lemma_listed(d, f);
    lemma_filter_order(all, g, i, j);
    let (k, m) = choose|k: int, m: int|
        0 <= k < m < all.len() && #[trigger] all[k] == s[i] && #[trigger] all[m] == s[j];
    lemma_listed_order(d, f, k, m, a, b);
    assert(all[k] != all[m]);
}

proof fn lemma_listed_order(d: Db, f: FilterView, i: int, j: int, a: int, b: int)
    requires
        d.wf(),
        d.tasks.len() <= u64::MAX,
        0 <= a < d.tasks.len(),
        0 <= b < d.tasks.len(),
        0 <= i < j < d.listed(f).len(),
        d.tasks[a].id == d.listed(f)[i],
        d.tasks[b].id == d.listed(f)[j],
    ensures
        no_later(d.tasks[a], d.tasks[b]),
        d.tasks[a].priority == d.tasks[b].priority && d.tasks[a].created_at
            == d.tasks[b].created_at ==> a < b,
{
    let all = d.all_ranks();
    let g = |r: Rank| d.shown(f, r.id);
    let ranks = all.filter(g);
    let s = order::ranked(ranks);
    assert forall|x: int, y: int| 0 <= x < y < all.len() implies (#[trigger] all[x]).id != (
    #[trigger] all[y]).id by {
        assert(d.tasks[x].id != d.tasks[y].id);
    }
    lemma_filter_ranks_distinct(all, g);
    law_ranks(ranks, i, j);
    let (ra, rb) = choose|ra: Rank, rb: Rank|
        #![trigger ranks.contains(ra), ranks.contains(rb)]
        {
            &&& ranks.contains(ra) && ra.id == s[i]
            &&& ranks.contains(rb) && rb.id == s[j]
            &&& !(ra.completed && !rb.completed)
            &&& ra.completed == rb.completed ==> ra.depth <= rb.depth
            &&& ra.completed == rb.completed && ra.depth == rb.depth ==> ra.priority
                <= rb.priority
            &&& ra.completed == rb.completed && ra.depth == rb.depth && ra.priority == rb.priority
                ==> !earlier(rb.created_at, ra.created_at)
            &&& ra.completed == rb.completed && ra.depth == rb.depth && ra.priority == rb.priority
                && ra.created_at == rb.created_at ==> ra.tie <= rb.tie
            &&& ra.completed == rb.completed && ra.depth == rb.depth && ra.priority == rb.priority
                && ra.created_at == rb.created_at && ra.tie == rb.tie ==> ra.id.ulid < rb.id.ulid
        };
    laws::lemma_filter_exact(all, g, ra);
    laws::lemma_filter_exact(all, g, rb);
    let k = choose|k: int| 0 <= k < all.len() && all[k] == ra;
    let m = choose|m: int| 0 <= m < all.len() && all[m] == rb;
    assert(d.tasks[k].id == d.tasks[a].id);
    assert(d.tasks[m].id == d.tasks[b].id);
    assert(k == a && m == b);
}

/// A filter keeps the order.
pub proof fn lemma_filter_order<A>(s: Seq<A>, f: spec_fn(A) -> bool, i: int, j: int)
    requires
        0 <= i < j < s.filter(f).len(),
    ensures
        exists|k: int, m: int|
            0 <= k < m < s.len() && #[trigger] s[k] == s.filter(f)[i] && #[trigger] s[m]
                == s.filter(f)[j],
    decreases s.len(),
{
    reveal(Seq::filter);
    let t = s.drop_last();
    let g = t.filter(f);
    if j < g.len() {
        lemma_filter_order(t, f, i, j);
        let (k, m) = choose|k: int, m: int|
            0 <= k < m < t.len() && #[trigger] t[k] == g[i] && #[trigger] t[m] == g[j];
        assert(s[k] == s.filter(f)[i] && s[m] == s.filter(f)[j]);
    } else {
        assert(g.contains(g[i]));
        laws::lemma_filter_exact(t, f, g[i]);
        let k = choose|k: int| 0 <= k < t.len() && t[k] == g[i];
        assert(s[k] == s.filter(f)[i] && s[s.len() - 1] == s.filter(f)[j]);
    }
}

proof fn lemma_filter_ranks_distinct(s: Seq<Rank>, f: spec_fn(Rank) -> bool)
    requires
        forall|i: int, j: int| 0 <= i < j < s.len() ==> (#[trigger] s[i]).id != (#[trigger] s[j]).id,
    ensures
        s.filter(f).map_values(|r: Rank| r.id).no_duplicates(),
{
    let t = s.filter(f);
    let ids = t.map_values(|r: Rank| r.id);
    assert forall|i: int, j: int| 0 <= i < ids.len() && 0 <= j < ids.len() && i != j implies ids[i]
        != ids[j] by {
        if i < j {
            lemma_filter_order(s, f, i, j);
        } else {
            lemma_filter_order(s, f, j, i);
        }
    }
}

/// In a forest the tasks under a task come open ones first, then by priority, 0 first, then by age,
/// then by identifier.
pub proof fn law_forest_children_come_in_order(
    list: Seq<TaskView>,
    p: TaskId,
    i: int,
    j: int,
    a: TaskView,
    b: TaskView,
)
    requires
        forest::distinct(list),
        list.contains(a),
        list.contains(b),
        0 <= i < j < forest::kids(list, p).len(),
        a.row.id == forest::kids(list, p)[i],
        b.row.id == forest::kids(list, p)[j],
    ensures
        a.row.parent_id == Some(p),
        b.row.parent_id == Some(p),
        !a.row.completed && b.row.completed || a.row.completed == b.row.completed && row_before(
            a.row,
            b.row,
        ),
{
    let f = |t: TaskView| t.row.parent_id == Some(p);
    let g = |t: TaskView| forest::sibling_rank(t);
    lemma_forest_order(list, f, g, i, j, a, b);
}

/// In a forest the roots come open ones first, then the less deep ones, then by priority, 0 first,
/// then by age, then by identifier.
pub proof fn law_forest_roots_come_in_order(
    list: Seq<TaskView>,
    i: int,
    j: int,
    a: TaskView,
    b: TaskView,
)
    requires
        forest::distinct(list),
        list.contains(a),
        list.contains(b),
        a.depth is Some,
        b.depth is Some,
        0 <= i < j < forest::roots(list).len(),
        a.row.id == forest::roots(list)[i],
        b.row.id == forest::roots(list)[j],
    ensures
        forall|t: TaskView| #[trigger]
            list.contains(t) ==> a.row.parent_id != Some(t.row.id) && b.row.parent_id != Some(
                t.row.id,
            ),
        !a.row.completed && b.row.completed || a.row.completed == b.row.completed && (a.depth->0
            < b.depth->0 || a.depth == b.depth && row_before(a.row, b.row)),
{
    let f = |t: TaskView| !forest::under_another(list, t);
    let g = |t: TaskView| forest::root_rank(t);
    lemma_forest_order(list, f, g, i, j, a, b);
    assert forall|t: TaskView| #[trigger] list.contains(t) implies a.row.parent_id != Some(t.row.id)
        && b.row.parent_id != Some(t.row.id) by {
        let k = choose|k: int| 0 <= k < list.len() && list[k] == t;
        assert(list[k].row.id == t.row.id);
    }
}

proof fn lemma_forest_order(
    list: Seq<TaskView>,
    f: spec_fn(TaskView) -> bool,
    g: spec_fn(TaskView) -> Rank,
    i: int,
    j: int,
    a: TaskView,
    b: TaskView,
)
    requires
        forest::distinct(list),
        list.contains(a),
        list.contains(b),
        forall|t: TaskView| (#[trigger] g(t)).id == t.row.id,
        ({
            let s = order::ranked(list.filter(f).map_values(g));
            &&& 0 <= i < j < s.len()
            &&& a.row.id == s[i]
            &&& b.row.id == s[j]
        }),
    ensures
        f(a) && f(b),
        order::rank_le(g(a), g(b)),
        a.row.id != b.row.id,
{
    let kept = list.filter(f);
    let ranks = kept.map_values(g);
    let s = order::ranked(ranks);
    let ids = ranks.map_values(|r: Rank| r.id);
    assert forall|x: int, y: int| 0 <= x < ids.len() && 0 <= y < ids.len() && x != y implies ids[x]
        != ids[y] by {
        let lo = if x < y {
            x
        } else {
            y
        };
        let hi = if x < y {
            y
        } else {
            x
        };
        lemma_filter_order(list, f, lo, hi);
        let (k, m) = choose|k: int, m: int|
            0 <= k < m < list.len() && #[trigger] list[k] == kept[lo] && #[trigger] list[m]
                == kept[hi];
        assert(list[k].row.id != list[m].row.id);
    }
    let t = ranks.sort_by(order::rank_order());
    order::lemma_rank_order();
    ranks.lemma_sort_by_ensures(order::rank_order());
    order::lemma_ranked(ranks);
    let r = order::rank_order();
    assert(r(t[i], t[j]));
    lemma_from_rank(list, f, g, t[i], a);
    lemma_from_rank(list, f, g, t[j], b);
    assert(s[i] != s[j]);
}

proof fn lemma_from_rank(
    list: Seq<TaskView>,
    f: spec_fn(TaskView) -> bool,
    g: spec_fn(TaskView) -> Rank,
    r: Rank,
    a: TaskView,
)
    requires
        forest::distinct(list),
        list.contains(a),
        forall|t: TaskView| (#[trigger] g(t)).id == t.row.id,
        list.filter(f).map_values(g).sort_by(order::rank_order()).contains(r),
        r.id == a.row.id,
    ensures
        f(a),
        r == g(a),
{
    let kept = list.filter(f);
    let ranks = kept.map_values(g);
    let t = ranks.sort_by(order::rank_order());
    order::lemma_rank_order();
    ranks.lemma_sort_by_ensures(order::rank_order());
    vstd::seq_lib::to_multiset_contains(t, r);
    vstd::seq_lib::to_multiset_contains(ranks, r);
    let k = choose|k: int| 0 <= k < ranks.len() && ranks[k] == r;
    assert(kept.contains(kept[k]));
    laws::lemma_filter_exact(list, f, kept[k]);
    let m = choose|m: int| 0 <= m < list.len() && list[m] == kept[k];
    let n = choose|n: int| 0 <= n < list.len() && list[n] == a;
    assert(list[m].row.id == list[n].row.id);
    assert(m == n);
}

} // verus!
