//! What holds of the operations as a whole.
use vstd::prelude::*;

use crate::db::learning_repo;
use crate::error::Fault;
use crate::id::{LearningId, TaskId};
use crate::keep;
use crate::model;
use crate::model::Db;
use crate::service::rules;
use crate::time::Timestamp;
use crate::types::{
    BlockerRelation, CreateView, FilterView, LearningView, RowView, TaskView, UpdateView,
};

verus! {

/// The row of a completed task.
pub open spec fn completed_row(
    r: RowView,
    result: Option<Seq<char>>,
    sha: Option<Seq<char>>,
    now: Timestamp,
) -> RowView {
    RowView {
        completed: true,
        completed_at: Some(now),
        result,
        commit_sha: sha,
        updated_at: now,
        ..r
    }
}

/// What the state is after a completion: one row is marked, learnings are added, and nothing else
/// changes.
pub proof fn lemma_completed(
    d: Db,
    id: TaskId,
    result: Option<Seq<char>>,
    learnings: Seq<Seq<char>>,
    sha: Option<Seq<char>>,
    ids: Seq<LearningId>,
    now: Timestamp,
)
    requires
        d.wf(),
        d.has(id),
    ensures
        ({
            let e = rules::completed(d, id, result, learnings, sha, ids, now);
            &&& e.wf()
            &&& e.blockers == d.blockers
            &&& e.tasks == d.with_row(id, completed_row(d.row(id), result, sha, now)).tasks
            &&& forall|x: TaskId| #[trigger] e.has(x) == d.has(x)
            &&& e.row(id) == completed_row(d.row(id), result, sha, now)
            &&& forall|x: TaskId| d.has(x) && x != id ==> #[trigger] e.row(x) == d.row(x)
        }),
{
    let e = rules::completed(d, id, result, learnings, sha, ids, now);
    let a = learning_repo::adding_all(d, id, learnings, ids, now);
    learning_repo::lemma_adding_all(d, id, learnings, ids, now);
    keep::lemma_same_tasks(d, a);
    let r = completed_row(d.row(id), result, sha, now);
    model::lemma_row(d, id);
    let b = a.completing(id, result, sha, now);
    assert(b == a.with_row(id, r));
    model::lemma_with_row(a, id, r);
    model::lemma_with_row_same_parent(a, id, r);
    match d.parent(id) {
        Some(p) => {
            model::lemma_depth_child(d, id);
            assert(a.has(p));
            assert(b.has(p));
            learning_repo::lemma_copying(
                b,
                b.learnings_of(id),
                p,
                ids.skip(learnings.len() as int),
                now,
            );
            keep::lemma_same_tasks(b, e);
        },
        None => {},
    }
    assert(a.pos(id) == d.pos(id));
}

/// A request that is refused changes nothing. The one refusal that comes after a task was stored is
/// that of a new task with the same blocker twice.
pub proof fn law_refused_changes_nothing(
    d: Db,
    id: TaskId,
    other: TaskId,
    c: CreateView,
    u: UpdateView,
    result: Option<Seq<char>>,
    learnings: Seq<Seq<char>>,
    sha: Option<Seq<char>>,
    ids: Seq<LearningId>,
    now: Timestamp,
)
    ensures
        c.blocked_by.no_duplicates() && rules::create(d, c, id, now).1 is Err ==> rules::create(
            d,
            c,
            id,
            now,
        ).0 == d,
        rules::update(d, id, u, now).1 is Err ==> rules::update(d, id, u, now).0 == d,
        rules::start(d, id, now).1 is Err ==> rules::start(d, id, now).0 == d,
        rules::complete(d, id, result, learnings, sha, ids, now).1 is Err ==> rules::complete(
            d,
            id,
            result,
            learnings,
            sha,
            ids,
            now,
        ).0 == d,
        rules::reopen(d, id, now).1 is Err ==> rules::reopen(d, id, now).0 == d,
        rules::cancel(d, id, now).1 is Err ==> rules::cancel(d, id, now).0 == d,
        rules::archive(d, id, now).1 is Err ==> rules::archive(d, id, now).0 == d,
        rules::delete(d, id).1 is Err ==> rules::delete(d, id).0 == d,
        rules::add_blocker(d, id, other).1 is Err ==> rules::add_blocker(d, id, other).0 == d,
        rules::remove_blocker(d, id, other).1 is Err ==> rules::remove_blocker(d, id, other).0
            == d,
{
    if c.blocked_by.no_duplicates() {
        lemma_no_repeat(c.blocked_by, 0);
    }
}

proof fn lemma_no_repeat(s: Seq<TaskId>, from: int)
    requires
        s.no_duplicates(),
        0 <= from <= s.len(),
    ensures
        model::first_repeat(s, from) == s.len(),
    decreases s.len() - from,
{
    if from < s.len() {
        lemma_no_repeat(s, from + 1);
    }
}

/// An archived task is frozen: it is neither updated nor reopened, cancelled or archived again, and
/// its blockers stay.
pub proof fn law_archived_is_frozen(
    d: Db,
    id: TaskId,
    other: TaskId,
    u: UpdateView,
    now: Timestamp,
)
    requires
        d.has(id),
        d.row(id).archived,
    ensures
        rules::update(d, id, u, now) == (d, Err::<TaskView, Fault>(Fault::CannotModifyArchived)),
        rules::reopen(d, id, now) == (d, Err::<TaskView, Fault>(Fault::CannotModifyArchived)),
        rules::cancel(d, id, now) == (d, Err::<TaskView, Fault>(Fault::CannotModifyArchived)),
        rules::archive(d, id, now) == (d, Err::<TaskView, Fault>(Fault::AlreadyArchived)),
        rules::add_blocker(d, id, other) == (
            d,
            Err::<TaskView, Fault>(Fault::CannotModifyArchived),
        ),
        rules::remove_blocker(d, id, other) == (
            d,
            Err::<TaskView, Fault>(Fault::CannotModifyArchived),
        ),
{
}

/// No new task comes under a task that is completed, cancelled or archived, and none is moved
/// there.
pub proof fn law_inactive_parents_get_no_children(
    d: Db,
    p: TaskId,
    id: TaskId,
    c: CreateView,
    u: UpdateView,
    now: Timestamp,
)
    requires
        d.has(p),
        !d.row(p).active(),
        c.parent_id == Some(p),
        u.parent_id == Some(p),
    ensures
        rules::create(d, c, id, now).1 is Err,
        rules::update(d, id, u, now).1 is Err,
{
}

/// Deleting a task removes it and everything below it, with the learnings and the edges of these
/// tasks, and leaves all else as it is.
pub proof fn law_delete_removes_the_subtree(
    d: Db,
    id: TaskId,
    x: TaskId,
    b: BlockerRelation,
    l: LearningView,
)
    requires
        d.wf(),
        d.has(id),
    ensures
        ({
            let e = rules::delete(d, id).0;
            &&& e.has(x) <==> d.has(x) && !d.in_subtree(id, x)
            &&& e.has(x) ==> e.row(x) == d.row(x)
            &&& e.blockers.contains(b) <==> d.blockers.contains(b) && !d.in_subtree(id, b.task_id)
                && !d.in_subtree(id, b.blocker_id)
            &&& e.learnings.contains(l) <==> d.learnings.contains(l) && !d.in_subtree(
                id,
                l.task_id,
            )
        }),
{
    keep::lemma_deleting(d, id);
    let f = |e: BlockerRelation|
        !d.in_subtree(id, e.task_id) && !d.in_subtree(id, e.blocker_id);
    let g = |l: LearningView| !d.in_subtree(id, l.task_id);
    lemma_filter_exact(d.blockers, f, b);
    lemma_filter_exact(d.learnings, g, l);
}

/// A filter keeps exactly what has the property.
pub proof fn lemma_filter_exact<A>(s: Seq<A>, f: spec_fn(A) -> bool, x: A)
    ensures
        s.filter(f).contains(x) <==> s.contains(x) && f(x),
{
    if s.filter(f).contains(x) {
        s.lemma_filter_contains_rev(f, x);
        let i = choose|i: int| 0 <= i < s.filter(f).len() && s.filter(f)[i] == x;
        s.lemma_filter_pred(f, i);
    }
    if s.contains(x) && f(x) {
        let i = choose|i: int| 0 <= i < s.len() && s[i] == x;
        s.lemma_filter_contains(f, i);
    }
}

/// Every archived task was completed or cancelled before.
pub open spec fn archived_are_finished(d: Db) -> bool {
    forall|i: int|
        0 <= i < d.tasks.len() && (#[trigger] d.tasks[i]).archived ==> d.tasks[i].finished()
}

proof fn lemma_archived_row(d: Db, id: TaskId, r: RowView)
    requires
        archived_are_finished(d),
        r.archived ==> r.finished(),
    ensures
        archived_are_finished(d.set_row(id, r)),
{
    let e = d.set_row(id, r);
    assert forall|i: int| 0 <= i < e.tasks.len() && (#[trigger] e.tasks[i]).archived implies e.tasks[i].finished() by {
        if d.has(id) {
            model::lemma_row(d, id);
            if i != d.pos(id) {
                assert(e.tasks[i] == d.tasks[i]);
            }
        }
    }
}

/// Whatever is done, archived tasks are tasks that were completed or cancelled.
pub proof fn law_archived_stay_finished(
    d: Db,
    id: TaskId,
    other: TaskId,
    c: CreateView,
    u: UpdateView,
    result: Option<Seq<char>>,
    learnings: Seq<Seq<char>>,
    sha: Option<Seq<char>>,
    ids: Seq<LearningId>,
    now: Timestamp,
)
    requires
        d.wf(),
        archived_are_finished(d),
    ensures
        archived_are_finished(rules::create(d, c, id, now).0),
        archived_are_finished(rules::update(d, id, u, now).0),
        archived_are_finished(rules::start(d, id, now).0),
        archived_are_finished(rules::complete(d, id, result, learnings, sha, ids, now).0),
        archived_are_finished(rules::reopen(d, id, now).0),
        archived_are_finished(rules::cancel(d, id, now).0),
        archived_are_finished(rules::archive(d, id, now).0),
        archived_are_finished(rules::delete(d, id).0),
        archived_are_finished(rules::add_blocker(d, id, other).0),
        archived_are_finished(rules::remove_blocker(d, id, other).0),
{
    if d.has(id) {
        model::lemma_row(d, id);
        let r = d.row(id);
        assert(r == d.tasks[d.pos(id)]);
        lemma_archived_row(d, id, model::updated_row(r, u, now));
        lemma_archived_row(
            d,
            id,
            RowView { started_at: Some(now), updated_at: now, ..r },
        );
        if rules::reopen_fault(d, id) is None {
            lemma_archived_row(
                d,
                id,
                RowView { completed: false, completed_at: None, updated_at: now, ..r },
            );
        }
        lemma_archived_row(
            d,
            id,
            RowView { cancelled: true, cancelled_at: Some(now), updated_at: now, ..r },
        );
        lemma_completed(d, id, result, learnings, sha, ids, now);
        let done = completed_row(r, result, sha, now);
        lemma_archived_row(d, id, done);
        assert(rules::completed(d, id, result, learnings, sha, ids, now).tasks == d.set_row(
            id,
            done,
        ).tasks);
        if rules::archive_fault(d, id) is None {
            let e = rules::archived(d, id, now);
            assert forall|i: int|
                0 <= i < e.tasks.len() && (#[trigger] e.tasks[i]).archived implies e.tasks[i].finished() by {
                let q = d.tasks[i];
                model::lemma_pos(d, i);
                if rules::archive_marks(d, id, q) && q.id != id {
                    assert(d.ancestor(id, q.id));
                    assert(rules::over(d.row(q.id)));
                }
            }
        }
        let e = d.deleting(id);
        let f = |r: RowView| !d.in_subtree(id, r.id);
        assert forall|i: int|
            0 <= i < e.tasks.len() && (#[trigger] e.tasks[i]).archived implies e.tasks[i].finished() by {
            assert(e.tasks.contains(e.tasks[i]));
            d.tasks.lemma_filter_contains_rev(f, e.tasks[i]);
            let j = choose|j: int| 0 <= j < d.tasks.len() && d.tasks[j] == e.tasks[i];
            assert(d.tasks[j].archived);
        }
    }
    let n = model::first_repeat(c.blocked_by, 0);
    let e = d.creating(c, id, now, n);
    assert forall|i: int| 0 <= i < e.tasks.len() && (#[trigger] e.tasks[i]).archived implies e.tasks[i].finished() by {
        if i < d.tasks.len() {
            assert(e.tasks[i] == d.tasks[i]);
        }
    }
}

/// A task that is completed and reopened is active again, as it was but for the time of the change,
/// the result and the commit; what was learned stays.
pub proof fn law_reopening_undoes_completion(
    d: Db,
    id: TaskId,
    result: Option<Seq<char>>,
    learnings: Seq<Seq<char>>,
    sha: Option<Seq<char>>,
    ids: Seq<LearningId>,
    now: Timestamp,
    later: Timestamp,
    x: TaskId,
)
    requires
        d.wf(),
        d.has(id),
        d.row(id).active(),
        !d.has_pending_children(id),
    ensures
        ({
            let e = rules::complete(d, id, result, learnings, sha, ids, now).0;
            let r = rules::reopen(e, id, later);
            &&& r.1 is Ok
            &&& r.0.row(id).active()
            &&& r.0.row(id) == (RowView {
                result,
                commit_sha: sha,
                completed_at: None,
                updated_at: later,
                ..d.row(id)
            })
            &&& d.has(x) && x != id ==> r.0.row(x) == d.row(x)
            &&& r.0.blockers == d.blockers
            &&& r.0.learnings == e.learnings
        }),
{
    lemma_completed(d, id, result, learnings, sha, ids, now);
    let e = rules::completed(d, id, result, learnings, sha, ids, now);
    let r = RowView { completed: false, completed_at: None, updated_at: later, ..e.row(id) };
    model::lemma_row(e, id);
    model::lemma_with_row(e, id, r);
    assert(e.has(x) == d.has(x));
}

/// A listing shows exactly the stored tasks that its filter lets through, each once.
pub proof fn law_listing_is_exact(d: Db, f: FilterView, x: TaskId)
    requires
        d.wf(),
    ensures
        rules::list_ids(d, f).contains(x) <==> d.has(x) && d.shown(f, x) && (f.ready ==> rules::ready(
            d,
            x,
        )),
        rules::list_ids(d, f).no_duplicates(),
        rules::list(d, f).len() == rules::list_ids(d, f).len(),
{
    let g = |x: TaskId| f.ready ==> rules::ready(d, x);
    model::lemma_listed(d, f);
    lemma_filter_exact(d.listed(f), g, x);
    keep::lemma_filter_distinct(d.listed(f), g);
}

} // verus!
