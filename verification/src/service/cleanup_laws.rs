//! What a completion does with the branches of tasks, by the rows.
use vstd::prelude::*;

use crate::error::Fault;
use crate::id::{LearningId, TaskId};
use crate::model;
use crate::model::Db;
use crate::service::start_laws;
use crate::service::workflow_laws;
use crate::service::workflow_service;
use crate::service::workflow_service::{
    ActionView, CompletePhaseView, CompletionView, NextView, ReplyView, RunView, StepView,
};
use crate::table_laws;
use crate::time::Timestamp;
use crate::types::RowView;
use crate::vcs::backend::VcsFault;

verus! {

/// A step that asks the repository for something in a completion, without a warning.
pub open spec fn asks(s: StepView, action: ActionView, c: CompletionView, p: CompletePhaseView) -> bool {
    &&& s.warning is None
    &&& s.next == (NextView::Do {
        action,
        run: RunView::Complete(CompletionView { phase: p, ..c }),
    })
}

/// A completion ends with an error where the commit fails, other than for want of changes, where the
/// merge fails, and where the base branch cannot be moved forward; nothing is stored by then.
pub proof fn law_merge_comes_before_the_record(
    d: Db,
    git: bool,
    c: CompletionView,
    r: RowView,
    milestone: bool,
    source: Seq<char>,
    base: Seq<char>,
    fault: VcsFault,
    ids: Seq<LearningId>,
    now: Timestamp,
)
    requires
        d.wf(),
        d.tasks.contains(r),
    ensures
        ({
            let commit = CompletionView {
                phase: CompletePhaseView::Commit { id: r.id, milestone },
                ..c
            };
            let merge = CompletionView {
                phase: CompletePhaseView::Merge { id: r.id, milestone, source, base },
                ..c
            };
            let failed = workflow_service::resume_complete(
                d,
                git,
                commit,
                ReplyView::Done(Err(fault)),
                ids,
                now,
            );
            let broken = workflow_service::resume_complete(
                d,
                git,
                merge,
                ReplyView::Merged(Err(fault)),
                ids,
                now,
            );
            let apart = workflow_service::resume_complete(
                d,
                git,
                merge,
                ReplyView::Merged(Ok(false)),
                ids,
                now,
            );
            let merged = workflow_service::resume_complete(
                d,
                git,
                merge,
                ReplyView::Merged(Ok(true)),
                ids,
                now,
            );
            &&& !(fault is NothingToCommit) ==> start_laws::ends_with(d, failed, fault)
            &&& start_laws::ends_with(d, broken, fault)
            &&& apart.0 == d && apart.1.next == NextView::Over(
                Err(
                    Fault::TaskIntegrationRequired {
                        task_id: r.id,
                        source_ref: source,
                        base_ref: base,
                    },
                ),
            )
            &&& merged.0 == d && asks(
                merged.1,
                ActionView::WorkingCommitId,
                c,
                CompletePhaseView::Sha { id: r.id, milestone },
            )
        }),
{
    table_laws::law_rows(d, r.id);
    assert(table_laws::row_of(d, r.id, r));
}

/// After the record of a completion the current commit is asked for exactly where there may be a
/// branch to leave: for a milestone, and for a task with a bookmark.
pub proof fn law_when_branches_are_cleaned_up(
    d: Db,
    git: bool,
    c: CompletionView,
    r: RowView,
    milestone: bool,
    sha: Option<Seq<char>>,
    ids: Seq<LearningId>,
    now: Timestamp,
)
    requires
        d.wf(),
        d.tasks.contains(r),
        c.phase == (CompletePhaseView::Sha { id: r.id, milestone }),
    ensures
        ({
            let (e, s) = workflow_service::resume_complete(
                d,
                git,
                c,
                ReplyView::MaybeId(sha),
                ids,
                now,
            );
            let cleans = s.next matches NextView::Do { action, run: RunView::Complete(n) } && action
                == ActionView::CurrentCommitId && n.phase == (CompletePhaseView::Head {
                id: r.id,
                milestone,
            });
            !(s.next is Over) ==> (cleans <==> milestone || r.bookmark is Some)
        }),
{
    table_laws::law_rows(d, r.id);
    assert(table_laws::row_of(d, r.id, r));
}

/// The branch of a completed task is left for the current commit; where that is not known, for the
/// commit at which the task was started; else, for a milestone, for one at which a task below it was
/// started, the first of those. Where none is known, nothing is deleted, and a warning says so.
pub proof fn law_where_a_completion_ends_up(
    d: Db,
    git: bool,
    c: CompletionView,
    r: RowView,
    milestone: bool,
    head: Result<Seq<char>, VcsFault>,
    ids: Seq<LearningId>,
    now: Timestamp,
)
    requires
        d.wf(),
        d.tasks.contains(r),
        c.answer is Some,
        c.phase == (CompletePhaseView::Head { id: r.id, milestone }),
    ensures
        ({
            let (e, s) = workflow_service::resume_complete(
                d,
                git,
                c,
                ReplyView::Id(head),
                ids,
                now,
            );
            let goes = |t: Seq<char>|
                asks(
                    s,
                    ActionView::Checkout { target: t },
                    c,
                    CompletePhaseView::Leave { id: r.id, milestone, target: t },
                );
            &&& e == d
            &&& head is Ok ==> goes(head->Ok_0)
            &&& head is Err && r.start_commit is Some ==> goes(r.start_commit->0)
            &&& head is Err && r.start_commit is None && milestone && started_below(d, r.id)
                ==> exists|q: RowView|
                {
                    &&& #[trigger] below(d, r.id, q) && q.start_commit is Some
                    &&& first_started(d, r.id, q)
                    &&& goes(q.start_commit->0)
                }
            &&& head is Err && r.start_commit is None && milestone && !started_below(d, r.id) ==> {
                &&& s.next == NextView::Over(Ok(c.answer->0))
                &&& s.warning == Some(
                    "warn: no checkout target available - skipping milestone branch cleanup"@,
                )
            }
            &&& head is Err && r.start_commit is None && !milestone && r.bookmark is Some
                ==> s.warning == Some(
                "warn: no checkout target available - skipping branch cleanup for "@
                    + r.bookmark->0,
            )
        }),
{
    table_laws::law_rows(d, r.id);
    assert(table_laws::row_of(d, r.id, r));
    let ds = d.descendants(r.id);
    lemma_first_start_commit(d, ds);
    if started_below(d, r.id) {
        let q = choose|q: RowView| #[trigger] below(d, r.id, q) && q.start_commit is Some;
        lemma_row_below(d, r.id, q);
        let n = choose|n: int| 0 <= n < ds.len() && ds[n] == q.id;
        assert(d.row(ds[n]).start_commit is Some);
    }
    match workflow_service::first_start_commit(d, ds) {
        Some(t) => {
            let n = choose|n: int| #[trigger]
                first_at(d, ds, n) && d.row(ds[n]).start_commit == Some(t);
            let x = ds[n];
            assert(ds.contains(x));
            model::lemma_descendants(d, r.id, x);
            model::lemma_row(d, x);
            table_laws::law_hierarchy(d, r.id, x);
            let q = d.row(x);
            lemma_not_above_itself(d, r.id, x);
            assert(below(d, r.id, q));
            assert(first_started(d, r.id, q));
        },
        None => {},
    }
}

/// Whether a row is that of a task below another.
pub open spec fn below(d: Db, id: TaskId, q: RowView) -> bool {
    d.tasks.contains(q) && q.id != id && table_laws::at_or_above(d, id, q.id)
}

/// Whether a task below another has a start commit.
pub open spec fn started_below(d: Db, id: TaskId) -> bool {
    exists|q: RowView| #[trigger] below(d, id, q) && q.start_commit is Some
}

proof fn lemma_row_below(d: Db, id: TaskId, q: RowView)
    requires
        d.wf(),
        below(d, id, q),
    ensures
        d.descendants(id).contains(q.id),
        d.row(q.id) == q,
{
    table_laws::law_rows(d, q.id);
    assert(table_laws::row_of(d, q.id, q));
    table_laws::law_hierarchy(d, id, q.id);
    model::lemma_descendants(d, id, q.id);
}

proof fn lemma_not_above_itself(d: Db, a: TaskId, x: TaskId)
    requires
        d.wf(),
        d.has(x),
        d.ancestor(a, x),
    ensures
        a != x,
        d.tasks.contains(d.row(x)),
        d.row(x).id == x,
{
    model::lemma_row(d, x);
    model::lemma_ancestor(d, a, x);
    model::lemma_depth_child(d, x);
    if d.up(x, 1) != Some(a) {
        let p = d.parent(x)->0;
        assert(d.up(x, 0) == Some(x));
        model::lemma_up_from_parent(d, x, 1);
        assert(d.up(p, 0) == Some(p));
        model::lemma_depth_child(d, p);
    }
}

/// Whether a task is the first of these that has a start commit.
pub open spec fn first_at(d: Db, ids: Seq<TaskId>, n: int) -> bool {
    &&& 0 <= n < ids.len() && d.row(ids[n]).start_commit is Some
    &&& forall|j: int| 0 <= j < n ==> d.row(#[trigger] ids[j]).start_commit is None
}

/// Whether a row is that of the first of the tasks below another that has a start commit.
pub open spec fn first_started(d: Db, id: TaskId, q: RowView) -> bool {
    exists|n: int| #[trigger] first_at(d, d.descendants(id), n) && d.descendants(id)[n] == q.id
}

proof fn lemma_first_start_commit(d: Db, ids: Seq<TaskId>)
    ensures
        match workflow_service::first_start_commit(d, ids) {
            Some(t) => exists|n: int| #[trigger]
                first_at(d, ids, n) && d.row(ids[n]).start_commit == Some(t),
            None => forall|n: int|
                0 <= n < ids.len() ==> d.row(#[trigger] ids[n]).start_commit is None,
        },
    decreases ids.len(),
{
    if ids.len() > 0 {
        let rest = ids.drop_last();
        lemma_first_start_commit(d, rest);
        match workflow_service::first_start_commit(d, rest) {
            Some(t) => {
                let n = choose|n: int| #[trigger]
                    first_at(d, rest, n) && d.row(rest[n]).start_commit == Some(t);
                assert forall|j: int| 0 <= j < n implies d.row(
                    #[trigger] ids[j],
                ).start_commit is None by {
                    assert(ids[j] == rest[j]);
                }
                assert(ids[n] == rest[n]);
                assert(first_at(d, ids, n));
            },
            None => {
                let last = ids.len() - 1;
                assert forall|n: int| 0 <= n < last implies d.row(
                    #[trigger] ids[n],
                ).start_commit is None by {
                    assert(ids[n] == rest[n]);
                }
                assert(ids[last] == ids.last());
                if d.row(ids[last]).start_commit is Some {
                    assert(first_at(d, ids, last));
                }
            },
        }
    }
}

/// The bookmarks that a completion deletes once the branch is left: the task's own, and for a
/// milestone those of all tasks below it too, each with the task that it belongs to, and no others.
pub proof fn law_bookmarks_to_delete(
    d: Db,
    git: bool,
    c: CompletionView,
    r: RowView,
    milestone: bool,
    target: Seq<char>,
    ids: Seq<LearningId>,
    now: Timestamp,
    q: RowView,
    b: Seq<char>,
)
    requires
        d.wf(),
        d.tasks.contains(r),
        d.tasks.contains(q),
        c.answer is Some,
        c.phase == (CompletePhaseView::Leave { id: r.id, milestone, target }),
    ensures
        ({
            let (e, s) = workflow_service::resume_complete(
                d,
                git,
                c,
                ReplyView::Done(Ok(())),
                ids,
                now,
            );
            let due = q.bookmark == Some(b) && (q.id == r.id || milestone
                && table_laws::at_or_above(d, r.id, q.id));
            &&& e == d && s.warning is None
            &&& (s.next matches NextView::Do { action, run: RunView::Complete(n) } && n.phase
                is Delete) ==> (s.next matches NextView::Do { action, run: RunView::Complete(n) } && (
            n.phase matches CompletePhaseView::Delete { id, milestone: m, queue } && {
                &&& id == r.id && m == milestone
                &&& queue.contains((q.id, b)) <==> due
                &&& queue.len() > 0 && action == (ActionView::DeleteBookmark { name: queue[0].1 })
            }))
            &&& due ==> (s.next matches NextView::Do { action, run: RunView::Complete(n) } && n.phase
                is Delete)
        }),
{
    table_laws::law_rows(d, r.id);
    table_laws::law_rows(d, q.id);
    assert(table_laws::row_of(d, r.id, r));
    assert(table_laws::row_of(d, q.id, q));
    table_laws::law_hierarchy(d, r.id, q.id);
    if milestone {
        let all = d.descendants(r.id).push(r.id);
        lemma_bookmarked_only(d, all, q.id, b);
        if all.contains(q.id) && q.id != r.id {
            let i = choose|i: int| 0 <= i < all.len() && all[i] == q.id;
            assert(d.descendants(r.id)[i] == q.id);
            model::lemma_descendants(d, r.id, q.id);
        }
        if q.bookmark is Some {
            workflow_laws::law_cleanup_covers_all_bookmarks(d, r.id, q.id);
        }
    } else {
        lemma_bookmarked_only(d, seq![r.id], q.id, b);
        if r.bookmark is Some {
            workflow_laws::law_cleanup_covers_all_bookmarks(d, r.id, r.id);
            let queue = workflow_service::cleanup_queue(d, r.id, false);
            assert(queue[0] == (r.id, r.bookmark->0));
        }
    }
}

proof fn lemma_bookmarked_only(d: Db, ids: Seq<TaskId>, x: TaskId, b: Seq<char>)
    ensures
        workflow_service::bookmarked(d, ids).contains((x, b)) ==> ids.contains(x) && d.row(
            x,
        ).bookmark == Some(b),
    decreases ids.len(),
{
    let all = workflow_service::bookmarked(d, ids);
    if ids.len() > 0 && all.contains((x, b)) {
        let rest = workflow_service::bookmarked(d, ids.drop_last());
        let j = choose|j: int| 0 <= j < all.len() && all[j] == (x, b);
        lemma_bookmarked_only(d, ids.drop_last(), x, b);
        if j < rest.len() {
            assert(rest[j] == (x, b));
            let i = choose|i: int| 0 <= i < ids.len() - 1 && ids.drop_last()[i] == x;
            assert(ids[i] == x);
        } else {
            assert(ids[ids.len() - 1] == x);
        }
    }
}

/// A bookmark that is deleted is forgotten by the row of its task, and by no other; one that is not
/// stays, with a warning that names it and says why. Either way the next bookmark follows, and after
/// the last one a milestone is done.
pub proof fn law_each_bookmark_is_tried(
    d: Db,
    git: bool,
    c: CompletionView,
    r: RowView,
    milestone: bool,
    queue: Seq<(TaskId, Seq<char>)>,
    done: Result<(), VcsFault>,
    ids: Seq<LearningId>,
    now: Timestamp,
    i: int,
)
    requires
        d.wf(),
        d.tasks.contains(r),
        c.answer is Some,
        c.phase == (CompletePhaseView::Delete { id: r.id, milestone, queue }),
        queue.len() > 0,
        d.has(queue[0].0),
        0 <= i < d.tasks.len(),
    ensures
        ({
            let (e, s) = workflow_service::resume_complete(
                d,
                git,
                c,
                ReplyView::Done(done),
                ids,
                now,
            );
            let q = d.tasks[i];
            &&& e.tasks.len() == d.tasks.len() && e.blockers == d.blockers && e.learnings
                == d.learnings
            &&& done is Ok && q.id == queue[0].0 ==> e.tasks[i] == RowView {
                bookmark: None,
                updated_at: now,
                ..q
            }
            &&& done is Err || q.id != queue[0].0 ==> e.tasks[i] == q
            &&& done is Ok ==> s.warning is None
            &&& done matches Err(f) ==> s.warning == Some(
                (if milestone && queue[0].0 == r.id {
                    "warn: failed to delete milestone bookmark "@
                } else {
                    "warn: failed to delete bookmark "@
                }) + queue[0].1 + ": "@ + f.message(),
            )
            &&& queue.len() > 1 ==> s.next == (NextView::Do {
                action: ActionView::DeleteBookmark { name: queue[1].1 },
                run: RunView::Complete(
                    CompletionView {
                        phase: CompletePhaseView::Delete {
                            id: r.id,
                            milestone,
                            queue: queue.skip(1),
                        },
                        ..c
                    },
                ),
            })
            &&& queue.len() == 1 && milestone ==> s.next == NextView::Over(Ok(c.answer->0))
        }),
{
    table_laws::law_rows(d, r.id);
    assert(table_laws::row_of(d, r.id, r));
    model::lemma_pos(d, i);
    assert(queue.drop_first() =~= queue.skip(1));
}

/// Where the branch of a completed task cannot be left, no bookmark is deleted; a warning names the
/// commit and says why.
pub proof fn law_failed_checkout_deletes_nothing(
    d: Db,
    git: bool,
    c: CompletionView,
    r: RowView,
    milestone: bool,
    target: Seq<char>,
    f: VcsFault,
    ids: Seq<LearningId>,
    now: Timestamp,
)
    requires
        d.wf(),
        d.tasks.contains(r),
        c.answer is Some,
        c.phase == (CompletePhaseView::Leave { id: r.id, milestone, target }),
    ensures
        ({
            let (e, s) = workflow_service::resume_complete(
                d,
                git,
                c,
                ReplyView::Done(Err(f)),
                ids,
                now,
            );
            &&& e == d
            &&& s.warning == Some(
                "warn: failed to checkout "@ + target + ": "@ + f.message()
                    + " - skipping branch cleanup"@,
            )
            &&& milestone ==> s.next == NextView::Over(Ok(c.answer->0))
            &&& s.next matches NextView::Do { action, run } ==> !(action is DeleteBookmark)
        }),
{
    table_laws::law_rows(d, r.id);
    assert(table_laws::row_of(d, r.id, r));
}

} // verus!
