//! What completing a task does above it, by the rows and the edges.
use vstd::prelude::*;

use crate::error::Fault;
use crate::id::{LearningId, TaskId};
use crate::model;
use crate::model::Db;
use crate::service::rules;
use crate::service::workflow_service;
use crate::service::workflow_service::{
    ActionView, CompletePhaseView, CompletionView, NextView, ReplyView, RunView, StepView,
};
use crate::table_laws;
use crate::time::Timestamp;
use crate::types::RowView;
use crate::vcs::backend::VcsFault;

verus! {

/// Whether the rows and the edges let a task be completed after one below it: every child is
/// completed or cancelled, and every blocker of it and of the tasks above it is completed and not
/// cancelled.
pub open spec fn nothing_left(d: Db, p: TaskId) -> bool {
    &&& forall|r: RowView| #[trigger]
        d.tasks.contains(r) && r.parent_id == Some(p) ==> r.completed || r.cancelled
    &&& forall|a: TaskId, b: TaskId| #[trigger]
        table_laws::at_or_above(d, a, p) && #[trigger] table_laws::edge(d, a, b) ==> exists|
            r: RowView,
        | #[trigger]
            d.tasks.contains(r) && r.id == b && r.completed && !r.cancelled
}

/// The step that completes a task above the requested one: a milestone is committed under its
/// description and without a result; another task is recorded at the commit of the working copy.
/// The result and the learnings of the request stay with the request.
pub open spec fn goes_on_to(s: StepView, p: RowView, c: CompletionView) -> bool {
    match s.next {
        NextView::Do { action, run: RunView::Complete(n) } => {
            &&& n.answer == c.answer && n.result == c.result && n.learnings == c.learnings
            &&& match p.parent_id {
                None => {
                    &&& n.phase == (CompletePhaseView::Commit { id: p.id, milestone: true })
                    &&& action == ActionView::Commit {
                        message: "Milestone: "@ + p.description + "\n\n"@,
                    }
                },
                Some(_) => {
                    &&& n.phase == (CompletePhaseView::ParentSha { id: p.id })
                    &&& action == ActionView::WorkingCommitId
                },
            }
        },
        _ => false,
    }
}

proof fn lemma_settled(d: Db, p: TaskId)
    requires
        d.wf(),
    ensures
        workflow_service::settled(d, p) <==> nothing_left(d, p),
{
    table_laws::law_pending_children(d, p);
    table_laws::law_what_holds_a_task_up(d, p);
}

/// After the cleanup a completion goes on to the parent where the parent is active and the rows and
/// the edges let it: each child is completed or cancelled, and each blocker of the parent and of the
/// tasks above it is completed and not cancelled.
pub proof fn law_completion_goes_on_to_the_parent(
    d: Db,
    id: TaskId,
    p: RowView,
    c: CompletionView,
    warning: Option<Seq<char>>,
)
    requires
        d.wf(),
        c.answer is Some,
        table_laws::child_of(d, id, p.id),
        d.tasks.contains(p),
        !p.completed,
        !p.cancelled,
        !p.archived,
        nothing_left(d, p.id),
    ensures
        ({
            let s = workflow_service::after_cleanup(d, id, false, c, warning);
            &&& goes_on_to(s, p, c)
            &&& s.warning == warning
        }),
        goes_on_to(workflow_service::bubble_up(d, id, c), p, c),
{
    lemma_settled(d, p.id);
    table_laws::law_hierarchy(d, p.id, id);
    table_laws::law_rows(d, p.id);
    assert(table_laws::row_of(d, p.id, p));
    assert(d.row(p.id) == p);
    assert(d.up(p.id, 0) == Some(p.id));
    assert(d.up(p.id, 1) == d.parent(p.id));
    assert("Milestone: "@ + p.description + "\n\n"@ + Seq::<char>::empty() =~= "Milestone: "@
        + p.description + "\n\n"@);
}

/// A completion that is over with an answer left no parent behind: where the task that was recorded
/// last has a parent that is neither cancelled nor a milestone that is finished, a child of the
/// parent is open or a blocker of it or above it is not done.
pub proof fn law_no_parent_is_left_behind(
    d: Db,
    git: bool,
    c: CompletionView,
    reply: ReplyView,
    ids: Seq<LearningId>,
    now: Timestamp,
    id: TaskId,
    p: RowView,
)
    requires
        d.wf(),
        workflow_service::fits(RunView::Complete(c), reply),
        ({
            let e = workflow_service::resume_complete(d, git, c, reply, ids, now).0;
            &&& e.wf()
            &&& table_laws::child_of(e, id, p.id)
            &&& e.tasks.contains(p)
        }),
        match c.phase {
            CompletePhaseView::Commit { id: x, milestone } => x == id && !milestone,
            CompletePhaseView::Merge { id: x, milestone, source, base } => x == id && !milestone,
            CompletePhaseView::Sha { id: x, milestone } => x == id && !milestone,
            CompletePhaseView::Head { id: x, milestone } => x == id && !milestone,
            CompletePhaseView::Leave { id: x, milestone, target } => x == id && !milestone,
            CompletePhaseView::Delete { id: x, milestone, queue } => x == id && !milestone,
            CompletePhaseView::ParentSha { id: x } => x == id,
        },
        workflow_service::resume_complete(d, git, c, reply, ids, now).1.next matches NextView::Over(
            Ok(_),
        ),
    ensures
        ({
            let e = workflow_service::resume_complete(d, git, c, reply, ids, now).0;
            ||| p.cancelled
            ||| p.parent_id is None && p.completed
            ||| !nothing_left(e, p.id)
        }),
{
    let (e, s) = workflow_service::resume_complete(d, git, c, reply, ids, now);
    lemma_settled(e, p.id);
    table_laws::law_hierarchy(e, p.id, id);
    table_laws::law_rows(e, p.id);
    assert(table_laws::row_of(e, p.id, p));
    assert(e.row(p.id) == p);
    assert(e.up(p.id, 0) == Some(p.id));
    assert(e.up(p.id, 1) == e.parent(p.id));
}

/// What a completion comes to at a parent that is not active, or not to be completed yet: where
/// something is left below it or holds it up, the request is answered. Else an archived or a
/// cancelled milestone is an error, and a completed one ends it with the answer; of other tasks, a
/// cancelled one ends it with the answer, and one that is completed is recorded again.
pub proof fn law_completion_at_other_parents(
    d: Db,
    id: TaskId,
    p: RowView,
    c: CompletionView,
    warning: Option<Seq<char>>,
)
    requires
        d.wf(),
        c.answer is Some,
        table_laws::child_of(d, id, p.id),
        d.tasks.contains(p),
    ensures
        ({
            let s = workflow_service::after_cleanup(d, id, false, c, warning);
            let top = p.parent_id is None;
            let free = nothing_left(d, p.id);
            &&& s.warning == warning
            &&& !free ==> s.next == NextView::Over(Ok(c.answer->0))
            &&& free && top && p.archived ==> s.next == NextView::Over(
                Err(Fault::CannotCompleteArchived),
            )
            &&& free && top && !p.archived && p.cancelled ==> s.next == NextView::Over(
                Err(Fault::CannotCompleteCancelled),
            )
            &&& free && top && !p.archived && !p.cancelled && p.completed ==> s.next
                == NextView::Over(Ok(c.answer->0))
            &&& free && !top && p.cancelled ==> s.next == NextView::Over(Ok(c.answer->0))
            &&& free && !top && !p.cancelled ==> goes_on_to(s, p, c)
        }),
{
    lemma_settled(d, p.id);
    table_laws::law_hierarchy(d, p.id, id);
    table_laws::law_rows(d, p.id);
    assert(table_laws::row_of(d, p.id, p));
    assert(d.row(p.id) == p);
    assert(d.up(p.id, 0) == Some(p.id));
    assert(d.up(p.id, 1) == d.parent(p.id));
}

/// After a milestone nothing is left to complete: the request is answered.
pub proof fn law_completion_ends_at_the_milestone(
    d: Db,
    r: RowView,
    c: CompletionView,
    milestone: bool,
    warning: Option<Seq<char>>,
)
    requires
        d.wf(),
        c.answer is Some,
        d.tasks.contains(r),
        r.parent_id is None,
    ensures
        workflow_service::after_cleanup(d, r.id, milestone, c, warning) == (StepView {
            warning,
            next: NextView::Over(Ok(c.answer->0)),
        }),
{
    table_laws::law_rows(d, r.id);
    assert(table_laws::row_of(d, r.id, r));
}

/// A completion goes on only where the rows and the edges let it, and never past the parent.
pub proof fn law_completion_goes_on_only_to_the_parent(
    d: Db,
    id: TaskId,
    c: CompletionView,
    warning: Option<Seq<char>>,
)
    requires
        d.wf(),
        c.answer is Some,
    ensures
        match workflow_service::after_cleanup(d, id, false, c, warning).next {
            NextView::Do { action, run } => exists|p: RowView| #[trigger]
                d.tasks.contains(p) && table_laws::child_of(d, id, p.id) && nothing_left(d, p.id)
                    && !p.cancelled && (p.parent_id is None ==> !p.completed && !p.archived)
                    && goes_on_to(workflow_service::after_cleanup(d, id, false, c, warning), p, c),
            NextView::Over(_) => true,
        },
{
    if d.parent(id) is Some {
        let p = d.parent(id)->0;
        lemma_settled(d, p);
        table_laws::law_hierarchy(d, p, id);
        table_laws::law_rows(d, p);
        assert(table_laws::row_of(d, p, d.row(p)));
        assert(d.tasks.contains(d.row(p)));
        assert(d.up(p, 0) == Some(p));
        assert(d.up(p, 1) == d.parent(p));
        let desc = d.row(p).description;
        assert("Milestone: "@ + desc + "\n\n"@ + Seq::<char>::empty() =~= "Milestone: "@ + desc
            + "\n\n"@);
    }
}

/// A completion begins with a commit whose message names the task and holds the result; a task that
/// is archived or cancelled is refused, in this order, and one that is completed is answered.
pub proof fn law_completion_begins_with_the_commit(
    d: Db,
    r: RowView,
    result: Option<Seq<char>>,
    learnings: Seq<Seq<char>>,
)
    requires
        d.wf(),
        d.tasks.contains(r),
    ensures
        ({
            let s = workflow_service::begin_complete(d, r.id, result, learnings);
            let said = match result {
                Some(t) => t,
                None => Seq::<char>::empty(),
            };
            &&& s.warning is None
            &&& r.archived ==> s.next == NextView::Over(Err(Fault::CannotCompleteArchived))
            &&& !r.archived && r.cancelled ==> s.next == NextView::Over(
                Err(Fault::CannotCompleteCancelled),
            )
            &&& !r.archived && !r.cancelled && r.completed ==> (s.next matches NextView::Over(
                Ok(t),
            ) && t.row == r)
            &&& !r.archived && !r.cancelled && !r.completed ==> (s.next matches NextView::Do {
                action,
                run: RunView::Complete(c),
            } && {
                &&& c.result == result && c.learnings == learnings && c.answer is None
                &&& c.phase == (CompletePhaseView::Commit {
                    id: r.id,
                    milestone: r.parent_id is None,
                })
                &&& r.parent_id is None ==> action == (ActionView::Commit {
                    message: "Milestone: "@ + r.description + "\n\n"@ + said,
                })
                &&& r.parent_id is Some ==> action == (ActionView::Commit {
                    message: "Complete: "@ + r.description + "\n\n"@ + said,
                })
            })
        }),
{
    table_laws::law_rows(d, r.id);
    assert(table_laws::row_of(d, r.id, r));
    assert(d.up(r.id, 0) == Some(r.id));
    assert(d.up(r.id, 1) == d.parent(r.id));
}

/// A task that is not stored is not completed.
pub proof fn law_unknown_tasks_are_not_completed(
    d: Db,
    id: TaskId,
    result: Option<Seq<char>>,
    learnings: Seq<Seq<char>>,
)
    requires
        forall|r: RowView| #[trigger] d.tasks.contains(r) ==> r.id != id,
    ensures
        workflow_service::begin_complete(d, id, result, learnings).next == NextView::Over(
            Err(Fault::TaskNotFound(id)),
        ),
{
    if d.has(id) {
        model::lemma_row(d, id);
        assert(d.tasks.contains(d.tasks[d.pos(id)]));
    }
}

/// The steps of a completion follow each other: after the commit, made or not needed, comes the
/// merge of the task's bookmark into its base branch in a git repository, then the commit of the
/// working copy is asked for, and only then the task is recorded.
pub proof fn law_order_of_a_completion(
    d: Db,
    git: bool,
    c: CompletionView,
    r: RowView,
    milestone: bool,
    ids: Seq<LearningId>,
    now: Timestamp,
    done: Result<(), VcsFault>,
)
    requires
        d.wf(),
        d.tasks.contains(r),
        c.phase == (CompletePhaseView::Commit { id: r.id, milestone }),
        done is Ok || done == Err::<(), VcsFault>(VcsFault::NothingToCommit),
    ensures
        ({
            let (e, s) = workflow_service::resume_complete(
                d,
                git,
                c,
                ReplyView::Done(done),
                ids,
                now,
            );
            &&& e == d && s.warning is None
            &&& git && r.bookmark is Some && r.base_ref is None ==> s.next == NextView::Over(
                Err(Fault::MissingBaseRef { task_id: r.id }),
            )
            &&& git && r.bookmark is Some && r.base_ref is Some ==> s.next == (NextView::Do {
                action: ActionView::MergeFastForward {
                    source: r.bookmark->0,
                    target: r.base_ref->0,
                },
                run: RunView::Complete(
                    CompletionView {
                        phase: CompletePhaseView::Merge {
                            id: r.id,
                            milestone,
                            source: r.bookmark->0,
                            base: r.base_ref->0,
                        },
                        ..c
                    },
                ),
            })
            &&& !git || r.bookmark is None ==> s.next == (NextView::Do {
                action: ActionView::WorkingCommitId,
                run: RunView::Complete(
                    CompletionView {
                        phase: CompletePhaseView::Sha { id: r.id, milestone },
                        ..c
                    },
                ),
            })
        }),
{
    table_laws::law_rows(d, r.id);
    assert(table_laws::row_of(d, r.id, r));
}

/// A step of a completion that records a task stores what the request says for the requested task,
/// and neither a result nor learnings for the tasks above it.
pub proof fn law_what_a_completion_records(
    d: Db,
    git: bool,
    c: CompletionView,
    sha: Option<Seq<char>>,
    ids: Seq<LearningId>,
    now: Timestamp,
    id: TaskId,
)
    requires
        d.has(id),
        c.phase == (CompletePhaseView::ParentSha { id }) || exists|milestone: bool|
            c.phase == (CompletePhaseView::Sha { id, milestone }),
        c.phase is ParentSha ==> c.answer is Some,
    ensures
        ({
            let (e, s) = workflow_service::resume_complete(
                d,
                git,
                c,
                ReplyView::MaybeId(sha),
                ids,
                now,
            );
            &&& c.answer is None ==> e == rules::complete(
                d,
                id,
                c.result,
                c.learnings,
                sha,
                ids,
                now,
            ).0
            &&& c.answer is Some ==> e == rules::complete(
                d,
                id,
                None,
                Seq::empty(),
                sha,
                ids,
                now,
            ).0
        }),
{
}

} // verus!
