//! What holds of starting and completing tasks in a repository.
use vstd::prelude::*;

use crate::db::learning_repo;
use crate::error::Fault;
use crate::id::{LearningId, TaskId};
use crate::model;
use crate::model::Db;
use crate::service::laws;
use crate::service::learning_laws;
use crate::service::readiness;
use crate::service::ready_laws;
use crate::service::rules;
use crate::service::workflow_service;
use crate::service::workflow_service::{
    ActionView, CompletePhaseView, CompletionView, NextView, ReplyView, RunView, StartPhaseView,
    StepView,
};
use crate::time::Timestamp;
use crate::types::{LearningView, LifecycleState, RowView, TaskView};
use crate::vcs::backend::VcsFault;

verus! {

/// Whether the repository reports a failure.
pub open spec fn failed(reply: ReplyView) -> bool {
    match reply {
        ReplyView::Done(r) => r is Err,
        ReplyView::Branch(r) => r is Err,
        ReplyView::Id(r) => r is Err,
        ReplyView::MaybeId(r) => false,
        ReplyView::Merged(r) => r is Err,
    }
}

/// The repository comes before the records: while a task is started, nothing is stored before the
/// repository has done all that is asked of it. A branch that was not recorded at an earlier start
/// may be recorded before.
pub proof fn law_start_stores_last(
    d: Db,
    id: TaskId,
    phase: StartPhaseView,
    reply: ReplyView,
    now: Timestamp,
)
    requires
        workflow_service::fits((RunView::Start { id, phase }), reply),
        !(phase is Sha),
        !(phase is Backfill),
    ensures
        workflow_service::resume_start(d, id, phase, reply, now).0 == d,
{
}

/// A repository that fails while a task is started leaves the records alone and ends the start with
/// its error; only a bookmark that is there already is no failure.
pub proof fn law_failed_start_changes_nothing(
    d: Db,
    id: TaskId,
    phase: StartPhaseView,
    reply: ReplyView,
    now: Timestamp,
)
    requires
        d.has(id),
        workflow_service::fits((RunView::Start { id, phase }), reply),
        failed(reply),
        !(reply matches ReplyView::Done(Err(VcsFault::BookmarkExists(_)))),
    ensures
        workflow_service::resume_start(d, id, phase, reply, now).0 == d,
        workflow_service::resume_start(d, id, phase, reply, now).1.next matches NextView::Over(
            Err(_),
        ),
{
}

/// A task that was started before is only checked out again: the records stay as they are, and so
/// does the answer. In a git repository the branch is asked for first where it was not recorded.
pub proof fn law_starting_again_only_checks_out(
    d: Db,
    git: bool,
    id: TaskId,
    reply: ReplyView,
    now: Timestamp,
)
    requires
        d.has(id),
        d.row(id).active(),
        d.row(id).started_at is Some,
        d.row(id).bookmark is Some,
        reply is Done,
    ensures
        d.row(id).base_ref is Some || !git ==> workflow_service::begin_start(d, git, id)
            == workflow_service::start_on(
            ActionView::Checkout { target: d.row(id).bookmark->0 },
            id,
            StartPhaseView::Recheckout,
        ),
        d.row(id).base_ref is None && git ==> workflow_service::begin_start(d, git, id)
            == workflow_service::start_on(
            ActionView::CurrentBranchName,
            id,
            StartPhaseView::Backfill,
        ),
        workflow_service::resume_start(d, id, StartPhaseView::Recheckout, reply, now).0 == d,
        !failed(reply) ==> workflow_service::resume_start(
            d,
            id,
            StartPhaseView::Recheckout,
            reply,
            now,
        ).1 == workflow_service::over(rules::get(d, id)),
{
}

/// What is found to be started for a task is started: the repository is asked for the first thing
/// that the start of the found task needs.
pub proof fn law_found_task_is_started(d: Db, git: bool, root: TaskId)
    requires
        d.wf(),
        laws::archived_are_finished(d),
    ensures
        match readiness::resolve(d, root, Seq::empty()) {
            Ok(x) => match workflow_service::begin_follow(d, git, root).next {
                NextView::Do { action, run: RunView::Start { id, phase } } => id == x,
                _ => false,
            },
            Err(f) => workflow_service::begin_follow(d, git, root) == workflow_service::over(
                Err::<TaskView, Fault>(f),
            ),
        },
{
    ready_laws::law_start_target(d, root);
    if let Ok(x) = readiness::resolve(d, root, Seq::empty()) {
        model::lemma_row(d, x);
        let i = choose|i: int| 0 <= i < d.tasks.len() && d.tasks[i] == d.row(x);
        assert(d.tasks[i].archived ==> d.tasks[i].finished());
        ready_laws::law_workable_task_is_next_under_itself(d, x);
    }
}

/// A completion stores nothing before the changes are committed and, where that is needed, merged:
/// whatever comes of the commit and of the merge, the records are as they were.
pub proof fn law_complete_stores_after_commit_and_merge(
    d: Db,
    git: bool,
    c: CompletionView,
    reply: ReplyView,
    ids: Seq<LearningId>,
    now: Timestamp,
)
    requires
        workflow_service::fits(RunView::Complete(c), reply),
        c.phase is Commit || c.phase is Merge,
    ensures
        workflow_service::resume_complete(d, git, c, reply, ids, now).0 == d,
        failed(reply) && !(reply matches ReplyView::Done(Err(VcsFault::NothingToCommit)))
            ==> workflow_service::resume_complete(d, git, c, reply, ids, now).1.next
            matches NextView::Over(Err(_)),
{
}

/// Whether a step goes on to record a completion of the given task.
pub open spec fn will_record(s: StepView, id: TaskId) -> bool {
    match s.next {
        NextView::Do { action, run: RunView::Complete(c) } => match c.phase {
            CompletePhaseView::Sha { id: x, milestone } => x == id,
            _ => false,
        },
        _ => false,
    }
}

/// In a git repository a task with a bookmark is recorded as completed only after its bookmark was
/// merged into the branch that it was started from: after the commit comes the merge, and a merge
/// that does not succeed ends the completion.
pub proof fn law_git_tasks_are_merged_first(
    d: Db,
    c: CompletionView,
    reply: ReplyView,
    ids: Seq<LearningId>,
    now: Timestamp,
    id: TaskId,
)
    requires
        workflow_service::fits(RunView::Complete(c), reply),
        c.phase is Commit || c.phase is Merge,
        workflow_service::phase_id(c.phase) == id,
        d.has(id),
        d.row(id).bookmark is Some,
    ensures
        will_record(workflow_service::resume_complete(d, true, c, reply, ids, now).1, id)
            ==> c.phase is Merge && reply == ReplyView::Merged(Ok(true)),
        reply == ReplyView::Merged(Ok(false)) ==> workflow_service::resume_complete(
            d,
            true,
            c,
            reply,
            ids,
            now,
        ).1 == workflow_service::over(
            Err::<TaskView, Fault>(
                Fault::TaskIntegrationRequired {
                    task_id: id,
                    source_ref: c.phase->Merge_source,
                    base_ref: c.phase->Merge_base,
                },
            ),
        ),
{
}

/// A task that is completed already is answered as it is: the repository is asked for nothing.
pub proof fn law_completing_again_asks_nothing(
    d: Db,
    id: TaskId,
    result: Option<Seq<char>>,
    learnings: Seq<Seq<char>>,
)
    requires
        d.has(id),
        d.row(id).state() == LifecycleState::Completed,
    ensures
        workflow_service::begin_complete(d, id, result, learnings) == workflow_service::over(
            rules::get(d, id),
        ),
{
}

/// A completion goes on to the parent of the completed task exactly where there is one, none of its
/// children is pending, it is not blocked, and it is not cancelled; a milestone must be active.
/// Where the parent has pending children or is blocked, the completion is over with the answer for
/// the requested task.
pub proof fn law_parents_are_completed_when_done(d: Db, id: TaskId, c: CompletionView)
    ensures
        match workflow_service::bubble_up(d, id, c).next {
            NextView::Do { action, run: RunView::Complete(n) } => {
                let p = workflow_service::phase_id(n.phase);
                &&& d.parent(id) == Some(p)
                &&& workflow_service::settled(d, p)
                &&& !d.row(p).cancelled
                &&& d.depth(p) == 0 ==> d.row(p).active()
            },
            NextView::Do { action, run } => false,
            NextView::Over(_) => d.parent(id) is None || {
                let p = d.parent(id)->0;
                ||| !workflow_service::settled(d, p)
                ||| d.row(p).cancelled
                ||| d.depth(p) == 0 && !d.row(p).active()
            },
        },
        d.parent(id) is None || !workflow_service::settled(d, d.parent(id)->0)
            ==> workflow_service::bubble_up(d, id, c) == workflow_service::answered(c),
{
}

/// What is learned at a task goes on to the milestone: where a completion goes on to the parent,
/// completed before or not, the learnings that the parent has by then are given to the task above
/// it, each with the source that it had.
pub proof fn law_parents_pass_on_what_was_learned(
    d: Db,
    git: bool,
    c: CompletionView,
    p: TaskId,
    m: TaskId,
    sha: Option<Seq<char>>,
    ids: Seq<LearningId>,
    now: Timestamp,
    l: LearningView,
)
    requires
        d.wf(),
        c.phase == (CompletePhaseView::ParentSha { id: p }),
        d.has(p),
        d.parent(p) == Some(m),
        !d.has_pending_children(p),
        d.learnings_of(p).contains(l),
    ensures
        ({
            let reply = ReplyView::MaybeId(sha);
            let e = workflow_service::resume_complete(d, git, c, reply, ids, now).0;
            &&& e.learnings_of(p).contains(l)
            &&& learning_repo::recorded(e, (LearningView { task_id: m, ..l }))
            &&& e.row(p).completed && e.row(p).completed_at == Some(now)
        }),
{
    let none = Seq::<Seq<char>>::empty();
    let f = |n: LearningView| n.task_id == p;
    let e = rules::complete(d, p, None, none, sha, ids, now).0;
    laws::lemma_filter_exact(d.learnings, f, l);
    learning_laws::law_learnings_go_to_the_parent(
        d, p, m, None, none, sha, ids, now, p, 0, l,
    );
    laws::lemma_filter_exact(e.learnings, f, l);
    laws::lemma_completed(d, p, None, none, sha, ids, now);
}

/// Whether the task that a run is to complete is active or, above the requested one, not cancelled.
pub open spec fn live(d: Db, run: RunView) -> bool {
    match run {
        RunView::Start { id, phase } => true,
        RunView::Complete(c) => match c.phase {
            CompletePhaseView::Commit { id, milestone } => d.row(id).active(),
            CompletePhaseView::Merge { id, milestone, source, base } => d.row(id).active(),
            CompletePhaseView::Sha { id, milestone } => d.row(id).active(),
            CompletePhaseView::ParentSha { id } => !d.row(id).cancelled,
            _ => true,
        },
    }
}

/// Whether a step goes on, if at all, to complete a task that may be completed.
pub open spec fn live_step(d: Db, s: StepView) -> bool {
    match s.next {
        NextView::Do { action, run } => live(d, run),
        NextView::Over(r) => true,
    }
}

/// Whatever is asked for, only an active task is begun to be completed.
pub proof fn law_only_active_tasks_are_begun(
    d: Db,
    git: bool,
    id: TaskId,
    result: Option<Seq<char>>,
    learnings: Seq<Seq<char>>,
)
    ensures
        live_step(d, workflow_service::begin_complete(d, id, result, learnings)),
        live_step(d, workflow_service::begin_start(d, git, id)),
        live_step(d, workflow_service::begin_follow(d, git, id)),
{
}

/// No step makes a cancelled task completed: a finished task stays completed or cancelled as it was,
/// and a run goes on, if at all, to complete a task that may be completed.
pub proof fn law_finished_tasks_keep_their_state(
    d: Db,
    git: bool,
    run: RunView,
    reply: ReplyView,
    ids: Seq<LearningId>,
    now: Timestamp,
    x: TaskId,
)
    requires
        d.wf(),
        workflow_service::fits(run, reply),
        live(d, run),
        d.has(x),
    ensures
        ({
            let (e, s) = workflow_service::resume(d, git, run, reply, ids, now);
            &&& e.row(x).cancelled == d.row(x).cancelled
            &&& e.row(x).archived == d.row(x).archived
            &&& d.row(x).finished() ==> e.row(x).completed == d.row(x).completed
            &&& live_step(e, s)
        }),
{
    match run {
        RunView::Start { id, phase } => {
            if d.has(id) {
                lemma_start_keeps_state(d, id, phase, reply, now, x);
            }
        },
        RunView::Complete(c) => {
            lemma_complete_keeps_state(d, git, c, reply, ids, now, x);
        },
    }
}

/// What a step leaves behind of the state of a task.
spec fn keeps_state(d: Db, e: Db, s: StepView, x: TaskId) -> bool {
    &&& e.row(x).cancelled == d.row(x).cancelled
    &&& e.row(x).archived == d.row(x).archived
    &&& d.row(x).finished() ==> e.row(x).completed == d.row(x).completed
    &&& live_step(e, s)
}

proof fn lemma_bubble_up_is_live(d: Db, id: TaskId, c: CompletionView)
    ensures
        live_step(d, workflow_service::bubble_up(d, id, c)),
{
}

proof fn lemma_cleanup_is_live(
    d: Db,
    id: TaskId,
    milestone: bool,
    queue: Seq<(TaskId, Seq<char>)>,
    c: CompletionView,
    warning: Option<Seq<char>>,
)
    ensures
        live_step(d, workflow_service::after_cleanup(d, id, milestone, c, warning)),
        live_step(d, workflow_service::next_delete(d, id, milestone, queue, c, warning)),
{
    lemma_bubble_up_is_live(d, id, c);
}

proof fn lemma_recording(
    d: Db,
    git: bool,
    c: CompletionView,
    sha: Option<Seq<char>>,
    ids: Seq<LearningId>,
    now: Timestamp,
    x: TaskId,
)
    requires
        d.wf(),
        d.has(x),
        c.phase is Sha || c.phase is ParentSha,
        d.has(workflow_service::phase_id(c.phase)),
        live(d, RunView::Complete(c)),
    ensures
        ({
            let reply = ReplyView::MaybeId(sha);
            let (e, s) = workflow_service::resume_complete(d, git, c, reply, ids, now);
            keeps_state(d, e, s, x)
        }),
{
    let (e, s) = workflow_service::resume_complete(d, git, c, ReplyView::MaybeId(sha), ids, now);
    match c.phase {
        CompletePhaseView::Sha { id, milestone } => {
            let result = workflow_service::result_now(c);
            let learnings = workflow_service::learnings_now(c);
            laws::lemma_completed(d, id, result, learnings, sha, ids, now);
            let t = rules::complete(d, id, result, learnings, sha, ids, now).1;
            if t is Ok {
                let c2 = CompletionView {
                    answer: if c.answer is None {
                        Some(t->Ok_0)
                    } else {
                        c.answer
                    },
                    ..c
                };
                lemma_bubble_up_is_live(e, id, c2);
            }
        },
        CompletePhaseView::ParentSha { id } => {
            laws::lemma_completed(d, id, None, Seq::empty(), sha, ids, now);
            lemma_bubble_up_is_live(e, id, c);
        },
        _ => {},
    }
}

proof fn lemma_complete_keeps_state(
    d: Db,
    git: bool,
    c: CompletionView,
    reply: ReplyView,
    ids: Seq<LearningId>,
    now: Timestamp,
    x: TaskId,
)
    requires
        d.wf(),
        workflow_service::fits(RunView::Complete(c), reply),
        live(d, RunView::Complete(c)),
        d.has(x),
    ensures
        ({
            let (e, s) = workflow_service::resume_complete(d, git, c, reply, ids, now);
            keeps_state(d, e, s, x)
        }),
{
    if d.has(workflow_service::phase_id(c.phase)) {
        match (c.phase, reply) {
            (CompletePhaseView::Sha { id, milestone }, ReplyView::MaybeId(sha)) => {
                lemma_recording(d, git, c, sha, ids, now, x);
            },
            (CompletePhaseView::ParentSha { id }, ReplyView::MaybeId(sha)) => {
                lemma_recording(d, git, c, sha, ids, now, x);
            },
            (CompletePhaseView::Head { id, milestone }, ReplyView::Id(head)) => {
                let w = Some(workflow_service::no_target_warning(d, id, milestone));
                lemma_cleanup_is_live(d, id, milestone, Seq::empty(), c, w);
            },
            (CompletePhaseView::Leave { id, milestone, target }, ReplyView::Done(Err(f))) => {
                let w = Some(
                    "warn: failed to checkout "@ + target + ": "@ + f.message()
                        + " - skipping branch cleanup"@,
                );
                lemma_cleanup_is_live(d, id, milestone, Seq::empty(), c, w);
            },
            (CompletePhaseView::Leave { id, milestone, target }, ReplyView::Done(Ok(_))) => {
                let queue = workflow_service::cleanup_queue(d, id, milestone);
                lemma_cleanup_is_live(d, id, milestone, queue, c, None);
            },
            (CompletePhaseView::Delete { id, milestone, queue }, ReplyView::Done(Ok(_))) => {
                let owner = queue[0].0;
                if d.has(owner) {
                    model::lemma_row(d, owner);
                    lemma_set(
                        d,
                        owner,
                        RowView { bookmark: None, updated_at: now, ..d.row(owner) },
                    );
                }
                let e = d.with_bookmark(owner, None, now);
                lemma_cleanup_is_live(e, id, milestone, queue.drop_first(), c, None);
            },
            (CompletePhaseView::Delete { id, milestone, queue }, ReplyView::Done(Err(f))) => {
                let w = Some(
                    workflow_service::delete_warning(queue[0].0, id, milestone, queue[0].1, f),
                );
                lemma_cleanup_is_live(d, id, milestone, queue.drop_first(), c, w);
            },
            _ => {},
        }
    }
}

proof fn lemma_start_keeps_state(
    d: Db,
    id: TaskId,
    phase: StartPhaseView,
    reply: ReplyView,
    now: Timestamp,
    x: TaskId,
)
    requires
        d.wf(),
        d.has(id),
        d.has(x),
        workflow_service::fits((RunView::Start { id, phase }), reply),
    ensures
        same_state(d, workflow_service::resume_start(d, id, phase, reply, now).0, x),
{
    match (phase, reply) {
        (StartPhaseView::Backfill, ReplyView::Branch(Ok(Some(b)))) => {
            model::lemma_row(d, id);
            lemma_set(d, id, RowView { base_ref: Some(b), updated_at: now, ..d.row(id) });
        },
        (StartPhaseView::Sha { base }, ReplyView::Id(Ok(sha))) => {
            lemma_marked(d, id, sha, base, now);
            lemma_bubbled(marked(d, id, sha, base, now), id, now, 2, x);
        },
        _ => {},
    }
}

/// After a milestone is completed, the bookmarks of all tasks below it and its own are to be
/// deleted; after another task, its own only.
pub proof fn law_cleanup_covers_all_bookmarks(d: Db, id: TaskId, x: TaskId)
    requires
        d.wf(),
        d.has(id),
        d.row(x).bookmark is Some,
    ensures
        d.in_subtree(id, x) ==> workflow_service::cleanup_queue(d, id, true).contains(
            (x, d.row(x).bookmark->0),
        ),
        workflow_service::cleanup_queue(d, x, false) == seq![(x, d.row(x).bookmark->0)],
{
    let ids = d.descendants(id).push(id);
    if d.in_subtree(id, x) {
        if x == id {
            assert(ids[ids.len() - 1] == x);
        } else {
            model::lemma_descendants(d, id, x);
            let i = choose|i: int| 0 <= i < d.descendants(id).len() && d.descendants(id)[i] == x;
            assert(ids[i] == x);
        }
        lemma_bookmarked(d, ids, x);
    }
    reveal_with_fuel(workflow_service::bookmarked, 2);
    assert(seq![x].drop_last() =~= Seq::<TaskId>::empty());
    assert(workflow_service::bookmarked(d, seq![x]) =~= seq![(x, d.row(x).bookmark->0)]);
}

proof fn lemma_bookmarked(d: Db, ids: Seq<TaskId>, x: TaskId)
    requires
        ids.contains(x),
        d.row(x).bookmark is Some,
    ensures
        workflow_service::bookmarked(d, ids).contains((x, d.row(x).bookmark->0)),
    decreases ids.len(),
{
    let b = (x, d.row(x).bookmark->0);
    let all = workflow_service::bookmarked(d, ids);
    let rest = workflow_service::bookmarked(d, ids.drop_last());
    if ids.last() == x {
        assert(all.last() == b);
    } else {
        let i = choose|i: int| 0 <= i < ids.len() && ids[i] == x;
        assert(ids.drop_last()[i] == x);
        lemma_bookmarked(d, ids.drop_last(), x);
        let j = choose|j: int| 0 <= j < rest.len() && rest[j] == b;
        assert(all[j] == b);
    }
}

/// A bookmark is forgotten only once it is deleted: where the repository fails to delete it, the
/// records keep it and the user is warned.
pub proof fn law_bookmarks_are_forgotten_when_deleted(
    d: Db,
    git: bool,
    c: CompletionView,
    reply: ReplyView,
    ids: Seq<LearningId>,
    now: Timestamp,
)
    requires
        c.phase is Delete,
        c.phase->Delete_queue.len() > 0,
        d.has(c.phase->Delete_id),
        reply is Done,
    ensures
        ({
            let (e, s) = workflow_service::resume_complete(d, git, c, reply, ids, now);
            let owner = c.phase->Delete_queue[0].0;
            &&& failed(reply) ==> e == d && s.warning is Some
            &&& !failed(reply) ==> e == d.with_bookmark(owner, None, now) && s.warning is None
        }),
{
}

/// Where a task is started, the tasks above it count as started too, and keep the time at which
/// they were if they were before.
pub proof fn law_starting_marks_the_tasks_above(
    d: Db,
    id: TaskId,
    sha: Seq<char>,
    base: Option<Seq<char>>,
    now: Timestamp,
    a: TaskId,
)
    requires
        d.wf(),
        d.has(id),
        d.in_subtree(a, id),
    ensures
        ({
            let e = workflow_service::started(d, id, sha, base, now);
            &&& e.row(a).started_at == Some(
                match d.row(a).started_at {
                    Some(t) => t,
                    None => now,
                },
            )
            &&& a == id ==> e.row(id).bookmark == Some(workflow_service::bookmark_of(d, id))
                && e.row(id).start_commit == Some(sha) && (base is Some ==> e.row(id).base_ref
                == base)
            &&& a != id ==> e.row(a).bookmark == d.row(a).bookmark
        }),
{
    let e = marked(d, id, sha, base, now);
    lemma_marked(d, id, sha, base, now);
    if a == id {
        lemma_bubbled(e, id, now, 2, id);
    } else {
        model::lemma_ancestor(d, a, id);
        let k = choose|k: nat| 1 <= k <= 2 && #[trigger] d.up(id, k) == Some(a);
        model::lemma_up_has(d, id, k);
        assert(e.up(id, k) == Some(a));
        lemma_bubbled(e, id, now, 2, a);
    }
}

/// What is stored for a task that is started, before the tasks above it are marked.
spec fn marked(
    d: Db,
    id: TaskId,
    sha: Seq<char>,
    base: Option<Seq<char>>,
    now: Timestamp,
) -> Db {
    let a = d.with_bookmark(id, Some(workflow_service::bookmark_of(d, id)), now);
    let b = a.with_start_commit(id, sha, now);
    let c = match base {
        Some(r) => b.with_base_ref(id, r, now),
        None => b,
    };
    if d.row(id).started_at is None {
        c.starting(id, now)
    } else {
        c
    }
}

/// Whether two states differ in the row of one task only, and not in the hierarchy.
spec fn same_but(d: Db, e: Db, id: TaskId) -> bool {
    &&& e.wf()
    &&& forall|x: TaskId| #[trigger] e.has(x) == d.has(x)
    &&& forall|x: TaskId| d.has(x) && x != id ==> #[trigger] e.row(x) == d.row(x)
    &&& forall|x: TaskId, k: nat| #[trigger] e.up(x, k) == d.up(x, k)
    &&& e.row(id).id == id
    &&& e.row(id).parent_id == d.row(id).parent_id
    &&& same_state(d, e, id)
}

/// Whether a task is as far completed, cancelled and archived in one state as in another.
spec fn same_state(d: Db, e: Db, id: TaskId) -> bool {
    &&& e.row(id).completed == d.row(id).completed
    &&& e.row(id).cancelled == d.row(id).cancelled
    &&& e.row(id).archived == d.row(id).archived
}

proof fn lemma_marked(
    d: Db,
    id: TaskId,
    sha: Seq<char>,
    base: Option<Seq<char>>,
    now: Timestamp,
)
    requires
        d.wf(),
        d.has(id),
    ensures
        ({
            let e = marked(d, id, sha, base, now);
            &&& same_but(d, e, id)
            &&& e.row(id).bookmark == Some(workflow_service::bookmark_of(d, id))
            &&& e.row(id).start_commit == Some(sha)
            &&& base is Some ==> e.row(id).base_ref == base
            &&& e.row(id).started_at == Some(
                match d.row(id).started_at {
                    Some(t) => t,
                    None => now,
                },
            )
        }),
{
    model::lemma_row(d, id);
    let bookmark = workflow_service::bookmark_of(d, id);
    let a = d.with_bookmark(id, Some(bookmark), now);
    lemma_set(d, id, RowView { bookmark: Some(bookmark), updated_at: now, ..d.row(id) });
    assert(same_but(d, a, id));
    let b = a.with_start_commit(id, sha, now);
    lemma_set(a, id, RowView { start_commit: Some(sha), updated_at: now, ..a.row(id) });
    assert(same_but(d, b, id));
    let c = match base {
        Some(r) => b.with_base_ref(id, r, now),
        None => b,
    };
    if base is Some {
        lemma_set(b, id, RowView { base_ref: base, updated_at: now, ..b.row(id) });
    }
    assert(same_but(d, c, id));
    if d.row(id).started_at is None {
        lemma_set(c, id, RowView { started_at: Some(now), updated_at: now, ..c.row(id) });
        assert(same_but(d, c.starting(id, now), id));
    }
}

/// Replacing a row with one of the same task and parent.
proof fn lemma_set(d: Db, id: TaskId, r: RowView)
    requires
        d.wf(),
        d.has(id),
        r.id == id,
        r.parent_id == d.row(id).parent_id,
    ensures
        d.set_row(id, r).wf(),
        d.set_row(id, r).row(id) == r,
        forall|x: TaskId| #[trigger] d.set_row(id, r).has(x) == d.has(x),
        forall|x: TaskId| d.has(x) && x != id ==> #[trigger] d.set_row(id, r).row(x) == d.row(x),
        forall|x: TaskId, k: nat| #[trigger] d.set_row(id, r).up(x, k) == d.up(x, k),
{
    model::lemma_with_row(d, id, r);
    model::lemma_with_row_same_parent(d, id, r);
}

/// The tasks above one are marked as started, each once; nothing else changes.
proof fn lemma_bubbled(d: Db, id: TaskId, now: Timestamp, levels: nat, a: TaskId)
    requires
        d.wf(),
        d.has(id),
        d.has(a),
    ensures
        ({
            let e = workflow_service::bubbled_start(d, id, now, levels);
            &&& e.row(a).bookmark == d.row(a).bookmark
            &&& e.row(a).start_commit == d.row(a).start_commit
            &&& e.row(a).base_ref == d.row(a).base_ref
            &&& same_state(d, e, a)
            &&& d.row(a).started_at is Some ==> e.row(a).started_at == d.row(a).started_at
            &&& d.row(a).started_at is None && (exists|k: nat|
                1 <= k <= levels && #[trigger] d.up(id, k) == Some(a)) ==> e.row(a).started_at
                == Some(now)
        }),
    decreases levels,
{
    if levels > 0 {
        match d.parent(id) {
            None => {
                assert forall|k: nat| 1 <= k <= levels implies #[trigger] d.up(id, k) != Some(a) by {
                    assert(d.up(id, 0) == Some(id));
                    assert(d.up(id, 1) == d.parent(id));
                    model::lemma_up_none(d, id, 1, k);
                }
            },
            Some(p) => {
                model::lemma_depth_child(d, id);
                model::lemma_row(d, p);
                let rest = (levels - 1) as nat;
                let m = if d.row(p).started_at is None {
                    d.starting(p, now)
                } else {
                    d
                };
                if d.row(p).started_at is None {
                    lemma_set(
                        d,
                        p,
                        RowView {
                            started_at: Some(now),
                            updated_at: now,
                            ..d.row(p)
                        },
                    );
                }
                assert(m.has(p) && m.has(a));
                lemma_bubbled(m, p, now, rest, a);
                if exists|k: nat| 1 <= k <= levels && #[trigger] d.up(id, k) == Some(a) {
                    let k = choose|k: nat| 1 <= k <= levels && #[trigger] d.up(id, k) == Some(a);
                    model::lemma_up_from_parent(d, id, (k - 1) as nat);
                    assert(d.up(p, (k - 1) as nat) == Some(a));
                    if k == 1 {
                        assert(a == p);
                    } else {
                        assert(m.up(p, (k - 1) as nat) == d.up(p, (k - 1) as nat));
                    }
                }
            },
        }
    }
}

} // verus!
