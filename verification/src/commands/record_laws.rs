//! What the commands on learnings, on branches and on the data as a whole come to.
use vstd::prelude::*;

use crate::commands::args::{AddArgs, LearningCommand, TaskCommand};
use crate::commands::data;
use crate::commands::laws as export_laws;
use crate::commands::learning;
use crate::commands::learning::LearningResultView;
use crate::commands::task;
use crate::commands::vcs;
use crate::commands::vcs::OrphanReason;
use crate::db::row;
use crate::db::row::{RawLearning, RawTask};
use crate::db::task_repo;
use crate::error::Fault;
use crate::id;
use crate::id::{LearningId, TaskId};
use crate::model;
use crate::model::Db;
use crate::service::laws;
use crate::service::readiness;
use crate::table_laws;
use crate::text;
use crate::time;
use crate::time::Timestamp;
use crate::types::{LearningView, RowView};
use crate::vcs::backend::VcsError;

verus! {

// ---- learnings ----

/// Whether a stored learning is for a task, from a source, with a text.
pub open spec fn known(d: Db, task: TaskId, source: TaskId, content: Seq<char>, l: LearningView) -> bool {
    d.learnings.contains(l) && l.task_id == task && l.source_task_id == Some(source) && l.content
        == content
}

/// Where an added learning stems from: the source that is named, else the task itself.
pub open spec fn source_of(args: AddArgs) -> TaskId {
    match args.source {
        Some(s) => s,
        None => args.task_id,
    }
}

/// A learning that is added is stored behind the others, with its text, for its task, from its
/// source or else from the task itself; where it is stored already, that one is answered and nothing
/// changes. A task that is not stored is refused.
pub proof fn law_adding_a_learning(
    d: Db,
    cmd: LearningCommand,
    id: LearningId,
    now: Timestamp,
    k: LearningView,
)
    requires
        d.wf(),
    ensures
        cmd matches LearningCommand::Add(args) ==> {
            let (e, a) = learning::handled(d, cmd, id, now);
            let source = source_of(args);
            &&& e.tasks == d.tasks && e.blockers == d.blockers
            &&& !table_laws::stored(d, args.task_id) ==> e == d && a == Err::<
                LearningResultView,
                Fault,
            >(Fault::TaskNotFound(args.task_id))
            &&& table_laws::stored(d, args.task_id) && known(
                d,
                args.task_id,
                source,
                args.content@,
                k,
            ) ==> e == d && a == Ok::<LearningResultView, Fault>(LearningResultView::One(k))
            &&& table_laws::stored(d, args.task_id) && !(exists|l: LearningView| #[trigger]
                known(d, args.task_id, source, args.content@, l)) ==> {
                let l = LearningView {
                    id,
                    task_id: args.task_id,
                    content: args.content@,
                    source_task_id: Some(source),
                    created_at: now,
                };
                e.learnings == d.learnings.push(l) && a == Ok::<LearningResultView, Fault>(
                    LearningResultView::One(l),
                )
            }
        },
{
    if let LearningCommand::Add(args) = cmd {
        let source = source_of(args);
        let n = crate::db::learning_repo::note(args.task_id, args.content@, args.source, id, now);
        table_laws::law_rows(d, args.task_id);
        if crate::db::learning_repo::recorded(d, n) {
            let i = choose|i: int|
                0 <= i < d.learnings.len() && model::same_learning(#[trigger] d.learnings[i], n);
            assert(known(d, args.task_id, source, args.content@, d.learnings[i]));
            if known(d, args.task_id, source, args.content@, k) {
                let j = choose|j: int| 0 <= j < d.learnings.len() && d.learnings[j] == k;
                if i < j {
                    assert(!model::same_learning(d.learnings[i], d.learnings[j]));
                } else if j < i {
                    assert(!model::same_learning(d.learnings[j], d.learnings[i]));
                }
            }
        } else {
            assert forall|l: LearningView| !(#[trigger] known(
                d,
                args.task_id,
                source,
                args.content@,
                l,
            )) by {
                if known(d, args.task_id, source, args.content@, l) {
                    let j = choose|j: int| 0 <= j < d.learnings.len() && d.learnings[j] == l;
                    assert(model::same_learning(d.learnings[j], n));
                }
            }
        }
    }
}

/// The learnings that are listed for a task are those that are stored for it, in their order; those
/// that are deleted by identifier are gone, and no others.
pub proof fn law_listing_and_deleting_learnings(
    d: Db,
    cmd: LearningCommand,
    id: LearningId,
    now: Timestamp,
    l: LearningView,
)
    ensures
        ({
            let (e, a) = learning::handled(d, cmd, id, now);
            match cmd {
                LearningCommand::List { task_id } => e == d && a == Ok::<LearningResultView, Fault>(
                    LearningResultView::Many(
                        d.learnings.filter(|n: LearningView| n.task_id == task_id),
                    ),
                ),
                LearningCommand::Delete { id: x } => {
                    &&& e.tasks == d.tasks && e.blockers == d.blockers
                    &&& e.learnings.contains(l) <==> d.learnings.contains(l) && l.id != x
                    &&& d.learnings.contains(l) && l.id == x ==> a == Ok::<
                        LearningResultView,
                        Fault,
                    >(LearningResultView::Deleted)
                    &&& a is Err ==> e == d && a == Err::<LearningResultView, Fault>(
                        Fault::LearningNotFound(x),
                    )
                    &&& a is Ok ==> exists|n: LearningView| #[trigger]
                        d.learnings.contains(n) && n.id == x
                },
                _ => true,
            }
        }),
{
    if let LearningCommand::Delete { id: x } = cmd {
        let f = |n: LearningView| n.id != x;
        laws::lemma_filter_exact(d.learnings, f, l);
        if d.learnings.contains(l) && l.id == x {
            let i = choose|i: int| 0 <= i < d.learnings.len() && d.learnings[i] == l;
            assert(d.learnings[i].id == x);
        }
        if exists|i: int| 0 <= i < d.learnings.len() && (#[trigger] d.learnings[i]).id == x {
            let i = choose|i: int|
                0 <= i < d.learnings.len() && (#[trigger] d.learnings[i]).id == x;
            assert(d.learnings.contains(d.learnings[i]));
        } else if d.learnings.contains(l) {
            let i = choose|i: int| 0 <= i < d.learnings.len() && d.learnings[i] == l;
            assert(d.learnings[i].id != x);
        }
    }
}

// ---- the export ----

/// Of every stored task the export holds the identifier, the parent, the texts, the priority, the
/// state with its times, the commit and the base branch, each as it is stored.
pub proof fn law_export_holds_the_fields(d: Db, at: Seq<char>, r: RowView)
    requires
        d.wf(),
        d.tasks.contains(r),
    ensures
        data::export_of(d, at).version == "1.1.0"@,
        data::export_of(d, at).exported_at == at,
        exists|i: int|
            {
                let ts = data::export_of(d, at).tasks;
                &&& 0 <= i < ts.len()
                &&& (#[trigger] data::export_of(d, at).tasks[i]).id == r.id
                &&& ts[i].parent_id == r.parent_id
                &&& ts[i].description == r.description
                &&& ts[i].context == r.context
                &&& ts[i].result == r.result
                &&& ts[i].priority == r.priority
                &&& ts[i].completed == r.completed && ts[i].completed_at == r.completed_at
                &&& ts[i].cancelled == r.cancelled && ts[i].cancelled_at == r.cancelled_at
                &&& ts[i].archived == r.archived && ts[i].archived_at == r.archived_at
                &&& ts[i].created_at == r.created_at && ts[i].updated_at == r.updated_at
                &&& ts[i].started_at == r.started_at
                &&& ts[i].commit_sha == r.commit_sha && ts[i].base_ref == r.base_ref
            },
        data::export_of(d, at).tasks.len() == d.tasks.len(),
{
    let ids = data::all_ids(d);
    table_laws::law_rows(d, r.id);
    assert(table_laws::row_of(d, r.id, r));
    model::lemma_listed(d, task::any_task());
    assert(ids.contains(r.id));
    let i = choose|i: int| 0 <= i < ids.len() && ids[i] == r.id;
    assert(data::export_of(d, at).tasks[i].id == r.id);
    export_laws::law_export_is_complete(d, at);
    let all = d.tasks.map_values(|r: RowView| data::exported(r));
    vstd::seq_lib::to_multiset_len(data::export_of(d, at).tasks);
    vstd::seq_lib::to_multiset_len(all);
}

/// An export goes where it is asked to go, else into `overseer-export.json`.
pub proof fn law_export_path(path: Seq<char>)
    ensures
        data::export_path(Some(path)) == path,
        data::export_path(None) == "overseer-export.json"@,
{
}

// ---- branches ----

/// A branch `task/` with the identifier of a task is orphaned where the task is not stored, or is
/// completed; it is not while the task is stored and not completed. A branch with another name is
/// left alone.
pub proof fn law_orphaned_branches(
    d: Db,
    names: Seq<Seq<char>>,
    name: Seq<char>,
    x: TaskId,
    why: OrphanReason,
)
    requires
        d.wf(),
        names.contains(name),
    ensures
        name == "task/"@ + x.text() ==> {
            &&& vcs::orphans(d, names).contains((name, OrphanReason::TaskNotFound))
                <==> !table_laws::stored(d, x)
            &&& vcs::orphans(d, names).contains((name, OrphanReason::TaskCompleted)) <==> exists|
                r: RowView,
            | #[trigger]
                table_laws::row_of(d, x, r) && r.completed
        },
        !(name.len() >= 5 && name.take(5) == "task/"@) ==> !vcs::orphans(d, names).contains(
            (name, why),
        ),
{
    lemma_orphans(d, names, name, OrphanReason::TaskNotFound);
    lemma_orphans(d, names, name, OrphanReason::TaskCompleted);
    lemma_orphans(d, names, name, why);
    reveal_strlit("task/");
    table_laws::law_rows(d, x);
    if d.has(x) {
        assert(table_laws::row_of(d, x, d.row(x)));
    }
    if name == "task/"@ + x.text() {
        assert(name.skip(5) =~= x.text());
        assert(name.subrange(0, 5) =~= "task/"@);
        assert(text::has_prefix(name, "task/"@));
        id::law_ids_read_back(x, LearningId { ulid: 0 });
    }
    if text::has_prefix(name, "task/"@) {
        assert(name.take(5) =~= name.subrange(0, 5));
    }
}

proof fn lemma_orphans(d: Db, names: Seq<Seq<char>>, name: Seq<char>, why: OrphanReason)
    ensures
        vcs::orphans(d, names).contains((name, why)) <==> names.contains(name) && vcs::orphaned(
            d,
            name,
        ) == Some(why),
    decreases names.len(),
{
    let all = vcs::orphans(d, names);
    if names.len() > 0 {
        let rest = names.drop_last();
        let before = vcs::orphans(d, rest);
        lemma_orphans(d, rest, name, why);
        assert(names[names.len() - 1] == names.last());
        assert(names.contains(name) <==> rest.contains(name) || names.last() == name) by {
            if names.contains(name) {
                let i = choose|i: int| 0 <= i < names.len() && names[i] == name;
                if i < rest.len() {
                    assert(rest[i] == name);
                }
            }
            if rest.contains(name) {
                let i = choose|i: int| 0 <= i < rest.len() && rest[i] == name;
                assert(names[i] == name);
            }
        }
        if all.contains((name, why)) {
            let i = choose|i: int| 0 <= i < all.len() && all[i] == (name, why);
            if i < before.len() {
                assert(before[i] == (name, why));
            }
        }
        if before.contains((name, why)) {
            let i = choose|i: int| 0 <= i < before.len() && before[i] == (name, why);
            assert(all[i] == (name, why));
        }
        if vcs::orphaned(d, names.last()) is Some {
            assert(all[all.len() - 1] == (names.last(), vcs::orphaned(d, names.last())->0));
        }
    }
}

/// Of the branches that were to be deleted each is counted once, as deleted where it was, and else
/// as failed with its error.
pub proof fn law_cleanup_counts_each_branch(
    orphaned: Seq<(Seq<char>, OrphanReason)>,
    outcomes: Seq<Result<(), VcsError>>,
    i: int,
)
    requires
        outcomes.len() <= orphaned.len(),
    ensures
        vcs::deleted_of(orphaned, outcomes).len() + vcs::failed_of(orphaned, outcomes).len()
            == outcomes.len(),
        0 <= i < outcomes.len() && outcomes[i] is Ok ==> vcs::deleted_of(
            orphaned,
            outcomes,
        ).contains(orphaned[i].0),
        0 <= i < outcomes.len() && outcomes[i] is Err ==> vcs::failed_of(
            orphaned,
            outcomes,
        ).contains((orphaned[i].0, outcomes[i]->Err_0@.message())),
    decreases outcomes.len(),
{
    if outcomes.len() > 0 {
        let rest = outcomes.drop_last();
        law_cleanup_counts_each_branch(orphaned, rest, i);
        let n = outcomes.len() - 1;
        let del = vcs::deleted_of(orphaned, outcomes);
        let bad = vcs::failed_of(orphaned, outcomes);
        if 0 <= i < n {
            assert(rest[i] == outcomes[i]);
            if outcomes[i] is Ok {
                let a = vcs::deleted_of(orphaned, rest);
                let k = choose|k: int| 0 <= k < a.len() && a[k] == orphaned[i].0;
                assert(del[k] == orphaned[i].0);
            } else {
                let a = vcs::failed_of(orphaned, rest);
                let x = (orphaned[i].0, outcomes[i]->Err_0@.message());
                let k = choose|k: int| 0 <= k < a.len() && a[k] == x;
                assert(bad[k] == x);
            }
        } else if i == n {
            if outcomes[n] is Ok {
                assert(del[del.len() - 1] == orphaned[n].0);
            } else {
                assert(bad[bad.len() - 1] == (orphaned[n].0, outcomes[n]->Err_0@.message()));
            }
        }
    }
}

/// A deletion leaves over the bookmark of each deleted task that has one, in the directory of its
/// repository: below the root of the workspace where its row names one, else the root.
pub proof fn law_deletions_leave_the_bookmarks(
    d: Db,
    id: TaskId,
    root: Seq<char>,
    r: RowView,
    dir: Seq<char>,
    name: Seq<char>,
)
    requires
        d.wf(),
        d.has(id),
    ensures
        ({
            let left = task::deletion_leftovers(d, TaskCommand::Delete { id }, Some(root));
            &&& d.tasks.contains(r) && table_laws::at_or_above(d, id, r.id) && r.bookmark is Some
                && r.repo_path is None ==> left.contains((root, r.bookmark->0))
            &&& d.tasks.contains(r) && table_laws::at_or_above(d, id, r.id) && r.bookmark is Some
                && r.repo_path is Some ==> left.contains(
                (crate::paths::join(root, r.repo_path->0), r.bookmark->0),
            )
            &&& left.contains((dir, name)) ==> exists|q: RowView| #[trigger]
                d.tasks.contains(q) && table_laws::at_or_above(d, id, q.id) && q.bookmark == Some(
                    name,
                )
        }),
        task::deletion_leftovers(d, TaskCommand::Delete { id }, None).len() == 0,
{
    let ids = seq![id] + d.descendants(id);
    if d.tasks.contains(r) && table_laws::at_or_above(d, id, r.id) {
        table_laws::law_hierarchy(d, id, r.id);
        table_laws::law_rows(d, r.id);
        assert(table_laws::row_of(d, r.id, r));
        if r.id == id {
            assert(ids[0] == r.id);
        } else {
            model::lemma_descendants(d, id, r.id);
            let k = choose|k: int| 0 <= k < d.descendants(id).len() && d.descendants(id)[k] == r.id;
            assert(ids[k + 1] == r.id);
        }
        lemma_leftover(d, ids, root, r.id);
    }
    if task::leftovers(d, ids, root).contains((dir, name)) {
        lemma_from_leftover(d, ids, root, dir, name);
        let k = choose|k: int|
            0 <= k < ids.len() && d.row(#[trigger] ids[k]).bookmark == Some(name);
        let x = ids[k];
        if k == 0 {
            assert(x == id);
        } else {
            assert(d.descendants(id)[k - 1] == x);
            assert(d.descendants(id).contains(x));
            model::lemma_descendants(d, id, x);
        }
        model::lemma_row(d, x);
        table_laws::law_hierarchy(d, id, x);
        assert(d.tasks.contains(d.row(x)));
    }
}

proof fn lemma_leftover(d: Db, ids: Seq<TaskId>, root: Seq<char>, x: TaskId)
    requires
        ids.contains(x),
    ensures
        d.row(x).bookmark matches Some(b) ==> task::leftovers(d, ids, root).contains(
            (task::repo_dir(root, d.row(x).repo_path), b),
        ),
    decreases ids.len(),
{
    if d.row(x).bookmark is Some {
        let item = (task::repo_dir(root, d.row(x).repo_path), d.row(x).bookmark->0);
        let all = task::leftovers(d, ids, root);
        let rest = task::leftovers(d, ids.drop_last(), root);
        if ids.last() == x {
            assert(all[all.len() - 1] == item);
        } else {
            let i = choose|i: int| 0 <= i < ids.len() && ids[i] == x;
            assert(ids.drop_last()[i] == x);
            lemma_leftover(d, ids.drop_last(), root, x);
            let k = choose|k: int| 0 <= k < rest.len() && rest[k] == item;
            assert(all[k] == item);
        }
    }
}

proof fn lemma_from_leftover(
    d: Db,
    ids: Seq<TaskId>,
    root: Seq<char>,
    dir: Seq<char>,
    name: Seq<char>,
)
    requires
        task::leftovers(d, ids, root).contains((dir, name)),
    ensures
        exists|k: int| 0 <= k < ids.len() && d.row(#[trigger] ids[k]).bookmark == Some(name),
    decreases ids.len(),
{
    let all = task::leftovers(d, ids, root);
    let rest = task::leftovers(d, ids.drop_last(), root);
    let i = choose|i: int| 0 <= i < all.len() && all[i] == (dir, name);
    if i < rest.len() {
        assert(rest[i] == (dir, name));
        lemma_from_leftover(d, ids.drop_last(), root, dir, name);
        let k = choose|k: int|
            0 <= k < ids.drop_last().len() && d.row(#[trigger] ids.drop_last()[k]).bookmark == Some(
                name,
            );
        assert(ids[k] == ids.drop_last()[k]);
    } else {
        assert(d.row(ids[ids.len() - 1]).bookmark == Some(name));
    }
}

/// Starting works in the directory of what is started, completing in that of the named task: below
/// the root where its row names a repository, else the root.
pub proof fn law_commands_work_where_their_task_is(d: Db, cmd: TaskCommand, root: Seq<char>, r: RowView)
    requires
        d.wf(),
        d.tasks.contains(r),
    ensures
        ({
            let place = match r.repo_path {
                Some(path) => crate::paths::join(root, path),
                None => root,
            };
            match cmd {
                TaskCommand::Start { id } => {
                    &&& readiness::resolve(d, id, Seq::empty()) == Ok::<TaskId, Fault>(r.id)
                        ==> task::command_dir(d, cmd, root) == place
                    &&& readiness::resolve(d, id, Seq::empty()) is Err ==> task::command_dir(
                        d,
                        cmd,
                        root,
                    ) == root
                },
                TaskCommand::Complete(args) => args.id == r.id ==> task::command_dir(d, cmd, root)
                    == place,
                _ => task::command_dir(d, cmd, root) == root,
            }
        }),
{
    table_laws::law_rows(d, r.id);
    assert(table_laws::row_of(d, r.id, r));
}

// ---- the rows of the database ----

/// A row of the database means the task with the texts, numbers and flags in its columns; a time
/// that cannot be read counts as absent, or as now where a task always has one.
pub proof fn law_columns_of_a_task(raw: RawTask, r: RowView, now: Timestamp)
    requires
        row::row_means(raw, r, now),
    ensures
        TaskId::of_text(raw.id@) == Some(r.id),
        raw.parent_id is None <==> r.parent_id is None,
        raw.parent_id is Some ==> TaskId::of_text(raw.parent_id->0@) == r.parent_id,
        r.description == raw.description@,
        r.context == raw.context@,
        r.result == text::opt_text(raw.result),
        r.priority == raw.priority,
        r.completed <==> raw.completed != 0,
        r.cancelled <==> raw.cancelled != 0,
        r.archived <==> raw.archived != 0,
        r.commit_sha == text::opt_text(raw.commit_sha),
        r.bookmark == text::opt_text(raw.bookmark),
        r.start_commit == text::opt_text(raw.start_commit),
        r.base_ref == text::opt_text(raw.base_ref),
        r.repo_path == text::opt_text(raw.repo_path),
        forall|t: Seq<char>|
            (#[trigger] time::rfc3339_time(t)) is Some ==> {
                let at = time::rfc3339_time(t)->0;
                let when = Timestamp { secs: at.0, nanos: at.1 };
                &&& text::opt_text(raw.created_at) == Some(t) ==> r.created_at == when
                &&& text::opt_text(raw.updated_at) == Some(t) ==> r.updated_at == when
                &&& text::opt_text(raw.completed_at) == Some(t) ==> r.completed_at == Some(when)
                &&& text::opt_text(raw.started_at) == Some(t) ==> r.started_at == Some(when)
                &&& text::opt_text(raw.cancelled_at) == Some(t) ==> r.cancelled_at == Some(when)
                &&& text::opt_text(raw.archived_at) == Some(t) ==> r.archived_at == Some(when)
            },
        raw.created_at is None ==> r.created_at == now,
        raw.updated_at is None ==> r.updated_at == now,
        raw.completed_at is None ==> r.completed_at is None,
        raw.started_at is None ==> r.started_at is None,
        raw.cancelled_at is None ==> r.cancelled_at is None,
        raw.archived_at is None ==> r.archived_at is None,
{
}

/// A row of the database means the learning with the texts in its columns.
pub proof fn law_columns_of_a_learning(raw: RawLearning, l: LearningView, now: Timestamp)
    requires
        row::learning_means(raw, l, now),
    ensures
        LearningId::of_text(raw.id@) == Some(l.id),
        TaskId::of_text(raw.task_id@) == Some(l.task_id),
        l.content == raw.content@,
        raw.source_task_id is None <==> l.source_task_id is None,
        raw.source_task_id is Some ==> TaskId::of_text(raw.source_task_id->0@) == l.source_task_id,
        raw.created_at is None ==> l.created_at == now,
        forall|t: Seq<char>|
            (#[trigger] time::rfc3339_time(t)) is Some && text::opt_text(raw.created_at) == Some(t)
                ==> l.created_at == (Timestamp {
                secs: (time::rfc3339_time(t)->0).0,
                nanos: (time::rfc3339_time(t)->0).1,
            }),
{
}

/// What is written for a task is its identifiers, texts, numbers and flags, each in its column, and
/// its times as texts.
pub proof fn law_written_columns(r: RowView, raw: RawTask)
    requires
        row::row_written(r, raw),
    ensures
        raw.id@ == r.id.text(),
        r.parent_id matches Some(p) ==> text::opt_text(raw.parent_id) == Some(p.text()),
        r.parent_id is None ==> raw.parent_id is None,
        raw.description@ == r.description,
        raw.context@ == r.context,
        text::opt_text(raw.result) == r.result,
        raw.priority == r.priority,
        raw.completed == 1 <==> r.completed,
        raw.completed == 0 <==> !r.completed,
        raw.cancelled == 1 <==> r.cancelled,
        raw.cancelled == 0 <==> !r.cancelled,
        raw.archived == 1 <==> r.archived,
        raw.archived == 0 <==> !r.archived,
        text::opt_text(raw.commit_sha) == r.commit_sha,
        text::opt_text(raw.bookmark) == r.bookmark,
        text::opt_text(raw.start_commit) == r.start_commit,
        text::opt_text(raw.base_ref) == r.base_ref,
        text::opt_text(raw.repo_path) == r.repo_path,
        text::opt_text(raw.created_at) == time::rfc3339_text(
            r.created_at.secs,
            r.created_at.nanos,
        ),
        text::opt_text(raw.updated_at) == time::rfc3339_text(
            r.updated_at.secs,
            r.updated_at.nanos,
        ),
        r.completed_at matches Some(t) ==> text::opt_text(raw.completed_at) == time::rfc3339_text(
            t.secs,
            t.nanos,
        ),
        r.started_at matches Some(t) ==> text::opt_text(raw.started_at) == time::rfc3339_text(
            t.secs,
            t.nanos,
        ),
        r.cancelled_at matches Some(t) ==> text::opt_text(raw.cancelled_at) == time::rfc3339_text(
            t.secs,
            t.nanos,
        ),
        r.archived_at matches Some(t) ==> text::opt_text(raw.archived_at) == time::rfc3339_text(
            t.secs,
            t.nanos,
        ),
        r.completed_at is None ==> raw.completed_at is None,
        r.started_at is None ==> raw.started_at is None,
        r.cancelled_at is None ==> raw.cancelled_at is None,
        r.archived_at is None ==> raw.archived_at is None,
{
}

/// The bookmarks of a task and of all tasks below it are those of their rows.
pub proof fn law_bookmarks_of_a_subtree(d: Db, id: TaskId, b: Seq<char>)
    requires
        d.wf(),
        d.has(id),
    ensures
        task_repo::bookmarks(d, seq![id] + d.descendants(id)).contains(b) <==> exists|r: RowView| #[trigger]
            d.tasks.contains(r) && table_laws::at_or_above(d, id, r.id) && r.bookmark == Some(b),
{
    let ids = seq![id] + d.descendants(id);
    lemma_bookmarks(d, ids, b);
    if task_repo::bookmarks(d, ids).contains(b) {
        let i = choose|i: int|
            0 <= i < ids.len() && d.has(#[trigger] ids[i]) && d.row(ids[i]).bookmark == Some(b);
        let x = ids[i];
        if i > 0 {
            assert(d.descendants(id)[i - 1] == x);
            assert(d.descendants(id).contains(x));
            model::lemma_descendants(d, id, x);
        }
        table_laws::law_hierarchy(d, id, x);
        model::lemma_row(d, x);
        assert(d.tasks.contains(d.row(x)));
    }
    if exists|r: RowView| #[trigger]
        d.tasks.contains(r) && table_laws::at_or_above(d, id, r.id) && r.bookmark == Some(b) {
        let r = choose|r: RowView| #[trigger]
            d.tasks.contains(r) && table_laws::at_or_above(d, id, r.id) && r.bookmark == Some(b);
        table_laws::law_rows(d, r.id);
        assert(table_laws::row_of(d, r.id, r));
        table_laws::law_hierarchy(d, id, r.id);
        if r.id == id {
            assert(ids[0] == r.id);
        } else {
            model::lemma_descendants(d, id, r.id);
            let i = choose|i: int| 0 <= i < d.descendants(id).len() && d.descendants(id)[i] == r.id;
            assert(ids[i + 1] == r.id);
        }
    }
}

proof fn lemma_bookmarks(d: Db, ids: Seq<TaskId>, b: Seq<char>)
    ensures
        task_repo::bookmarks(d, ids).contains(b) <==> exists|i: int|
            0 <= i < ids.len() && d.has(#[trigger] ids[i]) && d.row(ids[i]).bookmark == Some(b),
    decreases ids.len(),
{
    let all = task_repo::bookmarks(d, ids);
    if ids.len() > 0 {
        let before = ids.drop_last();
        let rest = task_repo::bookmarks(d, before);
        lemma_bookmarks(d, before, b);
        if all.contains(b) {
            let j = choose|j: int| 0 <= j < all.len() && all[j] == b;
            if j < rest.len() {
                assert(rest[j] == b);
                let i = choose|i: int|
                    0 <= i < before.len() && d.has(#[trigger] before[i]) && d.row(before[i]).bookmark
                        == Some(b);
                assert(ids[i] == before[i]);
            } else {
                assert(d.has(ids[ids.len() - 1]));
            }
        }
        if exists|i: int|
            0 <= i < ids.len() && d.has(#[trigger] ids[i]) && d.row(ids[i]).bookmark == Some(b) {
            let i = choose|i: int|
                0 <= i < ids.len() && d.has(#[trigger] ids[i]) && d.row(ids[i]).bookmark == Some(b);
            if i < before.len() {
                assert(before[i] == ids[i]);
                let j = choose|j: int| 0 <= j < rest.len() && rest[j] == b;
                assert(all[j] == b);
            } else {
                assert(all[all.len() - 1] == b);
            }
        }
    }
}

/// A new task gets its blockers in turn up to the first that is named twice, or is neither stored nor
/// the task itself.
pub proof fn law_first_refused_blocker(d: Db, id: TaskId, bs: Seq<TaskId>)
    ensures
        ({
            let n = model::first_refused(d, id, bs, 0);
            &&& 0 <= n <= bs.len()
            &&& bs.take(n).no_duplicates()
            &&& forall|i: int| 0 <= i < n ==> #[trigger] bs[i] == id || d.has(bs[i])
            &&& n < bs.len() ==> bs.take(n).contains(bs[n]) || bs[n] != id && !d.has(bs[n])
        }),
{
    lemma_first_refused(d, id, bs, 0);
    let n = model::first_refused(d, id, bs, 0);
    let t = bs.take(n);
    assert forall|i: int, j: int| 0 <= i < t.len() && 0 <= j < t.len() && i != j implies t[i]
        != t[j] by {
        assert(!model::refused(d, id, bs, i) && !model::refused(d, id, bs, j));
    }
    assert forall|i: int| 0 <= i < n implies #[trigger] bs[i] == id || d.has(bs[i]) by {
        assert(!model::refused(d, id, bs, i));
    }
    if n < bs.len() && model::repeats(bs, n) {
        let i = choose|i: int| 0 <= i < n && bs[i] == bs[n];
        assert(t[i] == bs[n]);
    }
}

proof fn lemma_first_refused(d: Db, id: TaskId, bs: Seq<TaskId>, from: int)
    requires
        0 <= from <= bs.len(),
    ensures
        ({
            let n = model::first_refused(d, id, bs, from);
            &&& from <= n <= bs.len()
            &&& forall|i: int| from <= i < n ==> !(#[trigger] model::refused(d, id, bs, i))
            &&& n < bs.len() ==> model::refused(d, id, bs, n)
        }),
    decreases bs.len() - from,
{
    if from < bs.len() && !model::refused(d, id, bs, from) {
        lemma_first_refused(d, id, bs, from + 1);
    }
}

} // verus!
