//! What the commands on tasks answer, by the rows and the edges.
use vstd::prelude::*;

use crate::commands::args::{CompleteArgs, ListArgs, TaskCommand};
use crate::commands::task;
use crate::commands::task::{HandledView, ResultView, TreeView};
use crate::error::Fault;
use crate::id::TaskId;
use crate::model;
use crate::model::Db;
use crate::service::context;
use crate::service::laws;
use crate::service::order_laws;
use crate::service::readiness;
use crate::service::ready_laws;
use crate::service::row_laws;
use crate::service::rules;
use crate::service::start_laws;
use crate::service::workflow_service::{
    ActionView, CompletePhaseView, NextView, RunView, StartPhaseView,
};
use crate::table_laws;
use crate::text;
use crate::text_laws;
use crate::time::Timestamp;
use crate::types::{CreateView, FilterView, RowView, TaskView, UpdateView};

verus! {

/// Whether a list of tasks shows a row.
pub open spec fn listed(ts: Seq<TaskView>, r: RowView) -> bool {
    exists|i: int| 0 <= i < ts.len() && (#[trigger] ts[i]).row == r
}

/// A search finds a stored task exactly where the query, in small letters, stands in its description,
/// its context or its result, each in small letters; each task that is found is shown as it is
/// stored, and none twice.
pub proof fn law_search_finds_by_text(d: Db, query: Seq<char>, r: RowView, i: int, j: int)
    requires
        d.wf(),
        d.tasks.contains(r),
    ensures
        ({
            let q = text::lowercase(query);
            let ts = task::search(d, query);
            &&& listed(ts, r) <==> {
                ||| text_laws::mentions(text::lowercase(r.description), q)
                ||| text_laws::mentions(text::lowercase(r.context), q)
                ||| r.result is Some && text_laws::mentions(text::lowercase(r.result->0), q)
            }
            &&& 0 <= i < ts.len() ==> d.tasks.contains(ts[i].row) && row_laws::shows(
                d,
                ts[i].row.id,
                ts[i],
            )
            &&& 0 <= i < j < ts.len() ==> ts[i].row.id != ts[j].row.id
        }),
{
    let f = task::any_task();
    let g = |t: TaskView| task::found(t.row, query);
    let all = rules::list(d, f);
    let ids = rules::list_ids(d, f);
    let ts = all.filter(g);
    text_laws::lemma_mentions(text::lowercase(r.description), text::lowercase(query));
    text_laws::lemma_mentions(text::lowercase(r.context), text::lowercase(query));
    if r.result is Some {
        text_laws::lemma_mentions(text::lowercase(r.result->0), text::lowercase(query));
    }
    table_laws::law_rows(d, r.id);
    assert(table_laws::row_of(d, r.id, r));
    let t = d.task(r.id);
    laws::law_listing_is_exact(d, f, r.id);
    assert(ids.contains(r.id));
    let n = choose|n: int| 0 <= n < ids.len() && ids[n] == r.id;
    assert(all[n] == t);
    assert(all.contains(t));
    laws::lemma_filter_exact(all, g, t);
    if g(t) {
        let k = choose|k: int| 0 <= k < ts.len() && ts[k] == t;
        assert(ts[k].row == r);
    }
    if listed(ts, r) {
        let k = choose|k: int| 0 <= k < ts.len() && (#[trigger] ts[k]).row == r;
        assert(ts.contains(ts[k]));
        laws::lemma_filter_exact(all, g, ts[k]);
    }
    lemma_shown(d, f, g, i);
    lemma_distinct(d, f, g, i, j);
}

/// What a filtered listing shows is stored.
proof fn lemma_shown(d: Db, f: FilterView, g: spec_fn(TaskView) -> bool, i: int)
    requires
        d.wf(),
    ensures
        ({
            let ts = rules::list(d, f).filter(g);
            0 <= i < ts.len() ==> d.tasks.contains(ts[i].row) && row_laws::shows(
                d,
                ts[i].row.id,
                ts[i],
            )
        }),
{
    let all = rules::list(d, f);
    let ids = rules::list_ids(d, f);
    let ts = all.filter(g);
    if 0 <= i < ts.len() {
        assert(ts.contains(ts[i]));
        laws::lemma_filter_exact(all, g, ts[i]);
        let k = choose|k: int| 0 <= k < all.len() && all[k] == ts[i];
        let x = ids[k];
        assert(ids.contains(x));
        laws::law_listing_is_exact(d, f, x);
        model::lemma_row(d, x);
        row_laws::law_answers_show_what_is_stored(d, x);
    }
}

proof fn lemma_distinct(d: Db, f: FilterView, g: spec_fn(TaskView) -> bool, i: int, j: int)
    requires
        d.wf(),
    ensures
        ({
            let ts = rules::list(d, f).filter(g);
            0 <= i < j < ts.len() ==> ts[i].row.id != ts[j].row.id
        }),
{
    let all = rules::list(d, f);
    let ids = rules::list_ids(d, f);
    let ts = all.filter(g);
    if 0 <= i < j < ts.len() {
        order_laws::lemma_filter_order(all, g, i, j);
        let (k, m) = choose|k: int, m: int|
            0 <= k < m < all.len() && #[trigger] all[k] == ts[i] && #[trigger] all[m] == ts[j];
        laws::law_listing_is_exact(d, f, ids[k]);
        laws::law_listing_is_exact(d, f, ids[m]);
        assert(ids.contains(ids[k]) && ids.contains(ids[m]));
        model::lemma_row(d, ids[k]);
        model::lemma_row(d, ids[m]);
        assert(ids[k] != ids[m]);
    }
}

/// The case of the letters does not matter to a search: queries that are alike in small letters
/// find the same, and a task whose description, context or result is the query, or is alike to it
/// in small letters, is found.
pub proof fn law_search_ignores_case(d: Db, query: Seq<char>, other: Seq<char>, r: RowView)
    requires
        d.wf(),
        text::lowercase(query) == text::lowercase(other),
    ensures
        task::search(d, query) == task::search(d, other),
        d.tasks.contains(r) && (r.description == other || r.context == other || r.result == Some(
            other,
        )) ==> listed(task::search(d, query), r),
{
    row_laws::lemma_filter_same(
        rules::list(d, task::any_task()),
        |t: TaskView| task::found(t.row, query),
        |t: TaskView| task::found(t.row, other),
    );
    if d.tasks.contains(r) {
        law_search_finds_by_text(d, query, r, 0, 0);
        let q = text::lowercase(query);
        assert(q =~= Seq::<char>::empty() + q + Seq::<char>::empty());
        assert(text_laws::mentions(q, q));
    }
}

/// How many levels the row of a task stands below its milestone.
pub open spec fn level(d: Db, r: RowView) -> int {
    match r.parent_id {
        None => 0,
        Some(p) => if exists|m: TaskId| table_laws::child_of(d, p, m) {
            2
        } else {
            1
        },
    }
}

proof fn lemma_level(d: Db, r: RowView)
    requires
        d.wf(),
        d.tasks.contains(r),
    ensures
        d.depth(r.id) == level(d, r),
        d.has(r.id),
        d.row(r.id) == r,
{
    table_laws::law_rows(d, r.id);
    assert(table_laws::row_of(d, r.id, r));
    table_laws::law_hierarchy(d, r.id, r.id);
    match r.parent_id {
        None => {
            assert(d.up(r.id, 0) == Some(r.id));
            assert(d.up(r.id, 1) == d.parent(r.id));
        },
        Some(p) => {
            assert(table_laws::child_of(d, r.id, p));
            table_laws::law_hierarchy(d, p, r.id);
            if exists|m: TaskId| table_laws::child_of(d, p, m) {
                let m = choose|m: TaskId| table_laws::child_of(d, p, m);
                assert(table_laws::child_of(d, r.id, p) && table_laws::child_of(d, p, m));
            }
            if d.depth(r.id) == 2 {
                let (q, m) = choose|q: TaskId, m: TaskId| #[trigger]
                    table_laws::child_of(d, r.id, q) && #[trigger] table_laws::child_of(d, q, m);
                table_laws::lemma_child(d, r.id, q);
            }
        },
    }
}

/// Whether a row is what a filter asks for: the parent, the completion, the level, the archiving and
/// the repository that it names, and where ready tasks are asked for, a task that is not finished
/// and that nothing holds up.
pub open spec fn matches_filter(d: Db, f: FilterView, r: RowView) -> bool {
    &&& f.parent_id is Some ==> r.parent_id == f.parent_id
    &&& f.completed matches Some(c) ==> r.completed == c
    &&& f.depth matches Some(n) ==> level(d, r) == n
    &&& f.archived matches Some(a) ==> r.archived == a
    &&& f.repo_path is Some ==> r.repo_path == f.repo_path
    &&& f.ready ==> !r.completed && !r.cancelled && !r.archived && !table_laws::held_up(d, r.id)
}

/// A listing shows exactly the rows that the filter asks for, each as it is stored and once.
pub proof fn law_listings_show_what_is_asked_for(
    d: Db,
    f: FilterView,
    r: RowView,
    i: int,
    j: int,
)
    requires
        d.wf(),
        d.tasks.contains(r),
    ensures
        ({
            let ts = rules::list(d, f);
            &&& listed(ts, r) <==> matches_filter(d, f, r)
            &&& 0 <= i < ts.len() ==> d.tasks.contains(ts[i].row) && row_laws::shows(
                d,
                ts[i].row.id,
                ts[i],
            )
            &&& 0 <= i < j < ts.len() ==> ts[i].row.id != ts[j].row.id
        }),
{
    let ts = rules::list(d, f);
    let ids = rules::list_ids(d, f);
    let any = |t: TaskView| true;
    lemma_filter_all(ts);
    lemma_shown(d, f, any, i);
    lemma_distinct(d, f, any, i, j);
    lemma_level(d, r);
    table_laws::law_what_holds_a_task_up(d, r.id);
    let g = |x: TaskId| f.ready ==> rules::ready(d, x);
    model::lemma_listed(d, f);
    laws::lemma_filter_exact(d.listed(f), g, r.id);
    model::lemma_chain_step(d, r.id);
    assert(ids.contains(r.id) <==> matches_filter(d, f, r));
    if ids.contains(r.id) {
        let k = choose|k: int| 0 <= k < ids.len() && ids[k] == r.id;
        assert(ts[k].row == r);
    }
    if listed(ts, r) {
        let k = choose|k: int| 0 <= k < ts.len() && (#[trigger] ts[k]).row == r;
        laws::law_listing_is_exact(d, f, ids[k]);
        assert(ids.contains(ids[k]));
        model::lemma_row(d, ids[k]);
        assert(ids[k] == r.id);
    }
}

proof fn lemma_filter_all(s: Seq<TaskView>)
    ensures
        s.filter(|t: TaskView| true) == s,
    decreases s.len(),
{
    reveal(Seq::filter);
    let any = |t: TaskView| true;
    if s.len() > 0 {
        lemma_filter_all(s.drop_last());
        assert(s =~= s.drop_last().push(s.last()));
    } else {
        assert(s.filter(any) =~= s);
    }
}

/// The list command shows the rows that its options ask for. Archived tasks are shown only where
/// they, or all tasks, are asked for; of the options for a level the highest level counts.
pub proof fn law_list_options(d: Db, args: ListArgs, r: RowView)
    requires
        d.wf(),
        d.tasks.contains(r),
    ensures
        task::seen(d, TaskCommand::List(args)) matches Ok(ResultView::Many(ts)) && (listed(ts, r)
            <==> {
            &&& args.parent is Some ==> r.parent_id == args.parent
            &&& args.completed ==> r.completed
            &&& args.milestones ==> r.parent_id is None
            &&& args.tasks && !args.milestones ==> level(d, r) == 1
            &&& args.subtasks && !args.tasks && !args.milestones ==> level(d, r) == 2
            &&& args.archived ==> r.archived
            &&& !args.archived && !args.all ==> !r.archived
            &&& args.repo matches Some(path) ==> r.repo_path == Some(path@)
            &&& args.ready ==> !r.completed && !r.cancelled && !r.archived && !table_laws::held_up(
                d,
                r.id,
            )
        }),
{
    law_listings_show_what_is_asked_for(d, task::list_view(args), r, 0, 0);
}

/// The commands that change a task do to it what their arguments name.
pub proof fn law_commands_pass_their_arguments_on(
    d: Db,
    cmd: TaskCommand,
    id: TaskId,
    now: Timestamp,
    c: CreateView,
    u: UpdateView,
)
    ensures
        ({
            let (e, a) = task::handled(d, cmd, id, now);
            match cmd {
                TaskCommand::Create(args) => (c.description == args.description@ && c.context
                    == text::opt_text(args.context) && c.parent_id == args.parent && c.priority
                    == args.priority && c.blocked_by == args.blocked_by@ && c.repo_path
                    == text::opt_text(args.repo)) ==> (e, a) == answer_one(
                    rules::create(d, c, id, now),
                ),
                TaskCommand::Update(args) => (u.description == text::opt_text(args.description)
                    && u.context == text::opt_text(args.context) && u.priority == args.priority
                    && u.parent_id == args.parent && u.repo_path == text::opt_text(args.repo)
                    && u.clear_repo_path == args.clear_repo) ==> (e, a) == answer_one(
                    rules::update(d, args.id, u, now),
                ),
                TaskCommand::Reopen { id: x } => (e, a) == answer_one(rules::reopen(d, x, now)),
                TaskCommand::Cancel { id: x } => (e, a) == answer_one(rules::cancel(d, x, now)),
                TaskCommand::Archive { id: x } => (e, a) == answer_one(rules::archive(d, x, now)),
                TaskCommand::Delete { id: x } => e == rules::delete(d, x).0 && (a is Ok
                    <==> d.has(x)) && (a matches Ok(r) ==> r == ResultView::Deleted),
                TaskCommand::Block(args) => (e, a) == answer_one(
                    rules::add_blocker(d, args.id, args.by),
                ),
                TaskCommand::Unblock(args) => (e, a) == answer_one(
                    rules::remove_blocker(d, args.id, args.by),
                ),
                _ => e == d,
            }
        }),
{
}

/// The answer of a command that changes one task.
pub open spec fn answer_one(r: (Db, Result<TaskView, Fault>)) -> (Db, Result<ResultView, Fault>) {
    match r.1 {
        Ok(t) => (r.0, Ok(ResultView::One(t))),
        Err(f) => (r.0, Err(f)),
    }
}

/// The commands that only read answer with the task that is asked for and its contexts, with the
/// next ready task and its contexts where there is one, or with the refusal; starting and
/// completing outside a repository are refused.
pub proof fn law_reading_commands_answer(d: Db, cmd: TaskCommand)
    requires
        d.wf(),
    ensures
        match cmd {
            TaskCommand::Get { id } => match task::seen(d, cmd) {
                Ok(ResultView::OneWithContext(w)) => d.has(id) && rules::get(d, id) == Ok::<
                    TaskView,
                    Fault,
                >(w.task) && w == context::with_context(d, w.task) && w.task.row == d.row(id),
                Err(f) => !d.has(id) && f == Fault::TaskNotFound(id),
                _ => false,
            },
            TaskCommand::NextReady(args) => match task::seen(d, cmd) {
                Ok(ResultView::MaybeOneWithContext(Some(w))) => readiness::next_ready(
                    d,
                    args.milestone,
                ) == Ok::<Option<TaskId>, Fault>(Some(w.task.row.id)) && w
                    == context::with_context(d, w.task) && rules::get(d, w.task.row.id) == Ok::<
                    TaskView,
                    Fault,
                >(w.task),
                Ok(ResultView::MaybeOneWithContext(None)) => readiness::next_ready(
                    d,
                    args.milestone,
                ) == Ok::<Option<TaskId>, Fault>(None),
                Err(f) => readiness::next_ready(d, args.milestone) == Err::<
                    Option<TaskId>,
                    Fault,
                >(f),
                _ => false,
            },
            TaskCommand::Search(args) => task::seen(d, cmd) == Ok::<ResultView, Fault>(
                ResultView::Many(task::search(d, args.query@)),
            ),
            TaskCommand::Start { id } => task::seen(d, cmd) == Err::<ResultView, Fault>(
                Fault::NotARepository,
            ),
            TaskCommand::Complete(args) => task::seen(d, cmd) == Err::<ResultView, Fault>(
                Fault::NotARepository,
            ),
            _ => true,
        },
{
    if let TaskCommand::Get { id } = cmd {
        if d.has(id) {
            model::lemma_row(d, id);
        }
    }
    if let TaskCommand::NextReady(args) = cmd {
        match args.milestone {
            Some(r) => {
                if d.has(r) {
                    ready_laws::law_next_ready(d, args.milestone, r, r);
                    if let Ok(Some(x)) = readiness::next_ready(d, args.milestone) {
                        model::lemma_row(d, x);
                    }
                }
            },
            None => {
                ready_laws::law_next_ready(d, None, TaskId { ulid: 0 }, TaskId { ulid: 0 });
                if let Ok(Some(x)) = readiness::next_ready(d, args.milestone) {
                    model::lemma_row(d, x);
                }
            },
        }
    }
}

/// Progress counts the rows of the named task and below it, or all rows: those that are completed,
/// and of the others those that a blocker of theirs or above them holds up and those that none does.
pub proof fn law_progress_counts_rows(d: Db, root: Option<TaskId>)
    requires
        d.wf(),
        d.tasks.len() <= usize::MAX,
    ensures
        ({
            let p = task::progress(d, root);
            let inside = |r: RowView| root is Some ==> table_laws::at_or_above(d, root->0, r.id);
            &&& p.total == d.tasks.filter(|r: RowView| inside(r)).len()
            &&& p.completed == d.tasks.filter(|r: RowView| inside(r) && r.completed).len()
            &&& p.ready == d.tasks.filter(
                |r: RowView| inside(r) && !r.completed && !table_laws::held_up(d, r.id),
            ).len()
            &&& p.blocked == d.tasks.filter(
                |r: RowView| inside(r) && !r.completed && table_laws::held_up(d, r.id),
            ).len()
        }),
{
    let inside = |r: RowView| root is Some ==> table_laws::at_or_above(d, root->0, r.id);
    assert forall|r: RowView| task::in_scope(d, root, r) == #[trigger] inside(r) by {
        if root is Some {
            table_laws::law_hierarchy(d, root->0, r.id);
        }
    }
    assert forall|x: TaskId| d.effectively_blocked(x) == #[trigger] table_laws::held_up(d, x) by {
        table_laws::law_what_holds_a_task_up(d, x);
    }
    lemma_count(d, |r: RowView| task::in_scope(d, root, r), |r: RowView| inside(r));
    lemma_count(
        d,
        |r: RowView| task::in_scope(d, root, r) && r.completed,
        |r: RowView| inside(r) && r.completed,
    );
    lemma_count(
        d,
        |r: RowView| task::in_scope(d, root, r) && !r.completed && !d.effectively_blocked(r.id),
        |r: RowView| inside(r) && !r.completed && !table_laws::held_up(d, r.id),
    );
    lemma_count(
        d,
        |r: RowView| task::in_scope(d, root, r) && !r.completed && d.effectively_blocked(r.id),
        |r: RowView| inside(r) && !r.completed && table_laws::held_up(d, r.id),
    );
}

proof fn lemma_count(d: Db, f: spec_fn(RowView) -> bool, g: spec_fn(RowView) -> bool)
    requires
        d.tasks.len() <= usize::MAX,
        forall|i: int| 0 <= i < d.tasks.len() ==> f(#[trigger] d.tasks[i]) == g(d.tasks[i]),
    ensures
        task::count(d, f) == d.tasks.filter(g).len(),
{
    row_laws::lemma_filter_same(d.tasks, f, g);
    lemma_filter_len(d.tasks, g);
}

proof fn lemma_filter_len(s: Seq<RowView>, g: spec_fn(RowView) -> bool)
    ensures
        s.filter(g).len() <= s.len(),
    decreases s.len(),
{
    reveal(Seq::filter);
    if s.len() > 0 {
        lemma_filter_len(s.drop_last(), g);
    }
}

/// Whether a tree is that of the rows: the children of a node are the tasks whose rows name it as
/// their parent, by priority and age, each shown as it is stored, and so on below them.
pub open spec fn grown_from_rows(d: Db, t: TreeView, levels: nat) -> bool
    decreases levels,
{
    if levels == 0 {
        t.children.len() == 0
    } else {
        &&& forall|x: TaskId| #[trigger]
            table_laws::child_of(d, x, t.task.row.id) <==> node_for(t, x)
        &&& forall|i: int|
            0 <= i < t.children.len() ==> row_laws::shows(
                d,
                (#[trigger] t.children[i]).task.row.id,
                t.children[i].task,
            )
        &&& forall|i: int, j: int|
            0 <= i < j < t.children.len() ==> order_laws::no_later(
                (#[trigger] t.children[i]).task.row,
                (#[trigger] t.children[j]).task.row,
            )
        &&& forall|i: int, j: int|
            0 <= i < j < t.children.len() ==> (#[trigger] t.children[i]).task.row.id != (
            #[trigger] t.children[j]).task.row.id
        &&& forall|i: int|
            0 <= i < t.children.len() ==> grown_from_rows(
                d,
                #[trigger] t.children[i],
                (levels - 1) as nat,
            )
    }
}

/// Whether one of the children of a node is for a task.
pub open spec fn node_for(t: TreeView, x: TaskId) -> bool {
    exists|i: int| 0 <= i < t.children.len() && (#[trigger] t.children[i]).task.row.id == x
}

/// The tree of a task is the hierarchy below it.
pub proof fn law_trees_follow_the_rows(d: Db, t: TaskView, levels: nat)
    requires
        d.wf(),
        d.tasks.len() <= u64::MAX,
    ensures
        task::tree(d, t, levels).task == t,
        grown_from_rows(d, task::tree(d, t, levels), levels),
    decreases levels,
{
    if levels > 0 {
        let id = t.row.id;
        let f = task::children_of(id);
        let ids = rules::list_ids(d, f);
        let node = task::tree(d, t, levels);
        let rest = (levels - 1) as nat;
        assert forall|i: int| 0 <= i < ids.len() implies #[trigger] node.children[i] == task::tree(
            d,
            d.task(ids[i]),
            rest,
        ) && d.has(ids[i]) && d.parent(ids[i]) == Some(id) && d.row(ids[i]).id == ids[i]
            && node.children[i].task == d.task(ids[i]) by {
            assert(ids.contains(ids[i]));
            laws::law_listing_is_exact(d, f, ids[i]);
            model::lemma_row(d, ids[i]);
            law_trees_follow_the_rows(d, d.task(ids[i]), rest);
        }
        assert forall|x: TaskId| #[trigger] table_laws::child_of(d, x, id) <==> node_for(node, x) by {
            table_laws::lemma_child(d, x, id);
            laws::law_listing_is_exact(d, f, x);
            if d.parent(x) == Some(id) {
                assert(ids.contains(x));
                let i = choose|i: int| 0 <= i < ids.len() && ids[i] == x;
                assert(node.children[i].task.row.id == x);
            }
        }
        assert forall|i: int| 0 <= i < node.children.len() implies row_laws::shows(
            d,
            (#[trigger] node.children[i]).task.row.id,
            node.children[i].task,
        ) && grown_from_rows(d, node.children[i], rest) by {
            row_laws::law_answers_show_what_is_stored(d, ids[i]);
            law_trees_follow_the_rows(d, d.task(ids[i]), rest);
        }
        assert forall|i: int, j: int| 0 <= i < j < node.children.len() implies order_laws::no_later(
            (#[trigger] node.children[i]).task.row,
            (#[trigger] node.children[j]).task.row,
        ) && node.children[i].task.row.id != node.children[j].task.row.id by {
            model::lemma_row(d, ids[i]);
            model::lemma_row(d, ids[j]);
            order_laws::law_listings_come_by_priority_and_age(
                d,
                f,
                i,
                j,
                d.pos(ids[i]),
                d.pos(ids[j]),
            );
        }
    }
}

/// The tree command gives the tree of the named task, or one tree for each milestone, by priority
/// and age.
pub proof fn law_tree_command(d: Db, cmd: TaskCommand, r: RowView)
    requires
        d.wf(),
        d.tasks.len() <= u64::MAX,
        d.tasks.contains(r),
    ensures
        cmd matches TaskCommand::Tree(args) ==> match task::seen(d, cmd) {
            Ok(ResultView::Tree(t)) => args.id == Some(t.task.row.id) && row_laws::shows(
                d,
                t.task.row.id,
                t.task,
            ) && grown_from_rows(d, t, 3),
            Ok(ResultView::Trees(ts)) => {
                &&& args.id is None
                &&& r.parent_id is None <==> exists|i: int|
                    0 <= i < ts.len() && (#[trigger] ts[i]).task.row == r
                &&& forall|i: int|
                    0 <= i < ts.len() ==> grown_from_rows(d, #[trigger] ts[i], 3)
                        && row_laws::shows(d, ts[i].task.row.id, ts[i].task)
            },
            Err(f) => args.id matches Some(x) && !table_laws::stored(d, x) && f
                == Fault::TaskNotFound(x),
            _ => false,
        },
{
    if let TaskCommand::Tree(args) = cmd {
        match args.id {
            Some(x) => {
                table_laws::law_rows(d, x);
                if d.has(x) {
                    model::lemma_row(d, x);
                    law_trees_follow_the_rows(d, rules::full_task(d, x), 3);
                    row_laws::law_answers_show_what_is_stored(d, x);
                }
            },
            None => {
                let f = task::milestones();
                let ids = rules::list_ids(d, f);
                let ts = task::trees(d, ids);
                lemma_level(d, r);
                laws::law_listing_is_exact(d, f, r.id);
                assert forall|i: int| 0 <= i < ts.len() implies grown_from_rows(
                    d,
                    #[trigger] ts[i],
                    3,
                ) && row_laws::shows(d, ts[i].task.row.id, ts[i].task) && ts[i].task.row == d.row(
                    ids[i],
                ) && d.row(ids[i]).id == ids[i] by {
                    assert(ids.contains(ids[i]));
                    laws::law_listing_is_exact(d, f, ids[i]);
                    model::lemma_row(d, ids[i]);
                    law_trees_follow_the_rows(d, d.task(ids[i]), 3);
                    row_laws::law_answers_show_what_is_stored(d, ids[i]);
                }
                if r.parent_id is None {
                    assert(ids.contains(r.id));
                    let i = choose|i: int| 0 <= i < ids.len() && ids[i] == r.id;
                    assert(ts[i].task.row == r);
                }
                if exists|i: int| 0 <= i < ts.len() && (#[trigger] ts[i]).task.row == r {
                    let i = choose|i: int| 0 <= i < ts.len() && (#[trigger] ts[i]).task.row == r;
                    assert(ids[i] == r.id);
                    assert(ids.contains(r.id));
                }
            },
        }
    }
}

/// In a repository a task is completed with the result and the learnings of the command, beginning
/// with its commit; a task that is free is started itself; nothing is stored by that yet. All other
/// commands do what they do without one.
pub proof fn law_commands_in_a_repository(
    d: Db,
    git: bool,
    r: RowView,
    args: CompleteArgs,
    cmd: TaskCommand,
    id: TaskId,
    now: Timestamp,
)
    requires
        d.wf(),
        d.tasks.contains(r),
        args.id == r.id,
    ensures
        ({
            let live = !r.archived && !r.cancelled && !r.completed;
            let free = !table_laws::open_child(d, r.id) && !table_laws::held_up(d, r.id);
            let done = task::handled_in_repo(d, git, TaskCommand::Complete(args), id, now);
            let begun = task::handled_in_repo(d, git, TaskCommand::Start { id: r.id }, id, now);
            &&& done.0 == d && begun.0 == d
            &&& live ==> (done.1 matches HandledView::Step(s) && s.next matches NextView::Do {
                action,
                run: RunView::Complete(c),
            } && {
                &&& action is Commit
                &&& c.phase == (CompletePhaseView::Commit {
                    id: r.id,
                    milestone: r.parent_id is None,
                })
                &&& c.result == text::opt_text(args.result)
                &&& c.learnings == text::texts(args.learnings@)
            })
            &&& live && free && r.started_at is None ==> (begun.1 matches HandledView::Step(s)
                && s.next matches NextView::Do { action, run: RunView::Start { id: x, phase } } && {
                &&& x == r.id
                &&& git ==> action == ActionView::CurrentBranchName && phase == StartPhaseView::Base
                &&& !git ==> action is CreateBookmark
            })
            &&& !(cmd is Start) && !(cmd is Complete) ==> task::handled_in_repo(
                d,
                git,
                cmd,
                id,
                now,
            ) == (task::handled(d, cmd, id, now).0, HandledView::Answer(
                task::handled(d, cmd, id, now).1,
            ))
        }),
{
    table_laws::law_rows(d, r.id);
    assert(table_laws::row_of(d, r.id, r));
    assert(d.up(r.id, 0) == Some(r.id));
    assert(d.up(r.id, 1) == d.parent(r.id));
    if !r.cancelled && !r.completed && !table_laws::open_child(d, r.id) && !table_laws::held_up(
        d,
        r.id,
    ) {
        start_laws::law_a_free_task_is_started_itself(d, r);
        start_laws::law_when_a_start_goes_on(d, git, r);
    }
}

} // verus!
