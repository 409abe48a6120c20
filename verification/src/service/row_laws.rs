//! What each operation does to the rows and the edges, and when it is refused.
use vstd::prelude::*;

use crate::error::Fault;
use crate::id::{LearningId, TaskId};
use crate::keep;
use crate::model;
use crate::model::Db;
use crate::service::laws;
use crate::service::rules;
use crate::table_laws;
use crate::time::Timestamp;
use crate::types::{BlockerRelation, CreateView, LearningView, RowView, TaskView, UpdateView};

verus! {

/// Whether two states differ in the row of one task only, and that row stays where it was.
pub open spec fn only_row_changes(d: Db, e: Db, id: TaskId) -> bool {
    &&& e.tasks.len() == d.tasks.len()
    &&& forall|i: int|
        0 <= i < d.tasks.len() ==> (#[trigger] e.tasks[i]).id == d.tasks[i].id && (d.tasks[i].id
            != id ==> e.tasks[i] == d.tasks[i])
    &&& e.blockers == d.blockers
    &&& e.learnings == d.learnings
}

/// Whether the answer of an operation shows a task as it is stored: its row, its depth, whether it
/// or a task above it has a blocker that is not done, the tasks that it waits for and those that
/// wait for it.
pub open spec fn shows(d: Db, id: TaskId, t: TaskView) -> bool {
    &&& table_laws::row_of(d, id, t.row)
    &&& t.depth == Some(0i32) <==> !exists|p: TaskId| table_laws::child_of(d, id, p)
    &&& t.depth == Some(2i32) <==> exists|p: TaskId, m: TaskId| #[trigger]
        table_laws::child_of(d, id, p) && #[trigger] table_laws::child_of(d, p, m)
    &&& t.depth == Some(0i32) || t.depth == Some(1i32) || t.depth == Some(2i32)
    &&& t.effectively_blocked <==> table_laws::held_up(d, id)
    &&& forall|b: TaskId| #[trigger] t.blocked_by.contains(b) <==> table_laws::edge(d, id, b)
    &&& forall|b: TaskId| #[trigger] t.blocks.contains(b) <==> table_laws::edge(d, b, id)
}

/// What is answered for a task is what is stored of it.
pub proof fn law_answers_show_what_is_stored(d: Db, id: TaskId)
    requires
        d.wf(),
        d.has(id),
    ensures
        shows(d, id, d.task(id)),
        shows(d, id, rules::full_task(d, id)),
        rules::get(d, id) matches Ok(t) && shows(d, id, t),
{
    table_laws::law_rows(d, id);
    table_laws::law_hierarchy(d, id, id);
    table_laws::law_what_holds_a_task_up(d, id);
    assert(table_laws::row_of(d, id, d.row(id)));
    assert forall|b: TaskId| #[trigger] d.blocked_by(id).contains(b) <==> table_laws::edge(
        d,
        b,
        id,
    ) by {
        lemma_blocks(d, id, b);
    }
}

proof fn lemma_blocks(d: Db, id: TaskId, b: TaskId)
    ensures
        d.blocked_by(id).contains(b) <==> table_laws::edge(d, b, id),
{
    let f = |e: BlockerRelation| e.blocker_id == id;
    let s = d.blockers.filter(f);
    let e = BlockerRelation { task_id: b, blocker_id: id };
    laws::lemma_filter_exact(d.blockers, f, e);
    if d.blocked_by(id).contains(b) {
        let i = choose|i: int| 0 <= i < d.blocked_by(id).len() && d.blocked_by(id)[i] == b;
        assert(s.contains(s[i]));
        laws::lemma_filter_exact(d.blockers, f, s[i]);
        assert(s[i] == e);
    }
    if table_laws::edge(d, b, id) {
        let i = choose|i: int| 0 <= i < s.len() && s[i] == e;
        assert(d.blocked_by(id)[i] == b);
    }
}

proof fn lemma_set_rows(d: Db, id: TaskId, r: RowView)
    requires
        d.wf(),
        d.has(id),
        r.id == id,
    ensures
        only_row_changes(d, d.set_row(id, r), id),
        forall|i: int| 0 <= i < d.tasks.len() && d.tasks[i].id == id ==> #[trigger]
            d.set_row(id, r).tasks[i] == r,
        d.set_row(id, r).has(id),
        d.set_row(id, r).row(id) == r,
{
    model::lemma_row(d, id);
    model::lemma_with_row(d, id, r);
    assert forall|i: int| 0 <= i < d.tasks.len() && d.tasks[i].id == id implies i == d.pos(id) by {
        model::lemma_pos(d, i);
    }
}

/// After an update that is not refused the row of the task has, for its description, its context,
/// its priority, its parent and its repository, the value that the request names, and where it names
/// none the value that it had; no other row changes.
pub proof fn law_update_sets_what_it_names(d: Db, id: TaskId, u: UpdateView, now: Timestamp, i: int)
    requires
        d.wf(),
        rules::update(d, id, u, now).1 is Ok,
        0 <= i < d.tasks.len(),
        d.tasks[i].id == id,
    ensures
        ({
            let (e, a) = rules::update(d, id, u, now);
            let r = d.tasks[i];
            let s = e.tasks[i];
            &&& only_row_changes(d, e, id)
            &&& u.description is Some ==> s.description == u.description->0
            &&& u.description is None ==> s.description == r.description
            &&& u.context is Some ==> s.context == u.context->0
            &&& u.context is None ==> s.context == r.context
            &&& u.priority is Some ==> s.priority == u.priority->0
            &&& u.priority is None ==> s.priority == r.priority
            &&& u.parent_id is Some ==> s.parent_id == u.parent_id
            &&& u.parent_id is None ==> s.parent_id == r.parent_id
            &&& u.repo_path is Some ==> s.repo_path == u.repo_path
            &&& u.repo_path is None && u.clear_repo_path ==> s.repo_path is None
            &&& u.repo_path is None && !u.clear_repo_path ==> s.repo_path == r.repo_path
            &&& s.updated_at == now
            &&& s == RowView {
                description: s.description,
                context: s.context,
                priority: s.priority,
                parent_id: s.parent_id,
                repo_path: s.repo_path,
                updated_at: now,
                ..r
            }
            &&& a->Ok_0.row == s
            &&& shows(e, id, a->Ok_0)
        }),
{
    let e = rules::update(d, id, u, now).0;
    model::lemma_pos(d, i);
    let r = model::updated_row(d.row(id), u, now);
    lemma_set_rows(d, id, r);
    lemma_updated_wf(d, id, u, now);
    law_answers_show_what_is_stored(e, id);
}

proof fn lemma_updated_wf(d: Db, id: TaskId, u: UpdateView, now: Timestamp)
    requires
        d.wf(),
        rules::update(d, id, u, now).1 is Ok,
    ensures
        rules::update(d, id, u, now).0.wf(),
{
    let r = model::updated_row(d.row(id), u, now);
    model::lemma_row(d, id);
    if u.parent_id is Some {
        keep::lemma_reparent(d, id, r);
    } else {
        model::lemma_with_row_same_parent(d, id, r);
    }
}

/// Two texts with `..` between them.
pub open spec fn around_dots(a: Seq<char>, b: Seq<char>) -> Seq<char> {
    a + seq!['.', '.'] + b
}

/// Whether a path has a component `..`: it stands between separators or at an end.
pub open spec fn goes_up(path: Seq<char>) -> bool {
    exists|a: Seq<char>, b: Seq<char>|
        path == #[trigger] around_dots(a, b) && (a.len() == 0 || a.last() == '/') && (b.len() == 0
            || b[0] == '/')
}

/// Whether a path to a repository is taken: it does not start at the root and has no component `..`.
pub open spec fn path_ok(path: Seq<char>) -> bool {
    !(path.len() > 0 && path[0] == '/') && !goes_up(path)
}

proof fn lemma_path_ok(path: Seq<char>)
    ensures
        rules::repo_path_fault(path) is None <==> path_ok(path),
{
    if goes_up(path) {
        let (a, b) = choose|a: Seq<char>, b: Seq<char>|
            path == #[trigger] around_dots(a, b) && (a.len() == 0 || a.last() == '/') && (b.len()
                == 0 || b[0] == '/');
        let i = a.len() as int;
        assert(path[i] == '.' && path[i + 1] == '.');
        if i > 0 {
            assert(path[i - 1] == a.last());
        }
        if b.len() > 0 {
            assert(path[i + 2] == b[0]);
        }
        assert(rules::dotdot_at(path, i));
    }
    if exists|i: int| rules::dotdot_at(path, i) {
        let i = choose|i: int| rules::dotdot_at(path, i);
        let a = path.take(i);
        let b = path.skip(i + 2);
        assert(path =~= around_dots(a, b));
        assert(goes_up(path));
    }
}

/// Whether a task can be moved under another one: the other one is stored and live and not the task
/// or below it, the tasks below the moved one stay within three levels, and no blocker of it would
/// come to stand above it.
pub open spec fn movable(d: Db, id: TaskId, p: TaskId) -> bool {
    &&& exists|r: RowView| #[trigger]
        table_laws::row_of(d, p, r) && !r.completed && !r.cancelled && !r.archived
    &&& !table_laws::at_or_above(d, id, p)
    &&& !exists|a: TaskId, b: TaskId| #[trigger]
        table_laws::child_of(d, p, a) && #[trigger] table_laws::child_of(d, a, b)
    &&& !exists|c: TaskId, g: TaskId| #[trigger]
        table_laws::child_of(d, c, id) && #[trigger] table_laws::child_of(d, g, c)
    &&& !exists|c: TaskId, a: TaskId| #[trigger]
        table_laws::child_of(d, c, id) && #[trigger] table_laws::child_of(d, p, a)
    &&& !exists|b: TaskId| #[trigger]
        table_laws::edge(d, id, b) && table_laws::at_or_above(d, b, p)
}

/// An update is taken exactly where the task is not archived, a named priority is 0, 1 or 2, a
/// repository is not both named and cleared, is a relative path without `..` and is changed only
/// before the task is started, and a named parent can be moved to.
pub proof fn law_when_updates_are_taken(d: Db, r: RowView, u: UpdateView, now: Timestamp)
    requires
        d.wf(),
        d.tasks.contains(r),
    ensures
        rules::update(d, r.id, u, now).1 is Ok <==> {
            &&& !r.archived
            &&& u.priority matches Some(p) ==> p == 0 || p == 1 || p == 2
            &&& !(u.repo_path is Some && u.clear_repo_path)
            &&& u.repo_path matches Some(path) ==> path_ok(path) && r.started_at is None
            &&& u.clear_repo_path ==> r.started_at is None
            &&& u.parent_id matches Some(p) ==> movable(d, r.id, p)
        },
        rules::update(d, r.id, u, now).1 is Err ==> rules::update(d, r.id, u, now).0 == d,
        r.archived ==> rules::update(d, r.id, u, now).1 == Err::<TaskView, Fault>(
            Fault::CannotModifyArchived,
        ),
        !r.archived && u.priority is Some && !(0 <= u.priority->0 <= 2) ==> rules::update(
            d,
            r.id,
            u,
            now,
        ).1 == Err::<TaskView, Fault>(Fault::InvalidPriority(u.priority->0)),
{
    table_laws::law_rows(d, r.id);
    assert(table_laws::row_of(d, r.id, r));
    if u.repo_path is Some {
        lemma_path_ok(u.repo_path->0);
    }
    if u.parent_id is Some {
        lemma_movable(d, r.id, u.parent_id->0);
    }
}

proof fn lemma_movable(d: Db, id: TaskId, p: TaskId)
    requires
        d.wf(),
        d.has(id),
    ensures
        rules::move_fault(d, id, p) is None <==> movable(d, id, p),
{
    table_laws::law_rows(d, p);
    table_laws::law_hierarchy(d, id, p);
    assert(d.has(p) ==> table_laws::row_of(d, p, d.row(p)));
    lemma_height(d, id);
    lemma_none_above(d, d.blockers_of(id), p, 0);
    table_laws::law_what_holds_a_task_up(d, id);
    let bs = d.blockers_of(id);
    if rules::first_above(d, bs, p, 0) is Some {
        let k = choose|k: int|
            0 <= k < bs.len() && d.in_subtree(#[trigger] bs[k], p);
        assert(bs.contains(bs[k]));
        table_laws::law_hierarchy(d, bs[k], p);
        assert(table_laws::edge(d, id, bs[k]) && table_laws::at_or_above(d, bs[k], p));
    } else {
        assert forall|b: TaskId| #[trigger] table_laws::edge(d, id, b) implies !table_laws::at_or_above(
            d,
            b,
            p,
        ) by {
            assert(bs.contains(b));
            let k = choose|k: int| 0 <= k < bs.len() && bs[k] == b;
            assert(!d.in_subtree(bs[k], p));
            table_laws::law_hierarchy(d, b, p);
        }
    }
    if d.depth(p) >= 1 {
        assert(exists|a: TaskId| table_laws::child_of(d, p, a));
    }
    if keep::height(d, id) >= 1 {
        assert(exists|c: TaskId| table_laws::child_of(d, c, id));
    }
    if d.depth(p) >= 1 && keep::height(d, id) >= 1 {
        let a = choose|a: TaskId| table_laws::child_of(d, p, a);
        let c = choose|c: TaskId| table_laws::child_of(d, c, id);
        assert(table_laws::child_of(d, c, id) && table_laws::child_of(d, p, a));
    }
}

proof fn lemma_none_above(d: Db, bs: Seq<TaskId>, p: TaskId, from: int)
    requires
        0 <= from <= bs.len(),
    ensures
        rules::first_above(d, bs, p, from) is Some <==> exists|k: int|
            from <= k < bs.len() && d.in_subtree(#[trigger] bs[k], p),
    decreases bs.len() - from,
{
    if from < bs.len() {
        lemma_none_above(d, bs, p, from + 1);
        if d.in_subtree(bs[from], p) {
            assert(from <= from < bs.len() && d.in_subtree(bs[from], p));
        }
    }
}

proof fn lemma_height(d: Db, id: TaskId)
    requires
        d.wf(),
    ensures
        keep::height(d, id) == 2 <==> exists|c: TaskId, g: TaskId| #[trigger]
            table_laws::child_of(d, c, id) && #[trigger] table_laws::child_of(d, g, c),
        keep::height(d, id) >= 1 <==> exists|c: TaskId| table_laws::child_of(d, c, id),
        0 <= keep::height(d, id) <= 2,
{
    assert forall|x: TaskId| #[trigger] d.up(x, 1) == d.parent(x) by {
        assert(d.up(x, 0) == Some(x));
    }
    assert forall|c: TaskId| #[trigger] table_laws::child_of(d, c, id) <==> d.parent(c) == Some(
        id,
    ) by {
        table_laws::lemma_child(d, c, id);
    }
    assert forall|c: TaskId, g: TaskId| #[trigger]
        table_laws::child_of(d, c, id) && #[trigger] table_laws::child_of(d, g, c) implies d.up(
        g,
        2,
    ) == Some(id) by {
        table_laws::lemma_child(d, g, c);
        assert(d.up(g, 1) == Some(c));
    }
    if exists|x: TaskId| #[trigger] d.up(x, 2) == Some(id) {
        let g = choose|x: TaskId| #[trigger] d.up(x, 2) == Some(id);
        let c = d.up(g, 1)->0;
        table_laws::lemma_child(d, g, c);
        assert(table_laws::child_of(d, c, id) && table_laws::child_of(d, g, c));
    }
    if exists|x: TaskId| #[trigger] d.up(x, 1) == Some(id) {
        let c = choose|x: TaskId| #[trigger] d.up(x, 1) == Some(id);
        assert(table_laws::child_of(d, c, id));
    }
    if exists|c: TaskId| table_laws::child_of(d, c, id) {
        let c = choose|c: TaskId| table_laws::child_of(d, c, id);
        assert(d.up(c, 1) == Some(id));
    }
}

/// A new task is stored behind the others, with what the request names: an empty context and the
/// priority 1 where it names none, and otherwise neither started nor finished. An edge leads from it
/// to each of its blockers, in the order of the request.
pub proof fn law_create_stores_what_it_names(d: Db, c: CreateView, id: TaskId, now: Timestamp)
    requires
        d.wf(),
        rules::create(d, c, id, now).1 is Ok,
    ensures
        ({
            let (e, a) = rules::create(d, c, id, now);
            let n = d.tasks.len() as int;
            let r = e.tasks[n];
            &&& e.tasks.len() == n + 1
            &&& e.tasks.take(n) == d.tasks
            &&& r.id == id && r.parent_id == c.parent_id && r.description == c.description
            &&& c.context is Some ==> r.context == c.context->0
            &&& c.context is None ==> r.context.len() == 0
            &&& c.priority is Some ==> r.priority == c.priority->0
            &&& c.priority is None ==> r.priority == 1
            &&& r.repo_path == c.repo_path
            &&& r.created_at == now && r.updated_at == now
            &&& !r.completed && !r.cancelled && !r.archived
            &&& r.result is None && r.started_at is None && r.completed_at is None
            &&& r.cancelled_at is None && r.archived_at is None
            &&& r.commit_sha is None && r.bookmark is None && r.start_commit is None
                && r.base_ref is None
            &&& e.learnings == d.learnings
            &&& e.blockers.len() == d.blockers.len() + c.blocked_by.len()
            &&& e.blockers.take(d.blockers.len() as int) == d.blockers
            &&& forall|k: int|
                0 <= k < c.blocked_by.len() ==> #[trigger] e.blockers[d.blockers.len() + k]
                    == (BlockerRelation { task_id: id, blocker_id: c.blocked_by[k] })
            &&& a->Ok_0.row == r
            &&& a->Ok_0.blocked_by == c.blocked_by
        }),
{
    let e = rules::create(d, c, id, now).0;
    let n = d.tasks.len() as int;
    let m = d.blockers.len() as int;
    assert(e.tasks.take(n) =~= d.tasks);
    lemma_all_taken(c.blocked_by, 0);
    assert(c.blocked_by.take(c.blocked_by.len() as int) =~= c.blocked_by);
    assert(e.blockers.take(m) =~= d.blockers);
    let r = e.tasks[n];
    keep::lemma_one_more(d, r);
    keep::lemma_same_tasks(keep::with_task(d, r), e);
    assert(e.row(id) == r);
    let f = |x: BlockerRelation| x.task_id == id;
    assert forall|k: int| 0 <= k < m implies !f(#[trigger] e.blockers[k]) by {
        assert(d.blockers[k] == e.blockers[k]);
        assert(d.has(d.blockers[k].task_id));
    }
    lemma_filter_tail_only(e.blockers, f, m);
    assert(e.blockers_of(id) =~= c.blocked_by);
}

/// Where a filter drops the first part and keeps the rest, the rest is what it gives.
proof fn lemma_filter_tail_only<A>(s: Seq<A>, f: spec_fn(A) -> bool, m: int)
    requires
        0 <= m <= s.len(),
        forall|k: int| 0 <= k < m ==> !f(#[trigger] s[k]),
        forall|k: int| m <= k < s.len() ==> f(#[trigger] s[k]),
    ensures
        s.filter(f) == s.skip(m),
    decreases s.len(),
{
    reveal(Seq::filter);
    if s.len() == 0 {
        assert(s.filter(f) =~= s.skip(m));
    } else {
        let t = s.drop_last();
        if m == s.len() {
            lemma_filter_tail_only(t, f, m - 1);
            assert(!f(s[s.len() - 1]));
            assert(t.skip(m - 1) =~= s.skip(m));
        } else {
            lemma_filter_tail_only(t, f, m);
            assert(f(s[s.len() - 1]));
            assert(t.skip(m).push(s.last()) =~= s.skip(m));
        }
    }
}

proof fn lemma_all_taken(s: Seq<TaskId>, from: int)
    requires
        0 <= from <= s.len(),
    ensures
        model::first_repeat(s, from) <= s.len(),
        model::first_repeat(s, from) == s.len() <==> forall|j: int|
            from <= j < s.len() ==> !(#[trigger] model::repeats(s, j)),
    decreases s.len() - from,
{
    if from < s.len() {
        lemma_all_taken(s, from + 1);
        if model::repeats(s, from) {
            assert(from <= from < s.len());
        }
    }
}

/// A new task is taken exactly where a named priority is 0, 1 or 2, a named repository is a relative
/// path without `..`, a named parent is stored and live and no subtask, every blocker is stored and
/// neither the parent nor above it, none is named twice, and the identifier is new.
pub proof fn law_when_new_tasks_are_taken(d: Db, c: CreateView, id: TaskId, now: Timestamp)
    requires
        d.wf(),
    ensures
        rules::create(d, c, id, now).1 is Ok <==> {
            &&& c.priority matches Some(p) ==> p == 0 || p == 1 || p == 2
            &&& c.repo_path matches Some(path) ==> path_ok(path)
            &&& c.parent_id matches Some(p) ==> {
                &&& exists|r: RowView| #[trigger]
                    table_laws::row_of(d, p, r) && !r.completed && !r.cancelled && !r.archived
                &&& !exists|a: TaskId, b: TaskId| #[trigger]
                    table_laws::child_of(d, p, a) && #[trigger] table_laws::child_of(d, a, b)
            }
            &&& forall|k: int|
                0 <= k < c.blocked_by.len() ==> {
                    &&& table_laws::stored(d, #[trigger] c.blocked_by[k])
                    &&& c.parent_id matches Some(p) ==> !table_laws::at_or_above(
                        d,
                        c.blocked_by[k],
                        p,
                    )
                }
            &&& c.blocked_by.no_duplicates()
            &&& forall|r: RowView| #[trigger] d.tasks.contains(r) ==> r.id != id
        },
{
    table_laws::law_rows(d, id);
    if c.repo_path is Some {
        lemma_path_ok(c.repo_path->0);
    }
    if c.parent_id is Some {
        let p = c.parent_id->0;
        table_laws::law_rows(d, p);
        assert(d.has(p) ==> table_laws::row_of(d, p, d.row(p)));
        table_laws::law_hierarchy(d, p, p);
    }
    lemma_blockers_taken(d, c.parent_id, c.blocked_by, id, 0);
    assert forall|k: int| 0 <= k < c.blocked_by.len() implies (d.has(#[trigger] c.blocked_by[k])
        <==> table_laws::stored(d, c.blocked_by[k])) by {
        table_laws::law_rows(d, c.blocked_by[k]);
    }
    if c.parent_id is Some {
        assert forall|k: int| 0 <= k < c.blocked_by.len() implies (d.in_subtree(
            #[trigger] c.blocked_by[k],
            c.parent_id->0,
        ) <==> table_laws::at_or_above(d, c.blocked_by[k], c.parent_id->0)) by {
            table_laws::law_hierarchy(d, c.blocked_by[k], c.parent_id->0);
        }
    }
    lemma_all_taken(c.blocked_by, 0);
    lemma_repeats(c.blocked_by);
    if d.has(id) {
        assert(table_laws::row_of(d, id, d.row(id)));
    }
    assert forall|r: RowView| #[trigger] d.tasks.contains(r) && r.id == id implies d.has(id) by {
        assert(table_laws::row_of(d, id, r));
    }
}

proof fn lemma_repeats(s: Seq<TaskId>)
    ensures
        s.no_duplicates() <==> forall|j: int|
            0 <= j < s.len() ==> !(#[trigger] model::repeats(s, j)),
{
    if forall|j: int| 0 <= j < s.len() ==> !(#[trigger] model::repeats(s, j)) {
        assert forall|i: int, j: int| 0 <= i < s.len() && 0 <= j < s.len() && i != j implies s[i]
            != s[j] by {
            assert(!model::repeats(s, i));
            assert(!model::repeats(s, j));
        }
    }
}

proof fn lemma_blockers_taken(
    d: Db,
    parent: Option<TaskId>,
    bs: Seq<TaskId>,
    id: TaskId,
    from: int,
)
    requires
        0 <= from <= bs.len(),
    ensures
        rules::blockers_fault(d, parent, bs, id, from) is None <==> forall|k: int|
            from <= k < bs.len() ==> d.has(#[trigger] bs[k]) && (parent is Some ==> !d.in_subtree(
                bs[k],
                parent->0,
            )),
    decreases bs.len() - from,
{
    if from < bs.len() {
        lemma_blockers_taken(d, parent, bs, id, from + 1);
        assert(from <= from < bs.len());
        if rules::blockers_fault(d, parent, bs, id, from) is None {
            assert(d.has(bs[from]));
        }
    }
}

/// Completing a task is taken exactly where no child of it is open; then its row is marked as
/// completed now, with the result and the commit that were given, and no other row and no edge
/// changes.
pub proof fn law_completing_marks_the_row(
    d: Db,
    id: TaskId,
    result: Option<Seq<char>>,
    learnings: Seq<Seq<char>>,
    sha: Option<Seq<char>>,
    ids: Seq<LearningId>,
    now: Timestamp,
    i: int,
)
    requires
        d.wf(),
        0 <= i < d.tasks.len(),
        d.tasks[i].id == id,
    ensures
        ({
            let (e, a) = rules::complete(d, id, result, learnings, sha, ids, now);
            &&& a is Ok <==> !table_laws::open_child(d, id)
            &&& a is Err ==> e == d && a == Err::<TaskView, Fault>(Fault::PendingChildren)
            &&& a is Ok ==> {
                &&& e.tasks.len() == d.tasks.len()
                &&& forall|k: int|
                    0 <= k < d.tasks.len() && k != i ==> #[trigger] e.tasks[k] == d.tasks[k]
                &&& e.tasks[i] == RowView {
                    completed: true,
                    completed_at: Some(now),
                    result,
                    commit_sha: sha,
                    updated_at: now,
                    ..d.tasks[i]
                }
                &&& e.blockers == d.blockers
                &&& shows(e, id, a->Ok_0)
            }
        }),
{
    table_laws::law_pending_children(d, id);
    model::lemma_pos(d, i);
    if !d.has_pending_children(id) {
        laws::lemma_completed(d, id, result, learnings, sha, ids, now);
        let e = rules::complete(d, id, result, learnings, sha, ids, now).0;
        law_answers_show_what_is_stored(e, id);
    }
}

/// Starting a task marks its row as started now; it is taken wherever the task is stored.
pub proof fn law_starting_marks_the_row(d: Db, id: TaskId, now: Timestamp, i: int)
    requires
        d.wf(),
        0 <= i < d.tasks.len(),
        d.tasks[i].id == id,
    ensures
        ({
            let (e, a) = rules::start(d, id, now);
            &&& only_row_changes(d, e, id)
            &&& e.tasks[i] == RowView { started_at: Some(now), updated_at: now, ..d.tasks[i] }
            &&& a matches Ok(t) && shows(e, id, t)
        }),
{
    model::lemma_pos(d, i);
    let r = RowView { started_at: Some(now), updated_at: now, ..d.row(id) };
    lemma_set_rows(d, id, r);
    model::lemma_with_row_same_parent(d, id, r);
    law_answers_show_what_is_stored(rules::start(d, id, now).0, id);
}

/// Reopening is taken exactly for a task that is completed and neither cancelled nor archived; it is
/// then completed no longer, and keeps its result, its commit and all else.
pub proof fn law_reopening_marks_the_row(d: Db, id: TaskId, now: Timestamp, i: int)
    requires
        d.wf(),
        0 <= i < d.tasks.len(),
        d.tasks[i].id == id,
    ensures
        ({
            let (e, a) = rules::reopen(d, id, now);
            let r = d.tasks[i];
            &&& a is Ok <==> r.completed && !r.cancelled && !r.archived
            &&& a is Err ==> e == d
            &&& r.archived ==> a == Err::<TaskView, Fault>(Fault::CannotModifyArchived)
            &&& !r.archived && r.cancelled ==> a == Err::<TaskView, Fault>(
                Fault::CannotReopenCancelled,
            )
            &&& !r.archived && !r.cancelled && !r.completed ==> a == Err::<TaskView, Fault>(
                Fault::CannotReopenActive {
                    state: if r.started_at is Some {
                        "InProgress"@
                    } else {
                        "Pending"@
                    },
                },
            )
            &&& a is Ok ==> {
                &&& only_row_changes(d, e, id)
                &&& e.tasks[i] == RowView {
                    completed: false,
                    completed_at: None,
                    updated_at: now,
                    ..r
                }
                &&& shows(e, id, a->Ok_0)
            }
        }),
{
    model::lemma_pos(d, i);
    let r = RowView { completed: false, completed_at: None, updated_at: now, ..d.row(id) };
    lemma_set_rows(d, id, r);
    model::lemma_with_row_same_parent(d, id, r);
    law_answers_show_what_is_stored(d.reopening(id, now), id);
}

/// Cancelling is taken exactly for a task that is neither completed, cancelled nor archived and has
/// no open child; it is then cancelled now, and keeps all else.
pub proof fn law_cancelling_marks_the_row(d: Db, id: TaskId, now: Timestamp, i: int)
    requires
        d.wf(),
        0 <= i < d.tasks.len(),
        d.tasks[i].id == id,
    ensures
        ({
            let (e, a) = rules::cancel(d, id, now);
            let r = d.tasks[i];
            &&& a is Ok <==> !r.completed && !r.cancelled && !r.archived && !table_laws::open_child(
                d,
                id,
            )
            &&& a is Err ==> e == d
            &&& r.archived ==> a == Err::<TaskView, Fault>(Fault::CannotModifyArchived)
            &&& !r.archived && r.cancelled ==> a == Err::<TaskView, Fault>(
                Fault::AlreadyCancelled,
            )
            &&& !r.archived && !r.cancelled && r.completed ==> a == Err::<TaskView, Fault>(
                Fault::CannotCancelCompleted,
            )
            &&& !r.archived && !r.cancelled && !r.completed && table_laws::open_child(d, id) ==> a
                == Err::<TaskView, Fault>(Fault::PendingChildren)
            &&& a is Ok ==> {
                &&& only_row_changes(d, e, id)
                &&& e.tasks[i] == RowView {
                    cancelled: true,
                    cancelled_at: Some(now),
                    updated_at: now,
                    ..r
                }
                &&& shows(e, id, a->Ok_0)
            }
        }),
{
    model::lemma_pos(d, i);
    table_laws::law_pending_children(d, id);
    let r = RowView { cancelled: true, cancelled_at: Some(now), updated_at: now, ..d.row(id) };
    lemma_set_rows(d, id, r);
    model::lemma_with_row_same_parent(d, id, r);
    law_answers_show_what_is_stored(d.cancelling(id, now), id);
}

/// Archiving is taken exactly for a task that is completed or cancelled and not archived, and for a
/// milestone only where nothing below it is active. It marks the row as archived now, and for a
/// milestone the rows below it that are not archived; nothing else changes.
pub proof fn law_archiving_marks_the_rows(d: Db, id: TaskId, now: Timestamp, i: int)
    requires
        d.wf(),
        0 <= i < d.tasks.len(),
        d.tasks[i].id == id,
    ensures
        ({
            let (e, a) = rules::archive(d, id, now);
            let r = d.tasks[i];
            &&& a is Ok <==> {
                &&& r.completed || r.cancelled
                &&& !r.archived
                &&& r.parent_id is None ==> forall|q: RowView| #[trigger]
                    d.tasks.contains(q) && table_laws::at_or_above(d, id, q.id) ==> q.completed
                        || q.cancelled || q.archived
            }
            &&& a is Err ==> e == d
            &&& r.archived ==> a == Err::<TaskView, Fault>(Fault::AlreadyArchived)
            &&& !r.archived && a is Err ==> a == Err::<TaskView, Fault>(Fault::CannotArchiveActive)
            &&& a is Ok ==> {
                &&& e.tasks.len() == d.tasks.len()
                &&& e.blockers == d.blockers && e.learnings == d.learnings
                &&& forall|k: int|
                    0 <= k < d.tasks.len() ==> #[trigger] e.tasks[k] == (if k == i || (r.parent_id is None
                        && table_laws::at_or_above(d, id, d.tasks[k].id)
                        && !d.tasks[k].archived) {
                        RowView {
                            archived: true,
                            archived_at: Some(now),
                            updated_at: now,
                            ..d.tasks[k]
                        }
                    } else {
                        d.tasks[k]
                    })
            }
        }),
{
    let r = d.tasks[i];
    model::lemma_pos(d, i);
    assert(d.up(id, 0) == Some(id));
    assert(d.up(id, 1) == d.parent(id));
    assert forall|x: TaskId| #[trigger] d.ancestor(id, x) implies d.has(x) && d.tasks.contains(
        d.row(x),
    ) && d.row(x).id == x by {
        model::lemma_ancestor_stored(d, id, x);
        model::lemma_row(d, x);
    }
    assert forall|x: TaskId| #[trigger] d.ancestor(id, x) implies table_laws::at_or_above(
        d,
        id,
        x,
    ) by {
        table_laws::law_hierarchy(d, id, x);
    }
    assert forall|q: RowView| #[trigger]
        d.tasks.contains(q) && table_laws::at_or_above(d, id, q.id) && q.id != id implies d.ancestor(
        id,
        q.id,
    ) && d.row(q.id) == q by {
        table_laws::law_hierarchy(d, id, q.id);
        table_laws::law_rows(d, q.id);
        assert(table_laws::row_of(d, q.id, q));
    }
    assert forall|q: RowView| #[trigger] d.tasks.contains(q) && q.id == id implies q == r by {
        table_laws::law_rows(d, id);
        assert(table_laws::row_of(d, id, q));
    }
    if rules::archive(d, id, now).1 is Ok {
        let e = rules::archive(d, id, now).0;
        assert forall|k: int| 0 <= k < d.tasks.len() implies #[trigger] e.tasks[k] == (if k == i
            || (r.parent_id is None && table_laws::at_or_above(d, id, d.tasks[k].id)
            && !d.tasks[k].archived) {
            RowView { archived: true, archived_at: Some(now), updated_at: now, ..d.tasks[k] }
        } else {
            d.tasks[k]
        }) by {
            table_laws::law_hierarchy(d, id, d.tasks[k].id);
            if d.tasks[k].id == id {
                model::lemma_pos(d, k);
            }
        }
    }
}

/// Deleting a task keeps exactly the rows that are neither its own nor below it, in their order, and
/// of the edges and the learnings those that name no other rows.
pub proof fn law_deleting_keeps_the_rest(d: Db, id: TaskId)
    requires
        d.wf(),
        d.has(id),
    ensures
        ({
            let (e, a) = rules::delete(d, id);
            &&& a is Ok
            &&& e.tasks == d.tasks.filter(|r: RowView| !table_laws::at_or_above(d, id, r.id))
            &&& e.blockers == d.blockers.filter(
                |b: BlockerRelation|
                    !table_laws::at_or_above(d, id, b.task_id) && !table_laws::at_or_above(
                        d,
                        id,
                        b.blocker_id,
                    ),
            )
            &&& e.learnings == d.learnings.filter(
                |l: LearningView| !table_laws::at_or_above(d, id, l.task_id),
            )
        }),
{
    assert forall|x: TaskId| #[trigger] d.in_subtree(id, x) == table_laws::at_or_above(d, id, x) by {
        table_laws::law_hierarchy(d, id, x);
    }
    lemma_filter_same(
        d.tasks,
        |r: RowView| !d.in_subtree(id, r.id),
        |r: RowView| !table_laws::at_or_above(d, id, r.id),
    );
    lemma_filter_same(
        d.blockers,
        |e: BlockerRelation|
            !d.in_subtree(id, e.task_id) && !d.in_subtree(id, e.blocker_id),
        |b: BlockerRelation|
            !table_laws::at_or_above(d, id, b.task_id) && !table_laws::at_or_above(
                d,
                id,
                b.blocker_id,
            ),
    );
    lemma_filter_same(
        d.learnings,
        |l: LearningView| !d.in_subtree(id, l.task_id),
        |l: LearningView| !table_laws::at_or_above(d, id, l.task_id),
    );
}

/// Filters that agree on what is there give the same.
pub proof fn lemma_filter_same<A>(s: Seq<A>, f: spec_fn(A) -> bool, g: spec_fn(A) -> bool)
    requires
        forall|i: int| 0 <= i < s.len() ==> f(#[trigger] s[i]) == g(s[i]),
    ensures
        s.filter(f) == s.filter(g),
    decreases s.len(),
{
    reveal(Seq::filter);
    if s.len() > 0 {
        let t = s.drop_last();
        assert forall|i: int| 0 <= i < t.len() implies f(#[trigger] t[i]) == g(t[i]) by {
            assert(s[i] == t[i]);
        }
        lemma_filter_same(t, f, g);
        assert(f(s[s.len() - 1]) == g(s[s.len() - 1]));
    }
}

/// A blocker is taken exactly where the task is stored and not archived, the blocker is stored and
/// neither the task itself nor above or below it, and does not wait for the task. Then the edge is
/// there, behind the others where it was not there before, and all else stays.
pub proof fn law_blocking_adds_the_edge(d: Db, task: TaskId, blocker: TaskId)
    requires
        d.wf(),
    ensures
        ({
            let (e, a) = rules::add_blocker(d, task, blocker);
            let x = BlockerRelation { task_id: task, blocker_id: blocker };
            &&& a is Ok <==> {
                &&& exists|r: RowView| #[trigger] table_laws::row_of(d, task, r) && !r.archived
                &&& table_laws::stored(d, blocker)
                &&& !table_laws::at_or_above(d, blocker, task)
                &&& !table_laws::at_or_above(d, task, blocker)
                &&& !rules::waits_for(d, blocker, task)
            }
            &&& a is Err ==> e == d
            &&& a is Ok ==> {
                &&& e.tasks == d.tasks && e.learnings == d.learnings
                &&& d.blockers.contains(x) ==> e.blockers == d.blockers
                &&& !d.blockers.contains(x) ==> e.blockers == d.blockers.push(x)
                &&& shows(e, task, a->Ok_0)
            }
        }),
{
    table_laws::law_rows(d, task);
    table_laws::law_rows(d, blocker);
    table_laws::law_hierarchy(d, task, blocker);
    table_laws::law_hierarchy(d, blocker, task);
    if d.has(task) {
        assert(table_laws::row_of(d, task, d.row(task)));
    }
    if d.has(blocker) {
        assert(table_laws::row_of(d, blocker, d.row(blocker)));
    }
    let (e, a) = rules::add_blocker(d, task, blocker);
    if a is Ok {
        keep::lemma_with_edge(d, BlockerRelation { task_id: task, blocker_id: blocker });
        keep::lemma_same_tasks(d, e);
        law_answers_show_what_is_stored(e, task);
    }
}

/// A task waits for another one where an edge leads to it, directly or through others.
pub proof fn law_waiting_follows_the_edges(d: Db, x: TaskId, z: TaskId)
    ensures
        rules::waits_for(d, x, z) <==> x == z || exists|y: TaskId| #[trigger]
            table_laws::edge(d, x, y) && rules::waits_for(d, y, z),
{
    if x == z {
        let p = seq![x];
        assert(rules::waits_along(d, p) && p[0] == x && p.last() == z);
    }
    if rules::waits_for(d, x, z) && x != z {
        let p = choose|p: Seq<TaskId>| #[trigger]
            rules::waits_along(d, p) && p[0] == x && p.last() == z;
        assert(p.len() > 1);
        assert(rules::waits_at(d, p, 0));
        let q = p.skip(1);
        assert forall|i: int| 0 <= i < q.len() - 1 implies #[trigger] rules::waits_at(d, q, i) by {
            assert(rules::waits_at(d, p, i + 1));
        }
        assert(rules::waits_along(d, q) && q[0] == p[1] && q.last() == z);
        assert(table_laws::edge(d, x, p[1]));
    }
    if exists|y: TaskId| #[trigger] table_laws::edge(d, x, y) && rules::waits_for(d, y, z) {
        let y = choose|y: TaskId| #[trigger]
            table_laws::edge(d, x, y) && rules::waits_for(d, y, z);
        let p = choose|p: Seq<TaskId>| #[trigger]
            rules::waits_along(d, p) && p[0] == y && p.last() == z;
        let q = seq![x] + p;
        assert forall|i: int| 0 <= i < q.len() - 1 implies #[trigger] rules::waits_at(d, q, i) by {
            if i > 0 {
                assert(rules::waits_at(d, p, i - 1));
                assert(q[i] == p[i - 1] && q[i + 1] == p[i]);
            } else {
                assert(q[0] == x && q[1] == y);
            }
        }
        assert(rules::waits_along(d, q) && q[0] == x && q.last() == z);
    }
}

/// Removing a blocker is taken exactly where the task is stored and not archived; then that edge is
/// gone, and all else stays.
pub proof fn law_unblocking_removes_the_edge(
    d: Db,
    task: TaskId,
    blocker: TaskId,
    x: BlockerRelation,
)
    requires
        d.wf(),
    ensures
        ({
            let (e, a) = rules::remove_blocker(d, task, blocker);
            &&& a is Ok <==> exists|r: RowView| #[trigger]
                table_laws::row_of(d, task, r) && !r.archived
            &&& a is Err ==> e == d
            &&& a is Ok ==> {
                &&& e.tasks == d.tasks && e.learnings == d.learnings
                &&& e.blockers.contains(x) <==> d.blockers.contains(x) && !(x.task_id == task
                    && x.blocker_id == blocker)
                &&& shows(e, task, a->Ok_0)
            }
        }),
{
    table_laws::law_rows(d, task);
    if d.has(task) {
        assert(table_laws::row_of(d, task, d.row(task)));
    }
    let (e, a) = rules::remove_blocker(d, task, blocker);
    let gone = BlockerRelation { task_id: task, blocker_id: blocker };
    laws::lemma_filter_exact(d.blockers, model::other_than(gone), x);
    if a is Ok {
        keep::lemma_without_edge(d, gone);
        keep::lemma_same_tasks(d, e);
        law_answers_show_what_is_stored(e, task);
    }
}

/// Whatever is asked of a task that is not stored is refused with its identifier.
pub proof fn law_unknown_tasks_are_refused(
    d: Db,
    id: TaskId,
    other: TaskId,
    u: UpdateView,
    now: Timestamp,
    result: Option<Seq<char>>,
    learnings: Seq<Seq<char>>,
    sha: Option<Seq<char>>,
    ids: Seq<LearningId>,
)
    requires
        d.wf(),
        forall|r: RowView| #[trigger] d.tasks.contains(r) ==> r.id != id,
    ensures
        ({
            let none = (d, Err::<TaskView, Fault>(Fault::TaskNotFound(id)));
            &&& rules::get(d, id) == none.1
            &&& rules::update(d, id, u, now) == none
            &&& rules::start(d, id, now) == none
            &&& rules::complete(d, id, result, learnings, sha, ids, now) == none
            &&& rules::reopen(d, id, now) == none
            &&& rules::cancel(d, id, now) == none
            &&& rules::archive(d, id, now) == none
            &&& rules::add_blocker(d, id, other) == none
            &&& rules::remove_blocker(d, id, other) == none
            &&& rules::delete(d, id) == (d, Err::<(), Fault>(Fault::TaskNotFound(id)))
        }),
{
    if d.has(id) {
        model::lemma_row(d, id);
        assert(d.tasks.contains(d.row(id)));
    }
}

} // verus!
