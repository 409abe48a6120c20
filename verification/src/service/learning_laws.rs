//! What holds of learnings when tasks are completed.
use vstd::prelude::*;

use crate::db::learning_repo;
use crate::id::{LearningId, TaskId};
use crate::model;
use crate::model::Db;
use crate::service::laws;
use crate::service::rules;
use crate::time::Timestamp;
use crate::types::LearningView;

verus! {

/// Whether one state has the learnings of another and, after them, only learnings of one task.
pub open spec fn grown(d: Db, e: Db, to: TaskId) -> bool {
    &&& d.learnings.len() <= e.learnings.len()
    &&& e.learnings.take(d.learnings.len() as int) == d.learnings
    &&& forall|i: int|
        d.learnings.len() <= i < e.learnings.len() ==> (#[trigger] e.learnings[i]).task_id == to
}

proof fn lemma_grown_add(d: Db, e: Db, l: LearningView)
    requires
        grown(d, e, l.task_id),
    ensures
        grown(d, learning_repo::adding(e, l), l.task_id),
        learning_repo::recorded(learning_repo::adding(e, l), l),
{
    let a = learning_repo::adding(e, l);
    if !learning_repo::recorded(e, l) {
        assert(a.learnings.take(d.learnings.len() as int) =~= e.learnings.take(
            d.learnings.len() as int,
        ));
        assert(model::same_learning(a.learnings[e.learnings.len() as int], l));
    }
}

/// What is recorded stays recorded.
proof fn lemma_recorded_stays(d: Db, e: Db, to: TaskId, l: LearningView)
    requires
        grown(d, e, to),
        learning_repo::recorded(d, l),
    ensures
        learning_repo::recorded(e, l),
{
    let i = choose|i: int|
        0 <= i < d.learnings.len() && model::same_learning(#[trigger] d.learnings[i], l);
    assert(e.learnings.take(d.learnings.len() as int)[i] == e.learnings[i]);
    assert(model::same_learning(e.learnings[i], l));
}

/// Copying learnings only adds to the task that they are copied to, and records each of them.
proof fn lemma_copied(
    d: Db,
    ls: Seq<LearningView>,
    to: TaskId,
    ids: Seq<LearningId>,
    now: Timestamp,
)
    ensures
        grown(d, learning_repo::copying(d, ls, to, ids, now), to),
        forall|k: int|
            0 <= k < ls.len() ==> learning_repo::recorded(
                learning_repo::copying(d, ls, to, ids, now),
                (LearningView { task_id: to, ..#[trigger] ls[k] }),
            ),
    decreases ls.len(),
{
    let e = learning_repo::copying(d, ls, to, ids, now);
    if ls.len() == 0 {
        assert(d.learnings.take(d.learnings.len() as int) =~= d.learnings);
    } else {
        let rest = ls.drop_last();
        let m = learning_repo::copying(d, rest, to, ids, now);
        lemma_copied(d, rest, to, ids, now);
        let l = learning_repo::copied(ls.last(), to, ids[ls.len() - 1], now);
        lemma_grown_add(d, m, l);
        assert(m.learnings.take(m.learnings.len() as int) =~= m.learnings);
        lemma_grown_add(m, m, l);
        assert forall|k: int| 0 <= k < ls.len() implies learning_repo::recorded(
            e,
            (LearningView { task_id: to, ..#[trigger] ls[k] }),
        ) by {
            if k < rest.len() {
                assert(rest[k] == ls[k]);
                lemma_recorded_stays(m, e, to, LearningView { task_id: to, ..ls[k] });
            } else {
                let i = choose|i: int|
                    0 <= i < e.learnings.len() && model::same_learning(
                        #[trigger] e.learnings[i],
                        l,
                    );
                assert(model::same_learning(
                    e.learnings[i],
                    LearningView { task_id: to, ..ls[k] },
                ));
            }
        }
    }
}

/// Adding texts only adds to the task that they are added to, and records each of them.
proof fn lemma_added(
    d: Db,
    id: TaskId,
    contents: Seq<Seq<char>>,
    ids: Seq<LearningId>,
    now: Timestamp,
)
    ensures
        grown(d, learning_repo::adding_all(d, id, contents, ids, now), id),
        forall|k: int|
            0 <= k < contents.len() ==> learning_repo::recorded(
                learning_repo::adding_all(d, id, contents, ids, now),
                learning_repo::note(id, #[trigger] contents[k], None, ids[k], now),
            ),
    decreases contents.len(),
{
    let e = learning_repo::adding_all(d, id, contents, ids, now);
    if contents.len() == 0 {
        assert(d.learnings.take(d.learnings.len() as int) =~= d.learnings);
    } else {
        let rest = contents.drop_last();
        let m = learning_repo::adding_all(d, id, rest, ids, now);
        lemma_added(d, id, rest, ids, now);
        let l = learning_repo::note(id, contents.last(), None, ids[contents.len() - 1], now);
        lemma_grown_add(d, m, l);
        assert(m.learnings.take(m.learnings.len() as int) =~= m.learnings);
        lemma_grown_add(m, m, l);
        assert forall|k: int| 0 <= k < contents.len() implies learning_repo::recorded(
            e,
            learning_repo::note(id, #[trigger] contents[k], None, ids[k], now),
        ) by {
            if k < rest.len() {
                assert(rest[k] == contents[k]);
                lemma_recorded_stays(
                    m,
                    e,
                    id,
                    learning_repo::note(id, contents[k], None, ids[k], now),
                );
            }
        }
    }
}

/// Learnings of one task that come after leave those of another as they were.
proof fn lemma_learnings_elsewhere(d: Db, e: Db, to: TaskId, x: TaskId)
    requires
        grown(d, e, to),
        x != to,
    ensures
        e.learnings_of(x) == d.learnings_of(x),
{
    let f = |l: LearningView| l.task_id == x;
    lemma_filter_tail(e.learnings, d.learnings.len() as int, f);
}

proof fn lemma_filter_tail(s: Seq<LearningView>, n: int, f: spec_fn(LearningView) -> bool)
    requires
        0 <= n <= s.len(),
        forall|i: int| n <= i < s.len() ==> !f(#[trigger] s[i]),
    ensures
        s.filter(f) == s.take(n).filter(f),
    decreases s.len() - n,
{
    if n < s.len() {
        lemma_filter_tail(s, n + 1, f);
        model::lemma_filter_take(s, f, n);
    } else {
        assert(s.take(n) =~= s);
    }
}

/// Completing a task forgets nothing, records each text that was learned for the task itself, gives
/// every learning of the task to its parent with the source that it had, and leaves the learnings
/// of all other tasks alone.
pub proof fn law_learnings_go_to_the_parent(
    d: Db,
    id: TaskId,
    p: TaskId,
    result: Option<Seq<char>>,
    learnings: Seq<Seq<char>>,
    sha: Option<Seq<char>>,
    ids: Seq<LearningId>,
    now: Timestamp,
    x: TaskId,
    k: int,
    l: LearningView,
)
    requires
        d.wf(),
        rules::complete_fault(d, id) is None,
        d.parent(id) == Some(p),
    ensures
        ({
            let e = rules::complete(d, id, result, learnings, sha, ids, now).0;
            &&& d.learnings.contains(l) ==> e.learnings.contains(l)
            &&& 0 <= k < learnings.len() ==> learning_repo::recorded(
                e,
                learning_repo::note(id, learnings[k], None, ids[k], now),
            )
            &&& e.learnings_of(id).contains(l) ==> learning_repo::recorded(
                e,
                (LearningView { task_id: p, ..l }),
            )
            &&& x != id && x != p ==> e.learnings_of(x) == d.learnings_of(x)
        }),
{
    let a = learning_repo::adding_all(d, id, learnings, ids, now);
    let b = a.completing(id, result, sha, now);
    let ids2 = ids.skip(learnings.len() as int);
    let e = learning_repo::bubbling(b, id, p, ids2, now);
    let ls = b.learnings_of(id);
    model::lemma_depth_child(d, id);
    lemma_added(d, id, learnings, ids, now);
    assert(b.learnings == a.learnings);
    lemma_copied(b, ls, p, ids2, now);
    assert(rules::complete(d, id, result, learnings, sha, ids, now).0 == e);
    if d.learnings.contains(l) {
        let i = choose|i: int| 0 <= i < d.learnings.len() && d.learnings[i] == l;
        assert(a.learnings.take(d.learnings.len() as int)[i] == a.learnings[i]);
        assert(e.learnings.take(b.learnings.len() as int)[i] == e.learnings[i]);
    }
    if 0 <= k < learnings.len() {
        let n = learning_repo::note(id, learnings[k], None, ids[k], now);
        assert(learning_repo::recorded(a, n));
        let i = choose|i: int|
            0 <= i < a.learnings.len() && model::same_learning(#[trigger] a.learnings[i], n);
        assert(model::same_learning(b.learnings[i], n));
        lemma_recorded_stays(b, e, p, n);
    }
    lemma_learnings_elsewhere(b, e, p, id);
    if e.learnings_of(id).contains(l) {
        let i = choose|i: int| 0 <= i < ls.len() && ls[i] == l;
        assert(learning_repo::recorded(e, LearningView { task_id: p, ..ls[i] }));
    }
    if x != id && x != p {
        lemma_learnings_elsewhere(d, a, id, x);
        lemma_learnings_elsewhere(b, e, p, x);
    }
}

/// Whether a state has a learning for a task, from a source, with a text.
pub open spec fn learned(d: Db, task: TaskId, source: Option<TaskId>, content: Seq<char>) -> bool {
    exists|l: LearningView| #[trigger]
        d.learnings.contains(l) && l.task_id == task && l.source_task_id == source && l.content
            == content
}

/// After a completion the learnings of before are there in their places; each text of the request is
/// there for the task, with the task as its source; each learning of the task is there for its
/// parent, with the source that it had; and nothing else was added. What was added is of now, under
/// one of the given identifiers where enough are given.
pub proof fn law_what_a_completion_teaches(
    d: Db,
    id: TaskId,
    result: Option<Seq<char>>,
    learnings: Seq<Seq<char>>,
    sha: Option<Seq<char>>,
    ids: Seq<LearningId>,
    now: Timestamp,
    k: int,
    l: LearningView,
)
    requires
        d.wf(),
        d.has(id),
        !d.has_pending_children(id),
    ensures
        ({
            let e = rules::complete(d, id, result, learnings, sha, ids, now).0;
            &&& d.learnings.len() <= e.learnings.len()
            &&& e.learnings.take(d.learnings.len() as int) == d.learnings
            &&& 0 <= k < learnings.len() ==> learned(e, id, Some(id), learnings[k])
            &&& e.learnings.contains(l) && l.task_id == id && d.parent(id) is Some ==> learned(
                e,
                d.parent(id)->0,
                l.source_task_id,
                l.content,
            )
            &&& e.learnings.contains(l) && !d.learnings.contains(l) ==> l.created_at == now && (ids.len()
                >= 2 * learnings.len() + d.learnings.len() ==> ids.contains(l.id))
            &&& e.learnings.contains(l) && !d.learnings.contains(l) ==> {
                ||| l.task_id == id && l.source_task_id == Some(id) && learnings.contains(l.content)
                ||| d.parent(id) == Some(l.task_id) && learned(e, id, l.source_task_id, l.content)
            }
        }),
{
    let a = learning_repo::adding_all(d, id, learnings, ids, now);
    let b = a.completing(id, result, sha, now);
    let e = rules::complete(d, id, result, learnings, sha, ids, now).0;
    lemma_added(d, id, learnings, ids, now);
    lemma_only_added(d, id, learnings, ids, now);
    assert(b.learnings == a.learnings);
    let n = a.learnings.len() as int;
    if 0 <= k < learnings.len() {
        let note = learning_repo::note(id, learnings[k], None, ids[k], now);
        assert(learning_repo::recorded(a, note));
        let i = choose|i: int|
            0 <= i < a.learnings.len() && model::same_learning(#[trigger] a.learnings[i], note);
        assert(b.learnings.contains(b.learnings[i]));
        assert(learned(b, id, Some(id), learnings[k]));
    }
    if d.parent(id) is Some {
        let p = d.parent(id)->0;
        let ids2 = ids.skip(learnings.len() as int);
        let ls = b.learnings_of(id);
        let f = |x: LearningView| x.task_id == id;
        model::lemma_depth_child(d, id);
        lemma_copied(b, ls, p, ids2, now);
        lemma_only_copied(b, ls, p, ids2, now);
        assert(e == learning_repo::bubbling(b, id, p, ids2, now));
        assert(e.learnings.take(d.learnings.len() as int) =~= a.learnings.take(
            d.learnings.len() as int,
        )) by {
            assert forall|i: int| 0 <= i < n implies e.learnings[i] == #[trigger] a.learnings[i] by {
                assert(e.learnings.take(n)[i] == e.learnings[i]);
            }
        }
        assert forall|x: LearningView| #[trigger] b.learnings.contains(x) implies e.learnings.contains(
            x,
        ) by {
            let i = choose|i: int| 0 <= i < n && b.learnings[i] == x;
            assert(e.learnings.take(n)[i] == e.learnings[i]);
        }
        lemma_learnings_elsewhere(b, e, p, id);
        if 0 <= k < learnings.len() {
            let x = choose|x: LearningView| #[trigger]
                b.learnings.contains(x) && x.task_id == id && x.source_task_id == Some(id)
                    && x.content == learnings[k];
            assert(e.learnings.contains(x));
        }
        if e.learnings.contains(l) && l.task_id == id {
            laws::lemma_filter_exact(e.learnings, f, l);
            let i = choose|i: int| 0 <= i < ls.len() && ls[i] == l;
            assert(learning_repo::recorded(e, LearningView { task_id: p, ..ls[i] }));
            let j = choose|j: int|
                0 <= j < e.learnings.len() && model::same_learning(
                    #[trigger] e.learnings[j],
                    LearningView { task_id: p, ..ls[i] },
                );
            assert(e.learnings.contains(e.learnings[j]));
        }
        if e.learnings.contains(l) && !d.learnings.contains(l) {
            let i = choose|i: int| 0 <= i < e.learnings.len() && e.learnings[i] == l;
            if i < n {
                assert(e.learnings.take(n)[i] == a.learnings[i]);
                lemma_new_part(d, a, i, l);
            } else {
                let j = choose|j: int|
                    0 <= j < ls.len() && (#[trigger] ls[j]).source_task_id
                        == e.learnings[i].source_task_id && ls[j].content == e.learnings[i].content;
                assert(ls.contains(ls[j]));
                laws::lemma_filter_exact(b.learnings, f, ls[j]);
                assert(e.learnings.contains(ls[j]));
                b.learnings.lemma_filter_len(f);
                lemma_added_at_most(d, id, learnings, ids, now);
                if ids.len() >= 2 * learnings.len() + d.learnings.len() {
                    assert(ids2.contains(l.id));
                    let m = choose|m: int| 0 <= m < ids2.len() && ids2[m] == l.id;
                    assert(ids[m + learnings.len()] == l.id);
                }
            }
        }
    } else {
        assert(e == b);
        if e.learnings.contains(l) && !d.learnings.contains(l) {
            let i = choose|i: int| 0 <= i < e.learnings.len() && e.learnings[i] == l;
            lemma_new_part(d, a, i, l);
        }
    }
}

proof fn lemma_added_at_most(
    d: Db,
    id: TaskId,
    contents: Seq<Seq<char>>,
    ids: Seq<LearningId>,
    now: Timestamp,
)
    ensures
        learning_repo::adding_all(d, id, contents, ids, now).learnings.len() <= d.learnings.len()
            + contents.len(),
    decreases contents.len(),
{
    if contents.len() > 0 {
        lemma_added_at_most(d, id, contents.drop_last(), ids, now);
    }
}

/// What is among the learnings of before is in the first part.
proof fn lemma_new_part(d: Db, a: Db, i: int, l: LearningView)
    requires
        d.learnings.len() <= a.learnings.len(),
        a.learnings.take(d.learnings.len() as int) == d.learnings,
        0 <= i < a.learnings.len(),
        a.learnings[i] == l,
        !d.learnings.contains(l),
    ensures
        i >= d.learnings.len(),
{
    if i < d.learnings.len() {
        assert(d.learnings[i] == a.learnings.take(d.learnings.len() as int)[i]);
        assert(d.learnings.contains(l));
    }
}

/// Whether a learning is of now and has one of the first identifiers.
spec fn fresh(l: LearningView, ids: Seq<LearningId>, n: nat, now: Timestamp) -> bool {
    l.created_at == now && (n <= ids.len() ==> ids.contains(l.id))
}

proof fn lemma_only_added(
    d: Db,
    id: TaskId,
    contents: Seq<Seq<char>>,
    ids: Seq<LearningId>,
    now: Timestamp,
)
    ensures
        ({
            let a = learning_repo::adding_all(d, id, contents, ids, now);
            forall|i: int|
                d.learnings.len() <= i < a.learnings.len() ==> (#[trigger] a.learnings[i]).task_id
                    == id && a.learnings[i].source_task_id == Some(id) && contents.contains(
                    a.learnings[i].content,
                ) && fresh(a.learnings[i], ids, contents.len(), now)
        }),
    decreases contents.len(),
{
    if contents.len() > 0 {
        let rest = contents.drop_last();
        lemma_only_added(d, id, rest, ids, now);
        lemma_added(d, id, rest, ids, now);
        let before = learning_repo::adding_all(d, id, rest, ids, now);
        let a = learning_repo::adding_all(d, id, contents, ids, now);
        assert forall|i: int| d.learnings.len() <= i < a.learnings.len() implies (
        #[trigger] a.learnings[i]).task_id == id && a.learnings[i].source_task_id == Some(id)
            && contents.contains(a.learnings[i].content) && fresh(
            a.learnings[i],
            ids,
            contents.len(),
            now,
        ) by {
            if i < before.learnings.len() {
                assert(a.learnings[i] == before.learnings[i]);
                let k = choose|k: int|
                    0 <= k < rest.len() && rest[k] == before.learnings[i].content;
                assert(contents[k] == rest[k]);
            } else {
                assert(contents[contents.len() - 1] == a.learnings[i].content);
                assert(a.learnings[i].id == ids[contents.len() - 1]);
            }
        }
    }
}

proof fn lemma_only_copied(
    d: Db,
    ls: Seq<LearningView>,
    to: TaskId,
    ids: Seq<LearningId>,
    now: Timestamp,
)
    ensures
        ({
            let a = learning_repo::copying(d, ls, to, ids, now);
            forall|i: int|
                d.learnings.len() <= i < a.learnings.len() ==> (#[trigger] a.learnings[i]).task_id
                    == to && fresh(a.learnings[i], ids, ls.len(), now) && exists|j: int|
                    0 <= j < ls.len() && (#[trigger] ls[j]).source_task_id
                        == a.learnings[i].source_task_id && ls[j].content
                        == a.learnings[i].content
        }),
    decreases ls.len(),
{
    if ls.len() > 0 {
        let rest = ls.drop_last();
        lemma_only_copied(d, rest, to, ids, now);
        lemma_copied(d, rest, to, ids, now);
        let before = learning_repo::copying(d, rest, to, ids, now);
        let a = learning_repo::copying(d, ls, to, ids, now);
        assert forall|i: int| d.learnings.len() <= i < a.learnings.len() implies (
        #[trigger] a.learnings[i]).task_id == to && fresh(a.learnings[i], ids, ls.len(), now) && exists|
            j: int,
        |
            0 <= j < ls.len() && (#[trigger] ls[j]).source_task_id
                == a.learnings[i].source_task_id && ls[j].content == a.learnings[i].content by {
            if i < before.learnings.len() {
                assert(a.learnings[i] == before.learnings[i]);
                let j = choose|j: int|
                    0 <= j < rest.len() && (#[trigger] rest[j]).source_task_id
                        == before.learnings[i].source_task_id && rest[j].content
                        == before.learnings[i].content;
                assert(ls[j] == rest[j]);
            } else {
                assert(ls[ls.len() - 1].content == a.learnings[i].content);
                assert(a.learnings[i].id == ids[ls.len() - 1]);
            }
        }
    }
}

/// Giving learnings to a task that has them all changes nothing: they are given once.
pub proof fn law_learnings_are_given_once(
    d: Db,
    from: TaskId,
    to: TaskId,
    ids: Seq<LearningId>,
    now: Timestamp,
    ids2: Seq<LearningId>,
    later: Timestamp,
)
    requires
        from != to,
    ensures
        ({
            let e = learning_repo::bubbling(d, from, to, ids, now);
            learning_repo::bubbling(e, from, to, ids2, later) == e
        }),
{
    let ls = d.learnings_of(from);
    let e = learning_repo::bubbling(d, from, to, ids, now);
    lemma_copied(d, ls, to, ids, now);
    lemma_learnings_elsewhere(d, e, to, from);
    lemma_copy_again(e, ls, to, ids2, later);
}

proof fn lemma_copy_again(
    e: Db,
    ls: Seq<LearningView>,
    to: TaskId,
    ids: Seq<LearningId>,
    now: Timestamp,
)
    requires
        forall|k: int|
            0 <= k < ls.len() ==> learning_repo::recorded(
                e,
                (LearningView { task_id: to, ..#[trigger] ls[k] }),
            ),
    ensures
        learning_repo::copying(e, ls, to, ids, now) == e,
    decreases ls.len(),
{
    if ls.len() > 0 {
        let rest = ls.drop_last();
        assert forall|k: int| 0 <= k < rest.len() implies learning_repo::recorded(
            e,
            (LearningView { task_id: to, ..#[trigger] rest[k] }),
        ) by {
            assert(rest[k] == ls[k]);
        }
        lemma_copy_again(e, rest, to, ids, now);
        let l = learning_repo::copied(ls.last(), to, ids[ls.len() - 1], now);
        let m = LearningView { task_id: to, ..ls[ls.len() - 1] };
        assert(learning_repo::recorded(e, m));
        let i = choose|i: int|
            0 <= i < e.learnings.len() && model::same_learning(#[trigger] e.learnings[i], m);
        assert(model::same_learning(e.learnings[i], l));
    }
}

} // verus!
