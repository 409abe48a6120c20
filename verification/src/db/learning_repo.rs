//! Queries and updates on learnings.
use vstd::prelude::*;

use crate::db::store::Store;
use crate::db::task_repo;
use crate::error;
use crate::error::{Fault, OsError};
use crate::id::{LearningId, TaskId};
use crate::keep;
use crate::model;
use crate::model::Db;
use crate::text;
use crate::time::Timestamp;
use crate::types;
use crate::types::{Learning, LearningView};

verus! {

/// Whether the same text is recorded for the same task from the same source.
pub open spec fn recorded(d: Db, l: LearningView) -> bool {
    exists|i: int|
        0 <= i < d.learnings.len() && model::same_learning(#[trigger] d.learnings[i], l)
}

/// A learning is added, unless it is recorded already.
pub open spec fn adding(d: Db, l: LearningView) -> Db {
    if recorded(d, l) {
        d
    } else {
        Db { learnings: d.learnings.push(l), ..d }
    }
}

/// The learning that a text becomes on a task. Without a source it stems from the task itself.
pub open spec fn note(
    task_id: TaskId,
    content: Seq<char>,
    source: Option<TaskId>,
    id: LearningId,
    now: Timestamp,
) -> LearningView {
    LearningView {
        id,
        task_id,
        content,
        source_task_id: match source {
            Some(s) => Some(s),
            None => Some(task_id),
        },
        created_at: now,
    }
}

/// A learning is recorded. What is recorded already is given back as it is; a task that is not
/// stored has no learnings.
pub open spec fn record(d: Db, l: LearningView) -> (Db, Result<LearningView, Fault>) {
    if !d.has(l.task_id) {
        (d, Err(Fault::TaskNotFound(l.task_id)))
    } else if recorded(d, l) {
        let i = choose|i: int|
            0 <= i < d.learnings.len() && model::same_learning(#[trigger] d.learnings[i], l);
        (d, Ok(d.learnings[i]))
    } else {
        (adding(d, l), Ok(l))
    }
}

/// A learning is forgotten.
pub open spec fn forget(d: Db, id: LearningId) -> (Db, Result<(), Fault>) {
    if exists|i: int| 0 <= i < d.learnings.len() && (#[trigger] d.learnings[i]).id == id {
        (Db { learnings: d.learnings.filter(|l: LearningView| l.id != id), ..d }, Ok(()))
    } else {
        (d, Err(Fault::LearningNotFound(id)))
    }
}

/// Texts are added to a task as learnings of its own.
pub open spec fn adding_all(
    d: Db,
    task_id: TaskId,
    contents: Seq<Seq<char>>,
    ids: Seq<LearningId>,
    now: Timestamp,
) -> Db
    decreases contents.len(),
{
    if contents.len() == 0 {
        d
    } else {
        adding(
            adding_all(d, task_id, contents.drop_last(), ids, now),
            note(task_id, contents.last(), None, ids[contents.len() - 1], now),
        )
    }
}

/// A copy of a learning for another task. The source stays.
pub open spec fn copied(l: LearningView, to: TaskId, id: LearningId, now: Timestamp) -> LearningView {
    LearningView { id, task_id: to, created_at: now, ..l }
}

/// Learnings are copied to a task, those that it has already left out.
pub open spec fn copying(
    d: Db,
    ls: Seq<LearningView>,
    to: TaskId,
    ids: Seq<LearningId>,
    now: Timestamp,
) -> Db
    decreases ls.len(),
{
    if ls.len() == 0 {
        d
    } else {
        adding(
            copying(d, ls.drop_last(), to, ids, now),
            copied(ls.last(), to, ids[ls.len() - 1], now),
        )
    }
}

/// The learnings of one task are copied to another.
pub open spec fn bubbling(
    d: Db,
    from: TaskId,
    to: TaskId,
    ids: Seq<LearningId>,
    now: Timestamp,
) -> Db {
    copying(d, d.learnings_of(from), to, ids, now)
}

/// Adding a learning keeps the invariant and touches nothing else.
pub proof fn lemma_adding(d: Db, l: LearningView)
    requires
        d.wf(),
        d.has(l.task_id),
    ensures
        adding(d, l).wf(),
        adding(d, l).tasks == d.tasks,
        adding(d, l).blockers == d.blockers,
        adding(d, l).learnings.len() <= d.learnings.len() + 1,
{
    let e = adding(d, l);
    keep::lemma_same_tasks(d, e);
    if !recorded(d, l) {
        assert forall|i: int, j: int| 0 <= i < j < e.learnings.len() implies !model::same_learning(
            #[trigger] e.learnings[i],
            #[trigger] e.learnings[j],
        ) by {
            assert(e.learnings[i] == d.learnings[i]);
            if j < d.learnings.len() {
                assert(e.learnings[j] == d.learnings[j]);
            } else {
                assert(!model::same_learning(d.learnings[i], l));
            }
        }
        assert forall|i: int| 0 <= i < e.learnings.len() implies e.has(
            (#[trigger] e.learnings[i]).task_id,
        ) by {
            if i < d.learnings.len() {
                assert(e.learnings[i] == d.learnings[i]);
            }
        }
        assert forall|i: int| 0 <= i < e.blockers.len() implies e.has(
            (#[trigger] e.blockers[i]).task_id,
        ) && e.has(e.blockers[i].blocker_id) by {
            assert(d.has(d.blockers[i].task_id) && d.has(d.blockers[i].blocker_id));
        }
    }
}

/// Copying learnings keeps the invariant and touches nothing else.
pub proof fn lemma_copying(
    d: Db,
    ls: Seq<LearningView>,
    to: TaskId,
    ids: Seq<LearningId>,
    now: Timestamp,
)
    requires
        d.wf(),
        d.has(to),
    ensures
        copying(d, ls, to, ids, now).wf(),
        copying(d, ls, to, ids, now).tasks == d.tasks,
        copying(d, ls, to, ids, now).blockers == d.blockers,
    decreases ls.len(),
{
    if ls.len() > 0 {
        lemma_copying(d, ls.drop_last(), to, ids, now);
        let e = copying(d, ls.drop_last(), to, ids, now);
        keep::lemma_same_tasks(d, e);
        lemma_adding(e, copied(ls.last(), to, ids[ls.len() - 1], now));
    }
}

/// Adding texts keeps the invariant and touches nothing else.
pub proof fn lemma_adding_all(
    d: Db,
    task_id: TaskId,
    contents: Seq<Seq<char>>,
    ids: Seq<LearningId>,
    now: Timestamp,
)
    requires
        d.wf(),
        d.has(task_id),
    ensures
        adding_all(d, task_id, contents, ids, now).wf(),
        adding_all(d, task_id, contents, ids, now).tasks == d.tasks,
        adding_all(d, task_id, contents, ids, now).blockers == d.blockers,
        adding_all(d, task_id, contents, ids, now).learnings.len() <= d.learnings.len()
            + contents.len(),
    decreases contents.len(),
{
    if contents.len() > 0 {
        lemma_adding_all(d, task_id, contents.drop_last(), ids, now);
        let e = adding_all(d, task_id, contents.drop_last(), ids, now);
        keep::lemma_same_tasks(d, e);
        lemma_adding(e, note(task_id, contents.last(), None, ids[contents.len() - 1], now));
    }
}

/// The learnings of a task, oldest first.
pub fn list_learnings(db: &Store, task_id: &TaskId) -> (out: Vec<Learning>)
    ensures
        types::learning_views(out@) == db@.learnings_of(*task_id),
{
    let ghost s = db@.learnings;
    let ghost f = |l: LearningView| l.task_id == *task_id;
    let mut out: Vec<Learning> = Vec::new();
    let mut i: usize = 0;
    proof {
        model::lemma_filter_empty(s, f);
        assert(types::learning_views(out@) =~= s.take(0).filter(f));
    }
    while i < db.learnings.len()
        invariant
            i <= db.learnings.len(),
            s == db@.learnings,
            f == (|l: LearningView| l.task_id == *task_id),
            types::learning_views(out@) == s.take(i as int).filter(f),
        decreases db.learnings.len() - i,
    {
        let ghost before = out@;
        proof {
            model::lemma_filter_take(s, f, i as int);
            assert(s[i as int] == db.learnings[i as int]@);
        }
        if db.learnings[i].task_id == *task_id {
            let l: Learning = db.learnings[i].copy();
            let ghost v = l@;
            out.push(l);
            assert(types::learning_views(out@) =~= types::learning_views(before).push(v));
        }
        i += 1;
    }
    proof {
        model::lemma_filter_empty(s, f);
    }
    out
}

/// The learning with an identifier.
pub fn get_learning(db: &Store, id: &LearningId) -> (out: Option<Learning>)
    ensures
        match out {
            Some(l) => exists|i: int|
                0 <= i < db@.learnings.len() && #[trigger] db@.learnings[i] == l@ && l.id == *id
                    && (forall|k: int| 0 <= k < i ==> (#[trigger] db@.learnings[k]).id != *id),
            None => forall|i: int|
                0 <= i < db@.learnings.len() ==> (#[trigger] db@.learnings[i]).id != *id,
        },
{
    let mut i: usize = 0;
    while i < db.learnings.len()
        invariant
            i <= db.learnings.len(),
            forall|k: int| 0 <= k < i ==> (#[trigger] db@.learnings[k]).id != *id,
        decreases db.learnings.len() - i,
    {
        assert(db@.learnings[i as int] == db.learnings[i as int]@);
        if db.learnings[i].id == *id {
            let l: Learning = db.learnings[i].copy();
            assert(db@.learnings[i as int] == l@);
            return Some(l);
        }
        i += 1;
    }
    None
}

/// The position of the learning that records the same as `l`.
fn find_same(db: &Store, l: &Learning) -> (out: Option<usize>)
    ensures
        match out {
            Some(i) => i < db.learnings.len() && model::same_learning(
                db@.learnings[i as int],
                l@,
            ) && recorded(db@, l@),
            None => !recorded(db@, l@),
        },
{
    let mut i: usize = 0;
    while i < db.learnings.len()
        invariant
            i <= db.learnings.len(),
            forall|k: int| 0 <= k < i ==> !model::same_learning(#[trigger] db@.learnings[k], l@),
        decreases db.learnings.len() - i,
    {
        let x = &db.learnings[i];
        assert(db@.learnings[i as int] == x@);
        if x.task_id == l.task_id && x.source_task_id == l.source_task_id && text::same(
            x.content.as_str(),
            l.content.as_str(),
        ) {
            return Some(i);
        }
        i += 1;
    }
    None
}

/// Adds a learning, unless it is recorded already.
fn insert(db: &mut Store, l: Learning)
    requires
        old(db)@.wf(),
        old(db)@.has(l.task_id),
    ensures
        final(db)@.wf(),
        final(db)@ == adding(old(db)@, l@),
{
    let ghost d = db@;
    let ghost v = l@;
    proof {
        lemma_adding(d, v);
    }
    if find_same(db, &l).is_none() {
        let ghost s = db.learnings@;
        db.learnings.push(l);
        assert(types::learning_views(db.learnings@) =~= types::learning_views(s).push(v));
    }
}

/// Records a text for a task. Without a source it stems from the task itself. A text that is
/// recorded for the task from the same source is not recorded twice: what is there is given back.
pub fn add_learning_at(
    db: &mut Store,
    task_id: &TaskId,
    content: &str,
    source_task_id: Option<&TaskId>,
    id: LearningId,
    now: Timestamp,
) -> (out: Result<Learning, OsError>)
    requires
        old(db)@.wf(),
    ensures
        final(db)@.wf(),
        (final(db)@, error::outcome(out)) == record(
            old(db)@,
            note(*task_id, content@, opt_id(source_task_id), id, now),
        ),
{
    if !task_repo::task_exists(db, task_id) {
        return Err(OsError::TaskNotFound(*task_id));
    }
    let l = Learning {
        id,
        task_id: *task_id,
        content: text::owned(content),
        source_task_id: match source_task_id {
            Some(s) => Some(*s),
            None => Some(*task_id),
        },
        created_at: now,
    };
    assert(l@ =~= note(*task_id, content@, opt_id(source_task_id), id, now));
    proof {
        lemma_adding(db@, l@);
    }
    match find_same(db, &l) {
        Some(i) => {
            let found: Learning = db.learnings[i].copy();
            proof {
                assert(db@.learnings[i as int] == found@);
                let k = choose|k: int|
                    0 <= k < db@.learnings.len() && model::same_learning(
                        #[trigger] db@.learnings[k],
                        l@,
                    );
                assert(model::same_learning(db@.learnings[k], db@.learnings[i as int]));
            }
            Ok(found)
        },
        None => {
            let ghost s = db.learnings@;
            let given: Learning = l.copy();
            let ghost v = l@;
            db.learnings.push(l);
            proof {
                assert(types::learning_views(db.learnings@) =~= types::learning_views(s).push(v));
                assert(db@.learnings[s.len() as int] == given@);
            }
            Ok(given)
        },
    }
}

/// The identifier behind an optional reference.
pub open spec fn opt_id(id: Option<&TaskId>) -> Option<TaskId> {
    match id {
        Some(i) => Some(*i),
        None => None,
    }
}

/// Records a text for a task now, under a new identifier.
pub fn add_learning(
    db: &mut Store,
    task_id: &TaskId,
    content: &str,
    source_task_id: Option<&TaskId>,
) -> (out: Result<Learning, OsError>)
    requires
        old(db)@.wf(),
    ensures
        final(db)@.wf(),
        exists|id: LearningId, now: Timestamp|
            (final(db)@, error::outcome(out)) == record(
                old(db)@,
                #[trigger] note(*task_id, content@, opt_id(source_task_id), id, now),
            ),
{
    let id: LearningId = LearningId::new();
    let now: Timestamp = crate::time::now();
    add_learning_at(db, task_id, content, source_task_id, id, now)
}

/// Removes the learning with an identifier.
pub fn delete_learning(db: &mut Store, id: &LearningId) -> (out: Result<(), OsError>)
    requires
        old(db)@.wf(),
    ensures
        final(db)@.wf(),
        (final(db)@, error::outcome(out)) == forget(old(db)@, *id),
{
    let ghost d = db@;
    let ghost s = db@.learnings;
    let ghost f = |l: LearningView| l.id != *id;
    let mut kept: Vec<Learning> = Vec::new();
    let mut i: usize = 0;
    let mut found: bool = false;
    proof {
        model::lemma_filter_empty(s, f);
        assert(types::learning_views(kept@) =~= s.take(0).filter(f));
    }
    while i < db.learnings.len()
        invariant
            i <= db.learnings.len(),
            *db == *old(db),
            s == db@.learnings,
            f == (|l: LearningView| l.id != *id),
            types::learning_views(kept@) == s.take(i as int).filter(f),
            found <==> exists|k: int| 0 <= k < i && (#[trigger] s[k]).id == *id,
            !found ==> s.take(i as int).filter(f) == s.take(i as int),
        decreases db.learnings.len() - i,
    {
        let ghost before = kept@;
        proof {
            model::lemma_filter_take(s, f, i as int);
            assert(s[i as int] == db.learnings[i as int]@);
            assert(s.take(i + 1) =~= s.take(i as int).push(s[i as int]));
        }
        if db.learnings[i].id != *id {
            let l: Learning = db.learnings[i].copy();
            let ghost v = l@;
            kept.push(l);
            assert(types::learning_views(kept@) =~= types::learning_views(before).push(v));
        } else {
            found = true;
        }
        i += 1;
    }
    proof {
        model::lemma_filter_empty(s, f);
        keep::lemma_filter_learnings(s, f);
    }
    db.learnings = kept;
    proof {
        let e = db@;
        assert(e.learnings == s.filter(f));
        keep::lemma_same_tasks(d, e);
        assert forall|i: int| 0 <= i < e.learnings.len() implies e.has(
            (#[trigger] e.learnings[i]).task_id,
        ) by {
            assert(s.contains(e.learnings[i]));
            let j = choose|j: int| 0 <= j < s.len() && s[j] == e.learnings[i];
            assert(d.has(d.learnings[j].task_id));
        }
        assert forall|i: int| 0 <= i < e.blockers.len() implies e.has(
            (#[trigger] e.blockers[i]).task_id,
        ) && e.has(e.blockers[i].blocker_id) by {
            assert(d.has(d.blockers[i].task_id) && d.has(d.blockers[i].blocker_id));
        }
    }
    if found {
        Ok(())
    } else {
        assert(db@ =~= d);
        Err(OsError::LearningNotFound(*id))
    }
}

/// Adds texts to a task as learnings of its own, under the given identifiers.
pub fn add_learnings(
    db: &mut Store,
    task_id: TaskId,
    contents: &Vec<String>,
    ids: &Vec<LearningId>,
    now: Timestamp,
)
    requires
        old(db)@.wf(),
        old(db)@.has(task_id),
        ids.len() >= contents.len(),
    ensures
        final(db)@.wf(),
        final(db)@ == adding_all(old(db)@, task_id, text::texts(contents@), ids@, now),
{
    let ghost d = db@;
    let ghost all = text::texts(contents@);
    let mut i: usize = 0;
    assert(all.take(0) =~= Seq::<Seq<char>>::empty());
    while i < contents.len()
        invariant
            i <= contents.len(),
            ids.len() >= contents.len(),
            d.wf(),
            d.has(task_id),
            all == text::texts(contents@),
            db@ == adding_all(d, task_id, all.take(i as int), ids@, now),
        decreases contents.len() - i,
    {
        proof {
            lemma_adding_all(d, task_id, all.take(i as int), ids@, now);
            keep::lemma_same_tasks(d, db@);
            let t = all.take(i + 1);
            assert(t.drop_last() =~= all.take(i as int));
            assert(t.last() == contents@[i as int]@);
        }
        let l = Learning {
            id: ids[i],
            task_id,
            content: contents[i].clone(),
            source_task_id: Some(task_id),
            created_at: now,
        };
        assert(l@ =~= note(task_id, contents@[i as int]@, None, ids@[i as int], now));
        insert(db, l);
        i += 1;
    }
    proof {
        assert(all.take(all.len() as int) =~= all);
        lemma_adding_all(d, task_id, all, ids@, now);
    }
}

/// Copies the learnings of one task to another, under the given identifiers. What the other task
/// has already is left out, and each copy keeps its source.
pub fn bubble_learnings(
    db: &mut Store,
    from: &TaskId,
    to: &TaskId,
    ids: &Vec<LearningId>,
    now: Timestamp,
)
    requires
        old(db)@.wf(),
        old(db)@.has(*to),
        ids.len() >= old(db)@.learnings_of(*from).len(),
    ensures
        final(db)@.wf(),
        final(db)@ == bubbling(old(db)@, *from, *to, ids@, now),
{
    let ghost d = db@;
    let list: Vec<Learning> = list_learnings(db, from);
    let ghost all = d.learnings_of(*from);
    let mut i: usize = 0;
    assert(all.take(0) =~= Seq::<LearningView>::empty());
    assert(all.len() == list@.len());
    while i < list.len()
        invariant
            i <= list.len(),
            all == types::learning_views(list@),
            ids.len() >= all.len(),
            d.wf(),
            d.has(*to),
            db@ == copying(d, all.take(i as int), *to, ids@, now),
        decreases list.len() - i,
    {
        proof {
            lemma_copying(d, all.take(i as int), *to, ids@, now);
            keep::lemma_same_tasks(d, db@);
            let t = all.take(i + 1);
            assert(t.drop_last() =~= all.take(i as int));
            assert(t.last() == list@[i as int]@);
        }
        let l = Learning {
            id: ids[i],
            task_id: *to,
            content: list[i].content.clone(),
            source_task_id: list[i].source_task_id,
            created_at: now,
        };
        assert(l@ =~= copied(list@[i as int]@, *to, ids@[i as int], now));
        insert(db, l);
        i += 1;
    }
    proof {
        assert(all.take(all.len() as int) =~= all);
        lemma_copying(d, all, *to, ids@, now);
    }
}

} // verus!
