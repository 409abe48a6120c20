//! The tables in memory.
use vstd::prelude::*;

use crate::id::TaskId;
use crate::model;
use crate::model::Db;
use crate::text;
use crate::types;
use crate::types::{BlockerRelation, Learning, RowView, TaskRow};

verus! {

/// The tables: tasks, dependency edges and learnings, each in the order of insertion.
pub struct Store {
    pub tasks: Vec<TaskRow>,
    pub blockers: Vec<BlockerRelation>,
    pub learnings: Vec<Learning>,
}

/// The views of a sequence of rows.
pub open spec fn row_views(s: Seq<TaskRow>) -> Seq<RowView> {
    s.map_values(|r: TaskRow| r@)
}

impl View for Store {
    type V = Db;

    open spec fn view(&self) -> Db {
        Db {
            tasks: row_views(self.tasks@),
            blockers: self.blockers@,
            learnings: types::learning_views(self.learnings@),
        }
    }
}

impl Store {
    /// Empty tables.
    pub fn new() -> (out: Store)
        ensures
            out@ == Db::empty(),
            out@.wf(),
    {
        let out = Store { tasks: Vec::new(), blockers: Vec::new(), learnings: Vec::new() };
        assert(out@ =~= Db::empty());
        out
    }

    /// The position of a task in its table.
    pub fn find(&self, id: TaskId) -> (out: Option<usize>)
        requires
            self@.unique_ids(),
        ensures
            match out {
                Some(i) => i < self.tasks.len() && self.tasks[i as int].id == id && self@.has(id)
                    && self@.pos(id) == i && self@.row(id) == self.tasks[i as int]@,
                None => !self@.has(id),
            },
    {
        let mut i: usize = 0;
        while i < self.tasks.len()
            invariant
                i <= self.tasks.len(),
                self@.unique_ids(),
                forall|k: int| 0 <= k < i ==> (#[trigger] self@.tasks[k]).id != id,
            decreases self.tasks.len() - i,
        {
            if self.tasks[i].id == id {
                assert(self@.tasks[i as int].id == id);
                proof {
                    model::lemma_pos(self@, i as int);
                }
                return Some(i);
            }
            assert(self@.tasks[i as int].id != id);
            i += 1;
        }
        None
    }
}

/// Replacing a row in the table replaces its view.
pub proof fn lemma_row_views_update(s: Seq<TaskRow>, i: int, r: TaskRow)
    requires
        0 <= i < s.len(),
    ensures
        row_views(s.update(i, r)) == row_views(s).update(i, r@),
{
    assert(row_views(s.update(i, r)) =~= row_views(s).update(i, r@));
}

impl Store {
    /// Tables with the given rows, where they keep the rules: no identifier twice, parents and the
    /// ends of edges stored, no task more than two levels down, no edge and no learning twice.
    pub fn from_rows(
        tasks: Vec<TaskRow>,
        blockers: Vec<BlockerRelation>,
        learnings: Vec<Learning>,
    ) -> (out: Option<Store>)
        ensures
            ({
                let d = Db {
                    tasks: row_views(tasks@),
                    blockers: blockers@,
                    learnings: types::learning_views(learnings@),
                };
                match out {
                    Some(s) => s@ == d && d.wf(),
                    None => !d.wf(),
                }
            }),
    {
        let s = Store { tasks, blockers, learnings };
        if s.distinct_ids() && s.sound_hierarchy() && s.sound_edges() && s.sound_learnings() {
            Some(s)
        } else {
            None
        }
    }

    /// Whether no two tasks share an identifier.
    fn distinct_ids(&self) -> (out: bool)
        ensures
            out == self@.unique_ids(),
    {
        let ghost d = self@;
        let mut i: usize = 0;
        while i < self.tasks.len()
            invariant
                i <= self.tasks.len(),
                d == self@,
                forall|a: int, b: int|
                    0 <= a < b < i ==> (#[trigger] d.tasks[a]).id != (#[trigger] d.tasks[b]).id,
            decreases self.tasks.len() - i,
        {
            let mut j: usize = 0;
            while j < i
                invariant
                    j <= i < self.tasks.len(),
                    d == self@,
                    forall|a: int| 0 <= a < j ==> (#[trigger] d.tasks[a]).id != d.tasks[i as int].id,
                decreases i - j,
            {
                assert(d.tasks[i as int] == self.tasks[i as int]@);
                assert(d.tasks[j as int] == self.tasks[j as int]@);
                if self.tasks[i].id == self.tasks[j].id {
                    return false;
                }
                j += 1;
            }
            i += 1;
        }
        true
    }

    /// The parent of a task.
    fn parent_of(&self, id: TaskId) -> (out: Option<TaskId>)
        requires
            self@.unique_ids(),
        ensures
            out == self@.parent(id),
    {
        match self.find(id) {
            Some(i) => self.tasks[i].parent_id,
            None => None,
        }
    }

    /// Whether parents are stored and no task stands more than two levels down.
    fn sound_hierarchy(&self) -> (out: bool)
        requires
            self@.unique_ids(),
        ensures
            out == (self@.parents_exist() && self@.shallow()),
    {
        let ghost d = self@;
        let mut i: usize = 0;
        while i < self.tasks.len()
            invariant
                i <= self.tasks.len(),
                d == self@,
                d.unique_ids(),
                forall|k: int|
                    0 <= k < i ==> (match (#[trigger] d.tasks[k]).parent_id {
                        Some(p) => d.has(p),
                        None => true,
                    }) && d.up(d.tasks[k].id, 3) is None,
            decreases self.tasks.len() - i,
        {
            let id: TaskId = self.tasks[i].id;
            assert(d.tasks[i as int] == self.tasks[i as int]@);
            proof {
                model::lemma_pos(d, i as int);
                assert(d.up(id, 0) == Some(id));
                assert(d.up(id, 1) == d.parent(id));
                assert(d.up(id, 2) == (match d.up(id, 1) {
                    Some(p) => d.parent(p),
                    None => None,
                }));
                assert(d.up(id, 3) == (match d.up(id, 2) {
                    Some(p) => d.parent(p),
                    None => None,
                }));
            }
            if let Some(p) = self.tasks[i].parent_id {
                if self.find(p).is_none() {
                    return false;
                }
                if let Some(q) = self.parent_of(p) {
                    if self.parent_of(q).is_some() {
                        return false;
                    }
                }
            }
            i += 1;
        }
        true
    }

    /// Whether the edges join stored tasks and none is stored twice.
    fn sound_edges(&self) -> (out: bool)
        requires
            self@.unique_ids(),
        ensures
            out == self@.edges_ok(),
    {
        let ghost d = self@;
        let mut i: usize = 0;
        while i < self.blockers.len()
            invariant
                i <= self.blockers.len(),
                d == self@,
                d.unique_ids(),
                forall|a: int, b: int| 0 <= a < b < i ==> d.blockers[a] != d.blockers[b],
                forall|k: int|
                    0 <= k < i ==> d.has((#[trigger] d.blockers[k]).task_id) && d.has(
                        d.blockers[k].blocker_id,
                    ),
            decreases self.blockers.len() - i,
        {
            let e: BlockerRelation = self.blockers[i];
            assert(d.blockers[i as int] == e);
            if self.find(e.task_id).is_none() || self.find(e.blocker_id).is_none() {
                return false;
            }
            let mut j: usize = 0;
            while j < i
                invariant
                    j <= i < self.blockers.len(),
                    d == self@,
                    e == d.blockers[i as int],
                    forall|a: int| 0 <= a < j ==> d.blockers[a] != e,
                decreases i - j,
            {
                if self.blockers[j] == e {
                    assert(d.blockers[j as int] == d.blockers[i as int]);
                    return false;
                }
                j += 1;
            }
            i += 1;
        }
        true
    }

    /// Whether the learnings belong to stored tasks and none is recorded twice.
    fn sound_learnings(&self) -> (out: bool)
        requires
            self@.unique_ids(),
        ensures
            out == self@.learnings_ok(),
    {
        let ghost d = self@;
        let mut i: usize = 0;
        while i < self.learnings.len()
            invariant
                i <= self.learnings.len(),
                d == self@,
                d.unique_ids(),
                forall|a: int, b: int|
                    0 <= a < b < i ==> !model::same_learning(
                        #[trigger] d.learnings[a],
                        #[trigger] d.learnings[b],
                    ),
                forall|k: int| 0 <= k < i ==> d.has((#[trigger] d.learnings[k]).task_id),
            decreases self.learnings.len() - i,
        {
            let l = &self.learnings[i];
            assert(d.learnings[i as int] == l@);
            if self.find(l.task_id).is_none() {
                return false;
            }
            let mut j: usize = 0;
            while j < i
                invariant
                    j <= i < self.learnings.len(),
                    d == self@,
                    l@ == d.learnings[i as int],
                    forall|a: int|
                        0 <= a < j ==> !model::same_learning(#[trigger] d.learnings[a], l@),
                decreases i - j,
            {
                let m = &self.learnings[j];
                assert(d.learnings[j as int] == m@);
                if m.task_id == l.task_id && m.source_task_id == l.source_task_id && text::same(
                    m.content.as_str(),
                    l.content.as_str(),
                ) {
                    assert(model::same_learning(d.learnings[j as int], d.learnings[i as int]));
                    return false;
                }
                j += 1;
            }
            i += 1;
        }
        true
    }
}

} // verus!
