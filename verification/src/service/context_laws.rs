//! Which contexts and which learnings come with a task, by the rows.
use vstd::prelude::*;

use crate::id::TaskId;
use crate::model;
use crate::model::Db;
use crate::service::context;
use crate::service::rules;
use crate::table_laws;
use crate::types::{LearningView, RowView, TaskView};

verus! {

/// The learnings of the table that name a task, in their order.
pub open spec fn learned_at(d: Db, id: TaskId) -> Seq<LearningView> {
    d.learnings.filter(|l: LearningView| l.task_id == id)
}

/// Below every task that is no milestone stands one milestone at the top: the one task at or above
/// it whose row names no parent.
pub proof fn law_one_milestone(d: Db, x: RowView)
    requires
        d.wf(),
        d.tasks.contains(x),
    ensures
        exists|m: RowView| #[trigger]
            d.tasks.contains(m) && m.parent_id is None && table_laws::at_or_above(d, m.id, x.id),
        forall|m: RowView, n: RowView| #[trigger]
            d.tasks.contains(m) && #[trigger] d.tasks.contains(n) && m.parent_id is None
                && n.parent_id is None && table_laws::at_or_above(d, m.id, x.id)
                && table_laws::at_or_above(d, n.id, x.id) ==> m == n,
{
    lemma_above(d, x);
    table_laws::law_rows(d, x.id);
    assert(table_laws::row_of(d, x.id, x));
    if x.parent_id is Some {
        let p = x.parent_id->0;
        model::lemma_depth_child(d, x.id);
        model::lemma_row(d, p);
        assert(d.tasks.contains(d.row(p)));
        assert(table_laws::child_of(d, x.id, p));
        if d.row(p).parent_id is None {
            assert(table_laws::at_or_above(d, d.row(p).id, x.id));
        } else {
            let g = d.row(p).parent_id->0;
            model::lemma_depth_child(d, p);
            model::lemma_row(d, g);
            assert(d.tasks.contains(d.row(g)));
            assert(table_laws::child_of(d, p, g));
            assert(table_laws::at_or_above(d, d.row(g).id, x.id));
            assert(d.row(g).parent_id is None);
        }
    }
    assert forall|m: RowView, n: RowView| #[trigger]
        d.tasks.contains(m) && #[trigger] d.tasks.contains(n) && m.parent_id is None
            && n.parent_id is None && table_laws::at_or_above(d, m.id, x.id)
            && table_laws::at_or_above(d, n.id, x.id) implies m == n by {
        lemma_milestone(d, x, m);
        lemma_milestone(d, x, n);
        table_laws::law_rows(d, m.id);
        assert(table_laws::row_of(d, m.id, m));
        assert(table_laws::row_of(d, m.id, n));
    }
}

/// The tasks above a stored one, by its depth.
proof fn lemma_above(d: Db, x: RowView)
    requires
        d.wf(),
        d.tasks.contains(x),
    ensures
        d.has(x.id),
        d.row(x.id) == x,
        d.up(x.id, 0) == Some(x.id),
        d.up(x.id, 1) == x.parent_id,
        d.up(x.id, 3) is None,
        x.parent_id is None ==> d.depth(x.id) == 0,
        x.parent_id matches Some(p) ==> d.has(p) && d.row(p).id == p && d.up(x.id, 2) == d.row(
            p,
        ).parent_id && (d.row(p).parent_id is None ==> d.depth(x.id) == 1) && (d.row(p).parent_id
            matches Some(g) ==> d.depth(x.id) == 2 && d.has(g) && d.row(g).id == g && d.row(
            g,
        ).parent_id is None),
{
    table_laws::law_rows(d, x.id);
    assert(table_laws::row_of(d, x.id, x));
    model::lemma_shallow(d, x.id);
    if x.parent_id is Some {
        let p = x.parent_id->0;
        model::lemma_depth_child(d, x.id);
        model::lemma_row(d, p);
        model::lemma_up_from_parent(d, x.id, 1);
        assert(d.up(p, 0) == Some(p));
        assert(d.up(p, 1) == d.parent(p));
        if d.row(p).parent_id is Some {
            let g = d.row(p).parent_id->0;
            model::lemma_depth_child(d, p);
            model::lemma_row(d, g);
            assert(d.up(x.id, 3) == d.parent(g));
        }
    }
}

/// The milestone above a task is where going up ends.
proof fn lemma_milestone(d: Db, x: RowView, m: RowView)
    requires
        d.wf(),
        d.tasks.contains(x),
        d.tasks.contains(m),
        m.parent_id is None,
        table_laws::at_or_above(d, m.id, x.id),
    ensures
        d.row(m.id) == m,
        x.parent_id is None ==> m.id == x.id,
        x.parent_id matches Some(p) ==> (d.row(p).parent_id is None ==> m.id == p) && (d.row(
            p,
        ).parent_id matches Some(g) ==> m.id == g),
{
    lemma_above(d, x);
    lemma_above(d, m);
    table_laws::law_hierarchy(d, m.id, x.id);
    if m.id != x.id {
        model::lemma_ancestor(d, m.id, x.id);
        if x.parent_id is Some {
            let p = x.parent_id->0;
            if d.row(p).parent_id is Some {
                assert(m.id != p);
            }
        }
    } else {
        assert(m == x) by {
            table_laws::law_rows(d, x.id);
            assert(table_laws::row_of(d, x.id, x));
            assert(table_laws::row_of(d, x.id, m));
        }
    }
}

/// A task comes with its own context and learnings. A milestone comes with no others; a task below
/// one with those of its milestone as the milestone's; a subtask also with those of its parent as
/// the parent's.
pub proof fn law_contexts_by_level(d: Db, t: TaskView, x: RowView, p: RowView, m: RowView)
    requires
        d.wf(),
        d.tasks.contains(x),
        d.tasks.contains(p),
        d.tasks.contains(m),
        t.row.id == x.id,
        x.parent_id is Some ==> p.id == x.parent_id->0,
        m.parent_id is None,
        table_laws::at_or_above(d, m.id, x.id),
    ensures
        ({
            let w = context::with_context(d, t);
            &&& w.task == t
            &&& w.context.own == x.context
            &&& w.learnings.own == learned_at(d, x.id)
            &&& x.parent_id is None ==> {
                &&& w.context.milestone is None && w.context.parent is None
                &&& w.learnings.milestone.len() == 0 && w.learnings.parent.len() == 0
            }
            &&& x.parent_id is Some ==> {
                &&& w.context.milestone == Some(m.context)
                &&& w.learnings.milestone == learned_at(d, m.id)
                &&& p.parent_id is None ==> w.context.parent is None && w.learnings.parent.len()
                    == 0
                &&& p.parent_id is Some ==> {
                    &&& w.context.parent == Some(p.context)
                    &&& w.learnings.parent == learned_at(d, p.id)
                }
            }
        }),
{
    lemma_above(d, x);
    lemma_above(d, p);
    lemma_milestone(d, x, m);
}

/// A task that is looked up comes with the contexts of its parent and its milestone, where it has
/// them, and inherits the learnings of its milestone, and a subtask also those of its parent.
pub proof fn law_contexts_of_a_task(d: Db, x: RowView, p: RowView, m: RowView)
    requires
        d.wf(),
        d.tasks.contains(x),
        d.tasks.contains(p),
        d.tasks.contains(m),
        x.parent_id is Some ==> p.id == x.parent_id->0,
        m.parent_id is None,
        table_laws::at_or_above(d, m.id, x.id),
    ensures
        rules::get(d, x.id) matches Ok(t) && {
            &&& t.row == x
            &&& t.context_chain matches Some(c) && {
                &&& c.own == x.context
                &&& x.parent_id is None ==> c.parent is None && c.milestone is None
                &&& x.parent_id is Some ==> c.parent == Some(p.context) && c.milestone == Some(
                    m.context,
                )
            }
            &&& t.learnings matches Some(l) && {
                &&& x.parent_id is None ==> l.milestone.len() == 0 && l.parent.len() == 0
                &&& x.parent_id is Some ==> l.milestone == learned_at(d, m.id)
                &&& x.parent_id is Some && p.parent_id is None ==> l.parent.len() == 0
                &&& x.parent_id is Some && p.parent_id is Some ==> l.parent == learned_at(d, p.id)
            }
        },
{
    lemma_above(d, x);
    lemma_above(d, p);
    lemma_milestone(d, x, m);
}

} // verus!
