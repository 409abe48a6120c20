//! Lists of tasks, flat or drawn as a forest.
use vstd::prelude::*;

use crate::id::TaskId;
use crate::model;
use crate::order;
use crate::order::Rank;
use crate::output::paint;
use crate::output::paint::{Colors, Printer};
use crate::output::status;
use crate::output::status::TaskStatus;
use crate::output::tree;
use crate::text;
use crate::types;
use crate::types::{Task, TaskView};

verus! {

/// Whether a task is on a list.
pub open spec fn on_list(list: Seq<TaskView>, id: TaskId) -> bool {
    exists|i: int| 0 <= i < list.len() && (#[trigger] list[i]).row.id == id
}

/// The task with an identifier on a list.
pub open spec fn on_list_as(list: Seq<TaskView>, id: TaskId) -> TaskView {
    list[choose|i: int| 0 <= i < list.len() && (#[trigger] list[i]).row.id == id]
}

/// Whether no task is on a list twice.
pub open spec fn distinct(list: Seq<TaskView>) -> bool {
    forall|i: int, j: int|
        0 <= i < j < list.len() ==> (#[trigger] list[i]).row.id != (#[trigger] list[j]).row.id
}

/// Whether a task stands under another one on the list.
pub open spec fn under_another(list: Seq<TaskView>, t: TaskView) -> bool {
    t.row.parent_id is Some && on_list(list, t.row.parent_id->0)
}

/// A depth as a number; a depth that is not known comes before all others.
pub open spec fn depth_key(depth: Option<i32>) -> i64 {
    match depth {
        Some(d) => d as i64,
        None => -0x1_0000_0000i64,
    }
}

/// What decides the place of a task among its siblings: open tasks first, then by priority,
/// creation time and identifier.
pub open spec fn sibling_rank(t: TaskView) -> Rank {
    Rank {
        completed: t.row.completed,
        depth: 0,
        priority: t.row.priority,
        created_at: t.row.created_at,
        tie: 0,
        id: t.row.id,
    }
}

/// What decides the place of a task among the roots: after being open, its depth.
pub open spec fn root_rank(t: TaskView) -> Rank {
    Rank { depth: depth_key(t.depth), ..sibling_rank(t) }
}

/// The tasks under a task on a list, in order.
pub open spec fn kids(list: Seq<TaskView>, id: TaskId) -> Seq<TaskId> {
    order::ranked(
        list.filter(|t: TaskView| t.row.parent_id == Some(id)).map_values(
            |t: TaskView| sibling_rank(t),
        ),
    )
}

/// The tasks on a list that stand under no other one there, in order.
pub open spec fn roots(list: Seq<TaskView>) -> Seq<TaskId> {
    order::ranked(
        list.filter(|t: TaskView| !under_another(list, t)).map_values(|t: TaskView| root_rank(t)),
    )
}

/// What stands before a task under another one.
pub open spec fn connector(is_last: bool) -> Seq<char> {
    if is_last {
        "└─ "@
    } else {
        "├─ "@
    }
}

/// What stands before the tasks further down.
pub open spec fn continuation(is_last: bool) -> Seq<char> {
    if is_last {
        "   "@
    } else {
        "│  "@
    }
}

/// The lines for a task under another one, and for what is under it.
pub open spec fn child_lines(
    c: Colors,
    list: Seq<TaskView>,
    id: TaskId,
    line_prefix: Seq<char>,
    child_prefix: Seq<char>,
    levels: nat,
) -> Seq<Seq<char>>
    decreases levels, 0nat,
{
    let t = on_list_as(list, id);
    let own = paint::painted(line_prefix, c.tree_line) + status::task_line(
        c,
        t,
        status::title(c, t),
    );
    seq![own] + (if levels == 0 {
        Seq::empty()
    } else {
        kids_lines(
            c,
            list,
            kids(list, id),
            kids(list, id).len(),
            child_prefix,
            (levels - 1) as nat,
        )
    })
}

/// The lines for the first `n` of these siblings, and for what is under them.
pub open spec fn kids_lines(
    c: Colors,
    list: Seq<TaskView>,
    ids: Seq<TaskId>,
    n: nat,
    prefix: Seq<char>,
    levels: nat,
) -> Seq<Seq<char>>
    decreases levels, n,
{
    if n == 0 {
        Seq::empty()
    } else {
        let last = n == ids.len();
        kids_lines(c, list, ids, (n - 1) as nat, prefix, levels) + child_lines(
            c,
            list,
            ids[n - 1],
            prefix + connector(last),
            prefix + continuation(last),
            levels,
        )
    }
}

/// The lines for a root, and for what is under it.
pub open spec fn root_lines(c: Colors, list: Seq<TaskView>, id: TaskId) -> Seq<Seq<char>> {
    let t = on_list_as(list, id);
    seq![status::task_line(c, t, status::title(c, t))] + kids_lines(
        c,
        list,
        kids(list, id),
        kids(list, id).len(),
        Seq::empty(),
        list.len(),
    )
}

/// The lines for the first `n` of these roots.
pub open spec fn forest_lines(c: Colors, list: Seq<TaskView>, ids: Seq<TaskId>, n: nat) -> Seq<
    Seq<char>,
>
    decreases n,
{
    if n == 0 {
        Seq::empty()
    } else {
        forest_lines(c, list, ids, (n - 1) as nat) + root_lines(c, list, ids[n - 1])
    }
}

/// A list as a forest.
pub open spec fn forest_report(c: Colors, list: Seq<TaskView>) -> Seq<Seq<char>> {
    if list.len() == 0 {
        seq!["No tasks found"@]
    } else {
        forest_lines(c, list, roots(list), roots(list).len()) + status::summary(
            c,
            status::states_of(list),
        )
    }
}

/// A list line by line.
pub open spec fn flat_report(c: Colors, list: Seq<TaskView>) -> Seq<Seq<char>> {
    if list.len() == 0 {
        seq!["No tasks found"@]
    } else {
        list.map_values(|t: TaskView| status::task_line(c, t, t.row.description))
            + status::summary(c, status::states_of(list))
    }
}

/// Roots and siblings are tasks of the list.
proof fn lemma_kids(list: Seq<TaskView>, id: TaskId)
    ensures
        forall|i: int| 0 <= i < kids(list, id).len() ==> on_list(list, #[trigger] kids(list, id)[i]),
        forall|i: int| 0 <= i < roots(list).len() ==> on_list(list, #[trigger] roots(list)[i]),
{
    let f = |t: TaskView| t.row.parent_id == Some(id);
    let g = |t: TaskView| !under_another(list, t);
    let k = list.filter(f).map_values(|t: TaskView| sibling_rank(t));
    let r = list.filter(g).map_values(|t: TaskView| root_rank(t));
    order::lemma_ranked(k);
    order::lemma_ranked(r);
    assert forall|i: int| 0 <= i < kids(list, id).len() implies on_list(
        list,
        #[trigger] kids(list, id)[i],
    ) by {
        let x = kids(list, id)[i];
        assert(kids(list, id).contains(x));
        let j = choose|j: int| 0 <= j < k.len() && (#[trigger] k[j]).id == x;
        assert(list.filter(f).contains(list.filter(f)[j]));
        list.lemma_filter_contains_rev(f, list.filter(f)[j]);
        let m = choose|m: int| 0 <= m < list.len() && list[m] == list.filter(f)[j];
        assert(list[m].row.id == x);
    }
    assert forall|i: int| 0 <= i < roots(list).len() implies on_list(
        list,
        #[trigger] roots(list)[i],
    ) by {
        let x = roots(list)[i];
        assert(roots(list).contains(x));
        let j = choose|j: int| 0 <= j < r.len() && (#[trigger] r[j]).id == x;
        assert(list.filter(g).contains(list.filter(g)[j]));
        list.lemma_filter_contains_rev(g, list.filter(g)[j]);
        let m = choose|m: int| 0 <= m < list.len() && list[m] == list.filter(g)[j];
        assert(list[m].row.id == x);
    }
}

/// The position of a task on a list.
fn find(list: &Vec<Task>, id: TaskId) -> (out: Option<usize>)
    requires
        distinct(types::task_views(list@)),
    ensures
        match out {
            Some(i) => {
                &&& i < list.len()
                &&& on_list(types::task_views(list@), id)
                &&& list@[i as int]@ == on_list_as(types::task_views(list@), id)
            },
            None => !on_list(types::task_views(list@), id),
        },
{
    let ghost v = types::task_views(list@);
    let mut i: usize = 0;
    while i < list.len()
        invariant
            i <= list.len(),
            v == types::task_views(list@),
            distinct(v),
            forall|k: int| 0 <= k < i ==> (#[trigger] v[k]).row.id != id,
        decreases list.len() - i,
    {
        assert(v[i as int] == list@[i as int]@);
        if list[i].id == id {
            proof {
                let k = choose|k: int| 0 <= k < v.len() && (#[trigger] v[k]).row.id == id;
                assert(v[i as int].row.id == id);
                assert(k == i);
            }
            return Some(i);
        }
        i += 1;
    }
    None
}

fn rank_of(t: &Task, root: bool) -> (out: Rank)
    ensures
        out == if root {
            root_rank(t@)
        } else {
            sibling_rank(t@)
        },
{
    let depth: i64 = if root {
        match t.depth {
            Some(d) => d as i64,
            None => -0x1_0000_0000i64,
        }
    } else {
        0
    };
    Rank {
        completed: t.completed,
        depth,
        priority: t.priority,
        created_at: t.created_at,
        tie: 0,
        id: t.id,
    }
}

/// The tasks under a task on a list, in order.
fn kid_ids(list: &Vec<Task>, id: TaskId) -> (out: Vec<TaskId>)
    ensures
        out@ == kids(types::task_views(list@), id),
{
    let ghost v = types::task_views(list@);
    let ghost f = |t: TaskView| t.row.parent_id == Some(id);
    let ghost g = |t: TaskView| sibling_rank(t);
    let mut ranks: Vec<Rank> = Vec::new();
    let mut i: usize = 0;
    proof {
        model::lemma_filter_empty(v, f);
        assert(ranks@ =~= v.take(0).filter(f).map_values(g));
    }
    while i < list.len()
        invariant
            i <= list.len(),
            v == types::task_views(list@),
            f == (|t: TaskView| t.row.parent_id == Some(id)),
            g == (|t: TaskView| sibling_rank(t)),
            ranks@ == v.take(i as int).filter(f).map_values(g),
        decreases list.len() - i,
    {
        let ghost before = v.take(i as int).filter(f);
        proof {
            model::lemma_filter_take(v, f, i as int);
            assert(v[i as int] == list@[i as int]@);
        }
        let here: bool = match list[i].parent_id {
            Some(p) => p == id,
            None => false,
        };
        if here {
            ranks.push(rank_of(&list[i], false));
            assert(ranks@ =~= before.push(v[i as int]).map_values(g));
        }
        i += 1;
    }
    proof {
        model::lemma_filter_empty(v, f);
    }
    order::sort_ranked(&ranks)
}

/// The tasks on a list that stand under no other one there, in order.
fn root_ids(list: &Vec<Task>) -> (out: Vec<TaskId>)
    requires
        distinct(types::task_views(list@)),
    ensures
        out@ == roots(types::task_views(list@)),
{
    let ghost v = types::task_views(list@);
    let ghost f = |t: TaskView| !under_another(v, t);
    let ghost g = |t: TaskView| root_rank(t);
    let mut ranks: Vec<Rank> = Vec::new();
    let mut i: usize = 0;
    proof {
        model::lemma_filter_empty(v, f);
        assert(ranks@ =~= v.take(0).filter(f).map_values(g));
    }
    while i < list.len()
        invariant
            i <= list.len(),
            v == types::task_views(list@),
            distinct(v),
            f == (|t: TaskView| !under_another(v, t)),
            g == (|t: TaskView| root_rank(t)),
            ranks@ == v.take(i as int).filter(f).map_values(g),
        decreases list.len() - i,
    {
        let ghost before = v.take(i as int).filter(f);
        proof {
            model::lemma_filter_take(v, f, i as int);
            assert(v[i as int] == list@[i as int]@);
        }
        let under: bool = match list[i].parent_id {
            Some(p) => find(list, p).is_some(),
            None => false,
        };
        if !under {
            ranks.push(rank_of(&list[i], true));
            assert(ranks@ =~= before.push(v[i as int]).map_values(g));
        }
        i += 1;
    }
    proof {
        model::lemma_filter_empty(v, f);
    }
    order::sort_ranked(&ranks)
}

/// Collects the states of the tasks on a list.
fn states(list: &Vec<Task>) -> (out: Vec<TaskStatus>)
    ensures
        out@ == status::states_of(types::task_views(list@)),
{
    let mut out: Vec<TaskStatus> = Vec::new();
    let mut i: usize = 0;
    while i < list.len()
        invariant
            i <= list.len(),
            out@ == status::states_of(types::task_views(list@.take(i as int))),
        decreases list.len() - i,
    {
        out.push(TaskStatus::of(&list[i]));
        assert(list@.take(i + 1) =~= list@.take(i as int).push(list@[i as int]));
        i += 1;
        assert(out@ =~= status::states_of(types::task_views(list@.take(i as int))));
    }
    assert(list@.take(list@.len() as int) =~= list@);
    out
}

impl Printer {
    /// Writes siblings and what is under them.
    fn push_kids(
        &self,
        list: &Vec<Task>,
        ids: &Vec<TaskId>,
        prefix: &str,
        levels: usize,
        out: &mut Vec<String>,
    )
        requires
            distinct(types::task_views(list@)),
            forall|i: int|
                0 <= i < ids.len() ==> on_list(types::task_views(list@), #[trigger] ids@[i]),
        ensures
            text::texts(final(out)@) == text::texts(old(out)@) + kids_lines(
                self.colors,
                types::task_views(list@),
                ids@,
                ids@.len(),
                prefix@,
                levels as nat,
            ),
        decreases levels, 1nat,
    {
        let ghost v = types::task_views(list@);
        let ghost start = text::texts(out@);
        let mut i: usize = 0;
        assert(text::texts(out@) =~= start + kids_lines(
            self.colors,
            v,
            ids@,
            0,
            prefix@,
            levels as nat,
        ));
        while i < ids.len()
            invariant
                i <= ids.len(),
                v == types::task_views(list@),
                distinct(v),
                forall|k: int| 0 <= k < ids.len() ==> on_list(v, #[trigger] ids@[k]),
                text::texts(out@) == start + kids_lines(
                    self.colors,
                    v,
                    ids@,
                    i as nat,
                    prefix@,
                    levels as nat,
                ),
            decreases ids.len() - i,
        {
            let last: bool = i + 1 == ids.len();
            let line_prefix: String = text::joined(
                prefix,
                if last {
                    "└─ "
                } else {
                    "├─ "
                },
            );
            let child_prefix: String = text::joined(
                prefix,
                if last {
                    "   "
                } else {
                    "│  "
                },
            );
            assert(on_list(v, ids@[i as int]));
            self.print_forest_child(
                list,
                ids[i],
                line_prefix.as_str(),
                child_prefix.as_str(),
                levels,
                out,
            );
            i += 1;
            assert(text::texts(out@) =~= start + kids_lines(
                self.colors,
                v,
                ids@,
                i as nat,
                prefix@,
                levels as nat,
            ));
        }
    }

    /// Writes a task under another one, and what is under it.
    fn print_forest_child(
        &self,
        list: &Vec<Task>,
        id: TaskId,
        line_prefix: &str,
        child_prefix: &str,
        levels: usize,
        out: &mut Vec<String>,
    )
        requires
            distinct(types::task_views(list@)),
            on_list(types::task_views(list@), id),
        ensures
            text::texts(final(out)@) == text::texts(old(out)@) + child_lines(
                self.colors,
                types::task_views(list@),
                id,
                line_prefix@,
                child_prefix@,
                levels as nat,
            ),
        decreases levels, 0nat,
    {
        let ghost v = types::task_views(list@);
        let ghost start = text::texts(out@);
        if let Some(k) = find(list, id) {
            let lead: String = paint::paint(line_prefix, self.colors.tree_line);
            let title: String = self.fmt_title(&list[k]);
            let line: String = self.fmt_task_line(lead.as_str(), &list[k], title.as_str());
            let ghost own = line@;
            out.push(line);
            assert(text::texts(out@) =~= start.push(own));
            if levels > 0 {
                let ids: Vec<TaskId> = kid_ids(list, id);
                proof {
                    lemma_kids(v, id);
                }
                self.push_kids(list, &ids, child_prefix, levels - 1, out);
            }
            assert(text::texts(out@) =~= start + child_lines(
                self.colors,
                v,
                id,
                line_prefix@,
                child_prefix@,
                levels as nat,
            ));
        }
    }

    /// Writes a root, and what is under it.
    fn print_forest_node(&self, list: &Vec<Task>, id: TaskId, out: &mut Vec<String>)
        requires
            distinct(types::task_views(list@)),
            on_list(types::task_views(list@), id),
        ensures
            text::texts(final(out)@) == text::texts(old(out)@) + root_lines(
                self.colors,
                types::task_views(list@),
                id,
            ),
    {
        let ghost v = types::task_views(list@);
        let ghost start = text::texts(out@);
        if let Some(k) = find(list, id) {
            let title: String = self.fmt_title(&list[k]);
            let line: String = self.fmt_task_line("", &list[k], title.as_str());
            proof {
                reveal_strlit("");
                assert(line@ =~= status::task_line(
                    self.colors,
                    list@[k as int]@,
                    title@,
                ));
            }
            let ghost own = line@;
            out.push(line);
            assert(text::texts(out@) =~= start.push(own));
            let ids: Vec<TaskId> = kid_ids(list, id);
            proof {
                lemma_kids(v, id);
                assert(""@ =~= Seq::<char>::empty());
                assert(v.len() == list@.len());
            }
            self.push_kids(list, &ids, "", list.len(), out);
            assert(text::texts(out@) =~= start + root_lines(self.colors, v, id));
        }
    }

    /// A list as a forest: tasks stand under their parents where those are on the list too.
    pub fn print_task_list_tree(&self, list: &Vec<Task>) -> (out: Vec<String>)
        requires
            distinct(types::task_views(list@)),
        ensures
            text::texts(out@) == forest_report(self.colors, types::task_views(list@)),
    {
        let ghost v = types::task_views(list@);
        assert(v.len() == list@.len());
        let mut out: Vec<String> = Vec::new();
        if list.len() == 0 {
            out.push(text::owned("No tasks found"));
            assert(text::texts(out@) =~= forest_report(self.colors, v));
            return out;
        }
        let ids: Vec<TaskId> = root_ids(list);
        let mut i: usize = 0;
        assert(text::texts(out@) =~= forest_lines(self.colors, v, ids@, 0));
        while i < ids.len()
            invariant
                i <= ids.len(),
                v == types::task_views(list@),
                distinct(v),
                ids@ == roots(v),
                text::texts(out@) == forest_lines(self.colors, v, ids@, i as nat),
            decreases ids.len() - i,
        {
            proof {
                lemma_kids(v, ids@[i as int]);
                assert(on_list(v, roots(v)[i as int]));
            }
            self.print_forest_node(list, ids[i], &mut out);
            i += 1;
        }
        tree::push_lines(&mut out, self.fmt_summary(&states(list)));
        out
    }

    /// A list line by line.
    pub fn print_task_list_flat(&self, list: &Vec<Task>) -> (out: Vec<String>)
        ensures
            text::texts(out@) == flat_report(self.colors, types::task_views(list@)),
    {
        let ghost v = types::task_views(list@);
        let ghost c = self.colors;
        let ghost g = |t: TaskView| status::task_line(c, t, t.row.description);
        assert(v.len() == list@.len());
        let mut out: Vec<String> = Vec::new();
        if list.len() == 0 {
            out.push(text::owned("No tasks found"));
            assert(text::texts(out@) =~= flat_report(self.colors, v));
            return out;
        }
        let mut i: usize = 0;
        assert(text::texts(out@) =~= v.take(0).map_values(g));
        while i < list.len()
            invariant
                i <= list.len(),
                c == self.colors,
                v == types::task_views(list@),
                g == (|t: TaskView| status::task_line(c, t, t.row.description)),
                text::texts(out@) == v.take(i as int).map_values(g),
            decreases list.len() - i,
        {
            let ghost before = out@;
            let t: &Task = &list[i];
            assert(v[i as int] == t@);
            let line: String = self.fmt_task_line("", t, t.description.as_str());
            let ghost own = line@;
            proof {
                reveal_strlit("");
                assert(own =~= g(t@));
            }
            out.push(line);
            i += 1;
            proof {
                assert(text::texts(out@) =~= text::texts(before).push(own));
                assert(v.take(i as int) =~= v.take(i - 1).push(v[i - 1]));
                assert(text::texts(out@) =~= v.take(i as int).map_values(g));
            }
        }
        assert(v.take(v.len() as int) =~= v);
        tree::push_lines(&mut out, self.fmt_summary(&states(list)));
        assert(text::texts(out@) =~= flat_report(self.colors, v));
        out
    }
}

} // verus!
