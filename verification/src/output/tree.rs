//! Trees of tasks, drawn with lines.
use vstd::prelude::*;

use crate::commands::task;
use crate::commands::task::{TaskTree, TreeView};
use crate::output::paint;
use crate::output::paint::{Colors, Printer};
use crate::output::status;
use crate::output::status::TaskStatus;
use crate::text;

verus! {

/// The line for a node of a tree: what leads to it, the connector, and the task.
pub open spec fn node_line(c: Colors, t: TreeView, prefix: Seq<char>, is_last: bool) -> Seq<char> {
    paint::painted(prefix, c.tree_line) + paint::painted(
        if is_last {
            "└─"@
        } else {
            "├─"@
        },
        c.tree_line,
    ) + " "@ + status::task_line(c, t.task, status::title(c, t.task))
}

/// What leads to the nodes below a node.
pub open spec fn below_prefix(prefix: Seq<char>, is_last: bool) -> Seq<char> {
    prefix + (if is_last {
        " "@
    } else {
        "│"@
    }) + "  "@
}

/// The lines for a tree: the node, then its children in order.
pub open spec fn tree_lines(c: Colors, t: TreeView, prefix: Seq<char>, is_last: bool) -> Seq<Seq<char>>
    decreases t, t.children.len() + 1,
{
    seq![node_line(c, t, prefix, is_last)] + children_lines(
        c,
        t,
        t.children.len(),
        below_prefix(prefix, is_last),
    )
}

/// The lines for the first `n` children of a node.
pub open spec fn children_lines(c: Colors, t: TreeView, n: nat, prefix: Seq<char>) -> Seq<Seq<char>>
    decreases t, n,
{
    if n == 0 || n > t.children.len() {
        Seq::empty()
    } else {
        children_lines(c, t, (n - 1) as nat, prefix) + tree_lines(
            c,
            t.children[n - 1],
            prefix,
            n == t.children.len(),
        )
    }
}

/// The states of the tasks of a tree: the node's, then those of its children in order.
pub open spec fn tree_states(t: TreeView) -> Seq<TaskStatus>
    decreases t, t.children.len() + 1,
{
    seq![status::status_of(t.task)] + children_states(t, t.children.len())
}

/// The states of the tasks of the first `n` children of a node.
pub open spec fn children_states(t: TreeView, n: nat) -> Seq<TaskStatus>
    decreases t, n,
{
    if n == 0 || n > t.children.len() {
        Seq::empty()
    } else {
        children_states(t, (n - 1) as nat) + tree_states(t.children[n - 1])
    }
}

/// The lines for these trees, with empty lines between them.
pub open spec fn all_lines(c: Colors, trees: Seq<TreeView>, n: nat) -> Seq<Seq<char>>
    decreases n,
{
    if n == 0 {
        Seq::empty()
    } else {
        all_lines(c, trees, (n - 1) as nat) + tree_lines(c, trees[n - 1], ""@, true) + (if n
            < trees.len() {
            seq![""@]
        } else {
            Seq::empty()
        })
    }
}

/// The states of the tasks of these trees.
pub open spec fn all_states(trees: Seq<TreeView>, n: nat) -> Seq<TaskStatus>
    decreases n,
{
    if n == 0 {
        Seq::empty()
    } else {
        all_states(trees, (n - 1) as nat) + tree_states(trees[n - 1])
    }
}

/// The report on one tree.
pub open spec fn tree_report(c: Colors, t: TreeView) -> Seq<Seq<char>> {
    tree_lines(c, t, ""@, true) + status::summary(c, tree_states(t))
}

/// The report on several trees.
pub open spec fn trees_report(c: Colors, trees: Seq<TreeView>) -> Seq<Seq<char>> {
    if trees.len() == 0 {
        seq!["No tasks found"@]
    } else {
        all_lines(c, trees, trees.len()) + status::summary(c, all_states(trees, trees.len()))
    }
}

/// Adds lines to a report.
pub fn push_lines(out: &mut Vec<String>, more: Vec<String>)
    ensures
        text::texts(final(out)@) == text::texts(old(out)@) + text::texts(more@),
{
    let ghost a = out@;
    let ghost b = more@;
    let mut rest: Vec<String> = more;
    out.append(&mut rest);
    assert(text::texts(out@) =~= text::texts(a) + text::texts(b));
}

/// Collects the states of the tasks of a tree.
fn push_states(t: &TaskTree, out: &mut Vec<TaskStatus>)
    ensures
        final(out)@ == old(out)@ + tree_states(task::tree_view(*t)),
    decreases *t,
{
    let ghost v = task::tree_view(*t);
    let ghost start = out@;
    out.push(TaskStatus::of(&t.task));
    let ghost head = out@;
    let mut i: usize = 0;
    assert(children_states(v, 0) =~= Seq::<TaskStatus>::empty());
    assert(out@ =~= head + children_states(v, 0));
    while i < t.children.len()
        invariant
            i <= t.children.len(),
            v == task::tree_view(*t),
            out@ == head + children_states(v, i as nat),
        decreases t.children.len() - i,
    {
        proof {
            assert(v.children.len() == t.children@.len());
            assert(v.children[i as int] == task::tree_view(t.children@[i as int]));
        }
        push_states(&t.children[i], out);
        i += 1;
        assert(out@ =~= head + children_states(v, i as nat));
    }
    proof {
        assert(v.children.len() == t.children@.len());
        assert(out@ =~= start + tree_states(v));
    }
}

impl Printer {
    /// Writes a tree, below what leads to it.
    fn push_tree_node(&self, t: &TaskTree, prefix: &str, is_last: bool, out: &mut Vec<String>)
        ensures
            text::texts(final(out)@) == text::texts(old(out)@) + tree_lines(
                self.colors,
                task::tree_view(*t),
                prefix@,
                is_last,
            ),
        decreases *t,
    {
        let ghost v = task::tree_view(*t);
        let ghost start = text::texts(out@);
        let connector: &str = if is_last {
            "└─"
        } else {
            "├─"
        };
        let mut lead: String = paint::paint(prefix, self.colors.tree_line);
        lead.append(paint::paint(connector, self.colors.tree_line).as_str());
        lead.append(" ");
        let title: String = self.fmt_title(&t.task);
        let line: String = self.fmt_task_line(lead.as_str(), &t.task, title.as_str());
        assert(line@ =~= node_line(self.colors, v, prefix@, is_last));
        let ghost first = line@;
        let ghost before = out@;
        out.push(line);
        assert(text::texts(out@) =~= start.push(first));
        let mut below: String = text::owned(prefix);
        below.append(
            if is_last {
                " "
            } else {
                "│"
            },
        );
        below.append("  ");
        assert(below@ == below_prefix(prefix@, is_last));
        let ghost head = text::texts(out@);
        let mut i: usize = 0;
        assert(text::texts(out@) =~= head + children_lines(self.colors, v, 0, below@));
        while i < t.children.len()
            invariant
                i <= t.children.len(),
                v == task::tree_view(*t),
                text::texts(out@) == head + children_lines(self.colors, v, i as nat, below@),
            decreases t.children.len() - i,
        {
            proof {
                assert(v.children.len() == t.children@.len());
                assert(v.children[i as int] == task::tree_view(t.children@[i as int]));
            }
            let last: bool = i + 1 == t.children.len();
            self.push_tree_node(&t.children[i], below.as_str(), last, out);
            i += 1;
            assert(text::texts(out@) =~= head + children_lines(self.colors, v, i as nat, below@));
        }
        proof {
            assert(v.children.len() == t.children@.len());
            assert(text::texts(out@) =~= start + tree_lines(self.colors, v, prefix@, is_last));
        }
    }

    /// The report on one tree.
    pub fn print_task_tree(&self, t: &TaskTree) -> (out: Vec<String>)
        ensures
            text::texts(out@) == tree_report(self.colors, task::tree_view(*t)),
    {
        let mut out: Vec<String> = Vec::new();
        self.push_tree_node(t, "", true, &mut out);
        let mut states: Vec<TaskStatus> = Vec::new();
        push_states(t, &mut states);
        assert(states@ =~= tree_states(task::tree_view(*t)));
        push_lines(&mut out, self.fmt_summary(&states));
        assert(text::texts(out@) =~= tree_report(self.colors, task::tree_view(*t)));
        out
    }

    /// The report on several trees.
    pub fn print_task_trees(&self, trees: &Vec<TaskTree>) -> (out: Vec<String>)
        ensures
            text::texts(out@) == trees_report(self.colors, task::tree_views(trees@)),
    {
        let ghost v = task::tree_views(trees@);
        assert(v.len() == trees@.len());
        let mut out: Vec<String> = Vec::new();
        if trees.len() == 0 {
            out.push(text::owned("No tasks found"));
            assert(text::texts(out@) =~= trees_report(self.colors, v));
            return out;
        }
        let mut states: Vec<TaskStatus> = Vec::new();
        let mut i: usize = 0;
        assert(text::texts(out@) =~= all_lines(self.colors, v, 0));
        assert(states@ =~= all_states(v, 0));
        while i < trees.len()
            invariant
                i <= trees.len(),
                v == task::tree_views(trees@),
                v.len() == trees@.len(),
                text::texts(out@) == all_lines(self.colors, v, i as nat),
                states@ == all_states(v, i as nat),
            decreases trees.len() - i,
        {
            assert(v[i as int] == task::tree_view(trees@[i as int]));
            push_states(&trees[i], &mut states);
            self.push_tree_node(&trees[i], "", true, &mut out);
            let ghost mid = out@;
            if i + 1 < trees.len() {
                out.push(text::owned(""));
                assert(text::texts(out@) =~= text::texts(mid) + seq![""@]);
            }
            i += 1;
            assert(text::texts(out@) =~= all_lines(self.colors, v, i as nat));
        }
        push_lines(&mut out, self.fmt_summary(&states));
        out
    }
}

} // verus!
