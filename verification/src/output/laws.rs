//! What the human-readable output shows.
use vstd::prelude::*;

use crate::commands::args::TaskCommand;
use crate::commands::data::DataResult;
use crate::commands::task::TreeView;
use crate::commands::vcs::OrphanReason;
use crate::error::Fault;
use crate::id::TaskId;
use crate::output::forest;
use crate::output::paint;
use crate::output::paint::{Colors, Ink};
use crate::output::report;
use crate::output::status;
use crate::output::status::TaskStatus;
use crate::output::tree;
use crate::service::context::WithContextView;
use crate::text;
use crate::text_laws;
use crate::types::{LearningView, RowView, TaskView};
use crate::vcs::backend::{
    ChangeType, DiffView, FileStatusKind, LogView, StatusView, VcsFault, VcsInfo,
    VcsType,
};

verus! {

// ---- colours ----

/// Colours are used on a terminal that is not a dumb one, unless the command line or the environment
/// forbids them.
pub proof fn law_when_colours_are_used(flag: bool, env: bool, term: Option<Seq<char>>, tty: bool)
    ensures
        paint::color_allowed(flag, env, term, tty) ==> tty && !flag && !env && !(term is Some
            && term->0 == "dumb"@),
        tty && !flag && !env && (term is None || term->0 != "dumb"@) ==> paint::color_allowed(
            flag,
            env,
            term,
            tty,
        ),
{
}

/// Without colours a text is written as it is. With an ink it stands between the escape sequence
/// that switches the ink on and the one that switches it off, and two inks differ in the first.
pub proof fn law_paint(s: Seq<char>, a: Ink, b: Ink)
    ensures
        paint::painted(s, Ink::Plain) == s,
        a != Ink::Plain ==> paint::painted(s, a) == seq!['\u{1b}', '['] + paint::ink_codes(a) + seq![
            'm',
        ] + s + seq!['\u{1b}', '[', '0', 'm'],
        paint::ink_codes(a) == paint::ink_codes(b) ==> a == b,
{
    reveal_strlit("\u{1b}[");
    reveal_strlit("m");
    reveal_strlit("\u{1b}[0m");
    assert("\u{1b}["@ =~= seq!['\u{1b}', '[']);
    assert("m"@ =~= seq!['m']);
    assert("\u{1b}[0m"@ =~= seq!['\u{1b}', '[', '0', 'm']);
    reveal_strlit("36;2");
    reveal_strlit("32");
    reveal_strlit("33");
    reveal_strlit("31");
    reveal_strlit("35");
    reveal_strlit("2");
    reveal_strlit("1");
    reveal_strlit("31;1");
    let x = paint::ink_codes(a);
    let y = paint::ink_codes(b);
    if x == y {
        assert(x.len() == y.len());
        assert(x.len() > 0 ==> x[0] == y[0]);
        assert(x.len() > 1 ==> x[1] == y[1]);
    }
}

/// Done tasks are green, open ones yellow, blocked ones red, cancelled ones magenta and archived ones
/// dim; the two most urgent priorities stand out. Without colours nothing does.
pub proof fn law_which_colours(s: TaskStatus, priority: i32)
    ensures
        ({
            let on = paint::scheme(true);
            let off = paint::scheme(false);
            &&& status::status_ink(on, TaskStatus::Completed) == Ink::Green
            &&& status::status_ink(on, TaskStatus::Ready) == Ink::Yellow
            &&& status::status_ink(on, TaskStatus::Blocked) == Ink::Red
            &&& status::status_ink(on, TaskStatus::Cancelled) == Ink::Magenta
            &&& status::status_ink(on, TaskStatus::Archived) == Ink::Dimmed
            &&& status::status_ink(off, s) == Ink::Plain
            &&& priority == 0 ==> status::priority_ink(on, priority) == Ink::Red
            &&& priority == 1 ==> status::priority_ink(on, priority) == Ink::Yellow
            &&& priority < 0 || priority > 1 ==> status::priority_ink(on, priority) == Ink::Plain
            &&& status::priority_ink(off, priority) == Ink::Plain
            &&& on.milestone == Ink::Bold && off.milestone == Ink::Plain
            &&& on.task_id == Ink::CyanDimmed && off.task_id == Ink::Plain
            &&& on.tree_line == Ink::Dimmed && off.tree_line == Ink::Plain
            &&& on.error == Ink::RedBold && off.error == Ink::Plain
        }),
{
}

// ---- states ----

/// Whether a row counts as done.
pub open spec fn finished(r: RowView) -> bool {
    r.archived || r.cancelled || r.completed
}

/// The mark and the word that a task is shown with.
pub open spec fn marked(t: TaskView, mark: Seq<char>, word: Seq<char>) -> bool {
    let r = t.row;
    &&& r.archived ==> mark == "▪"@ && word == "archived"@
    &&& !r.archived && r.cancelled ==> mark == "✗"@ && word == "cancelled"@
    &&& !r.archived && !r.cancelled && r.completed ==> mark == "✓"@ && word == "completed"@
    &&& !finished(r) && t.effectively_blocked ==> mark == "⊘"@ && word == "blocked"@
    &&& !finished(r) && !t.effectively_blocked ==> mark == "○"@ && word == "open"@
}

/// A task is shown as archived, else as cancelled, else as completed, else as blocked, else as open;
/// its line holds the mark of that, its identifier and its description.
pub proof fn law_line_of_a_task(t: TaskView, title: Seq<char>)
    ensures
        ({
            let s = status::status_of(t);
            let c = paint::scheme(false);
            &&& marked(t, status::symbol(s), status::label(s))
            &&& status::task_line(c, t, title) == seq!['['] + status::symbol(s) + seq![']', ' ']
                + t.row.id.text() + seq![' ', '-', ' '] + title
            &&& status::title(c, t) == t.row.description
            &&& s.done() <==> finished(t.row)
        }),
{
    reveal_strlit("[");
    reveal_strlit("] ");
    reveal_strlit(" - ");
    assert("["@ =~= seq!['[']);
    assert("] "@ =~= seq![']', ' ']);
    assert(" - "@ =~= seq![' ', '-', ' ']);
}

/// How many of these tasks have some property.
pub open spec fn count(list: Seq<TaskView>, f: spec_fn(TaskView) -> bool) -> nat
    decreases list.len(),
{
    if list.len() == 0 {
        0
    } else {
        count(list.drop_last(), f) + (if f(list.last()) {
            1nat
        } else {
            0nat
        })
    }
}

/// The counts below a list are those of its rows: the finished ones, the blocked ones among the
/// others, and the rest.
pub proof fn law_counts(list: Seq<TaskView>)
    ensures
        ({
            let s = status::states_of(list);
            &&& s.len() == list.len()
            &&& status::done_count(s) == count(list, |t: TaskView| finished(t.row))
            &&& status::blocked_count(s) == count(
                list,
                |t: TaskView| !finished(t.row) && t.effectively_blocked,
            )
            &&& status::ready_count(s) == count(
                list,
                |t: TaskView| !finished(t.row) && !t.effectively_blocked,
            )
        }),
    decreases list.len(),
{
    reveal(Seq::filter);
    if list.len() > 0 {
        law_counts(list.drop_last());
        assert(status::states_of(list).drop_last() =~= status::states_of(list.drop_last()));
    }
}

/// The last line below a list says how many tasks of how many are done, how many are blocked and how
/// many are ready.
pub proof fn law_summary(list: Seq<TaskView>, total: nat, done: nat, blocked: nat, ready: nat)
    ensures
        ({
            let c = paint::scheme(false);
            let s = status::states_of(list);
            let lines = status::summary(c, s);
            &&& status::progress_line(c, total, done, blocked, ready) == text::nat_text(done) + "/"@
                + text::nat_text(total) + " complete | "@ + text::nat_text(blocked)
                + " blocked | "@ + text::nat_text(ready) + " ready"@
            &&& lines.len() == 2 && lines[0].len() == 0
            &&& lines[1] == status::progress_line(
                c,
                list.len(),
                count(list, |t: TaskView| finished(t.row)),
                count(list, |t: TaskView| !finished(t.row) && t.effectively_blocked),
                count(list, |t: TaskView| !finished(t.row) && !t.effectively_blocked),
            )
        }),
{
    law_counts(list);
    reveal_strlit("");
}

// ---- tasks ----

/// A flat list has a line for each task, in order, with its description; then the summary. An empty
/// one says that there are none.
pub proof fn law_flat_lists(c: Colors, list: Seq<TaskView>, i: int)
    ensures
        list.len() == 0 ==> forest::flat_report(c, list) == seq!["No tasks found"@],
        0 <= i < list.len() ==> {
            &&& forest::flat_report(c, list).len() == list.len() + 2
            &&& forest::flat_report(c, list)[i] == status::task_line(
                c,
                list[i],
                list[i].row.description,
            )
            &&& forest::flat_report(c, list).skip(list.len() as int) == status::summary(
                c,
                status::states_of(list),
            )
        },
{
    if list.len() > 0 {
        assert(forest::flat_report(c, list).skip(list.len() as int) =~= status::summary(
            c,
            status::states_of(list),
        ));
    }
}

/// A listing is drawn as a forest unless a flat one is asked for; what other commands give is not.
pub proof fn law_when_forests_are_drawn(cmd: TaskCommand)
    ensures
        cmd matches TaskCommand::List(args) ==> (report::as_forest(cmd) <==> !args.flat),
        !(cmd is List) ==> !report::as_forest(cmd),
{
}

/// How many of these are there.
pub open spec fn present(a: bool) -> nat {
    if a {
        1
    } else {
        0
    }
}

/// Identifiers in a row, separated by commas.
pub open spec fn in_a_row(ids: Seq<TaskId>) -> Seq<char>
    decreases ids.len(),
{
    if ids.len() == 0 {
        Seq::empty()
    } else if ids.len() == 1 {
        ids[0].text()
    } else {
        ids[0].text() + seq![',', ' '] + in_a_row(ids.skip(1))
    }
}

/// The report on a task shows its identifier with its state, its description and its priority, and,
/// each where there is one, its context, its result, its path, its depth, its blockers and what it
/// blocks; and nothing else.
pub proof fn law_report_on_a_task(t: TaskView)
    ensures
        ({
            let r = t.row;
            let lines = report::task_report(paint::scheme(false), t);
            let word = status::label(status::status_of(t));
            &&& lines[0] == "Task: "@ + r.id.text() + " ("@ + word + ")"@
            &&& lines[1] == "  Description: "@ + r.description
            &&& lines.contains("  Priority: "@ + ("p"@ + text::int_text(r.priority as int)))
            &&& r.context.len() > 0 ==> lines.contains("  Context: "@ + r.context)
            &&& r.result is Some ==> lines.contains("  Result: "@ + r.result->0)
            &&& r.repo_path is Some ==> lines.contains("  Repo: "@ + r.repo_path->0)
            &&& t.depth is Some ==> lines.contains("  Depth: "@ + text::int_text(t.depth->0 as int))
            &&& t.blocked_by.len() > 0 ==> lines.contains("  Blocked by: "@ + in_a_row(t.blocked_by))
            &&& t.blocks.len() > 0 ==> lines.contains("  Blocks: "@ + in_a_row(t.blocks))
            &&& lines.len() == 3 + present(r.context.len() > 0) + present(r.result is Some)
                + present(r.repo_path is Some) + present(t.depth is Some) + present(
                t.blocked_by.len() > 0,
            ) + present(t.blocks.len() > 0)
        }),
{
    let r = t.row;
    let c = paint::scheme(false);
    let s = status::status_of(t);
    lemma_ids_text(t.blocked_by);
    lemma_ids_text(t.blocks);
    let head = seq![
        "Task: "@ + status::id_text(c, r.id) + " ("@ + paint::painted(
            status::label(s),
            status::status_ink(c, s),
        ) + ")"@,
    ] + seq!["  Description: "@ + r.description];
    let a = head + report::opt_line("  Context: "@, report::nonempty(r.context));
    let b = a + report::opt_line("  Result: "@, r.result);
    let d = b + seq!["  Priority: "@ + report::priority_text(c, r.priority)];
    let e = d + report::opt_line("  Repo: "@, r.repo_path);
    let f = e + report::opt_line("  Depth: "@, report::depth_text(t.depth));
    let g = f + report::opt_line(
        "  Blocked by: "@,
        if t.blocked_by.len() == 0 {
            None
        } else {
            Some(report::ids_text(c, t.blocked_by))
        },
    );
    let lines = report::task_report(c, t);
    assert(lines == g + report::opt_line(
        "  Blocks: "@,
        if t.blocks.len() == 0 {
            None
        } else {
            Some(report::ids_text(c, t.blocks))
        },
    ));
    if r.context.len() > 0 {
        assert(lines[head.len() as int] == "  Context: "@ + r.context);
    }
    if r.result is Some {
        assert(lines[a.len() as int] == "  Result: "@ + r.result->0);
    }
    assert(lines[b.len() as int] == "  Priority: "@ + ("p"@ + text::int_text(r.priority as int)));
    if r.repo_path is Some {
        assert(lines[d.len() as int] == "  Repo: "@ + r.repo_path->0);
    }
    if t.depth is Some {
        assert(lines[e.len() as int] == "  Depth: "@ + text::int_text(t.depth->0 as int));
    }
    if t.blocked_by.len() > 0 {
        assert(lines[f.len() as int] == "  Blocked by: "@ + in_a_row(t.blocked_by));
    }
    if t.blocks.len() > 0 {
        assert(lines[g.len() as int] == "  Blocks: "@ + in_a_row(t.blocks));
    }
}

proof fn lemma_ids_text(ids: Seq<TaskId>)
    ensures
        report::ids_text(paint::scheme(false), ids) == in_a_row(ids),
    decreases ids.len(),
{
    reveal_strlit(", ");
    assert(", "@ =~= seq![',', ' ']);
    if ids.len() > 1 {
        let a = ids.drop_last();
        let b = ids.skip(1);
        lemma_ids_text(a);
        lemma_ids_text(b);
        if ids.len() == 2 {
            assert(a =~= seq![ids[0]]);
            assert(b =~= seq![ids[1]]);
            assert(report::ids_text(paint::scheme(false), ids) =~= in_a_row(ids));
        } else {
            let m = a.skip(1);
            assert(b.drop_last() =~= m);
            lemma_ids_text(m);
            assert(in_a_row(a) == ids[0].text() + seq![',', ' '] + in_a_row(m));
            assert(report::ids_text(paint::scheme(false), b) == report::ids_text(
                paint::scheme(false),
                m,
            ) + ", "@ + ids.last().text());
            assert(report::ids_text(paint::scheme(false), ids) =~= in_a_row(ids));
        }
    }
}

/// The report on the next ready task shows its identifier, its description and its priority, and says
/// so where there is none.
pub proof fn law_report_on_the_next_task(c: Colors, w: WithContextView)
    ensures
        report::next_ready_report(c, None) == seq!["No ready tasks found"@],
        report::next_ready_report(c, Some(w))[0] == "Next ready task: "@ + status::id_text(
            c,
            w.task.row.id,
        ),
        report::next_ready_report(c, Some(w))[1] == "  Description: "@ + w.task.row.description,
        report::next_ready_report(c, Some(w))[2] == "  Priority: "@ + report::priority_text(
            c,
            w.task.row.priority,
        ),
        report::next_ready_report(c, Some(w)).len() == 3 + present(w.task.depth is Some),
{
}

/// How many tasks a tree holds.
pub open spec fn size(t: TreeView) -> nat
    decreases t, t.children.len() + 1,
{
    1 + sizes(t, t.children.len())
}

/// How many tasks the first children of a tree hold.
pub open spec fn sizes(t: TreeView, n: nat) -> nat
    decreases t, n,
{
    if n == 0 || n > t.children.len() {
        0
    } else {
        sizes(t, (n - 1) as nat) + size(t.children[n - 1])
    }
}

/// A tree has a line for each task in it, the first for its root, and counts each once; a child comes
/// where those of the children before it end.
pub proof fn law_trees(c: Colors, t: TreeView, prefix: Seq<char>, is_last: bool, k: nat)
    ensures
        tree::tree_lines(c, t, prefix, is_last).len() == size(t),
        tree::tree_states(t).len() == size(t),
        tree::tree_states(t)[0] == status::status_of(t.task),
        line_for(c, tree::tree_lines(c, t, prefix, is_last)[0], t.task),
        k < t.children.len() ==> {
            &&& 1 + sizes(t, k) < size(t)
            &&& tree::tree_states(t)[1 + sizes(t, k) as int] == status::status_of(t.children[k as int].task)
            &&& line_for(
                c,
                tree::tree_lines(c, t, prefix, is_last)[1 + sizes(t, k) as int],
                t.children[k as int].task,
            )
        },
    decreases t, t.children.len() + 1,
{
    let below = tree::below_prefix(prefix, is_last);
    lemma_trees(c, t, t.children.len(), below);
    let lines = tree::tree_lines(c, t, prefix, is_last);
    let lead = paint::painted(prefix, c.tree_line) + paint::painted(
        if is_last {
            "└─"@
        } else {
            "├─"@
        },
        c.tree_line,
    ) + " "@;
    assert(lines[0] == lead + status::task_line(c, t.task, status::title(c, t.task)));
    if k < t.children.len() {
        let at = sizes(t, k) as int;
        assert(tree::tree_states(t)[1 + at] == tree::children_states(t, t.children.len())[at]);
        assert(lines[1 + at] == tree::children_lines(c, t, t.children.len(), below)[at]);
    }
}

/// Whether a line shows a task, behind what connects it to the lines above.
pub open spec fn line_for(c: Colors, line: Seq<char>, t: TaskView) -> bool {
    exists|lead: Seq<char>| line == #[trigger] (lead + status::task_line(c, t, status::title(c, t)))
}

proof fn lemma_trees(c: Colors, t: TreeView, n: nat, prefix: Seq<char>)
    requires
        n <= t.children.len(),
    ensures
        tree::children_lines(c, t, n, prefix).len() == sizes(t, n),
        tree::children_states(t, n).len() == sizes(t, n),
        forall|k: nat| k < n ==> #[trigger] sizes(t, k) < sizes(t, n),
        forall|k: nat|
            k < n ==> tree::children_states(t, n)[#[trigger] sizes(t, k) as int]
                == status::status_of(t.children[k as int].task),
        forall|k: nat|
            k < n ==> line_for(
                c,
                tree::children_lines(c, t, n, prefix)[#[trigger] sizes(t, k) as int],
                t.children[k as int].task,
            ),
    decreases t, n,
{
    if n > 0 {
        let m = (n - 1) as nat;
        lemma_trees(c, t, m, prefix);
        law_trees(c, t.children[n - 1], prefix, n == t.children.len(), 0);
        let all = tree::children_states(t, n);
        let lines = tree::children_lines(c, t, n, prefix);
        let rest = tree::children_states(t, m);
        assert forall|k: nat| k < n implies #[trigger] sizes(t, k) < sizes(t, n)
            && all[sizes(t, k) as int] == status::status_of(t.children[k as int].task) && line_for(
            c,
            lines[sizes(t, k) as int],
            t.children[k as int].task,
        ) by {
            let at = sizes(t, k) as int;
            if k < m {
                assert(all[at] == rest[at]);
                assert(lines[at] == tree::children_lines(c, t, m, prefix)[at]);
            } else {
                let last = t.children[n - 1];
                assert(all[at] == tree::tree_states(last)[0]);
                assert(lines[at] == tree::tree_lines(c, last, prefix, n == t.children.len())[0]);
            }
        }
    }
}

// ---- the rest ----

/// The report on learnings has a line for each, in order, with its identifier and its content, and
/// says so where there are none; that on one learning shows where it was learned and from which task.
pub proof fn law_reports_on_learnings(ls: Seq<LearningView>, l: LearningView, i: int)
    ensures
        ({
            let c = paint::scheme(false);
            let one = report::learning_report(c, l);
            &&& ls.len() == 0 ==> report::learnings_report(c, ls) == seq!["No learnings found"@]
            &&& ls.len() > 0 ==> report::learnings_report(c, ls).len() == ls.len()
            &&& 0 <= i < ls.len() ==> report::learnings_report(c, ls)[i] == "• "@ + ls[i].id.text()
                + " - "@ + ls[i].content
            &&& one[0] == "Learning: "@ + l.id.text()
            &&& one[1] == "  Content: "@ + l.content
            &&& one[2] == "  Task: "@ + l.task_id.text()
            &&& one.len() == 3 + present(l.source_task_id is Some)
            &&& l.source_task_id matches Some(s) ==> one[3] == "  Source: "@ + s.text()
        }),
{
}

/// The letter of a file's state.
pub open spec fn letter(k: FileStatusKind) -> char {
    match k {
        FileStatusKind::Modified => 'M',
        FileStatusKind::Added => 'A',
        FileStatusKind::Deleted => 'D',
        FileStatusKind::Renamed => 'R',
        FileStatusKind::Untracked => '?',
        FileStatusKind::Conflict => 'C',
    }
}

/// The sign of a change.
pub open spec fn sign(k: ChangeType) -> char {
    match k {
        ChangeType::Added => '+',
        ChangeType::Deleted => '-',
        ChangeType::Modified => '~',
        ChangeType::Renamed => '→',
    }
}

/// The report on the working copy names its commit, where that is known, and has a line for each file
/// with the letter of its state and its path; the diff has one with the sign of the change. Where no
/// file differs they say so.
pub proof fn law_reports_on_files(s: StatusView, es: Seq<DiffView>, i: int)
    ensures
        ({
            let c = paint::scheme(false);
            let lines = report::status_report(c, s);
            let n = present(s.working_copy_id is Some) as int;
            &&& s.working_copy_id matches Some(id) ==> lines[0] == "Working copy: "@ + id
            &&& s.files.len() == 0 ==> lines.len() == n + 1 && lines[n] == "No changes"@
            &&& s.files.len() > 0 ==> lines.len() == n + s.files.len()
            &&& 0 <= i < s.files.len() ==> lines[n + i] == seq![
                ' ',
                ' ',
                letter(s.files[i].status),
                ' ',
            ] + s.files[i].path
            &&& es.len() == 0 ==> report::diff_report(c, es) == seq!["No changes"@]
            &&& es.len() > 0 ==> report::diff_report(c, es).len() == es.len()
            &&& 0 <= i < es.len() ==> report::diff_report(c, es)[i] == seq![
                sign(es[i].change_type),
                ' ',
            ] + es[i].path
        }),
{
    let c = paint::scheme(false);
    reveal_strlit("  ");
    reveal_strlit(" ");
    reveal_strlit("M");
    reveal_strlit("A");
    reveal_strlit("D");
    reveal_strlit("R");
    reveal_strlit("?");
    reveal_strlit("C");
    reveal_strlit("+");
    reveal_strlit("-");
    reveal_strlit("~");
    reveal_strlit("→");
    if 0 <= i < s.files.len() {
        let f = s.files[i];
        assert(report::file_line(c, f) =~= seq![' ', ' ', letter(f.status), ' '] + f.path);
    }
    if 0 <= i < es.len() {
        assert(report::diff_line(c, es[i]) =~= seq![sign(es[i].change_type), ' '] + es[i].path);
    }
}

/// A commit in the history is a line with its identifier, its author and its description.
pub proof fn law_line_of_a_commit(e: LogView)
    ensures
        report::log_line(e) == e.id + seq![' '] + e.author + seq![' ', '-', ' '] + e.description,
{
    reveal_strlit(" ");
    reveal_strlit(" - ");
    assert(" "@ =~= seq![' ']);
    assert(" - "@ =~= seq![' ', '-', ' ']);
}

/// The report on a cleanup has a line for each orphaned branch, with why it is one; it says how many
/// were deleted or, where none was, how to delete them, and how many could not be.
pub proof fn law_report_on_a_cleanup(
    orphaned: Seq<(Seq<char>, OrphanReason)>,
    deleted: nat,
    failed: nat,
    i: int,
)
    ensures
        ({
            let c = paint::scheme(false);
            let lines = report::cleanup_report(c, orphaned, deleted, failed);
            let n = orphaned.len() as int;
            &&& n == 0 ==> lines == seq!["No orphaned branches found"@]
            &&& n > 0 ==> {
                &&& lines.len() == n + 3 + 2 * present(failed > 0)
                &&& lines[0] == "Orphaned branches:"@
                &&& deleted > 0 ==> lines[n + 2] == text::nat_text(deleted) + " branches deleted"@
                &&& deleted == 0 ==> text_laws::mentions(lines[n + 2], "--delete"@)
                &&& failed > 0 ==> lines[n + 4] == text::nat_text(failed)
                    + " branches failed to delete"@
            }
            &&& 0 <= i < n ==> lines[i + 1] == "  "@ + orphaned[i].0 + " ("@ + (
            match orphaned[i].1 {
                OrphanReason::TaskNotFound => "task deleted"@,
                OrphanReason::TaskCompleted => "task completed"@,
            }) + ")"@
        }),
{
    let c = paint::scheme(false);
    let a = "Run with "@;
    let b = " to delete orphaned branches"@;
    assert(text_laws::mentions(a + "--delete"@ + b, "--delete"@));
}

/// The report on the kind of repository names it and where it is; that on an export says how much was
/// written and where.
pub proof fn law_other_reports(info: VcsInfo, r: DataResult)
    ensures
        info.vcs_type == VcsType::Jj ==> report::detect_report(info) == seq![
            "JJ repository at "@ + info.root@,
        ],
        info.vcs_type == VcsType::Git ==> report::detect_report(info) == seq![
            "Git repository at "@ + info.root@,
        ],
        info.vcs_type == VcsType::Absent ==> report::detect_report(info) == seq![
            "Not a repository"@,
        ],
        r matches DataResult::Exported { path, tasks, learnings } ==> report::export_report(r)
            == seq![
            "Exported "@ + text::nat_text(tasks as nat) + " tasks and "@ + text::nat_text(
                learnings as nat,
            ) + " learnings to "@ + path@,
        ],
{
}

/// An error on a task names it; one on a path, a branch or a state names that too.
pub proof fn law_errors_name_what_they_are_about(
    id: TaskId,
    a: Seq<char>,
    b: Seq<char>,
    p: i32,
    e: VcsFault,
)
    ensures
        text_laws::mentions(Fault::TaskNotFound(id).text(), id.text()),
        text_laws::mentions(Fault::ParentNotFound(id).text(), id.text()),
        text_laws::mentions(Fault::BlockerNotFound(id).text(), id.text()),
        text_laws::mentions((Fault::MissingBaseRef { task_id: id }).text(), id.text()),
        text_laws::mentions((Fault::CannotReopenActive { state: a }).text(), a),
        text_laws::mentions(
            (Fault::CannotAttachChildToInactiveParent { parent_id: id, state: a }).text(),
            id.text(),
        ),
        text_laws::mentions(
            (Fault::CannotAttachChildToInactiveParent { parent_id: id, state: a }).text(),
            a,
        ),
        text_laws::mentions((Fault::InvalidRepoPath { path: a, why: b }).text(), a),
        text_laws::mentions((Fault::InvalidRepoPath { path: a, why: b }).text(), b),
        text_laws::mentions(
            (Fault::TaskIntegrationRequired { task_id: id, source_ref: a, base_ref: b }).text(),
            "merge "@ + a + " into "@ + b + " for task "@ + id.text(),
        ),
        text_laws::mentions(Fault::InvalidPriority(p).text(), text::int_text(p as int)),
        text_laws::mentions(Fault::Vcs(e).text(), e.message()),
        text_laws::mentions(Fault::Io(a).text(), a),
        text_laws::mentions(Fault::Json(a).text(), a),
{
    let t = id.text();
    let none = Seq::<char>::empty();
    assert(Fault::TaskNotFound(id).text() =~= "Task "@ + t + " not found"@);
    lemma_last("Parent task not found: "@, t);
    lemma_last("Blocker task not found: "@, t);
    let m = "Missing baseRef for started task: "@;
    let n =
        " (checkout intended base branch, run tasks.start(task_id), then retry complete)"@;
    assert((Fault::MissingBaseRef { task_id: id }).text() =~= m + t + n);
    assert((Fault::CannotReopenActive { state: a }).text() =~= "Cannot reopen active task (task is "@
        + a + ", must be completed)"@);
    let f = Fault::CannotAttachChildToInactiveParent { parent_id: id, state: a };
    let g = "Cannot attach child to inactive parent (parent "@;
    assert(f.text() =~= g + t + (" is "@ + a + ")"@));
    assert(f.text() =~= (g + t + " is "@) + a + ")"@);
    let h = Fault::InvalidRepoPath { path: a, why: b };
    assert(h.text() =~= "Invalid repo path '"@ + a + ("': "@ + b));
    assert(h.text() =~= ("Invalid repo path '"@ + a + "': "@) + b + none);
    let k = Fault::TaskIntegrationRequired { task_id: id, source_ref: a, base_ref: b };
    let start = "Task integration required before completion: "@;
    let rest = "merge "@ + a + " into "@ + b + " for task "@ + t;
    reveal_strlit("Task integration required before completion: merge ");
    reveal_strlit("Task integration required before completion: ");
    reveal_strlit("merge ");
    assert("Task integration required before completion: merge "@ =~= start + "merge "@);
    assert(k.text() =~= start + rest + none);
    assert(Fault::InvalidPriority(p).text() =~= "Invalid priority: "@ + text::int_text(p as int)
        + " (must be 0-2)"@);
    lemma_last("VCS error: "@, e.message());
    lemma_last("IO error: "@, a);
    lemma_last("JSON error: "@, a);
}

proof fn lemma_last(a: Seq<char>, b: Seq<char>)
    ensures
        text_laws::mentions(a + b, b),
{
    assert(a + b =~= a + b + Seq::<char>::empty());
}

} // verus!
