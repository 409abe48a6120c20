//! Reports on everything that commands give.
use vstd::prelude::*;

use crate::commands::args::TaskCommand;
use crate::commands::data::DataResult;
use crate::commands::learning::{LearningResult, LearningResultView};
use crate::commands::task;
use crate::commands::task::{ResultView, TaskProgressResult, TaskResult};
use crate::commands::vcs;
use crate::commands::vcs::{CleanupResult, OrphanReason};
use crate::id::TaskId;
use crate::output::forest;
use crate::output::paint;
use crate::output::paint::{Colors, Ink, Printer};
use crate::output::status;
use crate::output::status::TaskStatus;
use crate::output::tree;
use crate::service::context::{TaskWithContext, WithContextView};
use crate::text;
use crate::types;
use crate::types::{Learning, LearningView, Task, TaskView};
use crate::vcs::backend;
use crate::vcs::backend::{
    ChangeType, CommitResult, DiffEntry, DiffView, FileStatus, FileStatusKind,
    FileStatusView, LogEntry, LogView, StatusView, VcsInfo, VcsStatus, VcsType,
};

verus! {

/// A line where there is something to say.
pub open spec fn opt_line(start: Seq<char>, rest: Option<Seq<char>>) -> Seq<Seq<char>> {
    match rest {
        Some(r) => seq![start + r],
        None => Seq::empty(),
    }
}

/// A text that is not empty.
pub open spec fn nonempty(s: Seq<char>) -> Option<Seq<char>> {
    if s.len() == 0 {
        None
    } else {
        Some(s)
    }
}

/// Identifiers in a row.
pub open spec fn ids_text(c: Colors, ids: Seq<TaskId>) -> Seq<char>
    decreases ids.len(),
{
    if ids.len() == 0 {
        Seq::empty()
    } else if ids.len() == 1 {
        status::id_text(c, ids[0])
    } else {
        ids_text(c, ids.drop_last()) + ", "@ + status::id_text(c, ids.last())
    }
}

/// A priority, as it is shown.
pub open spec fn priority_text(c: Colors, priority: i32) -> Seq<char> {
    "p"@ + paint::painted(text::int_text(priority as int), status::priority_ink(c, priority))
}

/// A depth, as it is shown.
pub open spec fn depth_text(depth: Option<i32>) -> Option<Seq<char>> {
    match depth {
        Some(d) => Some(text::int_text(d as int)),
        None => None,
    }
}

/// The report on one task.
pub open spec fn task_report(c: Colors, t: TaskView) -> Seq<Seq<char>> {
    let s = status::status_of(t);
    seq![
        "Task: "@ + status::id_text(c, t.row.id) + " ("@ + paint::painted(
            status::label(s),
            status::status_ink(c, s),
        ) + ")"@,
    ] + seq!["  Description: "@ + t.row.description] + opt_line(
        "  Context: "@,
        nonempty(t.row.context),
    ) + opt_line("  Result: "@, t.row.result) + seq![
        "  Priority: "@ + priority_text(c, t.row.priority),
    ] + opt_line("  Repo: "@, t.row.repo_path) + opt_line("  Depth: "@, depth_text(t.depth))
        + opt_line(
        "  Blocked by: "@,
        if t.blocked_by.len() == 0 {
            None
        } else {
            Some(ids_text(c, t.blocked_by))
        },
    ) + opt_line(
        "  Blocks: "@,
        if t.blocks.len() == 0 {
            None
        } else {
            Some(ids_text(c, t.blocks))
        },
    )
}

/// The report on the next ready task.
pub open spec fn next_ready_report(c: Colors, r: Option<WithContextView>) -> Seq<Seq<char>> {
    match r {
        None => seq!["No ready tasks found"@],
        Some(w) => seq!["Next ready task: "@ + status::id_text(c, w.task.row.id)] + seq![
            "  Description: "@ + w.task.row.description,
        ] + seq!["  Priority: "@ + priority_text(c, w.task.row.priority)] + opt_line(
            "  Depth: "@,
            depth_text(w.task.depth),
        ),
    }
}

/// What is said of the result of a command on tasks. A task with its context is shown as data
/// only.
pub open spec fn task_output(c: Colors, cmd: TaskCommand, r: ResultView) -> Option<Seq<Seq<char>>> {
    match r {
        ResultView::One(t) => Some(task_report(c, t)),
        ResultView::OneWithContext(_) => None,
        ResultView::MaybeOneWithContext(t) => Some(next_ready_report(c, t)),
        ResultView::Many(ts) => Some(
            if as_forest(cmd) {
                forest::forest_report(c, ts)
            } else {
                forest::flat_report(c, ts)
            },
        ),
        ResultView::Deleted => Some(seq!["Task deleted"@]),
        ResultView::Tree(t) => Some(tree::tree_report(c, t)),
        ResultView::Trees(ts) => Some(tree::trees_report(c, ts)),
        ResultView::Progress(p) => Some(
            seq![
                status::progress_line(
                    c,
                    p.total as nat,
                    p.completed as nat,
                    p.blocked as nat,
                    p.ready as nat,
                ),
            ],
        ),
    }
}

/// Whether the tasks that a command gives are drawn as a forest: those of a listing are, unless a
/// flat one is asked for.
pub open spec fn as_forest(cmd: TaskCommand) -> bool {
    match cmd {
        TaskCommand::List(args) => !args.flat,
        _ => false,
    }
}

/// The line for a learning in a list.
pub open spec fn learning_line(c: Colors, l: LearningView) -> Seq<char> {
    "• "@ + paint::painted(l.id.text(), c.task_id) + " - "@ + l.content
}

/// The report on learnings.
pub open spec fn learnings_report(c: Colors, ls: Seq<LearningView>) -> Seq<Seq<char>> {
    if ls.len() == 0 {
        seq!["No learnings found"@]
    } else {
        ls.map_values(|l: LearningView| learning_line(c, l))
    }
}

/// The report on one learning.
pub open spec fn learning_report(c: Colors, l: LearningView) -> Seq<Seq<char>> {
    seq!["Learning: "@ + paint::painted(l.id.text(), c.task_id)] + seq!["  Content: "@ + l.content]
        + seq!["  Task: "@ + status::id_text(c, l.task_id)] + opt_line(
        "  Source: "@,
        match l.source_task_id {
            Some(s) => Some(status::id_text(c, s)),
            None => None,
        },
    )
}

/// What is said of the result of a command on learnings.
pub open spec fn learning_output(c: Colors, r: LearningResultView) -> Seq<Seq<char>> {
    match r {
        LearningResultView::One(l) => learning_report(c, l),
        LearningResultView::Many(ls) => learnings_report(c, ls),
        LearningResultView::Deleted => seq!["Learning deleted"@],
    }
}

/// The symbol and the ink of a file that differs.
pub open spec fn file_symbol(c: Colors, k: FileStatusKind) -> (Seq<char>, Ink) {
    match k {
        FileStatusKind::Modified => ("M"@, c.pending),
        FileStatusKind::Added => ("A"@, c.completed),
        FileStatusKind::Deleted => ("D"@, c.blocked),
        FileStatusKind::Renamed => ("R"@, c.pending),
        FileStatusKind::Untracked => ("?"@, c.tree_line),
        FileStatusKind::Conflict => ("C"@, c.error),
    }
}

/// The line for a file that differs.
pub open spec fn file_line(c: Colors, f: FileStatusView) -> Seq<char> {
    let s = file_symbol(c, f.status);
    "  "@ + paint::painted(s.0, s.1) + " "@ + f.path
}

/// The report on the working copy.
pub open spec fn status_report(c: Colors, s: StatusView) -> Seq<Seq<char>> {
    opt_line(
        "Working copy: "@,
        match s.working_copy_id {
            Some(id) => Some(paint::painted(id, c.task_id)),
            None => None,
        },
    ) + (if s.files.len() == 0 {
        seq!["No changes"@]
    } else {
        s.files.map_values(|f: FileStatusView| file_line(c, f))
    })
}

/// The line for a commit in the history.
pub open spec fn log_line(e: LogView) -> Seq<char> {
    e.id + " "@ + e.author + " - "@ + e.description
}

/// The symbol and the ink of a change.
pub open spec fn change_symbol(c: Colors, k: ChangeType) -> (Seq<char>, Ink) {
    match k {
        ChangeType::Added => ("+"@, c.completed),
        ChangeType::Deleted => ("-"@, c.blocked),
        ChangeType::Modified => ("~"@, c.pending),
        ChangeType::Renamed => ("→"@, c.pending),
    }
}

/// The line for a file that changed.
pub open spec fn diff_line(c: Colors, e: DiffView) -> Seq<char> {
    let s = change_symbol(c, e.change_type);
    paint::painted(s.0, s.1) + " "@ + e.path
}

/// The report on files that changed.
pub open spec fn diff_report(c: Colors, es: Seq<DiffView>) -> Seq<Seq<char>> {
    if es.len() == 0 {
        seq!["No changes"@]
    } else {
        es.map_values(|e: DiffView| diff_line(c, e))
    }
}

/// The line for an orphaned branch.
pub open spec fn orphan_line(c: Colors, name: Seq<char>, reason: OrphanReason) -> Seq<char> {
    "  "@ + paint::painted(name, c.pending) + " ("@ + (match reason {
        OrphanReason::TaskNotFound => "task deleted"@,
        OrphanReason::TaskCompleted => "task completed"@,
    }) + ")"@
}

/// The report on a cleanup of branches: the orphaned ones, how many of them were deleted or how to
/// delete them, and how many could not be.
pub open spec fn cleanup_report(
    c: Colors,
    orphaned: Seq<(Seq<char>, OrphanReason)>,
    deleted: nat,
    failed: nat,
) -> Seq<Seq<char>> {
    if orphaned.len() == 0 {
        seq!["No orphaned branches found"@]
    } else {
        seq!["Orphaned branches:"@] + orphaned.map_values(
            |o: (Seq<char>, OrphanReason)| orphan_line(c, o.0, o.1),
        ) + (if deleted > 0 {
            seq![""@, paint::painted(text::nat_text(deleted), c.completed) + " branches deleted"@]
        } else {
            seq![
                ""@,
                "Run with "@ + paint::painted("--delete"@, c.pending)
                    + " to delete orphaned branches"@,
            ]
        }) + (if failed > 0 {
            seq![
                ""@,
                paint::painted(text::nat_text(failed), c.blocked) + " branches failed to delete"@,
            ]
        } else {
            Seq::empty()
        })
    }
}

/// Adds a line to a report.
fn push_line(out: &mut Vec<String>, start: &str, rest: &str)
    ensures
        text::texts(final(out)@) == text::texts(old(out)@) + seq![start@ + rest@],
{
    let ghost before = out@;
    out.push(text::joined(start, rest));
    assert(text::texts(out@) =~= text::texts(before) + seq![start@ + rest@]);
}

/// Adds a line that stands for itself to a report.
fn push_words(out: &mut Vec<String>, line: &str)
    ensures
        text::texts(final(out)@) == text::texts(old(out)@) + seq![line@],
{
    let ghost before = out@;
    out.push(text::owned(line));
    assert(text::texts(out@) =~= text::texts(before) + seq![line@]);
}

/// Adds a line to a report, where there is something to say.
fn push_opt(out: &mut Vec<String>, start: &str, rest: &Option<String>)
    ensures
        text::texts(final(out)@) == text::texts(old(out)@) + opt_line(
            start@,
            text::opt_text(*rest),
        ),
{
    match rest {
        Some(r) => push_line(out, start, r.as_str()),
        None => {
            assert(text::texts(out@) =~= text::texts(out@) + Seq::<Seq<char>>::empty());
        },
    }
}

/// A report of one line.
fn only_line(line: &str) -> (out: Vec<String>)
    ensures
        text::texts(out@) == seq![line@],
{
    let mut out: Vec<String> = Vec::new();
    push_words(&mut out, line);
    assert(text::texts(out@) =~= seq![line@]);
    out
}

/// What a command answers.
#[derive(Debug)]
pub enum Answer {
    Init,
    Task(TaskCommand, TaskResult),
    Learning(LearningResult),
    Detect(VcsInfo),
    Status(VcsStatus),
    Log(Vec<LogEntry>),
    Diff(Vec<DiffEntry>),
    Commit(CommitResult),
    Cleanup(CleanupResult),
    Data(DataResult),
}

/// The report on the kind of repository.
pub open spec fn detect_report(info: VcsInfo) -> Seq<Seq<char>> {
    seq![
        match info.vcs_type {
            VcsType::Jj => "JJ repository at "@ + info.root@,
            VcsType::Git => "Git repository at "@ + info.root@,
            VcsType::Absent => "Not a repository"@,
        },
    ]
}

/// The report on an export.
pub open spec fn export_report(r: DataResult) -> Seq<Seq<char>> {
    let DataResult::Exported { path, tasks, learnings } = r;
    seq![
        "Exported "@ + text::nat_text(tasks as nat) + " tasks and "@ + text::nat_text(
            learnings as nat,
        ) + " learnings to "@ + path@,
    ]
}

/// What is written for the answer of a command; nothing where a task is shown in full as data.
pub open spec fn output(c: Colors, a: Answer) -> Option<Seq<Seq<char>>> {
    match a {
        Answer::Init => Some(seq!["Initialized overseer database"@]),
        Answer::Task(cmd, r) => task_output(c, cmd, r@),
        Answer::Learning(r) => Some(learning_output(c, r@)),
        Answer::Detect(info) => Some(detect_report(info)),
        Answer::Status(s) => Some(status_report(c, s@)),
        Answer::Log(es) => Some(backend::log_views(es@).map_values(|e: LogView| log_line(e))),
        Answer::Diff(es) => Some(diff_report(c, backend::diff_views(es@))),
        Answer::Commit(r) => Some(seq!["Committed: "@ + r@.id + " - "@ + r@.message]),
        Answer::Cleanup(r) => Some(
            cleanup_report(c, vcs::orphan_views(r.orphaned@), r.deleted@.len(), r.failed@.len()),
        ),
        Answer::Data(r) => Some(export_report(r)),
    }
}

/// Whether the tasks of an answer that is drawn as a forest are distinct.
pub open spec fn drawable(a: Answer) -> bool {
    match a {
        Answer::Task(cmd, r) => r@ is Many && as_forest(cmd) ==> forest::distinct(r@->Many_0),
        _ => true,
    }
}

impl Printer {
    /// Identifiers in a row, where there are any.
    fn fmt_ids(&self, ids: &Vec<TaskId>) -> (out: Option<String>)
        ensures
            text::opt_text(out) == (if ids@.len() == 0 {
                None
            } else {
                Some(ids_text(self.colors, ids@))
            }),
    {
        if ids.len() == 0 {
            return None;
        }
        let mut out: String = self.fmt_id(&ids[0]);
        let mut i: usize = 1;
        assert(ids@.take(1)[0] == ids@[0]);
        while i < ids.len()
            invariant
                1 <= i <= ids.len(),
                out@ == ids_text(self.colors, ids@.take(i as int)),
            decreases ids.len() - i,
        {
            proof {
                assert(ids@.take(i + 1).drop_last() =~= ids@.take(i as int));
            }
            out.append(", ");
            out.append(self.fmt_id(&ids[i]).as_str());
            i += 1;
        }
        assert(ids@.take(ids@.len() as int) =~= ids@);
        Some(out)
    }

    fn fmt_priority(&self, priority: i32) -> (out: String)
        ensures
            out@ == priority_text(self.colors, priority),
    {
        text::joined(
            "p",
            paint::paint(
                text::format_i32(priority).as_str(),
                self.priority_style(priority),
            ).as_str(),
        )
    }

    fn fmt_depth(&self, depth: Option<i32>) -> (out: Option<String>)
        ensures
            text::opt_text(out) == depth_text(depth),
    {
        match depth {
            Some(d) => Some(text::format_i32(d)),
            None => None,
        }
    }

    /// The report on one task.
    pub fn print_task(&self, t: &Task) -> (out: Vec<String>)
        ensures
            text::texts(out@) == task_report(self.colors, t@),
    {
        let (word, ink) = self.status_label_style(TaskStatus::of(t));
        let mut head: String = text::joined("Task: ", self.fmt_id(&t.id).as_str());
        head.append(" (");
        head.append(paint::paint(word, ink).as_str());
        head.append(")");
        let mut out: Vec<String> = only_line(head.as_str());
        push_line(&mut out, "  Description: ", t.description.as_str());
        let context: Option<String> = if text::chars_of(t.context.as_str()).len() == 0 {
            None
        } else {
            Some(t.context.clone())
        };
        push_opt(&mut out, "  Context: ", &context);
        push_opt(&mut out, "  Result: ", &t.result);
        push_line(&mut out, "  Priority: ", self.fmt_priority(t.priority).as_str());
        push_opt(&mut out, "  Repo: ", &t.repo_path);
        push_opt(&mut out, "  Depth: ", &self.fmt_depth(t.depth));
        push_opt(&mut out, "  Blocked by: ", &self.fmt_ids(&t.blocked_by));
        push_opt(&mut out, "  Blocks: ", &self.fmt_ids(&t.blocks));
        out
    }

    /// The report on the next ready task.
    pub fn print_next_ready(&self, r: &Option<TaskWithContext>) -> (out: Vec<String>)
        ensures
            text::texts(out@) == next_ready_report(
                self.colors,
                match *r {
                    Some(w) => Some(w@),
                    None => None,
                },
            ),
    {
        match r {
            None => only_line("No ready tasks found"),
            Some(w) => {
                let head: String = text::joined(
                    "Next ready task: ",
                    self.fmt_id(&w.task.id).as_str(),
                );
                let mut out: Vec<String> = only_line(head.as_str());
                push_line(&mut out, "  Description: ", w.task.description.as_str());
                push_line(&mut out, "  Priority: ", self.fmt_priority(w.task.priority).as_str());
                push_opt(&mut out, "  Depth: ", &self.fmt_depth(w.task.depth));
                out
            },
        }
    }

    /// The line on how far tasks have come.
    pub fn print_task_progress(&self, p: &TaskProgressResult) -> (out: Vec<String>)
        ensures
            text::texts(out@) == seq![
                status::progress_line(
                    self.colors,
                    p.total as nat,
                    p.completed as nat,
                    p.blocked as nat,
                    p.ready as nat,
                ),
            ],
    {
        only_line(self.fmt_progress(p.total, p.completed, p.blocked, p.ready).as_str())
    }

    /// What is said of the result of a command on tasks; nothing where it is shown as data.
    pub fn print_task_result(&self, cmd: &TaskCommand, r: &TaskResult) -> (out: Option<Vec<String>>)
        requires
            r@ is Many && as_forest(*cmd) ==> forest::distinct(r@->Many_0),
        ensures
            (match out {
                Some(lines) => Some(text::texts(lines@)),
                None => None,
            }) == task_output(self.colors, *cmd, r@),
    {
        match r {
            TaskResult::One(t) => Some(self.print_task(t)),
            TaskResult::OneWithContext(_) => None,
            TaskResult::MaybeOneWithContext(t) => Some(self.print_next_ready(t)),
            TaskResult::Many(ts) => {
                let drawn: bool = match cmd {
                    TaskCommand::List(args) => !args.flat,
                    _ => false,
                };
                if drawn {
                    Some(self.print_task_list_tree(ts))
                } else {
                    Some(self.print_task_list_flat(ts))
                }
            },
            TaskResult::Deleted => Some(only_line("Task deleted")),
            TaskResult::Tree(t) => Some(self.print_task_tree(t)),
            TaskResult::Trees(ts) => Some(self.print_task_trees(ts)),
            TaskResult::Progress(p) => Some(self.print_task_progress(p)),
        }
    }

    /// The report on learnings.
    pub fn print_learning_list(&self, ls: &Vec<Learning>) -> (out: Vec<String>)
        ensures
            text::texts(out@) == learnings_report(self.colors, types::learning_views(ls@)),
    {
        let ghost v = types::learning_views(ls@);
        let ghost c = self.colors;
        let ghost g = |l: LearningView| learning_line(c, l);
        assert(v.len() == ls@.len());
        if ls.len() == 0 {
            return only_line("No learnings found");
        }
        let mut out: Vec<String> = Vec::new();
        let mut i: usize = 0;
        assert(text::texts(out@) =~= v.take(0).map_values(g));
        while i < ls.len()
            invariant
                i <= ls.len(),
                c == self.colors,
                v == types::learning_views(ls@),
                g == (|l: LearningView| learning_line(c, l)),
                text::texts(out@) == v.take(i as int).map_values(g),
            decreases ls.len() - i,
        {
            let l: &Learning = &ls[i];
            assert(v[i as int] == l@);
            let mut line: String = text::joined(
                "• ",
                paint::paint(l.id.to_text().as_str(), self.colors.task_id).as_str(),
            );
            line.append(" - ");
            line.append(l.content.as_str());
            push_words(&mut out, line.as_str());
            i += 1;
            proof {
                assert(v.take(i as int) =~= v.take(i - 1).push(v[i - 1]));
                assert(text::texts(out@) =~= v.take(i as int).map_values(g));
            }
        }
        assert(v.take(v.len() as int) =~= v);
        out
    }

    /// The report on one learning.
    pub fn print_learning(&self, l: &Learning) -> (out: Vec<String>)
        ensures
            text::texts(out@) == learning_report(self.colors, l@),
    {
        let head: String = text::joined(
            "Learning: ",
            paint::paint(l.id.to_text().as_str(), self.colors.task_id).as_str(),
        );
        let mut out: Vec<String> = only_line(head.as_str());
        push_line(&mut out, "  Content: ", l.content.as_str());
        push_line(&mut out, "  Task: ", self.fmt_id(&l.task_id).as_str());
        let source: Option<String> = match &l.source_task_id {
            Some(s) => Some(self.fmt_id(s)),
            None => None,
        };
        push_opt(&mut out, "  Source: ", &source);
        out
    }

    /// What is said of the result of a command on learnings.
    pub fn print_learning_result(&self, r: &LearningResult) -> (out: Vec<String>)
        ensures
            text::texts(out@) == learning_output(self.colors, r@),
    {
        match r {
            LearningResult::One(l) => self.print_learning(l),
            LearningResult::Many(ls) => self.print_learning_list(ls),
            LearningResult::Deleted => only_line("Learning deleted"),
        }
    }

    /// The line on the repository around a directory.
    pub fn print_vcs_detect(&self, info: &VcsInfo) -> (out: Vec<String>)
        ensures
            text::texts(out@) == detect_report(*info),
    {
        match info.vcs_type {
            VcsType::Jj => only_line(
                text::joined("JJ repository at ", info.root.as_str()).as_str(),
            ),
            VcsType::Git => only_line(
                text::joined("Git repository at ", info.root.as_str()).as_str(),
            ),
            VcsType::Absent => only_line("Not a repository"),
        }
    }

    fn file_style(&self, k: FileStatusKind) -> (out: (&'static str, Ink))
        ensures
            (out.0@, out.1) == file_symbol(self.colors, k),
    {
        match k {
            FileStatusKind::Modified => ("M", self.colors.pending),
            FileStatusKind::Added => ("A", self.colors.completed),
            FileStatusKind::Deleted => ("D", self.colors.blocked),
            FileStatusKind::Renamed => ("R", self.colors.pending),
            FileStatusKind::Untracked => ("?", self.colors.tree_line),
            FileStatusKind::Conflict => ("C", self.colors.error),
        }
    }

    /// The report on the working copy.
    pub fn print_vcs_status(&self, s: &VcsStatus) -> (out: Vec<String>)
        ensures
            text::texts(out@) == status_report(self.colors, s@),
    {
        let ghost v = s@.files;
        let ghost c = self.colors;
        let ghost g = |f: FileStatusView| file_line(c, f);
        assert(v.len() == s.files@.len());
        let mut out: Vec<String> = Vec::new();
        let id: Option<String> = match &s.working_copy_id {
            Some(id) => Some(paint::paint(id.as_str(), self.colors.task_id)),
            None => None,
        };
        push_opt(&mut out, "Working copy: ", &id);
        let ghost head = text::texts(out@);
        assert(head =~= opt_line("Working copy: "@, text::opt_text(id)));
        if s.files.len() == 0 {
            push_words(&mut out, "No changes");
            return out;
        }
        let mut i: usize = 0;
        assert(text::texts(out@) =~= head + v.take(0).map_values(g));
        while i < s.files.len()
            invariant
                i <= s.files.len(),
                c == self.colors,
                v == s@.files,
                g == (|f: FileStatusView| file_line(c, f)),
                text::texts(out@) == head + v.take(i as int).map_values(g),
            decreases s.files.len() - i,
        {
            let f: &FileStatus = &s.files[i];
            assert(v[i as int] == f@);
            let (sym, ink) = self.file_style(f.status);
            let mut line: String = text::joined("  ", paint::paint(sym, ink).as_str());
            line.append(" ");
            line.append(f.path.as_str());
            push_words(&mut out, line.as_str());
            i += 1;
            proof {
                assert(v.take(i as int) =~= v.take(i - 1).push(v[i - 1]));
                assert(text::texts(out@) =~= head + v.take(i as int).map_values(g));
            }
        }
        assert(v.take(v.len() as int) =~= v);
        out
    }

    /// The report on the history.
    pub fn print_vcs_log(&self, es: &Vec<LogEntry>) -> (out: Vec<String>)
        ensures
            text::texts(out@) == backend::log_views(es@).map_values(|e: LogView| log_line(e)),
    {
        let ghost v = backend::log_views(es@);
        let ghost g = |e: LogView| log_line(e);
        let mut out: Vec<String> = Vec::new();
        let mut i: usize = 0;
        assert(text::texts(out@) =~= v.take(0).map_values(g));
        while i < es.len()
            invariant
                i <= es.len(),
                v == backend::log_views(es@),
                g == (|e: LogView| log_line(e)),
                text::texts(out@) == v.take(i as int).map_values(g),
            decreases es.len() - i,
        {
            let e: &LogEntry = &es[i];
            assert(v[i as int] == e@);
            let mut line: String = text::joined(e.id.as_str(), " ");
            line.append(e.author.as_str());
            line.append(" - ");
            line.append(e.description.as_str());
            push_words(&mut out, line.as_str());
            i += 1;
            proof {
                assert(v.take(i as int) =~= v.take(i - 1).push(v[i - 1]));
                assert(text::texts(out@) =~= v.take(i as int).map_values(g));
            }
        }
        assert(v.take(v.len() as int) =~= v);
        out
    }

    fn change_style(&self, k: ChangeType) -> (out: (&'static str, Ink))
        ensures
            (out.0@, out.1) == change_symbol(self.colors, k),
    {
        match k {
            ChangeType::Added => ("+", self.colors.completed),
            ChangeType::Deleted => ("-", self.colors.blocked),
            ChangeType::Modified => ("~", self.colors.pending),
            ChangeType::Renamed => ("→", self.colors.pending),
        }
    }

    /// The report on files that changed.
    pub fn print_vcs_diff(&self, es: &Vec<DiffEntry>) -> (out: Vec<String>)
        ensures
            text::texts(out@) == diff_report(self.colors, backend::diff_views(es@)),
    {
        let ghost v = backend::diff_views(es@);
        let ghost c = self.colors;
        let ghost g = |e: DiffView| diff_line(c, e);
        assert(v.len() == es@.len());
        if es.len() == 0 {
            return only_line("No changes");
        }
        let mut out: Vec<String> = Vec::new();
        let mut i: usize = 0;
        assert(text::texts(out@) =~= v.take(0).map_values(g));
        while i < es.len()
            invariant
                i <= es.len(),
                c == self.colors,
                v == backend::diff_views(es@),
                g == (|e: DiffView| diff_line(c, e)),
                text::texts(out@) == v.take(i as int).map_values(g),
            decreases es.len() - i,
        {
            let e: &DiffEntry = &es[i];
            assert(v[i as int] == e@);
            let (sym, ink) = self.change_style(e.change_type);
            let mut line: String = paint::paint(sym, ink);
            line.append(" ");
            line.append(e.path.as_str());
            push_words(&mut out, line.as_str());
            i += 1;
            proof {
                assert(v.take(i as int) =~= v.take(i - 1).push(v[i - 1]));
                assert(text::texts(out@) =~= v.take(i as int).map_values(g));
            }
        }
        assert(v.take(v.len() as int) =~= v);
        out
    }

    /// The line on a commit that was made.
    pub fn print_vcs_commit(&self, r: &CommitResult) -> (out: Vec<String>)
        ensures
            text::texts(out@) == seq!["Committed: "@ + r@.id + " - "@ + r@.message],
    {
        let mut line: String = text::joined("Committed: ", r.id.as_str());
        line.append(" - ");
        line.append(r.message.as_str());
        only_line(line.as_str())
    }

    /// The report on a cleanup of branches.
    pub fn print_vcs_cleanup(&self, r: &CleanupResult) -> (out: Vec<String>)
        ensures
            text::texts(out@) == cleanup_report(
                self.colors,
                vcs::orphan_views(r.orphaned@),
                r.deleted@.len(),
                r.failed@.len(),
            ),
    {
        let ghost v = vcs::orphan_views(r.orphaned@);
        let ghost c = self.colors;
        let ghost g = |o: (Seq<char>, OrphanReason)| orphan_line(c, o.0, o.1);
        assert(v.len() == r.orphaned@.len());
        if r.orphaned.len() == 0 {
            return only_line("No orphaned branches found");
        }
        let mut out: Vec<String> = only_line("Orphaned branches:");
        let ghost head = text::texts(out@);
        let mut i: usize = 0;
        assert(text::texts(out@) =~= head + v.take(0).map_values(g));
        while i < r.orphaned.len()
            invariant
                i <= r.orphaned.len(),
                c == self.colors,
                v == vcs::orphan_views(r.orphaned@),
                g == (|o: (Seq<char>, OrphanReason)| orphan_line(c, o.0, o.1)),
                text::texts(out@) == head + v.take(i as int).map_values(g),
            decreases r.orphaned.len() - i,
        {
            let b = &r.orphaned[i];
            assert(v[i as int] == (b.name@, b.reason));
            let mut line: String = text::joined(
                "  ",
                paint::paint(b.name.as_str(), self.colors.pending).as_str(),
            );
            line.append(" (");
            line.append(
                match b.reason {
                    OrphanReason::TaskNotFound => "task deleted",
                    OrphanReason::TaskCompleted => "task completed",
                },
            );
            line.append(")");
            push_words(&mut out, line.as_str());
            i += 1;
            proof {
                assert(v.take(i as int) =~= v.take(i - 1).push(v[i - 1]));
                assert(text::texts(out@) =~= head + v.take(i as int).map_values(g));
            }
        }
        assert(v.take(v.len() as int) =~= v);
        let ghost listed = text::texts(out@);
        push_words(&mut out, "");
        if r.deleted.len() > 0 {
            let n: String = paint::paint(
                text::format_u64(r.deleted.len() as u64).as_str(),
                self.colors.completed,
            );
            push_line(&mut out, n.as_str(), " branches deleted");
            assert(text::texts(out@) =~= listed + seq![
                ""@,
                paint::painted(text::nat_text(r.deleted@.len()), c.completed)
                    + " branches deleted"@,
            ]);
        } else {
            let hint: String = text::joined(
                "Run with ",
                paint::paint("--delete", self.colors.pending).as_str(),
            );
            push_line(&mut out, hint.as_str(), " to delete orphaned branches");
            assert(text::texts(out@) =~= listed + seq![
                ""@,
                "Run with "@ + paint::painted("--delete"@, c.pending)
                    + " to delete orphaned branches"@,
            ]);
        }
        let ghost told = text::texts(out@);
        if r.failed.len() > 0 {
            push_words(&mut out, "");
            let n: String = paint::paint(
                text::format_u64(r.failed.len() as u64).as_str(),
                self.colors.blocked,
            );
            push_line(&mut out, n.as_str(), " branches failed to delete");
            assert(text::texts(out@) =~= told + seq![
                ""@,
                paint::painted(text::nat_text(r.failed@.len()), c.blocked)
                    + " branches failed to delete"@,
            ]);
        } else {
            assert(told =~= told + Seq::<Seq<char>>::empty());
        }
        out
    }

    /// The line on an export.
    pub fn print_data_export(&self, r: &DataResult) -> (out: Vec<String>)
        ensures
            text::texts(out@) == export_report(*r),
    {
        match r {
            DataResult::Exported { path, tasks, learnings } => {
                let mut line: String = text::joined(
                    "Exported ",
                    text::format_u64(*tasks as u64).as_str(),
                );
                line.append(" tasks and ");
                line.append(text::format_u64(*learnings as u64).as_str());
                line.append(" learnings to ");
                line.append(path.as_str());
                only_line(line.as_str())
            },
        }
    }

    /// The line on a database that was set up.
    pub fn print_init(&self) -> (out: Vec<String>)
        ensures
            text::texts(out@) == seq!["Initialized overseer database"@],
    {
        only_line("Initialized overseer database")
    }

    /// The answer of a command; nothing where it is a task in full, which is shown as data.
    pub fn print(&self, answer: &Answer) -> (out: Option<Vec<String>>)
        requires
            drawable(*answer),
        ensures
            (match out {
                Some(lines) => Some(text::texts(lines@)),
                None => None,
            }) == output(self.colors, *answer),
    {
        match answer {
            Answer::Init => Some(self.print_init()),
            Answer::Task(cmd, r) => self.print_task_result(cmd, r),
            Answer::Learning(r) => Some(self.print_learning_result(r)),
            Answer::Detect(info) => Some(self.print_vcs_detect(info)),
            Answer::Status(s) => Some(self.print_vcs_status(s)),
            Answer::Log(es) => Some(self.print_vcs_log(es)),
            Answer::Diff(es) => Some(self.print_vcs_diff(es)),
            Answer::Commit(r) => Some(self.print_vcs_commit(r)),
            Answer::Cleanup(r) => Some(self.print_vcs_cleanup(r)),
            Answer::Data(r) => Some(self.print_data_export(r)),
        }
    }
}

} // verus!
