//! How the state of tasks is shown.
use vstd::prelude::*;

use crate::id::TaskId;
use crate::model;
use crate::output::paint;
use crate::output::paint::{Colors, Ink, Printer};
use crate::text;
use crate::types::{Task, TaskView};

verus! {

/// The state of a task, as it is shown.
#[derive(Clone, Copy, PartialEq, Eq, Structural, Debug)]
pub enum TaskStatus {
    Archived,
    Cancelled,
    Completed,
    Blocked,
    Ready,
}

/// The state that is shown: archived before cancelled before completed before blocked.
pub open spec fn classified(
    completed: bool,
    effectively_blocked: bool,
    cancelled: bool,
    archived: bool,
) -> TaskStatus {
    if archived {
        TaskStatus::Archived
    } else if cancelled {
        TaskStatus::Cancelled
    } else if completed {
        TaskStatus::Completed
    } else if effectively_blocked {
        TaskStatus::Blocked
    } else {
        TaskStatus::Ready
    }
}

/// The state of a task, as it is shown.
pub open spec fn status_of(t: TaskView) -> TaskStatus {
    classified(t.row.completed, t.effectively_blocked, t.row.cancelled, t.row.archived)
}

impl TaskStatus {
    /// The state that is shown for a task with these marks.
    pub fn classify(
        completed: bool,
        effectively_blocked: bool,
        cancelled: bool,
        archived: bool,
    ) -> (out: TaskStatus)
        ensures
            out == classified(completed, effectively_blocked, cancelled, archived),
    {
        if archived {
            TaskStatus::Archived
        } else if cancelled {
            TaskStatus::Cancelled
        } else if completed {
            TaskStatus::Completed
        } else if effectively_blocked {
            TaskStatus::Blocked
        } else {
            TaskStatus::Ready
        }
    }

    /// The state of a task.
    pub fn of(t: &Task) -> (out: TaskStatus)
        ensures
            out == status_of(t@),
    {
        TaskStatus::classify(t.completed, t.effectively_blocked, t.cancelled, t.archived)
    }

    /// Whether the task counts as done: it is completed, cancelled or archived.
    pub open spec fn done(self) -> bool {
        self is Archived || self is Cancelled || self is Completed
    }
}

/// The symbol of a state.
pub open spec fn symbol(s: TaskStatus) -> Seq<char> {
    match s {
        TaskStatus::Archived => "▪"@,
        TaskStatus::Cancelled => "✗"@,
        TaskStatus::Completed => "✓"@,
        TaskStatus::Blocked => "⊘"@,
        TaskStatus::Ready => "○"@,
    }
}

/// The word for a state.
pub open spec fn label(s: TaskStatus) -> Seq<char> {
    match s {
        TaskStatus::Archived => "archived"@,
        TaskStatus::Cancelled => "cancelled"@,
        TaskStatus::Completed => "completed"@,
        TaskStatus::Blocked => "blocked"@,
        TaskStatus::Ready => "open"@,
    }
}

/// The ink of a state.
pub open spec fn status_ink(c: Colors, s: TaskStatus) -> Ink {
    match s {
        TaskStatus::Archived => c.archived,
        TaskStatus::Cancelled => c.cancelled,
        TaskStatus::Completed => c.completed,
        TaskStatus::Blocked => c.blocked,
        TaskStatus::Ready => c.pending,
    }
}

/// The ink of a priority.
pub open spec fn priority_ink(c: Colors, priority: i32) -> Ink {
    if priority == 0 {
        c.priority_high
    } else if priority == 1 {
        c.priority_med
    } else {
        Ink::Plain
    }
}

/// The identifier of a task, as it is shown.
pub open spec fn id_text(c: Colors, id: TaskId) -> Seq<char> {
    paint::painted(id.text(), c.task_id)
}

/// The description of a task, as it is shown in a tree: milestones stand out.
pub open spec fn title(c: Colors, t: TaskView) -> Seq<char> {
    if t.depth == Some(0i32) {
        paint::painted(t.row.description, c.milestone)
    } else {
        t.row.description
    }
}

/// A task on one line: its state, its identifier and the given title.
pub open spec fn task_line(c: Colors, t: TaskView, title: Seq<char>) -> Seq<char> {
    "["@ + paint::painted(symbol(status_of(t)), status_ink(c, status_of(t))) + "] "@ + id_text(
        c,
        t.row.id,
    ) + " - "@ + title
}

/// The states of these tasks.
pub open spec fn states_of(s: Seq<TaskView>) -> Seq<TaskStatus> {
    s.map_values(|t: TaskView| status_of(t))
}

/// How many of these states are done.
pub open spec fn done_count(s: Seq<TaskStatus>) -> nat {
    s.filter(|x: TaskStatus| x.done()).len()
}

/// How many of these states are blocked.
pub open spec fn blocked_count(s: Seq<TaskStatus>) -> nat {
    s.filter(|x: TaskStatus| x is Blocked).len()
}

/// How many of these states are ready.
pub open spec fn ready_count(s: Seq<TaskStatus>) -> nat {
    s.filter(|x: TaskStatus| x is Ready).len()
}

/// How far work has come, on one line.
pub open spec fn progress_line(c: Colors, total: nat, completed: nat, blocked: nat, ready: nat) -> Seq<
    char,
> {
    paint::painted(text::nat_text(completed), c.completed) + "/"@ + text::nat_text(total)
        + " complete | "@ + paint::painted(text::nat_text(blocked), c.blocked) + " blocked | "@
        + paint::painted(text::nat_text(ready), c.pending) + " ready"@
}

/// The end of a list of tasks with these states: an empty line, and how far they have come.
pub open spec fn summary(c: Colors, s: Seq<TaskStatus>) -> Seq<Seq<char>> {
    seq![""@, progress_line(c, s.len(), done_count(s), blocked_count(s), ready_count(s))]
}

/// Every task counts once: it is done, blocked or ready.
pub proof fn law_counts_add_up(s: Seq<TaskStatus>)
    ensures
        done_count(s) + blocked_count(s) + ready_count(s) == s.len(),
    decreases s.len(),
{
    reveal(Seq::filter);
    if s.len() > 0 {
        law_counts_add_up(s.drop_last());
    }
}

impl Printer {
    /// The identifier of a task, as it is shown.
    pub fn fmt_id(&self, id: &TaskId) -> (out: String)
        ensures
            out@ == id_text(self.colors, *id),
    {
        paint::paint(id.to_text().as_str(), self.colors.task_id)
    }

    /// The symbol and the ink of a state.
    pub fn status_symbol_style(&self, status: TaskStatus) -> (out: (&'static str, Ink))
        ensures
            out.0@ == symbol(status),
            out.1 == status_ink(self.colors, status),
    {
        match status {
            TaskStatus::Archived => ("▪", self.colors.archived),
            TaskStatus::Cancelled => ("✗", self.colors.cancelled),
            TaskStatus::Completed => ("✓", self.colors.completed),
            TaskStatus::Blocked => ("⊘", self.colors.blocked),
            TaskStatus::Ready => ("○", self.colors.pending),
        }
    }

    /// The word and the ink of a state.
    pub fn status_label_style(&self, status: TaskStatus) -> (out: (&'static str, Ink))
        ensures
            out.0@ == label(status),
            out.1 == status_ink(self.colors, status),
    {
        match status {
            TaskStatus::Archived => ("archived", self.colors.archived),
            TaskStatus::Cancelled => ("cancelled", self.colors.cancelled),
            TaskStatus::Completed => ("completed", self.colors.completed),
            TaskStatus::Blocked => ("blocked", self.colors.blocked),
            TaskStatus::Ready => ("open", self.colors.pending),
        }
    }

    /// The ink of a priority.
    pub fn priority_style(&self, priority: i32) -> (out: Ink)
        ensures
            out == priority_ink(self.colors, priority),
    {
        if priority == 0 {
            self.colors.priority_high
        } else if priority == 1 {
            self.colors.priority_med
        } else {
            Ink::Plain
        }
    }

    /// The description of a task, as it is shown in a tree.
    pub fn fmt_title(&self, t: &Task) -> (out: String)
        ensures
            out@ == title(self.colors, t@),
    {
        match t.depth {
            Some(d) if d == 0 => paint::paint(t.description.as_str(), self.colors.milestone),
            _ => t.description.clone(),
        }
    }

    /// A task on one line, after the given beginning.
    pub fn fmt_task_line(&self, start: &str, t: &Task, title: &str) -> (out: String)
        ensures
            out@ == start@ + task_line(self.colors, t@, title@),
    {
        let status: TaskStatus = TaskStatus::of(t);
        let (sym, ink) = self.status_symbol_style(status);
        let mut out: String = text::owned(start);
        out.append("[");
        out.append(paint::paint(sym, ink).as_str());
        out.append("] ");
        out.append(self.fmt_id(&t.id).as_str());
        out.append(" - ");
        out.append(title);
        assert(out@ =~= start@ + task_line(self.colors, t@, title@));
        out
    }

    /// How far work has come, on one line.
    pub fn fmt_progress(&self, total: usize, completed: usize, blocked: usize, ready: usize) -> (out:
        String)
        ensures
            out@ == progress_line(
                self.colors,
                total as nat,
                completed as nat,
                blocked as nat,
                ready as nat,
            ),
    {
        let mut out: String = paint::paint(
            text::format_u64(completed as u64).as_str(),
            self.colors.completed,
        );
        out.append("/");
        out.append(text::format_u64(total as u64).as_str());
        out.append(" complete | ");
        out.append(
            paint::paint(text::format_u64(blocked as u64).as_str(), self.colors.blocked).as_str(),
        );
        out.append(" blocked | ");
        out.append(
            paint::paint(text::format_u64(ready as u64).as_str(), self.colors.pending).as_str(),
        );
        out.append(" ready");
        out
    }

    /// The end of a list of tasks with these states.
    pub fn fmt_summary(&self, states: &Vec<TaskStatus>) -> (out: Vec<String>)
        ensures
            text::texts(out@) == summary(self.colors, states@),
    {
        let mut completed: usize = 0;
        let mut blocked: usize = 0;
        let mut ready: usize = 0;
        let mut i: usize = 0;
        let ghost s = states@;
        let ghost f = |x: TaskStatus| x.done();
        let ghost g = |x: TaskStatus| x is Blocked;
        let ghost h = |x: TaskStatus| x is Ready;
        proof {
            model::lemma_filter_empty(s, f);
            model::lemma_filter_empty(s, g);
            model::lemma_filter_empty(s, h);
        }
        while i < states.len()
            invariant
                i <= states.len(),
                s == states@,
                f == (|x: TaskStatus| x.done()),
                g == (|x: TaskStatus| x is Blocked),
                h == (|x: TaskStatus| x is Ready),
                completed == s.take(i as int).filter(f).len(),
                blocked == s.take(i as int).filter(g).len(),
                ready == s.take(i as int).filter(h).len(),
                completed + blocked + ready == i,
            decreases states.len() - i,
        {
            proof {
                model::lemma_filter_take(s, f, i as int);
                model::lemma_filter_take(s, g, i as int);
                model::lemma_filter_take(s, h, i as int);
            }
            match states[i] {
                TaskStatus::Archived | TaskStatus::Cancelled | TaskStatus::Completed => {
                    completed += 1;
                },
                TaskStatus::Blocked => {
                    blocked += 1;
                },
                TaskStatus::Ready => {
                    ready += 1;
                },
            }
            i += 1;
        }
        proof {
            model::lemma_filter_empty(s, f);
        }
        let mut out: Vec<String> = Vec::new();
        out.push(text::owned(""));
        out.push(self.fmt_progress(states.len(), completed, blocked, ready));
        assert(text::texts(out@) =~= summary(self.colors, states@));
        out
    }
}

} // verus!
