//! Tasks and learnings as the tables of the database hold them: identifiers and times as texts,
//! flags as numbers.
use vstd::prelude::*;

use crate::id;
use crate::id::{LearningId, TaskId};
use crate::text;
use crate::time;
use crate::time::Timestamp;
use crate::types::{Learning, LearningView, RowView, TaskRow};

verus! {

/// A row of the table of tasks.
#[derive(Debug)]
pub struct RawTask {
    pub id: String,
    pub parent_id: Option<String>,
    pub description: String,
    pub context: String,
    pub result: Option<String>,
    pub priority: i32,
    pub completed: i32,
    pub completed_at: Option<String>,
    pub created_at: Option<String>,
    pub updated_at: Option<String>,
    pub started_at: Option<String>,
    pub commit_sha: Option<String>,
    pub bookmark: Option<String>,
    pub start_commit: Option<String>,
    pub base_ref: Option<String>,
    pub repo_path: Option<String>,
    pub cancelled: i32,
    pub cancelled_at: Option<String>,
    pub archived: i32,
    pub archived_at: Option<String>,
}

/// The time that a text gives, where it gives one.
pub open spec fn time_of(s: Option<Seq<char>>) -> Option<Timestamp> {
    match s {
        Some(t) => match time::rfc3339_time(t) {
            Some(p) => Some(Timestamp { secs: p.0, nanos: p.1 }),
            None => None,
        },
        None => None,
    }
}

/// The time that a text gives, or the given one.
pub open spec fn time_or(s: Option<Seq<char>>, now: Timestamp) -> Timestamp {
    match time_of(s) {
        Some(t) => t,
        None => now,
    }
}

/// Whether a text is what is written for an optional task.
pub open spec fn names_task(s: Option<Seq<char>>, t: Option<TaskId>) -> bool {
    match (s, t) {
        (Some(x), Some(i)) => x == i.text(),
        (None, None) => true,
        _ => false,
    }
}

/// Whether an optional text stands for an optional task.
pub open spec fn reads_as(s: Option<Seq<char>>, t: Option<TaskId>) -> bool {
    match s {
        Some(x) => t is Some && TaskId::of_text(x) == t,
        None => t is None,
    }
}

/// What a row of the table means. A creation or update time that cannot be read counts as now;
/// another time that cannot be read counts as absent.
pub open spec fn row_means(raw: RawTask, r: RowView, now: Timestamp) -> bool {
    &&& TaskId::of_text(raw.id@) == Some(r.id)
    &&& reads_as(text::opt_text(raw.parent_id), r.parent_id)
    &&& r.description == raw.description@
    &&& r.context == raw.context@
    &&& r.result == text::opt_text(raw.result)
    &&& r.priority == raw.priority
    &&& r.completed == (raw.completed != 0)
    &&& r.completed_at == time_of(text::opt_text(raw.completed_at))
    &&& r.created_at == time_or(text::opt_text(raw.created_at), now)
    &&& r.updated_at == time_or(text::opt_text(raw.updated_at), now)
    &&& r.started_at == time_of(text::opt_text(raw.started_at))
    &&& r.commit_sha == text::opt_text(raw.commit_sha)
    &&& r.bookmark == text::opt_text(raw.bookmark)
    &&& r.start_commit == text::opt_text(raw.start_commit)
    &&& r.base_ref == text::opt_text(raw.base_ref)
    &&& r.repo_path == text::opt_text(raw.repo_path)
    &&& r.cancelled == (raw.cancelled != 0)
    &&& r.cancelled_at == time_of(text::opt_text(raw.cancelled_at))
    &&& r.archived == (raw.archived != 0)
    &&& r.archived_at == time_of(text::opt_text(raw.archived_at))
}

/// Whether the identifiers in a row can be read.
pub open spec fn ids_readable(raw: RawTask) -> bool {
    &&& TaskId::of_text(raw.id@) is Some
    &&& raw.parent_id is Some ==> TaskId::of_text(raw.parent_id->0@) is Some
}

fn read_time(s: &Option<String>) -> (out: Option<Timestamp>)
    ensures
        out == time_of(text::opt_text(*s)),
{
    match s {
        Some(t) => time::parse_rfc3339(t.as_str()),
        None => None,
    }
}

fn read_time_or(s: &Option<String>, now: Timestamp) -> (out: Timestamp)
    ensures
        out == time_or(text::opt_text(*s), now),
{
    match read_time(s) {
        Some(t) => t,
        None => now,
    }
}

/// Reads a row of the table. It is refused where an identifier in it cannot be read.
pub fn row_to_task(raw: &RawTask, now: Timestamp) -> (out: Option<TaskRow>)
    ensures
        match out {
            Some(r) => row_means(*raw, r@, now),
            None => !ids_readable(*raw),
        },
{
    let id: TaskId = match TaskId::parse(raw.id.as_str()) {
        Some(i) => i,
        None => {
            return None;
        },
    };
    let parent_id: Option<TaskId> = match &raw.parent_id {
        Some(p) => match TaskId::parse(p.as_str()) {
            Some(i) => Some(i),
            None => {
                return None;
            },
        },
        None => None,
    };
    Some(
        TaskRow {
            id,
            parent_id,
            description: raw.description.clone(),
            context: raw.context.clone(),
            result: text::clone_opt(&raw.result),
            priority: raw.priority,
            completed: raw.completed != 0,
            completed_at: read_time(&raw.completed_at),
            created_at: read_time_or(&raw.created_at, now),
            updated_at: read_time_or(&raw.updated_at, now),
            started_at: read_time(&raw.started_at),
            commit_sha: text::clone_opt(&raw.commit_sha),
            bookmark: text::clone_opt(&raw.bookmark),
            start_commit: text::clone_opt(&raw.start_commit),
            base_ref: text::clone_opt(&raw.base_ref),
            repo_path: text::clone_opt(&raw.repo_path),
            cancelled: raw.cancelled != 0,
            cancelled_at: read_time(&raw.cancelled_at),
            archived: raw.archived != 0,
            archived_at: read_time(&raw.archived_at),
        },
    )
}

/// Whether an optional time can be written.
pub open spec fn opt_writable(t: Option<Timestamp>) -> bool {
    t is Some ==> time::writable(t->0)
}

/// Whether all times of a row can be written.
pub open spec fn times_writable(r: RowView) -> bool {
    &&& time::writable(r.created_at)
    &&& time::writable(r.updated_at)
    &&& opt_writable(r.completed_at)
    &&& opt_writable(r.started_at)
    &&& opt_writable(r.cancelled_at)
    &&& opt_writable(r.archived_at)
}

fn write_time(t: Timestamp) -> (out: Option<String>)
    ensures
        text::opt_text(out) == time::rfc3339_text(t.secs, t.nanos),
        time::writable(t) ==> time_of(text::opt_text(out)) == Some(t),
{
    time::format_rfc3339(t)
}

fn write_opt_time(t: Option<Timestamp>) -> (out: Option<String>)
    ensures
        opt_writable(t) ==> time_of(text::opt_text(out)) == t,
        text::opt_text(out) == opt_time_text(t),
{
    match t {
        Some(x) => write_time(x),
        None => None,
    }
}

fn flag(b: bool) -> (out: i32)
    ensures
        out == flag_number(b),
{
    if b {
        1
    } else {
        0
    }
}

/// What is written for an optional time.
pub open spec fn opt_time_text(t: Option<Timestamp>) -> Option<Seq<char>> {
    match t {
        Some(x) => time::rfc3339_text(x.secs, x.nanos),
        None => None,
    }
}

/// What is written for a flag.
pub open spec fn flag_number(b: bool) -> int {
    if b {
        1
    } else {
        0
    }
}

/// Whether a row of the table is what is written for a task.
pub open spec fn row_written(r: RowView, raw: RawTask) -> bool {
    &&& raw.id@ == r.id.text()
    &&& names_task(text::opt_text(raw.parent_id), r.parent_id)
    &&& raw.description@ == r.description
    &&& raw.context@ == r.context
    &&& text::opt_text(raw.result) == r.result
    &&& raw.priority == r.priority
    &&& raw.completed == flag_number(r.completed)
    &&& text::opt_text(raw.completed_at) == opt_time_text(r.completed_at)
    &&& text::opt_text(raw.created_at) == opt_time_text(Some(r.created_at))
    &&& text::opt_text(raw.updated_at) == opt_time_text(Some(r.updated_at))
    &&& text::opt_text(raw.started_at) == opt_time_text(r.started_at)
    &&& text::opt_text(raw.commit_sha) == r.commit_sha
    &&& text::opt_text(raw.bookmark) == r.bookmark
    &&& text::opt_text(raw.start_commit) == r.start_commit
    &&& text::opt_text(raw.base_ref) == r.base_ref
    &&& text::opt_text(raw.repo_path) == r.repo_path
    &&& raw.cancelled == flag_number(r.cancelled)
    &&& text::opt_text(raw.cancelled_at) == opt_time_text(r.cancelled_at)
    &&& raw.archived == flag_number(r.archived)
    &&& text::opt_text(raw.archived_at) == opt_time_text(r.archived_at)
}

/// Writes a row of the table. Reading it back gives the same task, whatever the time of reading,
/// where all its times can be written.
pub fn task_to_row(r: &TaskRow) -> (out: RawTask)
    ensures
        row_written(r@, out),
        times_writable(r@) ==> forall|now: Timestamp| #[trigger] row_means(out, r@, now),
{
    proof {
        let l = LearningId { ulid: 0 };
        id::law_ids_read_back(r.id, l);
        if r.parent_id is Some {
            id::law_ids_read_back(r.parent_id->0, l);
        }
    }
    let out = RawTask {
        id: r.id.to_text(),
        parent_id: match r.parent_id {
            Some(p) => Some(p.to_text()),
            None => None,
        },
        description: r.description.clone(),
        context: r.context.clone(),
        result: text::clone_opt(&r.result),
        priority: r.priority,
        completed: flag(r.completed),
        completed_at: write_opt_time(r.completed_at),
        created_at: write_time(r.created_at),
        updated_at: write_time(r.updated_at),
        started_at: write_opt_time(r.started_at),
        commit_sha: text::clone_opt(&r.commit_sha),
        bookmark: text::clone_opt(&r.bookmark),
        start_commit: text::clone_opt(&r.start_commit),
        base_ref: text::clone_opt(&r.base_ref),
        repo_path: text::clone_opt(&r.repo_path),
        cancelled: flag(r.cancelled),
        cancelled_at: write_opt_time(r.cancelled_at),
        archived: flag(r.archived),
        archived_at: write_opt_time(r.archived_at),
    };
    out
}

/// A row means one task only: what is written for a task is read back as that task and no other.
pub proof fn law_row_means_one_task(raw: RawTask, a: RowView, b: RowView, now: Timestamp)
    requires
        row_means(raw, a, now),
        row_means(raw, b, now),
    ensures
        a == b,
{
}

/// A row of the table of learnings.
#[derive(Debug)]
pub struct RawLearning {
    pub id: String,
    pub task_id: String,
    pub content: String,
    pub source_task_id: Option<String>,
    pub created_at: Option<String>,
}

/// What a row of the table of learnings means.
pub open spec fn learning_means(raw: RawLearning, l: LearningView, now: Timestamp) -> bool {
    &&& LearningId::of_text(raw.id@) == Some(l.id)
    &&& TaskId::of_text(raw.task_id@) == Some(l.task_id)
    &&& l.content == raw.content@
    &&& reads_as(text::opt_text(raw.source_task_id), l.source_task_id)
    &&& l.created_at == time_or(text::opt_text(raw.created_at), now)
}

/// Reads a row of the table of learnings. It is refused where an identifier in it cannot be read.
pub fn row_to_learning(raw: &RawLearning, now: Timestamp) -> (out: Option<Learning>)
    ensures
        match out {
            Some(l) => learning_means(*raw, l@, now),
            None => {
                ||| LearningId::of_text(raw.id@) is None
                ||| TaskId::of_text(raw.task_id@) is None
                ||| raw.source_task_id is Some && TaskId::of_text(raw.source_task_id->0@) is None
            },
        },
{
    let id: LearningId = match LearningId::parse(raw.id.as_str()) {
        Some(i) => i,
        None => {
            return None;
        },
    };
    let task_id: TaskId = match TaskId::parse(raw.task_id.as_str()) {
        Some(i) => i,
        None => {
            return None;
        },
    };
    let source_task_id: Option<TaskId> = match &raw.source_task_id {
        Some(p) => match TaskId::parse(p.as_str()) {
            Some(i) => Some(i),
            None => {
                return None;
            },
        },
        None => None,
    };
    Some(
        Learning {
            id,
            task_id,
            content: raw.content.clone(),
            source_task_id,
            created_at: read_time_or(&raw.created_at, now),
        },
    )
}

/// A row means one learning only: what is written for a learning is read back as that learning and
/// no other.
pub proof fn law_row_means_one_learning(raw: RawLearning, a: LearningView, b: LearningView, now: Timestamp)
    requires
        learning_means(raw, a, now),
        learning_means(raw, b, now),
    ensures
        a == b,
{
}

/// Writes a row of the table of learnings. Reading it back gives the same learning, whatever the
/// time of reading, where its time can be written.
pub fn learning_to_row(l: &Learning) -> (out: RawLearning)
    ensures
        out.id@ == l.id.text(),
        out.task_id@ == l.task_id.text(),
        out.content@ == l.content@,
        names_task(text::opt_text(out.source_task_id), l.source_task_id),
        text::opt_text(out.created_at) == opt_time_text(Some(l.created_at)),
        time::writable(l.created_at) ==> forall|now: Timestamp| #[trigger]
            learning_means(out, l@, now),
{
    proof {
        id::law_ids_read_back(l.task_id, l.id);
        if l.source_task_id is Some {
            id::law_ids_read_back(l.source_task_id->0, l.id);
        }
    }
    RawLearning {
        id: l.id.to_text(),
        task_id: l.task_id.to_text(),
        content: l.content.clone(),
        source_task_id: match l.source_task_id {
            Some(p) => Some(p.to_text()),
            None => None,
        },
        created_at: write_time(l.created_at),
    }
}

} // verus!
