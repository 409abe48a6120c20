//! The commands on the data as a whole.
use vstd::prelude::*;

use crate::commands::args::DataCommand;
use crate::commands::task;
use crate::db::learning_repo;
use crate::db::task_repo;
use crate::id::TaskId;
use crate::model;
use crate::model::Db;
use crate::service::task_service::TaskService;
use crate::text;
use crate::time;
use crate::time::Timestamp;
use crate::types;
use crate::types::{BlockerRelation, Learning, LearningView, ListTasksFilter, RowView, Task};

verus! {

/// A task as it is exported: what belongs to one repository only is left out.
#[derive(Debug)]
pub struct ExportTask {
    pub id: TaskId,
    pub parent_id: Option<TaskId>,
    pub description: String,
    pub context: String,
    pub result: Option<String>,
    pub priority: i32,
    pub completed: bool,
    pub completed_at: Option<Timestamp>,
    pub cancelled: bool,
    pub cancelled_at: Option<Timestamp>,
    pub archived: bool,
    pub archived_at: Option<Timestamp>,
    pub created_at: Timestamp,
    pub updated_at: Timestamp,
    pub started_at: Option<Timestamp>,
    pub commit_sha: Option<String>,
    pub base_ref: Option<String>,
}

/// The view of an exported task.
pub struct ExportTaskView {
    pub id: TaskId,
    pub parent_id: Option<TaskId>,
    pub description: Seq<char>,
    pub context: Seq<char>,
    pub result: Option<Seq<char>>,
    pub priority: i32,
    pub completed: bool,
    pub completed_at: Option<Timestamp>,
    pub cancelled: bool,
    pub cancelled_at: Option<Timestamp>,
    pub archived: bool,
    pub archived_at: Option<Timestamp>,
    pub created_at: Timestamp,
    pub updated_at: Timestamp,
    pub started_at: Option<Timestamp>,
    pub commit_sha: Option<Seq<char>>,
    pub base_ref: Option<Seq<char>>,
}

impl View for ExportTask {
    type V = ExportTaskView;

    open spec fn view(&self) -> ExportTaskView {
        ExportTaskView {
            id: self.id,
            parent_id: self.parent_id,
            description: self.description@,
            context: self.context@,
            result: text::opt_text(self.result),
            priority: self.priority,
            completed: self.completed,
            completed_at: self.completed_at,
            cancelled: self.cancelled,
            cancelled_at: self.cancelled_at,
            archived: self.archived,
            archived_at: self.archived_at,
            created_at: self.created_at,
            updated_at: self.updated_at,
            started_at: self.started_at,
            commit_sha: text::opt_text(self.commit_sha),
            base_ref: text::opt_text(self.base_ref),
        }
    }
}

/// Everything that is exported.
#[derive(Debug)]
pub struct ExportData {
    pub version: String,
    pub exported_at: String,
    pub tasks: Vec<ExportTask>,
    pub learnings: Vec<Learning>,
    pub blockers: Vec<BlockerRelation>,
}

/// The view of everything that is exported.
#[verifier::ext_equal]
pub struct ExportDataView {
    pub version: Seq<char>,
    pub exported_at: Seq<char>,
    pub tasks: Seq<ExportTaskView>,
    pub learnings: Seq<LearningView>,
    pub blockers: Seq<BlockerRelation>,
}

/// The views of exported tasks.
pub open spec fn export_task_views(s: Seq<ExportTask>) -> Seq<ExportTaskView> {
    s.map_values(|t: ExportTask| t@)
}

impl View for ExportData {
    type V = ExportDataView;

    open spec fn view(&self) -> ExportDataView {
        ExportDataView {
            version: self.version@,
            exported_at: self.exported_at@,
            tasks: export_task_views(self.tasks@),
            learnings: types::learning_views(self.learnings@),
            blockers: self.blockers@,
        }
    }
}

/// What an export came to.
#[derive(Debug)]
pub enum DataResult {
    Exported { path: String, tasks: usize, learnings: usize },
}

/// What is exported of a task.
pub open spec fn exported(r: RowView) -> ExportTaskView {
    ExportTaskView {
        id: r.id,
        parent_id: r.parent_id,
        description: r.description,
        context: r.context,
        result: r.result,
        priority: r.priority,
        completed: r.completed,
        completed_at: r.completed_at,
        cancelled: r.cancelled,
        cancelled_at: r.cancelled_at,
        archived: r.archived,
        archived_at: r.archived_at,
        created_at: r.created_at,
        updated_at: r.updated_at,
        started_at: r.started_at,
        commit_sha: r.commit_sha,
        base_ref: r.base_ref,
    }
}

/// All tasks, archived ones among them, in the order of a listing.
pub open spec fn all_ids(d: Db) -> Seq<TaskId> {
    d.listed(task::any_task())
}

/// The learnings of these tasks, task by task.
pub open spec fn learnings_of_all(d: Db, ids: Seq<TaskId>) -> Seq<LearningView>
    decreases ids.len(),
{
    if ids.len() == 0 {
        Seq::empty()
    } else {
        learnings_of_all(d, ids.drop_last()) + d.learnings_of(ids.last())
    }
}

/// The edges from these tasks to their blockers, task by task.
pub open spec fn blockers_of_all(d: Db, ids: Seq<TaskId>) -> Seq<BlockerRelation>
    decreases ids.len(),
{
    if ids.len() == 0 {
        Seq::empty()
    } else {
        blockers_of_all(d, ids.drop_last()) + model::edges_to(
            ids.last(),
            d.blockers_of(ids.last()),
        )
    }
}

/// Everything that is stored, as it is exported.
pub open spec fn export_of(d: Db, exported_at: Seq<char>) -> ExportDataView {
    ExportDataView {
        version: "1.1.0"@,
        exported_at,
        tasks: all_ids(d).map_values(|x: TaskId| exported(d.row(x))),
        learnings: learnings_of_all(d, all_ids(d)),
        blockers: blockers_of_all(d, all_ids(d)),
    }
}

fn export_task(t: Task) -> (out: ExportTask)
    ensures
        out@ == exported(t@.row),
{
    ExportTask {
        id: t.id,
        parent_id: t.parent_id,
        description: t.description,
        context: t.context,
        result: t.result,
        priority: t.priority,
        completed: t.completed,
        completed_at: t.completed_at,
        cancelled: t.cancelled,
        cancelled_at: t.cancelled_at,
        archived: t.archived,
        archived_at: t.archived_at,
        created_at: t.created_at,
        updated_at: t.updated_at,
        started_at: t.started_at,
        commit_sha: t.commit_sha,
        base_ref: t.base_ref,
    }
}

fn edges_of(svc: &TaskService, id: TaskId) -> (out: Vec<BlockerRelation>)
    ensures
        out@ == model::edges_to(id, svc@.blockers_of(id)),
{
    let blockers: Vec<TaskId> = task_repo::get_blockers(&svc.store, &id);
    let mut out: Vec<BlockerRelation> = Vec::new();
    let mut i: usize = 0;
    while i < blockers.len()
        invariant
            i <= blockers.len(),
            out@ == model::edges_to(id, blockers@.take(i as int)),
        decreases blockers.len() - i,
    {
        out.push(BlockerRelation { task_id: id, blocker_id: blockers[i] });
        assert(blockers@.take(i + 1) =~= blockers@.take(i as int).push(blockers@[i as int]));
        i += 1;
        assert(out@ =~= model::edges_to(id, blockers@.take(i as int)));
    }
    assert(blockers@.take(blockers@.len() as int) =~= blockers@);
    out
}

/// Collects everything that is stored for an export.
pub fn collect(svc: &TaskService, exported_at: &str) -> (out: ExportData)
    requires
        svc@.wf(),
    ensures
        out@ == export_of(svc@, exported_at@),
{
    let ghost d = svc@;
    let filter = ListTasksFilter {
        parent_id: None,
        ready: false,
        completed: None,
        depth: None,
        archived: None,
        repo_path: None,
    };
    let ids: Vec<TaskId> = task_repo::list_ids(&svc.store, &filter);
    assert(filter@ == task::any_task());
    let mut tasks: Vec<ExportTask> = Vec::new();
    let mut learnings: Vec<Learning> = Vec::new();
    let mut blockers: Vec<BlockerRelation> = Vec::new();
    let mut i: usize = 0;
    proof {
        assert(export_task_views(tasks@) =~= ids@.take(0).map_values(
            |x: TaskId| exported(d.row(x)),
        ));
        assert(types::learning_views(learnings@) =~= learnings_of_all(d, ids@.take(0)));
        assert(blockers@ =~= blockers_of_all(d, ids@.take(0)));
    }
    while i < ids.len()
        invariant
            i <= ids.len(),
            d == svc@,
            d.wf(),
            ids@ == all_ids(d),
            export_task_views(tasks@) == ids@.take(i as int).map_values(
                |x: TaskId| exported(d.row(x)),
            ),
            types::learning_views(learnings@) == learnings_of_all(d, ids@.take(i as int)),
            blockers@ == blockers_of_all(d, ids@.take(i as int)),
        decreases ids.len() - i,
    {
        let ghost t0 = tasks@;
        let ghost l0 = learnings@;
        let id: TaskId = ids[i];
        proof {
            assert(ids@.contains(ids@[i as int]));
            model::lemma_listed(d, task::any_task());
            assert(d.has(id));
            assert(ids@.take(i + 1) =~= ids@.take(i as int).push(id));
            assert(ids@.take(i + 1).drop_last() =~= ids@.take(i as int));
        }
        if let Some(t) = task_repo::get_task(&svc.store, &id) {
            let e: ExportTask = export_task(t);
            let ghost v = e@;
            tasks.push(e);
            assert(export_task_views(tasks@) =~= export_task_views(t0).push(v));
        }
        let mut own: Vec<Learning> = learning_repo::list_learnings(&svc.store, &id);
        let ghost own_seq = own@;
        learnings.append(&mut own);
        assert(types::learning_views(learnings@) =~= types::learning_views(l0)
            + types::learning_views(own_seq));
        let mut edges: Vec<BlockerRelation> = edges_of(svc, id);
        blockers.append(&mut edges);
        i += 1;
        assert(export_task_views(tasks@) =~= ids@.take(i as int).map_values(
            |x: TaskId| exported(d.row(x)),
        ));
    }
    assert(ids@.take(ids@.len() as int) =~= ids@);
    ExportData {
        version: text::owned("1.1.0"),
        exported_at: text::owned(exported_at),
        tasks,
        learnings,
        blockers,
    }
}

/// Where an export goes.
pub open spec fn export_path(output: Option<Seq<char>>) -> Seq<char> {
    match output {
        Some(p) => p,
        None => "overseer-export.json"@,
    }
}

/// Prepares an export: what is to be written, and the answer once it is.
pub fn export_data_at(svc: &TaskService, output: Option<String>, exported_at: &str) -> (out: (
    ExportData,
    DataResult,
))
    requires
        svc@.wf(),
    ensures
        out.0@ == export_of(svc@, exported_at@),
        ({
            let DataResult::Exported { path, tasks, learnings } = out.1;
            &&& path@ == export_path(text::opt_text(output))
            &&& tasks == export_of(svc@, exported_at@).tasks.len()
            &&& learnings == export_of(svc@, exported_at@).learnings.len()
        }),
{
    let path: String = match output {
        Some(p) => p,
        None => text::owned("overseer-export.json"),
    };
    let data: ExportData = collect(svc, exported_at);
    proof {
        assert(data@.tasks.len() == data.tasks@.len());
        assert(data@.learnings.len() == data.learnings@.len());
    }
    let tasks: usize = data.tasks.len();
    let learnings: usize = data.learnings.len();
    (data, DataResult::Exported { path, tasks, learnings })
}

/// Prepares an export, now.
pub fn export_data(svc: &TaskService, output: Option<String>) -> (out: (ExportData, DataResult))
    requires
        svc@.wf(),
    ensures
        out.0@ == export_of(svc@, out.0@.exported_at),
        ({
            let DataResult::Exported { path, tasks, learnings } = out.1;
            &&& path@ == export_path(text::opt_text(output))
            &&& tasks == out.0@.tasks.len()
            &&& learnings == out.0@.learnings.len()
        }),
{
    let at: String = time::now_rfc3339();
    export_data_at(svc, output, at.as_str())
}

/// Carries out a command on the data as a whole, now.
pub fn handle(svc: &TaskService, cmd: DataCommand) -> (out: (ExportData, DataResult))
    requires
        svc@.wf(),
    ensures
        out.0@ == export_of(svc@, out.0@.exported_at),
        ({
            let DataResult::Exported { path, tasks, learnings } = out.1;
            let DataCommand::Export { output } = cmd;
            &&& path@ == export_path(text::opt_text(output))
            &&& tasks == out.0@.tasks.len()
            &&& learnings == out.0@.learnings.len()
        }),
{
    match cmd {
        DataCommand::Export { output } => export_data(svc, output),
    }
}

} // verus!
