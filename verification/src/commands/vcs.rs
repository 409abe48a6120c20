//! The commands on the repository.
use vstd::prelude::*;

use crate::id::TaskId;
use crate::model::Db;
use crate::service::task_service::TaskService;
use crate::text;
use crate::vcs::backend::VcsError;

verus! {

/// Why a branch is orphaned.
#[derive(Clone, Copy, PartialEq, Eq, Structural, Debug)]
pub enum OrphanReason {
    TaskNotFound,
    TaskCompleted,
}

/// A branch that no open task needs.
#[derive(Debug)]
pub struct OrphanedBranch {
    pub name: String,
    pub reason: OrphanReason,
}

/// A branch that could not be deleted.
#[derive(Debug)]
pub struct FailedBranch {
    pub name: String,
    pub error: String,
}

/// What a cleanup of branches came to.
#[derive(Debug)]
pub struct CleanupResult {
    pub orphaned: Vec<OrphanedBranch>,
    pub deleted: Vec<String>,
    pub failed: Vec<FailedBranch>,
}

/// The views of orphaned branches: names and reasons.
pub open spec fn orphan_views(s: Seq<OrphanedBranch>) -> Seq<(Seq<char>, OrphanReason)> {
    s.map_values(|b: OrphanedBranch| (b.name@, b.reason))
}

/// The views of branches that could not be deleted: names and errors.
pub open spec fn failed_views(s: Seq<FailedBranch>) -> Seq<(Seq<char>, Seq<char>)> {
    s.map_values(|b: FailedBranch| (b.name@, b.error@))
}

/// The task that a branch was made for: branches of tasks are called `task/` and the identifier.
pub open spec fn branch_task(name: Seq<char>) -> Option<TaskId> {
    if text::has_prefix(name, "task/"@) {
        TaskId::of_text(name.skip(5))
    } else {
        None
    }
}

/// Why a branch is orphaned, where it is: its task is gone, or completed.
pub open spec fn orphaned(d: Db, name: Seq<char>) -> Option<OrphanReason> {
    match branch_task(name) {
        None => None,
        Some(id) => if !d.has(id) {
            Some(OrphanReason::TaskNotFound)
        } else if d.row(id).completed {
            Some(OrphanReason::TaskCompleted)
        } else {
            None
        },
    }
}

/// The orphaned ones of these branches.
pub open spec fn orphans(d: Db, names: Seq<Seq<char>>) -> Seq<(Seq<char>, OrphanReason)>
    decreases names.len(),
{
    if names.len() == 0 {
        Seq::empty()
    } else {
        let rest = orphans(d, names.drop_last());
        match orphaned(d, names.last()) {
            Some(reason) => rest.push((names.last(), reason)),
            None => rest,
        }
    }
}

/// The task that a branch was made for.
fn task_of_branch(name: &str) -> (out: Option<TaskId>)
    ensures
        out == branch_task(name@),
{
    if !text::starts_with(name, "task/") {
        return None;
    }
    proof {
        reveal_strlit("task/");
    }
    TaskId::parse(text::after(name, 5).as_str())
}

/// The orphaned ones of these branches.
pub fn find_orphans(svc: &TaskService, names: &Vec<String>) -> (out: Vec<OrphanedBranch>)
    requires
        svc@.wf(),
    ensures
        orphan_views(out@) == orphans(svc@, text::texts(names@)),
{
    let ghost d = svc@;
    let ghost all = text::texts(names@);
    let mut out: Vec<OrphanedBranch> = Vec::new();
    let mut i: usize = 0;
    assert(orphan_views(out@) =~= orphans(d, all.take(0)));
    while i < names.len()
        invariant
            i <= names.len(),
            d == svc@,
            d.wf(),
            all == text::texts(names@),
            orphan_views(out@) == orphans(d, all.take(i as int)),
        decreases names.len() - i,
    {
        let ghost before = out@;
        proof {
            assert(all.take(i + 1).drop_last() =~= all.take(i as int));
            assert(all.take(i + 1).last() == names@[i as int]@);
        }
        let reason: Option<OrphanReason> = match task_of_branch(names[i].as_str()) {
            None => None,
            Some(id) => match svc.store.find(id) {
                None => Some(OrphanReason::TaskNotFound),
                Some(k) => if svc.store.tasks[k].completed {
                    Some(OrphanReason::TaskCompleted)
                } else {
                    None
                },
            },
        };
        if let Some(reason) = reason {
            let branch = OrphanedBranch { name: names[i].clone(), reason };
            let ghost v = (branch.name@, branch.reason);
            out.push(branch);
            assert(orphan_views(out@) =~= orphan_views(before).push(v));
        }
        i += 1;
    }
    assert(all.take(all.len() as int) =~= all);
    out
}

/// The branches that were deleted, by what came of each deletion.
pub open spec fn deleted_of(
    orphaned: Seq<(Seq<char>, OrphanReason)>,
    outcomes: Seq<Result<(), VcsError>>,
) -> Seq<Seq<char>>
    decreases outcomes.len(),
{
    if outcomes.len() == 0 {
        Seq::empty()
    } else {
        let rest = deleted_of(orphaned, outcomes.drop_last());
        if outcomes.last() is Ok {
            rest.push(orphaned[outcomes.len() - 1].0)
        } else {
            rest
        }
    }
}

/// The branches that could not be deleted, with the errors.
pub open spec fn failed_of(
    orphaned: Seq<(Seq<char>, OrphanReason)>,
    outcomes: Seq<Result<(), VcsError>>,
) -> Seq<(Seq<char>, Seq<char>)>
    decreases outcomes.len(),
{
    if outcomes.len() == 0 {
        Seq::empty()
    } else {
        let rest = failed_of(orphaned, outcomes.drop_last());
        match outcomes.last() {
            Ok(_) => rest,
            Err(e) => rest.push((orphaned[outcomes.len() - 1].0, e@.message())),
        }
    }
}

/// Sums a cleanup up. Where branches were to be deleted, `outcomes` says what came of each; else
/// there are none and the cleanup only reports.
pub fn cleanup_result(orphaned: Vec<OrphanedBranch>, outcomes: &Vec<Result<(), VcsError>>) -> (out:
    CleanupResult)
    requires
        outcomes.len() <= orphaned.len(),
    ensures
        out.orphaned == orphaned,
        text::texts(out.deleted@) == deleted_of(orphan_views(orphaned@), outcomes@),
        failed_views(out.failed@) == failed_of(orphan_views(orphaned@), outcomes@),
{
    let ghost views = orphan_views(orphaned@);
    let mut deleted: Vec<String> = Vec::new();
    let mut failed: Vec<FailedBranch> = Vec::new();
    let mut i: usize = 0;
    proof {
        assert(text::texts(deleted@) =~= deleted_of(views, outcomes@.take(0)));
        assert(failed_views(failed@) =~= failed_of(views, outcomes@.take(0)));
    }
    while i < outcomes.len()
        invariant
            i <= outcomes.len() <= orphaned.len(),
            views == orphan_views(orphaned@),
            text::texts(deleted@) == deleted_of(views, outcomes@.take(i as int)),
            failed_views(failed@) == failed_of(views, outcomes@.take(i as int)),
        decreases outcomes.len() - i,
    {
        let ghost d0 = deleted@;
        let ghost f0 = failed@;
        proof {
            assert(outcomes@.take(i + 1).drop_last() =~= outcomes@.take(i as int));
            assert(views[i as int].0 == orphaned@[i as int].name@);
        }
        match &outcomes[i] {
            Ok(_) => {
                deleted.push(orphaned[i].name.clone());
                assert(text::texts(deleted@) =~= text::texts(d0).push(views[i as int].0));
            },
            Err(e) => {
                let f = FailedBranch { name: orphaned[i].name.clone(), error: e.message() };
                let ghost v = (f.name@, f.error@);
                failed.push(f);
                assert(failed_views(failed@) =~= failed_views(f0).push(v));
            },
        }
        i += 1;
    }
    assert(outcomes@.take(outcomes@.len() as int) =~= outcomes@);
    CleanupResult { orphaned, deleted, failed }
}

} // verus!
