//! The commands on learnings.
use vstd::prelude::*;

use crate::commands::args::LearningCommand;
use crate::db::learning_repo;
use crate::error;
use crate::error::{Fault, OsError};
use crate::id::LearningId;
use crate::model::Db;
use crate::service::task_service::TaskService;
use crate::time::Timestamp;
use crate::types;
use crate::types::{Learning, LearningView};

verus! {

/// What a command on learnings gives.
#[derive(Debug)]
pub enum LearningResult {
    One(Learning),
    Many(Vec<Learning>),
    Deleted,
}

/// The view of what a command on learnings gives.
#[verifier::ext_equal]
pub enum LearningResultView {
    One(LearningView),
    Many(Seq<LearningView>),
    Deleted,
}

impl View for LearningResult {
    type V = LearningResultView;

    open spec fn view(&self) -> LearningResultView {
        match self {
            LearningResult::One(l) => LearningResultView::One(l@),
            LearningResult::Many(ls) => LearningResultView::Many(types::learning_views(ls@)),
            LearningResult::Deleted => LearningResultView::Deleted,
        }
    }
}

/// What a command on learnings does: from the stored state to the new state and the answer.
pub open spec fn handled(d: Db, cmd: LearningCommand, id: LearningId, now: Timestamp) -> (
    Db,
    Result<LearningResultView, Fault>,
) {
    match cmd {
        LearningCommand::Add(args) => {
            let l = learning_repo::note(args.task_id, args.content@, args.source, id, now);
            let r = learning_repo::record(d, l);
            (
                r.0,
                match r.1 {
                    Ok(l) => Ok(LearningResultView::One(l)),
                    Err(f) => Err(f),
                },
            )
        },
        LearningCommand::List { task_id } => (
            d,
            Ok(LearningResultView::Many(d.learnings_of(task_id))),
        ),
        LearningCommand::Delete { id } => {
            let r = learning_repo::forget(d, id);
            (
                r.0,
                match r.1 {
                    Ok(_) => Ok(LearningResultView::Deleted),
                    Err(f) => Err(f),
                },
            )
        },
    }
}

/// Carries out a command on learnings. A new learning gets the given identifier.
pub fn handle_at(svc: &mut TaskService, cmd: LearningCommand, id: LearningId, now: Timestamp) -> (out:
    Result<LearningResult, OsError>)
    requires
        old(svc)@.wf(),
    ensures
        final(svc)@.wf(),
        (final(svc)@, error::outcome(out)) == handled(old(svc)@, cmd, id, now),
{
    match cmd {
        LearningCommand::Add(args) => {
            match learning_repo::add_learning_at(
                &mut svc.store,
                &args.task_id,
                args.content.as_str(),
                args.source.as_ref(),
                id,
                now,
            ) {
                Ok(l) => Ok(LearningResult::One(l)),
                Err(e) => Err(e),
            }
        },
        LearningCommand::List { task_id } => Ok(
            LearningResult::Many(learning_repo::list_learnings(&svc.store, &task_id)),
        ),
        LearningCommand::Delete { id } => match learning_repo::delete_learning(
            &mut svc.store,
            &id,
        ) {
            Ok(_) => Ok(LearningResult::Deleted),
            Err(e) => Err(e),
        },
    }
}

/// Carries out a command on learnings, now. A new learning gets a new identifier.
pub fn handle(svc: &mut TaskService, cmd: LearningCommand) -> (out: Result<LearningResult, OsError>)
    requires
        old(svc)@.wf(),
    ensures
        final(svc)@.wf(),
        exists|id: LearningId, now: Timestamp|
            (final(svc)@, error::outcome(out)) == #[trigger] handled(old(svc)@, cmd, id, now),
{
    let id: LearningId = LearningId::new();
    let now: Timestamp = crate::time::now();
    handle_at(svc, cmd, id, now)
}

} // verus!
