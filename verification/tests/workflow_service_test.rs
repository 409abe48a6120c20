//! Starting and completing tasks, with a repository that is played.
use overseer::db::learning_repo;
use overseer::db::store::Store;
use overseer::db::task_repo;
use overseer::error::{NotReadyReason, OsError};
use overseer::id::TaskId;
use overseer::service::task_service::TaskService;
use overseer::service::workflow_service::{Next, Step, TaskWorkflowService, VcsAction, VcsReply};
use overseer::time::Timestamp;
use overseer::types::{CreateTaskInput, Task};
use overseer::vcs::backend::{VcsError, VcsType};

const NOW: Timestamp = Timestamp { secs: 1_700_000_000, nanos: 0 };

fn setup() -> TaskService {
    TaskService::new(Store::new())
}

enum BranchMode {
    Named(String),
    DetachedHead,
    Unborn,
}

/// A repository that answers as it is told.
struct MockVcsBackend {
    branch_mode: BranchMode,
    merge_result: bool,
}

impl MockVcsBackend {
    fn reply(&self, action: &VcsAction) -> VcsReply {
        match action {
            VcsAction::CurrentBranchName => VcsReply::Branch(match &self.branch_mode {
                BranchMode::Named(name) => Ok(Some(name.clone())),
                BranchMode::DetachedHead => Err(VcsError::DetachedHead),
                BranchMode::Unborn => Err(VcsError::UnbornRepository),
            }),
            VcsAction::CurrentCommitId => VcsReply::Id(Ok("mock-commit-id".to_string())),
            VcsAction::WorkingCommitId => VcsReply::MaybeId(None),
            VcsAction::MergeFastForward { .. } => VcsReply::Merged(Ok(self.merge_result)),
            _ => VcsReply::Done(Ok(())),
        }
    }
}

fn mock_vcs() -> MockVcsBackend {
    MockVcsBackend {
        branch_mode: BranchMode::Named("main".to_string()),
        merge_result: true,
    }
}

/// The workflow with the played repository.
struct Workflow {
    inner: TaskWorkflowService,
    vcs: MockVcsBackend,
}

impl Workflow {
    fn new(task_service: TaskService, vcs: MockVcsBackend) -> Self {
        Workflow { inner: TaskWorkflowService::new(task_service, VcsType::Git), vcs }
    }

    fn task_service(&mut self) -> &mut TaskService {
        &mut self.inner.task_service
    }

    fn run(&mut self, first: Step) -> Result<Task, OsError> {
        let mut step = first;
        loop {
            match step.next {
                Next::Over(result) => return result,
                Next::Do { action, run } => {
                    let reply = self.vcs.reply(&action);
                    step = self.inner.resume(run, reply);
                }
            }
        }
    }

    fn start(&mut self, id: &TaskId) -> Result<Task, OsError> {
        let step = self.inner.start(id);
        self.run(step)
    }

    fn start_follow_blockers(&mut self, id: &TaskId) -> Result<Task, OsError> {
        let step = self.inner.start_follow_blockers(id);
        self.run(step)
    }

    fn complete(&mut self, id: &TaskId, result: Option<&str>) -> Result<Task, OsError> {
        let step = self.inner.complete(id, result);
        self.run(step)
    }

    fn complete_with_learnings(
        &mut self,
        id: &TaskId,
        result: Option<&str>,
        learnings: &[String],
    ) -> Result<Task, OsError> {
        let step = self.inner.complete_with_learnings(id, result, &learnings.to_vec());
        self.run(step)
    }
}

#[test]
fn test_start_records_vcs_state() {
    let mut service = Workflow::new(setup(), mock_vcs());

    let task = service
        .task_service()
        .create(&CreateTaskInput {
            description: "Test task".to_string(),
            context: None,
            parent_id: None,
            priority: None,
            blocked_by: vec![],
            ..Default::default()
        })
        .unwrap();

    let started = service.start(&task.id).unwrap();
    assert!(started.started_at.is_some());
    assert!(started.bookmark.is_some());
    assert!(started.start_commit.is_some());
    assert_eq!(started.base_ref.as_deref(), Some("main"));
}

#[test]
fn test_start_fails_on_detached_head() {
    let mut service = Workflow::new(setup(), MockVcsBackend {
            branch_mode: BranchMode::DetachedHead,
            merge_result: true,
        });

    let task = service
        .task_service()
        .create(&CreateTaskInput {
            description: "Test task".to_string(),
            context: None,
            parent_id: None,
            priority: None,
            blocked_by: vec![],
            ..Default::default()
        })
        .unwrap();

    let result = service.start(&task.id);
    assert!(matches!(result, Err(OsError::CannotStartDetachedHead)));
}

#[test]
fn test_start_fails_on_unborn_repo() {
    let mut service = Workflow::new(setup(), MockVcsBackend {
            branch_mode: BranchMode::Unborn,
            merge_result: true,
        });

    let task = service
        .task_service()
        .create(&CreateTaskInput {
            description: "Test task".to_string(),
            context: None,
            parent_id: None,
            priority: None,
            blocked_by: vec![],
            ..Default::default()
        })
        .unwrap();

    let result = service.start(&task.id);
    assert!(matches!(result, Err(OsError::CannotStartUnbornRepository)));
}

#[test]
fn test_complete_returns_missing_base_ref_when_started_task_has_none() {
    let mut task_service = setup();

    let task = task_service
        .create(&CreateTaskInput {
            description: "Test task".to_string(),
            context: None,
            parent_id: None,
            priority: None,
            blocked_by: vec![],
            ..Default::default()
        })
        .unwrap();

    task_service.start(&task.id).unwrap();
    task_repo::set_bookmark(&mut task_service.store, &task.id, &format!("task/{}", task.id.to_text()), NOW);
    task_repo::set_start_commit(&mut task_service.store, &task.id, "mock-commit-id", NOW);

    let mut service = Workflow::new(task_service, mock_vcs());
    let result = service.complete_with_learnings(&task.id, None, &[]);
    assert!(matches!(
        result,
        Err(OsError::MissingBaseRef { task_id }) if task_id == task.id
    ));
}

#[test]
fn test_complete_returns_integration_required_on_ff_failure() {
    let mut task_service = setup();

    let task = task_service
        .create(&CreateTaskInput {
            description: "Test task".to_string(),
            context: None,
            parent_id: None,
            priority: None,
            blocked_by: vec![],
            ..Default::default()
        })
        .unwrap();

    task_service.start(&task.id).unwrap();
    let bookmark = format!("task/{}", task.id.to_text());
    task_repo::set_bookmark(&mut task_service.store, &task.id, &bookmark, NOW);
    task_repo::set_start_commit(&mut task_service.store, &task.id, "mock-commit-id", NOW);
    task_repo::set_base_ref(&mut task_service.store, &task.id, "main", NOW);

    let mut service = Workflow::new(task_service, MockVcsBackend {
            branch_mode: BranchMode::Named("main".to_string()),
            merge_result: false,
        });

    let result = service.complete_with_learnings(&task.id, None, &[]);
    assert!(matches!(
        result,
        Err(OsError::TaskIntegrationRequired { task_id, source_ref, base_ref })
            if task_id == task.id && source_ref == bookmark && base_ref == "main"
    ));

    let task_after = service.task_service().get(&task.id).unwrap();
    assert!(!task_after.completed);
}

#[test]
fn test_start_backfills_base_ref_for_legacy_started_task() {
    let mut task_service = setup();

    let task = task_service
        .create(&CreateTaskInput {
            description: "Test task".to_string(),
            context: None,
            parent_id: None,
            priority: None,
            blocked_by: vec![],
            ..Default::default()
        })
        .unwrap();

    task_service.start(&task.id).unwrap();
    let bookmark = format!("task/{}", task.id.to_text());
    task_repo::set_bookmark(&mut task_service.store, &task.id, &bookmark, NOW);
    task_repo::set_start_commit(&mut task_service.store, &task.id, "mock-commit-id", NOW);

    let mut service = Workflow::new(task_service, MockVcsBackend {
            branch_mode: BranchMode::Named("feature/base".to_string()),
            merge_result: true,
        });

    let started = service.start(&task.id).unwrap();
    assert_eq!(started.base_ref.as_deref(), Some("feature/base"));
}

#[test]
fn test_start_fails_for_legacy_started_task_on_task_branch() {
    let mut task_service = setup();

    let task = task_service
        .create(&CreateTaskInput {
            description: "Test task".to_string(),
            context: None,
            parent_id: None,
            priority: None,
            blocked_by: vec![],
            ..Default::default()
        })
        .unwrap();

    task_service.start(&task.id).unwrap();
    let bookmark = format!("task/{}", task.id.to_text());
    task_repo::set_bookmark(&mut task_service.store, &task.id, &bookmark, NOW);
    task_repo::set_start_commit(&mut task_service.store, &task.id, "mock-commit-id", NOW);

    let mut service = Workflow::new(task_service, MockVcsBackend {
            branch_mode: BranchMode::Named(bookmark.clone()),
            merge_result: true,
        });

    let result = service.start(&task.id);
    assert!(matches!(
        result,
        Err(OsError::MissingBaseRef { task_id }) if task_id == task.id
    ));
}

#[test]
fn test_complete_updates_state() {
    let mut service = Workflow::new(setup(), mock_vcs());

    let task = service
        .task_service()
        .create(&CreateTaskInput {
            description: "Test task".to_string(),
            context: None,
            parent_id: None,
            priority: None,
            blocked_by: vec![],
            ..Default::default()
        })
        .unwrap();

    let completed = service.complete(&task.id, Some("Done")).unwrap();
    assert!(completed.completed);
    assert_eq!(completed.result, Some("Done".to_string()));
}

#[test]
fn test_start_cascades_to_deepest_leaf() {
    let mut service = Workflow::new(setup(), mock_vcs());

    // Create: milestone -> task -> subtask
    let milestone = service.task_service().create(&CreateTaskInput {
            description: "Milestone".to_string(),
            context: None,
            parent_id: None,
            priority: Some(0),
            blocked_by: vec![],
            ..Default::default()
        })
        .unwrap();

    let task = service.task_service().create(&CreateTaskInput {
            description: "Task".to_string(),
            context: None,
            parent_id: Some(milestone.id),
            priority: Some(0),
            blocked_by: vec![],
            ..Default::default()
        })
        .unwrap();

    let subtask = service.task_service().create(&CreateTaskInput {
            description: "Subtask".to_string(),
            context: None,
            parent_id: Some(task.id),
            priority: Some(0),
            blocked_by: vec![],
            ..Default::default()
        })
        .unwrap();

    // Starting milestone should cascade to subtask
    let started = service.start_follow_blockers(&milestone.id).unwrap();
    assert_eq!(started.id, subtask.id);
    assert!(started.started_at.is_some());
}

#[test]
fn test_start_follows_blockers_to_startable() {
    let mut service = Workflow::new(setup(), mock_vcs());

    // Create: blocker_task, blocked_milestone -> task
    let blocker_task = service.task_service().create(&CreateTaskInput {
            description: "Blocker task".to_string(),
            context: None,
            parent_id: None,
            priority: Some(0),
            blocked_by: vec![],
            ..Default::default()
        })
        .unwrap();

    let blocked_milestone = service.task_service().create(&CreateTaskInput {
            description: "Blocked milestone".to_string(),
            context: None,
            parent_id: None,
            priority: Some(0),
            blocked_by: vec![blocker_task.id],
            ..Default::default()
        })
        .unwrap();

    let _task = service.task_service().create(&CreateTaskInput {
            description: "Task under blocked milestone".to_string(),
            context: None,
            parent_id: Some(blocked_milestone.id),
            priority: Some(0),
            blocked_by: vec![],
            ..Default::default()
        })
        .unwrap();

    // Starting blocked_milestone should follow blocker and start blocker_task
    let started = service
        .start_follow_blockers(&blocked_milestone.id)
        .unwrap();
    assert_eq!(started.id, blocker_task.id);
    assert!(started.started_at.is_some());
}

#[test]
fn test_complete_bubbles_up_to_parent() {
    let mut service = Workflow::new(setup(), mock_vcs());

    // Create: milestone -> task -> subtask1, subtask2
    let milestone = service.task_service().create(&CreateTaskInput {
            description: "Milestone".to_string(),
            context: None,
            parent_id: None,
            priority: Some(0),
            blocked_by: vec![],
            ..Default::default()
        })
        .unwrap();

    let task = service.task_service().create(&CreateTaskInput {
            description: "Task".to_string(),
            context: None,
            parent_id: Some(milestone.id),
            priority: Some(0),
            blocked_by: vec![],
            ..Default::default()
        })
        .unwrap();

    let subtask1 = service.task_service().create(&CreateTaskInput {
            description: "Subtask 1".to_string(),
            context: None,
            parent_id: Some(task.id),
            priority: Some(0),
            blocked_by: vec![],
            ..Default::default()
        })
        .unwrap();

    let subtask2 = service.task_service().create(&CreateTaskInput {
            description: "Subtask 2".to_string(),
            context: None,
            parent_id: Some(task.id),
            priority: Some(0),
            blocked_by: vec![],
            ..Default::default()
        })
        .unwrap();

    // Complete first subtask - task should NOT be auto-completed
    service.complete(&subtask1.id, None).unwrap();
    let task_after = service.task_service().get(&task.id).unwrap();
    assert!(!task_after.completed);

    // Complete second subtask - task SHOULD be auto-completed
    service.complete(&subtask2.id, None).unwrap();
    let task_after = service.task_service().get(&task.id).unwrap();
    assert!(task_after.completed);
}

#[test]
fn test_complete_bubbles_up_to_milestone() {
    let mut service = Workflow::new(setup(), mock_vcs());

    // Create: milestone -> task (single task, no siblings)
    let milestone = service.task_service().create(&CreateTaskInput {
            description: "Milestone".to_string(),
            context: None,
            parent_id: None,
            priority: Some(0),
            blocked_by: vec![],
            ..Default::default()
        })
        .unwrap();

    let task = service.task_service().create(&CreateTaskInput {
            description: "Task".to_string(),
            context: None,
            parent_id: Some(milestone.id),
            priority: Some(0),
            blocked_by: vec![],
            ..Default::default()
        })
        .unwrap();

    // Complete task - milestone should auto-complete
    service.complete(&task.id, None).unwrap();

    let milestone_after = service.task_service().get(&milestone.id).unwrap();
    assert!(milestone_after.completed);
}

#[test]
fn test_complete_stops_at_blocked_parent() {
    let mut service = Workflow::new(setup(), mock_vcs());

    // Create: blocker, milestone (blocked by blocker) -> task
    let blocker = service.task_service().create(&CreateTaskInput {
            description: "Blocker".to_string(),
            context: None,
            parent_id: None,
            priority: Some(0),
            blocked_by: vec![],
            ..Default::default()
        })
        .unwrap();

    let milestone = service.task_service().create(&CreateTaskInput {
            description: "Blocked milestone".to_string(),
            context: None,
            parent_id: None,
            priority: Some(0),
            blocked_by: vec![blocker.id],
            ..Default::default()
        })
        .unwrap();

    let task = service.task_service().create(&CreateTaskInput {
            description: "Task".to_string(),
            context: None,
            parent_id: Some(milestone.id),
            priority: Some(0),
            blocked_by: vec![],
            ..Default::default()
        })
        .unwrap();

    // Complete task - milestone should NOT auto-complete (it's blocked)
    service.complete(&task.id, None).unwrap();

    let milestone_after = service.task_service().get(&milestone.id).unwrap();
    assert!(!milestone_after.completed);
}

#[test]
fn test_complete_stops_at_pending_siblings() {
    let mut service = Workflow::new(setup(), mock_vcs());

    // Create: milestone -> task1, task2
    let milestone = service.task_service().create(&CreateTaskInput {
            description: "Milestone".to_string(),
            context: None,
            parent_id: None,
            priority: Some(0),
            blocked_by: vec![],
            ..Default::default()
        })
        .unwrap();

    let task1 = service.task_service().create(&CreateTaskInput {
            description: "Task 1".to_string(),
            context: None,
            parent_id: Some(milestone.id),
            priority: Some(0),
            blocked_by: vec![],
            ..Default::default()
        })
        .unwrap();

    let _task2 = service.task_service().create(&CreateTaskInput {
            description: "Task 2".to_string(),
            context: None,
            parent_id: Some(milestone.id),
            priority: Some(0),
            blocked_by: vec![],
            ..Default::default()
        })
        .unwrap();

    // Complete task1 - milestone should NOT auto-complete (task2 still pending)
    service.complete(&task1.id, None).unwrap();

    let milestone_after = service.task_service().get(&milestone.id).unwrap();
    assert!(!milestone_after.completed);
}

#[test]
fn test_complete_with_learnings_bubbles_to_parent() {
    let mut service = Workflow::new(setup(), mock_vcs());

    // Create: milestone -> task -> subtask1, subtask2 (sibling prevents auto-complete)
    let milestone = service.task_service().create(&CreateTaskInput {
            description: "Milestone".to_string(),
            context: None,
            parent_id: None,
            priority: Some(0),
            blocked_by: vec![],
            ..Default::default()
        })
        .unwrap();

    let task = service.task_service().create(&CreateTaskInput {
            description: "Task".to_string(),
            context: None,
            parent_id: Some(milestone.id),
            priority: Some(0),
            blocked_by: vec![],
            ..Default::default()
        })
        .unwrap();

    let subtask1 = service.task_service().create(&CreateTaskInput {
            description: "Subtask 1".to_string(),
            context: None,
            parent_id: Some(task.id),
            priority: Some(0),
            blocked_by: vec![],
            ..Default::default()
        })
        .unwrap();

    // Second subtask prevents task from auto-completing
    let _subtask2 = service.task_service().create(&CreateTaskInput {
            description: "Subtask 2".to_string(),
            context: None,
            parent_id: Some(task.id),
            priority: Some(0),
            blocked_by: vec![],
            ..Default::default()
        })
        .unwrap();

    // Complete subtask1 with learnings
    service
        .complete_with_learnings(
            &subtask1.id,
            Some("done"),
            &["Learning 1".to_string(), "Learning 2".to_string()],
        )
        .unwrap();

    // Learnings should be on subtask1
    let subtask_learnings =
        learning_repo::list_learnings(&service.task_service().store, &subtask1.id);
    assert_eq!(subtask_learnings.len(), 2);
    assert_eq!(subtask_learnings[0].content, "Learning 1");
    assert_eq!(subtask_learnings[1].content, "Learning 2");
    // Origin should be subtask1 itself
    assert_eq!(
        subtask_learnings[0].source_task_id,
        Some(subtask1.id)
    );

    // Learnings should have bubbled to task (parent)
    let task_learnings = learning_repo::list_learnings(&service.task_service().store, &task.id);
    assert_eq!(task_learnings.len(), 2);
    assert_eq!(task_learnings[0].content, "Learning 1");
    // Origin preserved through bubble
    assert_eq!(task_learnings[0].source_task_id, Some(subtask1.id));

    // Task should NOT be auto-completed (subtask2 still pending)
    let task_after = service.task_service().get(&task.id).unwrap();
    assert!(!task_after.completed);

    // Learnings should NOT be on milestone yet (task not completed)
    let milestone_learnings =
        learning_repo::list_learnings(&service.task_service().store, &milestone.id);
    assert_eq!(milestone_learnings.len(), 0);
}

#[test]
fn test_learnings_bubble_transitively_on_parent_complete() {
    let mut service = Workflow::new(setup(), mock_vcs());

    // Create: milestone -> task -> subtask
    let milestone = service.task_service().create(&CreateTaskInput {
            description: "Milestone".to_string(),
            context: None,
            parent_id: None,
            priority: Some(0),
            blocked_by: vec![],
            ..Default::default()
        })
        .unwrap();

    let task = service.task_service().create(&CreateTaskInput {
            description: "Task".to_string(),
            context: None,
            parent_id: Some(milestone.id),
            priority: Some(0),
            blocked_by: vec![],
            ..Default::default()
        })
        .unwrap();

    let subtask = service.task_service().create(&CreateTaskInput {
            description: "Subtask".to_string(),
            context: None,
            parent_id: Some(task.id),
            priority: Some(0),
            blocked_by: vec![],
            ..Default::default()
        })
        .unwrap();

    // Complete subtask with learning
    service
        .complete_with_learnings(&subtask.id, None, &["From subtask".to_string()])
        .unwrap();

    // Task auto-completes (only child done), which bubbles learnings to milestone
    let task_after = service.task_service().get(&task.id).unwrap();
    assert!(task_after.completed);

    // Now milestone should have the learning (bubbled from task which had it from subtask)
    let milestone_learnings =
        learning_repo::list_learnings(&service.task_service().store, &milestone.id);
    assert_eq!(milestone_learnings.len(), 1);
    assert_eq!(milestone_learnings[0].content, "From subtask");
    // Origin preserved: still points to subtask
    assert_eq!(
        milestone_learnings[0].source_task_id,
        Some(subtask.id)
    );
}

#[test]
fn test_sibling_sees_learnings_via_parent() {
    let mut service = Workflow::new(setup(), mock_vcs());

    // Create: milestone -> task_a (with subtasks), task_b (with subtasks)
    let milestone = service.task_service().create(&CreateTaskInput {
            description: "Milestone".to_string(),
            context: None,
            parent_id: None,
            priority: Some(0),
            blocked_by: vec![],
            ..Default::default()
        })
        .unwrap();

    let task_a = service.task_service().create(&CreateTaskInput {
            description: "Task A".to_string(),
            context: None,
            parent_id: Some(milestone.id),
            priority: Some(0),
            blocked_by: vec![],
            ..Default::default()
        })
        .unwrap();

    let subtask_a1 = service.task_service().create(&CreateTaskInput {
            description: "Subtask A1".to_string(),
            context: None,
            parent_id: Some(task_a.id),
            priority: Some(0),
            blocked_by: vec![],
            ..Default::default()
        })
        .unwrap();

    let subtask_a2 = service.task_service().create(&CreateTaskInput {
            description: "Subtask A2".to_string(),
            context: None,
            parent_id: Some(task_a.id),
            priority: Some(0),
            blocked_by: vec![],
            ..Default::default()
        })
        .unwrap();

    // Complete A1 with learning
    service
        .complete_with_learnings(&subtask_a1.id, None, &["A1 discovery".to_string()])
        .unwrap();

    // A2 should see A1's learning via parent (task_a)
    let task_a_learnings = learning_repo::list_learnings(&service.task_service().store, &task_a.id);
    assert_eq!(task_a_learnings.len(), 1);
    assert_eq!(task_a_learnings[0].content, "A1 discovery");

    // Start A2 and get its inherited learnings
    let a2_with_context = service.task_service().get(&subtask_a2.id).unwrap();
    // InheritedLearnings.parent should contain A1's learning
    assert!(a2_with_context.learnings.is_some());
    let inherited = a2_with_context.learnings.unwrap();
    assert_eq!(inherited.parent.len(), 1);
    assert_eq!(inherited.parent[0].content, "A1 discovery");
}

#[test]
fn test_learnings_idempotent_on_retry() {
    let mut service = Workflow::new(setup(), mock_vcs());

    let milestone = service.task_service().create(&CreateTaskInput {
            description: "Milestone".to_string(),
            context: None,
            parent_id: None,
            priority: Some(0),
            blocked_by: vec![],
            ..Default::default()
        })
        .unwrap();

    let task = service.task_service().create(&CreateTaskInput {
            description: "Task".to_string(),
            context: None,
            parent_id: Some(milestone.id),
            priority: Some(0),
            blocked_by: vec![],
            ..Default::default()
        })
        .unwrap();

    // Complete with learning
    service
        .complete_with_learnings(&task.id, None, &["Important note".to_string()])
        .unwrap();

    // Try to complete again (idempotent) - should not duplicate learnings
    service
        .complete_with_learnings(&task.id, None, &["Important note".to_string()])
        .unwrap();

    // Should still only have 1 learning on milestone (not duplicated)
    let milestone_learnings =
        learning_repo::list_learnings(&service.task_service().store, &milestone.id);
    assert_eq!(milestone_learnings.len(), 1);
}

#[test]
fn test_start_rejects_parent_with_incomplete_children() {
    let mut service = Workflow::new(setup(), mock_vcs());

    // Create: milestone -> task -> subtask
    let milestone = service.task_service().create(&CreateTaskInput {
            description: "Milestone".to_string(),
            context: None,
            parent_id: None,
            priority: Some(0),
            blocked_by: vec![],
            ..Default::default()
        })
        .unwrap();

    let task = service.task_service().create(&CreateTaskInput {
            description: "Task".to_string(),
            context: None,
            parent_id: Some(milestone.id),
            priority: Some(0),
            blocked_by: vec![],
            ..Default::default()
        })
        .unwrap();

    let subtask = service.task_service().create(&CreateTaskInput {
            description: "Subtask".to_string(),
            context: None,
            parent_id: Some(task.id),
            priority: Some(0),
            blocked_by: vec![],
            ..Default::default()
        })
        .unwrap();

    // Starting milestone directly should fail
    let result = service.start(&milestone.id);
    assert!(result.is_err());
    let err = result.unwrap_err();
    match err {
        OsError::NotNextReady {
            requested,
            next_ready,
            ..
        } => {
            assert_eq!(requested, milestone.id);
            assert_eq!(next_ready, Some(subtask.id));
        }
        _ => panic!("Expected NotNextReady error, got {:?}", err),
    }

    // Starting task directly should also fail (has subtask)
    let result = service.start(&task.id);
    assert!(result.is_err());
    let err = result.unwrap_err();
    match err {
        OsError::NotNextReady {
            requested,
            next_ready,
            ..
        } => {
            assert_eq!(requested, task.id);
            assert_eq!(next_ready, Some(subtask.id));
        }
        _ => panic!("Expected NotNextReady error, got {:?}", err),
    }

    // Starting subtask should succeed
    let result = service.start(&subtask.id);
    assert!(result.is_ok());
}

#[test]
fn test_start_rejects_blocked_task() {
    let mut service = Workflow::new(setup(), mock_vcs());

    // Create: blocker, blocked_task (blocked by blocker)
    let blocker = service.task_service().create(&CreateTaskInput {
            description: "Blocker".to_string(),
            context: None,
            parent_id: None,
            priority: Some(0),
            blocked_by: vec![],
            ..Default::default()
        })
        .unwrap();

    let blocked_task = service.task_service().create(&CreateTaskInput {
            description: "Blocked task".to_string(),
            context: None,
            parent_id: None,
            priority: Some(0),
            blocked_by: vec![blocker.id],
            ..Default::default()
        })
        .unwrap();

    // Starting blocked_task should fail with blocked error
    let result = service.start(&blocked_task.id);
    assert!(result.is_err());
    let err = result.unwrap_err();
    match err {
        OsError::NotNextReady { reason, .. } => {
            assert!(matches!(reason, NotReadyReason::Blocked { .. }));
        }
        _ => panic!(
            "Expected NotNextReady error with Blocked reason, got {:?}",
            err
        ),
    }
}

#[test]
fn test_start_bubbles_started_at_to_ancestors() {
    let mut service = Workflow::new(setup(), mock_vcs());

    // Create: milestone -> task -> subtask
    let milestone = service.task_service().create(&CreateTaskInput {
            description: "Milestone".to_string(),
            context: None,
            parent_id: None,
            priority: Some(0),
            blocked_by: vec![],
            ..Default::default()
        })
        .unwrap();

    let task = service.task_service().create(&CreateTaskInput {
            description: "Task".to_string(),
            context: None,
            parent_id: Some(milestone.id),
            priority: Some(0),
            blocked_by: vec![],
            ..Default::default()
        })
        .unwrap();

    let subtask = service.task_service().create(&CreateTaskInput {
            description: "Subtask".to_string(),
            context: None,
            parent_id: Some(task.id),
            priority: Some(0),
            blocked_by: vec![],
            ..Default::default()
        })
        .unwrap();

    // Verify ancestors have no started_at initially
    assert!(service.task_service().get(&milestone.id).unwrap().started_at.is_none());
    assert!(service.task_service().get(&task.id).unwrap().started_at.is_none());
    assert!(service.task_service().get(&subtask.id).unwrap().started_at.is_none());

    // Start the subtask
    let started = service.start(&subtask.id).unwrap();
    assert!(started.started_at.is_some());
    assert!(started.bookmark.is_some()); // VCS state only on leaf

    // Ancestors should now have started_at but NOT VCS state
    let task_after = service.task_service().get(&task.id).unwrap();
    assert!(task_after.started_at.is_some());
    assert!(task_after.bookmark.is_none()); // No VCS bookmark on parent

    let milestone_after = service.task_service().get(&milestone.id).unwrap();
    assert!(milestone_after.started_at.is_some());
    assert!(milestone_after.bookmark.is_none()); // No VCS bookmark on grandparent
}

#[test]
fn test_start_is_idempotent() {
    let mut service = Workflow::new(setup(), mock_vcs());

    let task = service.task_service().create(&CreateTaskInput {
            description: "Task".to_string(),
            context: None,
            parent_id: None,
            priority: Some(0),
            blocked_by: vec![],
            ..Default::default()
        })
        .unwrap();

    // Start task
    let first_start = service.start(&task.id).unwrap();
    assert!(first_start.started_at.is_some());
    let first_started_at = first_start.started_at;

    // Start again - should be idempotent
    let second_start = service.start(&task.id).unwrap();
    assert_eq!(second_start.started_at, first_started_at);
}

#[test]
fn test_start_allows_leaf_without_children() {
    let mut service = Workflow::new(setup(), mock_vcs());

    // Create a milestone with no children (it's a leaf)
    let milestone = service.task_service().create(&CreateTaskInput {
            description: "Leaf milestone".to_string(),
            context: None,
            parent_id: None,
            priority: Some(0),
            blocked_by: vec![],
            ..Default::default()
        })
        .unwrap();

    // Should be startable since it's a leaf
    let result = service.start(&milestone.id);
    assert!(result.is_ok());
    assert!(result.unwrap().started_at.is_some());
}

#[test]
fn test_complete_cancelled_task_fails() {
    let mut service = Workflow::new(setup(), mock_vcs());

    let task = service.task_service().create(&CreateTaskInput {
            description: "Task".to_string(),
            context: None,
            parent_id: None,
            priority: None,
            blocked_by: vec![],
            ..Default::default()
        })
        .unwrap();

    // Cancel the task
    service.task_service().cancel(&task.id).unwrap();

    // Try to complete cancelled task
    let result = service.complete_with_learnings(&task.id, None, &[]);
    assert!(
        matches!(result, Err(OsError::CannotCompleteCancelled)),
        "Expected CannotCompleteCancelled error, got {:?}",
        result
    );
}

#[test]
fn test_complete_archived_task_fails() {
    let mut service = Workflow::new(setup(), mock_vcs());

    let task = service.task_service().create(&CreateTaskInput {
            description: "Task".to_string(),
            context: None,
            parent_id: None,
            priority: None,
            blocked_by: vec![],
            ..Default::default()
        })
        .unwrap();

    // Complete then archive the task
    service.task_service().complete(&task.id, None, None).unwrap();
    service.task_service().archive(&task.id).unwrap();

    // Try to complete archived task (even though already completed, archived check comes first)
    let result = service.complete_with_learnings(&task.id, None, &[]);
    assert!(
        matches!(result, Err(OsError::CannotCompleteArchived)),
        "Expected CannotCompleteArchived error, got {:?}",
        result
    );
}
