//! Tasks through their life: context, learnings, readiness, blockers and states.
use overseer::db::learning_repo;
use overseer::db::store::Store;
use overseer::error::OsError;
use overseer::service::task_service::TaskService;
use overseer::types::{CreateTaskInput, UpdateTaskInput};

fn setup() -> TaskService {
    TaskService::new(Store::new())
}


#[test]
fn test_context_chain_milestone() {
    let mut service = setup();

    let milestone = service
        .create(&CreateTaskInput {
            description: "Milestone".to_string(),
            context: Some("Milestone context".to_string()),
            parent_id: None,
            priority: None,
            blocked_by: vec![],
            ..Default::default()
        })
        .unwrap();

    let task = service.get(&milestone.id).unwrap();
    let ctx = task.context_chain.unwrap();

    assert_eq!(ctx.own, "Milestone context");
    assert_eq!(ctx.parent, None);
    assert_eq!(ctx.milestone, None);
}

#[test]
fn test_context_chain_task() {
    let mut service = setup();

    let milestone = service
        .create(&CreateTaskInput {
            description: "Milestone".to_string(),
            context: Some("Milestone context".to_string()),
            parent_id: None,
            priority: None,
            blocked_by: vec![],
            ..Default::default()
        })
        .unwrap();

    let task = service
        .create(&CreateTaskInput {
            description: "Task".to_string(),
            context: Some("Task context".to_string()),
            parent_id: Some(milestone.id),
            priority: None,
            blocked_by: vec![],
            ..Default::default()
        })
        .unwrap();

    let task = service.get(&task.id).unwrap();
    let ctx = task.context_chain.unwrap();

    assert_eq!(ctx.own, "Task context");
    assert_eq!(ctx.parent, Some("Milestone context".to_string()));
    assert_eq!(ctx.milestone, Some("Milestone context".to_string()));
}

#[test]
fn test_context_chain_subtask() {
    let mut service = setup();

    let milestone = service
        .create(&CreateTaskInput {
            description: "Milestone".to_string(),
            context: Some("Milestone context".to_string()),
            parent_id: None,
            priority: None,
            blocked_by: vec![],
            ..Default::default()
        })
        .unwrap();

    let task = service
        .create(&CreateTaskInput {
            description: "Task".to_string(),
            context: Some("Task context".to_string()),
            parent_id: Some(milestone.id),
            priority: None,
            blocked_by: vec![],
            ..Default::default()
        })
        .unwrap();

    let subtask = service
        .create(&CreateTaskInput {
            description: "Subtask".to_string(),
            context: Some("Subtask context".to_string()),
            parent_id: Some(task.id),
            priority: None,
            blocked_by: vec![],
            ..Default::default()
        })
        .unwrap();

    let subtask = service.get(&subtask.id).unwrap();
    let ctx = subtask.context_chain.unwrap();

    assert_eq!(ctx.own, "Subtask context");
    assert_eq!(ctx.parent, Some("Task context".to_string()));
    assert_eq!(ctx.milestone, Some("Milestone context".to_string()));
}

#[test]
fn test_inherited_learnings_milestone() {
    let mut service = setup();

    let milestone = service
        .create(&CreateTaskInput {
            description: "Milestone".to_string(),
            context: Some("Milestone context".to_string()),
            parent_id: None,
            priority: None,
            blocked_by: vec![],
            ..Default::default()
        })
        .unwrap();

    learning_repo::add_learning(&mut service.store, &milestone.id, "Milestone learning", None).unwrap();

    let task = service.get(&milestone.id).unwrap();
    let learnings = task.learnings.unwrap();

    assert_eq!(learnings.milestone.len(), 0);
    assert_eq!(learnings.parent.len(), 0);
}

#[test]
fn test_inherited_learnings_task() {
    let mut service = setup();

    let milestone = service
        .create(&CreateTaskInput {
            description: "Milestone".to_string(),
            context: Some("Milestone context".to_string()),
            parent_id: None,
            priority: None,
            blocked_by: vec![],
            ..Default::default()
        })
        .unwrap();

    learning_repo::add_learning(&mut service.store, &milestone.id, "Milestone learning 1", None).unwrap();
    learning_repo::add_learning(&mut service.store, &milestone.id, "Milestone learning 2", None).unwrap();

    let task = service
        .create(&CreateTaskInput {
            description: "Task".to_string(),
            context: Some("Task context".to_string()),
            parent_id: Some(milestone.id),
            priority: None,
            blocked_by: vec![],
            ..Default::default()
        })
        .unwrap();

    learning_repo::add_learning(&mut service.store, &task.id, "Task learning", None).unwrap();

    let task = service.get(&task.id).unwrap();
    let learnings = task.learnings.unwrap();

    assert_eq!(learnings.milestone.len(), 2);
    assert_eq!(learnings.milestone[0].content, "Milestone learning 1");
    assert_eq!(learnings.milestone[1].content, "Milestone learning 2");
    assert_eq!(learnings.parent.len(), 0);
}

#[test]
fn test_inherited_learnings_subtask() {
    let mut service = setup();

    let milestone = service
        .create(&CreateTaskInput {
            description: "Milestone".to_string(),
            context: Some("Milestone context".to_string()),
            parent_id: None,
            priority: None,
            blocked_by: vec![],
            ..Default::default()
        })
        .unwrap();

    learning_repo::add_learning(&mut service.store, &milestone.id, "Milestone learning", None).unwrap();

    let task = service
        .create(&CreateTaskInput {
            description: "Task".to_string(),
            context: Some("Task context".to_string()),
            parent_id: Some(milestone.id),
            priority: None,
            blocked_by: vec![],
            ..Default::default()
        })
        .unwrap();

    learning_repo::add_learning(&mut service.store, &task.id, "Task learning 1", None).unwrap();
    learning_repo::add_learning(&mut service.store, &task.id, "Task learning 2", None).unwrap();

    let subtask = service
        .create(&CreateTaskInput {
            description: "Subtask".to_string(),
            context: Some("Subtask context".to_string()),
            parent_id: Some(task.id),
            priority: None,
            blocked_by: vec![],
            ..Default::default()
        })
        .unwrap();

    learning_repo::add_learning(&mut service.store, &subtask.id, "Subtask learning", None).unwrap();

    let subtask = service.get(&subtask.id).unwrap();
    let learnings = subtask.learnings.unwrap();

    assert_eq!(learnings.milestone.len(), 1);
    assert_eq!(learnings.milestone[0].content, "Milestone learning");
    assert_eq!(learnings.parent.len(), 2);
    assert_eq!(learnings.parent[0].content, "Task learning 1");
    assert_eq!(learnings.parent[1].content, "Task learning 2");
}

#[test]
fn test_complete_task_without_vcs() {
    // Test that completing a task works even without VCS
    let mut service = setup();

    let task = service
        .create(&CreateTaskInput {
            description: "Test task".to_string(),
            context: Some("Test context".to_string()),
            parent_id: None,
            priority: None,
            blocked_by: vec![],
            ..Default::default()
        })
        .unwrap();

    let completed = service.complete(&task.id, Some("Done"), None).unwrap();

    assert!(completed.completed);
    assert_eq!(completed.result, Some("Done".to_string()));
    // commit_sha might be None if no VCS is available, or Some if running in a repo
    // We just verify the operation succeeds
}

#[test]
fn test_complete_task_captures_commit_sha() {
    // This test only verifies the structure - actual commit SHA capture
    // depends on whether the test runs in a VCS repository
    let mut service = setup();

    let task = service
        .create(&CreateTaskInput {
            description: "Test task".to_string(),
            context: Some("Test context".to_string()),
            parent_id: None,
            priority: None,
            blocked_by: vec![],
            ..Default::default()
        })
        .unwrap();

    // Verify commit_sha is initially None
    assert_eq!(task.commit_sha, None);

    let completed = service.complete(&task.id, Some("Done"), None).unwrap();

    assert!(completed.completed);
    // If we're in a VCS repo (jj or git), commit_sha should be populated
    // If not, it will be None - both are valid outcomes
    // The key is that the operation succeeds without error
}

// =========================================================================
// NEXT-READY TESTS
// =========================================================================

#[test]
fn test_next_ready_returns_deepest_leaf() {
    let mut service = setup();

    // Create: milestone -> task -> subtask
    let milestone = service
        .create(&CreateTaskInput {
            description: "Milestone".to_string(),
            context: None,
            parent_id: None,
            priority: Some(0),
            blocked_by: vec![],
            ..Default::default()
        })
        .unwrap();

    let task = service
        .create(&CreateTaskInput {
            description: "Task".to_string(),
            context: None,
            parent_id: Some(milestone.id),
            priority: Some(0),
            blocked_by: vec![],
            ..Default::default()
        })
        .unwrap();

    let subtask = service
        .create(&CreateTaskInput {
            description: "Subtask".to_string(),
            context: None,
            parent_id: Some(task.id),
            priority: Some(0),
            blocked_by: vec![],
            ..Default::default()
        })
        .unwrap();

    // Should return deepest leaf (subtask)
    let result = service.next_ready(Some(&milestone.id)).unwrap();
    assert_eq!(result, Some(subtask.id));
}

#[test]
fn test_next_ready_skips_blocked_subtree() {
    let mut service = setup();

    let blocker = service
        .create(&CreateTaskInput {
            description: "Blocker".to_string(),
            context: None,
            parent_id: None,
            priority: Some(1),
            blocked_by: vec![],
            ..Default::default()
        })
        .unwrap();

    // Create milestone blocked by blocker
    let milestone = service
        .create(&CreateTaskInput {
            description: "Blocked milestone".to_string(),
            context: None,
            parent_id: None,
            priority: Some(0),
            blocked_by: vec![blocker.id],
            ..Default::default()
        })
        .unwrap();

    let task = service
        .create(&CreateTaskInput {
            description: "Task under blocked milestone".to_string(),
            context: None,
            parent_id: Some(milestone.id),
            priority: Some(0),
            blocked_by: vec![],
            ..Default::default()
        })
        .unwrap();

    // Should return blocker (the unblocked milestone), not task under blocked milestone
    let result = service.next_ready(None).unwrap();
    assert_eq!(result, Some(blocker.id));

    // Searching under the blocked milestone should return None
    let result = service.next_ready(Some(&milestone.id)).unwrap();
    assert_eq!(result, None);

    // But searching under blocker milestone returns itself (leaf)
    let result = service.next_ready(Some(&blocker.id)).unwrap();
    assert_eq!(result, Some(blocker.id));

    // Mark blocker complete - now task should be returned
    service.complete(&blocker.id, None, None).unwrap();
    let result = service.next_ready(Some(&milestone.id)).unwrap();
    assert_eq!(result, Some(task.id));
}

#[test]
fn test_next_ready_milestone_as_leaf() {
    let mut service = setup();

    // Create a milestone with no children
    let milestone = service
        .create(&CreateTaskInput {
            description: "Milestone with no children".to_string(),
            context: None,
            parent_id: None,
            priority: Some(0),
            blocked_by: vec![],
            ..Default::default()
        })
        .unwrap();

    // Should return the milestone itself
    let result = service.next_ready(Some(&milestone.id)).unwrap();
    assert_eq!(result, Some(milestone.id));
}

#[test]
fn test_next_ready_respects_priority_order() {
    let mut service = setup();

    let milestone = service
        .create(&CreateTaskInput {
            description: "Milestone".to_string(),
            context: None,
            parent_id: None,
            priority: Some(0),
            blocked_by: vec![],
            ..Default::default()
        })
        .unwrap();

    // Low priority task (created first)
    let low = service
        .create(&CreateTaskInput {
            description: "Low priority".to_string(),
            context: None,
            parent_id: Some(milestone.id),
            priority: Some(1),
            blocked_by: vec![],
            ..Default::default()
        })
        .unwrap();

    // High priority task (created second)
    let high = service
        .create(&CreateTaskInput {
            description: "High priority".to_string(),
            context: None,
            parent_id: Some(milestone.id),
            priority: Some(0),
            blocked_by: vec![],
            ..Default::default()
        })
        .unwrap();

    // Should return high priority first
    let result = service.next_ready(Some(&milestone.id)).unwrap();
    assert_eq!(result, Some(high.id));

    // Complete high, should return low
    service.complete(&high.id, None, None).unwrap();
    let result = service.next_ready(Some(&milestone.id)).unwrap();
    assert_eq!(result, Some(low.id));
}

#[test]
fn test_resolve_start_follows_blockers() {
    let mut service = setup();

    // Create: blocker_task, blocked_milestone -> task
    let blocker_task = service
        .create(&CreateTaskInput {
            description: "Blocker task".to_string(),
            context: None,
            parent_id: None,
            priority: Some(0),
            blocked_by: vec![],
            ..Default::default()
        })
        .unwrap();

    let blocked_milestone = service
        .create(&CreateTaskInput {
            description: "Blocked milestone".to_string(),
            context: None,
            parent_id: None,
            priority: Some(0),
            blocked_by: vec![blocker_task.id],
            ..Default::default()
        })
        .unwrap();

    let _task = service
        .create(&CreateTaskInput {
            description: "Task under blocked milestone".to_string(),
            context: None,
            parent_id: Some(blocked_milestone.id),
            priority: Some(0),
            blocked_by: vec![],
            ..Default::default()
        })
        .unwrap();

    // Trying to start blocked_milestone should resolve to blocker_task
    let target = service.resolve_start_target(&blocked_milestone.id).unwrap();
    assert_eq!(target, blocker_task.id);
}

#[test]
fn test_resolve_start_detects_cycle() {
    let mut service = setup();

    // Create mutually blocking tasks (will create cycle once we add blocker)
    let task_a = service
        .create(&CreateTaskInput {
            description: "Task A".to_string(),
            context: None,
            parent_id: None,
            priority: Some(0),
            blocked_by: vec![],
            ..Default::default()
        })
        .unwrap();

    let task_b = service
        .create(&CreateTaskInput {
            description: "Task B".to_string(),
            context: None,
            parent_id: None,
            priority: Some(0),
            blocked_by: vec![task_a.id],
            ..Default::default()
        })
        .unwrap();

    // This will be rejected because it creates a cycle
    let result = service.add_blocker(&task_a.id, &task_b.id);
    assert!(matches!(result, Err(OsError::BlockerCycle)));
}

#[test]
fn test_reject_ancestor_blocker() {
    let mut service = setup();

    let milestone = service
        .create(&CreateTaskInput {
            description: "Milestone".to_string(),
            context: None,
            parent_id: None,
            priority: Some(0),
            blocked_by: vec![],
            ..Default::default()
        })
        .unwrap();

    let task = service
        .create(&CreateTaskInput {
            description: "Task".to_string(),
            context: None,
            parent_id: Some(milestone.id),
            priority: Some(0),
            blocked_by: vec![],
            ..Default::default()
        })
        .unwrap();

    // Try to block task by its ancestor (milestone)
    let result = service.add_blocker(&task.id, &milestone.id);
    assert!(matches!(
        result,
        Err(OsError::InvalidBlockerRelation { .. })
    ));
}

#[test]
fn test_reject_descendant_blocker() {
    let mut service = setup();

    let milestone = service
        .create(&CreateTaskInput {
            description: "Milestone".to_string(),
            context: None,
            parent_id: None,
            priority: Some(0),
            blocked_by: vec![],
            ..Default::default()
        })
        .unwrap();

    let task = service
        .create(&CreateTaskInput {
            description: "Task".to_string(),
            context: None,
            parent_id: Some(milestone.id),
            priority: Some(0),
            blocked_by: vec![],
            ..Default::default()
        })
        .unwrap();

    // Try to block milestone by its descendant (task)
    let result = service.add_blocker(&milestone.id, &task.id);
    assert!(matches!(
        result,
        Err(OsError::InvalidBlockerRelation { .. })
    ));
}

#[test]
fn test_create_rejects_ancestor_blocker() {
    let mut service = setup();

    let milestone = service
        .create(&CreateTaskInput {
            description: "Milestone".to_string(),
            context: None,
            parent_id: None,
            priority: Some(0),
            blocked_by: vec![],
            ..Default::default()
        })
        .unwrap();

    // Try to create a child blocked by its parent - should fail
    let result = service.create(&CreateTaskInput {
        description: "Task blocked by parent".to_string(),
        context: None,
        parent_id: Some(milestone.id),
        priority: Some(0),
        blocked_by: vec![milestone.id],
        ..Default::default()
    });
    assert!(matches!(
        result,
        Err(OsError::InvalidBlockerRelation { .. })
    ));
}

#[test]
fn test_reparent_rejects_blocker_becoming_ancestor() {
    let mut service = setup();

    // Create two unrelated milestones
    let milestone_a = service
        .create(&CreateTaskInput {
            description: "Milestone A".to_string(),
            context: None,
            parent_id: None,
            priority: Some(0),
            blocked_by: vec![],
            ..Default::default()
        })
        .unwrap();

    let milestone_b = service
        .create(&CreateTaskInput {
            description: "Milestone B".to_string(),
            context: None,
            parent_id: None,
            priority: Some(0),
            blocked_by: vec![],
            ..Default::default()
        })
        .unwrap();

    // Create task under B, blocked by A
    let task = service
        .create(&CreateTaskInput {
            description: "Task".to_string(),
            context: None,
            parent_id: Some(milestone_b.id),
            priority: Some(0),
            blocked_by: vec![milestone_a.id],
            ..Default::default()
        })
        .unwrap();

    // Try to reparent task under A - should fail (A is a blocker, would become ancestor)
    let result = service.update(
        &task.id,
        &UpdateTaskInput {
            parent_id: Some(milestone_a.id),
            ..Default::default()
        },
    );
    assert!(matches!(
        result,
        Err(OsError::InvalidBlockerRelation { .. })
    ));
}

#[test]
fn test_reparent_checks_subtree_depth() {
    let mut service = setup();

    // Create: milestone -> task -> subtask (depth 2)
    let milestone = service
        .create(&CreateTaskInput {
            description: "Milestone".to_string(),
            context: None,
            parent_id: None,
            priority: Some(0),
            blocked_by: vec![],
            ..Default::default()
        })
        .unwrap();

    let task = service
        .create(&CreateTaskInput {
            description: "Task".to_string(),
            context: None,
            parent_id: Some(milestone.id),
            priority: Some(0),
            blocked_by: vec![],
            ..Default::default()
        })
        .unwrap();

    let _subtask = service
        .create(&CreateTaskInput {
            description: "Subtask".to_string(),
            context: None,
            parent_id: Some(task.id),
            priority: Some(0),
            blocked_by: vec![],
            ..Default::default()
        })
        .unwrap();

    // Create another milestone -> task to get a depth-1 parent
    let other_milestone = service
        .create(&CreateTaskInput {
            description: "Other Milestone".to_string(),
            context: None,
            parent_id: None,
            priority: Some(0),
            blocked_by: vec![],
            ..Default::default()
        })
        .unwrap();

    let other_task = service
        .create(&CreateTaskInput {
            description: "Other Task".to_string(),
            context: None,
            parent_id: Some(other_milestone.id),
            priority: Some(0),
            blocked_by: vec![],
            ..Default::default()
        })
        .unwrap();

    // Try to reparent "task" (which has a subtask) under "other_task" (depth 1)
    // This would make subtask depth 3, exceeding MAX_DEPTH=2
    let result = service.update(
        &task.id,
        &UpdateTaskInput {
            parent_id: Some(other_task.id),
            ..Default::default()
        },
    );
    assert!(matches!(result, Err(OsError::MaxDepthExceeded)));
}

#[test]
fn test_complete_preserves_blocker_edges() {
    let mut service = setup();

    let blocker = service
        .create(&CreateTaskInput {
            description: "Blocker".to_string(),
            context: None,
            parent_id: None,
            priority: Some(0),
            blocked_by: vec![],
            ..Default::default()
        })
        .unwrap();

    let task_b = service
        .create(&CreateTaskInput {
            description: "Task B".to_string(),
            context: None,
            parent_id: None,
            priority: Some(0),
            blocked_by: vec![blocker.id],
            ..Default::default()
        })
        .unwrap();

    let task_c = service
        .create(&CreateTaskInput {
            description: "Task C".to_string(),
            context: None,
            parent_id: None,
            priority: Some(0),
            blocked_by: vec![blocker.id],
            ..Default::default()
        })
        .unwrap();

    // Verify initial state
    assert_eq!(service.get(&task_b.id).unwrap().blocked_by.len(), 1);
    assert_eq!(service.get(&task_c.id).unwrap().blocked_by.len(), 1);
    assert_eq!(service.get(&blocker.id).unwrap().blocks.len(), 2);
    assert!(service.get(&task_b.id).unwrap().effectively_blocked);
    assert!(service.get(&task_c.id).unwrap().effectively_blocked);

    // Complete blocker
    service.complete(&blocker.id, None, None).unwrap();

    // Edges are preserved (for historical DAG and reopen semantics)
    assert_eq!(service.get(&task_b.id).unwrap().blocked_by.len(), 1);
    assert_eq!(service.get(&task_c.id).unwrap().blocked_by.len(), 1);
    assert_eq!(service.get(&blocker.id).unwrap().blocks.len(), 2);

    // But tasks are no longer effectively blocked (blocker is completed)
    assert!(!service.get(&task_b.id).unwrap().effectively_blocked);
    assert!(!service.get(&task_c.id).unwrap().effectively_blocked);
}

#[test]
fn test_reopen_reblocks_dependents() {
    let mut service = setup();

    let blocker = service
        .create(&CreateTaskInput {
            description: "Blocker".to_string(),
            context: None,
            parent_id: None,
            priority: Some(0),
            blocked_by: vec![],
            ..Default::default()
        })
        .unwrap();

    let dependent = service
        .create(&CreateTaskInput {
            description: "Dependent".to_string(),
            context: None,
            parent_id: None,
            priority: Some(0),
            blocked_by: vec![blocker.id],
            ..Default::default()
        })
        .unwrap();

    // Initially blocked
    assert!(service.get(&dependent.id).unwrap().effectively_blocked);

    // Complete blocker - dependent becomes unblocked
    service.complete(&blocker.id, None, None).unwrap();
    assert!(!service.get(&dependent.id).unwrap().effectively_blocked);

    // Reopen blocker - dependent becomes blocked again (edge preserved!)
    service.reopen(&blocker.id).unwrap();
    assert!(service.get(&dependent.id).unwrap().effectively_blocked);
}

// =========================================================================
// LIFECYCLE TRANSITION TESTS
// =========================================================================

#[test]
fn test_cancel_pending_task() {
    let mut service = setup();

    let task = service
        .create(&CreateTaskInput {
            description: "Pending task".to_string(),
            context: None,
            parent_id: None,
            priority: None,
            blocked_by: vec![],
            ..Default::default()
        })
        .unwrap();

    // Pending → Cancelled is valid
    let cancelled = service.cancel(&task.id).unwrap();
    assert!(cancelled.cancelled);
    assert!(cancelled.cancelled_at.is_some());
}

#[test]
fn test_cancel_in_progress_task() {
    let mut service = setup();

    let task = service
        .create(&CreateTaskInput {
            description: "Task".to_string(),
            context: None,
            parent_id: None,
            priority: None,
            blocked_by: vec![],
            ..Default::default()
        })
        .unwrap();

    // Start the task to make it InProgress
    service.start(&task.id).unwrap();

    // InProgress → Cancelled is valid
    let cancelled = service.cancel(&task.id).unwrap();
    assert!(cancelled.cancelled);
}

#[test]
fn test_cancel_completed_task_fails() {
    let mut service = setup();

    let task = service
        .create(&CreateTaskInput {
            description: "Task".to_string(),
            context: None,
            parent_id: None,
            priority: None,
            blocked_by: vec![],
            ..Default::default()
        })
        .unwrap();

    service.complete(&task.id, None, None).unwrap();

    // Completed → Cancelled is invalid
    let result = service.cancel(&task.id);
    assert!(matches!(result, Err(OsError::CannotCancelCompleted)));
}

#[test]
fn test_cancel_already_cancelled_fails() {
    let mut service = setup();

    let task = service
        .create(&CreateTaskInput {
            description: "Task".to_string(),
            context: None,
            parent_id: None,
            priority: None,
            blocked_by: vec![],
            ..Default::default()
        })
        .unwrap();

    service.cancel(&task.id).unwrap();

    // Cancelled → Cancelled is idempotent error
    let result = service.cancel(&task.id);
    assert!(matches!(result, Err(OsError::AlreadyCancelled)));
}

#[test]
fn test_cancel_archived_task_fails() {
    let mut service = setup();

    let task = service
        .create(&CreateTaskInput {
            description: "Task".to_string(),
            context: None,
            parent_id: None,
            priority: None,
            blocked_by: vec![],
            ..Default::default()
        })
        .unwrap();

    // Complete then archive
    service.complete(&task.id, None, None).unwrap();
    service.archive(&task.id).unwrap();

    // Archived → Cancelled is invalid
    let result = service.cancel(&task.id);
    assert!(matches!(result, Err(OsError::CannotModifyArchived)));
}

#[test]
fn test_archive_completed_task() {
    let mut service = setup();

    let task = service
        .create(&CreateTaskInput {
            description: "Task".to_string(),
            context: None,
            parent_id: None,
            priority: None,
            blocked_by: vec![],
            ..Default::default()
        })
        .unwrap();

    service.complete(&task.id, None, None).unwrap();

    // Completed → Archived is valid
    let archived = service.archive(&task.id).unwrap();
    assert!(archived.archived);
    assert!(archived.archived_at.is_some());
}

#[test]
fn test_archive_cancelled_task() {
    let mut service = setup();

    let task = service
        .create(&CreateTaskInput {
            description: "Task".to_string(),
            context: None,
            parent_id: None,
            priority: None,
            blocked_by: vec![],
            ..Default::default()
        })
        .unwrap();

    service.cancel(&task.id).unwrap();

    // Cancelled → Archived is valid
    let archived = service.archive(&task.id).unwrap();
    assert!(archived.archived);
}

#[test]
fn test_archive_pending_task_fails() {
    let mut service = setup();

    let task = service
        .create(&CreateTaskInput {
            description: "Pending task".to_string(),
            context: None,
            parent_id: None,
            priority: None,
            blocked_by: vec![],
            ..Default::default()
        })
        .unwrap();

    // Pending → Archived is invalid
    let result = service.archive(&task.id);
    assert!(matches!(result, Err(OsError::CannotArchiveActive)));
}

#[test]
fn test_archive_in_progress_task_fails() {
    let mut service = setup();

    let task = service
        .create(&CreateTaskInput {
            description: "Task".to_string(),
            context: None,
            parent_id: None,
            priority: None,
            blocked_by: vec![],
            ..Default::default()
        })
        .unwrap();

    service.start(&task.id).unwrap();

    // InProgress → Archived is invalid
    let result = service.archive(&task.id);
    assert!(matches!(result, Err(OsError::CannotArchiveActive)));
}

#[test]
fn test_archive_already_archived_fails() {
    let mut service = setup();

    let task = service
        .create(&CreateTaskInput {
            description: "Task".to_string(),
            context: None,
            parent_id: None,
            priority: None,
            blocked_by: vec![],
            ..Default::default()
        })
        .unwrap();

    service.complete(&task.id, None, None).unwrap();
    service.archive(&task.id).unwrap();

    // Archived → Archived is idempotent error
    let result = service.archive(&task.id);
    assert!(matches!(result, Err(OsError::AlreadyArchived)));
}

/// Cancelled tasks do NOT satisfy blockers - only completed tasks do.
/// This keeps dependents blocked when their blocker is cancelled.
#[test]
fn test_cancelled_task_does_not_satisfy_blocker() {
    let mut service = setup();

    let blocker = service
        .create(&CreateTaskInput {
            description: "Blocker task".to_string(),
            context: None,
            parent_id: None,
            priority: Some(0),
            blocked_by: vec![],
            ..Default::default()
        })
        .unwrap();

    let dependent = service
        .create(&CreateTaskInput {
            description: "Dependent task".to_string(),
            context: None,
            parent_id: None,
            priority: Some(0),
            blocked_by: vec![blocker.id],
            ..Default::default()
        })
        .unwrap();

    // Initially blocked
    assert!(service.get(&dependent.id).unwrap().effectively_blocked);

    // Cancel the blocker (not complete it)
    let cancelled_blocker = service.cancel(&blocker.id).unwrap();
    assert!(cancelled_blocker.cancelled);
    assert!(!cancelled_blocker.completed);

    // Dependent should STILL be blocked because cancelled tasks don't satisfy blockers
    assert!(
        service.get(&dependent.id).unwrap().effectively_blocked,
        "Dependent should remain blocked when blocker is cancelled"
    );

    // Verify the blocker itself reports it doesn't satisfy blockers
    assert!(!cancelled_blocker.satisfies_blocker());
}

/// Cannot reopen Pending or InProgress tasks - they are already "open"
#[test]
fn test_reopen_active_task_fails() {
    let mut service = setup();

    let pending_task = service
        .create(&CreateTaskInput {
            description: "Pending task".to_string(),
            context: None,
            parent_id: None,
            priority: None,
            blocked_by: vec![],
            ..Default::default()
        })
        .unwrap();

    // Pending → Reopen is invalid (task is already active)
    let result = service.reopen(&pending_task.id);
    assert!(
        matches!(result, Err(OsError::CannotReopenActive { .. })),
        "Should return CannotReopenActive for pending task, got {:?}",
        result
    );

    let in_progress_task = service
        .create(&CreateTaskInput {
            description: "In progress task".to_string(),
            context: None,
            parent_id: None,
            priority: None,
            blocked_by: vec![],
            ..Default::default()
        })
        .unwrap();

    // Start the task
    service.start(&in_progress_task.id).unwrap();

    // InProgress → Reopen is invalid (task is already active)
    let result = service.reopen(&in_progress_task.id);
    assert!(
        matches!(result, Err(OsError::CannotReopenActive { .. })),
        "Should return CannotReopenActive for in-progress task, got {:?}",
        result
    );
}

// =========================================================================
// CANCEL WITH PENDING CHILDREN TESTS
// =========================================================================

/// Cannot cancel a task that has pending children (incomplete AND non-cancelled).
/// User must explicitly complete or cancel children first.
#[test]
fn test_cancel_with_pending_children_fails() {
    let mut service = setup();

    let milestone = service
        .create(&CreateTaskInput {
            description: "Milestone".to_string(),
            context: None,
            parent_id: None,
            priority: None,
            blocked_by: vec![],
            ..Default::default()
        })
        .unwrap();

    let _child = service
        .create(&CreateTaskInput {
            description: "Pending child".to_string(),
            context: None,
            parent_id: Some(milestone.id),
            priority: None,
            blocked_by: vec![],
            ..Default::default()
        })
        .unwrap();

    // Try to cancel milestone with pending child - should fail
    let result = service.cancel(&milestone.id);
    assert!(
        matches!(result, Err(OsError::PendingChildren)),
        "Expected PendingChildren error, got {:?}",
        result
    );
}

/// Cancel succeeds after all children are completed
#[test]
fn test_cancel_after_children_completed() {
    let mut service = setup();

    let milestone = service
        .create(&CreateTaskInput {
            description: "Milestone".to_string(),
            context: None,
            parent_id: None,
            priority: None,
            blocked_by: vec![],
            ..Default::default()
        })
        .unwrap();

    let child = service
        .create(&CreateTaskInput {
            description: "Child".to_string(),
            context: None,
            parent_id: Some(milestone.id),
            priority: None,
            blocked_by: vec![],
            ..Default::default()
        })
        .unwrap();

    // Complete the child
    service.complete(&child.id, None, None).unwrap();

    // Now cancel should succeed
    let cancelled = service.cancel(&milestone.id).unwrap();
    assert!(cancelled.cancelled);
}

/// Cancel succeeds after all children are cancelled (not pending)
#[test]
fn test_cancel_after_children_cancelled() {
    let mut service = setup();

    let milestone = service
        .create(&CreateTaskInput {
            description: "Milestone".to_string(),
            context: None,
            parent_id: None,
            priority: None,
            blocked_by: vec![],
            ..Default::default()
        })
        .unwrap();

    let child = service
        .create(&CreateTaskInput {
            description: "Child".to_string(),
            context: None,
            parent_id: Some(milestone.id),
            priority: None,
            blocked_by: vec![],
            ..Default::default()
        })
        .unwrap();

    // Cancel the child first
    service.cancel(&child.id).unwrap();

    // Now cancel milestone should succeed
    let cancelled = service.cancel(&milestone.id).unwrap();
    assert!(cancelled.cancelled);
}

// =========================================================================
// CREATE/REPARENT UNDER INACTIVE PARENT TESTS
// =========================================================================

/// Cannot create child under cancelled parent
#[test]
fn test_create_child_under_cancelled_parent_fails() {
    let mut service = setup();

    let parent = service
        .create(&CreateTaskInput {
            description: "Parent".to_string(),
            context: None,
            parent_id: None,
            priority: None,
            blocked_by: vec![],
            ..Default::default()
        })
        .unwrap();

    // Cancel the parent
    service.cancel(&parent.id).unwrap();

    // Try to create child under cancelled parent
    let result = service.create(&CreateTaskInput {
        description: "Child".to_string(),
        context: None,
        parent_id: Some(parent.id),
        priority: None,
        blocked_by: vec![],
        ..Default::default()
    });

    assert!(
        matches!(
            result,
            Err(OsError::CannotAttachChildToInactiveParent { .. })
        ),
        "Expected CannotAttachChildToInactiveParent error, got {:?}",
        result
    );
}

/// Cannot create child under completed parent
#[test]
fn test_create_child_under_completed_parent_fails() {
    let mut service = setup();

    let parent = service
        .create(&CreateTaskInput {
            description: "Parent".to_string(),
            context: None,
            parent_id: None,
            priority: None,
            blocked_by: vec![],
            ..Default::default()
        })
        .unwrap();

    // Complete the parent
    service.complete(&parent.id, None, None).unwrap();

    // Try to create child under completed parent
    let result = service.create(&CreateTaskInput {
        description: "Child".to_string(),
        context: None,
        parent_id: Some(parent.id),
        priority: None,
        blocked_by: vec![],
        ..Default::default()
    });

    assert!(
        matches!(
            result,
            Err(OsError::CannotAttachChildToInactiveParent { .. })
        ),
        "Expected CannotAttachChildToInactiveParent error, got {:?}",
        result
    );
}

/// Cannot create child under archived parent
#[test]
fn test_create_child_under_archived_parent_fails() {
    let mut service = setup();

    let parent = service
        .create(&CreateTaskInput {
            description: "Parent".to_string(),
            context: None,
            parent_id: None,
            priority: None,
            blocked_by: vec![],
            ..Default::default()
        })
        .unwrap();

    // Complete then archive the parent
    service.complete(&parent.id, None, None).unwrap();
    service.archive(&parent.id).unwrap();

    // Try to create child under archived parent
    let result = service.create(&CreateTaskInput {
        description: "Child".to_string(),
        context: None,
        parent_id: Some(parent.id),
        priority: None,
        blocked_by: vec![],
        ..Default::default()
    });

    assert!(
        matches!(
            result,
            Err(OsError::CannotAttachChildToInactiveParent { .. })
        ),
        "Expected CannotAttachChildToInactiveParent error, got {:?}",
        result
    );
}

/// Cannot reparent task under cancelled parent
#[test]
fn test_reparent_under_cancelled_parent_fails() {
    let mut service = setup();

    let orphan = service
        .create(&CreateTaskInput {
            description: "Orphan".to_string(),
            context: None,
            parent_id: None,
            priority: None,
            blocked_by: vec![],
            ..Default::default()
        })
        .unwrap();

    let target_parent = service
        .create(&CreateTaskInput {
            description: "Target parent".to_string(),
            context: None,
            parent_id: None,
            priority: None,
            blocked_by: vec![],
            ..Default::default()
        })
        .unwrap();

    // Cancel the target parent
    service.cancel(&target_parent.id).unwrap();

    // Try to reparent orphan under cancelled parent
    let result = service.update(
        &orphan.id,
        &UpdateTaskInput {
            parent_id: Some(target_parent.id),
            ..Default::default()
        },
    );

    assert!(
        matches!(
            result,
            Err(OsError::CannotAttachChildToInactiveParent { .. })
        ),
        "Expected CannotAttachChildToInactiveParent error, got {:?}",
        result
    );
}

/// Cannot reparent task under archived parent
#[test]
fn test_reparent_under_archived_parent_fails() {
    let mut service = setup();

    let orphan = service
        .create(&CreateTaskInput {
            description: "Orphan".to_string(),
            context: None,
            parent_id: None,
            priority: None,
            blocked_by: vec![],
            ..Default::default()
        })
        .unwrap();

    let target_parent = service
        .create(&CreateTaskInput {
            description: "Target parent".to_string(),
            context: None,
            parent_id: None,
            priority: None,
            blocked_by: vec![],
            ..Default::default()
        })
        .unwrap();

    // Complete then archive the target parent
    service.complete(&target_parent.id, None, None).unwrap();
    service.archive(&target_parent.id).unwrap();

    // Try to reparent orphan under archived parent
    let result = service.update(
        &orphan.id,
        &UpdateTaskInput {
            parent_id: Some(target_parent.id),
            ..Default::default()
        },
    );

    assert!(
        matches!(
            result,
            Err(OsError::CannotAttachChildToInactiveParent { .. })
        ),
        "Expected CannotAttachChildToInactiveParent error, got {:?}",
        result
    );
}

/// Archiving a milestone cascades to all descendants
#[test]
fn test_archive_milestone_cascades_to_descendants() {
    let mut service = setup();

    // Create milestone with task and subtask
    let milestone = service
        .create(&CreateTaskInput {
            description: "Milestone".to_string(),
            context: None,
            parent_id: None,
            priority: None,
            blocked_by: vec![],
            ..Default::default()
        })
        .unwrap();

    let task = service
        .create(&CreateTaskInput {
            description: "Task".to_string(),
            context: None,
            parent_id: Some(milestone.id),
            priority: None,
            blocked_by: vec![],
            ..Default::default()
        })
        .unwrap();

    let subtask = service
        .create(&CreateTaskInput {
            description: "Subtask".to_string(),
            context: None,
            parent_id: Some(task.id),
            priority: None,
            blocked_by: vec![],
            ..Default::default()
        })
        .unwrap();

    // Complete all tasks
    service.complete(&subtask.id, None, None).unwrap();
    service.complete(&task.id, None, None).unwrap();
    service.complete(&milestone.id, None, None).unwrap();

    // Archive milestone - should cascade to task and subtask
    let archived_milestone = service.archive(&milestone.id).unwrap();
    assert!(archived_milestone.archived);

    // Verify descendants are also archived
    let archived_task = service.get(&task.id).unwrap();
    assert!(archived_task.archived);

    let archived_subtask = service.get(&subtask.id).unwrap();
    assert!(archived_subtask.archived);
}

/// Cannot archive milestone if any descendant is still pending/in-progress
/// The first check is at the milestone level, so we test that pending milestones fail.
#[test]
fn test_archive_milestone_fails_with_pending_descendant() {
    let mut service = setup();

    // Create milestone with task and subtask
    let milestone = service
        .create(&CreateTaskInput {
            description: "Milestone".to_string(),
            context: None,
            parent_id: None,
            priority: None,
            blocked_by: vec![],
            ..Default::default()
        })
        .unwrap();

    let task = service
        .create(&CreateTaskInput {
            description: "Task".to_string(),
            context: None,
            parent_id: Some(milestone.id),
            priority: None,
            blocked_by: vec![],
            ..Default::default()
        })
        .unwrap();

    let subtask = service
        .create(&CreateTaskInput {
            description: "Subtask".to_string(),
            context: None,
            parent_id: Some(task.id),
            priority: None,
            blocked_by: vec![],
            ..Default::default()
        })
        .unwrap();

    // Complete subtask, cancel task, complete milestone
    service.complete(&subtask.id, None, None).unwrap();
    service.cancel(&task.id).unwrap(); // Task can now be cancelled (child done)
    service.complete(&milestone.id, None, None).unwrap();

    // Reopen subtask (making it pending again)
    service.reopen(&subtask.id).unwrap();

    // Try to archive milestone - should fail because subtask is pending
    let result = service.archive(&milestone.id);
    assert!(
        matches!(result, Err(OsError::CannotArchiveActive)),
        "Expected CannotArchiveActive error, got {:?}",
        result
    );
}

#[test]
fn test_update_clear_repo_path_on_not_started_task() {
    let mut service = setup();

    let task = service
        .create(&CreateTaskInput {
            description: "Task".to_string(),
            repo_path: Some("frontend".to_string()),
            ..Default::default()
        })
        .unwrap();

    let updated = service
        .update(
            &task.id,
            &UpdateTaskInput {
                clear_repo_path: true,
                ..Default::default()
            },
        )
        .unwrap();

    assert_eq!(updated.repo_path, None);
}

#[test]
fn test_update_clear_repo_path_after_start_rejected() {
    let mut service = setup();

    let task = service
        .create(&CreateTaskInput {
            description: "Task".to_string(),
            repo_path: Some("frontend".to_string()),
            ..Default::default()
        })
        .unwrap();

    service.start(&task.id).unwrap();

    let result = service.update(
        &task.id,
        &UpdateTaskInput {
            clear_repo_path: true,
            ..Default::default()
        },
    );

    assert!(matches!(result, Err(OsError::InvalidRepoPath { .. })));
}

#[test]
fn test_update_clear_repo_path_idempotent_when_already_unset() {
    let mut service = setup();

    let task = service
        .create(&CreateTaskInput {
            description: "Task".to_string(),
            ..Default::default()
        })
        .unwrap();

    let updated = service
        .update(
            &task.id,
            &UpdateTaskInput {
                clear_repo_path: true,
                ..Default::default()
            },
        )
        .unwrap();

    assert_eq!(updated.repo_path, None);
}

#[test]
fn test_update_repo_path_and_clear_repo_path_conflict_rejected() {
    let mut service = setup();

    let task = service
        .create(&CreateTaskInput {
            description: "Task".to_string(),
            repo_path: Some("frontend".to_string()),
            ..Default::default()
        })
        .unwrap();

    let result = service.update(
        &task.id,
        &UpdateTaskInput {
            repo_path: Some("backend".to_string()),
            clear_repo_path: true,
            ..Default::default()
        },
    );

    assert!(matches!(result, Err(OsError::InvalidRepoPath { .. })));
}
