//! Learnings: adding, listing, deleting, and what deleting tasks does to them.
use overseer::db::learning_repo;
use overseer::db::store::Store;
use overseer::error::OsError;
use overseer::service::task_service::TaskService;
use overseer::types::CreateTaskInput;

fn setup() -> TaskService {
    TaskService::new(Store::new())
}

// ==================== Basic Operations ====================

#[test]
fn test_add_learning() {
    let mut service = setup();

    let task = service
        .create(&CreateTaskInput {
            description: "Task".to_string(),
            context: None,
            parent_id: None,
            priority: None,
            blocked_by: vec![],
            ..Default::default()
        })
        .unwrap();

    let learning =
        learning_repo::add_learning(&mut service.store, &task.id, "Always validate input", None).unwrap();

    assert_eq!(learning.task_id, task.id);
    assert_eq!(learning.content, "Always validate input");
    // When source not provided, origin defaults to task_id (self-origin)
    assert_eq!(learning.source_task_id, Some(task.id));
}

#[test]
fn test_add_learning_with_source() {
    let mut service = setup();

    let source_task = service
        .create(&CreateTaskInput {
            description: "Source Task".to_string(),
            context: None,
            parent_id: None,
            priority: None,
            blocked_by: vec![],
            ..Default::default()
        })
        .unwrap();

    let task = service
        .create(&CreateTaskInput {
            description: "Task".to_string(),
            context: None,
            parent_id: None,
            priority: None,
            blocked_by: vec![],
            ..Default::default()
        })
        .unwrap();

    let learning = learning_repo::add_learning(&mut service.store,
        &task.id,
        "Learned from source task",
        Some(&source_task.id),
    )
    .unwrap();

    assert_eq!(learning.source_task_id, Some(source_task.id));
}

#[test]
fn test_list_learnings() {
    let mut service = setup();

    let task = service
        .create(&CreateTaskInput {
            description: "Task".to_string(),
            context: None,
            parent_id: None,
            priority: None,
            blocked_by: vec![],
            ..Default::default()
        })
        .unwrap();

    learning_repo::add_learning(&mut service.store, &task.id, "Learning 1", None).unwrap();
    learning_repo::add_learning(&mut service.store, &task.id, "Learning 2", None).unwrap();
    learning_repo::add_learning(&mut service.store, &task.id, "Learning 3", None).unwrap();

    let learnings = learning_repo::list_learnings(&service.store, &task.id);
    assert_eq!(learnings.len(), 3);
    assert_eq!(learnings[0].content, "Learning 1");
    assert_eq!(learnings[1].content, "Learning 2");
    assert_eq!(learnings[2].content, "Learning 3");
}

#[test]
fn test_list_learnings_empty() {
    let mut service = setup();

    let task = service
        .create(&CreateTaskInput {
            description: "Task".to_string(),
            context: None,
            parent_id: None,
            priority: None,
            blocked_by: vec![],
            ..Default::default()
        })
        .unwrap();

    let learnings = learning_repo::list_learnings(&service.store, &task.id);
    assert_eq!(learnings.len(), 0);
}

#[test]
fn test_delete_learning() {
    let mut service = setup();

    let task = service
        .create(&CreateTaskInput {
            description: "Task".to_string(),
            context: None,
            parent_id: None,
            priority: None,
            blocked_by: vec![],
            ..Default::default()
        })
        .unwrap();

    let learning = learning_repo::add_learning(&mut service.store, &task.id, "Learning", None).unwrap();

    learning_repo::delete_learning(&mut service.store, &learning.id).unwrap();

    let result = learning_repo::get_learning(&service.store, &learning.id);
    assert!(result.is_none());
}

// ==================== CASCADE Delete ====================

#[test]
fn test_cascade_delete_learnings_with_task() {
    let mut service = setup();

    let task = service
        .create(&CreateTaskInput {
            description: "Task".to_string(),
            context: None,
            parent_id: None,
            priority: None,
            blocked_by: vec![],
            ..Default::default()
        })
        .unwrap();

    let learning1 = learning_repo::add_learning(&mut service.store, &task.id, "Learning 1", None).unwrap();
    let learning2 = learning_repo::add_learning(&mut service.store, &task.id, "Learning 2", None).unwrap();

    // Delete task - learnings should be CASCADE deleted
    service.delete(&task.id).unwrap();

    let result1 = learning_repo::get_learning(&service.store, &learning1.id);
    let result2 = learning_repo::get_learning(&service.store, &learning2.id);

    assert!(result1.is_none());
    assert!(result2.is_none());
}

#[test]
fn test_cascade_delete_learnings_with_parent_task() {
    let mut service = setup();

    // Create parent → child
    let parent = service
        .create(&CreateTaskInput {
            description: "Parent".to_string(),
            context: None,
            parent_id: None,
            priority: None,
            blocked_by: vec![],
            ..Default::default()
        })
        .unwrap();

    let child = service
        .create(&CreateTaskInput {
            description: "Child".to_string(),
            context: None,
            parent_id: Some(parent.id),
            priority: None,
            blocked_by: vec![],
            ..Default::default()
        })
        .unwrap();

    let parent_learning =
        learning_repo::add_learning(&mut service.store, &parent.id, "Parent learning", None).unwrap();
    let child_learning =
        learning_repo::add_learning(&mut service.store, &child.id, "Child learning", None).unwrap();

    // Delete parent - child and both learnings should be CASCADE deleted
    service.delete(&parent.id).unwrap();

    assert!(matches!(
        service.get(&child.id),
        Err(OsError::TaskNotFound(_))
    ));
    assert!(learning_repo::get_learning(&service.store, &parent_learning.id)
        .is_none());
    assert!(learning_repo::get_learning(&service.store, &child_learning.id)
        .is_none());
}

// ==================== Task Association ====================

#[test]
fn test_learnings_isolated_by_task() {
    let mut service = setup();

    let task1 = service
        .create(&CreateTaskInput {
            description: "Task 1".to_string(),
            context: None,
            parent_id: None,
            priority: None,
            blocked_by: vec![],
            ..Default::default()
        })
        .unwrap();

    let task2 = service
        .create(&CreateTaskInput {
            description: "Task 2".to_string(),
            context: None,
            parent_id: None,
            priority: None,
            blocked_by: vec![],
            ..Default::default()
        })
        .unwrap();

    learning_repo::add_learning(&mut service.store, &task1.id, "Task 1 learning", None).unwrap();
    learning_repo::add_learning(&mut service.store, &task2.id, "Task 2 learning", None).unwrap();

    let learnings1 = learning_repo::list_learnings(&service.store, &task1.id);
    let learnings2 = learning_repo::list_learnings(&service.store, &task2.id);

    assert_eq!(learnings1.len(), 1);
    assert_eq!(learnings1[0].content, "Task 1 learning");
    assert_eq!(learnings2.len(), 1);
    assert_eq!(learnings2[0].content, "Task 2 learning");
}
