//! Commands on tasks.
use overseer::commands::args::{NextReadyArgs, SearchArgs, TaskCommand, TreeArgs};
use overseer::commands::task::{handle, TaskResult};
use overseer::db::store::Store;
use overseer::service::task_service::TaskService;
use overseer::types::CreateTaskInput;

fn setup() -> TaskService {
    TaskService::new(Store::new())
}

#[test]
fn test_next_ready_returns_highest_priority_ready_task() {
    let mut svc = setup();

    // Create milestone
    let milestone = svc
        .create(&CreateTaskInput {
            description: "Milestone".to_string(),
            context: None,
            parent_id: None,
            priority: None,
            blocked_by: vec![],
            ..Default::default()
        })
        .unwrap();

    // Create tasks with different priorities
    let _low_priority = svc
        .create(&CreateTaskInput {
            description: "Low priority".to_string(),
            context: None,
            parent_id: Some(milestone.id),
            priority: Some(1),
            blocked_by: vec![],
            ..Default::default()
        })
        .unwrap();

    let high_priority = svc
        .create(&CreateTaskInput {
            description: "High priority".to_string(),
            context: None,
            parent_id: Some(milestone.id),
            priority: Some(0),
            blocked_by: vec![],
            ..Default::default()
        })
        .unwrap();

    // Test next-ready command
    let result = handle(&mut svc,
        TaskCommand::NextReady(NextReadyArgs {
            milestone: Some(milestone.id),
        }),
    )
    .unwrap();

    if let TaskResult::MaybeOneWithContext(Some(task_ctx)) = result {
        assert_eq!(task_ctx.task.id, high_priority.id);
        assert_eq!(task_ctx.task.description, "High priority");
    } else {
        panic!("Expected MaybeOneWithContext(Some) result");
    }
}

#[test]
fn test_next_ready_skips_blocked_tasks() {
    let mut svc = setup();

    let milestone = svc
        .create(&CreateTaskInput {
            description: "Milestone".to_string(),
            context: None,
            parent_id: None,
            priority: None,
            blocked_by: vec![],
            ..Default::default()
        })
        .unwrap();

    let blocker = svc
        .create(&CreateTaskInput {
            description: "Blocker".to_string(),
            context: None,
            parent_id: Some(milestone.id),
            priority: Some(0),
            blocked_by: vec![],
            ..Default::default()
        })
        .unwrap();

    let _blocked = svc
        .create(&CreateTaskInput {
            description: "Blocked".to_string(),
            context: None,
            parent_id: Some(milestone.id),
            priority: Some(0),
            blocked_by: vec![blocker.id],
            ..Default::default()
        })
        .unwrap();

    let _ready = svc
        .create(&CreateTaskInput {
            description: "Ready".to_string(),
            context: None,
            parent_id: Some(milestone.id),
            priority: Some(1),
            blocked_by: vec![],
            ..Default::default()
        })
        .unwrap();

    // Test next-ready - should return highest priority unblocked task
    let result = handle(&mut svc,
        TaskCommand::NextReady(NextReadyArgs {
            milestone: Some(milestone.id),
        }),
    )
    .unwrap();

    if let TaskResult::MaybeOneWithContext(Some(task_ctx)) = result {
        // Should return "Blocker" (priority 5) not "Blocked" (priority 10, blocked)
        assert_eq!(task_ctx.task.id, blocker.id);
    } else {
        panic!("Expected MaybeOneWithContext(Some) result");
    }
}

#[test]
fn test_tree_builds_hierarchy() {
    let mut svc = setup();

    let milestone = svc
        .create(&CreateTaskInput {
            description: "Milestone".to_string(),
            context: None,
            parent_id: None,
            priority: None,
            blocked_by: vec![],
            ..Default::default()
        })
        .unwrap();

    let task1 = svc
        .create(&CreateTaskInput {
            description: "Task 1".to_string(),
            context: None,
            parent_id: Some(milestone.id),
            priority: None,
            blocked_by: vec![],
            ..Default::default()
        })
        .unwrap();

    let subtask1 = svc
        .create(&CreateTaskInput {
            description: "Subtask 1".to_string(),
            context: None,
            parent_id: Some(task1.id),
            priority: None,
            blocked_by: vec![],
            ..Default::default()
        })
        .unwrap();

    // Build tree
    let result = handle(&mut svc,
        TaskCommand::Tree(TreeArgs {
            id: Some(milestone.id),
        }),
    )
    .unwrap();

    if let TaskResult::Tree(tree) = result {
        assert_eq!(tree.task.id, milestone.id);
        assert_eq!(tree.children.len(), 1);
        assert_eq!(tree.children[0].task.id, task1.id);
        assert_eq!(tree.children[0].children.len(), 1);
        assert_eq!(tree.children[0].children[0].task.id, subtask1.id);
    } else {
        panic!("Expected Tree result");
    }
}

#[test]
fn test_search_finds_tasks_by_description() {
    let mut svc = setup();

    svc.create(&CreateTaskInput {
        description: "Implement feature".to_string(),
        context: None,
        parent_id: None,
        priority: None,
        blocked_by: vec![],
        ..Default::default()
    })
    .unwrap();

    svc.create(&CreateTaskInput {
        description: "Fix bug".to_string(),
        context: None,
        parent_id: None,
        priority: None,
        blocked_by: vec![],
        ..Default::default()
    })
    .unwrap();

    svc.create(&CreateTaskInput {
        description: "Write tests".to_string(),
        context: None,
        parent_id: None,
        priority: None,
        blocked_by: vec![],
        ..Default::default()
    })
    .unwrap();

    // Search for "feature"
    let result = handle(&mut svc,
        TaskCommand::Search(SearchArgs {
            query: "feature".to_string(),
        }),
    )
    .unwrap();

    if let TaskResult::Many(tasks) = result {
        assert_eq!(tasks.len(), 1);
        assert_eq!(tasks[0].description, "Implement feature");
    } else {
        panic!("Expected Many result");
    }
}

#[test]
fn test_search_finds_tasks_by_context() {
    let mut svc = setup();

    svc.create(&CreateTaskInput {
        description: "Task 1".to_string(),
        context: Some("backend API".to_string()),
        parent_id: None,
        priority: None,
        blocked_by: vec![],
        ..Default::default()
    })
    .unwrap();

    svc.create(&CreateTaskInput {
        description: "Task 2".to_string(),
        context: Some("frontend UI".to_string()),
        parent_id: None,
        priority: None,
        blocked_by: vec![],
        ..Default::default()
    })
    .unwrap();

    // Search for "backend"
    let result = handle(&mut svc,
        TaskCommand::Search(SearchArgs {
            query: "backend".to_string(),
        }),
    )
    .unwrap();

    if let TaskResult::Many(tasks) = result {
        assert_eq!(tasks.len(), 1);
        assert_eq!(tasks[0].description, "Task 1");
    } else {
        panic!("Expected Many result");
    }
}
