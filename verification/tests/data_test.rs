//! Exports.
use overseer::commands::args::DataCommand;
use overseer::commands::data::{self, export_data, export_data_at, DataResult};
use overseer::db::learning_repo;
use overseer::db::store::Store;
use overseer::service::task_service::TaskService;
use overseer::types::CreateTaskInput;

fn setup() -> TaskService {
    TaskService::new(Store::new())
}

#[test]
fn test_export_empty_database() {
    let svc = setup();
    let (export, result) = export_data(&svc, Some("export.json".to_string()));
    match result {
        DataResult::Exported { path, tasks, learnings } => {
            assert_eq!(path, "export.json");
            assert_eq!(tasks, 0);
            assert_eq!(learnings, 0);
        }
    }
    assert_eq!(export.version, "1.1.0");
    assert_eq!(export.tasks.len(), 0);
    assert_eq!(export.learnings.len(), 0);
    assert_eq!(export.blockers.len(), 0);
    assert!(export.exported_at.ends_with("+00:00"));
}

#[test]
fn test_export_with_tasks_and_learnings() {
    let mut task_service = setup();
    let task1 = task_service
        .create(&CreateTaskInput {
            description: "Task 1".to_string(),
            context: Some("Context 1".to_string()),
            parent_id: None,
            priority: Some(0),
            blocked_by: vec![],
            ..Default::default()
        })
        .unwrap();

    let _task2 = task_service
        .create(&CreateTaskInput {
            description: "Task 2".to_string(),
            context: Some("Context 2".to_string()),
            parent_id: Some(task1.id),
            priority: Some(1),
            blocked_by: vec![],
            ..Default::default()
        })
        .unwrap();

    learning_repo::add_learning(&mut task_service.store, &task1.id, "Learning 1", None).unwrap();

    let (export, result) = export_data(&task_service, Some("export.json".to_string()));
    match result {
        DataResult::Exported { tasks, learnings, .. } => {
            assert_eq!(tasks, 2);
            assert_eq!(learnings, 1);
        }
    }
    assert_eq!(export.tasks[0].description, "Task 1");
    assert_eq!(export.tasks[0].context, "Context 1");
    assert_eq!(export.tasks[1].parent_id, Some(task1.id));
    assert_eq!(export.learnings[0].content, "Learning 1");
}

#[test]
fn test_export_with_blockers() {
    let mut task_service = setup();
    let task1 = task_service
        .create(&CreateTaskInput {
            description: "Task 1".to_string(),
            context: None,
            parent_id: None,
            priority: None,
            blocked_by: vec![],
            ..Default::default()
        })
        .unwrap();

    let task2 = task_service
        .create(&CreateTaskInput {
            description: "Task 2".to_string(),
            context: None,
            parent_id: None,
            priority: None,
            blocked_by: vec![task1.id],
            ..Default::default()
        })
        .unwrap();

    let (export, _) = export_data(&task_service, Some("export.json".to_string()));
    assert_eq!(export.blockers.len(), 1);
    assert_eq!(export.blockers[0].task_id, task2.id);
    assert_eq!(export.blockers[0].blocker_id, task1.id);
}

#[test]
fn exports_have_a_place_and_a_time() {
    let svc = setup();
    let (export, result) = export_data_at(&svc, None, "2024-01-15T10:30:00+00:00");
    assert_eq!(export.exported_at, "2024-01-15T10:30:00+00:00");
    let DataResult::Exported { path, .. } = result;
    assert_eq!(path, "overseer-export.json");
    let (_, again) = data::handle(&svc, DataCommand::Export { output: Some("x".to_string()) });
    let DataResult::Exported { path, .. } = again;
    assert_eq!(path, "x");
}
