//! The laws of the task system, on concrete tasks.
use overseer::commands::args::{
    AddArgs, BlockArgs, CompleteArgs, CreateArgs, LearningCommand, ListArgs, NextReadyArgs,
    ProgressArgs, TaskCommand, TreeArgs, UnblockArgs, UpdateArgs,
};
use overseer::commands::learning;
use overseer::commands::learning::LearningResult;
use overseer::commands::task::{
    calculate_progress, handle, handle_at, handle_delete, handle_delete_at, handle_workflow_at,
    leftover_warning, needs, repo_dir_of, texts_hold, workflow_dir, Handled, Needs,
    TaskResult,
};
use overseer::db::learning_repo;
use overseer::db::store::Store;
use overseer::db::task_repo;
use overseer::error::{ConstraintError, NotReadyReason, OsError};
use overseer::id::{LearningId, TaskId};
use overseer::output::paint::{Printer, Terminal};
use overseer::service::task_service::TaskService;
use overseer::service::workflow_service::{
    Next, Step, TaskWorkflowService, VcsAction, VcsReply,
};
use overseer::time::Timestamp;
use overseer::types::{BlockerRelation, CreateTaskInput, ListTasksFilter, Task, UpdateTaskInput};
use overseer::vcs::backend::{VcsError, VcsType};

fn at(secs: i64) -> Timestamp {
    Timestamp { secs, nanos: 0 }
}

fn id(n: u128) -> TaskId {
    TaskId { ulid: n }
}

fn setup() -> TaskService {
    TaskService::new(Store::new())
}

fn add(svc: &mut TaskService, n: u128, parent: Option<u128>, blocked_by: &[u128]) -> Task {
    svc.create_at(
        &CreateTaskInput {
            description: format!("Task {}", n),
            parent_id: parent.map(id),
            blocked_by: blocked_by.iter().map(|b| id(*b)).collect(),
            ..Default::default()
        },
        id(n),
        at(n as i64),
    )
    .unwrap()
}

/// 1 -> 2 -> 3, 1 -> 4, 5
fn family() -> TaskService {
    let mut svc = setup();
    add(&mut svc, 1, None, &[]);
    add(&mut svc, 2, Some(1), &[]);
    add(&mut svc, 3, Some(2), &[]);
    add(&mut svc, 4, Some(1), &[]);
    add(&mut svc, 5, None, &[]);
    svc
}

fn ids(n: u128) -> Vec<LearningId> {
    (0..n).map(|i| LearningId { ulid: i }).collect()
}

fn complete(svc: &mut TaskService, n: u128) {
    svc.complete_at(&id(n), None, &vec![], None, &ids(50), at(100)).unwrap();
}

fn filter() -> ListTasksFilter {
    ListTasksFilter::default()
}

#[test]
fn refused_requests_change_nothing() {
    let mut svc = family();
    let before = format!("{:?}", svc.store.tasks);
    let input = CreateTaskInput { priority: Some(3), ..Default::default() };
    assert!(matches!(svc.create(&input), Err(OsError::InvalidPriority(3))));
    let input = CreateTaskInput { repo_path: Some("/abs".to_string()), ..Default::default() };
    match svc.create(&input) {
        Err(e @ OsError::InvalidRepoPath { .. }) => {
            assert_eq!(e.message(), "Invalid repo path '/abs': must be a relative path")
        }
        other => panic!("{:?}", other),
    }
    let input = CreateTaskInput { repo_path: Some("a/../b".to_string()), ..Default::default() };
    match svc.create(&input) {
        Err(e) => assert_eq!(
            e.message(),
            "Invalid repo path 'a/../b': must not contain '..' components"
        ),
        other => panic!("{:?}", other),
    }
    let input = CreateTaskInput { parent_id: Some(id(3)), ..Default::default() };
    assert!(matches!(svc.create(&input), Err(OsError::MaxDepthExceeded)));
    assert!(matches!(svc.reopen(&id(1)), Err(OsError::CannotReopenActive { state }) if state == "Pending"));
    assert!(matches!(svc.delete(&id(9)), Err(OsError::TaskNotFound(x)) if x == id(9)));
    assert_eq!(before, format!("{:?}", svc.store.tasks));
    let dotted = CreateTaskInput { repo_path: Some("a..b/c".to_string()), ..Default::default() };
    assert!(svc.create(&dotted).is_ok());
}

#[test]
fn the_same_blocker_twice_is_refused_late() {
    let mut svc = family();
    let input = CreateTaskInput { blocked_by: vec![id(5), id(5)], ..Default::default() };
    match svc.create_at(&input, id(6), at(6)) {
        Err(OsError::Database(ConstraintError::BlockerExists(e))) => {
            assert_eq!(e, BlockerRelation { task_id: id(6), blocker_id: id(5) });
        }
        other => panic!("{:?}", other),
    }
    assert_eq!(svc.get(&id(6)).unwrap().blocked_by, vec![id(5)]);
    match svc.create_at(&CreateTaskInput::default(), id(6), at(7)) {
        Err(e @ OsError::Database(ConstraintError::TaskExists(_))) => {
            assert_eq!(e.message(), "Database error: UNIQUE constraint failed: tasks.id")
        }
        other => panic!("{:?}", other),
    }
}

#[test]
fn the_tables_refuse_unknown_tasks() {
    let mut db = family().store;
    let before = format!("{:?}", db.tasks);
    let orphan = CreateTaskInput { parent_id: Some(id(9)), ..Default::default() };
    match task_repo::create_task(&mut db, &orphan, id(6), at(6)) {
        Err(e @ OsError::Database(ConstraintError::NotStored(x))) => {
            assert_eq!(x, id(9));
            assert_eq!(e.message(), "Database error: FOREIGN KEY constraint failed");
        }
        other => panic!("{:?}", other),
    }
    assert_eq!(before, format!("{:?}", db.tasks));
    let waiting = CreateTaskInput { blocked_by: vec![id(5), id(9), id(4)], ..Default::default() };
    match task_repo::create_task(&mut db, &waiting, id(6), at(6)) {
        Err(OsError::Database(ConstraintError::NotStored(x))) => assert_eq!(x, id(9)),
        other => panic!("{:?}", other),
    }
    assert_eq!(task_repo::get_blockers(&db, &id(6)), vec![id(5)]);
    match task_repo::add_blocker(&mut db, &id(6), &id(9)) {
        Err(OsError::Database(ConstraintError::NotStored(x))) => assert_eq!(x, id(9)),
        other => panic!("{:?}", other),
    }
    match task_repo::add_blocker(&mut db, &id(8), &id(9)) {
        Err(OsError::Database(ConstraintError::NotStored(x))) => assert_eq!(x, id(8)),
        other => panic!("{:?}", other),
    }
    assert!(task_repo::add_blocker(&mut db, &id(6), &id(4)).is_ok());
    assert!(task_repo::add_blocker(&mut db, &id(6), &id(4)).is_ok());
    assert_eq!(task_repo::get_blockers(&db, &id(6)), vec![id(5), id(4)]);
    let away = UpdateTaskInput { parent_id: Some(id(9)), ..Default::default() };
    match task_repo::update_task(&mut db, &id(6), &away, at(7)) {
        Err(OsError::Database(ConstraintError::NotStored(x))) => assert_eq!(x, id(9)),
        other => panic!("{:?}", other),
    }
    assert!(matches!(
        task_repo::update_task(&mut db, &id(8), &away, at(7)),
        Err(OsError::TaskNotFound(x)) if x == id(8)
    ));
}

#[test]
fn descendants_come_once() {
    let svc = family();
    let below: Vec<TaskId> =
        task_repo::get_all_descendants(&svc.store, &id(1)).iter().map(|t| t.id).collect();
    assert_eq!(below, vec![id(2), id(4), id(3)]);
    assert!(task_repo::get_all_descendants(&svc.store, &id(5)).is_empty());
}

#[test]
fn archived_tasks_are_frozen() {
    let mut svc = family();
    complete(&mut svc, 5);
    svc.archive_at(&id(5), at(101)).unwrap();
    assert!(matches!(svc.update(&id(5), &UpdateTaskInput::default()), Err(OsError::CannotModifyArchived)));
    assert!(matches!(svc.reopen(&id(5)), Err(OsError::CannotModifyArchived)));
    assert!(matches!(svc.cancel(&id(5)), Err(OsError::CannotModifyArchived)));
    assert!(matches!(svc.archive(&id(5)), Err(OsError::AlreadyArchived)));
    assert!(matches!(svc.add_blocker(&id(5), &id(1)), Err(OsError::CannotModifyArchived)));
    assert!(matches!(svc.remove_blocker(&id(5), &id(1)), Err(OsError::CannotModifyArchived)));
}

#[test]
fn deleting_removes_the_subtree_with_its_edges_and_learnings() {
    let mut svc = family();
    svc.add_blocker(&id(5), &id(3)).unwrap();
    svc.add_blocker(&id(5), &id(4)).unwrap();
    learning_repo::add_learning(&mut svc.store, &id(3), "gone", None).unwrap();
    learning_repo::add_learning(&mut svc.store, &id(4), "kept", None).unwrap();
    svc.delete(&id(2)).unwrap();
    let left: Vec<TaskId> = svc.list(&filter()).iter().map(|t| t.id).collect();
    assert_eq!(left, vec![id(1), id(4), id(5)]);
    assert_eq!(svc.get(&id(5)).unwrap().blocked_by, vec![id(4)]);
    assert_eq!(svc.store.learnings.len(), 1);
    assert_eq!(svc.store.learnings[0].content, "kept");
}

#[test]
fn blockers_never_form_a_cycle() {
    let mut svc = setup();
    for n in 1..5 {
        add(&mut svc, n, None, &[]);
    }
    svc.add_blocker(&id(1), &id(2)).unwrap();
    svc.add_blocker(&id(2), &id(3)).unwrap();
    svc.add_blocker(&id(3), &id(4)).unwrap();
    assert!(matches!(svc.add_blocker(&id(4), &id(1)), Err(OsError::BlockerCycle)));
    match svc.add_blocker(&id(1), &id(1)) {
        Err(e @ OsError::InvalidBlockerRelation { .. }) => {
            assert_eq!(e.message(), "Cannot block a task by itself")
        }
        other => panic!("{:?}", other),
    }
    assert!(svc.add_blocker(&id(1), &id(4)).is_ok());
    assert!(matches!(svc.add_blocker(&id(1), &id(9)), Err(OsError::BlockerNotFound(_))));
    svc.remove_blocker(&id(2), &id(3)).unwrap();
    svc.remove_blocker(&id(1), &id(4)).unwrap();
    assert!(svc.add_blocker(&id(4), &id(1)).is_ok());
}

#[test]
fn a_blocked_task_holds_up_everything_below_it() {
    let mut svc = family();
    svc.add_blocker(&id(1), &id(5)).unwrap();
    assert!(svc.get(&id(3)).unwrap().effectively_blocked);
    complete(&mut svc, 5);
    assert!(!svc.get(&id(3)).unwrap().effectively_blocked);
    svc.reopen_at(&id(5), at(101)).unwrap();
    assert!(svc.get(&id(3)).unwrap().effectively_blocked);
    svc.cancel_at(&id(5), at(102)).unwrap();
    assert!(svc.get(&id(3)).unwrap().effectively_blocked);
    assert!(matches!(svc.reopen(&id(5)), Err(OsError::CannotReopenCancelled)));
}

#[test]
fn a_task_that_is_completed_and_reopened_is_active_again() {
    let mut svc = family();
    let before = svc.get(&id(5)).unwrap();
    svc.complete_at(&id(5), Some("done"), &vec!["learned".to_string()], Some("abc"), &ids(50), at(100))
        .unwrap();
    let after = svc.reopen_at(&id(5), at(200)).unwrap();
    assert!(after.is_active_for_work());
    assert_eq!(after.completed_at, None);
    assert_eq!(after.result, Some("done".to_string()));
    assert_eq!(after.commit_sha, Some("abc".to_string()));
    assert_eq!(after.updated_at, at(200));
    assert_eq!(after.created_at, before.created_at);
    assert_eq!(svc.store.learnings.len(), 1);
}

#[test]
fn learnings_go_to_the_parent_once() {
    let mut svc = family();
    let texts = vec!["a".to_string(), "b".to_string()];
    svc.complete_at(&id(3), None, &texts, None, &ids(50), at(100)).unwrap();
    let got = |svc: &TaskService, n: u128| -> Vec<(String, Option<TaskId>)> {
        learning_repo::list_learnings(&svc.store, &id(n))
            .into_iter()
            .map(|l| (l.content, l.source_task_id))
            .collect()
    };
    let want = vec![("a".to_string(), Some(id(3))), ("b".to_string(), Some(id(3)))];
    assert_eq!(got(&svc, 3), want);
    assert_eq!(got(&svc, 2), want);
    assert!(got(&svc, 1).is_empty());
    assert!(got(&svc, 4).is_empty());
    svc.reopen_at(&id(3), at(101)).unwrap();
    svc.complete_at(&id(3), None, &texts, None, &ids(50), at(102)).unwrap();
    assert_eq!(got(&svc, 3).len(), 2);
    assert_eq!(got(&svc, 2).len(), 2);
}

#[test]
fn the_next_ready_task_is_a_leaf_that_waits_for_nothing() {
    let mut svc = family();
    assert_eq!(svc.next_ready(None).unwrap(), Some(id(3)));
    svc.add_blocker(&id(2), &id(5)).unwrap();
    assert_eq!(svc.next_ready(Some(&id(1))).unwrap(), Some(id(4)));
    complete(&mut svc, 4);
    assert_eq!(svc.next_ready(Some(&id(1))).unwrap(), None);
    assert_eq!(svc.next_ready(None).unwrap(), Some(id(5)));
    assert!(matches!(svc.next_ready(Some(&id(9))), Err(OsError::TaskNotFound(_))));
}

#[test]
fn what_is_started_for_a_blocked_task_can_be_worked_on() {
    let mut svc = family();
    svc.add_blocker(&id(2), &id(5)).unwrap();
    svc.add_blocker(&id(4), &id(5)).unwrap();
    assert_eq!(svc.resolve_start_target(&id(1)).unwrap(), id(5));
    complete(&mut svc, 5);
    assert_eq!(svc.resolve_start_target(&id(1)).unwrap(), id(3));
    match svc.resolve_start_target(&id(5)) {
        Err(e @ OsError::NoStartableTask { .. }) => assert_eq!(
            e.message(),
            "No startable task found under task_00000000000000000000000005"
        ),
        other => panic!("{:?}", other),
    }
}

#[test]
fn what_holds_up_a_task_above_is_started_first() {
    let mut svc = setup();
    add(&mut svc, 1, None, &[]);
    add(&mut svc, 2, None, &[1]);
    add(&mut svc, 3, Some(2), &[]);
    add(&mut svc, 4, Some(3), &[]);
    assert_eq!(svc.resolve_start_target(&id(3)).unwrap(), id(1));
    assert_eq!(svc.resolve_start_target(&id(4)).unwrap(), id(1));
    assert_eq!(svc.next_ready(Some(&id(3))).unwrap(), None);
    complete(&mut svc, 1);
    assert_eq!(svc.resolve_start_target(&id(3)).unwrap(), id(4));
    assert_eq!(svc.next_ready(Some(&id(3))).unwrap(), Some(id(4)));
}

#[test]
fn cycles_through_the_hierarchy_are_detected() {
    let mut svc = setup();
    add(&mut svc, 1, None, &[]);
    add(&mut svc, 2, Some(1), &[]);
    add(&mut svc, 3, None, &[]);
    add(&mut svc, 4, Some(3), &[]);
    svc.add_blocker(&id(2), &id(3)).unwrap();
    svc.add_blocker(&id(4), &id(1)).unwrap();
    match svc.resolve_start_target(&id(1)) {
        Err(e @ OsError::BlockerCycleDetected { .. }) => assert_eq!(
            e.message(),
            "Blocker cycle detected: task_00000000000000000000000003 -> task_00000000000000000000000001 -> task_00000000000000000000000003"
        ),
        other => panic!("{:?}", other),
    }
}

#[test]
fn moving_a_task_keeps_three_levels_and_no_cycle() {
    let mut svc = family();
    let to = |p: u128| UpdateTaskInput { parent_id: Some(id(p)), ..Default::default() };
    assert!(matches!(svc.update(&id(1), &to(3)), Err(OsError::ParentCycle)));
    assert!(matches!(svc.update(&id(1), &to(1)), Err(OsError::ParentCycle)));
    assert!(matches!(svc.update(&id(1), &to(5)), Err(OsError::MaxDepthExceeded)));
    assert!(matches!(svc.update(&id(4), &to(9)), Err(OsError::ParentNotFound(_))));
    assert_eq!(svc.update(&id(2), &to(5)).unwrap().depth, Some(1));
    assert_eq!(svc.get(&id(3)).unwrap().depth, Some(2));
    svc.add_blocker(&id(4), &id(5)).unwrap();
    match svc.update(&id(4), &to(2)) {
        Err(e @ OsError::InvalidBlockerRelation { .. }) => {
            assert_eq!(e.message(), "Reparent would make a blocker an ancestor")
        }
        other => panic!("{:?}", other),
    }
}

#[test]
fn a_blocker_can_come_to_stand_above_a_task_through_its_parent() {
    let mut svc = setup();
    add(&mut svc, 1, None, &[]);
    add(&mut svc, 2, None, &[]);
    add(&mut svc, 3, Some(1), &[2]);
    let to = UpdateTaskInput { parent_id: Some(id(2)), ..Default::default() };
    assert!(svc.update(&id(1), &to).is_ok());
    assert_eq!(svc.get(&id(3)).unwrap().blocked_by, vec![id(2)]);
    assert_eq!(svc.get(&id(3)).unwrap().depth, Some(2));
}

#[test]
fn progress_adds_up() {
    let mut svc = family();
    svc.add_blocker(&id(4), &id(5)).unwrap();
    complete(&mut svc, 3);
    let p = calculate_progress(&svc, Some(id(1))).unwrap();
    assert_eq!((p.total, p.completed, p.ready, p.blocked), (4, 1, 2, 1));
    let p = calculate_progress(&svc, None).unwrap();
    assert_eq!((p.total, p.completed, p.ready, p.blocked), (5, 1, 3, 1));
    svc.cancel_at(&id(4), at(101)).unwrap();
    let p = calculate_progress(&svc, None).unwrap();
    assert_eq!((p.total, p.completed, p.ready, p.blocked), (5, 1, 3, 1));
    svc.remove_blocker(&id(4), &id(5)).unwrap();
    let p = calculate_progress(&svc, None).unwrap();
    assert_eq!((p.total, p.completed, p.ready, p.blocked), (5, 1, 4, 0));
    assert!(matches!(calculate_progress(&svc, Some(id(9))), Err(OsError::TaskNotFound(_))));
}

#[test]
fn trees_hold_each_task_once() {
    let mut svc = family();
    let cmd = TaskCommand::Tree(TreeArgs { id: Some(id(1)) });
    let t = match handle(&mut svc, cmd).unwrap() {
        TaskResult::Tree(t) => t,
        other => panic!("{:?}", other),
    };
    assert_eq!(t.task.id, id(1));
    assert_eq!(t.children.len(), 2);
    assert_eq!(t.children[0].task.id, id(2));
    assert_eq!(t.children[0].children[0].task.id, id(3));
    assert_eq!(t.children[1].task.id, id(4));
    assert!(t.children[1].children.is_empty());
}

#[test]
fn listings_filter() {
    let mut svc = family();
    complete(&mut svc, 3);
    svc.add_blocker(&id(4), &id(5)).unwrap();
    let got = |svc: &TaskService, f: ListTasksFilter| -> Vec<TaskId> {
        svc.list(&f).iter().map(|t| t.id).collect()
    };
    assert_eq!(got(&svc, ListTasksFilter { depth: Some(0), ..filter() }), vec![id(1), id(5)]);
    assert_eq!(got(&svc, ListTasksFilter { parent_id: Some(id(1)), ..filter() }), vec![id(2), id(4)]);
    assert_eq!(got(&svc, ListTasksFilter { completed: Some(true), ..filter() }), vec![id(3)]);
    assert_eq!(got(&svc, ListTasksFilter { ready: true, ..filter() }), vec![id(1), id(2), id(5)]);
    assert_eq!(got(&svc, ListTasksFilter { archived: Some(true), ..filter() }), vec![]);
    assert_eq!(got(&svc, ListTasksFilter { repo_path: Some("x".to_string()), ..filter() }), vec![]);
    assert_eq!(task_repo::list_roots(&svc.store).len(), 2);
}

#[test]
fn every_command_on_tasks_is_handled() {
    let mut svc = setup();
    let create = TaskCommand::Create(CreateArgs {
        description: "New".to_string(),
        context: Some("Why".to_string()),
        parent: None,
        priority: Some(2),
        blocked_by: vec![],
        repo: Some("web".to_string()),
    });
    match handle_at(&mut svc, create, id(1), at(1)).unwrap() {
        TaskResult::One(t) => {
            assert_eq!((t.id, t.priority, t.depth), (id(1), 2, Some(0)));
            assert_eq!(t.repo_path, Some("web".to_string()));
        }
        other => panic!("{:?}", other),
    }
    match handle(&mut svc, TaskCommand::Get { id: id(1) }).unwrap() {
        TaskResult::OneWithContext(w) => assert_eq!(w.context.own, "Why"),
        other => panic!("{:?}", other),
    }
    let update = TaskCommand::Update(UpdateArgs {
        id: id(1),
        description: Some("Newer".to_string()),
        context: None,
        priority: None,
        parent: None,
        repo: None,
        clear_repo: true,
    });
    match handle(&mut svc, update).unwrap() {
        TaskResult::One(t) => {
            assert_eq!(t.description, "Newer");
            assert_eq!(t.repo_path, None);
        }
        other => panic!("{:?}", other),
    }
    add(&mut svc, 2, None, &[]);
    let block = TaskCommand::Block(BlockArgs { id: id(1), by: id(2) });
    assert!(matches!(handle(&mut svc, block).unwrap(), TaskResult::One(t) if t.effectively_blocked));
    match handle(&mut svc, TaskCommand::NextReady(NextReadyArgs { milestone: None })).unwrap() {
        TaskResult::MaybeOneWithContext(Some(w)) => assert_eq!(w.task.id, id(2)),
        other => panic!("{:?}", other),
    }
    match handle(&mut svc, TaskCommand::NextReady(NextReadyArgs { milestone: Some(id(1)) })).unwrap() {
        TaskResult::MaybeOneWithContext(None) => {}
        other => panic!("{:?}", other),
    }
    let unblock = TaskCommand::Unblock(UnblockArgs { id: id(1), by: id(2) });
    assert!(matches!(handle(&mut svc, unblock).unwrap(), TaskResult::One(t) if t.blocked_by.is_empty()));
    assert!(matches!(
        handle(&mut svc, TaskCommand::Start { id: id(1) }),
        Err(OsError::NotARepository)
    ));
    let done = TaskCommand::Complete(CompleteArgs { id: id(1), result: None, learnings: vec![] });
    assert!(matches!(handle(&mut svc, done), Err(OsError::NotARepository)));
    match handle(&mut svc, TaskCommand::Cancel { id: id(1) }).unwrap() {
        TaskResult::One(t) => assert!(t.cancelled),
        other => panic!("{:?}", other),
    }
    assert!(matches!(
        handle(&mut svc, TaskCommand::Reopen { id: id(1) }),
        Err(OsError::CannotReopenCancelled)
    ));
    match handle(&mut svc, TaskCommand::Archive { id: id(1) }).unwrap() {
        TaskResult::One(t) => assert!(t.archived),
        other => panic!("{:?}", other),
    }
    let list = |archived, all| {
        TaskCommand::List(ListArgs {
            parent: None,
            ready: false,
            completed: false,
            milestones: true,
            tasks: false,
            subtasks: false,
            archived,
            all,
            flat: false,
            repo: None,
        })
    };
    for (archived, all, n) in [(false, false, 1), (true, false, 1), (false, true, 2)] {
        match handle(&mut svc, list(archived, all)).unwrap() {
            TaskResult::Many(ts) => assert_eq!(ts.len(), n),
            other => panic!("{:?}", other),
        }
    }
    match handle(&mut svc, TaskCommand::Progress(ProgressArgs { id: None })).unwrap() {
        TaskResult::Progress(p) => assert_eq!((p.total, p.ready), (2, 2)),
        other => panic!("{:?}", other),
    }
    assert!(matches!(
        handle(&mut svc, TaskCommand::Delete { id: id(1) }).unwrap(),
        TaskResult::Deleted
    ));
    assert!(matches!(
        handle(&mut svc, TaskCommand::Get { id: id(1) }),
        Err(OsError::TaskNotFound(_))
    ));
}

#[test]
fn deletions_leave_bookmarks_over() {
    let mut svc = family();
    task_repo::set_bookmark(&mut svc.store, &id(1), "task/one", at(9));
    task_repo::set_bookmark(&mut svc.store, &id(3), "task/three", at(9));
    let to_web = UpdateTaskInput { repo_path: Some("web".to_string()), ..Default::default() };
    svc.update_at(&id(3), &to_web, at(9)).unwrap();
    let (r, left) =
        handle_delete_at(&mut svc, TaskCommand::Delete { id: id(1) }, Some("/w"), id(0), at(10));
    assert!(matches!(r, Ok(TaskResult::Deleted)));
    let pairs: Vec<(&str, &str)> =
        left.iter().map(|l| (l.dir.as_str(), l.bookmark.as_str())).collect();
    assert_eq!(pairs, vec![("/w", "task/one"), ("/w/web", "task/three")]);
    let (r, left) = handle_delete(&mut svc, TaskCommand::Delete { id: id(1) }, Some("/w"));
    assert!(matches!(r, Err(OsError::TaskNotFound(_))));
    assert!(left.is_empty());
    let (r, left) = handle_delete(&mut svc, TaskCommand::Delete { id: id(5) }, None);
    assert!(r.is_ok() && left.is_empty());
    assert_eq!(
        leftover_warning("task/one", &VcsError::Git("x".to_string())),
        "warn: failed to delete bookmark task/one: git error: x"
    );
}

#[test]
fn searching_looks_at_all_texts() {
    assert!(texts_hold("abc", "", &None, "bc"));
    assert!(texts_hold("", "abc", &None, "bc"));
    assert!(texts_hold("", "", &Some("abc".to_string()), "bc"));
    assert!(!texts_hold("ab", "c", &Some("x".to_string()), "bc"));
}

#[test]
fn commands_on_learnings_are_handled() {
    let mut svc = family();
    let add = |n: u128, text: &str| {
        LearningCommand::Add(AddArgs { task_id: id(n), content: text.to_string(), source: None })
    };
    let first = match learning::handle_at(&mut svc, add(1, "x"), LearningId { ulid: 7 }, at(9)).unwrap() {
        LearningResult::One(l) => l,
        other => panic!("{:?}", other),
    };
    assert_eq!((first.id, first.source_task_id), (LearningId { ulid: 7 }, Some(id(1))));
    match learning::handle(&mut svc, add(1, "x")).unwrap() {
        LearningResult::One(l) => assert_eq!(l.id, first.id),
        other => panic!("{:?}", other),
    }
    assert!(matches!(learning::handle(&mut svc, add(9, "x")), Err(OsError::TaskNotFound(_))));
    match learning::handle(&mut svc, LearningCommand::List { task_id: id(1) }).unwrap() {
        LearningResult::Many(ls) => assert_eq!(ls.len(), 1),
        other => panic!("{:?}", other),
    }
    assert!(matches!(
        learning::handle(&mut svc, LearningCommand::Delete { id: first.id }).unwrap(),
        LearningResult::Deleted
    ));
    match learning::handle(&mut svc, LearningCommand::Delete { id: first.id }) {
        Err(e @ OsError::LearningNotFound(_)) => {
            assert_eq!(e.message(), "Learning not found: lrn_00000000000000000000000007")
        }
        other => panic!("{:?}", other),
    }
}

/// Runs a step to the end with these replies; gives the answer, the actions and the warnings.
fn run(
    w: &mut TaskWorkflowService,
    first: Step,
    replies: Vec<VcsReply>,
) -> (Result<Task, OsError>, Vec<String>, Vec<String>) {
    let mut replies = replies.into_iter();
    let mut actions = Vec::new();
    let mut warnings = Vec::new();
    let mut step = first;
    loop {
        if let Some(text) = step.warning {
            warnings.push(text);
        }
        match step.next {
            Next::Over(r) => return (r, actions, warnings),
            Next::Do { action, run } => {
                actions.push(match &action {
                    VcsAction::CurrentBranchName => "branch".to_string(),
                    VcsAction::CreateBookmark { name } => format!("create {}", name),
                    VcsAction::Checkout { target } => format!("checkout {}", target),
                    VcsAction::CurrentCommitId => "id".to_string(),
                    VcsAction::WorkingCommitId => "here".to_string(),
                    VcsAction::Commit { message } => format!("commit {}", message),
                    VcsAction::MergeFastForward { source, target } => {
                        format!("merge {} into {}", source, target)
                    }
                    VcsAction::DeleteBookmark { name } => format!("delete {}", name),
                });
                step = w.resume(run, replies.next().unwrap());
            }
        }
    }
}

fn ok() -> VcsReply {
    VcsReply::Done(Ok(()))
}

#[test]
fn starting_asks_the_repository_first() {
    let mut w = TaskWorkflowService::new(family(), VcsType::Git);
    let first = w.start(&id(3));
    let (r, actions, _) = run(
        &mut w,
        first,
        vec![VcsReply::Branch(Ok(Some("main".to_string()))), ok(), VcsReply::Done(Err(VcsError::DirtyWorkingCopy))],
    );
    assert!(matches!(r, Err(OsError::DirtyWorkingCopy)));
    let name = "task/task_00000000000000000000000003";
    assert_eq!(
        actions,
        vec!["branch".to_string(), format!("create {}", name), format!("checkout {}", name)]
    );
    assert!(w.task_service().get(&id(3)).unwrap().started_at.is_none());
    let first = w.start(&id(3));
    let (r, _, _) = run(
        &mut w,
        first,
        vec![
            VcsReply::Branch(Ok(Some("main".to_string()))),
            VcsReply::Done(Err(VcsError::BookmarkExists(name.to_string()))),
            ok(),
            VcsReply::Id(Ok("c0".to_string())),
        ],
    );
    let t = r.unwrap();
    assert_eq!(t.bookmark, Some(name.to_string()));
    assert_eq!(t.start_commit, Some("c0".to_string()));
    assert_eq!(t.base_ref, Some("main".to_string()));
    assert!(w.task_service().get(&id(1)).unwrap().started_at.is_some());
    assert!(w.task_service().get(&id(1)).unwrap().bookmark.is_none());
    let first = w.start(&id(3));
    let (r, actions, _) = run(&mut w, first, vec![ok()]);
    assert_eq!(actions, vec![format!("checkout {}", name)]);
    assert_eq!(r.unwrap().started_at, t.started_at);
}

#[test]
fn tasks_that_cannot_be_started_say_why() {
    let mut svc = family();
    svc.add_blocker(&id(4), &id(5)).unwrap();
    let mut w = TaskWorkflowService::new(svc, VcsType::Jj);
    let first = w.start(&id(1));
    match run(&mut w, first, vec![]).0 {
        Err(OsError::NotNextReady { message, next_ready, reason, .. }) => {
            assert_eq!(
                message,
                "Cannot start 'Task 1' - has incomplete children. Start 'Task 3' instead."
            );
            assert_eq!(next_ready, Some(id(3)));
            assert!(matches!(reason, NotReadyReason::HasIncompleteChildren));
        }
        other => panic!("{:?}", other),
    }
    let first = w.start(&id(4));
    match run(&mut w, first, vec![]).0 {
        Err(OsError::NotNextReady { message, reason, .. }) => {
            assert_eq!(
                message,
                "Cannot start 'Task 4' - blocked by task_00000000000000000000000005. Start 'task_00000000000000000000000003' instead."
            );
            assert!(matches!(reason, NotReadyReason::Blocked { blockers } if blockers == vec![id(5)]));
        }
        other => panic!("{:?}", other),
    }
    complete(&mut w.task_service, 5);
    let first = w.start(&id(5));
    assert!(matches!(run(&mut w, first, vec![]).0, Err(OsError::CannotStartCompleted)));
    w.task_service.cancel_at(&id(3), at(101)).unwrap();
    let first = w.start(&id(3));
    assert!(matches!(run(&mut w, first, vec![]).0, Err(OsError::CannotStartCancelled)));
    let first = w.start(&id(9));
    assert!(matches!(run(&mut w, first, vec![]).0, Err(OsError::TaskNotFound(_))));
}

#[test]
fn completing_commits_and_merges_before_anything_is_stored() {
    let mut svc = setup();
    add(&mut svc, 1, None, &[]);
    add(&mut svc, 2, Some(1), &[]);
    add(&mut svc, 3, Some(1), &[]);
    svc.start_at(&id(2), at(5)).unwrap();
    task_repo::set_bookmark(&mut svc.store, &id(2), "task/two", at(5));
    task_repo::set_base_ref(&mut svc.store, &id(2), "main", at(5));
    let mut w = TaskWorkflowService::new(svc, VcsType::Git);
    let first = w.complete(&id(2), Some("Done"));
    let (r, actions, _) =
        run(&mut w, first, vec![VcsReply::Done(Err(VcsError::Git("x".to_string())))]);
    assert_eq!(r.unwrap_err().message(), "VCS error: git error: x");
    assert_eq!(actions, vec!["commit Complete: Task 2\n\nDone"]);
    let first = w.complete(&id(2), Some("Done"));
    let (r, _, _) = run(
        &mut w,
        first,
        vec![VcsReply::Done(Err(VcsError::NothingToCommit)), VcsReply::Merged(Ok(false))],
    );
    assert_eq!(
        r.unwrap_err().message(),
        "Task integration required before completion: merge task/two into main for task task_00000000000000000000000002"
    );
    assert!(!w.task_service().get(&id(2)).unwrap().completed);
    let first = w.complete(&id(2), Some("Done"));
    let (r, actions, warnings) = run(
        &mut w,
        first,
        vec![
            ok(),
            VcsReply::Merged(Ok(true)),
            VcsReply::MaybeId(Some("c1".to_string())),
            VcsReply::Id(Ok("c1".to_string())),
            ok(),
            VcsReply::Done(Err(VcsError::Git("busy".to_string()))),
        ],
    );
    let t = r.unwrap();
    assert!(t.completed);
    assert_eq!(t.commit_sha, Some("c1".to_string()));
    assert_eq!(actions[1..], ["merge task/two into main", "here", "id", "checkout c1", "delete task/two"]);
    assert_eq!(warnings, vec!["warn: failed to delete bookmark task/two: git error: busy"]);
    assert_eq!(w.task_service().get(&id(2)).unwrap().bookmark, Some("task/two".to_string()));
    let first = w.complete(&id(2), None);
    let (r, actions, _) = run(&mut w, first, vec![]);
    assert!(r.is_ok() && actions.is_empty());
}

#[test]
fn a_milestone_is_completed_after_its_last_task() {
    let mut svc = setup();
    add(&mut svc, 1, None, &[]);
    add(&mut svc, 2, Some(1), &[]);
    task_repo::set_bookmark(&mut svc.store, &id(2), "task/two", at(5));
    let mut w = TaskWorkflowService::new(svc, VcsType::Jj);
    let first = w.complete(&id(2), None);
    let (r, actions, warnings) = run(
        &mut w,
        first,
        vec![
            ok(),
            VcsReply::MaybeId(None),
            VcsReply::Id(Err(VcsError::NoWorkingCopy)),
            ok(),
            VcsReply::MaybeId(None),
            VcsReply::Id(Ok("c2".to_string())),
            ok(),
            ok(),
        ],
    );
    assert_eq!(r.unwrap().id, id(2));
    assert_eq!(
        warnings,
        vec!["warn: no checkout target available - skipping branch cleanup for task/two"]
    );
    assert_eq!(
        actions,
        vec![
            "commit Complete: Task 2\n\n",
            "here",
            "id",
            "commit Milestone: Task 1\n\n",
            "here",
            "id",
            "checkout c2",
            "delete task/two"
        ]
    );
    assert!(w.task_service().get(&id(1)).unwrap().completed);
    assert!(w.task_service().get(&id(2)).unwrap().bookmark.is_none());
}

#[test]
fn a_cancelled_parent_is_not_completed() {
    let mut svc = setup();
    add(&mut svc, 1, None, &[]);
    add(&mut svc, 2, Some(1), &[]);
    add(&mut svc, 3, Some(2), &[]);
    complete(&mut svc, 3);
    svc.cancel_at(&id(2), at(101)).unwrap();
    svc.reopen_at(&id(3), at(102)).unwrap();
    let mut w = TaskWorkflowService::new(svc, VcsType::Jj);
    let first = w.complete(&id(3), None);
    let (r, actions, _) = run(&mut w, first, vec![ok(), VcsReply::MaybeId(None)]);
    assert_eq!(r.unwrap().id, id(3));
    assert_eq!(actions, vec!["commit Complete: Task 3\n\n", "here"]);
    let parent = w.task_service().get(&id(2)).unwrap();
    assert!(parent.cancelled && !parent.completed);
    assert!(!w.task_service().get(&id(1)).unwrap().completed);
}

#[test]
fn a_completed_parent_is_completed_again_and_passes_on_what_was_learned() {
    for archived in [false, true] {
        let mut svc = setup();
        add(&mut svc, 1, None, &[]);
        add(&mut svc, 2, Some(1), &[]);
        add(&mut svc, 3, Some(2), &[]);
        complete(&mut svc, 3);
        let done = Some("first result");
        svc.complete_at(&id(2), done, &vec![], Some("old"), &ids(50), at(101)).unwrap();
        if archived {
            svc.archive_at(&id(2), at(102)).unwrap();
        }
        svc.reopen_at(&id(3), at(103)).unwrap();
        let mut w = TaskWorkflowService::new(svc, VcsType::Jj);
        let first = w.complete_with_learnings(&id(3), None, &vec!["late".to_string()]);
        let (r, actions, _) = run(
            &mut w,
            first,
            vec![
                ok(),
                VcsReply::MaybeId(None),
                VcsReply::MaybeId(Some("new".to_string())),
                ok(),
                VcsReply::MaybeId(None),
                VcsReply::Id(Ok("c".to_string())),
                ok(),
            ],
        );
        assert_eq!(r.unwrap().id, id(3));
        assert_eq!(actions[1..4], ["here", "here", "commit Milestone: Task 1\n\n"]);
        let parent = w.task_service().get(&id(2)).unwrap();
        assert!(parent.completed);
        assert_eq!(parent.archived, archived);
        assert_eq!(parent.result, None);
        assert_eq!(parent.commit_sha, Some("new".to_string()));
        assert_ne!(parent.completed_at, Some(at(101)));
        let top = learning_repo::list_learnings(&w.task_service().store, &id(1));
        assert_eq!(top.len(), 1);
        assert_eq!(top[0].content, "late");
        assert!(w.task_service().get(&id(1)).unwrap().completed);
    }
}

#[test]
fn commands_work_in_the_repository_of_their_task() {
    let mut svc = setup();
    add(&mut svc, 1, None, &[]);
    add(&mut svc, 2, None, &[1]);
    let web = UpdateTaskInput { repo_path: Some("web".to_string()), ..Default::default() };
    svc.update_at(&id(1), &web, at(9)).unwrap();
    let start = |n| TaskCommand::Start { id: id(n) };
    let done =
        |n| TaskCommand::Complete(CompleteArgs { id: id(n), result: None, learnings: vec![] });
    assert_eq!(workflow_dir(&svc, &start(1), "/w"), "/w/web");
    assert_eq!(workflow_dir(&svc, &start(2), "/w"), "/w/web");
    assert_eq!(workflow_dir(&svc, &start(9), "/w"), "/w");
    assert_eq!(workflow_dir(&svc, &done(1), "/w"), "/w/web");
    assert_eq!(workflow_dir(&svc, &done(2), "/w"), "/w");
    assert_eq!(workflow_dir(&svc, &done(9), "/w"), "/w");
    assert_eq!(workflow_dir(&svc, &TaskCommand::Reopen { id: id(1) }, "/w"), "/w");
}

#[test]
fn commands_in_a_repository_take_steps() {
    let mut w = TaskWorkflowService::new(family(), VcsType::Jj);
    match handle_workflow_at(&mut w, TaskCommand::Start { id: id(1) }, id(0), at(9)) {
        Handled::Step(s) => assert!(matches!(
            s.next,
            Next::Do { action: VcsAction::CreateBookmark { name }, .. }
                if name == "task/task_00000000000000000000000003"
        )),
        other => panic!("{:?}", other),
    }
    let done =
        TaskCommand::Complete(CompleteArgs { id: id(4), result: None, learnings: vec![] });
    assert!(matches!(handle_workflow_at(&mut w, done, id(0), at(9)), Handled::Step(_)));
    assert!(matches!(
        handle_workflow_at(&mut w, TaskCommand::Get { id: id(4) }, id(0), at(9)),
        Handled::Answer(Ok(TaskResult::OneWithContext(_)))
    ));
}

#[test]
fn stored_rows_are_taken_only_where_they_keep_the_rules() {
    let svc = family();
    let rows = || svc.store.tasks.clone();
    assert!(Store::from_rows(rows(), vec![], vec![]).is_some());
    let mut twice = rows();
    twice.push(svc.store.tasks[0].clone());
    assert!(Store::from_rows(twice, vec![], vec![]).is_none());
    let mut orphan = rows();
    orphan[4].parent_id = Some(id(99));
    assert!(Store::from_rows(orphan, vec![], vec![]).is_none());
    let mut deep = rows();
    deep[4].parent_id = Some(id(3));
    assert!(Store::from_rows(deep, vec![], vec![]).is_none());
    let edge = BlockerRelation { task_id: id(1), blocker_id: id(99) };
    assert!(Store::from_rows(rows(), vec![edge], vec![]).is_none());
    let edge = BlockerRelation { task_id: id(1), blocker_id: id(5) };
    assert!(Store::from_rows(rows(), vec![edge, edge], vec![]).is_none());
    assert!(Store::from_rows(rows(), vec![edge], vec![]).is_some());
}

#[test]
fn errors_have_texts() {
    let t = id(1);
    let name = "task_00000000000000000000000001";
    let cases: Vec<(OsError, String)> = vec![
        (OsError::TaskNotFound(t), format!("Task {} not found", name)),
        (OsError::ParentNotFound(t), format!("Parent task not found: {}", name)),
        (OsError::BlockerNotFound(t), format!("Blocker task not found: {}", name)),
        (OsError::MaxDepthExceeded, "Max task depth (2) exceeded".to_string()),
        (OsError::ParentCycle, "Cycle detected in parent chain".to_string()),
        (OsError::BlockerCycle, "Cycle detected in blocker chain".to_string()),
        (OsError::PendingChildren, "Cannot complete task with pending children".to_string()),
        (OsError::CannotCancelCompleted, "Cannot cancel completed task".to_string()),
        (OsError::AlreadyCancelled, "Task is already cancelled".to_string()),
        (
            OsError::CannotArchiveActive,
            "Cannot archive active task (must be completed or cancelled first)".to_string(),
        ),
        (OsError::AlreadyArchived, "Task is already archived".to_string()),
        (OsError::CannotModifyArchived, "Cannot modify archived task".to_string()),
        (OsError::CannotReopenCancelled, "Cannot reopen cancelled task".to_string()),
        (
            OsError::CannotReopenActive { state: "Pending".to_string() },
            "Cannot reopen active task (task is Pending, must be completed)".to_string(),
        ),
        (OsError::CannotStartCompleted, "Cannot start completed task".to_string()),
        (OsError::CannotStartCancelled, "Cannot start cancelled task".to_string()),
        (
            OsError::from(VcsError::DetachedHead),
            "Cannot start from detached HEAD in git repository".to_string(),
        ),
        (
            OsError::from(VcsError::UnbornRepository),
            "Cannot start in git repository without any commits".to_string(),
        ),
        (
            OsError::MissingBaseRef { task_id: t },
            format!("Missing baseRef for started task: {} (checkout intended base branch, run tasks.start(task_id), then retry complete)", name),
        ),
        (OsError::CannotCompleteCancelled, "Cannot complete cancelled task".to_string()),
        (OsError::CannotCompleteArchived, "Cannot complete archived task".to_string()),
        (
            OsError::CannotAttachChildToInactiveParent { parent_id: t, state: "Archived".to_string() },
            format!("Cannot attach child to inactive parent (parent {} is Archived)", name),
        ),
        (OsError::InvalidPriority(-1), "Invalid priority: -1 (must be 0-2)".to_string()),
        (OsError::Io("x".to_string()), "IO error: x".to_string()),
        (OsError::Json("x".to_string()), "JSON error: x".to_string()),
        (
            OsError::from(VcsError::NotARepository),
            "No VCS repository found in current directory".to_string(),
        ),
        (
            OsError::from(VcsError::DirtyWorkingCopy),
            "Working copy has uncommitted changes - commit or stash first".to_string(),
        ),
        (
            OsError::from(VcsError::NothingToCommit),
            "VCS error: nothing to commit".to_string(),
        ),
    ];
    for (e, text) in cases {
        assert_eq!(e.message(), text);
    }
}

#[test]
fn commands_say_what_they_need() {
    let start = TaskCommand::Start { id: id(1) };
    assert_eq!(needs(&start), Needs::Repository);
    let done = TaskCommand::Complete(CompleteArgs { id: id(1), result: None, learnings: vec![] });
    assert_eq!(needs(&done), Needs::Repository);
    assert_eq!(needs(&TaskCommand::Delete { id: id(1) }), Needs::Leftovers);
    assert_eq!(needs(&TaskCommand::Reopen { id: id(1) }), Needs::Nothing);
    assert_eq!(repo_dir_of("/w", &None), "/w");
    assert_eq!(repo_dir_of("/w", &Some("web".to_string())), "/w/web");
}

#[test]
fn a_forest_has_one_line_for_each_listed_task() {
    let svc = family();
    let tasks = svc.list(&ListTasksFilter { parent_id: None, ..filter() });
    let terminal =
        Terminal { no_color: true, term: None, stdout_is_tty: false, stderr_is_tty: false };
    let lines = Printer::new(false, &terminal).print_task_list_tree(&tasks);
    assert_eq!(lines.len(), tasks.len() + 2);
    for t in &tasks {
        let text = t.id.to_text();
        assert_eq!(lines.iter().filter(|l| l.contains(text.as_str())).count(), 1);
    }
}
