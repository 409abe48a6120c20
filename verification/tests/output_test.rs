//! The human-readable output.
use overseer::commands::args::{ListArgs, SearchArgs, TaskCommand, TreeArgs};
use overseer::commands::data::DataResult;
use overseer::commands::learning::LearningResult;
use overseer::commands::task::{handle_at, TaskProgressResult, TaskResult, TaskTree};
use overseer::commands::vcs::{CleanupResult, FailedBranch, OrphanReason, OrphanedBranch};
use overseer::db::store::Store;
use overseer::id::{LearningId, TaskId};
use overseer::output::paint::{should_use_color_for, Printer, Terminal};
use overseer::output::report::Answer;
use overseer::output::status::TaskStatus;
use overseer::service::task_service::TaskService;
use overseer::time::Timestamp;
use overseer::types::{CreateTaskInput, Learning, Task};
use overseer::vcs::backend::{
    ChangeType, CommitResult, DiffEntry, FileStatus, FileStatusKind, LogEntry, VcsInfo, VcsStatus,
    VcsType,
};

const T0: &str = "task_00000000000000000000000001";
const T1: &str = "task_00000000000000000000000002";
const T2: &str = "task_00000000000000000000000003";

fn at(secs: i64) -> Timestamp {
    Timestamp { secs, nanos: 0 }
}

fn terminal(tty: bool) -> Terminal {
    Terminal { no_color: false, term: None, stdout_is_tty: tty, stderr_is_tty: tty }
}

fn plain() -> Printer {
    Printer::new(false, &terminal(false))
}

fn colored() -> Printer {
    Printer::new(false, &terminal(true))
}

fn add(svc: &mut TaskService, n: u128, text: &str, parent: Option<u128>, blocked_by: Vec<u128>) -> Task {
    svc.create_at(
        &CreateTaskInput {
            description: text.to_string(),
            parent_id: parent.map(|p| TaskId { ulid: p }),
            blocked_by: blocked_by.into_iter().map(|b| TaskId { ulid: b }).collect(),
            ..Default::default()
        },
        TaskId { ulid: n },
        at(n as i64),
    )
    .unwrap()
}

/// A milestone with two tasks, the second of which waits for the first.
fn three_tasks() -> TaskService {
    let mut svc = TaskService::new(Store::new());
    add(&mut svc, 1, "Milestone", None, vec![]);
    add(&mut svc, 2, "First", Some(1), vec![]);
    add(&mut svc, 3, "Second", Some(1), vec![2]);
    svc
}

fn tree_of(svc: &mut TaskService) -> TaskTree {
    let cmd = TaskCommand::Tree(TreeArgs { id: Some(TaskId { ulid: 1 }) });
    match handle_at(svc, cmd, TaskId { ulid: 9 }, at(9)).unwrap() {
        TaskResult::Tree(t) => t,
        other => panic!("{:?}", other),
    }
}

fn list_args(flat: bool) -> ListArgs {
    ListArgs {
        parent: None,
        ready: false,
        completed: false,
        milestones: false,
        tasks: false,
        subtasks: false,
        archived: false,
        all: false,
        flat,
        repo: None,
    }
}

#[test]
fn colors_follow_flag_environment_and_terminal() {
    assert!(should_use_color_for(false, false, None, true));
    assert!(should_use_color_for(false, false, Some("xterm"), true));
    assert!(!should_use_color_for(true, false, None, true));
    assert!(!should_use_color_for(false, true, None, true));
    assert!(!should_use_color_for(false, false, Some("dumb"), true));
    assert!(!should_use_color_for(false, false, None, false));
}

#[test]
fn paint_wraps_a_text_in_escape_sequences() {
    assert_eq!(colored().print_error("Error: x"), "\u{1b}[31;1mError: x\u{1b}[0m");
    assert_eq!(plain().print_error("Error: x"), "Error: x");
    let t = Terminal { no_color: false, term: None, stdout_is_tty: false, stderr_is_tty: true };
    assert_eq!(Printer::new_for_stderr(false, &t).print_error("e"), "\u{1b}[31;1me\u{1b}[0m");
    assert_eq!(Printer::new_for_stderr(true, &t).print_error("e"), "e");
    assert_eq!(colored().fmt_id(&TaskId { ulid: 1 }), format!("\u{1b}[36;2m{}\u{1b}[0m", T0));
}

#[test]
fn every_ink_has_its_codes() {
    let p = colored();
    let task = |archived, cancelled, completed, blocked| {
        let mut t = add(&mut TaskService::new(Store::new()), 1, "x", None, vec![]);
        t.archived = archived;
        t.cancelled = cancelled;
        t.completed = completed;
        t.effectively_blocked = blocked;
        p.print_task_list_flat(&vec![t])[0].clone()
    };
    let id = format!("\u{1b}[36;2m{}\u{1b}[0m", T0);
    let line = |code: &str, symbol: &str| format!("[\u{1b}[{}m{}\u{1b}[0m] {} - x", code, symbol, id);
    assert_eq!(task(true, true, true, true), line("2", "▪"));
    assert_eq!(task(false, true, true, true), line("35", "✗"));
    assert_eq!(task(false, false, true, true), line("32", "✓"));
    assert_eq!(task(false, false, false, true), line("31", "⊘"));
    assert_eq!(task(false, false, false, false), line("33", "○"));
}

#[test]
fn states_are_classified_in_order() {
    assert_eq!(TaskStatus::classify(true, true, true, true), TaskStatus::Archived);
    assert_eq!(TaskStatus::classify(true, true, true, false), TaskStatus::Cancelled);
    assert_eq!(TaskStatus::classify(true, true, false, false), TaskStatus::Completed);
    assert_eq!(TaskStatus::classify(false, true, false, false), TaskStatus::Blocked);
    assert_eq!(TaskStatus::classify(false, false, false, false), TaskStatus::Ready);
}

#[test]
fn trees_are_drawn_with_lines() {
    let mut svc = three_tasks();
    add(&mut svc, 4, "Sub", Some(2), vec![]);
    let t = tree_of(&mut svc);
    assert_eq!(
        plain().print_task_tree(&t),
        vec![
            format!("└─ [○] {} - Milestone", T0),
            format!("   ├─ [○] {} - First", T1),
            format!("   │  └─ [○] task_00000000000000000000000004 - Sub"),
            format!("   └─ [⊘] {} - Second", T2),
            "".to_string(),
            "0/4 complete | 1 blocked | 3 ready".to_string(),
        ]
    );
    let first = &colored().print_task_tree(&t)[0];
    assert_eq!(
        first,
        &format!(
            "\u{1b}[2m\u{1b}[0m\u{1b}[2m└─\u{1b}[0m [\u{1b}[33m○\u{1b}[0m] \u{1b}[36;2m{}\u{1b}[0m - \u{1b}[1mMilestone\u{1b}[0m",
            T0
        )
    );
}

#[test]
fn several_trees_are_kept_apart() {
    let mut svc = three_tasks();
    add(&mut svc, 5, "Other", None, vec![]);
    let cmd = TaskCommand::Tree(TreeArgs { id: None });
    let trees = match handle_at(&mut svc, cmd, TaskId { ulid: 9 }, at(9)).unwrap() {
        TaskResult::Trees(t) => t,
        other => panic!("{:?}", other),
    };
    let lines = plain().print_task_trees(&trees);
    assert_eq!(lines.len(), 7);
    assert_eq!(lines[3], "");
    assert_eq!(lines[4], "└─ [○] task_00000000000000000000000005 - Other");
    assert_eq!(lines[6], "0/4 complete | 1 blocked | 3 ready");
    assert_eq!(plain().print_task_trees(&vec![]), vec!["No tasks found"]);
}

#[test]
fn lists_are_drawn_as_a_forest() {
    let mut svc = three_tasks();
    add(&mut svc, 4, "Sub", Some(2), vec![]);
    let cmd = TaskCommand::List(list_args(false));
    let again = TaskCommand::List(list_args(false));
    let r = handle_at(&mut svc, cmd, TaskId { ulid: 9 }, at(9)).unwrap();
    let lines = plain().print_task_result(&again, &r).unwrap();
    assert_eq!(
        lines,
        vec![
            format!("[○] {} - Milestone", T0),
            format!("├─ [○] {} - First", T1),
            format!("│  └─ [○] task_00000000000000000000000004 - Sub"),
            format!("└─ [⊘] {} - Second", T2),
            "".to_string(),
            "0/4 complete | 1 blocked | 3 ready".to_string(),
        ]
    );
}

#[test]
fn a_task_without_its_parent_is_a_root_of_the_forest() {
    let mut svc = three_tasks();
    svc.complete_at(&TaskId { ulid: 2 }, None, &vec![], None, &vec![LearningId { ulid: 0 }], at(8))
        .unwrap();
    let first = svc.get(&TaskId { ulid: 2 }).unwrap();
    let second = svc.get(&TaskId { ulid: 3 }).unwrap();
    let lines = plain().print_task_list_tree(&vec![first, second]);
    assert_eq!(
        lines,
        vec![
            format!("[○] {} - Second", T2),
            format!("[✓] {} - First", T1),
            "".to_string(),
            "1/2 complete | 0 blocked | 1 ready".to_string(),
        ]
    );
}

#[test]
fn lists_are_flat_on_request_and_after_a_search() {
    let mut svc = three_tasks();
    let cmd = TaskCommand::List(list_args(true));
    let again = TaskCommand::List(list_args(true));
    let r = handle_at(&mut svc, cmd, TaskId { ulid: 9 }, at(9)).unwrap();
    let lines = plain().print_task_result(&again, &r).unwrap();
    assert_eq!(lines[1], format!("[○] {} - First", T1));
    let cmd = TaskCommand::Search(SearchArgs { query: "FIRST".to_string() });
    let again = TaskCommand::Search(SearchArgs { query: "FIRST".to_string() });
    let r = handle_at(&mut svc, cmd, TaskId { ulid: 9 }, at(9)).unwrap();
    let lines = plain().print_task_result(&again, &r).unwrap();
    assert_eq!(lines, vec![
        format!("[○] {} - First", T1),
        "".to_string(),
        "0/1 complete | 0 blocked | 1 ready".to_string(),
    ]);
    assert_eq!(plain().print_task_list_flat(&vec![]), vec!["No tasks found"]);
    assert_eq!(plain().print_task_list_tree(&vec![]), vec!["No tasks found"]);
}

#[test]
fn a_task_is_reported_field_by_field() {
    let mut svc = three_tasks();
    let mut t = svc.get(&TaskId { ulid: 3 }).unwrap();
    t.context = "Why".to_string();
    t.result = Some("What".to_string());
    t.repo_path = Some("frontend".to_string());
    t.priority = 0;
    assert_eq!(
        plain().print_task(&t),
        vec![
            format!("Task: {} (blocked)", T2),
            "  Description: Second".to_string(),
            "  Context: Why".to_string(),
            "  Result: What".to_string(),
            "  Priority: p0".to_string(),
            "  Repo: frontend".to_string(),
            "  Depth: 1".to_string(),
            format!("  Blocked by: {}", T1),
        ]
    );
    assert_eq!(colored().print_task(&t)[4], "  Priority: p\u{1b}[31m0\u{1b}[0m");
    t.priority = 1;
    assert_eq!(colored().print_task(&t)[4], "  Priority: p\u{1b}[33m1\u{1b}[0m");
    t.priority = 2;
    assert_eq!(colored().print_task(&t)[4], "  Priority: p2");
    svc.add_blocker(&TaskId { ulid: 3 }, &TaskId { ulid: 2 }).unwrap();
    add(&mut svc, 4, "Third", Some(1), vec![2]);
    let first = svc.get(&TaskId { ulid: 2 }).unwrap();
    assert_eq!(
        plain().print_task(&first).last().unwrap(),
        &format!("  Blocks: {}, task_00000000000000000000000004", T2)
    );
}

#[test]
fn the_other_reports() {
    let p = plain();
    assert_eq!(p.print_next_ready(&None), vec!["No ready tasks found"]);
    let progress = TaskProgressResult { total: 12, completed: 3, ready: 4, blocked: 5 };
    assert_eq!(p.print_task_progress(&progress), vec!["3/12 complete | 5 blocked | 4 ready"]);
    let l = Learning {
        id: LearningId { ulid: 1 },
        task_id: TaskId { ulid: 1 },
        content: "Look first".to_string(),
        source_task_id: Some(TaskId { ulid: 2 }),
        created_at: at(0),
    };
    assert_eq!(
        p.print_learning(&l),
        vec![
            "Learning: lrn_00000000000000000000000001".to_string(),
            "  Content: Look first".to_string(),
            format!("  Task: {}", T0),
            format!("  Source: {}", T1),
        ]
    );
    assert_eq!(
        p.print_learning_result(&LearningResult::Many(vec![l])),
        vec!["• lrn_00000000000000000000000001 - Look first"]
    );
    assert_eq!(
        p.print_learning_result(&LearningResult::Many(vec![])),
        vec!["No learnings found"]
    );
    assert_eq!(p.print_learning_result(&LearningResult::Deleted), vec!["Learning deleted"]);
    assert_eq!(p.print_init(), vec!["Initialized overseer database"]);
    let e = DataResult::Exported { path: "x.json".to_string(), tasks: 2, learnings: 1 };
    assert_eq!(p.print_data_export(&e), vec!["Exported 2 tasks and 1 learnings to x.json"]);
}

#[test]
fn the_repository_reports() {
    let p = plain();
    let info = |t| VcsInfo { vcs_type: t, root: "/r".to_string() };
    assert_eq!(p.print_vcs_detect(&info(VcsType::Jj)), vec!["JJ repository at /r"]);
    assert_eq!(p.print_vcs_detect(&info(VcsType::Git)), vec!["Git repository at /r"]);
    assert_eq!(p.print_vcs_detect(&info(VcsType::Absent)), vec!["Not a repository"]);
    let kinds = [
        FileStatusKind::Modified,
        FileStatusKind::Added,
        FileStatusKind::Deleted,
        FileStatusKind::Renamed,
        FileStatusKind::Untracked,
        FileStatusKind::Conflict,
    ];
    let files = kinds
        .iter()
        .map(|k| FileStatus { path: "f".to_string(), status: *k })
        .collect();
    let s = VcsStatus { files, working_copy_id: Some("abc".to_string()) };
    assert_eq!(
        p.print_vcs_status(&s),
        vec!["Working copy: abc", "  M f", "  A f", "  D f", "  R f", "  ? f", "  C f"]
    );
    let empty = VcsStatus { files: vec![], working_copy_id: None };
    assert_eq!(p.print_vcs_status(&empty), vec!["No changes"]);
    let entry = LogEntry {
        id: "abc".to_string(),
        description: "Fix".to_string(),
        author: "Ada".to_string(),
        timestamp: at(0),
    };
    assert_eq!(p.print_vcs_log(&vec![entry]), vec!["abc Ada - Fix"]);
    let changes =
        [ChangeType::Added, ChangeType::Deleted, ChangeType::Modified, ChangeType::Renamed];
    let d: Vec<DiffEntry> = changes
        .iter()
        .map(|c| DiffEntry { path: "f".to_string(), change_type: *c })
        .collect();
    assert_eq!(p.print_vcs_diff(&d), vec!["+ f", "- f", "~ f", "→ f"]);
    assert_eq!(p.print_vcs_diff(&vec![]), vec!["No changes"]);
    let c = CommitResult { id: "abc".to_string(), message: "Fix".to_string() };
    assert_eq!(p.print_vcs_commit(&c), vec!["Committed: abc - Fix"]);
}

#[test]
fn the_cleanup_report() {
    let p = plain();
    let branches = || {
        vec![
            OrphanedBranch { name: "task/a".to_string(), reason: OrphanReason::TaskNotFound },
            OrphanedBranch { name: "task/b".to_string(), reason: OrphanReason::TaskCompleted },
        ]
    };
    let none = CleanupResult { orphaned: vec![], deleted: vec![], failed: vec![] };
    assert_eq!(p.print_vcs_cleanup(&none), vec!["No orphaned branches found"]);
    let dry = CleanupResult { orphaned: branches(), deleted: vec![], failed: vec![] };
    assert_eq!(
        p.print_vcs_cleanup(&dry),
        vec![
            "Orphaned branches:",
            "  task/a (task deleted)",
            "  task/b (task completed)",
            "",
            "Run with --delete to delete orphaned branches",
        ]
    );
    let wet = CleanupResult {
        orphaned: branches(),
        deleted: vec!["task/a".to_string()],
        failed: vec![FailedBranch { name: "task/b".to_string(), error: "x".to_string() }],
    };
    assert_eq!(
        p.print_vcs_cleanup(&wet)[3..],
        ["", "1 branches deleted", "", "1 branches failed to delete"]
    );
}

#[test]
fn answers_are_printed_by_kind() {
    let p = plain();
    assert_eq!(p.print(&Answer::Init).unwrap(), vec!["Initialized overseer database"]);
    let deleted = Answer::Task(TaskCommand::Delete { id: TaskId { ulid: 1 } }, TaskResult::Deleted);
    assert_eq!(p.print(&deleted).unwrap(), vec!["Task deleted"]);
    assert_eq!(
        p.print(&Answer::Learning(LearningResult::Deleted)).unwrap(),
        vec!["Learning deleted"]
    );
    let info = VcsInfo { vcs_type: VcsType::Jj, root: "/w".to_string() };
    assert_eq!(p.print(&Answer::Detect(info)).unwrap(), vec!["JJ repository at /w"]);
    let status = VcsStatus { files: vec![], working_copy_id: None };
    assert_eq!(p.print(&Answer::Status(status.clone())).unwrap(), p.print_vcs_status(&status));
    assert!(p.print(&Answer::Log(vec![])).unwrap().is_empty());
    assert_eq!(p.print(&Answer::Diff(vec![])).unwrap(), vec!["No changes"]);
    let commit = CommitResult { id: "abc".to_string(), message: "m".to_string() };
    assert_eq!(p.print(&Answer::Commit(commit)).unwrap(), vec!["Committed: abc - m"]);
    let cleanup = CleanupResult { orphaned: vec![], deleted: vec![], failed: vec![] };
    assert_eq!(p.print(&Answer::Cleanup(cleanup)).unwrap(), vec!["No orphaned branches found"]);
    let data = DataResult::Exported { path: "x.json".to_string(), tasks: 2, learnings: 1 };
    assert_eq!(
        p.print(&Answer::Data(data)).unwrap(),
        vec!["Exported 2 tasks and 1 learnings to x.json"]
    );
    let mut svc = three_tasks();
    let id = TaskId { ulid: 1 };
    let r = handle_at(&mut svc, TaskCommand::Get { id }, TaskId { ulid: 9 }, at(9)).unwrap();
    assert!(p.print(&Answer::Task(TaskCommand::Get { id }, r)).is_none());
}
