//! Texts, identifiers and times.
use overseer::commands::args::parse_task_id;
use overseer::db::row::{learning_to_row, row_to_learning, row_to_task, task_to_row};
use overseer::id::{LearningId, TaskId};
use overseer::text;
use overseer::time::Timestamp;
use overseer::types::{Learning, LifecycleState, TaskRow};

const NOW: Timestamp = Timestamp { secs: 1_700_000_000, nanos: 0 };

fn row(id: TaskId) -> TaskRow {
    TaskRow {
        id,
        parent_id: Some(TaskId { ulid: 7 }),
        description: "Build".to_string(),
        context: "Because".to_string(),
        result: Some("Built".to_string()),
        priority: 2,
        completed: true,
        completed_at: Some(Timestamp { secs: 1_705_314_600, nanos: 250_000_000 }),
        created_at: Timestamp { secs: 1_705_000_000, nanos: 1 },
        updated_at: Timestamp { secs: 1_705_314_600, nanos: 0 },
        started_at: None,
        commit_sha: Some("abc".to_string()),
        bookmark: None,
        start_commit: None,
        base_ref: Some("main".to_string()),
        repo_path: Some("frontend".to_string()),
        cancelled: false,
        cancelled_at: None,
        archived: false,
        archived_at: None,
    }
}

#[test]
fn contains_finds_a_substring() {
    assert!(text::contains("hello world", "o w"));
    assert!(text::contains("hello", ""));
    assert!(!text::contains("hello", "hellos"));
    assert!(!text::contains("hello", "elo"));
}

#[test]
fn trim_takes_white_space_from_both_ends() {
    assert_eq!(text::trim(" \t\u{a0}a b\u{3000}\r\n"), "a b");
    assert_eq!(text::trim("   "), "");
    assert_eq!(text::trim("\u{200b}x"), "\u{200b}x");
}

#[test]
fn first_line_ends_at_a_line_feed() {
    assert_eq!(text::first_line("one\ntwo"), "one");
    assert_eq!(text::first_line("one\r\ntwo"), "one");
    assert_eq!(text::first_line("one\r"), "one\r");
    assert_eq!(text::first_line(""), "");
    assert_eq!(text::first_line("\nx"), "");
}

#[test]
fn sort_orders_texts_by_characters() {
    let list = vec!["b".to_string(), "ab".to_string(), "a".to_string(), "B".to_string()];
    assert_eq!(text::sort(list), vec!["B", "a", "ab", "b"]);
}

#[test]
fn numbers_are_written_in_decimal() {
    assert_eq!(text::format_u64(0), "0");
    assert_eq!(text::format_u64(18_446_744_073_709_551_615), "18446744073709551615");
    assert_eq!(text::format_i32(-2_147_483_648), "-2147483648");
    assert_eq!(text::format_i32(42), "42");
}

#[test]
fn texts_are_cut_and_prefixes_found() {
    assert_eq!(text::truncated("abcdef", 4), "abcd");
    assert_eq!(text::truncated("ab", 4), "ab");
    assert_eq!(text::after("refs/heads/main", 11), "main");
    assert!(text::starts_with("task/x", "task/"));
    assert!(!text::starts_with("tas", "task/"));
    assert_eq!(text::ascii_lowercase("Not ÄBC"), "not Äbc");
}

#[test]
fn identifiers_are_read_as_they_are_written() {
    let id = TaskId { ulid: 0x0189_abcd_ef01_2345_6789_abcd_ef01_2345 };
    let written = id.to_text();
    assert_eq!(written.len(), 31);
    assert!(written.starts_with("task_"));
    assert_eq!(TaskId::parse(&written), Some(id));
    assert_eq!(TaskId { ulid: 0 }.to_text(), "task_00000000000000000000000000");
    assert_eq!(TaskId { ulid: 31 }.to_text(), "task_0000000000000000000000000Z");
    assert_eq!(
        TaskId { ulid: u128::MAX }.to_text(),
        "task_7ZZZZZZZZZZZZZZZZZZZZZZZZZ"
    );
    let l = LearningId { ulid: 32 };
    assert_eq!(l.to_text(), "lrn_00000000000000000000000010");
    assert_eq!(LearningId::parse("lrn_00000000000000000000000010"), Some(l));
}

#[test]
fn identifiers_are_read_in_either_case_and_by_their_low_bits() {
    assert_eq!(
        TaskId::parse("task_0000000000000000000000000z"),
        Some(TaskId { ulid: 31 })
    );
    assert_eq!(
        TaskId::parse("task_80000000000000000000000001"),
        Some(TaskId { ulid: 1 })
    );
    assert_eq!(
        TaskId::parse("task_8ZZZZZZZZZZZZZZZZZZZZZZZZZ"),
        Some(TaskId { ulid: (1u128 << 125) - 1 })
    );
}

#[test]
fn other_texts_are_no_identifiers() {
    assert_eq!(TaskId::parse("00000000000000000000000000"), None);
    assert_eq!(TaskId::parse("lrn_00000000000000000000000000"), None);
    assert_eq!(TaskId::parse("task_0000000000000000000000000"), None);
    assert_eq!(TaskId::parse("task_000000000000000000000000000"), None);
    assert_eq!(TaskId::parse("task_0000000000000000000000000U"), None);
    assert_eq!(
        parse_task_id("nonsense"),
        Err("Invalid task ID: nonsense".to_string())
    );
}

#[test]
fn new_identifiers_differ() {
    let a = TaskId::new();
    let b = TaskId::new();
    assert_ne!(a, b);
    assert_eq!(parse_task_id(&a.to_text()), Ok(a));
    assert_ne!(LearningId::new(), LearningId::new());
}

#[test]
fn rows_are_read_as_they_are_written() {
    let id = TaskId { ulid: 42 };
    let r = row(id);
    let raw = task_to_row(&r);
    assert_eq!(raw.id, "task_0000000000000000000000001A");
    assert_eq!(raw.completed, 1);
    assert_eq!(raw.completed_at, Some("2024-01-15T10:30:00.250+00:00".to_string()));
    let back = row_to_task(&raw, NOW).unwrap();
    assert_eq!(back.id, r.id);
    assert_eq!(back.parent_id, r.parent_id);
    assert_eq!(back.completed_at, r.completed_at);
    assert_eq!(back.created_at, r.created_at);
    assert_eq!(back.updated_at, r.updated_at);
    assert_eq!(back.started_at, None);
    assert_eq!(back.base_ref, r.base_ref);
    assert!(back.completed && !back.cancelled && !back.archived);
}

#[test]
fn rows_with_strange_times_and_ids() {
    let mut raw = task_to_row(&row(TaskId { ulid: 42 }));
    raw.created_at = Some("yesterday".to_string());
    raw.completed_at = Some("yesterday".to_string());
    raw.updated_at = Some("2024-01-15T12:30:00+02:00".to_string());
    let back = row_to_task(&raw, NOW).unwrap();
    assert_eq!(back.created_at, NOW);
    assert_eq!(back.completed_at, None);
    assert_eq!(back.updated_at, Timestamp { secs: 1_705_314_600, nanos: 0 });
    raw.id = "42".to_string();
    assert!(row_to_task(&raw, NOW).is_none());
}

#[test]
fn learning_rows_are_read_as_they_are_written() {
    let l = Learning {
        id: LearningId { ulid: 1 },
        task_id: TaskId { ulid: 2 },
        content: "Look first".to_string(),
        source_task_id: Some(TaskId { ulid: 3 }),
        created_at: Timestamp { secs: 0, nanos: 0 },
    };
    let raw = learning_to_row(&l);
    let back = row_to_learning(&raw, NOW).unwrap();
    assert_eq!(back.id, l.id);
    assert_eq!(back.task_id, l.task_id);
    assert_eq!(back.content, "Look first");
    assert_eq!(back.source_task_id, l.source_task_id);
    assert_eq!(back.created_at, l.created_at);
}

#[test]
fn states_have_names() {
    assert_eq!(LifecycleState::Pending.to_text(), "Pending");
    assert_eq!(LifecycleState::InProgress.to_text(), "InProgress");
    assert_eq!(LifecycleState::Completed.to_text(), "Completed");
    assert_eq!(LifecycleState::Cancelled.to_text(), "Cancelled");
    assert_eq!(LifecycleState::Archived.to_text(), "Archived");
}
