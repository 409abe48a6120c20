//! What git and jj are asked, and what their answers mean.
use overseer::commands::vcs::{cleanup_result, find_orphans, OrphanReason};
use overseer::db::store::Store;
use overseer::service::task_service::TaskService;
use overseer::time::Timestamp;
use overseer::types::CreateTaskInput;
use overseer::vcs::backend::{
    detect_vcs_type, is_fast_forward_rejected_message, ChangeType, FileStatusKind, VcsError,
    VcsType,
};
use overseer::vcs::git;
use overseer::vcs::git::{
    Author, BranchNext, BranchPhase, CommitNext, CommitPhase, GitReply, GixBackend, StatusItem,
};
use overseer::vcs::jj;
use overseer::vcs::jj::{Bookmark, Commit, JjBackend, LogWalk, PrefixLookup};

const NOW: Timestamp = Timestamp { secs: 1_700_000_000, nanos: 0 };

fn list(items: &[&str]) -> Vec<String> {
    items.iter().map(|s| s.to_string()).collect()
}

fn ran(success: bool, stdout: &str, stderr: &str) -> GitReply {
    GitReply::Ran { success, stdout: stdout.to_string(), stderr: stderr.to_string() }
}

fn not_run() -> GitReply {
    GitReply::NotRun("no such file".to_string())
}

#[test]
fn test_fast_forward_rejected_message_match() {
    assert!(is_fast_forward_rejected_message(
        "fatal: Not possible to fast-forward, aborting."
    ));
    assert!(is_fast_forward_rejected_message(
        "merge is not possible to fast-forward"
    ));
    assert!(!is_fast_forward_rejected_message("already up to date"));
}

#[test]
fn jj_is_preferred_all_the_way_up() {
    let (t, root) = detect_vcs_type("/a/b/c", &list(&["/a"]), &list(&["/a/b"]));
    assert_eq!(t, VcsType::Jj);
    assert_eq!(root, Some("/a".to_string()));
    let (t, root) = detect_vcs_type("/a/b/c", &list(&["/x"]), &list(&["/a", "/a/b"]));
    assert_eq!(t, VcsType::Git);
    assert_eq!(root, Some("/a/b".to_string()));
    let (t, root) = detect_vcs_type("/a/b/c", &list(&["/a/b"]), &list(&["/a/b"]));
    assert_eq!(t, VcsType::Jj);
    assert_eq!(root, Some("/a/b".to_string()));
    let (t, root) = detect_vcs_type("/a/b/c", &list(&[]), &list(&["/x"]));
    assert_eq!(t, VcsType::Absent);
    assert_eq!(root, None);
}

#[test]
fn git_repositories_are_opened() {
    let b = GixBackend::open(Ok(Some("/r".to_string()))).unwrap();
    assert_eq!(b.root(), "/r");
    assert_eq!(b.vcs_type(), VcsType::Git);
    assert!(matches!(GixBackend::open(Ok(None)), Err(VcsError::NoWorkingCopy)));
    let e = GixBackend::open(Err("gone".to_string())).unwrap_err();
    assert_eq!(e.message(), "operation failed: discover: gone");
    let j = JjBackend::open("/r");
    assert_eq!(j.root(), "/r");
    assert_eq!(j.vcs_type(), VcsType::Jj);
}

#[test]
fn git_status_names_the_differences() {
    let items = vec![
        StatusItem::Modification { path: "a".to_string() },
        StatusItem::DirectoryContents { path: "b".to_string() },
        StatusItem::Rewrite { source: "c".to_string(), target: "d".to_string() },
        StatusItem::TreeIndex { path: "e".to_string() },
    ];
    let s = git::status(Some("0123456789abcdef"), &items);
    assert_eq!(s.working_copy_id, Some("01234567".to_string()));
    let kinds: Vec<FileStatusKind> = s.files.iter().map(|f| f.status).collect();
    assert_eq!(
        kinds,
        vec![
            FileStatusKind::Modified,
            FileStatusKind::Untracked,
            FileStatusKind::Renamed,
            FileStatusKind::Modified
        ]
    );
    assert_eq!(s.files[2].path, "c -> d");
    assert!(!s.is_clean());
    assert!(git::status(None, &vec![]).is_clean());
    let d = git::diff(&items);
    let changes: Vec<ChangeType> = d.iter().map(|e| e.change_type).collect();
    assert_eq!(
        changes,
        vec![ChangeType::Modified, ChangeType::Added, ChangeType::Renamed, ChangeType::Modified]
    );
}

#[test]
fn git_history_reads_authors_and_times() {
    let known = Author { name: "Ada".to_string(), seconds: Some(1_705_314_600) };
    let e = git::log_entry("0123456789abcdef", " Message\n\nbody \n", Some(known), NOW);
    assert_eq!(e.id, "0123456789ab");
    assert_eq!(e.description, "Message\n\nbody");
    assert_eq!(e.author, "Ada");
    assert_eq!(e.timestamp, Timestamp { secs: 1_705_314_600, nanos: 0 });
    let e = git::log_entry("0", "", None, NOW);
    assert_eq!(e.author, "Unknown");
    assert_eq!(e.timestamp, NOW);
    let far = Author { name: "Far".to_string(), seconds: Some(8_210_266_876_799) };
    assert_eq!(git::log_entry("0", "", Some(far), NOW).timestamp.secs, 8_210_266_876_799);
    let too_far = Author { name: "Far".to_string(), seconds: Some(8_210_266_876_800) };
    assert_eq!(git::log_entry("0", "", Some(too_far), NOW).timestamp, NOW);
    let early = Author { name: "Far".to_string(), seconds: Some(-8_334_601_228_800) };
    assert_eq!(git::log_entry("0", "", Some(early), NOW).timestamp.secs, -8_334_601_228_800);
    let too_early = Author { name: "Far".to_string(), seconds: Some(-8_334_601_228_801) };
    assert_eq!(git::log_entry("0", "", Some(too_early), NOW).timestamp, NOW);
}

#[test]
fn git_commits_go_through_their_phases() {
    assert_eq!(git::commit_args(CommitPhase::Status, "m"), list(&["status", "--porcelain"]));
    assert!(matches!(
        git::commit_next(CommitPhase::Status, "m", &ran(true, " M a\n", "")),
        CommitNext::Ask(CommitPhase::Add)
    ));
    assert_eq!(git::commit_args(CommitPhase::Add, "m"), list(&["add", "-A"]));
    assert!(matches!(
        git::commit_next(CommitPhase::Add, "m", &ran(true, "", "")),
        CommitNext::Ask(CommitPhase::Write)
    ));
    assert_eq!(
        git::commit_args(CommitPhase::Write, "m"),
        list(&["commit", "--no-gpg-sign", "-m", "m"])
    );
    assert!(matches!(
        git::commit_next(CommitPhase::Write, "m", &ran(true, "", "")),
        CommitNext::Ask(CommitPhase::Id)
    ));
    assert_eq!(git::commit_args(CommitPhase::Id, "m"), list(&["rev-parse", "HEAD"]));
    match git::commit_next(CommitPhase::Id, "m", &ran(true, "0123456789abcdef\n", "")) {
        CommitNext::Over(Ok(c)) => {
            assert_eq!(c.id, "0123456789ab");
            assert_eq!(c.message, "m");
        }
        other => panic!("{:?}", other),
    }
}

#[test]
fn git_test_commit_nothing_to_commit() {
    assert!(matches!(
        git::commit_next(CommitPhase::Status, "m", &ran(true, "\n", "")),
        CommitNext::Over(Err(VcsError::NothingToCommit))
    ));
}

#[test]
fn git_commit_failures_say_where() {
    let phases = [CommitPhase::Status, CommitPhase::Add, CommitPhase::Write, CommitPhase::Id];
    let not = ["git status", "git add", "git commit", "git rev-parse"];
    let bad = ["git status", "git add -A", "git commit", "git rev-parse HEAD"];
    for i in 0..4 {
        match git::commit_next(phases[i], "m", &not_run()) {
            CommitNext::Over(Err(VcsError::OperationFailed(s))) => {
                assert_eq!(s, format!("failed to run {}: no such file", not[i]))
            }
            other => panic!("{:?}", other),
        }
        match git::commit_next(phases[i], "m", &ran(false, "", "bad")) {
            CommitNext::Over(Err(VcsError::OperationFailed(s))) => {
                assert_eq!(s, format!("{} failed: bad", bad[i]))
            }
            other => panic!("{:?}", other),
        }
    }
}

#[test]
fn git_branches_are_made_and_deleted() {
    let refs = list(&["refs/heads/main", "refs/tags/x", "refs/heads/task/a"]);
    assert!(matches!(
        git::create_bookmark_args(&refs, "main", None),
        Err(VcsError::BookmarkExists(n)) if n == "main"
    ));
    assert_eq!(git::create_bookmark_args(&refs, "x", None).unwrap(), list(&["branch", "x"]));
    assert_eq!(
        git::create_bookmark_args(&refs, "x", Some("abc")).unwrap(),
        list(&["branch", "x", "abc"])
    );
    assert!(git::create_bookmark_result(None, &ran(true, "", "")).is_ok());
    assert!(matches!(
        git::create_bookmark_result(None, &ran(false, "", "fatal: not a valid object name: 'x'")),
        Err(VcsError::TargetNotFound(t)) if t == "HEAD"
    ));
    assert!(matches!(
        git::create_bookmark_result(Some("y"), &ran(false, "", "unknown revision")),
        Err(VcsError::TargetNotFound(t)) if t == "y"
    ));
    assert_eq!(
        git::create_bookmark_result(None, &ran(false, "", "locked")).unwrap_err().message(),
        "git error: git branch failed: locked"
    );
    assert_eq!(
        git::create_bookmark_result(None, &not_run()).unwrap_err().message(),
        "git error: failed to run git branch: no such file"
    );
    assert!(matches!(
        git::delete_bookmark_args(&refs, "x"),
        Err(VcsError::BookmarkNotFound(n)) if n == "x"
    ));
    assert_eq!(
        git::delete_bookmark_args(&refs, "main").unwrap(),
        list(&["branch", "-d", "main"])
    );
    assert!(git::delete_bookmark_result(&ran(true, "", "")).is_ok());
    assert_eq!(
        git::delete_bookmark_result(&ran(false, "", "not fully merged")).unwrap_err().message(),
        "git error: git branch -d failed: not fully merged"
    );
    assert_eq!(
        git::delete_bookmark_result(&not_run()).unwrap_err().message(),
        "git error: failed to run git branch -d: no such file"
    );
}

#[test]
fn git_branches_are_listed_in_order() {
    let refs =
        list(&["refs/heads/task/b", "refs/heads/main", "refs/tags/task/t", "refs/heads/task/a"]);
    assert_eq!(git::list_bookmarks(&refs, None), list(&["main", "task/a", "task/b"]));
    assert_eq!(git::list_bookmarks(&refs, Some("task/")), list(&["task/a", "task/b"]));
}

#[test]
fn git_checkouts_need_a_clean_working_copy() {
    assert!(matches!(git::checkout_args(false, "main"), Err(VcsError::DirtyWorkingCopy)));
    assert_eq!(git::checkout_args(true, "main").unwrap(), list(&["checkout", "main"]));
    assert!(git::checkout_result("main", &ran(true, "", "")).is_ok());
    for s in ["did not match any file", "error: pathspec 'x'", "not a valid object name"] {
        assert!(matches!(
            git::checkout_result("main", &ran(false, "", s)),
            Err(VcsError::TargetNotFound(t)) if t == "main"
        ));
    }
    assert_eq!(
        git::checkout_result("main", &ran(false, "", "oops")).unwrap_err().message(),
        "git error: git checkout failed: oops"
    );
    assert_eq!(
        git::checkout_result("main", &not_run()).unwrap_err().message(),
        "git error: failed to run git checkout: no such file"
    );
}

#[test]
fn git_branch_names_are_verified() {
    assert_eq!(
        git::branch_args(&BranchPhase::Name),
        list(&["symbolic-ref", "--quiet", "--short", "HEAD"])
    );
    let verify = match git::branch_next(BranchPhase::Name, &ran(true, "main\n", "")) {
        BranchNext::Ask(p) => p,
        other => panic!("{:?}", other),
    };
    assert_eq!(git::branch_args(&verify), list(&["rev-parse", "--verify", "HEAD"]));
    match git::branch_next(verify, &ran(true, "abc", "")) {
        BranchNext::Over(Ok(name)) => assert_eq!(name, "main"),
        other => panic!("{:?}", other),
    }
    assert!(matches!(
        git::branch_next(BranchPhase::Verify("main".to_string()), &ran(false, "", "")),
        BranchNext::Over(Err(VcsError::UnbornRepository))
    ));
    assert!(matches!(
        git::branch_next(BranchPhase::Name, &ran(true, "\n", "")),
        BranchNext::Over(Err(VcsError::DetachedHead))
    ));
    assert!(matches!(
        git::branch_next(BranchPhase::Name, &ran(false, "", "")),
        BranchNext::Ask(BranchPhase::Nameless)
    ));
    assert!(matches!(
        git::branch_next(BranchPhase::Nameless, &ran(true, "abc", "")),
        BranchNext::Over(Err(VcsError::DetachedHead))
    ));
    assert!(matches!(
        git::branch_next(BranchPhase::Nameless, &ran(false, "", "")),
        BranchNext::Over(Err(VcsError::UnbornRepository))
    ));
    match git::branch_next(BranchPhase::Name, &not_run()) {
        BranchNext::Over(Err(e)) => assert_eq!(
            e.message(),
            "git error: failed to run git symbolic-ref: no such file"
        ),
        other => panic!("{:?}", other),
    }
    match git::branch_next(BranchPhase::Nameless, &not_run()) {
        BranchNext::Over(Err(e)) => {
            assert_eq!(e.message(), "git error: failed to run git rev-parse: no such file")
        }
        other => panic!("{:?}", other),
    }
}

#[test]
fn git_merges_move_forward_or_not() {
    assert_eq!(git::merge_args("task/x"), list(&["merge", "--ff-only", "task/x"]));
    assert!(matches!(git::merge_result(&ran(true, "", "")), (Ok(true), false)));
    assert!(matches!(
        git::merge_result(&ran(false, "", "fatal: Not possible to fast-forward, aborting.\n")),
        (Ok(false), true)
    ));
    let (r, back) = git::merge_result(&ran(false, " out \n", " err\n"));
    assert!(back);
    assert_eq!(r.unwrap_err().message(), "git error: git merge --ff-only failed: err\nout");
    let (r, back) = git::merge_result(&not_run());
    assert!(!back);
    assert_eq!(
        r.unwrap_err().message(),
        "git error: failed to run git merge --ff-only: no such file"
    );
}

#[test]
fn jj_identifiers_use_the_letters_from_z_down() {
    assert_eq!(jj::current_commit_id(&vec![0x00, 0x1f, 0xf0]), "zzykkz");
    assert_eq!(
        jj::current_commit_id(&vec![0x01, 0x23, 0x45, 0x67, 0x89, 0xab, 0xcd, 0xef]),
        "zyxwvutsrqpo"
    );
}

#[test]
fn jj_status_is_that_of_the_working_copy() {
    let id = vec![0u8; 16];
    let clean = jj::status(&id, true, false);
    assert!(clean.is_clean());
    assert_eq!(clean.working_copy_id, Some("zzzzzzzz".to_string()));
    let dirty = jj::status(&id, false, false);
    assert_eq!(dirty.files[0].path, "(working copy has changes)");
    assert_eq!(dirty.files[0].status, FileStatusKind::Modified);
    assert_eq!(jj::status(&id, false, true).files[0].status, FileStatusKind::Conflict);
    assert!(jj::diff(true).is_empty());
    let d = jj::diff(false);
    assert_eq!(d[0].path, "(working copy)");
    assert_eq!(d[0].change_type, ChangeType::Modified);
}

#[test]
fn jj_test_commit_nothing_to_commit() {
    assert!(matches!(jj::check_commit(true, "done"), Err(VcsError::NothingToCommit)));
    assert!(jj::check_commit(true, " \n").is_ok());
    assert!(jj::check_commit(false, "done").is_ok());
    let c = jj::commit_result(&vec![0x0f], "First\nmore");
    assert_eq!(c.id, "zk");
    assert_eq!(c.message, "First\nmore");
    assert_eq!(jj::commit_label("First\nmore"), "describe: First");
}

fn commit(n: u8, parents: &[&str]) -> Commit {
    Commit {
        change_id: vec![n],
        description: format!(" change {} \n", n),
        author: "Ada".to_string(),
        millis: 1_705_314_600_250,
        parents: list(parents),
    }
}

#[test]
fn jj_history_is_walked_once() {
    // a -> b, c; b -> d; c -> d
    let mut w = LogWalk::new("a", 10);
    let mut seen: Vec<String> = Vec::new();
    while let Some(id) = w.next() {
        let c = match id.as_str() {
            "a" => commit(1, &["b", "c"]),
            "b" => commit(2, &["d"]),
            "c" => commit(3, &["d"]),
            _ => commit(4, &[]),
        };
        seen.push(id);
        w.saw(c, NOW);
    }
    assert_eq!(seen, list(&["a", "b", "c", "d"]));
    assert_eq!(w.entries.len(), 4);
    assert_eq!(w.entries[0].id, "zy");
    assert_eq!(w.entries[0].description, "change 1");
    assert_eq!(w.entries[0].timestamp, Timestamp { secs: 1_705_314_600, nanos: 250_000_000 });
}

#[test]
fn jj_test_log_limit() {
    let mut w = LogWalk::new("a", 2);
    let mut n: u8 = 0;
    while let Some(_) = w.next() {
        n += 1;
        w.saw(commit(n, &[&format!("p{}", n)]), NOW);
    }
    assert_eq!(w.entries.len(), 2);
    let mut none = LogWalk::new("a", 0);
    assert_eq!(none.next(), None);
}

#[test]
fn jj_times_before_the_epoch_count_forward() {
    let mut w = LogWalk::new("a", 1);
    w.next();
    let mut c = commit(1, &[]);
    c.millis = -1;
    w.saw(c, NOW);
    assert_eq!(w.entries[0].timestamp, Timestamp { secs: -1, nanos: 999_000_000 });
    let mut w = LogWalk::new("a", 1);
    w.next();
    let mut c = commit(1, &[]);
    c.millis = i64::MAX;
    w.saw(c, NOW);
    assert_eq!(w.entries[0].timestamp, NOW);
}

#[test]
fn jj_bookmarks_are_checked_and_listed() {
    let names = list(&["task/b", "main", "task/a"]);
    assert!(matches!(
        jj::check_new_bookmark(&names, "main"),
        Err(VcsError::BookmarkExists(n)) if n == "main"
    ));
    assert!(jj::check_new_bookmark(&names, "x").is_ok());
    assert!(matches!(
        jj::check_bookmark(&names, "x"),
        Err(VcsError::BookmarkNotFound(n)) if n == "x"
    ));
    assert!(jj::check_bookmark(&names, "main").is_ok());
    assert_eq!(jj::list_bookmarks(&names, Some("task/")), list(&["task/b", "task/a"]));
    assert_eq!(jj::list_bookmarks(&names, None), names);
}

#[test]
fn jj_targets_are_bookmarks_or_change_identifiers() {
    let marks = vec![
        Bookmark { name: "x".to_string(), commit: None },
        Bookmark { name: "main".to_string(), commit: Some("c1".to_string()) },
    ];
    assert_eq!(jj::resolve_bookmark(&marks, "main"), Some("c1".to_string()));
    assert_eq!(jj::resolve_bookmark(&marks, "x"), None);
    assert_eq!(
        jj::resolve_prefix(PrefixLookup::Match(Some("c2".to_string())), "zz").unwrap(),
        "c2"
    );
    assert_eq!(
        jj::resolve_prefix(PrefixLookup::Ambiguous, "zz").unwrap_err().message(),
        "jj error: ambiguous change ID prefix: zz"
    );
    for l in [PrefixLookup::Unreadable, PrefixLookup::NoMatch, PrefixLookup::Match(None)] {
        assert!(matches!(
            jj::resolve_prefix(l, "zz"),
            Err(VcsError::TargetNotFound(t)) if t == "zz"
        ));
    }
}

#[test]
fn orphaned_branches_are_found_and_summed_up() {
    let mut svc = TaskService::new(Store::new());
    let input = |d: &str| CreateTaskInput { description: d.to_string(), ..Default::default() };
    let open = svc.create(&input("open")).unwrap();
    let done = svc.create(&input("done")).unwrap();
    svc.complete(&done.id, None, None).unwrap();
    let gone = "task/task_00000000000000000000000000".to_string();
    let names = vec![
        gone.clone(),
        format!("task/{}", open.id.to_text()),
        format!("task/{}", done.id.to_text()),
        "task/nonsense".to_string(),
        "main".to_string(),
    ];
    let orphans = find_orphans(&svc, &names);
    assert_eq!(orphans.len(), 2);
    assert_eq!(orphans[0].name, gone);
    assert_eq!(orphans[0].reason, OrphanReason::TaskNotFound);
    assert_eq!(orphans[1].reason, OrphanReason::TaskCompleted);
    let outcomes = vec![Ok(()), Err(VcsError::Git("locked".to_string()))];
    let r = cleanup_result(orphans, &outcomes);
    assert_eq!(r.deleted, vec![gone]);
    assert_eq!(r.failed[0].name, names[2]);
    assert_eq!(r.failed[0].error, "git error: locked");
}

#[test]
fn repository_errors_have_texts() {
    let cases = vec![
        (VcsError::NotARepository, "not a repository"),
        (VcsError::DirtyWorkingCopy, "working copy has uncommitted changes"),
        (VcsError::DetachedHead, "detached HEAD"),
        (VcsError::UnbornRepository, "repository has no commits"),
        (VcsError::NothingToCommit, "nothing to commit"),
        (VcsError::NoWorkingCopy, "no working copy"),
        (VcsError::BookmarkExists("b".to_string()), "bookmark already exists: b"),
        (VcsError::BookmarkNotFound("b".to_string()), "bookmark not found: b"),
        (VcsError::TargetNotFound("t".to_string()), "target not found: t"),
        (VcsError::OperationFailed("o".to_string()), "operation failed: o"),
        (VcsError::Git("g".to_string()), "git error: g"),
        (VcsError::Jj("j".to_string()), "jj error: j"),
    ];
    for (e, text) in cases {
        assert_eq!(e.message(), text);
    }
}
