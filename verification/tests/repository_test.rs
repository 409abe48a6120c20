//! The git and jj backends, on repositories that are kept in memory and answer as git and jj do.
use std::collections::BTreeMap;

use overseer::time::Timestamp;
use overseer::vcs::backend::{
    ChangeType, CommitResult, DiffEntry, FileStatusKind, LogEntry, VcsError, VcsStatus, VcsType,
};
use overseer::vcs::git;
use overseer::vcs::git::{
    Author, BranchNext, BranchPhase, CommitNext, CommitPhase, GitReply, GixBackend, StatusItem,
};
use overseer::vcs::jj;
use overseer::vcs::jj::{Commit, JjBackend, LogWalk};

const NOW: Timestamp = Timestamp { secs: 1_700_000_000, nanos: 0 };

/// A git repository: the history of each branch, the oldest commit first, and what was not
/// committed.
struct GitRepo {
    branches: BTreeMap<String, Vec<(String, String)>>,
    head: String,
    known: Vec<String>,
    changed: Vec<StatusItem>,
    made: u64,
}

fn done(stdout: &str) -> GitReply {
    GitReply::Ran { success: true, stdout: stdout.to_string(), stderr: String::new() }
}

fn refused(stderr: &str) -> GitReply {
    GitReply::Ran { success: false, stdout: String::new(), stderr: stderr.to_string() }
}

impl GitRepo {
    fn new() -> GitRepo {
        let mut branches = BTreeMap::new();
        branches.insert("main".to_string(), Vec::new());
        GitRepo {
            branches,
            head: "main".to_string(),
            known: Vec::new(),
            changed: Vec::new(),
            made: 0,
        }
    }

    fn history(&self) -> &Vec<(String, String)> {
        &self.branches[&self.head]
    }

    fn write_file(&mut self, path: &str) {
        let path = path.to_string();
        if self.known.contains(&path) {
            self.changed.push(StatusItem::Modification { path });
        } else {
            self.changed.push(StatusItem::DirectoryContents { path });
        }
    }

    fn stage(&mut self) {
        for item in &mut self.changed {
            if let StatusItem::Modification { path } = item {
                *item = StatusItem::TreeIndex { path: path.clone() };
            }
        }
    }

    /// Commits whatever there is, and gives the identifier of the commit.
    fn commit(&mut self, message: &str) -> String {
        for item in std::mem::take(&mut self.changed) {
            if let StatusItem::DirectoryContents { path } = item {
                self.known.push(path);
            }
        }
        self.made += 1;
        let id = format!("{:08x}{:032x}", 0x9e37_79b9u64 * self.made % 0xffff_ffff, self.made);
        let line = (id.clone(), format!("{}\n", message));
        self.branches.get_mut(&self.head).unwrap().push(line);
        id
    }

    fn branch_off(&mut self, name: &str) {
        let history = self.history().clone();
        self.branches.insert(name.to_string(), history);
        self.head = name.to_string();
    }

    fn run(&mut self, args: &[String]) -> GitReply {
        let args: Vec<&str> = args.iter().map(|a| a.as_str()).collect();
        match args.as_slice() {
            ["status", "--porcelain"] => {
                done(&self.changed.iter().map(|_| " M file\n").collect::<String>())
            }
            ["add", "-A"] => done(""),
            ["commit", "--no-gpg-sign", "-m", message] => {
                self.commit(message);
                done("")
            }
            ["rev-parse", "HEAD"] | ["rev-parse", "--verify", "HEAD"] => {
                match self.history().last() {
                    Some((id, _)) => done(&format!("{}\n", id)),
                    None => refused("fatal: Needed a single revision"),
                }
            }
            ["symbolic-ref", "--quiet", "--short", "HEAD"] => done(&format!("{}\n", self.head)),
            ["branch", "-d", name] => {
                let merged =
                    self.branches[*name].iter().all(|c| self.history().contains(c));
                if merged {
                    self.branches.remove(*name);
                    done("")
                } else {
                    refused(&format!("error: the branch '{}' is not fully merged", name))
                }
            }
            ["checkout", name] => {
                if self.branches.contains_key(*name) {
                    self.head = name.to_string();
                    done("")
                } else {
                    refused(&format!("error: pathspec '{}' did not match any file(s)", name))
                }
            }
            ["merge", "--ff-only", source] => {
                let from = self.branches[*source].clone();
                if self.history().iter().all(|c| from.contains(c)) {
                    self.branches.insert(self.head.clone(), from);
                    done("")
                } else {
                    refused("fatal: Not possible to fast-forward, aborting.\n")
                }
            }
            other => panic!("{:?}", other),
        }
    }

    fn refs(&self) -> Vec<String> {
        self.branches.keys().map(|b| format!("refs/heads/{}", b)).collect()
    }
}

/// The backend on such a repository.
struct Git<'a> {
    repo: &'a mut GitRepo,
    backend: GixBackend,
}

impl<'a> Git<'a> {
    fn open(repo: &'a mut GitRepo) -> Git<'a> {
        Git { repo, backend: GixBackend::open(Ok(Some("/repo".to_string()))).unwrap() }
    }

    fn status(&self) -> VcsStatus {
        let head = self.repo.history().last().map(|c| c.0.as_str());
        git::status(head, &self.repo.changed)
    }

    fn diff(&self) -> Vec<DiffEntry> {
        git::diff(&self.repo.changed)
    }

    fn log(&self, limit: usize) -> Vec<LogEntry> {
        let author = || Author { name: "Ada".to_string(), seconds: Some(1_705_314_600) };
        let newest_first = self.repo.history().iter().rev();
        newest_first.take(limit).map(|c| git::log_entry(&c.0, &c.1, Some(author()), NOW)).collect()
    }

    fn commit(&mut self, message: &str) -> Result<CommitResult, VcsError> {
        let mut phase = CommitPhase::Status;
        loop {
            let reply = self.repo.run(&git::commit_args(phase, message));
            match git::commit_next(phase, message, &reply) {
                CommitNext::Ask(next) => phase = next,
                CommitNext::Over(result) => return result,
            }
        }
    }

    fn current_commit_id(&self) -> String {
        git::current_commit_id(&self.repo.history().last().unwrap().0)
    }

    fn checkout(&mut self, target: &str) -> Result<(), VcsError> {
        let args = git::checkout_args(self.status().is_clean(), target)?;
        git::checkout_result(target, &self.repo.run(&args))
    }

    fn current_branch_name(&mut self) -> Result<String, VcsError> {
        let mut phase = BranchPhase::Name;
        loop {
            let reply = self.repo.run(&git::branch_args(&phase));
            match git::branch_next(phase, &reply) {
                BranchNext::Ask(next) => phase = next,
                BranchNext::Over(result) => return result,
            }
        }
    }

    fn merge_fast_forward(&mut self, source: &str, target: &str) -> Result<bool, VcsError> {
        self.checkout(target)?;
        let (result, go_back) = git::merge_result(&self.repo.run(&git::merge_args(source)));
        if go_back {
            let _ = self.checkout(source);
        }
        result
    }

    fn delete_bookmark(&mut self, name: &str) -> Result<(), VcsError> {
        let args = git::delete_bookmark_args(&self.repo.refs(), name)?;
        git::delete_bookmark_result(&self.repo.run(&args))
    }
}

#[test]
fn test_open_git_repo() {
    let mut repo = GitRepo::new();
    assert_eq!(Git::open(&mut repo).backend.vcs_type(), VcsType::Git);
}

#[test]
fn git_test_status_empty_repo() {
    let mut repo = GitRepo::new();
    repo.commit("initial commit");
    let status = Git::open(&mut repo).status();
    assert!(status.working_copy_id.is_some());
    assert!(status.files.is_empty());
}

#[test]
fn git_test_status_with_modified_file() {
    let mut repo = GitRepo::new();
    repo.write_file("test.txt");
    repo.commit("initial commit");
    repo.write_file("test.txt");
    let status = Git::open(&mut repo).status();
    assert!(!status.files.is_empty());
    assert_eq!(status.files[0].status, FileStatusKind::Modified);
}

#[test]
fn test_status_with_untracked_file() {
    let mut repo = GitRepo::new();
    repo.commit("initial commit");
    repo.write_file("new_file.txt");
    let status = Git::open(&mut repo).status();
    assert!(!status.files.is_empty());
    assert_eq!(status.files[0].status, FileStatusKind::Untracked);
}

#[test]
fn git_test_log_empty_repo() {
    let mut repo = GitRepo::new();
    repo.commit("initial commit");
    let log = Git::open(&mut repo).log(10);
    assert!(!log.is_empty());
    assert_eq!(log[0].description, "initial commit");
}

#[test]
fn test_log_multiple_commits() {
    let mut repo = GitRepo::new();
    for (file, message) in
        [("file1.txt", "first commit"), ("file2.txt", "second commit"), ("file3.txt", "third commit")]
    {
        repo.write_file(file);
        repo.commit(message);
    }
    let log = Git::open(&mut repo).log(10);
    assert!(log.len() >= 3);
    let descriptions: Vec<&str> = log.iter().map(|e| e.description.as_str()).collect();
    assert!(descriptions.contains(&"third commit"));
    assert!(descriptions.contains(&"second commit"));
    assert!(descriptions.contains(&"first commit"));
}

#[test]
fn git_test_diff_empty_working_copy() {
    let mut repo = GitRepo::new();
    repo.commit("initial commit");
    assert!(Git::open(&mut repo).diff().is_empty());
}

#[test]
fn test_diff_with_modified_file() {
    let mut repo = GitRepo::new();
    repo.write_file("test.txt");
    repo.commit("initial commit");
    repo.write_file("test.txt");
    let diff = Git::open(&mut repo).diff();
    assert!(!diff.is_empty());
    assert_eq!(diff[0].change_type, ChangeType::Modified);
}

#[test]
fn test_diff_with_added_file() {
    let mut repo = GitRepo::new();
    repo.commit("initial commit");
    repo.write_file("new_file.txt");
    let diff = Git::open(&mut repo).diff();
    assert!(!diff.is_empty());
    assert_eq!(diff[0].change_type, ChangeType::Added);
}

#[test]
fn git_test_commit_workflow() {
    let mut repo = GitRepo::new();
    repo.commit("initial commit");
    let id_before = Git::open(&mut repo).current_commit_id();
    repo.write_file("new.txt");
    let mut backend = Git::open(&mut repo);
    let result = backend.commit("test commit").unwrap();
    assert_eq!(result.message, "test commit");
    assert!(!result.id.is_empty());
    let id_after = backend.current_commit_id();
    assert_ne!(id_before, id_after);
    assert_eq!(result.id, id_after);
}

#[test]
fn git_test_current_commit_id() {
    let mut repo = GitRepo::new();
    let commit_hash = repo.commit("initial commit");
    let id = Git::open(&mut repo).current_commit_id();
    assert!(!id.is_empty());
    assert_eq!(id.len(), 12);
    assert!(commit_hash.starts_with(&id));
}

#[test]
fn git_test_current_commit_id_changes_after_commit() {
    let mut repo = GitRepo::new();
    repo.commit("initial commit");
    let id1 = Git::open(&mut repo).current_commit_id();
    repo.write_file("a.txt");
    Git::open(&mut repo).commit("commit a").unwrap();
    let id2 = Git::open(&mut repo).current_commit_id();
    assert_ne!(id1, id2);
    repo.write_file("b.txt");
    Git::open(&mut repo).commit("commit b").unwrap();
    let id3 = Git::open(&mut repo).current_commit_id();
    assert_ne!(id2, id3);
}

#[test]
fn git_test_root_path() {
    let mut repo = GitRepo::new();
    let backend = Git::open(&mut repo).backend;
    assert!(!backend.root().is_empty());
    assert_eq!(backend.root(), "/repo");
}

#[test]
fn git_test_nested_file_operations() {
    let mut repo = GitRepo::new();
    repo.commit("initial commit");
    repo.write_file("src/main.rs");
    repo.write_file("src/lib/mod.rs");
    let mut backend = Git::open(&mut repo);
    backend.commit("add source files").unwrap();
    assert!(backend.log(5).iter().any(|e| e.description == "add source files"));
}

#[test]
fn test_status_with_staged_changes() {
    let mut repo = GitRepo::new();
    repo.write_file("test.txt");
    repo.commit("initial commit");
    repo.write_file("test.txt");
    repo.stage();
    assert!(!Git::open(&mut repo).status().files.is_empty());
}

#[test]
fn test_is_clean_false_with_staged_changes() {
    let mut repo = GitRepo::new();
    repo.write_file("test.txt");
    repo.commit("initial commit");
    repo.write_file("test.txt");
    repo.stage();
    assert!(!Git::open(&mut repo).status().is_clean());
}

#[test]
fn test_current_branch_name_returns_branch() {
    let mut repo = GitRepo::new();
    repo.commit("initial commit");
    assert_eq!(Git::open(&mut repo).current_branch_name().unwrap(), "main");
}

#[test]
fn test_merge_fast_forward_success() {
    let mut repo = GitRepo::new();
    repo.write_file("base.txt");
    repo.commit("initial commit");
    repo.branch_off("task/test");
    repo.write_file("task.txt");
    repo.commit("task commit");
    let merged = Git::open(&mut repo).merge_fast_forward("task/test", "main").unwrap();
    assert!(merged);
    assert_eq!(repo.head, "main");
    assert_eq!(repo.history().len(), 2);
}

#[test]
fn test_merge_fast_forward_returns_false_on_divergence() {
    let mut repo = GitRepo::new();
    repo.write_file("base.txt");
    repo.commit("initial commit");
    repo.branch_off("task/test");
    repo.write_file("task.txt");
    repo.commit("task commit");
    repo.head = "main".to_string();
    repo.write_file("base2.txt");
    repo.commit("base commit");
    let merged = Git::open(&mut repo).merge_fast_forward("task/test", "main").unwrap();
    assert!(!merged);
    assert_eq!(repo.head, "task/test");
}

#[test]
fn test_delete_bookmark_rejects_unmerged_branch_without_force_delete() {
    let mut repo = GitRepo::new();
    repo.write_file("base.txt");
    repo.commit("initial commit");
    repo.branch_off("task/test");
    repo.write_file("task.txt");
    repo.commit("task commit");
    repo.head = "main".to_string();
    let result = Git::open(&mut repo).delete_bookmark("task/test");
    assert!(result.is_err());
    assert!(repo.branches.contains_key("task/test"));
}

/// A jj repository: its commits, each on top of the one before, the last being the working copy.
struct JjRepo {
    commits: Vec<(Vec<u8>, String, bool)>,
}

impl JjRepo {
    fn new() -> JjRepo {
        let mut repo = JjRepo { commits: Vec::new() };
        repo.add();
        repo
    }

    fn add(&mut self) {
        let n = self.commits.len() as u8;
        let id: Vec<u8> = (0..16).map(|i| n.wrapping_mul(37).wrapping_add(i)).collect();
        self.commits.push((id, String::new(), true));
    }

    fn current(&self) -> &(Vec<u8>, String, bool) {
        self.commits.last().unwrap()
    }

    fn write_file(&mut self) {
        self.commits.last_mut().unwrap().2 = false;
    }

    fn status(&self) -> VcsStatus {
        jj::status(&self.current().0, self.current().2, false)
    }

    fn diff(&self) -> Vec<DiffEntry> {
        jj::diff(self.current().2)
    }

    fn current_commit_id(&self) -> String {
        jj::current_commit_id(&self.current().0)
    }

    fn commit(&mut self, message: &str) -> Result<CommitResult, VcsError> {
        jj::check_commit(self.current().2, &self.current().1)?;
        self.commits.last_mut().unwrap().1 = message.to_string();
        let result = jj::commit_result(&self.current().0, message);
        self.add();
        Ok(result)
    }

    fn log(&self, limit: usize) -> Vec<LogEntry> {
        let mut walk = LogWalk::new(&format!("{}", self.commits.len() - 1), limit);
        while let Some(id) = walk.next() {
            let n: usize = id.parse().unwrap();
            let c = &self.commits[n];
            walk.saw(
                Commit {
                    change_id: c.0.clone(),
                    description: c.1.clone(),
                    author: "Ada".to_string(),
                    millis: 1_705_314_600_000,
                    parents: if n == 0 { vec![] } else { vec![format!("{}", n - 1)] },
                },
                NOW,
            );
        }
        walk.entries
    }
}

#[test]
fn test_open_jj_repo() {
    assert_eq!(JjBackend::open("/repo").vcs_type(), VcsType::Jj);
}

#[test]
fn jj_test_status_empty_repo() {
    let status = JjRepo::new().status();
    assert!(status.working_copy_id.is_some());
    assert!(status.files.is_empty());
}

#[test]
fn jj_test_log_empty_repo() {
    assert!(!JjRepo::new().log(10).is_empty());
}

#[test]
fn jj_test_current_commit_id() {
    assert!(!JjRepo::new().current_commit_id().is_empty());
}

#[test]
fn jj_test_status_with_modified_file() {
    let mut repo = JjRepo::new();
    repo.write_file();
    repo.commit("initial commit").unwrap();
    repo.write_file();
    let status = repo.status();
    assert!(!status.files.is_empty());
    assert_eq!(status.files[0].status, FileStatusKind::Modified);
}

#[test]
fn test_status_with_added_file() {
    let mut repo = JjRepo::new();
    repo.write_file();
    assert!(!repo.status().files.is_empty());
}

#[test]
fn test_status_with_deleted_file() {
    let mut repo = JjRepo::new();
    repo.write_file();
    repo.commit("add file").unwrap();
    repo.write_file();
    assert!(!repo.status().files.is_empty());
}

#[test]
fn test_log_with_multiple_commits() {
    let mut repo = JjRepo::new();
    for message in ["first commit", "second commit", "third commit"] {
        repo.write_file();
        repo.commit(message).unwrap();
    }
    let log = repo.log(10);
    assert!(log.len() >= 3);
    let descriptions: Vec<&str> = log.iter().map(|e| e.description.as_str()).collect();
    assert!(descriptions.contains(&"third commit"));
    assert!(descriptions.contains(&"second commit"));
    assert!(descriptions.contains(&"first commit"));
    assert_eq!(repo.log(2).len(), 2);
}

#[test]
fn jj_test_diff_empty_working_copy() {
    assert!(JjRepo::new().diff().is_empty());
}

#[test]
fn test_diff_with_changes() {
    let mut repo = JjRepo::new();
    repo.write_file();
    let diff = repo.diff();
    assert!(!diff.is_empty());
    assert_eq!(diff[0].change_type, ChangeType::Modified);
}

#[test]
fn jj_test_commit_workflow() {
    let mut repo = JjRepo::new();
    let id_before = repo.current_commit_id();
    repo.write_file();
    let result = repo.commit("test commit").unwrap();
    assert_eq!(result.message, "test commit");
    assert!(!result.id.is_empty());
    assert_ne!(id_before, repo.current_commit_id());
}

#[test]
fn jj_test_current_commit_id_changes_after_commit() {
    let mut repo = JjRepo::new();
    let id1 = repo.current_commit_id();
    repo.write_file();
    repo.commit("commit a").unwrap();
    let id2 = repo.current_commit_id();
    assert_ne!(id1, id2);
    repo.write_file();
    repo.commit("commit b").unwrap();
    assert_ne!(id2, repo.current_commit_id());
}

#[test]
fn jj_test_root_path() {
    let backend = JjBackend::open("/repo");
    assert!(!backend.root().is_empty());
    assert_eq!(backend.root(), "/repo");
}

#[test]
fn jj_test_nested_file_operations() {
    let mut repo = JjRepo::new();
    repo.write_file();
    repo.commit("add source files").unwrap();
    assert!(repo.log(5).iter().any(|e| e.description == "add source files"));
}
