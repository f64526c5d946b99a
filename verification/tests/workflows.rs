use std::collections::HashMap;

use protohub::workflow::{
    changes_start, changes_step, commit_start, commit_step, file_diff_start, file_diff_step, git_result, pull_start,
    pull_step, workspace_info_start, workspace_info_step, GitAction, GitEvent, Next,
};

/// Answers git commands from a table keyed by the joined arguments; a
/// missing entry fails with "fatal". Files are read from another table.
struct FakeGit {
    outputs: HashMap<String, Result<String, String>>,
    files: HashMap<String, String>,
    ran: Vec<String>,
}

impl FakeGit {
    fn new(entries: &[(&str, Result<&str, &str>)]) -> Self {
        let outputs = entries
            .iter()
            .map(|(k, v)| (k.to_string(), v.map(|s| s.to_string()).map_err(|e| e.to_string())))
            .collect();
        FakeGit { outputs, files: HashMap::new(), ran: Vec::new() }
    }

    fn answer(&mut self, action: GitAction) -> GitEvent {
        match action {
            GitAction::Run { dir, args } => {
                let key = args.join(" ");
                self.ran.push(format!("{dir}: {key}"));
                GitEvent::Output(self.outputs.get(&key).cloned().unwrap_or(Err("fatal".to_string())))
            }
            GitAction::Check { dir, args } => {
                let key = args.join(" ");
                self.ran.push(format!("{dir}: {key}"));
                GitEvent::Succeeded(matches!(self.outputs.get(&key), Some(Ok(_))))
            }
            GitAction::ReadFile { path } => {
                GitEvent::Output(self.files.get(&path).cloned().ok_or_else(|| "missing".to_string()))
            }
        }
    }
}

#[test]
fn command_output_keeps_leading_whitespace() {
    assert_eq!(git_result(true, " M a.proto\r\n\n", ""), Ok(" M a.proto".to_string()));
    assert_eq!(git_result(false, "", "  fatal: no repo \n"), Err("fatal: no repo".to_string()));
    assert_eq!(git_result(false, "", " \n"), Err("Git command failed".to_string()));
}

#[test]
fn workspace_info_prefers_the_current_branch() {
    let mut git = FakeGit::new(&[
        ("rev-parse --show-toplevel", Ok("/repo")),
        ("remote get-url origin", Ok("git@host:demo.git")),
        ("branch --show-current", Ok("master")),
        ("show-ref --verify --quiet refs/remotes/origin/main", Ok("")),
        ("show-ref --verify --quiet refs/remotes/origin/master", Ok("")),
    ]);
    let (mut state, mut action) = workspace_info_start("/repo/sub");
    let info = loop {
        let event = git.answer(action);
        match workspace_info_step(state, event) {
            Next::Continue(s, a) => {
                state = s;
                action = a;
            }
            Next::Finish(info) => break info,
        }
    };
    let info = info.expect("info");
    assert_eq!(info.repository_root, "/repo");
    assert_eq!(info.available_branches, vec!["main".to_string(), "master".to_string()]);
    assert_eq!(info.default_branch, "master");
}

#[test]
fn workspace_info_needs_a_remote_branch() {
    let mut git = FakeGit::new(&[
        ("rev-parse --show-toplevel", Ok("/repo")),
        ("remote get-url origin", Ok("url")),
        ("branch --show-current", Ok("dev")),
    ]);
    let (mut state, mut action) = workspace_info_start("/repo");
    let info = loop {
        let event = git.answer(action);
        match workspace_info_step(state, event) {
            Next::Continue(s, a) => {
                state = s;
                action = a;
            }
            Next::Finish(info) => break info,
        }
    };
    assert!(info.is_none());
}

#[test]
fn only_main_or_master_are_pulled() {
    match pull_start("/repo", "dev") {
        Next::Finish(Err(e)) => assert_eq!(e, "Only main or master can be auto-pulled"),
        _ => panic!("dev must be refused"),
    }
    let mut git = FakeGit::new(&[
        ("rev-parse --show-toplevel", Ok("/repo")),
        ("remote get-url origin", Ok("url")),
        ("branch --show-current", Ok("dev")),
        ("fetch origin refs/heads/main:refs/heads/main", Ok("")),
    ]);
    let mut next = pull_start("/repo", "main");
    let out = loop {
        match next {
            Next::Continue(s, a) => {
                let event = git.answer(a);
                next = pull_step(s, event);
            }
            Next::Finish(r) => break r,
        }
    };
    assert_eq!(out.expect("pull").message, "main is up to date");
}

#[test]
fn changes_are_listed_under_the_repository_root() {
    let mut git = FakeGit::new(&[
        ("rev-parse --show-toplevel", Ok("/repo")),
        ("status --porcelain=v1 --untracked-files=all", Ok(" M a.proto\n?? b/c.proto")),
    ]);
    let (mut state, mut action) = changes_start("/repo/x");
    let changes = loop {
        let event = git.answer(action);
        match changes_step(state, event) {
            Next::Continue(s, a) => {
                state = s;
                action = a;
            }
            Next::Finish(r) => break r,
        }
    };
    let changes = changes.expect("changes");
    assert_eq!(changes.len(), 2);
    assert_eq!(changes[1].path, "/repo/b/c.proto");
    assert_eq!(changes[1].status, "??");
}

#[test]
fn diff_reads_head_and_working_text() {
    match file_diff_start("/repo", "../x", "../x", "M") {
        Next::Finish(Err(e)) => assert_eq!(e, "Invalid repository path"),
        _ => panic!("paths outside the repository are refused"),
    }
    let mut git = FakeGit::new(&[
        ("rev-parse --show-toplevel", Ok("/repo")),
        ("show --no-textconv HEAD:a.proto", Ok("old")),
    ]);
    git.files.insert("/repo/a.proto".to_string(), "new".to_string());
    let mut next = file_diff_start("/repo", "a.proto", "a.proto", "M");
    let diff = loop {
        match next {
            Next::Continue(s, a) => {
                let event = git.answer(a);
                next = file_diff_step(s, event);
            }
            Next::Finish(r) => break r,
        }
    };
    let diff = diff.expect("diff");
    assert_eq!(diff.original, "old");
    assert_eq!(diff.modified, "new");
}

#[test]
fn commits_need_a_message_and_staged_changes() {
    match commit_start("/repo", "   ") {
        Next::Finish(Err(e)) => assert_eq!(e, "Commit message cannot be empty"),
        _ => panic!("empty message must be refused"),
    }
    let mut git = FakeGit::new(&[
        ("rev-parse --show-toplevel", Ok("/repo")),
        ("branch --show-current", Ok("main")),
        ("remote get-url origin", Ok("url")),
        ("add -A", Ok("")),
        ("commit -m fix it", Ok("")),
        ("rev-parse --short HEAD", Ok("abc123")),
        ("push origin main", Ok("")),
    ]);
    let mut next = commit_start("/repo", "  fix it ");
    let out = loop {
        match next {
            Next::Continue(s, a) => {
                let event = git.answer(a);
                next = commit_step(s, event);
            }
            Next::Finish(r) => break r,
        }
    };
    // `diff --cached --quiet` is missing from the table, so it fails:
    // there are staged changes, and the commit goes ahead.
    let out = out.expect("commit");
    assert_eq!(out.commit, "abc123");
    assert_eq!(out.branch, "main");
    assert_eq!(out.message, "Push completed");
    assert!(git.ran.iter().any(|r| r == "/repo: commit -m fix it"));
}

fn run_commit(git: &mut FakeGit, message: &str) -> Result<protohub::workflow::GitCommitOutput, String> {
    let mut next = commit_start("/repo", message);
    loop {
        match next {
            Next::Continue(s, a) => {
                let event = git.answer(a);
                next = commit_step(s, event);
            }
            Next::Finish(r) => return r,
        }
    }
}

fn run_diff(git: &mut FakeGit, relative: &str, status: &str) -> Result<protohub::workflow::GitFileDiff, String> {
    let mut next = file_diff_start("/repo", relative, relative, status);
    loop {
        match next {
            Next::Continue(s, a) => {
                let event = git.answer(a);
                next = file_diff_step(s, event);
            }
            Next::Finish(r) => return r,
        }
    }
}

#[test]
fn commit_flow_reports_each_refusal() {
    let mut clean = FakeGit::new(&[
        ("rev-parse --show-toplevel", Ok("/repo")),
        ("branch --show-current", Ok("main")),
        ("remote get-url origin", Ok("url")),
        ("add -A", Ok("")),
        ("diff --cached --quiet", Ok("")),
    ]);
    assert_eq!(run_commit(&mut clean, "msg").unwrap_err(), "There are no changes to commit");

    let mut detached = FakeGit::new(&[("rev-parse --show-toplevel", Ok("/repo")), ("branch --show-current", Ok(""))]);
    assert_eq!(run_commit(&mut detached, "msg").unwrap_err(), "Cannot commit while HEAD is detached");

    let mut rejected = FakeGit::new(&[
        ("rev-parse --show-toplevel", Ok("/repo")),
        ("branch --show-current", Ok("dev")),
        ("remote get-url origin", Ok("url")),
        ("add -A", Ok("")),
        ("commit -m msg", Ok("")),
        ("rev-parse --short HEAD", Ok("f00d")),
        ("push origin dev", Err("rejected")),
    ]);
    assert_eq!(
        run_commit(&mut rejected, "msg").unwrap_err(),
        "Commit f00d was created locally, but push failed: rejected"
    );

    let mut no_repo = FakeGit::new(&[("rev-parse --show-toplevel", Err("not a git repository"))]);
    assert_eq!(run_commit(&mut no_repo, "msg").unwrap_err(), "not a git repository");
}

#[test]
fn diff_flow_reports_missing_texts() {
    let mut no_baseline = FakeGit::new(&[("rev-parse --show-toplevel", Ok("/repo"))]);
    assert_eq!(
        run_diff(&mut no_baseline, "a.proto", "M").unwrap_err(),
        "Unable to read the Git baseline for a.proto. HEAD: fatal; index: fatal"
    );

    let mut from_index = FakeGit::new(&[
        ("rev-parse --show-toplevel", Ok("/repo")),
        ("show --no-textconv :a.proto", Ok("staged")),
    ]);
    assert_eq!(
        run_diff(&mut from_index, "a.proto", "M").unwrap_err(),
        "Unable to read working file /repo/a.proto: missing"
    );

    let mut deleted = FakeGit::new(&[
        ("rev-parse --show-toplevel", Ok("/repo")),
        ("show --no-textconv HEAD:a.proto", Ok("old")),
    ]);
    let diff = run_diff(&mut deleted, "a.proto", " D").expect("diff");
    assert_eq!(diff.original, "old");
    assert_eq!(diff.modified, "");

    let mut added = FakeGit::new(&[("rev-parse --show-toplevel", Ok("/repo"))]);
    added.files.insert("/repo/n.proto".to_string(), "fresh".to_string());
    let diff = run_diff(&mut added, "n.proto", "??").expect("diff");
    assert_eq!(diff.original, "");
    assert_eq!(diff.modified, "fresh");
}
