//! The git workflows of a workspace as state machines: each step takes what
//! the last git command (or file read) gave and says what to do next, or
//! finishes with the result. The caller runs the commands.
use vstd::prelude::*;

use crate::git::{change_views, changes, parse_git_changes, status_lines_cut, GitChange};
use crate::paths::{inside_repository, is_inside_repository, join_path, path_join};
use crate::text::{
    chars_of, has_char, lines, push_all, same, string_from, strip, strip_end, trim, trimmed,
    CharClass,
};

verus! {

// ---------------------------------------------------------------------------
// Commands and their results
// ---------------------------------------------------------------------------
/// What the caller is to do next.
#[derive(Debug)]
pub enum GitAction {
    /// Run git with `args` in `dir`; answer with `GitEvent::Output`.
    Run { dir: String, args: Vec<String> },
    /// Run git with `args` in `dir`; answer with `GitEvent::Succeeded`.
    Check { dir: String, args: Vec<String> },
    /// Read the text file at `path`; answer with `GitEvent::Output`.
    ReadFile { path: String },
}

/// What the last action gave.
#[derive(Debug)]
pub enum GitEvent {
    /// The command's output (or the file's text), or its error message.
    Output(Result<String, String>),
    /// Whether the command succeeded.
    Succeeded(bool),
}

/// The action runs git with `args` in `dir`.
pub open spec fn runs(a: GitAction, dir: Seq<char>, args: Seq<Seq<char>>) -> bool {
    match a {
        GitAction::Run { dir: d, args: g } => d@ == dir && g.deep_view() == args,
        _ => false,
    }
}

/// The action checks whether git with `args` in `dir` succeeds.
pub open spec fn checks(a: GitAction, dir: Seq<char>, args: Seq<Seq<char>>) -> bool {
    match a {
        GitAction::Check { dir: d, args: g } => d@ == dir && g.deep_view() == args,
        _ => false,
    }
}

/// The action reads the file at `path`.
pub open spec fn reads(a: GitAction, path: Seq<char>) -> bool {
    match a {
        GitAction::ReadFile { path: p } => p@ == path,
        _ => false,
    }
}

/// The text of a successful output, if it is one.
pub open spec fn ok_text(e: GitEvent) -> Option<Seq<char>> {
    match e {
        GitEvent::Output(Ok(s)) => Some(s@),
        _ => None,
    }
}

/// `e` answers a command that gives output.
pub open spec fn is_output(e: GitEvent) -> bool {
    e is Output
}

/// The result of a git command: on success its standard output without the
/// line breaks that end it (leading whitespace is kept); on failure its
/// trimmed standard error, or a fixed message when that is blank.
pub open spec fn command_result(success: bool, stdout: Seq<char>, stderr: Seq<char>) -> Result<
    Seq<char>,
    Seq<char>,
> {
    if success {
        Ok(strip_end(stdout, CharClass::LineEnd))
    } else if trim(stderr).len() == 0 {
        Err("Git command failed"@)
    } else {
        Err(trim(stderr))
    }
}

/// The result of a git command from its exit status and its (lossily
/// decoded) standard output and standard error.
pub fn git_result(success: bool, stdout: &str, stderr: &str) -> (r: Result<String, String>)
    ensures
        match r {
            Ok(s) => command_result(success, stdout@, stderr@) == Ok::<Seq<char>, Seq<char>>(s@),
            Err(s) => command_result(success, stdout@, stderr@) == Err::<Seq<char>, Seq<char>>(
                s@,
            ),
        },
{
    if success {
        Ok(string_from(&strip(&chars_of(stdout), CharClass::LineEnd, false, true)))
    } else {
        let message = trimmed(&chars_of(stderr));
        if message.len() == 0 {
            Err(text("Git command failed"))
        } else {
            Err(string_from(&message))
        }
    }
}

fn text(s: &str) -> (r: String)
    ensures
        r@ == s@,
{
    string_from(&chars_of(s))
}

fn cat(a: &str, b: &str) -> (r: String)
    ensures
        r@ == a@ + b@,
{
    let mut v = chars_of(a);
    push_all(&mut v, &chars_of(b));
    string_from(&v)
}

fn cat4(a: &str, b: &str, c: &str, d: &str) -> (r: String)
    ensures
        r@ == a@ + b@ + c@ + d@,
{
    let mut v = chars_of(a);
    push_all(&mut v, &chars_of(b));
    push_all(&mut v, &chars_of(c));
    push_all(&mut v, &chars_of(d));
    string_from(&v)
}

fn words(ws: &[&str]) -> (r: Vec<String>)
    ensures
        r.deep_view() == ws.deep_view(),
{
    let mut r: Vec<String> = Vec::new();
    let mut i: usize = 0;
    while i < ws.len()
        invariant
            i <= ws@.len(),
            r.deep_view() == ws.deep_view().take(i as int),
        decreases ws@.len() - i,
    {
        let ghost before = r.deep_view();
        let w = text(ws[i]);
        assert(ws.deep_view()[i as int] == ws@[i as int]@);
        r.push(w);
        assert(r.deep_view() =~= before.push(w@));
        assert(ws.deep_view().take(i + 1) =~= ws.deep_view().take(i as int).push(w@));
        i = i + 1;
    }
    assert(ws.deep_view().take(ws@.len() as int) =~= ws.deep_view());
    r
}

fn run(dir: &str, ws: &[&str]) -> (r: GitAction)
    ensures
        runs(r, dir@, ws.deep_view()),
{
    GitAction::Run { dir: text(dir), args: words(ws) }
}

fn check(dir: &str, ws: &[&str]) -> (r: GitAction)
    ensures
        checks(r, dir@, ws.deep_view()),
{
    GitAction::Check { dir: text(dir), args: words(ws) }
}

fn equals(a: &str, b: &str) -> (r: bool)
    ensures
        r == (a@ == b@),
{
    same(&chars_of(a), &chars_of(b))
}

/// The arguments of `git rev-parse --show-toplevel`.
pub open spec fn toplevel_args() -> Seq<Seq<char>> {
    seq!["rev-parse"@, "--show-toplevel"@]
}

proof fn lemma_words2(a: &str, b: &str, ws: &[&str])
    requires
        ws@ == seq![a, b],
    ensures
        ws.deep_view() == seq![a@, b@],
{
    assert(ws.deep_view() =~= seq![a@, b@]);
}

proof fn lemma_words3(a: &str, b: &str, c: &str, ws: &[&str])
    requires
        ws@ == seq![a, b, c],
    ensures
        ws.deep_view() == seq![a@, b@, c@],
{
    assert(ws.deep_view() =~= seq![a@, b@, c@]);
}

proof fn lemma_words4(a: &str, b: &str, c: &str, d: &str, ws: &[&str])
    requires
        ws@ == seq![a, b, c, d],
    ensures
        ws.deep_view() == seq![a@, b@, c@, d@],
{
    assert(ws.deep_view() =~= seq![a@, b@, c@, d@]);
}

// ---------------------------------------------------------------------------
// Workspace information
// ---------------------------------------------------------------------------
/// The git facts of a workspace.
#[derive(Debug)]
pub struct GitWorkspaceInfo {
    pub repository_root: String,
    pub remote_url: String,
    pub current_branch: String,
    /// `main` and/or `master`, those that the remote has.
    pub available_branches: Vec<String>,
    pub default_branch: String,
}

/// Where the workspace-information flow stands.
#[derive(Debug)]
pub enum InfoState {
    AwaitRoot,
    AwaitRemote { root: String },
    AwaitBranch { root: String, remote: String },
    AwaitMain { root: String, remote: String, current: String },
    AwaitMaster { root: String, remote: String, current: String, main: bool },
}

/// The next step of a flow.
#[derive(Debug)]
pub enum Next<S, T> {
    Continue(S, GitAction),
    Finish(T),
}

/// The branches that the remote has, of `main` and `master`, in that order.
pub open spec fn available(main: bool, master: bool) -> Seq<Seq<char>> {
    (if main {
        seq!["main"@]
    } else {
        seq![]
    }) + (if master {
        seq!["master"@]
    } else {
        seq![]
    })
}

/// The information the flow ends with once both branches are checked.
pub open spec fn info_is(
    info: GitWorkspaceInfo,
    root: Seq<char>,
    remote: Seq<char>,
    current: Seq<char>,
    main: bool,
    master: bool,
) -> bool {
    let avail = available(main, master);
    &&& info.repository_root@ == root
    &&& info.remote_url@ == remote
    &&& info.current_branch@ == current
    &&& info.available_branches.deep_view() == avail
    &&& info.default_branch@ == if avail.contains(current) {
        current
    } else {
        avail[0]
    }
}

/// The first step: find the repository root from the workspace root.
pub fn workspace_info_start(root: &str) -> (r: (InfoState, GitAction))
    ensures
        r.0 is AwaitRoot,
        runs(r.1, root@, toplevel_args()),
{
    let ws = ["rev-parse", "--show-toplevel"];
    proof {
        lemma_words2("rev-parse", "--show-toplevel", &ws);
    }
    (InfoState::AwaitRoot, run(root, &ws))
}

/// What the workspace-information flow does after `event`.
pub open spec fn info_step_is(s: InfoState, e: GitEvent, r: Next<InfoState, Option<GitWorkspaceInfo>>) -> bool {
    match s {
        InfoState::AwaitRoot => match ok_text(e) {
            Some(root) => r matches Next::Continue(InfoState::AwaitRemote { root: r2 }, a) && r2@
                == root && runs(a, root, seq!["remote"@, "get-url"@, "origin"@]),
            None => r matches Next::Finish(None),
        },
        InfoState::AwaitRemote { root } => match ok_text(e) {
            Some(remote) if remote.len() > 0 => r matches Next::Continue(
                InfoState::AwaitBranch { root: r2, remote: m2 },
                a,
            ) && r2@ == root@ && m2@ == remote && runs(
                a,
                root@,
                seq!["branch"@, "--show-current"@],
            ),
            _ => r matches Next::Finish(None),
        },
        InfoState::AwaitBranch { root, remote } => {
            let current = match ok_text(e) {
                Some(c) => c,
                None => seq![],
            };
            r matches Next::Continue(InfoState::AwaitMain { root: r2, remote: m2, current: c2 }, a)
                && r2@ == root@ && m2@ == remote@ && c2@ == current && checks(
                a,
                root@,
                seq!["show-ref"@, "--verify"@, "--quiet"@, "refs/remotes/origin/main"@],
            )
        },
        InfoState::AwaitMain { root, remote, current } => match e {
            GitEvent::Succeeded(main) => r matches Next::Continue(
                InfoState::AwaitMaster { root: r2, remote: m2, current: c2, main: b2 },
                a,
            ) && r2@ == root@ && m2@ == remote@ && c2@ == current@ && b2 == main && checks(
                a,
                root@,
                seq!["show-ref"@, "--verify"@, "--quiet"@, "refs/remotes/origin/master"@],
            ),
            _ => false,
        },
        InfoState::AwaitMaster { root, remote, current, main } => match e {
            GitEvent::Succeeded(master) => if !main && !master {
                r matches Next::Finish(None)
            } else {
                r matches Next::Finish(Some(info)) && info_is(
                    info,
                    root@,
                    remote@,
                    current@,
                    main,
                    master,
                )
            },
            _ => false,
        },
    }
}

/// `event` is the kind of answer that `state` waits for.
pub open spec fn info_expects(s: InfoState, e: GitEvent) -> bool {
    match s {
        InfoState::AwaitMain { .. } | InfoState::AwaitMaster { .. } => e is Succeeded,
        _ => e is Output,
    }
}

/// One step of the workspace-information flow. It gives up (with no
/// information) when there is no repository, no remote, or neither `main`
/// nor `master` on the remote; the default branch is the current branch
/// when the remote has it, else the first available one.
pub fn workspace_info_step(state: InfoState, event: GitEvent) -> (r: Next<
    InfoState,
    Option<GitWorkspaceInfo>,
>)
    requires
        info_expects(state, event),
    ensures
        info_step_is(state, event, r),
{
    match state {
        InfoState::AwaitRoot => match event {
            GitEvent::Output(Ok(root)) => {
                let ws = ["remote", "get-url", "origin"];
                proof {
                    lemma_words3("remote", "get-url", "origin", &ws);
                }
                let a = run(root.as_str(), &ws);
                Next::Continue(InfoState::AwaitRemote { root }, a)
            },
            _ => Next::Finish(None),
        },
        InfoState::AwaitRemote { root } => match event {
            GitEvent::Output(Ok(remote)) => {
                if remote.as_str().is_empty() {
                    return Next::Finish(None);
                }
                let ws = ["branch", "--show-current"];
                proof {
                    lemma_words2("branch", "--show-current", &ws);
                }
                let a = run(root.as_str(), &ws);
                Next::Continue(InfoState::AwaitBranch { root, remote }, a)
            },
            _ => Next::Finish(None),
        },
        InfoState::AwaitBranch { root, remote } => {
            let current = match event {
                GitEvent::Output(Ok(c)) => c,
                _ => String::new(),
            };
            let ws = ["show-ref", "--verify", "--quiet", "refs/remotes/origin/main"];
            proof {
                lemma_words4("show-ref", "--verify", "--quiet", "refs/remotes/origin/main", &ws);
            }
            let a = check(root.as_str(), &ws);
            Next::Continue(InfoState::AwaitMain { root, remote, current }, a)
        },
        InfoState::AwaitMain { root, remote, current } => {
            let main = match event {
                GitEvent::Succeeded(b) => b,
                _ => false,
            };
            let ws = ["show-ref", "--verify", "--quiet", "refs/remotes/origin/master"];
            proof {
                lemma_words4("show-ref", "--verify", "--quiet", "refs/remotes/origin/master", &ws);
            }
            let a = check(root.as_str(), &ws);
            Next::Continue(InfoState::AwaitMaster { root, remote, current, main }, a)
        },
        InfoState::AwaitMaster { root, remote, current, main } => {
            let master = match event {
                GitEvent::Succeeded(b) => b,
                _ => false,
            };
            let mut avail: Vec<String> = Vec::new();
            if main {
                avail.push(text("main"));
            }
            if master {
                avail.push(text("master"));
            }
            proof {
                assert(avail.deep_view() =~= available(main, master));
            }
            if avail.len() == 0 {
                return Next::Finish(None);
            }
            let mut has_current = false;
            let mut i: usize = 0;
            while i < avail.len()
                invariant
                    i <= avail.len(),
                    has_current == exists|j: int| 0 <= j < i && avail.deep_view()[j] == current@,
                decreases avail.len() - i,
            {
                proof {
                    assert(avail.deep_view()[i as int] == avail@[i as int]@);
                }
                if avail[i] == current {
                    has_current = true;
                }
                i = i + 1;
            }
            proof {
                if avail.deep_view().contains(current@) {
                    let j = choose|j: int| 0 <= j < avail.deep_view().len() && avail.deep_view()[j] == current@;
                    assert(avail.deep_view()[j] == current@);
                }
            }
            let default_branch = if has_current {
                current.clone()
            } else {
                assert(avail.deep_view()[0] == avail@[0]@);
                avail[0].clone()
            };
            Next::Finish(
                Some(
                    GitWorkspaceInfo {
                        repository_root: root,
                        remote_url: remote,
                        current_branch: current,
                        available_branches: avail,
                        default_branch,
                    },
                ),
            )
        },
    }
}

// ---------------------------------------------------------------------------
// The changes of a workspace
// ---------------------------------------------------------------------------
/// Where the changes flow stands.
#[derive(Debug)]
pub enum ChangesState {
    AwaitRoot,
    AwaitStatus { root: String },
}

/// The arguments of the status command.
pub open spec fn status_args() -> Seq<Seq<char>> {
    seq!["status"@, "--porcelain=v1"@, "--untracked-files=all"@]
}

/// The first step of listing the changes: find the repository root.
pub fn changes_start(root: &str) -> (r: (ChangesState, GitAction))
    ensures
        r.0 is AwaitRoot,
        runs(r.1, root@, toplevel_args()),
{
    let ws = ["rev-parse", "--show-toplevel"];
    proof {
        lemma_words2("rev-parse", "--show-toplevel", &ws);
    }
    (ChangesState::AwaitRoot, run(root, &ws))
}

/// What the changes flow does after `event`.
pub open spec fn changes_step_is(s: ChangesState, e: GitEvent, r: Next<ChangesState, Result<Vec<GitChange>, String>>) -> bool {
    match s {
        ChangesState::AwaitRoot => match e {
            GitEvent::Output(Ok(root)) => r matches Next::Continue(
                ChangesState::AwaitStatus { root: r2 },
                a,
            ) && r2@ == root@ && runs(a, root@, status_args()),
            GitEvent::Output(Err(m)) => r matches Next::Finish(Err(x)) && x@ == m@,
            _ => false,
        },
        ChangesState::AwaitStatus { root } => match e {
            GitEvent::Output(Ok(out)) => r matches Next::Finish(Ok(cs)) && change_views(cs@)
                == changes(lines(out@), root@, lines(out@).len() as int),
            GitEvent::Output(Err(m)) => r matches Next::Finish(Err(x)) && x@ == m@,
            _ => false,
        },
    }
}

/// The status output can be parsed: every line can be cut after its status.
pub open spec fn status_event_ok(s: ChangesState, e: GitEvent) -> bool {
    match s {
        ChangesState::AwaitStatus { .. } => match e {
            GitEvent::Output(Ok(out)) => status_lines_cut(out@),
            _ => true,
        },
        _ => true,
    }
}

/// One step of listing the changes: the porcelain status of the repository,
/// parsed into changes with paths under the repository root.
pub fn changes_step(state: ChangesState, event: GitEvent) -> (r: Next<
    ChangesState,
    Result<Vec<GitChange>, String>,
>)
    requires
        is_output(event),
        status_event_ok(state, event),
    ensures
        changes_step_is(state, event, r),
{
    match state {
        ChangesState::AwaitRoot => match event {
            GitEvent::Output(Ok(root)) => {
                let ws = ["status", "--porcelain=v1", "--untracked-files=all"];
                proof {
                    lemma_words3("status", "--porcelain=v1", "--untracked-files=all", &ws);
                }
                let a = run(root.as_str(), &ws);
                Next::Continue(ChangesState::AwaitStatus { root }, a)
            },
            GitEvent::Output(Err(m)) => Next::Finish(Err(m)),
            GitEvent::Succeeded(_) => Next::Finish(Err(String::new())),
        },
        ChangesState::AwaitStatus { root } => match event {
            GitEvent::Output(Ok(out)) => Next::Finish(
                Ok(parse_git_changes(out.as_str(), root.as_str())),
            ),
            GitEvent::Output(Err(m)) => Next::Finish(Err(m)),
            GitEvent::Succeeded(_) => Next::Finish(Err(String::new())),
        },
    }
}

// ---------------------------------------------------------------------------
// Pulling main or master
// ---------------------------------------------------------------------------
/// What a pull reports.
#[derive(Debug)]
pub struct GitPullOutput {
    pub message: String,
}

/// Where the pull flow stands.
#[derive(Debug)]
pub enum PullState {
    AwaitRoot { branch: String },
    AwaitRemote { root: String, branch: String },
    AwaitBranch { root: String, branch: String },
    AwaitUpdate { branch: String },
}

/// The branches that may be pulled.
pub open spec fn pullable(branch: Seq<char>) -> bool {
    branch == "main"@ || branch == "master"@
}

/// The first step of a pull: only `main` and `master` may be pulled.
pub fn pull_start(root: &str, branch: &str) -> (r: Next<PullState, Result<GitPullOutput, String>>)
    ensures
        !pullable(branch@) ==> (r matches Next::Finish(Err(e)) && e@
            == "Only main or master can be auto-pulled"@),
        pullable(branch@) ==> (r matches Next::Continue(PullState::AwaitRoot { branch: b }, a)
            && b@ == branch@ && runs(a, root@, toplevel_args())),
{
    if !equals(branch, "main") && !equals(branch, "master") {
        return Next::Finish(Err(text("Only main or master can be auto-pulled")));
    }
    let ws = ["rev-parse", "--show-toplevel"];
    proof {
        lemma_words2("rev-parse", "--show-toplevel", &ws);
    }
    Next::Continue(PullState::AwaitRoot { branch: text(branch) }, run(root, &ws))
}

/// `refs/heads/<b>:refs/heads/<b>`.
pub open spec fn refspec(b: Seq<char>) -> Seq<char> {
    "refs/heads/"@ + b + ":refs/heads/"@ + b
}

/// What the pull flow does after `event`.
pub open spec fn pull_step_is(s: PullState, e: GitEvent, r: Next<PullState, Result<GitPullOutput, String>>) -> bool {
    match s {
        PullState::AwaitRoot { branch } => match e {
            GitEvent::Output(Ok(root)) => r matches Next::Continue(
                PullState::AwaitRemote { root: r2, branch: b2 },
                a,
            ) && r2@ == root@ && b2@ == branch@ && runs(
                a,
                root@,
                seq!["remote"@, "get-url"@, "origin"@],
            ),
            GitEvent::Output(Err(m)) => r matches Next::Finish(Err(x)) && x@ == m@,
            _ => false,
        },
        PullState::AwaitRemote { root, branch } => match e {
            GitEvent::Output(Ok(_)) => r matches Next::Continue(
                PullState::AwaitBranch { root: r2, branch: b2 },
                a,
            ) && r2@ == root@ && b2@ == branch@ && runs(
                a,
                root@,
                seq!["branch"@, "--show-current"@],
            ),
            GitEvent::Output(Err(m)) => r matches Next::Finish(Err(x)) && x@ == m@,
            _ => false,
        },
        PullState::AwaitBranch { root, branch } => {
            let current = match ok_text(e) {
                Some(c) => c,
                None => seq![],
            };
            r matches Next::Continue(PullState::AwaitUpdate { branch: b2 }, a) && b2@ == branch@
                && (if current == branch@ {
                runs(a, root@, seq!["pull"@, "--ff-only"@, "origin"@, branch@])
            } else {
                runs(a, root@, seq!["fetch"@, "origin"@, refspec(branch@)])
            })
        },
        PullState::AwaitUpdate { branch } => match e {
            GitEvent::Output(Ok(out)) => r matches Next::Finish(Ok(o)) && o.message@ == if out@.len()
                == 0 {
                branch@ + " is up to date"@
            } else {
                out@
            },
            GitEvent::Output(Err(m)) => r matches Next::Finish(Err(x)) && x@ == m@,
            _ => false,
        },
    }
}

/// One step of the pull flow: the current branch is pulled fast-forward
/// only; another branch is fetched into its local ref.
pub fn pull_step(state: PullState, event: GitEvent) -> (r: Next<PullState, Result<GitPullOutput, String>>)
    requires
        is_output(event),
    ensures
        pull_step_is(state, event, r),
{
    match state {
        PullState::AwaitRoot { branch } => match event {
            GitEvent::Output(Ok(root)) => {
                let ws = ["remote", "get-url", "origin"];
                proof {
                    lemma_words3("remote", "get-url", "origin", &ws);
                }
                let a = run(root.as_str(), &ws);
                Next::Continue(PullState::AwaitRemote { root, branch }, a)
            },
            GitEvent::Output(Err(m)) => Next::Finish(Err(m)),
            GitEvent::Succeeded(_) => Next::Finish(Err(String::new())),
        },
        PullState::AwaitRemote { root, branch } => match event {
            GitEvent::Output(Ok(_)) => {
                let ws = ["branch", "--show-current"];
                proof {
                    lemma_words2("branch", "--show-current", &ws);
                }
                let a = run(root.as_str(), &ws);
                Next::Continue(PullState::AwaitBranch { root, branch }, a)
            },
            GitEvent::Output(Err(m)) => Next::Finish(Err(m)),
            GitEvent::Succeeded(_) => Next::Finish(Err(String::new())),
        },
        PullState::AwaitBranch { root, branch } => {
            let current = match event {
                GitEvent::Output(Ok(c)) => c,
                _ => String::new(),
            };
            let a = if current == branch {
                let b = branch.as_str();
                let ws = ["pull", "--ff-only", "origin", b];
                proof {
                    lemma_words4("pull", "--ff-only", "origin", b, &ws);
                }
                run(root.as_str(), &ws)
            } else {
                let mut spec_text = chars_of("refs/heads/");
                push_all(&mut spec_text, &chars_of(branch.as_str()));
                push_all(&mut spec_text, &chars_of(":refs/heads/"));
                push_all(&mut spec_text, &chars_of(branch.as_str()));
                let refs = string_from(&spec_text);
                let rs = refs.as_str();
                let ws = ["fetch", "origin", rs];
                proof {
                    lemma_words3("fetch", "origin", rs, &ws);
                }
                run(root.as_str(), &ws)
            };
            Next::Continue(PullState::AwaitUpdate { branch }, a)
        },
        PullState::AwaitUpdate { branch } => match event {
            GitEvent::Output(Ok(out)) => {
                let message = if out.as_str().is_empty() {
                    cat(branch.as_str(), " is up to date")
                } else {
                    out
                };
                Next::Finish(Ok(GitPullOutput { message }))
            },
            GitEvent::Output(Err(m)) => Next::Finish(Err(m)),
            GitEvent::Succeeded(_) => Next::Finish(Err(String::new())),
        },
    }
}

// ---------------------------------------------------------------------------
// The two sides of a file's diff
// ---------------------------------------------------------------------------
/// The committed and the working text of a file.
#[derive(Debug)]
pub struct GitFileDiff {
    pub original: String,
    pub modified: String,
}

/// Where the diff flow stands.
#[derive(Debug)]
pub enum DiffState {
    AwaitRoot { relative: String, original_path: String, status: String },
    AwaitHead { root: String, relative: String, original_path: String, status: String },
    AwaitIndex {
        root: String,
        relative: String,
        original_path: String,
        status: String,
        head_error: String,
    },
    AwaitWorking { root: String, relative: String, original: String },
}

/// The flow's paths stay inside the repository.
pub open spec fn diff_state_ok(s: DiffState) -> bool {
    match s {
        DiffState::AwaitRoot { relative, original_path, .. } => inside_repository(relative@)
            && inside_repository(original_path@),
        DiffState::AwaitHead { relative, original_path, .. } => inside_repository(relative@)
            && inside_repository(original_path@),
        DiffState::AwaitIndex { relative, original_path, .. } => inside_repository(relative@)
            && inside_repository(original_path@),
        DiffState::AwaitWorking { relative, .. } => inside_repository(relative@),
    }
}

/// A file that git has no committed text of: untracked or added.
pub open spec fn is_new(status: Seq<char>) -> bool {
    status == "??"@ || status.contains('A')
}

/// The first step of a diff: both paths must stay inside the repository.
pub fn file_diff_start(
    root: &str,
    relative_path: &str,
    original_relative_path: &str,
    status: &str,
) -> (r: Next<DiffState, Result<GitFileDiff, String>>)
    ensures
        !(inside_repository(relative_path@) && inside_repository(original_relative_path@)) ==> (
        r matches Next::Finish(Err(e)) && e@ == "Invalid repository path"@),
        inside_repository(relative_path@) && inside_repository(original_relative_path@) ==> (
        r matches Next::Continue(s, a) && s matches DiffState::AwaitRoot {
            relative,
            original_path,
            status: st,
        } && relative@ == relative_path@ && original_path@ == original_relative_path@ && st@
            == status@ && runs(a, root@, toplevel_args())),
{
    if !is_inside_repository(relative_path) || !is_inside_repository(original_relative_path) {
        return Next::Finish(Err(text("Invalid repository path")));
    }
    let ws = ["rev-parse", "--show-toplevel"];
    proof {
        lemma_words2("rev-parse", "--show-toplevel", &ws);
    }
    Next::Continue(
        DiffState::AwaitRoot {
            relative: text(relative_path),
            original_path: text(original_relative_path),
            status: text(status),
        },
        run(root, &ws),
    )
}

/// With the committed text known: a deleted file has no working text; any
/// other file's working text is read next.
pub open spec fn after_original_is(
    root: Seq<char>,
    relative: Seq<char>,
    status: Seq<char>,
    original: Seq<char>,
    r: Next<DiffState, Result<GitFileDiff, String>>,
) -> bool {
    if status.contains('D') {
        r matches Next::Finish(Ok(d)) && d.original@ == original && d.modified@.len() == 0
    } else {
        r matches Next::Continue(DiffState::AwaitWorking { root: r2, relative: l2, original: o2 }, a)
            && r2@ == root && l2@ == relative && o2@ == original && reads(
            a,
            path_join(root, relative),
        )
    }
}

fn after_original(root: String, relative: String, status: &str, original: String) -> (r: Next<
    DiffState,
    Result<GitFileDiff, String>,
>)
    ensures
        after_original_is(root@, relative@, status@, original@, r),
{
    if has_char(&chars_of(status), 'D') {
        Next::Finish(Ok(GitFileDiff { original, modified: String::new() }))
    } else {
        let path = join_path(root.as_str(), relative.as_str());
        Next::Continue(
            DiffState::AwaitWorking { root, relative, original },
            GitAction::ReadFile { path },
        )
    }
}

/// What the diff flow does after `event`.
pub open spec fn diff_step_is(s: DiffState, e: GitEvent, r: Next<DiffState, Result<GitFileDiff, String>>) -> bool {
    match s {
        DiffState::AwaitRoot { relative, original_path, status } => match e {
            GitEvent::Output(Ok(root)) => if is_new(status@) {
                after_original_is(root@, relative@, status@, seq![], r)
            } else {
                r matches Next::Continue(
                    DiffState::AwaitHead { root: r2, relative: l2, original_path: o2, status: s2 },
                    a,
                ) && r2@ == root@ && l2@ == relative@ && o2@ == original_path@ && s2@ == status@
                    && runs(a, root@, seq!["show"@, "--no-textconv"@, "HEAD:"@ + original_path@])
            },
            GitEvent::Output(Err(m)) => r matches Next::Finish(Err(x)) && x@ == m@,
            _ => false,
        },
        DiffState::AwaitHead { root, relative, original_path, status } => match e {
            GitEvent::Output(Ok(c)) => after_original_is(root@, relative@, status@, c@, r),
            GitEvent::Output(Err(h)) => r matches Next::Continue(
                DiffState::AwaitIndex {
                    root: r2,
                    relative: l2,
                    original_path: o2,
                    status: s2,
                    head_error: h2,
                },
                a,
            ) && r2@ == root@ && l2@ == relative@ && o2@ == original_path@ && s2@ == status@ && h2@
                == h@ && runs(a, root@, seq!["show"@, "--no-textconv"@, ":"@ + original_path@]),
            _ => false,
        },
        DiffState::AwaitIndex { root, relative, original_path, status, head_error } => match e {
            GitEvent::Output(Ok(c)) => after_original_is(root@, relative@, status@, c@, r),
            GitEvent::Output(Err(i)) => r matches Next::Finish(Err(x)) && x@
                == "Unable to read the Git baseline for "@ + original_path@ + ". HEAD: "@
                + head_error@ + "; index: "@ + i@,
            _ => false,
        },
        DiffState::AwaitWorking { root, relative, original } => match e {
            GitEvent::Output(Ok(m)) => r matches Next::Finish(Ok(d)) && d.original@ == original@
                && d.modified@ == m@,
            GitEvent::Output(Err(m)) => r matches Next::Finish(Err(x)) && x@
                == "Unable to read working file "@ + path_join(root@, relative@) + ": "@ + m@,
            _ => false,
        },
    }
}

/// One step of the diff flow: the committed text comes from `HEAD`, else
/// from the index; new files have none and deleted files have no working
/// text.
pub fn file_diff_step(state: DiffState, event: GitEvent) -> (r: Next<
    DiffState,
    Result<GitFileDiff, String>,
>)
    requires
        is_output(event),
    ensures
        diff_step_is(state, event, r),
{
    match state {
        DiffState::AwaitRoot { relative, original_path, status } => match event {
            GitEvent::Output(Ok(root)) => {
                let st = chars_of(status.as_str());
                if same(&st, &chars_of("??")) || has_char(&st, 'A') {
                    return after_original(root, relative, status.as_str(), String::new());
                }
                let head = cat("HEAD:", original_path.as_str());
                let hs = head.as_str();
                let ws = ["show", "--no-textconv", hs];
                proof {
                    lemma_words3("show", "--no-textconv", hs, &ws);
                }
                let a = run(root.as_str(), &ws);
                Next::Continue(DiffState::AwaitHead { root, relative, original_path, status }, a)
            },
            GitEvent::Output(Err(m)) => Next::Finish(Err(m)),
            GitEvent::Succeeded(_) => Next::Finish(Err(String::new())),
        },
        DiffState::AwaitHead { root, relative, original_path, status } => match event {
            GitEvent::Output(Ok(c)) => after_original(root, relative, status.as_str(), c),
            GitEvent::Output(Err(head_error)) => {
                let index = cat(":", original_path.as_str());
                let is = index.as_str();
                let ws = ["show", "--no-textconv", is];
                proof {
                    lemma_words3("show", "--no-textconv", is, &ws);
                }
                let a = run(root.as_str(), &ws);
                Next::Continue(
                    DiffState::AwaitIndex { root, relative, original_path, status, head_error },
                    a,
                )
            },
            GitEvent::Succeeded(_) => Next::Finish(Err(String::new())),
        },
        DiffState::AwaitIndex { root, relative, original_path, status, head_error } => match event {
            GitEvent::Output(Ok(c)) => after_original(root, relative, status.as_str(), c),
            GitEvent::Output(Err(index_error)) => {
                let mut v = chars_of("Unable to read the Git baseline for ");
                push_all(&mut v, &chars_of(original_path.as_str()));
                push_all(&mut v, &chars_of(". HEAD: "));
                push_all(&mut v, &chars_of(head_error.as_str()));
                push_all(&mut v, &chars_of("; index: "));
                push_all(&mut v, &chars_of(index_error.as_str()));
                Next::Finish(Err(string_from(&v)))
            },
            GitEvent::Succeeded(_) => Next::Finish(Err(String::new())),
        },
        DiffState::AwaitWorking { root, relative, original } => match event {
            GitEvent::Output(Ok(modified)) => Next::Finish(Ok(GitFileDiff { original, modified })),
            GitEvent::Output(Err(e)) => {
                let path = join_path(root.as_str(), relative.as_str());
                let mut v = chars_of("Unable to read working file ");
                push_all(&mut v, &chars_of(path.as_str()));
                push_all(&mut v, &chars_of(": "));
                push_all(&mut v, &chars_of(e.as_str()));
                Next::Finish(Err(string_from(&v)))
            },
            GitEvent::Succeeded(_) => Next::Finish(Err(String::new())),
        },
    }
}

/// The diff flow reads only files inside the repository: every state it
/// passes through keeps its paths relative and free of `..`, and the only
/// file it reads is the repository root joined with such a path.
pub proof fn law_diff_stays_inside_repository(
    s: DiffState,
    e: GitEvent,
    r: Next<DiffState, Result<GitFileDiff, String>>,
)
    requires
        diff_state_ok(s),
        diff_step_is(s, e, r),
    ensures
        r matches Next::Continue(s2, a) ==> diff_state_ok(s2) && (a matches GitAction::ReadFile {
            path,
        } ==> exists|root: Seq<char>, rel: Seq<char>|
            inside_repository(rel) && path@ == #[trigger] path_join(root, rel)),
{
    if let Next::Continue(s2, a) = r {
        if let GitAction::ReadFile { path } = a {
            if let DiffState::AwaitWorking { root, relative, .. } = s2 {
                assert(path@ == path_join(root@, relative@));
            }
        }
    }
}

// ---------------------------------------------------------------------------
// Committing and pushing
// ---------------------------------------------------------------------------
/// What a commit and push report.
#[derive(Debug)]
pub struct GitCommitOutput {
    pub commit: String,
    pub branch: String,
    pub message: String,
}

/// Where the commit flow stands.
#[derive(Debug)]
pub enum CommitState {
    AwaitRoot { message: String },
    AwaitBranch { root: String, message: String },
    AwaitRemote { root: String, message: String, branch: String },
    AwaitAdd { root: String, message: String, branch: String },
    AwaitStaged { root: String, message: String, branch: String },
    AwaitCommit { root: String, branch: String },
    AwaitHash { root: String, branch: String },
    AwaitPush { branch: String, commit: String },
}

/// The first step of a commit: the message, trimmed, must not be empty.
pub fn commit_start(root: &str, message: &str) -> (r: Next<CommitState, Result<GitCommitOutput, String>>)
    ensures
        trim(message@).len() == 0 ==> (r matches Next::Finish(Err(e)) && e@
            == "Commit message cannot be empty"@),
        trim(message@).len() > 0 ==> (r matches Next::Continue(
            CommitState::AwaitRoot { message: m },
            a,
        ) && m@ == trim(message@) && runs(a, root@, toplevel_args())),
{
    let m = trimmed(&chars_of(message));
    if m.len() == 0 {
        return Next::Finish(Err(text("Commit message cannot be empty")));
    }
    let ws = ["rev-parse", "--show-toplevel"];
    proof {
        lemma_words2("rev-parse", "--show-toplevel", &ws);
    }
    Next::Continue(CommitState::AwaitRoot { message: string_from(&m) }, run(root, &ws))
}

/// What the commit flow does after `event`; every failed command ends the
/// flow with its message, except a failed push, which says that the commit
/// was made.
pub open spec fn commit_step_is(
    s: CommitState,
    e: GitEvent,
    r: Next<CommitState, Result<GitCommitOutput, String>>,
) -> bool {
    match (s, e) {
        (CommitState::AwaitStaged { root, message, branch }, GitEvent::Succeeded(clean)) => if clean {
            r matches Next::Finish(Err(x)) && x@ == "There are no changes to commit"@
        } else {
            r matches Next::Continue(CommitState::AwaitCommit { root: r2, branch: b2 }, a) && r2@
                == root@ && b2@ == branch@ && runs(a, root@, seq!["commit"@, "-m"@, message@])
        },
        (CommitState::AwaitStaged { .. }, _) => false,
        (CommitState::AwaitPush { branch, commit }, GitEvent::Output(Ok(out))) => r matches Next::Finish(
            Ok(o),
        ) && o.commit@ == commit@ && o.branch@ == branch@ && o.message@ == if out@.len() == 0 {
            "Push completed"@
        } else {
            out@
        },
        (CommitState::AwaitPush { branch, commit }, GitEvent::Output(Err(m))) => r matches Next::Finish(
            Err(x),
        ) && x@ == "Commit "@ + commit@ + " was created locally, but push failed: "@ + m@,
        (_, GitEvent::Output(Err(m))) => r matches Next::Finish(Err(x)) && x@ == m@,
        (CommitState::AwaitRoot { message }, GitEvent::Output(Ok(root))) => r matches Next::Continue(
            CommitState::AwaitBranch { root: r2, message: m2 },
            a,
        ) && r2@ == root@ && m2@ == message@ && runs(a, root@, seq!["branch"@, "--show-current"@]),
        (CommitState::AwaitBranch { root, message }, GitEvent::Output(Ok(branch))) => if branch@.len()
            == 0 {
            r matches Next::Finish(Err(x)) && x@ == "Cannot commit while HEAD is detached"@
        } else {
            r matches Next::Continue(
                CommitState::AwaitRemote { root: r2, message: m2, branch: b2 },
                a,
            ) && r2@ == root@ && m2@ == message@ && b2@ == branch@ && runs(
                a,
                root@,
                seq!["remote"@, "get-url"@, "origin"@],
            )
        },
        (CommitState::AwaitRemote { root, message, branch }, GitEvent::Output(Ok(_))) => r matches Next::Continue(
            CommitState::AwaitAdd { root: r2, message: m2, branch: b2 },
            a,
        ) && r2@ == root@ && m2@ == message@ && b2@ == branch@ && runs(
            a,
            root@,
            seq!["add"@, "-A"@],
        ),
        (CommitState::AwaitAdd { root, message, branch }, GitEvent::Output(Ok(_))) => r matches Next::Continue(
            CommitState::AwaitStaged { root: r2, message: m2, branch: b2 },
            a,
        ) && r2@ == root@ && m2@ == message@ && b2@ == branch@ && checks(
            a,
            root@,
            seq!["diff"@, "--cached"@, "--quiet"@],
        ),
        (CommitState::AwaitCommit { root, branch }, GitEvent::Output(Ok(_))) => r matches Next::Continue(
            CommitState::AwaitHash { root: r2, branch: b2 },
            a,
        ) && r2@ == root@ && b2@ == branch@ && runs(
            a,
            root@,
            seq!["rev-parse"@, "--short"@, "HEAD"@],
        ),
        (CommitState::AwaitHash { root, branch }, GitEvent::Output(Ok(commit))) => r matches Next::Continue(
            CommitState::AwaitPush { branch: b2, commit: c2 },
            a,
        ) && b2@ == branch@ && c2@ == commit@ && runs(a, root@, seq!["push"@, "origin"@, branch@]),
        _ => false,
    }
}

/// `event` is the kind of answer that `state` waits for.
pub open spec fn commit_expects(s: CommitState, e: GitEvent) -> bool {
    match s {
        CommitState::AwaitStaged { .. } => e is Succeeded,
        _ => e is Output,
    }
}

/// One step of the commit flow: stage everything, commit only when
/// something is staged, then push the branch.
pub fn commit_step(state: CommitState, event: GitEvent) -> (r: Next<
    CommitState,
    Result<GitCommitOutput, String>,
>)
    requires
        commit_expects(state, event),
    ensures
        commit_step_is(state, event, r),
{
    match state {
        CommitState::AwaitStaged { root, message, branch } => {
            let clean = match event {
                GitEvent::Succeeded(b) => b,
                _ => true,
            };
            if clean {
                return Next::Finish(Err(text("There are no changes to commit")));
            }
            let ms = message.as_str();
            let ws = ["commit", "-m", ms];
            proof {
                lemma_words3("commit", "-m", ms, &ws);
            }
            let a = run(root.as_str(), &ws);
            Next::Continue(CommitState::AwaitCommit { root, branch }, a)
        },
        CommitState::AwaitPush { branch, commit } => match event {
            GitEvent::Output(Ok(out)) => {
                let message = if out.as_str().is_empty() {
                    text("Push completed")
                } else {
                    out
                };
                Next::Finish(Ok(GitCommitOutput { commit, branch, message }))
            },
            GitEvent::Output(Err(m)) => Next::Finish(
                Err(cat4("Commit ", commit.as_str(), " was created locally, but push failed: ", m.as_str())),
            ),
            GitEvent::Succeeded(_) => Next::Finish(Err(String::new())),
        },
        CommitState::AwaitRoot { message } => match event {
            GitEvent::Output(Ok(root)) => {
                let ws = ["branch", "--show-current"];
                proof {
                    lemma_words2("branch", "--show-current", &ws);
                }
                let a = run(root.as_str(), &ws);
                Next::Continue(CommitState::AwaitBranch { root, message }, a)
            },
            GitEvent::Output(Err(m)) => Next::Finish(Err(m)),
            GitEvent::Succeeded(_) => Next::Finish(Err(String::new())),
        },
        CommitState::AwaitBranch { root, message } => match event {
            GitEvent::Output(Ok(branch)) => {
                if branch.as_str().is_empty() {
                    return Next::Finish(Err(text("Cannot commit while HEAD is detached")));
                }
                let ws = ["remote", "get-url", "origin"];
                proof {
                    lemma_words3("remote", "get-url", "origin", &ws);
                }
                let a = run(root.as_str(), &ws);
                Next::Continue(CommitState::AwaitRemote { root, message, branch }, a)
            },
            GitEvent::Output(Err(m)) => Next::Finish(Err(m)),
            GitEvent::Succeeded(_) => Next::Finish(Err(String::new())),
        },
        CommitState::AwaitRemote { root, message, branch } => match event {
            GitEvent::Output(Ok(_)) => {
                let ws = ["add", "-A"];
                proof {
                    lemma_words2("add", "-A", &ws);
                }
                let a = run(root.as_str(), &ws);
                Next::Continue(CommitState::AwaitAdd { root, message, branch }, a)
            },
            GitEvent::Output(Err(m)) => Next::Finish(Err(m)),
            GitEvent::Succeeded(_) => Next::Finish(Err(String::new())),
        },
        CommitState::AwaitAdd { root, message, branch } => match event {
            GitEvent::Output(Ok(_)) => {
                let ws = ["diff", "--cached", "--quiet"];
                proof {
                    lemma_words3("diff", "--cached", "--quiet", &ws);
                }
                let a = check(root.as_str(), &ws);
                Next::Continue(CommitState::AwaitStaged { root, message, branch }, a)
            },
            GitEvent::Output(Err(m)) => Next::Finish(Err(m)),
            GitEvent::Succeeded(_) => Next::Finish(Err(String::new())),
        },
        CommitState::AwaitCommit { root, branch } => match event {
            GitEvent::Output(Ok(_)) => {
                let ws = ["rev-parse", "--short", "HEAD"];
                proof {
                    lemma_words3("rev-parse", "--short", "HEAD", &ws);
                }
                let a = run(root.as_str(), &ws);
                Next::Continue(CommitState::AwaitHash { root, branch }, a)
            },
            GitEvent::Output(Err(m)) => Next::Finish(Err(m)),
            GitEvent::Succeeded(_) => Next::Finish(Err(String::new())),
        },
        CommitState::AwaitHash { root, branch } => match event {
            GitEvent::Output(Ok(commit)) => {
                let b = branch.as_str();
                let ws = ["push", "origin", b];
                proof {
                    lemma_words3("push", "origin", b, &ws);
                }
                let a = run(root.as_str(), &ws);
                Next::Continue(CommitState::AwaitPush { branch, commit }, a)
            },
            GitEvent::Output(Err(m)) => Next::Finish(Err(m)),
            GitEvent::Succeeded(_) => Next::Finish(Err(String::new())),
        },
    }
}

// ---------------------------------------------------------------------------
// Laws
// ---------------------------------------------------------------------------
/// A successful command gives its standard output with only the line breaks
/// that end it removed: what it gives is a prefix of the output, and the
/// rest is carriage returns and line feeds. Leading whitespace is kept.
pub proof fn law_output_keeps_its_start(stdout: Seq<char>, stderr: Seq<char>)
    ensures
        ({
            let out = command_result(true, stdout, stderr)->Ok_0;
            &&& command_result(true, stdout, stderr) is Ok
            &&& out.len() <= stdout.len()
            &&& out == stdout.take(out.len() as int)
            &&& forall|i: int| out.len() <= i < stdout.len() ==> stdout[i] == '\r' || stdout[i] == '\n'
        }),
{
    lemma_line_end_run(stdout);
}

proof fn lemma_line_end_run(s: Seq<char>)
    ensures
        strip_end(s, CharClass::LineEnd).len() <= s.len(),
        strip_end(s, CharClass::LineEnd) == s.take(strip_end(s, CharClass::LineEnd).len() as int),
        forall|i: int|
            strip_end(s, CharClass::LineEnd).len() <= i < s.len() ==> s[i] == '\r' || s[i] == '\n',
    decreases s.len(),
{
    if s.len() > 0 && (s.last() == '\r' || s.last() == '\n') {
        lemma_line_end_run(s.drop_last());
        let k = strip_end(s, CharClass::LineEnd).len() as int;
        assert(s.drop_last().take(k) =~= s.take(k));
        assert forall|i: int| k <= i < s.len() implies s[i] == '\r' || s[i] == '\n' by {
            if i < s.len() - 1 {
                assert(s[i] == s.drop_last()[i]);
            }
        }
    } else {
        assert(s.take(s.len() as int) =~= s);
    }
}

/// The default branch of a workspace is one of its available branches, and
/// those are only ever `main` and `master`.
pub proof fn law_default_branch_is_available(
    info: GitWorkspaceInfo,
    root: Seq<char>,
    remote: Seq<char>,
    current: Seq<char>,
    main: bool,
    master: bool,
)
    requires
        info_is(info, root, remote, current, main, master),
        main || master,
    ensures
        info.available_branches.deep_view().contains(info.default_branch@),
        forall|i: int|
            0 <= i < info.available_branches.deep_view().len() ==> (
            #[trigger] info.available_branches.deep_view()[i] == "main"@
                || info.available_branches.deep_view()[i] == "master"@),
{
    let avail = available(main, master);
    assert(avail.len() > 0);
    if !avail.contains(current) {
        assert(avail[0] == avail[0]);
    }
}

/// The commit flow holds a non-empty message until it commits.
pub open spec fn commit_message_kept(s: CommitState) -> bool {
    match s {
        CommitState::AwaitRoot { message } => message@.len() > 0,
        CommitState::AwaitBranch { message, .. } => message@.len() > 0,
        CommitState::AwaitRemote { message, .. } => message@.len() > 0,
        CommitState::AwaitAdd { message, .. } => message@.len() > 0,
        CommitState::AwaitStaged { message, .. } => message@.len() > 0,
        _ => true,
    }
}

/// The action runs `git commit`.
pub open spec fn is_commit(a: GitAction) -> bool {
    match a {
        GitAction::Run { args, .. } => args.deep_view().len() > 0 && args.deep_view()[0] == "commit"@,
        _ => false,
    }
}

/// The action commits the staged changes of the state with its message,
/// after `git diff --cached --quiet` failed.
pub open spec fn commits_staged(s: CommitState, e: GitEvent, a: GitAction) -> bool {
    match s {
        CommitState::AwaitStaged { root, message, .. } => e == GitEvent::Succeeded(false) && runs(
            a,
            root@,
            seq!["commit"@, "-m"@, message@],
        ) && message@.len() > 0,
        _ => false,
    }
}

/// Every step of the commit flow keeps its message non-empty, and the flow
/// runs `git commit` only with that message, and only right after `git diff
/// --cached --quiet` failed, that is, when changes are staged.
pub proof fn law_commit_needs_message_and_changes(
    s: CommitState,
    e: GitEvent,
    r: Next<CommitState, Result<GitCommitOutput, String>>,
)
    requires
        commit_message_kept(s),
        commit_step_is(s, e, r),
    ensures
        match r {
            Next::Continue(s2, a) => commit_message_kept(s2) && (is_commit(a) ==> commits_staged(
                s,
                e,
                a,
            )),
            Next::Finish(_) => true,
        },
{
    reveal_strlit("commit");
    reveal_strlit("branch");
    reveal_strlit("remote");
    reveal_strlit("add");
    reveal_strlit("rev-parse");
    reveal_strlit("push");
    assert("commit"@.len() == 6);
    assert("commit"@[0] == 'c');
    assert("branch"@[0] == 'b');
    assert("remote"@[0] == 'r');
    assert("add"@.len() == 3);
    assert("rev-parse"@.len() == 9);
    assert("push"@.len() == 4);
    match r {
        Next::Continue(s2, a) => {
            match a {
                GitAction::Run { dir, args } => {
                    if is_commit(a) {
                        assert(args.deep_view()[0] == "commit"@);
                        match s {
                            CommitState::AwaitStaged { .. } => {},
                            CommitState::AwaitRoot { .. } => {
                                assert(args.deep_view()[0] == "branch"@);
                            },
                            CommitState::AwaitBranch { .. } => {
                                assert(args.deep_view()[0] == "remote"@);
                            },
                            CommitState::AwaitRemote { .. } => {
                                assert(args.deep_view()[0] == "add"@);
                            },
                            CommitState::AwaitCommit { .. } => {
                                assert(args.deep_view()[0] == "rev-parse"@);
                            },
                            CommitState::AwaitHash { .. } => {
                                assert(args.deep_view()[0] == "push"@);
                            },
                            _ => {},
                        }
                    }
                },
                _ => {},
            }
        },
        _ => {},
    }
}

/// With the current branch known, a pull of the current branch runs
/// `git pull --ff-only origin <branch>`, and only a branch that is not
/// checked out is fetched into its local ref with
/// `git fetch origin refs/heads/<branch>:refs/heads/<branch>`.
pub proof fn law_pull_checked_out_branch_fast_forwards(
    root: String,
    branch: String,
    current: String,
    r: Next<PullState, Result<GitPullOutput, String>>,
)
    requires
        pull_step_is(
            PullState::AwaitBranch { root, branch },
            GitEvent::Output(Ok(current)),
            r,
        ),
    ensures
        match r {
            Next::Continue(_, a) => {
                &&& current@ == branch@ ==> runs(
                    a,
                    root@,
                    seq!["pull"@, "--ff-only"@, "origin"@, branch@],
                )
                &&& runs(
                    a,
                    root@,
                    seq!["fetch"@, "origin"@, "refs/heads/"@ + branch@ + ":refs/heads/"@ + branch@],
                ) ==> current@ != branch@
            },
            Next::Finish(_) => false,
        },
{
    reveal_strlit("pull");
    reveal_strlit("fetch");
    assert("pull"@[0] == 'p');
    assert("fetch"@[0] == 'f');
    match r {
        Next::Continue(_, a) => {
            if current@ == branch@ {
                match a {
                    GitAction::Run { args, .. } => {
                        assert(args.deep_view()[0] == "pull"@);
                    },
                    _ => {},
                }
            }
        },
        _ => {},
    }
}

/// A new file, whose status is `??` or holds `A`, has no committed text:
/// the diff's original side is empty, and no `git show` of `HEAD` or of the
/// index is run for it.
pub proof fn law_new_files_have_no_baseline(
    relative: String,
    original_path: String,
    status: String,
    root: String,
    r: Next<DiffState, Result<GitFileDiff, String>>,
)
    requires
        status@ == "??"@ || status@.contains('A'),
        diff_step_is(
            DiffState::AwaitRoot { relative, original_path, status },
            GitEvent::Output(Ok(root)),
            r,
        ),
    ensures
        match r {
            Next::Continue(s2, a) => !(a is Run) && match s2 {
                DiffState::AwaitWorking { original, .. } => original@.len() == 0,
                _ => false,
            },
            Next::Finish(Ok(d)) => d.original@.len() == 0,
            Next::Finish(Err(_)) => false,
        },
{
}

} // verus!
