//! The enums that a `.proto` file can use: those it declares and those of
//! the files it imports, directly or not. The files are visited breadth
//! first along the import graph, each once; every file with enums gives a
//! group headed by its path inside the workspace.
//!
//! The walk decides; the caller does the file system work. Each step takes
//! the answer to the last action and gives the next action, or the result.
use vstd::prelude::*;

use crate::paths::{
    components, components_of, distinct_paths, join_path, opt_view, parent_of, path_eq, path_join,
    path_parent, paths_equal,
};
use crate::source::{all_named_blocks, extract_named_blocks, imports, named_blocks_fit, parse_proto_imports};
use crate::text::{chars_of, join, join_with, lines, string_from};

verus! {

// ---------------------------------------------------------------------------
// Paths, through std::path
// ---------------------------------------------------------------------------
/// What `std::path::Path::strip_prefix` gives for a path and a base, when it
/// succeeds.
pub uninterp spec fn path_strip_prefix(path: Seq<char>, base: Seq<char>) -> Option<Seq<char>>;

/// `Path::starts_with`: the components of `base` begin those of `path`.
pub open spec fn starts_with_path(path: Seq<char>, base: Seq<char>) -> bool {
    let b = components(base);
    let p = components(path);
    b.len() <= p.len() && p.take(b.len() as int) == b
}

/// `std::path::Path::strip_prefix`: the rest of `path` after `base`. As its
/// documentation says, it succeeds exactly when the components of `base`
/// begin those of `path`. Which text the rest has is left to the name
/// `path_strip_prefix`.
#[verifier::external_body]
fn strip_prefix_of(path: &str, base: &str) -> (r: Option<String>)
    ensures
        opt_view(r) == path_strip_prefix(path@, base@),
        r is Some <==> starts_with_path(path@, base@),
{
    match std::path::Path::new(path).strip_prefix(base) {
        Ok(p) => Some(p.to_string_lossy().into_owned()),
        Err(_) => None,
    }
}

// ---------------------------------------------------------------------------
// The workspace root
// ---------------------------------------------------------------------------
/// The directory of the current file, or `.`.
pub open spec fn fallback_root(current_file: Seq<char>) -> Seq<char> {
    match path_parent(current_file) {
        Some(p) => p,
        None => "."@,
    }
}

/// The index of the first directory with the fewest components among the
/// paths from `i` on, `best` standing for those before; -1 if none.
pub open spec fn first_shortest(paths: Seq<Seq<char>>, dirs: Seq<bool>, i: int, best: int) -> int
    decreases paths.len() - i,
{
    if i < 0 || i >= paths.len() {
        best
    } else if dirs[i] && (best < 0 || components(paths[i]).len() < components(paths[best]).len()) {
        first_shortest(paths, dirs, i + 1, i)
    } else {
        first_shortest(paths, dirs, i + 1, best)
    }
}

/// The workspace root: the include path that is a directory with the
/// fewest components (the first of equals), else the current file's
/// directory.
pub open spec fn workspace_root(paths: Seq<Seq<char>>, dirs: Seq<bool>, current_file: Seq<char>) -> Seq<
    char,
> {
    let b = first_shortest(paths, dirs, 0, -1);
    if 0 <= b < paths.len() {
        paths[b]
    } else {
        fallback_root(current_file)
    }
}

fn fallback_of(current_file: &str) -> (r: String)
    ensures
        r@ == fallback_root(current_file@),
{
    match parent_of(current_file) {
        Some(p) => p,
        None => ".".to_owned(),
    }
}

/// The workspace root, from the include paths and which of them are
/// directories.
pub fn choose_workspace_root(include_paths: &Vec<String>, is_dir: &Vec<bool>, current_file: &str) -> (r:
    String)
    requires
        is_dir@.len() == include_paths@.len(),
    ensures
        r@ == workspace_root(include_paths.deep_view(), is_dir@, current_file@),
{
    let ghost ps = include_paths.deep_view();
    let mut best: Option<(usize, usize)> = None;
    let mut i: usize = 0;
    while i < include_paths.len()
        invariant
            i <= include_paths@.len(),
            is_dir@.len() == include_paths@.len(),
            ps == include_paths.deep_view(),
            first_shortest(ps, is_dir@, 0, -1) == first_shortest(
                ps,
                is_dir@,
                i as int,
                match best {
                    Some((b, _)) => b as int,
                    None => -1,
                },
            ),
            match best {
                Some((b, n)) => b < i && n == components(ps[b as int]).len(),
                None => true,
            },
        decreases include_paths@.len() - i,
    {
        assert(ps[i as int] == include_paths@[i as int]@);
        if is_dir[i] {
            let n = components_of(&chars_of(include_paths[i].as_str())).len();
            let better = match best {
                Some((_, m)) => n < m,
                None => true,
            };
            if better {
                best = Some((i, n));
            }
        }
        i = i + 1;
    }
    match best {
        Some((b, _)) => {
            assert(ps[b as int] == include_paths@[b as int]@);
            include_paths[b].clone()
        },
        None => fallback_of(current_file),
    }
}

// ---------------------------------------------------------------------------
// The walk
// ---------------------------------------------------------------------------
/// What the walk waits for.
#[derive(Debug)]
pub enum WalkStage {
    /// The canonical form of the workspace root.
    Rooting,
    /// The canonical form of the next queued path.
    Canonicalizing(String),
    /// The text of a file.
    Reading(String),
    /// Whether candidate `candidate` for import `import` of a file in `dir`
    /// is a file.
    Resolving { dir: String, imports: Vec<String>, import: usize, candidate: usize },
}

/// The state of the walk.
#[derive(Debug)]
pub struct EnumWalk {
    pub include_paths: Vec<String>,
    pub fallback_root: String,
    pub workspace_root: String,
    /// Paths to visit, the next first.
    pub queue: Vec<String>,
    /// The canonical paths visited.
    pub visited: Vec<String>,
    /// The enum groups found so far.
    pub groups: Vec<String>,
    pub stage: WalkStage,
}

/// What the caller is asked to do.
#[derive(Debug)]
pub enum WalkAction {
    /// `std::fs::canonicalize` of the path.
    Canonicalize(String),
    /// `std::fs::read_to_string` of the path.
    Read(String),
    /// `Path::is_file` of the path.
    IsFile(String),
}

/// The answer to an action.
#[derive(Debug)]
pub enum WalkEvent {
    /// The canonical path, if it could be had.
    Canonical(Option<String>),
    /// The text of the file, if it could be read.
    Text(Option<String>),
    /// Whether the path is a file.
    Found(bool),
}

/// The walk goes on with an action, or ends with the enum source.
#[derive(Debug)]
pub enum WalkNext {
    Continue(EnumWalk, WalkAction),
    Finish(String),
}

pub enum StageView {
    Rooting,
    Canonicalizing(Seq<char>),
    Reading(Seq<char>),
    Resolving(Seq<char>, Seq<Seq<char>>, int, int),
}

pub struct WalkView {
    pub includes: Seq<Seq<char>>,
    pub fallback: Seq<char>,
    pub root: Seq<char>,
    pub queue: Seq<Seq<char>>,
    pub visited: Seq<Seq<char>>,
    pub groups: Seq<Seq<char>>,
    pub stage: StageView,
}

pub enum ActionView {
    Canonicalize(Seq<char>),
    Read(Seq<char>),
    IsFile(Seq<char>),
}

pub enum EventView {
    Canonical(Option<Seq<char>>),
    Text(Option<Seq<char>>),
    Found(bool),
}

pub enum NextView {
    Continue(WalkView, ActionView),
    Finish(Seq<char>),
}

impl View for WalkStage {
    type V = StageView;

    open spec fn view(&self) -> StageView {
        match self {
            WalkStage::Rooting => StageView::Rooting,
            WalkStage::Canonicalizing(p) => StageView::Canonicalizing(p@),
            WalkStage::Reading(p) => StageView::Reading(p@),
            WalkStage::Resolving { dir, imports, import, candidate } => StageView::Resolving(
                dir@,
                imports.deep_view(),
                *import as int,
                *candidate as int,
            ),
        }
    }
}

impl View for EnumWalk {
    type V = WalkView;

    open spec fn view(&self) -> WalkView {
        WalkView {
            includes: self.include_paths.deep_view(),
            fallback: self.fallback_root@,
            root: self.workspace_root@,
            queue: self.queue.deep_view(),
            visited: self.visited.deep_view(),
            groups: self.groups.deep_view(),
            stage: self.stage@,
        }
    }
}

impl View for WalkAction {
    type V = ActionView;

    open spec fn view(&self) -> ActionView {
        match self {
            WalkAction::Canonicalize(p) => ActionView::Canonicalize(p@),
            WalkAction::Read(p) => ActionView::Read(p@),
            WalkAction::IsFile(p) => ActionView::IsFile(p@),
        }
    }
}

impl View for WalkEvent {
    type V = EventView;

    open spec fn view(&self) -> EventView {
        match self {
            WalkEvent::Canonical(c) => EventView::Canonical(opt_view(*c)),
            WalkEvent::Text(t) => EventView::Text(opt_view(*t)),
            WalkEvent::Found(b) => EventView::Found(*b),
        }
    }
}

impl View for WalkNext {
    type V = NextView;

    open spec fn view(&self) -> NextView {
        match self {
            WalkNext::Continue(w, a) => NextView::Continue(w@, a@),
            WalkNext::Finish(s) => NextView::Finish(s@),
        }
    }
}

/// The enum source collected so far: the groups, an empty line apart.
pub open spec fn collected(w: WalkView) -> Seq<char> {
    join(w.groups, "\n\n"@)
}

/// Whether a path equal to `p` was visited.
pub open spec fn seen(visited: Seq<Seq<char>>, p: Seq<char>) -> bool {
    exists|i: int| 0 <= i < visited.len() && path_eq(#[trigger] visited[i], p)
}

/// Takes the next queued path, or ends.
pub open spec fn advance(w: WalkView) -> NextView {
    if w.queue.len() == 0 {
        NextView::Finish(collected(w))
    } else {
        NextView::Continue(
            WalkView { queue: w.queue.drop_first(), stage: StageView::Canonicalizing(w.queue[0]), ..w },
            ActionView::Canonicalize(w.queue[0]),
        )
    }
}

/// Where import `import` may be: candidate 0 is in the importing file's
/// directory, candidate `c` in include path `c - 1`.
pub open spec fn candidate(includes: Seq<Seq<char>>, dir: Seq<char>, import: Seq<char>, c: int) -> Seq<
    char,
> {
    if c == 0 {
        path_join(dir, import)
    } else {
        path_join(includes[c - 1], import)
    }
}

/// Asks about candidate `c` of import `i`, moving past imports whose
/// candidates are used up, and takes the next queued path after the last.
pub open spec fn resolve_from(w: WalkView, dir: Seq<char>, imps: Seq<Seq<char>>, i: int, c: int) -> NextView
    decreases imps.len() - i, w.includes.len() + 1 - c,
{
    if i < 0 || i >= imps.len() {
        advance(w)
    } else if c < 0 || c > w.includes.len() {
        resolve_from(w, dir, imps, i + 1, 0)
    } else {
        NextView::Continue(
            WalkView { stage: StageView::Resolving(dir, imps, i, c), ..w },
            ActionView::IsFile(candidate(w.includes, dir, imps[i], c)),
        )
    }
}

/// How a file is shown: its path inside the workspace root, else in full.
pub open spec fn shown(path: Seq<char>, root: Seq<char>) -> Seq<char> {
    match path_strip_prefix(path, root) {
        Some(p) => p,
        None => path,
    }
}

/// The group of a file's enums: a `// Source:` line, then the enums.
pub open spec fn group(path: Seq<char>, root: Seq<char>, enums: Seq<char>) -> Seq<char> {
    "// Source: "@ + shown(path, root) + "\n"@ + enums
}

/// After reading `src` at `canon`: a group when it declares enums, then its
/// imports.
pub open spec fn after_read(w: WalkView, canon: Seq<char>, src: Seq<char>) -> NextView {
    let enums = all_named_blocks(src, "enum"@);
    let groups = if enums.len() > 0 {
        w.groups.push(group(canon, w.root, enums))
    } else {
        w.groups
    };
    let dir = match path_parent(canon) {
        Some(d) => d,
        None => w.fallback,
    };
    let ls = lines(src);
    resolve_from(WalkView { groups, ..w }, dir, imports(ls, ls.len() as int), 0, 0)
}

/// One step of the walk. An event that does not answer the action asked
/// ends the walk with what was collected.
pub open spec fn walk_next(w: WalkView, e: EventView) -> NextView {
    match w.stage {
        StageView::Rooting => match e {
            EventView::Canonical(c) => {
                let root = match c {
                    Some(x) => x,
                    None => w.root,
                };
                advance(WalkView { root, ..w })
            },
            _ => NextView::Finish(collected(w)),
        },
        StageView::Canonicalizing(p) => match e {
            EventView::Canonical(c) => {
                let canon = match c {
                    Some(x) => x,
                    None => p,
                };
                if seen(w.visited, canon) {
                    advance(w)
                } else {
                    NextView::Continue(
                        WalkView {
                            visited: w.visited.push(canon),
                            stage: StageView::Reading(canon),
                            ..w
                        },
                        ActionView::Read(canon),
                    )
                }
            },
            _ => NextView::Finish(collected(w)),
        },
        StageView::Reading(canon) => match e {
            EventView::Text(t) => match t {
                Some(src) => after_read(w, canon, src),
                None => advance(w),
            },
            _ => NextView::Finish(collected(w)),
        },
        StageView::Resolving(dir, imps, i, c) => match e {
            EventView::Found(b) => if b && 0 <= i < imps.len() && 0 <= c <= w.includes.len() {
                resolve_from(
                    WalkView { queue: w.queue.push(candidate(w.includes, dir, imps[i], c)), ..w },
                    dir,
                    imps,
                    i + 1,
                    0,
                )
            } else {
                resolve_from(w, dir, imps, i, c + 1)
            },
            _ => NextView::Finish(collected(w)),
        },
    }
}

/// The text of a file can go through the enum extraction: its brace
/// counter stays within `i32`.
pub open spec fn event_fits(w: WalkView, e: EventView) -> bool {
    match w.stage {
        StageView::Reading(_) => match e {
            EventView::Text(Some(src)) => named_blocks_fit(src, "enum"@),
            _ => true,
        },
        _ => true,
    }
}

/// The walk as it starts: the workspace root to canonicalize first, then
/// the current file.
pub open spec fn walk_start(includes: Seq<Seq<char>>, current_file: Seq<char>, root: Seq<char>) -> NextView {
    NextView::Continue(
        WalkView {
            includes,
            fallback: fallback_root(current_file),
            root,
            queue: seq![current_file],
            visited: seq![],
            groups: seq![],
            stage: StageView::Rooting,
        },
        ActionView::Canonicalize(root),
    )
}

fn collect(groups: &Vec<String>) -> (r: String)
    ensures
        r@ == join(groups.deep_view(), "\n\n"@),
{
    let mut parts: Vec<Vec<char>> = Vec::new();
    let mut i: usize = 0;
    while i < groups.len()
        invariant
            i <= groups@.len(),
            parts@.len() == i,
            forall|j: int| 0 <= j < i ==> #[trigger] parts@[j]@ == groups@[j]@,
        decreases groups@.len() - i,
    {
        parts.push(chars_of(groups[i].as_str()));
        i = i + 1;
    }
    let sep = chars_of("\n\n");
    let r = join_with(&parts, &sep);
    assert(Seq::new(parts@.len(), |j: int| parts@[j]@) =~= groups.deep_view());
    string_from(&r)
}

fn advance_walk(w: EnumWalk) -> (r: WalkNext)
    ensures
        r@ == advance(w@),
{
    let mut w = w;
    if w.queue.len() == 0 {
        return WalkNext::Finish(collect(&w.groups));
    }
    let ghost q = w.queue.deep_view();
    let p = w.queue.remove(0);
    assert(w.queue.deep_view() =~= q.drop_first());
    let action = WalkAction::Canonicalize(p.clone());
    w.stage = WalkStage::Canonicalizing(p);
    WalkNext::Continue(w, action)
}

fn candidate_path(includes: &Vec<String>, dir: &String, import: &String, c: usize) -> (r: String)
    requires
        c <= includes@.len(),
    ensures
        r@ == candidate(includes.deep_view(), dir@, import@, c as int),
{
    if c == 0 {
        join_path(dir.as_str(), import.as_str())
    } else {
        assert(includes.deep_view()[c - 1] == includes@[c - 1]@);
        join_path(includes[c - 1].as_str(), import.as_str())
    }
}

fn resolve_walk(w: EnumWalk, dir: String, imports: Vec<String>, i: usize, c: usize) -> (r: WalkNext)
    ensures
        r@ == resolve_from(w@, dir@, imports.deep_view(), i as int, c as int),
    decreases imports@.len() - i, w.include_paths@.len() + 1 - c,
{
    let mut w = w;
    if i >= imports.len() {
        return advance_walk(w);
    }
    if c > w.include_paths.len() {
        if i + 1 >= imports.len() {
            proof {
                assert(resolve_from(w@, dir@, imports.deep_view(), i + 1, 0) == advance(w@));
            }
            return advance_walk(w);
        }
        return resolve_walk(w, dir, imports, i + 1, 0);
    }
    let cand = candidate_path(&w.include_paths, &dir, &imports[i], c);
    assert(imports.deep_view()[i as int] == imports@[i as int]@);
    w.stage = WalkStage::Resolving { dir, imports, import: i, candidate: c };
    WalkNext::Continue(w, WalkAction::IsFile(cand))
}

/// The walk as it starts: it first asks for the canonical workspace root.
pub fn enum_walk_start(include_paths: Vec<String>, current_file: &str, workspace_root: String) -> (r:
    WalkNext)
    ensures
        r@ == walk_start(include_paths.deep_view(), current_file@, workspace_root@),
{
    let mut queue: Vec<String> = Vec::new();
    queue.push(current_file.to_owned());
    let visited: Vec<String> = Vec::new();
    let groups: Vec<String> = Vec::new();
    let action = WalkAction::Canonicalize(workspace_root.clone());
    let w = EnumWalk {
        include_paths,
        fallback_root: fallback_of(current_file),
        workspace_root,
        queue,
        visited,
        groups,
        stage: WalkStage::Rooting,
    };
    assert(w@.queue =~= seq![current_file@]);
    assert(w@.visited =~= seq![]);
    assert(w@.groups =~= seq![]);
    WalkNext::Continue(w, action)
}

fn seen_in(visited: &Vec<String>, p: &String) -> (r: bool)
    ensures
        r == seen(visited.deep_view(), p@),
{
    let ghost vs = visited.deep_view();
    let pc = chars_of(p.as_str());
    let mut i: usize = 0;
    while i < visited.len()
        invariant
            i <= visited@.len(),
            vs == visited.deep_view(),
            pc@ == p@,
            forall|j: int| 0 <= j < i ==> !path_eq(#[trigger] vs[j], p@),
        decreases visited@.len() - i,
    {
        assert(vs[i as int] == visited@[i as int]@);
        if paths_equal(&chars_of(visited[i].as_str()), &pc) {
            return true;
        }
        i = i + 1;
    }
    false
}

fn group_text(canon: &String, root: &String, enums: &String) -> (r: String)
    ensures
        r@ == group(canon@, root@, enums@),
{
    let shown = match strip_prefix_of(canon.as_str(), root.as_str()) {
        Some(p) => p,
        None => canon.clone(),
    };
    let mut r = "// Source: ".to_owned();
    r.append(shown.as_str());
    r.append("\n");
    r.append(enums.as_str());
    r
}

/// One step of the walk: the answer to the last action gives the next
/// action, or the enum source once every reachable file was visited.
pub fn enum_walk_step(walk: EnumWalk, event: WalkEvent) -> (r: WalkNext)
    requires
        event_fits(walk@, event@),
    ensures
        r@ == walk_next(walk@, event@),
{
    let ghost w0 = walk@;
    let EnumWalk { include_paths, fallback_root, workspace_root, queue, mut visited, mut groups, stage } =
        walk;
    match stage {
        WalkStage::Rooting => match event {
            WalkEvent::Canonical(c) => {
                let root = match c {
                    Some(x) => x,
                    None => workspace_root,
                };
                let w = EnumWalk {
                    include_paths,
                    fallback_root,
                    workspace_root: root,
                    queue,
                    visited,
                    groups,
                    stage: WalkStage::Rooting,
                };
                advance_walk(w)
            },
            _ => WalkNext::Finish(collect(&groups)),
        },
        WalkStage::Canonicalizing(p) => match event {
            WalkEvent::Canonical(c) => {
                let canon = match c {
                    Some(x) => x,
                    None => p,
                };
                if seen_in(&visited, &canon) {
                    let w = EnumWalk {
                        include_paths,
                        fallback_root,
                        workspace_root,
                        queue,
                        visited,
                        groups,
                        stage: WalkStage::Reading(canon),
                    };
                    advance_walk(w)
                } else {
                    let ghost before = visited.deep_view();
                    visited.push(canon.clone());
                    assert(visited.deep_view() =~= before.push(canon@));
                    let action = WalkAction::Read(canon.clone());
                    let w = EnumWalk {
                        include_paths,
                        fallback_root,
                        workspace_root,
                        queue,
                        visited,
                        groups,
                        stage: WalkStage::Reading(canon),
                    };
                    WalkNext::Continue(w, action)
                }
            },
            _ => WalkNext::Finish(collect(&groups)),
        },
        WalkStage::Reading(canon) => match event {
            WalkEvent::Text(t) => match t {
                Some(src) => {
                    let enums = extract_named_blocks(src.as_str(), "enum");
                    if chars_of(enums.as_str()).len() > 0 {
                        let ghost before = groups.deep_view();
                        let g = group_text(&canon, &workspace_root, &enums);
                        groups.push(g);
                        assert(groups.deep_view() =~= before.push(
                            group(canon@, workspace_root@, enums@),
                        ));
                    }
                    let dir = match parent_of(canon.as_str()) {
                        Some(d) => d,
                        None => fallback_root.clone(),
                    };
                    let found = parse_proto_imports(src.as_str());
                    let w = EnumWalk {
                        include_paths,
                        fallback_root,
                        workspace_root,
                        queue,
                        visited,
                        groups,
                        stage: WalkStage::Reading(canon),
                    };
                    resolve_walk(w, dir, found, 0, 0)
                },
                None => {
                    let w = EnumWalk {
                        include_paths,
                        fallback_root,
                        workspace_root,
                        queue,
                        visited,
                        groups,
                        stage: WalkStage::Reading(canon),
                    };
                    advance_walk(w)
                },
            },
            _ => WalkNext::Finish(collect(&groups)),
        },
        WalkStage::Resolving { dir, imports, import, candidate } => match event {
            WalkEvent::Found(b) => {
                let mut queue = queue;
                if b && import < imports.len() && candidate <= include_paths.len() {
                    let ghost before = queue.deep_view();
                    let cand = candidate_path(&include_paths, &dir, &imports[import], candidate);
                    assert(imports.deep_view()[import as int] == imports@[import as int]@);
                    queue.push(cand);
                    assert(queue.deep_view() =~= before.push(cand@));
                    let w = EnumWalk {
                        include_paths,
                        fallback_root,
                        workspace_root,
                        queue,
                        visited,
                        groups,
                        stage: WalkStage::Rooting,
                    };
                    resolve_walk(w, dir, imports, import + 1, 0)
                } else {
                    let w = EnumWalk {
                        include_paths,
                        fallback_root,
                        workspace_root,
                        queue,
                        visited,
                        groups,
                        stage: WalkStage::Rooting,
                    };
                    if import >= imports.len() {
                        advance_walk(w)
                    } else if candidate >= w.include_paths.len() {
                        proof {
                            let iv = imports.deep_view();
                            assert(resolve_from(w0, dir@, iv, import as int, candidate + 1)
                                == resolve_from(w0, dir@, iv, import + 1, 0));
                            assert(resolve_from(w0, dir@, iv, import + 1, 0) == resolve_from(
                                w@,
                                dir@,
                                iv,
                                import + 1,
                                0,
                            ));
                        }
                        resolve_walk(w, dir, imports, import + 1, 0)
                    } else {
                        resolve_walk(w, dir, imports, import, candidate + 1)
                    }
                }
            },
            _ => WalkNext::Finish(collect(&groups)),
        },
    }
}

// ---------------------------------------------------------------------------
// Laws
// ---------------------------------------------------------------------------
/// `a` begins `b`.
pub open spec fn begins(a: Seq<Seq<char>>, b: Seq<Seq<char>>) -> bool {
    a.len() <= b.len() && b.take(a.len() as int) == a
}

proof fn lemma_advance(w: WalkView)
    ensures
        match advance(w) {
            NextView::Continue(w2, a) => w2.visited == w.visited && w2.groups == w.groups
                && a is Canonicalize,
            NextView::Finish(s) => s == collected(w),
        },
{
}

proof fn lemma_resolve_from(w: WalkView, dir: Seq<char>, imps: Seq<Seq<char>>, i: int, c: int)
    ensures
        match resolve_from(w, dir, imps, i, c) {
            NextView::Continue(w2, a) => w2.visited == w.visited && w2.groups == w.groups
                && !(a is Read),
            NextView::Finish(s) => s == collected(w),
        },
    decreases imps.len() - i, w.includes.len() + 1 - c,
{
    if i < 0 || i >= imps.len() {
        lemma_advance(w);
    } else if c < 0 || c > w.includes.len() {
        lemma_resolve_from(w, dir, imps, i + 1, 0);
    }
}

/// Each step of the walk keeps it visiting every file once, and only adds
/// to the enums collected: a file is read only when no equal path was
/// visited before, and is then marked visited; the visited paths stay
/// pairwise different; the groups found so far stay, in order, at the start
/// of the groups; and when the walk ends, its result is the groups so far,
/// or those and one more, joined.
pub proof fn law_walk_step(w: WalkView, e: EventView)
    requires
        distinct_paths(w.visited),
    ensures
        match walk_next(w, e) {
            NextView::Continue(w2, a) => {
                &&& distinct_paths(w2.visited)
                &&& begins(w.groups, w2.groups)
                &&& (a is Read ==> !seen(w.visited, a->Read_0) && w2.visited == w.visited.push(
                    a->Read_0,
                ))
                &&& (!(a is Read) ==> w2.visited == w.visited)
            },
            NextView::Finish(s) => exists|g: Seq<Seq<char>>|
                begins(w.groups, g) && g.len() <= w.groups.len() + 1 && s == join(g, "\n\n"@),
        },
{
    assert(w.groups.take(w.groups.len() as int) =~= w.groups);
    match w.stage {
        StageView::Rooting => {
            match e {
                EventView::Canonical(c) => {
                    let root = match c {
                        Some(x) => x,
                        None => w.root,
                    };
                    lemma_advance(WalkView { root, ..w });
                },
                _ => {},
            }
        },
        StageView::Canonicalizing(p) => {
            match e {
                EventView::Canonical(c) => {
                    let canon = match c {
                        Some(x) => x,
                        None => p,
                    };
                    if seen(w.visited, canon) {
                        lemma_advance(w);
                    } else {
                        let v2 = w.visited.push(canon);
                        assert forall|i: int, j: int| 0 <= i < j < v2.len() implies !path_eq(
                            #[trigger] v2[i],
                            #[trigger] v2[j],
                        ) by {
                            if j < w.visited.len() {
                                assert(v2[i] == w.visited[i] && v2[j] == w.visited[j]);
                            } else {
                                assert(v2[i] == w.visited[i]);
                                assert(!path_eq(w.visited[i], canon));
                            }
                        }
                    }
                },
                _ => {},
            }
        },
        StageView::Reading(canon) => {
            match e {
                EventView::Text(t) => match t {
                    Some(src) => {
                        let enums = all_named_blocks(src, "enum"@);
                        let groups = if enums.len() > 0 {
                            w.groups.push(group(canon, w.root, enums))
                        } else {
                            w.groups
                        };
                        let dir = match path_parent(canon) {
                            Some(d) => d,
                            None => w.fallback,
                        };
                        let ls = lines(src);
                        let w1 = WalkView { groups, ..w };
                        lemma_resolve_from(w1, dir, imports(ls, ls.len() as int), 0, 0);
                        assert(groups.take(w.groups.len() as int) =~= w.groups);
                    },
                    None => {
                        lemma_advance(w);
                    },
                },
                _ => {},
            }
        },
        StageView::Resolving(dir, imps, i, c) => {
            match e {
                EventView::Found(b) => {
                    if b && 0 <= i < imps.len() && 0 <= c <= w.includes.len() {
                        let w1 = WalkView {
                            queue: w.queue.push(candidate(w.includes, dir, imps[i], c)),
                            ..w
                        };
                        lemma_resolve_from(w1, dir, imps, i + 1, 0);
                    } else {
                        lemma_resolve_from(w, dir, imps, i, c + 1);
                    }
                },
                _ => {},
            }
        },
    }
}

} // verus!
