use std::collections::HashMap;

use protohub::enums::{choose_workspace_root, enum_walk_start, enum_walk_step, WalkAction, WalkEvent, WalkNext};
use protohub::source::named_blocks_fit_check;

/// Runs the walk over files held in memory; every path is its own
/// canonical form, and only the files given exist.
fn walk(files: &HashMap<String, String>, include_paths: Vec<String>, dirs: Vec<bool>, current: &str) -> String {
    let root = choose_workspace_root(&include_paths, &dirs, current);
    let mut next = enum_walk_start(include_paths, current, root);
    loop {
        match next {
            WalkNext::Finish(text) => return text,
            WalkNext::Continue(state, action) => {
                let event = match action {
                    WalkAction::Canonicalize(path) => WalkEvent::Canonical(Some(path)),
                    WalkAction::Read(path) => {
                        let text = files.get(&path).cloned();
                        if let Some(t) = &text {
                            assert!(named_blocks_fit_check(t, "enum"));
                        }
                        WalkEvent::Text(text)
                    }
                    WalkAction::IsFile(path) => WalkEvent::Found(files.contains_key(&path)),
                };
                next = enum_walk_step(state, event);
            }
        }
    }
}

#[test]
fn imported_enum_collection_follows_only_dependency_graph() {
    let mut files = HashMap::new();
    files.insert(
        "/ws/root.proto".to_string(),
        "import \"common/shared.proto\";\nenum RootState { ROOT = 0; }".to_string(),
    );
    files.insert("/ws/common/shared.proto".to_string(), "enum SharedState { SHARED = 0; }".to_string());
    files.insert("/ws/unrelated.proto".to_string(), "enum UnrelatedState { UNRELATED = 0; }".to_string());

    let output = walk(&files, vec!["/ws".to_string()], vec![true], "/ws/root.proto");
    assert!(output.contains("// Source: root.proto"));
    assert!(output.contains("enum RootState"));
    assert!(output.contains("// Source: common/shared.proto"));
    assert!(output.contains("enum SharedState"));
    assert!(!output.contains("UnrelatedState"));
    assert_eq!(
        output,
        "// Source: root.proto\nenum RootState { ROOT = 0; }\n\n// Source: common/shared.proto\nenum SharedState { SHARED = 0; }"
    );
}

#[test]
fn cyclic_imports_visit_each_file_once() {
    let mut files = HashMap::new();
    files.insert("/p/a.proto".to_string(), "import \"b.proto\";\nenum A { X = 0; }".to_string());
    files.insert("/p/b.proto".to_string(), "import \"a.proto\";\nimport \"./a.proto\";\nenum B { Y = 0; }".to_string());
    let output = walk(&files, vec![], vec![], "/p/a.proto");
    assert_eq!(output, "// Source: a.proto\nenum A { X = 0; }\n\n// Source: b.proto\nenum B { Y = 0; }");
}

#[test]
fn imports_are_found_through_include_paths() {
    let mut files = HashMap::new();
    files.insert("/src/api/main.proto".to_string(), "import \"lib/kinds.proto\";\nmessage M {}".to_string());
    files.insert("/lib_root/lib/kinds.proto".to_string(), "enum Kind { K = 0; }".to_string());
    let output = walk(
        &files,
        vec!["/missing".to_string(), "/lib_root".to_string()],
        vec![false, true],
        "/src/api/main.proto",
    );
    // The root is the one include path that is a directory; the file found
    // under it is shown by its path inside that root.
    assert_eq!(output, "// Source: lib/kinds.proto\nenum Kind { K = 0; }");
}

#[test]
fn workspace_root_is_the_shortest_directory() {
    let paths = vec!["/a/b/c".to_string(), "/x/y".to_string(), "/z/w".to_string(), "/q".to_string()];
    assert_eq!(choose_workspace_root(&paths, &vec![true, true, true, false], "/f/g.proto"), "/x/y");
    assert_eq!(choose_workspace_root(&paths, &vec![false; 4], "/f/g.proto"), "/f");
    assert_eq!(choose_workspace_root(&vec![], &vec![], "g.proto"), "");
    assert_eq!(choose_workspace_root(&vec![], &vec![], "/"), ".");
}

#[test]
fn unreadable_files_give_nothing() {
    let files = HashMap::new();
    assert_eq!(walk(&files, vec![], vec![], "/none/x.proto"), "");
}
