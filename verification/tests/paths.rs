use protohub::paths::{dedupe_paths, descriptor_file_matches, descriptor_includes, is_hidden, is_inside_repository, join_path};

fn strings(v: &[&str]) -> Vec<String> {
    v.iter().map(|s| s.to_string()).collect()
}

#[test]
fn dedupe_keeps_first_of_equal_paths() {
    let d = dedupe_paths(strings(&["/a/b", "/a//b/", "c", "./c", "/a/b/.", "c"]));
    assert_eq!(d, strings(&["/a/b", "c", "./c"]));
    assert_eq!(dedupe_paths(d.clone()), d);
}

#[test]
fn descriptor_names_match_paths() {
    assert!(descriptor_file_matches("demo/echo.proto", "/ws/demo/echo.proto"));
    assert!(descriptor_file_matches("demo\\echo.proto", "C:\\ws\\demo\\echo.proto"));
    assert!(descriptor_file_matches("other/echo.proto", "/ws/demo/echo.proto"));
    assert!(!descriptor_file_matches("demo/ping.proto", "/ws/demo/echo.proto"));
    assert!(descriptor_file_matches("x.proto", "x.proto"));
}

#[test]
fn hidden_and_repository_paths() {
    assert!(is_hidden("/ws/.git"));
    assert!(!is_hidden("/ws/a.proto"));
    assert!(is_inside_repository("a/b.proto"));
    assert!(!is_inside_repository("../b.proto"));
    assert!(!is_inside_repository("/etc/passwd"));
    assert_eq!(join_path("/repo", "a.proto"), "/repo/a.proto");
    assert_eq!(join_path("/repo/", "/abs"), "/abs");
}

#[test]
fn descriptor_includes_keep_existing_paths_and_the_file_directory() {
    let includes = descriptor_includes(
        &strings(&["/ws", "/missing", "/ws/"]),
        &vec![true, false, true],
        "/ws/api/echo.proto",
    );
    assert_eq!(includes, strings(&["/ws", "/ws/api"]));
    let local = descriptor_includes(&strings(&[]), &vec![], "echo.proto");
    assert_eq!(local, strings(&[""]));
}
