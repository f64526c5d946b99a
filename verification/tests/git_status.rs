use protohub::git::parse_git_changes;

#[test]
fn git_status_parser_preserves_first_path_character() {
    let changes = parse_git_changes(
        " M vemus/asset/activity/voice_msg_service.proto\n?? new.proto",
        "/repo",
    );

    assert_eq!(changes.len(), 2);
    assert_eq!(changes[0].status, "M");
    assert_eq!(
        changes[0].relative_path,
        "vemus/asset/activity/voice_msg_service.proto"
    );
    assert_eq!(changes[1].status, "??");
    assert_eq!(changes[1].relative_path, "new.proto");
}

#[test]
fn git_status_parser_reads_renames_quotes_and_paths() {
    let changes = parse_git_changes(
        "R  old name.proto -> \"new name.proto\"\r\nM x\n A b.proto\n",
        "/repo/",
    );
    assert_eq!(changes.len(), 2);
    assert_eq!(changes[0].status, "R");
    assert_eq!(changes[0].relative_path, "new name.proto");
    assert_eq!(changes[0].original_relative_path, "old name.proto");
    assert_eq!(changes[0].path, "/repo/new name.proto");
    assert_eq!(changes[1].status, "A");
    assert_eq!(changes[1].path, "/repo/b.proto");
    assert_eq!(changes[1].original_relative_path, "b.proto");
}
