use protohub::tree::{tree_children, tree_node_name, TreeEntry};

fn entry(name: &str, is_dir: bool) -> TreeEntry {
    TreeEntry { name: name.to_string(), is_dir }
}

#[test]
fn directories_first_then_proto_files_by_name() {
    let listed = tree_children(vec![
        entry("b.proto", false),
        entry("zeta", true),
        entry(".git", true),
        entry("README.md", false),
        entry("a.proto", false),
        entry("Alpha", true),
        entry(".hidden.proto", false),
        entry(".proto", false),
        entry("x.proto.bak", false),
        entry("Z.proto", false),
    ]);
    let names: Vec<(&str, bool)> = listed.iter().map(|e| (e.name.as_str(), e.is_dir)).collect();
    assert_eq!(
        names,
        vec![("Alpha", true), ("zeta", true), ("Z.proto", false), ("a.proto", false), ("b.proto", false)]
    );
}

#[test]
fn empty_directory_lists_nothing() {
    assert!(tree_children(vec![]).is_empty());
    assert!(tree_children(vec![entry("notes.txt", false)]).is_empty());
}

#[test]
fn node_names_come_from_the_path() {
    assert_eq!(tree_node_name("/home/me/protos"), "protos");
    assert_eq!(tree_node_name("/home/me/protos/"), "protos");
    assert_eq!(tree_node_name("/"), "workspace");
    assert_eq!(tree_node_name(".."), "workspace");
}
