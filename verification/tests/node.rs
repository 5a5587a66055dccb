use dir_index::text::join_path;
use dir_index::{FailureKind, FileNode, IoFailure, NodeType};

#[test]
fn a_new_node_has_no_children() {
    let node = FileNode::new("a.txt".to_string(), 5, NodeType::File);
    assert_eq!(node.name, "a.txt");
    assert_eq!(node.size, 5);
    assert_eq!(node.node_type, NodeType::File);
    assert!(node.children.is_empty());
}

#[test]
fn a_new_directory_is_empty_and_weighs_nothing() {
    let node = FileNode::new("root".to_string(), 0, NodeType::Directory);
    assert_eq!(node, FileNode { name: "root".to_string(), size: 0, node_type: NodeType::Directory, children: vec![] });
}

#[test]
fn add_child_appends_and_accumulates() {
    let mut root = FileNode::new("root".to_string(), 0, NodeType::Directory);
    root.add_child(FileNode::new("a.txt".to_string(), 5, NodeType::File));
    assert_eq!(root.size, 5);
    root.add_child(FileNode::new("build".to_string(), 100, NodeType::IgnoredDirectory));
    assert_eq!(root.size, 105);
    let mut sub = FileNode::new("sub".to_string(), 0, NodeType::Directory);
    sub.add_child(FileNode::new("c.txt".to_string(), 10, NodeType::File));
    root.add_child(sub);
    assert_eq!(root.size, 115);
    let names: Vec<&str> = root.children.iter().map(|child| child.name.as_str()).collect();
    assert_eq!(names, vec!["a.txt", "build", "sub"]);
    assert_eq!(root.children[2].children[0].size, 10);
}

#[test]
fn add_child_reaches_the_largest_size() {
    let mut root = FileNode::new("root".to_string(), 0, NodeType::Directory);
    root.add_child(FileNode::new("big".to_string(), u64::MAX - 1, NodeType::File));
    root.add_child(FileNode::new("one".to_string(), 1, NodeType::File));
    assert_eq!(root.size, u64::MAX);
}

#[test]
fn a_duplicate_failure_equals_its_source() {
    let failure = IoFailure { kind: FailureKind::PermissionDenied, message: "denied".to_string() };
    assert_eq!(failure.duplicate(), failure);
    let other = IoFailure { kind: FailureKind::Other, message: String::new() };
    assert_eq!(other.duplicate(), other);
}

#[test]
fn join_path_puts_a_slash_between_parts() {
    assert_eq!(join_path(&vec![]), "");
    assert_eq!(join_path(&vec!["root".to_string()]), "root");
    assert_eq!(join_path(&vec!["root".to_string(), "sub".to_string(), "deep".to_string()]), "root/sub/deep");
    assert_eq!(join_path(&vec!["".to_string(), "x".to_string()]), "/x");
}
