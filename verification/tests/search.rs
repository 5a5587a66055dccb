use dir_index::{fuzzy_search, keep_match, walk, FileNode, Located, NodeType};

fn leaf(name: &str, size: u64) -> FileNode {
    FileNode::new(name.to_string(), size, NodeType::File)
}

fn branch(name: &str, children: Vec<FileNode>) -> FileNode {
    let mut node = FileNode::new(name.to_string(), 0, NodeType::Directory);
    for child in children {
        node.add_child(child);
    }
    node
}

fn at(name: &str, location: &str) -> Located {
    Located { name: name.to_string(), location: location.to_string() }
}

fn sample() -> FileNode {
    branch(
        "examples",
        vec![
            leaf("an_example.txt", 3),
            leaf("other.txt", 3),
            branch("sub", vec![leaf("Example.rs", 1), branch("deep", vec![leaf("x", 1)])]),
            leaf("last", 2),
        ],
    )
}

#[test]
fn walk_lists_parents_before_children() {
    assert_eq!(
        walk(&sample()),
        vec![
            at("examples", ""),
            at("an_example.txt", "examples"),
            at("other.txt", "examples"),
            at("sub", "examples"),
            at("Example.rs", "examples/sub"),
            at("deep", "examples/sub"),
            at("x", "examples/sub/deep"),
            at("last", "examples"),
        ]
    );
}

#[test]
fn walk_of_a_leaf_is_the_leaf() {
    assert_eq!(walk(&leaf("a.txt", 5)), vec![at("a.txt", "")]);
}

#[test]
fn search_reports_the_location_of_each_match() {
    assert_eq!(fuzzy_search(&sample(), "example"), vec!["", "examples", "examples/sub"]);
}

#[test]
fn search_matches_letters_in_order_with_gaps() {
    assert_eq!(fuzzy_search(&sample(), "otxt"), vec!["examples"]);
    assert_eq!(fuzzy_search(&sample(), "txto"), Vec::<String>::new());
}

#[test]
fn a_capital_in_the_query_makes_the_search_case_sensitive() {
    assert_eq!(fuzzy_search(&sample(), "Example"), vec!["examples/sub"]);
}

#[test]
fn search_without_a_match_is_empty() {
    assert_eq!(fuzzy_search(&sample(), "zzz"), Vec::<String>::new());
}

#[test]
fn the_empty_query_matches_every_node() {
    let locations: Vec<String> = walk(&sample()).into_iter().map(|found| found.location).collect();
    assert_eq!(fuzzy_search(&sample(), ""), locations);
}

#[test]
fn keep_match_records_a_scored_node() {
    let mut results = vec!["first".to_string()];
    keep_match(&mut results, &at("a.txt", "root/sub"), Some(17));
    assert_eq!(results, vec!["first", "root/sub"]);
}

#[test]
fn keep_match_skips_an_unscored_node() {
    let mut results = vec!["first".to_string()];
    keep_match(&mut results, &at("a.txt", "root/sub"), None);
    assert_eq!(results, vec!["first"]);
}
