use dir_index::{total_size, FailureKind, IoFailure, Observed};

fn file(name: &str, path: &str, len: u64) -> Observed {
    Observed::File { name: name.to_string(), path: path.to_string(), len }
}

fn dir(name: &str, path: &str, entries: Vec<Observed>) -> Observed {
    Observed::Directory { name: name.to_string(), path: path.to_string(), ignore_lines: None, entries }
}

fn gone(message: &str) -> Observed {
    Observed::Unreadable { failure: IoFailure { kind: FailureKind::NotFound, message: message.to_string() } }
}

fn denied(message: &str) -> Observed {
    Observed::Unreadable {
        failure: IoFailure { kind: FailureKind::PermissionDenied, message: message.to_string() },
    }
}

fn sample() -> Observed {
    dir(
        "root",
        "root",
        vec![
            file("a.txt", "root/a.txt", 5),
            file("b.txt", "root/b.txt", 3),
            dir("sub", "root/sub", vec![file("c.txt", "root/sub/c.txt", 10)]),
        ],
    )
}

#[test]
fn total_of_a_single_file_is_its_length() {
    assert_eq!(total_size(&file("a.txt", "root/a.txt", 5)), Ok(5));
}

#[test]
fn total_of_an_empty_directory_is_zero() {
    assert_eq!(total_size(&dir("root", "root", vec![])), Ok(0));
}

#[test]
fn total_counts_every_file_of_the_tree() {
    assert_eq!(total_size(&sample()), Ok(18));
}

#[test]
fn total_of_a_missing_path_is_not_found() {
    let failure = total_size(&gone("No such file or directory (os error 2)")).unwrap_err();
    assert_eq!(failure.kind, FailureKind::NotFound);
    assert_eq!(failure.message, "No such file or directory (os error 2)");
}

#[test]
fn total_fails_when_an_entry_vanished() {
    let tree = dir(
        "root",
        "root",
        vec![file("a.txt", "root/a.txt", 5), gone("root/b.txt vanished"), file("c.txt", "root/c.txt", 7)],
    );
    let failure = total_size(&tree).unwrap_err();
    assert_eq!(failure, IoFailure { kind: FailureKind::NotFound, message: "root/b.txt vanished".to_string() });
}

#[test]
fn total_fails_when_a_deep_entry_is_unreadable() {
    let tree = dir(
        "root",
        "root",
        vec![
            file("a.txt", "root/a.txt", 5),
            dir("sub", "root/sub", vec![file("c.txt", "root/sub/c.txt", 10), denied("root/sub/secret")]),
        ],
    );
    let failure = total_size(&tree).unwrap_err();
    assert_eq!(failure.kind, FailureKind::PermissionDenied);
}

#[test]
fn total_reports_the_first_failure_in_listing_order() {
    let tree = dir(
        "root",
        "root",
        vec![
            dir("sub", "root/sub", vec![denied("first")]),
            gone("second"),
        ],
    );
    assert_eq!(total_size(&tree).unwrap_err().message, "first");
}

#[test]
fn total_is_the_same_in_any_listing_order() {
    let shuffled = dir(
        "root",
        "root",
        vec![
            dir("sub", "root/sub", vec![file("c.txt", "root/sub/c.txt", 10)]),
            file("b.txt", "root/b.txt", 3),
            file("a.txt", "root/a.txt", 5),
        ],
    );
    assert_eq!(total_size(&shuffled), total_size(&sample()));
    assert_eq!(total_size(&shuffled), Ok(18));
}

#[test]
fn total_pays_no_attention_to_ignore_files() {
    let tree = Observed::Directory {
        name: "build".to_string(),
        path: "build".to_string(),
        ignore_lines: Some(vec!["*".to_string()]),
        entries: vec![file("out.bin", "build/out.bin", 100)],
    };
    assert_eq!(total_size(&tree), Ok(100));
}

#[test]
fn total_of_the_largest_volume_that_fits() {
    let tree = dir(
        "root",
        "root",
        vec![file("big", "root/big", u64::MAX - 1), file("one", "root/one", 1)],
    );
    assert_eq!(tree.checked_volume(), Some(u64::MAX));
    assert_eq!(total_size(&tree), Ok(u64::MAX));
}

#[test]
fn checked_volume_counts_every_file() {
    assert_eq!(sample().checked_volume(), Some(18));
}

#[test]
fn checked_volume_counts_files_beside_unreadable_entries() {
    let tree = dir("root", "root", vec![file("a.txt", "root/a.txt", 5), gone("vanished")]);
    assert_eq!(tree.checked_volume(), Some(5));
}

#[test]
fn checked_volume_is_none_beyond_64_bits() {
    let tree = dir(
        "root",
        "root",
        vec![file("big", "root/big", u64::MAX), dir("sub", "root/sub", vec![file("one", "root/sub/one", 1)])],
    );
    assert_eq!(tree.checked_volume(), None);
}
