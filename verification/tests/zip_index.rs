use iotactl::zip_index::{FileEntry, Index, Node};

fn file(archive_index: usize, size: u64) -> FileEntry {
    FileEntry { archive_index, size, modified: Some(7), is_symlink: false, symlink_target: None }
}

fn dir_children(idx: &Index, key: &str) -> Option<(Vec<String>, Option<i64>)> {
    match idx.get(key) {
        Some(Node::Dir { children, modified }) => {
            Some((children.iter().map(|c| c.iter().collect::<String>()).collect(), *modified))
        }
        _ => None,
    }
}

#[test]
fn inserting_a_deep_file_creates_linked_parent_directories() {
    let mut idx = Index::new();
    idx.insert_file("a/b/c", file(0, 3));
    assert_eq!(dir_children(&idx, ""), Some((vec!["a".to_string()], None)));
    assert_eq!(dir_children(&idx, "a"), Some((vec!["b".to_string()], None)));
    assert_eq!(dir_children(&idx, "a/b"), Some((vec!["c".to_string()], None)));
    match idx.get("a/b/c") {
        Some(Node::File(f)) => assert_eq!((f.archive_index, f.size), (0, 3)),
        _ => panic!("a/b/c is not a file"),
    }
}

#[test]
fn explicit_directory_keeps_children_and_takes_its_time() {
    let mut idx = Index::new();
    idx.insert_file("d/x", file(0, 1));
    idx.insert_file("d/a", file(1, 2));
    idx.insert_dir("d", Some(42));
    assert_eq!(dir_children(&idx, "d"), Some((vec!["a".to_string(), "x".to_string()], Some(42))));
    assert_eq!(dir_children(&idx, ""), Some((vec!["d".to_string()], None)));
}

#[test]
fn leading_slashes_are_dropped_from_keys() {
    let mut idx = Index::new();
    idx.insert_file("//top/f", file(2, 5));
    idx.insert_dir("/top", None);
    assert!(idx.get("top/f").is_some());
    assert!(idx.get("/top/f").is_none());
    assert_eq!(dir_children(&idx, ""), Some((vec!["top".to_string()], None)));
    assert_eq!(dir_children(&idx, "top"), Some((vec!["f".to_string()], None)));
}
