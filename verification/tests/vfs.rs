use shinnku::file_meta::FileMeta;
use shinnku::vfs::{AccessRequest, FsEntry, FsNode, FsTree, JsonFsNode};
use std::time::SystemTime;

fn meta(name: &str, path: &str) -> FileMeta {
    FileMeta {
        categories: Vec::new(),
        file_name: name.to_string(),
        file_size: 100,
        upload_timestamp: 7,
        path: path.to_string(),
    }
}

fn dir(name: &str) -> FsNode {
    FsNode::Directory { name: name.to_string(), children: Vec::new() }
}

fn keys(path: &[&str]) -> Vec<String> {
    path.iter().map(|s| s.to_string()).collect()
}

#[test]
fn test_fs_tree_dir() {
    let root = FsNode::Directory {
        name: "root".to_string(),
        children: Vec::new(),
    };
    let mut tree = FsTree::new(root);
    tree.insert_node(
        &["dir1".to_string(), "dir2".to_string(), "file1".to_string()],
        FsNode::File(FileMeta {
            categories: Vec::new(),
            file_name: "file1".to_string(),
            file_size: 100,
            upload_timestamp: SystemTime::now()
                .duration_since(SystemTime::UNIX_EPOCH)
                .unwrap()
                .as_secs(),
            path: "dir1/dir2/file1".to_string(),
        }),
    );

    let node = tree
        .get_node(&["dir1".to_string(), "dir2".to_string(), "file1".to_string()])
        .unwrap();
    assert_eq!(node.name(), "file1");
}

#[test]
fn empty_path_finds_the_root() {
    let tree = FsTree::new(dir("root"));
    assert_eq!(tree.get_node(&[]).unwrap().name(), "root");
}

#[test]
fn insert_creates_directories_named_by_their_keys() {
    let mut tree = FsTree::new(dir("root"));
    tree.insert_node(&keys(&["a", "b", "c"]), FsNode::File(meta("c.bin", "a/b/c")));
    assert_eq!(tree.get_node(&keys(&["a"])).unwrap().name(), "a");
    assert_eq!(tree.get_node(&keys(&["a", "b"])).unwrap().name(), "b");
    assert_eq!(tree.get_node(&keys(&["a", "b", "c"])).unwrap().name(), "c.bin");
    assert!(tree.get_node(&keys(&["a", "x"])).is_none());
    assert!(tree.get_node(&keys(&["a", "b", "c", "d"])).is_none());
}

#[test]
fn insert_keeps_other_paths() {
    let mut tree = FsTree::new(dir("root"));
    tree.insert_node(&keys(&["a", "one"]), FsNode::File(meta("one", "a/one")));
    tree.insert_node(&keys(&["a", "two"]), FsNode::File(meta("two", "a/two")));
    tree.insert_node(&keys(&["b"]), FsNode::File(meta("b", "b")));
    assert_eq!(tree.get_node(&keys(&["a", "one"])).unwrap().name(), "one");
    assert_eq!(tree.get_node(&keys(&["a", "two"])).unwrap().name(), "two");
    assert_eq!(tree.get_node(&keys(&["b"])).unwrap().name(), "b");
}

#[test]
fn insert_overwrites_same_key() {
    let mut tree = FsTree::new(dir("root"));
    tree.insert_node(&keys(&["a"]), FsNode::File(meta("first", "a")));
    tree.insert_node(&keys(&["a"]), FsNode::File(meta("second", "a")));
    assert_eq!(tree.get_node(&keys(&["a"])).unwrap().name(), "second");
    match tree.get_node(&[]).unwrap() {
        FsNode::Directory { children, .. } => assert_eq!(children.len(), 1),
        FsNode::File(_) => panic!("root is a directory"),
    }
}

#[test]
fn insert_through_a_file_turns_it_into_a_directory() {
    let mut tree = FsTree::new(dir("root"));
    tree.insert_node(&keys(&["a"]), FsNode::File(meta("a.bin", "a")));
    tree.insert_node(&keys(&["a", "b", "c"]), FsNode::File(meta("c.bin", "a/b/c")));
    let a = tree.get_node(&keys(&["a"])).unwrap();
    assert_eq!(a.name(), "b");
    assert_eq!(tree.get_node(&keys(&["a", "c"])).unwrap().name(), "c.bin");
    assert!(tree.get_node(&keys(&["a", "b"])).is_none());
}

#[test]
fn insert_below_a_file_replaces_it_with_a_directory_first() {
    let mut tree = FsTree::new(FsNode::File(meta("root.bin", "")));
    tree.insert_node(&keys(&["x"]), FsNode::File(meta("x", "x")));
    let root = tree.get_node(&[]).unwrap();
    assert_eq!(root.name(), "x");
    assert_eq!(tree.get_node(&keys(&["x"])).unwrap().name(), "x");
}

#[test]
fn insert_below_a_stored_file() {
    let mut tree = FsTree::new(dir("root"));
    tree.insert_node(&keys(&["f"]), FsNode::File(meta("f", "f")));
    tree.insert_node(&keys(&["f", "c"]), FsNode::File(meta("c", "f/c")));
    let f = tree.get_node(&keys(&["f"])).unwrap();
    assert!(matches!(f, FsNode::Directory { .. }));
    assert_eq!(f.name(), "c");
    match tree.get_node(&keys(&["f", "c"])).unwrap() {
        FsNode::File(m) => {
            assert_eq!(m.file_name, "c");
            assert_eq!(m.path, "f/c");
        }
        FsNode::Directory { .. } => panic!("f/c is a file"),
    }
}

#[test]
fn existing_directory_keeps_its_name_and_children() {
    let mut tree = FsTree::new(dir("root"));
    tree.insert_node(&keys(&["d"]), dir("named-d"));
    tree.insert_node(&keys(&["d", "old"]), FsNode::File(meta("old", "d/old")));
    tree.insert_node(&keys(&["d", "new", "leaf"]), FsNode::File(meta("leaf", "d/new/leaf")));
    assert_eq!(tree.get_node(&keys(&["d"])).unwrap().name(), "named-d");
    assert_eq!(tree.get_node(&keys(&["d", "old"])).unwrap().name(), "old");
    match tree.get_node(&keys(&["d", "new"])).unwrap() {
        FsNode::Directory { name, children } => {
            assert_eq!(name, "new");
            assert_eq!(children.len(), 1);
            assert_eq!(children[0].key, "leaf");
        }
        FsNode::File(_) => panic!("d/new is a directory"),
    }
}

#[test]
fn insert_with_empty_path_changes_nothing() {
    let mut tree = FsTree::new(dir("root"));
    tree.insert_node(&[], FsNode::File(meta("x", "x")));
    assert_eq!(tree.get_node(&[]).unwrap().name(), "root");
    assert!(tree.get_node(&keys(&["x"])).is_none());
}

#[test]
fn node_child_lookup() {
    let node = FsNode::Directory {
        name: "d".to_string(),
        children: vec![FsEntry { key: "k".to_string(), node: FsNode::File(meta("f", "d/k")) }],
    };
    assert_eq!(node.get_node("k").unwrap().name(), "f");
    assert!(node.get_node("z").is_none());
    assert!(FsNode::File(meta("f", "f")).get_node("k").is_none());
}

#[test]
fn to_json_lists_children() {
    let mut tree = FsTree::new(dir("root"));
    tree.insert_node(&keys(&["a", "f1"]), FsNode::File(meta("f1", "a/f1")));
    tree.insert_node(&keys(&["a", "f2"]), FsNode::File(meta("f2", "a/f2")));
    let json = tree.get_node(&keys(&["a"])).unwrap().to_json();
    match json {
        JsonFsNode::Directory { name, children } => {
            assert_eq!(name, "a");
            let names: Vec<String> = children
                .iter()
                .map(|c| match c {
                    JsonFsNode::File(m) => m.file_name.clone(),
                    JsonFsNode::Directory { name, .. } => name.clone(),
                })
                .collect();
            assert_eq!(names, vec!["f1".to_string(), "f2".to_string()]);
        }
        JsonFsNode::File(_) => panic!("a is a directory"),
    }
}

#[test]
fn process_answers_with_the_node_at_the_path() {
    let mut tree = FsTree::new(dir("root"));
    tree.insert_node(&keys(&["a", "b"]), FsNode::File(meta("b.bin", "a/b")));
    let response = tree.process(AccessRequest { path: "a/b".to_string() });
    match response.node {
        JsonFsNode::File(m) => {
            assert_eq!(m.file_name, "b.bin");
            assert_eq!(m.file_size, 100);
        }
        JsonFsNode::Directory { .. } => panic!("a/b is a file"),
    }
}
