use roblox_studio_mcp::tree::{EntryProbe, FileTree, TreeBuilder, TreeStart};

fn found(path: &str, name: &str, is_file: bool) -> EntryProbe {
    EntryProbe::Found { path: path.to_string(), name: Some(name.to_string()), is_symlink: Some(false), is_file: Ok(is_file) }
}

fn start_dir(root: &str, max_depth: usize, limit: usize) -> TreeBuilder {
    match TreeBuilder::start(root, Some(root.rsplit('/').next().unwrap().to_string()), Ok(false), max_depth, limit).unwrap() {
        TreeStart::Directory(b) => b,
        TreeStart::File(_) => panic!("expected a directory"),
    }
}

fn names(t: &FileTree) -> Vec<String> {
    t.children.as_ref().unwrap().iter().map(|c| c.name.clone()).collect()
}

#[test]
fn file_root_is_a_leaf() {
    match TreeBuilder::start("/p/test.luau", Some("test.luau".to_string()), Ok(true), 5, 100).unwrap() {
        TreeStart::File(r) => {
            assert!(r.tree.is_file);
            assert_eq!(r.tree.name, "test.luau");
            assert!(r.tree.children.is_none());
            assert!(r.skipped.is_empty());
        }
        TreeStart::Directory(_) => panic!("expected a file"),
    }
    assert_eq!(TreeBuilder::start("/", None, Ok(false), 5, 100).err().unwrap(), "Path has no file name: /");
    assert_eq!(TreeBuilder::start("/x", Some("x".to_string()), Err("denied".to_string()), 5, 100).err().unwrap(), "denied");
}

#[test]
fn entries_are_filtered_and_sorted() {
    let mut b = start_dir("/p", 5, 100);
    assert_eq!(b.next_directory(), Some("/p".to_string()));
    b.add_listing(Ok(vec![
        found("/p/zeta.luau", "zeta.luau", true),
        found("/p/.hidden", ".hidden", false),
        found("/p/Beta", "Beta", false),
        found("/p/alpha.luau", "alpha.luau", true),
        found("/p/node_modules", "node_modules", false),
        found("/p/target", "target", false),
        EntryProbe::Found { path: "/p/link".to_string(), name: Some("link".to_string()), is_symlink: Some(true), is_file: Ok(true) },
        EntryProbe::Found { path: "/p/odd".to_string(), name: Some("odd".to_string()), is_symlink: None, is_file: Ok(true) },
        EntryProbe::Found { path: "/p/gone".to_string(), name: Some("gone".to_string()), is_symlink: Some(false), is_file: Err("vanished".to_string()) },
        EntryProbe::Failed("io".to_string()),
        found("/p/apple", "apple", false),
    ]));
    assert_eq!(b.next_directory(), Some("/p/apple".to_string()));
    b.add_listing(Ok(vec![]));
    assert_eq!(b.next_directory(), Some("/p/Beta".to_string()));
    b.add_listing(Err("permission denied".to_string()));
    assert_eq!(b.next_directory(), None);
    let r = b.finish();
    assert_eq!(names(&r.tree), vec!["apple", "Beta", "alpha.luau", "zeta.luau"]);
    let reasons: Vec<(String, String)> = r.skipped.iter().map(|s| (s.path.clone(), s.reason.clone())).collect();
    assert_eq!(
        reasons,
        vec![
            ("/p/.hidden".to_string(), "hidden file/directory (starts with '.')".to_string()),
            ("/p/node_modules".to_string(), "node_modules directory excluded".to_string()),
            ("/p/target".to_string(), "target directory excluded (Rust build output)".to_string()),
            ("/p/link".to_string(), "symlink rejected for security".to_string()),
            ("/p/odd".to_string(), "cannot read file metadata".to_string()),
            ("/p/gone".to_string(), "cannot read metadata: vanished".to_string()),
            ("/p".to_string(), "entry error: io".to_string()),
            ("/p/Beta".to_string(), "cannot read directory: permission denied".to_string()),
        ]
    );
    assert!(!r.truncated);
    assert!(r.limit.is_none());
    let apple = &r.tree.children.as_ref().unwrap()[0];
    assert_eq!(apple.children.as_ref().map(|c| c.len()), Some(0));
}

#[test]
fn depth_limit_leaves_directories_without_children() {
    let mut b = start_dir("/p", 1, 100);
    assert_eq!(b.next_directory(), Some("/p".to_string()));
    b.add_listing(Ok(vec![found("/p/level1", "level1", false)]));
    assert_eq!(b.next_directory(), None);
    let r = b.finish();
    let level1 = &r.tree.children.as_ref().unwrap()[0];
    assert_eq!(level1.name, "level1");
    assert!(level1.children.is_none());
}

#[test]
fn zero_depth_lists_nothing() {
    let mut b = start_dir("/p", 0, 100);
    assert_eq!(b.next_directory(), None);
    let r = b.finish();
    assert_eq!(r.tree.children.as_ref().map(|c| c.len()), Some(0));
}

#[test]
fn entry_limit_truncates() {
    let mut b = start_dir("/p", 5, 3);
    assert_eq!(b.next_directory(), Some("/p".to_string()));
    b.add_listing(Ok(vec![found("/p/a", "a", true), found("/p/b", "b", true), found("/p/c", "c", true), found("/p/d", "d", false)]));
    assert_eq!(b.next_directory(), None);
    let r = b.finish();
    assert!(r.truncated);
    assert_eq!(r.limit, Some(3));
    assert_eq!(r.total_entries, Some(3));
    assert_eq!(names(&r.tree), vec!["d", "a"]);
    assert_eq!(r.skipped.len(), 2);
    assert_eq!(r.skipped[0].reason, "entry limit reached (3)");
    assert_eq!(r.skipped[0].path, "/p/b");
}

#[test]
fn nested_directories_nest() {
    let mut b = start_dir("/p", 5, 100);
    b.next_directory();
    b.add_listing(Ok(vec![found("/p/src", "src", false)]));
    assert_eq!(b.next_directory(), Some("/p/src".to_string()));
    b.add_listing(Ok(vec![found("/p/src/main.luau", "main.luau", true), found("/p/src/utils.luau", "utils.luau", true)]));
    assert_eq!(b.next_directory(), None);
    let r = b.finish();
    let src = &r.tree.children.as_ref().unwrap()[0];
    assert_eq!(names(src), vec!["main.luau", "utils.luau"]);
    assert!(src.children.as_ref().unwrap()[0].children.is_none());
}
