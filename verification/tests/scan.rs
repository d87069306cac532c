use fmap::scan::fs_sizes_fit;
use fmap::scan::scan;
use fmap::scan::DirectoryObject;
use fmap::scan::FileObject;
use fmap::scan::FsEntry;
use fmap::scan::FsNode;
use fmap::scan::ScanError;

fn entry(name: &str, node: FsNode) -> FsEntry {
    FsEntry { name: name.to_string(), node }
}

fn names(v: &[String]) -> Vec<String> {
    v.to_vec()
}

fn no_ignores() -> (Vec<String>, Vec<String>) {
    (Vec::new(), Vec::new())
}

fn sample_tree() -> FsNode {
    FsNode::Directory(vec![
        entry("a.txt", FsNode::File(100)),
        entry("b.log", FsNode::File(200)),
        entry(
            "sub",
            FsNode::Directory(vec![entry("c.txt", FsNode::File(50))]),
        ),
        entry("empty", FsNode::Directory(vec![])),
    ])
}

#[test]
fn totals_cover_direct_files_only() {
    let (igd, igf) = no_ignores();
    let tree = scan("base", &sample_tree(), &igd, &igf).unwrap();
    assert_eq!(tree.size, 300);
    assert_eq!(tree.file_count, 2);
    assert_eq!(tree.files.len(), 2);
    assert_eq!(tree.size_string, "300.00 B");
    let sub = tree
        .directories
        .iter()
        .find(|d| d.name == "sub")
        .expect("sub scanned");
    assert_eq!(sub.size, 50);
    assert_eq!(sub.file_count, 1);
}

#[test]
fn file_metadata_is_filled_in() {
    let (igd, igf) = no_ignores();
    let tree = scan("base", &sample_tree(), &igd, &igf).unwrap();
    let first = &tree.files[0];
    assert_eq!(first.full_name, "a.txt");
    assert_eq!(first.name, "a");
    assert_eq!(first.ending, "txt");
    assert_eq!(first.path, "base/a.txt");
    assert_eq!(first.size, 100);
    assert_eq!(first.size_string, "100.00 B");
}

#[test]
fn subdirectories_expand_last_discovered_first() {
    let (igd, igf) = no_ignores();
    let tree = scan("base", &sample_tree(), &igd, &igf).unwrap();
    let order: Vec<&str> = tree.directories.iter().map(|d| d.name.as_str()).collect();
    assert_eq!(order, vec!["empty", "sub"]);
}

#[test]
fn root_name_is_left_empty_and_paths_chain() {
    let (igd, igf) = no_ignores();
    let tree = scan("base", &sample_tree(), &igd, &igf).unwrap();
    assert_eq!(tree.name, "");
    assert_eq!(tree.path, "base");
    let sub = tree.directories.iter().find(|d| d.name == "sub").unwrap();
    assert_eq!(sub.path, "base/sub");
    assert_eq!(sub.files[0].path, "base/sub/c.txt");
}

#[test]
fn ignored_files_are_skipped() {
    let igd = Vec::new();
    let igf = names(&["b.log".to_string()]);
    let tree = scan("base", &sample_tree(), &igd, &igf).unwrap();
    assert_eq!(tree.size, 100);
    assert_eq!(tree.file_count, 1);
    assert_eq!(tree.files[0].full_name, "a.txt");
}

#[test]
fn ignored_directories_are_not_descended_into() {
    let igd = names(&["sub".to_string()]);
    let igf = Vec::new();
    let tree = scan("base", &sample_tree(), &igd, &igf).unwrap();
    let order: Vec<&str> = tree.directories.iter().map(|d| d.name.as_str()).collect();
    assert_eq!(order, vec!["empty"]);
}

#[test]
fn ignored_directory_contents_never_surface() {
    // Even a file that would be fatal inside an ignored directory is never
    // reached.
    let snapshot = FsNode::Directory(vec![entry(
        "target",
        FsNode::Directory(vec![entry("broken", FsNode::FileWithoutMetadata)]),
    )]);
    let igd = names(&["target".to_string()]);
    let igf = Vec::new();
    let tree = scan("base", &snapshot, &igd, &igf).unwrap();
    assert!(tree.directories.is_empty());
    assert!(tree.files.is_empty());
    assert_eq!(tree.size, 0);
}

#[test]
fn unreadable_root_degrades_to_empty_node() {
    let (igd, igf) = no_ignores();
    let tree = scan("gone", &FsNode::UnreadableDirectory, &igd, &igf).unwrap();
    assert!(tree.files.is_empty());
    assert!(tree.directories.is_empty());
    assert_eq!(tree.size, 0);
    assert_eq!(tree.file_count, 0);
    assert_eq!(tree.name, "");
    assert_eq!(tree.path, "gone");
}

#[test]
fn unreadable_subdirectory_degrades_locally() {
    let snapshot = FsNode::Directory(vec![
        entry("locked", FsNode::UnreadableDirectory),
        entry("a.txt", FsNode::File(7)),
    ]);
    let (igd, igf) = no_ignores();
    let tree = scan("base", &snapshot, &igd, &igf).unwrap();
    assert_eq!(tree.size, 7);
    assert_eq!(tree.directories.len(), 1);
    assert_eq!(tree.directories[0].name, "locked");
    assert!(tree.directories[0].files.is_empty());
    assert_eq!(tree.directories[0].size, 0);
}

#[test]
fn missing_file_metadata_aborts_the_scan() {
    let snapshot = FsNode::Directory(vec![
        entry("a.txt", FsNode::File(1)),
        entry("broken", FsNode::FileWithoutMetadata),
    ]);
    let (igd, igf) = no_ignores();
    assert_eq!(
        scan("base", &snapshot, &igd, &igf).unwrap_err(),
        ScanError::MetadataUnavailable
    );
}

#[test]
fn ignored_broken_file_is_harmless() {
    let snapshot = FsNode::Directory(vec![
        entry("a.txt", FsNode::File(1)),
        entry("broken", FsNode::FileWithoutMetadata),
    ]);
    let igd = Vec::new();
    let igf = names(&["broken".to_string()]);
    let tree = scan("base", &snapshot, &igd, &igf).unwrap();
    assert_eq!(tree.size, 1);
}

#[test]
fn builders_start_empty_and_append_in_order() {
    let mut d = DirectoryObject::new(&"dir".to_string(), &"base/dir".to_string());
    assert_eq!(d.name, "dir");
    assert_eq!(d.path, "base/dir");
    assert_eq!(d.size, 0);
    assert_eq!(d.file_count, 0);
    assert_eq!(d.size_string, "");
    assert!(d.files.is_empty() && d.directories.is_empty());

    let f = FileObject::new(
        &"a.txt".to_string(),
        &"a".to_string(),
        "txt".to_string(),
        "base/dir/a.txt".to_string(),
        1536,
    );
    assert_eq!(f.size_string, "1.50 KB");
    d.add_file(f);
    d.add_directory(DirectoryObject::new(&"sub".to_string(), &"base/dir/sub".to_string()));
    assert_eq!(d.files.len(), 1);
    assert_eq!(d.directories.len(), 1);
    assert_eq!(d.files[0].full_name, "a.txt");
    assert_eq!(d.directories[0].name, "sub");
}

fn assert_trees_equal(a: &DirectoryObject, b: &DirectoryObject) {
    assert_eq!(a.name, b.name);
    assert_eq!(a.path, b.path);
    assert_eq!(a.size, b.size);
    assert_eq!(a.size_string, b.size_string);
    assert_eq!(a.file_count, b.file_count);
    assert_eq!(a.files.len(), b.files.len());
    for (fa, fb) in a.files.iter().zip(b.files.iter()) {
        assert_eq!(fa.full_name, fb.full_name);
        assert_eq!(fa.name, fb.name);
        assert_eq!(fa.ending, fb.ending);
        assert_eq!(fa.path, fb.path);
        assert_eq!(fa.size, fb.size);
        assert_eq!(fa.size_string, fb.size_string);
    }
    assert_eq!(a.directories.len(), b.directories.len());
    for (da, db) in a.directories.iter().zip(b.directories.iter()) {
        assert_trees_equal(da, db);
    }
}

#[test]
fn scanning_twice_yields_identical_trees() {
    let snapshot = sample_tree();
    let igd = names(&["empty".to_string()]);
    let igf = names(&["b.log".to_string()]);
    let first = scan("base", &snapshot, &igd, &igf).unwrap();
    let second = scan("base", &snapshot, &igd, &igf).unwrap();
    assert_trees_equal(&first, &second);
}

#[test]
fn ignored_directory_contents_cannot_change_the_tree() {
    let with_contents = FsNode::Directory(vec![
        entry("a.txt", FsNode::File(3)),
        entry(
            "target",
            FsNode::Directory(vec![
                entry("huge.bin", FsNode::File(1 << 40)),
                entry("deep", FsNode::Directory(vec![entry("x", FsNode::File(1))])),
            ]),
        ),
    ]);
    let without_contents = FsNode::Directory(vec![
        entry("a.txt", FsNode::File(3)),
        entry("target", FsNode::Directory(vec![])),
    ]);
    let igd = names(&["target".to_string()]);
    let igf = Vec::new();
    let first = scan("base", &with_contents, &igd, &igf).unwrap();
    let second = scan("base", &without_contents, &igd, &igf).unwrap();
    assert_trees_equal(&first, &second);
}

#[test]
fn size_check_accepts_fitting_sums_per_level() {
    assert!(fs_sizes_fit(&sample_tree()));
    let snapshot = FsNode::Directory(vec![
        entry("a", FsNode::File(u64::MAX)),
        entry("sub", FsNode::Directory(vec![entry("b", FsNode::File(u64::MAX))])),
    ]);
    // Each level on its own stays within bounds.
    assert!(fs_sizes_fit(&snapshot));
}

#[test]
fn size_check_rejects_an_overflowing_level() {
    let snapshot = FsNode::Directory(vec![
        entry("a", FsNode::File(u64::MAX)),
        entry("b", FsNode::File(1)),
    ]);
    assert!(!fs_sizes_fit(&snapshot));
    let nested = FsNode::Directory(vec![entry("sub", snapshot)]);
    assert!(!fs_sizes_fit(&nested));
}
