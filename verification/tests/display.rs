use fmap::display::display_lines;
use fmap::os::OS;
use fmap::scan::scan;
use fmap::scan::FsEntry;
use fmap::scan::FsNode;

fn entry(name: &str, node: FsNode) -> FsEntry {
    FsEntry { name: name.to_string(), node }
}

fn small_tree() -> FsNode {
    FsNode::Directory(vec![
        entry("a.txt", FsNode::File(10)),
        entry(
            "sub",
            FsNode::Directory(vec![entry("b.txt", FsNode::File(20))]),
        ),
    ])
}

#[test]
fn renders_stems_and_connectors_with_all_toggles_off() {
    let igd: Vec<String> = Vec::new();
    let igf: Vec<String> = Vec::new();
    let tree = scan(".", &small_tree(), &igd, &igf).unwrap();
    let lines = display_lines(&tree, false, false, false, false, &OS::Mac, "root");
    assert_eq!(lines, vec!["root", "├── a", "└── sub", "    └── b"]);
}

#[test]
fn stored_root_name_wins_over_fallback() {
    let igd: Vec<String> = Vec::new();
    let igf: Vec<String> = Vec::new();
    let mut tree = scan(".", &small_tree(), &igd, &igf).unwrap();
    tree.name = "stored".to_string();
    let lines = display_lines(&tree, false, false, false, false, &OS::Mac, "fallback");
    assert_eq!(lines[0], "stored");
}

#[test]
fn unreadable_root_prints_only_its_name() {
    let igd: Vec<String> = Vec::new();
    let igf: Vec<String> = Vec::new();
    let tree = scan("gone", &FsNode::UnreadableDirectory, &igd, &igf).unwrap();
    let lines = display_lines(&tree, false, false, false, false, &OS::Mac, "gone");
    assert_eq!(lines, vec!["gone"]);
}

#[test]
fn full_names_and_sizes_when_toggled() {
    let igd: Vec<String> = Vec::new();
    let igf: Vec<String> = Vec::new();
    let tree = scan(".", &small_tree(), &igd, &igf).unwrap();
    let lines = display_lines(&tree, true, true, true, true, &OS::Mac, "root");
    assert_eq!(
        lines,
        vec![
            "root",
            "├── a.txt (10.00 B)",
            "└── sub (1) (20.00 B)",
            "    └── b.txt (20.00 B)",
        ]
    );
}

#[test]
fn zero_file_count_is_not_shown() {
    let snapshot = FsNode::Directory(vec![entry("sub", FsNode::Directory(vec![]))]);
    let igd: Vec<String> = Vec::new();
    let igf: Vec<String> = Vec::new();
    let tree = scan(".", &snapshot, &igd, &igf).unwrap();
    let lines = display_lines(&tree, false, false, false, true, &OS::Mac, "root");
    assert_eq!(lines, vec!["root", "└── sub"]);
}

#[test]
fn last_file_uses_corner_only_without_subdirectories() {
    let snapshot = FsNode::Directory(vec![
        entry("a.txt", FsNode::File(1)),
        entry("b.txt", FsNode::File(2)),
    ]);
    let igd: Vec<String> = Vec::new();
    let igf: Vec<String> = Vec::new();
    let tree = scan(".", &snapshot, &igd, &igf).unwrap();
    let lines = display_lines(&tree, false, false, false, false, &OS::Mac, "root");
    assert_eq!(lines, vec!["root", "├── a", "└── b"]);
}

#[test]
fn middle_subdirectories_extend_the_indent_with_a_bar() {
    let snapshot = FsNode::Directory(vec![
        entry(
            "one",
            FsNode::Directory(vec![entry("x.txt", FsNode::File(1))]),
        ),
        entry(
            "two",
            FsNode::Directory(vec![entry("y.txt", FsNode::File(2))]),
        ),
    ]);
    let igd: Vec<String> = Vec::new();
    let igf: Vec<String> = Vec::new();
    let tree = scan(".", &snapshot, &igd, &igf).unwrap();
    let lines = display_lines(&tree, false, false, false, false, &OS::Mac, "root");
    // Subdirectories are expanded last discovered first.
    assert_eq!(
        lines,
        vec![
            "root",
            "├── two",
            "│   └── y",
            "└── one",
            "    └── x",
        ]
    );
}

#[test]
fn windows_strips_backslash_prefixes_from_directory_names() {
    let igd: Vec<String> = Vec::new();
    let igf: Vec<String> = Vec::new();
    let mut tree = scan(".", &small_tree(), &igd, &igf).unwrap();
    tree.directories[0].name = "C:\\things\\sub".to_string();
    let lines = display_lines(&tree, false, false, false, false, &OS::Windows, "root");
    assert_eq!(lines[2], "└── sub");
}

#[test]
fn mac_keeps_directory_names_unchanged() {
    let igd: Vec<String> = Vec::new();
    let igf: Vec<String> = Vec::new();
    let mut tree = scan(".", &small_tree(), &igd, &igf).unwrap();
    tree.directories[0].name = "a\\b".to_string();
    let lines = display_lines(&tree, false, false, false, false, &OS::Mac, "root");
    assert_eq!(lines[2], "└── a\\b");
}

#[test]
fn os_names() {
    assert_eq!(OS::Windows.get_name(), "Windows");
    assert_eq!(OS::Mac.get_name(), "Mac");
}
