use fmap::utils::is_valid_name;
use fmap::utils::split_file_name;
use fmap::utils::Object;

#[test]
fn split_keeps_inner_dots() {
    let (stem, ending) = split_file_name("report.final.txt");
    assert_eq!(stem, "report.final");
    assert_eq!(ending, "txt");
}

#[test]
fn split_without_dot_keeps_name() {
    let (stem, ending) = split_file_name("README");
    assert_eq!(stem, "README");
    assert_eq!(ending, "");
}

#[test]
fn split_simple_extension() {
    let (stem, ending) = split_file_name("a.txt");
    assert_eq!(stem, "a");
    assert_eq!(ending, "txt");
}

#[test]
fn split_leading_dot_gives_empty_stem() {
    let (stem, ending) = split_file_name(".gitignore");
    assert_eq!(stem, "");
    assert_eq!(ending, "gitignore");
}

#[test]
fn split_trailing_dot_gives_empty_extension() {
    let (stem, ending) = split_file_name("archive.");
    assert_eq!(stem, "archive");
    assert_eq!(ending, "");
}

#[test]
fn valid_plain_names() {
    assert!(is_valid_name("node_modules", Object::Directory));
    assert!(is_valid_name("notes.txt", Object::File));
}

#[test]
fn reserved_characters_are_rejected() {
    assert!(!is_valid_name("a/b", Object::Directory));
    assert!(!is_valid_name("a\\b", Object::Directory));
    assert!(!is_valid_name("a:b", Object::File));
    assert!(!is_valid_name("a*b", Object::File));
    assert!(!is_valid_name("a?b", Object::File));
    assert!(!is_valid_name("a\"b", Object::File));
    assert!(!is_valid_name("a<b", Object::File));
    assert!(!is_valid_name("a>b", Object::File));
    assert!(!is_valid_name("a|b", Object::File));
}

#[test]
fn empty_name_is_rejected() {
    assert!(!is_valid_name("", Object::Directory));
    assert!(!is_valid_name("", Object::File));
}

#[test]
fn surrounding_spaces_are_rejected() {
    assert!(!is_valid_name(" build", Object::Directory));
    assert!(!is_valid_name("build ", Object::Directory));
}

#[test]
fn directory_names_may_not_hold_dots() {
    assert!(!is_valid_name("v1.2", Object::Directory));
}

#[test]
fn file_names_may_not_hold_spaces() {
    assert!(!is_valid_name("my notes.txt", Object::File));
    assert!(is_valid_name("my notes", Object::Directory));
}
