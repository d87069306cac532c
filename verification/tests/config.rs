use fmap::config::add_value;
use fmap::config::default_config_content;
use fmap::config::default_ignored_directories;
use fmap::config::default_ignored_files;
use fmap::config::find_setting;
use fmap::config::remove_value;
use fmap::config::set_value_line_and_join;
use fmap::config::ConfigOption;
use fmap::config::Setting;

fn lines(parts: &[&str]) -> Vec<String> {
    parts.iter().map(|s| s.to_string()).collect()
}

#[test]
fn option_keys() {
    assert_eq!(
        ConfigOption::IgnoredDirectories.get_config_option_key(),
        "ignored-directories"
    );
    assert_eq!(ConfigOption::IgnoredFiles.get_config_option_key(), "ignored-files");
}

#[test]
fn setting_new_bundles_its_parts() {
    let s = Setting::new("key".to_string(), 4, "a,b".to_string());
    assert_eq!(s.key, "key");
    assert_eq!(s.key_line_number, 4);
    assert_eq!(s.value, "a,b");
}

#[test]
fn find_setting_pairs_key_line_with_value_line() {
    let content = lines(&["ignored-directories", "a,b", "ignored-files", "x"]);
    let s = find_setting(&content, "ignored-files").unwrap();
    assert_eq!(s.key, "ignored-files");
    assert_eq!(s.key_line_number, 2);
    assert_eq!(s.value, "x");
}

#[test]
fn find_setting_skips_odd_lines() {
    // The key's own text on a value line must not match.
    let content = lines(&["other", "ignored-files", "ignored-files", "v"]);
    let s = find_setting(&content, "ignored-files").unwrap();
    assert_eq!(s.key_line_number, 2);
    assert_eq!(s.value, "v");
}

#[test]
fn find_setting_without_value_line_reports_none_text() {
    let content = lines(&["ignored-directories", "a", "ignored-files"]);
    let s = find_setting(&content, "ignored-files").unwrap();
    assert_eq!(s.key_line_number, 2);
    assert_eq!(s.value, "None");
}

#[test]
fn find_setting_for_an_absent_key() {
    let content = lines(&["ignored-directories", "a"]);
    assert!(find_setting(&content, "ignored-files").is_none());
}

#[test]
fn remove_value_drops_every_match() {
    assert_eq!(remove_value("a,b,c", "b"), "a,c");
    assert_eq!(remove_value("b,a,b", "b"), "a");
    assert_eq!(remove_value("a", "a"), "");
    assert_eq!(remove_value("a,b", "missing"), "a,b");
}

#[test]
fn add_value_appends_after_a_comma() {
    assert_eq!(add_value("a,b", "c"), "a,b,c");
}

#[test]
fn add_value_leaves_an_already_held_value_alone() {
    assert_eq!(add_value("a,b,c", "b"), "a,b,c");
    // Only a comma-delimited match counts: a bare substring does not.
    assert_eq!(add_value("a,bb,c", "b"), "a,bb,c,b");
}

#[test]
fn set_value_line_rewrites_below_the_key() {
    let content = lines(&["ignored-directories", "a,b", "ignored-files", "x"]);
    let joined = set_value_line_and_join(&content, 0, "a,b,c");
    assert_eq!(joined, "ignored-directories\na,b,c\nignored-files\nx");
}

#[test]
fn default_content_lists_both_settings() {
    let content = default_config_content(&default_ignored_directories(), &default_ignored_files());
    assert_eq!(
        content,
        "ignored-directories\n.gradle,.idea,node_modules,target,build,dist,venv,.git,.vscode,.settings,.next,.bin\nignored-files\n"
    );
}

#[test]
fn default_content_with_custom_lists() {
    let dirs = lines(&["target", "dist"]);
    let files = lines(&["a.log"]);
    let content = default_config_content(&dirs, &files);
    assert_eq!(content, "ignored-directories\ntarget,dist\nignored-files\na.log");
}
