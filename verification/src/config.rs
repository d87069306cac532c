//! The string logic of the flat key/value configuration store.
//!
//! The store is a text file of line pairs: a key line on an even line
//! number, its comma-separated value list on the next. Reading and writing
//! the file belongs to the caller; everything here — locating a key,
//! adding a value, removing a value, rewriting a line, composing the
//! default content — is pure string work on the lines.

use crate::text::spec_contains_sub;
use crate::text::spec_split_on;
use crate::text::spec_trim_trailing;
use crate::text::chars_of;
use crate::text::contains_sub;
use crate::text::split_on_char;
use crate::text::str_eq;
use crate::text::trim_trailing_char;
use vstd::prelude::*;
use vstd::string::StrSliceExecFns;
use vstd::string::StringExecFns;

verus! {

/// The configuration options the store knows.
pub enum ConfigOption {
    IgnoredDirectories,
    IgnoredFiles,
}

impl ConfigOption {
    /// The key line under which an option is stored.
    pub fn get_config_option_key(&self) -> (r: String)
        ensures
            *self is IgnoredDirectories ==> r@ == "ignored-directories"@,
            *self is IgnoredFiles ==> r@ == "ignored-files"@,
    {
        match self {
            Self::IgnoredDirectories => "ignored-directories".to_owned(),
            Self::IgnoredFiles => "ignored-files".to_owned(),
        }
    }
}

/// One located setting: its key, the line number the key stands on, and
/// the value line below it.
pub struct Setting {
    pub key: String,
    pub key_line_number: usize,
    pub value: String,
}

impl Setting {
    /// Bundles a located setting.
    pub fn new(key: String, key_line_number: usize, value: String) -> (r: Setting)
        ensures
            r.key == key,
            r.key_line_number == key_line_number,
            r.value == value,
    {
        Self { key, key_line_number, value }
    }
}

/// Where a key first stands on an even line, and the value line below it
/// (`"None"` when the key line is the last line). `None` when no even line
/// holds the key at or after line `i`.
pub open spec fn spec_find_setting(lines: Seq<Seq<char>>, key: Seq<char>, i: int) -> Option<
    (int, Seq<char>),
>
    decreases lines.len() - i,
{
    if i < 0 || i >= lines.len() {
        None
    } else if i % 2 == 0 && lines[i] == key {
        Some(
            (
                i,
                if i + 1 < lines.len() {
                    lines[i + 1]
                } else {
                    "None"@
                },
            ),
        )
    } else {
        spec_find_setting(lines, key, i + 1)
    }
}

/// Locates a setting: the first even-numbered line that equals the key,
/// paired with the line below it as its value.
pub fn find_setting(lines: &Vec<String>, key: &str) -> (r: Option<Setting>)
    ensures
        match r {
            Some(s) => {
                &&& spec_find_setting(lines.deep_view(), key@, 0) == Some(
                    (s.key_line_number as int, s.value@),
                )
                &&& s.key@ == key@
            },
            None => spec_find_setting(lines.deep_view(), key@, 0) is None,
        },
{
    let n = lines.len();
    let mut i: usize = 0;
    while i < n
        invariant
            n == lines@.len(),
            i <= n,
            spec_find_setting(lines.deep_view(), key@, 0) == spec_find_setting(
                lines.deep_view(),
                key@,
                i as int,
            ),
        decreases n - i,
    {
        if i % 2 == 0 && str_eq(lines[i].as_str(), key) {
            proof {
                assert(lines.deep_view()[i as int] == key@);
            }
            let value = if i + 1 < n {
                lines[i + 1].clone()
            } else {
                "None".to_owned()
            };
            return Some(Setting::new(key.to_owned(), i, value));
        }
        proof {
            assert(lines.deep_view()[i as int] == lines@[i as int]@);
        }
        i = i + 1;
    }
    None
}

/// The value line with one value removed: every comma-separated segment
/// except those equal to the target, each kept segment followed by a comma,
/// with all trailing commas trimmed at the end.
pub open spec fn spec_removed_segments(
    segments: Seq<Seq<char>>,
    target: Seq<char>,
    i: int,
) -> Seq<char>
    decreases i,
{
    if i <= 0 {
        Seq::empty()
    } else {
        spec_removed_segments(segments, target, i - 1) + (if segments[i - 1] == target {
            Seq::<char>::empty()
        } else {
            segments[i - 1] + seq![',']
        })
    }
}

/// What removing a value from a comma-separated value line yields.
pub open spec fn spec_remove_value(value: Seq<char>, target: Seq<char>) -> Seq<char> {
    spec_trim_trailing(
        spec_removed_segments(
            spec_split_on(value, ','),
            target,
            spec_split_on(value, ',').len() as int,
        ),
        ',',
    )
}

/// Removes a value from a comma-separated value line: segments equal to the
/// target are dropped, the rest are rejoined, and trailing commas are
/// trimmed.
pub fn remove_value(value: &str, target: &str) -> (r: String)
    ensures
        r@ == spec_remove_value(value@, target@),
{
    let segments = split_on_char(value, ',');
    let ghost segs = spec_split_on(value@, ',');
    let n = segments.len();
    let mut acc = String::new();
    let mut i: usize = 0;
    while i < n
        invariant
            n == segments@.len(),
            segments.deep_view() == segs,
            i <= n,
            acc@ == spec_removed_segments(segs, target@, i as int),
        decreases n - i,
    {
        proof {
            assert(segments.deep_view()[i as int] == segments@[i as int]@);
        }
        if !str_eq(segments[i].as_str(), target) {
            acc.append(segments[i].as_str());
            acc.append(",");
            proof {
                reveal_strlit(",");
                assert(acc@ =~= spec_removed_segments(segs, target@, i + 1 as int));
            }
        }
        i = i + 1;
    }
    trim_trailing_char(acc.as_str(), ',')
}

/// What adding a value to a comma-separated value line yields: the line
/// unchanged when it already holds the value between commas, else the line
/// with a comma and the value appended.
pub open spec fn spec_add_value(value: Seq<char>, target: Seq<char>) -> Seq<char> {
    if spec_contains_sub(value, seq![','] + target + seq![',']) {
        value
    } else {
        value + seq![','] + target
    }
}

/// Adds a value to a comma-separated value line, unless the line already
/// holds it between commas.
pub fn add_value(value: &str, target: &str) -> (r: String)
    ensures
        r@ == spec_add_value(value@, target@),
{
    let mut pattern = ",".to_owned();
    pattern.append(target);
    pattern.append(",");
    proof {
        reveal_strlit(",");
        assert(pattern@ =~= seq![','] + target@ + seq![',']);
    }
    let value_chars = chars_of(value);
    let pattern_chars = chars_of(pattern.as_str());
    if contains_sub(&value_chars, &pattern_chars) {
        value.to_owned()
    } else {
        let mut r = value.to_owned();
        r.append(",");
        r.append(target);
        proof {
            reveal_strlit(",");
            assert(r@ =~= value@ + seq![','] + target@);
        }
        r
    }
}

/// The lines joined with newlines, one between each pair.
pub open spec fn spec_join_lines(lines: Seq<Seq<char>>, i: int) -> Seq<char>
    decreases i,
{
    if i <= 0 {
        Seq::empty()
    } else if i == 1 {
        lines[0]
    } else {
        spec_join_lines(lines, i - 1) + seq!['\n'] + lines[i - 1]
    }
}

/// Rewrites the value line below a key line and joins all lines back into
/// one newline-separated text.
pub fn set_value_line_and_join(lines: &Vec<String>, key_line_number: usize, value: &str) -> (r:
    String)
    requires
        key_line_number + 1 < lines@.len(),
    ensures
        r@ == spec_join_lines(
            lines.deep_view().update(key_line_number + 1 as int, value@),
            lines@.len() as int,
        ),
{
    let ghost target = lines.deep_view().update(key_line_number + 1 as int, value@);
    let n = lines.len();
    let mut acc = String::new();
    let mut i: usize = 0;
    while i < n
        invariant
            n == lines@.len(),
            key_line_number + 1 < n,
            target == lines.deep_view().update(key_line_number + 1 as int, value@),
            i <= n,
            acc@ == spec_join_lines(target, i as int),
        decreases n - i,
    {
        if i > 0 {
            acc.append("\n");
        }
        if i == key_line_number + 1 {
            acc.append(value);
        } else {
            acc.append(lines[i].as_str());
        }
        proof {
            reveal_strlit("\n");
            assert(lines.deep_view()[i as int] == lines@[i as int]@);
            assert(acc@ =~= spec_join_lines(target, i + 1 as int));
        }
        i = i + 1;
    }
    acc
}

/// The comma-separated join of a list of names, with no trailing comma.
pub open spec fn spec_join_commas(names: Seq<Seq<char>>, i: int) -> Seq<char>
    decreases i,
{
    if i <= 0 {
        Seq::empty()
    } else if i == 1 {
        names[0]
    } else {
        spec_join_commas(names, i - 1) + seq![','] + names[i - 1]
    }
}

/// The default content of a fresh configuration file: the two key lines,
/// each followed by the comma-separated join of its default names.
pub open spec fn spec_default_config_content(
    default_directories: Seq<Seq<char>>,
    default_files: Seq<Seq<char>>,
) -> Seq<char> {
    "ignored-directories\n"@ + spec_join_commas(
        default_directories,
        default_directories.len() as int,
    ) + "\nignored-files\n"@ + spec_join_commas(default_files, default_files.len() as int)
}

/// Joins names with commas, without a trailing comma.
fn join_commas(names: &Vec<String>) -> (r: String)
    ensures
        r@ == spec_join_commas(names.deep_view(), names@.len() as int),
{
    let n = names.len();
    let mut acc = String::new();
    let mut i: usize = 0;
    while i < n
        invariant
            n == names@.len(),
            i <= n,
            acc@ == spec_join_commas(names.deep_view(), i as int),
        decreases n - i,
    {
        if i > 0 {
            acc.append(",");
        }
        acc.append(names[i].as_str());
        proof {
            reveal_strlit(",");
            assert(names.deep_view()[i as int] == names@[i as int]@);
            assert(acc@ =~= spec_join_commas(names.deep_view(), i + 1 as int));
        }
        i = i + 1;
    }
    acc
}

/// Composes the default content of a fresh configuration file from the
/// default ignore lists.
pub fn default_config_content(
    default_directories: &Vec<String>,
    default_files: &Vec<String>,
) -> (r: String)
    ensures
        r@ == spec_default_config_content(
            default_directories.deep_view(),
            default_files.deep_view(),
        ),
{
    let mut acc = "ignored-directories\n".to_owned();
    acc.append(join_commas(default_directories).as_str());
    acc.append("\nignored-files\n");
    acc.append(join_commas(default_files).as_str());
    proof {
        assert(acc@ =~= spec_default_config_content(
            default_directories.deep_view(),
            default_files.deep_view(),
        ));
    }
    acc
}

/// The directory names a fresh configuration file ignores.
pub fn default_ignored_directories() -> (r: Vec<String>)
    ensures
        r.deep_view() =~= seq![
            ".gradle"@,
            ".idea"@,
            "node_modules"@,
            "target"@,
            "build"@,
            "dist"@,
            "venv"@,
            ".git"@,
            ".vscode"@,
            ".settings"@,
            ".next"@,
            ".bin"@,
        ],
{
    let mut v: Vec<String> = Vec::new();
    v.push(".gradle".to_owned());
    v.push(".idea".to_owned());
    v.push("node_modules".to_owned());
    v.push("target".to_owned());
    v.push("build".to_owned());
    v.push("dist".to_owned());
    v.push("venv".to_owned());
    v.push(".git".to_owned());
    v.push(".vscode".to_owned());
    v.push(".settings".to_owned());
    v.push(".next".to_owned());
    v.push(".bin".to_owned());
    v
}

/// The file names a fresh configuration file ignores: none.
pub fn default_ignored_files() -> (r: Vec<String>)
    ensures
        r.deep_view() =~= Seq::<Seq<char>>::empty(),
{
    Vec::new()
}

} // verus!
