//! The tree renderer.
//!
//! A scanned tree is rendered as lines of connector-based ASCII art: the
//! root's display name first, then, per level, its files followed by its
//! subdirectories, each child line prefixed by an indent that compounds
//! with depth. Four independent toggles choose between stems and full
//! names, and add file sizes, directory sizes and file counts.

use crate::os::OS;
use crate::scan::dir_view;
use crate::scan::DirModel;
use crate::scan::DirectoryObject;
use crate::scan::FileModel;
use crate::scan::FileObject;
use crate::scan::file_view;
use crate::scan::lemma_dirs_view_prefix;
use crate::text::chars_of;
use crate::text::find_last_char;
use crate::text::u64_to_decimal;
use crate::text::spec_decimal;
use vstd::prelude::*;
use vstd::string::StrSliceExecFns;
use vstd::string::StringExecFns;

verus! {

/// What follows the last backslash of a name; the whole name when it has
/// none.
pub open spec fn spec_after_last_backslash(s: Seq<char>) -> Seq<char> {
    match s.index_of_last('\\') {
        Some(i) => s.subrange(i + 1, s.len() as int),
        None => s,
    }
}

/// The display name of a subdirectory: on Windows a stored name is
/// shortened to what follows its last backslash; elsewhere it is shown
/// unchanged.
pub open spec fn spec_dir_display_name(name: Seq<char>, os: OS) -> Seq<char> {
    match os {
        OS::Windows => spec_after_last_backslash(name),
        OS::Mac => name,
    }
}

/// The label of one file line: its stem or full name, with its display
/// size in parentheses when sizes are shown.
pub open spec fn spec_file_label(f: FileModel, show_endings: bool, show_file_sizes: bool) -> Seq<
    char,
> {
    (if show_endings {
        f.full_name
    } else {
        f.name
    }) + (if show_file_sizes {
        " ("@ + f.size_string + ")"@
    } else {
        Seq::<char>::empty()
    })
}

/// The label of one subdirectory line: its display name, its direct file
/// count in parentheses when counts are shown and positive, and its display
/// size in parentheses when directory sizes are shown.
pub open spec fn spec_dir_label(
    d: DirModel,
    show_file_counts: bool,
    show_directory_sizes: bool,
    os: OS,
) -> Seq<char> {
    spec_dir_display_name(d.name, os) + (if show_file_counts && d.file_count > 0 {
        " ("@ + spec_decimal(d.file_count) + ")"@
    } else {
        Seq::<char>::empty()
    }) + (if show_directory_sizes {
        " ("@ + d.size_string + ")"@
    } else {
        Seq::<char>::empty()
    })
}

/// The file lines of one level: each file label behind its connector,
/// `└── ` only for the last file of a level with no subdirectories.
pub open spec fn spec_file_lines(
    files: Seq<FileModel>,
    no_subdirectories: bool,
    indent: Seq<char>,
    show_endings: bool,
    show_file_sizes: bool,
) -> Seq<Seq<char>> {
    Seq::new(
        files.len(),
        |i: int|
            indent + (if i == files.len() - 1 && no_subdirectories {
                "└── "@
            } else {
                "├── "@
            }) + spec_file_label(files[i], show_endings, show_file_sizes),
    )
}

/// The lines below one directory: its files first, then each subdirectory
/// with its own subtree.
pub open spec fn spec_tree_lines(
    d: DirModel,
    indent: Seq<char>,
    show_endings: bool,
    show_file_sizes: bool,
    show_directory_sizes: bool,
    show_file_counts: bool,
    os: OS,
) -> Seq<Seq<char>>
    decreases d, 0int,
{
    spec_file_lines(d.files, d.directories.len() == 0, indent, show_endings, show_file_sizes)
        + spec_dir_lines(
        d.directories,
        0,
        indent,
        show_endings,
        show_file_sizes,
        show_directory_sizes,
        show_file_counts,
        os,
    )
}

/// The lines of the subdirectories from index `k` on: each one's label
/// behind its connector (`└── ` for the last), then its subtree at an
/// indent deepened by four spaces after a last sibling and by `│   `
/// otherwise.
pub open spec fn spec_dir_lines(
    dirs: Seq<DirModel>,
    k: int,
    indent: Seq<char>,
    show_endings: bool,
    show_file_sizes: bool,
    show_directory_sizes: bool,
    show_file_counts: bool,
    os: OS,
) -> Seq<Seq<char>>
    decreases dirs, dirs.len() - k,
{
    if k < 0 || k >= dirs.len() {
        Seq::empty()
    } else {
        let is_last = k == dirs.len() - 1;
        let connector: Seq<char> = if is_last {
            "└── "@
        } else {
            "├── "@
        };
        let child_indent: Seq<char> = indent + (if is_last {
            "    "@
        } else {
            "│   "@
        });
        seq![
            indent + connector + spec_dir_label(dirs[k], show_file_counts, show_directory_sizes, os),
        ] + spec_tree_lines(
            dirs[k],
            child_indent,
            show_endings,
            show_file_sizes,
            show_directory_sizes,
            show_file_counts,
            os,
        ) + spec_dir_lines(
            dirs,
            k + 1,
            indent,
            show_endings,
            show_file_sizes,
            show_directory_sizes,
            show_file_counts,
            os,
        )
    }
}

/// All lines of a rendered tree: the root's display name — the stored name
/// when there is one, the caller-resolved fallback otherwise — followed by
/// the subtree lines at no indent.
pub open spec fn spec_display_lines(
    d: DirModel,
    show_endings: bool,
    show_file_sizes: bool,
    show_directory_sizes: bool,
    show_file_counts: bool,
    os: OS,
    fallback_root_name: Seq<char>,
) -> Seq<Seq<char>> {
    seq![
        if d.name.len() > 0 {
            d.name
        } else {
            fallback_root_name
        },
    ] + spec_tree_lines(
        d,
        Seq::empty(),
        show_endings,
        show_file_sizes,
        show_directory_sizes,
        show_file_counts,
        os,
    )
}

/// Shortens a stored name to what follows its last backslash.
fn after_last_backslash(s: &str) -> (r: String)
    ensures
        r@ == spec_after_last_backslash(s@),
{
    let cs = chars_of(s);
    match find_last_char(&cs, '\\') {
        Some(i) => {
            let n = s.unicode_len();
            proof {
                cs@.index_of_last_ensures('\\');
            }
            s.substring_char(i + 1, n).to_owned()
        },
        None => s.to_owned(),
    }
}

/// Builds the label of one file line.
fn file_label(f: &FileObject, show_endings: bool, show_file_sizes: bool) -> (r: String)
    ensures
        r@ == spec_file_label(file_view(*f), show_endings, show_file_sizes),
{
    let mut s = if show_endings {
        f.full_name.clone()
    } else {
        f.name.clone()
    };
    if show_file_sizes {
        s.append(" (");
        s.append(f.size_string.as_str());
        s.append(")");
    }
    proof {
        assert(s@ =~= spec_file_label(file_view(*f), show_endings, show_file_sizes));
    }
    s
}

/// Builds the label of one subdirectory line.
fn dir_label(d: &DirectoryObject, show_file_counts: bool, show_directory_sizes: bool, os: &OS) -> (r:
    String)
    ensures
        r@ == spec_dir_label(dir_view(*d), show_file_counts, show_directory_sizes, *os),
{
    let mut s = match os {
        OS::Windows => after_last_backslash(d.name.as_str()),
        OS::Mac => d.name.clone(),
    };
    if show_file_counts && d.file_count > 0 {
        s.append(" (");
        s.append(u64_to_decimal(d.file_count).as_str());
        s.append(")");
    }
    if show_directory_sizes {
        s.append(" (");
        s.append(d.size_string.as_str());
        s.append(")");
    }
    proof {
        assert(s@ =~= spec_dir_label(dir_view(*d), show_file_counts, show_directory_sizes, *os));
    }
    s
}

/// Appends the lines below one directory: its files first, then each
/// subdirectory with its own subtree at a deepened indent.
#[verifier::rlimit(60)]
fn display_tree(
    tree: &DirectoryObject,
    indent: &String,
    show_endings: bool,
    show_file_sizes: bool,
    show_directory_sizes: bool,
    show_file_counts: bool,
    os: &OS,
    out: &mut Vec<String>,
)
    ensures
        final(out).deep_view() == old(out).deep_view() + spec_tree_lines(
            dir_view(*tree),
            indent@,
            show_endings,
            show_file_sizes,
            show_directory_sizes,
            show_file_counts,
            *os,
        ),
    decreases *tree,
{
    let ghost m = dir_view(*tree);
    let ghost base = out.deep_view();
    let ghost flines = spec_file_lines(
        m.files,
        m.directories.len() == 0,
        indent@,
        show_endings,
        show_file_sizes,
    );
    let nf = tree.files.len();
    let nd = tree.directories.len();
    proof {
        assert(m.files =~= crate::scan::files_view(tree.files@));
        assert(m.files.len() == nf);
        lemma_dirs_view_prefix(tree.directories@, tree.directories@.len() as int);
        assert(m.directories.len() == nd);
    }
    let mut i: usize = 0;
    while i < nf
        invariant
            nf == tree.files@.len(),
            nd == tree.directories@.len(),
            m == dir_view(*tree),
            m.files.len() == nf,
            m.directories.len() == nd,
            i <= nf,
            flines == spec_file_lines(
                m.files,
                m.directories.len() == 0,
                indent@,
                show_endings,
                show_file_sizes,
            ),
            out.deep_view() == base + flines.take(i as int),
        decreases nf - i,
    {
        let is_last_file = i == nf - 1 && nd == 0;
        let mut line = indent.clone();
        if is_last_file {
            line.append("└── ");
        } else {
            line.append("├── ");
        }
        line.append(file_label(&tree.files[i], show_endings, show_file_sizes).as_str());
        proof {
            assert(file_view(tree.files@[i as int]) == m.files[i as int]);
            assert(line@ == flines[i as int]);
        }
        let ghost pre_view = out@;
        let ghost pre_deep = out.deep_view();
        out.push(line);
        proof {
            assert(out@ == pre_view.push(line));
            assert(out.deep_view().len() == pre_deep.len() + 1);
            assert forall|j: int| 0 <= j < pre_deep.len() implies out.deep_view()[j]
                == pre_deep[j] by {
                assert(out@[j] == pre_view[j]);
            }
            assert(out.deep_view()[pre_deep.len() as int] == line@);
            assert(pre_deep == base + flines.take(i as int));
            assert(flines.take(i + 1 as int) =~= flines.take(i as int).push(flines[i as int]));
            let target = base + flines.take(i + 1 as int);
            assert(out.deep_view().len() == target.len());
            assert forall|j: int| 0 <= j < target.len() implies out.deep_view()[j]
                == target[j] by {
                if j < pre_deep.len() {
                    assert(out.deep_view()[j] == pre_deep[j]);
                    assert(pre_deep[j] == (base + flines.take(i as int))[j]);
                    if j >= base.len() {
                        assert(flines.take(i as int)[j - base.len()] == flines.take(
                            i + 1 as int,
                        )[j - base.len()]);
                    }
                } else {
                    assert(j == pre_deep.len());
                    assert(target[j] == flines.take(i + 1 as int)[i as int]);
                    assert(flines.take(i + 1 as int)[i as int] == flines[i as int]);
                }
            }
            assert(out.deep_view() =~= target);
        }
        i = i + 1;
    }
    proof {
        assert(flines.take(nf as int) =~= flines);
    }

    let ghost base2 = out.deep_view();
    let mut k: usize = 0;
    while k < nd
        invariant
            nd == tree.directories@.len(),
            m == dir_view(*tree),
            m.directories.len() == nd,
            k <= nd,
            out.deep_view() + spec_dir_lines(
                m.directories,
                k as int,
                indent@,
                show_endings,
                show_file_sizes,
                show_directory_sizes,
                show_file_counts,
                *os,
            ) == base2 + spec_dir_lines(
                m.directories,
                0,
                indent@,
                show_endings,
                show_file_sizes,
                show_directory_sizes,
                show_file_counts,
                *os,
            ),
        decreases nd - k,
    {
        proof {
            lemma_dirs_view_prefix(tree.directories@, tree.directories@.len() as int);
            assert(m.directories[k as int] == dir_view(tree.directories@[k as int]));
        }
        let is_last = k == nd - 1;
        let mut line = indent.clone();
        if is_last {
            line.append("└── ");
        } else {
            line.append("├── ");
        }
        line.append(
            dir_label(&tree.directories[k], show_file_counts, show_directory_sizes, os).as_str(),
        );
        let mut child_indent = indent.clone();
        if is_last {
            child_indent.append("    ");
        } else {
            child_indent.append("│   ");
        }
        let ghost pre = out.deep_view();
        let ghost child_lines = spec_tree_lines(
            m.directories[k as int],
            child_indent@,
            show_endings,
            show_file_sizes,
            show_directory_sizes,
            show_file_counts,
            *os,
        );
        let ghost label_line = indent@ + (if k == nd - 1 {
            "└── "@
        } else {
            "├── "@
        }) + spec_dir_label(m.directories[k as int], show_file_counts, show_directory_sizes, *os);
        proof {
            assert(line@ =~= label_line);
        }
        out.push(line);
        proof {
            assert(decreases_to!(*tree => tree.directories@[k as int])) by {
                assert(decreases_to!(*tree => (*tree).directories));
                assert(decreases_to!((*tree).directories => tree.directories@));
                assert(decreases_to!(tree.directories@ => tree.directories@[k as int]));
            }
        }
        display_tree(
            &tree.directories[k],
            &child_indent,
            show_endings,
            show_file_sizes,
            show_directory_sizes,
            show_file_counts,
            os,
            out,
        );
        proof {
            assert(spec_dir_lines(
                m.directories,
                k as int,
                indent@,
                show_endings,
                show_file_sizes,
                show_directory_sizes,
                show_file_counts,
                *os,
            ) =~= seq![label_line] + child_lines + spec_dir_lines(
                m.directories,
                k + 1 as int,
                indent@,
                show_endings,
                show_file_sizes,
                show_directory_sizes,
                show_file_counts,
                *os,
            ));
            assert(out.deep_view() =~= pre + seq![label_line] + child_lines);
            assert(out.deep_view() + spec_dir_lines(
                m.directories,
                k + 1 as int,
                indent@,
                show_endings,
                show_file_sizes,
                show_directory_sizes,
                show_file_counts,
                *os,
            ) =~= pre + spec_dir_lines(
                m.directories,
                k as int,
                indent@,
                show_endings,
                show_file_sizes,
                show_directory_sizes,
                show_file_counts,
                *os,
            ));
        }
        k = k + 1;
    }
    proof {
        assert(spec_dir_lines(
            m.directories,
            nd as int,
            indent@,
            show_endings,
            show_file_sizes,
            show_directory_sizes,
            show_file_counts,
            *os,
        ) =~= Seq::<Seq<char>>::empty());
        assert(out.deep_view() =~= base + spec_tree_lines(
            m,
            indent@,
            show_endings,
            show_file_sizes,
            show_directory_sizes,
            show_file_counts,
            *os,
        ));
    }
}

/// Renders a scanned tree as lines of ASCII art: the root's display name —
/// the stored name when there is one, else the caller-resolved fallback —
/// followed by the connector-prefixed lines of its files and
/// subdirectories.
pub fn display_lines(
    tree: &DirectoryObject,
    show_endings: bool,
    show_file_sizes: bool,
    show_directory_sizes: bool,
    show_file_counts: bool,
    os: &OS,
    fallback_root_name: &str,
) -> (r: Vec<String>)
    ensures
        r.deep_view() == spec_display_lines(
            dir_view(*tree),
            show_endings,
            show_file_sizes,
            show_directory_sizes,
            show_file_counts,
            *os,
            fallback_root_name@,
        ),
{
    let mut out: Vec<String> = Vec::new();
    let root_line = if tree.name.unicode_len() > 0 {
        tree.name.clone()
    } else {
        fallback_root_name.to_owned()
    };
    out.push(root_line);
    let indent = String::new();
    display_tree(
        tree,
        &indent,
        show_endings,
        show_file_sizes,
        show_directory_sizes,
        show_file_counts,
        os,
        &mut out,
    );
    proof {
        assert(out.deep_view() =~= spec_display_lines(
            dir_view(*tree),
            show_endings,
            show_file_sizes,
            show_directory_sizes,
            show_file_counts,
            *os,
            fallback_root_name@,
        ));
    }
    out
}

} // verus!
