//! Validation of bare entry names and the stem/extension split of file
//! names.

use crate::text::chars_of;
use crate::text::contains_char;
use crate::text::find_last_char;
use vstd::prelude::*;
use vstd::string::StrSliceExecFns;

verus! {

/// The kind of filesystem entry a bare name stands for.
#[derive(Debug, PartialEq, Eq, Structural)]
pub enum Object {
    Directory,
    File,
}

/// Characters that may not occur in a bare entry name.
pub open spec fn spec_is_invalid_char(c: char) -> bool {
    ||| c == '/'
    ||| c == '\\'
    ||| c == ':'
    ||| c == '*'
    ||| c == '?'
    ||| c == '"'
    ||| c == '<'
    ||| c == '>'
    ||| c == '|'
}

/// A bare name is valid when it has no reserved character, is non-empty,
/// neither starts nor ends with a space, has no dot if it names a
/// directory, and no space if it names a file.
pub open spec fn spec_valid_name(name: Seq<char>, object: Object) -> bool {
    &&& (forall|k: int| 0 <= k < name.len() ==> !spec_is_invalid_char(name[k]))
    &&& name.len() > 0
    &&& name[0] != ' '
    &&& name[name.len() - 1] != ' '
    &&& (object == Object::Directory ==> !name.contains('.'))
    &&& (object == Object::File ==> !name.contains(' '))
}

/// Decides whether a bare name may be added to the ignore set for the given
/// kind of entry.
pub fn is_valid_name(name: &str, object: Object) -> (r: bool)
    ensures
        r == spec_valid_name(name@, object),
{
    let cs = chars_of(name);
    let n = cs.len();
    let mut i: usize = 0;
    while i < n
        invariant
            n == cs@.len(),
            cs@ == name@,
            i <= n,
            forall|k: int| 0 <= k < i ==> !spec_is_invalid_char(name@[k]),
        decreases n - i,
    {
        let c = cs[i];
        if c == '/' || c == '\\' || c == ':' || c == '*' || c == '?' || c == '"' || c == '<'
            || c == '>' || c == '|' {
            return false;
        }
        i = i + 1;
    }

    if n == 0 {
        return false;
    }

    if cs[0] == ' ' || cs[n - 1] == ' ' {
        return false;
    }

    if object == Object::Directory && contains_char(&cs, '.') {
        return false;
    }

    if object == Object::File && contains_char(&cs, ' ') {
        return false;
    }

    true
}

/// The stem/extension split of a file name: the extension is what follows
/// the last dot (empty when there is none), and the stem is the name with
/// that trailing `.extension` removed (the whole name when there is no dot).
pub open spec fn spec_split_file_name(s: Seq<char>) -> (Seq<char>, Seq<char>) {
    match s.index_of_last('.') {
        Some(i) => (s.subrange(0, i), s.subrange(i + 1, s.len() as int)),
        None => (s, Seq::empty()),
    }
}

/// Splits a file name into its stem and its extension.
pub fn split_file_name(full_name: &str) -> (r: (String, String))
    ensures
        (r.0@, r.1@) == spec_split_file_name(full_name@),
{
    let cs = chars_of(full_name);
    match find_last_char(&cs, '.') {
        Some(i) => {
            let n = full_name.unicode_len();
            proof {
                cs@.index_of_last_ensures('.');
            }
            let stem = full_name.substring_char(0, i).to_owned();
            let ending = full_name.substring_char(i + 1, n).to_owned();
            (stem, ending)
        },
        None => (full_name.to_owned(), String::new()),
    }
}

/// A file name is recovered from its stem and extension by rejoining them
/// with a dot, or is the stem itself when it has no dot at all.
pub proof fn lemma_split_reconstructs(s: Seq<char>)
    ensures
        s.contains('.') ==> s =~= spec_split_file_name(s).0 + seq!['.'] + spec_split_file_name(
            s,
        ).1,
        !s.contains('.') ==> spec_split_file_name(s).0 == s && spec_split_file_name(s).1
            == Seq::<char>::empty(),
{
    s.index_of_last_ensures('.');
    if s.contains('.') {
        let i = s.index_of_last('.')->Some_0;
        assert(s =~= s.subrange(0, i) + seq!['.'] + s.subrange(i + 1, s.len() as int));
    }
}

} // verus!
