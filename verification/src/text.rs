//! Verified building blocks for working with strings as sequences of
//! characters: equality, indexing, splitting, joining and searching.

use vstd::prelude::*;
use vstd::string::StrSliceExecFns;
use vstd::string::StringExecFns;

verus! {

/// Collects the characters of a string slice into a vector, so that callers
/// can index into it freely.
pub fn chars_of(s: &str) -> (r: Vec<char>)
    ensures
        r@ == s@,
{
    let n = s.unicode_len();
    let mut r: Vec<char> = Vec::new();
    let mut i: usize = 0;
    while i < n
        invariant
            n == s@.len(),
            i <= n,
            r@ == s@.subrange(0, i as int),
        decreases n - i,
    {
        let c = s.get_char(i);
        r.push(c);
        i = i + 1;
        proof {
            assert(r@ =~= s@.subrange(0, i as int));
        }
    }
    proof {
        assert(r@ =~= s@);
    }
    r
}

/// The character for a single decimal digit.
pub open spec fn spec_digit_char(d: nat) -> char {
    if d == 0 {
        '0'
    } else if d == 1 {
        '1'
    } else if d == 2 {
        '2'
    } else if d == 3 {
        '3'
    } else if d == 4 {
        '4'
    } else if d == 5 {
        '5'
    } else if d == 6 {
        '6'
    } else if d == 7 {
        '7'
    } else if d == 8 {
        '8'
    } else {
        '9'
    }
}

/// The decimal rendering of a natural number, without leading zeros
/// (a single `'0'` for zero).
pub open spec fn spec_decimal(n: nat) -> Seq<char>
    decreases n,
{
    if n < 10 {
        seq![spec_digit_char(n)]
    } else {
        spec_decimal(n / 10) + seq![spec_digit_char(n % 10)]
    }
}

/// The two-digit, zero-padded decimal rendering of a number below 100.
pub open spec fn spec_two_digits(n: nat) -> Seq<char> {
    seq![spec_digit_char(n / 10), spec_digit_char(n % 10)]
}

/// A one-character string for a decimal digit.
pub fn digit_str(d: u64) -> (r: &'static str)
    requires
        d < 10,
    ensures
        r@ == seq![spec_digit_char(d as nat)],
{
    let r: &'static str = if d == 0 {
        "0"
    } else if d == 1 {
        "1"
    } else if d == 2 {
        "2"
    } else if d == 3 {
        "3"
    } else if d == 4 {
        "4"
    } else if d == 5 {
        "5"
    } else if d == 6 {
        "6"
    } else if d == 7 {
        "7"
    } else if d == 8 {
        "8"
    } else {
        "9"
    };
    proof {
        reveal_strlit("0");
        reveal_strlit("1");
        reveal_strlit("2");
        reveal_strlit("3");
        reveal_strlit("4");
        reveal_strlit("5");
        reveal_strlit("6");
        reveal_strlit("7");
        reveal_strlit("8");
        reveal_strlit("9");
        assert(r@ =~= seq![spec_digit_char(d as nat)]);
    }
    r
}

/// Renders a number in decimal, without leading zeros.
pub fn u64_to_decimal(n: u64) -> (r: String)
    ensures
        r@ == spec_decimal(n as nat),
    decreases n,
{
    if n < 10 {
        digit_str(n).to_owned()
    } else {
        let mut s = u64_to_decimal(n / 10);
        s.append(digit_str(n % 10));
        s
    }
}

/// Renders a number below 100 as exactly two decimal digits.
pub fn u64_to_two_digits(n: u64) -> (r: String)
    requires
        n < 100,
    ensures
        r@ == spec_two_digits(n as nat),
{
    let mut s = digit_str(n / 10).to_owned();
    s.append(digit_str(n % 10));
    s
}

/// Decides equality of two string slices by their character sequences.
pub fn str_eq(a: &str, b: &str) -> (r: bool)
    ensures
        r == (a@ == b@),
{
    let sa: String = a.to_owned();
    let sb: String = b.to_owned();
    sa == sb
}

/// Decides whether a string occurs in a vector of strings, by exact match.
pub fn contains_string(set: &Vec<String>, s: &String) -> (r: bool)
    ensures
        r == set.deep_view().contains(s@),
{
    let n = set.len();
    let mut i: usize = 0;
    while i < n
        invariant
            n == set@.len(),
            i <= n,
            forall|k: int| 0 <= k < i ==> set.deep_view()[k] != s@,
        decreases n - i,
    {
        if set[i].eq(s) {
            proof {
                assert(set.deep_view()[i as int] == s@);
            }
            return true;
        }
        i = i + 1;
    }
    proof {
        if set.deep_view().contains(s@) {
            let w = choose|k: int| 0 <= k < set.deep_view().len() && set.deep_view()[k] == s@;
            assert(set.deep_view()[w] != s@);
        }
    }
    false
}

/// Joins a directory path and a bare entry name with a slash.
pub fn join_path(path: &String, name: &String) -> (r: String)
    ensures
        r@ == path@ + seq!['/'] + name@,
{
    let mut s = path.clone();
    s.append("/");
    s.append(name.as_str());
    proof {
        reveal_strlit("/");
        assert(s@ =~= path@ + seq!['/'] + name@);
    }
    s
}

/// The segments of a string split on a separator character: one segment
/// per stretch between separators, with empty segments kept, so that a
/// string of n separators yields n + 1 segments.
pub open spec fn spec_split_on(s: Seq<char>, sep: char) -> Seq<Seq<char>>
    decreases s.len(),
{
    if s.len() == 0 {
        seq![Seq::<char>::empty()]
    } else if s[0] == sep {
        seq![Seq::<char>::empty()] + spec_split_on(s.drop_first(), sep)
    } else {
        let rest = spec_split_on(s.drop_first(), sep);
        seq![seq![s[0]] + rest[0]] + rest.drop_first()
    }
}

/// A split always yields at least one segment.
proof fn lemma_split_on_len(s: Seq<char>, sep: char)
    ensures
        spec_split_on(s, sep).len() >= 1,
    decreases s.len(),
{
    if s.len() > 0 {
        lemma_split_on_len(s.drop_first(), sep);
    }
}

/// A string without the separator is a single segment.
proof fn lemma_split_on_none(s: Seq<char>, sep: char)
    requires
        forall|k: int| 0 <= k < s.len() ==> s[k] != sep,
    ensures
        spec_split_on(s, sep) == seq![s],
    decreases s.len(),
{
    if s.len() > 0 {
        lemma_split_on_none(s.drop_first(), sep);
        let rest = spec_split_on(s.drop_first(), sep);
        assert(seq![s[0]] + rest[0] =~= s);
        assert(seq![seq![s[0]] + rest[0]] + rest.drop_first() =~= seq![s]);
    } else {
        assert(s =~= Seq::<char>::empty());
        assert(seq![Seq::<char>::empty()] =~= seq![s]);
    }
}

/// Splitting at the first separator: the prefix before it is the first
/// segment, and the rest of the segments split the suffix after it.
proof fn lemma_split_on_first(s: Seq<char>, sep: char, i: int)
    requires
        0 <= i < s.len(),
        s[i] == sep,
        forall|k: int| 0 <= k < i ==> s[k] != sep,
    ensures
        spec_split_on(s, sep) == seq![s.subrange(0, i)] + spec_split_on(
            s.subrange(i + 1, s.len() as int),
            sep,
        ),
    decreases i,
{
    if i == 0 {
        assert(s.subrange(0, 0) =~= Seq::<char>::empty());
        assert(s.drop_first() =~= s.subrange(1, s.len() as int));
        assert(spec_split_on(s, sep) =~= seq![s.subrange(0, 0)] + spec_split_on(
            s.subrange(1, s.len() as int),
            sep,
        ));
    } else {
        let t = s.drop_first();
        assert(t[i - 1] == sep);
        lemma_split_on_first(t, sep, i - 1);
        let rest = spec_split_on(t, sep);
        let tsuf = t.subrange(i, t.len() as int);
        assert(rest == seq![t.subrange(0, i - 1)] + spec_split_on(tsuf, sep));
        lemma_split_on_len(tsuf, sep);
        assert(rest[0] == t.subrange(0, i - 1));
        assert(seq![s[0]] + rest[0] =~= s.subrange(0, i));
        assert(rest.drop_first() =~= spec_split_on(tsuf, sep));
        assert(tsuf =~= s.subrange(i + 1, s.len() as int));
        assert(spec_split_on(s, sep) =~= seq![s.subrange(0, i)] + spec_split_on(
            s.subrange(i + 1, s.len() as int),
            sep,
        ));
    }
}

/// Splits a string on a separator character, keeping empty segments.
pub fn split_on_char(s: &str, sep: char) -> (r: Vec<String>)
    ensures
        r.deep_view() == spec_split_on(s@, sep),
{
    let cs = chars_of(s);
    let n = s.unicode_len();
    let mut out: Vec<String> = Vec::new();
    let mut start: usize = 0;
    let mut i: usize = 0;
    proof {
        assert(s@.subrange(0, n as int) =~= s@);
    }
    while i < n
        invariant
            n == s@.len(),
            cs@ == s@,
            start <= i <= n,
            forall|k: int| start <= k < i ==> s@[k] != sep,
            out.deep_view() + spec_split_on(s@.subrange(start as int, n as int), sep)
                =~= spec_split_on(s@, sep),
        decreases n - i,
    {
        if cs[i] == sep {
            let seg = s.substring_char(start, i).to_owned();
            let ghost suffix = s@.subrange(start as int, n as int);
            proof {
                assert(suffix[i - start as int] == sep);
                assert(forall|k: int| 0 <= k < i - start as int ==> suffix[k] != sep);
                lemma_split_on_first(suffix, sep, i - start as int);
                assert(suffix.subrange(0, i - start as int) =~= s@.subrange(
                    start as int,
                    i as int,
                ));
                assert(suffix.subrange(i - start + 1 as int, suffix.len() as int) =~= s@.subrange(
                    i + 1 as int,
                    n as int,
                ));
            }
            let ghost pre_deep = out.deep_view();
            out.push(seg);
            proof {
                assert(out.deep_view() =~= pre_deep.push(seg@));
                assert(pre_deep.push(seg@) + spec_split_on(
                    s@.subrange(i + 1 as int, n as int),
                    sep,
                ) =~= pre_deep + (seq![seg@] + spec_split_on(
                    s@.subrange(i + 1 as int, n as int),
                    sep,
                )));
            }
            start = i + 1;
        }
        i = i + 1;
    }
    let seg = s.substring_char(start, n).to_owned();
    let ghost suffix = s@.subrange(start as int, n as int);
    proof {
        lemma_split_on_none(suffix, sep);
    }
    let ghost pre_deep = out.deep_view();
    out.push(seg);
    proof {
        assert(out.deep_view() =~= pre_deep.push(seg@));
        assert(pre_deep.push(seg@) + Seq::<Seq<char>>::empty() =~= pre_deep + seq![seg@]);
        assert(out.deep_view() =~= spec_split_on(s@, sep));
    }
    out
}

/// A string with its trailing run of one character removed.
pub open spec fn spec_trim_trailing(s: Seq<char>, c: char) -> Seq<char>
    decreases s.len(),
{
    if s.len() > 0 && s.last() == c {
        spec_trim_trailing(s.drop_last(), c)
    } else {
        s
    }
}

/// Trimming cuts exactly at the last character that differs.
proof fn lemma_trim_trailing_at(s: Seq<char>, c: char, j: int)
    requires
        0 <= j <= s.len(),
        forall|k: int| j <= k < s.len() ==> s[k] == c,
        j == 0 || s[j - 1] != c,
    ensures
        spec_trim_trailing(s, c) == s.subrange(0, j),
    decreases s.len(),
{
    if s.len() > 0 && s.last() == c {
        assert(j < s.len());
        lemma_trim_trailing_at(s.drop_last(), c, j);
        assert(s.drop_last().subrange(0, j) =~= s.subrange(0, j));
    } else {
        assert(j == s.len());
        assert(s.subrange(0, j) =~= s);
    }
}

/// Removes every trailing occurrence of one character.
pub fn trim_trailing_char(s: &str, c: char) -> (r: String)
    ensures
        r@ == spec_trim_trailing(s@, c),
{
    let cs = chars_of(s);
    let n = s.unicode_len();
    let mut j: usize = n;
    while j > 0 && cs[j - 1] == c
        invariant
            n == s@.len(),
            cs@ == s@,
            j <= n,
            forall|k: int| j <= k < n ==> s@[k] == c,
        decreases j,
    {
        j = j - 1;
    }
    proof {
        lemma_trim_trailing_at(s@, c, j as int);
    }
    s.substring_char(0, j).to_owned()
}

/// Whether a pattern occurs as a contiguous substring.
pub open spec fn spec_contains_sub(s: Seq<char>, p: Seq<char>) -> bool {
    exists|o: int|
        0 <= o && o + p.len() <= s.len() && #[trigger] s.subrange(o, o + p.len() as int) == p
}

/// Decides whether a pattern occurs as a contiguous substring, scanning
/// every offset.
pub fn contains_sub(s: &Vec<char>, p: &Vec<char>) -> (r: bool)
    ensures
        r == spec_contains_sub(s@, p@),
{
    let n = s.len();
    let m = p.len();
    if m > n {
        proof {
            if spec_contains_sub(s@, p@) {
                let o = choose|o: int|
                    0 <= o && o + p@.len() <= s@.len() && #[trigger] s@.subrange(
                        o,
                        o + p@.len() as int,
                    ) == p@;
                assert(o + p@.len() <= s@.len());
            }
        }
        return false;
    }
    let mut o: usize = 0;
    while o <= n - m
        invariant
            n == s@.len(),
            m == p@.len(),
            m <= n,
            o <= n - m + 1,
            forall|q: int|
                0 <= q < o ==> #[trigger] s@.subrange(q, q + p@.len() as int) != p@,
        decreases n - m - o + 1,
    {
        let mut k: usize = 0;
        while k < m && s[o + k] == p[k]
            invariant
                n == s@.len(),
                m == p@.len(),
                o + m <= n,
                k <= m,
                forall|q: int| 0 <= q < k ==> s@[o + q] == p@[q],
            decreases m - k,
        {
            k = k + 1;
        }
        if k == m {
            proof {
                assert(s@.subrange(o as int, o + m as int) =~= p@);
            }
            return true;
        }
        proof {
            assert(s@.subrange(o as int, o + p@.len() as int)[k as int] == s@[o + k]);
            assert(s@.subrange(o as int, o + p@.len() as int) != p@);
        }
        o = o + 1;
    }
    proof {
        if spec_contains_sub(s@, p@) {
            let w = choose|q: int|
                0 <= q && q + p@.len() <= s@.len() && #[trigger] s@.subrange(
                    q,
                    q + p@.len() as int,
                ) == p@;
            assert(s@.subrange(w, w + p@.len() as int) != p@);
        }
    }
    false
}

/// Decides whether a character occurs in a character vector.
pub fn contains_char(cs: &Vec<char>, c: char) -> (r: bool)
    ensures
        r == cs@.contains(c),
{
    let n = cs.len();
    let mut i: usize = 0;
    while i < n
        invariant
            n == cs@.len(),
            i <= n,
            forall|k: int| 0 <= k < i ==> cs@[k] != c,
        decreases n - i,
    {
        if cs[i] == c {
            return true;
        }
        i = i + 1;
    }
    false
}

/// Finds the index of the last occurrence of a character, scanning from the
/// end.
pub fn find_last_char(cs: &Vec<char>, c: char) -> (r: Option<usize>)
    ensures
        match r {
            Some(j) => cs@.index_of_last(c) == Some(j as int),
            None => cs@.index_of_last(c) is None,
        },
{
    let mut j: usize = cs.len();
    while j > 0
        invariant
            j <= cs@.len(),
            forall|k: int| j <= k < cs@.len() ==> cs@[k] != c,
        decreases j,
    {
        j = j - 1;
        if cs[j] == c {
            proof {
                cs@.index_of_last_ensures(c);
                assert(cs@.contains(c)) by {
                    assert(cs@[j as int] == c);
                }
                let i = cs@.index_of_last(c)->Some_0;
                assert(i == j as int) by {
                    if i < j as int {
                        assert(cs@[j as int] != c);
                    }
                    if i > j as int {
                        assert(cs@[i] != c);
                    }
                }
            }
            return Some(j);
        }
    }
    proof {
        cs@.index_of_last_ensures(c);
        if cs@.contains(c) {
            let w = choose|k: int| 0 <= k < cs@.len() && cs@[k] == c;
            assert(cs@[w] != c);
        }
    }
    None
}

} // verus!
