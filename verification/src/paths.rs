//! The last name of a Windows path and that name without its extension, as
//! `Path::file_name` and `Path::file_stem` give them for Windows paths.
//! The prefixes that `std::path` knows on Windows are recognised: a drive (`C:`), a UNC share
//! (`\\server\share`), a device (`\\.\COM1`) and the verbatim forms (`\\?\C:`,
//! `\\?\UNC\server\share`, `\\?\name`). After a verbatim prefix only `\` separates
//! components and `.` is a component of its own; otherwise `\` and `/` both separate, and
//! `.` and empty components are skipped.

use vstd::prelude::*;
use crate::text::chars_of;

verus! {

pub open spec fn is_separator(c: char) -> bool {
    c == '\\' || c == '/'
}

/// A separator after a prefix: only `\` after a verbatim one.
pub open spec fn is_sep(c: char, verbatim: bool) -> bool {
    if verbatim {
        c == '\\'
    } else {
        is_separator(c)
    }
}

pub open spec fn is_ascii_letter(c: char) -> bool {
    ('a' <= c && c <= 'z') || ('A' <= c && c <= 'Z')
}

/// The first index at or after `i` holding a separator, or the length of `s`.
pub open spec fn next_sep(s: Seq<char>, i: int, verbatim: bool) -> int
    decreases s.len() - i,
{
    if i < 0 || i >= s.len() {
        s.len() as int
    } else if is_sep(s[i], verbatim) {
        i
    } else {
        next_sep(s, i + 1, verbatim)
    }
}

pub proof fn lemma_next_sep(s: Seq<char>, i: int, verbatim: bool)
    requires
        0 <= i <= s.len(),
    ensures
        i <= next_sep(s, i, verbatim) <= s.len(),
    decreases s.len() - i,
{
    if i < s.len() && !is_sep(s[i], verbatim) {
        lemma_next_sep(s, i + 1, verbatim);
    }
}

/// The prefix of a Windows path as `std::path` parses it: its length, and whether it is
/// verbatim (`\\?\`).
pub open spec fn windows_prefix(s: Seq<char>) -> (int, bool) {
    if s.len() >= 2 && is_separator(s[0]) && is_separator(s[1]) {
        if s.len() >= 4 && s[0] == '\\' && s[1] == '\\' && s[2] == '?' && s[3] == '\\' {
            if s.len() >= 8 && s[4] == 'U' && s[5] == 'N' && s[6] == 'C' && is_separator(s[7]) {
                // \\?\UNC\server\share
                let server_end = next_sep(s, 8, true);
                let share_end = next_sep(s, server_end + 1, true);
                if server_end < s.len() && share_end > server_end + 1 {
                    (share_end, true)
                } else {
                    (server_end, true)
                }
            } else if s.len() >= 6 && is_ascii_letter(s[4]) && s[5] == ':' && (s.len() == 6
                || s[6] == '\\') {
                // \\?\C:
                (6, true)
            } else {
                // \\?\name
                (next_sep(s, 4, true), true)
            }
        } else if s.len() >= 4 && s[2] == '.' && is_separator(s[3]) {
            // \\.\device
            (next_sep(s, 4, false), false)
        } else {
            // \\server\share, when both are there
            let server_end = next_sep(s, 2, false);
            let share_end = next_sep(s, server_end + 1, false);
            if server_end > 2 && server_end < s.len() && share_end > server_end + 1 {
                (share_end, false)
            } else {
                (0, false)
            }
        }
    } else if s.len() >= 2 && is_ascii_letter(s[0]) && s[1] == ':' {
        (2, false)
    } else {
        (0, false)
    }
}

pub proof fn lemma_windows_prefix(s: Seq<char>)
    ensures
        0 <= windows_prefix(s).0 <= s.len(),
{
    if s.len() >= 8 {
        lemma_next_sep(s, 8, true);
        let server_end = next_sep(s, 8, true);
        if server_end < s.len() {
            lemma_next_sep(s, server_end + 1, true);
        }
    }
    if s.len() >= 4 {
        lemma_next_sep(s, 4, true);
        lemma_next_sep(s, 4, false);
    }
    if s.len() >= 2 {
        lemma_next_sep(s, 2, false);
        let server_end = next_sep(s, 2, false);
        if server_end < s.len() {
            lemma_next_sep(s, server_end + 1, false);
        }
    }
}

/// The start of the component that ends at `j`: the nearest separator before `j`, or `lo`.
pub open spec fn segment_start(s: Seq<char>, lo: int, j: int, verbatim: bool) -> int
    decreases j - lo,
{
    if lo < j && !is_sep(s[j - 1], verbatim) {
        segment_start(s, lo, j - 1, verbatim)
    } else {
        j
    }
}

pub proof fn lemma_segment_start(s: Seq<char>, lo: int, j: int, verbatim: bool)
    ensures
        lo < j ==> lo <= segment_start(s, lo, j, verbatim) <= j,
        lo < j && !is_sep(s[j - 1], verbatim) ==> segment_start(s, lo, j, verbatim) < j,
        j <= lo ==> segment_start(s, lo, j, verbatim) == j,
    decreases j - lo,
{
    if lo < j && !is_sep(s[j - 1], verbatim) {
        lemma_segment_start(s, lo, j - 1, verbatim);
    }
}

/// The bounds of the last component of `s[lo..j]` that is not skipped: empty components are
/// skipped, and so is `.` unless the path is verbatim.
pub open spec fn last_component(s: Seq<char>, lo: int, j: int, verbatim: bool) -> Option<(int, int)>
    decreases j - lo,
{
    if j <= lo {
        None
    } else if is_sep(s[j - 1], verbatim) {
        last_component(s, lo, j - 1, verbatim)
    } else {
        let i = segment_start(s, lo, j, verbatim);
        proof {
            lemma_segment_start(s, lo, j, verbatim);
        }
        if i + 1 == j && s[i] == '.' && !verbatim {
            last_component(s, lo, i, verbatim)
        } else {
            Some((i, j))
        }
    }
}

/// `Path::file_name`: the last component after the prefix, unless it is `.` or `..` or there
/// is none.
pub open spec fn file_name(s: Seq<char>) -> Option<Seq<char>> {
    let (p, verbatim) = windows_prefix(s);
    match last_component(s, p, s.len() as int, verbatim) {
        Some((i, j)) => if (j == i + 2 && s[i] == '.' && s[i + 1] == '.') || (j == i + 1 && s[i]
            == '.') {
            None
        } else {
            Some(s.subrange(i, j))
        },
        None => None,
    }
}

/// The last index below `j` holding `c`.
pub open spec fn rfind_below(s: Seq<char>, c: char, j: int) -> Option<int>
    decreases j,
{
    if j <= 0 {
        None
    } else if s[j - 1] == c {
        Some(j - 1)
    } else {
        rfind_below(s, c, j - 1)
    }
}

/// A file name without its extension: the part before the last `.`, unless that part is empty.
pub open spec fn stem_of(name: Seq<char>) -> Seq<char> {
    match rfind_below(name, '.', name.len() as int) {
        Some(d) => if d > 0 {
            name.take(d)
        } else {
            name
        },
        None => name,
    }
}

/// `Path::file_stem`.
pub open spec fn file_stem(s: Seq<char>) -> Option<Seq<char>> {
    match file_name(s) {
        Some(name) => Some(stem_of(name)),
        None => None,
    }
}

/// The name shown for a dropped file: its file stem, or `アプリ` when it has none.
pub open spec fn spec_item_name_for_path(path: Seq<char>) -> Seq<char> {
    match file_stem(path) {
        Some(stem) => stem,
        None => "アプリ"@,
    }
}

fn is_separator_char(c: char) -> (r: bool)
    ensures
        r == is_separator(c),
{
    c == '\\' || c == '/'
}

fn is_sep_char(c: char, verbatim: bool) -> (r: bool)
    ensures
        r == is_sep(c, verbatim),
{
    if verbatim {
        c == '\\'
    } else {
        is_separator_char(c)
    }
}

fn is_ascii_letter_char(c: char) -> (r: bool)
    ensures
        r == is_ascii_letter(c),
{
    ('a' <= c && c <= 'z') || ('A' <= c && c <= 'Z')
}

/// The first index at or after `i` holding a separator, or the length of `v`.
fn next_separator(v: &Vec<char>, i: usize, verbatim: bool) -> (r: usize)
    requires
        i <= v.len(),
    ensures
        r == next_sep(v@, i as int, verbatim),
        i <= r <= v.len(),
{
    let mut k = i;
    while k < v.len() && !is_sep_char(v[k], verbatim)
        invariant
            i <= k <= v.len(),
            next_sep(v@, i as int, verbatim) == next_sep(v@, k as int, verbatim),
        decreases v.len() - k,
    {
        k = k + 1;
    }
    k
}

/// The prefix of the Windows path `v` (see `windows_prefix`).
pub fn prefix_of(v: &Vec<char>) -> (r: (usize, bool))
    ensures
        (r.0 as int, r.1) == windows_prefix(v@),
        r.0 <= v.len(),
{
    let n = v.len();
    if n >= 2 && is_separator_char(v[0]) && is_separator_char(v[1]) {
        if n >= 4 && v[0] == '\\' && v[1] == '\\' && v[2] == '?' && v[3] == '\\' {
            if n >= 8 && v[4] == 'U' && v[5] == 'N' && v[6] == 'C' && is_separator_char(v[7]) {
                let server_end = next_separator(v, 8, true);
                if server_end < n {
                    let share_end = next_separator(v, server_end + 1, true);
                    if share_end > server_end + 1 {
                        return (share_end, true);
                    }
                }
                (server_end, true)
            } else if n >= 6 && is_ascii_letter_char(v[4]) && v[5] == ':' && (n == 6 || v[6]
                == '\\') {
                (6, true)
            } else {
                (next_separator(v, 4, true), true)
            }
        } else if n >= 4 && v[2] == '.' && is_separator_char(v[3]) {
            (next_separator(v, 4, false), false)
        } else {
            let server_end = next_separator(v, 2, false);
            if server_end > 2 && server_end < n {
                let share_end = next_separator(v, server_end + 1, false);
                if share_end > server_end + 1 {
                    return (share_end, false);
                }
            }
            (0, false)
        }
    } else if n >= 2 && is_ascii_letter_char(v[0]) && v[1] == ':' {
        (2, false)
    } else {
        (0, false)
    }
}

/// The bounds, in `v`, of the file name of `v` (see `file_name`).
pub fn file_name_bounds(v: &Vec<char>) -> (r: Option<(usize, usize)>)
    ensures
        match r {
            Some((i, j)) => i <= j <= v.len() && file_name(v@) == Some(v@.subrange(i as int, j as int)),
            None => file_name(v@) is None,
        },
{
    let ghost s = v@;
    let (lo, verbatim) = prefix_of(v);
    let mut j = v.len();
    loop
        invariant
            s == v@,
            (lo as int, verbatim) == windows_prefix(s),
            lo <= v.len(),
            j <= v.len(),
            last_component(s, lo as int, s.len() as int, verbatim) == last_component(s, lo as int, j as int, verbatim),
        decreases j,
    {
        if j <= lo {
            return None;
        }
        if is_sep_char(v[j - 1], verbatim) {
            j = j - 1;
        } else {
            let mut i = j;
            while i > lo && !is_sep_char(v[i - 1], verbatim)
                invariant
                    s == v@,
                    lo <= i <= j <= v.len(),
                    segment_start(s, lo as int, j as int, verbatim) == segment_start(s, lo as int, i as int, verbatim),
                decreases i,
            {
                i = i - 1;
            }
            proof {
                lemma_segment_start(s, lo as int, j as int, verbatim);
            }
            assert(segment_start(s, lo as int, j as int, verbatim) == i);
            if i + 1 == j && v[i] == '.' && !verbatim {
                j = i;
            } else {
                if (j - i == 2 && v[i] == '.' && v[i + 1] == '.') || (j - i == 1 && v[i] == '.') {
                    return None;
                }
                return Some((i, j));
            }
        }
    }
}

/// The bounds, in `v`, of the file stem of `v` (see `file_stem`).
pub fn file_stem_bounds(v: &Vec<char>) -> (r: Option<(usize, usize)>)
    ensures
        match r {
            Some((i, j)) => i <= j <= v.len() && file_stem(v@) == Some(v@.subrange(i as int, j as int)),
            None => file_stem(v@) is None,
        },
{
    match file_name_bounds(v) {
        None => None,
        Some((i, j)) => {
            let ghost name = v@.subrange(i as int, j as int);
            let mut k = j;
            while k > i && v[k - 1] != '.'
                invariant
                    i <= k <= j <= v.len(),
                    name == v@.subrange(i as int, j as int),
                    rfind_below(name, '.', name.len() as int) == rfind_below(name, '.', k - i),
                decreases k,
            {
                k = k - 1;
            }
            if k - i > 1 {
                assert(rfind_below(name, '.', name.len() as int) == Some(k - 1 - i));
                assert(name.take(k - 1 - i) == v@.subrange(i as int, k - 1));
                Some((i, k - 1))
            } else {
                Some((i, j))
            }
        },
    }
}

/// The display name for a dropped file: its name without the extension, or `アプリ`.
pub fn item_name_for_path(path: &str) -> (r: String)
    ensures
        r@ == spec_item_name_for_path(path@),
{
    let v = chars_of(path);
    match file_stem_bounds(&v) {
        Some((i, j)) => crate::text::string_from(&v, i, j),
        None => {
            let mut s = String::new();
            crate::text::append_str(&mut s, "アプリ");
            s
        },
    }
}

} // verus!
