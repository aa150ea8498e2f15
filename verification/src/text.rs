//! Character classes and small text operations shared by the rest of the library:
//! moving between `&str`/`String` and `Vec<char>`, stripping a class of characters
//! from both ends, and finding a character.

use vstd::prelude::*;
use vstd::string::*;

verus! {

/// The characters that `char::is_whitespace` accepts: those with the Unicode
/// `White_Space` property.
pub open spec fn is_whitespace(c: char) -> bool {
    ||| ('\u{9}' <= c && c <= '\u{d}')
    ||| c == ' '
    ||| c == '\u{85}'
    ||| c == '\u{a0}'
    ||| c == '\u{1680}'
    ||| ('\u{2000}' <= c && c <= '\u{200a}')
    ||| c == '\u{2028}'
    ||| c == '\u{2029}'
    ||| c == '\u{202f}'
    ||| c == '\u{205f}'
    ||| c == '\u{3000}'
}

/// A class of characters that can be stripped from both ends of a text.
#[derive(Clone, Copy, PartialEq, Eq, Debug)]
pub enum CharClass {
    /// Unicode white space, as `str::trim` removes it.
    Whitespace,
    /// Double and single quotation marks.
    Quote,
}

pub open spec fn in_class(c: char, class: CharClass) -> bool {
    match class {
        CharClass::Whitespace => is_whitespace(c),
        CharClass::Quote => c == '"' || c == '\'',
    }
}

pub fn char_in_class(c: char, class: CharClass) -> (r: bool)
    ensures
        r == in_class(c, class),
{
    match class {
        CharClass::Whitespace => {
            ('\u{9}' <= c && c <= '\u{d}') || c == ' ' || c == '\u{85}' || c == '\u{a0}' || c
                == '\u{1680}' || ('\u{2000}' <= c && c <= '\u{200a}') || c == '\u{2028}' || c
                == '\u{2029}' || c == '\u{202f}' || c == '\u{205f}' || c == '\u{3000}'
        },
        CharClass::Quote => c == '"' || c == '\'',
    }
}

/// The first index at or after `i` whose character is not in `class` (or the length).
pub open spec fn skip_leading(s: Seq<char>, class: CharClass, i: int) -> int
    decreases s.len() - i,
{
    if 0 <= i < s.len() && in_class(s[i], class) {
        skip_leading(s, class, i + 1)
    } else {
        i
    }
}

/// The end, at or below `j` and not below `lo`, once trailing characters of `class` are dropped.
pub open spec fn skip_trailing(s: Seq<char>, class: CharClass, lo: int, j: int) -> int
    decreases j - lo,
{
    if lo < j && in_class(s[j - 1], class) {
        skip_trailing(s, class, lo, j - 1)
    } else {
        j
    }
}

/// `s` without the characters of `class` at its start and at its end.
pub open spec fn strip(s: Seq<char>, class: CharClass) -> Seq<char> {
    let lo = skip_leading(s, class, 0);
    s.subrange(lo, skip_trailing(s, class, lo, s.len() as int))
}

/// `str::trim`: `s` without leading and trailing white space.
pub open spec fn trim(s: Seq<char>) -> Seq<char> {
    strip(s, CharClass::Whitespace)
}

/// The first index at or after `i` where `c` occurs.
pub open spec fn find_from(s: Seq<char>, c: char, i: int) -> Option<int>
    decreases s.len() - i,
{
    if i < 0 || i >= s.len() {
        None
    } else if s[i] == c {
        Some(i)
    } else {
        find_from(s, c, i + 1)
    }
}

/// The first index where `c` occurs in `s`.
pub open spec fn find(s: Seq<char>, c: char) -> Option<int> {
    find_from(s, c, 0)
}

proof fn lemma_skip_leading_bounds(s: Seq<char>, class: CharClass, i: int)
    requires
        0 <= i <= s.len(),
    ensures
        i <= skip_leading(s, class, i) <= s.len(),
        forall|k: int| i <= k < skip_leading(s, class, i) ==> in_class(#[trigger] s[k], class),
        skip_leading(s, class, i) < s.len() ==> !in_class(s[skip_leading(s, class, i)], class),
    decreases s.len() - i,
{
    if i < s.len() && in_class(s[i], class) {
        lemma_skip_leading_bounds(s, class, i + 1);
    }
}

proof fn lemma_skip_trailing_bounds(s: Seq<char>, class: CharClass, lo: int, j: int)
    requires
        0 <= lo <= j <= s.len(),
    ensures
        lo <= skip_trailing(s, class, lo, j) <= j,
        forall|k: int| skip_trailing(s, class, lo, j) <= k < j ==> in_class(#[trigger] s[k], class),
        lo < skip_trailing(s, class, lo, j) ==> !in_class(s[skip_trailing(s, class, lo, j) - 1], class),
    decreases j - lo,
{
    if lo < j && in_class(s[j - 1], class) {
        lemma_skip_trailing_bounds(s, class, lo, j - 1);
    }
}

/// What stripping leaves: a piece of `s` that neither starts nor ends with a character of
/// `class`, and everything cut off on either side belongs to `class`.
pub proof fn lemma_strip_shape(s: Seq<char>, class: CharClass)
    ensures
        exists|lo: int, hi: int|
            0 <= lo <= hi <= s.len() && strip(s, class) == s.subrange(lo, hi) && (forall|k: int|
                0 <= k < lo ==> in_class(#[trigger] s[k], class)) && (forall|k: int|
                hi <= k < s.len() ==> in_class(#[trigger] s[k], class)) && (lo < hi ==> !in_class(
                s[lo],
                class,
            ) && !in_class(s[hi - 1], class)),
{
    let lo = skip_leading(s, class, 0);
    lemma_skip_leading_bounds(s, class, 0);
    let hi = skip_trailing(s, class, lo, s.len() as int);
    lemma_skip_trailing_bounds(s, class, lo, s.len() as int);
    assert(0 <= lo <= hi <= s.len() && strip(s, class) == s.subrange(lo, hi));
}

/// The characters of a `&str`, in order.
pub fn chars_of(s: &str) -> (v: Vec<char>)
    ensures
        v@ == s@,
{
    let n = s.unicode_len();
    let mut v: Vec<char> = Vec::new();
    let mut i: usize = 0;
    while i < n
        invariant
            n == s@.len(),
            i <= n,
            v@ == s@.take(i as int),
        decreases n - i,
    {
        let c = s.get_char(i);
        v.push(c);
        assert(s@.take(i + 1) == s@.take(i as int).push(c));
        i = i + 1;
    }
    assert(s@.take(n as int) == s@);
    v
}

/// `String::push`: appends one character.
#[verifier::external_body]
fn push_char(s: &mut String, c: char)
    ensures
        final(s)@ == old(s)@.push(c),
{
    s.push(c);
}

/// A `String` holding `v[lo..hi]`.
pub fn string_from(v: &Vec<char>, lo: usize, hi: usize) -> (s: String)
    requires
        lo <= hi <= v.len(),
    ensures
        s@ == v@.subrange(lo as int, hi as int),
{
    let mut s = String::new();
    let mut i = lo;
    while i < hi
        invariant
            lo <= i <= hi <= v.len(),
            s@ == v@.subrange(lo as int, i as int),
        decreases hi - i,
    {
        push_char(&mut s, v[i]);
        assert(v@.subrange(lo as int, i + 1) == v@.subrange(lo as int, i as int).push(v@[i as int]));
        i = i + 1;
    }
    s
}

/// Appends `v[lo..hi]` to `s`.
pub fn append_chars(s: &mut String, v: &Vec<char>, lo: usize, hi: usize)
    requires
        lo <= hi <= v.len(),
    ensures
        final(s)@ == old(s)@ + v@.subrange(lo as int, hi as int),
{
    let mut i = lo;
    while i < hi
        invariant
            lo <= i <= hi <= v.len(),
            s@ == old(s)@ + v@.subrange(lo as int, i as int),
        decreases hi - i,
    {
        push_char(s, v[i]);
        assert(v@.subrange(lo as int, i + 1) == v@.subrange(lo as int, i as int).push(v@[i as int]));
        i = i + 1;
    }
}

/// Appends all of `t` to `s`.
pub fn append_str(s: &mut String, t: &str)
    ensures
        final(s)@ == old(s)@ + t@,
{
    let v = chars_of(t);
    append_chars(s, &v, 0, v.len());
    assert(v@.subrange(0, v@.len() as int) == v@);
}

/// The bounds of `v[from..to]` with the characters of `class` stripped from both ends.
pub fn strip_range(v: &Vec<char>, from: usize, to: usize, class: CharClass) -> (r: (usize, usize))
    requires
        from <= to <= v.len(),
    ensures
        from <= r.0 <= r.1 <= to,
        v@.subrange(r.0 as int, r.1 as int) == strip(v@.subrange(from as int, to as int), class),
{
    let ghost sub = v@.subrange(from as int, to as int);
    let mut lo = from;
    while lo < to && char_in_class(v[lo], class)
        invariant
            from <= lo <= to <= v.len(),
            sub == v@.subrange(from as int, to as int),
            skip_leading(sub, class, 0) == skip_leading(sub, class, lo - from),
        decreases to - lo,
    {
        lo = lo + 1;
    }
    let ghost l = lo - from;
    assert(skip_leading(sub, class, 0) == l);
    let mut hi = to;
    while hi > lo && char_in_class(v[hi - 1], class)
        invariant
            from <= lo <= hi <= to <= v.len(),
            sub == v@.subrange(from as int, to as int),
            l == lo - from,
            skip_trailing(sub, class, l, sub.len() as int) == skip_trailing(sub, class, l, hi - from),
        decreases hi - lo,
    {
        hi = hi - 1;
    }
    assert(skip_trailing(sub, class, l, sub.len() as int) == hi - from);
    assert(v@.subrange(lo as int, hi as int) == sub.subrange(lo - from, hi - from));
    (lo, hi)
}

/// The first index in `v[from..to]` holding `c`, counted from the start of `v`.
pub fn find_char(v: &Vec<char>, from: usize, to: usize, c: char) -> (r: Option<usize>)
    requires
        from <= to <= v.len(),
    ensures
        match r {
            Some(j) => from <= j < to && find(v@.subrange(from as int, to as int), c) == Some(
                j - from,
            ),
            None => find(v@.subrange(from as int, to as int), c) is None,
        },
{
    let ghost sub = v@.subrange(from as int, to as int);
    let mut i = from;
    while i < to
        invariant
            from <= i <= to <= v.len(),
            sub == v@.subrange(from as int, to as int),
            find(sub, c) == find_from(sub, c, i - from),
        decreases to - i,
    {
        if v[i] == c {
            return Some(i);
        }
        i = i + 1;
    }
    None
}


/// `char::to_ascii_lowercase`.
pub open spec fn ascii_lower(c: char) -> char {
    if 'A' <= c && c <= 'Z' {
        ((c as int) + 32) as char
    } else {
        c
    }
}

pub fn to_ascii_lower(c: char) -> (r: char)
    ensures
        r == ascii_lower(c),
{
    if 'A' <= c && c <= 'Z' {
        ((c as u8) + 32) as char
    } else {
        c
    }
}

/// `str::to_ascii_lowercase`.
pub open spec fn ascii_lowercase(s: Seq<char>) -> Seq<char> {
    s.map_values(|c: char| ascii_lower(c))
}

/// `str::eq_ignore_ascii_case`.
pub open spec fn eq_ignore_ascii_case(a: Seq<char>, b: Seq<char>) -> bool {
    a.len() == b.len() && forall|i: int| 0 <= i < a.len() ==> ascii_lower(#[trigger] a[i]) == ascii_lower(b[i])
}

pub fn chars_eq_ignore_ascii_case(a: &Vec<char>, b: &Vec<char>) -> (r: bool)
    ensures
        r == eq_ignore_ascii_case(a@, b@),
{
    if a.len() != b.len() {
        return false;
    }
    let mut i: usize = 0;
    while i < a.len()
        invariant
            a.len() == b.len(),
            i <= a.len(),
            forall|k: int| 0 <= k < i ==> ascii_lower(#[trigger] a@[k]) == ascii_lower(b@[k]),
        decreases a.len() - i,
    {
        if to_ascii_lower(a[i]) != to_ascii_lower(b[i]) {
            return false;
        }
        i = i + 1;
    }
    true
}

/// Whether `s` ends with `suffix`.
pub open spec fn ends_with(s: Seq<char>, suffix: Seq<char>) -> bool {
    suffix.len() <= s.len() && s.skip(s.len() - suffix.len()) == suffix
}

/// Whether the ASCII-lowercased `v` ends with `suffix`.
pub fn lowercase_ends_with(v: &Vec<char>, suffix: &str) -> (r: bool)
    ensures
        r == ends_with(ascii_lowercase(v@), suffix@),
{
    let p = chars_of(suffix);
    let ghost low = ascii_lowercase(v@);
    if p.len() > v.len() {
        return false;
    }
    let off = v.len() - p.len();
    let mut i: usize = 0;
    while i < p.len()
        invariant
            p@ == suffix@,
            off == v.len() - p.len(),
            low == ascii_lowercase(v@),
            i <= p.len() <= v.len(),
            forall|k: int| 0 <= k < i ==> low[off + k] == #[trigger] p@[k],
        decreases p.len() - i,
    {
        if to_ascii_lower(v[off + i]) != p[i] {
            assert(low.skip(off as int)[i as int] != p@[i as int]);
            return false;
        }
        i = i + 1;
    }
    assert(low.skip(off as int) =~= p@);
    true
}

/// Whether `needle` occurs in `s` starting at `i`.
pub open spec fn occurs_at(s: Seq<char>, needle: Seq<char>, i: int) -> bool {
    0 <= i && i + needle.len() <= s.len() && s.subrange(i, i + needle.len()) == needle
}

/// `str::contains`.
pub open spec fn contains(s: Seq<char>, needle: Seq<char>) -> bool {
    exists|i: int| occurs_at(s, needle, i)
}

fn matches_at(s: &Vec<char>, needle: &Vec<char>, i: usize) -> (r: bool)
    requires
        i + needle.len() <= s.len(),
    ensures
        r == occurs_at(s@, needle@, i as int),
{
    let mut k: usize = 0;
    while k < needle.len()
        invariant
            i + needle.len() <= s.len(),
            k <= needle.len(),
            forall|m: int| 0 <= m < k ==> s@[i + m] == #[trigger] needle@[m],
        decreases needle.len() - k,
    {
        if s[i + k] != needle[k] {
            assert(s@.subrange(i as int, i + needle.len())[k as int] != needle@[k as int]);
            return false;
        }
        k = k + 1;
    }
    assert(s@.subrange(i as int, i + needle.len()) =~= needle@);
    true
}

pub fn chars_contains(s: &Vec<char>, needle: &Vec<char>) -> (r: bool)
    ensures
        r == contains(s@, needle@),
{
    if needle.len() > s.len() {
        assert forall|i: int| !occurs_at(s@, needle@, i) by {}
        return false;
    }
    let last = s.len() - needle.len();
    let mut i: usize = 0;
    loop
        invariant
            last == s.len() - needle.len(),
            needle.len() <= s.len(),
            i <= last,
            forall|m: int| 0 <= m < i ==> !occurs_at(s@, needle@, m),
        decreases last - i,
    {
        if matches_at(s, needle, i) {
            return true;
        }
        if i == last {
            assert forall|m: int| !occurs_at(s@, needle@, m) by {}
            return false;
        }
        i = i + 1;
    }
}

/// The last start below `n` at which `needle` occurs in `s`.
pub open spec fn rfind_occurrence(s: Seq<char>, needle: Seq<char>, n: int) -> Option<int>
    decreases n,
{
    if n <= 0 {
        None
    } else if occurs_at(s, needle, n - 1) {
        Some(n - 1)
    } else {
        rfind_occurrence(s, needle, n - 1)
    }
}

/// The start of the last occurrence of `needle` in `s` (as `str::rsplit_once` finds it).
pub open spec fn last_occurrence(s: Seq<char>, needle: Seq<char>) -> Option<int> {
    rfind_occurrence(s, needle, s.len() - needle.len() + 1)
}

pub fn chars_last_occurrence(s: &Vec<char>, needle: &Vec<char>) -> (r: Option<usize>)
    ensures
        match r {
            Some(i) => i + needle.len() <= s.len() && last_occurrence(s@, needle@) == Some(i as int),
            None => last_occurrence(s@, needle@) is None,
        },
{
    if needle.len() > s.len() {
        return None;
    }
    let mut n = s.len() - needle.len();
    loop
        invariant
            needle.len() <= s.len(),
            n <= s.len() - needle.len(),
            last_occurrence(s@, needle@) == rfind_occurrence(s@, needle@, n + 1),
        decreases n,
    {
        if matches_at(s, needle, n) {
            return Some(n);
        }
        if n == 0 {
            assert(rfind_occurrence(s@, needle@, 0) is None);
            return None;
        }
        n = n - 1;
    }
}

/// The decimal digits of `n`.
pub open spec fn decimal(n: nat) -> Seq<char>
    decreases n,
{
    if n < 10 {
        seq![(('0' as int) + n) as char]
    } else {
        decimal(n / 10).push((('0' as int) + (n % 10)) as char)
    }
}

/// Appends the decimal digits of `n` to `s`.
pub fn append_decimal(s: &mut String, n: usize)
    ensures
        final(s)@ == old(s)@ + decimal(n as nat),
    decreases n,
{
    if n >= 10 {
        append_decimal(s, n / 10);
    }
    let d = (n % 10) as u8;
    push_char(s, (48u8 + d) as char);
    assert(old(s)@ + decimal(n as nat) =~= (if n >= 10 { old(s)@ + decimal((n / 10) as nat) } else { old(s)@ }).push((('0' as int) + (n % 10)) as char));
}

/// Whether the ASCII-lowercased `v` is `t`.
pub fn lowercase_equals(v: &Vec<char>, t: &str) -> (r: bool)
    ensures
        r == (ascii_lowercase(v@) == t@),
{
    let n = t.unicode_len();
    if v.len() != n {
        assert(ascii_lowercase(v@).len() != t@.len());
        return false;
    }
    let r = lowercase_ends_with(v, t);
    assert(ascii_lowercase(v@).skip(0) == ascii_lowercase(v@));
    r
}

/// `str::trim`, into a new `String`.
pub fn trimmed(s: &str) -> (r: String)
    ensures
        r@ == trim(s@),
{
    let v = chars_of(s);
    let (lo, hi) = strip_range(&v, 0, v.len(), CharClass::Whitespace);
    assert(v@.subrange(0, v@.len() as int) == s@);
    string_from(&v, lo, hi)
}

/// Whether `s`, trimmed, is `t`.
pub fn trimmed_equals(s: &str, t: &str) -> (r: bool)
    ensures
        r == (trim(s@) == t@),
{
    let v = chars_of(s);
    let w = chars_of(t);
    let (lo, hi) = strip_range(&v, 0, v.len(), CharClass::Whitespace);
    assert(v@.subrange(0, v@.len() as int) == s@);
    if hi - lo != w.len() {
        assert(v@.subrange(lo as int, hi as int).len() != w@.len());
        return false;
    }
    let mut k: usize = 0;
    while k < w.len()
        invariant
            lo <= hi <= v.len(),
            hi - lo == w.len(),
            w@ == t@,
            trim(s@) == v@.subrange(lo as int, hi as int),
            k <= w.len(),
            forall|m: int| 0 <= m < k ==> v@[lo + m] == #[trigger] w@[m],
        decreases w.len() - k,
    {
        if v[lo + k] != w[k] {
            assert(v@.subrange(lo as int, hi as int)[k as int] != w@[k as int]);
            return false;
        }
        k = k + 1;
    }
    assert(v@.subrange(lo as int, hi as int) =~= w@);
    true
}

/// Characterises `rfind_occurrence`: the greatest start below `n` at which `needle` occurs.
pub proof fn lemma_rfind_occurrence(s: Seq<char>, needle: Seq<char>, n: int)
    ensures
        match rfind_occurrence(s, needle, n) {
            Some(i) => 0 <= i < n && occurs_at(s, needle, i) && forall|j: int| i < j < n ==> !occurs_at(s, needle, j),
            None => forall|j: int| 0 <= j < n ==> !occurs_at(s, needle, j),
        },
    decreases n,
{
    if n > 0 && !occurs_at(s, needle, n - 1) {
        lemma_rfind_occurrence(s, needle, n - 1);
    }
}

/// Characterises `last_occurrence`: the greatest start at which `needle` occurs in `s`.
pub proof fn lemma_last_occurrence(s: Seq<char>, needle: Seq<char>)
    ensures
        match last_occurrence(s, needle) {
            Some(i) => occurs_at(s, needle, i) && forall|j: int| i < j ==> !occurs_at(s, needle, j),
            None => forall|j: int| !occurs_at(s, needle, j),
        },
{
    lemma_rfind_occurrence(s, needle, s.len() - needle.len() + 1);
}

/// A text that trims to nothing is all white space.
pub proof fn lemma_trim_empty(s: Seq<char>)
    requires
        trim(s).len() == 0,
    ensures
        forall|k: int| 0 <= k < s.len() ==> is_whitespace(#[trigger] s[k]),
{
    lemma_strip_shape(s, CharClass::Whitespace);
    let (lo, hi) = choose|lo: int, hi: int|
        0 <= lo <= hi <= s.len() && strip(s, CharClass::Whitespace) == s.subrange(lo, hi) && (forall|k: int|
            0 <= k < lo ==> in_class(#[trigger] s[k], CharClass::Whitespace)) && (forall|k: int|
            hi <= k < s.len() ==> in_class(#[trigger] s[k], CharClass::Whitespace)) && (lo < hi ==> !in_class(
            s[lo],
            CharClass::Whitespace,
        ) && !in_class(s[hi - 1], CharClass::Whitespace));
    assert(lo == hi);
    assert forall|k: int| 0 <= k < s.len() implies is_whitespace(#[trigger] s[k]) by {
        assert(in_class(s[k], CharClass::Whitespace));
    }
}

/// Characterises `find_from`: the first index at or after `i` holding `c`.
pub proof fn lemma_find_from(s: Seq<char>, c: char, i: int)
    requires
        0 <= i,
    ensures
        match find_from(s, c, i) {
            Some(k) => i <= k < s.len() && s[k] == c && forall|j: int| i <= j < k ==> s[j] != c,
            None => forall|j: int| i <= j < s.len() ==> s[j] != c,
        },
    decreases s.len() - i,
{
    if i < s.len() && s[i] != c {
        lemma_find_from(s, c, i + 1);
    }
}

/// Stripping twice strips no more than stripping once.
pub proof fn lemma_strip_idempotent(s: Seq<char>, class: CharClass)
    ensures
        strip(strip(s, class), class) == strip(s, class),
{
    let t = strip(s, class);
    lemma_strip_shape(s, class);
    lemma_strip_shape(t, class);
    let lo = skip_leading(t, class, 0);
    lemma_skip_leading_bounds(t, class, 0);
    let hi = skip_trailing(t, class, lo, t.len() as int);
    lemma_skip_trailing_bounds(t, class, lo, t.len() as int);
    if t.len() > 0 {
        assert(!in_class(t[0], class));
        assert(lo == 0);
        assert(!in_class(t[t.len() - 1], class));
        assert(hi == t.len());
    }
    assert(strip(t, class) =~= t);
}
} // verus!
