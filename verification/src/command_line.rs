//! Splitting a command line, as the registry stores it, into the program and its arguments.

use vstd::prelude::*;
use crate::text::{
    chars_of, find, find_char, lemma_find_from, lemma_strip_idempotent, string_from, strip_range, trim,
    CharClass,
};

verus! {

/// The program and the arguments of `command`: surrounding white space is dropped; a program
/// in double quotes runs to the closing quote (or to the end when there is none); otherwise it
/// runs to the first space. The arguments are what follows, trimmed.
pub open spec fn spec_split_command(command: Seq<char>) -> (Seq<char>, Seq<char>) {
    let t = trim(command);
    if t.len() > 0 && t[0] == '"' {
        let quoted = t.drop_first();
        match find(quoted, '"') {
            Some(i) => (quoted.take(i), trim(quoted.skip(i + 1))),
            None => (quoted, Seq::empty()),
        }
    } else {
        match find(t, ' ') {
            Some(i) => (t.take(i), trim(t.skip(i + 1))),
            None => (t, Seq::empty()),
        }
    }
}

/// `"C:\Tools\procexp64.exe" /t` gives `("C:\Tools\procexp64.exe", "/t")`,
/// `taskmgr.exe` gives `("taskmgr.exe", "")`.
pub fn split_command(command: &str) -> (r: (String, String))
    ensures
        (r.0@, r.1@) == spec_split_command(command@),
{
    let v = chars_of(command);
    let (lo, hi) = strip_range(&v, 0, v.len(), CharClass::Whitespace);
    let ghost t = trim(command@);
    assert(v@.subrange(0, v@.len() as int) == command@);
    assert(t == v@.subrange(lo as int, hi as int));
    if lo < hi && v[lo] == '"' {
        let ghost quoted = t.drop_first();
        assert(quoted == v@.subrange(lo + 1, hi as int));
        match find_char(&v, lo + 1, hi, '"') {
            Some(j) => {
                let file = string_from(&v, lo + 1, j);
                let (a, b) = strip_range(&v, j + 1, hi, CharClass::Whitespace);
                let rest = string_from(&v, a, b);
                assert(file@ == quoted.take(j - (lo + 1)));
                assert(v@.subrange(j + 1, hi as int) == quoted.skip(j - (lo + 1) + 1));
                (file, rest)
            },
            None => {
                let file = string_from(&v, lo + 1, hi);
                (file, String::new())
            },
        }
    } else {
        match find_char(&v, lo, hi, ' ') {
            Some(j) => {
                let file = string_from(&v, lo, j);
                let (a, b) = strip_range(&v, j + 1, hi, CharClass::Whitespace);
                let rest = string_from(&v, a, b);
                assert(file@ == t.take(j - lo));
                assert(v@.subrange(j + 1, hi as int) == t.skip(j - lo + 1));
                (file, rest)
            },
            None => {
                let file = string_from(&v, lo, hi);
                (file, String::new())
            },
        }
    }
}


/// White space around a command line changes nothing, and the arguments come out trimmed.
pub proof fn law_split_command_ignores_surrounding_space(command: Seq<char>)
    ensures
        spec_split_command(trim(command)) == spec_split_command(command),
        trim(spec_split_command(command).1) == spec_split_command(command).1,
{
    lemma_strip_idempotent(command, CharClass::Whitespace);
    let t = trim(command);
    if t.len() > 0 && t[0] == '"' {
        let quoted = t.drop_first();
        match find(quoted, '"') {
            Some(i) => lemma_strip_idempotent(quoted.skip(i + 1), CharClass::Whitespace),
            None => {
                assert(trim(Seq::<char>::empty()) =~= Seq::<char>::empty());
            },
        }
    } else {
        match find(t, ' ') {
            Some(i) => lemma_strip_idempotent(t.skip(i + 1), CharClass::Whitespace),
            None => {
                assert(trim(Seq::<char>::empty()) =~= Seq::<char>::empty());
            },
        }
    }
}
proof fn lemma_find_first(s: Seq<char>, c: char, i: int)
    requires
        0 <= i < s.len(),
        s[i] == c,
        forall|j: int| 0 <= j < i ==> s[j] != c,
    ensures
        find(s, c) == Some(i),
{
    lemma_find_from(s, c, 0);
    match find(s, c) {
        Some(k) => {
            if k > i {
                assert(s[i] != c);
            }
        },
        None => {
            assert(s[i] != c);
        },
    }
}

/// A command line whose program is in double quotes: the program is what stands between the
/// quotes, and the arguments are the rest, trimmed.
pub proof fn law_quoted_program(command: Seq<char>, program: Seq<char>, rest: Seq<char>)
    requires
        trim(command) == seq!['"'] + program + seq!['"'] + rest,
        forall|j: int| 0 <= j < program.len() ==> program[j] != '"',
    ensures
        spec_split_command(command) == (program, trim(rest)),
{
    let t = trim(command);
    let quoted = t.drop_first();
    assert(quoted =~= program + seq!['"'] + rest);
    lemma_find_first(quoted, '"', program.len() as int);
    assert(quoted.take(program.len() as int) =~= program);
    assert(quoted.skip(program.len() as int + 1) =~= rest);
}

/// A command line whose program is not quoted: the program runs to the first space, and the
/// arguments are the rest, trimmed; without a space the whole trimmed line is the program.
pub proof fn law_plain_program(command: Seq<char>, program: Seq<char>, rest: Seq<char>)
    requires
        program.len() > 0,
        program[0] != '"',
        forall|j: int| 0 <= j < program.len() ==> program[j] != ' ',
    ensures
        trim(command) == program + seq![' '] + rest ==> spec_split_command(command) == (program, trim(rest)),
        trim(command) == program ==> spec_split_command(command) == (program, Seq::<char>::empty()),
{
    let t = trim(command);
    if t == program + seq![' '] + rest {
        assert(t[0] == program[0]);
        assert forall|j: int| 0 <= j < program.len() implies t[j] != ' ' by {
            assert(t[j] == program[j]);
        }
        assert(t[program.len() as int] == ' ');
        lemma_find_first(t, ' ', program.len() as int);
        assert(t.take(program.len() as int) =~= program);
        assert(t.skip(program.len() as int + 1) =~= rest);
    }
    if t == program {
        lemma_find_from(t, ' ', 0);
        if let Some(k) = find(t, ' ') {
            assert(program[k] == ' ');
        }
    }
}
} // verus!
