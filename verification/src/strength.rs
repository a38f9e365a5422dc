//! A scan for drive-strength keywords that ignores comments, string literals
//! and escaped identifiers.
use vstd::prelude::*;
use vstd::slice::slice_subrange;

use crate::text::{chars_of, is_text};

verus! {

/// Where the scan stands.
#[derive(Clone, Copy, PartialEq, Eq, Structural)]
pub enum Lexing {
    Code,
    LineComment,
    BlockComment,
    Quoted,
    Escaped,
}

/// A drive-strength keyword.
pub open spec fn strength_keyword(w: Seq<char>) -> bool {
    ||| w == "supply0"@
    ||| w == "supply1"@
    ||| w == "strong0"@
    ||| w == "strong1"@
    ||| w == "pull0"@
    ||| w == "pull1"@
    ||| w == "weak0"@
    ||| w == "weak1"@
    ||| w == "highz0"@
    ||| w == "highz1"@
}

/// A character that can start a word.
pub open spec fn word_start(c: char) -> bool {
    ('a' <= c <= 'z') || ('A' <= c <= 'Z') || c == '_' || c == '$'
}

/// A character that can continue a word.
pub open spec fn word_cont(c: char) -> bool {
    word_start(c) || ('0' <= c <= '9')
}

/// The blanks that end an escaped identifier.
pub open spec fn ascii_blank(c: char) -> bool {
    c == ' ' || c == '\t' || c == '\n' || c == '\u{c}' || c == '\r'
}

/// The number of leading word characters.
pub open spec fn word_run(s: Seq<char>) -> nat
    decreases s.len(),
{
    if s.len() > 0 && word_cont(s[0]) {
        1 + word_run(s.skip(1))
    } else {
        0
    }
}

pub proof fn lemma_word_run(s: Seq<char>)
    ensures
        word_run(s) <= s.len(),
    decreases s.len(),
{
    if s.len() > 0 {
        lemma_word_run(s.skip(1));
    }
}

/// Whether a drive-strength keyword stands in the code of a text.
pub open spec fn strength_in(s: Seq<char>, at: Lexing) -> bool
    decreases s.len(),
{
    if s.len() == 0 {
        false
    } else {
        match at {
            Lexing::Code => if s[0] == '/' && s.len() > 1 && s[1] == '/' {
                strength_in(s.skip(2), Lexing::LineComment)
            } else if s[0] == '/' && s.len() > 1 && s[1] == '*' {
                strength_in(s.skip(2), Lexing::BlockComment)
            } else if s[0] == '"' {
                strength_in(s.skip(1), Lexing::Quoted)
            } else if s[0] == '\\' {
                strength_in(s.skip(1), Lexing::Escaped)
            } else if word_start(s[0]) {
                let n = word_run(s) as int;
                proof {
                    lemma_word_run(s);
                }
                strength_keyword(s.take(n)) || strength_in(s.skip(n), Lexing::Code)
            } else {
                strength_in(s.skip(1), Lexing::Code)
            },
            Lexing::LineComment => strength_in(
                s.skip(1),
                if s[0] == '\n' {
                    Lexing::Code
                } else {
                    Lexing::LineComment
                },
            ),
            Lexing::BlockComment => if s[0] == '*' && s.len() > 1 && s[1] == '/' {
                strength_in(s.skip(2), Lexing::Code)
            } else {
                strength_in(s.skip(1), Lexing::BlockComment)
            },
            Lexing::Quoted => if s[0] == '\\' && s.len() > 1 {
                strength_in(s.skip(2), Lexing::Quoted)
            } else {
                strength_in(
                    s.skip(1),
                    if s[0] == '"' {
                        Lexing::Code
                    } else {
                        Lexing::Quoted
                    },
                )
            },
            Lexing::Escaped => strength_in(
                s.skip(1),
                if ascii_blank(s[0]) {
                    Lexing::Code
                } else {
                    Lexing::Escaped
                },
            ),
        }
    }
}

fn is_word_start(c: char) -> (r: bool)
    ensures
        r == word_start(c),
{
    ('a' <= c && c <= 'z') || ('A' <= c && c <= 'Z') || c == '_' || c == '$'
}

fn is_word_cont(c: char) -> (r: bool)
    ensures
        r == word_cont(c),
{
    is_word_start(c) || ('0' <= c && c <= '9')
}

fn is_strength_keyword(w: &[char]) -> (r: bool)
    ensures
        r == strength_keyword(w@),
{
    is_text(w, "supply0") || is_text(w, "supply1") || is_text(w, "strong0") || is_text(w, "strong1")
        || is_text(w, "pull0") || is_text(w, "pull1") || is_text(w, "weak0") || is_text(w, "weak1")
        || is_text(w, "highz0") || is_text(w, "highz1")
}

/// The end of the run of word characters at `from`.
fn word_end(s: &[char], from: usize) -> (r: usize)
    requires
        from <= s@.len(),
    ensures
        r == from + word_run(s@.skip(from as int)),
        from <= r <= s@.len(),
{
    let mut j: usize = from;
    while j < s.len() && is_word_cont(s[j])
        invariant
            from <= j <= s@.len(),
            from + word_run(s@.skip(from as int)) == j + word_run(s@.skip(j as int)),
        decreases s@.len() - j,
    {
        assert(s@.skip(j as int)[0] == s@[j as int]);
        assert(s@.skip(j as int).skip(1) =~= s@.skip(j + 1));
        j = j + 1;
    }
    assert(j < s@.len() ==> s@.skip(j as int)[0] == s@[j as int]);
    j
}

/// Whether a drive-strength keyword stands in the code of a source text.
pub fn contains_strength_keyword(source: &str) -> (r: bool)
    ensures
        r == strength_in(source@, Lexing::Code),
{
    let text: Vec<char> = chars_of(source);
    let n: usize = text.len();
    let mut at = Lexing::Code;
    let mut i: usize = 0;
    assert(text@.skip(0) =~= text@);
    while i < n
        invariant
            n == text@.len(),
            text@ == source@,
            i <= n,
            strength_in(text@, Lexing::Code) == strength_in(text@.skip(i as int), at),
        decreases n - i,
    {
        let ghost rest = text@.skip(i as int);
        let c: char = text[i];
        let more: bool = n - i > 1;
        let next: char = if more { text[i + 1] } else { ' ' };
        assert(rest[0] == c);
        assert(more ==> rest[1] == next);
        assert(rest.skip(1) =~= text@.skip(i + 1));
        assert(more ==> rest.skip(2) =~= text@.skip(i + 2));
        match at {
            Lexing::Code => {
                if c == '/' && more && next == '/' {
                    at = Lexing::LineComment;
                    i = i + 2;
                } else if c == '/' && more && next == '*' {
                    at = Lexing::BlockComment;
                    i = i + 2;
                } else if c == '"' {
                    at = Lexing::Quoted;
                    i = i + 1;
                } else if c == '\\' {
                    at = Lexing::Escaped;
                    i = i + 1;
                } else if is_word_start(c) {
                    let j: usize = word_end(text.as_slice(), i);
                    assert(rest.take(j - i) =~= text@.subrange(i as int, j as int));
                    assert(rest.skip(j - i) =~= text@.skip(j as int));
                    if is_strength_keyword(slice_subrange(text.as_slice(), i, j)) {
                        return true;
                    }
                    i = j;
                } else {
                    i = i + 1;
                }
            },
            Lexing::LineComment => {
                if c == '\n' {
                    at = Lexing::Code;
                }
                i = i + 1;
            },
            Lexing::BlockComment => {
                if c == '*' && more && next == '/' {
                    at = Lexing::Code;
                    i = i + 2;
                } else {
                    i = i + 1;
                }
            },
            Lexing::Quoted => {
                if c == '\\' && more {
                    i = i + 2;
                } else {
                    if c == '"' {
                        at = Lexing::Code;
                    }
                    i = i + 1;
                }
            },
            Lexing::Escaped => {
                if c == ' ' || c == '\t' || c == '\n' || c == '\u{c}' || c == '\r' {
                    at = Lexing::Code;
                }
                i = i + 1;
            },
        }
    }
    false
}

} // verus!
