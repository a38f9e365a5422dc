//! Scanning source text: comments, identifiers, parentheses and top-level
//! separators.
use vstd::prelude::*;
use vstd::slice::slice_subrange;

use crate::text::{
    copied, find_char, first_at, is_white_space, trim, trim_start, trimmed, trimmed_start,
    white_space,
};

verus! {

/// Where a scan stands.
#[derive(Clone, Copy, PartialEq, Eq, Structural)]
pub enum Scan {
    Code,
    Quoted,
    LineComment,
    BlockComment,
}

/// The text with every comment character blanked, newlines kept and string
/// literals left alone. In a string a backslash takes the next character along.
pub open spec fn uncommented(s: Seq<char>, at: Scan) -> Seq<char>
    decreases s.len(),
{
    if s.len() == 0 {
        s
    } else {
        match at {
            Scan::Code => if s[0] == '"' {
                seq!['"'] + uncommented(s.skip(1), Scan::Quoted)
            } else if s[0] == '/' && s.len() > 1 && s[1] == '/' {
                seq![' '] + uncommented(s.skip(1), Scan::LineComment)
            } else if s[0] == '/' && s.len() > 1 && s[1] == '*' {
                seq![' ', ' '] + uncommented(s.skip(2), Scan::BlockComment)
            } else {
                seq![s[0]] + uncommented(s.skip(1), Scan::Code)
            },
            Scan::Quoted => if s[0] == '\\' && s.len() > 1 {
                seq![s[0], s[1]] + uncommented(s.skip(2), Scan::Quoted)
            } else if s[0] == '"' {
                seq![s[0]] + uncommented(s.skip(1), Scan::Code)
            } else {
                seq![s[0]] + uncommented(s.skip(1), Scan::Quoted)
            },
            Scan::LineComment => if s[0] == '\n' {
                seq!['\n'] + uncommented(s.skip(1), Scan::Code)
            } else {
                seq![' '] + uncommented(s.skip(1), Scan::LineComment)
            },
            Scan::BlockComment => if s[0] == '*' && s.len() > 1 && s[1] == '/' {
                seq![' ', ' '] + uncommented(s.skip(2), Scan::Code)
            } else if s[0] == '\n' {
                seq!['\n'] + uncommented(s.skip(1), Scan::BlockComment)
            } else {
                seq![' '] + uncommented(s.skip(1), Scan::BlockComment)
            },
        }
    }
}

/// Replace comments with spaces (preserving newlines) while respecting strings.
pub fn strip_comments(s: &[char]) -> (r: Vec<char>)
    ensures
        r@ == uncommented(s@, Scan::Code),
{
    let n: usize = s.len();
    let mut out: Vec<char> = Vec::new();
    let mut at = Scan::Code;
    let mut i: usize = 0;
    assert(s@.skip(0) =~= s@);
    assert(out@ + uncommented(s@.skip(0), at) =~= uncommented(s@, Scan::Code));
    while i < n
        invariant
            n == s@.len(),
            i <= n,
            out@ + uncommented(s@.skip(i as int), at) == uncommented(s@, Scan::Code),
        decreases n - i,
    {
        let ghost rest = s@.skip(i as int);
        let ghost before = out@;
        let ghost was = at;
        let c: char = s[i];
        let more: bool = n - i > 1;
        let next: char = if more { s[i + 1] } else { ' ' };
        assert(rest[0] == c);
        assert(more ==> rest[1] == next);
        assert(rest.skip(1) =~= s@.skip(i + 1));
        assert(more ==> rest.skip(2) =~= s@.skip(i + 2));
        match at {
            Scan::Code => {
                if c == '/' && more && next == '*' {
                    out.push(' ');
                    out.push(' ');
                    at = Scan::BlockComment;
                    i = i + 2;
                } else if c == '/' && more && next == '/' {
                    out.push(' ');
                    at = Scan::LineComment;
                    i = i + 1;
                } else {
                    out.push(c);
                    if c == '"' {
                        at = Scan::Quoted;
                    }
                    i = i + 1;
                }
            },
            Scan::Quoted => {
                out.push(c);
                if c == '\\' && more {
                    out.push(next);
                    i = i + 2;
                } else {
                    if c == '"' {
                        at = Scan::Code;
                    }
                    i = i + 1;
                }
            },
            Scan::LineComment => {
                if c == '\n' {
                    out.push('\n');
                    at = Scan::Code;
                } else {
                    out.push(' ');
                }
                i = i + 1;
            },
            Scan::BlockComment => {
                if c == '*' && more && next == '/' {
                    out.push(' ');
                    out.push(' ');
                    at = Scan::Code;
                    i = i + 2;
                } else {
                    out.push(if c == '\n' { '\n' } else { ' ' });
                    i = i + 1;
                }
            },
        }
        proof {
            let emitted = out@.skip(before.len() as int);
            assert(out@ =~= before + emitted);
            assert(uncommented(rest, was) =~= emitted + uncommented(s@.skip(i as int), at));
            assert(out@ + uncommented(s@.skip(i as int), at) =~= before + (emitted + uncommented(
                s@.skip(i as int),
                at,
            )));
        }
    }
    assert(uncommented(s@.skip(i as int), at) =~= Seq::<char>::empty());
    out
}

/// Blanking comments keeps the length and every line break, and each character is
/// kept or becomes a space.
pub proof fn comments_keep_layout(s: Seq<char>, at: Scan)
    ensures
        uncommented(s, at).len() == s.len(),
        forall|i: int|
            0 <= i < s.len() ==> uncommented(s, at)[i] == s[i] || (#[trigger] s[i] != '\n'
                && uncommented(s, at)[i] == ' '),
    decreases s.len(),
{
    if s.len() > 0 {
        let r = uncommented(s, at);
        comments_keep_layout(s.skip(1), Scan::Code);
        comments_keep_layout(s.skip(1), Scan::Quoted);
        comments_keep_layout(s.skip(1), Scan::LineComment);
        comments_keep_layout(s.skip(1), Scan::BlockComment);
        if s.len() > 1 {
            comments_keep_layout(s.skip(2), Scan::Code);
            comments_keep_layout(s.skip(2), Scan::Quoted);
            comments_keep_layout(s.skip(2), Scan::BlockComment);
        }
        assert forall|i: int| 0 <= i < s.len() implies r[i] == s[i] || (#[trigger] s[i] != '\n'
            && r[i] == ' ') by {
            if i >= 1 {
                assert(s.skip(1)[i - 1] == s[i]);
            }
            if i >= 2 {
                assert(s.skip(2)[i - 2] == s[i]);
            }
        }
    }
}

/// Whether a text has no two characters that open a comment.
pub open spec fn opens_none(s: Seq<char>) -> bool {
    forall|i: int, j: int|
        0 <= i && j == i + 1 && j < s.len() && #[trigger] s[i] == '/' ==> #[trigger] s[j] != '/'
            && s[j] != '*'
}

/// A text that opens no comment stays as it is.
pub proof fn text_without_comments_stays(s: Seq<char>, at: Scan)
    requires
        opens_none(s),
        at is Code || at is Quoted,
    ensures
        uncommented(s, at) == s,
    decreases s.len(),
{
    if s.len() > 0 {
        assert(opens_none(s.skip(1)));
        text_without_comments_stays(s.skip(1), Scan::Code);
        text_without_comments_stays(s.skip(1), Scan::Quoted);
        if s.len() > 1 {
            assert(s[0] == '/' ==> s[1] != '/' && s[1] != '*');
            assert(opens_none(s.skip(2)));
            text_without_comments_stays(s.skip(2), Scan::Quoted);
        }
        assert(uncommented(s, at) =~= s);
    }
}

/// A character that can start an identifier.
pub open spec fn ident_start(c: char) -> bool {
    ('a' <= c <= 'z') || ('A' <= c <= 'Z') || c == '_'
}

/// A character that can continue an identifier.
pub open spec fn ident_cont(c: char) -> bool {
    ident_start(c) || ('0' <= c <= '9')
}

pub fn is_ident_start(c: char) -> (r: bool)
    ensures
        r == ident_start(c),
{
    ('a' <= c && c <= 'z') || ('A' <= c && c <= 'Z') || c == '_'
}

pub fn is_ident_cont(c: char) -> (r: bool)
    ensures
        r == ident_cont(c),
{
    is_ident_start(c) || ('0' <= c && c <= '9')
}

/// The number of leading identifier characters.
pub open spec fn cont_len(s: Seq<char>) -> nat
    decreases s.len(),
{
    if s.len() > 0 && ident_cont(s[0]) {
        1 + cont_len(s.skip(1))
    } else {
        0
    }
}

/// The length of the leading identifier, 0 if there is none.
pub open spec fn ident_len(s: Seq<char>) -> nat {
    if s.len() > 0 && ident_start(s[0]) {
        1 + cont_len(s.skip(1))
    } else {
        0
    }
}

pub proof fn lemma_cont_len(s: Seq<char>)
    ensures
        cont_len(s) <= s.len(),
    decreases s.len(),
{
    if s.len() > 0 {
        lemma_cont_len(s.skip(1));
    }
}

pub proof fn lemma_ident_len(s: Seq<char>)
    ensures
        ident_len(s) <= s.len(),
{
    if s.len() > 0 {
        lemma_cont_len(s.skip(1));
    }
}

/// The end of the identifier that starts at `from`; `from` if there is none.
pub fn ident_end(s: &[char], from: usize) -> (r: usize)
    requires
        from <= s@.len(),
    ensures
        r == from + ident_len(s@.skip(from as int)),
        from <= r <= s@.len(),
{
    let n: usize = s.len();
    if from >= n || !is_ident_start(s[from]) {
        assert(from < n ==> s@.skip(from as int)[0] == s@[from as int]);
        return from;
    }
    let mut j: usize = from + 1;
    assert(s@.skip(from as int)[0] == s@[from as int]);
    assert(s@.skip(from as int).skip(1) =~= s@.skip(from + 1));
    while j < n && is_ident_cont(s[j])
        invariant
            n == s@.len(),
            from < j <= n,
            from + 1 + cont_len(s@.skip(from + 1)) == j + cont_len(s@.skip(j as int)),
        decreases n - j,
    {
        assert(s@.skip(j as int)[0] == s@[j as int]);
        assert(s@.skip(j as int).skip(1) =~= s@.skip(j + 1));
        j = j + 1;
    }
    assert(j < n ==> s@.skip(j as int)[0] == s@[j as int]);
    j
}

/// The number of leading characters that are not whitespace.
pub open spec fn word_len(s: Seq<char>) -> nat
    decreases s.len(),
{
    if s.len() > 0 && !white_space(s[0]) {
        1 + word_len(s.skip(1))
    } else {
        0
    }
}

pub proof fn lemma_word_len(s: Seq<char>)
    ensures
        word_len(s) <= s.len(),
    decreases s.len(),
{
    if s.len() > 0 {
        lemma_word_len(s.skip(1));
    }
}

/// The first whitespace-delimited word, empty if there is none.
pub open spec fn first_word(s: Seq<char>) -> Seq<char> {
    let t = trimmed_start(s);
    t.take(word_len(t) as int)
}

/// Take the first whitespace-delimited word.
pub fn first_token(s: &[char]) -> (r: Vec<char>)
    ensures
        r@ == first_word(s@),
{
    let t: &[char] = trim_start(s);
    let n: usize = t.len();
    let mut j: usize = 0;
    assert(t@.skip(0) =~= t@);
    while j < n && !is_white_space(t[j])
        invariant
            n == t@.len(),
            j <= n,
            word_len(t@) == j + word_len(t@.skip(j as int)),
        decreases n - j,
    {
        assert(t@.skip(j as int)[0] == t@[j as int]);
        assert(t@.skip(j as int).skip(1) =~= t@.skip(j + 1));
        j = j + 1;
    }
    assert(j < n ==> t@.skip(j as int)[0] == t@[j as int]);
    assert(t@.subrange(0, j as int) =~= t@.take(j as int));
    copied(slice_subrange(t, 0, j))
}

/// The position at or after `i` where the parentheses opened so far close
/// again, with `depth` of them open at `i`. String literals are skipped.
pub open spec fn paren_close(s: Seq<char>, i: int, depth: nat, quoted: bool) -> Option<int>
    decreases s.len() - i,
{
    if i < 0 || i >= s.len() {
        None
    } else if quoted {
        if s[i] == '\\' && i + 1 < s.len() {
            paren_close(s, i + 2, depth, true)
        } else {
            paren_close(s, i + 1, depth, s[i] != '"')
        }
    } else if s[i] == '"' {
        paren_close(s, i + 1, depth, true)
    } else if s[i] == '(' {
        paren_close(s, i + 1, depth + 1, false)
    } else if s[i] == ')' && depth <= 1 {
        Some(i)
    } else if s[i] == ')' {
        paren_close(s, i + 1, (depth - 1) as nat, false)
    } else {
        paren_close(s, i + 1, depth, false)
    }
}

pub proof fn lemma_paren_close(s: Seq<char>, i: int, depth: nat, quoted: bool)
    ensures
        paren_close(s, i, depth, quoted) matches Some(e) ==> i <= e < s.len() && s[e] == ')',
    decreases s.len() - i,
{
    if 0 <= i < s.len() {
        if quoted {
            if s[i] == '\\' && i + 1 < s.len() {
                lemma_paren_close(s, i + 2, depth, true);
            } else {
                lemma_paren_close(s, i + 1, depth, s[i] != '"');
            }
        } else if s[i] == '"' {
            lemma_paren_close(s, i + 1, depth, true);
        } else if s[i] == '(' {
            lemma_paren_close(s, i + 1, depth + 1, false);
        } else if s[i] == ')' && depth <= 1 {
        } else if s[i] == ')' {
            lemma_paren_close(s, i + 1, (depth - 1) as nat, false);
        } else {
            lemma_paren_close(s, i + 1, depth, false);
        }
    }
}

/// Index of the matching `)` for the `(` at `open`, or `None`.
pub fn find_matching_paren(s: &[char], open: usize) -> (r: Option<usize>)
    requires
        open < s@.len(),
        s@[open as int] == '(',
    ensures
        match r {
            Some(e) => paren_close(s@, open as int, 0, false) == Some(e as int) && open < e
                < s@.len(),
            None => paren_close(s@, open as int, 0, false) is None,
        },
{
    let n: usize = s.len();
    let mut depth: usize = 1;
    let mut quoted = false;
    let mut i: usize = open + 1;
    while i < n
        invariant
            n == s@.len(),
            open < i <= n,
            1 <= depth <= i,
            paren_close(s@, open as int, 0, false) == paren_close(
                s@,
                i as int,
                depth as nat,
                quoted,
            ),
        decreases n - i,
    {
        let c: char = s[i];
        if quoted {
            if c == '\\' && n - i > 1 {
                i = i + 2;
                continue;
            }
            quoted = c != '"';
        } else if c == '"' {
            quoted = true;
        } else if c == '(' {
            depth = depth + 1;
        } else if c == ')' {
            if depth == 1 {
                return Some(i);
            }
            depth = depth - 1;
        }
        i = i + 1;
    }
    None
}

/// The pieces of a text between occurrences of `sep` that stand outside
/// brackets and string literals. `piece` holds what came before `s` in the
/// first piece, `depth` the brackets open there.
pub open spec fn top_pieces(s: Seq<char>, sep: char, depth: int, quoted: bool, piece: Seq<char>) -> Seq<
    Seq<char>,
>
    decreases s.len(),
{
    if s.len() == 0 {
        seq![piece]
    } else if quoted {
        if s[0] == '\\' && s.len() > 1 {
            top_pieces(s.skip(2), sep, depth, true, piece + seq![s[0], s[1]])
        } else {
            top_pieces(s.skip(1), sep, depth, s[0] != '"', piece.push(s[0]))
        }
    } else if s[0] == '"' {
        top_pieces(s.skip(1), sep, depth, true, piece.push(s[0]))
    } else if s[0] == '(' || s[0] == '[' || s[0] == '{' {
        top_pieces(s.skip(1), sep, depth + 1, false, piece.push(s[0]))
    } else if s[0] == ')' || s[0] == ']' || s[0] == '}' {
        top_pieces(s.skip(1), sep, depth - 1, false, piece.push(s[0]))
    } else if s[0] == sep && depth == 0 {
        seq![piece] + top_pieces(s.skip(1), sep, depth, false, Seq::empty())
    } else {
        top_pieces(s.skip(1), sep, depth, false, piece.push(s[0]))
    }
}

/// The views of a list of texts.
pub open spec fn texts(v: Seq<Vec<char>>) -> Seq<Seq<char>> {
    v.map_values(|t: Vec<char>| t@)
}

/// Split `s` by `sep` at the top level (ignoring nesting and strings).
pub fn split_top_level(s: &[char], sep: char) -> (r: Vec<Vec<char>>)
    ensures
        texts(r@) == top_pieces(s@, sep, 0, false, Seq::empty()),
{
    let n: usize = s.len();
    let mut out: Vec<Vec<char>> = Vec::new();
    let mut piece: Vec<char> = Vec::new();
    let mut depth: i128 = 0;
    let mut quoted = false;
    let mut i: usize = 0;
    let ghost goal = top_pieces(s@, sep, 0, false, Seq::empty());
    assert(s@.skip(0) =~= s@);
    assert(piece@ =~= Seq::<char>::empty());
    assert(texts(out@) + top_pieces(s@.skip(0), sep, 0, false, piece@) =~= goal);
    while i < n
        invariant
            n == s@.len(),
            i <= n,
            -(i as int) <= depth <= i,
            texts(out@) + top_pieces(s@.skip(i as int), sep, depth as int, quoted, piece@) == goal,
        decreases n - i,
    {
        let ghost rest = s@.skip(i as int);
        let c: char = s[i];
        assert(rest[0] == c);
        assert(rest.skip(1) =~= s@.skip(i + 1));
        if quoted && c == '\\' && n - i > 1 {
            let d: char = s[i + 1];
            assert(rest[1] == d);
            assert(rest.skip(2) =~= s@.skip(i + 2));
            assert(piece@.push(c).push(d) =~= piece@ + seq![c, d]);
            piece.push(c);
            piece.push(d);
            i = i + 2;
            continue;
        }
        if quoted {
            quoted = c != '"';
            piece.push(c);
        } else if c == '"' {
            quoted = true;
            piece.push(c);
        } else if c == '(' || c == '[' || c == '{' {
            depth = depth + 1;
            piece.push(c);
        } else if c == ')' || c == ']' || c == '}' {
            depth = depth - 1;
            piece.push(c);
        } else if c == sep && depth == 0 {
            let ghost done = piece@;
            let ghost before = out@;
            out.push(piece);
            piece = Vec::new();
            assert(piece@ =~= Seq::<char>::empty());
            assert(texts(out@) =~= texts(before).push(done));
            assert(texts(before) + (seq![done] + top_pieces(
                s@.skip(i + 1),
                sep,
                depth as int,
                false,
                piece@,
            )) =~= texts(out@) + top_pieces(s@.skip(i + 1), sep, depth as int, false, piece@));
        } else {
            piece.push(c);
        }
        i = i + 1;
    }
    let ghost done = piece@;
    let ghost before = out@;
    out.push(piece);
    assert(texts(out@) =~= texts(before) + seq![done]);
    out
}

/// The file a directive names: between quotes, between angle brackets, or the
/// next word.
pub open spec fn named_file(rest: Seq<char>) -> Option<Seq<char>> {
    let t = trimmed(rest);
    if t.len() > 0 && t[0] == '"' {
        let e = first_at(t, '"', 1);
        if e < t.len() {
            Some(t.subrange(1, e))
        } else {
            None
        }
    } else if t.len() > 0 && t[0] == '<' {
        let e = first_at(t, '>', 1);
        if e < t.len() {
            Some(t.subrange(1, e))
        } else {
            None
        }
    } else if t.len() > 0 {
        Some(first_word(t))
    } else {
        None
    }
}

/// Read the file name after a file directive.
pub fn parse_file_name(rest: &[char]) -> (r: Option<Vec<char>>)
    ensures
        match r {
            Some(f) => named_file(rest@) == Some(f@),
            None => named_file(rest@) is None,
        },
{
    let t: &[char] = trim(rest);
    let n: usize = t.len();
    if n == 0 {
        return None;
    }
    if t[0] == '"' || t[0] == '<' {
        let close: char = if t[0] == '"' { '"' } else { '>' };
        let e: usize = find_char(t, close, 1);
        if e < n {
            return Some(copied(slice_subrange(t, 1, e)));
        }
        return None;
    }
    Some(first_token(t))
}

} // verus!
