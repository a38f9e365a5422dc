//! Laws of the texts that are scanned: drive-strength keywords, times and numbers.
use vstd::prelude::*;

use crate::strength::{strength_in, strength_keyword, word_run, Lexing};
use crate::text::{decimal, decimal_round_trip, parsed_i64, trimmed};
use crate::time::{
    display_unit, letters_at, lowered, time_spec_parts, unit_suffix_round_trip, TimeUnit,
};

verus! {

// ---- drive-strength keywords ------------------------------------------------------------------

/// Whether a text is a run of letters, digits, underscores and dollar signs.
pub open spec fn word_text(w: Seq<char>) -> bool {
    forall|i: int|
        0 <= i < w.len() ==> {
            ||| 'a' <= #[trigger] w[i] <= 'z'
            ||| 'A' <= w[i] <= 'Z'
            ||| '0' <= w[i] <= '9'
            ||| w[i] == '_'
            ||| w[i] == '$'
        }
}

/// Whether a text goes on with a letter, a digit, an underscore or a dollar sign.
pub open spec fn goes_on(s: Seq<char>) -> bool {
    s.len() > 0 && word_text(s.take(1))
}

/// A word of the code, taken as a whole, is found if it is a keyword; otherwise the scan goes on
/// behind it.
pub proof fn whole_words_are_compared(w: Seq<char>, rest: Seq<char>)
    requires
        w.len() > 0,
        word_text(w),
        !('0' <= w[0] <= '9'),
        !goes_on(rest),
    ensures
        strength_in(w + rest, Lexing::Code) <==> strength_keyword(w) || strength_in(
            rest,
            Lexing::Code,
        ),
{
    let s = w + rest;
    lemma_word_run_of(w, rest);
    assert(s[0] == w[0]);
    assert(s.take(w.len() as int) =~= w);
    assert(s.skip(w.len() as int) =~= rest);
}

proof fn lemma_word_run_of(w: Seq<char>, rest: Seq<char>)
    requires
        word_text(w),
        !goes_on(rest),
    ensures
        word_run(w + rest) == w.len(),
    decreases w.len(),
{
    let s = w + rest;
    if w.len() > 0 {
        assert(s[0] == w[0]);
        assert(s.skip(1) =~= w.skip(1) + rest);
        assert forall|i: int| 0 <= i < w.skip(1).len() implies ({
            ||| 'a' <= #[trigger] w.skip(1)[i] <= 'z'
            ||| 'A' <= w.skip(1)[i] <= 'Z'
            ||| '0' <= w.skip(1)[i] <= '9'
            ||| w.skip(1)[i] == '_'
            ||| w.skip(1)[i] == '$'
        }) by {
            assert(w.skip(1)[i] == w[i + 1]);
        }
        lemma_word_run_of(w.skip(1), rest);
    } else {
        assert(s =~= rest);
        if rest.len() > 0 {
            assert(rest.take(1)[0] == rest[0]);
        }
    }
}

/// A line comment is passed over up to the end of its line.
pub proof fn line_comments_are_passed_over(c: Seq<char>, rest: Seq<char>)
    requires
        !c.contains('\n'),
    ensures
        strength_in(seq!['/', '/'] + c + seq!['\n'] + rest, Lexing::Code) == strength_in(
            rest,
            Lexing::Code,
        ),
        !strength_in(seq!['/', '/'] + c, Lexing::Code),
{
    lemma_line(c, seq!['\n'] + rest);
    let tail = seq!['\n'] + rest;
    assert(tail.skip(1) =~= rest);
    let s = seq!['/', '/'] + c + seq!['\n'] + rest;
    assert(s.skip(2) =~= c + tail);
    lemma_line(c, Seq::empty());
    let t = seq!['/', '/'] + c;
    assert(t.skip(2) =~= c + Seq::<char>::empty());
}

proof fn lemma_line(c: Seq<char>, tail: Seq<char>)
    requires
        !c.contains('\n'),
    ensures
        strength_in(c + tail, Lexing::LineComment) == strength_in(tail, Lexing::LineComment),
    decreases c.len(),
{
    if c.len() > 0 {
        assert(c.contains(c[0]));
        assert((c + tail).skip(1) =~= c.skip(1) + tail);
        assert forall|x: char| c.skip(1).contains(x) implies c.contains(x) by {
            let i = choose|i: int| 0 <= i < c.skip(1).len() && c.skip(1)[i] == x;
            assert(c[i + 1] == x);
        }
        lemma_line(c.skip(1), tail);
    } else {
        assert(c + tail =~= tail);
    }
}

/// A block comment is passed over up to the first end of it.
pub proof fn block_comments_are_passed_over(c: Seq<char>, rest: Seq<char>)
    requires
        forall|i: int| 0 <= i < c.len() && #[trigger] c[i] == '*' ==> i + 1 < c.len() && c[i + 1] != '/',
    ensures
        strength_in(seq!['/', '*'] + c + seq!['*', '/'] + rest, Lexing::Code) == strength_in(
            rest,
            Lexing::Code,
        ),
{
    let tail = seq!['*', '/'] + rest;
    lemma_block(c, tail);
    assert(tail.skip(2) =~= rest);
    let s = seq!['/', '*'] + c + seq!['*', '/'] + rest;
    assert(s.skip(2) =~= c + tail);
}

proof fn lemma_block(c: Seq<char>, tail: Seq<char>)
    requires
        forall|i: int| 0 <= i < c.len() && #[trigger] c[i] == '*' ==> i + 1 < c.len() && c[i + 1] != '/',
    ensures
        strength_in(c + tail, Lexing::BlockComment) == strength_in(tail, Lexing::BlockComment),
    decreases c.len(),
{
    if c.len() > 0 {
        let s = c + tail;
        assert(s[0] == c[0]);
        assert(c[0] == '*' ==> s[1] == c[1]);
        assert(s.skip(1) =~= c.skip(1) + tail);
        assert forall|i: int| 0 <= i < c.skip(1).len() && #[trigger] c.skip(1)[i] == '*' implies i + 1
            < c.skip(1).len() && c.skip(1)[i + 1] != '/' by {
            assert(c[i + 1] == '*');
        }
        lemma_block(c.skip(1), tail);
    } else {
        assert(c + tail =~= tail);
    }
}

/// A string literal is passed over up to its closing quote, and a quote behind a backslash does
/// not close it.
pub proof fn string_literals_are_passed_over(c: Seq<char>, d: Seq<char>, e: char, rest: Seq<char>)
    requires
        !c.contains('"'),
        !c.contains('\\'),
        !d.contains('"'),
        !d.contains('\\'),
    ensures
        strength_in(seq!['"'] + c + seq!['"'] + rest, Lexing::Code) == strength_in(
            rest,
            Lexing::Code,
        ),
        strength_in(
            seq!['"'] + c + seq!['\\', e] + d + seq!['"'] + rest,
            Lexing::Code,
        ) == strength_in(rest, Lexing::Code),
{
    let end = seq!['"'] + rest;
    assert(end.skip(1) =~= rest);
    lemma_quoted(c, end);
    let s = seq!['"'] + c + seq!['"'] + rest;
    assert(s.skip(1) =~= c + end);
    lemma_quoted(d, end);
    let tail = seq!['\\', e] + (d + end);
    lemma_quoted(c, tail);
    assert(tail.skip(2) =~= d + end);
    let t = seq!['"'] + c + seq!['\\', e] + d + seq!['"'] + rest;
    assert(t.skip(1) =~= c + tail);
}

proof fn lemma_quoted(c: Seq<char>, tail: Seq<char>)
    requires
        !c.contains('"'),
        !c.contains('\\'),
    ensures
        strength_in(c + tail, Lexing::Quoted) == strength_in(tail, Lexing::Quoted),
    decreases c.len(),
{
    if c.len() > 0 {
        assert(c.contains(c[0]));
        assert((c + tail).skip(1) =~= c.skip(1) + tail);
        assert forall|x: char| c.skip(1).contains(x) implies c.contains(x) by {
            let i = choose|i: int| 0 <= i < c.skip(1).len() && c.skip(1)[i] == x;
            assert(c[i + 1] == x);
        }
        lemma_quoted(c.skip(1), tail);
    } else {
        assert(c + tail =~= tail);
    }
}

/// An escaped identifier is passed over up to the blank behind it.
pub proof fn escaped_identifiers_are_passed_over(c: Seq<char>, blank: char, rest: Seq<char>)
    requires
        blank == ' ' || blank == '\t' || blank == '\n' || blank == '\r',
        forall|i: int| 0 <= i < c.len() ==> '!' <= #[trigger] c[i] <= '~',
    ensures
        strength_in(seq!['\\'] + c + seq![blank] + rest, Lexing::Code) == strength_in(
            rest,
            Lexing::Code,
        ),
{
    let tail = seq![blank] + rest;
    assert(tail.skip(1) =~= rest);
    lemma_escaped(c, tail);
    let s = seq!['\\'] + c + seq![blank] + rest;
    assert(s.skip(1) =~= c + tail);
}

proof fn lemma_escaped(c: Seq<char>, tail: Seq<char>)
    requires
        forall|i: int| 0 <= i < c.len() ==> '!' <= #[trigger] c[i] <= '~',
    ensures
        strength_in(c + tail, Lexing::Escaped) == strength_in(tail, Lexing::Escaped),
    decreases c.len(),
{
    if c.len() > 0 {
        assert((c + tail)[0] == c[0]);
        assert((c + tail).skip(1) =~= c.skip(1) + tail);
        assert forall|i: int| 0 <= i < c.skip(1).len() implies '!' <= #[trigger] c.skip(1)[i]
            <= '~' by {
            assert(c.skip(1)[i] == c[i + 1]);
        }
        lemma_escaped(c.skip(1), tail);
    } else {
        assert(c + tail =~= tail);
    }
}

/// Any other character of the code is passed over by itself.
pub proof fn other_characters_are_passed_over(c: char, rest: Seq<char>)
    requires
        !word_text(seq![c]) || '0' <= c <= '9',
        c != '"',
        c != '\\',
        c != '/' || rest.len() == 0 || (rest[0] != '/' && rest[0] != '*'),
    ensures
        strength_in(seq![c] + rest, Lexing::Code) == strength_in(rest, Lexing::Code),
{
    let s = seq![c] + rest;
    assert(s.skip(1) =~= rest);
    assert(seq![c][0] == c);
}

// ---- times --------------------------------------------------------------------------------------

/// A femtosecond is one, and each larger unit is a thousand of the unit before it.
pub proof fn units_are_a_thousand_apart()
    ensures
        TimeUnit::Fs.femtoseconds() == 1,
        TimeUnit::Ps.femtoseconds() == 1000 * TimeUnit::Fs.femtoseconds(),
        TimeUnit::Ns.femtoseconds() == 1000 * TimeUnit::Ps.femtoseconds(),
        TimeUnit::Us.femtoseconds() == 1000 * TimeUnit::Ns.femtoseconds(),
        TimeUnit::Ms.femtoseconds() == 1000 * TimeUnit::Us.femtoseconds(),
        TimeUnit::S.femtoseconds() == 1000 * TimeUnit::Ms.femtoseconds(),
{
}

/// A time other than zero is printed in the largest unit of which it is a whole number, and zero
/// in femtoseconds.
pub proof fn times_are_printed_in_the_largest_unit(fs: nat, unit: TimeUnit)
    ensures
        fs > 0 && fs % unit.femtoseconds() == 0 ==> unit.femtoseconds() <= display_unit(
            fs,
        ).femtoseconds(),
        fs % display_unit(fs).femtoseconds() == 0,
        display_unit(0) == TimeUnit::Fs,
{
}

/// A count followed by the suffix of a unit is read as the count and the unit.
pub proof fn written_times_are_read(n: nat, unit: TimeUnit)
    ensures
        time_spec_parts(decimal(n) + unit.name()) == Some((decimal(n), unit)),
{
    reveal_strlit("fs");
    reveal_strlit("ps");
    reveal_strlit("ns");
    reveal_strlit("us");
    reveal_strlit("ms");
    reveal_strlit("s");
    decimal_round_trip(n);
    let d = decimal(n);
    let u = unit.name();
    let s = d + u;
    assert(s[0] == d[0]);
    assert(s.last() == u.last());
    assert(trimmed(s) == s);
    assert(lowered(s) =~= s);
    lemma_letters(d, u);
    assert(s.skip(d.len() as int) =~= u);
    assert(s.take(d.len() as int) =~= d);
    assert(trimmed(d) == d);
    unit_suffix_round_trip(unit);
}

proof fn lemma_letters(d: Seq<char>, u: Seq<char>)
    requires
        forall|i: int| 0 <= i < d.len() ==> '0' <= #[trigger] d[i] <= '9',
        u.len() > 0,
        'a' <= u[0] <= 'z',
    ensures
        letters_at(d + u) == d.len(),
    decreases d.len(),
{
    if d.len() > 0 {
        assert((d + u)[0] == d[0]);
        assert((d + u).drop_first() =~= d.drop_first() + u);
        assert forall|i: int| 0 <= i < d.drop_first().len() implies '0'
            <= #[trigger] d.drop_first()[i] <= '9' by {
            assert(d.drop_first()[i] == d[i + 1]);
        }
        lemma_letters(d.drop_first(), u);
    } else {
        assert(d + u =~= u);
    }
}

/// The decimal text of a number is read as the number, behind a minus sign as its negative, and
/// a number out of range is refused.
pub proof fn written_numbers_are_read(n: nat)
    ensures
        n <= i64::MAX ==> parsed_i64(decimal(n)) == Some(n as int),
        n > i64::MAX ==> parsed_i64(decimal(n)) is None,
        -n >= i64::MIN ==> parsed_i64(seq!['-'] + decimal(n)) == Some(-n),
        -n < i64::MIN ==> parsed_i64(seq!['-'] + decimal(n)) is None,
        n <= i64::MAX ==> parsed_i64(seq!['+'] + decimal(n)) == Some(n as int),
{
    decimal_round_trip(n);
    let d = decimal(n);
    assert(d[0] != '-');
    assert((seq!['-'] + d).drop_first() =~= d);
    assert((seq!['+'] + d).drop_first() =~= d);
}

} // verus!
