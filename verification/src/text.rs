//! Character-level text handling: whitespace, case, splitting and decimal
//! numbers, over sequences of characters.
use vstd::prelude::*;
use vstd::slice::slice_subrange;

verus! {

/// `String::push` appends one character at the end.
pub assume_specification[ String::push ](s: &mut String, c: char)
    ensures
        final(s)@ == old(s)@.push(c),
;

/// The characters with the Unicode property `White_Space`.
pub open spec fn white_space(c: char) -> bool {
    ||| '\u{9}' <= c <= '\u{d}'
    ||| c == ' '
    ||| c == '\u{85}'
    ||| c == '\u{a0}'
    ||| c == '\u{1680}'
    ||| '\u{2000}' <= c <= '\u{200a}'
    ||| c == '\u{2028}'
    ||| c == '\u{2029}'
    ||| c == '\u{202f}'
    ||| c == '\u{205f}'
    ||| c == '\u{3000}'
}

/// Whether a character is Unicode whitespace.
pub fn is_white_space(c: char) -> (r: bool)
    ensures
        r == white_space(c),
{
    ('\u{9}' <= c && c <= '\u{d}') || c == ' ' || c == '\u{85}' || c == '\u{a0}' || c == '\u{1680}'
        || ('\u{2000}' <= c && c <= '\u{200a}') || c == '\u{2028}' || c == '\u{2029}' || c
        == '\u{202f}' || c == '\u{205f}' || c == '\u{3000}'
}

/// The text without its leading whitespace.
pub open spec fn trimmed_start(s: Seq<char>) -> Seq<char>
    decreases s.len(),
{
    if s.len() > 0 && white_space(s[0]) {
        trimmed_start(s.drop_first())
    } else {
        s
    }
}

/// The text without its trailing whitespace.
pub open spec fn trimmed_end(s: Seq<char>) -> Seq<char>
    decreases s.len(),
{
    if s.len() > 0 && white_space(s.last()) {
        trimmed_end(s.drop_last())
    } else {
        s
    }
}

/// The text without surrounding whitespace.
pub open spec fn trimmed(s: Seq<char>) -> Seq<char> {
    trimmed_end(trimmed_start(s))
}

/// The part of the text that remains without leading whitespace.
pub fn trim_start(s: &[char]) -> (r: &[char])
    ensures
        r@ == trimmed_start(s@),
{
    let n: usize = s.len();
    let mut lo: usize = 0;
    assert(s@.subrange(0, n as int) =~= s@);
    while lo < n && is_white_space(s[lo])
        invariant
            n == s@.len(),
            lo <= n,
            trimmed_start(s@.subrange(lo as int, n as int)) == trimmed_start(s@),
        decreases n - lo,
    {
        let ghost t = s@.subrange(lo as int, n as int);
        assert(t.drop_first() =~= s@.subrange(lo + 1, n as int));
        lo = lo + 1;
    }
    let ghost t = s@.subrange(lo as int, n as int);
    assert(lo < n ==> t[0] == s@[lo as int]);
    slice_subrange(s, lo, n)
}

/// The part of the text that remains without trailing whitespace.
pub fn trim_end(s: &[char]) -> (r: &[char])
    ensures
        r@ == trimmed_end(s@),
{
    let mut hi: usize = s.len();
    assert(s@.subrange(0, hi as int) =~= s@);
    while hi > 0 && is_white_space(s[hi - 1])
        invariant
            hi <= s@.len(),
            trimmed_end(s@.subrange(0, hi as int)) == trimmed_end(s@),
        decreases hi,
    {
        let ghost t = s@.subrange(0, hi as int);
        assert(t.drop_last() =~= s@.subrange(0, hi - 1));
        hi = hi - 1;
    }
    let ghost t = s@.subrange(0, hi as int);
    assert(hi > 0 ==> t.last() == s@[hi - 1]);
    slice_subrange(s, 0, hi)
}

/// The part of the text that remains without surrounding whitespace.
pub fn trim(s: &[char]) -> (r: &[char])
    ensures
        r@ == trimmed(s@),
{
    trim_end(trim_start(s))
}

/// The ASCII lower-case counterpart of an ASCII capital; other characters stay.
pub open spec fn ascii_lower(c: char) -> char {
    if 'A' <= c <= 'Z' {
        (c as u8 + 32) as char
    } else {
        c
    }
}

/// Lower an ASCII capital.
pub fn to_ascii_lower(c: char) -> (r: char)
    ensures
        r == ascii_lower(c),
{
    if 'A' <= c && c <= 'Z' {
        (c as u8 + 32) as char
    } else {
        c
    }
}

/// The position of the first `c` at or after `from`, or the length.
pub open spec fn first_at(s: Seq<char>, c: char, from: int) -> int
    decreases s.len() - from,
{
    if 0 <= from < s.len() {
        if s[from] == c {
            from
        } else {
            first_at(s, c, from + 1)
        }
    } else {
        s.len() as int
    }
}

/// Find the first `c` at or after `from`.
pub fn find_char(s: &[char], c: char, from: usize) -> (r: usize)
    requires
        from <= s@.len(),
    ensures
        r == first_at(s@, c, from as int),
        from <= r <= s@.len(),
        r < s@.len() ==> s@[r as int] == c,
        forall|k: int| from <= k < r ==> s@[k] != c,
{
    let mut i: usize = from;
    while i < s.len() && s[i] != c
        invariant
            from <= i <= s@.len(),
            first_at(s@, c, i as int) == first_at(s@, c, from as int),
            forall|k: int| from <= k < i ==> s@[k] != c,
        decreases s@.len() - i,
    {
        i = i + 1;
    }
    i
}

/// The number a decimal digit stands for.
pub open spec fn digit_value(c: char) -> nat {
    (c as int - '0' as int) as nat
}

/// One or more decimal digits.
pub open spec fn all_digits(s: Seq<char>) -> bool {
    s.len() > 0 && forall|i: int| 0 <= i < s.len() ==> '0' <= #[trigger] s[i] <= '9'
}

/// The number a sequence of decimal digits stands for.
pub open spec fn digits_value(s: Seq<char>) -> nat
    decreases s.len(),
{
    if s.len() == 0 {
        0
    } else {
        digits_value(s.drop_last()) * 10 + digit_value(s.last())
    }
}

/// The text without one leading `+`.
pub open spec fn without_plus(s: Seq<char>) -> Seq<char> {
    if s.len() > 0 && s[0] == '+' {
        s.drop_first()
    } else {
        s
    }
}

/// An unsigned decimal number of at most `max`, optionally after a `+`.
pub open spec fn parsed_unsigned(s: Seq<char>, max: nat) -> Option<nat> {
    let body = without_plus(s);
    if all_digits(body) && digits_value(body) <= max {
        Some(digits_value(body))
    } else {
        None
    }
}

/// A signed decimal number in the `i64` range, optionally after a sign.
pub open spec fn parsed_i64(s: Seq<char>) -> Option<int> {
    let negative = s.len() > 0 && s[0] == '-';
    let body = if negative {
        s.drop_first()
    } else {
        without_plus(s)
    };
    let n = if negative {
        -(digits_value(body) as int)
    } else {
        digits_value(body) as int
    };
    if all_digits(body) && i64::MIN <= n <= i64::MAX {
        Some(n)
    } else {
        None
    }
}

proof fn lemma_digits_grow(s: Seq<char>, k: int)
    requires
        0 <= k <= s.len(),
    ensures
        digits_value(s.take(k)) <= digits_value(s),
    decreases s.len(),
{
    if k == s.len() {
        assert(s.take(k) =~= s);
    } else {
        lemma_digits_grow(s.drop_last(), k);
        assert(s.drop_last().take(k) =~= s.take(k));
    }
}

/// The number that decimal digits stand for; `None` unless the text is one or
/// more digits standing for at most `max`.
pub open spec fn digits_number(s: Seq<char>, max: nat) -> Option<nat> {
    if all_digits(s) && digits_value(s) <= max {
        Some(digits_value(s))
    } else {
        None
    }
}

/// Read decimal digits as a number.
pub fn parse_digits(s: &[char], max: u64) -> (r: Option<u64>)
    ensures
        match r {
            Some(n) => digits_number(s@, max as nat) == Some(n as nat) && n <= max,
            None => digits_number(s@, max as nat) is None,
        },
{
    if s.len() == 0 {
        return None;
    }
    let mut n: u64 = 0;
    let mut i: usize = 0;
    while i < s.len()
        invariant
            i <= s@.len(),
            n == digits_value(s@.take(i as int)),
            n <= max,
            forall|k: int| 0 <= k < i ==> '0' <= #[trigger] s@[k] <= '9',
        decreases s@.len() - i,
    {
        let c: char = s[i];
        if !('0' <= c && c <= '9') {
            return None;
        }
        let d: u64 = (c as u32 - '0' as u32) as u64;
        proof {
            let t = s@.take(i + 1);
            assert(t.drop_last() =~= s@.take(i as int));
            lemma_digits_grow(s@, i + 1);
        }
        if n > (max / 10) {
            return None;
        }
        let m: u64 = n * 10;
        if d > max - m {
            return None;
        }
        n = m + d;
        i = i + 1;
    }
    assert(s@.take(i as int) =~= s@);
    Some(n)
}

/// Read an unsigned decimal number of at most `max`, optionally after a `+`.
pub fn parse_unsigned(s: &[char], max: u64) -> (r: Option<u64>)
    ensures
        match r {
            Some(n) => parsed_unsigned(s@, max as nat) == Some(n as nat) && n <= max,
            None => parsed_unsigned(s@, max as nat) is None,
        },
{
    if s.len() > 0 && s[0] == '+' {
        assert(s@.subrange(1, s@.len() as int) =~= s@.drop_first());
        parse_digits(slice_subrange(s, 1, s.len()), max)
    } else {
        parse_digits(s, max)
    }
}

/// Read a signed decimal number, optionally after a sign.
pub fn parse_i64(s: &[char]) -> (r: Option<i64>)
    ensures
        match r {
            Some(n) => parsed_i64(s@) == Some(n as int),
            None => parsed_i64(s@) is None,
        },
{
    if s.len() > 0 && s[0] == '-' {
        assert(s@.subrange(1, s@.len() as int) =~= s@.drop_first());
        match parse_digits(slice_subrange(s, 1, s.len()), 0x8000_0000_0000_0000) {
            Some(n) => Some((0 - n as i128) as i64),
            None => None,
        }
    } else {
        match parse_unsigned(s, 0x7fff_ffff_ffff_ffff) {
            Some(n) => Some(n as i64),
            None => None,
        }
    }
}

/// The decimal digit for a number below ten.
pub open spec fn digit_char(d: nat) -> char {
    ('0' as nat + d) as char
}

/// The decimal rendering of a number.
pub open spec fn decimal(n: nat) -> Seq<char>
    decreases n,
{
    if n < 10 {
        seq![digit_char(n)]
    } else {
        decimal(n / 10).push(digit_char(n % 10))
    }
}

/// Append the decimal rendering of a number.
pub fn push_decimal(out: &mut String, n: u64)
    ensures
        final(out)@ == old(out)@ + decimal(n as nat),
    decreases n,
{
    let d: u8 = (n % 10) as u8;
    if n >= 10 {
        push_decimal(out, n / 10);
    }
    out.push((48u8 + d) as char);
    assert(out@ =~= old(out)@ + decimal(n as nat));
}

/// The decimal rendering of a number.
pub fn number_text(n: u64) -> (r: String)
    ensures
        r@ == decimal(n as nat),
{
    let mut out = String::new();
    push_decimal(&mut out, n);
    assert(out@ =~= decimal(n as nat));
    out
}

/// Rendering a number and reading it back gives the number.
pub proof fn decimal_round_trip(n: nat)
    ensures
        all_digits(decimal(n)),
        digits_value(decimal(n)) == n,
        without_plus(decimal(n)) == decimal(n),
    decreases n,
{
    let s = decimal(n);
    if n < 10 {
        assert(s.drop_last() =~= Seq::<char>::empty());
        assert(digits_value(s.drop_last()) == 0);
    } else {
        decimal_round_trip(n / 10);
        assert(s.drop_last() =~= decimal(n / 10));
        assert forall|i: int| 0 <= i < s.len() implies '0' <= #[trigger] s[i] <= '9' by {
            if i < s.len() - 1 {
                assert(s[i] == decimal(n / 10)[i]);
            }
        }
    }
}

/// The characters of a string.
pub fn chars_of(s: &str) -> (r: Vec<char>)
    ensures
        r@ == s@,
{
    let mut out: Vec<char> = Vec::new();
    for c in it: s.chars()
        invariant
            out@ == it.seq().take(it.index()),
            it.seq() == s@,
    {
        out.push(c);
    }
    assert(out@ =~= s@);
    out
}

/// The string of a sequence of characters.
pub fn string_of(s: &[char]) -> (r: String)
    ensures
        r@ == s@,
{
    let mut out = String::new();
    let mut i: usize = 0;
    while i < s.len()
        invariant
            i <= s@.len(),
            out@ == s@.take(i as int),
        decreases s@.len() - i,
    {
        out.push(s[i]);
        i = i + 1;
        assert(out@ =~= s@.take(i as int));
    }
    assert(out@ =~= s@);
    out
}

/// Whether two strings hold the same characters.
pub fn str_eq(a: &str, b: &str) -> (r: bool)
    ensures
        r == (a@ == b@),
{
    let x: String = a.to_owned();
    let y: String = b.to_owned();
    x == y
}

/// Whether characters spell a string.
pub fn is_text(v: &[char], s: &str) -> (r: bool)
    ensures
        r == (v@ == s@),
{
    let t: Vec<char> = chars_of(s);
    same_chars(v, t.as_slice())
}

/// Whether two texts hold the same characters.
pub fn same_chars(a: &[char], b: &[char]) -> (r: bool)
    ensures
        r == (a@ == b@),
{
    if a.len() != b.len() {
        return false;
    }
    let mut i: usize = 0;
    while i < a.len()
        invariant
            i <= a@.len(),
            a@.len() == b@.len(),
            forall|k: int| 0 <= k < i ==> a@[k] == b@[k],
        decreases a@.len() - i,
    {
        if a[i] != b[i] {
            return false;
        }
        i = i + 1;
    }
    assert(a@ =~= b@);
    true
}

/// A text of its own with the same characters.
pub fn copied(s: &[char]) -> (r: Vec<char>)
    ensures
        r@ == s@,
{
    let mut out: Vec<char> = Vec::new();
    push_all(&mut out, s);
    assert(out@ =~= s@);
    out
}

/// Append characters at the end.
pub fn push_all(out: &mut Vec<char>, s: &[char])
    ensures
        final(out)@ == old(out)@ + s@,
{
    let mut i: usize = 0;
    assert(out@ =~= old(out)@ + s@.take(0));
    while i < s.len()
        invariant
            i <= s@.len(),
            out@ == old(out)@ + s@.take(i as int),
        decreases s@.len() - i,
    {
        out.push(s[i]);
        i = i + 1;
        assert(out@ =~= old(out)@ + s@.take(i as int));
    }
    assert(s@.take(i as int) =~= s@);
}

/// Append the characters of a string.
pub fn push_str(out: &mut Vec<char>, s: &str)
    ensures
        final(out)@ == old(out)@ + s@,
{
    let t: Vec<char> = chars_of(s);
    push_all(out, t.as_slice());
}

/// Append the decimal rendering of a number.
pub fn push_number(out: &mut Vec<char>, n: u64)
    ensures
        final(out)@ == old(out)@ + decimal(n as nat),
{
    let t: String = number_text(n);
    push_str(out, t.as_str());
}

/// The text with every occurrence of `pat` replaced, left to right and without
/// overlap.
pub open spec fn replaced(s: Seq<char>, pat: Seq<char>, with: Seq<char>) -> Seq<char>
    decreases s.len(),
{
    if s.len() == 0 {
        s
    } else if pat.len() > 0 && pat.is_prefix_of(s) {
        with + replaced(s.skip(pat.len() as int), pat, with)
    } else {
        seq![s[0]] + replaced(s.drop_first(), pat, with)
    }
}

/// Replace every occurrence of `pat`.
pub fn replace(s: &[char], pat: &str, with: &str) -> (r: Vec<char>)
    requires
        pat@.len() > 0,
    ensures
        r@ == replaced(s@, pat@, with@),
{
    let p: Vec<char> = chars_of(pat);
    let w: Vec<char> = chars_of(with);
    let n: usize = s.len();
    let m: usize = p.len();
    let mut out: Vec<char> = Vec::new();
    let mut i: usize = 0;
    assert(s@.skip(0) =~= s@);
    assert(out@ + replaced(s@.skip(0), pat@, with@) =~= replaced(s@, pat@, with@));
    while i < n
        invariant
            n == s@.len(),
            m == p@.len(),
            m > 0,
            p@ == pat@,
            w@ == with@,
            i <= n,
            out@ + replaced(s@.skip(i as int), pat@, with@) == replaced(s@, pat@, with@),
        decreases n - i,
    {
        let ghost rest = s@.skip(i as int);
        if m <= n - i && same_chars(slice_subrange(s, i, i + m), p.as_slice()) {
            assert(rest.subrange(0, m as int) =~= s@.subrange(i as int, i + m));
            assert(rest.skip(m as int) =~= s@.skip(i + m));
            let ghost before = out@;
            push_all(&mut out, w.as_slice());
            i = i + m;
            assert(out@ + replaced(s@.skip(i as int), pat@, with@) =~= before + (with@ + replaced(
                s@.skip(i as int),
                pat@,
                with@,
            )));
        } else {
            assert(!pat@.is_prefix_of(rest)) by {
                if pat@.is_prefix_of(rest) {
                    assert(rest.subrange(0, m as int) =~= s@.subrange(i as int, i + m));
                }
            }
            assert(rest.drop_first() =~= s@.skip(i + 1));
            assert(rest[0] == s@[i as int]);
            let ghost before = out@;
            out.push(s[i]);
            i = i + 1;
            assert(out@ + replaced(s@.skip(i as int), pat@, with@) =~= before + (seq![rest[0]]
                + replaced(s@.skip(i as int), pat@, with@)));
        }
    }
    assert(replaced(s@.skip(i as int), pat@, with@) =~= Seq::<char>::empty());
    out
}

/// The pieces of a text between occurrences of `c`.
pub open spec fn pieces(s: Seq<char>, c: char) -> Seq<Seq<char>>
    decreases s.len(),
{
    if s.len() == 0 {
        seq![s]
    } else if s[0] == c {
        seq![Seq::<char>::empty()] + pieces(s.drop_first(), c)
    } else {
        let rest = pieces(s.drop_first(), c);
        rest.update(0, seq![s[0]] + rest[0])
    }
}

/// The pieces joined by `c`.
pub open spec fn joined(parts: Seq<Seq<char>>, c: char) -> Seq<char>
    decreases parts.len(),
{
    if parts.len() == 0 {
        Seq::empty()
    } else if parts.len() == 1 {
        parts[0]
    } else {
        joined(parts.drop_last(), c).push(c) + parts.last()
    }
}

proof fn lemma_pieces_nonempty(s: Seq<char>, c: char)
    ensures
        pieces(s, c).len() >= 1,
    decreases s.len(),
{
    if s.len() > 0 {
        lemma_pieces_nonempty(s.drop_first(), c);
    }
}

proof fn lemma_first_piece(s: Seq<char>, c: char, k: int)
    requires
        0 <= k <= s.len(),
        forall|i: int| 0 <= i < k ==> s[i] != c,
        k < s.len() ==> s[k] == c,
    ensures
        k == s.len() ==> pieces(s, c) == seq![s],
        k < s.len() ==> pieces(s, c) == seq![s.take(k)] + pieces(s.skip(k + 1), c),
    decreases s.len(),
{
    if s.len() == 0 {
    } else if k == 0 {
        assert(s.take(0) =~= Seq::<char>::empty());
        assert(s.skip(1) =~= s.drop_first());
    } else {
        let t = s.drop_first();
        assert forall|i: int| 0 <= i < k - 1 implies t[i] != c by {
            assert(t[i] == s[i + 1]);
        }
        lemma_first_piece(t, c, k - 1);
        if k == s.len() {
            assert(pieces(s, c) =~= seq![s]) by {
                assert(seq![s[0]] + t =~= s);
            }
        } else {
            assert(t.skip(k) =~= s.skip(k + 1));
            assert(seq![s[0]] + t.take(k - 1) =~= s.take(k));
            assert(pieces(s, c) =~= seq![s.take(k)] + pieces(s.skip(k + 1), c));
        }
    }
}

/// Split a text at every `c`.
pub fn split_on(s: &[char], c: char) -> (r: Vec<Vec<char>>)
    ensures
        r@.map_values(|v: Vec<char>| v@) == pieces(s@, c),
{
    let n: usize = s.len();
    let mut out: Vec<Vec<char>> = Vec::new();
    let mut i: usize = 0;
    assert(s@.skip(0) =~= s@);
    assert(out@.map_values(|v: Vec<char>| v@) + pieces(s@.skip(0), c) =~= pieces(s@, c));
    loop
        invariant
            n == s@.len(),
            i <= n,
            out@.map_values(|v: Vec<char>| v@) + pieces(s@.skip(i as int), c) == pieces(s@, c),
        decreases n - i,
    {
        let k: usize = find_char(s, c, i);
        let ghost rest = s@.skip(i as int);
        proof {
            assert forall|j: int| 0 <= j < k - i implies rest[j] != c by {
                assert(rest[j] == s@[i + j]);
            }
            lemma_first_piece(rest, c, k - i);
            assert(rest.take(k - i) =~= s@.subrange(i as int, k as int));
        }
        let piece: Vec<char> = copied(slice_subrange(s, i, k));
        let ghost before = out@;
        out.push(piece);
        assert(out@.map_values(|v: Vec<char>| v@) =~= before.map_values(|v: Vec<char>| v@).push(
            piece@,
        ));
        if k >= n {
            assert(rest =~= s@.subrange(i as int, k as int));
            assert(before.map_values(|v: Vec<char>| v@) + seq![piece@] =~= out@.map_values(
                |v: Vec<char>| v@,
            ));
            return out;
        }
        assert(rest.skip(k - i + 1) =~= s@.skip(k + 1));
        assert(before.map_values(|v: Vec<char>| v@) + (seq![piece@] + pieces(s@.skip(k + 1), c))
            =~= out@.map_values(|v: Vec<char>| v@) + pieces(s@.skip(k + 1), c));
        i = k + 1;
    }
}

/// Join texts by `c`.
pub fn join(parts: &Vec<Vec<char>>, c: char) -> (r: Vec<char>)
    ensures
        r@ == joined(parts@.map_values(|v: Vec<char>| v@), c),
{
    let ghost all = parts@.map_values(|v: Vec<char>| v@);
    let mut out: Vec<char> = Vec::new();
    let mut i: usize = 0;
    while i < parts.len()
        invariant
            i <= parts@.len(),
            all == parts@.map_values(|v: Vec<char>| v@),
            out@ == joined(all.take(i as int), c),
        decreases parts@.len() - i,
    {
        if i > 0 {
            out.push(c);
        }
        push_all(&mut out, parts[i].as_slice());
        proof {
            let t = all.take(i + 1);
            assert(t.drop_last() =~= all.take(i as int));
            assert(t.last() == parts@[i as int]@);
            if i == 0 {
                assert(out@ =~= t[0]);
            }
        }
        i = i + 1;
    }
    assert(all.take(i as int) =~= all);
    out
}

/// Splitting a text and joining the pieces gives the text back.
pub proof fn split_join_round_trip(s: Seq<char>, c: char)
    ensures
        joined(pieces(s, c), c) == s,
    decreases s.len(),
{
    lemma_pieces_nonempty(s, c);
    if s.len() > 0 {
        let t = s.drop_first();
        lemma_pieces_nonempty(t, c);
        split_join_round_trip(t, c);
        if s[0] == c {
            lemma_joined_front(Seq::empty(), pieces(t, c), c);
            assert(Seq::<char>::empty().push(c) + t =~= s);
        } else {
            lemma_joined_head(seq![s[0]], pieces(t, c), c);
            assert(seq![s[0]] + t =~= s);
        }
    }
}

proof fn lemma_joined_front(head: Seq<char>, parts: Seq<Seq<char>>, c: char)
    requires
        parts.len() >= 1,
    ensures
        joined(seq![head] + parts, c) == head.push(c) + joined(parts, c),
    decreases parts.len(),
{
    let all = seq![head] + parts;
    assert(all.drop_last() =~= seq![head] + parts.drop_last());
    if parts.len() == 1 {
        assert(all.drop_last() =~= seq![head]);
        assert(joined(seq![head], c) == head);
    } else {
        lemma_joined_front(head, parts.drop_last(), c);
        assert(joined(all, c) =~= head.push(c) + joined(parts, c));
    }
}

proof fn lemma_joined_head(head: Seq<char>, parts: Seq<Seq<char>>, c: char)
    requires
        parts.len() >= 1,
    ensures
        joined(parts.update(0, head + parts[0]), c) == head + joined(parts, c),
    decreases parts.len(),
{
    let all = parts.update(0, head + parts[0]);
    if parts.len() > 1 {
        lemma_joined_head(head, parts.drop_last(), c);
        assert(all.drop_last() =~= parts.drop_last().update(0, head + parts[0]));
        assert(joined(all, c) =~= head + joined(parts, c));
    }
}

} // verus!
