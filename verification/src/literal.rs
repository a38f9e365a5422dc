//! Reading and writing sized literals such as `4'b10x1`.
use vstd::arithmetic::div_mod::{lemma_fundamental_div_mod, lemma_fundamental_div_mod_converse};
use vstd::arithmetic::power2::{lemma2_to64, pow2};
use vstd::prelude::*;
use vstd::slice::slice_subrange;

use crate::bit::Bit;
use crate::bits::bits_of;
use crate::logic::LogicVec;
use crate::text::{
    ascii_lower, chars_of, decimal, digits_number, find_char, first_at, parse_digits, push_decimal,
    to_ascii_lower, trim, trimmed,
};

verus! {

/// The text without underscores.
pub open spec fn without_underscores(s: Seq<char>) -> Seq<char> {
    s.filter(|c: char| c != '_')
}

/// The number a hexadecimal digit stands for.
pub open spec fn hex_digit(c: char) -> Option<nat> {
    if '0' <= c <= '9' {
        Some((c as int - '0' as int) as nat)
    } else if 'a' <= c <= 'f' {
        Some((c as int - 'a' as int + 10) as nat)
    } else {
        None
    }
}

/// A lower-case digit character of the base with `per` bits for each digit.
pub open spec fn literal_digit(c: char, per: nat) -> bool {
    c == 'x' || c == 'z' || c == '?' || (hex_digit(c) matches Some(d) && d < pow2(per))
}

/// Bit `k` (0 to 3) of a digit.
pub open spec fn nibble_bit(d: nat, k: int) -> bool {
    let weight: nat = if k == 0 {
        1
    } else if k == 1 {
        2
    } else if k == 2 {
        4
    } else {
        8
    };
    (d / weight) % 2 == 1
}

/// Bit `k` of a lower-case digit character.
pub open spec fn literal_bit(c: char, k: int) -> Bit {
    if c == 'x' {
        Bit::X
    } else if c == 'z' || c == '?' {
        Bit::Z
    } else {
        match hex_digit(c) {
            Some(d) => Bit::of_bool(nibble_bit(d, k)),
            None => Bit::Zero,
        }
    }
}

/// The digit character `j` places from the right.
pub open spec fn digit_from_right(digits: Seq<char>, j: int) -> char {
    ascii_lower(digits[digits.len() - 1 - j])
}

/// The bits of based digits: `per` bits for each digit from the right, zero
/// beyond the leftmost digit. There is a digit, and each is one of the base,
/// also where it stands at or above `width`.
pub open spec fn based_bits(digits: Seq<char>, per: nat, width: nat) -> Option<Seq<Bit>> {
    if digits.len() > 0 && forall|j: int|
        0 <= j < digits.len() ==> literal_digit(#[trigger] digit_from_right(digits, j), per) {
        Some(
            Seq::new(
                width,
                |p: int|
                    if p / per as int >= digits.len() {
                        Bit::Zero
                    } else {
                        literal_bit(digit_from_right(digits, p / per as int), p % per as int)
                    },
            ),
        )
    } else {
        None
    }
}

/// What follows the base character of a literal of the given width.
pub open spec fn based_literal(base: char, digits: Seq<char>, width: nat) -> Option<Seq<Bit>> {
    if base == 'b' {
        based_bits(digits, 1, width)
    } else if base == 'o' {
        based_bits(digits, 3, width)
    } else if base == 'h' {
        based_bits(digits, 4, width)
    } else if base == 'd' {
        match digits_number(trimmed(digits), u64::MAX as nat) {
            Some(n) => Some(bits_of(n as int, width)),
            None => None,
        }
    } else {
        None
    }
}

/// What follows the apostrophe of a literal of the given width: an optional
/// sign marker, the base and the digits.
pub open spec fn literal_tail(rest: Seq<char>, width: nat) -> Option<Seq<Bit>> {
    if rest.len() == 0 {
        None
    } else if ascii_lower(rest[0]) == 's' {
        if rest.len() == 1 {
            None
        } else {
            based_literal(ascii_lower(rest[1]), rest.skip(2), width)
        }
    } else {
        based_literal(ascii_lower(rest[0]), rest.skip(1), width)
    }
}

/// The bits of a sized literal, or `None` for malformed text.
pub open spec fn sized_literal(s: Seq<char>) -> Option<Seq<Bit>> {
    let t = without_underscores(s);
    let q = first_at(t, '\'', 0);
    if q >= t.len() {
        None
    } else {
        match digits_number(trimmed(t.take(q)), u32::MAX as nat) {
            None => None,
            Some(width) => if width == 0 {
                None
            } else {
                literal_tail(trimmed(t.skip(q + 1)), width)
            },
        }
    }
}

/// The rendering of a vector: `width'b` and the bits, most significant first.
pub open spec fn rendered(bits: Seq<Bit>) -> Seq<char> {
    decimal(bits.len()) + seq!['\'', 'b'] + glyphs(bits)
}

/// The display characters, most significant first.
pub open spec fn glyphs(bits: Seq<Bit>) -> Seq<char> {
    Seq::new(bits.len(), |i: int| bits[bits.len() - 1 - i].glyph())
}

fn hex_value(c: char) -> (r: Option<u8>)
    ensures
        match r {
            Some(d) => hex_digit(c) == Some(d as nat) && d < 16,
            None => hex_digit(c) is None,
        },
{
    if '0' <= c && c <= '9' {
        Some((c as u32 - '0' as u32) as u8)
    } else if 'a' <= c && c <= 'f' {
        Some((c as u32 - 'a' as u32 + 10) as u8)
    } else {
        None
    }
}

/// Whether a lower-case character is a digit of a base.
fn is_digit(c: char, per: u32) -> (r: bool)
    requires
        1 <= per <= 4,
    ensures
        r == literal_digit(c, per as nat),
{
    proof {
        lemma2_to64();
    }
    if c == 'x' || c == 'z' || c == '?' {
        return true;
    }
    let limit: u8 = if per == 1 {
        2
    } else if per == 2 {
        4
    } else if per == 3 {
        8
    } else {
        16
    };
    match hex_value(c) {
        Some(d) => d < limit,
        None => false,
    }
}

/// Whether all digits are of a base.
fn are_digits(digits: &[char], per: u32) -> (r: bool)
    requires
        1 <= per <= 4,
    ensures
        r == forall|j: int|
            0 <= j < digits@.len() ==> literal_digit(
                #[trigger] digit_from_right(digits@, j),
                per as nat,
            ),
{
    let n: usize = digits.len();
    let mut j: usize = 0;
    while j < n
        invariant
            n == digits@.len(),
            1 <= per <= 4,
            j <= n,
            forall|i: int|
                0 <= i < j ==> literal_digit(#[trigger] digit_from_right(digits@, i), per as nat),
        decreases n - j,
    {
        let c: char = to_ascii_lower(digits[n - 1 - j]);
        assert(c == digit_from_right(digits@, j as int));
        if !is_digit(c, per) {
            return false;
        }
        j = j + 1;
    }
    true
}

/// Bit `k` of a lower-case digit character.
fn digit_bit(c: char, k: u32) -> (r: Bit)
    requires
        k < 4,
    ensures
        r == literal_bit(c, k as int),
{
    if c == 'x' {
        return Bit::X;
    }
    if c == 'z' || c == '?' {
        return Bit::Z;
    }
    match hex_value(c) {
        None => Bit::Zero,
        Some(d) => {
            let weight: u8 = if k == 0 {
                1
            } else if k == 1 {
                2
            } else if k == 2 {
                4
            } else {
                8
            };
            if (d / weight) % 2 == 1 {
                Bit::One
            } else {
                Bit::Zero
            }
        },
    }
}

fn parse_based(digits: &[char], per: u32, width: u32) -> (r: Option<LogicVec>)
    requires
        1 <= per <= 4,
        width >= 1,
    ensures
        match r {
            Some(v) => based_bits(digits@, per as nat, width as nat) == Some(v@),
            None => based_bits(digits@, per as nat, width as nat) is None,
        },
{
    let n: usize = digits.len();
    if n == 0 || !are_digits(digits, per) {
        return None;
    }
    let mut v = LogicVec::zero(width);
    let mut j: usize = 0;
    let mut pos: u32 = 0;
    while j < n && pos < width
        invariant
            n == digits@.len(),
            1 <= per <= 4,
            j <= n,
            pos <= width,
            v@.len() == width,
            pos == (if j * per < width {
                j * per
            } else {
                width as int
            }),
            forall|p: int|
                0 <= p < width ==> #[trigger] v@[p] == (if p < pos {
                    literal_bit(digit_from_right(digits@, p / per as int), p % per as int)
                } else {
                    Bit::Zero
                }),
        decreases n - j,
    {
        let c: char = to_ascii_lower(digits[n - 1 - j]);
        assert(c == digit_from_right(digits@, j as int));
        let ghost start: int = pos as int;
        let mut k: u32 = 0;
        while k < per && pos < width
            invariant
                n == digits@.len(),
                1 <= per <= 4,
                j < n,
                k <= per,
                pos <= width,
                v@.len() == width,
                c == digit_from_right(digits@, j as int),
                start == j * per,
                start < width,
                pos == start + k,
                forall|p: int|
                    0 <= p < width ==> #[trigger] v@[p] == (if p < pos {
                        literal_bit(digit_from_right(digits@, p / per as int), p % per as int)
                    } else {
                        Bit::Zero
                    }),
            decreases per - k,
        {
            proof {
                lemma_fundamental_div_mod_converse(pos as int, per as int, j as int, k as int);
            }
            v.set_bit(pos, digit_bit(c, k));
            pos = pos + 1;
            k = k + 1;
        }
        proof {
            assert((j + 1) * per == j * per + per) by (nonlinear_arith);
        }
        j = j + 1;
    }
    proof {
        let spec = Seq::new(
            width as nat,
            |p: int|
                if p / per as int >= digits@.len() {
                    Bit::Zero
                } else {
                    literal_bit(digit_from_right(digits@, p / per as int), p % per as int)
                },
        );
        assert forall|p: int| 0 <= p < width implies v@[p] == spec[p] by {
            lemma_fundamental_div_mod(p, per as int);
            if p < pos {
                assert(p / per as int <= j - 1) by (nonlinear_arith)
                    requires
                        p == per * (p / per as int) + p % (per as int),
                        0 <= p % (per as int),
                        p < j * per,
                        per >= 1,
                ;
            } else {
                assert(p / per as int >= n) by (nonlinear_arith)
                    requires
                        p == per * (p / per as int) + p % (per as int),
                        p % (per as int) < per,
                        p >= n * per,
                        per >= 1,
                ;
            }
        }
        assert(v@ =~= spec);
    }
    Some(v)
}

fn parse_tail(base: char, digits: &[char], width: u32) -> (r: Option<LogicVec>)
    requires
        width >= 1,
    ensures
        match r {
            Some(v) => based_literal(base, digits@, width as nat) == Some(v@),
            None => based_literal(base, digits@, width as nat) is None,
        },
{
    match base {
        'b' => parse_based(digits, 1, width),
        'o' => parse_based(digits, 3, width),
        'h' => parse_based(digits, 4, width),
        'd' => match parse_digits(trim(digits), u64::MAX) {
            Some(n) => Some(LogicVec::from_u64(n, width)),
            None => None,
        },
        _ => None,
    }
}

/// The text without underscores.
pub fn strip_underscores(s: &str) -> (r: Vec<char>)
    ensures
        r@ == without_underscores(s@),
{
    let text: Vec<char> = chars_of(s);
    let mut out: Vec<char> = Vec::new();
    let mut i: usize = 0;
    assert(text@.take(0) =~= Seq::<char>::empty());
    assert(without_underscores(text@.take(0)) =~= Seq::<char>::empty()) by {
        reveal(Seq::filter);
    }
    while i < text.len()
        invariant
            i <= text@.len(),
            out@ == without_underscores(text@.take(i as int)),
        decreases text@.len() - i,
    {
        let c: char = text[i];
        if c != '_' {
            out.push(c);
        }
        proof {
            let t = text@.take(i + 1);
            assert(t.drop_last() =~= text@.take(i as int));
            assert(t.last() == c);
            reveal(Seq::filter);
        }
        i = i + 1;
    }
    assert(text@.take(i as int) =~= text@);
    out
}

impl LogicVec {
    /// Parse a sized literal like `4'b10x1`, `8'hF0`, `32'd42`, `1'bz`.
    /// Underscores are ignored. Returns `None` on malformed input.
    pub fn parse_sized(s: &str) -> (r: Option<LogicVec>)
        ensures
            match r {
                Some(v) => sized_literal(s@) == Some(v@),
                None => sized_literal(s@) is None,
            },
    {
        let text: Vec<char> = strip_underscores(s);
        let n: usize = text.len();
        let q: usize = find_char(text.as_slice(), '\'', 0);
        if q >= n {
            return None;
        }
        assert(text@.subrange(0, q as int) =~= text@.take(q as int));
        assert(text@.subrange(q + 1, n as int) =~= text@.skip(q + 1));
        let width: u32 = match parse_digits(
            trim(slice_subrange(text.as_slice(), 0, q)),
            0xffff_ffff,
        ) {
            Some(w) => w as u32,
            None => {
                return None;
            },
        };
        if width == 0 {
            return None;
        }
        let rest: &[char] = trim(slice_subrange(text.as_slice(), q + 1, n));
        if rest.len() == 0 {
            return None;
        }
        let first: char = to_ascii_lower(rest[0]);
        if first == 's' {
            if rest.len() == 1 {
                return None;
            }
            assert(rest@.subrange(2, rest@.len() as int) =~= rest@.skip(2));
            parse_tail(to_ascii_lower(rest[1]), slice_subrange(rest, 2, rest.len()), width)
        } else {
            assert(rest@.subrange(1, rest@.len() as int) =~= rest@.skip(1));
            parse_tail(first, slice_subrange(rest, 1, rest.len()), width)
        }
    }

    /// Render as `width'b<bits>` (MSB first), e.g. `4'b10x1`.
    pub fn to_string(&self) -> (r: String)
        ensures
            r@ == rendered(self@),
    {
        let width: u32 = self.width();
        let mut out = String::new();
        push_decimal(&mut out, width as u64);
        out.push('\'');
        out.push('b');
        let ghost head = out@;
        assert(head =~= decimal(width as nat) + seq!['\'', 'b']);
        let mut i: u32 = width;
        assert(out@ =~= head + glyphs(self@).take(0));
        while i > 0
            invariant
                width == self@.len(),
                i <= width,
                out@ == head + glyphs(self@).take(width - i),
            decreases i,
        {
            i = i - 1;
            out.push(self.get_bit(i).to_char());
            assert(out@ =~= head + glyphs(self@).take(width - i));
        }
        assert(glyphs(self@).take(width as int) =~= glyphs(self@));
        out
    }
}

} // verus!
