//! What the operations on logic vectors promise together.
use vstd::arithmetic::div_mod::*;
use vstd::arithmetic::power2::*;
use vstd::prelude::*;

use crate::bit::Bit;
use crate::bits::{
    all_known, arithmetic, bits_of, equal_bit, fill, lemma_bits_of_known, lemma_bits_of_value,
    lemma_bits_of_wrap, lemma_value_at_least, lemma_value_bound, lemma_value_prefix, max_nat,
    or_reduced, resized, selected, value, zipped, BitOp,
};
use crate::literal::{
    based_bits, digit_from_right, glyphs, hex_digit, literal_bit, literal_digit, literal_tail,
    nibble_bit, rendered,
    sized_literal, without_underscores,
};
use crate::text::{
    all_digits, ascii_lower, decimal, decimal_round_trip, digits_number, first_at, trimmed, white_space,
};

verus! {

/// Building a vector from a number and reading the number back truncates it to
/// the width.
pub proof fn number_round_trip(n: nat, w: nat)
    ensures
        all_known(bits_of(n as int, w)),
        value(bits_of(n as int, w)) == n % pow2(w),
{
    lemma_bits_of_value(n as int, w);
}

/// A known vector is determined by its width and its number, so arithmetic on
/// it may be done on the number.
pub proof fn known_vector_is_its_number(s: Seq<Bit>)
    requires
        all_known(s),
    ensures
        bits_of(value(s) as int, s.len()) == s,
        value(s) < pow2(s.len()),
{
    lemma_bits_of_known(s);
    lemma_value_bound(s);
}

/// One unknown bit anywhere makes the whole sum, difference or product unknown.
pub proof fn unknown_operand_poisons_arithmetic(a: Seq<Bit>, b: Seq<Bit>, n: int)
    requires
        !all_known(a) || !all_known(b),
    ensures
        arithmetic(a, b, n) == fill(Bit::X, max_nat(a.len(), b.len())),
{
}

/// Subtracting what was added gives back a known vector of the larger width.
pub proof fn subtraction_undoes_addition(a: Seq<Bit>, b: Seq<Bit>)
    requires
        all_known(a),
        all_known(b),
        b.len() <= a.len(),
    ensures
        ({
            let sum = arithmetic(a, b, (value(a) + value(b)) as int);
            arithmetic(sum, b, value(sum) - value(b)) == a
        }),
{
    let w = a.len();
    let n = (value(a) + value(b)) as int;
    let sum = arithmetic(a, b, n);
    lemma_bits_of_value(n, w);
    lemma_pow2_pos(w);
    let p = pow2(w) as int;
    lemma_fundamental_div_mod(n, p);
    let q = n / p;
    assert(n % p - value(b) == value(a) + (-q) * p) by (nonlinear_arith)
        requires
            n == p * q + n % p,
            n == value(a) + value(b),
    ;
    lemma_bits_of_wrap(value(a) as int, -q, w, w);
    lemma_bits_of_known(a);
}

/// A known vector plus its negation is zero.
pub proof fn negation_cancels(a: Seq<Bit>)
    requires
        all_known(a),
    ensures
        ({
            let neg = bits_of(-(value(a) as int), a.len());
            arithmetic(a, neg, (value(a) + value(neg)) as int) == fill(Bit::Zero, a.len())
        }),
{
    let w = a.len();
    let v = value(a) as int;
    let neg = bits_of(-v, w);
    lemma_bits_of_value(-v, w);
    lemma_pow2_pos(w);
    let p = pow2(w) as int;
    lemma_fundamental_div_mod(-v, p);
    let q = (-v) / p;
    assert(v + (-v) % p == 0 + (-q) * p) by (nonlinear_arith)
        requires
            -v == p * q + (-v) % p,
    ;
    lemma_bits_of_wrap(0, -q, w, w);
    lemma_bits_of_known(fill(Bit::Zero, w));
    lemma_value_prefix(fill(Bit::Zero, w), 0);
}

/// Slicing a concatenation at its seam gives back the two parts.
pub proof fn concatenation_splits(high: Seq<Bit>, low: Seq<Bit>)
    ensures
        (low + high).len() == low.len() + high.len(),
        (low + high).subrange(0, low.len() as int) == low,
        (low + high).subrange(low.len() as int, (low.len() + high.len()) as int) == high,
{
    assert((low + high).subrange(0, low.len() as int) =~= low);
    assert((low + high).subrange(low.len() as int, (low.len() + high.len()) as int) =~= high);
}

/// The number of a concatenation: the high part is worth its number shifted by
/// the width of the low part.
pub proof fn concatenation_value(high: Seq<Bit>, low: Seq<Bit>)
    ensures
        value(low + high) == value(low) + value(high) * pow2(low.len()),
    decreases high.len(),
{
    if high.len() == 0 {
        assert(low + high =~= low);
        assert(value(high) * pow2(low.len()) == 0) by (nonlinear_arith)
            requires
                value(high) == 0,
        ;
    } else {
        let s = low + high;
        concatenation_value(high.drop_last(), low);
        assert(s.drop_last() =~= low + high.drop_last());
        let k = (high.len() - 1) as nat;
        lemma_pow2_adds(low.len(), k);
        let d = high.last().digit();
        let p = pow2(low.len());
        assert((value(high.drop_last()) + d * pow2(k)) * p == value(high.drop_last()) * p + d * (p
            * pow2(k))) by (nonlinear_arith);
    }
}

/// Widening a vector and truncating it again gives it back.
pub proof fn resize_round_trip(s: Seq<Bit>, w: nat, signed: bool)
    requires
        s.len() <= w,
    ensures
        resized(resized(s, w, signed), s.len(), false) == s,
{
    assert(resized(resized(s, w, signed), s.len(), false) =~= s);
}

/// A condition with both branches equal selects that branch whatever the
/// condition holds.
pub proof fn equal_branches_decide(c: Seq<Bit>, t: Seq<Bit>)
    ensures
        selected(c, t, t) == t,
{
    assert(selected(c, t, t) =~= t);
}

/// AND and OR are dual under NOT.
pub proof fn de_morgan(a: Bit, b: Bit)
    ensures
        a.conj(b).inverted() == a.inverted().disj(b.inverted()),
        a.disj(b).inverted() == a.inverted().conj(b.inverted()),
{
}

/// A zero dominates AND and a one dominates OR, whatever the other operand.
pub proof fn dominating_operands(b: Bit)
    ensures
        Bit::Zero.conj(b) == Bit::Zero,
        b.conj(Bit::Zero) == Bit::Zero,
        Bit::One.disj(b) == Bit::One,
        b.disj(Bit::One) == Bit::One,
        !b.known() ==> Bit::One.conj(b) == Bit::X && Bit::Zero.disj(b) == Bit::X,
        !b.known() ==> b.inverted() == Bit::X && forall|a: Bit| a.parity(b) == Bit::X,
{
}

/// The bitwise operators do not depend on the order of their operands.
pub proof fn bitwise_operators_commute(a: Seq<Bit>, b: Seq<Bit>, op: BitOp)
    ensures
        zipped(a, b, op) == zipped(b, a, op),
{
    assert(zipped(a, b, op) =~= zipped(b, a, op));
}

/// Every vector is case-equal to itself, while `==` on a vector with an unknown
/// bit is unknown.
pub proof fn case_and_logical_equality(a: Seq<Bit>)
    ensures
        all_known(a) ==> equal_bit(a, a) == Bit::One,
        !all_known(a) ==> equal_bit(a, a) == Bit::X,
{
}

/// A vector is true exactly if its OR reduction is a known one.
pub proof fn truth_is_or_reduction(s: Seq<Bit>)
    ensures
        s.contains(Bit::One) <==> or_reduced(s) == Bit::One,
        all_known(s) ==> (s.contains(Bit::One) <==> value(s) != 0),
{
    if all_known(s) {
        if s.contains(Bit::One) {
            let i = choose|i: int| 0 <= i < s.len() && s[i] == Bit::One;
            lemma_value_at_least(s, i);
            lemma_pow2_pos(i as nat);
        } else {
            assert forall|i: int| 0 <= i < s.len() implies #[trigger] s[i] != Bit::One by {
                assert(s.contains(s[i]));
            }
            lemma_value_prefix(s, 0);
        }
    }
}

proof fn lemma_plain_filter(s: Seq<char>)
    requires
        forall|i: int| 0 <= i < s.len() ==> s[i] != '_',
    ensures
        without_underscores(s) == s,
    decreases s.len(),
{
    reveal(Seq::filter);
    if s.len() > 0 {
        lemma_plain_filter(s.drop_last());
        assert(s.drop_last().push(s.last()) =~= s);
    } else {
        assert(s =~= Seq::<char>::empty());
    }
}

proof fn lemma_first_at(s: Seq<char>, c: char, from: int, at: int)
    requires
        0 <= from <= at < s.len(),
        s[at] == c,
        forall|i: int| from <= i < at ==> s[i] != c,
    ensures
        first_at(s, c, from) == at,
    decreases at - from,
{
    if from < at {
        lemma_first_at(s, c, from + 1, at);
    }
}

proof fn lemma_untrimmed(s: Seq<char>)
    requires
        s.len() > 0,
        !white_space(s[0]),
        !white_space(s.last()),
    ensures
        trimmed(s) == s,
{
}

proof fn lemma_glyph_digit(b: Bit)
    ensures
        literal_digit(ascii_lower(b.glyph()), 1),
        literal_bit(ascii_lower(b.glyph()), 0) == b,
        !white_space(b.glyph()),
        b.glyph() != '_',
{
    lemma2_to64();
    assert(hex_digit('0') == Some(0nat));
    assert(hex_digit('1') == Some(1nat));
    assert(!nibble_bit(0, 0));
    assert(nibble_bit(1, 0));
}

proof fn lemma_binary_digits(s: Seq<Bit>)
    requires
        s.len() >= 1,
    ensures
        based_bits(glyphs(s), 1, s.len()) == Some(s),
{
    let digits = glyphs(s);
    assert forall|j: int| 0 <= j < digits.len() implies literal_digit(
        #[trigger] digit_from_right(digits, j),
        1,
    ) && literal_bit(digit_from_right(digits, j), 0) == s[j] by {
        lemma_glyph_digit(s[j]);
        assert(digits[digits.len() - 1 - j] == s[j].glyph());
    }
    let bits = Seq::new(
        s.len(),
        |p: int|
            if p / 1nat as int >= digits.len() {
                Bit::Zero
            } else {
                literal_bit(digit_from_right(digits, p / 1nat as int), p % 1nat as int)
            },
    );
    assert forall|p: int| 0 <= p < s.len() implies (#[trigger] bits[p]) == s[p] by {
        assert(p / 1nat as int == p);
        assert(p % 1nat as int == 0);
        assert(literal_bit(digit_from_right(digits, p), 0) == s[p]);
    }
    assert(bits =~= s);
}

proof fn lemma_digits_plain(s: Seq<char>)
    requires
        all_digits(s),
    ensures
        trimmed(s) == s,
        forall|i: int| 0 <= i < s.len() ==> s[i] != '_' && s[i] != '\'',
{
    assert('0' <= s[0] <= '9');
    assert('0' <= s[s.len() - 1] <= '9');
    lemma_untrimmed(s);
}

proof fn lemma_rendered_plain(s: Seq<Bit>)
    requires
        s.len() >= 1,
    ensures
        without_underscores(rendered(s)) == rendered(s),
        first_at(rendered(s), '\'', 0) == decimal(s.len()).len(),
{
    let head = decimal(s.len());
    let text = rendered(s);
    decimal_round_trip(s.len());
    lemma_digits_plain(head);
    assert forall|i: int| 0 <= i < text.len() implies text[i] != '_' by {
        if i < head.len() {
            assert(text[i] == head[i]);
        } else if i >= head.len() + 2 {
            lemma_glyph_digit(s[s.len() - 1 - (i - head.len() - 2)]);
        }
    }
    lemma_plain_filter(text);
    let q = head.len() as int;
    assert(text[q] == '\'');
    assert forall|i: int| 0 <= i < q implies text[i] != '\'' by {
        assert(text[i] == head[i]);
    }
    lemma_first_at(text, '\'', 0, q);
}

proof fn lemma_rendered_tail(s: Seq<Bit>)
    requires
        s.len() >= 1,
    ensures
        literal_tail(trimmed(seq!['b'] + glyphs(s)), s.len()) == Some(s),
{
    let rest = seq!['b'] + glyphs(s);
    assert(rest.last() == s[0].glyph());
    lemma_glyph_digit(s[0]);
    lemma_untrimmed(rest);
    assert(rest.skip(1) =~= glyphs(s));
    assert(ascii_lower(rest[0]) == 'b');
    lemma_binary_digits(s);
}

proof fn lemma_split_seam(head: Seq<char>, tail: Seq<char>)
    ensures
        (head + seq!['\'', 'b'] + tail).take(head.len() as int) == head,
        (head + seq!['\'', 'b'] + tail).skip(head.len() as int + 1) == seq!['b'] + tail,
{
    let text = head + seq!['\'', 'b'] + tail;
    assert(text.take(head.len() as int) =~= head);
    assert(text.skip(head.len() as int + 1) =~= seq!['b'] + tail);
}

/// Rendering a vector and parsing the literal gives the vector back, bit for
/// bit.
pub proof fn literal_round_trip(s: Seq<Bit>)
    requires
        1 <= s.len() <= u32::MAX,
    ensures
        sized_literal(rendered(s)) == Some(s),
{
    let head = decimal(s.len());
    lemma_split_seam(head, glyphs(s));
    lemma_rendered_plain(s);
    assert(digits_number(trimmed(head), u32::MAX as nat) == Some(s.len())) by {
        decimal_round_trip(s.len());
        lemma_digits_plain(head);
    }
    lemma_rendered_tail(s);
}

} // verus!
