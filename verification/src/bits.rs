//! The arithmetic of bit sequences: what number a sequence of bits stands for,
//! and how 64-bit words hold such sequences.
//!
//! Index 0 is the least significant bit throughout.
use vstd::arithmetic::div_mod::*;
use vstd::arithmetic::mul::*;
use vstd::arithmetic::power2::*;
use vstd::bits::*;
use vstd::prelude::*;

use crate::bit::Bit;

verus! {

/// Every bit is `0` or `1`.
pub open spec fn all_known(s: Seq<Bit>) -> bool {
    forall|i: int| 0 <= i < s.len() ==> (#[trigger] s[i]).known()
}

/// The unsigned number the bits stand for, with `x` and `z` read as 0.
pub open spec fn value(s: Seq<Bit>) -> nat
    decreases s.len(),
{
    if s.len() == 0 {
        0
    } else {
        value(s.drop_last()) + s.last().digit() * pow2((s.len() - 1) as nat)
    }
}

/// Bit `i` of the two's-complement expansion of `n`.
pub open spec fn int_bit(n: int, i: nat) -> bool {
    (n / pow2(i) as int) % 2 == 1
}

/// The low `w` bits of the two's-complement expansion of `n`.
pub open spec fn bits_of(n: int, w: nat) -> Seq<Bit> {
    Seq::new(w, |i: int| Bit::of_bool(int_bit(n, i as nat)))
}

/// `w` copies of one bit.
pub open spec fn fill(b: Bit, w: nat) -> Seq<Bit> {
    Seq::new(w, |i: int| b)
}

/// How many bits are `1`.
pub open spec fn ones_count(s: Seq<Bit>) -> nat
    decreases s.len(),
{
    if s.len() == 0 {
        0
    } else {
        ones_count(s.drop_last()) + s.last().digit()
    }
}

/// A bitwise operator of two operands.
#[derive(Debug, Clone, Copy, PartialEq, Eq, Structural)]
pub enum BitOp {
    And,
    Or,
    Xor,
}

impl BitOp {
    /// The truth table of the operator.
    pub open spec fn table(self, a: Bit, b: Bit) -> Bit {
        match self {
            BitOp::And => a.conj(b),
            BitOp::Or => a.disj(b),
            BitOp::Xor => a.parity(b),
        }
    }
}

/// The smaller of two numbers.
pub open spec fn min_nat(a: nat, b: nat) -> nat {
    if a < b {
        a
    } else {
        b
    }
}

/// The larger of two numbers.
pub open spec fn max_nat(a: nat, b: nat) -> nat {
    if a > b {
        a
    } else {
        b
    }
}

/// The two's-complement reading of the `w`-bit number `n`.
pub open spec fn signed_value(n: nat, w: nat) -> int {
    if n >= pow2((w - 1) as nat) {
        n - pow2(w)
    } else {
        n as int
    }
}

/// The bit that sign extension repeats: the top bit, with `z` read as `x`.
pub open spec fn sign_extension(s: Seq<Bit>) -> Bit {
    if s.last() == Bit::Z {
        Bit::X
    } else {
        s.last()
    }
}

/// Truncation or extension to `w` bits.
pub open spec fn resized(s: Seq<Bit>, w: nat, signed: bool) -> Seq<Bit> {
    Seq::new(
        w,
        |i: int|
            if i < s.len() {
                s[i]
            } else if signed {
                sign_extension(s)
            } else {
                Bit::Zero
            },
    )
}

/// The common value of two branches, or `x` where they differ.
pub open spec fn merged_bit(t: Bit, f: Bit) -> Bit {
    if t == f {
        t
    } else {
        Bit::X
    }
}

/// The value of `c ? t : f`.
pub open spec fn selected(c: Seq<Bit>, t: Seq<Bit>, f: Seq<Bit>) -> Seq<Bit> {
    let w = max_nat(t.len(), f.len());
    let tr = resized(t, w, false);
    let fr = resized(f, w, false);
    if c.contains(Bit::One) {
        tr
    } else if all_known(c) {
        fr
    } else {
        Seq::new(w, |i: int| merged_bit(tr[i], fr[i]))
    }
}

/// The 1-bit outcome of a relation that holds on known operands only.
pub open spec fn relation_bit(a: Seq<Bit>, b: Seq<Bit>, holds: bool) -> Bit {
    if all_known(a) && all_known(b) {
        Bit::of_bool(holds)
    } else {
        Bit::X
    }
}

/// The 1-bit outcome of `a == b`.
pub open spec fn equal_bit(a: Seq<Bit>, b: Seq<Bit>) -> Bit {
    relation_bit(a, b, value(a) == value(b))
}

/// The OR of all bits.
pub open spec fn or_reduced(s: Seq<Bit>) -> Bit {
    if s.contains(Bit::One) {
        Bit::One
    } else if all_known(s) {
        Bit::Zero
    } else {
        Bit::X
    }
}

/// The AND of all bits.
pub open spec fn and_reduced(s: Seq<Bit>) -> Bit {
    if s.contains(Bit::Zero) {
        Bit::Zero
    } else if all_known(s) {
        Bit::One
    } else {
        Bit::X
    }
}

/// The XOR of all bits.
pub open spec fn xor_reduced(s: Seq<Bit>) -> Bit {
    if all_known(s) {
        Bit::of_bool(ones_count(s) % 2 == 1)
    } else {
        Bit::X
    }
}

/// The bitwise combination of two vectors, the narrower one zero-extended.
pub open spec fn zipped(a: Seq<Bit>, b: Seq<Bit>, op: BitOp) -> Seq<Bit> {
    let w = max_nat(a.len(), b.len());
    Seq::new(w, |i: int| op.table(resized(a, w, false)[i], resized(b, w, false)[i]))
}

/// The outcome of an arithmetic operator whose exact result is `n`.
pub open spec fn arithmetic(a: Seq<Bit>, b: Seq<Bit>, n: int) -> Seq<Bit> {
    let w = max_nat(a.len(), b.len());
    if all_known(a) && all_known(b) {
        bits_of(n, w)
    } else {
        fill(Bit::X, w)
    }
}

/// Bit `k` of a word.
pub open spec fn word_bit(w: u64, k: int) -> bool {
    (w >> (k as u64)) & 1 == 1
}

/// Bit `i` of a little-endian array of words.
pub open spec fn plane_bit(a: Seq<u64>, i: int) -> bool {
    word_bit(a[i / 64], i % 64)
}

/// The number a little-endian array of words stands for.
pub open spec fn limbs_value(a: Seq<u64>) -> nat
    decreases a.len(),
{
    if a.len() == 0 {
        0
    } else {
        limbs_value(a.drop_last()) + a.last() as nat * pow2((64 * (a.len() - 1)) as nat)
    }
}

pub proof fn lemma_split_bit(lo: nat, hi: nat, k: nat, i: nat)
    requires
        lo < pow2(k),
    ensures
        i < k ==> int_bit((lo + hi * pow2(k)) as int, i) == int_bit(lo as int, i),
        i >= k ==> int_bit((lo + hi * pow2(k)) as int, i) == int_bit(hi as int, (i - k) as nat),
{
    lemma_pow2_pos(k);
    lemma_pow2_pos(i);
    let n = (lo + hi * pow2(k)) as int;
    if i < k {
        let d = (k - i) as nat;
        lemma_pow2_adds(i, d);
        lemma_pow2_unfold(d);
        let h = pow2((d - 1) as nat) as int;
        assert(pow2(d) == 2 * h);
        assert(hi * pow2(k) == pow2(i) * (2 * (h * hi))) by (nonlinear_arith)
            requires
                pow2(k) == pow2(i) * pow2(d),
                pow2(d) == 2 * h,
        ;
        let m = 2 * (h * hi);
        lemma_div_plus_multiple(lo as int, m, pow2(i) as int);
        assert(n / pow2(i) as int == lo as int / pow2(i) as int + m);
        assert(((lo as int / pow2(i) as int) + 2 * (h * hi)) % 2 == (lo as int / pow2(i) as int)
            % 2) by {
            lemma_mod_multiples_vanish(h * hi, lo as int / pow2(i) as int, 2);
        }
    } else {
        let d = (i - k) as nat;
        lemma_pow2_adds(k, d);
        lemma_pow2_pos(d);
        lemma_div_denominator(n, pow2(k) as int, pow2(d) as int);
        lemma_div_plus_multiple(lo as int, hi as int, pow2(k) as int);
        lemma_basic_div(lo as int, pow2(k) as int);
        assert(hi * pow2(k) == pow2(k) * hi) by (nonlinear_arith);
        assert(n / pow2(k) as int == hi as int);
    }
}

proof fn lemma_div_plus_multiple(a: int, m: int, d: int)
    requires
        d > 0,
    ensures
        (a + d * m) / d == a / d + m,
{
    lemma_div_multiples_vanish_fancy(a / d + m, a % d, d);
    lemma_fundamental_div_mod(a, d);
    assert(d * (a / d + m) + a % d == a + d * m) by (nonlinear_arith)
        requires
            a == d * (a / d) + a % d,
    ;
}

/// The value of a bit sequence fits in its length.
pub proof fn lemma_value_bound(s: Seq<Bit>)
    ensures
        value(s) < pow2(s.len()),
    decreases s.len(),
{
    if s.len() == 0 {
        lemma2_to64();
    } else {
        lemma_value_bound(s.drop_last());
        lemma_pow2_unfold(s.len());
        let p = pow2((s.len() - 1) as nat);
        assert(s.last().digit() * p <= p) by (nonlinear_arith)
            requires
                s.last().digit() <= 1,
        ;
    }
}

/// The bits of a sequence are the bits of its value.
pub proof fn lemma_value_bit(s: Seq<Bit>, i: int)
    requires
        0 <= i < s.len(),
    ensures
        int_bit(value(s) as int, i as nat) == (s[i] == Bit::One),
    decreases s.len(),
{
    let k = (s.len() - 1) as nat;
    lemma_value_bound(s.drop_last());
    lemma_split_bit(value(s.drop_last()), s.last().digit(), k, i as nat);
    if i < k {
        lemma_value_bit(s.drop_last(), i);
    } else {
        lemma2_to64();
        assert(int_bit(s.last().digit() as int, 0nat) == (s.last().digit() == 1));
    }
}

/// The value of the low `w` bits of `n` is `n` modulo `2^w`.
pub proof fn lemma_bits_of_value(n: int, w: nat)
    ensures
        value(bits_of(n, w)) == n % pow2(w) as int,
    decreases w,
{
    if w == 0 {
        lemma2_to64();
    } else {
        let k = (w - 1) as nat;
        lemma_bits_of_value(n, k);
        assert(bits_of(n, w).drop_last() =~= bits_of(n, k));
        lemma_pow2_unfold(w);
        lemma_pow2_pos(k);
        let p = pow2(k) as int;
        let q = n / p;
        lemma_fundamental_div_mod(n, p);
        lemma_fundamental_div_mod(q, 2);
        let r = n % p + (q % 2) * p;
        assert(n == (2 * p) * (q / 2) + r) by (nonlinear_arith)
            requires
                n == p * q + n % p,
                q == 2 * (q / 2) + q % 2,
                r == n % p + (q % 2) * p,
        ;
        assert(0 <= r < 2 * p) by (nonlinear_arith)
            requires
                0 <= n % p < p,
                0 <= q % 2 < 2,
                r == n % p + (q % 2) * p,
        ;
        lemma_fundamental_div_mod_converse(n, 2 * p, q / 2, r);
        assert(bits_of(n, w).last().digit() == q % 2);
    }
}

/// A known sequence is determined by its value and its length.
pub proof fn lemma_bits_of_known(s: Seq<Bit>)
    requires
        all_known(s),
    ensures
        bits_of(value(s) as int, s.len()) == s,
{
    assert forall|i: int| 0 <= i < s.len() implies bits_of(value(s) as int, s.len())[i] == s[i] by {
        lemma_value_bit(s, i);
        assert(s[i].known());
    }
    assert(bits_of(value(s) as int, s.len()) =~= s);
}

/// Numbers that agree modulo `2^w` have the same low `w` bits.
pub proof fn lemma_bits_of_mod(n: int, m: int, w: nat)
    requires
        n % pow2(w) as int == m % pow2(w) as int,
    ensures
        bits_of(n, w) == bits_of(m, w),
{
    lemma_bits_of_value(n, w);
    lemma_bits_of_value(m, w);
    lemma_bits_of_known(bits_of(n, w));
    lemma_bits_of_known(bits_of(m, w));
}

pub proof fn lemma_pow2_fits(k: nat)
    requires
        k < 64,
    ensures
        pow2(k) <= u64::MAX,
{
    lemma2_to64();
    lemma2_to64_rest();
    if k < 63 {
        lemma_pow2_strictly_increases(k, 63);
    }
}

/// The bits of a word are the bits of the number it holds.
pub proof fn lemma_word_bit(w: u64, k: int)
    requires
        0 <= k < 64,
    ensures
        word_bit(w, k) == int_bit(w as int, k as nat),
{
    lemma_pow2_fits(k as nat);
    lemma_u64_shr_is_div(w, k as u64);
    let s = w >> (k as u64);
    assert(s & 1 == s % 2) by (bit_vector);
}

/// Words with the same 64 bits are equal.
pub proof fn lemma_word_ext(u: u64, v: u64)
    requires
        forall|k: int| 0 <= k < 64 ==> word_bit(u, k) == word_bit(v, k),
    ensures
        u == v,
{
    lemma2_to64_rest();
    assert forall|i: int| 0 <= i < 64 implies bits_of(u as int, 64)[i] == bits_of(v as int, 64)[i] by {
        lemma_word_bit(u, i);
        lemma_word_bit(v, i);
        assert(word_bit(u, i) == word_bit(v, i));
    }
    assert(bits_of(u as int, 64) =~= bits_of(v as int, 64));
    lemma_bits_of_value(u as int, 64);
    lemma_bits_of_value(v as int, 64);
    lemma_small_mod(u as nat, pow2(64));
    lemma_small_mod(v as nat, pow2(64));
}

pub proof fn lemma_limbs_bound(a: Seq<u64>)
    ensures
        limbs_value(a) < pow2(64 * a.len()),
    decreases a.len(),
{
    if a.len() == 0 {
        lemma2_to64();
    } else {
        lemma_limbs_bound(a.drop_last());
        let k = (64 * (a.len() - 1)) as nat;
        lemma_pow2_adds(k, 64);
        lemma2_to64_rest();
        assert(limbs_value(a.drop_last()) + a.last() as nat * pow2(k) < pow2(k) * pow2(64))
            by (nonlinear_arith)
            requires
                limbs_value(a.drop_last()) < pow2(k),
                a.last() as nat + 1 <= pow2(64),
        ;
    }
}

/// The bits of a word array are the bits of the number it holds.
pub proof fn lemma_limbs_bit(a: Seq<u64>, i: int)
    requires
        0 <= i < 64 * a.len(),
    ensures
        plane_bit(a, i) == int_bit(limbs_value(a) as int, i as nat),
    decreases a.len(),
{
    let k = (64 * (a.len() - 1)) as nat;
    lemma_limbs_bound(a.drop_last());
    lemma_split_bit(limbs_value(a.drop_last()), a.last() as nat, k, i as nat);
    if i < k {
        lemma_limbs_bit(a.drop_last(), i);
        assert(a.drop_last()[i / 64] == a[i / 64]);
    } else {
        assert(i / 64 == a.len() - 1);
        assert(i % 64 == i - k);
        lemma_word_bit(a.last(), i - k);
    }
}

/// Adding a multiple of a higher power of two leaves the low bits alone.
pub proof fn lemma_bits_of_wrap(n: int, k: int, w: nat, m: nat)
    requires
        w <= m,
    ensures
        bits_of(n + k * pow2(m), w) == bits_of(n, w),
{
    let d = (m - w) as nat;
    lemma_pow2_adds(w, d);
    lemma_pow2_pos(w);
    let a = pow2(d) * k;
    assert(n + k * pow2(m) == pow2(w) * a + n) by (nonlinear_arith)
        requires
            pow2(m) == pow2(w) * pow2(d),
            a == pow2(d) * k,
    ;
    lemma_mod_multiples_vanish(a, n, pow2(w) as int);
    lemma_bits_of_mod(n + k * pow2(m), n, w);
}

/// Numbers that agree in the low `w` bits agree modulo `2^w`.
pub proof fn lemma_mod_by_bits(n: int, m: int, w: nat)
    requires
        forall|i: nat| i < w ==> int_bit(n, i) == int_bit(m, i),
    ensures
        n % pow2(w) as int == m % pow2(w) as int,
{
    assert forall|i: int| 0 <= i < w implies bits_of(n, w)[i] == bits_of(m, w)[i] by {
        assert(int_bit(n, i as nat) == int_bit(m, i as nat));
    }
    assert(bits_of(n, w) =~= bits_of(m, w));
    lemma_bits_of_value(n, w);
    lemma_bits_of_value(m, w);
}

/// Beyond its length, the value of a sequence has no bits.
pub proof fn lemma_value_bit_high(s: Seq<Bit>, i: nat)
    requires
        i >= s.len(),
    ensures
        !int_bit(value(s) as int, i),
{
    lemma_value_bound(s);
    lemma_pow2_pos(i);
    if s.len() < i {
        lemma_pow2_strictly_increases(s.len(), i);
    }
    lemma_basic_div(value(s) as int, pow2(i) as int);
}

/// Word arrays and bit sequences with the same bits hold the same number.
pub proof fn lemma_limbs_of_bits(a: Seq<u64>, s: Seq<Bit>)
    requires
        s.len() <= 64 * a.len(),
        forall|i: int|
            0 <= i < 64 * a.len() ==> #[trigger] plane_bit(a, i) == (i < s.len() && s[i]
                == Bit::One),
    ensures
        limbs_value(a) == value(s),
{
    let w = 64 * a.len();
    assert forall|i: nat| i < w implies int_bit(limbs_value(a) as int, i) == int_bit(
        value(s) as int,
        i,
    ) by {
        lemma_limbs_bit(a, i as int);
        assert(plane_bit(a, i as int) == (i < s.len() && s[i as int] == Bit::One));
        if i < s.len() {
            lemma_value_bit(s, i as int);
        } else {
            lemma_value_bit_high(s, i);
        }
    }
    lemma_mod_by_bits(limbs_value(a) as int, value(s) as int, w);
    lemma_limbs_bound(a);
    lemma_value_bound(s);
    if s.len() < w {
        lemma_pow2_strictly_increases(s.len(), w);
    }
    lemma_small_mod(limbs_value(a), pow2(w));
    lemma_small_mod(value(s), pow2(w));
}

/// A word whose bits are the first bits of a sequence holds the sequence's
/// value modulo `2^64`.
pub proof fn lemma_word_of_bits(u: u64, s: Seq<Bit>)
    requires
        forall|i: int|
            0 <= i < 64 ==> #[trigger] word_bit(u, i) == (i < s.len() && s[i] == Bit::One),
    ensures
        u == value(s) % pow2(64),
        s.len() <= 64 ==> u == value(s),
{
    assert forall|i: nat| i < 64 implies int_bit(u as int, i) == int_bit(value(s) as int, i) by {
        lemma_word_bit(u, i as int);
        assert(word_bit(u, i as int) == (i < s.len() && s[i as int] == Bit::One));
        if i < s.len() {
            lemma_value_bit(s, i as int);
        } else {
            lemma_value_bit_high(s, i);
        }
    }
    lemma_mod_by_bits(u as int, value(s) as int, 64);
    lemma2_to64_rest();
    lemma_small_mod(u as nat, pow2(64));
    if s.len() <= 64 {
        lemma_value_bound(s);
        if s.len() < 64 {
            lemma_pow2_strictly_increases(s.len(), 64);
        }
        lemma_small_mod(value(s), pow2(64));
    }
}

/// The highest differing bit decides the order of two equally long sequences.
pub proof fn lemma_value_less(a: Seq<Bit>, b: Seq<Bit>, i: int)
    requires
        a.len() == b.len(),
        0 <= i < a.len(),
        a[i] != Bit::One,
        b[i] == Bit::One,
        forall|j: int| i < j < a.len() ==> (#[trigger] a[j]).digit() == b[j].digit(),
    ensures
        value(a) < value(b),
    decreases a.len(),
{
    let k = (a.len() - 1) as nat;
    if i == k {
        lemma_value_bound(a.drop_last());
        assert(a.last().digit() == 0);
        assert(b.last().digit() == 1);
        let p = pow2(k);
        assert(a.last().digit() * p == 0 && b.last().digit() * p == p) by (nonlinear_arith)
            requires
                a.last().digit() == 0,
                b.last().digit() == 1,
        ;
    } else {
        assert(a.drop_last()[i] == a[i]);
        assert(b.drop_last()[i] == b[i]);
        assert forall|j: int| i < j < a.drop_last().len() implies (#[trigger] a.drop_last()[j]).digit()
            == b.drop_last()[j].digit() by {
            assert(a[j].digit() == b[j].digit());
        }
        lemma_value_less(a.drop_last(), b.drop_last(), i);
        assert(a[k as int].digit() == b[k as int].digit());
    }
}

/// Sequences with the same digits have the same value.
pub proof fn lemma_value_same(a: Seq<Bit>, b: Seq<Bit>)
    requires
        a.len() == b.len(),
        forall|j: int| 0 <= j < a.len() ==> (#[trigger] a[j]).digit() == b[j].digit(),
    ensures
        value(a) == value(b),
    decreases a.len(),
{
    if a.len() > 0 {
        assert forall|j: int| 0 <= j < a.drop_last().len() implies (#[trigger] a.drop_last()[j]).digit()
            == b.drop_last()[j].digit() by {
            assert(a[j].digit() == b[j].digit());
        }
        lemma_value_same(a.drop_last(), b.drop_last());
        assert(a[a.len() - 1].digit() == b[a.len() - 1].digit());
    }
}

/// A set bit bounds the value from below.
pub proof fn lemma_value_at_least(s: Seq<Bit>, i: int)
    requires
        0 <= i < s.len(),
        s[i] == Bit::One,
    ensures
        value(s) >= pow2(i as nat),
    decreases s.len(),
{
    let p = pow2((s.len() - 1) as nat);
    assert(s.last().digit() * p >= 0) by (nonlinear_arith);
    if i < s.len() - 1 {
        lemma_value_at_least(s.drop_last(), i);
    } else {
        assert(s.last().digit() * p == p) by (nonlinear_arith)
            requires
                s.last().digit() == 1,
        ;
    }
}

/// Without a `1` from position `k` up, the first `k` bits hold the value.
pub proof fn lemma_value_prefix(s: Seq<Bit>, k: int)
    requires
        0 <= k <= s.len(),
        forall|i: int| k <= i < s.len() ==> #[trigger] s[i] != Bit::One,
    ensures
        value(s) == value(s.take(k)),
    decreases s.len(),
{
    if k == s.len() {
        assert(s.take(k) =~= s);
    } else {
        let p = pow2((s.len() - 1) as nat);
        assert(s[s.len() - 1] != Bit::One);
        assert(s.last().digit() * p == 0) by (nonlinear_arith)
            requires
                s.last().digit() == 0,
        ;
        assert forall|i: int| k <= i < s.drop_last().len() implies #[trigger] s.drop_last()[i]
            != Bit::One by {
            assert(s[i] != Bit::One);
        }
        lemma_value_prefix(s.drop_last(), k);
        assert(s.drop_last().take(k) =~= s.take(k));
    }
}

/// Zero extension keeps the number.
pub proof fn lemma_zero_extended_value(s: Seq<Bit>, w: nat)
    requires
        s.len() <= w,
    ensures
        value(resized(s, w, false)) == value(s),
{
    let r = resized(s, w, false);
    lemma_value_prefix(r, s.len() as int);
    assert(r.take(s.len() as int) =~= s);
}

} // verus!
