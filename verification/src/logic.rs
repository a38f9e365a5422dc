//! Four-state packed logic vectors.
//!
//! # Encoding
//!
//! Every bit is one of four states `{0, 1, x, z}`. A [`LogicVec`] stores a
//! `width`-bit value as two bit-planes, `aval` and `bval`:
//!
//! | state | `aval` | `bval` |
//! |-------|--------|--------|
//! | `0`   |   0    |   0    |
//! | `1`   |   1    |   0    |
//! | `x`   |   0    |   1    |
//! | `z`   |   1    |   1    |
//!
//! # Storage
//!
//! A width of at most 64 bits is stored inline in two words. Wider vectors
//! spill to heap-allocated limb arrays. Bits at or above `width` are 0 in both
//! planes.
//!
//! # Model
//!
//! The view of a vector is its sequence of bits, least significant first.
use vstd::arithmetic::power2::*;
use vstd::bits::lemma_u64_shl_is_mul;
use vstd::prelude::*;

use crate::bit::Bit;
use crate::bits::{
    all_known, and_reduced, arithmetic, bits_of, equal_bit, fill, int_bit, lemma_bits_of_wrap,
    lemma_limbs_bit, lemma_limbs_of_bits, lemma_pow2_fits, lemma_value_at_least, lemma_value_bound,
    lemma_value_less, lemma_value_prefix, lemma_value_same, lemma_word_bit, lemma_word_ext,
    lemma_word_of_bits, lemma_zero_extended_value, limbs_value, max_nat, merged_bit, min_nat,
    ones_count, or_reduced, plane_bit, relation_bit, resized, selected, signed_value, value, word_bit,
    xor_reduced, zipped, BitOp,
};

verus! {

/// The two limb arrays of a wide vector, little-endian.
#[derive(Debug)]
struct Planes {
    aval: Vec<u64>,
    bval: Vec<u64>,
}

/// Inline storage for at most 64 bits, heap limbs otherwise.
#[derive(Debug)]
enum Repr {
    Small { aval: u64, bval: u64 },
    Wide(Box<Planes>),
}

/// A `width`-bit four-state logic vector. See the module docs for the encoding.
#[derive(Debug)]
pub struct LogicVec {
    width: u32,
    repr: Repr,
}

/// The number of 64-bit limbs that hold `width` bits.
spec fn limb_count(width: nat) -> nat {
    (width + 63) / 64
}

/// The bits of a pair of planes.
spec fn planes_view(a: Seq<u64>, b: Seq<u64>, width: nat) -> Seq<Bit> {
    Seq::new(width, |i: int| Bit::of_planes(plane_bit(a, i), plane_bit(b, i)))
}

/// No bit is set at or above `width`.
spec fn clear_above(a: Seq<u64>, width: nat) -> bool {
    forall|i: int| width <= i < 64 * a.len() ==> !#[trigger] plane_bit(a, i)
}

impl View for LogicVec {
    type V = Seq<Bit>;

    closed spec fn view(&self) -> Seq<Bit> {
        planes_view(self.av(), self.bv(), self.width as nat)
    }
}

/// Mask of the low `width` bits of a single word (`width` in `1..=64`).
fn word_mask(width: u32) -> (m: u64)
    ensures
        forall|k: int| 0 <= k < 64 ==> #[trigger] word_bit(m, k) == (k < width),
{
    if width >= 64 {
        let m: u64 = 0xffff_ffff_ffff_ffff;
        assert forall|k: int| 0 <= k < 64 implies #[trigger] word_bit(m, k) by {
            let j = k as u64;
            assert((0xffff_ffff_ffff_ffffu64 >> j) & 1 == 1) by (bit_vector)
                requires
                    j < 64,
            ;
        }
        m
    } else {
        assert(1u64 << width >= 1) by (bit_vector)
            requires
                width < 64,
        ;
        let m: u64 = (1u64 << width) - 1;
        assert forall|k: int| 0 <= k < 64 implies #[trigger] word_bit(m, k) == (k < width) by {
            let j = k as u64;
            assert(((((1u64 << width) - 1) as u64 >> j) & 1 == 1) == (j < width)) by (bit_vector)
                requires
                    j < 64,
                    width < 64,
            ;
        }
        m
    }
}

fn limbs_for(width: u32) -> (n: usize)
    ensures
        n == limb_count(width as nat),
{
    let q: u32 = width / 64;
    if width % 64 == 0 {
        q as usize
    } else {
        q as usize + 1
    }
}

proof fn lemma_mask_bit(w: u64, m: u64, k: int)
    requires
        0 <= k < 64,
    ensures
        word_bit(w & m, k) == (word_bit(w, k) && word_bit(m, k)),
{
    let j = k as u64;
    assert((((w & m) >> j) & 1 == 1) == (((w >> j) & 1 == 1) && ((m >> j) & 1 == 1)))
        by (bit_vector);
}

proof fn lemma_zero_bit(k: int)
    requires
        0 <= k < 64,
    ensures
        !word_bit(0, k),
{
    let j = k as u64;
    assert((0u64 >> j) & 1 == 0) by (bit_vector);
}

proof fn lemma_ones_bit(k: int)
    requires
        0 <= k < 64,
    ensures
        word_bit(u64::MAX, k),
{
    let j = k as u64;
    assert((0xffff_ffff_ffff_ffffu64 >> j) & 1 == 1) by (bit_vector)
        requires
            j < 64,
    ;
}

/// Clear the bits at or above `width` in the top limb.
fn mask_top(width: u32, a: &mut Vec<u64>)
    requires
        width >= 1,
        old(a)@.len() == limb_count(width as nat),
    ensures
        final(a)@.len() == old(a)@.len(),
        clear_above(final(a)@, width as nat),
        forall|i: int|
            0 <= i < width ==> #[trigger] plane_bit(final(a)@, i) == plane_bit(old(a)@, i),
{
    let top_bits: u32 = width % 64;
    if top_bits != 0 {
        let last: usize = a.len() - 1;
        let m: u64 = word_mask(top_bits);
        let w: u64 = a[last];
        a.set(last, w & m);
        assert forall|i: int| width <= i < 64 * a@.len() implies !#[trigger] plane_bit(a@, i) by {
            assert(i / 64 == last);
            lemma_mask_bit(w, m, i % 64);
        }
        assert forall|i: int| 0 <= i < width implies #[trigger] plane_bit(a@, i) == plane_bit(
            old(a)@,
            i,
        ) by {
            if i / 64 == last {
                lemma_mask_bit(w, m, i % 64);
            }
        }
    }
}

/// Replace bit `off` of a word by the low bit of `b`.
fn put_bit(w: u64, off: u64, b: u64) -> (r: u64)
    requires
        off < 64,
        b <= 1,
    ensures
        forall|k: int|
            0 <= k < 64 ==> #[trigger] word_bit(r, k) == (if k == off {
                b == 1
            } else {
                word_bit(w, k)
            }),
{
    let m: u64 = 1u64 << off;
    let r: u64 = (w & !m) | (b << off);
    assert forall|k: int| 0 <= k < 64 implies #[trigger] word_bit(r, k) == (if k == off {
        b == 1
    } else {
        word_bit(w, k)
    }) by {
        let j = k as u64;
        assert(((((w & !(1u64 << off)) | (b << off)) >> j) & 1 == 1) == (if j == off {
            b == 1
        } else {
            (w >> j) & 1 == 1
        })) by (bit_vector)
            requires
                j < 64,
                off < 64,
                b <= 1,
        ;
    }
    r
}

/// Rewriting one limb of each plane so that only bit `idx` changes updates the
/// bits at `idx` and keeps the rest, above the width included.
proof fn lemma_put_bit(
    av: Seq<u64>,
    bv: Seq<u64>,
    width: nat,
    idx: int,
    a: u64,
    b: u64,
    bit: Bit,
)
    requires
        0 <= idx < width <= 64 * av.len(),
        av.len() == bv.len(),
        clear_above(av, width),
        clear_above(bv, width),
        forall|k: int|
            0 <= k < 64 ==> #[trigger] word_bit(a, k) == (if k == idx % 64 {
                bit.a()
            } else {
                word_bit(av[idx / 64], k)
            }),
        forall|k: int|
            0 <= k < 64 ==> #[trigger] word_bit(b, k) == (if k == idx % 64 {
                bit.b()
            } else {
                word_bit(bv[idx / 64], k)
            }),
    ensures
        clear_above(av.update(idx / 64, a), width),
        clear_above(bv.update(idx / 64, b), width),
        planes_view(av.update(idx / 64, a), bv.update(idx / 64, b), width) == planes_view(
            av,
            bv,
            width,
        ).update(idx, bit),
{
    let an = av.update(idx / 64, a);
    let bn = bv.update(idx / 64, b);
    assert forall|i: int| 0 <= i < 64 * av.len() implies #[trigger] plane_bit(an, i) == (if i == idx {
        bit.a()
    } else {
        plane_bit(av, i)
    }) by {}
    assert forall|i: int| 0 <= i < 64 * av.len() implies #[trigger] plane_bit(bn, i) == (if i == idx {
        bit.b()
    } else {
        plane_bit(bv, i)
    }) by {}
    assert(planes_view(an, bn, width) =~= planes_view(av, bv, width).update(idx, bit));
}

impl LogicVec {
    /// The limbs of the `aval` plane.
    spec fn av(self) -> Seq<u64> {
        match self.repr {
            Repr::Small { aval, .. } => seq![aval],
            Repr::Wide(p) => p.aval@,
        }
    }

    /// The limbs of the `bval` plane.
    spec fn bv(self) -> Seq<u64> {
        match self.repr {
            Repr::Small { bval, .. } => seq![bval],
            Repr::Wide(p) => p.bval@,
        }
    }

    #[verifier::type_invariant]
    spec fn inv(self) -> bool {
        &&& self.width >= 1
        &&& (self.repr is Small <==> self.width <= 64)
        &&& self.av().len() == limb_count(self.width as nat)
        &&& self.bv().len() == limb_count(self.width as nat)
        &&& clear_above(self.av(), self.width as nat)
        &&& clear_above(self.bv(), self.width as nat)
    }

    /// Assemble a vector from limb arrays, clearing what lies above `width`.
    fn from_limbs(width: u32, aval: Vec<u64>, bval: Vec<u64>) -> (r: LogicVec)
        requires
            width >= 1,
            aval@.len() == limb_count(width as nat),
            bval@.len() == limb_count(width as nat),
        ensures
            r@ == planes_view(aval@, bval@, width as nat),
    {
        let mut a: Vec<u64> = aval;
        let mut b: Vec<u64> = bval;
        mask_top(width, &mut a);
        mask_top(width, &mut b);
        assert(planes_view(a@, b@, width as nat) =~= planes_view(aval@, bval@, width as nat));
        if width <= 64 {
            assert(a@ =~= seq![a@[0]]);
            assert(b@ =~= seq![b@[0]]);
            LogicVec { width, repr: Repr::Small { aval: a[0], bval: b[0] } }
        } else {
            LogicVec { width, repr: Repr::Wide(Box::new(Planes { aval: a, bval: b })) }
        }
    }

    /// Build from explicit `(aval, bval)` low words (for `width <= 64`).
    pub fn from_planes_small(aval: u64, bval: u64, width: u32) -> (r: LogicVec)
        requires
            1 <= width <= 64,
        ensures
            r@ == Seq::new(
                width as nat,
                |i: int| Bit::of_planes(word_bit(aval, i), word_bit(bval, i)),
            ),
    {
        let m: u64 = word_mask(width);
        proof {
            assert forall|i: int| 0 <= i < 64 implies #[trigger] plane_bit(seq![aval & m], i) == (i
                < width && word_bit(aval, i)) by {
                lemma_mask_bit(aval, m, i);
            }
            assert forall|i: int| 0 <= i < 64 implies #[trigger] plane_bit(seq![bval & m], i) == (i
                < width && word_bit(bval, i)) by {
                lemma_mask_bit(bval, m, i);
            }
        }
        let r = LogicVec { width, repr: Repr::Small { aval: aval & m, bval: bval & m } };
        assert(r@ =~= Seq::new(
            width as nat,
            |i: int| Bit::of_planes(word_bit(aval, i), word_bit(bval, i)),
        ));
        r
    }

    /// `width` copies of the state with the given planes.
    fn of_fill(width: u32, aval_one: bool, bval_one: bool) -> (r: LogicVec)
        requires
            width >= 1,
        ensures
            r@ == fill(Bit::of_planes(aval_one, bval_one), width as nat),
    {
        let fa: u64 = if aval_one { u64::MAX } else { 0 };
        let fb: u64 = if bval_one { u64::MAX } else { 0 };
        proof {
            assert forall|k: int| 0 <= k < 64 implies #[trigger] word_bit(fa, k) == aval_one by {
                lemma_zero_bit(k);
                lemma_ones_bit(k);
            }
            assert forall|k: int| 0 <= k < 64 implies #[trigger] word_bit(fb, k) == bval_one by {
                lemma_zero_bit(k);
                lemma_ones_bit(k);
            }
        }
        if width <= 64 {
            let r = LogicVec::from_planes_small(fa, fb, width);
            assert(r@ =~= fill(Bit::of_planes(aval_one, bval_one), width as nat));
            r
        } else {
            let n: usize = limbs_for(width);
            let r = LogicVec::from_limbs(width, vec![fa; n], vec![fb; n]);
            assert(r@ =~= fill(Bit::of_planes(aval_one, bval_one), width as nat));
            r
        }
    }

    /// All-zero vector of `width` bits.
    pub fn zero(width: u32) -> (r: LogicVec)
        requires
            width >= 1,
        ensures
            r@ == fill(Bit::Zero, width as nat),
    {
        LogicVec::of_fill(width, false, false)
    }

    /// All-ones (every bit `1`) vector of `width` bits.
    pub fn ones(width: u32) -> (r: LogicVec)
        requires
            width >= 1,
        ensures
            r@ == fill(Bit::One, width as nat),
    {
        LogicVec::of_fill(width, true, false)
    }

    /// All-`x` vector of `width` bits.
    pub fn x(width: u32) -> (r: LogicVec)
        requires
            width >= 1,
        ensures
            r@ == fill(Bit::X, width as nat),
    {
        LogicVec::of_fill(width, false, true)
    }

    /// All-`z` vector of `width` bits.
    pub fn z(width: u32) -> (r: LogicVec)
        requires
            width >= 1,
        ensures
            r@ == fill(Bit::Z, width as nat),
    {
        LogicVec::of_fill(width, true, true)
    }

    /// Number of bits.
    pub fn width(&self) -> (w: u32)
        ensures
            w == self@.len(),
            w >= 1,
    {
        proof {
            use_type_invariant(self);
        }
        self.width
    }

    /// Limb `i` of the `aval` plane, 0 beyond the top.
    fn limb_aval(&self, i: usize) -> (w: u64)
        ensures
            w == (if i < self.av().len() {
                self.av()[i as int]
            } else {
                0
            }),
    {
        match &self.repr {
            Repr::Small { aval, .. } => {
                if i == 0 {
                    *aval
                } else {
                    0
                }
            },
            Repr::Wide(p) => {
                if i < p.aval.len() {
                    p.aval[i]
                } else {
                    0
                }
            },
        }
    }

    /// Limb `i` of the `bval` plane, 0 beyond the top.
    fn limb_bval(&self, i: usize) -> (w: u64)
        ensures
            w == (if i < self.bv().len() {
                self.bv()[i as int]
            } else {
                0
            }),
    {
        match &self.repr {
            Repr::Small { bval, .. } => {
                if i == 0 {
                    *bval
                } else {
                    0
                }
            },
            Repr::Wide(p) => {
                if i < p.bval.len() {
                    p.bval[i]
                } else {
                    0
                }
            },
        }
    }

    /// Read a single bit; 0 beyond the width.
    pub fn get_bit(&self, idx: u32) -> (b: Bit)
        ensures
            b == (if idx < self@.len() {
                self@[idx as int]
            } else {
                Bit::Zero
            }),
    {
        proof {
            use_type_invariant(self);
        }
        if idx >= self.width {
            return Bit::Zero;
        }
        let limb: usize = (idx / 64) as usize;
        let off: u64 = (idx % 64) as u64;
        let a: u64 = self.limb_aval(limb);
        let b: u64 = self.limb_bval(limb);
        Bit::from_planes(a >> off, b >> off)
    }

    /// Write a single bit; indices beyond the width are ignored.
    pub fn set_bit(&mut self, idx: u32, bit: Bit)
        ensures
            final(self)@ == (if idx < old(self)@.len() {
                old(self)@.update(idx as int, bit)
            } else {
                old(self)@
            }),
    {
        proof {
            use_type_invariant(&*self);
        }
        if idx >= self.width {
            return;
        }
        let (ba, bb) = bit.planes();
        let width: u32 = self.width;
        let limb: usize = (idx / 64) as usize;
        let off: u64 = (idx % 64) as u64;
        let ghost av = self.av();
        let ghost bv = self.bv();
        let a: u64 = put_bit(self.limb_aval(limb), off, ba);
        let b: u64 = put_bit(self.limb_bval(limb), off, bb);
        proof {
            lemma_put_bit(av, bv, width as nat, idx as int, a, b, bit);
        }
        let mut whole = LogicVec::zero(1);
        std::mem::swap(self, &mut whole);
        match whole.repr {
            Repr::Small { .. } => {
                assert(seq![a] =~= av.update(limb as int, a));
                assert(seq![b] =~= bv.update(limb as int, b));
                *self = LogicVec { width, repr: Repr::Small { aval: a, bval: b } };
            },
            Repr::Wide(planes) => {
                let mut p: Planes = *planes;
                p.aval.set(limb, a);
                p.bval.set(limb, b);
                *self = LogicVec { width, repr: Repr::Wide(Box::new(p)) };
            },
        }
    }

    /// Build from a `u64` value, zero-extended or truncated to `width` bits.
    /// The result is fully known (no x/z).
    pub fn from_u64(val: u64, width: u32) -> (r: LogicVec)
        requires
            width >= 1,
        ensures
            r@ == bits_of(val as int, width as nat),
    {
        proof {
            assert forall|k: int| 0 <= k < 64 implies !#[trigger] word_bit(0, k) by {
                lemma_zero_bit(k);
            }
        }
        if width <= 64 {
            let r = LogicVec::from_planes_small(val, 0, width);
            proof {
                assert forall|i: int| 0 <= i < width implies r@[i] == bits_of(
                    val as int,
                    width as nat,
                )[i] by {
                    lemma_word_bit(val, i);
                }
                assert(r@ =~= bits_of(val as int, width as nat));
            }
            r
        } else {
            let n: usize = limbs_for(width);
            let mut aval: Vec<u64> = vec![0; n];
            aval.set(0, val);
            let bval: Vec<u64> = vec![0; n];
            proof {
                lemma_extended(aval@, val as int, 0);
                assert forall|i: int| 0 <= i < width implies planes_view(
                    aval@,
                    bval@,
                    width as nat,
                )[i] == bits_of(val as int, width as nat)[i] by {
                    lemma_zero_bit(i % 64);
                    assert(plane_bit(aval@, i) == int_bit(val as int, i as nat));
                }
                assert(planes_view(aval@, bval@, width as nat) =~= bits_of(
                    val as int,
                    width as nat,
                ));
            }
            LogicVec::from_limbs(width, aval, bval)
        }
    }

    /// Build a fully-known vector from a signed `i64`, sign-extended to `width`.
    pub fn from_i64(val: i64, width: u32) -> (r: LogicVec)
        requires
            width >= 1,
        ensures
            r@ == bits_of(val as int, width as nat),
    {
        let low: u64 = val as u64;
        proof {
            lemma_i64_bits(val);
            lemma2_to64_rest();
        }
        if width <= 64 {
            proof {
                if val < 0 {
                    lemma_bits_of_wrap(val as int, 1, width as nat, 64);
                }
            }
            LogicVec::from_u64(low, width)
        } else {
            let n: usize = limbs_for(width);
            let high: u64 = if val < 0 { u64::MAX } else { 0 };
            let mut aval: Vec<u64> = vec![high; n];
            aval.set(0, low);
            let bval: Vec<u64> = vec![0; n];
            proof {
                lemma_extended(aval@, val as int, high);
                assert forall|i: int| 0 <= i < width implies planes_view(
                    aval@,
                    bval@,
                    width as nat,
                )[i] == bits_of(val as int, width as nat)[i] by {
                    lemma_zero_bit(i % 64);
                    assert(plane_bit(aval@, i) == int_bit(val as int, i as nat));
                }
                assert(planes_view(aval@, bval@, width as nat) =~= bits_of(
                    val as int,
                    width as nat,
                ));
            }
            LogicVec::from_limbs(width, aval, bval)
        }
    }

    /// Build from a big-endian sequence of [`Bit`]s (index 0 = MSB), the order
    /// `4'b10xz` is written in source. No bits give the one-bit `0`.
    pub fn from_bits_msb_first(bits: &[Bit]) -> (r: LogicVec)
        requires
            bits@.len() <= u32::MAX,
        ensures
            r@ == (if bits@.len() == 0 {
                seq![Bit::Zero]
            } else {
                bits@.reverse()
            }),
    {
        let n: u32 = bits.len() as u32;
        let width: u32 = if n == 0 { 1 } else { n };
        let mut v = LogicVec::zero(width);
        let mut i: u32 = 0;
        while i < n
            invariant
                n == bits@.len(),
                width == (if n == 0 { 1u32 } else { n }),
                i <= n,
                v@.len() == width,
                forall|k: int| 0 <= k < i ==> v@[k] == bits@[n - 1 - k],
                forall|k: int| i <= k < width ==> v@[k] == Bit::Zero,
            decreases n - i,
        {
            v.set_bit(i, bits[(n - 1 - i) as usize]);
            i = i + 1;
        }
        assert(v@ =~= (if bits@.len() == 0 {
            seq![Bit::Zero]
        } else {
            bits@.reverse()
        }));
        v
    }

    /// True if the vector has no `x` or `z` bits.
    pub fn is_known(&self) -> (r: bool)
        ensures
            r == all_known(self@),
    {
        proof {
            use_type_invariant(self);
        }
        let n: usize = limbs_for(self.width);
        let mut i: usize = 0;
        while i < n
            invariant
                n == self.bv().len(),
                self.inv(),
                i <= n,
                forall|k: int| 0 <= k < 64 * i && k < self.width ==> !#[trigger] plane_bit(
                    self.bv(),
                    k,
                ),
            decreases n - i,
        {
            let w: u64 = self.limb_bval(i);
            if w != 0 {
                proof {
                    let k = lemma_nonzero_bit(w);
                    let g = 64 * i + k;
                    assert(g / 64 == i && g % 64 == k);
                    assert(plane_bit(self.bv(), g));
                    assert(g < self.width);
                    assert(!self@[g].known());
                }
                return false;
            }
            assert forall|k: int| 0 <= k < 64 * (i + 1) && k < self.width implies !#[trigger] plane_bit(
                self.bv(),
                k,
            ) by {
                if k >= 64 * i {
                    assert(k / 64 == i);
                    lemma_zero_bit(k % 64);
                }
            }
            i = i + 1;
        }
        assert forall|k: int| 0 <= k < self@.len() implies (#[trigger] self@[k]).known() by {
            assert(!plane_bit(self.bv(), k));
        }
        true
    }

    /// True if any bit is `x` or `z`.
    pub fn has_unknown(&self) -> (r: bool)
        ensures
            r == !all_known(self@),
    {
        !self.is_known()
    }

    /// Truthiness: true iff at least one bit is a *known* 1. x/z and all-zero
    /// are false. This is the `if (expr)` / `wait (expr)` condition rule.
    pub fn is_true(&self) -> (r: bool)
        ensures
            r == self@.contains(Bit::One),
    {
        proof {
            use_type_invariant(self);
        }
        let n: usize = limbs_for(self.width);
        let mut i: usize = 0;
        while i < n
            invariant
                n == self.av().len(),
                self.inv(),
                i <= n,
                forall|k: int| 0 <= k < 64 * i && k < self.width ==> #[trigger] self@[k] != Bit::One,
            decreases n - i,
        {
            let a: u64 = self.limb_aval(i);
            let b: u64 = self.limb_bval(i);
            let w: u64 = a & !b;
            if w != 0 {
                proof {
                    let k = lemma_nonzero_bit(w);
                    lemma_known_one_bit(a, b, k);
                    let g = 64 * i + k;
                    assert(g / 64 == i && g % 64 == k);
                    assert(plane_bit(self.av(), g));
                    assert(g < self.width);
                    assert(self@[g] == Bit::One);
                }
                return true;
            }
            assert forall|k: int| 0 <= k < 64 * (i + 1) && k < self.width implies #[trigger] self@[k]
                != Bit::One by {
                if k >= 64 * i {
                    assert(k / 64 == i);
                    lemma_zero_bit(k % 64);
                    lemma_known_one_bit(a, b, k % 64);
                }
            }
            i = i + 1;
        }
        false
    }

    /// Value as an unsigned `u64`, with x/z bits read as 0 and bits from 64 up
    /// ignored.
    pub fn to_u64(&self) -> (r: u64)
        ensures
            r == value(self@) % pow2(64),
            self@.len() <= 64 ==> r == value(self@),
    {
        proof {
            use_type_invariant(self);
        }
        let a: u64 = self.limb_aval(0);
        let b: u64 = self.limb_bval(0);
        let r: u64 = a & !b;
        proof {
            assert forall|i: int| 0 <= i < 64 implies #[trigger] word_bit(r, i) == (i < self@.len()
                && self@[i] == Bit::One) by {
                lemma_known_one_bit(a, b, i);
                assert(plane_bit(self.av(), i) == word_bit(a, i));
                assert(plane_bit(self.bv(), i) == word_bit(b, i));
            }
            lemma_word_of_bits(r, self@);
        }
        r
    }

    /// Value as `u64` only if fully known and representable, else `None`.
    pub fn try_to_u64(&self) -> (r: Option<u64>)
        ensures
            r == (if all_known(self@) && value(self@) <= u64::MAX {
                Some(value(self@) as u64)
            } else {
                None
            }),
    {
        proof {
            use_type_invariant(self);
            lemma2_to64_rest();
        }
        if !self.is_known() {
            return None;
        }
        let n: usize = limbs_for(self.width);
        let mut i: usize = 1;
        while i < n
            invariant
                n == self.av().len(),
                self.inv(),
                1 <= i,
                n == 1 || i <= n,
                all_known(self@),
                forall|k: int| 64 <= k < 64 * i && k < self.width ==> #[trigger] self@[k]
                    != Bit::One,
            decreases n - i,
        {
            let w: u64 = self.limb_aval(i);
            if w != 0 {
                proof {
                    lemma2_to64_rest();
                    let k = lemma_nonzero_bit(w);
                    let g = 64 * i + k;
                    assert(g / 64 == i && g % 64 == k);
                    assert(plane_bit(self.av(), g));
                    assert(self@[g].known());
                    assert(self@[g] == Bit::One);
                    lemma_value_at_least(self@, g);
                    if g > 64 {
                        lemma_pow2_strictly_increases(64, g as nat);
                    }
                }
                return None;
            }
            assert forall|k: int| 64 <= k < 64 * (i + 1) && k < self.width implies #[trigger] self@[k]
                != Bit::One by {
                if k >= 64 * i {
                    assert(k / 64 == i);
                    lemma_zero_bit(k % 64);
                }
            }
            i = i + 1;
        }
        let r: u64 = self.to_u64();
        proof {
            if self@.len() > 64 {
                lemma_value_prefix(self@, 64);
                lemma_value_bound(self@.take(64));
                vstd::arithmetic::div_mod::lemma_small_mod(value(self@), pow2(64));
            }
        }
        Some(r)
    }

    /// Sign-extended value as `i64`, with x/z bits read as 0 and bits from 64
    /// up ignored.
    pub fn to_i64(&self) -> (r: i64)
        ensures
            r == signed_value(value(self@) % pow2(64), min_nat(self@.len(), 64)),
    {
        proof {
            use_type_invariant(self);
            lemma2_to64();
            lemma2_to64_rest();
        }
        let raw: u64 = self.to_u64();
        if self.width < 64 {
            let w: u64 = self.width as u64;
            proof {
                lemma_pow2_fits(w as nat);
                lemma_pow2_fits((w - 1) as nat);
                lemma_u64_shl_is_mul(1, w);
                lemma_u64_shl_is_mul(1, (w - 1) as u64);
                lemma_pow2_unfold(w as nat);
                lemma_value_bound(self@);
                lemma_pow2_strictly_increases(w as nat, 64);
                vstd::arithmetic::div_mod::lemma_small_mod(value(self@), pow2(64));
            }
            let sign: u64 = 1u64 << (w - 1);
            let modulus: u64 = 1u64 << w;
            if raw >= sign {
                (raw as i128 - modulus as i128) as i64
            } else {
                raw as i64
            }
        } else if raw >= 0x8000_0000_0000_0000 {
            (raw as i128 - 0x1_0000_0000_0000_0000) as i64
        } else {
            raw as i64
        }
    }

    /// Resize to `new_width`, truncating or zero/sign-extending as needed. A
    /// `z` sign bit extends as `x`.
    pub fn resize(&self, new_width: u32, signed: bool) -> (r: LogicVec)
        requires
            new_width >= 1,
        ensures
            r@ == resized(self@, new_width as nat, signed),
    {
        let width: u32 = self.width();
        let mut out = LogicVec::zero(new_width);
        let copy: u32 = if new_width < width { new_width } else { width };
        let mut i: u32 = 0;
        while i < copy
            invariant
                width == self@.len(),
                copy <= width,
                copy <= new_width,
                i <= copy,
                out@.len() == new_width,
                forall|k: int| 0 <= k < i ==> out@[k] == self@[k],
                forall|k: int| i <= k < new_width ==> out@[k] == Bit::Zero,
            decreases copy - i,
        {
            out.set_bit(i, self.get_bit(i));
            i = i + 1;
        }
        if new_width > width && signed {
            let ext = match self.get_bit(width - 1) {
                Bit::Zero => Bit::Zero,
                Bit::One => Bit::One,
                Bit::X | Bit::Z => Bit::X,
            };
            let mut j: u32 = width;
            while j < new_width
                invariant
                    width == self@.len(),
                    width <= j <= new_width,
                    out@.len() == new_width,
                    forall|k: int| 0 <= k < width ==> out@[k] == self@[k],
                    forall|k: int| width <= k < j ==> out@[k] == ext,
                decreases new_width - j,
            {
                out.set_bit(j, ext);
                j = j + 1;
            }
        }
        assert(out@ =~= resized(self@, new_width as nat, signed));
        out
    }

    /// Case equality (`===`): bit-exact including x/z, widths must match.
    pub fn eq_case(&self, other: &LogicVec) -> (r: bool)
        ensures
            r == (self@ == other@),
    {
        let width: u32 = self.width();
        if width != other.width() {
            return false;
        }
        let mut i: u32 = 0;
        while i < width
            invariant
                width == self@.len(),
                width == other@.len(),
                i <= width,
                forall|k: int| 0 <= k < i ==> self@[k] == other@[k],
            decreases width - i,
        {
            if self.get_bit(i) != other.get_bit(i) {
                return false;
            }
            i = i + 1;
        }
        assert(self@ =~= other@);
        true
    }

    /// Conditional selection: a condition with a known `1` selects `when_true`,
    /// a known zero selects `when_false`, and any other condition merges the
    /// branches, keeping the bits on which they agree and giving `x` elsewhere.
    pub fn conditional(
        condition: &LogicVec,
        when_true: &LogicVec,
        when_false: &LogicVec,
    ) -> (r: LogicVec)
        ensures
            r@ == selected(condition@, when_true@, when_false@),
    {
        let tw: u32 = when_true.width();
        let fw: u32 = when_false.width();
        let width: u32 = if tw > fw { tw } else { fw };
        if condition.is_true() {
            return when_true.resize(width, false);
        }
        if condition.is_known() {
            return when_false.resize(width, false);
        }
        let t = when_true.resize(width, false);
        let f = when_false.resize(width, false);
        let mut merged = LogicVec::x(width);
        let mut i: u32 = 0;
        while i < width
            invariant
                width == t@.len(),
                width == f@.len(),
                width == merged@.len(),
                i <= width,
                forall|k: int| 0 <= k < i ==> merged@[k] == merged_bit(t@[k], f@[k]),
                forall|k: int| i <= k < width ==> merged@[k] == Bit::X,
            decreases width - i,
        {
            let bit = t.get_bit(i);
            if bit == f.get_bit(i) {
                merged.set_bit(i, bit);
            }
            i = i + 1;
        }
        assert(merged@ =~= selected(condition@, when_true@, when_false@));
        merged
    }

    /// A 1-bit vector from a single [`Bit`]; both unknown states give `x`.
    pub fn from_bit(b: Bit) -> (r: LogicVec)
        ensures
            r@ == seq![
                if b.known() {
                    b
                } else {
                    Bit::X
                },
            ],
    {
        let r = match b {
            Bit::Zero => LogicVec::zero(1),
            Bit::One => LogicVec::ones(1),
            Bit::X | Bit::Z => LogicVec::x(1),
        };
        assert(r@ =~= seq![
            if b.known() {
                b
            } else {
                Bit::X
            },
        ]);
        r
    }

    /// A vector of `width` copies of one four-state bit.
    pub fn filled(bit: Bit, width: u32) -> (r: LogicVec)
        requires
            width >= 1,
        ensures
            r@ == fill(bit, width as nat),
    {
        match bit {
            Bit::Zero => LogicVec::zero(width),
            Bit::One => LogicVec::ones(width),
            Bit::X => LogicVec::x(width),
            Bit::Z => LogicVec::z(width),
        }
    }

    /// Logical equality (`==`): a 1-bit result that is `x` if either operand
    /// has any x/z bit, else whether the operands hold the same number.
    pub fn eq_logical(&self, other: &LogicVec) -> (r: LogicVec)
        ensures
            r@ == seq![equal_bit(self@, other@)],
    {
        match self.magnitude(other) {
            Some(o) => LogicVec::of_truth(o == Magnitude::Same),
            None => LogicVec::from_bit(Bit::X),
        }
    }

    /// Logical inequality (`!=`): the 1-bit complement of
    /// [`eq_logical`](Self::eq_logical).
    pub fn ne_logical(&self, other: &LogicVec) -> (r: LogicVec)
        ensures
            r@ == seq![equal_bit(self@, other@).inverted()],
    {
        let eq = self.eq_logical(other);
        let r = eq.lognot();
        assert(r@ =~= seq![equal_bit(self@, other@).inverted()]) by {
            assert(eq@[0] == equal_bit(self@, other@));
            if eq@.contains(Bit::One) {
                assert(eq@[0] == Bit::One);
            }
        }
        r
    }

    /// A 1-bit vector from a truth value.
    fn of_truth(v: bool) -> (r: LogicVec)
        ensures
            r@ == seq![Bit::of_bool(v)],
    {
        LogicVec::from_bit(if v { Bit::One } else { Bit::Zero })
    }

    /// Unsigned magnitude comparison. `None` if either operand has any x/z bit.
    fn magnitude(&self, other: &LogicVec) -> (r: Option<Magnitude>)
        ensures
            r is None <==> !(all_known(self@) && all_known(other@)),
            r == Some(Magnitude::Below) ==> value(self@) < value(other@),
            r == Some(Magnitude::Same) ==> value(self@) == value(other@),
            r == Some(Magnitude::Above) ==> value(self@) > value(other@),
    {
        if self.has_unknown() || other.has_unknown() {
            return None;
        }
        let sw: u32 = self.width();
        let ow: u32 = other.width();
        let w: u32 = if sw > ow { sw } else { ow };
        let a = self.resize(w, false);
        let b = other.resize(w, false);
        proof {
            lemma_zero_extended_value(self@, w as nat);
            lemma_zero_extended_value(other@, w as nat);
        }
        let mut i: u32 = w;
        while i > 0
            invariant
                all_known(self@),
                all_known(other@),
                w == a@.len(),
                w == b@.len(),
                i <= w,
                value(a@) == value(self@),
                value(b@) == value(other@),
                forall|k: int| i <= k < w ==> (#[trigger] a@[k]).digit() == b@[k].digit(),
            decreases i,
        {
            i = i - 1;
            let ai: bool = a.get_bit(i) == Bit::One;
            let bi: bool = b.get_bit(i) == Bit::One;
            if ai != bi {
                if bi {
                    proof {
                        lemma_value_less(a@, b@, i as int);
                    }
                    return Some(Magnitude::Below);
                } else {
                    proof {
                        assert forall|k: int| i < k < w implies (#[trigger] b@[k]).digit()
                            == a@[k].digit() by {
                            assert(a@[k].digit() == b@[k].digit());
                        }
                        lemma_value_less(b@, a@, i as int);
                    }
                    return Some(Magnitude::Above);
                }
            }
        }
        proof {
            lemma_value_same(a@, b@);
        }
        Some(Magnitude::Same)
    }

    /// Unsigned `<` (1-bit, x if either operand has x/z).
    pub fn ult(&self, other: &LogicVec) -> (r: LogicVec)
        ensures
            r@ == seq![relation_bit(self@, other@, value(self@) < value(other@))],
    {
        match self.magnitude(other) {
            Some(o) => LogicVec::of_truth(o == Magnitude::Below),
            None => LogicVec::from_bit(Bit::X),
        }
    }

    /// Unsigned `<=`.
    pub fn ule(&self, other: &LogicVec) -> (r: LogicVec)
        ensures
            r@ == seq![relation_bit(self@, other@, value(self@) <= value(other@))],
    {
        match self.magnitude(other) {
            Some(o) => LogicVec::of_truth(o != Magnitude::Above),
            None => LogicVec::from_bit(Bit::X),
        }
    }

    /// Unsigned `>`.
    pub fn ugt(&self, other: &LogicVec) -> (r: LogicVec)
        ensures
            r@ == seq![relation_bit(self@, other@, value(self@) > value(other@))],
    {
        match self.magnitude(other) {
            Some(o) => LogicVec::of_truth(o == Magnitude::Above),
            None => LogicVec::from_bit(Bit::X),
        }
    }

    /// Unsigned `>=`.
    pub fn uge(&self, other: &LogicVec) -> (r: LogicVec)
        ensures
            r@ == seq![relation_bit(self@, other@, value(self@) >= value(other@))],
    {
        match self.magnitude(other) {
            Some(o) => LogicVec::of_truth(o != Magnitude::Below),
            None => LogicVec::from_bit(Bit::X),
        }
    }

    /// Logical negation (`!`): 1-bit, `x` if the operand is unknown with no
    /// known-1 bit.
    pub fn lognot(&self) -> (r: LogicVec)
        ensures
            r@ == seq![or_reduced(self@).inverted()],
    {
        match self.reduce_or() {
            Bit::One => LogicVec::from_bit(Bit::Zero),
            Bit::Zero => LogicVec::from_bit(Bit::One),
            _ => LogicVec::from_bit(Bit::X),
        }
    }

    /// Reduction OR (`|vec`): 1 if any known-1 bit, x if any unknown and no
    /// known-1, else 0.
    pub fn reduce_or(&self) -> (r: Bit)
        ensures
            r == or_reduced(self@),
    {
        if self.is_true() {
            Bit::One
        } else if self.has_unknown() {
            Bit::X
        } else {
            Bit::Zero
        }
    }

    /// Reduction AND (`&vec`): 1 if all bits known-1, 0 if any known-0,
    /// else x.
    pub fn reduce_and(&self) -> (r: Bit)
        ensures
            r == and_reduced(self@),
    {
        let width: u32 = self.width();
        let mut saw_unknown = false;
        let mut i: u32 = 0;
        while i < width
            invariant
                width == self@.len(),
                i <= width,
                forall|k: int| 0 <= k < i ==> self@[k] != Bit::Zero,
                saw_unknown <==> exists|k: int| 0 <= k < i && !(#[trigger] self@[k]).known(),
            decreases width - i,
        {
            match self.get_bit(i) {
                Bit::Zero => {
                    assert(self@[i as int] == Bit::Zero);
                    return Bit::Zero;
                },
                Bit::X | Bit::Z => {
                    assert(!self@[i as int].known());
                    saw_unknown = true;
                },
                Bit::One => {},
            }
            i = i + 1;
        }
        if saw_unknown {
            Bit::X
        } else {
            Bit::One
        }
    }

    /// Reduction XOR (`^vec`): x if any unknown, else parity of 1 bits.
    pub fn reduce_xor(&self) -> (r: Bit)
        ensures
            r == xor_reduced(self@),
    {
        if self.has_unknown() {
            return Bit::X;
        }
        let width: u32 = self.width();
        let mut odd = false;
        let mut i: u32 = 0;
        while i < width
            invariant
                width == self@.len(),
                i <= width,
                odd == (ones_count(self@.take(i as int)) % 2 == 1),
            decreases width - i,
        {
            if self.get_bit(i) == Bit::One {
                odd = !odd;
            }
            proof {
                let t = self@.take(i + 1);
                assert(t.drop_last() =~= self@.take(i as int));
                assert(t.last() == self@[i as int]);
            }
            i = i + 1;
        }
        assert(self@.take(width as int) =~= self@);
        if odd {
            Bit::One
        } else {
            Bit::Zero
        }
    }

    /// Bitwise NOT (`~`): `~0=1`, `~1=0`, `~x=x`, `~z=x`.
    pub fn bitnot(&self) -> (r: LogicVec)
        ensures
            r@ == Seq::new(self@.len(), |i: int| self@[i].inverted()),
    {
        proof {
            use_type_invariant(self);
        }
        let n: usize = limbs_for(self.width);
        let mut ra: Vec<u64> = Vec::new();
        let mut rb: Vec<u64> = Vec::new();
        let mut i: usize = 0;
        while i < n
            invariant
                n == self.av().len(),
                n == self.bv().len(),
                i <= n,
                ra@.len() == i,
                rb@.len() == i,
                forall|k: int| 0 <= k < i ==> #[trigger] ra@[k] == (!self.av()[k] & !self.bv()[k]),
                forall|k: int| 0 <= k < i ==> #[trigger] rb@[k] == self.bv()[k],
            decreases n - i,
        {
            let a: u64 = self.limb_aval(i);
            let b: u64 = self.limb_bval(i);
            ra.push(!a & !b);
            rb.push(b);
            i = i + 1;
        }
        proof {
            let out = planes_view(ra@, rb@, self.width as nat);
            assert forall|k: int| 0 <= k < self.width implies out[k] == self@[k].inverted() by {
                lemma_not_bit(self.av()[k / 64], self.bv()[k / 64], k % 64);
                assert(ra@[k / 64] == (!self.av()[k / 64] & !self.bv()[k / 64]));
                assert(rb@[k / 64] == self.bv()[k / 64]);
            }
            assert(out =~= Seq::new(self@.len(), |i: int| self@[i].inverted()));
        }
        LogicVec::from_limbs(self.width, ra, rb)
    }

    /// Combine two vectors limb by limb, zero-extending the narrower one.
    fn zip_word(&self, rhs: &LogicVec, op: BitOp) -> (r: LogicVec)
        ensures
            r@ == zipped(self@, rhs@, op),
    {
        proof {
            use_type_invariant(self);
            use_type_invariant(rhs);
        }
        let w: u32 = if self.width > rhs.width { self.width } else { rhs.width };
        let n: usize = limbs_for(w);
        let ghost la = extended(self.av(), n as nat);
        let ghost lb = extended(self.bv(), n as nat);
        let ghost ma = extended(rhs.av(), n as nat);
        let ghost mb = extended(rhs.bv(), n as nat);
        let mut ra: Vec<u64> = Vec::new();
        let mut rb: Vec<u64> = Vec::new();
        let mut i: usize = 0;
        while i < n
            invariant
                i <= n,
                la == extended(self.av(), n as nat),
                lb == extended(self.bv(), n as nat),
                ma == extended(rhs.av(), n as nat),
                mb == extended(rhs.bv(), n as nat),
                ra@.len() == i,
                rb@.len() == i,
                forall|k: int|
                    0 <= k < i ==> (#[trigger] ra@[k], rb@[k]) == op.words(
                        la[k],
                        lb[k],
                        ma[k],
                        mb[k],
                    ),
            decreases n - i,
        {
            let (a, b) = op.combine(
                self.limb_aval(i),
                self.limb_bval(i),
                rhs.limb_aval(i),
                rhs.limb_bval(i),
            );
            ra.push(a);
            rb.push(b);
            i = i + 1;
        }
        proof {
            let out = planes_view(ra@, rb@, w as nat);
            assert forall|k: int| 0 <= k < w implies out[k] == zipped(self@, rhs@, op)[k] by {
                lemma_extended_bit(self.av(), n as nat, self.width as nat, k);
                lemma_extended_bit(self.bv(), n as nat, self.width as nat, k);
                lemma_extended_bit(rhs.av(), n as nat, rhs.width as nat, k);
                lemma_extended_bit(rhs.bv(), n as nat, rhs.width as nat, k);
                let l = k / 64;
                assert((ra@[l], rb@[l]) == op.words(la[l], lb[l], ma[l], mb[l]));
                lemma_op_bit(op, la[l], lb[l], ma[l], mb[l], k % 64);
            }
            assert(out =~= zipped(self@, rhs@, op));
        }
        LogicVec::from_limbs(w, ra, rb)
    }

    /// Bitwise AND (`&`).
    pub fn bitand(&self, rhs: &LogicVec) -> (r: LogicVec)
        ensures
            r@ == zipped(self@, rhs@, BitOp::And),
    {
        self.zip_word(rhs, BitOp::And)
    }

    /// Bitwise OR (`|`).
    pub fn bitor(&self, rhs: &LogicVec) -> (r: LogicVec)
        ensures
            r@ == zipped(self@, rhs@, BitOp::Or),
    {
        self.zip_word(rhs, BitOp::Or)
    }

    /// Bitwise XOR (`^`). Any unknown input bit yields `x`.
    pub fn bitxor(&self, rhs: &LogicVec) -> (r: LogicVec)
        ensures
            r@ == zipped(self@, rhs@, BitOp::Xor),
    {
        self.zip_word(rhs, BitOp::Xor)
    }

    /// Addition. If either operand has any x/z bit the whole result is `x`.
    /// The result has the larger of the two widths; a carry out of it is lost.
    pub fn add(&self, rhs: &LogicVec) -> (r: LogicVec)
        ensures
            r@ == arithmetic(self@, rhs@, (value(self@) + value(rhs@)) as int),
    {
        let sw: u32 = self.width();
        let rw: u32 = rhs.width();
        let w: u32 = if sw > rw { sw } else { rw };
        if self.has_unknown() || rhs.has_unknown() {
            return LogicVec::x(w);
        }
        if w <= 64 {
            let a: u64 = self.to_u64();
            let b: u64 = rhs.to_u64();
            let sum: u64 = a.wrapping_add(b);
            proof {
                lemma2_to64_rest();
                if a + b > u64::MAX {
                    lemma_bits_of_wrap(a + b, -1, w as nat, 64);
                }
            }
            return LogicVec::from_u64(sum, w);
        }
        self.wide_addsub(rhs, false, w)
    }

    /// Subtraction. Same x/z propagation rule as [`add`](Self::add).
    pub fn sub(&self, rhs: &LogicVec) -> (r: LogicVec)
        ensures
            r@ == arithmetic(self@, rhs@, value(self@) - value(rhs@)),
    {
        let sw: u32 = self.width();
        let rw: u32 = rhs.width();
        let w: u32 = if sw > rw { sw } else { rw };
        if self.has_unknown() || rhs.has_unknown() {
            return LogicVec::x(w);
        }
        if w <= 64 {
            let a: u64 = self.to_u64();
            let b: u64 = rhs.to_u64();
            let diff: u64 = a.wrapping_sub(b);
            proof {
                lemma2_to64_rest();
                if a < b {
                    lemma_bits_of_wrap(a - b, 1, w as nat, 64);
                }
            }
            return LogicVec::from_u64(diff, w);
        }
        self.wide_addsub(rhs, true, w)
    }

    /// Multiplication. x/z propagation as in [`add`](Self::add). Known
    /// operands must fit in 64 bits.
    pub fn mul(&self, rhs: &LogicVec) -> (r: LogicVec)
        requires
            all_known(self@) && all_known(rhs@) ==> self@.len() <= 64 && rhs@.len() <= 64,
        ensures
            r@ == arithmetic(self@, rhs@, (value(self@) * value(rhs@)) as int),
    {
        let sw: u32 = self.width();
        let rw: u32 = rhs.width();
        let w: u32 = if sw > rw { sw } else { rw };
        if self.has_unknown() || rhs.has_unknown() {
            return LogicVec::x(w);
        }
        let a: u64 = self.to_u64();
        let b: u64 = rhs.to_u64();
        let product: u64 = a.wrapping_mul(b);
        proof {
            lemma2_to64_rest();
            let p = a * b;
            let q = p / 0x1_0000_0000_0000_0000;
            assert(product == p - q * 0x1_0000_0000_0000_0000);
            lemma_bits_of_wrap(p, -q, w as nat, 64);
            assert(p + (-q) * pow2(64) == product) by (nonlinear_arith)
                requires
                    product == p - q * 0x1_0000_0000_0000_0000,
                    pow2(64) == 0x1_0000_0000_0000_0000,
            ;
        }
        LogicVec::from_u64(product, w)
    }

    /// Two's-complement negation (`-a`), computed as `0 - a`.
    pub fn neg(&self) -> (r: LogicVec)
        ensures
            r@ == (if all_known(self@) {
                bits_of(-(value(self@) as int), self@.len())
            } else {
                fill(Bit::X, self@.len())
            }),
    {
        let zero = LogicVec::zero(self.width());
        proof {
            lemma_value_prefix(zero@, 0);
        }
        zero.sub(self)
    }

    /// Limb-wise addition, or addition of the complement plus one.
    fn wide_addsub(&self, rhs: &LogicVec, subtract: bool, w: u32) -> (r: LogicVec)
        requires
            all_known(self@),
            all_known(rhs@),
            w == max_nat(self@.len(), rhs@.len()),
        ensures
            r@ == bits_of(
                if subtract {
                    value(self@) - value(rhs@)
                } else {
                    (value(self@) + value(rhs@)) as int
                },
                w as nat,
            ),
    {
        proof {
            use_type_invariant(self);
            use_type_invariant(rhs);
        }
        let n: usize = limbs_for(w);
        let ghost la = extended(self.av(), n as nat);
        let ghost lb = extended(rhs.av(), n as nat);
        let ghost mb = if subtract {
            complemented(lb)
        } else {
            lb
        };
        let mut out: Vec<u64> = Vec::new();
        let start: u64 = if subtract { 1 } else { 0 };
        let mut carry: u64 = start;
        let mut i: usize = 0;
        proof {
            lemma2_to64();
        }
        while i < n
            invariant
                i <= n,
                la == extended(self.av(), n as nat),
                lb == extended(rhs.av(), n as nat),
                mb == (if subtract {
                    complemented(lb)
                } else {
                    lb
                }),
                out@.len() == i,
                carry <= 1,
                limbs_value(out@) + carry * pow2((64 * i) as nat) == limbs_value(la.take(i as int))
                    + limbs_value(mb.take(i as int)) + start,
            decreases n - i,
        {
            let a: u64 = self.limb_aval(i);
            let r: u64 = rhs.limb_aval(i);
            let b: u64 = if subtract { !r } else { r };
            let s: u128 = a as u128 + b as u128 + carry as u128;
            let lo: u64 = #[verifier::truncate] (s as u64);
            let hi: u64 = if s > 0xffff_ffff_ffff_ffff { 1 } else { 0 };
            assert(lo as int + hi * 0x1_0000_0000_0000_0000 == s) by {
                assert(s as u64 == s % 0x1_0000_0000_0000_0000) by (bit_vector);
            }
            let ghost before = out@;
            out.push(lo);
            proof {
                lemma_complement_word(r);
                assert(mb[i as int] == b);
                lemma_carry_step(before, la, mb, i as nat, start as nat, carry, lo, hi);
            }
            carry = hi;
            i = i + 1;
        }
        let zeros: Vec<u64> = vec![0; n];
        proof {
            assert(la.take(n as int) =~= la);
            assert(mb.take(n as int) =~= mb);
            let top = pow2((64 * n) as nat);
            assert forall|k: int| 0 <= k < 64 * n implies #[trigger] plane_bit(la, k) == (k
                < self@.len() && self@[k] == Bit::One) by {
                lemma_extended_bit(self.av(), n as nat, self.width as nat, k);
                if k < self@.len() {
                    assert(self@[k].known());
                }
            }
            lemma_limbs_of_bits(la, self@);
            assert forall|k: int| 0 <= k < 64 * n implies #[trigger] plane_bit(lb, k) == (k
                < rhs@.len() && rhs@[k] == Bit::One) by {
                lemma_extended_bit(rhs.av(), n as nat, rhs.width as nat, k);
                if k < rhs@.len() {
                    assert(rhs@[k].known());
                }
            }
            lemma_limbs_of_bits(lb, rhs@);
            let exact = if subtract {
                value(self@) - value(rhs@)
            } else {
                (value(self@) + value(rhs@)) as int
            };
            let got = limbs_value(out@) as int;
            if subtract {
                lemma_complement(lb);
                assert(got == exact + (1 - carry) * top) by (nonlinear_arith)
                    requires
                        got + carry * top == value(self@) + (top - 1 - value(rhs@)) + 1,
                        exact == value(self@) - value(rhs@),
                ;
                lemma_bits_of_wrap(exact, 1 - carry, w as nat, (64 * n) as nat);
            } else {
                assert(got == exact + (-carry) * top) by (nonlinear_arith)
                    requires
                        got + carry * top == value(self@) + value(rhs@),
                        exact == value(self@) + value(rhs@),
                ;
                lemma_bits_of_wrap(exact, -(carry as int), w as nat, (64 * n) as nat);
            }
            assert forall|k: int| 0 <= k < w implies planes_view(out@, zeros@, w as nat)[k]
                == bits_of(got, w as nat)[k] by {
                lemma_limbs_bit(out@, k);
                lemma_zero_bit(k % 64);
            }
            assert(planes_view(out@, zeros@, w as nat) =~= bits_of(got, w as nat));
        }
        LogicVec::from_limbs(w, out, zeros)
    }

    /// Logical left shift by `amt` bits, keeping the width.
    pub fn shl(&self, amt: u32) -> (r: LogicVec)
        ensures
            r@ == Seq::new(
                self@.len(),
                |i: int|
                    if i >= amt {
                        self@[i - amt]
                    } else {
                        Bit::Zero
                    },
            ),
    {
        let width: u32 = self.width();
        let mut out = LogicVec::zero(width);
        let mut i: u32 = 0;
        while i < width
            invariant
                width == self@.len(),
                width == out@.len(),
                i <= width,
                forall|k: int|
                    0 <= k < width ==> #[trigger] out@[k] == (if amt <= k < i {
                        self@[k - amt]
                    } else {
                        Bit::Zero
                    }),
            decreases width - i,
        {
            if i >= amt {
                out.set_bit(i, self.get_bit(i - amt));
            }
            i = i + 1;
        }
        assert(out@ =~= Seq::new(
            self@.len(),
            |i: int|
                if i >= amt {
                    self@[i - amt]
                } else {
                    Bit::Zero
                },
        ));
        out
    }

    /// Logical right shift by `amt` bits (zero fill).
    pub fn shr(&self, amt: u32) -> (r: LogicVec)
        ensures
            r@ == Seq::new(
                self@.len(),
                |i: int|
                    if i + amt < self@.len() {
                        self@[i + amt]
                    } else {
                        Bit::Zero
                    },
            ),
    {
        let width: u32 = self.width();
        let mut out = LogicVec::zero(width);
        let mut i: u32 = 0;
        while i < width && amt < width - i
            invariant
                width == self@.len(),
                width == out@.len(),
                i <= width,
                i == 0 || i - 1 + amt < width,
                forall|k: int|
                    0 <= k < width ==> #[trigger] out@[k] == (if k < i {
                        self@[k + amt]
                    } else {
                        Bit::Zero
                    }),
            decreases width - i,
        {
            out.set_bit(i, self.get_bit(i + amt));
            i = i + 1;
        }
        assert(out@ =~= Seq::new(
            self@.len(),
            |i: int|
                if i + amt < self@.len() {
                    self@[i + amt]
                } else {
                    Bit::Zero
                },
        ));
        out
    }

    /// Part-select `[hi:lo]` (inclusive), returning a `hi-lo+1`-bit vector.
    /// Positions beyond the width read as 0.
    pub fn slice(&self, hi: u32, lo: u32) -> (r: LogicVec)
        requires
            hi >= lo,
            hi - lo < u32::MAX,
        ensures
            r@ == Seq::new(
                (hi - lo + 1) as nat,
                |i: int|
                    if lo + i < self@.len() {
                        self@[lo + i]
                    } else {
                        Bit::Zero
                    },
            ),
    {
        let w: u32 = hi - lo + 1;
        let mut out = LogicVec::zero(w);
        let mut i: u32 = 0;
        while i < w
            invariant
                w == hi - lo + 1,
                w == out@.len(),
                i <= w,
                forall|k: int|
                    0 <= k < i ==> #[trigger] out@[k] == (if lo + k < self@.len() {
                        self@[lo + k]
                    } else {
                        Bit::Zero
                    }),
            decreases w - i,
        {
            out.set_bit(i, self.get_bit(lo + i));
            i = i + 1;
        }
        assert(out@ =~= Seq::new(
            (hi - lo + 1) as nat,
            |i: int|
                if lo + i < self@.len() {
                    self@[lo + i]
                } else {
                    Bit::Zero
                },
        ));
        out
    }

    /// Concatenate `{self, rhs}`: `self` occupies the high bits.
    pub fn concat(&self, rhs: &LogicVec) -> (r: LogicVec)
        requires
            self@.len() + rhs@.len() <= u32::MAX,
        ensures
            r@ == rhs@ + self@,
    {
        let hw: u32 = self.width();
        let lw: u32 = rhs.width();
        let mut out = LogicVec::zero(hw + lw);
        let mut i: u32 = 0;
        while i < lw
            invariant
                lw == rhs@.len(),
                out@.len() == hw + lw,
                i <= lw,
                forall|k: int| 0 <= k < i ==> out@[k] == rhs@[k],
            decreases lw - i,
        {
            out.set_bit(i, rhs.get_bit(i));
            i = i + 1;
        }
        let mut j: u32 = 0;
        while j < hw
            invariant
                lw == rhs@.len(),
                hw == self@.len(),
                hw + lw <= u32::MAX,
                out@.len() == hw + lw,
                j <= hw,
                forall|k: int| 0 <= k < lw ==> out@[k] == rhs@[k],
                forall|k: int| lw <= k < lw + j ==> #[trigger] out@[k] == self@[k - lw],
            decreases hw - j,
        {
            out.set_bit(lw + j, self.get_bit(j));
            j = j + 1;
        }
        assert(out@ =~= rhs@ + self@);
        out
    }
}

impl Clone for LogicVec {
    fn clone(&self) -> (r: LogicVec)
        ensures
            r@ == self@,
    {
        let width: u32 = self.width();
        let r = self.resize(width, false);
        assert(r@ =~= self@);
        r
    }
}

/// `==` on [`LogicVec`] is **case** (bit-exact) equality, so x/z compare equal
/// to themselves. Use [`eq_logical`](LogicVec::eq_logical) for the `==`
/// operator of the language.
impl PartialEq for LogicVec {
    fn eq(&self, other: &LogicVec) -> (r: bool) {
        self.eq_case(other)
    }
}

impl vstd::std_specs::cmp::PartialEqSpecImpl for LogicVec {
    open spec fn obeys_eq_spec() -> bool {
        true
    }

    open spec fn eq_spec(&self, other: &LogicVec) -> bool {
        self@ == other@
    }
}

impl Eq for LogicVec {}

impl BitOp {
    /// The result planes for whole words: `(aa, ab)` and `(ba, bb)` are the
    /// planes of the operands.
    spec fn words(self, aa: u64, ab: u64, ba: u64, bb: u64) -> (u64, u64) {
        match self {
            BitOp::And => {
                let is0 = (!aa & !ab) | (!ba & !bb);
                let is1 = (aa & !ab) & (ba & !bb);
                (is1, !is0 & !is1)
            },
            BitOp::Or => {
                let is1 = (aa & !ab) | (ba & !bb);
                let is0 = (!aa & !ab) & (!ba & !bb);
                (is1, !is1 & !is0)
            },
            BitOp::Xor => ((aa ^ ba) & !(ab | bb), ab | bb),
        }
    }

    fn combine(self, aa: u64, ab: u64, ba: u64, bb: u64) -> (r: (u64, u64))
        ensures
            r == self.words(aa, ab, ba, bb),
    {
        match self {
            BitOp::And => {
                let is0: u64 = (!aa & !ab) | (!ba & !bb);
                let is1: u64 = (aa & !ab) & (ba & !bb);
                (is1, !is0 & !is1)
            },
            BitOp::Or => {
                let is1: u64 = (aa & !ab) | (ba & !bb);
                let is0: u64 = (!aa & !ab) & (!ba & !bb);
                (is1, !is1 & !is0)
            },
            BitOp::Xor => ((aa ^ ba) & !(ab | bb), ab | bb),
        }
    }
}

/// A limb array padded with zero limbs to length `n`.
spec fn extended(a: Seq<u64>, n: nat) -> Seq<u64> {
    Seq::new(
        n,
        |i: int|
            if i < a.len() {
                a[i]
            } else {
                0
            },
    )
}

/// The limb-wise complement.
spec fn complemented(a: Seq<u64>) -> Seq<u64> {
    Seq::new(a.len(), |i: int| !a[i])
}

proof fn lemma_extended_bit(a: Seq<u64>, n: nat, width: nat, k: int)
    requires
        a.len() == limb_count(width),
        a.len() <= n,
        clear_above(a, width),
        0 <= k < 64 * n,
    ensures
        plane_bit(extended(a, n), k) == (k < width && plane_bit(a, k)),
{
    lemma_zero_bit(k % 64);
    if width <= k < 64 * a.len() {
        assert(!plane_bit(a, k));
    }
}

proof fn lemma_complement_word(r: u64)
    ensures
        !r == u64::MAX - r,
{
    assert(!r == 0xffff_ffff_ffff_ffffu64 - r) by (bit_vector);
}

/// A number and its complement add up to all ones.
proof fn lemma_complement(a: Seq<u64>)
    ensures
        limbs_value(complemented(a)) + limbs_value(a) + 1 == pow2(64 * a.len()),
    decreases a.len(),
{
    lemma2_to64();
    lemma2_to64_rest();
    if a.len() > 0 {
        lemma_complement(a.drop_last());
        assert(complemented(a).drop_last() =~= complemented(a.drop_last()));
        lemma_complement_word(a.last());
        let k = (64 * (a.len() - 1)) as nat;
        lemma_pow2_adds(k, 64);
        let p = pow2(k) as int;
        let x = a.last() as int;
        assert((u64::MAX - x) * p + x * p == u64::MAX * p) by (nonlinear_arith);
        assert(p * pow2(64) == u64::MAX * p + p) by (nonlinear_arith)
            requires
                pow2(64) == u64::MAX + 1,
        ;
    }
}

/// One step of a carry chain.
proof fn lemma_carry_step(
    out: Seq<u64>,
    a: Seq<u64>,
    b: Seq<u64>,
    i: nat,
    start: nat,
    carry: u64,
    lo: u64,
    hi: u64,
)
    requires
        out.len() == i,
        i < a.len(),
        i < b.len(),
        limbs_value(out) + carry * pow2(64 * i) == limbs_value(a.take(i as int)) + limbs_value(
            b.take(i as int),
        ) + start,
        lo + hi * 0x1_0000_0000_0000_0000 == a[i as int] + b[i as int] + carry,
    ensures
        limbs_value(out.push(lo)) + hi * pow2(64 * (i + 1)) == limbs_value(a.take(i as int + 1))
            + limbs_value(b.take(i as int + 1)) + start,
{
    lemma2_to64_rest();
    lemma_pow2_adds(64 * i, 64);
    assert(64 * (i + 1) == 64 * i + 64);
    assert(out.push(lo).drop_last() =~= out);
    assert(a.take(i as int + 1).drop_last() =~= a.take(i as int));
    assert(b.take(i as int + 1).drop_last() =~= b.take(i as int));
    let p = pow2(64 * i) as int;
    let x = a[i as int] as int;
    let y = b[i as int] as int;
    assert(lo * p + hi * (p * pow2(64)) == x * p + y * p + carry * p) by (nonlinear_arith)
        requires
            pow2(64) == 0x1_0000_0000_0000_0000,
            lo + hi * 0x1_0000_0000_0000_0000 == x + y + carry,
    ;
}

proof fn lemma_not_bit(a: u64, b: u64, k: int)
    requires
        0 <= k < 64,
    ensures
        Bit::of_planes(word_bit(!a & !b, k), word_bit(b, k)) == Bit::of_planes(
            word_bit(a, k),
            word_bit(b, k),
        ).inverted(),
{
    let j = k as u64;
    assert((((!a & !b) >> j) & 1 == 1) == (!((a >> j) & 1 == 1) && !((b >> j) & 1 == 1)))
        by (bit_vector)
        requires
            j < 64,
    ;
}

proof fn lemma_op_bit(op: BitOp, aa: u64, ab: u64, ba: u64, bb: u64, k: int)
    requires
        0 <= k < 64,
    ensures
        ({
            let (ra, rb) = op.words(aa, ab, ba, bb);
            Bit::of_planes(word_bit(ra, k), word_bit(rb, k)) == op.table(
                Bit::of_planes(word_bit(aa, k), word_bit(ab, k)),
                Bit::of_planes(word_bit(ba, k), word_bit(bb, k)),
            )
        }),
{
    let j = k as u64;
    let (ra, rb) = op.words(aa, ab, ba, bb);
    match op {
        BitOp::And => {
            assert(({
                let p = (aa >> j) & 1 == 1;
                let q = (ab >> j) & 1 == 1;
                let r = (ba >> j) & 1 == 1;
                let s = (bb >> j) & 1 == 1;
                let zero = (!p && !q) || (!r && !s);
                let one = p && !q && r && !s;
                &&& ((ra >> j) & 1 == 1) == one
                &&& ((rb >> j) & 1 == 1) == (!zero && !one)
            })) by (bit_vector)
                requires
                    j < 64,
                    ra == (aa & !ab) & (ba & !bb),
                    rb == !((!aa & !ab) | (!ba & !bb)) & !ra,
            ;
        },
        BitOp::Or => {
            assert(({
                let p = (aa >> j) & 1 == 1;
                let q = (ab >> j) & 1 == 1;
                let r = (ba >> j) & 1 == 1;
                let s = (bb >> j) & 1 == 1;
                let one = (p && !q) || (r && !s);
                let zero = !p && !q && !r && !s;
                &&& ((ra >> j) & 1 == 1) == one
                &&& ((rb >> j) & 1 == 1) == (!zero && !one)
            })) by (bit_vector)
                requires
                    j < 64,
                    ra == (aa & !ab) | (ba & !bb),
                    rb == !ra & !((!aa & !ab) & (!ba & !bb)),
            ;
        },
        BitOp::Xor => {
            assert(({
                let p = (aa >> j) & 1 == 1;
                let q = (ab >> j) & 1 == 1;
                let r = (ba >> j) & 1 == 1;
                let s = (bb >> j) & 1 == 1;
                &&& ((ra >> j) & 1 == 1) == ((p != r) && !q && !s)
                &&& ((rb >> j) & 1 == 1) == (q || s)
            })) by (bit_vector)
                requires
                    j < 64,
                    ra == (aa ^ ba) & !(ab | bb),
                    rb == ab | bb,
            ;
        },
    }
}

/// The outcome of an unsigned magnitude comparison.
#[derive(Clone, Copy, PartialEq, Eq, Structural)]
enum Magnitude {
    Below,
    Same,
    Above,
}

/// A nonzero word has a set bit.
proof fn lemma_nonzero_bit(w: u64) -> (k: int)
    requires
        w != 0,
    ensures
        0 <= k < 64,
        word_bit(w, k),
{
    if forall|k: int| 0 <= k < 64 ==> !word_bit(w, k) {
        assert forall|k: int| 0 <= k < 64 implies word_bit(w, k) == word_bit(0, k) by {
            lemma_zero_bit(k);
            assert(!word_bit(w, k));
        }
        lemma_word_ext(w, 0);
    }
    choose|k: int| 0 <= k < 64 && word_bit(w, k)
}

proof fn lemma_known_one_bit(a: u64, b: u64, k: int)
    requires
        0 <= k < 64,
    ensures
        word_bit(a & !b, k) == (word_bit(a, k) && !word_bit(b, k)),
{
    let j = k as u64;
    assert((((a & !b) >> j) & 1 == 1) == (((a >> j) & 1 == 1) && !((b >> j) & 1 == 1)))
        by (bit_vector)
        requires
            j < 64,
    ;
}

/// The word of an `i64` is its value modulo `2^64`.
proof fn lemma_i64_bits(val: i64)
    ensures
        val >= 0 ==> val as u64 == val as int,
        val < 0 ==> val as u64 == val + 0x1_0000_0000_0000_0000,
{
    assert(val < 0 ==> val as u64 == val + 0x1_0000_0000_0000_0000) by (bit_vector);
}

/// A word array whose low word is `val` modulo `2^64` and whose other words
/// repeat the sign holds the bits of `val`.
proof fn lemma_extended(a: Seq<u64>, val: int, high: u64)
    requires
        a.len() >= 1,
        -0x8000_0000_0000_0000 <= val <= u64::MAX,
        a[0] as int == (if val < 0 {
            val + 0x1_0000_0000_0000_0000
        } else {
            val
        }),
        high == (if val < 0 {
            u64::MAX
        } else {
            0
        }),
        forall|j: int| 1 <= j < a.len() ==> #[trigger] a[j] == high,
    ensures
        forall|i: int| 0 <= i < 64 * a.len() ==> #[trigger] plane_bit(a, i) == int_bit(val, i as nat),
{
    lemma2_to64_rest();
    assert forall|i: int| 0 <= i < 64 * a.len() implies #[trigger] plane_bit(a, i) == int_bit(
        val,
        i as nat,
    ) by {
        if i < 64 {
            lemma_word_bit(a[0], i);
            if val < 0 {
                lemma_bits_of_wrap(val, 1, 64, 64);
                assert(bits_of(val, 64)[i] == bits_of(a[0] as int, 64)[i]);
            }
        } else {
            assert(a[i / 64] == high);
            lemma_zero_bit(i % 64);
            lemma_ones_bit(i % 64);
            lemma_pow2_pos(i as nat);
            if i > 64 {
                lemma_pow2_strictly_increases(64, i as nat);
            }
            if val >= 0 {
                vstd::arithmetic::div_mod::lemma_basic_div(val, pow2(i as nat) as int);
            } else {
                vstd::arithmetic::div_mod::lemma_fundamental_div_mod_converse(
                    val,
                    pow2(i as nat) as int,
                    -1,
                    val + pow2(i as nat),
                );
            }
        }
    }
}

} // verus!
