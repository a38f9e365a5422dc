//! Laws of constant values: what the operators compute, and how folding follows the parts of
//! an expression.
use vstd::prelude::*;

use crate::ast::{BinOp, UnaryOp};
use crate::ast_model::{ExprV, VarDeclV};
use crate::bit::Bit;
use crate::bits::{all_known, fill, lemma_bits_of_value, max_nat, ones_count, value};
use crate::class_layout::{initial_value, shared_value};
use crate::const_expr::{binary_value, const_value, products_fit, unary_value};
use crate::const_fold::{folded_concat, folded_const, part, Consts};
use crate::ir::ValueV;
use crate::table::lookup;
use vstd::arithmetic::power2::{lemma_pow2_pos, pow2};

verus! {

/// A truth value as a constant.
pub open spec fn truth_bit(v: bool) -> Seq<Bit> {
    if v {
        seq![Bit::One]
    } else {
        seq![Bit::Zero]
    }
}

/// On known operands the relations compare the numbers, and on others they are unknown.
pub proof fn relations_compare_numbers(a: Seq<Bit>, b: Seq<Bit>)
    ensures
        all_known(a) && all_known(b) ==> {
            &&& binary_value(BinOp::Eq, a, b) == truth_bit(value(a) == value(b))
            &&& binary_value(BinOp::Neq, a, b) == truth_bit(value(a) != value(b))
            &&& binary_value(BinOp::Lt, a, b) == truth_bit(value(a) < value(b))
            &&& binary_value(BinOp::Gt, a, b) == truth_bit(value(b) < value(a))
            &&& binary_value(BinOp::Le, a, b) == truth_bit(!(value(b) < value(a)))
            &&& binary_value(BinOp::Ge, a, b) == truth_bit(!(value(a) < value(b)))
        },
        !(all_known(a) && all_known(b)) ==> {
            &&& binary_value(BinOp::Eq, a, b) == seq![Bit::X]
            &&& binary_value(BinOp::Neq, a, b) == seq![Bit::X]
            &&& binary_value(BinOp::Lt, a, b) == seq![Bit::X]
            &&& binary_value(BinOp::Gt, a, b) == seq![Bit::X]
            &&& binary_value(BinOp::Le, a, b) == seq![Bit::X]
            &&& binary_value(BinOp::Ge, a, b) == seq![Bit::X]
        },
{
}

/// On known operands a sum, a difference and a product are that of the numbers, as far as
/// the wider operand holds it; on others every bit is unknown.
pub proof fn arithmetic_is_on_numbers(a: Seq<Bit>, b: Seq<Bit>)
    ensures
        ({
            let w = max_nat(a.len(), b.len());
            let all = all_known(a) && all_known(b);
            let sum = binary_value(BinOp::Add, a, b);
            let less = binary_value(BinOp::Sub, a, b);
            let product = binary_value(BinOp::Mul, a, b);
            &&& sum.len() == w && less.len() == w && product.len() == w
            &&& all ==> value(sum) == (value(a) + value(b)) % pow2(w)
            &&& all ==> value(less) == ((value(a) - value(b)) % (pow2(w) as int)) as nat
            &&& all ==> value(product) == (value(a) * value(b)) % pow2(w)
            &&& !all ==> sum == fill(Bit::X, w) && less == fill(Bit::X, w) && product == fill(
                Bit::X,
                w,
            )
        }),
{
    let w = max_nat(a.len(), b.len());
    lemma_pow2_pos(w);
    lemma_bits_of_value((value(a) + value(b)) as int, w);
    lemma_bits_of_value(value(a) - value(b), w);
    lemma_bits_of_value((value(a) * value(b)) as int, w);
}

/// A bit of a constant, a zero beyond its end.
pub open spec fn bit_or_zero(s: Seq<Bit>, i: int) -> Bit {
    if 0 <= i < s.len() {
        s[i]
    } else {
        Bit::Zero
    }
}

/// The bitwise operators work bit by bit, the narrower operand extended by zeros: AND is
/// one where both are, OR where either is, XOR where they differ.
pub proof fn bitwise_operators_work_bit_by_bit(a: Seq<Bit>, b: Seq<Bit>, i: int)
    requires
        0 <= i < max_nat(a.len(), b.len()),
    ensures
        ({
            let x = bit_or_zero(a, i);
            let y = bit_or_zero(b, i);
            let both = binary_value(BinOp::And, a, b)[i];
            let either = binary_value(BinOp::Or, a, b)[i];
            let one = binary_value(BinOp::Xor, a, b)[i];
            &&& both == Bit::One <==> x == Bit::One && y == Bit::One
            &&& both == Bit::Zero <==> x == Bit::Zero || y == Bit::Zero
            &&& either == Bit::One <==> x == Bit::One || y == Bit::One
            &&& either == Bit::Zero <==> x == Bit::Zero && y == Bit::Zero
            &&& x.known() && y.known() ==> one == (if x != y {
                Bit::One
            } else {
                Bit::Zero
            })
            &&& !(x.known() && y.known()) ==> one == Bit::X
            &&& both != Bit::Z && either != Bit::Z
        }),
        binary_value(BinOp::And, a, b).len() == max_nat(a.len(), b.len()),
        binary_value(BinOp::Or, a, b).len() == max_nat(a.len(), b.len()),
        binary_value(BinOp::Xor, a, b).len() == max_nat(a.len(), b.len()),
{
}

/// A shift by a known number moves each bit by that many places, to the left or to the
/// right, and fills with zeros; the width stays.
pub proof fn shifts_move_bits(a: Seq<Bit>, b: Seq<Bit>, i: int)
    requires
        all_known(b),
        0 <= i < a.len(),
    ensures
        binary_value(BinOp::Shl, a, b).len() == a.len(),
        binary_value(BinOp::Shr, a, b).len() == a.len(),
        i + value(b) < a.len() ==> binary_value(BinOp::Shl, a, b)[(i + value(b)) as int] == a[i],
        i < value(b) ==> binary_value(BinOp::Shl, a, b)[i] == Bit::Zero,
        i >= value(b) ==> binary_value(BinOp::Shr, a, b)[i - value(b)] == a[i],
        i + value(b) >= a.len() ==> binary_value(BinOp::Shr, a, b)[i] == Bit::Zero,
{
}

/// Whether some bit is one.
pub open spec fn is_true(s: Seq<Bit>) -> bool {
    exists|i: int| 0 <= i < s.len() && #[trigger] s[i] == Bit::One
}

/// The logical operators combine whether the operands are true: on known operands `&&` is
/// one where both are, `||` where either is, and `!` where the operand is not.
pub proof fn logical_operators_combine_truth(a: Seq<Bit>, b: Seq<Bit>)
    requires
        all_known(a),
        all_known(b),
    ensures
        binary_value(BinOp::LogAnd, a, b) == truth_bit(is_true(a) && is_true(b)),
        binary_value(BinOp::LogOr, a, b) == truth_bit(is_true(a) || is_true(b)),
        unary_value(UnaryOp::LogNot, a) == truth_bit(!is_true(a)),
{
    assert(a.contains(Bit::One) <==> is_true(a));
    assert(b.contains(Bit::One) <==> is_true(b));
}

/// The unary operators on known operands: `~` turns each bit round, `-` gives what added to
/// the operand is zero, `+` changes nothing, and the reductions say whether all bits are
/// one, whether some is, and whether an odd number is.
pub proof fn unary_operators_compute(a: Seq<Bit>, i: int)
    requires
        all_known(a),
        0 <= i < a.len(),
    ensures
        unary_value(UnaryOp::BitNot, a).len() == a.len(),
        unary_value(UnaryOp::BitNot, a)[i] == (if a[i] == Bit::One {
            Bit::Zero
        } else {
            Bit::One
        }),
        unary_value(UnaryOp::Neg, a).len() == a.len(),
        (value(unary_value(UnaryOp::Neg, a)) + value(a)) % pow2(a.len()) == 0,
        unary_value(UnaryOp::Plus, a) == a,
        unary_value(UnaryOp::ReduceAnd, a) == truth_bit(
            forall|k: int| 0 <= k < a.len() ==> #[trigger] a[k] == Bit::One,
        ),
        unary_value(UnaryOp::ReduceOr, a) == truth_bit(is_true(a)),
        unary_value(UnaryOp::ReduceXor, a) == truth_bit(ones_count(a) % 2 == 1),
{
    let w = a.len();
    lemma_pow2_pos(w);
    lemma_bits_of_value(-(value(a) as int), w);
    let p = pow2(w) as int;
    let v = value(a) as int;
    assert(((-v) % p + v) % p == 0) by {
        vstd::arithmetic::div_mod::lemma_add_mod_noop(-v, v, p);
        vstd::arithmetic::div_mod::lemma_mod_twice(-v, p);
        vstd::arithmetic::div_mod::lemma_add_mod_noop((-v) % p, v, p);
        vstd::arithmetic::div_mod::lemma_small_mod(0, p as nat);
    }
    assert(a[i].known());
    assert(a.contains(Bit::One) <==> is_true(a));
    let all = forall|k: int| 0 <= k < a.len() ==> #[trigger] a[k] == Bit::One;
    if a.contains(Bit::Zero) {
        let k = choose|k: int| 0 <= k < a.len() && a[k] == Bit::Zero;
        assert(a[k] != Bit::One);
    } else {
        assert forall|k: int| 0 <= k < a.len() implies #[trigger] a[k] == Bit::One by {
            assert(a[k].known());
            assert(a[k] != Bit::Zero) by {
                if a[k] == Bit::Zero {
                    assert(a.contains(Bit::Zero));
                }
            }
        }
    }
}

/// A part of a constant from one bit to another holds the bits between, the last named
/// lowest, so that a part named upwards is turned round; bits beyond the constant are zero.
pub proof fn parts_hold_the_bits_between(v: Seq<Bit>, left: int, right: int, i: int)
    requires
        0 <= left,
        0 <= right,
        left - right < u32::MAX,
        right - left < u32::MAX,
    ensures
        part(v, left, right) is Ok,
        ({
            let bits = part(v, left, right)->Ok_0;
            &&& left >= right ==> bits.len() == left - right + 1
            &&& left < right ==> bits.len() == right - left + 1
            &&& 0 <= i < bits.len() && left >= right ==> bits[i] == bit_or_zero(v, right + i)
            &&& 0 <= i < bits.len() && left < right ==> bits[i] == bit_or_zero(v, right - i)
        }),
{
}

/// Folding follows the parts of an expression: a literal is itself, a name is the constant
/// of that name, and an operation is the operation on what its operands fold to.
pub proof fn folding_follows_the_parts(op: BinOp, un: UnaryOp, x: ExprV, y: ExprV, name: Seq<char>, bits: Seq<Bit>, consts: Consts)
    ensures
        folded_const(ExprV::Literal(bits), consts) == Ok::<Seq<Bit>, Seq<char>>(bits),
        lookup(consts, name) == Some(bits) ==> folded_const(ExprV::Ref(name), consts) == Ok::<
            Seq<Bit>,
            Seq<char>,
        >(bits),
        folded_const(x, consts) is Ok ==> folded_const(
            ExprV::Unary { op: un, operand: Box::new(x) },
            consts,
        ) == Ok::<Seq<Bit>, Seq<char>>(unary_value(un, folded_const(x, consts)->Ok_0)),
        folded_const(x, consts) is Ok && folded_const(y, consts) is Ok && op != BinOp::Mul
            ==> folded_const(
            ExprV::Binary { op, lhs: Box::new(x), rhs: Box::new(y) },
            consts,
        ) == Ok::<Seq<Bit>, Seq<char>>(
            binary_value(op, folded_const(x, consts)->Ok_0, folded_const(y, consts)->Ok_0),
        ),
        folded_const(x, consts) is Ok && folded_const(y, consts) is Ok && (folded_const(
            x,
            consts,
        )->Ok_0).len() <= 64 && (folded_const(y, consts)->Ok_0).len() <= 64 ==> folded_const(
            ExprV::Binary { op: BinOp::Mul, lhs: Box::new(x), rhs: Box::new(y) },
            consts,
        ) == Ok::<Seq<Bit>, Seq<char>>(
            binary_value(
                BinOp::Mul,
                folded_const(x, consts)->Ok_0,
                folded_const(y, consts)->Ok_0,
            ),
        ),
{
}

/// A concatenation folds to its parts behind each other, the first on the left, where the
/// high bits are.
pub proof fn concatenations_fold_from_the_left(x: ExprV, y: ExprV, consts: Consts)
    requires
        folded_const(x, consts) is Ok,
        folded_const(y, consts) is Ok,
        (folded_const(x, consts)->Ok_0).len() + (folded_const(y, consts)->Ok_0).len() <= u32::MAX,
    ensures
        folded_const(ExprV::Concat(seq![x, y]), consts) == Ok::<Seq<Bit>, Seq<char>>(
            folded_const(y, consts)->Ok_0 + folded_const(x, consts)->Ok_0,
        ),
{
    let s = seq![x, y];
    assert(s.drop_last() =~= seq![x]);
    assert(seq![x].drop_last() =~= Seq::<ExprV>::empty());
    let a = folded_const(x, consts)->Ok_0;
    let b = folded_const(y, consts)->Ok_0;
    assert(a + Seq::<Bit>::empty() =~= a);
    assert(folded_concat(Seq::<ExprV>::empty(), consts) == Ok::<Seq<Bit>, Seq<char>>(Seq::empty()));
    assert(folded_concat(seq![x], consts) == Ok::<Seq<Bit>, Seq<char>>(a));
    assert(folded_concat(s, consts) == Ok::<Seq<Bit>, Seq<char>>(b + a));
}

/// The two ways to evaluate a constant agree: what is a constant of literals folds to the
/// same bits whatever names are known.
pub proof fn literal_constants_fold_to_their_value(e: ExprV, consts: Consts)
    requires
        const_value(e) is Some,
        products_fit(e),
    ensures
        folded_const(e, consts) == Ok::<Seq<Bit>, Seq<char>>(const_value(e)->0),
    decreases e,
{
    match e {
        ExprV::Unary { op, operand } => literal_constants_fold_to_their_value(*operand, consts),
        ExprV::Binary { op, lhs, rhs } => {
            literal_constants_fold_to_their_value(*lhs, consts);
            literal_constants_fold_to_their_value(*rhs, consts);
        },
        _ => {},
    }
}

/// What a field starts with: a handle or a collection with nothing, a string with its
/// text, and a number with its value in as many bits as the field has, extended by its
/// sign where the field is signed.
pub proof fn fields_start_with_their_value(v: VarDeclV, consts: Consts)
    ensures
        v.coll is Some || v.class_name is Some ==> initial_value(v, consts) == Ok::<
            ValueV,
            Seq<char>,
        >(ValueV::Null),
        v.coll is None && v.class_name is None && !v.is_event && v.is_string ==> initial_value(
            v,
            consts,
        ) == Ok::<ValueV, Seq<char>>(
            ValueV::Str(
                match v.init {
                    Some(ExprV::Str(s)) => s,
                    _ => Seq::empty(),
                },
            ),
        ),
        v.coll is None && v.class_name is None && !v.is_event && !v.is_string && v.width > 0
            && initial_value(v, consts) is Ok ==> ({
            let x = initial_value(v, consts)->Ok_0;
            &&& x is Logic
            &&& (x->Logic_0).len() == v.width
            &&& match v.init {
                None => forall|i: int| 0 <= i < v.width ==> #[trigger] (x->Logic_0)[i] == Bit::Zero,
                Some(e) => folded_const(e, consts) is Ok && forall|i: int|
                    0 <= i < v.width && i < (folded_const(e, consts)->Ok_0).len()
                        ==> #[trigger] (x->Logic_0)[i] == (folded_const(e, consts)->Ok_0)[i],
            }
        }),
        v.coll is None ==> shared_value(v, consts) == initial_value(v, consts),
{
}

} // verus!
