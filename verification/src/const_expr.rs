//! Constant expressions, and the named constants of parameters and enumerations.
use vstd::prelude::*;
use vstd::arithmetic::power2::{lemma2_to64, lemma2_to64_rest};

use crate::ast::{const_views, expr_view, BinOp, Expr, UnaryOp};
use crate::ast_model::ExprV;
use crate::bit::Bit;
use crate::bits::{
    all_known, and_reduced, arithmetic, bits_of, equal_bit, fill, lemma_bits_of_value, or_reduced,
    relation_bit, resized, value, xor_reduced, zipped, BitOp,
};
use crate::cst::{
    const_int, constant, find, find_deep, find_deep_in, find_in, found, found_deep, found_deep_in,
    found_in, group_cst, has_tag, is_empty, Node, NodeV,
};
use crate::logic::LogicVec;
use crate::lower_expr::{lower_expr, lowered};
use crate::lower_types::{identifier, identifier_of};

verus! {

broadcast use group_cst;

// ---- operators on values ------------------------------------------------------

/// A one-bit value; both unknown states are `x`.
pub open spec fn single(b: Bit) -> Seq<Bit> {
    seq![
        if b.known() {
            b
        } else {
            Bit::X
        },
    ]
}

/// The value of a unary operator.
pub open spec fn unary_value(op: UnaryOp, a: Seq<Bit>) -> Seq<Bit> {
    match op {
        UnaryOp::BitNot => Seq::new(a.len(), |i: int| a[i].inverted()),
        UnaryOp::LogNot => seq![or_reduced(a).inverted()],
        UnaryOp::Neg => if all_known(a) {
            bits_of(-(value(a) as int), a.len())
        } else {
            fill(Bit::X, a.len())
        },
        UnaryOp::Plus => a,
        UnaryOp::ReduceAnd => single(and_reduced(a)),
        UnaryOp::ReduceOr => single(or_reduced(a)),
        UnaryOp::ReduceXor => single(xor_reduced(a)),
    }
}

/// The value of a binary operator.
pub open spec fn binary_value(op: BinOp, a: Seq<Bit>, b: Seq<Bit>) -> Seq<Bit> {
    match op {
        BinOp::Add => arithmetic(a, b, (value(a) + value(b)) as int),
        BinOp::Sub => arithmetic(a, b, value(a) - value(b)),
        BinOp::Mul => arithmetic(a, b, (value(a) * value(b)) as int),
        BinOp::And => zipped(a, b, BitOp::And),
        BinOp::Or => zipped(a, b, BitOp::Or),
        BinOp::Xor => zipped(a, b, BitOp::Xor),
        BinOp::Eq => seq![equal_bit(a, b)],
        BinOp::Neq => seq![equal_bit(a, b).inverted()],
        BinOp::Lt => seq![relation_bit(a, b, value(a) < value(b))],
        BinOp::Gt => seq![relation_bit(a, b, value(a) > value(b))],
        BinOp::Le => seq![relation_bit(a, b, value(a) <= value(b))],
        BinOp::Ge => seq![relation_bit(a, b, value(a) >= value(b))],
        BinOp::Shl => if all_known(b) {
            Seq::new(
                a.len(),
                |i: int|
                    if i >= value(b) {
                        a[i - value(b)]
                    } else {
                        Bit::Zero
                    },
            )
        } else {
            fill(Bit::X, a.len())
        },
        BinOp::Shr => if all_known(b) {
            Seq::new(
                a.len(),
                |i: int|
                    if i + value(b) < a.len() {
                        a[i + value(b)]
                    } else {
                        Bit::Zero
                    },
            )
        } else {
            fill(Bit::X, a.len())
        },
        BinOp::LogAnd => seq![or_reduced(a).conj(or_reduced(b))],
        BinOp::LogOr => seq![or_reduced(a).disj(or_reduced(b))],
    }
}

/// Whether a product can be computed: known operands fit in 64 bits.
pub open spec fn product_fits(op: BinOp, a: Seq<Bit>, b: Seq<Bit>) -> bool {
    op == BinOp::Mul && all_known(a) && all_known(b) ==> a.len() <= 64 && b.len() <= 64
}

/// Apply a unary operator.
pub fn apply_unary(op: UnaryOp, a: &LogicVec) -> (r: LogicVec)
    ensures
        r@ == unary_value(op, a@),
{
    match op {
        UnaryOp::BitNot => a.bitnot(),
        UnaryOp::LogNot => a.lognot(),
        UnaryOp::Neg => a.neg(),
        UnaryOp::Plus => a.clone(),
        UnaryOp::ReduceAnd => LogicVec::from_bit(a.reduce_and()),
        UnaryOp::ReduceOr => LogicVec::from_bit(a.reduce_or()),
        UnaryOp::ReduceXor => LogicVec::from_bit(a.reduce_xor()),
    }
}

/// The shift of a vector of some width that a known value asks for: the width
/// where it asks for more.
fn shift_of(width: u32, b: &LogicVec) -> (r: u32)
    requires
        all_known(b@),
    ensures
        r == (if value(b@) < width {
            value(b@)
        } else {
            width as nat
        }),
{
    let limit = LogicVec::from_u64(width as u64, 32);
    proof {
        lemma2_to64();
        lemma2_to64_rest();
        lemma_bits_of_value(width as int, 32);
    }
    if b.uge(&limit).get_bit(0) == Bit::One {
        return width;
    }
    b.to_u64() as u32
}

/// Apply a binary operator.
pub fn apply_binary(op: BinOp, a: &LogicVec, b: &LogicVec) -> (r: LogicVec)
    requires
        product_fits(op, a@, b@),
    ensures
        r@ == binary_value(op, a@, b@),
{
    match op {
        BinOp::Add => a.add(b),
        BinOp::Sub => a.sub(b),
        BinOp::Mul => a.mul(b),
        BinOp::And => a.bitand(b),
        BinOp::Or => a.bitor(b),
        BinOp::Xor => a.bitxor(b),
        BinOp::Eq => a.eq_logical(b),
        BinOp::Neq => a.ne_logical(b),
        BinOp::Lt => a.ult(b),
        BinOp::Gt => a.ugt(b),
        BinOp::Le => a.ule(b),
        BinOp::Ge => a.uge(b),
        BinOp::Shl => {
            if b.has_unknown() {
                return LogicVec::x(a.width());
            }
            let r = a.shl(shift_of(a.width(), b));
            assert(r@ =~= binary_value(op, a@, b@));
            r
        },
        BinOp::Shr => {
            if b.has_unknown() {
                return LogicVec::x(a.width());
            }
            let r = a.shr(shift_of(a.width(), b));
            assert(r@ =~= binary_value(op, a@, b@));
            r
        },
        BinOp::LogAnd => {
            let r = LogicVec::from_bit(a.reduce_or()).bitand(&LogicVec::from_bit(b.reduce_or()));
            assert(r@ =~= binary_value(op, a@, b@));
            r
        },
        BinOp::LogOr => {
            let r = LogicVec::from_bit(a.reduce_or()).bitor(&LogicVec::from_bit(b.reduce_or()));
            assert(r@ =~= binary_value(op, a@, b@));
            r
        },
    }
}

// ---- constant expressions -----------------------------------------------------

/// The value of an expression of literals and operators.
pub open spec fn const_value(e: ExprV) -> Option<Seq<Bit>>
    decreases e,
{
    match e {
        ExprV::Literal(bits) => Some(bits),
        ExprV::Unary { op, operand } => match const_value(*operand) {
            Some(a) => Some(unary_value(op, a)),
            None => None,
        },
        ExprV::Binary { op, lhs, rhs } => match const_value(*lhs) {
            Some(a) => match const_value(*rhs) {
                Some(b) => Some(binary_value(op, a, b)),
                None => None,
            },
            None => None,
        },
        _ => None,
    }
}

/// Whether every product that evaluating an expression takes can be computed.
pub open spec fn products_fit(e: ExprV) -> bool
    decreases e,
{
    match e {
        ExprV::Unary { op, operand } => products_fit(*operand),
        ExprV::Binary { op, lhs, rhs } => {
            &&& products_fit(*lhs)
            &&& const_value(*lhs) matches Some(a) ==> {
                &&& products_fit(*rhs)
                &&& const_value(*rhs) matches Some(b) ==> product_fits(op, a, b)
            }
        },
        _ => true,
    }
}

/// Bits, if there are some.
pub open spec fn opt_bits(o: Option<LogicVec>) -> Option<Seq<Bit>> {
    match o {
        Some(v) => Some(v@),
        None => None,
    }
}

/// Evaluate an expression of literals and operators, exactly and with unknown
/// bits. A reference has no value here.
pub fn eval_const_expr(expr: &Expr) -> (r: Option<LogicVec>)
    requires
        products_fit(expr@),
    ensures
        opt_bits(r) == const_value(expr@),
    decreases expr,
{
    match expr {
        Expr::Literal(value) => Some(value.clone()),
        Expr::Unary { op, operand } => {
            assert((**operand)@ == expr_view(**operand));
            match eval_const_expr(operand) {
                Some(a) => Some(apply_unary(*op, &a)),
                None => None,
            }
        },
        Expr::Binary { op, lhs, rhs } => {
            assert((**lhs)@ == expr_view(**lhs));
            assert((**rhs)@ == expr_view(**rhs));
            let a: LogicVec = match eval_const_expr(lhs) {
                Some(a) => a,
                None => {
                    return None;
                },
            };
            let b: LogicVec = match eval_const_expr(rhs) {
                Some(b) => b,
                None => {
                    return None;
                },
            };
            Some(apply_binary(*op, &a, &b))
        },
        _ => None,
    }
}

/// Whether a product can be computed.
fn product_is_fit(op: BinOp, a: &LogicVec, b: &LogicVec) -> (r: bool)
    ensures
        r == product_fits(op, a@, b@),
{
    op != BinOp::Mul || a.has_unknown() || b.has_unknown() || (a.width() <= 64 && b.width() <= 64)
}

/// Whether every product that evaluating an expression takes can be computed.
pub fn products_are_fit(e: &Expr) -> (r: bool)
    ensures
        r == products_fit(e@),
    decreases e,
{
    match e {
        Expr::Unary { op, operand } => {
            assert((**operand)@ == expr_view(**operand));
            products_are_fit(operand)
        },
        Expr::Binary { op, lhs, rhs } => {
            assert((**lhs)@ == expr_view(**lhs));
            assert((**rhs)@ == expr_view(**rhs));
            if !products_are_fit(lhs) {
                return false;
            }
            let a: LogicVec = match eval_const_expr(lhs) {
                Some(a) => a,
                None => {
                    return true;
                },
            };
            if !products_are_fit(rhs) {
                return false;
            }
            match eval_const_expr(rhs) {
                Some(b) => product_is_fit(*op, &a, &b),
                None => true,
            }
        },
        _ => true,
    }
}

// ---- named constants ------------------------------------------------------------

/// The initializer of a parameter declaration.
pub open spec fn initializer(n: NodeV) -> Option<NodeV> {
    found_in(found_deep(n, "kTrailingAssign"@), "kExpression"@)
}

/// The name and value of a parameter that is a named constant. The initializer is
/// evaluated; one that has no value gives its first number, or zero.
pub open spec fn param_const(n: NodeV) -> Option<(Seq<char>, Seq<Bit>)> {
    match identifier(found(n, "kParamType"@)) {
        Some(name) => if name.len() == 0 {
            None
        } else {
            let evaluated = match initializer(n) {
                Some(e) => const_value(lowered(e)),
                None => None,
            };
            Some(
                (
                    name,
                    match evaluated {
                        Some(bits) => bits,
                        None => match constant(n) {
                            Some(v) => bits_of(v, 32),
                            None => fill(Bit::Zero, 32),
                        },
                    },
                ),
            )
        },
        None => None,
    }
}

/// Whether every product in the initializer of a parameter can be computed.
pub open spec fn param_fits(n: NodeV) -> bool {
    identifier(found(n, "kParamType"@)) matches Some(name) ==> name.len() > 0 ==> (initializer(
        n,
    ) matches Some(e) ==> products_fit(lowered(e)))
}

/// A named constant, if there is one.
pub open spec fn opt_const(o: Option<(String, LogicVec)>) -> Option<(Seq<char>, Seq<Bit>)> {
    match o {
        Some(p) => Some((p.0@, p.1@)),
        None => None,
    }
}

/// The name and value of a parameter that is a named constant.
///
/// The initializer is evaluated, not reduced to its first number: `(1 << 6)` is
/// 64.
pub fn param_const_pair(n: &Node) -> (r: Option<(String, LogicVec)>)
    requires
        param_fits(n@),
    ensures
        opt_const(r) == param_const(n@),
{
    let name: String = match identifier_of(find(n, "kParamType")) {
        Some(name) => name,
        None => {
            return None;
        },
    };
    if is_empty(&name) {
        return None;
    }
    if let Some(e) = find_in(find_deep(n, "kTrailingAssign"), "kExpression") {
        if let Some(bits) = eval_const_expr(&lower_expr(e)) {
            return Some((name, bits));
        }
    }
    match const_int(n) {
        Some(v) => Some((name, LogicVec::from_i64(v, 32))),
        None => Some((name, LogicVec::zero(32))),
    }
}

/// The value after one, in 32 bits; nothing known follows an unknown value.
pub open spec fn successor(v: Seq<Bit>) -> Seq<Bit> {
    binary_value(BinOp::Add, v, bits_of(1, 32))
}

/// The constants of some enumeration members and the value of the next one.
pub open spec fn enum_fold(ns: Seq<NodeV>) -> (Seq<(Seq<char>, Seq<Bit>)>, Seq<Bit>)
    decreases ns.len(),
{
    if ns.len() == 0 {
        (Seq::empty(), bits_of(0, 32))
    } else {
        let before = enum_fold(ns.drop_last());
        let member = ns.last();
        match identifier(Some(member)) {
            Some(name) => if member.tag == "kEnumName"@ && name.len() > 0 {
                let v = member_value(member, before.1);
                (before.0.push((name, v)), successor(v))
            } else {
                before
            },
            None => before,
        }
    }
}

/// The value that an expression of an enumeration writes, in 32 bits. The
/// expression is evaluated; one that has no value gives its first number.
pub open spec fn written_value(e: NodeV) -> Option<Seq<Bit>> {
    let evaluated = if products_fit(lowered(e)) {
        const_value(lowered(e))
    } else {
        None
    };
    match evaluated {
        Some(bits) => Some(resized(bits, 32, false)),
        None => match constant(e) {
            Some(v) => Some(bits_of(v, 32)),
            None => None,
        },
    }
}

/// The value of an enumeration member: the one written, or the next.
pub open spec fn member_value(member: NodeV, next: Seq<Bit>) -> Seq<Bit> {
    match found_in(found(member, "kTrailingAssign"@), "kExpression"@) {
        Some(e) => match written_value(e) {
            Some(v) => v,
            None => next,
        },
        None => next,
    }
}

/// The constants of the enumeration that a declaration holds.
pub open spec fn enum_consts(n: NodeV) -> Seq<(Seq<char>, Seq<Bit>)> {
    match found_deep_in(found_deep(n, "kEnumType"@), "kEnumNameList"@) {
        Some(list) => enum_fold(list.kids).0,
        None => Seq::empty(),
    }
}

/// The value that an expression of an enumeration writes.
fn lower_written(e: &Node) -> (r: Option<LogicVec>)
    ensures
        opt_bits(r) == written_value(e@),
{
    let x: Expr = lower_expr(e);
    if products_are_fit(&x) {
        if let Some(bits) = eval_const_expr(&x) {
            return Some(bits.resize(32, false));
        }
    }
    match const_int(e) {
        Some(v) => Some(LogicVec::from_i64(v, 32)),
        None => None,
    }
}

/// The constants of the enumeration that a declaration holds. Members count up
/// from zero, or from the last value written.
pub fn enum_const_pairs(n: &Node) -> (r: Vec<(String, LogicVec)>)
    ensures
        const_views(r@) == enum_consts(n@),
{
    let mut out: Vec<(String, LogicVec)> = Vec::new();
    assert(const_views(out@) =~= Seq::<(Seq<char>, Seq<Bit>)>::empty());
    let list: &Node = match find_deep_in(find_deep(n, "kEnumType"), "kEnumNameList") {
        Some(list) => list,
        None => {
            return out;
        },
    };
    let one = LogicVec::from_u64(1, 32);
    let mut next = LogicVec::from_u64(0, 32);
    let mut i: usize = 0;
    assert(enum_fold(list@.kids.take(0)) == (const_views(out@), next@));
    while i < list.kids.len()
        invariant
            i <= list.kids@.len(),
            one@ == bits_of(1, 32),
            enum_fold(list@.kids.take(i as int)) == (const_views(out@), next@),
        decreases list.kids@.len() - i,
    {
        let member: &Node = &list.kids[i];
        let ghost before = out@;
        let ghost upto = list@.kids.take(i as int + 1);
        assert(upto.drop_last() =~= list@.kids.take(i as int));
        assert(upto.last() == member@);
        assert(list@.kids[i as int] == member@);
        i = i + 1;
        if !has_tag(member, "kEnumName") {
            continue;
        }
        let name: String = match identifier_of(Some(member)) {
            Some(name) => name,
            None => {
                continue;
            },
        };
        if is_empty(&name) {
            continue;
        }
        let v: LogicVec = match find_in(find(member, "kTrailingAssign"), "kExpression") {
            Some(e) => match lower_written(e) {
                Some(v) => v,
                None => next,
            },
            None => next,
        };
        next = v.add(&one);
        let ghost pair = (name@, v@);
        out.push((name, v));
        assert(const_views(out@) =~= const_views(before).push(pair));
    }
    assert(list@.kids.take(i as int) =~= list@.kids);
    out
}

} // verus!
