//! Folding an expression to a constant: initial values and delays.
use vstd::arithmetic::power2::pow2;
use vstd::prelude::*;

use crate::ast::{const_views, expr_view, exprs_view, BinOp, Expr};
use crate::ast_model::ExprV;
use crate::bit::Bit;
use crate::bits::{fill, max_nat, value};
use crate::const_expr::{apply_binary, apply_unary, binary_value, product_fits, unary_value};
use crate::logic::LogicVec;
use crate::message::text3;
use crate::table::{get_const, lookup};
use crate::text::{decimal, number_text};

verus! {

/// A value, or why there is none.
pub type Made<T> = Result<T, Seq<char>>;

/// Named constants.
pub type Consts = Seq<(Seq<char>, Seq<Bit>)>;

/// What is said of a width that does not fit.
pub open spec fn width_overflow() -> Seq<char> {
    "attempt to add with overflow"@
}

/// What is said of a product that cannot be computed.
pub open spec fn wide_product(a: Seq<Bit>, b: Seq<Bit>) -> Seq<char> {
    "wide multiply (width "@ + decimal(max_nat(a.len(), b.len())) + ") not yet implemented"@
}

/// A bit of a value, zero beyond its top.
pub open spec fn bit_at(v: Seq<Bit>, i: int) -> Bit {
    if 0 <= i < v.len() {
        v[i]
    } else {
        Bit::Zero
    }
}

/// The bound of a part that a value asks for, in 32 bits.
pub open spec fn part_bound(b: Seq<Bit>) -> int {
    ((value(b) % pow2(64)) % 0x1_0000_0000) as int
}

/// The bits of a value from `left` down or up to `right`, in that order.
pub open spec fn part(v: Seq<Bit>, left: int, right: int) -> Made<Seq<Bit>> {
    if left >= right {
        if left - right == u32::MAX {
            Err(width_overflow())
        } else {
            Ok(Seq::new((left - right + 1) as nat, |i: int| bit_at(v, right + i)))
        }
    } else if right - left == u32::MAX {
        Err(width_overflow())
    } else {
        Ok(Seq::new((right - left + 1) as nat, |i: int| bit_at(v, right - i)))
    }
}

/// The constant that an expression folds to. What is not a literal, a named
/// constant or an operator on them is zero.
pub open spec fn folded_const(e: ExprV, consts: Consts) -> Made<Seq<Bit>>
    decreases e,
{
    match e {
        ExprV::Literal(bits) => Ok(bits),
        ExprV::Ref(name) => match lookup(consts, name) {
            Some(bits) => Ok(bits),
            None => Ok(fill(Bit::Zero, 32)),
        },
        ExprV::PartSelect { base, left, right } => match folded_const(*base, consts) {
            Err(m) => Err(m),
            Ok(v) => match folded_const(*left, consts) {
                Err(m) => Err(m),
                Ok(l) => match folded_const(*right, consts) {
                    Err(m) => Err(m),
                    Ok(r) => part(v, part_bound(l), part_bound(r)),
                },
            },
        },
        ExprV::Concat(parts) => if parts.len() == 0 {
            Ok(fill(Bit::Zero, 1))
        } else {
            folded_concat(parts, consts)
        },
        ExprV::Unary { op, operand } => match folded_const(*operand, consts) {
            Err(m) => Err(m),
            Ok(v) => Ok(unary_value(op, v)),
        },
        ExprV::Binary { op, lhs, rhs } => match folded_const(*lhs, consts) {
            Err(m) => Err(m),
            Ok(l) => match folded_const(*rhs, consts) {
                Err(m) => Err(m),
                Ok(r) => folded_binary(op, l, r),
            },
        },
        _ => Ok(fill(Bit::Zero, 32)),
    }
}

/// The constant that a binary operator folds to.
pub open spec fn folded_binary(op: BinOp, l: Seq<Bit>, r: Seq<Bit>) -> Made<Seq<Bit>> {
    if !product_fits(op, l, r) {
        Err(wide_product(l, r))
    } else {
        Ok(binary_value(op, l, r))
    }
}

/// The constant that a concatenation folds to, the first part on top.
pub open spec fn folded_concat(parts: Seq<ExprV>, consts: Consts) -> Made<Seq<Bit>>
    decreases parts,
{
    if parts.len() == 0 {
        Ok(Seq::empty())
    } else {
        match folded_concat(parts.drop_last(), consts) {
            Err(m) => Err(m),
            Ok(v) => match folded_const(parts[parts.len() - 1], consts) {
                Err(m) => Err(m),
                Ok(p) => if v.len() + p.len() > u32::MAX {
                    Err(width_overflow())
                } else {
                    Ok(p + v)
                },
            },
        }
    }
}

/// What a fold gives.
pub open spec fn fold_view(r: Result<LogicVec, String>) -> Made<Seq<Bit>> {
    match r {
        Ok(v) => Ok(v@),
        Err(m) => Err(m@),
    }
}

/// The bits of a value from `left` down or up to `right`.
fn select_part(v: &LogicVec, left: u32, right: u32) -> (r: Result<LogicVec, String>)
    ensures
        fold_view(r) == part(v@, left as int, right as int),
{
    if left >= right {
        if left - right == u32::MAX {
            return Err("attempt to add with overflow".to_owned());
        }
        let out = v.slice(left, right);
        assert(out@ =~= Seq::new(
            (left - right + 1) as nat,
            |i: int| bit_at(v@, right + i),
        ));
        return Ok(out);
    }
    if right - left == u32::MAX {
        return Err("attempt to add with overflow".to_owned());
    }
    let width: u32 = right - left + 1;
    let mut out = LogicVec::zero(width);
    let mut i: u32 = 0;
    while i < width
        invariant
            i <= width,
            width == right - left + 1,
            left < right,
            out@.len() == width,
            forall|j: int| 0 <= j < i ==> #[trigger] out@[j] == bit_at(v@, right - j),
        decreases width - i,
    {
        out.set_bit(i, v.get_bit(right - i));
        i = i + 1;
    }
    assert(out@ =~= Seq::new(width as nat, |i: int| bit_at(v@, right - i)));
    Ok(out)
}

/// Fold the parts of a concatenation.
fn fold_concat(parts: &Vec<Expr>, consts: &Vec<(String, LogicVec)>) -> (r: Result<LogicVec, String>)
    requires
        parts@.len() > 0,
    ensures
        fold_view(r) == folded_concat(exprs_view(parts@), const_views(consts@)),
    decreases parts,
{
    let ghost all = exprs_view(parts@);
    let ghost cs = const_views(consts@);
    assert(all[0] == expr_view(parts@[0]));
    assert(decreases_to!(parts => parts@[0]));
    proof {
        let one = all.take(1);
        assert(one.drop_last() =~= Seq::<ExprV>::empty());
        assert(one[0] == all[0]);
        assert(folded_concat(one.drop_last(), cs) == Ok::<Seq<Bit>, Seq<char>>(Seq::empty()));
        assert(folded_const(all[0], cs) matches Err(m) ==> folded_concat(one, cs) == Err::<
            Seq<Bit>,
            Seq<char>,
        >(m));
    }
    let mut acc: LogicVec = match const_eval_with(&parts[0], consts) {
        Ok(v) => v,
        Err(m) => {
            proof {
                lemma_concat_error(all, cs, 0);
            }
            return Err(m);
        },
    };
    let width: u32 = acc.width();
    assert(acc@.len() == width);
    assert(acc@ + Seq::<Bit>::empty() =~= acc@);
    let mut i: usize = 1;
    while i < parts.len()
        invariant
            1 <= i <= parts@.len(),
            all == exprs_view(parts@),
            cs == const_views(consts@),
            folded_concat(all.take(i as int), cs) == Ok::<Seq<Bit>, Seq<char>>(acc@),
        decreases parts@.len() - i,
    {
        let ghost upto = all.take(i as int + 1);
        assert(upto.drop_last() =~= all.take(i as int));
        assert(upto[upto.len() - 1] == all[i as int]);
        assert(all[i as int] == expr_view(parts@[i as int]));
        assert(decreases_to!(parts => parts@[i as int]));
        let p: LogicVec = match const_eval_with(&parts[i], consts) {
            Ok(p) => p,
            Err(m) => {
                proof {
                    lemma_concat_error(all, cs, i as int);
                }
                return Err(m);
            },
        };
        if acc.width() as u64 + p.width() as u64 > 0xffff_ffff {
            proof {
                lemma_concat_error(all, cs, i as int);
            }
            return Err("attempt to add with overflow".to_owned());
        }
        acc = acc.concat(&p);
        i = i + 1;
    }
    assert(all.take(i as int) =~= all);
    Ok(acc)
}

/// A concatenation fails as its first failing prefix does.
proof fn lemma_concat_error(all: Seq<ExprV>, consts: Consts, i: int)
    requires
        0 <= i < all.len(),
        folded_concat(all.take(i + 1), consts) is Err,
    ensures
        folded_concat(all, consts) == folded_concat(all.take(i + 1), consts),
    decreases all.len() - i,
{
    if i + 1 == all.len() {
        assert(all.take(i + 1) =~= all);
    } else {
        assert(all.take(i + 2).drop_last() =~= all.take(i + 1));
        lemma_concat_error(all, consts, i + 1);
    }
}

/// Fold an expression to a constant.
pub fn const_eval_with(e: &Expr, consts: &Vec<(String, LogicVec)>) -> (r: Result<LogicVec, String>)
    ensures
        fold_view(r) == folded_const(e@, const_views(consts@)),
    decreases e,
{
    match e {
        Expr::Literal(v) => Ok(v.clone()),
        Expr::Ref(name) => match get_const(consts, name.as_str()) {
            Some(v) => Ok(v.clone()),
            None => Ok(LogicVec::zero(32)),
        },
        Expr::PartSelect { base, left, right } => {
            assert((**base)@ == expr_view(**base));
            assert((**left)@ == expr_view(**left));
            assert((**right)@ == expr_view(**right));
            let v: LogicVec = match const_eval_with(base, consts) {
                Ok(v) => v,
                Err(m) => {
                    return Err(m);
                },
            };
            let l: LogicVec = match const_eval_with(left, consts) {
                Ok(l) => l,
                Err(m) => {
                    return Err(m);
                },
            };
            let r: LogicVec = match const_eval_with(right, consts) {
                Ok(r) => r,
                Err(m) => {
                    return Err(m);
                },
            };
            let from: u32 = (l.to_u64() % 0x1_0000_0000) as u32;
            let to: u32 = (r.to_u64() % 0x1_0000_0000) as u32;
            select_part(&v, from, to)
        },
        Expr::Concat(parts) => {
            assert(exprs_view(parts@).len() == parts@.len());
            if parts.len() == 0 {
                Ok(LogicVec::zero(1))
            } else {
                fold_concat(parts, consts)
            }
        },
        Expr::Unary { op, operand } => {
            assert((**operand)@ == expr_view(**operand));
            match const_eval_with(operand, consts) {
                Ok(v) => Ok(apply_unary(*op, &v)),
                Err(m) => Err(m),
            }
        },
        Expr::Binary { op, lhs, rhs } => {
            assert((**lhs)@ == expr_view(**lhs));
            assert((**rhs)@ == expr_view(**rhs));
            let l: LogicVec = match const_eval_with(lhs, consts) {
                Ok(l) => l,
                Err(m) => {
                    return Err(m);
                },
            };
            let r: LogicVec = match const_eval_with(rhs, consts) {
                Ok(r) => r,
                Err(m) => {
                    return Err(m);
                },
            };
            fold_binary(*op, l, r)
        },
        _ => Ok(LogicVec::zero(32)),
    }
}

/// Fold a binary operator.
fn fold_binary(op: BinOp, l: LogicVec, r: LogicVec) -> (out: Result<LogicVec, String>)
    ensures
        fold_view(out) == folded_binary(op, l@, r@),
{
    if op == BinOp::Mul && !l.has_unknown() && !r.has_unknown() && (l.width() > 64 || r.width()
        > 64) {
        let w: u32 = if l.width() > r.width() {
            l.width()
        } else {
            r.width()
        };
        return Err(
            text3("wide multiply (width ", number_text(w as u64).as_str(), ") not yet implemented"),
        );
    }
    Ok(apply_binary(op, &l, &r))
}

/// Fold an expression without named constants.
pub fn const_eval(e: &Expr) -> (r: Result<LogicVec, String>)
    ensures
        fold_view(r) == folded_const(e@, Seq::empty()),
{
    let none: Vec<(String, LogicVec)> = Vec::new();
    assert(const_views(none@) =~= Seq::<(Seq<char>, Seq<Bit>)>::empty());
    const_eval_with(e, &none)
}

} // verus!
