//! Laws of the checks: what is accepted, exactly.
use vstd::prelude::*;

use crate::ast::{DriveStrengthSpec, NetKind};
use crate::ast_model::{ExprV, LvalueV, ModuleItemV, ModuleV, StmtV, TimingControlV};
use crate::bit::Bit;
use crate::bits::all_known;
use crate::complaint::either;
use crate::const_expr::const_value;
use crate::const_fold::folded_const;
use crate::delay_check::{delay_value_complaint, strength_complaint};
use crate::net_check::{
    assign_complaint, is_drivable, is_module_net, module_signal, net_expr_complaint,
    net_expr_width, net_exprs_width, written_net, written_net_in, written_net_in_arms,
};
use crate::stmt_check::{
    constant_over, control_complaint, expr_complaint, exprs_complaint, lvalue_complaint,
    stmt_complaint, stmts_complaint,
};

verus! {

// ---- widths -----------------------------------------------------------------------------

/// Whether every literal of an expression has a width that counts.
pub open spec fn literals_fit(e: ExprV) -> bool
    decreases e,
{
    match e {
        ExprV::Literal(bits) => bits.len() <= u32::MAX,
        ExprV::Unary { op, operand } => literals_fit(*operand),
        ExprV::Binary { op, lhs, rhs } => literals_fit(*lhs) && literals_fit(*rhs),
        _ => true,
    }
}

/// The width that an expression is taken to have is the number of bits of its value.
pub proof fn widths_are_those_of_the_values(m: ModuleV, e: ExprV)
    requires
        const_value(e) is Some,
        literals_fit(e),
    ensures
        net_expr_width(m, e) is Some,
        net_expr_width(m, e)->0 == (const_value(e)->0).len(),
    decreases e,
{
    match e {
        ExprV::Unary { op, operand } => widths_are_those_of_the_values(m, *operand),
        ExprV::Binary { op, lhs, rhs } => {
            widths_are_those_of_the_values(m, *lhs);
            widths_are_those_of_the_values(m, *rhs);
        },
        _ => {},
    }
}

/// A signal has the width that it is declared with, and a concatenation that of its parts
/// together.
pub proof fn widths_of_signals_and_concatenations(m: ModuleV, name: Seq<char>, parts: Seq<ExprV>, last: ExprV)
    ensures
        net_expr_width(m, ExprV::Ref(name)) == (match module_signal(m, name) {
            Some((w, signed)) => Some(w),
            None => None,
        }),
        net_expr_width(m, ExprV::Concat(Seq::empty())) == Some(0u32),
        net_expr_width(m, ExprV::Concat(parts)) is Some && net_expr_width(m, last) is Some
            && net_expr_width(m, ExprV::Concat(parts))->0 + net_expr_width(m, last)->0 <= u32::MAX
            ==> net_expr_width(m, ExprV::Concat(parts.push(last))) is Some && net_expr_width(
            m,
            ExprV::Concat(parts.push(last)),
        )->0 == net_expr_width(m, ExprV::Concat(parts))->0 + net_expr_width(m, last)->0,
{
    let all = parts.push(last);
    assert(all.drop_last() =~= parts);
    assert(all.last() == last);
    assert(net_expr_width(m, ExprV::Concat(all)) == net_exprs_width(m, all));
    assert(net_expr_width(m, ExprV::Concat(parts)) == net_exprs_width(m, parts));
    assert(net_exprs_width(m, Seq::<ExprV>::empty()) == Some(0u32));
}

// ---- assignments and delays ----------------------------------------------------------------

/// A continuous assignment is accepted exactly if it drives a whole net that can be driven
/// and is not signed, by an expression that is accepted and of the same width.
pub proof fn accepted_assignments_drive_a_net_of_their_width(m: ModuleV, lhs: LvalueV, rhs: ExprV)
    requires
        module_signal(m, lhs.name) is Some,
    ensures
        assign_complaint(m, lhs, rhs) is None <==> {
            &&& lhs.receiver is None && lhs.index is None && lhs.scope is None
            &&& is_drivable(m, lhs.name)
            &&& !(module_signal(m, lhs.name)->0).1
            &&& net_expr_complaint(m, rhs) is None
            &&& net_expr_width(m, rhs) == Some((module_signal(m, lhs.name)->0).0)
        },
{
}

/// In a continuous assignment names of unsigned signals are accepted, operations on what is
/// accepted, and a fixed bit or part within the width of what it is taken of.
pub proof fn accepted_net_expressions(m: ModuleV, name: Seq<char>, x: ExprV, y: ExprV, i: Seq<Bit>)
    ensures
        net_expr_complaint(m, ExprV::Literal(i)) is None,
        net_expr_complaint(m, ExprV::Ref(name)) is None <==> (module_signal(m, name) matches Some(
            s,
        ) && !s.1),
        forall|op: crate::ast::UnaryOp|
            net_expr_complaint(m, #[trigger] operation(op, x)) is None <==> net_expr_complaint(m, x) is None,
        forall|op: crate::ast::BinOp|
            net_expr_complaint(m, #[trigger] combination(op, x, y)) is None <==> net_expr_complaint(
                m,
                x,
            ) is None && net_expr_complaint(m, y) is None,
        net_expr_complaint(
            m,
            ExprV::Index { base: Box::new(x), index: Box::new(ExprV::Literal(i)) },
        ) is None ==> net_expr_complaint(m, x) is None && all_known(i),
        !(y is Literal) ==> net_expr_complaint(
            m,
            ExprV::Index { base: Box::new(x), index: Box::new(y) },
        ) is Some,
        net_expr_complaint(m, ExprV::Str(name)) is Some,
        net_expr_complaint(m, ExprV::Null) is Some,
{
}

/// An operation on an expression.
pub open spec fn operation(op: crate::ast::UnaryOp, x: ExprV) -> ExprV {
    ExprV::Unary { op, operand: Box::new(x) }
}

/// An operation on two expressions.
pub open spec fn combination(op: crate::ast::BinOp, x: ExprV, y: ExprV) -> ExprV {
    ExprV::Binary { op, lhs: Box::new(x), rhs: Box::new(y) }
}

/// A delay is accepted exactly if it is a constant over the parameters, and, where it needs
/// none of them, has a value that is known and not below zero.
pub proof fn accepted_delays_are_constants(e: ExprV, names: Seq<Seq<char>>, what: Seq<char>)
    ensures
        delay_value_complaint(e, names, what) is None <==> {
            &&& constant_over(e, names)
            &&& constant_over(e, Seq::empty()) ==> {
                let v = folded_const(e, Seq::empty());
                &&& v is Ok
                &&& all_known(v->Ok_0)
                &&& !((v->Ok_0).len() >= 32 && (v->Ok_0).last() == Bit::One)
            }
        },
{
}

/// An assignment may state strengths exactly if its target is no wired net.
pub proof fn strengths_are_not_for_wired_nets(
    m: ModuleV,
    target: Seq<char>,
    strength: Option<DriveStrengthSpec>,
)
    ensures
        strength is None ==> strength_complaint(m, target, strength) is None,
        strength is Some ==> (strength_complaint(m, target, strength) is Some <==> exists|i: int|
            0 <= i < m.items.len() && #[trigger] wires(m.items[i], target)),
{
    if strength_complaint(m, target, strength) is Some {
        let i = choose|i: int|
            0 <= i < m.items.len() && #[trigger] crate::delay_check::is_wired_net(m.items[i], target);
        assert(wires(m.items[i], target));
    }
    if strength is Some && exists|i: int| 0 <= i < m.items.len() && #[trigger] wires(m.items[i], target) {
        let i = choose|i: int| 0 <= i < m.items.len() && #[trigger] wires(m.items[i], target);
        assert(crate::delay_check::is_wired_net(m.items[i], target));
    }
}

/// Whether an item declares a net of a name whose drivers are combined by AND or OR.
pub open spec fn wires(item: ModuleItemV, name: Seq<char>) -> bool {
    match item {
        ModuleItemV::Net(n) => n.name == name && (n.kind == NetKind::Wand || n.kind
            == NetKind::Wor),
        _ => false,
    }
}

// ---- statements ------------------------------------------------------------------------------

/// Whether a statement, or one within it, assigns to a plain name that is a net.
pub open spec fn assigns_net(m: ModuleV, s: StmtV) -> bool
    decreases s,
{
    match s {
        StmtV::Blocking { lhs, rhs } => lhs.receiver is None && lhs.scope is None && is_module_net(
            m,
            lhs.name,
        ),
        StmtV::Nonblocking { lhs, rhs } => lhs.receiver is None && lhs.scope is None
            && is_module_net(m, lhs.name),
        StmtV::Block(list) => one_assigns_net(m, list),
        StmtV::Fork { branches, join } => one_assigns_net(m, branches),
        StmtV::Timed { control, body } => assigns_net(m, *body),
        StmtV::While { cond, body } => assigns_net(m, *body),
        StmtV::DoWhile { cond, body } => assigns_net(m, *body),
        StmtV::Foreach { collection, index, body } => assigns_net(m, *body),
        StmtV::If { cond, then_branch, else_branch } => assigns_net(m, *then_branch) || (
        else_branch matches Some(b) && assigns_net(m, *b)),
        StmtV::Case { expr, items, default } => one_item_assigns_net(m, items) || (
        default matches Some(b) && assigns_net(m, *b)),
        _ => false,
    }
}

/// Whether one of some statements assigns to a net.
pub open spec fn one_assigns_net(m: ModuleV, s: Seq<StmtV>) -> bool
    decreases s,
{
    s.len() > 0 && (one_assigns_net(m, s.drop_last()) || assigns_net(m, s.last()))
}

/// Whether the body of one of some items assigns to a net.
pub open spec fn one_item_assigns_net(m: ModuleV, s: Seq<(Seq<ExprV>, StmtV)>) -> bool
    decreases s,
{
    s.len() > 0 && (one_item_assigns_net(m, s.drop_last()) || assigns_net(m, s[s.len() - 1].1))
}

/// A write to a net is found in a statement exactly if the statement, or one within it,
/// assigns to a net.
pub proof fn net_writes_are_found(m: ModuleV, s: StmtV)
    ensures
        written_net(m, s) is Some <==> assigns_net(m, s),
    decreases s,
{
    match s {
        StmtV::Block(list) => lemma_writes_in(m, list),
        StmtV::Fork { branches, join } => lemma_writes_in(m, branches),
        StmtV::Timed { control, body } => net_writes_are_found(m, *body),
        StmtV::While { cond, body } => net_writes_are_found(m, *body),
        StmtV::DoWhile { cond, body } => net_writes_are_found(m, *body),
        StmtV::Foreach { collection, index, body } => net_writes_are_found(m, *body),
        StmtV::If { cond, then_branch, else_branch } => {
            net_writes_are_found(m, *then_branch);
            if let Some(b) = else_branch {
                net_writes_are_found(m, *b);
            }
        },
        StmtV::Case { expr, items, default } => {
            lemma_writes_in_arms(m, items);
            if let Some(b) = default {
                net_writes_are_found(m, *b);
            }
        },
        _ => {},
    }
}

proof fn lemma_writes_in(m: ModuleV, s: Seq<StmtV>)
    ensures
        written_net_in(m, s) is Some <==> one_assigns_net(m, s),
    decreases s,
{
    if s.len() > 0 {
        net_writes_are_found(m, s[0]);
        lemma_writes_in(m, s.skip(1));
        lemma_one_first(m, s);
        assert(written_net_in(m, s) == either(written_net(m, s[0]), written_net_in(m, s.skip(1))));
    }
}

proof fn lemma_one_first(m: ModuleV, s: Seq<StmtV>)
    requires
        s.len() > 0,
    ensures
        one_assigns_net(m, s) <==> assigns_net(m, s[0]) || one_assigns_net(m, s.skip(1)),
    decreases s.len(),
{
    if s.len() == 1 {
        assert(s.skip(1) =~= Seq::empty());
        assert(s.drop_last() =~= Seq::empty());
        assert(!one_assigns_net(m, Seq::empty()));
    } else {
        lemma_one_first(m, s.drop_last());
        assert(s.drop_last().skip(1) =~= s.skip(1).drop_last());
        assert(s.skip(1).last() == s.last());
    }
}

proof fn lemma_writes_in_arms(m: ModuleV, s: Seq<(Seq<ExprV>, StmtV)>)
    ensures
        written_net_in_arms(m, s) is Some <==> one_item_assigns_net(m, s),
    decreases s,
{
    if s.len() > 0 {
        net_writes_are_found(m, s[0].1);
        lemma_writes_in_arms(m, s.skip(1));
        lemma_one_item_first(m, s);
        assert(written_net_in_arms(m, s) == either(
            written_net(m, s[0].1),
            written_net_in_arms(m, s.skip(1)),
        ));
    }
}

proof fn lemma_one_item_first(m: ModuleV, s: Seq<(Seq<ExprV>, StmtV)>)
    requires
        s.len() > 0,
    ensures
        one_item_assigns_net(m, s) <==> assigns_net(m, s[0].1) || one_item_assigns_net(m, s.skip(1)),
    decreases s.len(),
{
    if s.len() == 1 {
        assert(s.skip(1) =~= Seq::empty());
        assert(s.drop_last() =~= Seq::empty());
        assert(!one_item_assigns_net(m, Seq::empty()));
    } else {
        lemma_one_item_first(m, s.drop_last());
        assert(s.drop_last().skip(1) =~= s.skip(1).drop_last());
        assert(s.skip(1)[s.skip(1).len() - 1] == s[s.len() - 1]);
    }
}

/// Expressions of a list are accepted together exactly if each is.
pub proof fn lists_are_accepted_by_their_members(s: Seq<ExprV>)
    ensures
        exprs_complaint(s) is None <==> forall|i: int|
            0 <= i < s.len() ==> (#[trigger] expr_complaint(s[i])) is None,
    decreases s.len(),
{
    if s.len() > 0 {
        let rest = s.skip(1);
        lists_are_accepted_by_their_members(rest);
        assert(exprs_complaint(s) == either(expr_complaint(s[0]), exprs_complaint(rest)));
        if exprs_complaint(rest) is None {
            assert forall|i: int| 1 <= i < s.len() implies (#[trigger] expr_complaint(s[i])) is None by {
                assert(rest[i - 1] == s[i]);
                assert(expr_complaint(rest[i - 1]) is None);
            }
        } else {
            let i = choose|i: int| 0 <= i < rest.len() && (#[trigger] expr_complaint(rest[i])) is Some;
            assert(rest[i] == s[i + 1]);
            assert(expr_complaint(s[i + 1]) is Some);
        }
    }
}

/// Statements of a list are accepted together exactly if each is.
pub proof fn blocks_are_accepted_by_their_statements(s: Seq<StmtV>, names: Seq<Seq<char>>)
    ensures
        stmts_complaint(s, names) is None <==> forall|i: int|
            0 <= i < s.len() ==> (#[trigger] stmt_complaint(s[i], names)) is None,
    decreases s.len(),
{
    if s.len() > 0 {
        let rest = s.skip(1);
        blocks_are_accepted_by_their_statements(rest, names);
        assert(stmts_complaint(s, names) == either(
            stmt_complaint(s[0], names),
            stmts_complaint(rest, names),
        ));
        if stmts_complaint(rest, names) is None {
            assert forall|i: int| 1 <= i < s.len() implies (#[trigger] stmt_complaint(
                s[i],
                names,
            )) is None by {
                assert(rest[i - 1] == s[i]);
                assert(stmt_complaint(rest[i - 1], names) is None);
            }
        } else {
            let i = choose|i: int|
                0 <= i < rest.len() && (#[trigger] stmt_complaint(rest[i], names)) is Some;
            assert(rest[i] == s[i + 1]);
            assert(stmt_complaint(s[i + 1], names) is Some);
        }
    }
}

/// A statement is accepted exactly if its expressions and its statements are; a delay must
/// be constant, and an event control must wait for one event.
pub proof fn statements_are_accepted_by_their_parts(
    e: ExprV,
    body: StmtV,
    other: StmtV,
    lhs: LvalueV,
    c: TimingControlV,
    names: Seq<Seq<char>>,
)
    ensures
        stmt_complaint(
            StmtV::If {
                cond: e,
                then_branch: Box::new(body),
                else_branch: Some(Box::new(other)),
            },
            names,
        ) is None <==> expr_complaint(e) is None && stmt_complaint(body, names) is None
            && stmt_complaint(other, names) is None,
        stmt_complaint(
            StmtV::If { cond: e, then_branch: Box::new(body), else_branch: None },
            names,
        ) is None <==> expr_complaint(e) is None && stmt_complaint(body, names) is None,
        stmt_complaint(StmtV::While { cond: e, body: Box::new(body) }, names) is None
            <==> expr_complaint(e) is None && stmt_complaint(body, names) is None,
        stmt_complaint(StmtV::DoWhile { cond: e, body: Box::new(body) }, names) is None
            <==> expr_complaint(e) is None && stmt_complaint(body, names) is None,
        stmt_complaint(StmtV::Timed { control: c, body: Box::new(body) }, names) is None
            <==> control_complaint(c, names) is None && stmt_complaint(body, names) is None,
        stmt_complaint(StmtV::Blocking { lhs, rhs: e }, names) is None <==> lvalue_complaint(
            lhs,
        ) is None && expr_complaint(e) is None,
        stmt_complaint(StmtV::Nonblocking { lhs, rhs: e }, names) is None <==> lvalue_complaint(
            lhs,
        ) is None && expr_complaint(e) is None,
        lvalue_complaint(lhs) is None <==> (lhs.receiver matches Some(r) ==> expr_complaint(
            *r,
        ) is None) && (lhs.index matches Some(i) ==> expr_complaint(i) is None),
        stmt_complaint(StmtV::Expr(e), names) is None <==> expr_complaint(e) is None,
        stmt_complaint(StmtV::Trigger(e), names) is None <==> expr_complaint(e) is None,
        stmt_complaint(StmtV::Return(Some(e)), names) is None <==> expr_complaint(e) is None,
        control_complaint(TimingControlV::Delay(e), names) is None <==> constant_over(e, names)
            && expr_complaint(e) is None,
        control_complaint(TimingControlV::Wait(e), names) is None <==> expr_complaint(e) is None,
        c matches TimingControlV::Event(evs) ==> (control_complaint(c, names) is None <==> evs.len()
            == 1 && expr_complaint(evs[0].expr) is None),
{
}

} // verus!
