//! Laws of running statements: which code runs, in which order, and when.
//!
//! Each law takes a program that starts with the code of a statement. What stands for the
//! parts of the statement is the code that they compile to, so the law of a statement
//! within a statement applies to it in turn.
use vstd::prelude::*;

use crate::ast_model::{ExprV, StmtV};
use crate::code_model::{binds, group_code, lemma_grows, linked};
use crate::gen_laws::expressions_link;
use crate::gen_model::expr_code;
use crate::gen_stmt_model::{
    block_code, do_while_code, foreach_code, if_code, in_foreach, in_loop, lemma_ssizes,
    lemma_stmt_code, lemma_stmts_below, restored, ssize, stmt_code, stmts_below, while_code,
};
use crate::ir::{emit, with_label, with_reg, Code, CollOp, InstV};
use crate::layout::{collection_of, EnvV, ScopeV};
use crate::machine::{
    done, goes_past, goes_to, lemma_on, lemma_past_none, lemma_past_one, lemma_past_two,
    lemma_place, lemma_step, place, put_reg, reaches, step, values, Act, Meaning, State,
};
use crate::run_laws::{lemma_emitted, stands, starts_with};
use crate::stmt_laws::{loops_known, statements_link};
use crate::table::{distinct, lookup, put_then_lookup, removed_then_lookup};

verus! {

broadcast use group_code;

/// Whether no label is bound twice.
pub open spec fn bound_once(p: Seq<InstV>) -> bool {
    forall|l: u32| #[trigger] binds(p, l) <= 1
}

/// Whether a program has the code of a statement, compiled behind some code.
pub open spec fn has_code(
    p: Seq<InstV>,
    env: EnvV,
    sc: ScopeV,
    b: Code,
    s: StmtV,
    sc1: ScopeV,
    b1: Code,
) -> bool {
    &&& stmt_code(env, sc, b, s) == Ok::<(ScopeV, Code), Seq<char>>((sc1, b1))
    &&& starts_with(p, b1)
    &&& !b1.full
}

/// Code that stands before other code stands in the program.
proof fn lemma_before(p: Seq<InstV>, a: Code, b: Code)
    requires
        starts_with(p, b),
        a.insts.len() <= b.insts.len(),
        b.insts.take(a.insts.len() as int) == a.insts,
    ensures
        starts_with(p, a),
{
    let n = a.insts.len() as int;
    assert(p.take(n) =~= p.take(b.insts.len() as int).take(n));
}

/// A label of a program is where it is bound.
pub proof fn lemma_bound(p: Seq<InstV>, b: Code, label: u32)
    requires
        bound_once(p),
        starts_with(p, emit(b, InstV::Bind { label })),
    ensures
        place(p, label) == b.insts.len(),
        p[b.insts.len() as int] == (InstV::Bind { label }),
        b.insts.len() < p.len(),
        starts_with(p, b),
{
    lemma_emitted(p, b, InstV::Bind { label });
    assert(binds(p, label) <= 1);
    lemma_place(p, label, b.insts.len() as int);
}

// ---- branches -------------------------------------------------------------------------

/// The pieces of the code of an `if`.
pub struct IfParts {
    /// Behind the condition, and where its value is.
    pub tested: Code,
    pub cond: u32,
    /// Before and behind the first branch, and the names behind it.
    pub first: Code,
    pub first_end: Code,
    pub between: ScopeV,
    /// Before and behind the other branch; where there is none, the end.
    pub other: Code,
    pub other_end: Code,
}

/// An `if` runs its first branch where the condition is true, and then nothing of the
/// other; else it runs the other branch, if there is one, and nothing of the first. Either
/// way it goes on behind itself.
pub proof fn an_if_runs_one_branch<V, W>(
    m: Meaning<V, W>,
    p: Seq<InstV>,
    env: EnvV,
    sc: ScopeV,
    b: Code,
    cond: ExprV,
    then_branch: StmtV,
    else_branch: Option<Box<StmtV>>,
    sc1: ScopeV,
    b1: Code,
) -> (r: IfParts)
    requires
        bound_once(p),
        loops_known(sc, b),
        has_code(
            p,
            env,
            sc,
            b,
            StmtV::If { cond, then_branch: Box::new(then_branch), else_branch },
            sc1,
            b1,
        ),
    ensures
        expr_code(env, sc, b, cond) == Ok::<(Code, u32), Seq<char>>((r.tested, r.cond)),
        has_code(p, env, sc, r.first, then_branch, r.between, r.first_end),
        else_branch matches Some(els) ==> has_code(
            p,
            env,
            r.between,
            r.other,
            *els,
            sc1,
            r.other_end,
        ),
        else_branch is None ==> sc1 == r.between && r.other == b1 && r.other_end == b1,
        r.tested.insts.len() < r.first.insts.len(),
        r.first_end.insts.len() < r.other.insts.len(),
        forall|s: State<V, W>| #[trigger]
            stands(r.tested, s) && (m.truth)((s.regs)(r.cond)) ==> goes_past(
                m,
                p,
                s,
                r.first.insts.len() as int,
                r.other.insts.len() as int,
                r.other_end.insts.len() as int,
            ),
        forall|s: State<V, W>| #[trigger]
            stands(r.tested, s) && !(m.truth)((s.regs)(r.cond)) ==> goes_past(
                m,
                p,
                s,
                r.other.insts.len() as int,
                r.first.insts.len() as int,
                r.first_end.insts.len() as int,
            ),
        forall|s: State<V, W>| #[trigger]
            stands(r.first_end, s) ==> goes_past(
                m,
                p,
                s,
                b1.insts.len() as int,
                r.other.insts.len() as int,
                r.other_end.insts.len() as int,
            ),
        forall|s: State<V, W>| #[trigger]
            stands(r.other_end, s) ==> goes_past(
                m,
                p,
                s,
                b1.insts.len() as int,
                r.first.insts.len() as int,
                r.first_end.insts.len() as int,
            ),
{
    reveal(if_code);
    let e = StmtV::If { cond, then_branch: Box::new(then_branch), else_branch };
    lemma_stmt_code(env, sc, b, e);
    let (tested, c) = expr_code(env, sc, b, cond)->Ok_0;
    expressions_link(env, sc, b, cond);
    let other = tested.labels;
    let go = InstV::BranchFalse { cond: c, label: other };
    let first = emit(with_label(tested), go);
    lemma_stmts_below(env, ssize(e), sc, first, then_branch);
    let (between, first_end) = stmt_code(env, sc, first, then_branch)->Ok_0;
    lemma_known(sc, b, tested);
    lemma_more_labels(sc, tested);
    assert(loops_known(sc, first));
    statements_link(env, sc, first, then_branch);
    lemma_grows(first, first_end, Set::empty());
    match else_branch {
        None => {
            assert(b1 == emit(first_end, InstV::Bind { label: other }));
            lemma_bound(p, first_end, other);
            lemma_before(p, first, first_end);
            lemma_emitted(p, with_label(tested), go);
            assert forall|s: State<V, W>| #[trigger]
                stands(tested, s) && (m.truth)((s.regs)(c)) implies goes_past(
                m,
                p,
                s,
                first.insts.len() as int,
                b1.insts.len() as int,
                b1.insts.len() as int,
            ) by {
                lemma_past_one(m, p, s, b1.insts.len() as int, b1.insts.len() as int);
            }
            assert forall|s: State<V, W>| #[trigger]
                stands(tested, s) && !(m.truth)((s.regs)(c)) implies goes_past(
                m,
                p,
                s,
                b1.insts.len() as int,
                first.insts.len() as int,
                first_end.insts.len() as int,
            ) by {
                lemma_past_two(m, p, s, first.insts.len() as int, first_end.insts.len() as int);
            }
            assert forall|s: State<V, W>| #[trigger] stands(first_end, s) implies goes_past(
                m,
                p,
                s,
                b1.insts.len() as int,
                b1.insts.len() as int,
                b1.insts.len() as int,
            ) by {
                lemma_past_one(m, p, s, b1.insts.len() as int, b1.insts.len() as int);
            }
            assert forall|s: State<V, W>| #[trigger] stands(b1, s) implies goes_past(
                m,
                p,
                s,
                b1.insts.len() as int,
                first.insts.len() as int,
                first_end.insts.len() as int,
            ) by {
                lemma_past_none(m, p, s, first.insts.len() as int, first_end.insts.len() as int);
            }
            IfParts { tested, cond: c, first, first_end, between, other: b1, other_end: b1 }
        },
        Some(els) => {
            let end = first_end.labels;
            let skip = InstV::Jump { label: end };
            let b4 = emit(with_label(first_end), skip);
            let start = emit(b4, InstV::Bind { label: other });
            lemma_stmts_below(env, ssize(e), between, start, *els);
            let other_end = stmt_code(env, between, start, *els)->Ok_0.1;
            lemma_known(sc, first, first_end);
            lemma_more_labels(sc, first_end);
            assert(loops_known(between, start));
            statements_link(env, between, start, *els);
            lemma_grows(start, other_end, Set::empty());
            assert(b1 == emit(other_end, InstV::Bind { label: end }));
            lemma_bound(p, other_end, end);
            lemma_before(p, start, other_end);
            lemma_bound(p, b4, other);
            lemma_emitted(p, with_label(first_end), skip);
            lemma_before(p, first, first_end);
            lemma_emitted(p, with_label(tested), go);
            let lo = start.insts.len() as int;
            let hi = other_end.insts.len() as int;
            let a = first.insts.len() as int;
            let z = first_end.insts.len() as int;
            assert forall|s: State<V, W>| #[trigger]
                stands(tested, s) && (m.truth)((s.regs)(c)) implies goes_past(
                m,
                p,
                s,
                a,
                lo,
                hi,
            ) by {
                lemma_past_one(m, p, s, lo, hi);
            }
            assert forall|s: State<V, W>| #[trigger]
                stands(tested, s) && !(m.truth)((s.regs)(c)) implies goes_past(
                m,
                p,
                s,
                lo,
                a,
                z,
            ) by {
                lemma_past_two(m, p, s, a, z);
            }
            assert forall|s: State<V, W>| #[trigger] stands(first_end, s) implies goes_past(
                m,
                p,
                s,
                b1.insts.len() as int,
                lo,
                hi,
            ) by {
                lemma_past_two(m, p, s, lo, hi);
            }
            assert forall|s: State<V, W>| #[trigger] stands(other_end, s) implies goes_past(
                m,
                p,
                s,
                b1.insts.len() as int,
                a,
                z,
            ) by {
                lemma_past_one(m, p, s, a, z);
            }
            IfParts { tested, cond: c, first, first_end, between, other: start, other_end }
        },
    }
}

/// The loops around stay known where code is added.
proof fn lemma_known(sc: ScopeV, b: Code, b1: Code)
    requires
        loops_known(sc, b),
        linked(b, b1),
    ensures
        loops_known(sc, b1),
{
    lemma_grows(b, b1, Set::empty());
}

/// The loops around stay known where a label is handed out.
proof fn lemma_more_labels(sc: ScopeV, b: Code)
    requires
        loops_known(sc, b),
    ensures
        loops_known(sc, with_label(b)),
        b.full ==> with_label(b).full,
        b.labels <= with_label(b).labels,
{
}

// ---- loops ----------------------------------------------------------------------------

/// The pieces of the code of a loop.
pub struct LoopParts {
    /// Before the condition, behind it, and where its value is.
    pub check: Code,
    pub tested: Code,
    pub cond: u32,
    /// The names in the body, before and behind it, and the names behind it.
    pub inner: ScopeV,
    pub body: Code,
    pub body_end: Code,
    pub behind: ScopeV,
}

/// Whether names are those around a loop, in one more loop whose `break` and `continue`
/// lead to two positions.
pub open spec fn one_loop_more(
    p: Seq<InstV>,
    sc: ScopeV,
    inner: ScopeV,
    left: int,
    next: int,
) -> bool {
    &&& inner.loops.len() == sc.loops.len() + 1
    &&& inner.loops.drop_last() == sc.loops
    &&& inner == (ScopeV { loops: inner.loops, ..sc })
    &&& place(p, inner.loops.last().0) == left
    &&& place(p, inner.loops.last().1) == next
}

/// A `break` leaves, and a `continue` goes on with, the innermost loop: at the positions
/// that its labels are bound to.
pub proof fn jumps_go_to_the_innermost_loop<V, W>(
    m: Meaning<V, W>,
    p: Seq<InstV>,
    env: EnvV,
    sc: ScopeV,
    b: Code,
    out: StmtV,
    sc1: ScopeV,
    b1: Code,
    s: State<V, W>,
)
    requires
        has_code(p, env, sc, b, out, sc1, b1),
        out == StmtV::Break || out == StmtV::Continue,
        stands(b, s),
    ensures
        sc.loops.len() > 0,
        sc1 == sc,
        out == StmtV::Break ==> goes_to(m, p, s, place(p, sc.loops.last().0)),
        out == StmtV::Continue ==> goes_to(m, p, s, place(p, sc.loops.last().1)),
{
    lemma_stmt_code(env, sc, b, out);
    let label = if out == StmtV::Break {
        sc.loops.last().0
    } else {
        sc.loops.last().1
    };
    lemma_emitted(p, b, InstV::Jump { label });
    lemma_step(m, p, s);
}

/// A `while` tests its condition before each round: where it is true the body runs and
/// the condition is tested again, else the loop is left without running the body. A
/// `continue` in the body goes on with the test, a `break` leaves the loop.
pub proof fn a_while_tests_before_each_round<V, W>(
    m: Meaning<V, W>,
    p: Seq<InstV>,
    env: EnvV,
    sc: ScopeV,
    b: Code,
    cond: ExprV,
    body: StmtV,
    sc1: ScopeV,
    b1: Code,
) -> (r: LoopParts)
    requires
        bound_once(p),
        loops_known(sc, b),
        has_code(p, env, sc, b, StmtV::While { cond, body: Box::new(body) }, sc1, b1),
    ensures
        expr_code(env, sc, r.check, cond) == Ok::<(Code, u32), Seq<char>>((r.tested, r.cond)),
        has_code(p, env, r.inner, r.body, body, r.behind, r.body_end),
        sc1 == (ScopeV { loops: sc.loops, ..r.behind }),
        forall|s: State<V, W>| #[trigger]
            stands(b, s) ==> goes_to(m, p, s, r.check.insts.len() as int),
        forall|s: State<V, W>| #[trigger]
            stands(r.tested, s) && (m.truth)((s.regs)(r.cond)) ==> goes_to(
                m,
                p,
                s,
                r.body.insts.len() as int,
            ),
        forall|s: State<V, W>| #[trigger]
            stands(r.tested, s) && !(m.truth)((s.regs)(r.cond)) ==> goes_past(
                m,
                p,
                s,
                b1.insts.len() as int,
                r.body.insts.len() as int,
                r.body_end.insts.len() as int,
            ),
        forall|s: State<V, W>| #[trigger]
            stands(r.body_end, s) ==> goes_to(m, p, s, r.check.insts.len() as int),
        one_loop_more(p, sc, r.inner, b1.insts.len() - 1, r.check.insts.len() - 1),
        forall|s: State<V, W>|
            s.end is None && #[trigger] s.pc == b1.insts.len() - 1 ==> goes_to(
                m,
                p,
                s,
                b1.insts.len() as int,
            ),
        forall|s: State<V, W>|
            s.end is None && #[trigger] s.pc == r.check.insts.len() - 1 ==> goes_to(
                m,
                p,
                s,
                r.check.insts.len() as int,
            ),
{
    reveal(while_code);
    let e = StmtV::While { cond, body: Box::new(body) };
    lemma_stmt_code(env, sc, b, e);
    let top = b.labels;
    let done = with_label(b).labels;
    let b0 = with_label(with_label(b));
    let check = emit(b0, InstV::Bind { label: top });
    let (tested, c) = expr_code(env, sc, check, cond)->Ok_0;
    expressions_link(env, sc, check, cond);
    lemma_grows(check, tested, Set::empty());
    let go = InstV::BranchFalse { cond: c, label: done };
    let start = emit(tested, go);
    let inner = in_loop(sc, done, top);
    lemma_stmts_below(env, ssize(e), inner, start, body);
    let (behind, body_end) = stmt_code(env, inner, start, body)->Ok_0;
    assert(loops_known(inner, start)) by {
        lemma_inner_known(sc, b, b0, start, done, top);
    }
    statements_link(env, inner, start, body);
    lemma_grows(start, body_end, Set::empty());
    let again = InstV::Jump { label: top };
    let b5 = emit(body_end, again);
    assert(inner.loops.drop_last() =~= sc.loops);
    assert(sc1.loops =~= sc.loops);
    assert(b1 == emit(b5, InstV::Bind { label: done }));
    lemma_bound(p, b5, done);
    lemma_emitted(p, body_end, again);
    lemma_before(p, start, body_end);
    lemma_emitted(p, tested, go);
    lemma_before(p, check, tested);
    lemma_bound(p, b0, top);
    assert forall|s: State<V, W>| #[trigger] stands(b, s) implies goes_to(
        m,
        p,
        s,
        check.insts.len() as int,
    ) by {
        lemma_step(m, p, s);
    }
    assert forall|s: State<V, W>|
        s.end is None && #[trigger] s.pc == check.insts.len() - 1 implies goes_to(
        m,
        p,
        s,
        check.insts.len() as int,
    ) by {
        lemma_step(m, p, s);
    }
    assert forall|s: State<V, W>|
        s.end is None && #[trigger] s.pc == b1.insts.len() - 1 implies goes_to(
        m,
        p,
        s,
        b1.insts.len() as int,
    ) by {
        lemma_step(m, p, s);
    }
    assert forall|s: State<V, W>| #[trigger]
        stands(tested, s) && (m.truth)((s.regs)(c)) implies goes_to(
        m,
        p,
        s,
        start.insts.len() as int,
    ) by {
        lemma_step(m, p, s);
    }
    assert forall|s: State<V, W>| #[trigger]
        stands(tested, s) && !(m.truth)((s.regs)(c)) implies goes_past(
        m,
        p,
        s,
        b1.insts.len() as int,
        start.insts.len() as int,
        body_end.insts.len() as int,
    ) by {
        lemma_past_two(m, p, s, start.insts.len() as int, body_end.insts.len() as int);
    }
    assert forall|s: State<V, W>| #[trigger] stands(body_end, s) implies goes_to(
        m,
        p,
        s,
        check.insts.len() as int,
    ) by {
        lemma_two_steps(m, p, s);
    }
    LoopParts { check, tested, cond: c, inner, body: start, body_end, behind }
}

/// Two steps.
pub proof fn lemma_two_steps<V, W>(m: Meaning<V, W>, p: Seq<InstV>, s: State<V, W>)
    ensures
        reaches(m, p, s, step(m, p, step(m, p, s))),
{
    let t = step(m, p, s);
    lemma_step(m, p, s);
    lemma_step(m, p, t);
    lemma_on(m, p, s, t, step(m, p, t));
}

/// The loops around stay known in a loop with new labels.
proof fn lemma_inner_known(sc: ScopeV, b: Code, b0: Code, start: Code, done: u32, again: u32)
    requires
        loops_known(sc, b),
        b.full ==> b0.full,
        b.labels <= b0.labels,
        b0.full ==> start.full,
        b0.labels <= start.labels,
        b0.full || (done < b0.labels && again < b0.labels),
    ensures
        loops_known(in_loop(sc, done, again), start),
{
    let inner = in_loop(sc, done, again);
    if !start.full {
        assert forall|k: int| 0 <= k < inner.loops.len() implies (#[trigger] inner.loops[k]).0
            < start.labels && inner.loops[k].1 < start.labels by {
            if k < sc.loops.len() {
                assert(inner.loops[k] == sc.loops[k]);
            }
        }
    }
}

/// A `do ... while` runs its body before each test of its condition: where that is true
/// the body runs again, else the loop is left. A `continue` in the body goes on with the
/// test, a `break` leaves the loop.
pub proof fn a_do_while_tests_behind_each_round<V, W>(
    m: Meaning<V, W>,
    p: Seq<InstV>,
    env: EnvV,
    sc: ScopeV,
    b: Code,
    cond: ExprV,
    body: StmtV,
    sc1: ScopeV,
    b1: Code,
) -> (r: LoopParts)
    requires
        bound_once(p),
        loops_known(sc, b),
        has_code(p, env, sc, b, StmtV::DoWhile { cond, body: Box::new(body) }, sc1, b1),
    ensures
        has_code(p, env, r.inner, r.body, body, r.behind, r.body_end),
        sc1 == (ScopeV { loops: sc.loops, ..r.behind }),
        expr_code(env, sc1, r.check, cond) == Ok::<(Code, u32), Seq<char>>((r.tested, r.cond)),
        forall|s: State<V, W>| #[trigger]
            stands(b, s) ==> goes_to(m, p, s, r.body.insts.len() as int),
        forall|s: State<V, W>| #[trigger]
            stands(r.body_end, s) ==> goes_to(m, p, s, r.check.insts.len() as int),
        forall|s: State<V, W>| #[trigger]
            stands(r.tested, s) && (m.truth)((s.regs)(r.cond)) ==> goes_to(
                m,
                p,
                s,
                r.body.insts.len() as int,
            ),
        forall|s: State<V, W>| #[trigger]
            stands(r.tested, s) && !(m.truth)((s.regs)(r.cond)) ==> goes_past(
                m,
                p,
                s,
                b1.insts.len() as int,
                r.body.insts.len() as int,
                r.body_end.insts.len() as int,
            ),
        one_loop_more(p, sc, r.inner, b1.insts.len() - 1, r.check.insts.len() - 1),
        forall|s: State<V, W>|
            s.end is None && #[trigger] s.pc == b1.insts.len() - 1 ==> goes_to(
                m,
                p,
                s,
                b1.insts.len() as int,
            ),
        forall|s: State<V, W>|
            s.end is None && #[trigger] s.pc == r.check.insts.len() - 1 ==> goes_to(
                m,
                p,
                s,
                r.check.insts.len() as int,
            ),
{
    reveal(do_while_code);
    let e = StmtV::DoWhile { cond, body: Box::new(body) };
    lemma_stmt_code(env, sc, b, e);
    let top = b.labels;
    let next = with_label(b).labels;
    let done = with_label(with_label(b)).labels;
    let b0 = with_label(with_label(with_label(b)));
    let start = emit(b0, InstV::Bind { label: top });
    let inner = in_loop(sc, done, next);
    lemma_stmts_below(env, ssize(e), inner, start, body);
    let (behind, body_end) = stmt_code(env, inner, start, body)->Ok_0;
    assert(loops_known(inner, start)) by {
        lemma_inner_known(sc, b, b0, start, done, next);
    }
    statements_link(env, inner, start, body);
    lemma_grows(start, body_end, Set::empty());
    assert(inner.loops.drop_last() =~= sc.loops);
    assert(sc1.loops =~= sc.loops);
    let check = emit(body_end, InstV::Bind { label: next });
    let (tested, c) = expr_code(env, sc1, check, cond)->Ok_0;
    expressions_link(env, sc1, check, cond);
    lemma_grows(check, tested, Set::empty());
    let go = InstV::BranchTrue { cond: c, label: top };
    let b5 = emit(tested, go);
    assert(b1 == emit(b5, InstV::Bind { label: done }));
    lemma_bound(p, b5, done);
    lemma_emitted(p, tested, go);
    lemma_before(p, check, tested);
    lemma_bound(p, body_end, next);
    lemma_before(p, start, body_end);
    lemma_bound(p, b0, top);
    assert forall|s: State<V, W>| #[trigger] stands(b, s) implies goes_to(
        m,
        p,
        s,
        start.insts.len() as int,
    ) by {
        lemma_step(m, p, s);
    }
    assert forall|s: State<V, W>|
        s.end is None && #[trigger] s.pc == check.insts.len() - 1 implies goes_to(
        m,
        p,
        s,
        check.insts.len() as int,
    ) by {
        lemma_step(m, p, s);
    }
    assert forall|s: State<V, W>|
        s.end is None && #[trigger] s.pc == b1.insts.len() - 1 implies goes_to(
        m,
        p,
        s,
        b1.insts.len() as int,
    ) by {
        lemma_step(m, p, s);
    }
    assert forall|s: State<V, W>| #[trigger]
        stands(tested, s) && (m.truth)((s.regs)(c)) implies goes_to(
        m,
        p,
        s,
        start.insts.len() as int,
    ) by {
        lemma_two_steps(m, p, s);
    }
    assert forall|s: State<V, W>| #[trigger]
        stands(tested, s) && !(m.truth)((s.regs)(c)) implies goes_past(
        m,
        p,
        s,
        b1.insts.len() as int,
        start.insts.len() as int,
        body_end.insts.len() as int,
    ) by {
        lemma_past_two(m, p, s, start.insts.len() as int, body_end.insts.len() as int);
    }
    assert forall|s: State<V, W>| #[trigger] stands(body_end, s) implies goes_to(
        m,
        p,
        s,
        check.insts.len() as int,
    ) by {
        lemma_step(m, p, s);
    }
    LoopParts { check, tested, cond: c, inner, body: start, body_end, behind }
}

// ---- blocks ---------------------------------------------------------------------------

/// A block compiles the same whatever bound its statements are below.
proof fn lemma_any_bound(
    env: EnvV,
    sc: ScopeV,
    b: Code,
    stmts: Seq<StmtV>,
    x: nat,
    y: nat,
)
    requires
        forall|i: int| 0 <= i < stmts.len() ==> ssize(#[trigger] stmts[i]) < x && ssize(stmts[i]) < y,
    ensures
        block_code(stmts_below(env, x), sc, b, stmts) == block_code(
            stmts_below(env, y),
            sc,
            b,
            stmts,
        ),
    decreases stmts.len(),
{
    if stmts.len() > 0 {
        let front = stmts.drop_last();
        assert forall|i: int| 0 <= i < front.len() implies ssize(#[trigger] front[i]) < x && ssize(
            front[i],
        ) < y by {
            assert(front[i] == stmts[i]);
        }
        lemma_any_bound(env, sc, b, front, x, y);
        assert(ssize(stmts[stmts.len() - 1]) < x);
        if let Ok((sc1, b1)) = block_code(stmts_below(env, x), sc, b, front) {
            lemma_stmts_below(env, x, sc1, b1, stmts.last());
            lemma_stmts_below(env, y, sc1, b1, stmts.last());
        }
    }
}

/// A block runs its statements in order: one with a statement more runs the others and
/// then that one, with the names that they declare. An empty block does nothing.
pub proof fn a_block_runs_in_order(env: EnvV, sc: ScopeV, b: Code, stmts: Seq<StmtV>, last: StmtV)
    ensures
        stmt_code(env, sc, b, StmtV::Block(Seq::empty())) == Ok::<(ScopeV, Code), Seq<char>>(
            (sc, b),
        ),
        stmt_code(env, sc, b, StmtV::Block(stmts.push(last))) == (match stmt_code(
            env,
            sc,
            b,
            StmtV::Block(stmts),
        ) {
            Ok((sc1, b1)) => stmt_code(env, sc1, b1, last),
            Err(e) => Err(e),
        }),
{
    let all = stmts.push(last);
    lemma_stmt_code(env, sc, b, StmtV::Block(Seq::empty()));
    lemma_stmt_code(env, sc, b, StmtV::Block(stmts));
    lemma_stmt_code(env, sc, b, StmtV::Block(all));
    assert(all.drop_last() =~= stmts);
    let x = ssize(StmtV::Block(all));
    let y = ssize(StmtV::Block(stmts));
    assert forall|i: int| 0 <= i < stmts.len() implies ssize(#[trigger] stmts[i]) < x && ssize(
        stmts[i],
    ) < y by {
        lemma_ssizes(stmts, i);
        lemma_ssizes(all, i);
        assert(all[i] == stmts[i]);
    }
    lemma_any_bound(env, sc, b, stmts, x, y);
    lemma_ssizes(all, stmts.len() as int);
    if let Ok((sc1, b1)) = block_code(stmts_below(env, x), sc, b, stmts) {
        lemma_stmts_below(env, x, sc1, b1, last);
    }
}

// ---- walks through collections ------------------------------------------------------------

/// The pieces of the code of a `foreach`.
pub struct WalkParts {
    /// Behind the collection, and where it is.
    pub found: Code,
    pub base: u32,
    /// Where the key is, and whether there is one.
    pub key: u32,
    pub more: u32,
    /// Before the test whether there is a key.
    pub check: Code,
    /// The names in the body, before and behind it, and the names behind it.
    pub inner: ScopeV,
    pub body: Code,
    pub body_end: Code,
    pub behind: ScopeV,
}

/// The state behind a step of a walk through a collection.
pub open spec fn walked<V, W>(
    m: Meaning<V, W>,
    r: WalkParts,
    op: CollOp,
    s: State<V, W>,
) -> State<V, W> {
    let vs = seq![(s.regs)(r.base), (s.regs)(r.key)];
    let (w, v) = done(m, s.world, Act::Collection(op), vs);
    State {
        pc: r.check.insts.len() as int,
        regs: put_reg(put_reg(s.regs, r.key, (m.key)(s.world, op, vs)), r.more, v),
        world: w,
        ..s
    }
}

/// A `foreach` walks through the keys of its collection: it takes the first, and as long
/// as there is one it runs its body and takes the next. In the body the index names the
/// key; behind the loop it means what it meant before. A `continue` goes on with the next
/// key, a `break` leaves the loop.
pub proof fn a_foreach_walks_through_the_keys<V, W>(
    m: Meaning<V, W>,
    p: Seq<InstV>,
    env: EnvV,
    sc: ScopeV,
    b: Code,
    collection: ExprV,
    index: Seq<char>,
    body: StmtV,
    sc1: ScopeV,
    b1: Code,
) -> (r: WalkParts)
    requires
        bound_once(p),
        loops_known(sc, b),
        has_code(
            p,
            env,
            sc,
            b,
            StmtV::Foreach { collection, index, body: Box::new(body) },
            sc1,
            b1,
        ),
    ensures
        expr_code(env, sc, b, collection) == Ok::<(Code, u32), Seq<char>>((r.found, r.base)),
        r.key == r.found.regs && r.more > r.key,
        has_code(p, env, r.inner, r.body, body, r.behind, r.body_end),
        forall|s: State<V, W>| #[trigger]
            stands(r.found, s) ==> reaches(m, p, s, walked(m, r, CollOp::First, s)),
        forall|s: State<V, W>| #[trigger]
            stands(r.check, s) && (m.truth)((s.regs)(r.more)) ==> goes_to(
                m,
                p,
                s,
                r.body.insts.len() as int,
            ),
        forall|s: State<V, W>| #[trigger]
            stands(r.check, s) && !(m.truth)((s.regs)(r.more)) ==> goes_past(
                m,
                p,
                s,
                b1.insts.len() as int,
                r.body.insts.len() as int,
                r.body_end.insts.len() as int,
            ),
        forall|s: State<V, W>| #[trigger]
            stands(r.body_end, s) ==> reaches(m, p, s, walked(m, r, CollOp::Next, s)),
        r.inner.loops.len() == sc.loops.len() + 1 && r.inner.loops.drop_last() == sc.loops,
        place(p, r.inner.loops.last().0) == b1.insts.len() - 1,
        place(p, r.inner.loops.last().1) == r.body_end.insts.len(),
        forall|s: State<V, W>|
            s.end is None && #[trigger] s.pc == b1.insts.len() - 1 ==> goes_to(
                m,
                p,
                s,
                b1.insts.len() as int,
            ),
        forall|name: Seq<char>|
            #[trigger] lookup(r.inner.locals, name) == (if name == index {
                Some((r.key, 32u32))
            } else {
                lookup(sc.locals, name)
            }),
        forall|name: Seq<char>|
            name != index ==> #[trigger] lookup(sc1.locals, name) == lookup(r.behind.locals, name),
        lookup(sc.locals, index) is Some ==> lookup(sc1.locals, index) == lookup(sc.locals, index),
        distinct(r.behind.locals) ==> lookup(sc1.locals, index) == lookup(sc.locals, index),
        sc1.loops == sc.loops,
{
    reveal(foreach_code);
    let e = StmtV::Foreach { collection, index, body: Box::new(body) };
    lemma_stmt_code(env, sc, b, e);
    let info = collection_of(env, sc, collection)->0;
    let (found, base) = expr_code(env, sc, b, collection)->Ok_0;
    expressions_link(env, sc, b, collection);
    lemma_grows(b, found, Set::empty());
    let key = found.regs;
    let ba = with_reg(found);
    let more = ba.regs;
    let take = InstV::CollMethod { dst: more, base, op: CollOp::First, args: seq![key] };
    let b2 = emit(with_reg(ba), take);
    let again = b2.labels;
    let advance = with_label(b2).labels;
    let finish = with_label(with_label(b2)).labels;
    let b3 = with_label(with_label(with_label(b2)));
    let check = emit(b3, InstV::Bind { label: again });
    let go = InstV::BranchFalse { cond: more, label: finish };
    let start = emit(check, go);
    let sc0 = in_foreach(sc, index, key, info.key_class);
    let inner = in_loop(sc0, finish, advance);
    lemma_stmts_below(env, ssize(e), inner, start, body);
    let (behind, body_end) = stmt_code(env, inner, start, body)->Ok_0;
    assert(loops_known(inner, start)) by {
        assert(loops_known(sc0, b));
        lemma_inner_known(sc0, b, b3, start, finish, advance);
    }
    statements_link(env, inner, start, body);
    lemma_grows(start, body_end, Set::empty());
    assert(inner.loops.drop_last() =~= sc.loops);
    assert(sc1.loops =~= sc.loops);
    let b5 = emit(body_end, InstV::Bind { label: advance });
    let next = InstV::CollMethod { dst: more, base, op: CollOp::Next, args: seq![key] };
    let b6 = emit(b5, next);
    let back = InstV::Jump { label: again };
    let b7 = emit(b6, back);
    assert(b1 == emit(b7, InstV::Bind { label: finish }));
    lemma_bound(p, b7, finish);
    lemma_emitted(p, b6, back);
    lemma_emitted(p, b5, next);
    lemma_bound(p, body_end, advance);
    lemma_before(p, start, body_end);
    lemma_emitted(p, check, go);
    lemma_bound(p, b3, again);
    lemma_emitted(p, with_reg(ba), take);
    let r = WalkParts { found, base, key, more, check, inner, body: start, body_end, behind };
    assert forall|s: State<V, W>| #[trigger] stands(found, s) implies reaches(
        m,
        p,
        s,
        walked(m, r, CollOp::First, s),
    ) by {
        assert(values(s.regs, seq![base] + seq![key]) =~= seq![(s.regs)(base), (s.regs)(key)]);
        lemma_two_steps(m, p, s);
    }
    assert forall|s: State<V, W>| #[trigger] stands(body_end, s) implies reaches(
        m,
        p,
        s,
        walked(m, r, CollOp::Next, s),
    ) by {
        assert(values(s.regs, seq![base] + seq![key]) =~= seq![(s.regs)(base), (s.regs)(key)]);
        let t = step(m, p, step(m, p, s));
        lemma_two_steps(m, p, s);
        lemma_two_steps(m, p, t);
        lemma_on(m, p, s, t, step(m, p, step(m, p, t)));
    }
    assert forall|s: State<V, W>| #[trigger]
        stands(check, s) && (m.truth)((s.regs)(more)) implies goes_to(
        m,
        p,
        s,
        start.insts.len() as int,
    ) by {
        lemma_step(m, p, s);
    }
    assert forall|s: State<V, W>| #[trigger]
        stands(check, s) && !(m.truth)((s.regs)(more)) implies goes_past(
        m,
        p,
        s,
        b1.insts.len() as int,
        start.insts.len() as int,
        body_end.insts.len() as int,
    ) by {
        lemma_past_two(m, p, s, start.insts.len() as int, body_end.insts.len() as int);
    }
    assert forall|s: State<V, W>|
        s.end is None && #[trigger] s.pc == b1.insts.len() - 1 implies goes_to(
        m,
        p,
        s,
        b1.insts.len() as int,
    ) by {
        lemma_step(m, p, s);
    }
    assert forall|name: Seq<char>|
        #[trigger] lookup(r.inner.locals, name) == (if name == index {
            Some((r.key, 32u32))
        } else {
            lookup(sc.locals, name)
        }) by {
        put_then_lookup(sc.locals, index, (key, 32u32), name);
    }
    lemma_restored(behind.locals, index, lookup(sc.locals, index));
    r
}

/// A name that was restored means what it meant, and no other is touched.
proof fn lemma_restored<V>(s: Seq<(Seq<char>, V)>, name: Seq<char>, before: Option<V>)
    ensures
        forall|other: Seq<char>|
            other != name ==> #[trigger] lookup(restored(s, name, before), other) == lookup(s, other),
        before is Some ==> lookup(restored(s, name, before), name) == before,
        distinct(s) ==> lookup(restored(s, name, before), name) == before,
{
    assert forall|other: Seq<char>|
        other != name implies #[trigger] lookup(restored(s, name, before), other) == lookup(
        s,
        other,
    ) by {
        match before {
            Some(v) => put_then_lookup(s, name, v, other),
            None => removed_then_lookup(s, name, other),
        }
    }
    match before {
        Some(v) => put_then_lookup(s, name, v, name),
        None => removed_then_lookup(s, name, name),
    }
}

} // verus!
