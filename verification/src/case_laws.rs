//! Laws of running a `case`: the first item that matches runs, and nothing else.
use vstd::prelude::*;

use crate::ast::BinOp;
use crate::ast_model::{ExprV, StmtV};
use crate::code_model::{group_code, lemma_grows};
use crate::flow_laws::{bound_once, has_code, lemma_bound};
use crate::gen_laws::expressions_link;
use crate::gen_model::expr_code;
use crate::gen_stmt_model::{
    bodies_code, case_code, lemma_asizes, lemma_stmt_code, lemma_stmts_below, match_code,
    matches_code, new_labels, ssize, stmt_code, stmts_below,
};
use crate::ir::{emit, with_label, with_reg, Code, InstV};
use crate::layout::{EnvV, ScopeV};
use crate::machine::{
    done, goes_to, lemma_on, lemma_stays, lemma_step, place, reaches, step, values, Act, Meaning,
    State,
};
use crate::meaning::eval;
use crate::run_laws::{
    fits, lemma_emitted, lemma_eval_same, lemma_expr, lemma_new, lemma_starts, same_below, stands,
    starts_with,
};
use crate::stmt_laws::{loops_known, statements_link};

verus! {

broadcast use group_code;

/// Whether a value equals one of some expressions, which are computed up to the first that
/// it equals.
pub open spec fn equals_one<V, W>(
    m: Meaning<V, W>,
    env: EnvV,
    sc: ScopeV,
    regs: spec_fn(u32) -> V,
    w: W,
    sel: V,
    vals: Seq<ExprV>,
) -> Option<(W, bool)>
    decreases vals.len(),
{
    if vals.len() == 0 {
        Some((w, false))
    } else {
        match equals_one(m, env, sc, regs, w, sel, vals.drop_last()) {
            None => None,
            Some((w1, true)) => Some((w1, true)),
            Some((w1, false)) => match eval(m, env, sc, regs, w1, vals.last()) {
                None => None,
                Some((w2, v)) => Some(
                    (w2, (m.truth)(done(m, w2, Act::Binary(BinOp::Eq), seq![sel, v]).1)),
                ),
            },
        }
    }
}

/// The first item one of whose expressions a value equals, if there is one.
pub open spec fn chosen<V, W>(
    m: Meaning<V, W>,
    env: EnvV,
    sc: ScopeV,
    regs: spec_fn(u32) -> V,
    w: W,
    sel: V,
    items: Seq<(Seq<ExprV>, StmtV)>,
) -> Option<(W, Option<int>)>
    decreases items.len(),
{
    if items.len() == 0 {
        Some((w, None))
    } else {
        match chosen(m, env, sc, regs, w, sel, items.drop_last()) {
            None => None,
            Some((w1, Some(i))) => Some((w1, Some(i))),
            Some((w1, None)) => match equals_one(m, env, sc, regs, w1, sel, items.last().0) {
                None => None,
                Some((w2, hit)) => Some(
                    (
                        w2,
                        if hit {
                            Some(items.len() - 1)
                        } else {
                            None
                        },
                    ),
                ),
            },
        }
    }
}

/// A state at a position, with the registers below a number as they were.
pub open spec fn came_to<V, W>(
    m: Meaning<V, W>,
    p: Seq<InstV>,
    s: State<V, W>,
    t: State<V, W>,
    pc: int,
    w: W,
    n: u32,
) -> bool {
    &&& reaches(m, p, s, t)
    &&& t.pc == pc
    &&& t.world == w
    &&& t.end is None
    &&& same_below(s.regs, t.regs, n)
}

proof fn lemma_came_on<V, W>(
    m: Meaning<V, W>,
    p: Seq<InstV>,
    s: State<V, W>,
    t: State<V, W>,
    u: State<V, W>,
    n: u32,
    k: u32,
)
    requires
        reaches(m, p, s, t),
        reaches(m, p, t, u),
        same_below(s.regs, t.regs, n),
        same_below(t.regs, u.regs, k),
        n <= k,
    ensures
        reaches(m, p, s, u),
        same_below(s.regs, u.regs, n),
{
    lemma_on(m, p, s, t, u);
    assert forall|r: u32| r < n implies #[trigger] (u.regs)(r) == (s.regs)(r) by {
        assert((t.regs)(r) == (s.regs)(r));
    }
}

/// Comparing with the expressions of an item grows code.
proof fn lemma_match_grows(
    p: Seq<InstV>,
    env: EnvV,
    sc: ScopeV,
    b: Code,
    sel: u32,
    vals: Seq<ExprV>,
    label: u32,
)
    requires
        match_code(env, sc, b, sel, vals, label) is Ok,
        starts_with(p, match_code(env, sc, b, sel, vals, label)->Ok_0),
    ensures
        starts_with(p, b),
        ({
            let b1 = match_code(env, sc, b, sel, vals, label)->Ok_0;
            &&& b.regs <= b1.regs
            &&& b.labels <= b1.labels
            &&& b.full ==> b1.full
            &&& b.insts.len() <= b1.insts.len()
        }),
    decreases vals.len(),
{
    if vals.len() > 0 {
        let b1 = match_code(env, sc, b, sel, vals.drop_last(), label)->Ok_0;
        let (b2, c) = expr_code(env, sc, b1, vals.last())->Ok_0;
        expressions_link(env, sc, b1, vals.last());
        let i = InstV::Binary { op: BinOp::Eq, dst: b2.regs, a: sel, b: c };
        let b3 = emit(with_reg(b2), i);
        lemma_emitted(p, b3, InstV::BranchTrue { cond: b2.regs, label });
        lemma_emitted(p, with_reg(b2), i);
        lemma_grows(b1, b2, Set::empty());
        lemma_starts(p, b1, b2);
        lemma_match_grows(p, env, sc, b, sel, vals.drop_last(), label);
    }
}

/// Comparing with the expressions of an item runs.
proof fn lemma_match<V, W>(
    m: Meaning<V, W>,
    p: Seq<InstV>,
    env: EnvV,
    sc: ScopeV,
    b: Code,
    b0: Code,
    sel: u32,
    vals: Seq<ExprV>,
    label: u32,
    regs: spec_fn(u32) -> V,
    s: State<V, W>,
) -> (t: State<V, W>)
    requires
        match_code(env, sc, b0, sel, vals, label) is Ok,
        !(match_code(env, sc, b0, sel, vals, label)->Ok_0).full,
        starts_with(p, match_code(env, sc, b0, sel, vals, label)->Ok_0),
        fits(sc, b),
        b.regs <= b0.regs,
        sel < b0.regs,
        stands(b0, s),
        same_below(regs, s.regs, b.regs),
        equals_one(m, env, sc, regs, s.world, (s.regs)(sel), vals) is Some,
    ensures
        ({
            let b1 = match_code(env, sc, b0, sel, vals, label)->Ok_0;
            let (w, hit) = equals_one(m, env, sc, regs, s.world, (s.regs)(sel), vals)->0;
            came_to(
                m,
                p,
                s,
                t,
                if hit {
                    place(p, label)
                } else {
                    b1.insts.len() as int
                },
                w,
                b0.regs,
            )
        }),
    decreases vals.len(),
{
    if vals.len() == 0 {
        lemma_stays(m, p, s);
        s
    } else {
        let front = vals.drop_last();
        let b1 = match_code(env, sc, b0, sel, front, label)->Ok_0;
        let (b2, c) = expr_code(env, sc, b1, vals.last())->Ok_0;
        expressions_link(env, sc, b1, vals.last());
        let i = InstV::Binary { op: BinOp::Eq, dst: b2.regs, a: sel, b: c };
        let b3 = emit(with_reg(b2), i);
        let go = InstV::BranchTrue { cond: b2.regs, label };
        lemma_emitted(p, b3, go);
        lemma_emitted(p, with_reg(b2), i);
        lemma_starts(p, b1, b2);
        lemma_match_grows(p, env, sc, b0, sel, front, label);
        let t1 = lemma_match(m, p, env, sc, b, b0, sel, front, label, regs, s);
        let (w1, hit) = equals_one(m, env, sc, regs, s.world, (s.regs)(sel), front)->0;
        if hit {
            t1
        } else {
            assert(same_below(regs, t1.regs, b.regs)) by {
                assert forall|k: u32| k < b.regs implies #[trigger] (t1.regs)(k) == regs(k) by {
                    assert((s.regs)(k) == regs(k));
                }
            }
            assert(fits(sc, b1)) by {
                assert forall|name: Seq<char>|
                    (#[trigger] crate::table::lookup(sc.locals, name)) is Some implies (
                crate::table::lookup(sc.locals, name)->0).0 < b1.regs by {}
            }
            lemma_eval_same(m, env, sc, regs, t1.regs, b, t1.world, vals.last());
            let t2 = lemma_expr(m, p, env, sc, b1, vals.last(), t1);
            assert((t1.regs)(sel) == (s.regs)(sel));
            assert((t2.regs)(sel) == (t1.regs)(sel));
            assert(values(t2.regs, seq![sel, c]) =~= seq![(s.regs)(sel), (t2.regs)(c)]);
            let t3 = lemma_new(m, p, b2, i, t2);
            lemma_step(m, p, t3);
            let t4 = step(m, p, t3);
            lemma_came_on(m, p, s, t1, t2, b0.regs, b1.regs);
            lemma_came_on(m, p, s, t2, t3, b0.regs, b2.regs);
            assert(same_below(t3.regs, t4.regs, b0.regs));
            lemma_came_on(m, p, s, t3, t4, b0.regs, b0.regs);
            t4
        }
    }
}

/// Comparing with the items grows code.
proof fn lemma_matches_grow(
    p: Seq<InstV>,
    env: EnvV,
    sc: ScopeV,
    b: Code,
    sel: u32,
    items: Seq<(Seq<ExprV>, StmtV)>,
    labels: Seq<u32>,
)
    requires
        matches_code(env, sc, b, sel, items, labels) is Ok,
        starts_with(p, matches_code(env, sc, b, sel, items, labels)->Ok_0),
    ensures
        starts_with(p, b),
        ({
            let b1 = matches_code(env, sc, b, sel, items, labels)->Ok_0;
            &&& b.regs <= b1.regs
            &&& b.labels <= b1.labels
            &&& b.full ==> b1.full
            &&& b.insts.len() <= b1.insts.len()
        }),
    decreases items.len(),
{
    if items.len() > 0 {
        let b1 = matches_code(env, sc, b, sel, items.drop_last(), labels)->Ok_0;
        lemma_match_grows(p, env, sc, b1, sel, items.last().0, labels[items.len() - 1]);
        lemma_matches_grow(p, env, sc, b, sel, items.drop_last(), labels);
    }
}

/// Comparing with the items runs.
proof fn lemma_matches<V, W>(
    m: Meaning<V, W>,
    p: Seq<InstV>,
    env: EnvV,
    sc: ScopeV,
    b: Code,
    b0: Code,
    sel: u32,
    items: Seq<(Seq<ExprV>, StmtV)>,
    labels: Seq<u32>,
    regs: spec_fn(u32) -> V,
    s: State<V, W>,
) -> (t: State<V, W>)
    requires
        matches_code(env, sc, b0, sel, items, labels) is Ok,
        !(matches_code(env, sc, b0, sel, items, labels)->Ok_0).full,
        starts_with(p, matches_code(env, sc, b0, sel, items, labels)->Ok_0),
        fits(sc, b),
        b.regs <= b0.regs,
        sel < b0.regs,
        stands(b0, s),
        same_below(regs, s.regs, b.regs),
        chosen(m, env, sc, regs, s.world, (s.regs)(sel), items) is Some,
    ensures
        ({
            let b1 = matches_code(env, sc, b0, sel, items, labels)->Ok_0;
            let (w, hit) = chosen(m, env, sc, regs, s.world, (s.regs)(sel), items)->0;
            &&& hit matches Some(i) ==> 0 <= i < items.len()
            &&& came_to(
                m,
                p,
                s,
                t,
                match hit {
                    Some(i) => place(p, labels[i]),
                    None => b1.insts.len() as int,
                },
                w,
                b0.regs,
            )
        }),
    decreases items.len(),
{
    if items.len() == 0 {
        lemma_stays(m, p, s);
        s
    } else {
        let front = items.drop_last();
        let b1 = matches_code(env, sc, b0, sel, front, labels)->Ok_0;
        let label = labels[items.len() - 1];
        lemma_match_grows(p, env, sc, b1, sel, items.last().0, label);
        lemma_matches_grow(p, env, sc, b0, sel, front, labels);
        let t1 = lemma_matches(m, p, env, sc, b, b0, sel, front, labels, regs, s);
        let (w1, hit) = chosen(m, env, sc, regs, s.world, (s.regs)(sel), front)->0;
        if hit is Some {
            t1
        } else {
            assert(same_below(regs, t1.regs, b.regs)) by {
                assert forall|k: u32| k < b.regs implies #[trigger] (t1.regs)(k) == regs(k) by {
                    assert((s.regs)(k) == regs(k));
                }
            }
            assert((t1.regs)(sel) == (s.regs)(sel));
            let t2 = lemma_match(m, p, env, sc, b, b1, sel, items.last().0, label, regs, t1);
            lemma_came_on(m, p, s, t1, t2, b0.regs, b1.regs);
            t2
        }
    }
}

/// The bodies of the items grow code and leave the loops around as they are.
proof fn lemma_bodies_grow(
    p: Seq<InstV>,
    env: EnvV,
    bound: nat,
    sc: ScopeV,
    b: Code,
    items: Seq<(Seq<ExprV>, StmtV)>,
    labels: Seq<u32>,
    end: u32,
)
    requires
        bodies_code(stmts_below(env, bound), sc, b, items, labels, end) is Ok,
        starts_with(p, bodies_code(stmts_below(env, bound), sc, b, items, labels, end)->Ok_0.1),
        loops_known(sc, b),
        forall|i: int| 0 <= i < items.len() ==> ssize((#[trigger] items[i]).1) < bound,
    ensures
        starts_with(p, b),
        ({
            let (sc1, b1) = bodies_code(stmts_below(env, bound), sc, b, items, labels, end)->Ok_0;
            &&& loops_known(sc1, b1)
            &&& b.insts.len() <= b1.insts.len()
            &&& b.full ==> b1.full
        }),
    decreases items.len(),
{
    if items.len() > 0 {
        let front = items.drop_last();
        let g = stmts_below(env, bound);
        let (sc1, b1) = bodies_code(g, sc, b, front, labels, end)->Ok_0;
        let first = InstV::Bind { label: labels[items.len() - 1] };
        let start = emit(b1, first);
        let body = items.last().1;
        assert(ssize(items[items.len() - 1].1) < bound);
        lemma_stmts_below(env, bound, sc1, start, body);
        let (sc2, b2) = stmt_code(env, sc1, start, body)->Ok_0;
        lemma_bodies_known(env, bound, sc, b, front, labels, end);
        assert(loops_known(sc1, start));
        statements_link(env, sc1, start, body);
        lemma_grows(start, b2, Set::empty());
        lemma_emitted(p, b2, InstV::Jump { label: end });
        lemma_starts(p, start, b2);
        lemma_emitted(p, b1, first);
        lemma_bodies_grow(p, env, bound, sc, b, front, labels, end);
    }
}

/// The loops around stay known through the bodies of items.
proof fn lemma_bodies_known(
    env: EnvV,
    bound: nat,
    sc: ScopeV,
    b: Code,
    items: Seq<(Seq<ExprV>, StmtV)>,
    labels: Seq<u32>,
    end: u32,
)
    requires
        bodies_code(stmts_below(env, bound), sc, b, items, labels, end) is Ok,
        loops_known(sc, b),
        forall|i: int| 0 <= i < items.len() ==> ssize((#[trigger] items[i]).1) < bound,
    ensures
        ({
            let (sc1, b1) = bodies_code(stmts_below(env, bound), sc, b, items, labels, end)->Ok_0;
            loops_known(sc1, b1)
        }),
    decreases items.len(),
{
    if items.len() > 0 {
        let front = items.drop_last();
        let g = stmts_below(env, bound);
        assert forall|i: int| 0 <= i < front.len() implies ssize((#[trigger] front[i]).1)
            < bound by {
            assert(front[i] == items[i]);
        }
        lemma_bodies_known(env, bound, sc, b, front, labels, end);
        let (sc1, b1) = bodies_code(g, sc, b, front, labels, end)->Ok_0;
        let start = emit(b1, InstV::Bind { label: labels[items.len() - 1] });
        let body = items.last().1;
        assert(ssize(items[items.len() - 1].1) < bound);
        lemma_stmts_below(env, bound, sc1, start, body);
        assert(loops_known(sc1, start));
        statements_link(env, sc1, start, body);
        let (sc2, b2) = stmt_code(env, sc1, start, body)->Ok_0;
        lemma_grows(start, b2, Set::empty());
    }
}

/// The pieces of a body of a `case`: its names and code, before and behind.
pub struct BodyParts {
    pub before: ScopeV,
    pub start: Code,
    pub after: ScopeV,
    pub end: Code,
}

/// The body of an item is where its label is, and behind it is a jump.
proof fn lemma_body_at(
    p: Seq<InstV>,
    env: EnvV,
    bound: nat,
    sc: ScopeV,
    b: Code,
    items: Seq<(Seq<ExprV>, StmtV)>,
    labels: Seq<u32>,
    end: u32,
    i: int,
) -> (r: BodyParts)
    requires
        bound_once(p),
        bodies_code(stmts_below(env, bound), sc, b, items, labels, end) is Ok,
        starts_with(p, bodies_code(stmts_below(env, bound), sc, b, items, labels, end)->Ok_0.1),
        !(bodies_code(stmts_below(env, bound), sc, b, items, labels, end)->Ok_0.1).full,
        loops_known(sc, b),
        forall|k: int| 0 <= k < items.len() ==> ssize((#[trigger] items[k]).1) < bound,
        0 <= i < items.len(),
    ensures
        has_code(p, env, r.before, r.start, items[i].1, r.after, r.end),
        place(p, labels[i]) == r.start.insts.len() - 1,
        0 < r.start.insts.len() <= p.len(),
        p[r.start.insts.len() - 1] == (InstV::Bind { label: labels[i] }),
        r.end.insts.len() < p.len(),
        p[r.end.insts.len() as int] == (InstV::Jump { label: end }),
    decreases items.len(),
{
    let front = items.drop_last();
    let g = stmts_below(env, bound);
    let (sc1, b1) = bodies_code(g, sc, b, front, labels, end)->Ok_0;
    let label = labels[items.len() - 1];
    let start = emit(b1, InstV::Bind { label });
    let body = items.last().1;
    assert forall|k: int| 0 <= k < front.len() implies ssize((#[trigger] front[k]).1) < bound by {
        assert(front[k] == items[k]);
    }
    assert(ssize(items[items.len() - 1].1) < bound);
    lemma_stmts_below(env, bound, sc1, start, body);
    let (sc2, b2) = stmt_code(env, sc1, start, body)->Ok_0;
    lemma_bodies_known(env, bound, sc, b, front, labels, end);
    assert(loops_known(sc1, start));
    statements_link(env, sc1, start, body);
    lemma_emitted(p, b2, InstV::Jump { label: end });
    lemma_starts(p, start, b2);
    lemma_bound(p, b1, label);
    if i == items.len() - 1 {
        BodyParts { before: sc1, start, after: sc2, end: b2 }
    } else {
        assert(front[i] == items[i]);
        lemma_body_at(p, env, bound, sc, b, front, labels, end, i)
    }
}

proof fn lemma_labels_grow(b: Code, n: nat)
    ensures
        ({
            let (b1, labels) = new_labels(b, n);
            &&& labels.len() == n
            &&& b1.insts == b.insts
            &&& b1.regs == b.regs
            &&& b.labels <= b1.labels
            &&& b.full ==> b1.full
        }),
    decreases n,
{
    if n > 0 {
        lemma_labels_grow(b, (n - 1) as nat);
    }
}

/// A `case` compares its selector with the expressions of its items, in order. At the
/// first that it equals the body of that item runs, or where it equals none the default,
/// if there is one; and then the program goes on behind the `case`.
pub proof fn a_case_runs_the_first_match<V, W>(
    m: Meaning<V, W>,
    p: Seq<InstV>,
    env: EnvV,
    sc: ScopeV,
    b: Code,
    expr: ExprV,
    items: Seq<(Seq<ExprV>, StmtV)>,
    default: Option<Box<StmtV>>,
    sc1: ScopeV,
    b1: Code,
    s: State<V, W>,
) -> (r: (State<V, W>, BodyParts))
    requires
        bound_once(p),
        loops_known(sc, b),
        has_code(p, env, sc, b, StmtV::Case { expr, items, default }, sc1, b1),
        fits(sc, b),
        stands(b, s),
        eval(m, env, sc, s.regs, s.world, expr) is Some,
        ({
            let (w, v) = eval(m, env, sc, s.regs, s.world, expr)->0;
            chosen(m, env, sc, s.regs, w, v, items) is Some
        }),
    ensures
        ({
            let (w, v) = eval(m, env, sc, s.regs, s.world, expr)->0;
            let (w1, hit) = chosen(m, env, sc, s.regs, w, v, items)->0;
            let (t, body) = r;
            match hit {
                Some(i) => {
                    &&& 0 <= i < items.len()
                    &&& has_code(p, env, body.before, body.start, items[i].1, body.after, body.end)
                    &&& came_to(m, p, s, t, body.start.insts.len() as int, w1, b.regs)
                    &&& forall|u: State<V, W>| #[trigger]
                        stands(body.end, u) ==> goes_to(m, p, u, b1.insts.len() as int)
                },
                None => match default {
                    Some(d) => {
                        &&& has_code(p, env, body.before, body.start, *d, body.after, body.end)
                        &&& came_to(m, p, s, t, body.start.insts.len() as int, w1, b.regs)
                        &&& forall|u: State<V, W>| #[trigger]
                            stands(body.end, u) ==> goes_to(m, p, u, b1.insts.len() as int)
                    },
                    None => came_to(m, p, s, t, b1.insts.len() as int, w1, b.regs),
                },
            }
        }),
{
    reveal(case_code);
    let e = StmtV::Case { expr, items, default };
    lemma_stmt_code(env, sc, b, e);
    let bound = ssize(e);
    let g = stmts_below(env, bound);
    let (c1, sel) = expr_code(env, sc, b, expr)->Ok_0;
    expressions_link(env, sc, b, expr);
    lemma_grows(b, c1, Set::empty());
    let end = c1.labels;
    let (c2, labels) = new_labels(with_label(c1), items.len());
    lemma_labels_grow(with_label(c1), items.len());
    let other = if default is Some {
        c2.labels
    } else {
        end
    };
    let c3 = if default is Some {
        with_label(c2)
    } else {
        c2
    };
    let c4 = matches_code(env, sc, c3, sel, items, labels)->Ok_0;
    let go = InstV::Jump { label: other };
    let c5 = emit(c4, go);
    let (sc2, c6) = bodies_code(g, sc, c5, items, labels, end)->Ok_0;
    assert forall|k: int| 0 <= k < items.len() implies ssize((#[trigger] items[k]).1) < bound by {
        lemma_asizes(items, k);
    }
    lemma_known_in_case(env, sc, b, c1, c3, c4, c5, sel, items, labels);
    lemma_bodies_known(env, bound, sc, c5, items, labels, end);
    let mut last = BodyParts { before: sc2, start: c6, after: sc2, end: c6 };
    match default {
        None => {
            assert(b1 == emit(c6, InstV::Bind { label: end }));
            lemma_bound(p, c6, end);
        },
        Some(d) => {
            let start = emit(c6, InstV::Bind { label: other });
            lemma_stmts_below(env, bound, sc2, start, *d);
            let (sc3, c7) = stmt_code(env, sc2, start, *d)->Ok_0;
            assert(loops_known(sc2, start));
            statements_link(env, sc2, start, *d);
            lemma_grows(start, c7, Set::empty());
            assert(b1 == emit(c7, InstV::Bind { label: end }));
            lemma_bound(p, c7, end);
            lemma_starts(p, start, c7);
            lemma_bound(p, c6, other);
            last = BodyParts { before: sc2, start, after: sc3, end: c7 };
        },
    }
    lemma_bodies_grow(p, env, bound, sc, c5, items, labels, end);
    lemma_emitted(p, c4, go);
    lemma_matches_grow(p, env, sc, c3, sel, items, labels);
    assert(starts_with(p, c1));
    let t1 = lemma_expr(m, p, env, sc, b, expr, s);
    let t2 = lemma_matches(m, p, env, sc, b, c3, sel, items, labels, s.regs, t1);
    lemma_came_on(m, p, s, t1, t2, b.regs, c3.regs);
    let (w, v) = eval(m, env, sc, s.regs, s.world, expr)->0;
    let (w1, hit) = chosen(m, env, sc, s.regs, w, v, items)->0;
    match hit {
        Some(i) => {
            let body = lemma_body_at(p, env, bound, sc, c5, items, labels, end, i);
            let t3 = step(m, p, t2);
            lemma_step(m, p, t2);
            lemma_on(m, p, s, t2, t3);
            assert forall|u: State<V, W>| #[trigger] stands(body.end, u) implies goes_to(
                m,
                p,
                u,
                b1.insts.len() as int,
            ) by {
                crate::flow_laws::lemma_two_steps(m, p, u);
            }
            (t3, body)
        },
        None => {
            let t3 = step(m, p, t2);
            let t4 = step(m, p, t3);
            crate::flow_laws::lemma_two_steps(m, p, t2);
            lemma_on(m, p, s, t2, t4);
            assert forall|u: State<V, W>|
                default is Some && #[trigger] stands(last.end, u) implies goes_to(
                m,
                p,
                u,
                b1.insts.len() as int,
            ) by {
                lemma_step(m, p, u);
            }
            (t4, last)
        },
    }
}

/// The loops around are known where the bodies of a `case` start.
proof fn lemma_known_in_case(
    env: EnvV,
    sc: ScopeV,
    b: Code,
    c1: Code,
    c3: Code,
    c4: Code,
    c5: Code,
    sel: u32,
    items: Seq<(Seq<ExprV>, StmtV)>,
    labels: Seq<u32>,
)
    requires
        loops_known(sc, b),
        b.labels <= c1.labels,
        b.full ==> c1.full,
        c1.labels <= c3.labels,
        c1.full ==> c3.full,
        matches_code(env, sc, c3, sel, items, labels) == Ok::<Code, Seq<char>>(c4),
        c5.labels == c4.labels,
        c5.full == c4.full || c5.full,
        c4.full ==> c5.full,
    ensures
        loops_known(sc, c5),
{
    assert(starts_with(c4.insts, c4)) by {
        assert(c4.insts.take(c4.insts.len() as int) =~= c4.insts);
    }
    lemma_matches_grow(c4.insts, env, sc, c3, sel, items, labels);
    if !c5.full {
        assert forall|k: int| 0 <= k < sc.loops.len() implies (#[trigger] sc.loops[k]).0
            < c5.labels && sc.loops[k].1 < c5.labels by {}
    }
}

} // verus!
