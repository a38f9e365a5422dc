//! Laws of running statements that do one thing: assignments, declarations, waiting,
//! calls and results.
use vstd::prelude::*;

use crate::ast::{CollKind, ForkJoin};
use crate::ast_model::{EventExprV, ExprV, LvalueV, StmtV, TimingControlV, VarDeclV};
use crate::bit::Bit;
use crate::bits::{fill, value};
use crate::code_model::{group_code, lemma_grows, linked};
use crate::const_fold::folded_const;
use crate::flow_laws::{bound_once, has_code, lemma_bound, lemma_two_steps};
use crate::gen_laws::{expressions_link, lemma_args, lemma_below};
use crate::gen_model::{
    args_code, assign_code, default_format, esizes, expr_code, exprs_below, format_of, formatted,
    net_of,
};
use crate::gen_stmt_model::{
    blocking_code, branch_code, branch_start, branches_code, by_register, captured, constructed, declared_collection, edge_net, lemma_ssizes, lemma_stmt_code, lemma_stmts_below, lvalue_code, new_code, placed,
    ssize, stmt_code, stmts_below, sys_call_code, timing_code, var_code,
    Captured,
};
use crate::ir::{emit, no_code, with_label, with_reg, Code, InstV, ValueV};
use crate::layout::{
    class_at, class_named, handle_class, named_event, own_field, own_static, receiver, EnvV, ScopeV,
};
use crate::lower_expr::named;
use crate::machine::{
    done, goes_to, lemma_on, lemma_stays, lemma_step, reaches, step, values, Act, Ending, Meaning,
    State,
};
use crate::meaning::{element_base, eval, eval_all, write_name, write_to};
use crate::run_laws::{
    computed, fits, lemma_all, lemma_emitted, lemma_eval_same, lemma_expr, lemma_new, lemma_starts,
    lemma_task, lemma_then, ran_through, same_below, stands, starts_with,
};
use crate::stmt_laws::{loops_known, statements_link};
use crate::table::{distinct, lookup, put, put_then_lookup};
use crate::text::joined;
use vstd::arithmetic::power2::{lemma2_to64, lemma_pow2_pos, pow2};

verus! {

broadcast use group_code;

/// Whether registers and world are what a write left, in registers that were handed out.
pub open spec fn wrote<V, W>(
    b: Code,
    b1: Code,
    t: State<V, W>,
    out: (spec_fn(u32) -> V, W),
) -> bool {
    &&& stands(b1, t)
    &&& t.world == out.1
    &&& forall|r: u32| r < b.regs ==> #[trigger] (t.regs)(r) == (out.0)(r)
}

/// A write to a plain name runs.
proof fn lemma_assigned<V, W>(
    m: Meaning<V, W>,
    p: Seq<InstV>,
    env: EnvV,
    sc: ScopeV,
    b: Code,
    b1: Code,
    name: Seq<char>,
    src: u32,
    later: bool,
    regs: spec_fn(u32) -> V,
    s: State<V, W>,
) -> (t: State<V, W>)
    requires
        assign_code(env, sc, b1, name, src, later) is Ok,
        starts_with(p, assign_code(env, sc, b1, name, src, later)->Ok_0),
        fits(sc, b),
        b.regs <= b1.regs,
        stands(b1, s),
        same_below(regs, s.regs, b.regs),
    ensures
        ({
            let b2 = assign_code(env, sc, b1, name, src, later)->Ok_0;
            let out = write_name(m, env, sc, regs, s.world, name, (s.regs)(src), later);
            &&& reaches(m, p, s, t)
            &&& out is Some
            &&& wrote(b, b2, t, out->0)
        }),
{
    reveal(assign_code);
    let v = (s.regs)(src);
    assert(sc.class_ctx is Some ==> regs(sc.this_reg) == (s.regs)(sc.this_reg));
    if lookup(sc.locals, name) is Some && !later {
        let i = InstV::Assign { dst: (lookup(sc.locals, name)->0).0, src };
        lemma_emitted(p, b1, i);
        lemma_step(m, p, s);
        step(m, p, s)
    } else {
        let i = if lookup(sc.locals, name) is Some {
            InstV::NbaAssign { dst: (lookup(sc.locals, name)->0).0, src }
        } else if own_field(env, sc, name) is Some {
            InstV::SetField { obj: sc.this_reg, slot: (own_field(env, sc, name)->0).0, src }
        } else if own_static(env, sc, name) is Some {
            InstV::StaticSet { id: own_static(env, sc, name)->0, src }
        } else if lookup(env.vars, name) is Some {
            InstV::StaticSet { id: lookup(env.vars, name)->0, src }
        } else if later {
            InstV::NbaWrite { net: net_of(env, name)->Ok_0, src }
        } else {
            InstV::BlockingWrite { net: net_of(env, name)->Ok_0, src }
        };
        assert(values(s.regs, seq![src]) =~= seq![v]);
        assert(values(s.regs, seq![sc.this_reg, src]) =~= seq![(s.regs)(sc.this_reg), v]);
        lemma_task(m, p, b1, i, s)
    }
}

/// A write to an element runs.
proof fn lemma_written_element<V, W>(
    m: Meaning<V, W>,
    p: Seq<InstV>,
    env: EnvV,
    sc: ScopeV,
    b: Code,
    b1: Code,
    lhs: LvalueV,
    src: u32,
    later: bool,
    regs: spec_fn(u32) -> V,
    s: State<V, W>,
) -> (t: State<V, W>)
    requires
        lhs.index is Some,
        lvalue_code(env, sc, b1, lhs, src, later) is Ok,
        !(lvalue_code(env, sc, b1, lhs, src, later)->Ok_0).full,
        starts_with(p, lvalue_code(env, sc, b1, lhs, src, later)->Ok_0),
        fits(sc, b),
        b.regs <= b1.regs,
        src < b1.regs,
        stands(b1, s),
        same_below(regs, s.regs, b.regs),
        write_to(m, env, sc, regs, s.world, lhs, (s.regs)(src), later) is Some,
    ensures
        ({
            let b2 = lvalue_code(env, sc, b1, lhs, src, later)->Ok_0;
            let out = write_to(m, env, sc, regs, s.world, lhs, (s.regs)(src), later);
            &&& reaches(m, p, s, t)
            &&& wrote(b, b2, t, out->0)
        }),
{
    reveal(lvalue_code);
    let v = (s.regs)(src);
    let base = element_base(lhs);
    let index = lhs.index->0;
    assert(base == named(lhs));
    let (b2, r) = expr_code(env, sc, b1, base)->Ok_0;
    let (b3, idx) = expr_code(env, sc, b2, index)->Ok_0;
    expressions_link(env, sc, b1, base);
    expressions_link(env, sc, b2, index);
    let i = InstV::IndexSet { base: r, idx, src };
    lemma_emitted(p, b3, i);
    lemma_starts(p, b2, b3);
    lemma_starts(p, b1, b2);
    lemma_eval_same(m, env, sc, regs, s.regs, b, s.world, base);
    let t1 = lemma_expr(m, p, env, sc, b1, base, s);
    assert(same_below(regs, t1.regs, b.regs)) by {
        assert forall|k: u32| k < b.regs implies #[trigger] (t1.regs)(k) == regs(k) by {
            assert((s.regs)(k) == regs(k));
        }
    }
    lemma_eval_same(m, env, sc, regs, t1.regs, b, t1.world, index);
    let t2 = lemma_expr(m, p, env, sc, b2, index, t1);
    assert((t1.regs)(src) == v);
    assert((t2.regs)(src) == v);
    assert((t2.regs)(r) == (t1.regs)(r));
    assert(values(t2.regs, seq![r, idx, src]) =~= seq![(t1.regs)(r), (t2.regs)(idx), v]);
    let t3 = lemma_task(m, p, b3, i, t2);
    lemma_on(m, p, s, t1, t2);
    lemma_on(m, p, s, t2, t3);
    assert forall|k: u32| k < b.regs implies #[trigger] (t3.regs)(k) == regs(k) by {
        assert((t2.regs)(k) == (t1.regs)(k));
    }
    t3
}

/// A write to a field of an object runs.
proof fn lemma_written_field<V, W>(
    m: Meaning<V, W>,
    p: Seq<InstV>,
    env: EnvV,
    sc: ScopeV,
    b: Code,
    b1: Code,
    lhs: LvalueV,
    src: u32,
    later: bool,
    regs: spec_fn(u32) -> V,
    s: State<V, W>,
) -> (t: State<V, W>)
    requires
        lhs.index is None,
        lhs.scope is None,
        lhs.receiver is Some,
        lvalue_code(env, sc, b1, lhs, src, later) is Ok,
        !(lvalue_code(env, sc, b1, lhs, src, later)->Ok_0).full,
        starts_with(p, lvalue_code(env, sc, b1, lhs, src, later)->Ok_0),
        fits(sc, b),
        b.regs <= b1.regs,
        src < b1.regs,
        stands(b1, s),
        same_below(regs, s.regs, b.regs),
        write_to(m, env, sc, regs, s.world, lhs, (s.regs)(src), later) is Some,
    ensures
        ({
            let b2 = lvalue_code(env, sc, b1, lhs, src, later)->Ok_0;
            let out = write_to(m, env, sc, regs, s.world, lhs, (s.regs)(src), later);
            &&& reaches(m, p, s, t)
            &&& wrote(b, b2, t, out->0)
        }),
{
    reveal(lvalue_code);
    let v = (s.regs)(src);
    let obj = *lhs.receiver->0;
    let (b2, r) = expr_code(env, sc, b1, obj)->Ok_0;
    let c = class_at(env, receiver(env, sc, obj)->Ok_0)->0;
    let i = InstV::SetField { obj: r, slot: (lookup(c.field_slot, lhs.name)->0).0, src };
    expressions_link(env, sc, b1, obj);
    lemma_emitted(p, b2, i);
    lemma_starts(p, b1, b2);
    lemma_eval_same(m, env, sc, regs, s.regs, b, s.world, obj);
    let t1 = lemma_expr(m, p, env, sc, b1, obj, s);
    assert((t1.regs)(src) == v);
    assert(values(t1.regs, seq![r, src]) =~= seq![(t1.regs)(r), v]);
    let t2 = lemma_task(m, p, b2, i, t1);
    lemma_on(m, p, s, t1, t2);
    assert forall|k: u32| k < b.regs implies #[trigger] (t2.regs)(k) == regs(k) by {
        assert((t1.regs)(k) == (s.regs)(k));
    }
    t2
}

/// A write to an assignment target runs.
proof fn lemma_written<V, W>(
    m: Meaning<V, W>,
    p: Seq<InstV>,
    env: EnvV,
    sc: ScopeV,
    b: Code,
    b1: Code,
    lhs: LvalueV,
    src: u32,
    later: bool,
    regs: spec_fn(u32) -> V,
    s: State<V, W>,
) -> (t: State<V, W>)
    requires
        lvalue_code(env, sc, b1, lhs, src, later) is Ok,
        !(lvalue_code(env, sc, b1, lhs, src, later)->Ok_0).full,
        starts_with(p, lvalue_code(env, sc, b1, lhs, src, later)->Ok_0),
        fits(sc, b),
        b.regs <= b1.regs,
        src < b1.regs,
        stands(b1, s),
        same_below(regs, s.regs, b.regs),
        write_to(m, env, sc, regs, s.world, lhs, (s.regs)(src), later) is Some,
    ensures
        ({
            let b2 = lvalue_code(env, sc, b1, lhs, src, later)->Ok_0;
            let out = write_to(m, env, sc, regs, s.world, lhs, (s.regs)(src), later);
            &&& reaches(m, p, s, t)
            &&& wrote(b, b2, t, out->0)
        }),
{
    reveal(lvalue_code);
    let v = (s.regs)(src);
    if lhs.index is Some {
        lemma_written_element(m, p, env, sc, b, b1, lhs, src, later, regs, s)
    } else if lhs.scope is Some {
        let c = class_at(env, class_named(env, sc, lhs.scope->0)->0)->0;
        let i = InstV::StaticSet { id: lookup(c.static_fields, lhs.name)->0, src };
        assert(values(s.regs, seq![src]) =~= seq![v]);
        lemma_task(m, p, b1, i, s)
    } else if lhs.receiver is Some {
        lemma_written_field(m, p, env, sc, b, b1, lhs, src, later, regs, s)
    } else {
        lemma_assigned(m, p, env, sc, b, b1, lhs.name, src, later, regs, s)
    }
}

/// An assignment computes its right-hand side and then writes it to its target: at once
/// for a blocking one, at the end of the time step for another.
pub proof fn assignments_write_their_target<V, W>(
    m: Meaning<V, W>,
    p: Seq<InstV>,
    env: EnvV,
    sc: ScopeV,
    b: Code,
    lhs: LvalueV,
    rhs: ExprV,
    later: bool,
    sc1: ScopeV,
    b1: Code,
    s: State<V, W>,
) -> (t: State<V, W>)
    requires
        rhs !is New,
        has_code(
            p,
            env,
            sc,
            b,
            if later {
                StmtV::Nonblocking { lhs, rhs }
            } else {
                StmtV::Blocking { lhs, rhs }
            },
            sc1,
            b1,
        ),
        fits(sc, b),
        stands(b, s),
        eval(m, env, sc, s.regs, s.world, rhs) is Some,
        ({
            let (w, v) = eval(m, env, sc, s.regs, s.world, rhs)->0;
            write_to(m, env, sc, s.regs, w, lhs, v, later) is Some
        }),
    ensures
        ({
            let (w, v) = eval(m, env, sc, s.regs, s.world, rhs)->0;
            &&& sc1 == sc
            &&& reaches(m, p, s, t)
            &&& wrote(b, b1, t, write_to(m, env, sc, s.regs, w, lhs, v, later)->0)
        }),
{
    reveal(blocking_code);
    lemma_stmt_code(
        env,
        sc,
        b,
        if later {
            StmtV::Nonblocking { lhs, rhs }
        } else {
            StmtV::Blocking { lhs, rhs }
        },
    );
    let (b2, src) = expr_code(env, sc, b, rhs)->Ok_0;
    expressions_link(env, sc, b, rhs);
    lemma_lvalue_links(env, sc, b2, lhs, src, later);
    lemma_starts(p, b2, b1);
    lemma_starts(p, b, b2);
    let t1 = lemma_expr(m, p, env, sc, b, rhs, s);
    let t2 = lemma_written(m, p, env, sc, b, b2, lhs, src, later, s.regs, t1);
    lemma_on(m, p, s, t1, t2);
    t2
}

/// The code of a write is added.
proof fn lemma_lvalue_links(
    env: EnvV,
    sc: ScopeV,
    b: Code,
    lhs: LvalueV,
    src: u32,
    later: bool,
)
    ensures
        lvalue_code(env, sc, b, lhs, src, later) is Ok ==> linked(
            b,
            lvalue_code(env, sc, b, lhs, src, later)->Ok_0,
        ),
{
    reveal(lvalue_code);
    reveal(assign_code);
    if lvalue_code(env, sc, b, lhs, src, later) is Ok {
        if lhs.index is Some {
            let (b2, r) = expr_code(env, sc, b, named(lhs))->Ok_0;
            expressions_link(env, sc, b, named(lhs));
            expressions_link(env, sc, b2, lhs.index->0);
        } else if lhs.receiver is Some {
            expressions_link(env, sc, b, *lhs.receiver->0);
        }
    }
}

// ---- new objects ----------------------------------------------------------------------

/// The object that `new` makes: of a class, with its constructor run on the object and the
/// arguments, if it has one.
pub open spec fn made<V, W>(
    m: Meaning<V, W>,
    env: EnvV,
    sc: ScopeV,
    regs: spec_fn(u32) -> V,
    w: W,
    cid: u32,
    args: Seq<ExprV>,
) -> Option<(W, V)> {
    let (w1, o) = done(m, w, Act::New(cid), seq![]);
    let ctor = match class_at(env, cid) {
        Some(c) => c.ctor,
        None => None,
    };
    match ctor {
        None => Some((w1, o)),
        Some(func) => match eval_all(m, env, sc, regs, w1, args) {
            None => None,
            Some((w2, vs)) => Some((done(m, w2, Act::Call(func), seq![o] + vs).0, o)),
        },
    }
}

/// Making an object runs.
proof fn lemma_made<V, W>(
    m: Meaning<V, W>,
    p: Seq<InstV>,
    env: EnvV,
    sc: ScopeV,
    b: Code,
    cid: u32,
    args: Seq<ExprV>,
    s: State<V, W>,
) -> (t: State<V, W>)
    requires
        constructed(env, sc, b, cid, args) is Ok,
        !(constructed(env, sc, b, cid, args)->Ok_0.0).full,
        starts_with(p, constructed(env, sc, b, cid, args)->Ok_0.0),
        fits(sc, b),
        stands(b, s),
        made(m, env, sc, s.regs, s.world, cid, args) is Some,
    ensures
        ({
            let (b1, r) = constructed(env, sc, b, cid, args)->Ok_0;
            computed(m, p, b, b1, r, s, t, made(m, env, sc, s.regs, s.world, cid, args)->0)
        }),
{
    reveal(constructed);
    let i = InstV::New { dst: b.regs, class: cid };
    let b1 = emit(with_reg(b), i);
    let ctor = match class_at(env, cid) {
        Some(c) => c.ctor,
        None => None,
    };
    assert(values(s.regs, Seq::<u32>::empty()) =~= Seq::<V>::empty());
    match ctor {
        None => lemma_new(m, p, b, i, s),
        Some(func) => {
            let bound = esizes(args) + 1;
            let f = exprs_below(env, sc, bound);
            let (b2, regs) = args_code(f, b1, args)->Ok_0;
            let call = InstV::Call { func, args: seq![b.regs] + regs, ret: b2.regs };
            let end = emit(with_reg(b2), call);
            lemma_below(env, sc, bound);
            lemma_args(f, b1, args);
            lemma_starts(p, b2, end);
            lemma_starts(p, b1, b2);
            let t1 = lemma_new(m, p, b, i, s);
            crate::run_laws::lemma_all_same(m, env, sc, s.regs, t1.regs, b, t1.world, args);
            let t2 = lemma_all(m, p, env, sc, bound, b1, args, t1);
            lemma_then(m, p, b, b1, b2, s, t1, t2);
            assert((t2.regs)(b.regs) == (t1.regs)(b.regs));
            let (w2, vs) = eval_all(m, env, sc, s.regs, t1.world, args)->0;
            let o = (t1.regs)(b.regs);
            assert(values(t2.regs, seq![b.regs] + regs) =~= seq![o] + vs);
            let t3 = lemma_new(m, p, b2, call, t2);
            lemma_then(m, p, b, b2, end, s, t2, t3);
            assert((t3.regs)(b.regs) == (t2.regs)(b.regs));
            t3
        },
    }
}

/// `handle = new(args)` makes an object of the class of the handle, runs its constructor,
/// and writes the object to the handle.
pub proof fn new_makes_an_object<V, W>(
    m: Meaning<V, W>,
    p: Seq<InstV>,
    env: EnvV,
    sc: ScopeV,
    b: Code,
    lhs: LvalueV,
    args: Seq<ExprV>,
    cid: u32,
    sc1: ScopeV,
    b1: Code,
    s: State<V, W>,
) -> (t: State<V, W>)
    requires
        has_code(p, env, sc, b, StmtV::Blocking { lhs, rhs: ExprV::New { args } }, sc1, b1),
        lhs.index is None,
        handle_class(env, sc, lhs.name) == Some(cid),
        fits(sc, b),
        stands(b, s),
        made(m, env, sc, s.regs, s.world, cid, args) is Some,
    ensures
        ({
            let (w, o) = made(m, env, sc, s.regs, s.world, cid, args)->0;
            let out = write_name(m, env, sc, s.regs, w, lhs.name, o, false);
            &&& sc1 == sc
            &&& reaches(m, p, s, t)
            &&& out is Some
            &&& wrote(b, b1, t, out->0)
        }),
{
    reveal(blocking_code);
    lemma_stmt_code(env, sc, b, StmtV::Blocking { lhs, rhs: ExprV::New { args } });
    reveal(new_code);
    let (b2, r) = constructed(env, sc, b, cid, args)->Ok_0;
    assert(linked(b2, b1)) by {
        reveal(assign_code);
    }
    assert(linked(b, b2)) by {
        lemma_made_links(env, sc, b, cid, args);
    }
    lemma_starts(p, b2, b1);
    lemma_starts(p, b, b2);
    let t1 = lemma_made(m, p, env, sc, b, cid, args, s);
    let t2 = lemma_assigned(m, p, env, sc, b, b2, lhs.name, r, false, s.regs, t1);
    lemma_on(m, p, s, t1, t2);
    t2
}

proof fn lemma_made_links(env: EnvV, sc: ScopeV, b: Code, cid: u32, args: Seq<ExprV>)
    ensures
        constructed(env, sc, b, cid, args) is Ok ==> linked(
            b,
            constructed(env, sc, b, cid, args)->Ok_0.0,
        ),
{
    reveal(constructed);
    let f = exprs_below(env, sc, esizes(args) + 1);
    lemma_below(env, sc, esizes(args) + 1);
    let b1 = emit(with_reg(b), InstV::New { dst: b.regs, class: cid });
    lemma_args(f, b1, args);
}

// ---- results, events, expressions -------------------------------------------------------

/// A `return` ends the program with the value of its expression, or without a value.
pub proof fn a_return_ends_with_its_value<V, W>(
    m: Meaning<V, W>,
    p: Seq<InstV>,
    env: EnvV,
    sc: ScopeV,
    b: Code,
    o: Option<ExprV>,
    sc1: ScopeV,
    b1: Code,
    s: State<V, W>,
) -> (t: State<V, W>)
    requires
        has_code(p, env, sc, b, StmtV::Return(o), sc1, b1),
        fits(sc, b),
        stands(b, s),
        o matches Some(e) ==> eval(m, env, sc, s.regs, s.world, e) is Some,
    ensures
        reaches(m, p, s, t),
        match o {
            None => t.end == Some(Ending::<V>::Void) && t.world == s.world,
            Some(e) => ({
                let (w, v) = eval(m, env, sc, s.regs, s.world, e)->0;
                t.end == Some(Ending::Value(v)) && t.world == w
            }),
        },
{
    lemma_stmt_code(env, sc, b, StmtV::Return(o));
    match o {
        None => {
            lemma_emitted(p, b, InstV::ReturnVoid);
            lemma_step(m, p, s);
            step(m, p, s)
        },
        Some(e) => {
            let (b2, value) = expr_code(env, sc, b, e)->Ok_0;
            lemma_emitted(p, b2, InstV::Return { value });
            let t1 = lemma_expr(m, p, env, sc, b, e, s);
            lemma_step(m, p, t1);
            lemma_on(m, p, s, t1, step(m, p, t1));
            step(m, p, t1)
        },
    }
}

/// An expression as a statement is computed for what it does; a trigger triggers the event
/// that its expression is; an empty statement does nothing.
pub proof fn expressions_and_triggers_run<V, W>(
    m: Meaning<V, W>,
    p: Seq<InstV>,
    env: EnvV,
    sc: ScopeV,
    b: Code,
    e: ExprV,
    trigger: bool,
    sc1: ScopeV,
    b1: Code,
    s: State<V, W>,
) -> (t: State<V, W>)
    requires
        has_code(
            p,
            env,
            sc,
            b,
            if trigger {
                StmtV::Trigger(e)
            } else {
                StmtV::Expr(e)
            },
            sc1,
            b1,
        ),
        fits(sc, b),
        stands(b, s),
        eval(m, env, sc, s.regs, s.world, e) is Some,
    ensures
        ({
            let (w, v) = eval(m, env, sc, s.regs, s.world, e)->0;
            &&& sc1 == sc
            &&& ran_through(m, p, b, b1, s, t)
            &&& trigger ==> t.world == done(m, w, Act::TriggerEvent, seq![v]).0
            &&& !trigger ==> t.world == w
        }),
{
    lemma_stmt_code(
        env,
        sc,
        b,
        if trigger {
            StmtV::Trigger(e)
        } else {
            StmtV::Expr(e)
        },
    );
    let (b2, event) = expr_code(env, sc, b, e)->Ok_0;
    expressions_link(env, sc, b, e);
    if trigger {
        let i = InstV::TriggerEvent { event };
        lemma_emitted(p, b2, i);
        lemma_starts(p, b, b2);
        let t1 = lemma_expr(m, p, env, sc, b, e, s);
        assert(values(t1.regs, seq![event]) =~= seq![(t1.regs)(event)]);
        let t2 = lemma_task(m, p, b2, i, t1);
        assert(ran_through(m, p, b2, b1, t1, t2));
        lemma_then(m, p, b, b2, b1, s, t1, t2);
        t2
    } else {
        lemma_expr(m, p, env, sc, b, e, s)
    }
}

/// An empty statement has no code.
pub proof fn an_empty_statement_does_nothing(env: EnvV, sc: ScopeV, b: Code)
    ensures
        stmt_code(env, sc, b, StmtV::Null) == Ok::<(ScopeV, Code), Seq<char>>((sc, b)),
{
    lemma_stmt_code(env, sc, b, StmtV::Null);
}

/// `$display` and `$write` print their arguments, behind the format if there is one.
pub proof fn display_prints_its_arguments<V, W>(
    m: Meaning<V, W>,
    p: Seq<InstV>,
    env: EnvV,
    sc: ScopeV,
    b: Code,
    name: Seq<char>,
    format: Option<Seq<char>>,
    rest: Seq<ExprV>,
    sc1: ScopeV,
    b1: Code,
    s: State<V, W>,
) -> (t: State<V, W>)
    requires
        name == "$display"@ || name == "$write"@,
        format is None ==> rest.len() == 0 || rest[0] !is Str,
        has_code(
            p,
            env,
            sc,
            b,
            StmtV::SysCall {
                name,
                args: match format {
                    Some(f) => seq![ExprV::Str(f)] + rest,
                    None => rest,
                },
            },
            sc1,
            b1,
        ),
        fits(sc, b),
        stands(b, s),
        eval_all(m, env, sc, s.regs, s.world, rest) is Some,
    ensures
        ({
            let (w, vs) = eval_all(m, env, sc, s.regs, s.world, rest)->0;
            let text = match format {
                Some(f) => f,
                None => blanks_between(rest.len()),
            };
            &&& sc1 == sc
            &&& ran_through(m, p, b, b1, s, t)
            &&& t.world == done(m, w, Act::Display(text), vs).0
        }),
{
    reveal(sys_call_code);
    let args = match format {
        Some(f) => seq![ExprV::Str(f)] + rest,
        None => rest,
    };
    lemma_stmt_code(env, sc, b, StmtV::SysCall { name, args });
    assert(formatted(args) =~= rest);
    lemma_default_format(rest.len());
    let bound = esizes(args) + 1;
    let f = exprs_below(env, sc, bound);
    let (b2, regs) = args_code(f, b, rest)->Ok_0;
    let i = InstV::Display { fmt: format_of(args), args: regs };
    lemma_below(env, sc, bound);
    lemma_args(f, b, rest);
    lemma_emitted(p, b2, i);
    lemma_starts(p, b, b2);
    let t1 = lemma_all(m, p, env, sc, bound, b, rest, s);
    let t2 = lemma_task(m, p, b2, i, t1);
    assert(ran_through(m, p, b2, b1, t1, t2));
    lemma_then(m, p, b, b2, b1, s, t1, t2);
    t2
}

/// The format of arguments without one: each in decimal without padding, with blanks
/// between.
pub open spec fn blanks_between(n: nat) -> Seq<char> {
    joined(Seq::new(n, |i: int| "%0d"@), ' ')
}

proof fn lemma_default_format(n: nat)
    ensures
        default_format(n) == blanks_between(n),
    decreases n,
{
    let all = Seq::new(n, |i: int| "%0d"@);
    reveal_strlit(" ");
    if n > 1 {
        lemma_default_format((n - 1) as nat);
        assert(all.drop_last() =~= Seq::new((n - 1) as nat, |i: int| "%0d"@));
        assert(" "@ =~= seq![' ']);
    }
}

// ---- waiting ---------------------------------------------------------------------------

/// A delay waits for the constant value of its expression and then runs its statement.
pub proof fn a_delay_waits_for_its_value<V, W>(
    m: Meaning<V, W>,
    p: Seq<InstV>,
    env: EnvV,
    sc: ScopeV,
    b: Code,
    e: ExprV,
    body: StmtV,
    sc1: ScopeV,
    b1: Code,
    s: State<V, W>,
) -> (r: (Code, u64, State<V, W>))
    requires
        has_code(
            p,
            env,
            sc,
            b,
            StmtV::Timed { control: TimingControlV::Delay(e), body: Box::new(body) },
            sc1,
            b1,
        ),
        loops_known(sc, b),
        stands(b, s),
    ensures
        ({
            let (behind, amount, t) = r;
            &&& folded_const(e, env.consts) is Ok
            &&& amount as nat == value(folded_const(e, env.consts)->Ok_0) % pow2(64)
            &&& has_code(p, env, sc, behind, body, sc1, b1)
            &&& ran_through(m, p, b, behind, s, t)
            &&& t.world == done(m, s.world, Act::Delay(amount), seq![]).0
        }),
{
    reveal(timing_code);
    let c = TimingControlV::Delay(e);
    let all = StmtV::Timed { control: c, body: Box::new(body) };
    lemma_stmt_code(env, sc, b, all);
    let behind = timing_code(env, sc, b, c)->Ok_0;
    lemma_stmts_below(env, ssize(all), sc, behind, body);
    let v = value(folded_const(e, env.consts)->Ok_0) % pow2(64);
    assert(0 <= v <= u64::MAX) by {
        lemma_pow2_pos(64);
        lemma2_to64();
        vstd::arithmetic::div_mod::lemma_mod_bound(
            value(folded_const(e, env.consts)->Ok_0) as int,
            pow2(64) as int,
        );
    }
    let i = InstV::Delay { amount: v as u64 };
    assert(behind == emit(b, i));
    lemma_known_behind(sc, b, behind);
    statements_link(env, sc, behind, body);
    lemma_starts(p, behind, b1);
    assert(values(s.regs, Seq::<u32>::empty()) =~= Seq::<V>::empty());
    let t = lemma_task(m, p, b, i, s);
    assert((v as u64) as nat == v);
    assert(ran_through(m, p, b, behind, s, t));
    (behind, v as u64, t)
}

proof fn lemma_known_behind(sc: ScopeV, b: Code, b1: Code)
    requires
        loops_known(sc, b),
        linked(b, b1),
    ensures
        loops_known(sc, b1),
{
    lemma_grows(b, b1, Set::empty());
}

/// An event control waits for what it names and then runs its statement: for an edge of a
/// net, the edge that is written; for a named event, the event; for any other value, that
/// it changes.
pub proof fn an_event_control_waits_for_its_event<V, W>(
    m: Meaning<V, W>,
    p: Seq<InstV>,
    env: EnvV,
    sc: ScopeV,
    b: Code,
    ev: EventExprV,
    body: StmtV,
    sc1: ScopeV,
    b1: Code,
    s: State<V, W>,
) -> (r: (Code, State<V, W>))
    requires
        has_code(
            p,
            env,
            sc,
            b,
            StmtV::Timed { control: TimingControlV::Event(seq![ev]), body: Box::new(body) },
            sc1,
            b1,
        ),
        loops_known(sc, b),
        fits(sc, b),
        stands(b, s),
        !(ev.expr matches ExprV::Ref(name) && lookup(env.nets, name) is Some) ==> eval(
            m,
            env,
            sc,
            s.regs,
            s.world,
            ev.expr,
        ) is Some,
    ensures
        ({
            let (behind, t) = r;
            &&& has_code(p, env, sc, behind, body, sc1, b1)
            &&& ran_through(m, p, b, behind, s, t)
            &&& if ev.expr matches ExprV::Ref(name) && lookup(env.nets, name) is Some {
                let net = (lookup(env.nets, ev.expr->Ref_0)->0).0;
                t.world == done(m, s.world, Act::WaitEdge(net, ev.edge), seq![]).0
            } else {
                let (w, v) = eval(m, env, sc, s.regs, s.world, ev.expr)->0;
                &&& named_event(env, sc, ev.expr) is Ok
                &&& t.world == done(
                    m,
                    w,
                    if named_event(env, sc, ev.expr)->Ok_0 {
                        Act::WaitEvent
                    } else {
                        Act::WaitChange
                    },
                    seq![v],
                ).0
            }
        }),
{
    reveal(timing_code);
    let c = TimingControlV::Event(seq![ev]);
    let all = StmtV::Timed { control: c, body: Box::new(body) };
    lemma_stmt_code(env, sc, b, all);
    let behind = timing_code(env, sc, b, c)->Ok_0;
    lemma_stmts_below(env, ssize(all), sc, behind, body);
    expressions_link(env, sc, b, ev.expr);
    assert(linked(b, behind));
    lemma_known_behind(sc, b, behind);
    statements_link(env, sc, behind, body);
    lemma_starts(p, behind, b1);
    assert(values(s.regs, Seq::<u32>::empty()) =~= Seq::<V>::empty());
    match edge_net(env, ev.expr) {
        Some(net) => {
            let t = lemma_task(m, p, b, InstV::WaitEdge { net, edge: ev.edge }, s);
            (behind, t)
        },
        None => {
            let (b2, event) = expr_code(env, sc, b, ev.expr)->Ok_0;
            let i = if named_event(env, sc, ev.expr)->Ok_0 {
                InstV::WaitEvent { event }
            } else {
                InstV::WaitChange { value: event }
            };
            lemma_emitted(p, b2, i);
            lemma_starts(p, b, b2);
            let t1 = lemma_expr(m, p, env, sc, b, ev.expr, s);
            assert(values(t1.regs, seq![event]) =~= seq![(t1.regs)(event)]);
            let t2 = lemma_task(m, p, b2, i, t1);
            assert(ran_through(m, p, b2, behind, t1, t2));
            lemma_then(m, p, b, b2, behind, s, t1, t2);
            (behind, t2)
        },
    }
}

/// A `wait` tests its condition: where it is true its statement runs; else the program
/// waits and tests again.
pub proof fn a_wait_tests_until_true<V, W>(
    m: Meaning<V, W>,
    p: Seq<InstV>,
    env: EnvV,
    sc: ScopeV,
    b: Code,
    cond: ExprV,
    body: StmtV,
    sc1: ScopeV,
    b1: Code,
) -> (r: (Code, Code, u32, Code))
    requires
        bound_once(p),
        has_code(
            p,
            env,
            sc,
            b,
            StmtV::Timed { control: TimingControlV::Wait(cond), body: Box::new(body) },
            sc1,
            b1,
        ),
        loops_known(sc, b),
    ensures
        ({
            let (check, tested, c, behind) = r;
            &&& expr_code(env, sc, check, cond) == Ok::<(Code, u32), Seq<char>>((tested, c))
            &&& has_code(p, env, sc, behind, body, sc1, b1)
            &&& forall|s: State<V, W>| #[trigger]
                stands(b, s) ==> goes_to(m, p, s, check.insts.len() as int)
            &&& forall|s: State<V, W>| #[trigger]
                stands(tested, s) && (m.truth)((s.regs)(c)) ==> goes_to(
                    m,
                    p,
                    s,
                    behind.insts.len() as int,
                )
            &&& forall|s: State<V, W>| #[trigger]
                stands(tested, s) && !(m.truth)((s.regs)(c)) ==> reaches(
                    m,
                    p,
                    s,
                    State {
                        pc: check.insts.len() as int,
                        world: done(m, s.world, Act::WaitRuntime, seq![]).0,
                        ..s
                    },
                )
        }),
{
    reveal(timing_code);
    let k = TimingControlV::Wait(cond);
    let all = StmtV::Timed { control: k, body: Box::new(body) };
    lemma_stmt_code(env, sc, b, all);
    let behind = timing_code(env, sc, b, k)->Ok_0;
    lemma_stmts_below(env, ssize(all), sc, behind, body);
    let again = b.labels;
    let ready = with_label(b).labels;
    let b0 = with_label(with_label(b));
    let check = emit(b0, InstV::Bind { label: again });
    let (tested, c) = expr_code(env, sc, check, cond)->Ok_0;
    expressions_link(env, sc, check, cond);
    lemma_grows(check, tested, Set::empty());
    let go = InstV::BranchTrue { cond: c, label: ready };
    let b3 = emit(tested, go);
    let b4 = emit(b3, InstV::WaitRuntime);
    let b5 = emit(b4, InstV::Jump { label: again });
    assert(behind == emit(b5, InstV::Bind { label: ready }));
    assert(loops_known(sc, behind)) by {
        assert(b.labels <= with_label(b).labels);
        assert(with_label(b).labels <= b0.labels);
        if !behind.full {
            assert forall|j: int| 0 <= j < sc.loops.len() implies (#[trigger] sc.loops[j]).0
                < behind.labels && sc.loops[j].1 < behind.labels by {}
        }
    }
    statements_link(env, sc, behind, body);
    lemma_starts(p, behind, b1);
    lemma_bound(p, b5, ready);
    lemma_emitted(p, b4, InstV::Jump { label: again });
    lemma_emitted(p, b3, InstV::WaitRuntime);
    lemma_emitted(p, tested, go);
    lemma_starts(p, check, tested);
    lemma_bound(p, b0, again);
    assert forall|s: State<V, W>| #[trigger] stands(b, s) implies goes_to(
        m,
        p,
        s,
        check.insts.len() as int,
    ) by {
        lemma_step(m, p, s);
    }
    assert forall|s: State<V, W>| #[trigger]
        stands(tested, s) && (m.truth)((s.regs)(c)) implies goes_to(
        m,
        p,
        s,
        behind.insts.len() as int,
    ) by {
        lemma_two_steps(m, p, s);
    }
    assert forall|s: State<V, W>| #[trigger]
        stands(tested, s) && !(m.truth)((s.regs)(c)) implies reaches(
        m,
        p,
        s,
        State {
            pc: check.insts.len() as int,
            world: done(m, s.world, Act::WaitRuntime, seq![]).0,
            ..s
        },
    ) by {
        assert(values(s.regs, Seq::<u32>::empty()) =~= Seq::<V>::empty());
        let t1 = step(m, p, s);
        let t2 = step(m, p, t1);
        lemma_two_steps(m, p, s);
        lemma_two_steps(m, p, t2);
        lemma_on(m, p, s, t2, step(m, p, step(m, p, t2)));
    }
    (check, tested, c, behind)
}

// ---- declarations ------------------------------------------------------------------------

/// What a declaration without a value starts with: an event, an empty collection, an empty
/// string or zeros. A handle starts as its register does.
pub open spec fn first_value(v: VarDeclV, coll: Option<CollKind>) -> Option<Act> {
    if v.is_event {
        Some(Act::NewEvent)
    } else if coll is Some {
        Some(
            if coll == Some(CollKind::Assoc) {
                Act::NewAssoc
            } else {
                Act::NewQueue
            },
        )
    } else if v.class_name is Some {
        None
    } else if v.is_string {
        Some(Act::Constant(ValueV::Str(Seq::empty())))
    } else {
        Some(Act::Constant(ValueV::Logic(fill(Bit::Zero, v.width as nat))))
    }
}

/// The collection that a declared name is behind its declaration.
pub open spec fn declared_kind(env: EnvV, sc: ScopeV, b: Code, v: VarDeclV) -> Option<CollKind> {
    let sc1 = ScopeV { locals: put(sc.locals, v.name, (b.regs, v.width)), ..sc };
    match declared_collection(env, sc1, v.coll, v.class_name, v.type_scope, v.key_class_name) {
        Some(info) => Some(info.kind),
        None => None,
    }
}

/// A declaration gives its name a register of its own, and no other name is touched. It
/// starts with the value that is written, or else with the first value of its type; a
/// collection always starts empty. All other registers keep their values.
pub proof fn a_declaration_starts_a_local<V, W>(
    m: Meaning<V, W>,
    p: Seq<InstV>,
    env: EnvV,
    sc: ScopeV,
    b: Code,
    v: VarDeclV,
    sc1: ScopeV,
    b1: Code,
    s: State<V, W>,
) -> (t: State<V, W>)
    requires
        has_code(p, env, sc, b, StmtV::VarDecl(v), sc1, b1),
        fits(sc, b),
        stands(b, s),
        v.init matches Some(e) ==> e !is New,
        v.init is Some && (v.is_event || declared_kind(env, sc, b, v) is None) ==> eval(
            m,
            env,
            sc1,
            s.regs,
            s.world,
            v.init->0,
        ) is Some,
    ensures
        lookup(sc1.locals, v.name) == Some((b.regs, v.width)),
        forall|other: Seq<char>|
            other != v.name ==> #[trigger] lookup(sc1.locals, other) == lookup(sc.locals, other),
        sc1.loops == sc.loops && sc1.class_ctx == sc.class_ctx && sc1.this_reg == sc.this_reg,
        reaches(m, p, s, t),
        stands(b1, t),
        same_below(s.regs, t.regs, b.regs),
        ({
            let kind = declared_kind(env, sc, b, v);
            let (w, x) = if v.init is Some && (v.is_event || kind is None) {
                eval(m, env, sc1, s.regs, s.world, v.init->0)->0
            } else {
                match first_value(v, kind) {
                    Some(a) => done(m, s.world, a, seq![]),
                    None => (s.world, (s.regs)(b.regs)),
                }
            };
            t.world == w && (t.regs)(b.regs) == x
        }),
{
    reveal(var_code);
    lemma_stmt_code(env, sc, b, StmtV::VarDecl(v));
    let reg = b.regs;
    let ba = with_reg(b);
    assert forall|other: Seq<char>| #[trigger] lookup(sc1.locals, other) == (if other == v.name {
        Some((b.regs, v.width))
    } else {
        lookup(sc.locals, other)
    }) by {
        put_then_lookup(sc.locals, v.name, (b.regs, v.width), other);
    }
    let kind = declared_kind(env, sc, b, v);
    lemma_stays(m, p, s);
    assert(values(s.regs, Seq::<u32>::empty()) =~= Seq::<V>::empty());
    if v.init is Some && (v.is_event || kind is None) {
        let e = v.init->0;
        let (b2, src) = expr_code(env, sc1, ba, e)->Ok_0;
        let i = InstV::Assign { dst: reg, src };
        assert(b1 == emit(b2, i));
        expressions_link(env, sc1, ba, e);
        lemma_emitted(p, b2, i);
        lemma_starts(p, ba, b2);
        assert(fits(sc1, ba));
        let t1 = lemma_expr(m, p, env, sc1, ba, e, s);
        lemma_step(m, p, t1);
        let t2 = step(m, p, t1);
        lemma_on(m, p, s, t1, t2);
        assert forall|r: u32| r < b.regs implies #[trigger] (t2.regs)(r) == (s.regs)(r) by {
            assert((t1.regs)(r) == (s.regs)(r));
        }
        t2
    } else if v.is_event {
        lemma_task(m, p, ba, InstV::NewEvent { dst: reg }, s)
    } else if kind == Some(CollKind::Assoc) {
        lemma_task(m, p, ba, InstV::NewAssoc { dst: reg }, s)
    } else if kind is Some {
        lemma_task(m, p, ba, InstV::NewQueue { dst: reg }, s)
    } else if v.class_name is Some {
        s
    } else {
        let first = if v.is_string {
            ValueV::Str(Seq::empty())
        } else {
            ValueV::Logic(fill(Bit::Zero, v.width as nat))
        };
        let load = InstV::Load { dst: ba.regs, value: first };
        let b2 = emit(with_reg(ba), load);
        let i = InstV::Assign { dst: reg, src: ba.regs };
        assert(b1 == emit(b2, i));
        lemma_emitted(p, b2, i);
        let t1 = lemma_new(m, p, ba, load, s);
        lemma_step(m, p, t1);
        let t2 = step(m, p, t1);
        lemma_on(m, p, s, t1, t2);
        assert forall|r: u32| r < b.regs implies #[trigger] (t2.regs)(r) == (s.regs)(r) by {
            assert((t1.regs)(r) == (s.regs)(r));
        }
        t2
    }
}

// ---- forks ---------------------------------------------------------------------------------

/// The locals of a branch stand in for locals of its parent.
proof fn lemma_captures(start: Captured, locals: Seq<(Seq<char>, (u32, u32))>, name: Seq<char>)
    requires
        distinct(locals),
        lookup(start.locals, name) is None,
        !captured(start, locals).code.full,
    ensures
        ({
            let c = captured(start, locals);
            &&& (exists|i: int| 0 <= i < locals.len() && (#[trigger] locals[i]).0 == name) <==> lookup(
                c.locals,
                name,
            ) is Some
            &&& forall|i: int|
                0 <= i < locals.len() && (#[trigger] locals[i]).0 == name ==> {
                    let (r, width) = lookup(c.locals, name)->0;
                    &&& width == locals[i].1.1
                    &&& c.captures.contains((r, locals[i].1.0))
                    &&& start.code.regs <= r < c.code.regs
                }
            &&& forall|e: (u32, u32)| start.captures.contains(e) ==> #[trigger] c.captures.contains(e)
            &&& start.code.regs <= c.code.regs
        }),
    decreases locals.len(),
{
    if locals.len() > 0 {
        let front = locals.drop_last();
        assert forall|i: int, j: int|
            0 <= i < front.len() && 0 <= j < front.len() && i != j implies (#[trigger] front[i]).0
            != (#[trigger] front[j]).0 by {
            assert(front[i] == locals[i] && front[j] == locals[j]);
        }
        let before = captured(start, front);
        let c = captured(start, locals);
        lemma_captures(start, front, name);
        let n = locals.len() - 1;
        put_then_lookup(before.locals, locals[n].0, (before.code.regs, locals[n].1.1), name);
        assert forall|e: (u32, u32)| before.captures.contains(e) implies #[trigger] c.captures.contains(
            e,
        ) by {
            let k = choose|k: int| 0 <= k < before.captures.len() && before.captures[k] == e;
            assert(c.captures[k] == e);
        }
        assert(c.captures[c.captures.len() - 1] == (before.code.regs, locals[n].1.0));
        assert forall|i: int| 0 <= i < locals.len() && (#[trigger] locals[i]).0 == name implies {
            let (r, width) = lookup(c.locals, name)->0;
            &&& width == locals[i].1.1
            &&& c.captures.contains((r, locals[i].1.0))
            &&& start.code.regs <= r < c.code.regs
        } by {
            if i < n {
                assert(front[i] == locals[i]);
                assert(locals[n].0 != locals[i].0);
            }
        }
        if exists|i: int| 0 <= i < locals.len() && (#[trigger] locals[i]).0 == name {
            let i = choose|i: int| 0 <= i < locals.len() && (#[trigger] locals[i]).0 == name;
            if i < n {
                assert(front[i].0 == name);
            }
        } else {
            assert(locals[n].0 != name);
            assert forall|i: int| 0 <= i < front.len() implies (#[trigger] front[i]).0 != name by {
                assert(front[i] == locals[i]);
            }
        }
    }
}

proof fn lemma_placed_holds(
    s: Seq<(Seq<char>, (u32, u32))>,
    e: (Seq<char>, (u32, u32)),
    x: (Seq<char>, (u32, u32)),
)
    ensures
        placed(s, e).contains(x) <==> s.contains(x) || x == e,
        placed(s, e).len() == s.len() + 1,
    decreases s.len(),
{
    let r = placed(s, e);
    if s.len() == 0 || s.last().1.0 <= e.1.0 {
        assert(r[r.len() - 1] == e);
        if s.contains(x) {
            let k = choose|k: int| 0 <= k < s.len() && s[k] == x;
            assert(r[k] == x);
        }
        if r.contains(x) && x != e {
            let k = choose|k: int| 0 <= k < r.len() && r[k] == x;
            assert(s[k] == x);
        }
    } else {
        let front = s.drop_last();
        lemma_placed_holds(front, e, x);
        let q = placed(front, e);
        assert(r[r.len() - 1] == s[s.len() - 1]);
        if q.contains(x) {
            let k = choose|k: int| 0 <= k < q.len() && q[k] == x;
            assert(r[k] == x);
        }
        if r.contains(x) {
            let k = choose|k: int| 0 <= k < r.len() && r[k] == x;
            if k < q.len() {
                assert(q[k] == x);
            } else {
                assert(s[s.len() - 1] == x);
            }
        }
        if front.contains(x) {
            let k = choose|k: int| 0 <= k < front.len() && front[k] == x;
            assert(s[k] == x);
        }
        if s.contains(x) && x != s.last() {
            let k = choose|k: int| 0 <= k < s.len() && s[k] == x;
            assert(front[k] == x);
        }
    }
}

proof fn lemma_placed_distinct(s: Seq<(Seq<char>, (u32, u32))>, e: (Seq<char>, (u32, u32)))
    requires
        distinct(s),
        forall|i: int| 0 <= i < s.len() ==> (#[trigger] s[i]).0 != e.0,
    ensures
        distinct(placed(s, e)),
    decreases s.len(),
{
    let r = placed(s, e);
    if s.len() == 0 || s.last().1.0 <= e.1.0 {
        assert forall|i: int, j: int|
            0 <= i < r.len() && 0 <= j < r.len() && i != j implies (#[trigger] r[i]).0 != (
        #[trigger] r[j]).0 by {
            if i < s.len() {
                assert(r[i] == s[i]);
            }
            if j < s.len() {
                assert(r[j] == s[j]);
            }
        }
    } else {
        let front = s.drop_last();
        let last = s.len() - 1;
        assert forall|i: int, j: int|
            0 <= i < front.len() && 0 <= j < front.len() && i != j implies (#[trigger] front[i]).0
            != (#[trigger] front[j]).0 by {
            assert(front[i] == s[i] && front[j] == s[j]);
        }
        assert forall|i: int| 0 <= i < front.len() implies (#[trigger] front[i]).0 != e.0 by {
            assert(front[i] == s[i]);
        }
        lemma_placed_distinct(front, e);
        let q = placed(front, e);
        assert forall|i: int| 0 <= i < q.len() implies (#[trigger] q[i]).0 != s[last].0 by {
            lemma_placed_holds(front, e, q[i]);
            assert(q.contains(q[i]));
            if q[i] != e {
                let k = choose|k: int| 0 <= k < front.len() && front[k] == q[i];
                assert(s[k] == front[k]);
            }
        }
        assert forall|i: int, j: int|
            0 <= i < r.len() && 0 <= j < r.len() && i != j implies (#[trigger] r[i]).0 != (
        #[trigger] r[j]).0 by {
            if i < q.len() {
                assert(r[i] == q[i]);
            }
            if j < q.len() {
                assert(r[j] == q[j]);
            }
        }
    }
}

proof fn lemma_ordered(s: Seq<(Seq<char>, (u32, u32))>)
    requires
        distinct(s),
    ensures
        distinct(by_register(s)),
        forall|x: (Seq<char>, (u32, u32))| #[trigger] by_register(s).contains(x) <==> s.contains(x),
    decreases s.len(),
{
    if s.len() > 0 {
        let front = s.drop_last();
        let last = s.len() - 1;
        assert forall|i: int, j: int|
            0 <= i < front.len() && 0 <= j < front.len() && i != j implies (#[trigger] front[i]).0
            != (#[trigger] front[j]).0 by {
            assert(front[i] == s[i] && front[j] == s[j]);
        }
        lemma_ordered(front);
        let q = by_register(front);
        assert forall|i: int| 0 <= i < q.len() implies (#[trigger] q[i]).0 != s[last].0 by {
            assert(q.contains(q[i]));
            let k = choose|k: int| 0 <= k < front.len() && front[k] == q[i];
            assert(s[k] == front[k]);
        }
        lemma_placed_distinct(q, s[last]);
        assert forall|x: (Seq<char>, (u32, u32))| #[trigger]
            by_register(s).contains(x) <==> s.contains(x) by {
            lemma_placed_holds(q, s[last], x);
            assert(q.contains(x) <==> front.contains(x));
            if front.contains(x) {
                let k = choose|k: int| 0 <= k < front.len() && front[k] == x;
                assert(s[k] == x);
            }
            if s.contains(x) && x != s[last] {
                let k = choose|k: int| 0 <= k < s.len() && s[k] == x;
                assert(front[k] == x);
            }
        }
    }
}

proof fn lemma_lookup_holds(s: Seq<(Seq<char>, (u32, u32))>, name: Seq<char>)
    requires
        distinct(s),
    ensures
        match lookup(s, name) {
            Some(v) => s.contains((name, v)),
            None => forall|i: int| 0 <= i < s.len() ==> (#[trigger] s[i]).0 != name,
        },
    decreases s.len(),
{
    if s.len() > 0 {
        let rest = s.drop_first();
        assert forall|i: int, j: int|
            0 <= i < rest.len() && 0 <= j < rest.len() && i != j implies (#[trigger] rest[i]).0
            != (#[trigger] rest[j]).0 by {
            assert(rest[i] == s[i + 1] && rest[j] == s[j + 1]);
        }
        lemma_lookup_holds(rest, name);
        if s[0].0 == name {
            assert(s[0] == (name, s[0].1));
        } else {
            match lookup(rest, name) {
                Some(v) => {
                    let k = choose|k: int| 0 <= k < rest.len() && rest[k] == (name, v);
                    assert(s[k + 1] == (name, v));
                },
                None => {
                    assert forall|i: int| 0 <= i < s.len() implies (#[trigger] s[i]).0 != name by {
                        if i > 0 {
                            assert(rest[i - 1] == s[i]);
                        }
                    }
                },
            }
        }
    }
}

/// A branch of a fork knows the locals of its parent, each in a register of its own that
/// starts as a copy of the parent's, and no others; in a method its first register starts
/// as a copy of `this`.
pub proof fn branches_start_with_copies(sc: ScopeV, name: Seq<char>)
    requires
        distinct(sc.locals),
        !branch_start(sc).code.full,
    ensures
        ({
            let c = branch_start(sc);
            &&& lookup(c.locals, name) is Some <==> lookup(sc.locals, name) is Some
            &&& lookup(sc.locals, name) matches Some((parent, width)) ==> {
                let (own, w) = lookup(c.locals, name)->0;
                w == width && c.captures.contains((own, parent)) && own < c.code.regs
            }
            &&& sc.class_ctx is Some ==> c.captures.contains((0, sc.this_reg))
        }),
{
    let s = by_register(sc.locals);
    lemma_ordered(sc.locals);
    lemma_lookup_holds(sc.locals, name);
    let start = if sc.class_ctx is Some {
        Captured {
            locals: Seq::empty(),
            code: with_reg(no_code()),
            captures: seq![(no_code().regs, sc.this_reg)],
        }
    } else {
        Captured { locals: Seq::empty(), code: no_code(), captures: Seq::empty() }
    };
    lemma_captures(start, s, name);
    if sc.class_ctx is Some {
        assert(start.captures[0] == (0u32, sc.this_reg));
        assert(start.captures.contains((0u32, sc.this_reg)));
    }
    match lookup(sc.locals, name) {
        Some(v) => {
            assert(s.contains((name, v)));
            let k = choose|k: int| 0 <= k < s.len() && s[k] == (name, v);
            assert(s[k].0 == name);
        },
        None => {
            assert forall|i: int| 0 <= i < s.len() implies (#[trigger] s[i]).0 != name by {
                assert(s.contains(s[i]));
                let k = choose|k: int| 0 <= k < sc.locals.len() && sc.locals[k] == s[i];
                assert(sc.locals[k].0 == s[i].0);
            }
        },
    }
}

/// A fork starts one branch for each statement, in order, joined as it is written; each
/// branch runs its statement in the names that it starts with, outside any loop, and then
/// ends.
pub proof fn a_fork_starts_its_branches(
    env: EnvV,
    sc: ScopeV,
    b: Code,
    branches: Seq<StmtV>,
    join: ForkJoin,
    i: int,
) -> (r: (ScopeV, Code))
    requires
        stmt_code(env, sc, b, StmtV::Fork { branches, join }) is Ok,
        0 <= i < branches.len(),
    ensures
        ({
            let (sc1, b1) = stmt_code(env, sc, b, StmtV::Fork { branches, join })->Ok_0;
            let last = b1.insts.last();
            let inner = ScopeV {
                this_reg: if sc.class_ctx is Some {
                    0
                } else {
                    sc.this_reg
                },
                locals: branch_start(sc).locals,
                loops: Seq::empty(),
                ..sc
            };
            &&& sc1 == sc
            &&& b1 == emit(b, last)
            &&& last is Fork && last->Fork_join == join
            &&& last->Fork_branches.len() == branches.len()
            &&& last->Fork_branches[i].captures == branch_start(sc).captures
            &&& stmt_code(env, inner, branch_start(sc).code, branches[i]) == Ok::<
                (ScopeV, Code),
                Seq<char>,
            >((r.0, r.1))
            &&& last->Fork_branches[i].program.code == r.1.insts.push(InstV::Finish)
        }),
{
    let e = StmtV::Fork { branches, join };
    lemma_stmt_code(env, sc, b, e);
    lemma_ssizes(branches, i);
    lemma_branch_at(env, ssize(e), sc, branches, i)
}

proof fn lemma_branch_at(env: EnvV, bound: nat, sc: ScopeV, branches: Seq<StmtV>, i: int) -> (r: (
    ScopeV,
    Code,
))
    requires
        branches_code(stmts_below(env, bound), env, sc, branches) is Ok,
        0 <= i < branches.len(),
        ssize(branches[i]) < bound,
    ensures
        ({
            let all = branches_code(stmts_below(env, bound), env, sc, branches)->Ok_0;
            let inner = ScopeV {
                this_reg: if sc.class_ctx is Some {
                    0
                } else {
                    sc.this_reg
                },
                locals: branch_start(sc).locals,
                loops: Seq::empty(),
                ..sc
            };
            &&& all.len() == branches.len()
            &&& all[i].captures == branch_start(sc).captures
            &&& stmt_code(env, inner, branch_start(sc).code, branches[i]) == Ok::<
                (ScopeV, Code),
                Seq<char>,
            >((r.0, r.1))
            &&& all[i].program.code == r.1.insts.push(InstV::Finish)
        }),
    decreases branches.len(),
{
    reveal(branch_code);
    let g = stmts_below(env, bound);
    let front = branches.drop_last();
    lemma_branch_count(env, bound, sc, front);
    if i < front.len() {
        lemma_branch_at(env, bound, sc, front, i)
    } else {
        let inner = ScopeV {
            this_reg: if sc.class_ctx is Some {
                0
            } else {
                sc.this_reg
            },
            locals: branch_start(sc).locals,
            loops: Seq::empty(),
            ..sc
        };
        lemma_stmts_below(env, bound, inner, branch_start(sc).code, branches[i]);
        stmt_code(env, inner, branch_start(sc).code, branches[i])->Ok_0
    }
}

proof fn lemma_branch_count(env: EnvV, bound: nat, sc: ScopeV, branches: Seq<StmtV>)
    ensures
        branches_code(stmts_below(env, bound), env, sc, branches) is Ok ==> branches_code(
            stmts_below(env, bound),
            env,
            sc,
            branches,
        )->Ok_0.len() == branches.len(),
    decreases branches.len(),
{
    if branches.len() > 0 {
        lemma_branch_count(env, bound, sc, branches.drop_last());
    }
}

} // verus!
