//! Laws of compiling statements and programs: each label is bound once, each jump
//! goes to a bound label, and a statement leaves the loops around it as they are.
use vstd::prelude::*;

use crate::ast::BinOp;
use crate::ast_model::{ExprV, FuncDeclV, LvalueV, ParamV, StmtV, TimingControlV, VarDeclV};
use crate::code_model::{
    group_code, lemma_bind, lemma_emit_jump, lemma_grows, lemma_jump, lemma_label, lemma_program,
    lemma_same, lemma_then, linked, owes, program_linked,
};
use crate::const_fold::Made;
use crate::gen_laws::{
    expressions_link, lemma_args, lemma_assign, lemma_below, lemma_cast, lemma_ref, lemma_this_call,
};
use crate::gen_model::{args_code, esizes, expr_code, exprs_below, format_of, formatted, ref_code};
use crate::gen_program::{
    always_code, callable_code, callable_start, defaults_code, initial_code, with_formals,
};
use crate::gen_stmt_model::{
    block_code, blocking_code, bodies_code, branch_code, branch_start, by_register, captured,
    case_code, constructed, do_while_code, foreach_code, if_code, in_foreach, in_loop,
    lemma_stmt_code, lemma_stmts_below, lvalue_code, match_code, matches_code, new_code, new_labels,
    out_of_loop, ssize, stmt_code, stmt_with, stmts_below, sys_call_code, timing_code, var_code,
    while_code, with_typed, Captured, Ran,
};
use crate::ir::{emit, no_code, with_label, with_reg, Code, CollOp, InstV};
use crate::layout::{class_at, collection_of, element_class, handle_class, no_scope, EnvV, ScopeV};
use crate::lower_expr::named;
use crate::table::put;

verus! {

broadcast use group_code;

/// Whether the labels of the loops around a statement were handed out.
pub open spec fn loops_known(sc: ScopeV, b: Code) -> bool {
    b.full || forall|k: int|
        0 <= k < sc.loops.len() ==> (#[trigger] sc.loops[k]).0 < b.labels && sc.loops[k].1
            < b.labels
}

/// Whether code was added, each of its labels bound once, and the loops, the class
/// and `this` are as before.
pub open spec fn ran_well(sc: ScopeV, b: Code, sc1: ScopeV, b1: Code) -> bool {
    &&& linked(b, b1)
    &&& sc1.loops == sc.loops
    &&& sc1.class_ctx == sc.class_ctx
    &&& sc1.this_reg == sc.this_reg
}

/// Whether a statement ran well, if it compiled.
pub open spec fn well(sc: ScopeV, b: Code, r: Ran) -> bool {
    r is Ok ==> ran_well(sc, b, r->Ok_0.0, r->Ok_0.1)
}

/// Whether code links, if there is any.
pub open spec fn made_well(b: Code, r: Made<Code>) -> bool {
    r is Ok ==> linked(b, r->Ok_0)
}

/// Whether compiling parts goes well.
pub open spec fn runs(g: spec_fn(ScopeV, Code, StmtV) -> Ran) -> bool {
    forall|sc: ScopeV, b: Code, s: StmtV| #[trigger]
        g(sc, b, s) is Ok && loops_known(sc, b) ==> well(sc, b, g(sc, b, s))
}

/// The labels of the loops stay known.
proof fn lemma_loops_stay(sc: ScopeV, b: Code, b1: Code, owed: Set<u32>)
    requires
        loops_known(sc, b),
        owes(b, b1, owed),
    ensures
        loops_known(sc, b1),
{
    lemma_grows(b, b1, owed);
}

// ---- simple statements ----------------------------------------------------------------

proof fn lemma_constructed(env: EnvV, sc: ScopeV, b: Code, cid: u32, args: Seq<ExprV>)
    ensures
        constructed(env, sc, b, cid, args) is Ok ==> linked(
            b,
            constructed(env, sc, b, cid, args)->Ok_0.0,
        ),
{
    reveal(constructed);
    let b1 = emit(with_reg(b), InstV::New { dst: b.regs, class: cid });
    let f = exprs_below(env, sc, esizes(args) + 1);
    lemma_below(env, sc, esizes(args) + 1);
    if let Some(c) = class_at(env, cid) {
        if let Some(func) = c.ctor {
            lemma_this_call(f, b1, b.regs, func, args);
        }
    }
}

proof fn lemma_new(env: EnvV, sc: ScopeV, b: Code, name: Seq<char>, args: Seq<ExprV>)
    ensures
        made_well(b, new_code(env, sc, b, name, args)),
{
    reveal(new_code);
    if let Some(cid) = handle_class(env, sc, name) {
        lemma_constructed(env, sc, b, cid, args);
        if constructed(env, sc, b, cid, args) is Ok {
            let (b1, obj) = constructed(env, sc, b, cid, args)->Ok_0;
            lemma_assign(env, sc, b1, name, obj, false);
        }
    }
}

proof fn lemma_var(env: EnvV, sc: ScopeV, b: Code, v: VarDeclV)
    ensures
        well(sc, b, var_code(env, sc, b, v)),
{
    reveal(var_code);
    let reg = b.regs;
    let b1 = with_reg(b);
    let sc1 = ScopeV { locals: put(sc.locals, v.name, (reg, v.width)), ..sc };
    let sce = ScopeV { events: put(sc1.events, v.name, ()), ..sc1 };
    if let Some(e) = v.init {
        expressions_link(env, sc1, b1, e);
        expressions_link(env, sce, b1, e);
        if let Some(of) = v.class_name {
            let sc2 = with_typed(env, sc1, v.name, of);
            expressions_link(env, sc2, b1, e);
            if let ExprV::New { args } = e {
                lemma_new(env, sc2, b1, v.name, args);
            }
        }
    }
}

proof fn lemma_lvalue(
    env: EnvV,
    sc: ScopeV,
    b: Code,
    lhs: LvalueV,
    src: u32,
    nonblocking: bool,
)
    ensures
        made_well(b, lvalue_code(env, sc, b, lhs, src, nonblocking)),
{
    reveal(lvalue_code);
    lemma_assign(env, sc, b, lhs.name, src, nonblocking);
    if let Some(index) = lhs.index {
        expressions_link(env, sc, b, named(lhs));
        if expr_code(env, sc, b, named(lhs)) is Ok {
            expressions_link(env, sc, expr_code(env, sc, b, named(lhs))->Ok_0.0, index);
        }
    }
    if let Some(obj) = lhs.receiver {
        expressions_link(env, sc, b, *obj);
    }
}

proof fn lemma_blocking(env: EnvV, sc: ScopeV, b: Code, lhs: LvalueV, rhs: ExprV)
    ensures
        made_well(b, blocking_code(env, sc, b, lhs, rhs)),
{
    reveal(blocking_code);
    match rhs {
        ExprV::New { args } => {
            lemma_new(env, sc, b, lhs.name, args);
            if let Some(index) = lhs.index {
                if let Some(cid) = element_class(env, sc, ExprV::Ref(lhs.name)) {
                    lemma_constructed(env, sc, b, cid, args);
                    if constructed(env, sc, b, cid, args) is Ok {
                        let b1 = constructed(env, sc, b, cid, args)->Ok_0.0;
                        lemma_ref(env, sc, b1, lhs.name);
                        if ref_code(env, sc, b1, lhs.name) is Ok {
                            expressions_link(
                                env,
                                sc,
                                ref_code(env, sc, b1, lhs.name)->Ok_0.0,
                                index,
                            );
                        }
                    }
                }
            }
        },
        _ => {
            expressions_link(env, sc, b, rhs);
            if expr_code(env, sc, b, rhs) is Ok {
                let (b1, r) = expr_code(env, sc, b, rhs)->Ok_0;
                lemma_lvalue(env, sc, b1, lhs, r, false);
            }
        },
    }
}

proof fn lemma_sys_call(env: EnvV, sc: ScopeV, b: Code, name: Seq<char>, args: Seq<ExprV>)
    ensures
        made_well(b, sys_call_code(env, sc, b, name, args)),
{
    reveal(sys_call_code);
    let f = exprs_below(env, sc, esizes(args) + 1);
    lemma_below(env, sc, esizes(args) + 1);
    lemma_same(b);
    lemma_args(f, b, formatted(args));
    lemma_args(f, b, formatted(args.skip(1)));
    lemma_cast(f, env, sc, b, args);
    if args_code(f, b, formatted(args.skip(1))) is Ok && args[0] is Ref {
        let (b1, regs) = args_code(f, b, formatted(args.skip(1)))->Ok_0;
        lemma_assign(
            env,
            sc,
            emit(
                with_reg(b1),
                InstV::Format {
                    dst: b1.regs,
                    fmt: format_of(args.skip(1)),
                    args: regs,
                },
            ),
            args[0]->Ref_0,
            b1.regs,
            false,
        );
    }
}

proof fn lemma_timing(env: EnvV, sc: ScopeV, b: Code, c: TimingControlV)
    ensures
        made_well(b, timing_code(env, sc, b, c)),
{
    reveal(timing_code);
    match c {
        TimingControlV::Delay(e) => {},
        TimingControlV::Event(evs) => {
            if evs.len() == 1 {
                expressions_link(env, sc, b, evs[0].expr);
            }
        },
        TimingControlV::Wait(cond) => {
            let none = Set::<u32>::empty();
            let check = b.labels;
            let ready = with_label(b).labels;
            lemma_same(b);
            lemma_label(b, b, none);
            lemma_label(b, with_label(b), none.insert(check));
            let b0 = with_label(with_label(b));
            let owed = none.insert(check).insert(ready);
            let b1 = emit(b0, InstV::Bind { label: check });
            lemma_bind(b, b0, owed, check);
            let left = owed.remove(check);
            expressions_link(env, sc, b1, cond);
            if expr_code(env, sc, b1, cond) is Ok {
                let (b2, v) = expr_code(env, sc, b1, cond)->Ok_0;
                lemma_then(b, b1, b2, left);
                lemma_grows(b1, b2, none);
                let go = InstV::BranchTrue { cond: v, label: ready };
                lemma_jump(b, b2, left, go);
                let b3 = emit(b2, go);
                let b4 = emit(b3, InstV::WaitRuntime);
                lemma_then(b, b3, b4, left);
                let again = InstV::Jump { label: check };
                lemma_jump(b, b4, left, again);
                let b5 = emit(b4, again);
                lemma_bind(b, b5, left, ready);
                assert(left.remove(ready) =~= none);
            }
        },
    }
}

// ---- lists --------------------------------------------------------------------------------

proof fn lemma_block(
    g: spec_fn(ScopeV, Code, StmtV) -> Ran,
    sc: ScopeV,
    b: Code,
    stmts: Seq<StmtV>,
)
    requires
        runs(g),
        loops_known(sc, b),
    ensures
        well(sc, b, block_code(g, sc, b, stmts)),
    decreases stmts.len(),
{
    if stmts.len() == 0 {
        lemma_same(b);
    } else {
        lemma_block(g, sc, b, stmts.drop_last());
        if block_code(g, sc, b, stmts.drop_last()) is Ok {
            let (sc1, b1) = block_code(g, sc, b, stmts.drop_last())->Ok_0;
            lemma_loops_stay(sc, b, b1, Set::empty());
            assert(loops_known(sc1, b1));
        }
    }
}

// ---- branches and loops ---------------------------------------------------------------------

proof fn lemma_if(
    g: spec_fn(ScopeV, Code, StmtV) -> Ran,
    env: EnvV,
    sc: ScopeV,
    b: Code,
    cond: ExprV,
    then_branch: StmtV,
    else_branch: Option<Box<StmtV>>,
)
    requires
        runs(g),
        loops_known(sc, b),
    ensures
        well(sc, b, if_code(g, env, sc, b, cond, then_branch, else_branch)),
{
    reveal(if_code);
    let none = Set::<u32>::empty();
    expressions_link(env, sc, b, cond);
    if expr_code(env, sc, b, cond) is Ok {
        let (b1, c) = expr_code(env, sc, b, cond)->Ok_0;
        let other = b1.labels;
        lemma_loops_stay(sc, b, b1, none);
        lemma_same(b1);
        lemma_label(b1, b1, none);
        let owed = none.insert(other);
        let go = InstV::BranchFalse { cond: c, label: other };
        lemma_jump(b1, with_label(b1), owed, go);
        let b2 = emit(with_label(b1), go);
        lemma_loops_stay(sc, b1, b2, owed);
        if g(sc, b2, then_branch) is Ok {
            let (sc1, b3) = g(sc, b2, then_branch)->Ok_0;
            lemma_then(b1, b2, b3, owed);
            lemma_grows(b2, b3, none);
            match else_branch {
                None => {
                    lemma_bind(b1, b3, owed, other);
                    assert(owed.remove(other) =~= none);
                    assert(linked(b1, emit(b3, InstV::Bind { label: other })));
                },
                Some(els) => {
                    let end = b3.labels;
                    let both = owed.insert(end);
                    lemma_label(b1, b3, owed);
                    let skip = InstV::Jump { label: end };
                    lemma_jump(b1, with_label(b3), both, skip);
                    let b4 = emit(with_label(b3), skip);
                    lemma_bind(b1, b4, both, other);
                    let last = both.remove(other);
                    let b5 = emit(b4, InstV::Bind { label: other });
                    lemma_loops_stay(sc, b1, b5, last);
                    assert(loops_known(sc1, b5));
                    if g(sc1, b5, *els) is Ok {
                        let (sc2, b6) = g(sc1, b5, *els)->Ok_0;
                        lemma_then(b1, b5, b6, last);
                        lemma_grows(b5, b6, none);
                        lemma_bind(b1, b6, last, end);
                        assert(last.remove(end) =~= none);
                        assert(linked(b1, emit(b6, InstV::Bind { label: end })));
                    }
                },
            }
        }
    }
}

/// The body of a loop leaves the loops around as they are.
proof fn lemma_loop_body(
    g: spec_fn(ScopeV, Code, StmtV) -> Ran,
    sc: ScopeV,
    b: Code,
    body: StmtV,
    done: u32,
    again: u32,
)
    requires
        runs(g),
        loops_known(sc, b),
        b.full || (done < b.labels && again < b.labels),
        g(in_loop(sc, done, again), b, body) is Ok,
    ensures
        ({
            let (sc1, b1) = g(in_loop(sc, done, again), b, body)->Ok_0;
            ran_well(sc, b, out_of_loop(sc1), b1)
        }),
{
    let inner = in_loop(sc, done, again);
    assert(loops_known(inner, b)) by {
        if !b.full {
            assert forall|k: int| 0 <= k < inner.loops.len() implies (#[trigger] inner.loops[k]).0
                < b.labels && inner.loops[k].1 < b.labels by {
                if k < sc.loops.len() {
                    assert(inner.loops[k] == sc.loops[k]);
                }
            }
        }
    }
    let (sc1, b1) = g(inner, b, body)->Ok_0;
    assert(well(inner, b, g(inner, b, body)));
    assert(out_of_loop(sc1).loops =~= sc.loops);
}

proof fn lemma_while(
    g: spec_fn(ScopeV, Code, StmtV) -> Ran,
    env: EnvV,
    sc: ScopeV,
    b: Code,
    cond: ExprV,
    body: StmtV,
)
    requires
        runs(g),
        loops_known(sc, b),
    ensures
        well(sc, b, while_code(g, env, sc, b, cond, body)),
{
    reveal(while_code);
    let none = Set::<u32>::empty();
    let top = b.labels;
    let done = with_label(b).labels;
    lemma_same(b);
    lemma_label(b, b, none);
    lemma_label(b, with_label(b), none.insert(top));
    let b0 = with_label(with_label(b));
    let owed = none.insert(top).insert(done);
    lemma_bind(b, b0, owed, top);
    let left = owed.remove(top);
    let b1 = emit(b0, InstV::Bind { label: top });
    expressions_link(env, sc, b1, cond);
    if expr_code(env, sc, b1, cond) is Ok {
        let (b2, v) = expr_code(env, sc, b1, cond)->Ok_0;
        lemma_then(b, b1, b2, left);
        lemma_grows(b1, b2, none);
        let go = InstV::BranchFalse { cond: v, label: done };
        lemma_jump(b, b2, left, go);
        let b3 = emit(b2, go);
        lemma_loops_stay(sc, b, b3, left);
        if g(in_loop(sc, done, top), b3, body) is Ok {
            lemma_loop_body(g, sc, b3, body, done, top);
            let (sc1, b4) = g(in_loop(sc, done, top), b3, body)->Ok_0;
            lemma_then(b, b3, b4, left);
            lemma_grows(b3, b4, none);
            let again = InstV::Jump { label: top };
            lemma_jump(b, b4, left, again);
            let b5 = emit(b4, again);
            lemma_bind(b, b5, left, done);
            assert(left.remove(done) =~= none);
            assert(linked(b, emit(b5, InstV::Bind { label: done })));
        }
    }
}

proof fn lemma_do_while(
    g: spec_fn(ScopeV, Code, StmtV) -> Ran,
    env: EnvV,
    sc: ScopeV,
    b: Code,
    cond: ExprV,
    body: StmtV,
)
    requires
        runs(g),
        loops_known(sc, b),
    ensures
        well(sc, b, do_while_code(g, env, sc, b, cond, body)),
{
    reveal(do_while_code);
    let none = Set::<u32>::empty();
    let top = b.labels;
    let check = with_label(b).labels;
    let done = with_label(with_label(b)).labels;
    lemma_same(b);
    lemma_label(b, b, none);
    lemma_label(b, with_label(b), none.insert(top));
    lemma_label(b, with_label(with_label(b)), none.insert(top).insert(check));
    let b0 = with_label(with_label(with_label(b)));
    let owed = none.insert(top).insert(check).insert(done);
    lemma_bind(b, b0, owed, top);
    let two = owed.remove(top);
    let b1 = emit(b0, InstV::Bind { label: top });
    lemma_loops_stay(sc, b, b1, two);
    if g(in_loop(sc, done, check), b1, body) is Ok {
        lemma_loop_body(g, sc, b1, body, done, check);
        let (sc1, b2) = g(in_loop(sc, done, check), b1, body)->Ok_0;
        let sc2 = out_of_loop(sc1);
        lemma_then(b, b1, b2, two);
        lemma_grows(b1, b2, none);
        lemma_bind(b, b2, two, check);
        let left = two.remove(check);
        let b3 = emit(b2, InstV::Bind { label: check });
        expressions_link(env, sc2, b3, cond);
        if expr_code(env, sc2, b3, cond) is Ok {
            let (b4, v) = expr_code(env, sc2, b3, cond)->Ok_0;
            lemma_then(b, b3, b4, left);
            lemma_grows(b3, b4, none);
            let go = InstV::BranchTrue { cond: v, label: top };
            lemma_jump(b, b4, left, go);
            let b5 = emit(b4, go);
            lemma_bind(b, b5, left, done);
            assert(left.remove(done) =~= none);
            assert(linked(b, emit(b5, InstV::Bind { label: done })));
        }
    }
}

proof fn lemma_foreach(
    g: spec_fn(ScopeV, Code, StmtV) -> Ran,
    env: EnvV,
    sc: ScopeV,
    b: Code,
    collection: ExprV,
    index: Seq<char>,
    body: StmtV,
)
    requires
        runs(g),
        loops_known(sc, b),
    ensures
        well(sc, b, foreach_code(g, env, sc, b, collection, index, body)),
{
    reveal(foreach_code);
    let none = Set::<u32>::empty();
    expressions_link(env, sc, b, collection);
    if collection_of(env, sc, collection) is Some && expr_code(env, sc, b, collection) is Ok {
        let info = collection_of(env, sc, collection)->0;
        let (b0, base) = expr_code(env, sc, b, collection)->Ok_0;
        let reg = b0.regs;
        let b1 = with_reg(b0);
        let more = b1.regs;
        let b2 = emit(
            with_reg(b1),
            InstV::CollMethod { dst: more, base, op: CollOp::First, args: seq![reg] },
        );
        let check = b2.labels;
        let advance = with_label(b2).labels;
        let done = with_label(with_label(b2)).labels;
        lemma_loops_stay(sc, b, b2, none);
        lemma_same(b2);
        lemma_label(b2, b2, none);
        lemma_label(b2, with_label(b2), none.insert(check));
        lemma_label(b2, with_label(with_label(b2)), none.insert(check).insert(advance));
        let bl = with_label(with_label(with_label(b2)));
        let owed = none.insert(check).insert(advance).insert(done);
        lemma_bind(b2, bl, owed, check);
        let two = owed.remove(check);
        let bb = emit(bl, InstV::Bind { label: check });
        let go = InstV::BranchFalse { cond: more, label: done };
        lemma_jump(b2, bb, two, go);
        let b3 = emit(bb, go);
        lemma_loops_stay(sc, b2, b3, two);
        let inside = in_foreach(sc, index, reg, info.key_class);
        assert(loops_known(inside, b3));
        if g(in_loop(inside, done, advance), b3, body) is Ok {
            lemma_loop_body(g, inside, b3, body, done, advance);
            let (sc1, b4) = g(in_loop(inside, done, advance), b3, body)->Ok_0;
            lemma_then(b2, b3, b4, two);
            lemma_grows(b3, b4, none);
            lemma_bind(b2, b4, two, advance);
            let left = two.remove(advance);
            let b5 = emit(b4, InstV::Bind { label: advance });
            let next = InstV::CollMethod { dst: more, base, op: CollOp::Next, args: seq![reg] };
            let b6 = emit(b5, next);
            lemma_then(b2, b5, b6, left);
            let again = InstV::Jump { label: check };
            lemma_jump(b2, b6, left, again);
            let b7 = emit(b6, again);
            lemma_bind(b2, b7, left, done);
            assert(left.remove(done) =~= none);
            assert(linked(b2, emit(b7, InstV::Bind { label: done })));
        }
    }
}

// ---- case -----------------------------------------------------------------------------------

/// Labels with the first of a list.
pub open spec fn with_all(owed: Set<u32>, labels: Seq<u32>, n: int) -> Set<u32>
    decreases n,
{
    if n <= 0 {
        owed
    } else {
        with_all(owed, labels, n - 1).insert(labels[n - 1])
    }
}

/// Labels without the first of a list.
pub open spec fn without_all(owed: Set<u32>, labels: Seq<u32>, n: int) -> Set<u32>
    decreases n,
{
    if n <= 0 {
        owed
    } else {
        without_all(owed, labels, n - 1).remove(labels[n - 1])
    }
}

proof fn lemma_with_all(owed: Set<u32>, labels: Seq<u32>, n: int, l: u32)
    requires
        0 <= n <= labels.len(),
    ensures
        with_all(owed, labels, n).contains(l) <==> owed.contains(l) || exists|k: int|
            0 <= k < n && #[trigger] labels[k] == l,
    decreases n,
{
    if n > 0 {
        lemma_with_all(owed, labels, n - 1, l);
    }
}

proof fn lemma_without_all(owed: Set<u32>, labels: Seq<u32>, n: int, l: u32)
    requires
        0 <= n <= labels.len(),
    ensures
        without_all(owed, labels, n).contains(l) <==> owed.contains(l) && forall|k: int|
            0 <= k < n ==> #[trigger] labels[k] != l,
    decreases n,
{
    if n > 0 {
        lemma_without_all(owed, labels, n - 1, l);
    }
}

/// Adding a label to a list adds it to the labels.
proof fn lemma_with_push(owed: Set<u32>, labels: Seq<u32>, l: u32, n: int)
    requires
        0 <= n <= labels.len(),
    ensures
        with_all(owed, labels.push(l), n) == with_all(owed, labels, n),
    decreases n,
{
    if n > 0 {
        lemma_with_push(owed, labels, l, n - 1);
    }
}

proof fn lemma_new_labels(a: Code, b: Code, owed: Set<u32>, n: nat)
    requires
        owes(a, b, owed),
    ensures
        ({
            let (b1, labels) = new_labels(b, n);
            &&& labels.len() == n
            &&& owes(a, b1, with_all(owed, labels, n as int))
            &&& b.labels <= b1.labels
            &&& b.full ==> b1.full
            &&& !b1.full ==> b1.labels == b.labels + n && forall|k: int|
                0 <= k < n ==> #[trigger] labels[k] == b.labels + k
        }),
    decreases n,
{
    if n > 0 {
        lemma_new_labels(a, b, owed, (n - 1) as nat);
        let (b1, labels) = new_labels(b, (n - 1) as nat);
        lemma_label(a, b1, with_all(owed, labels, n - 1));
        lemma_with_push(owed, labels, b1.labels, n - 1);
    }
}

proof fn lemma_match(
    env: EnvV,
    sc: ScopeV,
    b: Code,
    selector: u32,
    values: Seq<ExprV>,
    label: u32,
)
    requires
        b.full || label < b.labels,
    ensures
        made_well(b, match_code(env, sc, b, selector, values, label)),
    decreases values.len(),
{
    if values.len() == 0 {
        lemma_same(b);
    } else {
        lemma_match(env, sc, b, selector, values.drop_last(), label);
        if match_code(env, sc, b, selector, values.drop_last(), label) is Ok {
            let b1 = match_code(env, sc, b, selector, values.drop_last(), label)->Ok_0;
            expressions_link(env, sc, b1, values.last());
            if expr_code(env, sc, b1, values.last()) is Ok {
                let (b2, candidate) = expr_code(env, sc, b1, values.last())->Ok_0;
                lemma_grows(b, b2, Set::empty());
                let b3 = emit(
                    with_reg(b2),
                    InstV::Binary {
                        op: BinOp::Eq,
                        dst: b2.regs,
                        a: selector,
                        b: candidate,
                    },
                );
                lemma_emit_jump(b3, InstV::BranchTrue { cond: b2.regs, label });
            }
        }
    }
}

proof fn lemma_matches(
    env: EnvV,
    sc: ScopeV,
    b: Code,
    selector: u32,
    items: Seq<(Seq<ExprV>, StmtV)>,
    labels: Seq<u32>,
)
    requires
        items.len() <= labels.len(),
        b.full || forall|k: int| 0 <= k < labels.len() ==> #[trigger] labels[k] < b.labels,
    ensures
        made_well(b, matches_code(env, sc, b, selector, items, labels)),
    decreases items.len(),
{
    if items.len() == 0 {
        lemma_same(b);
    } else {
        lemma_matches(env, sc, b, selector, items.drop_last(), labels);
        if matches_code(env, sc, b, selector, items.drop_last(), labels) is Ok {
            let b1 = matches_code(env, sc, b, selector, items.drop_last(), labels)->Ok_0;
            lemma_grows(b, b1, Set::empty());
            lemma_match(env, sc, b1, selector, items.last().0, labels[items.len() - 1]);
        }
    }
}

proof fn lemma_bodies(
    g: spec_fn(ScopeV, Code, StmtV) -> Ran,
    a: Code,
    owed: Set<u32>,
    sc: ScopeV,
    b: Code,
    items: Seq<(Seq<ExprV>, StmtV)>,
    labels: Seq<u32>,
    done: u32,
)
    requires
        runs(g),
        loops_known(sc, b),
        owes(a, b, owed),
        items.len() <= labels.len(),
        b.full || (done < b.labels && forall|k: int|
            0 <= k < labels.len() ==> #[trigger] owed.contains(labels[k])),
        b.full || forall|j: int, k: int|
            0 <= j < k < labels.len() ==> #[trigger] labels[j] != #[trigger] labels[k],
    ensures
        bodies_code(g, sc, b, items, labels, done) is Ok ==> ({
            let (sc1, b1) = bodies_code(g, sc, b, items, labels, done)->Ok_0;
            &&& owes(a, b1, without_all(owed, labels, items.len() as int))
            &&& sc1.loops == sc.loops
            &&& sc1.class_ctx == sc.class_ctx
            &&& sc1.this_reg == sc.this_reg
            &&& loops_known(sc1, b1)
            &&& b.labels <= b1.labels
            &&& b.full ==> b1.full
        }),
    decreases items.len(),
{
    if items.len() > 0 {
        lemma_bodies(g, a, owed, sc, b, items.drop_last(), labels, done);
        if bodies_code(g, sc, b, items.drop_last(), labels, done) is Ok {
            let (sc1, b1) = bodies_code(g, sc, b, items.drop_last(), labels, done)->Ok_0;
            let n = items.len() - 1;
            let l = labels[n];
            let left = without_all(owed, labels, n);
            lemma_without_all(owed, labels, n, l);
            lemma_bind(a, b1, left, l);
            let b2 = emit(b1, InstV::Bind { label: l });
            if g(sc1, b2, items.last().1) is Ok {
                let (sc2, b3) = g(sc1, b2, items.last().1)->Ok_0;
                assert(loops_known(sc1, b2));
                assert(well(sc1, b2, g(sc1, b2, items.last().1)));
                lemma_then(a, b2, b3, left.remove(l));
                lemma_grows(b2, b3, Set::empty());
                lemma_jump(a, b3, left.remove(l), InstV::Jump { label: done });
            }
        }
    }
}

proof fn lemma_case(
    g: spec_fn(ScopeV, Code, StmtV) -> Ran,
    env: EnvV,
    sc: ScopeV,
    b: Code,
    expr: ExprV,
    items: Seq<(Seq<ExprV>, StmtV)>,
    default: Option<Box<StmtV>>,
)
    requires
        runs(g),
        loops_known(sc, b),
    ensures
        well(sc, b, case_code(g, env, sc, b, expr, items, default)),
{
    reveal(case_code);
    let none = Set::<u32>::empty();
    expressions_link(env, sc, b, expr);
    if expr_code(env, sc, b, expr) is Ok {
        let (b1, selector) = expr_code(env, sc, b, expr)->Ok_0;
        let n = items.len();
        let done = b1.labels;
        lemma_loops_stay(sc, b, b1, none);
        lemma_same(b1);
        lemma_label(b1, b1, none);
        let first = none.insert(done);
        lemma_new_labels(b1, with_label(b1), first, n);
        let (b2, labels) = new_labels(with_label(b1), n);
        let all = with_all(first, labels, n as int);
        lemma_label(b1, b2, all);
        let other = if default is Some {
            b2.labels
        } else {
            done
        };
        let b3 = if default is Some {
            with_label(b2)
        } else {
            b2
        };
        let owed = if default is Some {
            all.insert(b2.labels)
        } else {
            all
        };
        assert(owes(b1, b3, owed));
        assert forall|k: int| 0 <= k < n implies #[trigger] owed.contains(labels[k]) by {
            lemma_with_all(first, labels, n as int, labels[k]);
        }
        lemma_matches(env, sc, b3, selector, items, labels);
        if matches_code(env, sc, b3, selector, items, labels) is Ok {
            let b4 = matches_code(env, sc, b3, selector, items, labels)->Ok_0;
            lemma_then(b1, b3, b4, owed);
            lemma_grows(b3, b4, none);
            lemma_jump(b1, b4, owed, InstV::Jump { label: other });
            let b5 = emit(b4, InstV::Jump { label: other });
            lemma_loops_stay(sc, b1, b5, owed);
            lemma_bodies(g, b1, owed, sc, b5, items, labels, done);
            if bodies_code(g, sc, b5, items, labels, done) is Ok {
                let (sc1, b6) = bodies_code(g, sc, b5, items, labels, done)->Ok_0;
                let left = without_all(owed, labels, n as int);
                lemma_left(first, labels, n as int, done, other, default is Some);
                lemma_without_all(owed, labels, n as int, done);
                lemma_without_all(owed, labels, n as int, other);
                lemma_with_all(first, labels, n as int, done);
                match default {
                    None => {
                        lemma_bind(b1, b6, left, done);
                        assert(linked(b1, emit(b6, InstV::Bind { label: done })));
                    },
                    Some(body) => {
                        lemma_bind(b1, b6, left, other);
                        let b7 = emit(b6, InstV::Bind { label: other });
                        assert(loops_known(sc1, b7));
                        if g(sc1, b7, *body) is Ok {
                            let (sc2, b8) = g(sc1, b7, *body)->Ok_0;
                            assert(well(sc1, b7, g(sc1, b7, *body)));
                            lemma_then(b1, b7, b8, left.remove(other));
                            lemma_grows(b7, b8, none);
                            lemma_bind(b1, b8, left.remove(other), done);
                            assert(linked(b1, emit(b8, InstV::Bind { label: done })));
                        }
                    },
                }
            }
        }
    }
}

/// What is left of the labels of a `case` once those of its items are bound.
proof fn lemma_left(
    first: Set<u32>,
    labels: Seq<u32>,
    n: int,
    done: u32,
    other: u32,
    has_default: bool,
)
    requires
        n == labels.len(),
        first == Set::<u32>::empty().insert(done),
    ensures
        !has_default ==> without_all(with_all(first, labels, n), labels, n).remove(done)
            == Set::<u32>::empty(),
        has_default ==> without_all(
            with_all(first, labels, n).insert(other),
            labels,
            n,
        ).remove(other).remove(done) == Set::<u32>::empty(),
{
    let all = with_all(first, labels, n);
    assert forall|l: u32| #[trigger] without_all(all, labels, n).contains(l) implies l == done by {
        lemma_without_all(all, labels, n, l);
        lemma_with_all(first, labels, n, l);
    }
    assert(without_all(all, labels, n).remove(done) =~= Set::<u32>::empty());
    let more = all.insert(other);
    assert forall|l: u32| #[trigger] without_all(more, labels, n).contains(l) implies l == done || l
        == other by {
        lemma_without_all(more, labels, n, l);
        lemma_with_all(first, labels, n, l);
    }
    assert(without_all(more, labels, n).remove(other).remove(done) =~= Set::<u32>::empty());
}

// ---- statements -------------------------------------------------------------------------------

proof fn lemma_stmt_with(
    g: spec_fn(ScopeV, Code, StmtV) -> Ran,
    env: EnvV,
    sc: ScopeV,
    b: Code,
    s: StmtV,
)
    requires
        runs(g),
        loops_known(sc, b),
    ensures
        well(sc, b, stmt_with(g, env, sc, b, s)),
{
    lemma_same(b);
    match s {
        StmtV::Block(stmts) => lemma_block(g, sc, b, stmts),
        StmtV::VarDecl(v) => lemma_var(env, sc, b, v),
        StmtV::Timed { control, body } => {
            lemma_timing(env, sc, b, control);
            if timing_code(env, sc, b, control) is Ok {
                let b1 = timing_code(env, sc, b, control)->Ok_0;
                lemma_loops_stay(sc, b, b1, Set::empty());
                assert(g(sc, b1, *body) is Ok ==> well(sc, b1, g(sc, b1, *body)));
            }
        },
        StmtV::Blocking { lhs, rhs } => lemma_blocking(env, sc, b, lhs, rhs),
        StmtV::Nonblocking { lhs, rhs } => {
            expressions_link(env, sc, b, rhs);
            if expr_code(env, sc, b, rhs) is Ok {
                let (b1, r) = expr_code(env, sc, b, rhs)->Ok_0;
                lemma_lvalue(env, sc, b1, lhs, r, true);
            }
        },
        StmtV::If { cond, then_branch, else_branch } => lemma_if(
            g,
            env,
            sc,
            b,
            cond,
            *then_branch,
            else_branch,
        ),
        StmtV::While { cond, body } => lemma_while(g, env, sc, b, cond, *body),
        StmtV::DoWhile { cond, body } => lemma_do_while(g, env, sc, b, cond, *body),
        StmtV::Case { expr, items, default } => lemma_case(g, env, sc, b, expr, items, default),
        StmtV::Foreach { collection, index, body } => lemma_foreach(
            g,
            env,
            sc,
            b,
            collection,
            index,
            *body,
        ),
        StmtV::SysCall { name, args } => lemma_sys_call(env, sc, b, name, args),
        StmtV::Expr(e) => expressions_link(env, sc, b, e),
        StmtV::Trigger(e) => expressions_link(env, sc, b, e),
        StmtV::Return(o) => {
            if let Some(e) = o {
                expressions_link(env, sc, b, e);
            }
        },
        StmtV::Break => {
            if sc.loops.len() > 0 {
                lemma_emit_jump(b, InstV::Jump { label: sc.loops[sc.loops.len() - 1].0 });
            }
        },
        StmtV::Continue => {
            if sc.loops.len() > 0 {
                lemma_emit_jump(b, InstV::Jump { label: sc.loops[sc.loops.len() - 1].1 });
            }
        },
        StmtV::Fork { branches, join } => {},
        StmtV::Null => {},
    }
}

proof fn lemma_runs_below(env: EnvV, bound: nat)
    ensures
        runs(stmts_below(env, bound)),
    decreases bound,
{
    let g = stmts_below(env, bound);
    assert forall|sc: ScopeV, b: Code, s: StmtV| #[trigger]
        g(sc, b, s) is Ok && loops_known(sc, b) implies well(sc, b, g(sc, b, s)) by {
        if ssize(s) < bound {
            lemma_stmts_below(env, bound, sc, b, s);
            lemma_stmt_code(env, sc, b, s);
            lemma_runs_below(env, ssize(s));
            lemma_stmt_with(stmts_below(env, ssize(s)), env, sc, b, s);
        } else {
            reveal(stmts_below);
        }
    }
}

/// Compiling a statement only adds code. Each label that it hands out it binds
/// once, a `break` or `continue` goes to a loop around it, and behind it the loops
/// around are the same.
pub proof fn statements_link(env: EnvV, sc: ScopeV, b: Code, s: StmtV)
    requires
        loops_known(sc, b),
        stmt_code(env, sc, b, s) is Ok,
    ensures
        ran_well(sc, b, stmt_code(env, sc, b, s)->Ok_0.0, stmt_code(env, sc, b, s)->Ok_0.1),
{
    lemma_stmt_code(env, sc, b, s);
    lemma_runs_below(env, ssize(s));
    lemma_stmt_with(stmts_below(env, ssize(s)), env, sc, b, s);
}

// ---- programs -----------------------------------------------------------------------------------

proof fn lemma_captured(start: Captured, locals: Seq<(Seq<char>, (u32, u32))>)
    ensures
        linked(start.code, captured(start, locals).code),
    decreases locals.len(),
{
    if locals.len() == 0 {
        lemma_same(start.code);
    } else {
        lemma_captured(start, locals.drop_last());
    }
}

/// In the program of a branch of a fork each label is bound once, and each jump
/// goes to one.
pub proof fn branches_are_linked(env: EnvV, bound: nat, sc: ScopeV, body: StmtV)
    requires
        branch_code(stmts_below(env, bound), env, sc, body) is Ok,
    ensures
        program_linked(branch_code(stmts_below(env, bound), env, sc, body)->Ok_0.program),
{
    reveal(branch_code);
    let g = stmts_below(env, bound);
    lemma_runs_below(env, bound);
    lemma_same(no_code());
    let start = branch_start(sc);
    let inner = ScopeV {
        this_reg: if sc.class_ctx is Some {
            no_code().regs
        } else {
            sc.this_reg
        },
        locals: start.locals,
        loops: Seq::empty(),
        ..sc
    };
    let first = if sc.class_ctx is Some {
        Captured {
            locals: Seq::empty(),
            code: with_reg(no_code()),
            captures: seq![(no_code().regs, sc.this_reg)],
        }
    } else {
        Captured { locals: Seq::empty(), code: no_code(), captures: Seq::empty() }
    };
    lemma_captured(first, by_register(sc.locals));
    assert(linked(no_code(), start.code));
    assert(loops_known(inner, start.code));
    let (sc1, b1) = g(inner, start.code, body)->Ok_0;
    assert(well(inner, start.code, g(inner, start.code, body)));
    let b2 = emit(b1, InstV::Finish);
    assert(linked(no_code(), b2));
    lemma_program(b2);
}

proof fn lemma_formals(env: EnvV, sc: ScopeV, b: Code, params: Seq<ParamV>)
    ensures
        linked(b, with_formals(env, sc, b, params).1),
        with_formals(env, sc, b, params).0.loops == sc.loops,
    decreases params.len(),
{
    if params.len() == 0 {
        lemma_same(b);
    } else {
        lemma_formals(env, sc, b, params.drop_last());
    }
}

proof fn lemma_defaults(
    env: EnvV,
    sc: ScopeV,
    b: Code,
    params: Seq<ParamV>,
    regs: Seq<u32>,
)
    ensures
        made_well(b, defaults_code(env, sc, b, params, regs)),
    decreases params.len(),
{
    if params.len() == 0 {
        lemma_same(b);
    } else {
        lemma_defaults(env, sc, b, params.drop_last(), regs);
        if defaults_code(env, sc, b, params.drop_last(), regs) is Ok && params.last().default
            is Some {
            let b1 = defaults_code(env, sc, b, params.drop_last(), regs)->Ok_0;
            let none = Set::<u32>::empty();
            let formal = regs[params.len() - 1];
            let supplied = b1.labels;
            let owed = none.insert(supplied);
            lemma_same(b1);
            lemma_label(b1, b1, none);
            let go = InstV::BranchArgProvided { formal, label: supplied };
            lemma_jump(b1, with_label(b1), owed, go);
            let b2 = emit(with_label(b1), go);
            let e = params.last().default->0;
            expressions_link(env, sc, b2, e);
            if expr_code(env, sc, b2, e) is Ok {
                let (b3, src) = expr_code(env, sc, b2, e)->Ok_0;
                let b4 = emit(b3, InstV::Assign { dst: formal, src });
                assert(linked(b2, b4));
                lemma_then(b1, b2, b4, owed);
                lemma_bind(b1, b4, owed, supplied);
                assert(owed.remove(supplied) =~= none);
                assert(linked(b1, emit(b4, InstV::Bind { label: supplied })));
            }
        }
    }
}

/// In the program of a function, task, method or constructor each label is bound
/// once, and each jump goes to one.
pub proof fn callables_are_linked(env: EnvV, f: FuncDeclV, class_ctx: Option<u32>)
    requires
        callable_code(env, f, class_ctx) is Ok,
    ensures
        program_linked(callable_code(env, f, class_ctx)->Ok_0),
{
    reveal(callable_code);
    lemma_same(no_code());
    let b0 = if class_ctx is Some {
        with_reg(no_code())
    } else {
        no_code()
    };
    let sc0 = ScopeV { class_ctx, ..no_scope() };
    let (sc1, b1, regs) = with_formals(env, sc0, b0, f.params);
    lemma_formals(env, sc0, b0, f.params);
    lemma_defaults(env, sc1, b1, f.params, regs);
    let (sc, b, ret) = callable_start(env, f, class_ctx)->Ok_0;
    assert(linked(no_code(), b));
    assert(loops_known(sc, b));
    statements_link(env, sc, b, f.body);
    let b2 = stmt_code(env, sc, b, f.body)->Ok_0.1;
    let b3 = emit(
        b2,
        if f.is_void {
            InstV::ReturnVoid
        } else {
            InstV::Return { value: ret }
        },
    );
    assert(linked(no_code(), b3));
    lemma_program(b3);
}

/// In the program of an `always` block each label is bound once, and each jump
/// goes to one.
pub proof fn always_blocks_are_linked(env: EnvV, body: StmtV)
    requires
        always_code(env, body) is Ok,
    ensures
        program_linked(always_code(env, body)->Ok_0),
{
    reveal(always_code);
    let none = Set::<u32>::empty();
    let b0 = no_code();
    let top = b0.labels;
    let owed = none.insert(top);
    lemma_same(b0);
    lemma_label(b0, b0, none);
    lemma_bind(b0, with_label(b0), owed, top);
    assert(owed.remove(top) =~= none);
    let b1 = emit(with_label(b0), InstV::Bind { label: top });
    assert(linked(b0, b1));
    statements_link(env, no_scope(), b1, body);
    let b2 = stmt_code(env, no_scope(), b1, body)->Ok_0.1;
    lemma_grows(b1, b2, none);
    lemma_emit_jump(b2, InstV::Jump { label: top });
    let b3 = emit(b2, InstV::Jump { label: top });
    assert(linked(b0, b3));
    lemma_program(b3);
}

/// In the program of an `initial` block each label is bound once, and each jump
/// goes to one.
pub proof fn initial_blocks_are_linked(env: EnvV, body: StmtV)
    requires
        initial_code(env, body) is Ok,
    ensures
        program_linked(initial_code(env, body)->Ok_0),
{
    reveal(initial_code);
    lemma_same(no_code());
    statements_link(env, no_scope(), no_code(), body);
    let b1 = stmt_code(env, no_scope(), no_code(), body)->Ok_0.1;
    assert(linked(no_code(), emit(b1, InstV::Finish)));
    lemma_program(emit(b1, InstV::Finish));
}

} // verus!
