//! Laws of running programs: what processes, drivers and callables do from their start to
//! their end.
use vstd::prelude::*;

use crate::ast::PortDir;
use crate::ast_model::{ExprV, FuncDeclV, ParamV, StmtV};
use crate::bit::Bit;
use crate::bits::fill;
use crate::code_model::{binds, group_code, label_of, lemma_grows, program_linked};
use crate::flow_laws::{bound_once, has_code, lemma_bound, lemma_two_steps};
use crate::gen_laws::expressions_link;
use crate::gen_model::expr_code;
use crate::gen_program::{
    always_code, callable_code, callable_start, default_constructor, defaults_code, driver_code,
    foreign_code, initial_code, modes_of, result_width, stub_code, with_formals, with_regs,
};
use crate::gen_stmt_model::stmt_code;
use crate::ir::{emit, no_code, with_label, with_reg, ArgMode, Code, InstV, ProgramV, ValueV};
use crate::layout::{no_scope, EnvV, ScopeV};
use crate::machine::{
    done, goes_to, lemma_on, lemma_stays, lemma_step, reaches, step, values, Act, Ending, Meaning,
    State,
};
use crate::meaning::eval;
use crate::run_laws::{fits, lemma_emitted, lemma_expr, lemma_starts, stands, starts_with};
use crate::stmt_laws::{always_blocks_are_linked, statements_link};
use crate::table::{lookup, put_then_lookup};

verus! {

broadcast use group_code;

/// The start of a program.
pub open spec fn starts<V, W>(s: State<V, W>) -> bool {
    s.pc == 0 && s.end is None
}

proof fn lemma_unbound(s: Seq<InstV>, l: u32)
    requires
        forall|k: int| 0 <= k < s.len() && label_of(#[trigger] s[k]) is Some ==> label_of(s[k])->0 < l,
    ensures
        binds(s, l) == 0,
    decreases s.len(),
{
    if s.len() > 0 {
        let front = s.drop_last();
        assert forall|k: int| 0 <= k < front.len() && label_of(#[trigger] front[k]) is Some implies
            label_of(front[k])->0 < l by {
            assert(front[k] == s[k]);
        }
        lemma_unbound(front, l);
        assert(label_of(s[s.len() - 1]) is Some ==> label_of(s[s.len() - 1])->0 < l);
    }
}

/// In a linked program no label is bound twice.
pub proof fn linked_programs_bind_once(p: ProgramV)
    requires
        program_linked(p),
    ensures
        bound_once(p.code),
{
    assert forall|l: u32| #[trigger] binds(p.code, l) <= 1 by {
        if l >= p.labels {
            assert forall|k: int|
                0 <= k < p.code.len() && label_of(#[trigger] p.code[k]) is Some implies label_of(
                p.code[k],
            )->0 < l by {}
            lemma_unbound(p.code, l);
        }
    }
}

proof fn lemma_whole(b: Code)
    ensures
        starts_with(b.insts, b),
{
    assert(b.insts.take(b.insts.len() as int) =~= b.insts);
}

/// The program of an `initial` block runs its body from the start, once, and then ends.
pub proof fn an_initial_block_runs_once<V, W>(m: Meaning<V, W>, env: EnvV, body: StmtV) -> (r: (
    ScopeV,
    Code,
))
    requires
        initial_code(env, body) is Ok,
    ensures
        ({
            let p = (initial_code(env, body)->Ok_0).code;
            &&& has_code(p, env, no_scope(), no_code(), body, r.0, r.1)
            &&& forall|s: State<V, W>| #[trigger] starts(s) ==> stands(no_code(), s)
            &&& forall|s: State<V, W>| #[trigger]
                stands(r.1, s) ==> reaches(
                    m,
                    p,
                    s,
                    State { end: Some(Ending::Finished), ..s },
                )
        }),
{
    reveal(initial_code);
    let (sc1, b1) = stmt_code(env, no_scope(), no_code(), body)->Ok_0;
    let end = emit(b1, InstV::Finish);
    let p = end.insts;
    lemma_whole(end);
    lemma_emitted(p, b1, InstV::Finish);
    assert forall|s: State<V, W>| #[trigger] stands(b1, s) implies reaches(
        m,
        p,
        s,
        State { end: Some(Ending::Finished), ..s },
    ) by {
        lemma_step(m, p, s);
    }
    (sc1, b1)
}

/// The program of an `always` block runs its body from the start, and each time that it
/// is behind the body it runs it again.
pub proof fn an_always_block_runs_again<V, W>(m: Meaning<V, W>, env: EnvV, body: StmtV) -> (r: (
    Code,
    ScopeV,
    Code,
))
    requires
        always_code(env, body) is Ok,
    ensures
        ({
            let p = (always_code(env, body)->Ok_0).code;
            &&& has_code(p, env, no_scope(), r.0, body, r.1, r.2)
            &&& forall|s: State<V, W>| #[trigger]
                starts(s) ==> goes_to(m, p, s, r.0.insts.len() as int)
            &&& forall|s: State<V, W>| #[trigger]
                stands(r.2, s) ==> goes_to(m, p, s, r.0.insts.len() as int)
        }),
{
    always_blocks_are_linked(env, body);
    linked_programs_bind_once(always_code(env, body)->Ok_0);
    reveal(always_code);
    let top = no_code().labels;
    let b0 = with_label(no_code());
    let start = emit(b0, InstV::Bind { label: top });
    let (sc1, b1) = stmt_code(env, no_scope(), start, body)->Ok_0;
    let back = InstV::Jump { label: top };
    let end = emit(b1, back);
    let p = end.insts;
    lemma_whole(end);
    lemma_emitted(p, b1, back);
    statements_link(env, no_scope(), start, body);
    lemma_starts(p, start, b1);
    lemma_bound(p, b0, top);
    assert forall|s: State<V, W>| #[trigger] starts(s) implies goes_to(
        m,
        p,
        s,
        start.insts.len() as int,
    ) by {
        lemma_step(m, p, s);
    }
    assert forall|s: State<V, W>| #[trigger] stands(b1, s) implies goes_to(
        m,
        p,
        s,
        start.insts.len() as int,
    ) by {
        lemma_two_steps(m, p, s);
    }
    (start, sc1, b1)
}

/// The program of a continuous assignment returns the value of its right-hand side.
pub proof fn a_driver_returns_its_value<V, W>(
    m: Meaning<V, W>,
    env: EnvV,
    rhs: ExprV,
    s: State<V, W>,
) -> (t: State<V, W>)
    requires
        driver_code(env, rhs) is Ok,
        starts(s),
        eval(m, env, no_scope(), s.regs, s.world, rhs) is Some,
    ensures
        ({
            let p = (driver_code(env, rhs)->Ok_0).code;
            let (w, v) = eval(m, env, no_scope(), s.regs, s.world, rhs)->0;
            &&& reaches(m, p, s, t)
            &&& t.end == Some(Ending::Value(v))
            &&& t.world == w
        }),
{
    reveal(driver_code);
    let (b, value) = expr_code(env, no_scope(), no_code(), rhs)->Ok_0;
    let end = emit(b, InstV::Return { value });
    lemma_whole(end);
    let p = end.insts;
    lemma_emitted(p, b, InstV::Return { value });
    let t1 = lemma_expr(m, p, env, no_scope(), no_code(), rhs, s);
    lemma_step(m, p, t1);
    lemma_on(m, p, s, t1, step(m, p, t1));
    step(m, p, t1)
}

// ---- callables ------------------------------------------------------------------------

/// The first register of the formals: behind `this`, if there is one.
pub open spec fn first_formal(class_ctx: Option<u32>) -> int {
    if class_ctx is Some {
        1
    } else {
        0
    }
}

/// Each formal is in a register of its own, in order, under its name and with its width.
proof fn lemma_formals_placed(env: EnvV, sc: ScopeV, b: Code, params: Seq<ParamV>, i: int)
    requires
        0 <= i < params.len(),
        !(with_formals(env, sc, b, params).1).full,
        forall|j: int|
            0 <= j < params.len() && j != i ==> (#[trigger] params[j]).name != params[i].name,
    ensures
        ({
            let (sc1, b1, regs) = with_formals(env, sc, b, params);
            &&& regs.len() == params.len()
            &&& regs[i] == b.regs + i
            &&& lookup(sc1.locals, params[i].name) == Some((regs[i], params[i].width))
            &&& b1.regs == b.regs + params.len()
        }),
    decreases params.len(),
{
    let front = params.drop_last();
    let (sc0, b0, regs0) = with_formals(env, sc, b, front);
    lemma_formals_count(env, sc, b, front);
    put_then_lookup(
        sc0.locals,
        params.last().name,
        (b0.regs, params.last().width),
        params[i].name,
    );
    if i < front.len() {
        assert forall|j: int| 0 <= j < front.len() && j != i implies (#[trigger] front[j]).name
            != front[i].name by {
            assert(front[j] == params[j]);
        }
        assert(params[params.len() - 1].name != params[i].name);
        lemma_formals_placed(env, sc, b, front, i);
        assert(front[i] == params[i]);
    }
}

proof fn lemma_formals_count(env: EnvV, sc: ScopeV, b: Code, params: Seq<ParamV>)
    ensures
        ({
            let (sc1, b1, regs) = with_formals(env, sc, b, params);
            &&& regs.len() == params.len()
            &&& b1.insts == b.insts
            &&& !b1.full ==> b1.regs == b.regs + params.len() && !b.full
            &&& b1.labels == b.labels
            &&& sc1.class_ctx == sc.class_ctx && sc1.this_reg == sc.this_reg
            &&& sc1.loops == sc.loops
        }),
    decreases params.len(),
{
    if params.len() > 0 {
        lemma_formals_count(env, sc, b, params.drop_last());
    }
}

/// In a callable each formal is in its register: they follow each other in order, behind
/// `this` in a method. Its name means that register, unless it is also the name of the
/// callable, which means the result.
pub proof fn formals_are_in_order(env: EnvV, f: FuncDeclV, class_ctx: Option<u32>, i: int)
    requires
        callable_start(env, f, class_ctx) is Ok,
        !(callable_start(env, f, class_ctx)->Ok_0.1).full,
        0 <= i < f.params.len(),
        forall|j: int|
            0 <= j < f.params.len() && j != i ==> (#[trigger] f.params[j]).name
                != f.params[i].name,
        f.params[i].name != f.name,
    ensures
        ({
            let (sc, b, ret) = callable_start(env, f, class_ctx)->Ok_0;
            let reg = (first_formal(class_ctx) + i) as u32;
            &&& first_formal(class_ctx) + i <= u32::MAX
            &&& lookup(sc.locals, f.params[i].name) == Some((reg, f.params[i].width))
            &&& lookup(sc.locals, f.name) == Some((ret, result_width(f)))
            &&& ret >= first_formal(class_ctx) + f.params.len()
            &&& sc.class_ctx == class_ctx && sc.this_reg == 0 && sc.loops.len() == 0
        }),
{
    let b0 = if class_ctx is Some {
        with_reg(no_code())
    } else {
        no_code()
    };
    let sc0 = ScopeV { class_ctx, ..no_scope() };
    let (sc1, b1, regs) = with_formals(env, sc0, b0, f.params);
    let b2 = defaults_code(env, sc1, b1, f.params, regs)->Ok_0;
    lemma_defaults_grow(env, sc1, b1, f.params, regs);
    lemma_formals_count(env, sc0, b0, f.params);
    lemma_formals_placed(env, sc0, b0, f.params, i);
    put_then_lookup(sc1.locals, f.name, (b2.regs, result_width(f)), f.params[i].name);
    put_then_lookup(sc1.locals, f.name, (b2.regs, result_width(f)), f.name);
}

proof fn lemma_defaults_grow(
    env: EnvV,
    sc: ScopeV,
    b: Code,
    params: Seq<ParamV>,
    regs: Seq<u32>,
)
    requires
        defaults_code(env, sc, b, params, regs) is Ok,
    ensures
        ({
            let b1 = defaults_code(env, sc, b, params, regs)->Ok_0;
            &&& b.regs <= b1.regs
            &&& b.full ==> b1.full
        }),
    decreases params.len(),
{
    if params.len() > 0 {
        lemma_defaults_grow(env, sc, b, params.drop_last(), regs);
        let b1 = defaults_code(env, sc, b, params.drop_last(), regs)->Ok_0;
        if params.last().default is Some {
            let i = InstV::BranchArgProvided {
                formal: regs[params.len() - 1],
                label: b1.labels,
            };
            let b2 = emit(with_label(b1), i);
            expressions_link(env, sc, b2, params.last().default->0);
            let b3 = expr_code(env, sc, b2, params.last().default->0)->Ok_0.0;
            lemma_grows(b2, b3, Set::empty());
        }
    }
}

/// A formal with a default keeps its argument where the caller gave one, and else takes
/// the value of the default; one without is left as it is.
pub proof fn defaults_stand_in_for_arguments<V, W>(
    m: Meaning<V, W>,
    p: Seq<InstV>,
    env: EnvV,
    sc: ScopeV,
    b: Code,
    params: Seq<ParamV>,
    last: ParamV,
    regs: Seq<u32>,
    s: State<V, W>,
) -> (t: State<V, W>)
    requires
        bound_once(p),
        regs.len() > params.len(),
        defaults_code(env, sc, b, params.push(last), regs) is Ok,
        starts_with(p, defaults_code(env, sc, b, params.push(last), regs)->Ok_0),
        !(defaults_code(env, sc, b, params.push(last), regs)->Ok_0).full,
        defaults_code(env, sc, b, params, regs) is Ok ==> fits(
            sc,
            defaults_code(env, sc, b, params, regs)->Ok_0,
        ) && stands(defaults_code(env, sc, b, params, regs)->Ok_0, s),
        last.default matches Some(e) ==> eval(m, env, sc, s.regs, s.world, e) is Some,
    ensures
        defaults_code(env, sc, b, params, regs) is Ok,
        ({
            let before = defaults_code(env, sc, b, params, regs)->Ok_0;
            let end = defaults_code(env, sc, b, params.push(last), regs)->Ok_0;
            let formal = regs[params.len() as int];
            &&& reaches(m, p, s, t)
            &&& stands(end, t)
            &&& match last.default {
                Some(e) => if (m.given)(formal) {
                    t.world == s.world && t.regs == s.regs
                } else {
                    let (w, v) = eval(m, env, sc, s.regs, s.world, e)->0;
                    &&& t.world == w
                    &&& (t.regs)(formal) == v
                    &&& forall|r: u32|
                        r < before.regs && r != formal ==> #[trigger] (t.regs)(r) == (s.regs)(r)
                },
                None => t == s,
            }
        }),
{
    let all = params.push(last);
    assert(all.drop_last() =~= params);
    let before = defaults_code(env, sc, b, params, regs)->Ok_0;
    lemma_stays(m, p, s);
    match last.default {
        None => s,
        Some(e) => {
            let formal = regs[params.len() as int];
            let supplied = before.labels;
            let go = InstV::BranchArgProvided { formal, label: supplied };
            let b2 = emit(with_label(before), go);
            let (b3, src) = expr_code(env, sc, b2, e)->Ok_0;
            expressions_link(env, sc, b2, e);
            let set = InstV::Assign { dst: formal, src };
            let b4 = emit(b3, set);
            lemma_bound(p, b4, supplied);
            lemma_emitted(p, b3, set);
            lemma_starts(p, b2, b3);
            lemma_emitted(p, with_label(before), go);
            if (m.given)(formal) {
                lemma_two_steps(m, p, s);
                step(m, p, step(m, p, s))
            } else {
                let t1 = step(m, p, s);
                lemma_step(m, p, s);
                assert(fits(sc, b2));
                let t2 = lemma_expr(m, p, env, sc, b2, e, t1);
                lemma_on(m, p, s, t1, t2);
                let t3 = step(m, p, step(m, p, t2));
                lemma_two_steps(m, p, t2);
                lemma_on(m, p, s, t2, t3);
                assert forall|r: u32| r < before.regs && r != formal implies #[trigger] (t3.regs)(r)
                    == (s.regs)(r) by {
                    assert((t2.regs)(r) == (t1.regs)(r));
                }
                t3
            }
        },
    }
}

/// A callable clears its result, runs its body, and behind it returns the result, or
/// without a value where it has none.
pub proof fn callables_return_their_result<V, W>(
    m: Meaning<V, W>,
    env: EnvV,
    f: FuncDeclV,
    class_ctx: Option<u32>,
) -> (r: (ScopeV, Code, u32, ScopeV, Code))
    requires
        callable_code(env, f, class_ctx) is Ok,
    ensures
        ({
            let p = (callable_code(env, f, class_ctx)->Ok_0).code;
            let (sc, b, ret, sc1, b1) = r;
            &&& callable_start(env, f, class_ctx) == Ok::<(ScopeV, Code, u32), Seq<char>>(
                (sc, b, ret),
            )
            &&& has_code(p, env, sc, b, f.body, sc1, b1)
            &&& b.insts.len() > 0
            &&& b.insts.last() == (InstV::Load {
                dst: ret,
                value: ValueV::Logic(fill(Bit::Zero, result_width(f) as nat)),
            })
            &&& forall|s: State<V, W>| #[trigger]
                stands(b1, s) ==> reaches(
                    m,
                    p,
                    s,
                    State {
                        end: Some(
                            if f.is_void {
                                Ending::Void
                            } else {
                                Ending::Value((s.regs)(ret))
                            },
                        ),
                        ..s
                    },
                )
        }),
{
    reveal(callable_code);
    let (sc, b, ret) = callable_start(env, f, class_ctx)->Ok_0;
    let (sc1, b1) = stmt_code(env, sc, b, f.body)->Ok_0;
    let last = if f.is_void {
        InstV::ReturnVoid
    } else {
        InstV::Return { value: ret }
    };
    let end = emit(b1, last);
    let p = end.insts;
    lemma_whole(end);
    lemma_emitted(p, b1, last);
    assert forall|s: State<V, W>| #[trigger] stands(b1, s) implies reaches(
        m,
        p,
        s,
        State {
            end: Some(
                if f.is_void {
                    Ending::Void
                } else {
                    Ending::Value((s.regs)(ret))
                },
            ),
            ..s
        },
    ) by {
        lemma_step(m, p, s);
    }
    (sc, b, ret, sc1, b1)
}

/// Arguments are passed as the formals are declared, behind `this`, which is an input.
pub proof fn arguments_are_passed_as_declared(has_this: bool, params: Seq<ParamV>, i: int)
    requires
        0 <= i < params.len(),
    ensures
        ({
            let modes = modes_of(has_this, params);
            let first: int = if has_this {
                1
            } else {
                0
            };
            &&& modes.len() == first + params.len()
            &&& has_this ==> modes[0] == ArgMode::Input
            &&& params[i].dir == PortDir::Input <==> modes[first + i] == ArgMode::Input
            &&& params[i].dir == PortDir::Output <==> modes[first + i] == ArgMode::Output
            &&& params[i].dir == PortDir::Inout <==> modes[first + i] == ArgMode::Inout
            &&& params[i].dir == PortDir::Ref <==> modes[first + i] == ArgMode::Ref
        }),
{
}

proof fn lemma_regs(b: Code, n: nat)
    ensures
        ({
            let (b1, regs) = with_regs(b, n);
            &&& regs.len() == n
            &&& b1.insts == b.insts
            &&& !b1.full ==> b1.regs == b.regs + n && !b.full && forall|i: int|
                0 <= i < n ==> #[trigger] regs[i] == b.regs + i
        }),
    decreases n,
{
    if n > 0 {
        lemma_regs(b, (n - 1) as nat);
    }
}

/// The program that stands for a callable returns a zero of the width of its result, or
/// without a value where it has none, and does nothing else.
pub proof fn a_stub_returns_zero<V, W>(
    m: Meaning<V, W>,
    f: FuncDeclV,
    has_this: bool,
    s: State<V, W>,
) -> (t: State<V, W>)
    requires
        stub_code(f, has_this) is Ok,
        starts(s),
    ensures
        ({
            let p = (stub_code(f, has_this)->Ok_0).code;
            let zero = Act::Constant(ValueV::Logic(fill(Bit::Zero, result_width(f) as nat)));
            &&& reaches(m, p, s, t)
            &&& t.world == s.world
            &&& t.end == Some(
                if f.is_void {
                    Ending::Void
                } else {
                    Ending::Value(done(m, s.world, zero, seq![]).1)
                },
            )
        }),
{
    let b0 = if has_this {
        with_reg(no_code())
    } else {
        no_code()
    };
    let b1 = with_regs(b0, f.params.len()).0;
    lemma_regs(b0, f.params.len());
    assert(values(s.regs, Seq::<u32>::empty()) =~= Seq::<V>::empty());
    if f.is_void {
        let end = emit(b1, InstV::ReturnVoid);
        lemma_whole(end);
        lemma_emitted(end.insts, b1, InstV::ReturnVoid);
        lemma_step(m, end.insts, s);
        step(m, end.insts, s)
    } else {
        let load = InstV::Load {
            dst: b1.regs,
            value: ValueV::Logic(fill(Bit::Zero, result_width(f) as nat)),
        };
        let b2 = emit(with_reg(b1), load);
        let last = InstV::Return { value: b1.regs };
        let end = emit(b2, last);
        lemma_whole(end);
        lemma_emitted(end.insts, b2, last);
        lemma_emitted(end.insts, with_reg(b1), load);
        lemma_two_steps(m, end.insts, s);
        step(m, end.insts, step(m, end.insts, s))
    }
}

/// The program of an imported function calls its symbol with its arguments in order and
/// returns what that gives.
pub proof fn an_import_calls_its_symbol<V, W>(
    m: Meaning<V, W>,
    f: FuncDeclV,
    symbol: Seq<char>,
    s: State<V, W>,
) -> (t: State<V, W>)
    requires
        foreign_code(f, symbol) is Ok,
        starts(s),
    ensures
        ({
            let p = (foreign_code(f, symbol)->Ok_0).code;
            let args = Seq::new(f.params.len(), |i: int| (s.regs)(i as u32));
            let (w, v) = done(m, s.world, Act::CallForeign(symbol), args);
            &&& reaches(m, p, s, t)
            &&& t.world == w
            &&& t.end == Some(
                if f.is_void {
                    Ending::Void
                } else {
                    Ending::Value(v)
                },
            )
        }),
{
    let (b1, args) = with_regs(no_code(), f.params.len());
    lemma_regs(no_code(), f.params.len());
    let call = InstV::DpiCall { dst: b1.regs, name: symbol, args };
    let b2 = emit(with_reg(b1), call);
    let last = if f.is_void {
        InstV::ReturnVoid
    } else {
        InstV::Return { value: b1.regs }
    };
    let end = emit(b2, last);
    lemma_whole(end);
    lemma_emitted(end.insts, b2, last);
    lemma_emitted(end.insts, with_reg(b1), call);
    assert(values(s.regs, args) =~= Seq::new(f.params.len(), |i: int| (s.regs)(i as u32)));
    lemma_two_steps(m, end.insts, s);
    step(m, end.insts, step(m, end.insts, s))
}

/// The constructor of a class that declares none runs that of its base on the object, if
/// there is one, and ends without a value.
pub proof fn a_made_constructor_runs_its_base<V, W>(
    m: Meaning<V, W>,
    base_ctor: Option<u32>,
    s: State<V, W>,
) -> (t: State<V, W>)
    requires
        default_constructor(base_ctor) is Ok,
        starts(s),
    ensures
        ({
            let p = (default_constructor(base_ctor)->Ok_0).code;
            &&& reaches(m, p, s, t)
            &&& t.end == Some(Ending::<V>::Void)
            &&& match base_ctor {
                Some(func) => t.world == done(m, s.world, Act::Call(func), seq![(s.regs)(0)]).0,
                None => t.world == s.world,
            }
        }),
{
    let b0 = with_reg(no_code());
    match base_ctor {
        Some(func) => {
            let call = InstV::Call { func, args: seq![no_code().regs], ret: b0.regs };
            let b1 = emit(with_reg(b0), call);
            let end = emit(b1, InstV::ReturnVoid);
            lemma_whole(end);
            lemma_emitted(end.insts, b1, InstV::ReturnVoid);
            lemma_emitted(end.insts, with_reg(b0), call);
            assert(values(s.regs, seq![0u32]) =~= seq![(s.regs)(0)]);
            lemma_two_steps(m, end.insts, s);
            step(m, end.insts, step(m, end.insts, s))
        },
        None => {
            let end = emit(b0, InstV::ReturnVoid);
            lemma_whole(end);
            lemma_emitted(end.insts, b0, InstV::ReturnVoid);
            lemma_step(m, end.insts, s);
            step(m, end.insts, s)
        },
    }
}

} // verus!
