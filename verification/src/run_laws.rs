//! Laws of running expressions: the code of an expression computes its value.
use vstd::prelude::*;

use crate::ast::UnaryOp;
use crate::ast_model::{ExprV, TypeRefV};
use crate::bit::Bit;
use crate::bits::fill;
use crate::code_model::{group_code, lemma_grows, linked};
use crate::gen_laws::{expressions_link, lemma_args, lemma_below, lemma_ref};
use crate::gen_model::{
    args_code, builtin_code, call_code, collection_call, collection_method, dispatched, esize,
    expr_code, exprs_below, field_code, format_of, formatted, index_code, lemma_expr_code,
    lemma_exprs_below, method_code, object_call, on_this, ref_code, static_call_code,
    static_ref_code, string_code, string_inst, string_method, super_function, sys_func_code, two,
    unary_inst, Coded,
};
use crate::ir::{emit, loaded, with_reg, Code, CollOp, InstV, ValueV};
use crate::layout::{
    class_at, class_named, class_of, collection_of, own_class, own_method, plain_local, receiver,
    EnvV, ScopeV,
};
use crate::machine::{
    done, lemma_on, lemma_stays, lemma_step, moves_key, reaches, step, task, values, Meaning, State,
};
use crate::meaning::{
    call_collection, call_method, eval, eval_all, eval_name, is_builtin, meant, string_act, target,
    Meant, Target,
};
use crate::table::lookup;

verus! {

broadcast use group_code;

/// Whether a program starts with some code.
pub open spec fn starts_with(p: Seq<InstV>, b: Code) -> bool {
    b.insts.len() <= p.len() && p.take(b.insts.len() as int) == b.insts
}

/// Whether registers are the same below a number.
pub open spec fn same_below<V>(a: spec_fn(u32) -> V, b: spec_fn(u32) -> V, n: u32) -> bool {
    forall|r: u32| r < n ==> #[trigger] b(r) == a(r)
}

/// Whether the locals and `this` are in registers that were handed out.
pub open spec fn fits(sc: ScopeV, b: Code) -> bool {
    &&& forall|name: Seq<char>|
        (#[trigger] lookup(sc.locals, name)) is Some ==> (lookup(sc.locals, name)->0).0 < b.regs
    &&& sc.class_ctx is Some ==> sc.this_reg < b.regs
}

/// Whether code that was added ran: from its start to its end, without touching the
/// registers that were handed out before.
pub open spec fn ran_through<V, W>(
    m: Meaning<V, W>,
    p: Seq<InstV>,
    b: Code,
    b1: Code,
    s: State<V, W>,
    t: State<V, W>,
) -> bool {
    &&& reaches(m, p, s, t)
    &&& t.pc == b1.insts.len()
    &&& t.end is None
    &&& same_below(s.regs, t.regs, b.regs)
}

/// Whether a state is at the end of code.
pub open spec fn stands<V, W>(b: Code, s: State<V, W>) -> bool {
    s.pc == b.insts.len() && s.end is None
}

/// A program that starts with code starts with what that was added to.
pub proof fn lemma_starts(p: Seq<InstV>, b: Code, b1: Code)
    requires
        starts_with(p, b1),
        linked(b, b1),
    ensures
        starts_with(p, b),
        b.regs <= b1.regs,
        b.full ==> b1.full,
        b.insts.len() <= b1.insts.len(),
{
    lemma_grows(b, b1, Set::empty());
    assert(p.take(b.insts.len() as int) =~= p.take(b1.insts.len() as int).take(
        b.insts.len() as int,
    ));
}

/// What is added to code keeps its registers.
pub proof fn lemma_starts_regs(b: Code, b1: Code)
    requires
        linked(b, b1),
    ensures
        b.regs <= b1.regs,
{
    lemma_grows(b, b1, Set::empty());
}

/// The last instruction of code is in the program.
pub proof fn lemma_emitted(p: Seq<InstV>, b: Code, i: InstV)
    requires
        starts_with(p, emit(b, i)),
    ensures
        b.insts.len() < p.len(),
        p[b.insts.len() as int] == i,
        starts_with(p, b),
{
    let n = b.insts.len() as int;
    assert(p.take(n + 1)[n] == emit(b, i).insts[n]);
    assert(p.take(n) =~= p.take(n + 1).take(n));
    assert(emit(b, i).insts.take(n) =~= b.insts);
}

/// An operation runs.
pub proof fn lemma_task<V, W>(
    m: Meaning<V, W>,
    p: Seq<InstV>,
    b: Code,
    i: InstV,
    s: State<V, W>,
) -> (t: State<V, W>)
    requires
        starts_with(p, emit(b, i)),
        stands(b, s),
        task(i) is Some,
        i matches InstV::CollMethod { dst, base, op, args } ==> !moves_key(op),
    ensures
        ({
            let k = task(i)->0;
            let (w, v) = done(m, s.world, k.act, values(s.regs, k.reads));
            &&& reaches(m, p, s, t)
            &&& stands(emit(b, i), t)
            &&& t.world == w
            &&& k.writes is Some ==> (t.regs)(k.writes->0) == v
            &&& forall|r: u32| Some(r) != k.writes ==> #[trigger] (t.regs)(r) == (s.regs)(r)
        }),
{
    lemma_emitted(p, b, i);
    lemma_step(m, p, s);
    step(m, p, s)
}

/// An operation with a new register runs.
pub proof fn lemma_new<V, W>(
    m: Meaning<V, W>,
    p: Seq<InstV>,
    b: Code,
    i: InstV,
    s: State<V, W>,
) -> (t: State<V, W>)
    requires
        starts_with(p, emit(with_reg(b), i)),
        !with_reg(b).full,
        stands(b, s),
        task(i) is Some,
        (task(i)->0).writes == Some(b.regs),
        i matches InstV::CollMethod { dst, base, op, args } ==> !moves_key(op),
    ensures
        ({
            let k = task(i)->0;
            let (w, v) = done(m, s.world, k.act, values(s.regs, k.reads));
            &&& ran_through(m, p, b, emit(with_reg(b), i), s, t)
            &&& t.world == w
            &&& (t.regs)(b.regs) == v
            &&& b.regs < with_reg(b).regs
        }),
{
    lemma_task(m, p, with_reg(b), i, s)
}

/// Running on.
pub proof fn lemma_then<V, W>(
    m: Meaning<V, W>,
    p: Seq<InstV>,
    b: Code,
    b1: Code,
    b2: Code,
    s: State<V, W>,
    t: State<V, W>,
    u: State<V, W>,
)
    requires
        ran_through(m, p, b, b1, s, t),
        ran_through(m, p, b1, b2, t, u),
        b.regs <= b1.regs,
    ensures
        ran_through(m, p, b, b2, s, u),
{
    lemma_on(m, p, s, t, u);
    assert forall|r: u32| r < b.regs implies #[trigger] (u.regs)(r) == (s.regs)(r) by {
        assert((t.regs)(r) == (s.regs)(r));
    }
}

/// The meaning of an expression depends on the registers of locals and of `this` only.
pub proof fn lemma_eval_same<V, W>(
    m: Meaning<V, W>,
    env: EnvV,
    sc: ScopeV,
    a: spec_fn(u32) -> V,
    b: spec_fn(u32) -> V,
    n: Code,
    w: W,
    e: ExprV,
)
    requires
        fits(sc, n),
        same_below(a, b, n.regs),
    ensures
        eval(m, env, sc, a, w, e) == eval(m, env, sc, b, w, e),
    decreases e,
{
    match e {
        ExprV::Ref(name) => lemma_name_same(m, env, sc, a, b, n, w, name),
        ExprV::Unary { op, operand } => lemma_eval_same(m, env, sc, a, b, n, w, *operand),
        ExprV::Binary { op, lhs, rhs } => {
            lemma_eval_same(m, env, sc, a, b, n, w, *lhs);
            if let Some((w1, x)) = eval(m, env, sc, a, w, *lhs) {
                lemma_eval_same(m, env, sc, a, b, n, w1, *rhs);
            }
        },
        ExprV::Call { name, args } => {
            lemma_all_same(m, env, sc, a, b, n, w, args);
        },
        ExprV::MethodCall { obj, method, args } => {
            lemma_eval_same(m, env, sc, a, b, n, w, *obj);
            lemma_all_same(m, env, sc, a, b, n, w, args);
            if let Some((w1, x)) = eval(m, env, sc, a, w, *obj) {
                lemma_all_same(m, env, sc, a, b, n, w1, args);
            }
        },
        ExprV::Field { obj, field } => lemma_eval_same(m, env, sc, a, b, n, w, *obj),
        ExprV::Index { base, index } => {
            lemma_eval_same(m, env, sc, a, b, n, w, *base);
            if let Some((w1, x)) = eval(m, env, sc, a, w, *base) {
                lemma_eval_same(m, env, sc, a, b, n, w1, *index);
            }
        },
        ExprV::PartSelect { base, left, right } => {
            lemma_eval_same(m, env, sc, a, b, n, w, *base);
            if let Some((w1, x)) = eval(m, env, sc, a, w, *base) {
                lemma_eval_same(m, env, sc, a, b, n, w1, *left);
                if let Some((w2, y)) = eval(m, env, sc, a, w1, *left) {
                    lemma_eval_same(m, env, sc, a, b, n, w2, *right);
                }
            }
        },
        ExprV::StaticCall { class_name, class_args, method, args } => {
            lemma_all_same(m, env, sc, a, b, n, w, args);
        },
        ExprV::StaticRef { class_name, field } => lemma_name_same(m, env, sc, a, b, n, w, field),
        ExprV::Concat(parts) => lemma_all_same(m, env, sc, a, b, n, w, parts),
        ExprV::SysCall { name, args } => {
            lemma_all_same(m, env, sc, a, b, n, w, args);
            if args.len() > 0 {
                lemma_all_same(m, env, sc, a, b, n, w, args.skip(1));
            }
        },
        _ => {},
    }
}

pub proof fn lemma_name_same<V, W>(
    m: Meaning<V, W>,
    env: EnvV,
    sc: ScopeV,
    a: spec_fn(u32) -> V,
    b: spec_fn(u32) -> V,
    n: Code,
    w: W,
    name: Seq<char>,
)
    requires
        fits(sc, n),
        same_below(a, b, n.regs),
    ensures
        eval_name(m, env, sc, a, w, name) == eval_name(m, env, sc, b, w, name),
{
    assert(sc.class_ctx is Some ==> b(sc.this_reg) == a(sc.this_reg));
    assert(lookup(sc.locals, name) is Some ==> b((lookup(sc.locals, name)->0).0) == a(
        (lookup(sc.locals, name)->0).0,
    ));
}

pub proof fn lemma_all_same<V, W>(
    m: Meaning<V, W>,
    env: EnvV,
    sc: ScopeV,
    a: spec_fn(u32) -> V,
    b: spec_fn(u32) -> V,
    n: Code,
    w: W,
    s: Seq<ExprV>,
)
    requires
        fits(sc, n),
        same_below(a, b, n.regs),
    ensures
        eval_all(m, env, sc, a, w, s) == eval_all(m, env, sc, b, w, s),
    decreases s,
{
    if s.len() > 0 {
        lemma_all_same(m, env, sc, a, b, n, w, s.drop_last());
        if let Some((w1, vs)) = eval_all(m, env, sc, a, w, s.drop_last()) {
            lemma_eval_same(m, env, sc, a, b, n, w1, s.last());
        }
    }
}

// ---- expressions ----------------------------------------------------------------------

/// Code and a register, once the code ran: the register holds the value of an
/// expression, and the world is what the expression leaves.
pub open spec fn computed<V, W>(
    m: Meaning<V, W>,
    p: Seq<InstV>,
    b: Code,
    b1: Code,
    r: u32,
    s: State<V, W>,
    t: State<V, W>,
    out: (W, V),
) -> bool {
    &&& ran_through(m, p, b, b1, s, t)
    &&& t.world == out.0
    &&& (t.regs)(r) == out.1
    &&& r < b1.regs
}

/// A part that compiles is smaller, and compiles as itself.
proof fn lemma_part(env: EnvV, sc: ScopeV, bound: nat, b: Code, e: ExprV)
    requires
        exprs_below(env, sc, bound)(b, e) is Ok,
    ensures
        esize(e) < bound,
        exprs_below(env, sc, bound)(b, e) == expr_code(env, sc, b, e),
        linked(b, expr_code(env, sc, b, e)->Ok_0.0),
{
    reveal(exprs_below);
    if esize(e) < bound {
        lemma_exprs_below(env, sc, bound, b, e);
        expressions_link(env, sc, b, e);
    }
}

proof fn lemma_sub<V, W>(
    m: Meaning<V, W>,
    p: Seq<InstV>,
    env: EnvV,
    sc: ScopeV,
    bound: nat,
    b: Code,
    e: ExprV,
    s: State<V, W>,
) -> (t: State<V, W>)
    requires
        exprs_below(env, sc, bound)(b, e) is Ok,
        !(exprs_below(env, sc, bound)(b, e)->Ok_0.0).full,
        starts_with(p, exprs_below(env, sc, bound)(b, e)->Ok_0.0),
        fits(sc, b),
        stands(b, s),
        eval(m, env, sc, s.regs, s.world, e) is Some,
    ensures
        ({
            let (b1, r) = exprs_below(env, sc, bound)(b, e)->Ok_0;
            computed(m, p, b, b1, r, s, t, eval(m, env, sc, s.regs, s.world, e)->0)
        }),
    decreases bound, 0nat, 0nat,
{
    lemma_part(env, sc, bound, b, e);
    lemma_expr(m, p, env, sc, b, e, s)
}

/// Arguments run one after the other, each into its register.
pub proof fn lemma_all<V, W>(
    m: Meaning<V, W>,
    p: Seq<InstV>,
    env: EnvV,
    sc: ScopeV,
    bound: nat,
    b: Code,
    args: Seq<ExprV>,
    s: State<V, W>,
) -> (t: State<V, W>)
    requires
        args_code(exprs_below(env, sc, bound), b, args) is Ok,
        !(args_code(exprs_below(env, sc, bound), b, args)->Ok_0.0).full,
        starts_with(p, args_code(exprs_below(env, sc, bound), b, args)->Ok_0.0),
        fits(sc, b),
        stands(b, s),
        eval_all(m, env, sc, s.regs, s.world, args) is Some,
    ensures
        ({
            let (b1, regs) = args_code(exprs_below(env, sc, bound), b, args)->Ok_0;
            let (w, vs) = eval_all(m, env, sc, s.regs, s.world, args)->0;
            &&& ran_through(m, p, b, b1, s, t)
            &&& t.world == w
            &&& regs.len() == args.len()
            &&& values(t.regs, regs) == vs
            &&& forall|i: int| 0 <= i < regs.len() ==> #[trigger] regs[i] < b1.regs
            &&& b.regs <= b1.regs
        }),
    decreases bound, 1nat, args.len(),
{
    let f = exprs_below(env, sc, bound);
    if args.len() == 0 {
        lemma_stays(m, p, s);
        assert(values(s.regs, Seq::<u32>::empty()) =~= Seq::<V>::empty());
        s
    } else {
        let (b1, regs) = args_code(f, b, args.drop_last())->Ok_0;
        let (b2, r) = f(b1, args.last())->Ok_0;
        lemma_below(env, sc, bound);
        lemma_args(f, b, args.drop_last());
        lemma_part(env, sc, bound, b1, args.last());
        lemma_starts(p, b1, b2);
        let t1 = lemma_all(m, p, env, sc, bound, b, args.drop_last(), s);
        let (w1, vs) = eval_all(m, env, sc, s.regs, s.world, args.drop_last())->0;
        lemma_eval_same(m, env, sc, s.regs, t1.regs, b, w1, args.last());
        let t2 = lemma_sub(m, p, env, sc, bound, b1, args.last(), t1);
        lemma_then(m, p, b, b1, b2, s, t1, t2);
        assert(values(t2.regs, regs.push(r)) =~= vs.push((t2.regs)(r))) by {
            assert forall|i: int| 0 <= i < regs.len() implies (t2.regs)(#[trigger] regs[i])
                == vs[i] by {
                assert((t2.regs)(regs[i]) == (t1.regs)(regs[i]));
                assert(values(t1.regs, regs)[i] == (t1.regs)(regs[i]));
            }
        }
        t2
    }
}

/// A last operation on what was computed.
pub proof fn lemma_last<V, W>(
    m: Meaning<V, W>,
    p: Seq<InstV>,
    b: Code,
    b1: Code,
    i: InstV,
    s: State<V, W>,
    t: State<V, W>,
    vs: Seq<V>,
) -> (u: State<V, W>)
    requires
        ran_through(m, p, b, b1, s, t),
        b.regs <= b1.regs,
        starts_with(p, emit(with_reg(b1), i)),
        !with_reg(b1).full,
        task(i) is Some,
        (task(i)->0).writes == Some(b1.regs),
        values(t.regs, (task(i)->0).reads) == vs,
        i matches InstV::CollMethod { dst, base, op, args } ==> !moves_key(op),
    ensures
        computed(
            m,
            p,
            b,
            emit(with_reg(b1), i),
            b1.regs,
            s,
            u,
            done(m, t.world, (task(i)->0).act, vs),
        ),
{
    let u = lemma_new(m, p, b1, i, t);
    lemma_then(m, p, b, b1, emit(with_reg(b1), i), s, t, u);
    u
}

/// The instruction that calls what a method call calls.
proof fn lemma_called<V, W>(
    m: Meaning<V, W>,
    p: Seq<InstV>,
    b: Code,
    b1: Code,
    i: InstV,
    s: State<V, W>,
    t: State<V, W>,
    to: Target,
    obj: u32,
    regs: Seq<u32>,
    vs: Seq<V>,
) -> (u: State<V, W>)
    requires
        ran_through(m, p, b, b1, s, t),
        b.regs <= b1.regs,
        starts_with(p, emit(with_reg(b1), i)),
        !with_reg(b1).full,
        values(t.regs, regs) == vs,
        match to {
            Target::Virtual(vslot) => i == (InstV::CallVirtual {
                obj,
                vslot,
                args: seq![obj] + regs,
                ret: b1.regs,
            }),
            Target::Direct(func) => i == (InstV::Call {
                func,
                args: seq![obj] + regs,
                ret: b1.regs,
            }),
            Target::Unknown => false,
        },
    ensures
        call_method(m, t.world, to, (t.regs)(obj), vs) is Some,
        computed(
            m,
            p,
            b,
            emit(with_reg(b1), i),
            b1.regs,
            s,
            u,
            call_method(m, t.world, to, (t.regs)(obj), vs)->0,
        ),
{
    let o = (t.regs)(obj);
    assert(values(t.regs, seq![obj] + regs) =~= seq![o] + vs);
    assert(values(t.regs, seq![obj] + (seq![obj] + regs)) =~= seq![o] + (seq![o] + vs));
    match to {
        Target::Virtual(_) => lemma_last(m, p, b, b1, i, s, t, seq![o] + (seq![o] + vs)),
        _ => lemma_last(m, p, b, b1, i, s, t, seq![o] + vs),
    }
}

/// A call on `this` of a method of the own class runs what it calls.
proof fn lemma_on_this<V, W>(
    m: Meaning<V, W>,
    p: Seq<InstV>,
    env: EnvV,
    sc: ScopeV,
    b: Code,
    b1: Code,
    method: Seq<char>,
    regs: Seq<u32>,
    s: State<V, W>,
    t: State<V, W>,
    vs: Seq<V>,
) -> (u: State<V, W>)
    requires
        on_this(env, sc, b1, method, seq![sc.this_reg] + regs) is Ok,
        ({
            let b2 = on_this(env, sc, b1, method, seq![sc.this_reg] + regs)->Ok_0.0;
            starts_with(p, b2) && !b2.full
        }),
        own_class(env, sc) is Some,
        ran_through(m, p, b, b1, s, t),
        b.regs <= b1.regs,
        values(t.regs, regs) == vs,
    ensures
        ({
            let (b2, r) = on_this(env, sc, b1, method, seq![sc.this_reg] + regs)->Ok_0;
            let v = call_method(
                m,
                t.world,
                target(own_class(env, sc)->0, method),
                (t.regs)(sc.this_reg),
                vs,
            );
            v is Some && computed(m, p, b, b2, r, s, u, v->0)
        }),
{
    reveal(on_this);
    let to = target(own_class(env, sc)->0, method);
    let args = seq![sc.this_reg] + regs;
    let i = match to {
        Target::Virtual(vslot) => InstV::CallVirtual {
            obj: sc.this_reg,
            vslot,
            args,
            ret: b1.regs,
        },
        Target::Direct(func) => InstV::Call { func, args, ret: b1.regs },
        Target::Unknown => arbitrary(),
    };
    lemma_called(m, p, b, b1, i, s, t, to, sc.this_reg, regs, vs)
}

/// Reading a name runs.
proof fn lemma_name<V, W>(
    m: Meaning<V, W>,
    p: Seq<InstV>,
    env: EnvV,
    sc: ScopeV,
    b: Code,
    name: Seq<char>,
    s: State<V, W>,
) -> (t: State<V, W>)
    requires
        ref_code(env, sc, b, name) is Ok,
        !(ref_code(env, sc, b, name)->Ok_0.0).full,
        starts_with(p, ref_code(env, sc, b, name)->Ok_0.0),
        fits(sc, b),
        stands(b, s),
        eval_name(m, env, sc, s.regs, s.world, name) is Some,
    ensures
        ({
            let (b1, r) = ref_code(env, sc, b, name)->Ok_0;
            computed(m, p, b, b1, r, s, t, eval_name(m, env, sc, s.regs, s.world, name)->0)
        }),
{
    reveal(ref_code);
    lemma_stays(m, p, s);
    assert(values(s.regs, seq![sc.this_reg]) =~= seq![(s.regs)(sc.this_reg)]);
    assert(values(s.regs, Seq::<u32>::empty()) =~= Seq::<V>::empty());
    assert(seq![sc.this_reg] =~= seq![sc.this_reg] + Seq::<u32>::empty());
    match meant(env, sc, name) {
        Meant::This => s,
        Meant::Local(r) => s,
        Meant::Field(slot) => lemma_last(
            m,
            p,
            b,
            b,
            InstV::GetField { dst: b.regs, obj: sc.this_reg, slot },
            s,
            s,
            seq![(s.regs)(sc.this_reg)],
        ),
        Meant::Shared(id) => lemma_last(
            m,
            p,
            b,
            b,
            InstV::StaticGet { dst: b.regs, id },
            s,
            s,
            seq![],
        ),
        Meant::Constant(bits) => lemma_last(
            m,
            p,
            b,
            b,
            InstV::Load { dst: b.regs, value: ValueV::Logic(bits) },
            s,
            s,
            seq![],
        ),
        Meant::Method => lemma_on_this(
            m,
            p,
            env,
            sc,
            b,
            b,
            name,
            Seq::empty(),
            s,
            s,
            Seq::empty(),
        ),
        Meant::Net(net) => lemma_last(
            m,
            p,
            b,
            b,
            InstV::NetRead { dst: b.regs, net },
            s,
            s,
            seq![],
        ),
        Meant::Nothing => s,
    }
}

/// Two operands run one after the other.
proof fn lemma_two<V, W>(
    m: Meaning<V, W>,
    p: Seq<InstV>,
    env: EnvV,
    sc: ScopeV,
    bound: nat,
    b: Code,
    x: ExprV,
    y: ExprV,
    s: State<V, W>,
) -> (t: State<V, W>)
    requires
        two(exprs_below(env, sc, bound), b, x, y) is Ok,
        !(two(exprs_below(env, sc, bound), b, x, y)->Ok_0.0).full,
        starts_with(p, two(exprs_below(env, sc, bound), b, x, y)->Ok_0.0),
        fits(sc, b),
        stands(b, s),
        eval(m, env, sc, s.regs, s.world, x) is Some,
        eval(m, env, sc, s.regs, (eval(m, env, sc, s.regs, s.world, x)->0).0, y) is Some,
    ensures
        ({
            let (b2, r1, r2) = two(exprs_below(env, sc, bound), b, x, y)->Ok_0;
            let (w1, v1) = eval(m, env, sc, s.regs, s.world, x)->0;
            let (w2, v2) = eval(m, env, sc, s.regs, w1, y)->0;
            &&& ran_through(m, p, b, b2, s, t)
            &&& t.world == w2
            &&& (t.regs)(r1) == v1
            &&& (t.regs)(r2) == v2
            &&& r1 < b2.regs
            &&& r2 < b2.regs
            &&& b.regs <= b2.regs
        }),
    decreases bound, 1nat, 0nat,
{
    let f = exprs_below(env, sc, bound);
    let (b1, r1) = f(b, x)->Ok_0;
    let (b2, r2) = f(b1, y)->Ok_0;
    lemma_part(env, sc, bound, b, x);
    lemma_part(env, sc, bound, b1, y);
    lemma_starts(p, b1, b2);
    lemma_starts(p, b, b1);
    let t1 = lemma_sub(m, p, env, sc, bound, b, x, s);
    lemma_eval_same(m, env, sc, s.regs, t1.regs, b, t1.world, y);
    let t2 = lemma_sub(m, p, env, sc, bound, b1, y, t1);
    lemma_then(m, p, b, b1, b2, s, t1, t2);
    assert((t2.regs)(r1) == (t1.regs)(r1));
    t2
}

/// A call runs the method of the own class, or else the function.
proof fn lemma_call<V, W>(
    m: Meaning<V, W>,
    p: Seq<InstV>,
    env: EnvV,
    sc: ScopeV,
    bound: nat,
    b: Code,
    name: Seq<char>,
    args: Seq<ExprV>,
    s: State<V, W>,
) -> (t: State<V, W>)
    requires
        call_code(exprs_below(env, sc, bound), env, sc, b, name, args) is Ok,
        !(call_code(exprs_below(env, sc, bound), env, sc, b, name, args)->Ok_0.0).full,
        starts_with(p, call_code(exprs_below(env, sc, bound), env, sc, b, name, args)->Ok_0.0),
        fits(sc, b),
        stands(b, s),
        eval(m, env, sc, s.regs, s.world, ExprV::Call { name, args }) is Some,
    ensures
        ({
            let (b1, r) = call_code(exprs_below(env, sc, bound), env, sc, b, name, args)->Ok_0;
            computed(m, p, b, b1, r, s, t, eval(m, env, sc, s.regs, s.world, ExprV::Call { name, args })->0)
        }),
    decreases bound, 3nat, 0nat,
{
    reveal(call_code);
    let f = exprs_below(env, sc, bound);
    let (b1, regs) = args_code(f, b, args)->Ok_0;
    let (w1, vs) = eval_all(m, env, sc, s.regs, s.world, args)->0;
    lemma_below(env, sc, bound);
    lemma_args(f, b, args);
    if own_method(env, sc, name) {
        let b2 = on_this(env, sc, b1, name, seq![sc.this_reg] + regs)->Ok_0.0;
        assert(linked(b1, b2)) by {
            reveal(on_this);
        }
        lemma_starts(p, b1, b2);
        let t1 = lemma_all(m, p, env, sc, bound, b, args, s);
        assert((t1.regs)(sc.this_reg) == (s.regs)(sc.this_reg));
        lemma_on_this(m, p, env, sc, b, b1, name, regs, s, t1, vs)
    } else {
        let func = lookup(env.funcs, name)->0;
        let i = InstV::Call { func, args: regs, ret: b1.regs };
        lemma_starts(p, b1, emit(with_reg(b1), i));
        let t1 = lemma_all(m, p, env, sc, bound, b, args, s);
        lemma_last(m, p, b, b1, i, s, t1, vs)
    }
}

/// A call of a method of a collection runs.
proof fn lemma_collection<V, W>(
    m: Meaning<V, W>,
    p: Seq<InstV>,
    env: EnvV,
    sc: ScopeV,
    bound: nat,
    b: Code,
    b1: Code,
    base: u32,
    op: CollOp,
    args: Seq<ExprV>,
    s: State<V, W>,
    t1: State<V, W>,
) -> (t: State<V, W>)
    requires
        collection_call(exprs_below(env, sc, bound), b1, base, op, args) is Ok,
        !(collection_call(exprs_below(env, sc, bound), b1, base, op, args)->Ok_0.0).full,
        starts_with(p, collection_call(exprs_below(env, sc, bound), b1, base, op, args)->Ok_0.0),
        fits(sc, b),
        ran_through(m, p, b, b1, s, t1),
        b.regs <= b1.regs,
        base < b1.regs,
        !moves_key(op),
        eval_all(m, env, sc, s.regs, t1.world, args) is Some,
    ensures
        ({
            let (b2, r) = collection_call(exprs_below(env, sc, bound), b1, base, op, args)->Ok_0;
            let (w, vs) = eval_all(m, env, sc, s.regs, t1.world, args)->0;
            computed(
                m,
                p,
                b,
                b2,
                r,
                s,
                t,
                call_collection(m, w, op, (t1.regs)(base), vs)->0,
            )
        }),
    decreases bound, 2nat, 0nat,
{
    let f = exprs_below(env, sc, bound);
    let (b2, regs) = args_code(f, b1, args)->Ok_0;
    let (w, vs) = eval_all(m, env, sc, s.regs, t1.world, args)->0;
    let i = InstV::CollMethod { dst: b2.regs, base, op, args: regs };
    lemma_below(env, sc, bound);
    lemma_args(f, b1, args);
    lemma_starts(p, b2, emit(with_reg(b2), i));
    lemma_starts(p, b1, b2);
    lemma_all_same(m, env, sc, s.regs, t1.regs, b, t1.world, args);
    let t2 = lemma_all(m, p, env, sc, bound, b1, args, t1);
    lemma_then(m, p, b, b1, b2, s, t1, t2);
    assert(values(t2.regs, seq![base] + regs) =~= seq![(t1.regs)(base)] + vs) by {
        assert((t2.regs)(base) == (t1.regs)(base));
    }
    lemma_last(m, p, b, b2, i, s, t2, seq![(t1.regs)(base)] + vs)
}

/// A call of a method of a class on an object runs.
proof fn lemma_dispatched<V, W>(
    m: Meaning<V, W>,
    p: Seq<InstV>,
    env: EnvV,
    sc: ScopeV,
    bound: nat,
    b: Code,
    b1: Code,
    obj: u32,
    cid: u32,
    method: Seq<char>,
    args: Seq<ExprV>,
    s: State<V, W>,
    t1: State<V, W>,
) -> (t: State<V, W>)
    requires
        dispatched(exprs_below(env, sc, bound), env, b1, obj, cid, method, args) is Ok,
        !(dispatched(exprs_below(env, sc, bound), env, b1, obj, cid, method, args)->Ok_0.0).full,
        starts_with(
            p,
            dispatched(exprs_below(env, sc, bound), env, b1, obj, cid, method, args)->Ok_0.0,
        ),
        fits(sc, b),
        ran_through(m, p, b, b1, s, t1),
        b.regs <= b1.regs,
        obj < b1.regs,
        class_at(env, cid) is Some,
        target(class_at(env, cid)->0, method) is Unknown ==> collection_method(method) is Some
            && !moves_key(collection_method(method)->0),
        eval_all(m, env, sc, s.regs, t1.world, args) is Some,
    ensures
        ({
            let (b2, r) = dispatched(
                exprs_below(env, sc, bound),
                env,
                b1,
                obj,
                cid,
                method,
                args,
            )->Ok_0;
            let (w, vs) = eval_all(m, env, sc, s.regs, t1.world, args)->0;
            let o = (t1.regs)(obj);
            let v = match target(class_at(env, cid)->0, method) {
                Target::Unknown => call_collection(m, w, collection_method(method)->0, o, vs),
                to => call_method(m, w, to, o, vs),
            };
            v is Some && computed(m, p, b, b2, r, s, t, v->0)
        }),
    decreases bound, 3nat, 0nat,
{
    reveal(dispatched);
    let f = exprs_below(env, sc, bound);
    let (b2, regs) = args_code(f, b1, args)->Ok_0;
    let (w, vs) = eval_all(m, env, sc, s.regs, t1.world, args)->0;
    let to = target(class_at(env, cid)->0, method);
    let i = match to {
        Target::Virtual(vslot) => InstV::CallVirtual {
            obj,
            vslot,
            args: seq![obj] + regs,
            ret: b2.regs,
        },
        Target::Direct(func) => InstV::Call { func, args: seq![obj] + regs, ret: b2.regs },
        Target::Unknown => InstV::CollMethod {
            dst: b2.regs,
            base: obj,
            op: collection_method(method)->0,
            args: regs,
        },
    };
    lemma_below(env, sc, bound);
    lemma_args(f, b1, args);
    lemma_starts(p, b2, emit(with_reg(b2), i));
    lemma_starts(p, b1, b2);
    lemma_all_same(m, env, sc, s.regs, t1.regs, b, t1.world, args);
    let t2 = lemma_all(m, p, env, sc, bound, b1, args, t1);
    lemma_then(m, p, b, b1, b2, s, t1, t2);
    assert((t2.regs)(obj) == (t1.regs)(obj));
    match to {
        Target::Unknown => lemma_collection(
            m,
            p,
            env,
            sc,
            bound,
            b,
            b1,
            obj,
            collection_method(method)->0,
            args,
            s,
            t1,
        ),
        _ => lemma_called(m, p, b, b2, i, s, t2, to, obj, regs, vs),
    }
}

/// A call on an object that is neither a known collection nor built in runs.
proof fn lemma_object<V, W>(
    m: Meaning<V, W>,
    p: Seq<InstV>,
    env: EnvV,
    sc: ScopeV,
    bound: nat,
    b: Code,
    b0: Code,
    obj: ExprV,
    method: Seq<char>,
    args: Seq<ExprV>,
    s: State<V, W>,
    s0: State<V, W>,
) -> (t: State<V, W>)
    requires
        object_call(exprs_below(env, sc, bound), env, sc, b0, obj, method, args) is Ok,
        !(object_call(exprs_below(env, sc, bound), env, sc, b0, obj, method, args)->Ok_0.0).full,
        starts_with(
            p,
            object_call(exprs_below(env, sc, bound), env, sc, b0, obj, method, args)->Ok_0.0,
        ),
        fits(sc, b),
        ran_through(m, p, b, b0, s, s0),
        b.regs <= b0.regs,
        s0.world == s.world,
        obj != ExprV::Ref("super"@),
        !(collection_of(env, sc, obj) is Some && collection_method(method) is Some),
        !(obj is Ref && is_builtin(method, args.len())),
        eval(
            m,
            env,
            sc,
            s.regs,
            s.world,
            ExprV::MethodCall { obj: Box::new(obj), method, args },
        ) is Some,
    ensures
        ({
            let (b2, r) = object_call(
                exprs_below(env, sc, bound),
                env,
                sc,
                b0,
                obj,
                method,
                args,
            )->Ok_0;
            let e = ExprV::MethodCall { obj: Box::new(obj), method, args };
            computed(m, p, b, b2, r, s, t, eval(m, env, sc, s.regs, s.world, e)->0)
        }),
    decreases bound, 4nat, 0nat,
{
    reveal(object_call);
    let f = exprs_below(env, sc, bound);
    let (b1, reg) = f(b0, obj)->Ok_0;
    let e = ExprV::MethodCall { obj: Box::new(obj), method, args };
    lemma_part(env, sc, bound, b0, obj);
    let b2 = object_call(f, env, sc, b0, obj, method, args)->Ok_0.0;
    lemma_starts_regs(b0, b1);
    let (w1, o) = eval(m, env, sc, s.regs, s.world, obj)->0;
    lemma_eval_same(m, env, sc, s.regs, s0.regs, b, s.world, obj);
    lemma_below(env, sc, bound);
    lemma_args(f, b1, args);
    if obj is Ref && class_of(env, sc, obj) is None {
        let op = collection_method(method)->0;
        let (b3, regs) = args_code(f, b1, args)->Ok_0;
        lemma_starts(p, b3, b2);
        lemma_starts(p, b1, b3);
        let t0 = lemma_sub(m, p, env, sc, bound, b0, obj, s0);
        lemma_then(m, p, b, b0, b1, s, s0, t0);
        lemma_collection(m, p, env, sc, bound, b, b1, reg, op, args, s, t0)
    } else {
        let cid = receiver(env, sc, obj)->Ok_0;
        assert(linked(b1, b2)) by {
            reveal(dispatched);
        }
        lemma_starts(p, b1, b2);
        let t0 = lemma_sub(m, p, env, sc, bound, b0, obj, s0);
        lemma_then(m, p, b, b0, b1, s, s0, t0);
        lemma_dispatched(m, p, env, sc, bound, b, b1, reg, cid, method, args, s, t0)
    }
}

/// The names of built-in methods differ.
proof fn lemma_words(method: Seq<char>)
    ensures
        method == "name"@ ==> string_act(method) is None && method != "itoa"@ && method != "substr"@,
        string_act(method) is Some ==> method != "itoa"@ && method != "substr"@,
        method == "itoa"@ ==> method != "substr"@,
{
    reveal_strlit("name");
    reveal_strlit("len");
    reveal_strlit("toupper");
    reveal_strlit("tolower");
    reveal_strlit("atoi");
    reveal_strlit("atoreal");
    reveal_strlit("itoa");
    reveal_strlit("substr");
    assert("name"@[0] == 'n');
    assert("len"@[0] == 'l');
    assert("toupper"@[0] == 't');
    assert("tolower"@[0] == 't');
    assert("atoi"@[0] == 'a');
    assert("atoreal"@[0] == 'a');
    assert("itoa"@[0] == 'i');
    assert("substr"@[0] == 's');
}

/// A method call runs.
proof fn lemma_method<V, W>(
    m: Meaning<V, W>,
    p: Seq<InstV>,
    env: EnvV,
    sc: ScopeV,
    bound: nat,
    b: Code,
    obj: ExprV,
    method: Seq<char>,
    args: Seq<ExprV>,
    s: State<V, W>,
) -> (t: State<V, W>)
    requires
        method_code(exprs_below(env, sc, bound), env, sc, b, obj, method, args) is Ok,
        !(method_code(exprs_below(env, sc, bound), env, sc, b, obj, method, args)->Ok_0.0).full,
        starts_with(p, method_code(exprs_below(env, sc, bound), env, sc, b, obj, method, args)->Ok_0.0),
        fits(sc, b),
        stands(b, s),
        eval(m, env, sc, s.regs, s.world, ExprV::MethodCall { obj: Box::new(obj), method, args }) is Some,
    ensures
        ({
            let (b1, r) = method_code(exprs_below(env, sc, bound), env, sc, b, obj, method, args)->Ok_0;
            computed(m, p, b, b1, r, s, t, eval(m, env, sc, s.regs, s.world, ExprV::MethodCall { obj: Box::new(obj), method, args })->0)
        }),
    decreases bound, 6nat, 0nat,
{
    reveal(method_code);
    let f = exprs_below(env, sc, bound);
    lemma_below(env, sc, bound);
    lemma_stays(m, p, s);
    let end = method_code(f, env, sc, b, obj, method, args)->Ok_0.0;
    if obj == ExprV::Ref("super"@) {
        let func = super_function(env, sc, method)->Ok_0;
        let (b1, regs) = args_code(f, b, args)->Ok_0;
        let (w1, vs) = eval_all(m, env, sc, s.regs, s.world, args)->0;
        let i = InstV::Call { func, args: seq![sc.this_reg] + regs, ret: b1.regs };
        lemma_args(f, b, args);
        lemma_starts(p, b1, end);
        let t1 = lemma_all(m, p, env, sc, bound, b, args, s);
        assert((t1.regs)(sc.this_reg) == (s.regs)(sc.this_reg));
        lemma_called(
            m,
            p,
            b,
            b1,
            i,
            s,
            t1,
            Target::Direct(func),
            sc.this_reg,
            regs,
            vs,
        )
    } else if collection_of(env, sc, obj) is Some && collection_method(method) is Some {
        let op = collection_method(method)->0;
        let (b1, base) = f(b, obj)->Ok_0;
        let (b3, regs) = args_code(f, b1, args)->Ok_0;
        lemma_part(env, sc, bound, b, obj);
        lemma_args(f, b1, args);
        lemma_starts(p, b3, end);
        lemma_starts(p, b1, b3);
        lemma_starts(p, b, b1);
        let t0 = lemma_sub(m, p, env, sc, bound, b, obj, s);
        lemma_collection(m, p, env, sc, bound, b, b1, base, op, args, s, t0)
    } else {
        lemma_builtin(m, p, env, sc, bound, b, obj, method, args, s)
    }
}

proof fn lemma_builtin<V, W>(
    m: Meaning<V, W>,
    p: Seq<InstV>,
    env: EnvV,
    sc: ScopeV,
    bound: nat,
    b: Code,
    obj: ExprV,
    method: Seq<char>,
    args: Seq<ExprV>,
    s: State<V, W>,
) -> (t: State<V, W>)
    requires
        obj != ExprV::Ref("super"@),
        !(collection_of(env, sc, obj) is Some && collection_method(method) is Some),
        method_code(exprs_below(env, sc, bound), env, sc, b, obj, method, args) is Ok,
        !(method_code(exprs_below(env, sc, bound), env, sc, b, obj, method, args)->Ok_0.0).full,
        starts_with(p, method_code(exprs_below(env, sc, bound), env, sc, b, obj, method, args)->Ok_0.0),
        fits(sc, b),
        stands(b, s),
        eval(m, env, sc, s.regs, s.world, ExprV::MethodCall { obj: Box::new(obj), method, args }) is Some,
    ensures
        ({
            let (b1, r) = method_code(exprs_below(env, sc, bound), env, sc, b, obj, method, args)->Ok_0;
            computed(m, p, b, b1, r, s, t, eval(m, env, sc, s.regs, s.world, ExprV::MethodCall { obj: Box::new(obj), method, args })->0)
        }),
    decreases bound, 5nat, 0nat,
{
    reveal(method_code);
    reveal(builtin_code);
    reveal(string_code);
    reveal(string_method);
    let f = exprs_below(env, sc, bound);
    lemma_below(env, sc, bound);
    lemma_stays(m, p, s);
    let (end, r) = method_code(f, env, sc, b, obj, method, args)->Ok_0;
    let (b1, o) = builtin_code(f, env, sc, b, obj, method, args)->Ok_0;
    lemma_words(method);
    match obj {
        ExprV::Ref(name) => {
            lemma_ref(env, sc, b, name);
            assert(eval(m, env, sc, s.regs, s.world, obj) == eval_name(
                m,
                env,
                sc,
                s.regs,
                s.world,
                name,
            ));
            assert(ref_code(env, sc, b, name) == f(b, obj) || f(b, obj) is Err || !(1 < bound)) by {
                reveal(exprs_below);
                lemma_expr_code(env, sc, b, obj);
            }
            if is_builtin(method, args.len()) {
                if method != "name"@ {
                    let (b2, src) = ref_code(env, sc, b, name)->Ok_0;
                    let i = string_inst(method, b2.regs, src)->0;
                    lemma_starts(p, b2, end);
                    lemma_starts_regs(b, b2);
                    let t0 = lemma_name(m, p, env, sc, b, name, s);
                    assert(values(t0.regs, seq![src]) =~= seq![(t0.regs)(src)]);
                    lemma_last(m, p, b, b2, i, s, t0, seq![(t0.regs)(src)])
                } else {
                    let (b2, src) = ref_code(env, sc, b, name)->Ok_0;
                    let i = InstV::EnumName {
                        dst: b2.regs,
                        src,
                        table: lookup(sc.enums, name)->0,
                    };
                    lemma_starts(p, b2, end);
                    lemma_starts_regs(b, b2);
                    let t0 = lemma_name(m, p, env, sc, b, name, s);
                    assert(values(t0.regs, seq![src]) =~= seq![(t0.regs)(src)]);
                    lemma_last(m, p, b, b2, i, s, t0, seq![(t0.regs)(src)])
                }
            } else {
                assert(o is None);
                reveal(object_call);
                let (b2, reg) = f(b1, obj)->Ok_0;
                lemma_part(env, sc, bound, b1, obj);
                lemma_args(f, b2, args);
                assert(linked(b1, end)) by {
                    reveal(object_call);
                    reveal(dispatched);
                    assert(linked(b2, end));
                }
                lemma_starts(p, b1, end);
                if b1 == b {
                    lemma_object(m, p, env, sc, bound, b, b1, obj, method, args, s, s)
                } else {
                    reveal(ref_code);
                    let slot = (lookup((own_class(env, sc)->0).field_slot, name)->0).0;
                    let i = InstV::GetField { dst: b.regs, obj: sc.this_reg, slot };
                    let t0 = lemma_new(m, p, b, i, s);
                    lemma_object(m, p, env, sc, bound, b, b1, obj, method, args, s, t0)
                }
            }
        },
        _ => {
            assert(builtin_code(f, env, sc, b, obj, method, args) == Ok::<(Code, Option<u32>), Seq<char>>((b, None)));
            lemma_object(m, p, env, sc, bound, b, b, obj, method, args, s, s)
        },
    }
}

/// A scoped call runs.
proof fn lemma_static_call<V, W>(
    m: Meaning<V, W>,
    p: Seq<InstV>,
    env: EnvV,
    sc: ScopeV,
    bound: nat,
    b: Code,
    class_name: Seq<char>,
    class_args: Seq<TypeRefV>,
    method: Seq<char>,
    args: Seq<ExprV>,
    s: State<V, W>,
) -> (t: State<V, W>)
    requires
        static_call_code(exprs_below(env, sc, bound), env, sc, b, class_name, method, args) is Ok,
        !(static_call_code(exprs_below(env, sc, bound), env, sc, b, class_name, method, args)->Ok_0.0).full,
        starts_with(p, static_call_code(exprs_below(env, sc, bound), env, sc, b, class_name, method, args)->Ok_0.0),
        fits(sc, b),
        stands(b, s),
        eval(m, env, sc, s.regs, s.world, ExprV::StaticCall { class_name, class_args, method, args }) is Some,
    ensures
        ({
            let (b1, r) = static_call_code(exprs_below(env, sc, bound), env, sc, b, class_name, method, args)->Ok_0;
            computed(m, p, b, b1, r, s, t, eval(m, env, sc, s.regs, s.world, ExprV::StaticCall { class_name, class_args, method, args })->0)
        }),
    decreases bound, 3nat, 0nat,
{
    reveal(static_call_code);
    let f = exprs_below(env, sc, bound);
    lemma_below(env, sc, bound);
    lemma_stays(m, p, s);
    assert(values(s.regs, Seq::<u32>::empty()) =~= Seq::<V>::empty());
    let end = static_call_code(f, env, sc, b, class_name, method, args)->Ok_0.0;
    match class_named(env, sc, class_name) {
        Some(cid) => {
            let func = lookup((class_at(env, cid)->0).methods, method)->0;
            let b0 = loaded(b, ValueV::Null);
            let (b1, regs) = args_code(f, b0, args)->Ok_0;
            let (w1, vs) = eval_all(m, env, sc, s.regs, s.world, args)->0;
            lemma_args(f, b0, args);
            lemma_starts(p, b1, end);
            lemma_starts(p, b0, b1);
            let t0 = lemma_new(m, p, b, InstV::Load { dst: b.regs, value: ValueV::Null }, s);
            lemma_all_same(m, env, sc, s.regs, t0.regs, b, t0.world, args);
            let t1 = lemma_all(m, p, env, sc, bound, b0, args, t0);
            lemma_then(m, p, b, b0, b1, s, t0, t1);
            assert((t1.regs)(b.regs) == (t0.regs)(b.regs));
            let i = InstV::Call { func, args: seq![b.regs] + regs, ret: b1.regs };
            lemma_called(m, p, b, b1, i, s, t1, Target::Direct(func), b.regs, regs, vs)
        },
        None => if lookup(env.funcs, method) is Some {
            let func = lookup(env.funcs, method)->0;
            let (b1, regs) = args_code(f, b, args)->Ok_0;
            let (w1, vs) = eval_all(m, env, sc, s.regs, s.world, args)->0;
            let i = InstV::Call { func, args: regs, ret: b1.regs };
            lemma_args(f, b, args);
            lemma_starts(p, b1, end);
            let t1 = lemma_all(m, p, env, sc, bound, b, args, s);
            lemma_last(m, p, b, b1, i, s, t1, vs)
        } else if lookup(env.vars, method) is Some {
            let id = lookup(env.vars, method)->0;
            lemma_last(m, p, b, b, InstV::StaticGet { dst: b.regs, id }, s, s, seq![])
        } else {
            let i = InstV::Load { dst: b.regs, value: ValueV::Null };
            lemma_last(m, p, b, b, i, s, s, seq![])
        },
    }
}

/// Reading a scoped name runs.
proof fn lemma_static_ref<V, W>(
    m: Meaning<V, W>,
    p: Seq<InstV>,
    env: EnvV,
    sc: ScopeV,
    bound: nat,
    b: Code,
    class_name: Seq<char>,
    field: Seq<char>,
    s: State<V, W>,
) -> (t: State<V, W>)
    requires
        static_ref_code(env, sc, b, class_name, field) is Ok,
        !(static_ref_code(env, sc, b, class_name, field)->Ok_0.0).full,
        starts_with(p, static_ref_code(env, sc, b, class_name, field)->Ok_0.0),
        fits(sc, b),
        stands(b, s),
        eval(m, env, sc, s.regs, s.world, ExprV::StaticRef { class_name, field }) is Some,
    ensures
        ({
            let (b1, r) = static_ref_code(env, sc, b, class_name, field)->Ok_0;
            computed(m, p, b, b1, r, s, t, eval(m, env, sc, s.regs, s.world, ExprV::StaticRef { class_name, field })->0)
        }),
    decreases bound, 3nat, 0nat,
{
    reveal(static_ref_code);
    lemma_stays(m, p, s);
    assert(values(s.regs, Seq::<u32>::empty()) =~= Seq::<V>::empty());
    let own = match class_named(env, sc, class_name) {
        Some(cid) => match class_at(env, cid) {
            Some(c) => lookup(c.static_fields, field),
            None => None,
        },
        None => None,
    };
    if lookup(env.vars, field) is Some {
        let id = lookup(env.vars, field)->0;
        lemma_last(m, p, b, b, InstV::StaticGet { dst: b.regs, id }, s, s, seq![])
    } else if lookup(env.consts, field) is Some {
        let value = ValueV::Logic(lookup(env.consts, field)->0);
        lemma_last(m, p, b, b, InstV::Load { dst: b.regs, value }, s, s, seq![])
    } else if own is Some {
        lemma_last(m, p, b, b, InstV::StaticGet { dst: b.regs, id: own->0 }, s, s, seq![])
    } else if lookup(env.consts, class_name) is Some {
        let value = ValueV::Logic(lookup(env.consts, class_name)->0);
        lemma_last(m, p, b, b, InstV::Load { dst: b.regs, value }, s, s, seq![])
    } else {
        let b0 = with_reg(b);
        let (b1, r) = ref_code(env, sc, b0, field)->Ok_0;
        lemma_ref(env, sc, b0, field);
        lemma_starts(p, b0, b1);
        let t = lemma_name(m, p, env, sc, b0, field, s);
        lemma_then(m, p, b, b0, b1, s, s, t);
        t
    }
}

/// Reading a field runs.
proof fn lemma_field<V, W>(
    m: Meaning<V, W>,
    p: Seq<InstV>,
    env: EnvV,
    sc: ScopeV,
    bound: nat,
    b: Code,
    obj: ExprV,
    field: Seq<char>,
    s: State<V, W>,
) -> (t: State<V, W>)
    requires
        field_code(exprs_below(env, sc, bound), env, sc, b, obj, field) is Ok,
        !(field_code(exprs_below(env, sc, bound), env, sc, b, obj, field)->Ok_0.0).full,
        starts_with(p, field_code(exprs_below(env, sc, bound), env, sc, b, obj, field)->Ok_0.0),
        fits(sc, b),
        stands(b, s),
        eval(m, env, sc, s.regs, s.world, ExprV::Field { obj: Box::new(obj), field }) is Some,
    ensures
        ({
            let (b1, r) = field_code(exprs_below(env, sc, bound), env, sc, b, obj, field)->Ok_0;
            computed(m, p, b, b1, r, s, t, eval(m, env, sc, s.regs, s.world, ExprV::Field { obj: Box::new(obj), field })->0)
        }),
    decreases bound, 3nat, 0nat,
{
    reveal(field_code);
    let f = exprs_below(env, sc, bound);
    let (b1, reg) = f(b, obj)->Ok_0;
    let end = field_code(f, env, sc, b, obj, field)->Ok_0.0;
    lemma_part(env, sc, bound, b, obj);
    lemma_starts(p, b1, end);
    lemma_starts(p, b, b1);
    let t1 = lemma_sub(m, p, env, sc, bound, b, obj, s);
    assert(values(t1.regs, Seq::<u32>::empty()) =~= Seq::<V>::empty());
    assert(values(t1.regs, seq![reg]) =~= seq![(t1.regs)(reg)]);
    let cid = receiver(env, sc, obj)->Ok_0;
    let c = class_at(env, cid)->0;
    if lookup(c.field_slot, field) is Some {
        let slot = (lookup(c.field_slot, field)->0).0;
        let i = InstV::GetField { dst: b1.regs, obj: reg, slot };
        lemma_last(m, p, b, b1, i, s, t1, seq![(t1.regs)(reg)])
    } else {
        let i = InstV::StaticGet { dst: b1.regs, id: lookup(c.static_fields, field)->0 };
        lemma_last(m, p, b, b1, i, s, t1, seq![])
    }
}

/// A system function runs.
proof fn lemma_sys<V, W>(
    m: Meaning<V, W>,
    p: Seq<InstV>,
    env: EnvV,
    sc: ScopeV,
    bound: nat,
    b: Code,
    name: Seq<char>,
    args: Seq<ExprV>,
    s: State<V, W>,
) -> (t: State<V, W>)
    requires
        sys_func_code(exprs_below(env, sc, bound), env, sc, b, name, args) is Ok,
        !(sys_func_code(exprs_below(env, sc, bound), env, sc, b, name, args)->Ok_0.0).full,
        starts_with(p, sys_func_code(exprs_below(env, sc, bound), env, sc, b, name, args)->Ok_0.0),
        fits(sc, b),
        stands(b, s),
        eval(m, env, sc, s.regs, s.world, ExprV::SysCall { name, args }) is Some,
    ensures
        ({
            let (b1, r) = sys_func_code(exprs_below(env, sc, bound), env, sc, b, name, args)->Ok_0;
            computed(m, p, b, b1, r, s, t, eval(m, env, sc, s.regs, s.world, ExprV::SysCall { name, args })->0)
        }),
    decreases bound, 3nat, 0nat,
{
    reveal(sys_func_code);
    let f = exprs_below(env, sc, bound);
    lemma_below(env, sc, bound);
    lemma_stays(m, p, s);
    assert(values(s.regs, Seq::<u32>::empty()) =~= Seq::<V>::empty());
    let end = sys_func_code(f, env, sc, b, name, args)->Ok_0.0;
    if name == "$sformatf"@ || name == "$psprintf"@ {
        let given = formatted(args);
        let (b1, regs) = args_code(f, b, given)->Ok_0;
        let i = InstV::Format { dst: b1.regs, fmt: format_of(args), args: regs };
        lemma_args(f, b, given);
        lemma_starts(p, b1, end);
        let t1 = lemma_all(m, p, env, sc, bound, b, given, s);
        lemma_last(
            m,
            p,
            b,
            b1,
            i,
            s,
            t1,
            (eval_all(m, env, sc, s.regs, s.world, given)->0).1,
        )
    } else if name == "$realtime"@ || name == "$time"@ || name == "$stime"@ {
        lemma_last(m, p, b, b, InstV::SimTime { dst: b.regs }, s, s, seq![])
    } else {
        let (b1, regs) = args_code(f, b, args)->Ok_0;
        let value = ValueV::Logic(fill(Bit::Zero, 32));
        lemma_args(f, b, args);
        lemma_starts(p, b1, end);
        let t1 = lemma_all(m, p, env, sc, bound, b, args, s);
        assert(values(t1.regs, Seq::<u32>::empty()) =~= Seq::<V>::empty());
        lemma_last(m, p, b, b1, InstV::Load { dst: b1.regs, value }, s, t1, seq![])
    }
}

proof fn lemma_unary<V, W>(
    m: Meaning<V, W>,
    p: Seq<InstV>,
    env: EnvV,
    sc: ScopeV,
    b: Code,
    e: ExprV,
    s: State<V, W>,
) -> (t: State<V, W>)
    requires
        e is Unary,
        expr_code(env, sc, b, e) is Ok,
        !(expr_code(env, sc, b, e)->Ok_0.0).full,
        starts_with(p, expr_code(env, sc, b, e)->Ok_0.0),
        fits(sc, b),
        stands(b, s),
        eval(m, env, sc, s.regs, s.world, e) is Some,
    ensures
        ({
            let (b1, r) = expr_code(env, sc, b, e)->Ok_0;
            computed(m, p, b, b1, r, s, t, eval(m, env, sc, s.regs, s.world, e)->0)
        }),
    decreases esize(e), 8nat, 0nat,
{
    lemma_expr_code(env, sc, b, e);
    let bound = esize(e);
    let f = exprs_below(env, sc, bound);
    match e {
        ExprV::Unary { op, operand } => {
            let (b1, a) = f(b, *operand)->Ok_0;
            lemma_part(env, sc, bound, b, *operand);
            let i = unary_inst(op, b1.regs, a);
            lemma_starts(p, b1, emit(with_reg(b1), i));
            lemma_starts_regs(b, b1);
            let t1 = lemma_sub(m, p, env, sc, bound, b, *operand, s);
            assert(values(t1.regs, seq![a]) =~= seq![(t1.regs)(a)]);
            if op == UnaryOp::Plus {
                lemma_emitted(p, with_reg(b1), i);
                lemma_step(m, p, t1);
                let t2 = step(m, p, t1);
                lemma_then(m, p, b, b1, emit(with_reg(b1), i), s, t1, t2);
                t2
            } else {
                lemma_last(m, p, b, b1, i, s, t1, seq![(t1.regs)(a)])
            }
        },
        _ => s,
    }
}

proof fn lemma_binary<V, W>(
    m: Meaning<V, W>,
    p: Seq<InstV>,
    env: EnvV,
    sc: ScopeV,
    b: Code,
    e: ExprV,
    s: State<V, W>,
) -> (t: State<V, W>)
    requires
        e is Binary,
        expr_code(env, sc, b, e) is Ok,
        !(expr_code(env, sc, b, e)->Ok_0.0).full,
        starts_with(p, expr_code(env, sc, b, e)->Ok_0.0),
        fits(sc, b),
        stands(b, s),
        eval(m, env, sc, s.regs, s.world, e) is Some,
    ensures
        ({
            let (b1, r) = expr_code(env, sc, b, e)->Ok_0;
            computed(m, p, b, b1, r, s, t, eval(m, env, sc, s.regs, s.world, e)->0)
        }),
    decreases esize(e), 8nat, 0nat,
{
    lemma_expr_code(env, sc, b, e);
    let bound = esize(e);
    let f = exprs_below(env, sc, bound);
    match e {
        ExprV::Binary { op, lhs, rhs } => {
            let (b1, x, y) = two(f, b, *lhs, *rhs)->Ok_0;
            let i = InstV::Binary { op, dst: b1.regs, a: x, b: y };
            lemma_starts(p, b1, emit(with_reg(b1), i));
            let t1 = lemma_two(m, p, env, sc, bound, b, *lhs, *rhs, s);
            assert(values(t1.regs, seq![x, y]) =~= seq![(t1.regs)(x), (t1.regs)(y)]);
            lemma_last(m, p, b, b1, i, s, t1, seq![(t1.regs)(x), (t1.regs)(y)])
        },
        _ => s,
    }
}

proof fn lemma_index<V, W>(
    m: Meaning<V, W>,
    p: Seq<InstV>,
    env: EnvV,
    sc: ScopeV,
    b: Code,
    e: ExprV,
    s: State<V, W>,
) -> (t: State<V, W>)
    requires
        e is Index,
        expr_code(env, sc, b, e) is Ok,
        !(expr_code(env, sc, b, e)->Ok_0.0).full,
        starts_with(p, expr_code(env, sc, b, e)->Ok_0.0),
        fits(sc, b),
        stands(b, s),
        eval(m, env, sc, s.regs, s.world, e) is Some,
    ensures
        ({
            let (b1, r) = expr_code(env, sc, b, e)->Ok_0;
            computed(m, p, b, b1, r, s, t, eval(m, env, sc, s.regs, s.world, e)->0)
        }),
    decreases esize(e), 8nat, 0nat,
{
    lemma_expr_code(env, sc, b, e);
    let bound = esize(e);
    let f = exprs_below(env, sc, bound);
    match e {
        ExprV::Index { base, index } => {
            reveal(index_code);
            let (b1, x, y) = two(f, b, *base, *index)->Ok_0;
            let of_string = match *base {
                ExprV::Ref(name) => plain_local(sc, name),
                _ => false,
            };
            let i = if of_string {
                InstV::StringIndex { dst: b1.regs, src: x, idx: y }
            } else {
                InstV::IndexGet { dst: b1.regs, base: x, idx: y }
            };
            lemma_starts(p, b1, emit(with_reg(b1), i));
            let t1 = lemma_two(m, p, env, sc, bound, b, *base, *index, s);
            assert(values(t1.regs, seq![x, y]) =~= seq![(t1.regs)(x), (t1.regs)(y)]);
            lemma_last(m, p, b, b1, i, s, t1, seq![(t1.regs)(x), (t1.regs)(y)])
        },
        _ => s,
    }
}

proof fn lemma_part_select<V, W>(
    m: Meaning<V, W>,
    p: Seq<InstV>,
    env: EnvV,
    sc: ScopeV,
    b: Code,
    e: ExprV,
    s: State<V, W>,
) -> (t: State<V, W>)
    requires
        e is PartSelect,
        expr_code(env, sc, b, e) is Ok,
        !(expr_code(env, sc, b, e)->Ok_0.0).full,
        starts_with(p, expr_code(env, sc, b, e)->Ok_0.0),
        fits(sc, b),
        stands(b, s),
        eval(m, env, sc, s.regs, s.world, e) is Some,
    ensures
        ({
            let (b1, r) = expr_code(env, sc, b, e)->Ok_0;
            computed(m, p, b, b1, r, s, t, eval(m, env, sc, s.regs, s.world, e)->0)
        }),
    decreases esize(e), 8nat, 0nat,
{
    lemma_expr_code(env, sc, b, e);
    let bound = esize(e);
    let f = exprs_below(env, sc, bound);
    match e {
        ExprV::PartSelect { base, left, right } => {
            let (b1, x, y) = two(f, b, *base, *left)->Ok_0;
            let (b2, z) = f(b1, *right)->Ok_0;
            let i = InstV::PartSelect { dst: b2.regs, base: x, left: y, right: z };
            lemma_part(env, sc, bound, b1, *right);
            lemma_starts(p, b2, emit(with_reg(b2), i));
            lemma_starts(p, b1, b2);
            let t1 = lemma_two(m, p, env, sc, bound, b, *base, *left, s);
            lemma_eval_same(m, env, sc, s.regs, t1.regs, b, t1.world, *right);
            let t2 = lemma_sub(m, p, env, sc, bound, b1, *right, t1);
            lemma_then(m, p, b, b1, b2, s, t1, t2);
            assert((t2.regs)(x) == (t1.regs)(x) && (t2.regs)(y) == (t1.regs)(y));
            let vs = seq![(t2.regs)(x), (t2.regs)(y), (t2.regs)(z)];
            assert(values(t2.regs, seq![x, y, z]) =~= vs);
            lemma_last(m, p, b, b2, i, s, t2, vs)
        },
        _ => s,
    }
}

proof fn lemma_concat<V, W>(
    m: Meaning<V, W>,
    p: Seq<InstV>,
    env: EnvV,
    sc: ScopeV,
    b: Code,
    e: ExprV,
    s: State<V, W>,
) -> (t: State<V, W>)
    requires
        e is Concat,
        expr_code(env, sc, b, e) is Ok,
        !(expr_code(env, sc, b, e)->Ok_0.0).full,
        starts_with(p, expr_code(env, sc, b, e)->Ok_0.0),
        fits(sc, b),
        stands(b, s),
        eval(m, env, sc, s.regs, s.world, e) is Some,
    ensures
        ({
            let (b1, r) = expr_code(env, sc, b, e)->Ok_0;
            computed(m, p, b, b1, r, s, t, eval(m, env, sc, s.regs, s.world, e)->0)
        }),
    decreases esize(e), 8nat, 0nat,
{
    lemma_expr_code(env, sc, b, e);
    let bound = esize(e);
    let f = exprs_below(env, sc, bound);
    match e {
        ExprV::Concat(parts) => {
            let (b1, regs) = args_code(f, b, parts)->Ok_0;
            let i = InstV::Concat { dst: b1.regs, args: regs };
            lemma_below(env, sc, bound);
            lemma_args(f, b, parts);
            lemma_starts(p, b1, emit(with_reg(b1), i));
            let t1 = lemma_all(m, p, env, sc, bound, b, parts, s);
            lemma_last(
                m,
                p,
                b,
                b1,
                i,
                s,
                t1,
                (eval_all(m, env, sc, s.regs, s.world, parts)->0).1,
            )
        },
        _ => s,
    }
}

pub proof fn lemma_expr<V, W>(
    m: Meaning<V, W>,
    p: Seq<InstV>,
    env: EnvV,
    sc: ScopeV,
    b: Code,
    e: ExprV,
    s: State<V, W>,
) -> (t: State<V, W>)
    requires
        expr_code(env, sc, b, e) is Ok,
        !(expr_code(env, sc, b, e)->Ok_0.0).full,
        starts_with(p, expr_code(env, sc, b, e)->Ok_0.0),
        fits(sc, b),
        stands(b, s),
        eval(m, env, sc, s.regs, s.world, e) is Some,
    ensures
        ({
            let (b1, r) = expr_code(env, sc, b, e)->Ok_0;
            computed(m, p, b, b1, r, s, t, eval(m, env, sc, s.regs, s.world, e)->0)
        }),
    decreases esize(e), 9nat, 0nat,
{
    lemma_expr_code(env, sc, b, e);
    lemma_stays(m, p, s);
    assert(values(s.regs, Seq::<u32>::empty()) =~= Seq::<V>::empty());
    let bound = esize(e);
    let f = exprs_below(env, sc, bound);
    let end = expr_code(env, sc, b, e)->Ok_0.0;
    match e {
        ExprV::Literal(bits) => {
            let i = InstV::Load { dst: b.regs, value: ValueV::Logic(bits) };
            lemma_last(m, p, b, b, i, s, s, seq![])
        },
        ExprV::Str(text) => {
            let i = InstV::Load { dst: b.regs, value: ValueV::Str(text) };
            lemma_last(m, p, b, b, i, s, s, seq![])
        },
        ExprV::Null => {
            let i = InstV::Load { dst: b.regs, value: ValueV::Null };
            lemma_last(m, p, b, b, i, s, s, seq![])
        },
        ExprV::Ref(name) => lemma_name(m, p, env, sc, b, name, s),
        ExprV::Unary { op, operand } => lemma_unary(m, p, env, sc, b, e, s),
        ExprV::Binary { op, lhs, rhs } => lemma_binary(m, p, env, sc, b, e, s),
        ExprV::Call { name, args } => lemma_call(m, p, env, sc, bound, b, name, args, s),
        ExprV::MethodCall { obj, method, args } => lemma_method(
            m,
            p,
            env,
            sc,
            bound,
            b,
            *obj,
            method,
            args,
            s,
        ),
        ExprV::Field { obj, field } => lemma_field(m, p, env, sc, bound, b, *obj, field, s),
        ExprV::Index { base, index } => lemma_index(m, p, env, sc, b, e, s),
        ExprV::PartSelect { base, left, right } => lemma_part_select(m, p, env, sc, b, e, s),
        ExprV::StaticCall { class_name, class_args, method, args } => lemma_static_call(
            m,
            p,
            env,
            sc,
            bound,
            b,
            class_name,
            class_args,
            method,
            args,
            s,
        ),
        ExprV::StaticRef { class_name, field } => lemma_static_ref(
            m,
            p,
            env,
            sc,
            bound,
            b,
            class_name,
            field,
            s,
        ),
        ExprV::Concat(parts) => lemma_concat(m, p, env, sc, b, e, s),
        ExprV::SysCall { name, args } => lemma_sys(m, p, env, sc, bound, b, name, args, s),
        ExprV::New { args } => s,
    }
}

/// The code of an expression computes it: wherever it stands in a program, running it
/// leaves the value of the expression in its register and the world as the expression
/// leaves it, and no register that was in use before is touched.
pub proof fn expressions_compute<V, W>(
    m: Meaning<V, W>,
    p: Seq<InstV>,
    env: EnvV,
    sc: ScopeV,
    b: Code,
    e: ExprV,
    s: State<V, W>,
)
    requires
        expr_code(env, sc, b, e) is Ok,
        !(expr_code(env, sc, b, e)->Ok_0.0).full,
        starts_with(p, expr_code(env, sc, b, e)->Ok_0.0),
        fits(sc, b),
        stands(b, s),
        eval(m, env, sc, s.regs, s.world, e) is Some,
    ensures
        ({
            let (b1, r) = expr_code(env, sc, b, e)->Ok_0;
            let out = eval(m, env, sc, s.regs, s.world, e)->0;
            exists|t: State<V, W>| #[trigger] computed(m, p, b, b1, r, s, t, out)
        }),
{
    let t = lemma_expr(m, p, env, sc, b, e, s);
    let (b1, r) = expr_code(env, sc, b, e)->Ok_0;
    assert(computed(m, p, b, b1, r, s, t, eval(m, env, sc, s.regs, s.world, e)->0));
}

/// A call `obj.method(args)` of a method with a virtual slot in the static class of `obj`
/// is a call through that slot of the object in the register that `obj` is computed into,
/// with that object before the arguments, whatever function the static class itself has
/// for the method.
pub proof fn virtual_methods_are_dispatched(
    env: EnvV,
    sc: ScopeV,
    b: Code,
    obj: ExprV,
    method: Seq<char>,
    args: Seq<ExprV>,
    cid: u32,
    slot: u32,
) -> (r: (Code, Code, u32, Seq<u32>))
    requires
        expr_code(env, sc, b, ExprV::MethodCall { obj: Box::new(obj), method, args }) is Ok,
        obj != ExprV::Ref("super"@),
        obj is Ref ==> class_of(env, sc, obj) is Some && !is_builtin(method, args.len()),
        !(collection_of(env, sc, obj) is Some && collection_method(method) is Some),
        receiver(env, sc, obj) == Ok::<u32, Seq<char>>(cid),
        class_at(env, cid) matches Some(c) && lookup(c.vslot_of, method) == Some(slot),
    ensures
        ({
            let (b1, ret) = expr_code(
                env,
                sc,
                b,
                ExprV::MethodCall { obj: Box::new(obj), method, args },
            )->Ok_0;
            let (before, behind, reg, regs) = r;
            &&& expr_code(env, sc, before, obj) == Ok::<(Code, u32), Seq<char>>((behind, reg))
            &&& regs.len() == args.len()
            &&& b1.insts.len() > 0
            &&& b1.insts.last() == (InstV::CallVirtual {
                obj: reg,
                vslot: slot,
                args: seq![reg] + regs,
                ret,
            })
        }),
{
    let e = ExprV::MethodCall { obj: Box::new(obj), method, args };
    let bound = esize(e);
    let f = exprs_below(env, sc, bound);
    lemma_expr_code(env, sc, b, e);
    reveal(method_code);
    reveal(object_call);
    reveal(dispatched);
    lemma_words(method);
    let before = builtin_code(f, env, sc, b, obj, method, args)->Ok_0.0;
    assert(builtin_code(f, env, sc, b, obj, method, args)->Ok_0.1 is None) by {
        reveal(builtin_code);
        reveal(string_code);
        reveal(string_method);
    }
    let (behind, reg) = f(before, obj)->Ok_0;
    lemma_part(env, sc, bound, before, obj);
    let regs = args_code(f, behind, args)->Ok_0.1;
    lemma_args_len(f, behind, args);
    (before, behind, reg, regs)
}

proof fn lemma_args_len(f: spec_fn(Code, ExprV) -> Coded, b: Code, args: Seq<ExprV>)
    ensures
        args_code(f, b, args) is Ok ==> args_code(f, b, args)->Ok_0.1.len() == args.len(),
    decreases args.len(),
{
    if args.len() > 0 {
        lemma_args_len(f, b, args.drop_last());
    }
}

} // verus!
