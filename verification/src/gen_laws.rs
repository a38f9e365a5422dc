//! Laws of the code generator: code is only added, each label is bound once, and
//! each jump goes to a bound label.
use vstd::prelude::*;

use crate::ast_model::ExprV;
use crate::code_model::{
    group_code, lemma_bind, lemma_jump, lemma_label, lemma_same, lemma_then, linked,
};
use crate::gen_model::{
    args_code, assign_code, builtin_code, call_code, cast_code, collection_call, collection_method,
    dispatched, esize, expr_code, expr_with, exprs_below, field_code, formatted, index_code,
    lemma_expr_code, lemma_exprs_below, method_code, object_call, on_this, plain_call, ref_code,
    ref_name, static_call_code, static_ref_code, string_code, string_method, sys_func_code,
    this_call, Coded,
};
use crate::ir::{emit, loaded, with_label, with_reg, Code, CollOp, InstV, ValueV};
use crate::layout::{class_of, receiver, EnvV, ScopeV};

verus! {

broadcast use group_code;

// ---- expressions ----------------------------------------------------------------------

/// Whether compiling parts links.
pub open spec fn links(f: spec_fn(Code, ExprV) -> Coded) -> bool {
    forall|b: Code, e: ExprV| (#[trigger] f(b, e)) is Ok ==> linked(b, f(b, e)->Ok_0.0)
}

/// Whether code with a register links.
pub open spec fn coded(b: Code, r: Coded) -> bool {
    r is Ok ==> linked(b, r->Ok_0.0)
}

/// Arguments link.
pub proof fn lemma_args(f: spec_fn(Code, ExprV) -> Coded, b: Code, args: Seq<ExprV>)
    requires
        links(f),
    ensures
        args_code(f, b, args) is Ok ==> linked(b, args_code(f, b, args)->Ok_0.0),
    decreases args.len(),
{
    if args.len() == 0 {
        lemma_same(b);
    } else {
        lemma_args(f, b, args.drop_last());
    }
}

proof fn lemma_on_this(env: EnvV, sc: ScopeV, b: Code, method: Seq<char>, args: Seq<u32>)
    ensures
        coded(b, on_this(env, sc, b, method, args)),
{
    reveal(on_this);
}

/// Reading a name links.
pub proof fn lemma_ref(env: EnvV, sc: ScopeV, b: Code, name: Seq<char>)
    ensures
        coded(b, ref_code(env, sc, b, name)),
{
    reveal(ref_code);
    lemma_same(b);
    lemma_on_this(env, sc, b, name, seq![sc.this_reg]);
}

/// Writing a name links.
pub proof fn lemma_assign(env: EnvV, sc: ScopeV, b: Code, name: Seq<char>, src: u32, nonblocking: bool)
    ensures
        assign_code(env, sc, b, name, src, nonblocking) is Ok ==> linked(
            b,
            assign_code(env, sc, b, name, src, nonblocking)->Ok_0,
        ),
{
    reveal(assign_code);
}

proof fn lemma_static_ref(env: EnvV, sc: ScopeV, b: Code, class_name: Seq<char>, field: Seq<char>)
    ensures
        coded(b, static_ref_code(env, sc, b, class_name, field)),
{
    reveal(static_ref_code);
    lemma_ref(env, sc, with_reg(b), field);
}

/// A call links.
pub proof fn lemma_this_call(
    f: spec_fn(Code, ExprV) -> Coded,
    b: Code,
    this: u32,
    func: u32,
    args: Seq<ExprV>,
)
    requires
        links(f),
    ensures
        coded(b, this_call(f, b, this, func, args)),
        coded(b, plain_call(f, b, func, args)),
{
    lemma_args(f, b, args);
}

proof fn lemma_call(
    f: spec_fn(Code, ExprV) -> Coded,
    env: EnvV,
    sc: ScopeV,
    b: Code,
    name: Seq<char>,
    args: Seq<ExprV>,
)
    requires
        links(f),
    ensures
        coded(b, call_code(f, env, sc, b, name, args)),
{
    reveal(call_code);
    lemma_args(f, b, args);
    if args_code(f, b, args) is Ok {
        let (b1, regs) = args_code(f, b, args)->Ok_0;
        lemma_on_this(env, sc, b1, name, seq![sc.this_reg] + regs);
    }
}

proof fn lemma_collection(
    f: spec_fn(Code, ExprV) -> Coded,
    b: Code,
    base: u32,
    op: CollOp,
    args: Seq<ExprV>,
)
    requires
        links(f),
    ensures
        coded(b, collection_call(f, b, base, op, args)),
{
    lemma_args(f, b, args);
}

proof fn lemma_builtin(
    f: spec_fn(Code, ExprV) -> Coded,
    env: EnvV,
    sc: ScopeV,
    b: Code,
    obj: ExprV,
    method: Seq<char>,
    args: Seq<ExprV>,
)
    requires
        links(f),
    ensures
        builtin_code(f, env, sc, b, obj, method, args) is Ok ==> linked(
            b,
            builtin_code(f, env, sc, b, obj, method, args)->Ok_0.0,
        ),
{
    reveal(builtin_code);
    reveal(string_code);
    reveal(string_method);
    lemma_same(b);
    if let ExprV::Ref(name) = obj {
        lemma_ref(env, sc, b, name);
        if f(b, args[0]) is Ok {
            let (b1, value) = f(b, args[0])->Ok_0;
            let b2 = emit(
                with_reg(b1),
                InstV::Format { dst: b1.regs, fmt: "%0d"@, args: seq![value] },
            );
            lemma_assign(env, sc, b2, name, b1.regs, false);
        }
    }
    if string_code(env, sc, b, obj) is Ok {
        lemma_same(string_code(env, sc, b, obj)->Ok_0.0);
    }
}

proof fn lemma_dispatched(
    f: spec_fn(Code, ExprV) -> Coded,
    env: EnvV,
    b: Code,
    obj: u32,
    cid: u32,
    method: Seq<char>,
    args: Seq<ExprV>,
)
    requires
        links(f),
    ensures
        coded(b, dispatched(f, env, b, obj, cid, method, args)),
{
    reveal(dispatched);
    lemma_args(f, b, args);
}

proof fn lemma_object_call(
    f: spec_fn(Code, ExprV) -> Coded,
    env: EnvV,
    sc: ScopeV,
    b: Code,
    obj: ExprV,
    method: Seq<char>,
    args: Seq<ExprV>,
)
    requires
        links(f),
    ensures
        coded(b, object_call(f, env, sc, b, obj, method, args)),
{
    reveal(object_call);
    if f(b, obj) is Ok {
        let (b1, reg) = f(b, obj)->Ok_0;
        if collection_method(method) is Some {
            lemma_collection(f, b1, reg, collection_method(method)->0, args);
        }
        if receiver(env, sc, obj) is Ok {
            lemma_dispatched(
                f,
                env,
                b1,
                reg,
                receiver(env, sc, obj)->Ok_0,
                method,
                args,
            );
        }
    }
}

proof fn lemma_method(
    f: spec_fn(Code, ExprV) -> Coded,
    env: EnvV,
    sc: ScopeV,
    b: Code,
    obj: ExprV,
    method: Seq<char>,
    args: Seq<ExprV>,
)
    requires
        links(f),
    ensures
        coded(b, method_code(f, env, sc, b, obj, method, args)),
{
    reveal(method_code);
    lemma_args(f, b, args);
    lemma_builtin(f, env, sc, b, obj, method, args);
    if f(b, obj) is Ok && collection_method(method) is Some {
        let (b1, base) = f(b, obj)->Ok_0;
        lemma_collection(f, b1, base, collection_method(method)->0, args);
    }
    if builtin_code(f, env, sc, b, obj, method, args) is Ok {
        let b1 = builtin_code(f, env, sc, b, obj, method, args)->Ok_0.0;
        lemma_object_call(f, env, sc, b1, obj, method, args);
    }
}

proof fn lemma_field(
    f: spec_fn(Code, ExprV) -> Coded,
    env: EnvV,
    sc: ScopeV,
    b: Code,
    obj: ExprV,
    field: Seq<char>,
)
    requires
        links(f),
    ensures
        coded(b, field_code(f, env, sc, b, obj, field)),
{
    reveal(field_code);
}

proof fn lemma_static_call(
    f: spec_fn(Code, ExprV) -> Coded,
    env: EnvV,
    sc: ScopeV,
    b: Code,
    class_name: Seq<char>,
    method: Seq<char>,
    args: Seq<ExprV>,
)
    requires
        links(f),
    ensures
        coded(b, static_call_code(f, env, sc, b, class_name, method, args)),
{
    reveal(static_call_code);
    lemma_args(f, b, args);
    lemma_args(f, loaded(b, ValueV::Null), args);
}

/// A cast links.
pub proof fn lemma_cast(
    f: spec_fn(Code, ExprV) -> Coded,
    env: EnvV,
    sc: ScopeV,
    b: Code,
    args: Seq<ExprV>,
)
    requires
        links(f),
    ensures
        coded(b, cast_code(f, env, sc, b, args)),
{
    reveal(cast_code);
    if f(b, args[1]) is Ok {
        let (b0, src) = f(b, args[1])->Ok_0;
        let b1 = with_reg(b0);
        let ok = b0.regs;
        if let Some(name) = ref_name(args[0]) {
            lemma_assign(env, sc, b1, name, src, false);
            if let Some(class) = class_of(env, sc, args[0]) {
                let b2 = emit(b1, InstV::ClassCast { dst: ok, src, class });
                let done = b2.labels;
                let none = Set::<u32>::empty();
                let owed = none.insert(done);
                lemma_same(b2);
                lemma_label(b2, b2, none);
                let jump = InstV::BranchFalse { cond: ok, label: done };
                let b3 = emit(with_label(b2), jump);
                lemma_jump(b2, with_label(b2), owed, jump);
                lemma_assign(env, sc, b3, name, src, false);
                if assign_code(env, sc, b3, name, src, false) is Ok {
                    let b4 = assign_code(env, sc, b3, name, src, false)->Ok_0;
                    lemma_then(b2, b3, b4, owed);
                    lemma_bind(b2, b4, owed, done);
                    assert(owed.remove(done) =~= none);
                    assert(linked(b2, emit(b4, InstV::Bind { label: done })));
                }
            }
        }
    }
}

proof fn lemma_sys_func(
    f: spec_fn(Code, ExprV) -> Coded,
    env: EnvV,
    sc: ScopeV,
    b: Code,
    name: Seq<char>,
    args: Seq<ExprV>,
)
    requires
        links(f),
    ensures
        coded(b, sys_func_code(f, env, sc, b, name, args)),
{
    reveal(sys_func_code);
    lemma_args(f, b, args);
    lemma_args(f, b, formatted(args));
    lemma_cast(f, env, sc, b, args);
}

proof fn lemma_expr_with(
    f: spec_fn(Code, ExprV) -> Coded,
    env: EnvV,
    sc: ScopeV,
    b: Code,
    e: ExprV,
)
    requires
        links(f),
    ensures
        coded(b, expr_with(f, env, sc, b, e)),
{
    match e {
        ExprV::Ref(name) => lemma_ref(env, sc, b, name),
        ExprV::Call { name, args } => lemma_call(f, env, sc, b, name, args),
        ExprV::MethodCall { obj, method, args } => lemma_method(f, env, sc, b, *obj, method, args),
        ExprV::Field { obj, field } => lemma_field(f, env, sc, b, *obj, field),
        ExprV::Index { base, index } => {
            reveal(index_code);
        },
        ExprV::StaticCall { class_name, class_args, method, args } => lemma_static_call(
            f,
            env,
            sc,
            b,
            class_name,
            method,
            args,
        ),
        ExprV::StaticRef { class_name, field } => lemma_static_ref(env, sc, b, class_name, field),
        ExprV::Concat(parts) => lemma_args(f, b, parts),
        ExprV::SysCall { name, args } => lemma_sys_func(f, env, sc, b, name, args),
        _ => {},
    }
}

/// Compiling an expression only adds code. Each label that it hands out it binds
/// once, and it touches no other label.
pub proof fn expressions_link(env: EnvV, sc: ScopeV, b: Code, e: ExprV)
    ensures
        expr_code(env, sc, b, e) is Ok ==> linked(b, expr_code(env, sc, b, e)->Ok_0.0),
    decreases esize(e),
{
    lemma_expr_code(env, sc, b, e);
    lemma_below(env, sc, esize(e));
    lemma_expr_with(exprs_below(env, sc, esize(e)), env, sc, b, e);
}

/// Compiling below a bound links.
pub proof fn lemma_below(env: EnvV, sc: ScopeV, bound: nat)
    ensures
        links(exprs_below(env, sc, bound)),
    decreases bound,
{
    let f = exprs_below(env, sc, bound);
    assert forall|b: Code, e: ExprV| (#[trigger] f(b, e)) is Ok implies linked(
        b,
        f(b, e)->Ok_0.0,
    ) by {
        if esize(e) < bound {
            lemma_exprs_below(env, sc, bound, b, e);
            lemma_expr_code(env, sc, b, e);
            lemma_below(env, sc, esize(e));
            lemma_expr_with(exprs_below(env, sc, esize(e)), env, sc, b, e);
        } else {
            reveal(exprs_below);
        }
    }
}

} // verus!
