//! Compiling expressions.
use vstd::prelude::*;

use crate::ast::{expr_view, exprs_view, Expr, UnaryOp};
use crate::ast_model::ExprV;
use crate::const_fold::Made;
use crate::gen_model::{
    args_code, assign_code, builtin_code, call_code, cast_code, collection_call, collection_method,
    default_format, dispatched, esize, esizes, expr_code, exprs_below, field_code, format_of,
    formatted, index_code, lemma_esizes, lemma_expr_code, lemma_exprs_below, method_code, net_of,
    object_call, on_this, plain_call, ref_code, ref_name, static_call_code, static_of,
    static_ref_code, string_code, string_inst, string_method, super_function, sys_func_code,
    this_call, two, Coded, Tried,
};
use crate::ir::{emit, Builder, Code, CollOp, Inst, Value};
use crate::layout::{receiver, ClassInfo, Env, Scope};
use crate::logic::LogicVec;
use crate::message::{text3, text5};
use crate::table::get_const;
use crate::text::{push_str, str_eq, string_of};

verus! {

/// Whether compiling gave the code that it is to give.
pub open spec fn gives(r: Result<u32, String>, b: Code, want: Coded) -> bool {
    match r {
        Ok(reg) => want == Ok::<(Code, u32), Seq<char>>((b, reg)),
        Err(m) => want == Err::<(Code, u32), Seq<char>>(m@),
    }
}

/// Whether compiling gave the code that it is to give, with or without a value.
pub open spec fn gives_opt(r: Result<Option<u32>, String>, b: Code, want: Tried) -> bool {
    match r {
        Ok(reg) => want == Ok::<(Code, Option<u32>), Seq<char>>((b, reg)),
        Err(m) => want == Err::<(Code, Option<u32>), Seq<char>>(m@),
    }
}

/// Whether compiling gave the code that it is to give, without a value.
pub open spec fn gives_code(r: Result<(), String>, b: Code, want: Made<Code>) -> bool {
    match r {
        Ok(_) => want == Ok::<Code, Seq<char>>(b),
        Err(m) => want == Err::<Code, Seq<char>>(m@),
    }
}

/// Whether compiling gave the code that it is to give, with values.
pub open spec fn gives_all(r: Result<Vec<u32>, String>, b: Code, want: Made<(Code, Seq<u32>)>) -> bool {
    match r {
        Ok(regs) => want == Ok::<(Code, Seq<u32>), Seq<char>>((b, regs@)),
        Err(m) => want == Err::<(Code, Seq<u32>), Seq<char>>(m@),
    }
}

/// A format for values without one.
pub fn default_fmt(n: usize) -> (r: String)
    ensures
        r@ == default_format(n as nat),
{
    let mut out: Vec<char> = Vec::new();
    let mut i: usize = 0;
    assert(out@ =~= default_format(0));
    while i < n
        invariant
            i <= n,
            out@ == default_format(i as nat),
        decreases n - i,
    {
        if i > 0 {
            push_str(&mut out, " ");
        }
        push_str(&mut out, "%0d");
        i = i + 1;
        proof {
            if i == 1 {
                assert(out@ =~= "%0d"@);
            } else {
                assert(out@ =~= default_format((i - 1) as nat) + " "@ + "%0d"@);
            }
        }
    }
    string_of(out.as_slice())
}

/// The built-in method of a collection that a name names.
pub fn coll_op(name: &str) -> (r: Option<CollOp>)
    ensures
        r == collection_method(name@),
{
    if str_eq(name, "push_back") {
        Some(CollOp::PushBack)
    } else if str_eq(name, "push_front") {
        Some(CollOp::PushFront)
    } else if str_eq(name, "pop_back") {
        Some(CollOp::PopBack)
    } else if str_eq(name, "pop_front") {
        Some(CollOp::PopFront)
    } else if str_eq(name, "size") {
        Some(CollOp::Size)
    } else if str_eq(name, "insert") {
        Some(CollOp::Insert)
    } else if str_eq(name, "delete") {
        Some(CollOp::Delete)
    } else if str_eq(name, "exists") {
        Some(CollOp::Exists)
    } else if str_eq(name, "num") {
        Some(CollOp::Num)
    } else if str_eq(name, "first") {
        Some(CollOp::First)
    } else if str_eq(name, "last") {
        Some(CollOp::Last)
    } else if str_eq(name, "next") {
        Some(CollOp::Next)
    } else if str_eq(name, "prev") {
        Some(CollOp::Prev)
    } else {
        None
    }
}

// ---- names ------------------------------------------------------------------------

/// Registers behind a first one.
fn behind(first: u32, rest: Vec<u32>) -> (r: Vec<u32>)
    ensures
        r@ == seq![first] + rest@,
{
    let mut out: Vec<u32> = Vec::new();
    out.push(first);
    let mut rest: Vec<u32> = rest;
    let ghost held = rest@;
    out.append(&mut rest);
    assert(out@ =~= seq![first] + held);
    out
}

/// Call a method of the class of the method being compiled, on `this`.
fn call_on_this(env: &Env, sc: &Scope, b: &mut Builder, method: &str, args: Vec<u32>) -> (r: Result<
    u32,
    String,
>)
    ensures
        gives(r, final(b)@, on_this(env@, sc@, old(b)@, method@, args@)),
{
    reveal(on_this);
    let c: &ClassInfo = match env.own(sc) {
        Some(c) => c,
        None => {
            return Err("method call outside a method".to_owned());
        },
    };
    if let Some(vslot) = c.vslot_of.get(method) {
        let ret: u32 = b.reg();
        b.emit(Inst::CallVirtual { obj: sc.this_reg, vslot, args, ret });
        return Ok(ret);
    }
    match c.methods.get(method) {
        Some(func) => Ok(b.call(func, args)),
        None => Err("method call outside a method".to_owned()),
    }
}

/// The net that a name is.
fn net(env: &Env, name: &str) -> (r: Result<u32, String>)
    ensures
        match r {
            Ok(n) => net_of(env@, name@) == Ok::<u32, Seq<char>>(n),
            Err(m) => net_of(env@, name@) == Err::<u32, Seq<char>>(m@),
        },
{
    match env.nets.get(name) {
        Some(n) => Ok(n.0),
        None => Err(text3("elaboration: unknown signal '", name, "'")),
    }
}

/// Read a name.
pub fn gen_ref(env: &Env, sc: &Scope, b: &mut Builder, name: &str) -> (r: Result<u32, String>)
    ensures
        gives(r, final(b)@, ref_code(env@, sc@, old(b)@, name@)),
{
    reveal(ref_code);
    if str_eq(name, "this") {
        return Ok(sc.this_reg);
    }
    if let Some(local) = sc.locals.get(name) {
        return Ok(local.0);
    }
    if let Some(field) = env.class_field(sc, name) {
        let dst: u32 = b.reg();
        b.emit(Inst::GetField { dst, obj: sc.this_reg, slot: field.0 });
        return Ok(dst);
    }
    if let Some(id) = env.static_field(sc, name) {
        return Ok(b.static_get(id));
    }
    if let Some(id) = env.vars.get(name) {
        return Ok(b.static_get(id));
    }
    if let Some(v) = get_const(&env.consts, name) {
        return Ok(b.load(Value::Logic(v.clone())));
    }
    if env.method_of_ctx(sc, name) {
        let mut args: Vec<u32> = Vec::new();
        args.push(sc.this_reg);
        assert(args@ =~= seq![sc@.this_reg]);
        return call_on_this(env, sc, b, name, args);
    }
    match net(env, name) {
        Err(m) => Err(m),
        Ok(net) => {
            let dst: u32 = b.reg();
            b.emit(Inst::NetRead { dst, net });
            Ok(dst)
        },
    }
}

/// Write a name.
pub fn gen_assign(
    env: &Env,
    sc: &Scope,
    b: &mut Builder,
    name: &str,
    src: u32,
    nonblocking: bool,
) -> (r: Result<(), String>)
    ensures
        gives_code(r, final(b)@, assign_code(env@, sc@, old(b)@, name@, src, nonblocking)),
{
    reveal(assign_code);
    if let Some(local) = sc.locals.get(name) {
        if nonblocking {
            b.emit(Inst::NbaAssign { dst: local.0, src });
        } else {
            b.emit(Inst::Assign { dst: local.0, src });
        }
        return Ok(());
    }
    if let Some(field) = env.class_field(sc, name) {
        b.emit(Inst::SetField { obj: sc.this_reg, slot: field.0, src });
        return Ok(());
    }
    if let Some(id) = env.static_field(sc, name) {
        b.emit(Inst::StaticSet { id, src });
        return Ok(());
    }
    if let Some(id) = env.vars.get(name) {
        b.emit(Inst::StaticSet { id, src });
        return Ok(());
    }
    match net(env, name) {
        Err(m) => Err(m),
        Ok(net) => {
            if nonblocking {
                b.emit(Inst::NbaWrite { net, src });
            } else {
                b.emit(Inst::BlockingWrite { net, src });
            }
            Ok(())
        },
    }
}

/// A static field of a class that a name means.
fn static_id(env: &Env, sc: &Scope, class_name: &str, field: &str) -> (r: Option<u32>)
    ensures
        r == static_of(env@, sc@, class_name@, field@),
{
    match env.resolve_class(sc, class_name) {
        Some(cid) => match env.class(cid) {
            Some(c) => c.static_fields.get(field),
            None => None,
        },
        None => None,
    }
}

/// Read a scoped name.
pub fn gen_static_ref(
    env: &Env,
    sc: &Scope,
    b: &mut Builder,
    class_name: &str,
    field: &str,
) -> (r: Result<u32, String>)
    ensures
        gives(r, final(b)@, static_ref_code(env@, sc@, old(b)@, class_name@, field@)),
{
    reveal(static_ref_code);
    if let Some(id) = env.vars.get(field) {
        return Ok(b.static_get(id));
    }
    if let Some(v) = get_const(&env.consts, field) {
        return Ok(b.load(Value::Logic(v.clone())));
    }
    if let Some(id) = static_id(env, sc, class_name, field) {
        return Ok(b.static_get(id));
    }
    if let Some(v) = get_const(&env.consts, class_name) {
        return Ok(b.load(Value::Logic(v.clone())));
    }
    let unused: u32 = b.reg();
    gen_ref(env, sc, b, field)
}

// ---- calls ------------------------------------------------------------------------

/// Compile arguments from one on.
pub fn gen_args(
    env: &Env,
    sc: &Scope,
    b: &mut Builder,
    args: &Vec<Expr>,
    from: usize,
    Ghost(bound): Ghost<nat>,
) -> (r: Result<Vec<u32>, String>)
    requires
        from <= args@.len(),
        esizes(exprs_view(args@)) < bound,
    ensures
        gives_all(
            r,
            final(b)@,
            args_code(
                exprs_below(env@, sc@, bound),
                old(b)@,
                exprs_view(args@).skip(from as int),
            ),
        ),
    decreases bound, 0int,
{
    let ghost f = exprs_below(env@, sc@, bound);
    let ghost all = exprs_view(args@).skip(from as int);
    let ghost start = b@;
    assert(exprs_view(args@).len() == args@.len());
    let mut regs: Vec<u32> = Vec::new();
    let mut i: usize = from;
    assert(regs@ =~= Seq::<u32>::empty());
    assert(args_code(f, start, all.take(0)) == Ok::<(Code, Seq<u32>), Seq<char>>((b@, regs@)));
    while i < args.len()
        invariant
            from <= i <= args@.len(),
            f == exprs_below(env@, sc@, bound),
            start == old(b)@,
            all == exprs_view(args@).skip(from as int),
            all.len() == args@.len() - from,
            esizes(exprs_view(args@)) < bound,
            args_code(f, start, all.take(i - from)) == Ok::<(Code, Seq<u32>), Seq<char>>(
                (b@, regs@),
            ),
        decreases args@.len() - i,
    {
        let ghost upto = all.take(i - from + 1);
        assert(upto.drop_last() =~= all.take(i - from));
        assert(upto.last() == exprs_view(args@)[i as int]);
        assert(exprs_view(args@)[i as int] == expr_view(args@[i as int]));
        proof {
            lemma_esizes(exprs_view(args@), i as int);
            lemma_exprs_below(env@, sc@, bound, b@, upto.last());
        }
        match gen_expr(env, sc, b, &args[i]) {
            Ok(r) => {
                regs.push(r);
            },
            Err(m) => {
                proof {
                    lemma_args_error(f, start, all, i - from);
                }
                return Err(m);
            },
        }
        i = i + 1;
    }
    assert(all.take(i - from) =~= all);
    Ok(regs)
}

/// Arguments fail as their first failing prefix does.
proof fn lemma_args_error(
    f: spec_fn(Code, ExprV) -> Coded,
    b: Code,
    all: Seq<ExprV>,
    i: int,
)
    requires
        0 <= i < all.len(),
        args_code(f, b, all.take(i + 1)) is Err,
    ensures
        args_code(f, b, all) == args_code(f, b, all.take(i + 1)),
    decreases all.len() - i,
{
    if i + 1 == all.len() {
        assert(all.take(i + 1) =~= all);
    } else {
        assert(all.take(i + 2).drop_last() =~= all.take(i + 1));
        lemma_args_error(f, b, all, i + 1);
    }
}

/// Compile all arguments.
pub fn gen_all(
    env: &Env,
    sc: &Scope,
    b: &mut Builder,
    args: &Vec<Expr>,
    Ghost(bound): Ghost<nat>,
) -> (r: Result<Vec<u32>, String>)
    requires
        esizes(exprs_view(args@)) < bound,
    ensures
        gives_all(
            r,
            final(b)@,
            args_code(exprs_below(env@, sc@, bound), old(b)@, exprs_view(args@)),
        ),
    decreases bound, 1int,
{
    assert(exprs_view(args@).skip(0) =~= exprs_view(args@));
    gen_args(env, sc, b, args, 0, Ghost(bound))
}

/// Compile an expression below a bound.
fn gen_part(env: &Env, sc: &Scope, b: &mut Builder, e: &Expr, Ghost(bound): Ghost<nat>) -> (r: Result<
    u32,
    String,
>)
    requires
        esize(e@) < bound,
    ensures
        gives(r, final(b)@, exprs_below(env@, sc@, bound)(old(b)@, e@)),
    decreases bound, 0int,
{
    proof {
        lemma_exprs_below(env@, sc@, bound, b@, e@);
    }
    gen_expr(env, sc, b, e)
}

/// Call a function with `this` in front of the arguments.
pub fn gen_this_call(
    env: &Env,
    sc: &Scope,
    b: &mut Builder,
    this: u32,
    func: u32,
    args: &Vec<Expr>,
    Ghost(bound): Ghost<nat>,
) -> (r: Result<u32, String>)
    requires
        esizes(exprs_view(args@)) < bound,
    ensures
        gives(
            r,
            final(b)@,
            this_call(exprs_below(env@, sc@, bound), old(b)@, this, func, exprs_view(args@)),
        ),
    decreases bound, 2int,
{
    match gen_all(env, sc, b, args, Ghost(bound)) {
        Ok(regs) => Ok(b.call(func, behind(this, regs))),
        Err(m) => Err(m),
    }
}

/// Call a function.
fn gen_plain_call(
    env: &Env,
    sc: &Scope,
    b: &mut Builder,
    func: u32,
    args: &Vec<Expr>,
    Ghost(bound): Ghost<nat>,
) -> (r: Result<u32, String>)
    requires
        esizes(exprs_view(args@)) < bound,
    ensures
        gives(
            r,
            final(b)@,
            plain_call(exprs_below(env@, sc@, bound), old(b)@, func, exprs_view(args@)),
        ),
    decreases bound, 2int,
{
    match gen_all(env, sc, b, args, Ghost(bound)) {
        Ok(regs) => Ok(b.call(func, regs)),
        Err(m) => Err(m),
    }
}

/// Compile `f(args)`.
fn gen_call(
    env: &Env,
    sc: &Scope,
    b: &mut Builder,
    name: &str,
    args: &Vec<Expr>,
    Ghost(bound): Ghost<nat>,
) -> (r: Result<u32, String>)
    requires
        esizes(exprs_view(args@)) < bound,
    ensures
        gives(
            r,
            final(b)@,
            call_code(
                exprs_below(env@, sc@, bound),
                env@,
                sc@,
                old(b)@,
                name@,
                exprs_view(args@),
            ),
        ),
    decreases bound, 3int,
{
    reveal(call_code);
    if env.method_of_ctx(sc, name) {
        return match gen_all(env, sc, b, args, Ghost(bound)) {
            Ok(regs) => call_on_this(env, sc, b, name, behind(sc.this_reg, regs)),
            Err(m) => Err(m),
        };
    }
    match env.funcs.get(name) {
        Some(func) => gen_plain_call(env, sc, b, func, args, Ghost(bound)),
        None => Err(text3("call to unknown function '", name, "'")),
    }
}

/// The function that `super.method` is.
fn super_func(env: &Env, sc: &Scope, method: &str) -> (r: Result<u32, String>)
    ensures
        match r {
            Ok(n) => super_function(env@, sc@, method@) == Ok::<u32, Seq<char>>(n),
            Err(m) => super_function(env@, sc@, method@) == Err::<u32, Seq<char>>(m@),
        },
{
    let base: Option<u32> = match env.own(sc) {
        Some(c) => c.base,
        None => None,
    };
    let base: u32 = match base {
        Some(base) => base,
        None => {
            return Err("`super` used without a base class".to_owned());
        },
    };
    if str_eq(method, "new") {
        let ctor: Option<u32> = match env.class(base) {
            Some(c) => c.ctor,
            None => None,
        };
        return match ctor {
            Some(f) => Ok(f),
            None => Err("base class has no constructor".to_owned()),
        };
    }
    let func: Option<u32> = match env.class(base) {
        Some(c) => c.methods.get(method),
        None => None,
    };
    match func {
        Some(f) => Ok(f),
        None => Err(text3("base class has no method '", method, "'")),
    }
}

/// Call a method of a collection.
fn gen_collection_call(
    env: &Env,
    sc: &Scope,
    b: &mut Builder,
    base: u32,
    op: CollOp,
    args: &Vec<Expr>,
    Ghost(bound): Ghost<nat>,
) -> (r: Result<u32, String>)
    requires
        esizes(exprs_view(args@)) < bound,
    ensures
        gives(
            r,
            final(b)@,
            collection_call(exprs_below(env@, sc@, bound), old(b)@, base, op, exprs_view(args@)),
        ),
    decreases bound, 2int,
{
    match gen_all(env, sc, b, args, Ghost(bound)) {
        Ok(regs) => {
            let dst: u32 = b.reg();
            b.emit(Inst::CollMethod { dst, base, op, args: regs });
            Ok(dst)
        },
        Err(m) => Err(m),
    }
}

/// Load a name that may hold a string.
fn gen_string(env: &Env, sc: &Scope, b: &mut Builder, obj: &Expr) -> (r: Result<
    Option<u32>,
    String,
>)
    ensures
        gives_opt(r, final(b)@, string_code(env@, sc@, old(b)@, obj@)),
{
    reveal(string_code);
    let name: &String = match obj {
        Expr::Ref(name) => name,
        _ => {
            return Ok(None);
        },
    };
    if sc.is_string_local(name.as_str()) {
        return match gen_ref(env, sc, b, name.as_str()) {
            Ok(r) => Ok(Some(r)),
            Err(m) => Err(m),
        };
    }
    if let Some(c) = env.own(sc) {
        if let Some(field) = c.field_slot.get(name.as_str()) {
            if !c.field_class.has(name.as_str()) && !c.field_coll.has(name.as_str()) {
                let dst: u32 = b.reg();
                b.emit(Inst::GetField { dst, obj: sc.this_reg, slot: field.0 });
                return Ok(Some(dst));
            }
        }
    }
    if sc.locals.has(name.as_str()) {
        return match gen_ref(env, sc, b, name.as_str()) {
            Ok(r) => Ok(Some(r)),
            Err(m) => Err(m),
        };
    }
    Ok(None)
}

/// The instruction of a string method without arguments.
fn string_op(method: &str, dst: u32, src: u32) -> (r: Option<Inst>)
    ensures
        match r {
            Some(i) => string_inst(method@, dst, src) == Some(i@),
            None => string_inst(method@, dst, src) is None,
        },
{
    if str_eq(method, "len") {
        Some(Inst::StringLen { dst, src })
    } else if str_eq(method, "toupper") {
        Some(Inst::StringToUpper { dst, src })
    } else if str_eq(method, "tolower") {
        Some(Inst::StringToLower { dst, src })
    } else if str_eq(method, "atoi") || str_eq(method, "atoreal") {
        Some(Inst::StringAtoi { dst, src })
    } else {
        None
    }
}

/// Call a built-in method of a string.
fn gen_string_method(
    env: &Env,
    sc: &Scope,
    b: &mut Builder,
    src: u32,
    method: &str,
    args: &Vec<Expr>,
    Ghost(bound): Ghost<nat>,
) -> (r: Result<Option<u32>, String>)
    requires
        esizes(exprs_view(args@)) < bound,
    ensures
        gives_opt(
            r,
            final(b)@,
            string_method(
                exprs_below(env@, sc@, bound),
                old(b)@,
                src,
                method@,
                exprs_view(args@),
            ),
        ),
    decreases bound, 2int,
{
    reveal(string_method);
    assert(exprs_view(args@).len() == args@.len());
    if args.len() == 0 {
        if let Some(i) = string_op(method, b.regs, src) {
            let dst: u32 = b.reg();
            b.emit(i);
            return Ok(Some(dst));
        }
    }
    if args.len() == 2 && str_eq(method, "substr") {
        assert(exprs_view(args@)[0] == expr_view(args@[0]));
        assert(exprs_view(args@)[1] == expr_view(args@[1]));
        proof {
            lemma_esizes(exprs_view(args@), 0);
            lemma_esizes(exprs_view(args@), 1);
        }
        let lo: u32 = match gen_part(env, sc, b, &args[0], Ghost(bound)) {
            Ok(r) => r,
            Err(m) => {
                return Err(m);
            },
        };
        let hi: u32 = match gen_part(env, sc, b, &args[1], Ghost(bound)) {
            Ok(r) => r,
            Err(m) => {
                return Err(m);
            },
        };
        let dst: u32 = b.reg();
        b.emit(Inst::StringSub { dst, src, lo, hi });
        return Ok(Some(dst));
    }
    Ok(None)
}

/// Call a built-in method of an enumeration or a string.
fn gen_builtin_method(
    env: &Env,
    sc: &Scope,
    b: &mut Builder,
    obj: &Expr,
    method: &str,
    args: &Vec<Expr>,
    Ghost(bound): Ghost<nat>,
) -> (r: Result<Option<u32>, String>)
    requires
        esizes(exprs_view(args@)) < bound,
    ensures
        gives_opt(
            r,
            final(b)@,
            builtin_code(
                exprs_below(env@, sc@, bound),
                env@,
                sc@,
                old(b)@,
                obj@,
                method@,
                exprs_view(args@),
            ),
        ),
    decreases bound, 3int,
{
    reveal(builtin_code);
    assert(exprs_view(args@).len() == args@.len());
    if let Expr::Ref(name) = obj {
        if str_eq(method, "name") && args.len() == 0 {
            if let Some(table) = sc.enums.get(name.as_str()) {
                return match gen_ref(env, sc, b, name.as_str()) {
                    Ok(src) => {
                        let dst: u32 = b.reg();
                        b.emit(Inst::EnumName { dst, src, table });
                        Ok(Some(dst))
                    },
                    Err(m) => Err(m),
                };
            }
        }
        if str_eq(method, "itoa") && args.len() == 1 && sc.is_string_local(name.as_str()) {
            proof {
                reveal_strlit("name");
                reveal_strlit("itoa");
                assert("name"@[0] != "itoa"@[0]);
            }
            assert(exprs_view(args@)[0] == expr_view(args@[0]));
            proof {
                lemma_esizes(exprs_view(args@), 0);
            }
            let value: u32 = match gen_part(env, sc, b, &args[0], Ghost(bound)) {
                Ok(r) => r,
                Err(m) => {
                    return Err(m);
                },
            };
            let tmp: u32 = b.reg();
            let mut regs: Vec<u32> = Vec::new();
            regs.push(value);
            assert(regs@ =~= seq![value]);
            b.emit(Inst::Format { dst: tmp, fmt: "%0d".to_owned(), args: regs });
            return match gen_assign(env, sc, b, name.as_str(), tmp, false) {
                Ok(_) => Ok(Some(tmp)),
                Err(m) => Err(m),
            };
        }
    }
    match gen_string(env, sc, b, obj) {
        Err(m) => Err(m),
        Ok(None) => Ok(None),
        Ok(Some(src)) => gen_string_method(env, sc, b, src, method, args, Ghost(bound)),
    }
}

/// Call a method of a class on an object.
fn gen_dispatch(
    env: &Env,
    sc: &Scope,
    b: &mut Builder,
    obj: u32,
    cid: u32,
    method: &str,
    args: &Vec<Expr>,
    Ghost(bound): Ghost<nat>,
) -> (r: Result<u32, String>)
    requires
        esizes(exprs_view(args@)) < bound,
    ensures
        gives(
            r,
            final(b)@,
            dispatched(
                exprs_below(env@, sc@, bound),
                env@,
                old(b)@,
                obj,
                cid,
                method@,
                exprs_view(args@),
            ),
        ),
    decreases bound, 2int,
{
    reveal(dispatched);
    let regs: Vec<u32> = match gen_all(env, sc, b, args, Ghost(bound)) {
        Ok(regs) => regs,
        Err(m) => {
            return Err(m);
        },
    };
    if let Some(c) = env.class(cid) {
        if let Some(vslot) = c.vslot_of.get(method) {
            let ret: u32 = b.reg();
            b.emit(Inst::CallVirtual { obj, vslot, args: behind(obj, regs), ret });
            return Ok(ret);
        }
        if let Some(func) = c.methods.get(method) {
            return Ok(b.call(func, behind(obj, regs)));
        }
    }
    match coll_op(method) {
        Some(op) => {
            let dst: u32 = b.reg();
            b.emit(Inst::CollMethod { dst, base: obj, op, args: regs });
            Ok(dst)
        },
        None => Err(
            text5("no method '", method, "' on class '", env.class_name(cid).as_str(), "'"),
        ),
    }
}

/// Call a method of an object.
fn gen_object_call(
    env: &Env,
    sc: &Scope,
    b: &mut Builder,
    obj: &Expr,
    method: &str,
    args: &Vec<Expr>,
    Ghost(bound): Ghost<nat>,
) -> (r: Result<u32, String>)
    requires
        esize(obj@) < bound,
        esizes(exprs_view(args@)) < bound,
    ensures
        gives(
            r,
            final(b)@,
            object_call(
                exprs_below(env@, sc@, bound),
                env@,
                sc@,
                old(b)@,
                obj@,
                method@,
                exprs_view(args@),
            ),
        ),
    decreases bound, 3int,
{
    reveal(object_call);
    let reg: u32 = match gen_part(env, sc, b, obj, Ghost(bound)) {
        Ok(r) => r,
        Err(m) => {
            return Err(m);
        },
    };
    if let Expr::Ref(name) = obj {
        if env.try_class_of(sc, obj).is_none() {
            return match coll_op(method) {
                Some(op) => gen_collection_call(env, sc, b, reg, op, args, Ghost(bound)),
                None => Err(text3("'", name.as_str(), "' is not a class handle")),
            };
        }
    }
    match env.receiver_class(sc, obj) {
        Err(m) => Err(m),
        Ok(cid) => gen_dispatch(env, sc, b, reg, cid, method, args, Ghost(bound)),
    }
}

/// Whether an expression is a name.
fn is_name(e: &Expr, name: &str) -> (r: bool)
    ensures
        r == (ref_name(e@) == Some(name@)),
{
    match e {
        Expr::Ref(n) => str_eq(n.as_str(), name),
        _ => false,
    }
}

/// Compile `obj.method(args)`.
fn gen_method_call(
    env: &Env,
    sc: &Scope,
    b: &mut Builder,
    obj: &Expr,
    method: &str,
    args: &Vec<Expr>,
    Ghost(bound): Ghost<nat>,
) -> (r: Result<u32, String>)
    requires
        esize(obj@) < bound,
        esizes(exprs_view(args@)) < bound,
    ensures
        gives(
            r,
            final(b)@,
            method_code(
                exprs_below(env@, sc@, bound),
                env@,
                sc@,
                old(b)@,
                obj@,
                method@,
                exprs_view(args@),
            ),
        ),
    decreases bound, 4int,
{
    reveal(method_code);
    if is_name(obj, "super") {
        return match super_func(env, sc, method) {
            Err(m) => Err(m),
            Ok(func) => gen_this_call(env, sc, b, sc.this_reg, func, args, Ghost(bound)),
        };
    }
    if env.coll_of_receiver(sc, obj).is_some() {
        if let Some(op) = coll_op(method) {
            return match gen_part(env, sc, b, obj, Ghost(bound)) {
                Err(m) => Err(m),
                Ok(base) => gen_collection_call(env, sc, b, base, op, args, Ghost(bound)),
            };
        }
    }
    match gen_builtin_method(env, sc, b, obj, method, args, Ghost(bound)) {
        Err(m) => Err(m),
        Ok(Some(r)) => Ok(r),
        Ok(None) => gen_object_call(env, sc, b, obj, method, args, Ghost(bound)),
    }
}

/// Compile `obj.field`.
pub fn gen_field(
    env: &Env,
    sc: &Scope,
    b: &mut Builder,
    obj: &Expr,
    field: &str,
    Ghost(bound): Ghost<nat>,
) -> (r: Result<u32, String>)
    requires
        esize(obj@) < bound,
    ensures
        gives(
            r,
            final(b)@,
            field_code(exprs_below(env@, sc@, bound), env@, sc@, old(b)@, obj@, field@),
        ),
    decreases bound, 1int,
{
    reveal(field_code);
    let reg: u32 = match gen_part(env, sc, b, obj, Ghost(bound)) {
        Ok(r) => r,
        Err(m) => {
            return Err(m);
        },
    };
    let cid: u32 = match env.receiver_class(sc, obj) {
        Ok(cid) => cid,
        Err(m) => {
            return Err(m);
        },
    };
    if let Some(c) = env.class(cid) {
        if let Some(slot) = c.field_slot.get(field) {
            let dst: u32 = b.reg();
            b.emit(Inst::GetField { dst, obj: reg, slot: slot.0 });
            return Ok(dst);
        }
        if let Some(id) = c.static_fields.get(field) {
            return Ok(b.static_get(id));
        }
    }
    Err(text3("no field '", field, "' on the receiver class"))
}

/// Compile `Scope::method(args)`.
fn gen_static_call(
    env: &Env,
    sc: &Scope,
    b: &mut Builder,
    class_name: &str,
    method: &str,
    args: &Vec<Expr>,
    Ghost(bound): Ghost<nat>,
) -> (r: Result<u32, String>)
    requires
        esizes(exprs_view(args@)) < bound,
    ensures
        gives(
            r,
            final(b)@,
            static_call_code(
                exprs_below(env@, sc@, bound),
                env@,
                sc@,
                old(b)@,
                class_name@,
                method@,
                exprs_view(args@),
            ),
        ),
    decreases bound, 3int,
{
    reveal(static_call_code);
    let cid: u32 = match env.resolve_class(sc, class_name) {
        Some(cid) => cid,
        None => {
            if let Some(func) = env.funcs.get(method) {
                return gen_plain_call(env, sc, b, func, args, Ghost(bound));
            }
            if let Some(id) = env.vars.get(method) {
                return Ok(b.static_get(id));
            }
            if str_eq(class_name, "process") && str_eq(method, "self") {
                return Ok(b.load(Value::Null));
            }
            return Err(text3("static call on unknown class '", class_name, "'"));
        },
    };
    let func: Option<u32> = match env.class(cid) {
        Some(c) => c.methods.get(method),
        None => None,
    };
    match func {
        Some(func) => {
            let this: u32 = b.load(Value::Null);
            gen_this_call(env, sc, b, this, func, args, Ghost(bound))
        },
        None => Err(text5("no static method '", method, "' on class '", class_name, "'")),
    }
}

// ---- system functions -----------------------------------------------------------------

/// Compile `$cast(dst, src)`.
pub fn gen_cast(
    env: &Env,
    sc: &Scope,
    b: &mut Builder,
    args: &Vec<Expr>,
    Ghost(bound): Ghost<nat>,
) -> (r: Result<u32, String>)
    requires
        args@.len() == 2,
        esizes(exprs_view(args@)) < bound,
    ensures
        gives(
            r,
            final(b)@,
            cast_code(exprs_below(env@, sc@, bound), env@, sc@, old(b)@, exprs_view(args@)),
        ),
    decreases bound, 1int,
{
    reveal(cast_code);
    assert(exprs_view(args@)[0] == expr_view(args@[0]));
    assert(exprs_view(args@)[1] == expr_view(args@[1]));
    proof {
        lemma_esizes(exprs_view(args@), 1);
    }
    let src: u32 = match gen_part(env, sc, b, &args[1], Ghost(bound)) {
        Ok(r) => r,
        Err(m) => {
            return Err(m);
        },
    };
    let ok: u32 = b.reg();
    if let Expr::Ref(name) = &args[0] {
        if let Some(class) = env.try_class_of(sc, &args[0]) {
            b.emit(Inst::ClassCast { dst: ok, src, class });
            let done: u32 = b.label();
            b.emit(Inst::BranchFalse { cond: ok, label: done });
            return match gen_assign(env, sc, b, name.as_str(), src, false) {
                Err(m) => Err(m),
                Ok(_) => {
                    b.emit(Inst::Bind { label: done });
                    Ok(ok)
                },
            };
        }
        return match gen_assign(env, sc, b, name.as_str(), src, false) {
            Err(m) => Err(m),
            Ok(_) => {
                b.emit(Inst::Load { dst: ok, value: Value::Logic(LogicVec::from_u64(1, 1)) });
                Ok(ok)
            },
        };
    }
    b.emit(Inst::Load { dst: ok, value: Value::Logic(LogicVec::zero(1)) });
    Ok(ok)
}

/// The format of arguments, and where the values behind it begin.
pub fn split_format(args: &Vec<Expr>, from: usize) -> (r: (String, usize))
    requires
        from <= args@.len(),
    ensures
        r.0@ == format_of(exprs_view(args@).skip(from as int)),
        from <= r.1 <= args@.len(),
        exprs_view(args@).skip(r.1 as int) == formatted(exprs_view(args@).skip(from as int)),
{
    let ghost all = exprs_view(args@).skip(from as int);
    assert(exprs_view(args@).len() == args@.len());
    if from < args.len() {
        assert(all[0] == expr_view(args@[from as int]));
        if let Expr::Str(s) = &args[from] {
            assert(exprs_view(args@).skip(from as int + 1) =~= all.skip(1));
            return (s.clone(), from + 1);
        }
    }
    (default_fmt(args.len() - from), from)
}

/// Compile a system function.
fn gen_sys_func(
    env: &Env,
    sc: &Scope,
    b: &mut Builder,
    name: &str,
    args: &Vec<Expr>,
    Ghost(bound): Ghost<nat>,
) -> (r: Result<u32, String>)
    requires
        esizes(exprs_view(args@)) < bound,
    ensures
        gives(
            r,
            final(b)@,
            sys_func_code(
                exprs_below(env@, sc@, bound),
                env@,
                sc@,
                old(b)@,
                name@,
                exprs_view(args@),
            ),
        ),
    decreases bound, 2int,
{
    reveal(sys_func_code);
    assert(exprs_view(args@).len() == args@.len());
    if str_eq(name, "$sformatf") || str_eq(name, "$psprintf") {
        assert(exprs_view(args@).skip(0) =~= exprs_view(args@));
        let (fmt, from) = split_format(args, 0);
        return match gen_args(env, sc, b, args, from, Ghost(bound)) {
            Err(m) => Err(m),
            Ok(regs) => {
                let dst: u32 = b.reg();
                b.emit(Inst::Format { dst, fmt, args: regs });
                Ok(dst)
            },
        };
    }
    if str_eq(name, "$realtime") || str_eq(name, "$time") || str_eq(name, "$stime") {
        let dst: u32 = b.reg();
        b.emit(Inst::SimTime { dst });
        return Ok(dst);
    }
    if str_eq(name, "$typename") {
        if args.len() > 0 {
            assert(exprs_view(args@)[0] == expr_view(args@[0]));
            proof {
                lemma_esizes(exprs_view(args@), 0);
            }
            return gen_part(env, sc, b, &args[0], Ghost(bound));
        }
        let empty = String::new();
        assert(empty@ =~= Seq::<char>::empty());
        return Ok(b.load(Value::Str(empty)));
    }
    if str_eq(name, "$cast") && args.len() == 2 {
        return gen_cast(env, sc, b, args, Ghost(bound));
    }
    match gen_all(env, sc, b, args, Ghost(bound)) {
        Err(m) => Err(m),
        Ok(_) => Ok(b.load(Value::Logic(LogicVec::zero(32)))),
    }
}

// ---- expressions ----------------------------------------------------------------------

/// Compile two operands, one after the other.
fn gen_two(env: &Env, sc: &Scope, b: &mut Builder, x: &Expr, y: &Expr, Ghost(bound): Ghost<nat>) -> (r:
    Result<(u32, u32), String>)
    requires
        esize(x@) < bound,
        esize(y@) < bound,
    ensures
        match r {
            Ok(p) => two(exprs_below(env@, sc@, bound), old(b)@, x@, y@) == Ok::<
                (Code, u32, u32),
                Seq<char>,
            >((final(b)@, p.0, p.1)),
            Err(m) => two(exprs_below(env@, sc@, bound), old(b)@, x@, y@) == Err::<
                (Code, u32, u32),
                Seq<char>,
            >(m@),
        },
    decreases bound, 1int,
{
    let p: u32 = match gen_part(env, sc, b, x, Ghost(bound)) {
        Ok(r) => r,
        Err(m) => {
            return Err(m);
        },
    };
    match gen_part(env, sc, b, y, Ghost(bound)) {
        Ok(q) => Ok((p, q)),
        Err(m) => Err(m),
    }
}

/// Compile `base[index]`.
fn gen_index(
    env: &Env,
    sc: &Scope,
    b: &mut Builder,
    base: &Expr,
    index: &Expr,
    Ghost(bound): Ghost<nat>,
) -> (r: Result<u32, String>)
    requires
        esize(base@) < bound,
        esize(index@) < bound,
    ensures
        gives(
            r,
            final(b)@,
            index_code(exprs_below(env@, sc@, bound), sc@, old(b)@, base@, index@),
        ),
    decreases bound, 2int,
{
    reveal(index_code);
    let (src, idx) = match gen_two(env, sc, b, base, index, Ghost(bound)) {
        Ok(p) => p,
        Err(m) => {
            return Err(m);
        },
    };
    let dst: u32 = b.reg();
    let string: bool = match base {
        Expr::Ref(name) => sc.is_string_local(name.as_str()),
        _ => false,
    };
    if string {
        b.emit(Inst::StringIndex { dst, src, idx });
    } else {
        b.emit(Inst::IndexGet { dst, base: src, idx });
    }
    Ok(dst)
}

/// Compile an expression; the register that holds its value.
pub fn gen_expr(env: &Env, sc: &Scope, b: &mut Builder, e: &Expr) -> (r: Result<u32, String>)
    ensures
        gives(r, final(b)@, expr_code(env@, sc@, old(b)@, e@)),
    decreases esize(e@), 5int,
{
    let ghost bound = esize(e@);
    proof {
        lemma_expr_code(env@, sc@, b@, e@);
    }
    match e {
        Expr::Literal(v) => Ok(b.load(Value::Logic(v.clone()))),
        Expr::Str(s) => Ok(b.load(Value::Str(s.clone()))),
        Expr::Ref(name) => gen_ref(env, sc, b, name.as_str()),
        Expr::Unary { op, operand } => {
            assert((**operand)@ == expr_view(**operand));
            match gen_part(env, sc, b, operand, Ghost(bound)) {
                Err(m) => Err(m),
                Ok(a) => {
                    let dst: u32 = b.reg();
                    match op {
                        UnaryOp::Plus => b.emit(Inst::Mov { dst, src: a }),
                        _ => b.emit(Inst::Unary { op: *op, dst, a }),
                    }
                    Ok(dst)
                },
            }
        },
        Expr::Binary { op, lhs, rhs } => {
            assert((**lhs)@ == expr_view(**lhs));
            assert((**rhs)@ == expr_view(**rhs));
            match gen_two(env, sc, b, lhs, rhs, Ghost(bound)) {
                Err(m) => Err(m),
                Ok((x, y)) => {
                    let dst: u32 = b.reg();
                    b.emit(Inst::Binary { op: *op, dst, a: x, b: y });
                    Ok(dst)
                },
            }
        },
        Expr::Call { name, args } => gen_call(env, sc, b, name.as_str(), args, Ghost(bound)),
        Expr::MethodCall { obj, method, args } => {
            assert((**obj)@ == expr_view(**obj));
            gen_method_call(env, sc, b, obj, method.as_str(), args, Ghost(bound))
        },
        Expr::Field { obj, field } => {
            assert((**obj)@ == expr_view(**obj));
            gen_field(env, sc, b, obj, field.as_str(), Ghost(bound))
        },
        Expr::Index { base, index } => {
            assert((**base)@ == expr_view(**base));
            assert((**index)@ == expr_view(**index));
            gen_index(env, sc, b, base, index, Ghost(bound))
        },
        Expr::PartSelect { base, left, right } => {
            assert((**base)@ == expr_view(**base));
            assert((**left)@ == expr_view(**left));
            assert((**right)@ == expr_view(**right));
            let (r, l) = match gen_two(env, sc, b, base, left, Ghost(bound)) {
                Ok(p) => p,
                Err(m) => {
                    return Err(m);
                },
            };
            match gen_part(env, sc, b, right, Ghost(bound)) {
                Err(m) => Err(m),
                Ok(h) => {
                    let dst: u32 = b.reg();
                    b.emit(Inst::PartSelect { dst, base: r, left: l, right: h });
                    Ok(dst)
                },
            }
        },
        Expr::StaticCall { class_name, class_args, method, args } => gen_static_call(
            env,
            sc,
            b,
            class_name.as_str(),
            method.as_str(),
            args,
            Ghost(bound),
        ),
        Expr::StaticRef { class_name, field } => gen_static_ref(
            env,
            sc,
            b,
            class_name.as_str(),
            field.as_str(),
        ),
        Expr::New { args } => Err(
            "`new` is only supported as `handle = new(...)` for now".to_owned(),
        ),
        Expr::Null => Ok(b.load(Value::Null)),
        Expr::Concat(parts) => match gen_all(env, sc, b, parts, Ghost(bound)) {
            Err(m) => Err(m),
            Ok(regs) => {
                let dst: u32 = b.reg();
                b.emit(Inst::Concat { dst, args: regs });
                Ok(dst)
            },
        },
        Expr::SysCall { name, args } => gen_sys_func(env, sc, b, name.as_str(), args, Ghost(bound)),
    }
}

} // verus!
