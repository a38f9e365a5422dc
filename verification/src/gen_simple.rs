//! Compiling declarations, assignments, system tasks and timing controls.
use vstd::prelude::*;

use crate::ast::{expr_view, exprs_view, CollKind, Expr, Lvalue, TimingControl, VarDecl};
use crate::const_fold::const_eval_with;
use crate::gen_expr::{
    gen_args, gen_assign, gen_cast, gen_expr, gen_field, gen_ref, gen_static_ref, gen_this_call,
    gives, gives_code, split_format,
};
use crate::gen_model::{
    esize, esizes, expr_code, lemma_expr_code,
};
use crate::gen_stmt_model::{
    blocking_code, constructed, declared_collection, lvalue_code, new_code, stored, sys_call_code,
    timing_code, var_code, with_typed, Ran,
};
use crate::ir::{emit, loaded, Builder, Code, Inst, InstV, Value};
use crate::layout::{name_view, CollInfo, Env, Scope, ScopeV};
use crate::logic::LogicVec;
use crate::lower_expr::named;
use crate::message::{text3, text5};
use crate::text::{number_text, str_eq};

verus! {

/// Whether compiling gave the names and the code that it is to give.
pub open spec fn did(r: Result<(), String>, sc: ScopeV, b: Code, want: Ran) -> bool {
    match r {
        Ok(_) => want == Ok::<(ScopeV, Code), Seq<char>>((sc, b)),
        Err(m) => want == Err::<(ScopeV, Code), Seq<char>>(m@),
    }
}

// ---- declarations -------------------------------------------------------------------

/// The collection that a declared name is.
pub fn collection_type(
    env: &Env,
    sc: &Scope,
    coll: Option<CollKind>,
    class_name: &Option<String>,
    type_scope: &Option<String>,
    key_class_name: &Option<String>,
) -> (r: Option<CollInfo>)
    ensures
        r == declared_collection(
            env@,
            sc@,
            coll,
            name_view(*class_name),
            name_view(*type_scope),
            name_view(*key_class_name),
        ),
{
    match coll {
        Some(kind) => Some(
            CollInfo {
                kind,
                elem_class: env.resolve_opt(sc, class_name),
                key_class: env.resolve_opt(sc, key_class_name),
            },
        ),
        None => match class_name {
            Some(name) => env.resolve_collection_alias(sc, type_scope, name.as_str()),
            None => None,
        },
    }
}

/// Note a local of a class or an enumeration type.
pub fn note_type(env: &Env, sc: &mut Scope, name: &String, of: &String)
    ensures
        final(sc)@ == with_typed(env@, old(sc)@, name@, of@),
{
    match env.resolve_class(sc, of.as_str()) {
        Some(cid) => {
            sc.classes.insert(name.clone(), cid);
        },
        None => {
            if let Some(table) = env.enums.get(of.as_str()) {
                sc.enums.insert(name.clone(), table);
            }
        },
    }
}

/// Make an object and run its constructor.
fn gen_object(env: &Env, sc: &Scope, b: &mut Builder, cid: u32, args: &Vec<Expr>) -> (r: Result<
    u32,
    String,
>)
    ensures
        gives(r, final(b)@, constructed(env@, sc@, old(b)@, cid, exprs_view(args@))),
{
    reveal(constructed);
    let obj: u32 = b.reg();
    b.emit(Inst::New { dst: obj, class: cid });
    let ctor: Option<u32> = match env.class(cid) {
        Some(c) => c.ctor,
        None => None,
    };
    match ctor {
        None => Ok(obj),
        Some(func) => match gen_this_call(
            env,
            sc,
            b,
            obj,
            func,
            args,
            Ghost((esizes(exprs_view(args@)) + 1) as nat),
        ) {
            Err(m) => Err(m),
            Ok(_) => Ok(obj),
        },
    }
}

/// Compile `handle = new(args)`.
pub fn gen_new(env: &Env, sc: &Scope, b: &mut Builder, name: &str, args: &Vec<Expr>) -> (r: Result<
    (),
    String,
>)
    ensures
        gives_code(r, final(b)@, new_code(env@, sc@, old(b)@, name@, exprs_view(args@))),
{
    reveal(new_code);
    let cid: u32 = match env.handle(sc, name) {
        Some(cid) => cid,
        None => {
            return Err(text3("`new` assigned to non-class-handle '", name, "'"));
        },
    };
    match gen_object(env, sc, b, cid, args) {
        Err(m) => Err(m),
        Ok(obj) => gen_assign(env, sc, b, name, obj, false),
    }
}

/// Store a value into a local.
fn gen_stored(env: &Env, sc: &Scope, b: &mut Builder, e: &Expr, dst: u32) -> (r: Result<(), String>)
    ensures
        did(
            r,
            sc@,
            final(b)@,
            stored(sc@, expr_code(env@, sc@, old(b)@, e@), dst),
        ),
{
    match gen_expr(env, sc, b, e) {
        Err(m) => Err(m),
        Ok(src) => {
            b.emit(Inst::Assign { dst, src });
            Ok(())
        },
    }
}

/// Store a constant into a local.
fn gen_constant(b: &mut Builder, value: Value, dst: u32)
    ensures
        final(b)@ == emit(
            loaded(old(b)@, value@),
            InstV::Assign { dst, src: old(b)@.regs },
        ),
{
    let src: u32 = b.load(value);
    b.emit(Inst::Assign { dst, src });
}

/// Compile a declaration.
pub fn gen_var(env: &Env, sc: &mut Scope, b: &mut Builder, v: &VarDecl) -> (r: Result<(), String>)
    ensures
        did(r, final(sc)@, final(b)@, var_code(env@, old(sc)@, old(b)@, v@)),
{
    reveal(var_code);
    let reg: u32 = b.reg();
    sc.locals.insert(v.name.clone(), (reg, v.width));
    if v.is_event {
        sc.events.insert(v.name.clone(), ());
        return match &v.init {
            Some(e) => gen_stored(env, sc, b, e, reg),
            None => {
                b.emit(Inst::NewEvent { dst: reg });
                Ok(())
            },
        };
    }
    if let Some(info) = collection_type(
        env,
        sc,
        v.coll,
        &v.class_name,
        &v.type_scope,
        &v.key_class_name,
    ) {
        sc.events.remove(v.name.as_str());
        sc.colls.insert(v.name.clone(), info);
        if info.kind == CollKind::Assoc {
            b.emit(Inst::NewAssoc { dst: reg });
        } else {
            b.emit(Inst::NewQueue { dst: reg });
        }
        return Ok(());
    }
    if let Some(of) = &v.class_name {
        note_type(env, sc, &v.name, of);
        return match &v.init {
            Some(Expr::New { args }) => gen_new(env, sc, b, v.name.as_str(), args),
            Some(e) => gen_stored(env, sc, b, e, reg),
            None => Ok(()),
        };
    }
    match &v.init {
        Some(e) => gen_stored(env, sc, b, e, reg),
        None => {
            if v.is_string {
                let empty: String = String::new();
                assert(empty@ =~= Seq::<char>::empty());
                gen_constant(b, Value::Str(empty), reg);
                Ok(())
            } else if v.width == 0 {
                Err("LogicVec width must be >= 1".to_owned())
            } else {
                gen_constant(b, Value::Logic(LogicVec::zero(v.width)), reg);
                Ok(())
            }
        },
    }
}

// ---- assignments ----------------------------------------------------------------------

/// Read the name of an assignment target, without its index.
fn gen_target(env: &Env, sc: &Scope, b: &mut Builder, lhs: &Lvalue) -> (r: Result<u32, String>)
    ensures
        gives(r, final(b)@, expr_code(env@, sc@, old(b)@, named(lhs@))),
{
    proof {
        lemma_expr_code(env@, sc@, b@, named(lhs@));
    }
    match &lhs.scope {
        Some(scope) => gen_static_ref(env, sc, b, scope.as_str(), lhs.name.as_str()),
        None => match &lhs.receiver {
            Some(obj) => {
                assert((**obj)@ == expr_view(**obj));
                gen_field(env, sc, b, obj, lhs.name.as_str(), Ghost(esize(named(lhs@))))
            },
            None => gen_ref(env, sc, b, lhs.name.as_str()),
        },
    }
}

/// Write an assignment target.
pub fn gen_assign_lvalue(
    env: &Env,
    sc: &Scope,
    b: &mut Builder,
    lhs: &Lvalue,
    src: u32,
    nonblocking: bool,
) -> (r: Result<(), String>)
    ensures
        gives_code(r, final(b)@, lvalue_code(env@, sc@, old(b)@, lhs@, src, nonblocking)),
{
    reveal(lvalue_code);
    if let Some(index) = &lhs.index {
        let base: u32 = match gen_target(env, sc, b, lhs) {
            Ok(r) => r,
            Err(m) => {
                return Err(m);
            },
        };
        return match gen_expr(env, sc, b, index) {
            Err(m) => Err(m),
            Ok(idx) => {
                b.emit(Inst::IndexSet { base, idx, src });
                Ok(())
            },
        };
    }
    if let Some(scope) = &lhs.scope {
        let cid: u32 = match env.resolve_class(sc, scope.as_str()) {
            Some(cid) => cid,
            None => {
                return Err(text3("scoped assign on unknown class '", scope.as_str(), "'"));
            },
        };
        let id: Option<u32> = match env.class(cid) {
            Some(c) => c.static_fields.get(lhs.name.as_str()),
            None => None,
        };
        return match id {
            Some(id) => {
                b.emit(Inst::StaticSet { id, src });
                Ok(())
            },
            None => Err(
                text5(
                    "no static field '",
                    lhs.name.as_str(),
                    "' on class '",
                    scope.as_str(),
                    "'",
                ),
            ),
        };
    }
    if let Some(obj) = &lhs.receiver {
        assert((**obj)@ == expr_view(**obj));
        let reg: u32 = match gen_expr(env, sc, b, obj) {
            Ok(r) => r,
            Err(m) => {
                return Err(m);
            },
        };
        let cid: u32 = match env.receiver_class(sc, obj) {
            Ok(cid) => cid,
            Err(m) => {
                return Err(m);
            },
        };
        let slot: Option<(u32, u32)> = match env.class(cid) {
            Some(c) => c.field_slot.get(lhs.name.as_str()),
            None => None,
        };
        return match slot {
            Some(slot) => {
                b.emit(Inst::SetField { obj: reg, slot: slot.0, src });
                Ok(())
            },
            None => Err(
                text5(
                    "no field '",
                    lhs.name.as_str(),
                    "' on class '",
                    env.class_name(cid).as_str(),
                    "'",
                ),
            ),
        };
    }
    gen_assign(env, sc, b, lhs.name.as_str(), src, nonblocking)
}

/// Compile a blocking assignment.
pub fn gen_blocking(env: &Env, sc: &Scope, b: &mut Builder, lhs: &Lvalue, rhs: &Expr) -> (r: Result<
    (),
    String,
>)
    ensures
        gives_code(r, final(b)@, blocking_code(env@, sc@, old(b)@, lhs@, rhs@)),
{
    reveal(blocking_code);
    if let Expr::New { args } = rhs {
        let index: &Expr = match &lhs.index {
            Some(index) => index,
            None => {
                return gen_new(env, sc, b, lhs.name.as_str(), args);
            },
        };
        let base: Expr = Expr::Ref(lhs.name.clone());
        assert(base@ == expr_view(base));
        let cid: u32 = match env.coll_elem_class(sc, &base) {
            Some(cid) => cid,
            None => {
                return Err(
                    text3("`new` assigned to indexed non-class-handle '", lhs.name.as_str(), "'"),
                );
            },
        };
        let obj: u32 = match gen_object(env, sc, b, cid, args) {
            Ok(r) => r,
            Err(m) => {
                return Err(m);
            },
        };
        let base: u32 = match gen_ref(env, sc, b, lhs.name.as_str()) {
            Ok(r) => r,
            Err(m) => {
                return Err(m);
            },
        };
        return match gen_expr(env, sc, b, index) {
            Err(m) => Err(m),
            Ok(idx) => {
                b.emit(Inst::IndexSet { base, idx, src: obj });
                Ok(())
            },
        };
    }
    match gen_expr(env, sc, b, rhs) {
        Err(m) => Err(m),
        Ok(src) => gen_assign_lvalue(env, sc, b, lhs, src, false),
    }
}

// ---- system tasks and timing ----------------------------------------------------------

/// Compile a system task.
pub fn gen_sys_call(env: &Env, sc: &Scope, b: &mut Builder, name: &str, args: &Vec<Expr>) -> (r: Result<
    (),
    String,
>)
    ensures
        gives_code(r, final(b)@, sys_call_code(env@, sc@, old(b)@, name@, exprs_view(args@))),
{
    reveal(sys_call_code);
    let ghost all = exprs_view(args@);
    let ghost bound = (esizes(all) + 1) as nat;
    assert(all.len() == args@.len());
    if str_eq(name, "$display") || str_eq(name, "$write") {
        assert(all.skip(0) =~= all);
        let (fmt, from): (String, usize) = split_format(args, 0);
        return match gen_args(env, sc, b, args, from, Ghost(bound)) {
            Err(m) => Err(m),
            Ok(regs) => {
                b.emit(Inst::Display { fmt, args: regs });
                Ok(())
            },
        };
    }
    if str_eq(name, "$swrite") || str_eq(name, "$sformat") {
        if args.len() > 0 {
            assert(all[0] == expr_view(args@[0]));
            if let Expr::Ref(target) = &args[0] {
                let (fmt, from): (String, usize) = split_format(args, 1);
                return match gen_args(env, sc, b, args, from, Ghost(bound)) {
                    Err(m) => Err(m),
                    Ok(regs) => {
                        let dst: u32 = b.reg();
                        b.emit(Inst::Format { dst, fmt, args: regs });
                        gen_assign(env, sc, b, target.as_str(), dst, false)
                    },
                };
            }
        }
        return Ok(());
    }
    if str_eq(name, "$cast") && args.len() == 2 {
        return match gen_cast(env, sc, b, args, Ghost(bound)) {
            Err(m) => Err(m),
            Ok(_) => Ok(()),
        };
    }
    Ok(())
}

/// Compile an event control.
fn gen_event(env: &Env, sc: &Scope, b: &mut Builder, c: &TimingControl) -> (r: Result<(), String>)
    requires
        c is Event,
    ensures
        gives_code(r, final(b)@, timing_code(env@, sc@, old(b)@, c@)),
{
    reveal(timing_code);
    if let TimingControl::Event(evs) = c {
        if evs.len() != 1 {
            return Err(
                text3(
                    "assertion `left == right` failed: multi-signal sensitivity not yet supported (needs a WaitAny opcode)\n  left: ",
                    number_text(evs.len() as u64).as_str(),
                    "\n right: 1",
                ),
            );
        }
        assert(c@->Event_0[0] == evs@[0]@);
        if let Expr::Ref(name) = &evs[0].expr {
            if let Some(net) = env.nets.get(name.as_str()) {
                b.emit(Inst::WaitEdge { net: net.0, edge: evs[0].edge });
                return Ok(());
            }
        }
        let event: u32 = match gen_expr(env, sc, b, &evs[0].expr) {
            Ok(r) => r,
            Err(m) => {
                return Err(m);
            },
        };
        return match env.is_named_event_expr(sc, &evs[0].expr) {
            Err(m) => Err(m),
            Ok(yes) => {
                if yes {
                    b.emit(Inst::WaitEvent { event });
                } else {
                    b.emit(Inst::WaitChange { value: event });
                }
                Ok(())
            },
        };
    }
    Ok(())
}

/// Compile a timing control.
pub fn gen_timing(env: &Env, sc: &Scope, b: &mut Builder, c: &TimingControl) -> (r: Result<
    (),
    String,
>)
    ensures
        gives_code(r, final(b)@, timing_code(env@, sc@, old(b)@, c@)),
{
    match c {
        TimingControl::Delay(e) => {
            reveal(timing_code);
            match const_eval_with(e, &env.consts) {
                Err(m) => Err(m),
                Ok(v) => {
                    b.emit(Inst::Delay { amount: v.to_u64() });
                    Ok(())
                },
            }
        },
        TimingControl::Event(_) => gen_event(env, sc, b, c),
        TimingControl::Wait(cond) => {
            reveal(timing_code);
            let check: u32 = b.label();
            let ready: u32 = b.label();
            b.emit(Inst::Bind { label: check });
            match gen_expr(env, sc, b, cond) {
                Err(m) => Err(m),
                Ok(v) => {
                    b.emit(Inst::BranchTrue { cond: v, label: ready });
                    b.emit(Inst::WaitRuntime);
                    b.emit(Inst::Jump { label: check });
                    b.emit(Inst::Bind { label: ready });
                    Ok(())
                },
            }
        },
    }
}

} // verus!
