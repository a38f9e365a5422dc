//! The code of an expression.
//!
//! Code for an expression leaves its value in a register. A local is read in
//! place; everything else goes to a new register.
use vstd::prelude::*;

use crate::ast::UnaryOp;
use crate::ast_model::ExprV;
use crate::bit::Bit;
use crate::bits::{bits_of, fill};
use crate::const_fold::Made;
use crate::ir::{
    called, emit, loaded, static_read, with_label, with_reg, Code, CollOp, InstV, ValueV,
};
use crate::layout::{
    class_at, class_name_at, class_named, class_of, collection_of, or_error, own_class, own_field,
    own_method, own_static, plain_local, receiver, EnvV, ScopeV,
};
use crate::table::lookup;

verus! {

/// Code and the register that holds a value, or why there is none.
pub type Coded = Made<(Code, u32)>;

/// The number of nodes of an expression.
pub open spec fn esize(e: ExprV) -> nat
    decreases e,
{
    match e {
        ExprV::Unary { op, operand } => 1 + esize(*operand),
        ExprV::Binary { op, lhs, rhs } => 1 + esize(*lhs) + esize(*rhs),
        ExprV::Call { name, args } => 1 + esizes(args),
        ExprV::Field { obj, field } => 1 + esize(*obj),
        ExprV::MethodCall { obj, method, args } => 1 + esize(*obj) + esizes(args),
        ExprV::StaticCall { class_name, class_args, method, args } => 1 + esizes(args),
        ExprV::Index { base, index } => 1 + esize(*base) + esize(*index),
        ExprV::PartSelect { base, left, right } => 1 + esize(*base) + esize(*left) + esize(*right),
        ExprV::New { args } => 1 + esizes(args),
        ExprV::Concat(parts) => 1 + esizes(parts),
        ExprV::SysCall { name, args } => 1 + esizes(args),
        _ => 1,
    }
}

/// The number of nodes of expressions.
pub open spec fn esizes(s: Seq<ExprV>) -> nat
    decreases s,
{
    if s.len() == 0 {
        0
    } else {
        esize(s[0]) + esizes(s.drop_first())
    }
}

/// An expression of a list is no larger than the list.
pub proof fn lemma_esizes(s: Seq<ExprV>, i: int)
    requires
        0 <= i < s.len(),
    ensures
        esize(s[i]) <= esizes(s),
    decreases s.len(),
{
    if i > 0 {
        lemma_esizes(s.drop_first(), i - 1);
        assert(s.drop_first()[i - 1] == s[i]);
    }
}

/// The code of expressions one after the other, and their registers.
pub open spec fn args_code(
    f: spec_fn(Code, ExprV) -> Coded,
    b: Code,
    args: Seq<ExprV>,
) -> Made<(Code, Seq<u32>)>
    decreases args.len(),
{
    if args.len() == 0 {
        Ok((b, Seq::empty()))
    } else {
        match args_code(f, b, args.drop_last()) {
            Err(m) => Err(m),
            Ok((b1, regs)) => match f(b1, args.last()) {
                Err(m) => Err(m),
                Ok((b2, r)) => Ok((b2, regs.push(r))),
            },
        }
    }
}

/// A format for values without one: `%0d` for each.
pub open spec fn default_format(n: nat) -> Seq<char>
    decreases n,
{
    if n == 0 {
        Seq::empty()
    } else if n == 1 {
        "%0d"@
    } else {
        default_format((n - 1) as nat) + " "@ + "%0d"@
    }
}

/// The format of arguments: a string in front, or the default.
pub open spec fn format_of(args: Seq<ExprV>) -> Seq<char> {
    if args.len() > 0 {
        match args[0] {
            ExprV::Str(s) => s,
            _ => default_format(args.len()),
        }
    } else {
        default_format(0)
    }
}

/// The arguments behind a format.
pub open spec fn formatted(args: Seq<ExprV>) -> Seq<ExprV> {
    if args.len() > 0 && args[0] is Str {
        args.skip(1)
    } else {
        args
    }
}

/// The built-in method of a collection that a name names.
pub open spec fn collection_method(name: Seq<char>) -> Option<CollOp> {
    if name == "push_back"@ {
        Some(CollOp::PushBack)
    } else if name == "push_front"@ {
        Some(CollOp::PushFront)
    } else if name == "pop_back"@ {
        Some(CollOp::PopBack)
    } else if name == "pop_front"@ {
        Some(CollOp::PopFront)
    } else if name == "size"@ {
        Some(CollOp::Size)
    } else if name == "insert"@ {
        Some(CollOp::Insert)
    } else if name == "delete"@ {
        Some(CollOp::Delete)
    } else if name == "exists"@ {
        Some(CollOp::Exists)
    } else if name == "num"@ {
        Some(CollOp::Num)
    } else if name == "first"@ {
        Some(CollOp::First)
    } else if name == "last"@ {
        Some(CollOp::Last)
    } else if name == "next"@ {
        Some(CollOp::Next)
    } else if name == "prev"@ {
        Some(CollOp::Prev)
    } else {
        None
    }
}

// ---- names ------------------------------------------------------------------------

/// The code of a call of a method of the class of the method being compiled, on
/// `this`; virtual where the method is.
#[verifier::opaque]
pub open spec fn on_this(env: EnvV, sc: ScopeV, b: Code, method: Seq<char>, args: Seq<u32>) -> Coded {
    match own_class(env, sc) {
        None => Err("method call outside a method"@),
        Some(c) => match lookup(c.vslot_of, method) {
            Some(vslot) => Ok(
                (
                    emit(
                        with_reg(b),
                        InstV::CallVirtual { obj: sc.this_reg, vslot, args, ret: b.regs },
                    ),
                    b.regs,
                ),
            ),
            None => match lookup(c.methods, method) {
                Some(func) => Ok((called(b, func, args), b.regs)),
                None => Err("method call outside a method"@),
            },
        },
    }
}

/// The net that a name is, or that there is none.
pub open spec fn net_of(env: EnvV, name: Seq<char>) -> Made<u32> {
    match lookup(env.nets, name) {
        Some(n) => Ok(n.0),
        None => Err("elaboration: unknown signal '"@ + name + "'"@),
    }
}

/// The code that reads a name: `this`, a local, a field, a static field, a
/// global, a constant, a method without arguments, or a net, in that order.
#[verifier::opaque]
pub open spec fn ref_code(env: EnvV, sc: ScopeV, b: Code, name: Seq<char>) -> Coded {
    if name == "this"@ {
        Ok((b, sc.this_reg))
    } else if lookup(sc.locals, name) is Some {
        Ok((b, (lookup(sc.locals, name)->0).0))
    } else if own_field(env, sc, name) is Some {
        Ok(
            (
                emit(
                    with_reg(b),
                    InstV::GetField {
                        dst: b.regs,
                        obj: sc.this_reg,
                        slot: (own_field(env, sc, name)->0).0,
                    },
                ),
                b.regs,
            ),
        )
    } else if own_static(env, sc, name) is Some {
        Ok((static_read(b, own_static(env, sc, name)->0), b.regs))
    } else if lookup(env.vars, name) is Some {
        Ok((static_read(b, lookup(env.vars, name)->0), b.regs))
    } else if lookup(env.consts, name) is Some {
        Ok((loaded(b, ValueV::Logic(lookup(env.consts, name)->0)), b.regs))
    } else if own_method(env, sc, name) {
        on_this(env, sc, b, name, seq![sc.this_reg])
    } else {
        match net_of(env, name) {
            Err(m) => Err(m),
            Ok(net) => Ok((emit(with_reg(b), InstV::NetRead { dst: b.regs, net }), b.regs)),
        }
    }
}

/// The code that writes a name: a local, a field, a static field, a global, or a
/// net.
#[verifier::opaque]
pub open spec fn assign_code(
    env: EnvV,
    sc: ScopeV,
    b: Code,
    name: Seq<char>,
    src: u32,
    nonblocking: bool,
) -> Made<Code> {
    if lookup(sc.locals, name) is Some {
        let dst = (lookup(sc.locals, name)->0).0;
        if nonblocking {
            Ok(emit(b, InstV::NbaAssign { dst, src }))
        } else {
            Ok(emit(b, InstV::Assign { dst, src }))
        }
    } else if own_field(env, sc, name) is Some {
        Ok(
            emit(
                b,
                InstV::SetField {
                    obj: sc.this_reg,
                    slot: (own_field(env, sc, name)->0).0,
                    src,
                },
            ),
        )
    } else if own_static(env, sc, name) is Some {
        Ok(emit(b, InstV::StaticSet { id: own_static(env, sc, name)->0, src }))
    } else if lookup(env.vars, name) is Some {
        Ok(emit(b, InstV::StaticSet { id: lookup(env.vars, name)->0, src }))
    } else {
        match net_of(env, name) {
            Err(m) => Err(m),
            Ok(net) => if nonblocking {
                Ok(emit(b, InstV::NbaWrite { net, src }))
            } else {
                Ok(emit(b, InstV::BlockingWrite { net, src }))
            },
        }
    }
}

/// A static field of a class that a name means.
pub open spec fn static_of(env: EnvV, sc: ScopeV, class_name: Seq<char>, field: Seq<char>) -> Option<
    u32,
> {
    match class_named(env, sc, class_name) {
        Some(cid) => match class_at(env, cid) {
            Some(c) => lookup(c.static_fields, field),
            None => None,
        },
        None => None,
    }
}

/// The code that reads a scoped name: a global, a constant, a static field, or a
/// plain name.
#[verifier::opaque]
pub open spec fn static_ref_code(
    env: EnvV,
    sc: ScopeV,
    b: Code,
    class_name: Seq<char>,
    field: Seq<char>,
) -> Coded {
    if lookup(env.vars, field) is Some {
        Ok((static_read(b, lookup(env.vars, field)->0), b.regs))
    } else if lookup(env.consts, field) is Some {
        Ok((loaded(b, ValueV::Logic(lookup(env.consts, field)->0)), b.regs))
    } else if static_of(env, sc, class_name, field) is Some {
        Ok((static_read(b, static_of(env, sc, class_name, field)->0), b.regs))
    } else if lookup(env.consts, class_name) is Some {
        Ok((loaded(b, ValueV::Logic(lookup(env.consts, class_name)->0)), b.regs))
    } else {
        ref_code(env, sc, with_reg(b), field)
    }
}

// ---- calls ------------------------------------------------------------------------

/// The code of a call with `this` in front of the arguments.
pub open spec fn this_call(
    f: spec_fn(Code, ExprV) -> Coded,
    b: Code,
    this: u32,
    func: u32,
    args: Seq<ExprV>,
) -> Coded {
    match args_code(f, b, args) {
        Err(m) => Err(m),
        Ok((b1, regs)) => Ok((called(b1, func, seq![this] + regs), b1.regs)),
    }
}

/// The code of a call of a function.
pub open spec fn plain_call(
    f: spec_fn(Code, ExprV) -> Coded,
    b: Code,
    func: u32,
    args: Seq<ExprV>,
) -> Coded {
    match args_code(f, b, args) {
        Err(m) => Err(m),
        Ok((b1, regs)) => Ok((called(b1, func, regs), b1.regs)),
    }
}

/// The code of a call of a method of the class of the method being compiled.
pub open spec fn this_method(
    f: spec_fn(Code, ExprV) -> Coded,
    env: EnvV,
    sc: ScopeV,
    b: Code,
    method: Seq<char>,
    args: Seq<ExprV>,
) -> Coded {
    match args_code(f, b, args) {
        Err(m) => Err(m),
        Ok((b1, regs)) => on_this(env, sc, b1, method, seq![sc.this_reg] + regs),
    }
}

/// The code of `f(args)`: a method of the class comes before a function.
#[verifier::opaque]
pub open spec fn call_code(
    f: spec_fn(Code, ExprV) -> Coded,
    env: EnvV,
    sc: ScopeV,
    b: Code,
    name: Seq<char>,
    args: Seq<ExprV>,
) -> Coded {
    if own_method(env, sc, name) {
        this_method(f, env, sc, b, name, args)
    } else {
        match lookup(env.funcs, name) {
            Some(func) => plain_call(f, b, func, args),
            None => Err("call to unknown function '"@ + name + "'"@),
        }
    }
}

/// The base class of the class of the method being compiled.
pub open spec fn base_of(env: EnvV, sc: ScopeV) -> Option<u32> {
    match own_class(env, sc) {
        Some(c) => c.base,
        None => None,
    }
}

/// The function that `super.method` is.
pub open spec fn super_function(env: EnvV, sc: ScopeV, method: Seq<char>) -> Made<u32> {
    match base_of(env, sc) {
        None => Err("`super` used without a base class"@),
        Some(base) => if method == "new"@ {
            or_error(
                match class_at(env, base) {
                    Some(c) => c.ctor,
                    None => None,
                },
                "base class has no constructor"@,
            )
        } else {
            or_error(
                match class_at(env, base) {
                    Some(c) => lookup(c.methods, method),
                    None => None,
                },
                "base class has no method '"@ + method + "'"@,
            )
        },
    }
}

/// The code of a method of a collection.
pub open spec fn collection_call(
    f: spec_fn(Code, ExprV) -> Coded,
    b: Code,
    base: u32,
    op: CollOp,
    args: Seq<ExprV>,
) -> Coded {
    match args_code(f, b, args) {
        Err(m) => Err(m),
        Ok((b1, regs)) => Ok(
            (
                emit(with_reg(b1), InstV::CollMethod { dst: b1.regs, base, op, args: regs }),
                b1.regs,
            ),
        ),
    }
}

/// Code, and the register that holds a value where there is one.
pub type Tried = Made<(Code, Option<u32>)>;

/// What a name that may hold a string loads: a plain local, a field that is
/// neither a handle nor a collection, or any local.
#[verifier::opaque]
pub open spec fn string_code(env: EnvV, sc: ScopeV, b: Code, obj: ExprV) -> Tried {
    match obj {
        ExprV::Ref(name) => {
            let plain_field = match own_class(env, sc) {
                Some(c) => if lookup(c.field_slot, name) is Some && lookup(c.field_class, name) is None
                    && lookup(c.field_coll, name) is None {
                    lookup(c.field_slot, name)
                } else {
                    None
                },
                None => None,
            };
            if plain_local(sc, name) {
                tried(ref_code(env, sc, b, name))
            } else if plain_field is Some {
                Ok(
                    (
                        emit(
                            with_reg(b),
                            InstV::GetField {
                                dst: b.regs,
                                obj: sc.this_reg,
                                slot: (plain_field->0).0,
                            },
                        ),
                        Some(b.regs),
                    ),
                )
            } else if lookup(sc.locals, name) is Some {
                tried(ref_code(env, sc, b, name))
            } else {
                Ok((b, None))
            }
        },
        _ => Ok((b, None)),
    }
}

/// A value that is there.
pub open spec fn tried(c: Coded) -> Tried {
    match c {
        Err(m) => Err(m),
        Ok((b, r)) => Ok((b, Some(r))),
    }
}

/// The code of a string method without arguments.
pub open spec fn string_inst(method: Seq<char>, dst: u32, src: u32) -> Option<InstV> {
    if method == "len"@ {
        Some(InstV::StringLen { dst, src })
    } else if method == "toupper"@ {
        Some(InstV::StringToUpper { dst, src })
    } else if method == "tolower"@ {
        Some(InstV::StringToLower { dst, src })
    } else if method == "atoi"@ || method == "atoreal"@ {
        Some(InstV::StringAtoi { dst, src })
    } else {
        None
    }
}

/// The code of a built-in method of a string.
#[verifier::opaque]
pub open spec fn string_method(
    f: spec_fn(Code, ExprV) -> Coded,
    b: Code,
    src: u32,
    method: Seq<char>,
    args: Seq<ExprV>,
) -> Tried {
    if args.len() == 0 && string_inst(method, b.regs, src) is Some {
        Ok((emit(with_reg(b), string_inst(method, b.regs, src)->0), Some(b.regs)))
    } else if args.len() == 2 && method == "substr"@ {
        match f(b, args[0]) {
            Err(m) => Err(m),
            Ok((b1, lo)) => match f(b1, args[1]) {
                Err(m) => Err(m),
                Ok((b2, hi)) => Ok(
                    (
                        emit(with_reg(b2), InstV::StringSub { dst: b2.regs, src, lo, hi }),
                        Some(b2.regs),
                    ),
                ),
            },
        }
    } else {
        Ok((b, None))
    }
}

/// The name that an expression is.
pub open spec fn ref_name(e: ExprV) -> Option<Seq<char>> {
    match e {
        ExprV::Ref(name) => Some(name),
        _ => None,
    }
}

/// The code of a built-in method of an enumeration or a string. Where it is none,
/// loading the receiver may have left code.
#[verifier::opaque]
pub open spec fn builtin_code(
    f: spec_fn(Code, ExprV) -> Coded,
    env: EnvV,
    sc: ScopeV,
    b: Code,
    obj: ExprV,
    method: Seq<char>,
    args: Seq<ExprV>,
) -> Tried {
    let name = match ref_name(obj) {
        Some(n) => n,
        None => Seq::empty(),
    };
    if method == "name"@ && args.len() == 0 && obj is Ref && lookup(sc.enums, name) is Some {
        match ref_code(env, sc, b, name) {
            Err(m) => Err(m),
            Ok((b1, src)) => Ok(
                (
                    emit(
                        with_reg(b1),
                        InstV::EnumName {
                            dst: b1.regs,
                            src,
                            table: lookup(sc.enums, name)->0,
                        },
                    ),
                    Some(b1.regs),
                ),
            ),
        }
    } else if method == "itoa"@ && args.len() == 1 && obj is Ref && plain_local(sc, name) {
        match f(b, args[0]) {
            Err(m) => Err(m),
            Ok((b1, value)) => {
                let b2 = emit(
                    with_reg(b1),
                    InstV::Format { dst: b1.regs, fmt: "%0d"@, args: seq![value] },
                );
                match assign_code(env, sc, b2, name, b1.regs, false) {
                    Err(m) => Err(m),
                    Ok(b3) => Ok((b3, Some(b1.regs))),
                }
            },
        }
    } else {
        match string_code(env, sc, b, obj) {
            Err(m) => Err(m),
            Ok((b1, None)) => Ok((b1, None)),
            Ok((b1, Some(src))) => string_method(f, b1, src, method, args),
        }
    }
}

/// The code of a method of a class on an object: virtual, direct, or a method of
/// a collection.
#[verifier::opaque]
pub open spec fn dispatched(
    f: spec_fn(Code, ExprV) -> Coded,
    env: EnvV,
    b: Code,
    obj: u32,
    cid: u32,
    method: Seq<char>,
    args: Seq<ExprV>,
) -> Coded {
    match args_code(f, b, args) {
        Err(m) => Err(m),
        Ok((b1, regs)) => {
            let (vslot, func) = match class_at(env, cid) {
                Some(c) => (lookup(c.vslot_of, method), lookup(c.methods, method)),
                None => (None, None),
            };
            if vslot is Some {
                Ok(
                    (
                        emit(
                            with_reg(b1),
                            InstV::CallVirtual {
                                obj,
                                vslot: vslot->0,
                                args: seq![obj] + regs,
                                ret: b1.regs,
                            },
                        ),
                        b1.regs,
                    ),
                )
            } else if func is Some {
                Ok((called(b1, func->0, seq![obj] + regs), b1.regs))
            } else {
                match collection_method(method) {
                    Some(op) => Ok(
                        (
                            emit(
                                with_reg(b1),
                                InstV::CollMethod { dst: b1.regs, base: obj, op, args: regs },
                            ),
                            b1.regs,
                        ),
                    ),
                    None => Err(
                        "no method '"@ + method + "' on class '"@ + class_name_at(env, cid) + "'"@,
                    ),
                }
            }
        },
    }
}

/// The code of `obj.method(args)` once it is neither `super`, nor a method of a
/// known collection, nor built in.
#[verifier::opaque]
pub open spec fn object_call(
    f: spec_fn(Code, ExprV) -> Coded,
    env: EnvV,
    sc: ScopeV,
    b: Code,
    obj: ExprV,
    method: Seq<char>,
    args: Seq<ExprV>,
) -> Coded {
    match f(b, obj) {
        Err(m) => Err(m),
        Ok((b1, reg)) => if obj is Ref && class_of(env, sc, obj) is None {
            match collection_method(method) {
                Some(op) => collection_call(f, b1, reg, op, args),
                None => Err(
                    "'"@ + (match ref_name(obj) {
                        Some(n) => n,
                        None => Seq::empty(),
                    }) + "' is not a class handle"@,
                ),
            }
        } else {
            match receiver(env, sc, obj) {
                Err(m) => Err(m),
                Ok(cid) => dispatched(f, env, b1, reg, cid, method, args),
            }
        },
    }
}

/// The code of `obj.method(args)`.
#[verifier::opaque]
pub open spec fn method_code(
    f: spec_fn(Code, ExprV) -> Coded,
    env: EnvV,
    sc: ScopeV,
    b: Code,
    obj: ExprV,
    method: Seq<char>,
    args: Seq<ExprV>,
) -> Coded {
    if ref_name(obj) == Some("super"@) {
        match super_function(env, sc, method) {
            Err(m) => Err(m),
            Ok(func) => this_call(f, b, sc.this_reg, func, args),
        }
    } else if collection_of(env, sc, obj) is Some && collection_method(method) is Some {
        match f(b, obj) {
            Err(m) => Err(m),
            Ok((b1, base)) => collection_call(f, b1, base, collection_method(method)->0, args),
        }
    } else {
        match builtin_code(f, env, sc, b, obj, method, args) {
            Err(m) => Err(m),
            Ok((b1, Some(r))) => Ok((b1, r)),
            Ok((b1, None)) => object_call(f, env, sc, b1, obj, method, args),
        }
    }
}

/// The code of `obj.field`.
#[verifier::opaque]
pub open spec fn field_code(
    f: spec_fn(Code, ExprV) -> Coded,
    env: EnvV,
    sc: ScopeV,
    b: Code,
    obj: ExprV,
    field: Seq<char>,
) -> Coded {
    match f(b, obj) {
        Err(m) => Err(m),
        Ok((b1, reg)) => match receiver(env, sc, obj) {
            Err(m) => Err(m),
            Ok(cid) => {
                let (slot, id) = match class_at(env, cid) {
                    Some(c) => (lookup(c.field_slot, field), lookup(c.static_fields, field)),
                    None => (None, None),
                };
                if slot is Some {
                    Ok(
                        (
                            emit(
                                with_reg(b1),
                                InstV::GetField { dst: b1.regs, obj: reg, slot: (slot->0).0 },
                            ),
                            b1.regs,
                        ),
                    )
                } else if id is Some {
                    Ok((static_read(b1, id->0), b1.regs))
                } else {
                    Err("no field '"@ + field + "' on the receiver class"@)
                }
            },
        },
    }
}

/// The code of `Class::method(args)` where the scope is a class.
pub open spec fn class_call(
    f: spec_fn(Code, ExprV) -> Coded,
    env: EnvV,
    b: Code,
    cid: u32,
    class_name: Seq<char>,
    method: Seq<char>,
    args: Seq<ExprV>,
) -> Coded {
    match class_at(env, cid) {
        Some(c) => match lookup(c.methods, method) {
            Some(func) => this_call(f, loaded(b, ValueV::Null), b.regs, func, args),
            None => Err("no static method '"@ + method + "' on class '"@ + class_name + "'"@),
        },
        None => Err("no static method '"@ + method + "' on class '"@ + class_name + "'"@),
    }
}

/// The code of `Scope::method(args)`: a method of a class, or a function or
/// global of a package.
#[verifier::opaque]
pub open spec fn static_call_code(
    f: spec_fn(Code, ExprV) -> Coded,
    env: EnvV,
    sc: ScopeV,
    b: Code,
    class_name: Seq<char>,
    method: Seq<char>,
    args: Seq<ExprV>,
) -> Coded {
    match class_named(env, sc, class_name) {
        Some(cid) => class_call(f, env, b, cid, class_name, method, args),
        None => if lookup(env.funcs, method) is Some {
            plain_call(f, b, lookup(env.funcs, method)->0, args)
        } else if lookup(env.vars, method) is Some {
            Ok((static_read(b, lookup(env.vars, method)->0), b.regs))
        } else if class_name == "process"@ && method == "self"@ {
            Ok((loaded(b, ValueV::Null), b.regs))
        } else {
            Err("static call on unknown class '"@ + class_name + "'"@)
        },
    }
}

// ---- system functions -----------------------------------------------------------------

/// The code of `$cast(dst, src)`: whether it succeeded.
#[verifier::opaque]
pub open spec fn cast_code(
    f: spec_fn(Code, ExprV) -> Coded,
    env: EnvV,
    sc: ScopeV,
    b: Code,
    args: Seq<ExprV>,
) -> Coded {
    match f(b, args[1]) {
        Err(m) => Err(m),
        Ok((b0, src)) => {
            let b1 = with_reg(b0);
            let ok = b0.regs;
            match ref_name(args[0]) {
                None => Ok(
                    (
                        emit(
                            b1,
                            InstV::Load { dst: ok, value: ValueV::Logic(fill(Bit::Zero, 1)) },
                        ),
                        ok,
                    ),
                ),
                Some(name) => match class_of(env, sc, args[0]) {
                    Some(class) => {
                        let b2 = emit(b1, InstV::ClassCast { dst: ok, src, class });
                        let done = b2.labels;
                        let b3 = emit(
                            with_label(b2),
                            InstV::BranchFalse { cond: ok, label: done },
                        );
                        match assign_code(env, sc, b3, name, src, false) {
                            Err(m) => Err(m),
                            Ok(b4) => Ok((emit(b4, InstV::Bind { label: done }), ok)),
                        }
                    },
                    None => match assign_code(env, sc, b1, name, src, false) {
                        Err(m) => Err(m),
                        Ok(b2) => Ok(
                            (
                                emit(
                                    b2,
                                    InstV::Load { dst: ok, value: ValueV::Logic(bits_of(1, 1)) },
                                ),
                                ok,
                            ),
                        ),
                    },
                },
            }
        },
    }
}

/// The code of a system function.
#[verifier::opaque]
pub open spec fn sys_func_code(
    f: spec_fn(Code, ExprV) -> Coded,
    env: EnvV,
    sc: ScopeV,
    b: Code,
    name: Seq<char>,
    args: Seq<ExprV>,
) -> Coded {
    if name == "$sformatf"@ || name == "$psprintf"@ {
        match args_code(f, b, formatted(args)) {
            Err(m) => Err(m),
            Ok((b1, regs)) => Ok(
                (
                    emit(
                        with_reg(b1),
                        InstV::Format { dst: b1.regs, fmt: format_of(args), args: regs },
                    ),
                    b1.regs,
                ),
            ),
        }
    } else if name == "$realtime"@ || name == "$time"@ || name == "$stime"@ {
        Ok((emit(with_reg(b), InstV::SimTime { dst: b.regs }), b.regs))
    } else if name == "$typename"@ {
        if args.len() > 0 {
            f(b, args[0])
        } else {
            Ok((loaded(b, ValueV::Str(Seq::empty())), b.regs))
        }
    } else if name == "$cast"@ && args.len() == 2 {
        cast_code(f, env, sc, b, args)
    } else {
        match args_code(f, b, args) {
            Err(m) => Err(m),
            Ok((b1, regs)) => Ok((loaded(b1, ValueV::Logic(fill(Bit::Zero, 32))), b1.regs)),
        }
    }
}

// ---- expressions ----------------------------------------------------------------------

/// The instruction of a unary operator.
pub open spec fn unary_inst(op: UnaryOp, dst: u32, a: u32) -> InstV {
    if op == UnaryOp::Plus {
        InstV::Mov { dst, src: a }
    } else {
        InstV::Unary { op, dst, a }
    }
}

/// The code of two operands, one after the other.
pub open spec fn two(f: spec_fn(Code, ExprV) -> Coded, b: Code, x: ExprV, y: ExprV) -> Made<
    (Code, u32, u32),
> {
    match f(b, x) {
        Err(m) => Err(m),
        Ok((b1, r)) => match f(b1, y) {
            Err(m) => Err(m),
            Ok((b2, s)) => Ok((b2, r, s)),
        },
    }
}

/// The code of `base[index]`: an element, or a byte of a string.
#[verifier::opaque]
pub open spec fn index_code(
    f: spec_fn(Code, ExprV) -> Coded,
    sc: ScopeV,
    b: Code,
    base: ExprV,
    index: ExprV,
) -> Coded {
    match two(f, b, base, index) {
        Err(m) => Err(m),
        Ok((b1, r, idx)) => Ok(
            (
                emit(
                    with_reg(b1),
                    if ref_name(base) matches Some(name) && plain_local(sc, name) {
                        InstV::StringIndex { dst: b1.regs, src: r, idx }
                    } else {
                        InstV::IndexGet { dst: b1.regs, base: r, idx }
                    },
                ),
                b1.regs,
            ),
        ),
    }
}

/// The code of an expression, given that of its parts.
pub open spec fn expr_with(
    f: spec_fn(Code, ExprV) -> Coded,
    env: EnvV,
    sc: ScopeV,
    b: Code,
    e: ExprV,
) -> Coded {
    match e {
        ExprV::Literal(bits) => Ok((loaded(b, ValueV::Logic(bits)), b.regs)),
        ExprV::Str(s) => Ok((loaded(b, ValueV::Str(s)), b.regs)),
        ExprV::Ref(name) => ref_code(env, sc, b, name),
        ExprV::Unary { op, operand } => match f(b, *operand) {
            Err(m) => Err(m),
            Ok((b1, a)) => Ok((emit(with_reg(b1), unary_inst(op, b1.regs, a)), b1.regs)),
        },
        ExprV::Binary { op, lhs, rhs } => match two(f, b, *lhs, *rhs) {
            Err(m) => Err(m),
            Ok((b1, x, y)) => Ok(
                (emit(with_reg(b1), InstV::Binary { op, dst: b1.regs, a: x, b: y }), b1.regs),
            ),
        },
        ExprV::Call { name, args } => call_code(f, env, sc, b, name, args),
        ExprV::MethodCall { obj, method, args } => method_code(f, env, sc, b, *obj, method, args),
        ExprV::Field { obj, field } => field_code(f, env, sc, b, *obj, field),
        ExprV::Index { base, index } => index_code(f, sc, b, *base, *index),
        ExprV::PartSelect { base, left, right } => match two(f, b, *base, *left) {
            Err(m) => Err(m),
            Ok((b1, r, l)) => match f(b1, *right) {
                Err(m) => Err(m),
                Ok((b2, h)) => Ok(
                    (
                        emit(
                            with_reg(b2),
                            InstV::PartSelect { dst: b2.regs, base: r, left: l, right: h },
                        ),
                        b2.regs,
                    ),
                ),
            },
        },
        ExprV::StaticCall { class_name, class_args, method, args } => static_call_code(
            f,
            env,
            sc,
            b,
            class_name,
            method,
            args,
        ),
        ExprV::StaticRef { class_name, field } => static_ref_code(env, sc, b, class_name, field),
        ExprV::New { args } => Err("`new` is only supported as `handle = new(...)` for now"@),
        ExprV::Null => Ok((loaded(b, ValueV::Null), b.regs)),
        ExprV::Concat(parts) => match args_code(f, b, parts) {
            Err(m) => Err(m),
            Ok((b1, regs)) => Ok(
                (emit(with_reg(b1), InstV::Concat { dst: b1.regs, args: regs }), b1.regs),
            ),
        },
        ExprV::SysCall { name, args } => sys_func_code(f, env, sc, b, name, args),
    }
}

/// The code of an expression.
#[verifier::opaque]
pub open spec fn expr_code(env: EnvV, sc: ScopeV, b: Code, e: ExprV) -> Coded
    decreases esize(e), 1int,
{
    expr_with(exprs_below(env, sc, esize(e)), env, sc, b, e)
}

/// The code of expressions of less than a size; there is none of others.
#[verifier::opaque]
pub open spec fn exprs_below(env: EnvV, sc: ScopeV, bound: nat) -> spec_fn(Code, ExprV) -> Coded
    decreases bound, 0int,
{
    |b: Code, e: ExprV|
        if esize(e) < bound {
            expr_code(env, sc, b, e)
        } else {
            Err(Seq::empty())
        }
}

/// Compiling below a bound is compiling.
pub proof fn lemma_exprs_below(env: EnvV, sc: ScopeV, bound: nat, b: Code, e: ExprV)
    requires
        esize(e) < bound,
    ensures
        exprs_below(env, sc, bound)(b, e) == expr_code(env, sc, b, e),
{
    reveal(exprs_below);
    reveal(expr_code);
}

/// An expression compiles by its own parts.
pub proof fn lemma_expr_code(env: EnvV, sc: ScopeV, b: Code, e: ExprV)
    ensures
        expr_code(env, sc, b, e) == expr_with(exprs_below(env, sc, esize(e)), env, sc, b, e),
{
    reveal(exprs_below);
    reveal(expr_code);
}

} // verus!
