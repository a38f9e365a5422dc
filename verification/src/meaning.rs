//! What expressions mean: the value that an expression has in a state, and what its
//! calls do to the world.
//!
//! The locals are in registers. What a name means, what a call calls and in which order
//! parts are evaluated is said here of the source; that the code of an expression
//! computes this is a law.
use vstd::prelude::*;

use crate::ast::UnaryOp;
use crate::ast_model::{ExprV, LvalueV};
use crate::bit::Bit;
use crate::bits::fill;
use crate::gen_model::{collection_method, format_of};
use crate::ir::{CollOp, ValueV};
use crate::layout::{
    class_at, class_named, class_of, collection_of, own_class, plain_local, receiver, ClassInfoV,
    EnvV, ScopeV,
};
use crate::machine::{done, moves_key, put_reg, Act, Meaning};
use crate::table::lookup;

verus! {

/// The world and a value.
pub type Valued<V, W> = Option<(W, V)>;

/// What a plain name means.
pub enum Meant {
    This,
    Local(u32),
    Field(u32),
    Shared(u32),
    Constant(Seq<Bit>),
    Method,
    Net(u32),
    Nothing,
}

/// What a plain name means: a local before all else, then what the class has, then what
/// is declared outside, and a net last.
pub open spec fn meant(env: EnvV, sc: ScopeV, name: Seq<char>) -> Meant {
    let own = own_class(env, sc);
    if name == "this"@ {
        Meant::This
    } else if lookup(sc.locals, name) is Some {
        Meant::Local((lookup(sc.locals, name)->0).0)
    } else if own matches Some(c) && lookup(c.field_slot, name) is Some {
        Meant::Field((lookup((own->0).field_slot, name)->0).0)
    } else if own matches Some(c) && lookup(c.static_fields, name) is Some {
        Meant::Shared(lookup((own->0).static_fields, name)->0)
    } else if lookup(env.vars, name) is Some {
        Meant::Shared(lookup(env.vars, name)->0)
    } else if lookup(env.consts, name) is Some {
        Meant::Constant(lookup(env.consts, name)->0)
    } else if own matches Some(c) && lookup(c.methods, name) is Some {
        Meant::Method
    } else if lookup(env.nets, name) is Some {
        Meant::Net((lookup(env.nets, name)->0).0)
    } else {
        Meant::Nothing
    }
}

/// What a call of a method of a class calls on an object.
pub enum Target {
    /// The function in the table of the class that the object is of.
    Virtual(u32),
    /// One function, whatever the object.
    Direct(u32),
    Unknown,
}

/// What a call of a method of a class calls: a virtual method by its place in the
/// tables, another directly.
pub open spec fn target(c: ClassInfoV, method: Seq<char>) -> Target {
    if lookup(c.vslot_of, method) is Some {
        Target::Virtual(lookup(c.vslot_of, method)->0)
    } else if lookup(c.methods, method) is Some {
        Target::Direct(lookup(c.methods, method)->0)
    } else {
        Target::Unknown
    }
}

/// A call of a method on an object, which comes before the arguments.
pub open spec fn call_method<V, W>(
    m: Meaning<V, W>,
    w: W,
    t: Target,
    obj: V,
    args: Seq<V>,
) -> Valued<V, W> {
    match t {
        Target::Virtual(slot) => Some(
            done(m, w, Act::CallVirtual(slot), seq![obj] + (seq![obj] + args)),
        ),
        Target::Direct(func) => Some(done(m, w, Act::Call(func), seq![obj] + args)),
        Target::Unknown => None,
    }
}

/// The function that `super.method` calls.
pub open spec fn super_target(env: EnvV, sc: ScopeV, method: Seq<char>) -> Option<u32> {
    match own_class(env, sc) {
        Some(c) => match c.base {
            Some(base) => match class_at(env, base) {
                Some(b) => if method == "new"@ {
                    b.ctor
                } else {
                    lookup(b.methods, method)
                },
                None => None,
            },
            None => None,
        },
        None => None,
    }
}

/// What a string method without arguments does.
pub open spec fn string_act(method: Seq<char>) -> Option<Act> {
    if method == "len"@ {
        Some(Act::StringLen)
    } else if method == "toupper"@ {
        Some(Act::StringToUpper)
    } else if method == "tolower"@ {
        Some(Act::StringToLower)
    } else if method == "atoi"@ || method == "atoreal"@ {
        Some(Act::StringAtoi)
    } else {
        None
    }
}

/// Whether a method is one of strings and enumerations.
pub open spec fn is_builtin(method: Seq<char>, args: nat) -> bool {
    ||| args == 0 && (string_act(method) is Some || method == "name"@)
    ||| args == 1 && method == "itoa"@
    ||| args == 2 && method == "substr"@
}

/// The value of an expression: what it does to the world, and its value. There is none
/// where no meaning is given: of `new`, of a cast, and of a method that writes one of
/// its arguments.
pub open spec fn eval<V, W>(
    m: Meaning<V, W>,
    env: EnvV,
    sc: ScopeV,
    regs: spec_fn(u32) -> V,
    w: W,
    e: ExprV,
) -> Valued<V, W>
    decreases e,
{
    match e {
        ExprV::Literal(bits) => Some(done(m, w, Act::Constant(ValueV::Logic(bits)), seq![])),
        ExprV::Str(s) => Some(done(m, w, Act::Constant(ValueV::Str(s)), seq![])),
        ExprV::Null => Some(done(m, w, Act::Constant(ValueV::Null), seq![])),
        ExprV::Ref(name) => eval_name(m, env, sc, regs, w, name),
        ExprV::Unary { op, operand } => match eval(m, env, sc, regs, w, *operand) {
            None => None,
            Some((w1, v)) => if op == UnaryOp::Plus {
                Some((w1, v))
            } else {
                Some(done(m, w1, Act::Unary(op), seq![v]))
            },
        },
        ExprV::Binary { op, lhs, rhs } => match eval(m, env, sc, regs, w, *lhs) {
            None => None,
            Some((w1, x)) => match eval(m, env, sc, regs, w1, *rhs) {
                None => None,
                Some((w2, y)) => Some(done(m, w2, Act::Binary(op), seq![x, y])),
            },
        },
        ExprV::Call { name, args } => match eval_all(m, env, sc, regs, w, args) {
            None => None,
            Some((w1, vs)) => match own_class(env, sc) {
                Some(c) if lookup(c.methods, name) is Some => call_method(
                    m,
                    w1,
                    target(c, name),
                    regs(sc.this_reg),
                    vs,
                ),
                _ => match lookup(env.funcs, name) {
                    Some(func) => Some(done(m, w1, Act::Call(func), vs)),
                    None => None,
                },
            },
        },
        ExprV::MethodCall { obj, method, args } => {
            let name = match *obj {
                ExprV::Ref(name) => Some(name),
                _ => None,
            };
            if name == Some("super"@) {
                match (eval_all(m, env, sc, regs, w, args), super_target(env, sc, method)) {
                    (Some((w1, vs)), Some(func)) => Some(
                        done(m, w1, Act::Call(func), seq![regs(sc.this_reg)] + vs),
                    ),
                    _ => None,
                }
            } else {
                match eval(m, env, sc, regs, w, *obj) {
                    None => None,
                    Some((w1, o)) => if collection_of(env, sc, *obj) is Some && collection_method(
                        method,
                    ) is Some {
                        match eval_all(m, env, sc, regs, w1, args) {
                            None => None,
                            Some((w2, vs)) => call_collection(
                                m,
                                w2,
                                collection_method(method)->0,
                                o,
                                vs,
                            ),
                        }
                    } else if name is Some && is_builtin(method, args.len()) {
                        if plain_local(sc, name->0) && name != Some("this"@) && args.len() == 0
                            && string_act(method) is Some {
                            Some(done(m, w1, string_act(method)->0, seq![o]))
                        } else if args.len() == 0 && method == "name"@ && lookup(
                            sc.enums,
                            name->0,
                        ) is Some {
                            Some(done(m, w1, Act::EnumName(lookup(sc.enums, name->0)->0), seq![o]))
                        } else {
                            None
                        }
                    } else if name is Some && class_of(env, sc, *obj) is None {
                        match (eval_all(m, env, sc, regs, w1, args), collection_method(method)) {
                            (Some((w2, vs)), Some(op)) => call_collection(m, w2, op, o, vs),
                            _ => None,
                        }
                    } else {
                        match (eval_all(m, env, sc, regs, w1, args), receiver(env, sc, *obj)) {
                            (Some((w2, vs)), Ok(cid)) => match class_at(env, cid) {
                                None => None,
                                Some(c) => match target(c, method) {
                                    Target::Unknown => match collection_method(method) {
                                        Some(op) => call_collection(m, w2, op, o, vs),
                                        None => None,
                                    },
                                    t => call_method(m, w2, t, o, vs),
                                },
                            },
                            _ => None,
                        }
                    },
                }
            }
        },
        ExprV::Field { obj, field } => match (
            eval(m, env, sc, regs, w, *obj),
            receiver(env, sc, *obj),
        ) {
            (Some((w1, o)), Ok(cid)) => match class_at(env, cid) {
                Some(c) => match lookup(c.field_slot, field) {
                    Some(slot) => Some(done(m, w1, Act::GetField(slot.0), seq![o])),
                    None => match lookup(c.static_fields, field) {
                        Some(id) => Some(done(m, w1, Act::StaticGet(id), seq![])),
                        None => None,
                    },
                },
                None => None,
            },
            _ => None,
        },
        ExprV::Index { base, index } => match eval(m, env, sc, regs, w, *base) {
            None => None,
            Some((w1, x)) => match eval(m, env, sc, regs, w1, *index) {
                None => None,
                Some((w2, i)) => {
                    let of_string = match *base {
                        ExprV::Ref(name) => plain_local(sc, name),
                        _ => false,
                    };
                    if of_string {
                        Some(done(m, w2, Act::StringIndex, seq![x, i]))
                    } else {
                        Some(done(m, w2, Act::IndexGet, seq![x, i]))
                    }
                },
            },
        },
        ExprV::PartSelect { base, left, right } => match eval(m, env, sc, regs, w, *base) {
            None => None,
            Some((w1, x)) => match eval(m, env, sc, regs, w1, *left) {
                None => None,
                Some((w2, l)) => match eval(m, env, sc, regs, w2, *right) {
                    None => None,
                    Some((w3, r)) => Some(done(m, w3, Act::PartSelect, seq![x, l, r])),
                },
            },
        },
        ExprV::StaticCall { class_name, class_args, method, args } => match class_named(
            env,
            sc,
            class_name,
        ) {
            Some(cid) => {
                let null = done(m, w, Act::Constant(ValueV::Null), seq![]).1;
                match (eval_all(m, env, sc, regs, w, args), class_at(env, cid)) {
                    (Some((w1, vs)), Some(c)) => match lookup(c.methods, method) {
                        Some(func) => Some(done(m, w1, Act::Call(func), seq![null] + vs)),
                        None => None,
                    },
                    _ => None,
                }
            },
            None => if lookup(env.funcs, method) is Some {
                match eval_all(m, env, sc, regs, w, args) {
                    Some((w1, vs)) => Some(
                        done(m, w1, Act::Call(lookup(env.funcs, method)->0), vs),
                    ),
                    None => None,
                }
            } else if lookup(env.vars, method) is Some {
                Some(done(m, w, Act::StaticGet(lookup(env.vars, method)->0), seq![]))
            } else if class_name == "process"@ && method == "self"@ {
                Some(done(m, w, Act::Constant(ValueV::Null), seq![]))
            } else {
                None
            },
        },
        ExprV::StaticRef { class_name, field } => {
            let own = match class_named(env, sc, class_name) {
                Some(cid) => match class_at(env, cid) {
                    Some(c) => lookup(c.static_fields, field),
                    None => None,
                },
                None => None,
            };
            if lookup(env.vars, field) is Some {
                Some(done(m, w, Act::StaticGet(lookup(env.vars, field)->0), seq![]))
            } else if lookup(env.consts, field) is Some {
                Some(
                    done(m, w, Act::Constant(ValueV::Logic(lookup(env.consts, field)->0)), seq![]),
                )
            } else if own is Some {
                Some(done(m, w, Act::StaticGet(own->0), seq![]))
            } else if lookup(env.consts, class_name) is Some {
                Some(
                    done(
                        m,
                        w,
                        Act::Constant(ValueV::Logic(lookup(env.consts, class_name)->0)),
                        seq![],
                    ),
                )
            } else {
                eval_name(m, env, sc, regs, w, field)
            }
        },
        ExprV::Concat(parts) => match eval_all(m, env, sc, regs, w, parts) {
            None => None,
            Some((w1, vs)) => Some(done(m, w1, Act::Concat, vs)),
        },
        ExprV::SysCall { name, args } => if name == "$sformatf"@ || name == "$psprintf"@ {
            if args.len() > 0 && args[0] is Str {
                match eval_all(m, env, sc, regs, w, args.skip(1)) {
                    None => None,
                    Some((w1, vs)) => Some(done(m, w1, Act::Format(args[0]->Str_0), vs)),
                }
            } else {
                match eval_all(m, env, sc, regs, w, args) {
                    None => None,
                    Some((w1, vs)) => Some(done(m, w1, Act::Format(format_of(args)), vs)),
                }
            }
        } else if name == "$realtime"@ || name == "$time"@ || name == "$stime"@ {
            Some(done(m, w, Act::SimTime, seq![]))
        } else if name == "$typename"@ || name == "$cast"@ {
            None
        } else {
            match eval_all(m, env, sc, regs, w, args) {
                None => None,
                Some((w1, vs)) => Some(
                    done(m, w1, Act::Constant(ValueV::Logic(fill(Bit::Zero, 32))), seq![]),
                ),
            }
        },
        ExprV::New { args } => None,
    }
}

/// The values of expressions, from the first to the last.
pub open spec fn eval_all<V, W>(
    m: Meaning<V, W>,
    env: EnvV,
    sc: ScopeV,
    regs: spec_fn(u32) -> V,
    w: W,
    s: Seq<ExprV>,
) -> Option<(W, Seq<V>)>
    decreases s,
{
    if s.len() == 0 {
        Some((w, Seq::empty()))
    } else {
        match eval_all(m, env, sc, regs, w, s.drop_last()) {
            None => None,
            Some((w1, vs)) => match eval(m, env, sc, regs, w1, s.last()) {
                None => None,
                Some((w2, v)) => Some((w2, vs.push(v))),
            },
        }
    }
}

/// The value of a plain name. A method without arguments is called.
pub open spec fn eval_name<V, W>(
    m: Meaning<V, W>,
    env: EnvV,
    sc: ScopeV,
    regs: spec_fn(u32) -> V,
    w: W,
    name: Seq<char>,
) -> Valued<V, W> {
    match meant(env, sc, name) {
        Meant::This => if sc.class_ctx is Some {
            Some((w, regs(sc.this_reg)))
        } else {
            None
        },
        Meant::Local(r) => Some((w, regs(r))),
        Meant::Field(slot) => Some(done(m, w, Act::GetField(slot), seq![regs(sc.this_reg)])),
        Meant::Shared(id) => Some(done(m, w, Act::StaticGet(id), seq![])),
        Meant::Constant(bits) => Some(done(m, w, Act::Constant(ValueV::Logic(bits)), seq![])),
        Meant::Method => call_method(
            m,
            w,
            target(own_class(env, sc)->0, name),
            regs(sc.this_reg),
            Seq::empty(),
        ),
        Meant::Net(n) => Some(done(m, w, Act::NetRead(n), seq![])),
        Meant::Nothing => None,
    }
}

/// A call of a method of a collection.
pub open spec fn call_collection<V, W>(
    m: Meaning<V, W>,
    w: W,
    op: CollOp,
    base: V,
    args: Seq<V>,
) -> Valued<V, W> {
    if moves_key(op) {
        None
    } else {
        Some(done(m, w, Act::Collection(op), seq![base] + args))
    }
}

/// The registers and the world behind a write.
pub type Written<V, W> = Option<(spec_fn(u32) -> V, W)>;

/// A value written to a plain name. A write at the end of the time step changes a local
/// or a net later; fields and shared storage are written at once.
pub open spec fn write_name<V, W>(
    m: Meaning<V, W>,
    env: EnvV,
    sc: ScopeV,
    regs: spec_fn(u32) -> V,
    w: W,
    name: Seq<char>,
    v: V,
    later: bool,
) -> Written<V, W> {
    let own = own_class(env, sc);
    if lookup(sc.locals, name) is Some {
        let r = (lookup(sc.locals, name)->0).0;
        if later {
            Some((regs, done(m, w, Act::LocalWriteLater(r), seq![v]).0))
        } else {
            Some((put_reg(regs, r, v), w))
        }
    } else if own matches Some(c) && lookup(c.field_slot, name) is Some {
        let slot = (lookup((own->0).field_slot, name)->0).0;
        Some((regs, done(m, w, Act::SetField(slot), seq![regs(sc.this_reg), v]).0))
    } else if own matches Some(c) && lookup(c.static_fields, name) is Some {
        let id = lookup((own->0).static_fields, name)->0;
        Some((regs, done(m, w, Act::StaticSet(id), seq![v]).0))
    } else if lookup(env.vars, name) is Some {
        Some((regs, done(m, w, Act::StaticSet(lookup(env.vars, name)->0), seq![v]).0))
    } else if lookup(env.nets, name) is Some {
        let net = (lookup(env.nets, name)->0).0;
        if later {
            Some((regs, done(m, w, Act::NetWriteLater(net), seq![v]).0))
        } else {
            Some((regs, done(m, w, Act::NetWrite(net), seq![v]).0))
        }
    } else {
        None
    }
}

/// What an indexed assignment target is an element of.
pub open spec fn element_base(lhs: LvalueV) -> ExprV {
    if lhs.scope is Some {
        ExprV::StaticRef { class_name: lhs.scope->0, field: lhs.name }
    } else if lhs.receiver is Some {
        ExprV::Field { obj: lhs.receiver->0, field: lhs.name }
    } else {
        ExprV::Ref(lhs.name)
    }
}

/// A value written to an assignment target: an element, a static field of a class, a
/// field of an object, or a plain name.
pub open spec fn write_to<V, W>(
    m: Meaning<V, W>,
    env: EnvV,
    sc: ScopeV,
    regs: spec_fn(u32) -> V,
    w: W,
    lhs: LvalueV,
    v: V,
    later: bool,
) -> Written<V, W> {
    if lhs.index is Some {
        match eval(m, env, sc, regs, w, element_base(lhs)) {
            None => None,
            Some((w1, base)) => match eval(m, env, sc, regs, w1, lhs.index->0) {
                None => None,
                Some((w2, i)) => Some((regs, done(m, w2, Act::IndexSet, seq![base, i, v]).0)),
            },
        }
    } else if lhs.scope is Some {
        match class_named(env, sc, lhs.scope->0) {
            None => None,
            Some(cid) => match class_at(env, cid) {
                None => None,
                Some(c) => match lookup(c.static_fields, lhs.name) {
                    None => None,
                    Some(id) => Some((regs, done(m, w, Act::StaticSet(id), seq![v]).0)),
                },
            },
        }
    } else if lhs.receiver is Some {
        match (
            eval(m, env, sc, regs, w, *lhs.receiver->0),
            receiver(env, sc, *lhs.receiver->0),
        ) {
            (Some((w1, o)), Ok(cid)) => match class_at(env, cid) {
                None => None,
                Some(c) => match lookup(c.field_slot, lhs.name) {
                    None => None,
                    Some(slot) => Some((regs, done(m, w1, Act::SetField(slot.0), seq![o, v]).0)),
                },
            },
            _ => None,
        }
    } else {
        write_name(m, env, sc, regs, w, lhs.name, v, later)
    }
}

} // verus!
