//! What monomorphization computes.
//!
//! Each distinct `C#(args)` becomes a class of its own with a mangled name
//! (`C__arg1__arg2`, or another where that is taken), a copy of the template with
//! its parameters replaced by the arguments. Classes without parameters are rewritten in place; every
//! reference they make pulls in the specialization it needs.
//!
//! Resolving a type reference follows aliases and templates, which need not
//! end. The functions here count the levels down and give nothing when they
//! run out.
use vstd::prelude::*;

use crate::ast_model::{
    ClassDeclV, CollectionAliasV, EventExprV, ExprV, FuncDeclV, LvalueV, ParamDeclV, ParamV, StmtV,
    TimingControlV, TypeAliasV, TypeRefV, VarDeclV,
};
use crate::bits::bits_of;
use crate::mangle::{counted_name, joined, lead};
use crate::text::parsed_i64;

verus! {

/// What specializations draw on: the declared classes and the package or
/// module scope aliases.
pub struct Env {
    pub classes: Seq<ClassDeclV>,
    pub aliases: Seq<TypeAliasV>,
}

/// The substitution of the class being built.
pub struct Ctx {
    /// Formal parameters and what they stand for.
    pub bindings: Seq<(Seq<char>, Seq<char>)>,
    /// Value parameters and the text of their values.
    pub values: Seq<(Seq<char>, Seq<char>)>,
    /// Class-scoped aliases.
    pub aliases: Seq<TypeAliasV>,
}

/// The empty substitution.
pub open spec fn empty_ctx() -> Ctx {
    Ctx { bindings: Seq::empty(), values: Seq::empty(), aliases: Seq::empty() }
}

/// The last binding of a name.
pub open spec fn last_bound(s: Seq<(Seq<char>, Seq<char>)>, name: Seq<char>) -> Option<Seq<char>>
    decreases s.len(),
{
    if s.len() == 0 {
        None
    } else if s.last().0 == name {
        Some(s.last().1)
    } else {
        last_bound(s.drop_last(), name)
    }
}

/// The target of the last alias with a name.
pub open spec fn last_alias(s: Seq<TypeAliasV>, name: Seq<char>) -> Option<TypeRefV>
    decreases s.len(),
{
    if s.len() == 0 {
        None
    } else if s.last().alias == name {
        Some(s.last().target)
    } else {
        last_alias(s.drop_last(), name)
    }
}

/// The target of the first alias with a name.
pub open spec fn first_alias(s: Seq<TypeAliasV>, name: Seq<char>) -> Option<TypeRefV>
    decreases s.len(),
{
    if s.len() == 0 {
        None
    } else if s[0].alias == name {
        Some(s[0].target)
    } else {
        first_alias(s.skip(1), name)
    }
}

/// The first parameterized class with a name.
pub open spec fn template_named(s: Seq<ClassDeclV>, name: Seq<char>) -> Option<ClassDeclV>
    decreases s.len(),
{
    if s.len() == 0 {
        None
    } else if s[0].params.len() > 0 && s[0].name == name {
        Some(s[0])
    } else {
        template_named(s.skip(1), name)
    }
}

/// What a specialization is of: a template, and what each parameter stands for.
pub struct OriginV {
    pub base: Seq<char>,
    pub parts: Seq<Option<Seq<char>>>,
}

/// A class among those built, with its origin where it is a specialization.
pub struct EntryV {
    pub class: ClassDeclV,
    pub origin: Option<OriginV>,
}

/// The position of the first class with a name, or the length.
pub open spec fn class_position(s: Seq<EntryV>, name: Seq<char>) -> nat
    decreases s.len(),
{
    if s.len() == 0 || s[0].class.name == name {
        0
    } else {
        1 + class_position(s.skip(1), name)
    }
}

/// The position of the specialization with an origin, or the length.
pub open spec fn origin_position(s: Seq<EntryV>, origin: OriginV) -> nat
    decreases s.len(),
{
    if s.len() == 0 || s[0].origin == Some(origin) {
        0
    } else {
        1 + origin_position(s.skip(1), origin)
    }
}

/// Whether a declared class has a name.
pub open spec fn declares(s: Seq<ClassDeclV>, name: Seq<char>) -> bool {
    exists|i: int| 0 <= i < s.len() && (#[trigger] s[i]).name == name
}

/// The most dollar signs that start the name of a declared class.
pub open spec fn most_lead(s: Seq<ClassDeclV>) -> nat
    decreases s.len(),
{
    if s.len() == 0 {
        0
    } else if lead(s.last().name) > most_lead(s.drop_last()) {
        lead(s.last().name)
    } else {
        most_lead(s.drop_last())
    }
}

/// The name of a new specialization: the class and its arguments joined, or where a
/// declared class or one that is built has that name, the counted one.
pub open spec fn free_name(classes: Seq<ClassDeclV>, out: Seq<EntryV>, o: OriginV) -> Seq<char> {
    let name = joined(o.base, o.parts);
    if declares(classes, name) || class_position(out, name) < out.len() {
        counted_name(most_lead(classes) + 1, o.base, o.parts)
    } else {
        name
    }
}

/// What parameter `i` stands for: its argument, else its default, else nothing.
pub open spec fn actual_of(params: Seq<ParamDeclV>, args: Seq<Seq<char>>, i: int) -> Option<Seq<char>> {
    if i < args.len() {
        Some(args[i])
    } else {
        params[i].default
    }
}

/// What the parameters stand for, in order.
pub open spec fn actuals(params: Seq<ParamDeclV>, args: Seq<Seq<char>>) -> Seq<Option<Seq<char>>> {
    Seq::new(params.len(), |i: int| actual_of(params, args, i))
}

/// What a template with arguments is the origin of.
pub open spec fn origin(t: ClassDeclV, args: Seq<Seq<char>>) -> OriginV {
    OriginV { base: t.name, parts: actuals(t.params, args) }
}

/// The bindings of a specialization: a parameter without a value, or with an
/// empty one, stays unbound.
pub open spec fn specialized_bindings(
    params: Seq<ParamDeclV>,
    args: Seq<Seq<char>>,
    values_only: bool,
) -> Seq<(Seq<char>, Seq<char>)>
    decreases params.len(),
{
    if params.len() == 0 {
        Seq::empty()
    } else {
        let before = specialized_bindings(params.drop_last(), args, values_only);
        let p = params.last();
        match actual_of(params, args, params.len() - 1) {
            Some(v) => if v.len() == 0 || (values_only && p.is_type) {
                before
            } else {
                before.push((p.name, v))
            },
            None => before,
        }
    }
}

/// The substitution of a specialization.
#[verifier::opaque]
pub open spec fn specialized_ctx(t: ClassDeclV, args: Seq<Seq<char>>) -> Ctx {
    Ctx {
        bindings: specialized_bindings(t.params, args, false),
        values: specialized_bindings(t.params, args, true),
        aliases: t.type_aliases,
    }
}

/// The class that keeps a specialization's place while it is built.
pub open spec fn stub_class(name: Seq<char>) -> ClassDeclV {
    ClassDeclV {
        name,
        base: None,
        fields: Seq::empty(),
        methods: Seq::empty(),
        constructor: None,
        type_aliases: Seq::empty(),
        collection_aliases: Seq::empty(),
        params: Seq::empty(),
        base_args: Seq::empty(),
        consts: Seq::empty(),
        is_struct: false,
    }
}

/// The classes built so far together with a result.
pub type Built<T> = Option<(Seq<EntryV>, T)>;

/// How the class being built replaces names.
pub struct Subst {
    /// The concrete name of a type reference, given the classes built so far.
    pub resolve: spec_fn(Seq<EntryV>, TypeRefV) -> Built<Seq<char>>,
    /// Value parameters and the text of their values.
    pub values: Seq<(Seq<char>, Seq<char>)>,
}

/// The concrete names of type references, in order.
#[verifier::opaque]
pub open spec fn all_resolved(
    sub: Subst,
    out: Seq<EntryV>,
    s: Seq<TypeRefV>,
) -> Built<Seq<Seq<char>>>
    decreases s.len(),
{
    if s.len() == 0 {
        Some((out, Seq::empty()))
    } else {
        match all_resolved(sub, out, s.drop_last()) {
            None => None,
            Some((next, names)) => match (sub.resolve)(next, s.last()) {
                None => None,
                Some((last, name)) => Some((last, names.push(name))),
            },
        }
    }
}

/// The concrete name of an optional class name with arguments.
#[verifier::opaque]
pub open spec fn class_name_resolved(
    sub: Subst,
    out: Seq<EntryV>,
    name: Option<Seq<char>>,
    args: Seq<TypeRefV>,
) -> Built<Option<Seq<char>>>
{
    match name {
        None => Some((out, None)),
        Some(n) => match (sub.resolve)(out, TypeRefV { name: n, args }) {
            None => None,
            Some((next, c)) => Some((next, Some(c))),
        },
    }
}

/// The expression for the text of a value parameter: a number where it reads
/// as one, a string otherwise.
pub open spec fn value_expr(text: Seq<char>) -> ExprV {
    match parsed_i64(text) {
        Some(n) => ExprV::Literal(bits_of(n, 32)),
        None => ExprV::Str(text),
    }
}

/// An expression with value parameters and class names replaced.
#[verifier::opaque]
pub open spec fn expr_substituted(
    sub: Subst,
    out: Seq<EntryV>,
    e: ExprV,
) -> Built<ExprV>
    decreases e,
{
    match e {
        ExprV::Ref(name) => Some(
            (
                out,
                match last_bound(sub.values, name) {
                    Some(v) => value_expr(v),
                    None => e,
                },
            ),
        ),
        ExprV::StaticCall { class_name, class_args, method, args } => match (sub.resolve)(out,
            TypeRefV { name: class_name, args: class_args },
        ) {
            None => None,
            Some((next, c)) => match exprs_substituted(sub, next, args) {
                None => None,
                Some((last, a)) => Some(
                    (
                        last,
                        ExprV::StaticCall {
                            class_name: c,
                            class_args: Seq::empty(),
                            method,
                            args: a,
                        },
                    ),
                ),
            },
        },
        ExprV::StaticRef { class_name, field } => match (sub.resolve)(out,
            TypeRefV { name: class_name, args: Seq::empty() },
        ) {
            None => None,
            Some((next, c)) => Some((next, ExprV::StaticRef { class_name: c, field })),
        },
        ExprV::Unary { op, operand } => match expr_substituted(sub, out, *operand) {
            None => None,
            Some((next, a)) => Some((next, ExprV::Unary { op, operand: Box::new(a) })),
        },
        ExprV::Binary { op, lhs, rhs } => match expr_substituted(sub, out, *lhs) {
            None => None,
            Some((next, a)) => match expr_substituted(sub, next, *rhs) {
                None => None,
                Some((last, b)) => Some(
                    (last, ExprV::Binary { op, lhs: Box::new(a), rhs: Box::new(b) }),
                ),
            },
        },
        ExprV::Call { name, args } => match exprs_substituted(sub, out, args) {
            None => None,
            Some((next, a)) => Some((next, ExprV::Call { name, args: a })),
        },
        ExprV::Field { obj, field } => match expr_substituted(sub, out, *obj) {
            None => None,
            Some((next, a)) => Some((next, ExprV::Field { obj: Box::new(a), field })),
        },
        ExprV::MethodCall { obj, method, args } => match expr_substituted(sub, out, *obj) {
            None => None,
            Some((next, o)) => match exprs_substituted(sub, next, args) {
                None => None,
                Some((last, a)) => Some(
                    (last, ExprV::MethodCall { obj: Box::new(o), method, args: a }),
                ),
            },
        },
        ExprV::Index { base, index } => match expr_substituted(sub, out, *base) {
            None => None,
            Some((next, a)) => match expr_substituted(sub, next, *index) {
                None => None,
                Some((last, b)) => Some(
                    (last, ExprV::Index { base: Box::new(a), index: Box::new(b) }),
                ),
            },
        },
        ExprV::PartSelect { base, left, right } => match expr_substituted(
            sub,
            out,
            *base,
        ) {
            None => None,
            Some((one, a)) => match expr_substituted(sub, one, *left) {
                None => None,
                Some((two, b)) => match expr_substituted(sub, two, *right) {
                    None => None,
                    Some((last, c)) => Some(
                        (
                            last,
                            ExprV::PartSelect {
                                base: Box::new(a),
                                left: Box::new(b),
                                right: Box::new(c),
                            },
                        ),
                    ),
                },
            },
        },
        ExprV::New { args } => match exprs_substituted(sub, out, args) {
            None => None,
            Some((next, a)) => Some((next, ExprV::New { args: a })),
        },
        ExprV::Concat(parts) => match exprs_substituted(sub, out, parts) {
            None => None,
            Some((next, a)) => Some((next, ExprV::Concat(a))),
        },
        ExprV::SysCall { name, args } => match exprs_substituted(sub, out, args) {
            None => None,
            Some((next, a)) => Some((next, ExprV::SysCall { name, args: a })),
        },
        ExprV::Literal(_) | ExprV::Str(_) | ExprV::Null => Some((out, e)),
    }
}

/// Expressions with value parameters and class names replaced, in order.
#[verifier::opaque]
pub open spec fn exprs_substituted(
    sub: Subst,
    out: Seq<EntryV>,
    s: Seq<ExprV>,
) -> Built<Seq<ExprV>>
    decreases s,
{
    if s.len() == 0 {
        Some((out, Seq::empty()))
    } else {
        match exprs_substituted(sub, out, s.drop_last()) {
            None => None,
            Some((next, done)) => match expr_substituted(sub, next, s.last()) {
                None => None,
                Some((last, e)) => Some((last, done.push(e))),
            },
        }
    }
}

/// An expression that may be absent, with value parameters and class names replaced.
#[verifier::opaque]
pub open spec fn opt_expr_substituted(
    sub: Subst,
    out: Seq<EntryV>,
    o: Option<ExprV>,
) -> Built<Option<ExprV>>
{
    match o {
        None => Some((out, None)),
        Some(e) => match expr_substituted(sub, out, e) {
            None => None,
            Some((next, x)) => Some((next, Some(x))),
        },
    }
}

/// The types that a declaration names: a class with its arguments, the scope of the
/// class, and the class of the keys of a collection.
pub struct NamedTypes {
    pub class_name: Option<Seq<char>>,
    pub type_args: Seq<TypeRefV>,
    pub type_scope: Option<Seq<char>>,
    pub key_class_name: Option<Seq<char>>,
}

/// The types of a declaration made concrete.
#[verifier::opaque]
pub open spec fn types_resolved(sub: Subst, out: Seq<EntryV>, t: NamedTypes) -> Built<NamedTypes> {
    match class_name_resolved(sub, out, t.class_name, t.type_args) {
        None => None,
        Some((one, class_name)) => match class_name_resolved(
            sub,
            one,
            t.type_scope,
            Seq::empty(),
        ) {
            None => None,
            Some((two, type_scope)) => match class_name_resolved(
                sub,
                two,
                t.key_class_name,
                Seq::empty(),
            ) {
                None => None,
                Some((last, key_class_name)) => Some(
                    (
                        last,
                        NamedTypes {
                            class_name,
                            type_args: if class_name is Some {
                                Seq::empty()
                            } else {
                                t.type_args
                            },
                            type_scope,
                            key_class_name,
                        },
                    ),
                ),
            },
        },
    }
}

/// The types that a variable names.
pub open spec fn var_types(v: VarDeclV) -> NamedTypes {
    NamedTypes {
        class_name: v.class_name,
        type_args: v.type_args,
        type_scope: v.type_scope,
        key_class_name: v.key_class_name,
    }
}

/// A declaration with its types made concrete and its initializer substituted.
#[verifier::opaque]
pub open spec fn var_substituted(sub: Subst, out: Seq<EntryV>, v: VarDeclV) -> Built<VarDeclV> {
    match types_resolved(sub, out, var_types(v)) {
        None => None,
        Some((next, t)) => match opt_expr_substituted(sub, next, v.init) {
            None => None,
            Some((last, init)) => Some(
                (
                    last,
                    VarDeclV {
                        class_name: t.class_name,
                        type_args: t.type_args,
                        type_scope: t.type_scope,
                        key_class_name: t.key_class_name,
                        init,
                        ..v
                    },
                ),
            ),
        },
    }
}

/// Declarations substituted, in order.
#[verifier::opaque]
pub open spec fn vars_substituted(
    sub: Subst,
    out: Seq<EntryV>,
    s: Seq<VarDeclV>,
) -> Built<Seq<VarDeclV>>
    decreases s.len(),
{
    if s.len() == 0 {
        Some((out, Seq::empty()))
    } else {
        match vars_substituted(sub, out, s.drop_last()) {
            None => None,
            Some((next, done)) => match var_substituted(sub, next, s.last()) {
                None => None,
                Some((last, v)) => Some((last, done.push(v))),
            },
        }
    }
}

/// An assignment target with its scope, receiver and index substituted.
#[verifier::opaque]
pub open spec fn target_substituted(sub: Subst, out: Seq<EntryV>, l: LvalueV) -> Built<LvalueV> {
    match class_name_resolved(sub, out, l.scope, Seq::empty()) {
        None => None,
        Some((one, scope)) => {
            let receiver = match l.receiver {
                Some(e) => Some(*e),
                None => None,
            };
            match opt_expr_substituted(sub, one, receiver) {
                None => None,
                Some((two, r)) => match opt_expr_substituted(sub, two, l.index) {
                    None => None,
                    Some((last, index)) => Some(
                        (
                            last,
                            LvalueV {
                                name: l.name,
                                receiver: match r {
                                    Some(e) => Some(Box::new(e)),
                                    None => None,
                                },
                                index,
                                scope,
                            },
                        ),
                    ),
                },
            }
        },
    }
}

/// Event expressions substituted, in order.
#[verifier::opaque]
pub open spec fn events_substituted(
    sub: Subst,
    out: Seq<EntryV>,
    s: Seq<EventExprV>,
) -> Built<Seq<EventExprV>>
    decreases s.len(),
{
    if s.len() == 0 {
        Some((out, Seq::empty()))
    } else {
        match events_substituted(sub, out, s.drop_last()) {
            None => None,
            Some((next, done)) => match expr_substituted(sub, next, s.last().expr) {
                None => None,
                Some((last, expr)) => Some(
                    (last, done.push(EventExprV { edge: s.last().edge, expr })),
                ),
            },
        }
    }
}

/// A timing control substituted.
#[verifier::opaque]
pub open spec fn control_substituted(
    sub: Subst,
    out: Seq<EntryV>,
    c: TimingControlV,
) -> Built<TimingControlV>
{
    match c {
        TimingControlV::Delay(e) => match expr_substituted(sub, out, e) {
            None => None,
            Some((next, x)) => Some((next, TimingControlV::Delay(x))),
        },
        TimingControlV::Event(s) => match events_substituted(sub, out, s) {
            None => None,
            Some((next, x)) => Some((next, TimingControlV::Event(x))),
        },
        TimingControlV::Wait(e) => match expr_substituted(sub, out, e) {
            None => None,
            Some((next, x)) => Some((next, TimingControlV::Wait(x))),
        },
    }
}

/// A statement with value parameters and class names replaced.
#[verifier::opaque]
pub open spec fn stmt_substituted(
    sub: Subst,
    out: Seq<EntryV>,
    s: StmtV,
) -> Built<StmtV>
    decreases s,
{
    match s {
        StmtV::Block(list) => match stmts_substituted(sub, out, list) {
            None => None,
            Some((next, l)) => Some((next, StmtV::Block(l))),
        },
        StmtV::VarDecl(v) => match var_substituted(sub, out, v) {
            None => None,
            Some((next, v)) => Some((next, StmtV::VarDecl(v))),
        },
        StmtV::Timed { control, body } => match control_substituted(sub, out, control) {
            None => None,
            Some((next, c)) => match stmt_substituted(sub, next, *body) {
                None => None,
                Some((last, b)) => Some((last, StmtV::Timed { control: c, body: Box::new(b) })),
            },
        },
        StmtV::Blocking { lhs, rhs } => match target_substituted(sub, out, lhs) {
            None => None,
            Some((next, l)) => match expr_substituted(sub, next, rhs) {
                None => None,
                Some((last, e)) => Some((last, StmtV::Blocking { lhs: l, rhs: e })),
            },
        },
        StmtV::Nonblocking { lhs, rhs } => match target_substituted(sub, out, lhs) {
            None => None,
            Some((next, l)) => match expr_substituted(sub, next, rhs) {
                None => None,
                Some((last, e)) => Some((last, StmtV::Nonblocking { lhs: l, rhs: e })),
            },
        },
        StmtV::If { cond, then_branch, else_branch } => match expr_substituted(
            sub,
            out,
            cond,
        ) {
            None => None,
            Some((one, c)) => match stmt_substituted(sub, one, *then_branch) {
                None => None,
                Some((two, t)) => match else_branch {
                    None => Some(
                        (
                            two,
                            StmtV::If { cond: c, then_branch: Box::new(t), else_branch: None },
                        ),
                    ),
                    Some(b) => match stmt_substituted(sub, two, *b) {
                        None => None,
                        Some((last, f)) => Some(
                            (
                                last,
                                StmtV::If {
                                    cond: c,
                                    then_branch: Box::new(t),
                                    else_branch: Some(Box::new(f)),
                                },
                            ),
                        ),
                    },
                },
            },
        },
        StmtV::While { cond, body } => match expr_substituted(sub, out, cond) {
            None => None,
            Some((next, c)) => match stmt_substituted(sub, next, *body) {
                None => None,
                Some((last, b)) => Some((last, StmtV::While { cond: c, body: Box::new(b) })),
            },
        },
        StmtV::DoWhile { cond, body } => match expr_substituted(sub, out, cond) {
            None => None,
            Some((next, c)) => match stmt_substituted(sub, next, *body) {
                None => None,
                Some((last, b)) => Some((last, StmtV::DoWhile { cond: c, body: Box::new(b) })),
            },
        },
        StmtV::Case { expr, items, default } => match expr_substituted(sub, out, expr) {
            None => None,
            Some((one, e)) => match arms_substituted(sub, one, items) {
                None => None,
                Some((two, a)) => match default {
                    None => Some((two, StmtV::Case { expr: e, items: a, default: None })),
                    Some(b) => match stmt_substituted(sub, two, *b) {
                        None => None,
                        Some((last, f)) => Some(
                            (
                                last,
                                StmtV::Case { expr: e, items: a, default: Some(Box::new(f)) },
                            ),
                        ),
                    },
                },
            },
        },
        StmtV::Foreach { collection, index, body } => match expr_substituted(
            sub,
            out,
            collection,
        ) {
            None => None,
            Some((next, c)) => match stmt_substituted(sub, next, *body) {
                None => None,
                Some((last, b)) => Some(
                    (last, StmtV::Foreach { collection: c, index, body: Box::new(b) }),
                ),
            },
        },
        StmtV::SysCall { name, args } => match exprs_substituted(sub, out, args) {
            None => None,
            Some((next, a)) => Some((next, StmtV::SysCall { name, args: a })),
        },
        StmtV::Expr(e) => match expr_substituted(sub, out, e) {
            None => None,
            Some((next, e)) => Some((next, StmtV::Expr(e))),
        },
        StmtV::Trigger(e) => match expr_substituted(sub, out, e) {
            None => None,
            Some((next, e)) => Some((next, StmtV::Trigger(e))),
        },
        StmtV::Return(Some(e)) => match expr_substituted(sub, out, e) {
            None => None,
            Some((next, e)) => Some((next, StmtV::Return(Some(e)))),
        },
        StmtV::Fork { branches, join } => match stmts_substituted(sub, out, branches) {
            None => None,
            Some((next, l)) => Some((next, StmtV::Fork { branches: l, join })),
        },
        StmtV::Return(None) | StmtV::Break | StmtV::Continue | StmtV::Null => Some((out, s)),
    }
}

/// Statements with value parameters and class names replaced, in order.
#[verifier::opaque]
pub open spec fn stmts_substituted(
    sub: Subst,
    out: Seq<EntryV>,
    s: Seq<StmtV>,
) -> Built<Seq<StmtV>>
    decreases s,
{
    if s.len() == 0 {
        Some((out, Seq::empty()))
    } else {
        match stmts_substituted(sub, out, s.drop_last()) {
            None => None,
            Some((next, done)) => match stmt_substituted(sub, next, s.last()) {
                None => None,
                Some((last, t)) => Some((last, done.push(t))),
            },
        }
    }
}

/// The arms of a `case` with value parameters and class names replaced.
#[verifier::opaque]
pub open spec fn arms_substituted(
    sub: Subst,
    out: Seq<EntryV>,
    s: Seq<(Seq<ExprV>, StmtV)>,
) -> Built<Seq<(Seq<ExprV>, StmtV)>>
    decreases s,
{
    if s.len() == 0 {
        Some((out, Seq::empty()))
    } else {
        match arms_substituted(sub, out, s.drop_last()) {
            None => None,
            Some((one, done)) => match exprs_substituted(sub, one, s.last().0) {
                None => None,
                Some((two, v)) => match stmt_substituted(sub, two, s.last().1) {
                    None => None,
                    Some((last, b)) => Some((last, done.push((v, b)))),
                },
            },
        }
    }
}

/// The types that a formal parameter names.
pub open spec fn formal_types(p: ParamV) -> NamedTypes {
    NamedTypes {
        class_name: p.class_name,
        type_args: p.type_args,
        type_scope: p.type_scope,
        key_class_name: p.key_class_name,
    }
}

/// A formal parameter with its types made concrete and its default substituted.
#[verifier::opaque]
pub open spec fn formal_substituted(sub: Subst, out: Seq<EntryV>, p: ParamV) -> Built<ParamV> {
    match types_resolved(sub, out, formal_types(p)) {
        None => None,
        Some((next, t)) => match opt_expr_substituted(sub, next, p.default) {
            None => None,
            Some((last, default)) => Some(
                (
                    last,
                    ParamV {
                        class_name: t.class_name,
                        type_args: t.type_args,
                        type_scope: t.type_scope,
                        key_class_name: t.key_class_name,
                        default,
                        ..p
                    },
                ),
            ),
        },
    }
}

/// Formal parameters substituted, in order.
#[verifier::opaque]
pub open spec fn formals_substituted(
    sub: Subst,
    out: Seq<EntryV>,
    s: Seq<ParamV>,
) -> Built<Seq<ParamV>>
    decreases s.len(),
{
    if s.len() == 0 {
        Some((out, Seq::empty()))
    } else {
        match formals_substituted(sub, out, s.drop_last()) {
            None => None,
            Some((next, done)) => match formal_substituted(sub, next, s.last()) {
                None => None,
                Some((last, p)) => Some((last, done.push(p))),
            },
        }
    }
}

/// A function with the types of its signature and its body made concrete.
#[verifier::opaque]
pub open spec fn func_substituted(
    sub: Subst,
    out: Seq<EntryV>,
    f: FuncDeclV,
) -> Built<FuncDeclV>
{
    match class_name_resolved(sub, out, f.ret_class, Seq::empty()) {
        None => None,
        Some((one, ret)) => match formals_substituted(sub, one, f.params) {
            None => None,
            Some((two, params)) => match stmt_substituted(sub, two, f.body) {
                None => None,
                Some((last, body)) => Some(
                    (last, FuncDeclV { ret_class: ret, params, body, ..f }),
                ),
            },
        },
    }
}

/// Functions made concrete, in order.
#[verifier::opaque]
pub open spec fn funcs_substituted(
    sub: Subst,
    out: Seq<EntryV>,
    s: Seq<FuncDeclV>,
) -> Built<Seq<FuncDeclV>>
    decreases s.len(),
{
    if s.len() == 0 {
        Some((out, Seq::empty()))
    } else {
        match funcs_substituted(sub, out, s.drop_last()) {
            None => None,
            Some((next, done)) => match func_substituted(sub, next, s.last()) {
                None => None,
                Some((last, f)) => Some((last, done.push(f))),
            },
        }
    }
}

/// Class-scoped aliases with their targets made concrete.
#[verifier::opaque]
pub open spec fn aliases_resolved(
    sub: Subst,
    out: Seq<EntryV>,
    s: Seq<TypeAliasV>,
) -> Built<Seq<TypeAliasV>>
    decreases s.len(),
{
    if s.len() == 0 {
        Some((out, Seq::empty()))
    } else {
        match aliases_resolved(sub, out, s.drop_last()) {
            None => None,
            Some((next, done)) => match (sub.resolve)(next, s.last().target) {
                None => None,
                Some((last, name)) => Some(
                    (
                        last,
                        done.push(
                            TypeAliasV {
                                alias: s.last().alias,
                                target: TypeRefV { name, args: Seq::empty() },
                            },
                        ),
                    ),
                ),
            },
        }
    }
}

/// A type reference that may be absent, made concrete.
#[verifier::opaque]
pub open spec fn opt_type_resolved(
    sub: Subst,
    out: Seq<EntryV>,
    o: Option<TypeRefV>,
) -> Built<Option<TypeRefV>>
{
    match o {
        None => Some((out, None)),
        Some(t) => match (sub.resolve)(out, t) {
            None => None,
            Some((next, name)) => Some((next, Some(TypeRefV { name, args: Seq::empty() }))),
        },
    }
}

/// Class-scoped collection types with their element and key types made concrete.
#[verifier::opaque]
pub open spec fn collections_resolved(
    sub: Subst,
    out: Seq<EntryV>,
    s: Seq<CollectionAliasV>,
) -> Built<Seq<CollectionAliasV>>
    decreases s.len(),
{
    if s.len() == 0 {
        Some((out, Seq::empty()))
    } else {
        match collections_resolved(sub, out, s.drop_last()) {
            None => None,
            Some((one, done)) => match opt_type_resolved(sub, one, s.last().element) {
                None => None,
                Some((two, element)) => match opt_type_resolved(sub, two, s.last().key) {
                    None => None,
                    Some((last, key)) => Some(
                        (last, done.push(CollectionAliasV { element, key, ..s.last() })),
                    ),
                },
            },
        }
    }
}

/// The types of a class made concrete: its base, fields, aliases and collection types,
/// in this order.
#[verifier::opaque]
pub open spec fn members_built(
    sub: Subst,
    out: Seq<EntryV>,
    t: ClassDeclV,
    name: Seq<char>,
) -> Built<ClassDeclV>
{
    match class_name_resolved(sub, out, t.base, t.base_args) {
        None => None,
        Some((one, base)) => match vars_substituted(sub, one, t.fields) {
            None => None,
            Some((two, fields)) => match aliases_resolved(sub, two, t.type_aliases) {
                None => None,
                Some((three, type_aliases)) => match collections_resolved(
                    sub,
                    three,
                    t.collection_aliases,
                ) {
                    None => None,
                    Some((last, collection_aliases)) => Some(
                        (
                            last,
                            ClassDeclV {
                                name,
                                base,
                                fields,
                                type_aliases,
                                collection_aliases,
                                params: Seq::empty(),
                                base_args: Seq::empty(),
                                ..t
                            },
                        ),
                    ),
                },
            },
        },
    }
}

/// A class built from a declaration under a substitution: its types, then its methods
/// and its constructor.
#[verifier::opaque]
pub open spec fn class_built(
    sub: Subst,
    out: Seq<EntryV>,
    t: ClassDeclV,
    name: Seq<char>,
) -> Built<ClassDeclV>
{
    match members_built(sub, out, t, name) {
        None => None,
        Some((one, c)) => match funcs_substituted(sub, one, t.methods) {
            None => None,
            Some((two, methods)) => match t.constructor {
                None => Some((two, ClassDeclV { methods, ..c })),
                Some(f) => match func_substituted(sub, two, f) {
                    None => None,
                    Some((last, f)) => Some(
                        (last, ClassDeclV { methods, constructor: Some(f), ..c }),
                    ),
                },
            },
        },
    }
}

/// The specialization of a template for concrete arguments: the one with this origin,
/// or a new one, built from the template in a place of its own.
#[verifier::opaque]
pub open spec fn specialized(
    env: Env,
    sub: Subst,
    out: Seq<EntryV>,
    t: ClassDeclV,
    args: Seq<Seq<char>>,
) -> Built<Seq<char>> {
    let o = origin(t, args);
    let i = origin_position(out, o);
    if i < out.len() {
        Some((out, out[i as int].class.name))
    } else {
        let name = free_name(env.classes, out, o);
        let held = out.push(EntryV { class: stub_class(name), origin: Some(o) });
        match class_built(sub, held, t, name) {
            None => None,
            Some((next, class)) => Some(
                (next.update(out.len() as int, EntryV { class, origin: Some(o) }), name),
            ),
        }
    }
}

/// The replacement of names under a substitution, following at most `d` levels
/// of type references.
#[verifier::opaque]
pub open spec fn subst_of(d: nat, env: Env, ctx: Ctx) -> Subst
    decreases d, 1nat,
{
    Subst {
        resolve: |out: Seq<EntryV>, t: TypeRefV| resolved(d, env, ctx, out, t),
        values: ctx.values,
    }
}

/// The concrete name of a type reference: a parameter stands for its argument,
/// an alias for its target, and arguments make a specialization: an existing
/// one, or a new one built in a place of its own.
#[verifier::opaque]
pub open spec fn resolved(d: nat, env: Env, ctx: Ctx, out: Seq<EntryV>, t: TypeRefV) -> Built<
    Seq<char>,
>
    decreases d, 0nat,
{
    if d == 0 {
        None
    } else if last_bound(ctx.bindings, t.name) is Some {
        Some((out, last_bound(ctx.bindings, t.name)->0))
    } else if last_alias(ctx.aliases, t.name) is Some {
        resolved((d - 1) as nat, env, ctx, out, last_alias(ctx.aliases, t.name)->0)
    } else if t.args.len() == 0 && first_alias(env.aliases, t.name) is Some {
        resolved((d - 1) as nat, env, ctx, out, first_alias(env.aliases, t.name)->0)
    } else if t.args.len() == 0 {
        Some((out, t.name))
    } else {
        match all_resolved(subst_of((d - 1) as nat, env, ctx), out, t.args) {
            None => None,
            Some((next, names)) => match template_named(env.classes, t.name) {
                None => Some((next, t.name)),
                Some(c) => {
                    let inner = specialized_ctx(c, names);
                    specialized(env, subst_of((d - 1) as nat, env, inner), next, c, names)
                },
            },
        }
    }
}

pub proof fn lemma_subst_of(d: nat, env: Env, ctx: Ctx, out: Seq<EntryV>, t: TypeRefV)
    ensures
        (subst_of(d, env, ctx).resolve)(out, t) == resolved(d, env, ctx, out, t),
        subst_of(d, env, ctx).values == ctx.values,
{
    reveal(subst_of);
    reveal(resolved);
}

/// A class put in the place of the one with its name, or at the end.
#[verifier::opaque]
pub open spec fn recorded(out: Seq<EntryV>, c: ClassDeclV) -> Seq<EntryV> {
    let i = class_position(out, c.name) as int;
    let e = EntryV { class: c, origin: None };
    if i < out.len() {
        out.update(i, e)
    } else {
        out.push(e)
    }
}

/// The classes after rewriting the first `i` declared classes that have no
/// parameters.
#[verifier::opaque]
pub open spec fn concrete_pass(d: nat, env: Env, i: nat) -> Option<Seq<EntryV>>
    decreases i,
{
    if i == 0 {
        Some(Seq::empty())
    } else {
        match concrete_pass(d, env, (i - 1) as nat) {
            None => None,
            Some(out) => {
                let c = env.classes[i - 1];
                if c.params.len() > 0 {
                    Some(out)
                } else {
                    let ctx = Ctx { aliases: c.type_aliases, ..empty_ctx() };
                    match class_built(subst_of(d, env, ctx), out, c, c.name) {
                        None => None,
                        Some((next, b)) => Some(recorded(next, b)),
                    }
                }
            },
        }
    }
}

/// The concrete names of the first `i` scope aliases, after the classes were
/// rewritten.
#[verifier::opaque]
pub open spec fn alias_pass(d: nat, env: Env, i: nat) -> Built<Seq<(Seq<char>, Seq<char>)>>
    decreases i,
{
    if i == 0 {
        match concrete_pass(d, env, env.classes.len()) {
            None => None,
            Some(out) => Some((out, Seq::empty())),
        }
    } else {
        match alias_pass(d, env, (i - 1) as nat) {
            None => None,
            Some((out, names)) => {
                let a = env.aliases[i - 1];
                match resolved(d, env, empty_ctx(), out, a.target) {
                    None => None,
                    Some((next, n)) => Some((next, names.push((a.alias, n)))),
                }
            },
        }
    }
}

/// The classes that are built.
pub open spec fn classes_of(out: Seq<EntryV>) -> Seq<ClassDeclV> {
    out.map_values(|e: EntryV| e.class)
}

/// The classes that are built, each with its origin, and the concrete name of each
/// scope alias; nothing if some type reference needs more than `d` levels.
pub open spec fn placed(d: nat, env: Env) -> Built<Seq<(Seq<char>, Seq<char>)>> {
    alias_pass(d, env, env.aliases.len())
}

/// The concrete classes and the concrete name of each scope alias; nothing if
/// some type reference needs more than `d` levels.
pub open spec fn monomorphized(d: nat, env: Env) -> Option<
    (Seq<ClassDeclV>, Seq<(Seq<char>, Seq<char>)>),
> {
    match placed(d, env) {
        None => None,
        Some((out, names)) => Some((classes_of(out), names)),
    }
}

} // verus!
