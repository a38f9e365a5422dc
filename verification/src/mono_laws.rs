//! Laws of monomorphization: classes are only added, each under a name of its own,
//! what comes out has no parameters, and each specialization is a copy of its template
//! that all references to it share.
use vstd::prelude::*;

use crate::ast_model::{
    ClassDeclV, CollectionAliasV, EventExprV, ExprV, FuncDeclV, LvalueV, ParamV, StmtV,
    TimingControlV, TypeAliasV, TypeRefV, VarDeclV,
};
use crate::mono_growth::{
    built_from, concrete, copied, extends, grew, group_growth, lemma_built_later,
    lemma_extends_chain, lemma_grew_extends, lemma_grew_filled, lemma_grew_same,
    lemma_origin_position, lemma_origin_stays, lemma_recorded, named_well, names_differ,
    origins_differ, sound, types_closed,
};
use crate::mono_model::{
    alias_pass, aliases_resolved, all_resolved, arms_substituted, class_built, class_name_resolved,
    classes_of, collections_resolved, concrete_pass, control_substituted, declares, empty_ctx,
    events_substituted, expr_substituted, exprs_substituted, first_alias, formal_substituted,
    formal_types, formals_substituted, free_name, func_substituted, funcs_substituted, last_alias,
    last_bound, lemma_subst_of, members_built, monomorphized, opt_expr_substituted,
    opt_type_resolved, origin, origin_position, placed, recorded, resolved, specialized,
    specialized_ctx, stmt_substituted, stmts_substituted, stub_class, subst_of, target_substituted,
    template_named, types_resolved, var_substituted, var_types, vars_substituted, Built, Ctx, EntryV,
    Env, NamedTypes, OriginV, Subst,
};

verus! {

broadcast use group_growth;

/// Whether resolving a type reference only adds classes.
pub open spec fn grows(env: Env, sub: Subst) -> bool {
    forall|out: Seq<EntryV>, t: TypeRefV|
        (#[trigger] (sub.resolve)(out, t)) is Some ==> grew(env, out, ((sub.resolve)(out, t)->0).0)
}

/// Whether building something only added classes.
pub open spec fn added<T>(env: Env, out: Seq<EntryV>, r: Built<T>) -> bool {
    r is Some ==> grew(env, out, (r->0).0)
}

proof fn lemma_all_resolved(env: Env, sub: Subst, out: Seq<EntryV>, s: Seq<TypeRefV>)
    requires
        grows(env, sub),
    ensures
        added(env, out, all_resolved(sub, out, s)),
    decreases s.len(),
{
    reveal(all_resolved);
    lemma_grew_same(env, out);
    if s.len() > 0 {
        lemma_all_resolved(env, sub, out, s.drop_last());
    }
}

proof fn lemma_class_name(
    env: Env,
    sub: Subst,
    out: Seq<EntryV>,
    name: Option<Seq<char>>,
    args: Seq<TypeRefV>,
)
    requires
        grows(env, sub),
    ensures
        added(env, out, class_name_resolved(sub, out, name, args)),
{
    reveal(class_name_resolved);
    lemma_grew_same(env, out);
}

proof fn lemma_expr(env: Env, sub: Subst, out: Seq<EntryV>, e: ExprV)
    requires
        grows(env, sub),
    ensures
        added(env, out, expr_substituted(sub, out, e)),
    decreases e,
{
    reveal(expr_substituted);
    reveal(exprs_substituted);
    lemma_grew_same(env, out);
    match e {
        ExprV::StaticCall { class_name, class_args, method, args } => {
            let t = TypeRefV { name: class_name, args: class_args };
            if (sub.resolve)(out, t) is Some {
                lemma_exprs(env, sub, ((sub.resolve)(out, t)->0).0, args);
            }
        },
        ExprV::StaticRef { class_name, field } => {
            assert(added(
                env,
                out,
                (sub.resolve)(out, TypeRefV { name: class_name, args: Seq::empty() }),
            ));
        },
        ExprV::Unary { op, operand } => lemma_expr(env, sub, out, *operand),
        ExprV::Binary { op, lhs, rhs } => {
            lemma_expr(env, sub, out, *lhs);
            if expr_substituted(sub, out, *lhs) is Some {
                lemma_expr(env, sub, (expr_substituted(sub, out, *lhs)->0).0, *rhs);
            }
        },
        ExprV::Call { name, args } => lemma_exprs(env, sub, out, args),
        ExprV::Field { obj, field } => lemma_expr(env, sub, out, *obj),
        ExprV::MethodCall { obj, method, args } => {
            lemma_expr(env, sub, out, *obj);
            if expr_substituted(sub, out, *obj) is Some {
                lemma_exprs(env, sub, (expr_substituted(sub, out, *obj)->0).0, args);
            }
        },
        ExprV::Index { base, index } => {
            lemma_expr(env, sub, out, *base);
            if expr_substituted(sub, out, *base) is Some {
                lemma_expr(env, sub, (expr_substituted(sub, out, *base)->0).0, *index);
            }
        },
        ExprV::PartSelect { base, left, right } => {
            lemma_expr(env, sub, out, *base);
            if expr_substituted(sub, out, *base) is Some {
                let one = (expr_substituted(sub, out, *base)->0).0;
                lemma_expr(env, sub, one, *left);
                if expr_substituted(sub, one, *left) is Some {
                    lemma_expr(env, sub, (expr_substituted(sub, one, *left)->0).0, *right);
                }
            }
        },
        ExprV::New { args } => lemma_exprs(env, sub, out, args),
        ExprV::Concat(parts) => lemma_exprs(env, sub, out, parts),
        ExprV::SysCall { name, args } => lemma_exprs(env, sub, out, args),
        _ => {},
    }
}

proof fn lemma_exprs(env: Env, sub: Subst, out: Seq<EntryV>, s: Seq<ExprV>)
    requires
        grows(env, sub),
    ensures
        added(env, out, exprs_substituted(sub, out, s)),
    decreases s,
{
    reveal(expr_substituted);
    reveal(exprs_substituted);
    lemma_grew_same(env, out);
    if s.len() > 0 {
        lemma_exprs(env, sub, out, s.drop_last());
        if exprs_substituted(sub, out, s.drop_last()) is Some {
            lemma_expr(env, sub, (exprs_substituted(sub, out, s.drop_last())->0).0, s.last());
        }
    }
}

proof fn lemma_opt_expr(env: Env, sub: Subst, out: Seq<EntryV>, o: Option<ExprV>)
    requires
        grows(env, sub),
    ensures
        added(env, out, opt_expr_substituted(sub, out, o)),
{
    reveal(opt_expr_substituted);
    lemma_grew_same(env, out);
    if let Some(e) = o {
        lemma_expr(env, sub, out, e);
    }
}

proof fn lemma_types(env: Env, sub: Subst, out: Seq<EntryV>, t: NamedTypes)
    requires
        grows(env, sub),
    ensures
        added(env, out, types_resolved(sub, out, t)),
        types_resolved(sub, out, t) is Some ==> ({
            let r = (types_resolved(sub, out, t)->0).1;
            r.class_name is Some ==> r.type_args.len() == 0
        }),
{
    reveal(types_resolved);
    lemma_class_name(env, sub, out, t.class_name, t.type_args);
    if class_name_resolved(sub, out, t.class_name, t.type_args) is Some {
        let one = (class_name_resolved(sub, out, t.class_name, t.type_args)->0).0;
        lemma_class_name(env, sub, one, t.type_scope, Seq::empty());
        if class_name_resolved(sub, one, t.type_scope, Seq::empty()) is Some {
            let two = (class_name_resolved(sub, one, t.type_scope, Seq::empty())->0).0;
            lemma_class_name(env, sub, two, t.key_class_name, Seq::empty());
        }
    }
}

proof fn lemma_var(env: Env, sub: Subst, out: Seq<EntryV>, v: VarDeclV)
    requires
        grows(env, sub),
    ensures
        added(env, out, var_substituted(sub, out, v)),
        var_substituted(sub, out, v) is Some ==> ({
            let w = (var_substituted(sub, out, v)->0).1;
            w.class_name is Some ==> w.type_args.len() == 0
        }),
{
    reveal(var_substituted);
    lemma_types(env, sub, out, var_types(v));
    if types_resolved(sub, out, var_types(v)) is Some {
        lemma_opt_expr(env, sub, (types_resolved(sub, out, var_types(v))->0).0, v.init);
    }
}

proof fn lemma_vars(env: Env, sub: Subst, out: Seq<EntryV>, s: Seq<VarDeclV>)
    requires
        grows(env, sub),
    ensures
        added(env, out, vars_substituted(sub, out, s)),
        vars_substituted(sub, out, s) is Some ==> types_closed(
            (vars_substituted(sub, out, s)->0).1,
            Seq::empty(),
            Seq::empty(),
        ),
    decreases s.len(),
{
    reveal(vars_substituted);
    lemma_grew_same(env, out);
    if s.len() > 0 {
        lemma_vars(env, sub, out, s.drop_last());
        if vars_substituted(sub, out, s.drop_last()) is Some {
            lemma_var(env, sub, (vars_substituted(sub, out, s.drop_last())->0).0, s.last());
        }
    }
}

proof fn lemma_target(env: Env, sub: Subst, out: Seq<EntryV>, l: LvalueV)
    requires
        grows(env, sub),
    ensures
        added(env, out, target_substituted(sub, out, l)),
{
    reveal(target_substituted);
    lemma_class_name(env, sub, out, l.scope, Seq::empty());
    if class_name_resolved(sub, out, l.scope, Seq::empty()) is Some {
        let one = (class_name_resolved(sub, out, l.scope, Seq::empty())->0).0;
        let receiver = match l.receiver {
            Some(e) => Some(*e),
            None => None,
        };
        lemma_opt_expr(env, sub, one, receiver);
        if opt_expr_substituted(sub, one, receiver) is Some {
            lemma_opt_expr(env, sub, (opt_expr_substituted(sub, one, receiver)->0).0, l.index);
        }
    }
}

proof fn lemma_events(env: Env, sub: Subst, out: Seq<EntryV>, s: Seq<EventExprV>)
    requires
        grows(env, sub),
    ensures
        added(env, out, events_substituted(sub, out, s)),
    decreases s.len(),
{
    reveal(events_substituted);
    lemma_grew_same(env, out);
    if s.len() > 0 {
        lemma_events(env, sub, out, s.drop_last());
        if events_substituted(sub, out, s.drop_last()) is Some {
            lemma_expr(env, sub, (events_substituted(sub, out, s.drop_last())->0).0, s.last().expr);
        }
    }
}

proof fn lemma_control(env: Env, sub: Subst, out: Seq<EntryV>, c: TimingControlV)
    requires
        grows(env, sub),
    ensures
        added(env, out, control_substituted(sub, out, c)),
{
    reveal(control_substituted);
    match c {
        TimingControlV::Delay(e) => lemma_expr(env, sub, out, e),
        TimingControlV::Event(s) => lemma_events(env, sub, out, s),
        TimingControlV::Wait(e) => lemma_expr(env, sub, out, e),
    }
}

proof fn lemma_stmt(env: Env, sub: Subst, out: Seq<EntryV>, s: StmtV)
    requires
        grows(env, sub),
    ensures
        added(env, out, stmt_substituted(sub, out, s)),
    decreases s,
{
    reveal(stmt_substituted);
    reveal(stmts_substituted);
    reveal(arms_substituted);
    lemma_grew_same(env, out);
    match s {
        StmtV::Block(list) => lemma_stmts(env, sub, out, list),
        StmtV::VarDecl(v) => lemma_var(env, sub, out, v),
        StmtV::Timed { control, body } => {
            lemma_control(env, sub, out, control);
            if control_substituted(sub, out, control) is Some {
                lemma_stmt(env, sub, (control_substituted(sub, out, control)->0).0, *body);
            }
        },
        StmtV::Blocking { lhs, rhs } => {
            lemma_target(env, sub, out, lhs);
            if target_substituted(sub, out, lhs) is Some {
                lemma_expr(env, sub, (target_substituted(sub, out, lhs)->0).0, rhs);
            }
        },
        StmtV::Nonblocking { lhs, rhs } => {
            lemma_target(env, sub, out, lhs);
            if target_substituted(sub, out, lhs) is Some {
                lemma_expr(env, sub, (target_substituted(sub, out, lhs)->0).0, rhs);
            }
        },
        StmtV::If { cond, then_branch, else_branch } => {
            lemma_expr(env, sub, out, cond);
            if expr_substituted(sub, out, cond) is Some {
                let one = (expr_substituted(sub, out, cond)->0).0;
                lemma_stmt(env, sub, one, *then_branch);
                if stmt_substituted(sub, one, *then_branch) is Some {
                    let two = (stmt_substituted(sub, one, *then_branch)->0).0;
                    if let Some(b) = else_branch {
                        lemma_stmt(env, sub, two, *b);
                    }
                }
            }
        },
        StmtV::While { cond, body } => {
            lemma_expr(env, sub, out, cond);
            if expr_substituted(sub, out, cond) is Some {
                lemma_stmt(env, sub, (expr_substituted(sub, out, cond)->0).0, *body);
            }
        },
        StmtV::DoWhile { cond, body } => {
            lemma_expr(env, sub, out, cond);
            if expr_substituted(sub, out, cond) is Some {
                lemma_stmt(env, sub, (expr_substituted(sub, out, cond)->0).0, *body);
            }
        },
        StmtV::Case { expr, items, default } => {
            lemma_expr(env, sub, out, expr);
            if expr_substituted(sub, out, expr) is Some {
                let one = (expr_substituted(sub, out, expr)->0).0;
                lemma_arms(env, sub, one, items);
                if arms_substituted(sub, one, items) is Some {
                    let two = (arms_substituted(sub, one, items)->0).0;
                    if let Some(b) = default {
                        lemma_stmt(env, sub, two, *b);
                    }
                }
            }
        },
        StmtV::Foreach { collection, index, body } => {
            lemma_expr(env, sub, out, collection);
            if expr_substituted(sub, out, collection) is Some {
                lemma_stmt(env, sub, (expr_substituted(sub, out, collection)->0).0, *body);
            }
        },
        StmtV::SysCall { name, args } => lemma_exprs(env, sub, out, args),
        StmtV::Expr(e) => lemma_expr(env, sub, out, e),
        StmtV::Trigger(e) => lemma_expr(env, sub, out, e),
        StmtV::Return(o) => {
            if let Some(e) = o {
                lemma_expr(env, sub, out, e);
            }
        },
        StmtV::Fork { branches, join } => lemma_stmts(env, sub, out, branches),
        _ => {},
    }
}

proof fn lemma_stmts(env: Env, sub: Subst, out: Seq<EntryV>, s: Seq<StmtV>)
    requires
        grows(env, sub),
    ensures
        added(env, out, stmts_substituted(sub, out, s)),
    decreases s,
{
    reveal(stmt_substituted);
    reveal(stmts_substituted);
    reveal(arms_substituted);
    lemma_grew_same(env, out);
    if s.len() > 0 {
        lemma_stmts(env, sub, out, s.drop_last());
        if stmts_substituted(sub, out, s.drop_last()) is Some {
            lemma_stmt(env, sub, (stmts_substituted(sub, out, s.drop_last())->0).0, s.last());
        }
    }
}

proof fn lemma_arms(env: Env, sub: Subst, out: Seq<EntryV>, s: Seq<(Seq<ExprV>, StmtV)>)
    requires
        grows(env, sub),
    ensures
        added(env, out, arms_substituted(sub, out, s)),
    decreases s,
{
    reveal(stmt_substituted);
    reveal(stmts_substituted);
    reveal(arms_substituted);
    lemma_grew_same(env, out);
    if s.len() > 0 {
        lemma_arms(env, sub, out, s.drop_last());
        if arms_substituted(sub, out, s.drop_last()) is Some {
            let one = (arms_substituted(sub, out, s.drop_last())->0).0;
            lemma_exprs(env, sub, one, s.last().0);
            if exprs_substituted(sub, one, s.last().0) is Some {
                lemma_stmt(env, sub, (exprs_substituted(sub, one, s.last().0)->0).0, s.last().1);
            }
        }
    }
}

proof fn lemma_formal(env: Env, sub: Subst, out: Seq<EntryV>, p: ParamV)
    requires
        grows(env, sub),
    ensures
        added(env, out, formal_substituted(sub, out, p)),
{
    reveal(formal_substituted);
    lemma_types(env, sub, out, formal_types(p));
    if types_resolved(sub, out, formal_types(p)) is Some {
        lemma_opt_expr(env, sub, (types_resolved(sub, out, formal_types(p))->0).0, p.default);
    }
}

proof fn lemma_formals(env: Env, sub: Subst, out: Seq<EntryV>, s: Seq<ParamV>)
    requires
        grows(env, sub),
    ensures
        added(env, out, formals_substituted(sub, out, s)),
    decreases s.len(),
{
    reveal(formals_substituted);
    lemma_grew_same(env, out);
    if s.len() > 0 {
        lemma_formals(env, sub, out, s.drop_last());
        if formals_substituted(sub, out, s.drop_last()) is Some {
            lemma_formal(env, sub, (formals_substituted(sub, out, s.drop_last())->0).0, s.last());
        }
    }
}

proof fn lemma_func(env: Env, sub: Subst, out: Seq<EntryV>, f: FuncDeclV)
    requires
        grows(env, sub),
    ensures
        added(env, out, func_substituted(sub, out, f)),
{
    reveal(func_substituted);
    lemma_class_name(env, sub, out, f.ret_class, Seq::empty());
    if class_name_resolved(sub, out, f.ret_class, Seq::empty()) is Some {
        let one = (class_name_resolved(sub, out, f.ret_class, Seq::empty())->0).0;
        lemma_formals(env, sub, one, f.params);
        if formals_substituted(sub, one, f.params) is Some {
            lemma_stmt(env, sub, (formals_substituted(sub, one, f.params)->0).0, f.body);
        }
    }
}

proof fn lemma_funcs(env: Env, sub: Subst, out: Seq<EntryV>, s: Seq<FuncDeclV>)
    requires
        grows(env, sub),
    ensures
        added(env, out, funcs_substituted(sub, out, s)),
    decreases s.len(),
{
    reveal(funcs_substituted);
    lemma_grew_same(env, out);
    if s.len() > 0 {
        lemma_funcs(env, sub, out, s.drop_last());
        if funcs_substituted(sub, out, s.drop_last()) is Some {
            lemma_func(env, sub, (funcs_substituted(sub, out, s.drop_last())->0).0, s.last());
        }
    }
}

proof fn lemma_aliases(env: Env, sub: Subst, out: Seq<EntryV>, s: Seq<TypeAliasV>)
    requires
        grows(env, sub),
    ensures
        added(env, out, aliases_resolved(sub, out, s)),
        aliases_resolved(sub, out, s) is Some ==> types_closed(
            Seq::empty(),
            (aliases_resolved(sub, out, s)->0).1,
            Seq::empty(),
        ),
    decreases s.len(),
{
    reveal(aliases_resolved);
    lemma_grew_same(env, out);
    if s.len() > 0 {
        lemma_aliases(env, sub, out, s.drop_last());
    }
}

proof fn lemma_opt_type(env: Env, sub: Subst, out: Seq<EntryV>, o: Option<TypeRefV>)
    requires
        grows(env, sub),
    ensures
        added(env, out, opt_type_resolved(sub, out, o)),
        opt_type_resolved(sub, out, o) is Some ==> ((opt_type_resolved(sub, out, o)->0).1 matches Some(
            t,
        ) ==> t.args.len() == 0),
{
    reveal(opt_type_resolved);
    lemma_grew_same(env, out);
}

proof fn lemma_collections(env: Env, sub: Subst, out: Seq<EntryV>, s: Seq<CollectionAliasV>)
    requires
        grows(env, sub),
    ensures
        added(env, out, collections_resolved(sub, out, s)),
        collections_resolved(sub, out, s) is Some ==> types_closed(
            Seq::empty(),
            Seq::empty(),
            (collections_resolved(sub, out, s)->0).1,
        ),
    decreases s.len(),
{
    reveal(collections_resolved);
    lemma_grew_same(env, out);
    if s.len() > 0 {
        lemma_collections(env, sub, out, s.drop_last());
        if collections_resolved(sub, out, s.drop_last()) is Some {
            let one = (collections_resolved(sub, out, s.drop_last())->0).0;
            lemma_opt_type(env, sub, one, s.last().element);
            if opt_type_resolved(sub, one, s.last().element) is Some {
                let two = (opt_type_resolved(sub, one, s.last().element)->0).0;
                lemma_opt_type(env, sub, two, s.last().key);
            }
        }
    }
}

proof fn lemma_members(env: Env, sub: Subst, out: Seq<EntryV>, t: ClassDeclV, name: Seq<char>)
    requires
        grows(env, sub),
    ensures
        added(env, out, members_built(sub, out, t, name)),
        members_built(sub, out, t, name) is Some ==> ({
            let c = (members_built(sub, out, t, name)->0).1;
            c.name == name && concrete(c)
        }),
{
    reveal(members_built);
    lemma_class_name(env, sub, out, t.base, t.base_args);
    if class_name_resolved(sub, out, t.base, t.base_args) is Some {
        let one = (class_name_resolved(sub, out, t.base, t.base_args)->0).0;
        lemma_vars(env, sub, one, t.fields);
        if vars_substituted(sub, one, t.fields) is Some {
            let two = (vars_substituted(sub, one, t.fields)->0).0;
            lemma_aliases(env, sub, two, t.type_aliases);
            if aliases_resolved(sub, two, t.type_aliases) is Some {
                let three = (aliases_resolved(sub, two, t.type_aliases)->0).0;
                lemma_collections(env, sub, three, t.collection_aliases);
            }
        }
    }
}

proof fn lemma_class(env: Env, sub: Subst, out: Seq<EntryV>, t: ClassDeclV, name: Seq<char>)
    requires
        grows(env, sub),
    ensures
        added(env, out, class_built(sub, out, t, name)),
        class_built(sub, out, t, name) is Some ==> ({
            let c = (class_built(sub, out, t, name)->0).1;
            c.name == name && concrete(c)
        }),
{
    reveal(class_built);
    lemma_members(env, sub, out, t, name);
    if members_built(sub, out, t, name) is Some {
        let one = (members_built(sub, out, t, name)->0).0;
        lemma_funcs(env, sub, one, t.methods);
        if funcs_substituted(sub, one, t.methods) is Some {
            let two = (funcs_substituted(sub, one, t.methods)->0).0;
            if let Some(c) = t.constructor {
                lemma_func(env, sub, two, c);
            }
        }
    }
}

/// A template has parameters and the name that it is looked up by.
proof fn lemma_template(s: Seq<ClassDeclV>, name: Seq<char>)
    requires
        template_named(s, name) is Some,
    ensures
        (template_named(s, name)->0).name == name,
        (template_named(s, name)->0).params.len() > 0,
        declares(s, name),
    decreases s.len(),
{
    if s[0].params.len() > 0 && s[0].name == name {
        assert(s[0].name == name);
    } else {
        lemma_template(s.skip(1), name);
        let i = choose|i: int| 0 <= i < s.skip(1).len() && (#[trigger] s.skip(1)[i]).name == name;
        assert(s[i + 1].name == name);
    }
}

/// A specialization is in the list, in its place and under its name.
proof fn lemma_specialized(
    d: nat,
    env: Env,
    out: Seq<EntryV>,
    base: Seq<char>,
    args: Seq<Seq<char>>,
)
    requires
        template_named(env.classes, base) is Some,
        grows(env, subst_of(d, env, specialized_ctx(template_named(env.classes, base)->0, args))),
    ensures
        ({
            let t = template_named(env.classes, base)->0;
            let r = specialized(env, subst_of(d, env, specialized_ctx(t, args)), out, t, args);
            let o = origin(t, args);
            &&& added(env, out, r)
            &&& r matches Some((next, name)) ==> origin_position(next, o) < next.len()
                && next[origin_position(next, o) as int].class.name == name
        }),
{
    reveal(specialized);
    lemma_grew_same(env, out);
    lemma_template(env.classes, base);
    let t = template_named(env.classes, base)->0;
    let sub = subst_of(d, env, specialized_ctx(t, args));
    let o = origin(t, args);
    lemma_origin_position(out, o);
    if origin_position(out, o) >= out.len() {
        let name = free_name(env.classes, out, o);
        let held = out.push(EntryV { class: stub_class(name), origin: Some(o) });
        lemma_class(env, sub, held, t, name);
        if class_built(sub, held, t, name) is Some {
            let (next, c) = class_built(sub, held, t, name)->0;
            let e = EntryV { class: c, origin: Some(o) };
            let r = next.update(out.len() as int, e);
            lemma_grew_extends(env, held, next);
            assert(next[out.len() as int].class.name == held[out.len() as int].class.name);
            assert(extends(next, r));
            assert(copied(d, env, args, held, r, o, c));
            lemma_grew_filled(env, out, next, e);
            lemma_origin_position(r, o);
            lemma_grew_extends(env, out, r);
            let i = origin_position(r, o) as int;
            assert(r[out.len() as int].origin == Some(o));
            if i < out.len() {
                assert(out[i].origin == r[i].origin);
                assert(out[i].origin == Some(o));
            }
        }
    }
}

/// Resolving a type reference only adds classes, each concrete, under a name of its
/// own, and a copy of its template.
pub proof fn resolving_adds_concrete_classes(
    d: nat,
    env: Env,
    ctx: Ctx,
    out: Seq<EntryV>,
    t: TypeRefV,
)
    ensures
        added(env, out, resolved(d, env, ctx, out, t)),
    decreases d, 0nat,
{
    reveal(resolved);
    lemma_grew_same(env, out);
    if d > 0 {
        let e = (d - 1) as nat;
        if last_bound(ctx.bindings, t.name) is Some {
        } else if last_alias(ctx.aliases, t.name) is Some {
            resolving_adds_concrete_classes(
                e,
                env,
                ctx,
                out,
                last_alias(ctx.aliases, t.name)->0,
            );
        } else if t.args.len() == 0 && first_alias(env.aliases, t.name) is Some {
            resolving_adds_concrete_classes(
                e,
                env,
                ctx,
                out,
                first_alias(env.aliases, t.name)->0,
            );
        } else if t.args.len() > 0 {
            lemma_subst_grows(e, env, ctx);
            lemma_all_resolved(env, subst_of(e, env, ctx), out, t.args);
            if all_resolved(subst_of(e, env, ctx), out, t.args) is Some {
                let (next, names) = all_resolved(subst_of(e, env, ctx), out, t.args)->0;
                if let Some(c) = template_named(env.classes, t.name) {
                    lemma_subst_grows(e, env, specialized_ctx(c, names));
                    lemma_specialized(e, env, next, t.name, names);
                }
            }
        }
    }
}

proof fn lemma_subst_grows(d: nat, env: Env, ctx: Ctx)
    ensures
        grows(env, subst_of(d, env, ctx)),
    decreases d, 1nat,
{
    let sub = subst_of(d, env, ctx);
    assert forall|out: Seq<EntryV>, t: TypeRefV|
        (#[trigger] (sub.resolve)(out, t)) is Some implies grew(
        env,
        out,
        ((sub.resolve)(out, t)->0).0,
    ) by {
        lemma_subst_of(d, env, ctx, out, t);
        resolving_adds_concrete_classes(d, env, ctx, out, t);
    }
}

// ---- references ---------------------------------------------------------------------------

/// Whether a type reference has a name and nothing is left to build for it.
pub open spec fn settled(
    d: nat,
    env: Env,
    ctx: Ctx,
    out: Seq<EntryV>,
    t: TypeRefV,
    name: Seq<char>,
) -> bool {
    resolved(d, env, ctx, out, t) == Some((out, name))
}

/// The template and the resolved arguments that a type reference comes down to, behind
/// its aliases; nothing for a parameter or a plain class.
pub open spec fn instance(d: nat, env: Env, ctx: Ctx, out: Seq<EntryV>, t: TypeRefV) -> Option<
    OriginV,
>
    decreases d,
{
    if d == 0 || last_bound(ctx.bindings, t.name) is Some {
        None
    } else if last_alias(ctx.aliases, t.name) is Some {
        instance((d - 1) as nat, env, ctx, out, last_alias(ctx.aliases, t.name)->0)
    } else if t.args.len() == 0 && first_alias(env.aliases, t.name) is Some {
        instance((d - 1) as nat, env, ctx, out, first_alias(env.aliases, t.name)->0)
    } else if t.args.len() == 0 {
        None
    } else {
        match (
            all_resolved(subst_of((d - 1) as nat, env, ctx), out, t.args),
            template_named(env.classes, t.name),
        ) {
            (Some((_, names)), Some(c)) => Some(origin(c, names)),
            _ => None,
        }
    }
}

/// A reference to a specialization leads to the class with its origin.
proof fn lemma_instance(d: nat, env: Env, ctx: Ctx, out: Seq<EntryV>, t: TypeRefV)
    requires
        resolved(d, env, ctx, out, t) is Some,
        instance(d, env, ctx, out, t) is Some,
    ensures
        ({
            let (next, name) = resolved(d, env, ctx, out, t)->0;
            let o = instance(d, env, ctx, out, t)->0;
            origin_position(next, o) < next.len() && next[origin_position(
                next,
                o,
            ) as int].class.name == name
        }),
    decreases d,
{
    reveal(resolved);
    let e = (d - 1) as nat;
    if last_alias(ctx.aliases, t.name) is Some {
        lemma_instance(e, env, ctx, out, last_alias(ctx.aliases, t.name)->0);
    } else if t.args.len() == 0 && first_alias(env.aliases, t.name) is Some {
        lemma_instance(e, env, ctx, out, first_alias(env.aliases, t.name)->0);
    } else {
        let (next, names) = all_resolved(subst_of(e, env, ctx), out, t.args)->0;
        let c = template_named(env.classes, t.name)->0;
        lemma_subst_grows(e, env, specialized_ctx(c, names));
        lemma_specialized(e, env, next, t.name, names);
    }
}

proof fn lemma_all_stay(
    d: nat,
    env: Env,
    ctx: Ctx,
    out: Seq<EntryV>,
    s: Seq<TypeRefV>,
    later: Seq<EntryV>,
)
    requires
        all_resolved(subst_of(d, env, ctx), out, s) is Some,
        extends((all_resolved(subst_of(d, env, ctx), out, s)->0).0, later),
    ensures
        all_resolved(subst_of(d, env, ctx), later, s) == Some(
            (later, (all_resolved(subst_of(d, env, ctx), out, s)->0).1),
        ),
    decreases d, 1nat, s.len(),
{
    reveal(all_resolved);
    if s.len() > 0 {
        let sub = subst_of(d, env, ctx);
        let mid = (all_resolved(sub, out, s.drop_last())->0).0;
        lemma_subst_of(d, env, ctx, mid, s.last());
        lemma_subst_of(d, env, ctx, later, s.last());
        let next = (resolved(d, env, ctx, mid, s.last())->0).0;
        resolving_adds_concrete_classes(d, env, ctx, mid, s.last());
        lemma_grew_extends(env, mid, next);
        lemma_extends_chain(mid, next, later);
        lemma_all_stay(d, env, ctx, out, s.drop_last(), later);
        resolved_references_stay(d, env, ctx, mid, s.last(), later);
    }
}

/// A type reference that was resolved keeps its name: in every later list nothing is
/// left to build for it.
pub proof fn resolved_references_stay(
    d: nat,
    env: Env,
    ctx: Ctx,
    out: Seq<EntryV>,
    t: TypeRefV,
    later: Seq<EntryV>,
)
    requires
        resolved(d, env, ctx, out, t) is Some,
        extends((resolved(d, env, ctx, out, t)->0).0, later),
    ensures
        settled(d, env, ctx, later, t, (resolved(d, env, ctx, out, t)->0).1),
    decreases d, 0nat, 0nat,
{
    reveal(resolved);
    let e = (d - 1) as nat;
    if last_bound(ctx.bindings, t.name) is Some {
    } else if last_alias(ctx.aliases, t.name) is Some {
        resolved_references_stay(e, env, ctx, out, last_alias(ctx.aliases, t.name)->0, later);
    } else if t.args.len() == 0 && first_alias(env.aliases, t.name) is Some {
        resolved_references_stay(e, env, ctx, out, first_alias(env.aliases, t.name)->0, later);
    } else if t.args.len() > 0 {
        let (mid, names) = all_resolved(subst_of(e, env, ctx), out, t.args)->0;
        if let Some(c) = template_named(env.classes, t.name) {
            let sub = subst_of(e, env, specialized_ctx(c, names));
            let next = (specialized(env, sub, mid, c, names)->0).0;
            lemma_subst_grows(e, env, specialized_ctx(c, names));
            lemma_specialized(e, env, mid, t.name, names);
            lemma_grew_extends(env, mid, next);
            lemma_extends_chain(mid, next, later);
            lemma_all_stay(e, env, ctx, out, t.args, later);
            lemma_origin_stays(next, later, origin(c, names));
            reveal(specialized);
        } else {
            lemma_all_stay(e, env, ctx, out, t.args, later);
        }
    }
}

proof fn lemma_field_settled(
    d: nat,
    env: Env,
    ctx: Ctx,
    out: Seq<EntryV>,
    s: Seq<VarDeclV>,
    j: int,
    later: Seq<EntryV>,
)
    requires
        vars_substituted(subst_of(d, env, ctx), out, s) is Some,
        extends((vars_substituted(subst_of(d, env, ctx), out, s)->0).0, later),
        0 <= j < s.len(),
        s[j].class_name is Some,
    ensures
        ({
            let r = (vars_substituted(subst_of(d, env, ctx), out, s)->0).1;
            let t = TypeRefV { name: s[j].class_name->0, args: s[j].type_args };
            &&& r.len() == s.len()
            &&& r[j].class_name is Some
            &&& settled(d, env, ctx, later, t, r[j].class_name->0)
        }),
    decreases s.len(),
{
    reveal(vars_substituted);
    let sub = subst_of(d, env, ctx);
    lemma_subst_grows(d, env, ctx);
    let (mid, done) = vars_substituted(sub, out, s.drop_last())->0;
    let (next, v) = var_substituted(sub, mid, s.last())->0;
    lemma_var(env, sub, mid, s.last());
    lemma_grew_extends(env, mid, next);
    lemma_extends_chain(mid, next, later);
    lemma_vars_len(sub, out, s.drop_last());
    if j < s.len() - 1 {
        assert(s.drop_last()[j] == s[j]);
        lemma_field_settled(d, env, ctx, out, s.drop_last(), j, later);
    } else {
        reveal(var_substituted);
        reveal(types_resolved);
        reveal(class_name_resolved);
        reveal(opt_expr_substituted);
        let t = TypeRefV { name: s[j].class_name->0, args: s[j].type_args };
        lemma_subst_of(d, env, ctx, mid, t);
        let one = (resolved(d, env, ctx, mid, t)->0).0;
        let types = (types_resolved(sub, mid, var_types(s.last()))->0).0;
        lemma_class_name(env, sub, one, s.last().type_scope, Seq::empty());
        let two = (class_name_resolved(sub, one, s.last().type_scope, Seq::empty())->0).0;
        lemma_class_name(env, sub, two, s.last().key_class_name, Seq::empty());
        lemma_opt_expr(env, sub, types, s.last().init);
        lemma_grew_extends(env, one, next);
        lemma_extends_chain(one, next, later);
        resolved_references_stay(d, env, ctx, mid, t, later);
    }
}

proof fn lemma_vars_len(sub: Subst, out: Seq<EntryV>, s: Seq<VarDeclV>)
    requires
        vars_substituted(sub, out, s) is Some,
    ensures
        (vars_substituted(sub, out, s)->0).1.len() == s.len(),
    decreases s.len(),
{
    reveal(vars_substituted);
    if s.len() > 0 {
        lemma_vars_len(sub, out, s.drop_last());
    }
}

/// In a class that was built, the base and each field of a class type name what their
/// type references come down to, also in every later list.
pub proof fn members_name_their_classes(
    d: nat,
    env: Env,
    ctx: Ctx,
    out: Seq<EntryV>,
    t: ClassDeclV,
    name: Seq<char>,
    later: Seq<EntryV>,
)
    requires
        class_built(subst_of(d, env, ctx), out, t, name) is Some,
        extends((class_built(subst_of(d, env, ctx), out, t, name)->0).0, later),
    ensures
        ({
            let c = (class_built(subst_of(d, env, ctx), out, t, name)->0).1;
            &&& t.base is Some ==> c.base is Some && settled(
                d,
                env,
                ctx,
                later,
                TypeRefV { name: t.base->0, args: t.base_args },
                c.base->0,
            )
            &&& c.fields.len() == t.fields.len()
            &&& forall|j: int|
                0 <= j < t.fields.len() && (#[trigger] t.fields[j]).class_name is Some
                    ==> c.fields[j].class_name is Some && settled(
                    d,
                    env,
                    ctx,
                    later,
                    TypeRefV { name: t.fields[j].class_name->0, args: t.fields[j].type_args },
                    c.fields[j].class_name->0,
                )
        }),
{
    reveal(class_built);
    reveal(members_built);
    reveal(class_name_resolved);
    let sub = subst_of(d, env, ctx);
    lemma_subst_grows(d, env, ctx);
    let end = (class_built(sub, out, t, name)->0).0;
    let made = (members_built(sub, out, t, name)->0).0;
    let one = (class_name_resolved(sub, out, t.base, t.base_args)->0).0;
    let two = (vars_substituted(sub, one, t.fields)->0).0;
    let three = (aliases_resolved(sub, two, t.type_aliases)->0).0;
    lemma_vars(env, sub, one, t.fields);
    lemma_aliases(env, sub, two, t.type_aliases);
    lemma_collections(env, sub, three, t.collection_aliases);
    lemma_funcs(env, sub, made, t.methods);
    let funcs = (funcs_substituted(sub, made, t.methods)->0).0;
    lemma_grew_same(env, funcs);
    if let Some(f) = t.constructor {
        lemma_func(env, sub, funcs, f);
    }
    assert(grew(env, two, end));
    lemma_grew_extends(env, one, end);
    lemma_extends_chain(one, end, later);
    lemma_grew_extends(env, two, end);
    lemma_extends_chain(two, end, later);
    if let Some(b) = t.base {
        let r = TypeRefV { name: b, args: t.base_args };
        lemma_subst_of(d, env, ctx, out, r);
        resolved_references_stay(d, env, ctx, out, r, later);
    }
    lemma_vars_len(sub, one, t.fields);
    assert forall|j: int|
        0 <= j < t.fields.len() && (#[trigger] t.fields[j]).class_name is Some implies ({
        let r = (vars_substituted(sub, one, t.fields)->0).1;
        let u = TypeRefV { name: t.fields[j].class_name->0, args: t.fields[j].type_args };
        r[j].class_name is Some && settled(d, env, ctx, later, u, r[j].class_name->0)
    }) by {
        lemma_field_settled(d, env, ctx, one, t.fields, j, later);
    }
}

// ---- runs ---------------------------------------------------------------------------------

/// Whether a list holds concrete classes under names of their own, and each
/// specialization is there once and is a copy of its template.
pub open spec fn whole(env: Env, s: Seq<EntryV>) -> bool {
    &&& sound(env.classes, s)
    &&& forall|i: int|
        0 <= i < s.len() ==> concrete((#[trigger] s[i]).class) && built_from(env, s, s[i])
}

/// Whether one of some classes has a name.
pub open spec fn has_name(s: Seq<EntryV>, name: Seq<char>) -> bool {
    exists|i: int| 0 <= i < s.len() && (#[trigger] s[i]).class.name == name
}

proof fn lemma_has_name(a: Seq<EntryV>, b: Seq<EntryV>, name: Seq<char>)
    requires
        extends(a, b),
        has_name(a, name),
    ensures
        has_name(b, name),
{
    let i = choose|i: int| 0 <= i < a.len() && (#[trigger] a[i]).class.name == name;
    assert(b[i].class.name == name);
}

proof fn lemma_grew_whole(env: Env, a: Seq<EntryV>, b: Seq<EntryV>)
    requires
        grew(env, a, b),
        whole(env, a),
    ensures
        whole(env, b),
{
    lemma_grew_extends(env, a, b);
    reveal(grew);
    assert forall|i: int| 0 <= i < b.len() implies concrete((#[trigger] b[i]).class) && built_from(
        env,
        b,
        b[i],
    ) by {
        if i < a.len() {
            assert(b.take(a.len() as int)[i] == b[i]);
            lemma_built_later(env, a, b, a[i]);
        }
    }
}

/// The substitution under which a declared class without parameters is built.
pub open spec fn own_ctx(c: ClassDeclV) -> Ctx {
    Ctx { aliases: c.type_aliases, ..empty_ctx() }
}

/// One step of the pass over the declared classes.
proof fn lemma_concrete_step(d: nat, env: Env, i: nat)
    requires
        0 < i <= env.classes.len(),
        concrete_pass(d, env, i) is Some,
        whole(env, concrete_pass(d, env, (i - 1) as nat)->0),
    ensures
        whole(env, concrete_pass(d, env, i)->0),
        extends(concrete_pass(d, env, (i - 1) as nat)->0, concrete_pass(d, env, i)->0),
        env.classes[i - 1].params.len() == 0 ==> ({
            let out = concrete_pass(d, env, (i - 1) as nat)->0;
            let c = env.classes[i - 1];
            let r = concrete_pass(d, env, i)->0;
            let sub = subst_of(d, env, own_ctx(c));
            &&& class_built(sub, out, c, c.name) is Some
            &&& extends((class_built(sub, out, c, c.name)->0).0, r)
            &&& has_name(r, c.name)
        }),
{
    reveal(concrete_pass);
    let out = concrete_pass(d, env, (i - 1) as nat)->0;
    let c = env.classes[i - 1];
    if c.params.len() == 0 {
        let sub = subst_of(d, env, own_ctx(c));
        lemma_subst_grows(d, env, own_ctx(c));
        lemma_class(env, sub, out, c, c.name);
        let (next, b) = class_built(sub, out, c, c.name)->0;
        lemma_grew_whole(env, out, next);
        assert(declares(env.classes, c.name));
        lemma_recorded(env.classes, next, b);
        let r = recorded(next, b);
        lemma_grew_extends(env, out, next);
        lemma_extends_chain(out, next, r);
        assert forall|k: int| 0 <= k < r.len() implies concrete((#[trigger] r[k]).class)
            && built_from(env, r, r[k]) by {
            if r[k] != (EntryV { class: b, origin: None }) {
                assert(r[k] == next[k]);
                lemma_built_later(env, next, r, next[k]);
            }
        }
        let k = choose|k: int|
            0 <= k < r.len() && #[trigger] r[k] == (EntryV { class: b, origin: None });
        assert(r[k].class.name == c.name);
    }
}

proof fn lemma_concrete_pass(d: nat, env: Env, i: nat)
    requires
        i <= env.classes.len(),
        concrete_pass(d, env, i) is Some,
    ensures
        whole(env, concrete_pass(d, env, i)->0),
        forall|k: int|
            0 <= k < i && (#[trigger] env.classes[k]).params.len() == 0 ==> has_name(
                concrete_pass(d, env, i)->0,
                env.classes[k].name,
            ),
    decreases i,
{
    reveal(concrete_pass);
    if i > 0 {
        lemma_concrete_pass(d, env, (i - 1) as nat);
        lemma_concrete_step(d, env, i);
        let out = concrete_pass(d, env, (i - 1) as nat)->0;
        let r = concrete_pass(d, env, i)->0;
        assert forall|k: int|
            0 <= k < i && (#[trigger] env.classes[k]).params.len() == 0 implies has_name(
            r,
            env.classes[k].name,
        ) by {
            if k < i - 1 {
                lemma_has_name(out, r, env.classes[k].name);
            }
        }
    }
}

proof fn lemma_concrete_extends(d: nat, env: Env, i: nat, k: nat)
    requires
        i <= k <= env.classes.len(),
        concrete_pass(d, env, k) is Some,
    ensures
        concrete_pass(d, env, i) is Some,
        extends(concrete_pass(d, env, i)->0, concrete_pass(d, env, k)->0),
    decreases k,
{
    if i < k {
        assert(concrete_pass(d, env, (k - 1) as nat) is Some) by {
            reveal(concrete_pass);
        }
        lemma_concrete_extends(d, env, i, (k - 1) as nat);
        lemma_concrete_pass(d, env, (k - 1) as nat);
        lemma_concrete_step(d, env, k);
        lemma_extends_chain(
            concrete_pass(d, env, i)->0,
            concrete_pass(d, env, (k - 1) as nat)->0,
            concrete_pass(d, env, k)->0,
        );
    }
}

proof fn lemma_alias_pass(d: nat, env: Env, i: nat)
    requires
        i <= env.aliases.len(),
        alias_pass(d, env, i) is Some,
    ensures
        concrete_pass(d, env, env.classes.len()) is Some,
        whole(env, (alias_pass(d, env, i)->0).0),
        extends(concrete_pass(d, env, env.classes.len())->0, (alias_pass(d, env, i)->0).0),
        (alias_pass(d, env, i)->0).1.len() == i,
        forall|k: int|
            0 <= k < i ==> (#[trigger] (alias_pass(d, env, i)->0).1[k]).0 == env.aliases[k].alias
                && settled(
                d,
                env,
                empty_ctx(),
                (alias_pass(d, env, i)->0).0,
                env.aliases[k].target,
                (alias_pass(d, env, i)->0).1[k].1,
            ),
    decreases i,
{
    reveal(alias_pass);
    if i == 0 {
        lemma_concrete_pass(d, env, env.classes.len());
    } else {
        lemma_alias_pass(d, env, (i - 1) as nat);
        let (out, names) = alias_pass(d, env, (i - 1) as nat)->0;
        let a = env.aliases[i - 1];
        resolving_adds_concrete_classes(d, env, empty_ctx(), out, a.target);
        let next = (resolved(d, env, empty_ctx(), out, a.target)->0).0;
        lemma_grew_whole(env, out, next);
        lemma_grew_extends(env, out, next);
        lemma_extends_chain(concrete_pass(d, env, env.classes.len())->0, out, next);
        let all = (alias_pass(d, env, i)->0).1;
        assert forall|k: int| 0 <= k < i implies (#[trigger] all[k]).0 == env.aliases[k].alias
            && settled(d, env, empty_ctx(), next, env.aliases[k].target, all[k].1) by {
            if k < i - 1 {
                assert(all[k] == names[k]);
                resolved_references_stay(d, env, empty_ctx(), out, env.aliases[k].target, next);
            } else {
                resolved_references_stay(d, env, empty_ctx(), out, a.target, next);
            }
        }
    }
}

/// What comes out of monomorphization has no parameters left, nor arguments in a
/// base, a field or an alias; no two classes share a name, every class without
/// parameters is there, and every scope alias has a meaning.
pub proof fn monomorphized_classes_are_concrete(d: nat, env: Env)
    requires
        monomorphized(d, env) is Some,
    ensures
        ({
            let (classes, names) = monomorphized(d, env)->0;
            &&& forall|i: int| 0 <= i < classes.len() ==> concrete(#[trigger] classes[i])
            &&& forall|i: int, j: int|
                0 <= i < classes.len() && 0 <= j < classes.len() && i != j ==> (
                #[trigger] classes[i]).name != (#[trigger] classes[j]).name
            &&& forall|k: int|
                0 <= k < env.classes.len() && (#[trigger] env.classes[k]).params.len() == 0
                    ==> declares(classes, env.classes[k].name)
            &&& names.len() == env.aliases.len()
            &&& forall|k: int|
                0 <= k < env.aliases.len() ==> (#[trigger] names[k]).0 == env.aliases[k].alias
        }),
{
    lemma_alias_pass(d, env, env.aliases.len());
    lemma_concrete_pass(d, env, env.classes.len());
    let out = (placed(d, env)->0).0;
    let classes = classes_of(out);
    assert forall|i: int| 0 <= i < classes.len() implies concrete(#[trigger] classes[i]) by {
        assert(concrete(out[i].class));
    }
    assert forall|i: int, j: int|
        0 <= i < classes.len() && 0 <= j < classes.len() && i != j implies (
    #[trigger] classes[i]).name != (#[trigger] classes[j]).name by {
        assert(out[i].class.name != out[j].class.name);
    }
    assert forall|k: int|
        0 <= k < env.classes.len() && (#[trigger] env.classes[k]).params.len() == 0 implies declares(
        classes,
        env.classes[k].name,
    ) by {
        let name = env.classes[k].name;
        lemma_has_name(concrete_pass(d, env, env.classes.len())->0, out, name);
        let i = choose|i: int| 0 <= i < out.len() && (#[trigger] out[i]).class.name == name;
        assert(classes[i].name == name);
    }
}

/// Each specialization that comes out of monomorphization is a copy of its template
/// with its arguments put in, under a name that no declared class has; no two are of
/// the same template and arguments, and no two classes share a name.
pub proof fn specializations_are_copies(d: nat, env: Env)
    requires
        placed(d, env) is Some,
    ensures
        ({
            let out = (placed(d, env)->0).0;
            &&& (monomorphized(d, env)->0).0 == classes_of(out)
            &&& names_differ(out)
            &&& origins_differ(out)
            &&& forall|i: int|
                0 <= i < out.len() ==> built_from(env, out, #[trigger] out[i]) && (
                out[i].origin is Some ==> !declares(env.classes, out[i].class.name))
        }),
{
    lemma_alias_pass(d, env, env.aliases.len());
    let out = (placed(d, env)->0).0;
    assert forall|i: int| 0 <= i < out.len() implies built_from(env, out, #[trigger] out[i]) && (
    out[i].origin is Some ==> !declares(env.classes, out[i].class.name)) by {
        assert(named_well(env.classes, out[i]));
    }
}

/// The references of a run are settled in what comes out: those of the scope aliases,
/// and those of the base and the fields of each declared class without parameters.
///
/// Of any other reference, `resolved_references_stay` says it from the list in which it
/// was resolved; of the base and the fields of a specialization,
/// `members_name_their_classes` does.
pub proof fn references_of_a_run_are_settled(d: nat, env: Env)
    requires
        placed(d, env) is Some,
    ensures
        ({
            let (out, names) = placed(d, env)->0;
            &&& forall|k: int|
                0 <= k < env.aliases.len() ==> settled(
                    d,
                    env,
                    empty_ctx(),
                    out,
                    env.aliases[k].target,
                    (#[trigger] names[k]).1,
                )
            &&& forall|k: int|
                0 <= k < env.classes.len() && (#[trigger] env.classes[k]).params.len() == 0
                    ==> declared_settled(d, env, k as nat, out)
        }),
{
    lemma_alias_pass(d, env, env.aliases.len());
    let out = (placed(d, env)->0).0;
    assert forall|k: int|
        0 <= k < env.classes.len() && (#[trigger] env.classes[k]).params.len() == 0 implies declared_settled(
        d,
        env,
        k as nat,
        out,
    ) by {
        let c = env.classes[k];
        let end = concrete_pass(d, env, env.classes.len())->0;
        lemma_concrete_extends(d, env, k as nat, env.classes.len());
        lemma_concrete_extends(d, env, (k + 1) as nat, env.classes.len());
        lemma_concrete_pass(d, env, k as nat);
        lemma_concrete_step(d, env, (k + 1) as nat);
        let start = concrete_pass(d, env, k as nat)->0;
        let after = concrete_pass(d, env, (k + 1) as nat)->0;
        let next = (class_built(subst_of(d, env, own_ctx(c)), start, c, c.name)->0).0;
        lemma_extends_chain(next, after, end);
        lemma_extends_chain(next, end, out);
        members_name_their_classes(d, env, own_ctx(c), start, c, c.name, out);
    }
}

/// Whether the references of the base and the fields of a declared class are settled in
/// a list, and the class that was built for it has their names.
pub open spec fn declared_settled(d: nat, env: Env, k: nat, out: Seq<EntryV>) -> bool {
    let c = env.classes[k as int];
    let ctx = own_ctx(c);
    let built = class_built(subst_of(d, env, ctx), concrete_pass(d, env, k)->0, c, c.name);
    &&& built matches Some((_, b)) && (c.base is Some ==> b.base is Some && settled(
        d,
        env,
        ctx,
        out,
        TypeRefV { name: c.base->0, args: c.base_args },
        b.base->0,
    )) && b.fields.len() == c.fields.len() && forall|j: int|
        0 <= j < c.fields.len() && (#[trigger] c.fields[j]).class_name is Some
            ==> b.fields[j].class_name is Some && settled(
            d,
            env,
            ctx,
            out,
            TypeRefV { name: c.fields[j].class_name->0, args: c.fields[j].type_args },
            b.fields[j].class_name->0,
        )
}

/// Two references that are settled in what comes out of one run of monomorphization,
/// wherever and under whatever substitution they stand, and that come down to templates
/// with arguments, have the same name exactly if template and arguments are the same;
/// each name is that of one class, the copy of the template with the arguments put in.
pub proof fn arguments_tell_references_apart(
    d: nat,
    env: Env,
    d1: nat,
    ctx1: Ctx,
    t1: TypeRefV,
    name1: Seq<char>,
    d2: nat,
    ctx2: Ctx,
    t2: TypeRefV,
    name2: Seq<char>,
)
    requires
        placed(d, env) is Some,
        settled(d1, env, ctx1, (placed(d, env)->0).0, t1, name1),
        settled(d2, env, ctx2, (placed(d, env)->0).0, t2, name2),
        instance(d1, env, ctx1, (placed(d, env)->0).0, t1) is Some,
        instance(d2, env, ctx2, (placed(d, env)->0).0, t2) is Some,
    ensures
        ({
            let out = (placed(d, env)->0).0;
            let classes = (monomorphized(d, env)->0).0;
            let o1 = instance(d1, env, ctx1, out, t1)->0;
            let o2 = instance(d2, env, ctx2, out, t2)->0;
            let p1 = origin_position(out, o1) as int;
            let p2 = origin_position(out, o2) as int;
            &&& name1 == name2 <==> o1 == o2
            &&& p1 == p2 <==> o1 == o2
            &&& 0 <= p1 < classes.len() && classes[p1].name == name1
            &&& 0 <= p2 < classes.len() && classes[p2].name == name2
            &&& out[p1].origin == Some(o1) && built_from(env, out, out[p1])
            &&& out[p2].origin == Some(o2) && built_from(env, out, out[p2])
            &&& forall|i: int|
                0 <= i < classes.len() ==> ((#[trigger] classes[i]).name == name1 <==> i == p1) && (
                classes[i].name == name2 <==> i == p2)
        }),
{
    lemma_alias_pass(d, env, env.aliases.len());
    let out = (placed(d, env)->0).0;
    let classes = classes_of(out);
    let o1 = instance(d1, env, ctx1, out, t1)->0;
    let o2 = instance(d2, env, ctx2, out, t2)->0;
    lemma_instance(d1, env, ctx1, out, t1);
    lemma_instance(d2, env, ctx2, out, t2);
    lemma_origin_position(out, o1);
    lemma_origin_position(out, o2);
    let p1 = origin_position(out, o1) as int;
    let p2 = origin_position(out, o2) as int;
    assert(classes[p1].name == name1 && classes[p2].name == name2);
    assert forall|i: int| 0 <= i < classes.len() implies ((#[trigger] classes[i]).name == name1
        <==> i == p1) && (classes[i].name == name2 <==> i == p2) by {
        if i != p1 {
            assert(out[i].class.name != out[p1].class.name);
        }
        if i != p2 {
            assert(out[i].class.name != out[p2].class.name);
        }
    }
}

} // verus!
