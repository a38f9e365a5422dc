//! Monomorphization of parameterized classes.
//!
//! Concrete (non-template) classes are walked; every `#(args)` reference
//! triggers a specialization, which recurses into nested arguments.
//! Specializations are shared by template and arguments, and a place reserved before
//! a specialization is built ends self-referential hierarchies.
use vstd::prelude::*;

use crate::ast::{
    arms_view, clone_expr, clone_list, clone_stmt, clone_type_refs, exprs_view, stmts_view,
    type_refs_view, views, ClassDecl, CollectionAlias, EventExpr, Expr, FuncDecl, Lvalue, Param, Stmt,
    TimingControl, TypeAlias, TypeRef, VarDecl,
};
use crate::ast_model::{
    CollectionAliasV, EventExprV, ExprV, FuncDeclV, ParamV, StmtV, TypeAliasV, TypeRefV, VarDeclV,
};
use crate::mono_model::{
    alias_pass, aliases_resolved, all_resolved, arms_substituted, class_built, class_name_resolved,
    classes_of, collections_resolved, concrete_pass, control_substituted, empty_ctx,
    events_substituted, expr_substituted, exprs_substituted, formal_substituted, formals_substituted,
    func_substituted, funcs_substituted, lemma_subst_of, members_built, monomorphized,
    opt_expr_substituted, opt_type_resolved, recorded, resolved, specialized, specialized_ctx,
    stmt_substituted, stmts_substituted, stub_class, subst_of, target_substituted, types_resolved,
    var_substituted, vars_substituted, Built, Ctx, EntryV, Env, NamedTypes, Subst,
};
use crate::mono_names::{
    bind_params, choose_name, find_bound, find_class, find_first_alias, find_last_alias, find_origin,
    find_template, opt_view, origin_of, pair_views, stub, value_to_expr, Entry, Origin,
};
use crate::stmt_check::name_views;

verus! {

/// Whether what was built and returned is what was to be.
pub open spec fn agrees<T>(want: Built<T>, built: Seq<EntryV>, got: Option<T>) -> bool {
    match want {
        None => got is None,
        Some((b, v)) => got == Some(v) && built == b,
    }
}

/// The substitution of the class being built.
struct SubstCtx {
    bindings: Vec<(String, String)>,
    values: Vec<(String, String)>,
    aliases: Vec<TypeAlias>,
}

impl View for SubstCtx {
    type V = Ctx;

    closed spec fn view(&self) -> Ctx {
        Ctx {
            bindings: pair_views(self.bindings@),
            values: pair_views(self.values@),
            aliases: views(self.aliases@),
        }
    }
}

/// The specializations in the making.
struct Mono<'a> {
    classes: &'a Vec<ClassDecl>,
    aliases: &'a Vec<TypeAlias>,
    out: Vec<Entry>,
}

impl<'a> Mono<'a> {
    spec fn env(&self) -> Env {
        Env { classes: views(self.classes@), aliases: views(self.aliases@) }
    }

    spec fn built(&self) -> Seq<EntryV> {
        views(self.out@)
    }

    /// The classes grew from those of `before`, over the same declarations.
    spec fn extends(&self, before: &Self) -> bool {
        &&& self.env() == before.env()
        &&& self.out@.len() >= before.out@.len()
    }

    fn resolve(&mut self, d: usize, ctx: &SubstCtx, t: &TypeRef) -> (r: Option<String>)
        ensures
            final(self).extends(old(self)),
            agrees(
                resolved(d as nat, old(self).env(), ctx@, old(self).built(), t@),
                final(self).built(),
                opt_view(r),
            ),
        decreases d, 0nat, 0nat, t,
    {
        proof {
            reveal(resolved);
        }
        if d == 0 {
            return None;
        }
        if let Some(b) = find_bound(&ctx.bindings, &t.name) {
            return Some(b.clone());
        }
        if let Some(target) = find_last_alias(&ctx.aliases, &t.name) {
            return self.resolve(d - 1, ctx, target);
        }
        assert(t@.args.len() == t.args@.len());
        if t.args.len() == 0 {
            let aliases: &'a Vec<TypeAlias> = self.aliases;
            return match find_first_alias(aliases, &t.name) {
                Some(target) => self.resolve(d - 1, ctx, target),
                None => Some(t.name.clone()),
            };
        }
        let names: Vec<String> = match self.resolve_all(d - 1, ctx, &t.args) {
            Some(names) => names,
            None => {
                return None;
            },
        };
        let classes: &'a Vec<ClassDecl> = self.classes;
        match find_template(classes, &t.name) {
            Some(c) => self.specialize(d - 1, c, &names),
            None => Some(t.name.clone()),
        }
    }

    fn resolve_all(&mut self, d: usize, ctx: &SubstCtx, v: &Vec<TypeRef>) -> (r: Option<Vec<String>>)
        ensures
            final(self).extends(old(self)),
            agrees(
                all_resolved(subst_of(d as nat, old(self).env(), ctx@),
                    old(self).built(),
                    type_refs_view(v@),
                ),
                final(self).built(),
                match r {
                    Some(n) => Some(name_views(n@)),
                    None => None,
                },
            ),
        decreases d, 1nat, 0nat, v,
    {
        proof {
            reveal(all_resolved);
        }
        let ghost all = type_refs_view(v@);
        let ghost env = self.env();
        let ghost start = self.built();
        let mut names: Vec<String> = Vec::new();
        let mut i: usize = 0;
        assert(all.take(0) =~= Seq::empty());
        assert(name_views(names@) =~= Seq::empty());
        while i < v.len()
            invariant
                i <= v@.len(),
                all == type_refs_view(v@),
                all.len() == v@.len(),
                self.env() == env,
                env == old(self).env(),
                start == old(self).built(),
                self.out@.len() >= old(self).out@.len(),
                agrees(
                    all_resolved(subst_of(d as nat, env, ctx@), start, all.take(i as int)),
                    self.built(),
                    Some(name_views(names@)),
                ),
            decreases v@.len() - i,
        {
            proof {
                reveal(all_resolved);
                lemma_subst_of(d as nat, env, ctx@, self.built(), v@[i as int]@);
            }
            let ghost next = all.take(i + 1);
            assert(next.drop_last() =~= all.take(i as int));
            assert(next.last() == v@[i as int]@);
            match self.resolve(d, ctx, &v[i]) {
                Some(n) => {
                    let ghost before = names@;
                    names.push(n);
                    assert(name_views(names@) =~= name_views(before).push(n@));
                },
                None => {
                    proof {
                        lemma_unresolved(subst_of(d as nat, env, ctx@), start, all, i + 1);
                    }
                    return None;
                },
            }
            i = i + 1;
        }
        assert(all.take(i as int) =~= all);
        Some(names)
    }

    /// Create (or find) the specialization of a template for arguments.
    fn specialize(&mut self, d: usize, t: &ClassDecl, args: &Vec<String>) -> (r: Option<String>)
        ensures
            final(self).extends(old(self)),
            agrees(
                specialized(
                    old(self).env(),
                    subst_of(
                        d as nat,
                        old(self).env(),
                        specialized_ctx(t@, name_views(args@)),
                    ),
                    old(self).built(),
                    t@,
                    name_views(args@),
                ),
                final(self).built(),
                opt_view(r),
            ),
        decreases d, 16nat, 0nat, t,
    {
        proof {
            reveal(specialized);
            reveal(specialized_ctx);
        }
        let origin: Origin = origin_of(t, args);
        let place: usize = self.out.len();
        let i: usize = find_origin(&self.out, &origin);
        if i < place {
            assert(self.built()[i as int] == self.out@[i as int]@);
            return Some(self.out[i].class.name.clone());
        }
        let name: String = choose_name(self.classes, &self.out, &origin);
        let ctx = SubstCtx {
            bindings: bind_params(&t.params, args, false),
            values: bind_params(&t.params, args, true),
            aliases: clone_list(&t.type_aliases),
        };
        let ghost before = self.out@;
        self.out.push(Entry { class: stub(name.clone()), origin: Some(origin_of(t, args)) });
        assert(views(self.out@) =~= views(before).push(
            EntryV { class: stub_class(name@), origin: Some(origin@) },
        ));
        match self.build_spec(d, &ctx, t, &name) {
            Some(c) => {
                let ghost next = self.out@;
                self.out.set(place, Entry { class: c, origin: Some(origin) });
                assert(views(self.out@) =~= views(next).update(
                    place as int,
                    EntryV { class: c@, origin: Some(origin@) },
                ));
                Some(name)
            },
            None => None,
        }
    }

    fn resolve_class_name(
        &mut self,
        d: usize,
        ctx: &SubstCtx,
        name: &Option<String>,
        args: &Vec<TypeRef>,
    ) -> (r: Option<Option<String>>)
        ensures
            final(self).extends(old(self)),
            agrees(
                class_name_resolved(subst_of(d as nat, old(self).env(), ctx@),
                    old(self).built(),
                    opt_view(*name),
                    type_refs_view(args@),
                ),
                final(self).built(),
                match r {
                    Some(n) => Some(opt_view(n)),
                    None => None,
                },
            ),
        decreases d, 2nat, 0nat, args,
    {
        proof {
            reveal(class_name_resolved);
        }
        match name {
            None => Some(None),
            Some(n) => {
                let t = TypeRef { name: n.clone(), args: clone_type_refs(args) };
                proof {
                    lemma_subst_of(d as nat, self.env(), ctx@, self.built(), t@);
                }
                match self.resolve(d, ctx, &t) {
                    Some(c) => Some(Some(c)),
                    None => None,
                }
            },
        }
    }

    fn subst_opt_expr(&mut self, d: usize, ctx: &SubstCtx, o: Option<&Expr>) -> (r: Option<
        Option<Expr>,
    >)
        ensures
            final(self).extends(old(self)),
            agrees(
                opt_expr_substituted(
                    subst_of(d as nat, old(self).env(), ctx@),
                    old(self).built(),
                    match o {
                        Some(e) => Some(e@),
                        None => None,
                    },
                ),
                final(self).built(),
                match r {
                    Some(x) => Some(opt_view(x)),
                    None => None,
                },
            ),
        decreases d, 6nat, 0nat, o,
    {
        proof {
            reveal(opt_expr_substituted);
        }
        match o {
            None => Some(None),
            Some(e) => match self.subst_expr(d, ctx, e) {
                Some(x) => Some(Some(x)),
                None => None,
            },
        }
    }

    /// Make the types that a declaration names concrete.
    fn resolve_types(
        &mut self,
        d: usize,
        ctx: &SubstCtx,
        class_name: &Option<String>,
        type_args: &Vec<TypeRef>,
        type_scope: &Option<String>,
        key_class_name: &Option<String>,
    ) -> (r: Option<(Option<String>, Vec<TypeRef>, Option<String>, Option<String>)>)
        ensures
            final(self).extends(old(self)),
            agrees(
                types_resolved(
                    subst_of(d as nat, old(self).env(), ctx@),
                    old(self).built(),
                    NamedTypes {
                        class_name: opt_view(*class_name),
                        type_args: type_refs_view(type_args@),
                        type_scope: opt_view(*type_scope),
                        key_class_name: opt_view(*key_class_name),
                    },
                ),
                final(self).built(),
                match r {
                    Some((c, a, s, k)) => Some(
                        NamedTypes {
                            class_name: opt_view(c),
                            type_args: type_refs_view(a@),
                            type_scope: opt_view(s),
                            key_class_name: opt_view(k),
                        },
                    ),
                    None => None,
                },
            ),
        decreases d, 3nat, 0nat, type_args,
    {
        proof {
            reveal(types_resolved);
        }
        let none: Vec<TypeRef> = Vec::new();
        assert(type_refs_view(none@) =~= Seq::empty());
        let class: Option<String> = match self.resolve_class_name(d, ctx, class_name, type_args) {
            Some(c) => c,
            None => {
                return None;
            },
        };
        let scope: Option<String> = match self.resolve_class_name(d, ctx, type_scope, &none) {
            Some(c) => c,
            None => {
                return None;
            },
        };
        let key: Option<String> = match self.resolve_class_name(d, ctx, key_class_name, &none) {
            Some(c) => c,
            None => {
                return None;
            },
        };
        if class.is_some() {
            Some((class, none, scope, key))
        } else {
            Some((class, clone_type_refs(type_args), scope, key))
        }
    }

    fn subst_var(&mut self, d: usize, ctx: &SubstCtx, v: &VarDecl) -> (r: Option<VarDecl>)
        ensures
            final(self).extends(old(self)),
            agrees(
                var_substituted(subst_of(d as nat, old(self).env(), ctx@), old(self).built(), v@),
                final(self).built(),
                opt_view(r),
            ),
        decreases d, 7nat, 0nat, v,
    {
        proof {
            reveal(var_substituted);
        }
        match self.resolve_types(
            d,
            ctx,
            &v.class_name,
            &v.type_args,
            &v.type_scope,
            &v.key_class_name,
        ) {
            None => None,
            Some((class_name, type_args, type_scope, key_class_name)) => {
                match self.subst_opt_expr(d, ctx, v.init.as_ref()) {
                    None => None,
                    Some(init) => {
                        let mut out: VarDecl = v.clone();
                        out.class_name = class_name;
                        out.type_args = type_args;
                        out.type_scope = type_scope;
                        out.key_class_name = key_class_name;
                        out.init = init;
                        Some(out)
                    },
                }
            },
        }
    }

    fn subst_target(&mut self, d: usize, ctx: &SubstCtx, l: &Lvalue) -> (r: Option<Lvalue>)
        ensures
            final(self).extends(old(self)),
            agrees(
                target_substituted(subst_of(d as nat, old(self).env(), ctx@), old(self).built(), l@),
                final(self).built(),
                opt_view(r),
            ),
        decreases d, 7nat, 0nat, l,
    {
        proof {
            reveal(target_substituted);
        }
        let none: Vec<TypeRef> = Vec::new();
        assert(type_refs_view(none@) =~= Seq::empty());
        let scope: Option<String> = match self.resolve_class_name(d, ctx, &l.scope, &none) {
            Some(c) => c,
            None => {
                return None;
            },
        };
        let given: Option<&Expr> = match &l.receiver {
            Some(e) => Some(&**e),
            None => None,
        };
        let receiver: Option<Box<Expr>> = match self.subst_opt_expr(d, ctx, given) {
            Some(Some(e)) => Some(Box::new(e)),
            Some(None) => None,
            None => {
                return None;
            },
        };
        match self.subst_opt_expr(d, ctx, l.index.as_ref()) {
            Some(index) => Some(Lvalue { name: l.name.clone(), receiver, index, scope }),
            None => None,
        }
    }

    fn subst_events(&mut self, d: usize, ctx: &SubstCtx, v: &Vec<EventExpr>) -> (r: Option<Vec<EventExpr>>)
        ensures
            final(self).extends(old(self)),
            agrees(
                events_substituted(subst_of(d as nat, old(self).env(), ctx@), old(self).built(), views(v@)),
                final(self).built(),
                match r {
                    Some(l) => Some(views(l@)),
                    None => None,
                },
            ),
        decreases d, 7nat, 0nat, v,
    {
        proof {
            reveal(events_substituted);
        }
        let ghost all = views(v@);
        let ghost env = self.env();
        let ghost start = self.built();
        let mut out: Vec<EventExpr> = Vec::new();
        let mut i: usize = 0;
        assert(all.take(0) =~= Seq::empty());
        assert(views(out@) =~= Seq::empty());
        while i < v.len()
            invariant
                i <= v@.len(),
                all == views(v@),
                self.env() == env,
                env == old(self).env(),
                start == old(self).built(),
                self.out@.len() >= old(self).out@.len(),
                agrees(
                    events_substituted(subst_of(d as nat, env, ctx@), start, all.take(i as int)),
                    self.built(),
                    Some(views(out@)),
                ),
            decreases v@.len() - i,
        {
            proof {
                reveal(events_substituted);
            }
            let ghost next = all.take(i + 1);
            assert(next.drop_last() =~= all.take(i as int));
            assert(next.last() == v@[i as int]@);
            match self.subst_expr(d, ctx, &v[i].expr) {
                Some(expr) => {
                    let ghost before = out@;
                    let x = EventExpr { edge: v[i].edge, expr };
                    out.push(x);
                    assert(views(out@) =~= views(before).push(x@));
                },
                None => {
                    proof {
                        lemma_unsubstituted_events(subst_of(d as nat, env, ctx@), start, all, i + 1);
                    }
                    return None;
                },
            }
            i = i + 1;
        }
        assert(all.take(i as int) =~= all);
        Some(out)
    }

    fn subst_control(&mut self, d: usize, ctx: &SubstCtx, c: &TimingControl) -> (r: Option<TimingControl>)
        ensures
            final(self).extends(old(self)),
            agrees(
                control_substituted(subst_of(d as nat, old(self).env(), ctx@), old(self).built(), c@),
                final(self).built(),
                opt_view(r),
            ),
        decreases d, 8nat, 0nat, c,
    {
        proof {
            reveal(control_substituted);
        }
        match c {
            TimingControl::Delay(e) => match self.subst_expr(d, ctx, e) {
                Some(x) => Some(TimingControl::Delay(x)),
                None => None,
            },
            TimingControl::Event(s) => match self.subst_events(d, ctx, s) {
                Some(x) => Some(TimingControl::Event(x)),
                None => None,
            },
            TimingControl::Wait(e) => match self.subst_expr(d, ctx, e) {
                Some(x) => Some(TimingControl::Wait(x)),
                None => None,
            },
        }
    }

    fn subst_vars(&mut self, d: usize, ctx: &SubstCtx, v: &Vec<VarDecl>) -> (r: Option<Vec<VarDecl>>)
        ensures
            final(self).extends(old(self)),
            agrees(
                vars_substituted(subst_of(d as nat, old(self).env(), ctx@), old(self).built(), views(v@)),
                final(self).built(),
                match r {
                    Some(l) => Some(views(l@)),
                    None => None,
                },
            ),
        decreases d, 8nat, 0nat, v,
    {
        proof {
            reveal(vars_substituted);
        }
        let ghost all = views(v@);
        let ghost env = self.env();
        let ghost start = self.built();
        let mut out: Vec<VarDecl> = Vec::new();
        let mut i: usize = 0;
        assert(all.take(0) =~= Seq::empty());
        assert(views(out@) =~= Seq::empty());
        while i < v.len()
            invariant
                i <= v@.len(),
                all == views(v@),
                self.env() == env,
                env == old(self).env(),
                start == old(self).built(),
                self.out@.len() >= old(self).out@.len(),
                agrees(
                    vars_substituted(subst_of(d as nat, env, ctx@), start, all.take(i as int)),
                    self.built(),
                    Some(views(out@)),
                ),
            decreases v@.len() - i,
        {
            proof {
                reveal(vars_substituted);
            }
            let ghost next = all.take(i + 1);
            assert(next.drop_last() =~= all.take(i as int));
            assert(next.last() == v@[i as int]@);
            match self.subst_var(d, ctx, &v[i]) {
                Some(x) => {
                    let ghost before = out@;
                    out.push(x);
                    assert(views(out@) =~= views(before).push(x@));
                },
                None => {
                    proof {
                        lemma_unsubstituted_vars(subst_of(d as nat, env, ctx@), start, all, i + 1);
                    }
                    return None;
                },
            }
            i = i + 1;
        }
        assert(all.take(i as int) =~= all);
        Some(out)
    }

    fn subst_exprs(&mut self, d: usize, ctx: &SubstCtx, v: &Vec<Expr>) -> (r: Option<Vec<Expr>>)
        ensures
            final(self).extends(old(self)),
            agrees(
                exprs_substituted(subst_of(d as nat, old(self).env(), ctx@), old(self).built(), exprs_view(v@)),
                final(self).built(),
                match r {
                    Some(l) => Some(exprs_view(l@)),
                    None => None,
                },
            ),
        decreases d, 5nat, 0nat, v,
    {
        proof {
            reveal(expr_substituted);
            reveal(exprs_substituted);
        }
        let ghost all = exprs_view(v@);
        let ghost env = self.env();
        let ghost start = self.built();
        let mut out: Vec<Expr> = Vec::new();
        let mut i: usize = 0;
        assert(all.take(0) =~= Seq::empty());
        assert(exprs_view(out@) =~= Seq::empty());
        while i < v.len()
            invariant
                i <= v@.len(),
                all == exprs_view(v@),
                all.len() == v@.len(),
                self.env() == env,
                env == old(self).env(),
                start == old(self).built(),
                self.out@.len() >= old(self).out@.len(),
                agrees(
                    exprs_substituted(subst_of(d as nat, env, ctx@), start, all.take(i as int)),
                    self.built(),
                    Some(exprs_view(out@)),
                ),
            decreases v@.len() - i,
        {
            assert(decreases_to!(v => v@[i as int]));
            proof {
                reveal(expr_substituted);
                reveal(exprs_substituted);
            }
            let ghost next = all.take(i + 1);
            assert(next.drop_last() =~= all.take(i as int));
            assert(next.last() == v@[i as int]@);
            match self.subst_expr(d, ctx, &v[i]) {
                Some(x) => {
                    let ghost before = out@;
                    out.push(x);
                    assert(exprs_view(out@) =~= exprs_view(before).push(x@));
                },
                None => {
                    proof {
                        lemma_unsubstituted_exprs(subst_of(d as nat, env, ctx@), start, all, i + 1);
                    }
                    return None;
                },
            }
            i = i + 1;
        }
        assert(all.take(i as int) =~= all);
        Some(out)
    }

    fn subst_stmts(&mut self, d: usize, ctx: &SubstCtx, v: &Vec<Stmt>) -> (r: Option<Vec<Stmt>>)
        ensures
            final(self).extends(old(self)),
            agrees(
                stmts_substituted(subst_of(d as nat, old(self).env(), ctx@), old(self).built(), stmts_view(v@)),
                final(self).built(),
                match r {
                    Some(l) => Some(stmts_view(l@)),
                    None => None,
                },
            ),
        decreases d, 9nat, 0nat, v,
    {
        proof {
            reveal(stmt_substituted);
            reveal(stmts_substituted);
            reveal(arms_substituted);
        }
        let ghost all = stmts_view(v@);
        let ghost env = self.env();
        let ghost start = self.built();
        let mut out: Vec<Stmt> = Vec::new();
        let mut i: usize = 0;
        assert(all.take(0) =~= Seq::empty());
        assert(stmts_view(out@) =~= Seq::empty());
        while i < v.len()
            invariant
                i <= v@.len(),
                all == stmts_view(v@),
                all.len() == v@.len(),
                self.env() == env,
                env == old(self).env(),
                start == old(self).built(),
                self.out@.len() >= old(self).out@.len(),
                agrees(
                    stmts_substituted(subst_of(d as nat, env, ctx@), start, all.take(i as int)),
                    self.built(),
                    Some(stmts_view(out@)),
                ),
            decreases v@.len() - i,
        {
            assert(decreases_to!(v => v@[i as int]));
            proof {
                reveal(stmt_substituted);
                reveal(stmts_substituted);
                reveal(arms_substituted);
            }
            let ghost next = all.take(i + 1);
            assert(next.drop_last() =~= all.take(i as int));
            assert(next.last() == v@[i as int]@);
            match self.subst_stmt(d, ctx, &v[i]) {
                Some(x) => {
                    let ghost before = out@;
                    out.push(x);
                    assert(stmts_view(out@) =~= stmts_view(before).push(x@));
                },
                None => {
                    proof {
                        lemma_unsubstituted_stmts(subst_of(d as nat, env, ctx@), start, all, i + 1);
                    }
                    return None;
                },
            }
            i = i + 1;
        }
        assert(all.take(i as int) =~= all);
        Some(out)
    }

    fn subst_funcs(&mut self, d: usize, ctx: &SubstCtx, v: &Vec<FuncDecl>) -> (r: Option<Vec<FuncDecl>>)
        ensures
            final(self).extends(old(self)),
            agrees(
                funcs_substituted(subst_of(d as nat, old(self).env(), ctx@), old(self).built(), views(v@)),
                final(self).built(),
                match r {
                    Some(l) => Some(views(l@)),
                    None => None,
                },
            ),
        decreases d, 12nat, 0nat, v,
    {
        proof {
            reveal(funcs_substituted);
        }
        let ghost all = views(v@);
        let ghost env = self.env();
        let ghost start = self.built();
        let mut out: Vec<FuncDecl> = Vec::new();
        let mut i: usize = 0;
        assert(all.take(0) =~= Seq::empty());
        assert(views(out@) =~= Seq::empty());
        while i < v.len()
            invariant
                i <= v@.len(),
                all == views(v@),
                all.len() == v@.len(),
                self.env() == env,
                env == old(self).env(),
                start == old(self).built(),
                self.out@.len() >= old(self).out@.len(),
                agrees(
                    funcs_substituted(subst_of(d as nat, env, ctx@), start, all.take(i as int)),
                    self.built(),
                    Some(views(out@)),
                ),
            decreases v@.len() - i,
        {
            proof {
                reveal(funcs_substituted);
            }
            let ghost next = all.take(i + 1);
            assert(next.drop_last() =~= all.take(i as int));
            assert(next.last() == v@[i as int]@);
            match self.subst_func(d, ctx, &v[i]) {
                Some(x) => {
                    let ghost before = out@;
                    out.push(x);
                    assert(views(out@) =~= views(before).push(x@));
                },
                None => {
                    proof {
                        lemma_unsubstituted_funcs(subst_of(d as nat, env, ctx@), start, all, i + 1);
                    }
                    return None;
                },
            }
            i = i + 1;
        }
        assert(all.take(i as int) =~= all);
        Some(out)
    }

    fn subst_arms(&mut self, d: usize, ctx: &SubstCtx, v: &Vec<(Vec<Expr>, Stmt)>) -> (r: Option<
        Vec<(Vec<Expr>, Stmt)>,
    >)
        ensures
            final(self).extends(old(self)),
            agrees(
                arms_substituted(subst_of(d as nat, old(self).env(), ctx@), old(self).built(), arms_view(v@)),
                final(self).built(),
                match r {
                    Some(l) => Some(arms_view(l@)),
                    None => None,
                },
            ),
        decreases d, 9nat, 0nat, v,
    {
        proof {
            reveal(stmt_substituted);
            reveal(stmts_substituted);
            reveal(arms_substituted);
        }
        let ghost all = arms_view(v@);
        let ghost env = self.env();
        let ghost start = self.built();
        let mut out: Vec<(Vec<Expr>, Stmt)> = Vec::new();
        let mut i: usize = 0;
        assert(all.take(0) =~= Seq::empty());
        assert(arms_view(out@) =~= Seq::empty());
        while i < v.len()
            invariant
                i <= v@.len(),
                all == arms_view(v@),
                all.len() == v@.len(),
                self.env() == env,
                env == old(self).env(),
                start == old(self).built(),
                self.out@.len() >= old(self).out@.len(),
                agrees(
                    arms_substituted(subst_of(d as nat, env, ctx@), start, all.take(i as int)),
                    self.built(),
                    Some(arms_view(out@)),
                ),
            decreases v@.len() - i,
        {
            assert(decreases_to!(v => v@[i as int]));
            assert(decreases_to!(v@[i as int] => v@[i as int].1));
            proof {
                reveal(stmt_substituted);
                reveal(stmts_substituted);
                reveal(arms_substituted);
            }
            let ghost next = all.take(i + 1);
            assert(next.drop_last() =~= all.take(i as int));
            assert(next.last() == (exprs_view(v@[i as int].0@), v@[i as int].1@));
            let values: Option<Vec<Expr>> = self.subst_exprs(d, ctx, &v[i].0);
            let body: Option<Stmt> = match &values {
                Some(_) => self.subst_stmt(d, ctx, &v[i].1),
                None => None,
            };
            match (values, body) {
                (Some(x), Some(b)) => {
                    let ghost before = out@;
                    out.push((x, b));
                    assert(arms_view(out@) =~= arms_view(before).push((exprs_view(x@), b@)));
                },
                _ => {
                    proof {
                        lemma_unsubstituted_arms(subst_of(d as nat, env, ctx@), start, all, i + 1);
                    }
                    return None;
                },
            }
            i = i + 1;
        }
        assert(all.take(i as int) =~= all);
        Some(out)
    }

    fn subst_formal(&mut self, d: usize, ctx: &SubstCtx, p: &Param) -> (r: Option<Param>)
        ensures
            final(self).extends(old(self)),
            agrees(
                formal_substituted(subst_of(d as nat, old(self).env(), ctx@), old(self).built(), p@),
                final(self).built(),
                opt_view(r),
            ),
        decreases d, 7nat, 0nat, p,
    {
        proof {
            reveal(formal_substituted);
        }
        match self.resolve_types(
            d,
            ctx,
            &p.class_name,
            &p.type_args,
            &p.type_scope,
            &p.key_class_name,
        ) {
            None => None,
            Some((class_name, type_args, type_scope, key_class_name)) => {
                match self.subst_opt_expr(d, ctx, p.default.as_ref()) {
                    None => None,
                    Some(default) => {
                        let mut out: Param = p.clone();
                        out.class_name = class_name;
                        out.type_args = type_args;
                        out.type_scope = type_scope;
                        out.key_class_name = key_class_name;
                        out.default = default;
                        Some(out)
                    },
                }
            },
        }
    }

    fn resolve_alias(&mut self, d: usize, ctx: &SubstCtx, a: &TypeAlias) -> (r: Option<TypeAlias>)
        ensures
            final(self).extends(old(self)),
            match resolved(d as nat, old(self).env(), ctx@, old(self).built(), a@.target) {
                None => r is None,
                Some((next, name)) => opt_view(r) == Some(
                    TypeAliasV { alias: a@.alias, target: TypeRefV { name, args: Seq::empty() } },
                ) && final(self).built() == next,
            },
        decreases d, 3nat, 0nat, a,
    {
        match self.resolve(d, ctx, &a.target) {
            None => None,
            Some(name) => Some(
                TypeAlias { alias: a.alias.clone(), target: TypeRef::simple(name) },
            ),
        }
    }

    fn subst_formals(&mut self, d: usize, ctx: &SubstCtx, v: &Vec<Param>) -> (r: Option<Vec<Param>>)
        ensures
            final(self).extends(old(self)),
            agrees(
                formals_substituted(subst_of(d as nat, old(self).env(), ctx@), old(self).built(), views(v@)),
                final(self).built(),
                match r {
                    Some(l) => Some(views(l@)),
                    None => None,
                },
            ),
        decreases d, 10nat, 0nat, v,
    {
        proof {
            reveal(formals_substituted);
        }
        let ghost all = views(v@);
        let ghost env = self.env();
        let ghost start = self.built();
        let mut out: Vec<Param> = Vec::new();
        let mut i: usize = 0;
        assert(all.take(0) =~= Seq::empty());
        assert(views(out@) =~= Seq::empty());
        while i < v.len()
            invariant
                i <= v@.len(),
                all == views(v@),
                all.len() == v@.len(),
                self.env() == env,
                env == old(self).env(),
                start == old(self).built(),
                self.out@.len() >= old(self).out@.len(),
                agrees(
                    formals_substituted(subst_of(d as nat, env, ctx@), start, all.take(i as int)),
                    self.built(),
                    Some(views(out@)),
                ),
            decreases v@.len() - i,
        {
            proof {
                reveal(formals_substituted);
            }
            let ghost next = all.take(i + 1);
            assert(next.drop_last() =~= all.take(i as int));
            assert(next.last() == v@[i as int]@);
            match self.subst_formal(d, ctx, &v[i]) {
                Some(x) => {
                    let ghost before = out@;
                    out.push(x);
                    assert(views(out@) =~= views(before).push(x@));
                },
                None => {
                    proof {
                        lemma_unsubstituted_formals(subst_of(d as nat, env, ctx@), start, all, i + 1);
                    }
                    return None;
                },
            }
            i = i + 1;
        }
        assert(all.take(i as int) =~= all);
        Some(out)
    }

    fn resolve_aliases(&mut self, d: usize, ctx: &SubstCtx, v: &Vec<TypeAlias>) -> (r: Option<Vec<TypeAlias>>)
        ensures
            final(self).extends(old(self)),
            agrees(
                aliases_resolved(subst_of(d as nat, old(self).env(), ctx@), old(self).built(), views(v@)),
                final(self).built(),
                match r {
                    Some(l) => Some(views(l@)),
                    None => None,
                },
            ),
        decreases d, 13nat, 0nat, v,
    {
        proof {
            reveal(aliases_resolved);
        }
        let ghost all = views(v@);
        let ghost env = self.env();
        let ghost start = self.built();
        let mut out: Vec<TypeAlias> = Vec::new();
        let mut i: usize = 0;
        assert(all.take(0) =~= Seq::empty());
        assert(views(out@) =~= Seq::empty());
        while i < v.len()
            invariant
                i <= v@.len(),
                all == views(v@),
                all.len() == v@.len(),
                self.env() == env,
                env == old(self).env(),
                start == old(self).built(),
                self.out@.len() >= old(self).out@.len(),
                agrees(
                    aliases_resolved(subst_of(d as nat, env, ctx@), start, all.take(i as int)),
                    self.built(),
                    Some(views(out@)),
                ),
            decreases v@.len() - i,
        {
            proof {
                reveal(aliases_resolved);
                lemma_subst_of(d as nat, env, ctx@, self.built(), v@[i as int]@.target);
            }
            let ghost next = all.take(i + 1);
            assert(next.drop_last() =~= all.take(i as int));
            assert(next.last() == v@[i as int]@);
            match self.resolve_alias(d, ctx, &v[i]) {
                Some(x) => {
                    let ghost before = out@;
                    out.push(x);
                    assert(views(out@) =~= views(before).push(x@));
                },
                None => {
                    proof {
                        lemma_unresolved_aliases(subst_of(d as nat, env, ctx@), start, all, i + 1);
                    }
                    return None;
                },
            }
            i = i + 1;
        }
        assert(all.take(i as int) =~= all);
        Some(out)
    }

    fn resolve_opt_type(&mut self, d: usize, ctx: &SubstCtx, o: &Option<TypeRef>) -> (r: Option<
        Option<TypeRef>,
    >)
        ensures
            final(self).extends(old(self)),
            agrees(
                opt_type_resolved(
                    subst_of(d as nat, old(self).env(), ctx@),
                    old(self).built(),
                    opt_view(*o),
                ),
                final(self).built(),
                match r {
                    Some(t) => Some(opt_view(t)),
                    None => None,
                },
            ),
        decreases d, 3nat, 0nat, o,
    {
        proof {
            reveal(opt_type_resolved);
        }
        match o {
            None => Some(None),
            Some(t) => {
                proof {
                    lemma_subst_of(d as nat, self.env(), ctx@, self.built(), t@);
                }
                match self.resolve(d, ctx, t) {
                    Some(name) => Some(Some(TypeRef::simple(name))),
                    None => None,
                }
            },
        }
    }

    fn resolve_collections(&mut self, d: usize, ctx: &SubstCtx, v: &Vec<CollectionAlias>) -> (r: Option<
        Vec<CollectionAlias>,
    >)
        ensures
            final(self).extends(old(self)),
            agrees(
                collections_resolved(subst_of(d as nat, old(self).env(), ctx@), old(self).built(), views(v@)),
                final(self).built(),
                match r {
                    Some(l) => Some(views(l@)),
                    None => None,
                },
            ),
        decreases d, 10nat, 0nat, v,
    {
        proof {
            reveal(collections_resolved);
        }
        let ghost all = views(v@);
        let ghost env = self.env();
        let ghost start = self.built();
        let mut out: Vec<CollectionAlias> = Vec::new();
        let mut i: usize = 0;
        assert(all.take(0) =~= Seq::empty());
        assert(views(out@) =~= Seq::empty());
        while i < v.len()
            invariant
                i <= v@.len(),
                all == views(v@),
                all.len() == v@.len(),
                self.env() == env,
                env == old(self).env(),
                start == old(self).built(),
                self.out@.len() >= old(self).out@.len(),
                agrees(
                    collections_resolved(subst_of(d as nat, env, ctx@), start, all.take(i as int)),
                    self.built(),
                    Some(views(out@)),
                ),
            decreases v@.len() - i,
        {
            proof {
                reveal(collections_resolved);
            }
            let ghost next = all.take(i + 1);
            assert(next.drop_last() =~= all.take(i as int));
            assert(next.last() == v@[i as int]@);
            let element: Option<Option<TypeRef>> = self.resolve_opt_type(d, ctx, &v[i].element);
            let key: Option<Option<TypeRef>> = match &element {
                Some(_) => self.resolve_opt_type(d, ctx, &v[i].key),
                None => None,
            };
            match (element, key) {
                (Some(element), Some(key)) => {
                    let ghost before = out@;
                    let x = CollectionAlias {
                        alias: v[i].alias.clone(),
                        kind: v[i].kind,
                        element,
                        key,
                    };
                    out.push(x);
                    assert(views(out@) =~= views(before).push(x@));
                },
                _ => {
                    proof {
                        lemma_unresolved_collections(
                            subst_of(d as nat, env, ctx@),
                            start,
                            all,
                            i + 1,
                        );
                    }
                    return None;
                },
            }
            i = i + 1;
        }
        assert(all.take(i as int) =~= all);
        Some(out)
    }

    fn subst_expr(&mut self, d: usize, ctx: &SubstCtx, e: &Expr) -> (r: Option<Expr>)
        ensures
            final(self).extends(old(self)),
            agrees(
                expr_substituted(subst_of(d as nat, old(self).env(), ctx@), old(self).built(), e@),
                final(self).built(),
                opt_view(r),
            ),
        decreases d, 5nat, 0nat, e,
    {
        proof {
            reveal(expr_substituted);
            reveal(exprs_substituted);
        }
        match e {
            Expr::Ref(name) => {
                proof {
                    lemma_subst_of(d as nat, self.env(), ctx@, self.built(), arbitrary());
                }
                match find_bound(&ctx.values, name) {
                    Some(v) => Some(value_to_expr(v)),
                    None => Some(Expr::Ref(name.clone())),
                }
            },
            Expr::StaticCall { class_name, class_args, method, args } => {
                let t = TypeRef { name: class_name.clone(), args: clone_type_refs(class_args) };
                proof {
                    lemma_subst_of(d as nat, self.env(), ctx@, self.built(), t@);
                }
                let c: String = match self.resolve(d, ctx, &t) {
                    Some(c) => c,
                    None => {
                        return None;
                    },
                };
                match self.subst_exprs(d, ctx, args) {
                    Some(a) => {
                        let none: Vec<TypeRef> = Vec::new();
                        assert(type_refs_view(none@) =~= Seq::empty());
                        Some(
                            Expr::StaticCall {
                                class_name: c,
                                class_args: none,
                                method: method.clone(),
                                args: a,
                            },
                        )
                    },
                    None => None,
                }
            },
            Expr::StaticRef { class_name, field } => {
                let t = TypeRef::simple(class_name.clone());
                proof {
                    lemma_subst_of(d as nat, self.env(), ctx@, self.built(), t@);
                }
                match self.resolve(d, ctx, &t) {
                    Some(c) => Some(Expr::StaticRef { class_name: c, field: field.clone() }),
                    None => None,
                }
            },
            Expr::Unary { op, operand } => match self.subst_expr(d, ctx, operand) {
                Some(a) => Some(Expr::Unary { op: *op, operand: Box::new(a) }),
                None => None,
            },
            Expr::Binary { op, lhs, rhs } => {
                let a: Expr = match self.subst_expr(d, ctx, lhs) {
                    Some(a) => a,
                    None => {
                        return None;
                    },
                };
                match self.subst_expr(d, ctx, rhs) {
                    Some(b) => Some(Expr::Binary { op: *op, lhs: Box::new(a), rhs: Box::new(b) }),
                    None => None,
                }
            },
            Expr::Call { name, args } => match self.subst_exprs(d, ctx, args) {
                Some(a) => Some(Expr::Call { name: name.clone(), args: a }),
                None => None,
            },
            Expr::Field { obj, field } => match self.subst_expr(d, ctx, obj) {
                Some(a) => Some(Expr::Field { obj: Box::new(a), field: field.clone() }),
                None => None,
            },
            Expr::MethodCall { obj, method, args } => {
                let o: Expr = match self.subst_expr(d, ctx, obj) {
                    Some(o) => o,
                    None => {
                        return None;
                    },
                };
                match self.subst_exprs(d, ctx, args) {
                    Some(a) => Some(
                        Expr::MethodCall { obj: Box::new(o), method: method.clone(), args: a },
                    ),
                    None => None,
                }
            },
            Expr::Index { base, index } => {
                let a: Expr = match self.subst_expr(d, ctx, base) {
                    Some(a) => a,
                    None => {
                        return None;
                    },
                };
                match self.subst_expr(d, ctx, index) {
                    Some(b) => Some(Expr::Index { base: Box::new(a), index: Box::new(b) }),
                    None => None,
                }
            },
            Expr::PartSelect { base, left, right } => {
                let a: Expr = match self.subst_expr(d, ctx, base) {
                    Some(a) => a,
                    None => {
                        return None;
                    },
                };
                let b: Expr = match self.subst_expr(d, ctx, left) {
                    Some(b) => b,
                    None => {
                        return None;
                    },
                };
                match self.subst_expr(d, ctx, right) {
                    Some(c) => Some(
                        Expr::PartSelect {
                            base: Box::new(a),
                            left: Box::new(b),
                            right: Box::new(c),
                        },
                    ),
                    None => None,
                }
            },
            Expr::New { args } => match self.subst_exprs(d, ctx, args) {
                Some(a) => Some(Expr::New { args: a }),
                None => None,
            },
            Expr::Concat(parts) => match self.subst_exprs(d, ctx, parts) {
                Some(a) => Some(Expr::Concat(a)),
                None => None,
            },
            Expr::SysCall { name, args } => match self.subst_exprs(d, ctx, args) {
                Some(a) => Some(Expr::SysCall { name: name.clone(), args: a }),
                None => None,
            },
            Expr::Literal(_) | Expr::Str(_) | Expr::Null => Some(clone_expr(e)),
        }
    }

    fn subst_optional(&mut self, d: usize, ctx: &SubstCtx, s: &Option<Box<Stmt>>) -> (r: Option<
        Option<Box<Stmt>>,
    >)
        ensures
            final(self).extends(old(self)),
            match *s {
                None => r == Some(None::<Box<Stmt>>) && final(self).built() == old(self).built(),
                Some(b) => match stmt_substituted(subst_of(d as nat, old(self).env(), ctx@),
                    old(self).built(),
                    (*b)@,
                ) {
                    None => r is None,
                    Some((next, t)) => final(self).built() == next && (r matches Some(Some(x))
                        && (*x)@ == t),
                },
            },
        decreases d, 9nat, 0nat, s,
    {
        proof {
            reveal(stmt_substituted);
            reveal(stmts_substituted);
            reveal(arms_substituted);
        }
        match s {
            None => Some(None),
            Some(b) => match self.subst_stmt(d, ctx, b) {
                Some(t) => Some(Some(Box::new(t))),
                None => None,
            },
        }
    }

    fn subst_stmt(&mut self, d: usize, ctx: &SubstCtx, s: &Stmt) -> (r: Option<Stmt>)
        ensures
            final(self).extends(old(self)),
            agrees(
                stmt_substituted(subst_of(d as nat, old(self).env(), ctx@), old(self).built(), s@),
                final(self).built(),
                opt_view(r),
            ),
        decreases d, 9nat, 0nat, s,
    {
        proof {
            reveal(stmt_substituted);
            reveal(stmts_substituted);
            reveal(arms_substituted);
        }
        match s {
            Stmt::Block(list) => match self.subst_stmts(d, ctx, list) {
                Some(l) => Some(Stmt::Block(l)),
                None => None,
            },
            Stmt::VarDecl(v) => match self.subst_var(d, ctx, v) {
                Some(v) => Some(Stmt::VarDecl(v)),
                None => None,
            },
            Stmt::Timed { control, body } => {
                let c: TimingControl = match self.subst_control(d, ctx, control) {
                    Some(c) => c,
                    None => {
                        return None;
                    },
                };
                match self.subst_stmt(d, ctx, body) {
                    Some(b) => Some(Stmt::Timed { control: c, body: Box::new(b) }),
                    None => None,
                }
            },
            Stmt::Blocking { lhs, rhs } => {
                let l: Lvalue = match self.subst_target(d, ctx, lhs) {
                    Some(l) => l,
                    None => {
                        return None;
                    },
                };
                match self.subst_expr(d, ctx, rhs) {
                    Some(e) => Some(Stmt::Blocking { lhs: l, rhs: e }),
                    None => None,
                }
            },
            Stmt::Nonblocking { lhs, rhs } => {
                let l: Lvalue = match self.subst_target(d, ctx, lhs) {
                    Some(l) => l,
                    None => {
                        return None;
                    },
                };
                match self.subst_expr(d, ctx, rhs) {
                    Some(e) => Some(Stmt::Nonblocking { lhs: l, rhs: e }),
                    None => None,
                }
            },
            Stmt::If { cond, then_branch, else_branch } => {
                let c: Expr = match self.subst_expr(d, ctx, cond) {
                    Some(c) => c,
                    None => {
                        return None;
                    },
                };
                let t: Stmt = match self.subst_stmt(d, ctx, then_branch) {
                    Some(t) => t,
                    None => {
                        return None;
                    },
                };
                match self.subst_optional(d, ctx, else_branch) {
                    Some(f) => Some(
                        Stmt::If { cond: c, then_branch: Box::new(t), else_branch: f },
                    ),
                    None => None,
                }
            },
            Stmt::While { cond, body } => {
                let c: Expr = match self.subst_expr(d, ctx, cond) {
                    Some(c) => c,
                    None => {
                        return None;
                    },
                };
                match self.subst_stmt(d, ctx, body) {
                    Some(b) => Some(Stmt::While { cond: c, body: Box::new(b) }),
                    None => None,
                }
            },
            Stmt::DoWhile { cond, body } => {
                let c: Expr = match self.subst_expr(d, ctx, cond) {
                    Some(c) => c,
                    None => {
                        return None;
                    },
                };
                match self.subst_stmt(d, ctx, body) {
                    Some(b) => Some(Stmt::DoWhile { cond: c, body: Box::new(b) }),
                    None => None,
                }
            },
            Stmt::Case { expr, items, default } => {
                let e: Expr = match self.subst_expr(d, ctx, expr) {
                    Some(e) => e,
                    None => {
                        return None;
                    },
                };
                let a: Vec<(Vec<Expr>, Stmt)> = match self.subst_arms(d, ctx, items) {
                    Some(a) => a,
                    None => {
                        return None;
                    },
                };
                match self.subst_optional(d, ctx, default) {
                    Some(f) => Some(Stmt::Case { expr: e, items: a, default: f }),
                    None => None,
                }
            },
            Stmt::Foreach { collection, index, body } => {
                let c: Expr = match self.subst_expr(d, ctx, collection) {
                    Some(c) => c,
                    None => {
                        return None;
                    },
                };
                match self.subst_stmt(d, ctx, body) {
                    Some(b) => Some(
                        Stmt::Foreach { collection: c, index: index.clone(), body: Box::new(b) },
                    ),
                    None => None,
                }
            },
            Stmt::SysCall { name, args } => match self.subst_exprs(d, ctx, args) {
                Some(a) => Some(Stmt::SysCall { name: name.clone(), args: a }),
                None => None,
            },
            Stmt::Expr(e) => match self.subst_expr(d, ctx, e) {
                Some(e) => Some(Stmt::Expr(e)),
                None => None,
            },
            Stmt::Trigger(e) => match self.subst_expr(d, ctx, e) {
                Some(e) => Some(Stmt::Trigger(e)),
                None => None,
            },
            Stmt::Return(Some(e)) => match self.subst_expr(d, ctx, e) {
                Some(e) => Some(Stmt::Return(Some(e))),
                None => None,
            },
            Stmt::Fork { branches, join } => match self.subst_stmts(d, ctx, branches) {
                Some(l) => Some(Stmt::Fork { branches: l, join: *join }),
                None => None,
            },
            Stmt::Return(None) | Stmt::Break | Stmt::Continue | Stmt::Null => Some(clone_stmt(s)),
        }
    }

    fn subst_func(&mut self, d: usize, ctx: &SubstCtx, f: &FuncDecl) -> (r: Option<FuncDecl>)
        ensures
            final(self).extends(old(self)),
            agrees(
                func_substituted(subst_of(d as nat, old(self).env(), ctx@), old(self).built(), f@),
                final(self).built(),
                opt_view(r),
            ),
        decreases d, 11nat, 0nat, f,
    {
        proof {
            reveal(func_substituted);
        }
        let none: Vec<TypeRef> = Vec::new();
        assert(type_refs_view(none@) =~= Seq::empty());
        let ret: Option<String> = match self.resolve_class_name(d, ctx, &f.ret_class, &none) {
            Some(c) => c,
            None => {
                return None;
            },
        };
        let params: Vec<Param> = match self.subst_formals(d, ctx, &f.params) {
            Some(p) => p,
            None => {
                return None;
            },
        };
        match self.subst_stmt(d, ctx, &f.body) {
            Some(body) => {
                let mut out: FuncDecl = f.clone();
                out.ret_class = ret;
                out.params = params;
                out.body = body;
                assert(out@ == (FuncDeclV {
                    ret_class: opt_view(ret),
                    params: views(params@),
                    body: body@,
                    ..f@
                }));
                Some(out)
            },
            None => None,
        }
    }

    /// Copy the members of a class under a name, with their types made concrete.
    fn build_members(&mut self, d: usize, ctx: &SubstCtx, t: &ClassDecl, name: &String) -> (r: Option<
        ClassDecl,
    >)
        ensures
            final(self).extends(old(self)),
            agrees(
                members_built(subst_of(d as nat, old(self).env(), ctx@), old(self).built(), t@, name@),
                final(self).built(),
                opt_view(r),
            ),
        decreases d, 14nat, 0nat, t,
    {
        proof {
            reveal(members_built);
        }
        let base: Option<String> = match self.resolve_class_name(d, ctx, &t.base, &t.base_args) {
            Some(b) => b,
            None => {
                return None;
            },
        };
        let fields: Vec<VarDecl> = match self.subst_vars(d, ctx, &t.fields) {
            Some(f) => f,
            None => {
                return None;
            },
        };
        let type_aliases: Vec<TypeAlias> = match self.resolve_aliases(d, ctx, &t.type_aliases) {
            Some(a) => a,
            None => {
                return None;
            },
        };
        match self.resolve_collections(d, ctx, &t.collection_aliases) {
            Some(collection_aliases) => {
                let mut out: ClassDecl = t.clone();
                out.name = name.clone();
                out.base = base;
                out.fields = fields;
                out.type_aliases = type_aliases;
                out.collection_aliases = collection_aliases;
                out.params = Vec::new();
                out.base_args = Vec::new();
                assert(out@.params =~= Seq::empty());
                assert(out@.base_args =~= Seq::empty());
                Some(out)
            },
            None => None,
        }
    }

    /// Copy a class under a name, with its types made concrete.
    fn build_spec(&mut self, d: usize, ctx: &SubstCtx, t: &ClassDecl, name: &String) -> (r: Option<
        ClassDecl,
    >)
        ensures
            final(self).extends(old(self)),
            agrees(
                class_built(subst_of(d as nat, old(self).env(), ctx@), old(self).built(), t@, name@),
                final(self).built(),
                opt_view(r),
            ),
        decreases d, 15nat, 0nat, t,
    {
        proof {
            reveal(class_built);
            reveal(members_built);
        }
        let mut out: ClassDecl = match self.build_members(d, ctx, t, name) {
            Some(c) => c,
            None => {
                return None;
            },
        };
        match self.subst_funcs(d, ctx, &t.methods) {
            Some(m) => {
                out.methods = m;
            },
            None => {
                return None;
            },
        }
        match &t.constructor {
            None => {},
            Some(c) => match self.subst_func(d, ctx, c) {
                Some(f) => {
                    out.constructor = Some(f);
                },
                None => {
                    return None;
                },
            },
        }
        Some(out)
    }

    /// Put a class in the place of the one with its name, or at the end.
    fn record(&mut self, c: ClassDecl)
        ensures
            final(self).env() == old(self).env(),
            final(self).built() == recorded(old(self).built(), c@),
    {
        proof {
            reveal(recorded);
        }
        let ghost before = self.out@;
        let i: usize = find_class(&self.out, &c.name);
        let e = Entry { class: c, origin: None };
        if i < self.out.len() {
            self.out.set(i, e);
            assert(views(self.out@) =~= views(before).update(i as int, e@));
        } else {
            self.out.push(e);
            assert(views(self.out@) =~= views(before).push(e@));
        }
    }
}

proof fn lemma_unsubstituted_exprs(
    sub: Subst,
    out: Seq<EntryV>,
    s: Seq<ExprV>,
    k: int,
)
    requires
        0 <= k <= s.len(),
        exprs_substituted(sub, out, s.take(k)) is None,
    ensures
        exprs_substituted(sub, out, s) is None,
    decreases s.len(),
{
    reveal(exprs_substituted);
    if k == s.len() {
        assert(s.take(k) =~= s);
    } else {
        assert(s.drop_last().take(k) =~= s.take(k));
        lemma_unsubstituted_exprs(sub, out, s.drop_last(), k);
    }
}

proof fn lemma_unsubstituted_stmts(
    sub: Subst,
    out: Seq<EntryV>,
    s: Seq<StmtV>,
    k: int,
)
    requires
        0 <= k <= s.len(),
        stmts_substituted(sub, out, s.take(k)) is None,
    ensures
        stmts_substituted(sub, out, s) is None,
    decreases s.len(),
{
    reveal(stmts_substituted);
    if k == s.len() {
        assert(s.take(k) =~= s);
    } else {
        assert(s.drop_last().take(k) =~= s.take(k));
        lemma_unsubstituted_stmts(sub, out, s.drop_last(), k);
    }
}

proof fn lemma_unsubstituted_arms(
    sub: Subst,
    out: Seq<EntryV>,
    s: Seq<(Seq<ExprV>, StmtV)>,
    k: int,
)
    requires
        0 <= k <= s.len(),
        arms_substituted(sub, out, s.take(k)) is None,
    ensures
        arms_substituted(sub, out, s) is None,
    decreases s.len(),
{
    reveal(arms_substituted);
    if k == s.len() {
        assert(s.take(k) =~= s);
    } else {
        assert(s.drop_last().take(k) =~= s.take(k));
        lemma_unsubstituted_arms(sub, out, s.drop_last(), k);
    }
}

proof fn lemma_unsubstituted_funcs(
    sub: Subst,
    out: Seq<EntryV>,
    s: Seq<FuncDeclV>,
    k: int,
)
    requires
        0 <= k <= s.len(),
        funcs_substituted(sub, out, s.take(k)) is None,
    ensures
        funcs_substituted(sub, out, s) is None,
    decreases s.len(),
{
    reveal(funcs_substituted);
    if k == s.len() {
        assert(s.take(k) =~= s);
    } else {
        assert(s.drop_last().take(k) =~= s.take(k));
        lemma_unsubstituted_funcs(sub, out, s.drop_last(), k);
    }
}

proof fn lemma_unsubstituted_formals(
    sub: Subst,
    out: Seq<EntryV>,
    s: Seq<ParamV>,
    k: int,
)
    requires
        0 <= k <= s.len(),
        formals_substituted(sub, out, s.take(k)) is None,
    ensures
        formals_substituted(sub, out, s) is None,
    decreases s.len(),
{
    reveal(formals_substituted);
    if k == s.len() {
        assert(s.take(k) =~= s);
    } else {
        assert(s.drop_last().take(k) =~= s.take(k));
        lemma_unsubstituted_formals(sub, out, s.drop_last(), k);
    }
}

proof fn lemma_unsubstituted_events(
    sub: Subst,
    out: Seq<EntryV>,
    s: Seq<EventExprV>,
    k: int,
)
    requires
        0 <= k <= s.len(),
        events_substituted(sub, out, s.take(k)) is None,
    ensures
        events_substituted(sub, out, s) is None,
    decreases s.len(),
{
    reveal(events_substituted);
    if k == s.len() {
        assert(s.take(k) =~= s);
    } else {
        assert(s.drop_last().take(k) =~= s.take(k));
        lemma_unsubstituted_events(sub, out, s.drop_last(), k);
    }
}

proof fn lemma_unresolved_collections(
    sub: Subst,
    out: Seq<EntryV>,
    s: Seq<CollectionAliasV>,
    k: int,
)
    requires
        0 <= k <= s.len(),
        collections_resolved(sub, out, s.take(k)) is None,
    ensures
        collections_resolved(sub, out, s) is None,
    decreases s.len(),
{
    reveal(collections_resolved);
    if k == s.len() {
        assert(s.take(k) =~= s);
    } else {
        assert(s.drop_last().take(k) =~= s.take(k));
        lemma_unresolved_collections(sub, out, s.drop_last(), k);
    }
}

proof fn lemma_unresolved_aliases(
    sub: Subst,
    out: Seq<EntryV>,
    s: Seq<TypeAliasV>,
    k: int,
)
    requires
        0 <= k <= s.len(),
        aliases_resolved(sub, out, s.take(k)) is None,
    ensures
        aliases_resolved(sub, out, s) is None,
    decreases s.len(),
{
    reveal(aliases_resolved);
    if k == s.len() {
        assert(s.take(k) =~= s);
    } else {
        assert(s.drop_last().take(k) =~= s.take(k));
        lemma_unresolved_aliases(sub, out, s.drop_last(), k);
    }
}

proof fn lemma_unresolved(
    sub: Subst,
    out: Seq<EntryV>,
    s: Seq<TypeRefV>,
    k: int,
)
    requires
        0 <= k <= s.len(),
        all_resolved(sub, out, s.take(k)) is None,
    ensures
        all_resolved(sub, out, s) is None,
    decreases s.len(),
{
    reveal(all_resolved);
    if k == s.len() {
        assert(s.take(k) =~= s);
    } else {
        assert(s.drop_last().take(k) =~= s.take(k));
        lemma_unresolved(sub, out, s.drop_last(), k);
    }
}

proof fn lemma_unsubstituted_vars(
    sub: Subst,
    out: Seq<EntryV>,
    s: Seq<VarDeclV>,
    k: int,
)
    requires
        0 <= k <= s.len(),
        vars_substituted(sub, out, s.take(k)) is None,
    ensures
        vars_substituted(sub, out, s) is None,
    decreases s.len(),
{
    reveal(vars_substituted);
    if k == s.len() {
        assert(s.take(k) =~= s);
    } else {
        assert(s.drop_last().take(k) =~= s.take(k));
        lemma_unsubstituted_vars(sub, out, s.drop_last(), k);
    }
}

/// How many levels of type references are followed.
pub const MAX_TYPE_DEPTH: usize = usize::MAX;

/// What the declared classes and scope aliases offer.
pub open spec fn declared(classes: Seq<ClassDecl>, aliases: Seq<TypeAlias>) -> Env {
    Env { classes: views(classes), aliases: views(aliases) }
}

/// Expand all parameterized-class instantiations in `classes` into concrete
/// classes. `aliases` are the package or module scope typedefs, visible to
/// every class body. The result holds the concrete classes, with `#(args)`
/// references rewritten to the names of the specializations, and for each alias in order its name
/// and its concrete class name. `None` if type references go deeper than
/// [`MAX_TYPE_DEPTH`].
pub fn monomorphize(classes: &Vec<ClassDecl>, aliases: &Vec<TypeAlias>) -> (r: Option<
    (Vec<ClassDecl>, Vec<(String, String)>),
>)
    ensures
        match r {
            Some((out, names)) => monomorphized(
                MAX_TYPE_DEPTH as nat,
                declared(classes@, aliases@),
            ) == Some((views(out@), pair_views(names@))),
            None => monomorphized(MAX_TYPE_DEPTH as nat, declared(classes@, aliases@)) is None,
        },
{
    let d: usize = MAX_TYPE_DEPTH;
    let mut m = Mono { classes, aliases, out: Vec::new() };
    let ghost env = declared(classes@, aliases@);
    proof {
        reveal(concrete_pass);
        reveal(alias_pass);
    }
    let mut i: usize = 0;
    assert(m.built() =~= Seq::empty());
    while i < classes.len()
        invariant
            i <= classes@.len(),
            d == MAX_TYPE_DEPTH,
            env == declared(classes@, aliases@),
            m.env() == env,
            concrete_pass(d as nat, env, i as nat) == Some(m.built()),
        decreases classes@.len() - i,
    {
        proof {
            reveal(concrete_pass);
        }
        let c: &ClassDecl = &classes[i];
        assert(env.classes[i as int] == c@);
        if c.params.len() == 0 {
            let ctx = SubstCtx {
                bindings: Vec::new(),
                values: Vec::new(),
                aliases: clone_list(&c.type_aliases),
            };
            assert(pair_views(ctx.bindings@) =~= Seq::empty());
            assert(pair_views(ctx.values@) =~= Seq::empty());
            match m.build_spec(d, &ctx, c, &c.name) {
                Some(b) => m.record(b),
                None => {
                    proof {
                        reveal(alias_pass);
                        lemma_pass_fails(d as nat, env, (i + 1) as nat, env.classes.len());
                        lemma_aliases_fail(d as nat, env, 0, env.aliases.len());
                    }
                    return None;
                },
            }
        }
        i = i + 1;
    }
    let ctx = SubstCtx { bindings: Vec::new(), values: Vec::new(), aliases: Vec::new() };
    assert(pair_views(ctx.bindings@) =~= Seq::empty());
    assert(pair_views(ctx.values@) =~= Seq::empty());
    assert(views(ctx.aliases@) =~= Seq::empty());
    let mut names: Vec<(String, String)> = Vec::new();
    let mut j: usize = 0;
    assert(pair_views(names@) =~= Seq::empty());
    while j < aliases.len()
        invariant
            j <= aliases@.len(),
            d == MAX_TYPE_DEPTH,
            env == declared(classes@, aliases@),
            m.env() == env,
            ctx@ == empty_ctx(),
            alias_pass(d as nat, env, j as nat) == Some((m.built(), pair_views(names@))),
        decreases aliases@.len() - j,
    {
        proof {
            reveal(alias_pass);
        }
        assert(env.aliases[j as int] == aliases@[j as int]@);
        match m.resolve(d, &ctx, &aliases[j].target) {
            Some(n) => {
                let ghost before = names@;
                names.push((aliases[j].alias.clone(), n));
                assert(pair_views(names@) =~= pair_views(before).push(
                    (aliases@[j as int].alias@, n@),
                ));
            },
            None => {
                proof {
                    lemma_aliases_fail(d as nat, env, (j + 1) as nat, env.aliases.len());
                }
                return None;
            },
        }
        j = j + 1;
    }
    Some((take_classes(m.out), names))
}

/// The classes that are built.
fn take_classes(entries: Vec<Entry>) -> (r: Vec<ClassDecl>)
    ensures
        views(r@) == classes_of(views(entries@)),
{
    let ghost all = classes_of(views(entries@));
    let mut rest: Vec<Entry> = entries;
    let mut reversed: Vec<ClassDecl> = Vec::new();
    assert(views(reversed@) =~= Seq::empty());
    while rest.len() > 0
        invariant
            rest@.len() + reversed@.len() == all.len(),
            classes_of(views(rest@)) == all.take(rest@.len() as int),
            forall|i: int|
                0 <= i < reversed@.len() ==> (#[trigger] reversed@[i])@ == all[all.len() - 1 - i],
        decreases rest@.len(),
    {
        let ghost before = rest@;
        if let Some(e) = rest.pop() {
            assert(e@ == views(before)[before.len() - 1]);
            assert(classes_of(views(before))[before.len() - 1] == e@.class);
            assert(classes_of(views(rest@)) =~= all.take(rest@.len() as int)) by {
                assert forall|i: int| 0 <= i < rest@.len() implies classes_of(views(rest@))[i]
                    == all[i] by {
                    assert(classes_of(views(before))[i] == all.take(before.len() as int)[i]);
                }
            }
            reversed.push(e.class);
        }
    }
    let mut out: Vec<ClassDecl> = Vec::new();
    let ghost n = reversed@.len();
    while reversed.len() > 0
        invariant
            n == all.len(),
            out@.len() + reversed@.len() == n,
            forall|i: int|
                0 <= i < reversed@.len() ==> (#[trigger] reversed@[i])@ == all[all.len() - 1 - i],
            forall|i: int| 0 <= i < out@.len() ==> (#[trigger] out@[i])@ == all[i],
        decreases reversed@.len(),
    {
        if let Some(c) = reversed.pop() {
            out.push(c);
        }
    }
    assert(views(out@) =~= all);
    out
}

proof fn lemma_pass_fails(d: nat, env: Env, i: nat, k: nat)
    requires
        i <= k,
        concrete_pass(d, env, i) is None,
    ensures
        concrete_pass(d, env, k) is None,
    decreases k,
{
    reveal(concrete_pass);
    if i < k {
        lemma_pass_fails(d, env, i, (k - 1) as nat);
    }
}

proof fn lemma_aliases_fail(d: nat, env: Env, i: nat, k: nat)
    requires
        i <= k,
        alias_pass(d, env, i) is None,
    ensures
        alias_pass(d, env, k) is None,
    decreases k,
{
    reveal(alias_pass);
    if i < k {
        lemma_aliases_fail(d, env, i, (k - 1) as nat);
    }
}

} // verus!
