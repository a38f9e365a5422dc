//! Laws of numbering and laying out.
use vstd::prelude::*;

use crate::ast_model::{ClassDeclV, CollectionAliasV, FuncDeclV, VarDeclV};
use crate::class_layout::{
    class_layout, inherited, with_aliases, with_collections, with_method, with_methods,
    with_params, with_types, with_var, with_vars, ClassFidsV, MethodIdV,
};
use crate::compile::{compiled, counted, ranked, ranked_with, reason_before, with_made};
use crate::const_fold::Consts;
use crate::gen_program::{callable_code, category};
use crate::ir::{ProgramV, ValueV};
use crate::layout::{ClassInfoV, EnvV};
use crate::link::{
    agree_all, agreed, base_number, layouts, leftovers, sweep, sweeps, unlaid, with_laid, Agreed,
    LayingV, PlanV,
};
use crate::numbering::{
    all_jobs, class_functions, class_jobs, functions, method_numbers, with_constructors, JobV,
};
use crate::table::{distinct, lookup, put, put_keeps_distinct, put_then_lookup, removed};

verus! {

// ---- numbers are places ---------------------------------------------------------------

proof fn lemma_method_numbers(methods: Seq<FuncDeclV>, first: nat, ids: Seq<(Seq<char>, u32)>, i: int)
    requires
        0 <= i < methods.len(),
    ensures
        method_numbers(methods, first, ids).len() == methods.len(),
        method_numbers(methods, first, ids)[i].name == methods[i].name,
        method_numbers(methods, first, ids)[i].is_virtual == methods[i].is_virtual,
        method_numbers(methods, first, ids)[i].func == (first + i) as u32,
    decreases methods.len(),
{
    if methods.len() == 1 {
        assert(method_numbers(methods.drop_last(), first, ids).len() == 0);
    } else if i < methods.len() - 1 {
        lemma_method_numbers(methods.drop_last(), first, ids, i);
    } else {
        lemma_method_numbers(methods.drop_last(), first, ids, 0);
    }
}

proof fn lemma_jobs_grow(funcs: Seq<FuncDeclV>, classes: Seq<ClassDeclV>, k: int)
    requires
        0 <= k <= classes.len(),
    ensures
        all_jobs(funcs, classes.take(k)).len() <= all_jobs(funcs, classes).len(),
        all_jobs(funcs, classes).take(all_jobs(funcs, classes.take(k)).len() as int) == all_jobs(
            funcs,
            classes.take(k),
        ),
    decreases classes.len(),
{
    if k == classes.len() {
        assert(classes.take(k) =~= classes);
        assert(all_jobs(funcs, classes).take(all_jobs(funcs, classes).len() as int) =~= all_jobs(
            funcs,
            classes,
        ));
    } else {
        lemma_jobs_grow(funcs, classes.drop_last(), k);
        assert(classes.drop_last().take(k) =~= classes.take(k));
        let n = all_jobs(funcs, classes.take(k)).len() as int;
        assert(all_jobs(funcs, classes).take(n) =~= all_jobs(funcs, classes.drop_last()).take(n));
    }
}

proof fn lemma_functions_at(
    funcs: Seq<FuncDeclV>,
    classes: Seq<ClassDeclV>,
    ids: Seq<(Seq<char>, u32)>,
    k: int,
)
    requires
        0 <= k < classes.len(),
    ensures
        functions(funcs, classes, ids).len() == classes.len(),
        functions(funcs, classes, ids)[k] == class_functions(
            classes[k],
            all_jobs(funcs, classes.take(k)).len(),
            ids,
        ),
    decreases classes.len(),
{
    assert(classes.drop_last() =~= classes.take(classes.len() - 1));
    if classes.len() == 1 {
        assert(functions(funcs, classes.drop_last(), ids).len() == 0);
    } else if k < classes.len() - 1 {
        lemma_functions_at(funcs, classes.drop_last(), ids, k);
        assert(classes.drop_last().take(k) =~= classes.take(k));
    } else {
        lemma_functions_at(funcs, classes.drop_last(), ids, 0);
    }
}

/// The number of a method is the place of that method among the callables, with
/// its own class.
pub proof fn method_number_is_its_place(
    funcs: Seq<FuncDeclV>,
    classes: Seq<ClassDeclV>,
    ids: Seq<(Seq<char>, u32)>,
    cid: int,
    i: int,
)
    requires
        0 <= cid < classes.len(),
        0 <= i < classes[cid].methods.len(),
        all_jobs(funcs, classes).len() <= u32::MAX,
    ensures
        ({
            let m = functions(funcs, classes, ids)[cid].methods[i];
            m.func < all_jobs(funcs, classes).len() && m.name == classes[cid].methods[i].name
                && all_jobs(funcs, classes)[m.func as int] == (
                classes[cid].methods[i],
                Some(cid as u32),
            )
        }),
{
    let c = classes[cid];
    let before = all_jobs(funcs, classes.take(cid));
    let upto = classes.take(cid + 1);
    lemma_functions_at(funcs, classes, ids, cid);
    lemma_method_numbers(c.methods, before.len(), ids, i);
    lemma_jobs_grow(funcs, classes, cid + 1);
    assert(upto.drop_last() =~= classes.take(cid));
    assert(upto.last() == c);
    let jobs = all_jobs(funcs, upto);
    assert(jobs == before + class_jobs(c, cid as u32));
    assert(jobs[before.len() + i] == (c.methods[i], Some(cid as u32)));
    assert(all_jobs(funcs, classes).take(jobs.len() as int)[before.len() + i] == all_jobs(
        funcs,
        classes,
    )[before.len() + i]);
}

/// The number of a declared constructor is its place among the callables.
pub proof fn constructor_number_is_its_place(
    funcs: Seq<FuncDeclV>,
    classes: Seq<ClassDeclV>,
    ids: Seq<(Seq<char>, u32)>,
    cid: int,
)
    requires
        0 <= cid < classes.len(),
        classes[cid].constructor is Some,
        all_jobs(funcs, classes).len() <= u32::MAX,
    ensures
        ({
            let ctor = functions(funcs, classes, ids)[cid].ctor;
            ctor is Some && ctor->0 < all_jobs(funcs, classes).len() && all_jobs(
                funcs,
                classes,
            )[ctor->0 as int] == (classes[cid].constructor->0, Some(cid as u32))
        }),
{
    let c = classes[cid];
    let before = all_jobs(funcs, classes.take(cid));
    let upto = classes.take(cid + 1);
    lemma_functions_at(funcs, classes, ids, cid);
    lemma_jobs_grow(funcs, classes, cid + 1);
    assert(upto.drop_last() =~= classes.take(cid));
    assert(upto.last() == c);
    let jobs = all_jobs(funcs, upto);
    let at = before.len() + c.methods.len();
    assert(jobs == before + class_jobs(c, cid as u32));
    assert(jobs[at as int] == (c.constructor->0, Some(cid as u32)));
    assert(all_jobs(funcs, classes).take(jobs.len() as int)[at as int] == all_jobs(
        funcs,
        classes,
    )[at as int]);
}

/// Every class has a constructor, and the made ones follow the callables.
pub proof fn every_class_has_a_constructor(fids: Seq<ClassFidsV>, jobs: nat)
    ensures
        with_constructors(fids, jobs).0.len() == fids.len(),
        forall|i: int|
            0 <= i < fids.len() ==> (#[trigger] with_constructors(fids, jobs).0[i]).ctor is Some,
        forall|i: int|
            0 <= i < fids.len() ==> (#[trigger] with_constructors(fids, jobs).0[i]).methods
                == fids[i].methods,
    decreases fids.len(),
{
    if fids.len() > 0 {
        every_class_has_a_constructor(fids.drop_last(), jobs);
        let done = with_constructors(fids.drop_last(), jobs).0;
        let all = with_constructors(fids, jobs).0;
        assert forall|i: int| 0 <= i < fids.len() implies (#[trigger] all[i]).ctor is Some
            && all[i].methods == fids[i].methods by {
            if i < fids.len() - 1 {
                assert(all[i] == done[i]);
            }
        }
    }
}

/// Each callable gets one program, in the place of its number.
pub proof fn one_program_for_each_callable(env: EnvV, jobs: Seq<JobV>)
    ensures
        compiled(env, jobs) is Ok ==> compiled(env, jobs)->Ok_0.funcs.len() == jobs.len()
            && compiled(env, jobs)->Ok_0.stubs.len() <= jobs.len(),
    decreases jobs.len(),
{
    if jobs.len() > 0 {
        one_program_for_each_callable(env, jobs.drop_last());
    }
}

/// How often the reasons of a table came up in all.
pub open spec fn occurrences(s: Seq<(Seq<char>, usize)>) -> nat
    decreases s.len(),
{
    if s.len() == 0 {
        0
    } else {
        s[0].1 as nat + occurrences(s.drop_first())
    }
}

proof fn lemma_one_more(s: Seq<(Seq<char>, usize)>, name: Seq<char>)
    requires
        occurrences(s) < usize::MAX,
    ensures
        occurrences(put(s, name, counted(lookup(s, name)))) == occurrences(s) + 1,
    decreases s.len(),
{
    let v = counted(lookup(s, name));
    let r = put(s, name, v);
    if s.len() == 0 {
        assert(r.drop_first() =~= Seq::empty());
        assert(occurrences(r.drop_first()) == 0);
    } else {
        if s[0].0 == name {
            assert(r.drop_first() =~= s.drop_first());
        } else {
            lemma_one_more(s.drop_first(), name);
            assert(r.drop_first() =~= put(s.drop_first(), name, v));
        }
    }
}

proof fn lemma_occurrences_push(s: Seq<(Seq<char>, usize)>, e: (Seq<char>, usize))
    ensures
        occurrences(s.push(e)) == occurrences(s) + e.1,
    decreases s.len(),
{
    if s.len() == 0 {
        assert(s.push(e).drop_first() =~= Seq::empty());
        assert(occurrences(s.push(e).drop_first()) == 0);
    } else {
        lemma_occurrences_push(s.drop_first(), e);
        assert(s.push(e).drop_first() =~= s.drop_first().push(e));
    }
}

proof fn lemma_ranked_with(s: Seq<(Seq<char>, usize)>, e: (Seq<char>, usize))
    ensures
        occurrences(ranked_with(s, e)) == occurrences(s) + e.1,
    decreases s.len(),
{
    if s.len() == 0 || !reason_before(e, s.last()) {
        lemma_occurrences_push(s, e);
    } else {
        lemma_ranked_with(s.drop_last(), e);
        lemma_occurrences_push(ranked_with(s.drop_last(), e), s.last());
        lemma_occurrences_push(s.drop_last(), s.last());
        assert(s.drop_last().push(s.last()) =~= s);
    }
}

/// Putting the reasons in order keeps how often they came up.
pub proof fn ranking_keeps_occurrences(s: Seq<(Seq<char>, usize)>)
    ensures
        occurrences(ranked(s)) == occurrences(s),
    decreases s.len(),
{
    if s.len() > 0 {
        ranking_keeps_occurrences(s.drop_last());
        lemma_ranked_with(ranked(s.drop_last()), s.last());
        lemma_occurrences_push(s.drop_last(), s.last());
        assert(s.drop_last().push(s.last()) =~= s);
    }
}

/// Each stub has its reason: the reasons come up as often as there are stubs.
pub proof fn one_reason_for_each_stub(env: EnvV, jobs: Seq<JobV>)
    requires
        compiled(env, jobs) is Ok,
        compiled(env, jobs)->Ok_0.stubs.len() <= usize::MAX,
    ensures
        occurrences(compiled(env, jobs)->Ok_0.reasons) == compiled(env, jobs)->Ok_0.stubs.len(),
    decreases jobs.len(),
{
    if jobs.len() > 0 {
        one_reason_for_each_stub(env, jobs.drop_last());
        let c = compiled(env, jobs.drop_last())->Ok_0;
        let job = jobs.last();
        if job.0.dpi_name is None {
            if let Err(why) = callable_code(env, job.0, job.1) {
                lemma_one_more(c.reasons, category(why));
            }
        }
    }
}

/// A callable keeps its program when more callables are compiled.
pub proof fn programs_keep_their_places(env: EnvV, jobs: Seq<JobV>, more: Seq<JobV>)
    ensures
        compiled(env, jobs + more) is Ok ==> compiled(env, jobs) is Ok && compiled(
            env,
            jobs + more,
        )->Ok_0.funcs.take(jobs.len() as int) == compiled(env, jobs)->Ok_0.funcs,
    decreases more.len(),
{
    one_program_for_each_callable(env, jobs);
    if more.len() == 0 {
        assert(jobs + more =~= jobs);
        if compiled(env, jobs) is Ok {
            let f = compiled(env, jobs)->Ok_0.funcs;
            assert(f.take(jobs.len() as int) =~= f);
        }
    } else {
        programs_keep_their_places(env, jobs, more.drop_last());
        one_program_for_each_callable(env, jobs + more.drop_last());
        assert((jobs + more).drop_last() =~= jobs + more.drop_last());
        if compiled(env, jobs + more) is Ok {
            let f = compiled(env, jobs + more)->Ok_0.funcs;
            let g = compiled(env, jobs + more.drop_last())->Ok_0.funcs;
            assert(f.take(jobs.len() as int) =~= g.take(jobs.len() as int));
        }
    }
}

/// The made constructors follow the programs of the callables, one for each
/// class that needs one.
pub proof fn made_constructors_follow(funcs: Seq<ProgramV>, made: Seq<u32>, env: EnvV)
    ensures
        with_made(funcs, made, env) is Ok ==> with_made(funcs, made, env)->Ok_0.len() == funcs.len()
            + made.len() && with_made(funcs, made, env)->Ok_0.take(funcs.len() as int) == funcs,
    decreases made.len(),
{
    if made.len() == 0 {
        assert(funcs.take(funcs.len() as int) =~= funcs);
    } else {
        made_constructors_follow(funcs, made.drop_last(), env);
        if with_made(funcs, made, env) is Ok {
            let all = with_made(funcs, made, env)->Ok_0;
            let before = with_made(funcs, made.drop_last(), env)->Ok_0;
            assert(all.take(funcs.len() as int) =~= before.take(funcs.len() as int));
        }
    }
}

// ---- virtual methods ------------------------------------------------------------------------

/// Whether the place of each virtual method holds the method that the class has,
/// and no two virtual methods share a place.
pub open spec fn dispatch_sound(c: ClassInfoV) -> bool {
    &&& forall|name: Seq<char>|
        (#[trigger] lookup(c.vslot_of, name)) is Some ==> lookup(c.vslot_of, name)->0
            < c.vtable.len() && lookup(c.methods, name) == Some(
            c.vtable[lookup(c.vslot_of, name)->0 as int],
        )
    &&& forall|a: Seq<char>, b: Seq<char>|
        (#[trigger] lookup(c.vslot_of, a)) is Some && lookup(c.vslot_of, a) == (#[trigger] lookup(
            c.vslot_of,
            b,
        )) ==> a == b
}

/// Whether each field has a slot with an initial value.
pub open spec fn slots_sound(c: ClassInfoV) -> bool {
    forall|name: Seq<char>|
        (#[trigger] lookup(c.field_slot, name)) is Some ==> (lookup(c.field_slot, name)->0).0
            < c.field_defaults.len()
}

/// A method keeps dispatch sound. One that overrides a virtual method is what a
/// virtual call reaches.
pub proof fn method_keeps_dispatch_sound(c: ClassInfoV, m: MethodIdV)
    requires
        dispatch_sound(c),
        c.vtable.len() < u32::MAX,
    ensures
        dispatch_sound(with_method(c, m)),
        lookup(with_method(c, m).methods, m.name) == Some(m.func),
        forall|name: Seq<char>|
            (#[trigger] lookup(c.vslot_of, name)) is Some ==> lookup(
                with_method(c, m).vslot_of,
                name,
            ) == lookup(c.vslot_of, name),
{
    let d = with_method(c, m);
    assert forall|name: Seq<char>| true implies #[trigger] lookup(d.methods, name) == (if name
        == m.name {
        Some(m.func)
    } else {
        lookup(c.methods, name)
    }) by {
        put_then_lookup(c.methods, m.name, m.func, name);
    }
    assert(lookup(d.methods, m.name) == Some(m.func));
    if lookup(c.vslot_of, m.name) is None && m.is_virtual {
        let place = c.vtable.len() as u32;
        assert forall|name: Seq<char>| true implies #[trigger] lookup(d.vslot_of, name) == (if name
            == m.name {
            Some(place)
        } else {
            lookup(c.vslot_of, name)
        }) by {
            put_then_lookup(c.vslot_of, m.name, place, name);
        }
        assert forall|name: Seq<char>| (#[trigger] lookup(d.vslot_of, name)) is Some implies lookup(
            d.vslot_of,
            name,
        )->0 < d.vtable.len() && lookup(d.methods, name) == Some(
            d.vtable[lookup(d.vslot_of, name)->0 as int],
        ) by {
            if name != m.name {
                assert(lookup(c.vslot_of, name) is Some);
            }
        }
        assert forall|a: Seq<char>, b: Seq<char>|
            (#[trigger] lookup(d.vslot_of, a)) is Some && lookup(d.vslot_of, a) == (
            #[trigger] lookup(d.vslot_of, b)) implies a == b by {
            if a != m.name && b != m.name {
                assert(lookup(c.vslot_of, a) is Some);
                assert(lookup(c.vslot_of, a) == lookup(c.vslot_of, b));
            } else if a != m.name {
                assert(lookup(c.vslot_of, a) is Some);
            } else if b != m.name {
                assert(lookup(c.vslot_of, b) is Some);
            }
        }
    } else {
        assert(d.vslot_of == c.vslot_of);
        assert forall|name: Seq<char>| (#[trigger] lookup(d.vslot_of, name)) is Some implies lookup(
            d.vslot_of,
            name,
        )->0 < d.vtable.len() && lookup(d.methods, name) == Some(
            d.vtable[lookup(d.vslot_of, name)->0 as int],
        ) by {
            assert(lookup(c.vslot_of, name) is Some);
            if name != m.name && lookup(c.vslot_of, m.name) is Some {
                assert(lookup(c.vslot_of, name) != lookup(c.vslot_of, m.name));
            }
        }
    }
}

proof fn lemma_methods_grow(c: ClassInfoV, methods: Seq<MethodIdV>)
    ensures
        with_methods(c, methods).vtable.len() >= c.vtable.len(),
        with_methods(c, methods).vtable.len() <= c.vtable.len() + methods.len(),
        with_methods(c, methods).field_slot == c.field_slot,
        with_methods(c, methods).field_defaults == c.field_defaults,
        with_methods(c, methods).base == c.base,
        with_methods(c, methods).name == c.name,
    decreases methods.len(),
{
    if methods.len() > 0 {
        lemma_methods_grow(c, methods.drop_last());
    }
}

proof fn lemma_methods_sound(c: ClassInfoV, methods: Seq<MethodIdV>)
    requires
        dispatch_sound(c),
        with_methods(c, methods).vtable.len() <= u32::MAX,
    ensures
        dispatch_sound(with_methods(c, methods)),
        forall|name: Seq<char>|
            (#[trigger] lookup(c.vslot_of, name)) is Some ==> lookup(
                with_methods(c, methods).vslot_of,
                name,
            ) == lookup(c.vslot_of, name),
    decreases methods.len(),
{
    if methods.len() > 0 {
        let before = with_methods(c, methods.drop_last());
        let m = methods.last();
        lemma_methods_grow(c, methods.drop_last());
        lemma_methods_sound(c, methods.drop_last());
        if before.vtable.len() < u32::MAX {
            method_keeps_dispatch_sound(before, m);
        } else {
            lemma_method_in_place(before, m);
        }
        assert forall|name: Seq<char>| (#[trigger] lookup(c.vslot_of, name)) is Some implies lookup(
            with_methods(c, methods).vslot_of,
            name,
        ) == lookup(c.vslot_of, name) by {
            assert(lookup(before.vslot_of, name) is Some);
        }
    }
}

/// A method without a new place keeps dispatch sound.
proof fn lemma_method_in_place(c: ClassInfoV, m: MethodIdV)
    requires
        dispatch_sound(c),
        with_method(c, m).vtable.len() == c.vtable.len(),
    ensures
        dispatch_sound(with_method(c, m)),
        with_method(c, m).vslot_of == c.vslot_of,
{
    let d = with_method(c, m);
    assert forall|name: Seq<char>| true implies #[trigger] lookup(d.methods, name) == (if name
        == m.name {
        Some(m.func)
    } else {
        lookup(c.methods, name)
    }) by {
        put_then_lookup(c.methods, m.name, m.func, name);
    }
    assert forall|name: Seq<char>| (#[trigger] lookup(d.vslot_of, name)) is Some implies lookup(
        d.vslot_of,
        name,
    )->0 < d.vtable.len() && lookup(d.methods, name) == Some(
        d.vtable[lookup(d.vslot_of, name)->0 as int],
    ) by {
        assert(lookup(c.vslot_of, name) is Some);
        if name != m.name && lookup(c.vslot_of, m.name) is Some {
            assert(lookup(c.vslot_of, name) != lookup(c.vslot_of, m.name));
        }
    }
}

// ---- fields ---------------------------------------------------------------------------------

proof fn lemma_collections_keep(
    c: ClassInfoV,
    aliases: Seq<CollectionAliasV>,
    ids: Seq<(Seq<char>, u32)>,
)
    ensures
        ({
            let d = with_collections(c, aliases, ids);
            d.field_slot == c.field_slot && d.field_defaults == c.field_defaults && d.vtable
                == c.vtable && d.vslot_of == c.vslot_of && d.methods == c.methods && d.base
                == c.base && d.name == c.name
        }),
    decreases aliases.len(),
{
    if aliases.len() > 0 {
        lemma_collections_keep(c, aliases.drop_last(), ids);
    }
}

proof fn lemma_var_keeps(
    c: ClassInfoV,
    statics: Seq<ValueV>,
    v: VarDeclV,
    ids: Seq<(Seq<char>, u32)>,
    consts: Consts,
)
    requires
        with_var(c, statics, v, ids, consts) is Ok,
    ensures
        ({
            let d = with_var(c, statics, v, ids, consts)->Ok_0.0;
            d.vtable == c.vtable && d.vslot_of == c.vslot_of && d.methods == c.methods && d.base
                == c.base && d.name == c.name && d.field_defaults.len() >= c.field_defaults.len()
                && d.field_defaults.take(c.field_defaults.len() as int) == c.field_defaults && (
            d.field_defaults.len() <= u32::MAX && slots_sound(c) ==> slots_sound(d))
        }),
{
    let d = with_var(c, statics, v, ids, consts)->Ok_0.0;
    assert(d.field_defaults.take(c.field_defaults.len() as int) =~= c.field_defaults);
    if !v.is_static && slots_sound(c) && d.field_defaults.len() <= u32::MAX {
        let slot = (c.field_defaults.len() as u32, v.width);
        assert forall|name: Seq<char>| (#[trigger] lookup(d.field_slot, name)) is Some implies (
        lookup(d.field_slot, name)->0).0 < d.field_defaults.len() by {
            put_then_lookup(c.field_slot, v.name, slot, name);
            if name != v.name {
                assert(lookup(c.field_slot, name) is Some);
            }
        }
    }
}

proof fn lemma_vars_keep(
    c: ClassInfoV,
    statics: Seq<ValueV>,
    vars: Seq<VarDeclV>,
    ids: Seq<(Seq<char>, u32)>,
    consts: Consts,
)
    requires
        with_vars(c, statics, vars, ids, consts) is Ok,
    ensures
        ({
            let d = with_vars(c, statics, vars, ids, consts)->Ok_0.0;
            d.vtable == c.vtable && d.vslot_of == c.vslot_of && d.methods == c.methods && d.base
                == c.base && d.name == c.name && d.field_defaults.len() >= c.field_defaults.len()
                && d.field_defaults.take(c.field_defaults.len() as int) == c.field_defaults && (
            d.field_defaults.len() <= u32::MAX && slots_sound(c) ==> slots_sound(d))
        }),
    decreases vars.len(),
{
    if vars.len() == 0 {
        assert(c.field_defaults.take(c.field_defaults.len() as int) =~= c.field_defaults);
    } else {
        lemma_vars_keep(c, statics, vars.drop_last(), ids, consts);
        let (e, s) = with_vars(c, statics, vars.drop_last(), ids, consts)->Ok_0;
        lemma_var_keeps(e, s, vars.last(), ids, consts);
        let d = with_vars(c, statics, vars, ids, consts)->Ok_0.0;
        assert(d.field_defaults.take(c.field_defaults.len() as int) =~= d.field_defaults.take(
            e.field_defaults.len() as int,
        ).take(c.field_defaults.len() as int));
    }
}

// ---- classes --------------------------------------------------------------------------------

/// A class keeps what it inherits: the slots of its base hold the initial values
/// that they hold there, and a virtual method of its base has the same place.
pub proof fn class_extends_its_base(
    d: ClassDeclV,
    id: u32,
    b: ClassInfoV,
    fids: ClassFidsV,
    ids: Seq<(Seq<char>, u32)>,
    consts: Consts,
    statics: Seq<ValueV>,
)
    requires
        class_layout(d, Some((id, b)), fids, ids, consts, statics) is Ok,
        dispatch_sound(b),
        class_layout(d, Some((id, b)), fids, ids, consts, statics)->Ok_0.0.vtable.len()
            <= u32::MAX,
    ensures
        ({
            let c = class_layout(d, Some((id, b)), fids, ids, consts, statics)->Ok_0.0;
            &&& c.base == Some(id)
            &&& c.name == d.name
            &&& c.field_defaults.len() >= b.field_defaults.len()
            &&& c.field_defaults.take(b.field_defaults.len() as int) == b.field_defaults
            &&& forall|name: Seq<char>|
                (#[trigger] lookup(b.vslot_of, name)) is Some ==> lookup(c.vslot_of, name)
                    == lookup(b.vslot_of, name)
        }),
{
    reveal(class_layout);
    let start = inherited(d.name, d.is_struct, fids.ctor, Some((id, b)));
    let c0 = with_types(start, d, ids);
    lemma_collections_keep(
        ClassInfoV {
            type_param_default: with_params(
                start.type_param_default,
                d.params,
                ids,
            ),
            type_aliases: with_aliases(start.type_aliases, d.type_aliases, ids),
            ..start
        },
        d.collection_aliases,
        ids,
    );
    lemma_vars_keep(c0, statics, d.fields, ids, consts);
    let c1 = with_vars(c0, statics, d.fields, ids, consts)->Ok_0.0;
    lemma_methods_grow(c1, fids.methods);
    assert(dispatch_sound(c1));
    lemma_methods_sound(c1, fids.methods);
}

/// Laying out a class keeps dispatch and slots sound.
pub proof fn class_layout_is_sound(
    d: ClassDeclV,
    base: Option<(u32, ClassInfoV)>,
    fids: ClassFidsV,
    ids: Seq<(Seq<char>, u32)>,
    consts: Consts,
    statics: Seq<ValueV>,
)
    requires
        class_layout(d, base, fids, ids, consts, statics) is Ok,
        base is Some ==> dispatch_sound((base->0).1) && slots_sound((base->0).1),
        class_layout(d, base, fids, ids, consts, statics)->Ok_0.0.vtable.len() <= u32::MAX,
        class_layout(d, base, fids, ids, consts, statics)->Ok_0.0.field_defaults.len() <= u32::MAX,
    ensures
        dispatch_sound(class_layout(d, base, fids, ids, consts, statics)->Ok_0.0),
        slots_sound(class_layout(d, base, fids, ids, consts, statics)->Ok_0.0),
{
    reveal(class_layout);
    let start = inherited(d.name, d.is_struct, fids.ctor, base);
    let c0 = with_types(start, d, ids);
    lemma_collections_keep(
        ClassInfoV {
            type_param_default: with_params(
                start.type_param_default,
                d.params,
                ids,
            ),
            type_aliases: with_aliases(start.type_aliases, d.type_aliases, ids),
            ..start
        },
        d.collection_aliases,
        ids,
    );
    assert(dispatch_sound(start));
    assert(slots_sound(start));
    lemma_vars_keep(c0, statics, d.fields, ids, consts);
    let c1 = with_vars(c0, statics, d.fields, ids, consts)->Ok_0.0;
    lemma_methods_grow(c1, fids.methods);
    assert(dispatch_sound(c1));
    lemma_methods_sound(c1, fids.methods);
    let c = with_methods(c1, fids.methods);
    assert(slots_sound(c));
}

/// Laying out a class only adds places and slots.
proof fn lemma_layout_grows(
    d: ClassDeclV,
    base: Option<(u32, ClassInfoV)>,
    fids: ClassFidsV,
    ids: Seq<(Seq<char>, u32)>,
    consts: Consts,
    statics: Seq<ValueV>,
)
    requires
        class_layout(d, base, fids, ids, consts, statics) is Ok,
    ensures
        ({
            let c = class_layout(d, base, fids, ids, consts, statics)->Ok_0.0;
            base is Some ==> c.vtable.len() >= (base->0).1.vtable.len() && c.field_defaults.len()
                >= (base->0).1.field_defaults.len()
        }),
{
    reveal(class_layout);
    let start = inherited(d.name, d.is_struct, fids.ctor, base);
    let c0 = with_types(start, d, ids);
    lemma_collections_keep(
        ClassInfoV {
            type_param_default: with_params(
                start.type_param_default,
                d.params,
                ids,
            ),
            type_aliases: with_aliases(start.type_aliases, d.type_aliases, ids),
            ..start
        },
        d.collection_aliases,
        ids,
    );
    lemma_vars_keep(c0, statics, d.fields, ids, consts);
    let c1 = with_vars(c0, statics, d.fields, ids, consts)->Ok_0.0;
    lemma_methods_grow(c1, fids.methods);
}

/// Whether a layout is sound wherever its numbers can be told apart.
pub open spec fn well_laid(c: ClassInfoV) -> bool {
    c.vtable.len() <= u32::MAX && c.field_defaults.len() <= u32::MAX ==> dispatch_sound(c)
        && slots_sound(c)
}

/// Whether the classes laid out so far are sound.
pub open spec fn all_well_laid(built: Seq<Option<ClassInfoV>>) -> bool {
    forall|i: int| 0 <= i < built.len() && (#[trigger] built[i]) is Some ==> well_laid(built[i]->0)
}

proof fn lemma_laid_sound(p: PlanV, st: LayingV, cid: int, base: Option<(u32, ClassInfoV)>)
    requires
        all_well_laid(st.built),
        0 <= cid < st.built.len(),
        base is Some ==> well_laid((base->0).1),
        with_laid(p, st, cid, base) is Ok,
    ensures
        all_well_laid(with_laid(p, st, cid, base)->Ok_0.built),
        with_laid(p, st, cid, base)->Ok_0.built.len() == st.built.len(),
{
    let r = class_layout(p.classes[cid], base, p.fids[cid], p.ids, p.consts, st.statics);
    let c = r->Ok_0.0;
    lemma_layout_grows(p.classes[cid], base, p.fids[cid], p.ids, p.consts, st.statics);
    if c.vtable.len() <= u32::MAX && c.field_defaults.len() <= u32::MAX {
        class_layout_is_sound(p.classes[cid], base, p.fids[cid], p.ids, p.consts, st.statics);
    }
    let after = with_laid(p, st, cid, base)->Ok_0.built;
    assert forall|i: int| 0 <= i < after.len() && (#[trigger] after[i]) is Some implies well_laid(
        after[i]->0,
    ) by {
        if i != cid {
            assert(after[i] == st.built[i]);
        }
    }
}

proof fn lemma_sweep_sound(p: PlanV, st: LayingV, n: nat)
    requires
        all_well_laid(st.built),
        n <= st.built.len(),
        sweep(p, st, n) is Ok,
    ensures
        all_well_laid(sweep(p, st, n)->Ok_0.built),
        sweep(p, st, n)->Ok_0.built.len() == st.built.len(),
    decreases n,
{
    if n > 0 {
        lemma_sweep_sound(p, st, (n - 1) as nat);
        let s = sweep(p, st, (n - 1) as nat)->Ok_0;
        let cid = n - 1;
        if s.built[cid] is None {
            match base_number(p.classes[cid], cid as nat, p.ids) {
                None => lemma_laid_sound(p, s, cid, None),
                Some(id) => {
                    if id < s.built.len() && s.built[id as int] is Some {
                        lemma_laid_sound(p, s, cid, Some((id, s.built[id as int]->0)));
                    }
                },
            }
        }
    }
}

proof fn lemma_sweeps_sound(p: PlanV, st: LayingV, k: nat)
    requires
        all_well_laid(st.built),
        st.built.len() == p.classes.len(),
        sweeps(p, st, k) is Ok,
    ensures
        all_well_laid(sweeps(p, st, k)->Ok_0.built),
        sweeps(p, st, k)->Ok_0.built.len() == st.built.len(),
    decreases k,
{
    if k > 0 {
        lemma_sweeps_sound(p, st, (k - 1) as nat);
        lemma_sweep_sound(p, sweeps(p, st, (k - 1) as nat)->Ok_0, p.classes.len());
    }
}

proof fn lemma_leftovers_sound(p: PlanV, st: LayingV, n: nat)
    requires
        all_well_laid(st.built),
        n <= st.built.len(),
        leftovers(p, st, n) is Ok,
    ensures
        all_well_laid(leftovers(p, st, n)->Ok_0.built),
        leftovers(p, st, n)->Ok_0.built.len() == st.built.len(),
        forall|i: int|
            0 <= i < n ==> (#[trigger] leftovers(p, st, n)->Ok_0.built[i]) is Some,
    decreases n,
{
    if n > 0 {
        lemma_leftovers_sound(p, st, (n - 1) as nat);
        let s = leftovers(p, st, (n - 1) as nat)->Ok_0;
        if s.built[n - 1] is None {
            lemma_laid_sound(p, s, n - 1, None);
        }
        let r = leftovers(p, st, n)->Ok_0;
        assert forall|i: int| 0 <= i < n implies (#[trigger] r.built[i]) is Some by {
            if i < n - 1 {
                assert(s.built[i] is Some);
                assert(r.built[i] == s.built[i]);
            }
        }
    }
}

/// In every class of a design a virtual call reaches the method that the class
/// has, and every field has a slot.
pub proof fn layouts_are_sound(p: PlanV, statics: Seq<ValueV>)
    requires
        layouts(p, statics) is Ok,
    ensures
        layouts(p, statics)->Ok_0.0.len() == p.classes.len(),
        forall|i: int|
            0 <= i < p.classes.len() ==> well_laid(#[trigger] layouts(p, statics)->Ok_0.0[i]),
{
    reveal(layouts);
    let n = p.classes.len();
    let start = LayingV { built: unlaid(n), statics };
    lemma_sweeps_sound(p, start, n);
    let st = sweeps(p, start, n)->Ok_0;
    lemma_leftovers_sound(p, st, n);
    let done = leftovers(p, st, n)->Ok_0;
    let all = layouts(p, statics)->Ok_0.0;
    assert forall|i: int| 0 <= i < n implies well_laid(#[trigger] all[i]) by {
        assert(done.built[i] is Some);
    }
}

// ---- sweeps -----------------------------------------------------------------------------------

/// How many classes are not laid out.
pub open spec fn missing(built: Seq<Option<ClassInfoV>>) -> nat
    decreases built.len(),
{
    if built.len() == 0 {
        0
    } else {
        missing(built.drop_last()) + (if built.last() is None {
            1nat
        } else {
            0nat
        })
    }
}

proof fn lemma_missing_update(built: Seq<Option<ClassInfoV>>, i: int, c: ClassInfoV)
    requires
        0 <= i < built.len(),
        built[i] is None,
    ensures
        missing(built.update(i, Some(c))) + 1 == missing(built),
    decreases built.len(),
{
    let after = built.update(i, Some(c));
    if i == built.len() - 1 {
        assert(after.drop_last() =~= built.drop_last());
    } else {
        assert(after.drop_last() =~= built.drop_last().update(i, Some(c)));
        lemma_missing_update(built.drop_last(), i, c);
    }
}

proof fn lemma_missing_zero(built: Seq<Option<ClassInfoV>>, i: int)
    requires
        0 <= i < built.len(),
        built[i] is None,
    ensures
        missing(built) > 0,
    decreases built.len(),
{
    if i < built.len() - 1 {
        lemma_missing_zero(built.drop_last(), i);
    }
}

proof fn lemma_missing_all(n: nat)
    ensures
        missing(unlaid(n)) <= n,
    decreases n,
{
    if n > 0 {
        assert(unlaid(n).drop_last() =~= unlaid((n - 1) as nat));
        lemma_missing_all((n - 1) as nat);
    }
}

proof fn lemma_sweep_progress(p: PlanV, st: LayingV, n: nat)
    requires
        n <= st.built.len(),
        sweep(p, st, n) is Ok,
    ensures
        sweep(p, st, n)->Ok_0.built.len() == st.built.len(),
        sweep(p, st, n)->Ok_0 == st || missing(sweep(p, st, n)->Ok_0.built) < missing(st.built),
    decreases n,
{
    if n > 0 {
        lemma_sweep_progress(p, st, (n - 1) as nat);
        let s = sweep(p, st, (n - 1) as nat)->Ok_0;
        let r = sweep(p, st, n)->Ok_0;
        if s.built[n - 1] is None && r != s {
            lemma_missing_update(s.built, n - 1, r.built[n - 1]->0);
        }
    }
}

proof fn lemma_sweeps_progress(p: PlanV, st: LayingV, k: nat)
    requires
        st.built.len() == p.classes.len(),
        sweeps(p, st, k) is Ok,
    ensures
        ({
            let s = sweeps(p, st, k)->Ok_0;
            s.built.len() == st.built.len() && (missing(s.built) + k <= missing(st.built) || sweep(
                p,
                s,
                p.classes.len(),
            ) == Ok::<LayingV, Seq<char>>(s))
        }),
    decreases k,
{
    if k > 0 {
        lemma_sweeps_progress(p, st, (k - 1) as nat);
        let s = sweeps(p, st, (k - 1) as nat)->Ok_0;
        lemma_sweep_progress(p, s, p.classes.len());
    }
}

proof fn lemma_sweep_idle(p: PlanV, st: LayingV, n: nat)
    requires
        n <= st.built.len(),
        forall|i: int| 0 <= i < st.built.len() ==> (#[trigger] st.built[i]) is Some,
    ensures
        sweep(p, st, n) == Ok::<LayingV, Seq<char>>(st),
    decreases n,
{
    if n > 0 {
        lemma_sweep_idle(p, st, (n - 1) as nat);
        assert(st.built[n - 1] is Some);
    }
}

/// After as many sweeps as there are classes another changes nothing: every class
/// that can be laid out after its base has been.
pub proof fn sweeps_settle(p: PlanV, statics: Seq<ValueV>)
    requires
        sweeps(
            p,
            LayingV { built: unlaid(p.classes.len()), statics },
            p.classes.len(),
        ) is Ok,
    ensures
        ({
            let s = sweeps(
                p,
                LayingV { built: unlaid(p.classes.len()), statics },
                p.classes.len(),
            )->Ok_0;
            sweep(p, s, p.classes.len()) == Ok::<LayingV, Seq<char>>(s)
        }),
{
    let n = p.classes.len();
    let start = LayingV { built: unlaid(n), statics };
    let s = sweeps(p, start, n)->Ok_0;
    lemma_sweeps_progress(p, start, n);
    lemma_missing_all(n);
    if missing(s.built) == 0 {
        assert forall|i: int| 0 <= i < s.built.len() implies (#[trigger] s.built[i]) is Some by {
            if s.built[i] is None {
                lemma_missing_zero(s.built, i);
            }
        }
        lemma_sweep_idle(p, s, n);
    }
}

// ---- aliases that mean the same everywhere ------------------------------------------------------

proof fn lemma_removed_lookup<V>(s: Seq<(Seq<char>, V)>, name: Seq<char>, other: Seq<char>)
    requires
        distinct(s),
    ensures
        lookup(removed(s, name), other) == (if other == name {
            None
        } else {
            lookup(s, other)
        }),
    decreases s.len(),
{
    if s.len() > 0 {
        let rest = s.drop_first();
        let t = removed(s, name);
        assert(distinct(rest)) by {
            assert forall|i: int, j: int|
                0 <= i < rest.len() && 0 <= j < rest.len() && i != j implies (#[trigger] rest[i]).0
                != (#[trigger] rest[j]).0 by {
                assert(s[i + 1].0 != s[j + 1].0);
            }
        }
        if s[0].0 == name {
            assert(t =~= rest);
            lemma_absent(rest, name);
        } else {
            lemma_removed_lookup(rest, name, other);
            assert(t.drop_first() =~= removed(rest, name));
        }
    }
}

proof fn lemma_absent<V>(rest: Seq<(Seq<char>, V)>, name: Seq<char>)
    requires
        forall|i: int| 0 <= i < rest.len() ==> (#[trigger] rest[i]).0 != name,
    ensures
        lookup(rest, name) is None,
    decreases rest.len(),
{
    if rest.len() > 0 {
        let tail = rest.drop_first();
        assert forall|i: int| 0 <= i < tail.len() implies (#[trigger] tail[i]).0 != name by {
            assert(rest[i + 1].0 != name);
        }
        assert(rest[0].0 != name);
        lemma_absent(tail, name);
    }
}

proof fn lemma_removed_distinct<V>(s: Seq<(Seq<char>, V)>, name: Seq<char>)
    requires
        distinct(s),
    ensures
        distinct(removed(s, name)),
        forall|i: int|
            0 <= i < removed(s, name).len() ==> exists|j: int|
                0 <= j < s.len() && s[j] == #[trigger] removed(s, name)[i],
    decreases s.len(),
{
    let t = removed(s, name);
    if s.len() > 0 {
        let rest = s.drop_first();
        assert(distinct(rest)) by {
            assert forall|i: int, j: int|
                0 <= i < rest.len() && 0 <= j < rest.len() && i != j implies (#[trigger] rest[i]).0
                != (#[trigger] rest[j]).0 by {
                assert(s[i + 1].0 != s[j + 1].0);
            }
        }
        if s[0].0 == name {
            assert(t =~= rest);
            assert forall|i: int| 0 <= i < t.len() implies exists|j: int|
                0 <= j < s.len() && s[j] == #[trigger] t[i] by {
                assert(s[i + 1] == t[i]);
            }
        } else {
            lemma_removed_distinct(rest, name);
            let u = removed(rest, name);
            assert forall|i: int| 0 <= i < t.len() implies exists|j: int|
                0 <= j < s.len() && s[j] == #[trigger] t[i] by {
                if i == 0 {
                    assert(s[0] == t[0]);
                } else {
                    assert(t[i] == u[i - 1]);
                    let j = choose|j: int| 0 <= j < rest.len() && rest[j] == u[i - 1];
                    assert(s[j + 1] == t[i]);
                }
            }
            assert forall|i: int, j: int|
                0 <= i < t.len() && 0 <= j < t.len() && i != j implies (#[trigger] t[i]).0 != (
            #[trigger] t[j]).0 by {
                if i > 0 && j > 0 {
                    assert(t[i] == u[i - 1]);
                    assert(t[j] == u[j - 1]);
                } else {
                    let k = if i == 0 {
                        j
                    } else {
                        i
                    };
                    assert(t[k] == u[k - 1]);
                    let m = choose|m: int| 0 <= m < rest.len() && rest[m] == u[k - 1];
                    assert(s[m + 1].0 != s[0].0);
                }
            }
        }
    }
}

/// Whether an alias stands in a list with a meaning.
pub open spec fn says<V>(s: Seq<(Seq<char>, V)>, alias: Seq<char>, v: V) -> bool {
    exists|i: int| 0 <= i < s.len() && #[trigger] s[i] == (alias, v)
}

/// Whether an alias has one meaning in a list.
pub open spec fn unanimous<V>(s: Seq<(Seq<char>, V)>, alias: Seq<char>) -> bool {
    forall|i: int, j: int|
        0 <= i < s.len() && 0 <= j < s.len() && (#[trigger] s[i]).0 == alias && (#[trigger] s[j]).0
            == alias ==> s[i].1 == s[j].1
}

/// No alias.
pub open spec fn nothing_agreed<V>() -> Agreed<V> {
    Agreed { one: Seq::empty(), several: Seq::empty() }
}

proof fn lemma_agreed<V>(s: Seq<(Seq<char>, V)>, alias: Seq<char>)
    ensures
        distinct(agree_all(nothing_agreed(), s).one),
        lookup(agree_all(nothing_agreed(), s).several, alias) is Some <==> !unanimous(s, alias),
        forall|v: V|
            lookup(agree_all(nothing_agreed(), s).one, alias) == Some(v) <==> (#[trigger] says(
                s,
                alias,
                v,
            ) && unanimous(s, alias)),
    decreases s.len(),
{
    let r = agree_all(nothing_agreed::<V>(), s);
    if s.len() == 0 {
        assert(lookup(r.one, alias) is None);
    } else {
        let before = s.drop_last();
        let (name, v) = s.last();
        let a = agree_all(nothing_agreed::<V>(), before);
        lemma_agreed(before, alias);
        lemma_agreed(before, name);
        put_keeps_distinct(a.one, name, v);
        put_then_lookup(a.one, name, v, alias);
        put_then_lookup(a.several, name, (), alias);
        lemma_removed_lookup(a.one, name, alias);
        lemma_removed_distinct(a.one, name);
        assert(unanimous(s, alias) ==> unanimous(before, alias)) by {
            if unanimous(s, alias) {
                assert forall|i: int, j: int|
                    0 <= i < before.len() && 0 <= j < before.len() && (#[trigger] before[i]).0
                        == alias && (#[trigger] before[j]).0 == alias implies before[i].1
                    == before[j].1 by {
                    assert(s[i].0 == alias && s[j].0 == alias);
                }
            }
        }
        if alias != name {
            assert(unanimous(before, alias) ==> unanimous(s, alias)) by {
                if unanimous(before, alias) {
                    assert forall|i: int, j: int|
                        0 <= i < s.len() && 0 <= j < s.len() && (#[trigger] s[i]).0 == alias && (
                        #[trigger] s[j]).0 == alias implies s[i].1 == s[j].1 by {
                        assert(before[i].0 == alias && before[j].0 == alias);
                    }
                }
            }
            assert forall|w: V| #[trigger] says(s, alias, w) == says(before, alias, w) by {
                if says(s, alias, w) {
                    let i = choose|i: int| 0 <= i < s.len() && #[trigger] s[i] == (alias, w);
                    assert(before[i] == (alias, w));
                }
                if says(before, alias, w) {
                    let i = choose|i: int|
                        0 <= i < before.len() && #[trigger] before[i] == (alias, w);
                    assert(s[i] == (alias, w));
                }
            }
        } else {
            assert(says(s, alias, v)) by {
                assert(s[s.len() - 1] == (alias, v));
            }
            assert forall|w: V| says(before, alias, w) implies #[trigger] says(s, alias, w) by {
                let i = choose|i: int| 0 <= i < before.len() && #[trigger] before[i] == (alias, w);
                assert(s[i] == (alias, w));
            }
            assert forall|w: V| w != v && #[trigger] says(s, alias, w) implies says(
                before,
                alias,
                w,
            ) by {
                let i = choose|i: int| 0 <= i < s.len() && #[trigger] s[i] == (alias, w);
                assert(before[i] == (alias, w));
            }
            if unanimous(before, alias) {
                match lookup(a.one, alias) {
                    Some(w) => {
                        assert(says(before, alias, w));
                        let i = choose|i: int|
                            0 <= i < before.len() && #[trigger] before[i] == (alias, w);
                        assert(s[i] == (alias, w));
                        if w == v {
                            assert(unanimous(s, alias)) by {
                                assert forall|j: int, k: int|
                                    0 <= j < s.len() && 0 <= k < s.len() && (#[trigger] s[j]).0
                                        == alias && (#[trigger] s[k]).0 == alias implies s[j].1
                                    == s[k].1 by {
                                    if j < before.len() {
                                        assert(before[j].0 == alias && before[i].0 == alias);
                                    }
                                    if k < before.len() {
                                        assert(before[k].0 == alias && before[i].0 == alias);
                                    }
                                }
                            }
                        } else {
                            assert(s[i].0 == alias && s[s.len() - 1].0 == alias);
                            assert(!unanimous(s, alias));
                        }
                    },
                    None => {
                        assert forall|j: int| 0 <= j < before.len() implies (#[trigger] before[j]).0
                            != alias by {
                            if before[j].0 == alias {
                                assert(says(before, alias, before[j].1));
                            }
                        }
                        assert(unanimous(s, alias)) by {
                            assert forall|j: int, k: int|
                                0 <= j < s.len() && 0 <= k < s.len() && (#[trigger] s[j]).0 == alias
                                    && (#[trigger] s[k]).0 == alias implies s[j].1 == s[k].1 by {
                                if j < before.len() {
                                    assert(before[j].0 != alias);
                                }
                                if k < before.len() {
                                    assert(before[k].0 != alias);
                                }
                            }
                        }
                    },
                }
            } else {
                assert(!unanimous(s, alias));
            }
            assert forall|w: V| unanimous(s, alias) && #[trigger] says(s, alias, w) implies w
                == v by {
                let i = choose|i: int| 0 <= i < s.len() && #[trigger] s[i] == (alias, w);
                assert(s[i].0 == alias && s[s.len() - 1].0 == alias);
            }
        }
        if lookup(a.one, alias) is Some {
            assert(says(before, alias, lookup(a.one, alias)->0));
        }
        assert forall|w: V|
            lookup(r.one, alias) == Some(w) <==> (#[trigger] says(s, alias, w) && unanimous(
                s,
                alias,
            )) by {
            assert(lookup(a.one, alias) == Some(w) <==> says(before, alias, w) && unanimous(
                before,
                alias,
            ));
        }
    }
}

/// The aliases of all classes in one list.
pub open spec fn all_aliases<V>(classes: Seq<Seq<(Seq<char>, V)>>) -> Seq<(Seq<char>, V)>
    decreases classes.len(),
{
    if classes.len() == 0 {
        Seq::empty()
    } else {
        all_aliases(classes.drop_last()) + classes.last()
    }
}

proof fn lemma_agree_join<V>(a: Agreed<V>, s: Seq<(Seq<char>, V)>, t: Seq<(Seq<char>, V)>)
    ensures
        agree_all(agree_all(a, s), t) == agree_all(a, s + t),
    decreases t.len(),
{
    if t.len() == 0 {
        assert(s + t =~= s);
    } else {
        lemma_agree_join(a, s, t.drop_last());
        assert((s + t).drop_last() =~= s + t.drop_last());
    }
}

proof fn lemma_agreed_flat<V>(classes: Seq<Seq<(Seq<char>, V)>>)
    ensures
        agreed(classes) == agree_all(nothing_agreed(), all_aliases(classes)),
    decreases classes.len(),
{
    if classes.len() > 0 {
        lemma_agreed_flat(classes.drop_last());
        lemma_agree_join(nothing_agreed(), all_aliases(classes.drop_last()), classes.last());
    }
}

/// An alias has a meaning outside the classes that declare it exactly if all of
/// them give it that meaning.
pub proof fn shared_alias_is_unanimous<V>(
    classes: Seq<Seq<(Seq<char>, V)>>,
    alias: Seq<char>,
    v: V,
)
    ensures
        lookup(agreed(classes).one, alias) == Some(v) <==> says(all_aliases(classes), alias, v)
            && unanimous(all_aliases(classes), alias),
{
    lemma_agreed_flat(classes);
    lemma_agreed(all_aliases(classes), alias);
    assert(says(all_aliases(classes), alias, v) == says(all_aliases(classes), alias, v));
}

} // verus!
