//! Laws of gathering and numbering: which declaration a name means, and what each callable and
//! class becomes.
use vstd::prelude::*;

use crate::ast::CollKind;
use crate::ast_model::{ClassDeclV, FuncDeclV, ModuleItemV};
use crate::compile::{class_def, collection_slots, event_slots, qualified, with_job, CompiledV};
use crate::const_fold::Consts;
use crate::gather::{
    free_functions, has_number, last_method, member_names, member_number, merged, with_body,
    with_item, GatheredV,
};
use crate::gen_program::{callable_code, foreign_code, stub_code};
use crate::ir::ProgramV;
use crate::layout::{ClassInfoV, CollInfo, EnvV};
use crate::numbering::{alias_numbers, class_jobs, class_numbers, func_numbers, JobV};
use crate::table::{lookup, put_new, put_then_lookup, removed_then_lookup};

verus! {

/// A name that is new is given, one that is there keeps what it has.
pub proof fn put_new_then_lookup<V>(
    s: Seq<(Seq<char>, V)>,
    name: Seq<char>,
    v: V,
    other: Seq<char>,
)
    ensures
        lookup(put_new(s, name, v), other) == (if other == name && lookup(s, name) is None {
            Some(v)
        } else {
            lookup(s, other)
        }),
    decreases s.len(),
{
    if lookup(s, name) is None {
        let t = s.push((name, v));
        if s.len() == 0 {
            assert(t.drop_first() =~= Seq::<(Seq<char>, V)>::empty());
            assert(t[0] == (name, v));
            assert(lookup(t.drop_first(), other) is None);
        } else {
            put_new_then_lookup(s.drop_first(), name, v, other);
            assert(t.drop_first() =~= s.drop_first().push((name, v)));
            assert(t[0] == s[0]);
        }
    }
}

// ---- numbers ------------------------------------------------------------------------------

/// The number of a class name is the place of the first class of that name.
pub proof fn class_names_mean_the_first(classes: Seq<ClassDeclV>, name: Seq<char>)
    requires
        classes.len() <= u32::MAX,
    ensures
        match lookup(class_numbers(classes), name) {
            Some(i) => i < classes.len() && classes[i as int].name == name && forall|j: int|
                0 <= j < i ==> (#[trigger] classes[j]).name != name,
            None => forall|j: int| 0 <= j < classes.len() ==> (#[trigger] classes[j]).name != name,
        },
    decreases classes.len(),
{
    if classes.len() > 0 {
        let front = classes.drop_last();
        class_names_mean_the_first(front, name);
        put_new_then_lookup(
            class_numbers(front),
            classes.last().name,
            (classes.len() - 1) as u32,
            name,
        );
        match lookup(class_numbers(front), name) {
            Some(i) => {
                assert(front[i as int] == classes[i as int]);
                assert forall|j: int| 0 <= j < i implies (#[trigger] classes[j]).name != name by {
                    assert(front[j] == classes[j]);
                }
            },
            None => {
                assert forall|j: int| 0 <= j < front.len() implies (#[trigger] classes[j]).name
                    != name by {
                    assert(front[j] == classes[j]);
                }
            },
        }
    }
}

/// The number of a function name is the place of the first function of that name.
pub proof fn function_names_mean_the_first(funcs: Seq<FuncDeclV>, name: Seq<char>)
    requires
        funcs.len() <= u32::MAX,
    ensures
        match lookup(func_numbers(funcs), name) {
            Some(i) => i < funcs.len() && funcs[i as int].name == name && forall|j: int|
                0 <= j < i ==> (#[trigger] funcs[j]).name != name,
            None => forall|j: int| 0 <= j < funcs.len() ==> (#[trigger] funcs[j]).name != name,
        },
    decreases funcs.len(),
{
    if funcs.len() > 0 {
        let front = funcs.drop_last();
        function_names_mean_the_first(front, name);
        put_new_then_lookup(
            func_numbers(front),
            funcs.last().name,
            (funcs.len() - 1) as u32,
            name,
        );
        match lookup(func_numbers(front), name) {
            Some(i) => {
                assert(front[i as int] == funcs[i as int]);
                assert forall|j: int| 0 <= j < i implies (#[trigger] funcs[j]).name != name by {
                    assert(front[j] == funcs[j]);
                }
            },
            None => {
                assert forall|j: int| 0 <= j < front.len() implies (#[trigger] funcs[j]).name
                    != name by {
                    assert(front[j] == funcs[j]);
                }
            },
        }
    }
}

/// An alias means the class that its last declaration names; another alias is not touched.
pub proof fn aliases_mean_their_last_target(
    aliases: Seq<(Seq<char>, Seq<char>)>,
    last: (Seq<char>, Seq<char>),
    ids: Seq<(Seq<char>, u32)>,
    other: Seq<char>,
)
    ensures
        other != last.0 ==> lookup(alias_numbers(aliases.push(last), ids), other) == lookup(
            alias_numbers(aliases, ids),
            other,
        ),
        lookup(ids, last.1) is Some ==> lookup(alias_numbers(aliases.push(last), ids), last.0)
            == lookup(ids, last.1),
{
    let all = aliases.push(last);
    assert(all.drop_last() =~= aliases);
    let before = alias_numbers(aliases, ids);
    match lookup(ids, last.1) {
        Some(cid) => {
            put_then_lookup(before, last.0, cid, other);
            put_then_lookup(before, last.0, cid, last.0);
        },
        None => removed_then_lookup(before, last.0, other),
    }
}

/// The callables of a class are its methods in order and then its constructor.
pub proof fn class_callables_are_in_order(c: ClassDeclV, cid: u32, i: int)
    requires
        0 <= i < c.methods.len(),
    ensures
        class_jobs(c, cid)[i].0 == c.methods[i],
        class_jobs(c, cid)[i].1 == Some(cid),
        class_jobs(c, cid).len() == c.methods.len() + (if c.constructor is Some {
            1nat
        } else {
            0nat
        }),
        c.constructor matches Some(ctor) ==> class_jobs(c, cid).last() == (ctor, Some(cid)),
{
}

// ---- what is gathered ------------------------------------------------------------------------

/// Gathering keeps classes, functions and aliases in order; a variable counts where it
/// stands in a package; the first constant and the first enumeration of a name count.
pub proof fn items_are_gathered(g: GatheredV, in_package: bool, i: ModuleItemV, name: Seq<char>)
    ensures
        ({
            let h = with_item(g, in_package, i);
            &&& i matches ModuleItemV::Class(c) ==> h.classes == g.classes.push(*c) && h.funcs
                == g.funcs && h.vars == g.vars
            &&& i matches ModuleItemV::Func(f) ==> h.funcs == g.funcs.push(f) && h.classes
                == g.classes && h.vars == g.vars
            &&& i matches ModuleItemV::Var(v) ==> h.vars == (if in_package {
                g.vars.push(v)
            } else {
                g.vars
            }) && h.classes == g.classes && h.funcs == g.funcs
            &&& i matches ModuleItemV::TypeAlias(a) ==> h.aliases == g.aliases.push(a)
            &&& i matches ModuleItemV::EnumConst { name: n, value } ==> lookup(h.consts, name) == (
            if name == n && lookup(g.consts, n) is None {
                Some(value)
            } else {
                lookup(g.consts, name)
            })
            &&& !(i is EnumConst) ==> h.consts == g.consts
        }),
{
    if let ModuleItemV::EnumConst { name: n, value } = i {
        put_new_then_lookup(g.consts, n, value, name);
    }
}

/// Of the members of an enumeration with the same number the first gives its name, and each
/// number that a member has gives a name.
pub proof fn numbers_are_named_by_their_first_member(members: Consts, k: int)
    requires
        0 <= k < members.len(),
    ensures
        has_number(member_names(members), member_number(members[k].1)),
        (forall|j: int|
            0 <= j < k ==> member_number((#[trigger] members[j]).1) != member_number(members[k].1))
            ==> member_names(members).contains((member_number(members[k].1), members[k].0)),
    decreases members.len(),
{
    let front = members.drop_last();
    let before = member_names(front);
    let n = member_number(members.last().1);
    let all = member_names(members);
    if k < front.len() {
        assert(front[k] == members[k]);
        numbers_are_named_by_their_first_member(front, k);
        let i = choose|i: int| 0 <= i < before.len() && (#[trigger] before[i]).0 == member_number(
            members[k].1,
        );
        assert(all[i] == before[i]);
        if forall|j: int|
            0 <= j < k ==> member_number((#[trigger] members[j]).1) != member_number(members[k].1) {
            assert forall|j: int| 0 <= j < k implies member_number((#[trigger] front[j]).1)
                != member_number(front[k].1) by {
                assert(front[j] == members[j]);
            }
            let e = (member_number(members[k].1), members[k].0);
            let q = choose|q: int| 0 <= q < before.len() && before[q] == e;
            assert(all[q] == e);
        }
    } else {
        lemma_named_members(front, n);
        if !has_number(before, n) {
            assert(all[all.len() - 1] == (n, members.last().0));
        } else if forall|j: int|
            0 <= j < k ==> member_number((#[trigger] members[j]).1) != member_number(members[k].1) {
            let j = choose|j: int| 0 <= j < front.len() && member_number((#[trigger] front[j]).1) == n;
            assert(front[j] == members[j]);
            assert(member_number(members[j].1) == n);
        }
    }
}

proof fn lemma_named_members(members: Consts, n: i64)
    ensures
        has_number(member_names(members), n) ==> exists|j: int|
            0 <= j < members.len() && member_number((#[trigger] members[j]).1) == n,
    decreases members.len(),
{
    if members.len() > 0 {
        let front = members.drop_last();
        let before = member_names(front);
        lemma_named_members(front, n);
        if has_number(member_names(members), n) {
            let i = choose|i: int|
                0 <= i < member_names(members).len() && (#[trigger] member_names(members)[i]).0 == n;
            if i < before.len() {
                assert(before[i].0 == n);
                let j = choose|j: int|
                    0 <= j < front.len() && member_number((#[trigger] front[j]).1) == n;
                assert(front[j] == members[j]);
                assert(member_number(members[j].1) == n);
            } else {
                assert(member_number(members[members.len() - 1].1) == n);
            }
        }
    }
}

/// A body that is defined outside its class replaces the last method of its name there, or
/// is added where there is none; the method is virtual where the body or the prototype says
/// so. One called `new` is the constructor. No other member changes.
pub proof fn outside_bodies_fill_their_prototype(c: ClassDeclV, f: FuncDeclV, i: int)
    requires
        0 <= i < c.methods.len(),
    ensures
        ({
            let d = with_body(c, f);
            &&& f.name == "new"@ ==> d.constructor == Some(f) && d.methods == c.methods
            &&& f.name != "new"@ ==> d.constructor == c.constructor
            &&& f.name != "new"@ && c.methods[i].name != f.name ==> d.methods[i] == c.methods[i]
            &&& f.name != "new"@ && c.methods[i].name == f.name && (forall|j: int|
                i < j < c.methods.len() ==> (#[trigger] c.methods[j]).name != f.name) ==> {
                &&& d.methods.len() == c.methods.len()
                &&& d.methods[i].name == f.name
                &&& d.methods[i].body == f.body
                &&& d.methods[i].params == f.params
                &&& d.methods[i].is_virtual <==> f.is_virtual || c.methods[i].is_virtual
            }
            &&& d.fields == c.fields && d.base == c.base && d.name == c.name
        }),
{
    lemma_last_method(c.methods, f.name);
}

proof fn lemma_last_method(methods: Seq<FuncDeclV>, name: Seq<char>)
    ensures
        ({
            let i = last_method(methods, name);
            &&& -1 <= i < methods.len()
            &&& i >= 0 ==> methods[i].name == name
            &&& forall|j: int| i < j < methods.len() ==> (#[trigger] methods[j]).name != name
        }),
    decreases methods.len(),
{
    if methods.len() > 0 && methods.last().name != name {
        let front = methods.drop_last();
        lemma_last_method(front, name);
        let i = last_method(methods, name);
        assert forall|j: int| i < j < methods.len() implies (#[trigger] methods[j]).name != name by {
            if j < front.len() {
                assert(front[j] == methods[j]);
            }
        }
    }
}

/// A function is free exactly if it is not defined for a class, and the free functions keep
/// their order; a class takes only the bodies that are defined for it.
pub proof fn functions_belong_where_they_are_defined(
    c: ClassDeclV,
    funcs: Seq<FuncDeclV>,
    last: FuncDeclV,
)
    ensures
        free_functions(funcs.push(last)) == (if last.class_scope is None {
            free_functions(funcs).push(last)
        } else {
            free_functions(funcs)
        }),
        last.class_scope != Some(c.name) ==> merged(c, funcs.push(last)) == merged(c, funcs),
        last.class_scope == Some(c.name) ==> merged(c, funcs.push(last)) == with_body(
            merged(c, funcs),
            last,
        ),
{
    assert(funcs.push(last).drop_last() =~= funcs);
}

// ---- what is compiled --------------------------------------------------------------------------

/// A callable becomes its own program; an imported one the call of its symbol; one that
/// cannot be compiled a stub, which is reported under its name. Each adds one program.
pub proof fn callables_become_programs(env: EnvV, c: CompiledV, job: JobV)
    requires
        with_job(env, c, job) is Ok,
    ensures
        ({
            let d = with_job(env, c, job)->Ok_0;
            let p = d.funcs.last();
            &&& d.funcs == c.funcs.push(p)
            &&& job.0.dpi_name matches Some(symbol) ==> foreign_code(job.0, symbol) == Ok::<
                ProgramV,
                Seq<char>,
            >(p) && d.stubs == c.stubs
            &&& job.0.dpi_name is None && callable_code(env, job.0, job.1) is Ok ==> callable_code(
                env,
                job.0,
                job.1,
            ) == Ok::<ProgramV, Seq<char>>(p) && d.stubs == c.stubs
            &&& job.0.dpi_name is None && callable_code(env, job.0, job.1) is Err ==> {
                &&& stub_code(job.0, job.1 is Some) == Ok::<ProgramV, Seq<char>>(p)
                &&& d.stubs.len() == c.stubs.len() + 1
                &&& d.stubs.last().callable == qualified(env, job)
            }
        }),
{
}

/// The slots of a class that hold collections, events and structures are those of its
/// fields that are: a collection slot says whether it is associative.
pub proof fn special_slots_are_those_of_the_fields(
    classes: Seq<ClassInfoV>,
    c: ClassInfoV,
    i: int,
)
    ensures
        0 <= i < c.field_coll.len() && lookup(c.field_slot, c.field_coll[i].0) is Some
            ==> class_def(classes, c).coll_fields.contains(
            (
                (lookup(c.field_slot, c.field_coll[i].0)->0).0,
                c.field_coll[i].1.kind == CollKind::Assoc,
            ),
        ),
        0 <= i < c.field_events.len() && lookup(c.field_slot, c.field_events[i].0) is Some
            ==> class_def(classes, c).event_fields.contains(
            (lookup(c.field_slot, c.field_events[i].0)->0).0,
        ),
        class_def(classes, c).vtable == c.vtable,
        class_def(classes, c).base == c.base,
        class_def(classes, c).name == c.name,
        class_def(classes, c).field_defaults == c.field_defaults,
{
    if 0 <= i < c.field_coll.len() && lookup(c.field_slot, c.field_coll[i].0) is Some {
        lemma_coll_slot(c.field_slot, c.field_coll, i);
    }
    if 0 <= i < c.field_events.len() && lookup(c.field_slot, c.field_events[i].0) is Some {
        lemma_event_slot(c.field_slot, c.field_events, i);
    }
}

proof fn lemma_coll_slot(
    slots: Seq<(Seq<char>, (u32, u32))>,
    fields: Seq<(Seq<char>, CollInfo)>,
    i: int,
)
    requires
        0 <= i < fields.len(),
        lookup(slots, fields[i].0) is Some,
    ensures
        collection_slots(slots, fields).contains(
            ((lookup(slots, fields[i].0)->0).0, fields[i].1.kind == CollKind::Assoc),
        ),
    decreases fields.len(),
{
    let front = fields.drop_last();
    let before = collection_slots(slots, front);
    let all = collection_slots(slots, fields);
    let e = ((lookup(slots, fields[i].0)->0).0, fields[i].1.kind == CollKind::Assoc);
    if i < front.len() {
        assert(front[i] == fields[i]);
        lemma_coll_slot(slots, front, i);
        let k = choose|k: int| 0 <= k < before.len() && before[k] == e;
        assert(all[k] == e);
    } else {
        assert(all[all.len() - 1] == e);
    }
}

proof fn lemma_event_slot(
    slots: Seq<(Seq<char>, (u32, u32))>,
    fields: Seq<(Seq<char>, ())>,
    i: int,
)
    requires
        0 <= i < fields.len(),
        lookup(slots, fields[i].0) is Some,
    ensures
        event_slots(slots, fields).contains((lookup(slots, fields[i].0)->0).0),
    decreases fields.len(),
{
    let front = fields.drop_last();
    let before = event_slots(slots, front);
    let all = event_slots(slots, fields);
    let e = (lookup(slots, fields[i].0)->0).0;
    if i < front.len() {
        assert(front[i] == fields[i]);
        lemma_event_slot(slots, front, i);
        let k = choose|k: int| 0 <= k < before.len() && before[k] == e;
        assert(all[k] == e);
    } else {
        assert(all[all.len() - 1] == e);
    }
}

} // verus!
