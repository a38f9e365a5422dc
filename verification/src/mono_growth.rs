//! How the list of concrete classes grows.
use vstd::prelude::*;

use crate::ast_model::{ClassDeclV, CollectionAliasV, TypeAliasV, VarDeclV};
use crate::mangle::{
    counted_name, counted_names_tell_arguments, joined, lead, lemma_counted_lead, lemma_joined_lead,
};
use crate::mono_model::{
    class_built, class_position, declares, free_name, most_lead, origin, origin_position, recorded,
    specialized_ctx, stub_class, subst_of, template_named, EntryV, Env, OriginV,
};

verus! {

/// Whether classes have names of their own.
pub open spec fn names_differ(s: Seq<EntryV>) -> bool {
    forall|i: int, j: int|
        0 <= i < s.len() && 0 <= j < s.len() && i != j ==> (#[trigger] s[i]).class.name != (
        #[trigger] s[j]).class.name
}

/// Whether no two specializations are of the same template and arguments.
pub open spec fn origins_differ(s: Seq<EntryV>) -> bool {
    forall|i: int, j: int|
        0 <= i < s.len() && 0 <= j < s.len() && i != j && (#[trigger] s[i]).origin is Some
            ==> s[i].origin != (#[trigger] s[j]).origin
}

/// Whether no class type of a field, and no type that a class names, has arguments
/// left.
pub open spec fn types_closed(
    fields: Seq<VarDeclV>,
    aliases: Seq<TypeAliasV>,
    collections: Seq<CollectionAliasV>,
) -> bool {
    &&& forall|i: int|
        0 <= i < fields.len() ==> ((#[trigger] fields[i]).class_name is Some
            ==> fields[i].type_args.len() == 0)
    &&& forall|i: int| 0 <= i < aliases.len() ==> (#[trigger] aliases[i]).target.args.len() == 0
    &&& forall|i: int|
        0 <= i < collections.len() ==> ((#[trigger] collections[i]).element matches Some(t)
            ==> t.args.len() == 0) && (collections[i].key matches Some(t) ==> t.args.len() == 0)
}

/// Whether a class has no parameters, no open base, and no open type in its fields
/// and aliases.
pub open spec fn concrete(c: ClassDeclV) -> bool {
    c.params.len() == 0 && c.base_args.len() == 0 && types_closed(
        c.fields,
        c.type_aliases,
        c.collection_aliases,
    )
}

/// Whether a class has the name that is due to it: a declared one, or for a
/// specialization one that no declared class has.
pub open spec fn named_well(classes: Seq<ClassDeclV>, e: EntryV) -> bool {
    match e.origin {
        None => declares(classes, e.class.name),
        Some(o) => declares(classes, o.base) && !declares(classes, e.class.name) && (e.class.name
            == joined(o.base, o.parts) || e.class.name == counted_name(
            most_lead(classes) + 1,
            o.base,
            o.parts,
        )),
    }
}

/// Whether each class has a name of its own and each specialization is there once.
pub open spec fn sound(classes: Seq<ClassDeclV>, s: Seq<EntryV>) -> bool {
    &&& names_differ(s)
    &&& origins_differ(s)
    &&& forall|i: int| 0 <= i < s.len() ==> named_well(classes, #[trigger] s[i])
}

/// Whether every class of one list is in its place in a later one, with its name and
/// its origin.
pub open spec fn extends(a: Seq<EntryV>, b: Seq<EntryV>) -> bool {
    &&& a.len() <= b.len()
    &&& forall|i: int|
        0 <= i < a.len() ==> (#[trigger] b[i]).class.name == a[i].class.name && b[i].origin
            == a[i].origin
}

/// Whether a class is a copy of the template of its origin, with the arguments put in
/// for the parameters; what that added is in the list.
pub open spec fn copied(
    d: nat,
    env: Env,
    args: Seq<Seq<char>>,
    held: Seq<EntryV>,
    out: Seq<EntryV>,
    o: OriginV,
    c: ClassDeclV,
) -> bool {
    &&& template_named(env.classes, o.base) is Some
    &&& o == origin(template_named(env.classes, o.base)->0, args)
    &&& class_built(
        subst_of(d, env, specialized_ctx(template_named(env.classes, o.base)->0, args)),
        held,
        template_named(env.classes, o.base)->0,
        c.name,
    ) matches Some((next, b)) && b == c && extends(next, out)
}

/// Whether a class that is a specialization is a copy of its template.
pub open spec fn built_from(env: Env, out: Seq<EntryV>, e: EntryV) -> bool {
    match e.origin {
        None => true,
        Some(o) => exists|d: nat, args: Seq<Seq<char>>, held: Seq<EntryV>|
            #[trigger] copied(d, env, args, held, out, o, e.class),
    }
}

/// Whether classes were only added, each concrete, under a name of its own, and a copy
/// of its template.
#[verifier::opaque]
pub open spec fn grew(env: Env, a: Seq<EntryV>, b: Seq<EntryV>) -> bool {
    &&& a.len() <= b.len()
    &&& b.take(a.len() as int) == a
    &&& forall|i: int|
        a.len() <= i < b.len() ==> concrete((#[trigger] b[i]).class) && built_from(env, b, b[i])
    &&& sound(env.classes, a) ==> sound(env.classes, b)
}

/// A list that only grew extends the one before.
pub proof fn lemma_grew_extends(env: Env, a: Seq<EntryV>, b: Seq<EntryV>)
    requires
        grew(env, a, b),
    ensures
        extends(a, b),
{
    reveal(grew);
    assert forall|i: int| 0 <= i < a.len() implies #[trigger] b[i] == a[i] by {
        assert(b.take(a.len() as int)[i] == b[i]);
    }
}

/// What extends a list that extends another extends that.
pub proof fn lemma_extends_chain(a: Seq<EntryV>, b: Seq<EntryV>, c: Seq<EntryV>)
    requires
        extends(a, b),
        extends(b, c),
    ensures
        extends(a, c),
{
    assert forall|i: int| 0 <= i < a.len() implies (#[trigger] c[i]).class.name == a[i].class.name
        && c[i].origin == a[i].origin by {
        assert(b[i].class.name == a[i].class.name);
    }
}

/// A copy of a template stays one in a later list.
pub proof fn lemma_built_later(env: Env, a: Seq<EntryV>, b: Seq<EntryV>, e: EntryV)
    requires
        built_from(env, a, e),
        extends(a, b),
    ensures
        built_from(env, b, e),
{
    if let Some(o) = e.origin {
        let (d, args, held) = choose|d: nat, args: Seq<Seq<char>>, held: Seq<EntryV>|
            #[trigger] copied(d, env, args, held, a, o, e.class);
        let t = template_named(env.classes, o.base)->0;
        let next = (class_built(
            subst_of(d, env, specialized_ctx(t, args)),
            held,
            t,
            e.class.name,
        )->0).0;
        lemma_extends_chain(next, a, b);
        assert(copied(d, env, args, held, b, o, e.class));
    }
}

/// Nothing added.
pub proof fn lemma_grew_same(env: Env, a: Seq<EntryV>)
    ensures
        grew(env, a, a),
{
    reveal(grew);
    assert(a.take(a.len() as int) =~= a);
}

/// Adding twice is adding.
pub broadcast proof fn lemma_grew_chain(
    env: Env,
    a: Seq<EntryV>,
    b: Seq<EntryV>,
    c: Seq<EntryV>,
)
    requires
        #[trigger] grew(env, a, b),
        #[trigger] grew(env, b, c),
    ensures
        grew(env, a, c),
{
    lemma_grew_extends(env, b, c);
    reveal(grew);
    assert(c.take(a.len() as int) =~= c.take(b.len() as int).take(a.len() as int));
    assert forall|i: int| a.len() <= i < c.len() implies concrete((#[trigger] c[i]).class)
        && built_from(env, c, c[i]) by {
        if i < b.len() {
            assert(c.take(b.len() as int)[i] == c[i]);
            assert(concrete(b[i].class));
            lemma_built_later(env, b, c, b[i]);
        }
    }
}

/// Where the first class with a name is.
pub proof fn lemma_position(s: Seq<EntryV>, name: Seq<char>)
    ensures
        class_position(s, name) <= s.len(),
        class_position(s, name) < s.len() ==> s[class_position(s, name) as int].class.name == name,
        class_position(s, name) == s.len() ==> forall|i: int|
            0 <= i < s.len() ==> (#[trigger] s[i]).class.name != name,
    decreases s.len(),
{
    reveal_with_fuel(class_position, 2);
    if s.len() > 0 && s[0].class.name != name {
        lemma_position(s.drop_first(), name);
        let p = class_position(s.drop_first(), name);
        if p == s.drop_first().len() {
            assert forall|i: int| 0 <= i < s.len() implies (#[trigger] s[i]).class.name != name by {
                if i > 0 {
                    assert(s.drop_first()[i - 1] == s[i]);
                }
            }
        }
    }
}

/// Where the first specialization with an origin is.
pub proof fn lemma_origin_position(s: Seq<EntryV>, o: OriginV)
    ensures
        origin_position(s, o) <= s.len(),
        origin_position(s, o) < s.len() ==> s[origin_position(s, o) as int].origin == Some(o),
        forall|i: int| 0 <= i < origin_position(s, o) ==> (#[trigger] s[i]).origin != Some(o),
    decreases s.len(),
{
    reveal_with_fuel(origin_position, 2);
    if s.len() > 0 && s[0].origin != Some(o) {
        lemma_origin_position(s.drop_first(), o);
        assert forall|i: int| 0 <= i < origin_position(s, o) implies (#[trigger] s[i]).origin
            != Some(o) by {
            if i > 0 {
                assert(s.drop_first()[i - 1] == s[i]);
            }
        }
    }
}

/// A specialization is found in its place in a later list.
pub proof fn lemma_origin_stays(a: Seq<EntryV>, b: Seq<EntryV>, o: OriginV)
    requires
        extends(a, b),
        origin_position(a, o) < a.len(),
    ensures
        origin_position(b, o) == origin_position(a, o),
        b[origin_position(b, o) as int].class.name == a[origin_position(a, o) as int].class.name,
{
    lemma_origin_position(a, o);
    lemma_origin_position(b, o);
    let i = origin_position(a, o) as int;
    let j = origin_position(b, o) as int;
    assert(b[i].origin == Some(o));
    if j < i {
        assert(b[j].origin == a[j].origin);
    }
}

/// No declared name starts with more dollar signs than the most.
proof fn lemma_most_lead(classes: Seq<ClassDeclV>, name: Seq<char>)
    requires
        declares(classes, name),
    ensures
        lead(name) <= most_lead(classes),
    decreases classes.len(),
{
    let i = choose|i: int| 0 <= i < classes.len() && (#[trigger] classes[i]).name == name;
    if i < classes.len() - 1 {
        assert(classes.drop_last()[i].name == name);
        lemma_most_lead(classes.drop_last(), name);
    } else {
        assert(classes.last().name == name);
    }
}

/// The name of a new specialization is no other class's.
pub proof fn lemma_free_name(classes: Seq<ClassDeclV>, s: Seq<EntryV>, o: OriginV)
    requires
        sound(classes, s),
        origin_position(s, o) >= s.len(),
        declares(classes, o.base),
    ensures
        !declares(classes, free_name(classes, s, o)),
        forall|i: int|
            0 <= i < s.len() ==> (#[trigger] s[i]).class.name != free_name(classes, s, o),
{
    let name = free_name(classes, s, o);
    let n = most_lead(classes) + 1;
    lemma_position(s, joined(o.base, o.parts));
    lemma_origin_position(s, o);
    if name != joined(o.base, o.parts) {
        assert(name == counted_name(n, o.base, o.parts));
        lemma_counted_lead(n, o.base, o.parts);
        if declares(classes, name) {
            lemma_most_lead(classes, name);
        }
        assert forall|i: int| 0 <= i < s.len() implies (#[trigger] s[i]).class.name != name by {
            assert(named_well(classes, s[i]));
            match s[i].origin {
                None => {
                    lemma_most_lead(classes, s[i].class.name);
                },
                Some(p) => {
                    lemma_most_lead(classes, p.base);
                    lemma_joined_lead(p.base, p.parts);
                    if s[i].class.name == name {
                        counted_names_tell_arguments(n, o.base, o.parts, p.base, p.parts);
                        assert(s[i].origin == Some(o));
                    }
                },
            }
        }
    } else if declares(classes, joined(o.base, o.parts)) || class_position(
        s,
        joined(o.base, o.parts),
    ) < s.len() {
        lemma_counted_lead(n, o.base, o.parts);
        lemma_joined_lead(o.base, o.parts);
        lemma_most_lead(classes, o.base);
    }
}

/// What only depends on names and origins is kept where they are.
proof fn lemma_sound_same(classes: Seq<ClassDeclV>, a: Seq<EntryV>, b: Seq<EntryV>)
    requires
        sound(classes, a),
        extends(a, b),
        a.len() == b.len(),
    ensures
        sound(classes, b),
{
    assert forall|i: int, j: int| 0 <= i < b.len() && 0 <= j < b.len() && i != j implies (
    #[trigger] b[i]).class.name != (#[trigger] b[j]).class.name by {
        assert(a[i].class.name != a[j].class.name);
    }
    assert forall|i: int, j: int|
        0 <= i < b.len() && 0 <= j < b.len() && i != j && (#[trigger] b[i]).origin is Some implies
        b[i].origin != (#[trigger] b[j]).origin by {
        assert(a[i].origin != a[j].origin);
    }
    assert forall|i: int| 0 <= i < b.len() implies named_well(classes, #[trigger] b[i]) by {
        assert(named_well(classes, a[i]));
    }
}

/// A class with a name and an origin of its own may be added.
proof fn lemma_sound_push(classes: Seq<ClassDeclV>, a: Seq<EntryV>, e: EntryV)
    requires
        sound(classes, a),
        named_well(classes, e),
        forall|i: int| 0 <= i < a.len() ==> (#[trigger] a[i]).class.name != e.class.name,
        e.origin is Some ==> forall|i: int|
            0 <= i < a.len() ==> (#[trigger] a[i]).origin != e.origin,
    ensures
        sound(classes, a.push(e)),
{
    let b = a.push(e);
    assert forall|i: int, j: int| 0 <= i < b.len() && 0 <= j < b.len() && i != j implies (
    #[trigger] b[i]).class.name != (#[trigger] b[j]).class.name by {
        if i < a.len() && j < a.len() {
            assert(a[i].class.name != a[j].class.name);
        }
    }
    assert forall|i: int, j: int|
        0 <= i < b.len() && 0 <= j < b.len() && i != j && (#[trigger] b[i]).origin is Some implies
        b[i].origin != (#[trigger] b[j]).origin by {
        if i < a.len() && j < a.len() {
            assert(a[i].origin != a[j].origin);
        }
    }
    assert forall|i: int| 0 <= i < b.len() implies named_well(classes, #[trigger] b[i]) by {
        if i < a.len() {
            assert(named_well(classes, a[i]));
        }
    }
}

/// A place kept for a new specialization and filled later is a class added.
pub proof fn lemma_grew_filled(env: Env, a: Seq<EntryV>, b: Seq<EntryV>, e: EntryV)
    requires
        e.origin matches Some(o) && origin_position(a, o) >= a.len() && declares(
            env.classes,
            o.base,
        ) && e.class.name == free_name(env.classes, a, o),
        grew(env, a.push(EntryV { class: stub_class(e.class.name), origin: e.origin }), b),
        concrete(e.class),
        built_from(env, b.update(a.len() as int, e), e),
    ensures
        grew(env, a, b.update(a.len() as int, e)),
        extends(b, b.update(a.len() as int, e)),
{
    let o = e.origin->0;
    let held = a.push(EntryV { class: stub_class(e.class.name), origin: e.origin });
    let r = b.update(a.len() as int, e);
    lemma_grew_extends(env, held, b);
    lemma_origin_position(a, o);
    assert(b[a.len() as int].class.name == held[a.len() as int].class.name);
    assert(extends(b, r));
    reveal(grew);
    assert(r.take(a.len() as int) =~= a) by {
        assert forall|i: int| 0 <= i < a.len() implies r[i] == a[i] by {
            assert(b.take(held.len() as int)[i] == b[i]);
        }
    }
    assert forall|i: int| a.len() <= i < r.len() implies concrete((#[trigger] r[i]).class)
        && built_from(env, r, r[i]) by {
        if i > a.len() {
            assert(concrete(b[i].class));
            lemma_built_later(env, b, r, b[i]);
        }
    }
    if sound(env.classes, a) {
        lemma_free_name(env.classes, a, o);
        lemma_sound_push(env.classes, a, held.last());
        assert(a.push(held.last()) =~= held);
        lemma_sound_same(env.classes, b, r);
    }
}

/// Recording a declared class keeps names and origins in their places.
pub proof fn lemma_recorded(classes: Seq<ClassDeclV>, s: Seq<EntryV>, c: ClassDeclV)
    requires
        sound(classes, s),
        declares(classes, c.name),
    ensures
        sound(classes, recorded(s, c)),
        extends(s, recorded(s, c)),
        exists|i: int|
            0 <= i < recorded(s, c).len() && #[trigger] recorded(s, c)[i] == (EntryV {
                class: c,
                origin: None,
            }),
        forall|i: int|
            0 <= i < recorded(s, c).len() ==> #[trigger] recorded(s, c)[i] == (EntryV {
                class: c,
                origin: None,
            }) || (i < s.len() && recorded(s, c)[i] == s[i]),
{
    reveal(recorded);
    lemma_position(s, c.name);
    let p = class_position(s, c.name) as int;
    let r = recorded(s, c);
    let e = EntryV { class: c, origin: None };
    assert(r[p] == e);
    if p < s.len() {
        assert(named_well(classes, s[p]));
        assert(extends(s, r));
        lemma_sound_same(classes, s, r);
    } else {
        lemma_sound_push(classes, s, e);
    }
}

pub broadcast group group_growth {
    lemma_grew_chain,
}

} // verus!
