//! Names in monomorphization: looking them up and mangling them.
use vstd::prelude::*;

use crate::ast::{views, ClassDecl, Expr, ParamDecl, TypeAlias, TypeRef};
use crate::ast_model::ParamDeclV;
use crate::logic::LogicVec;
use crate::mangle::{count_parts, join_parts, lead_of, part_views};
use crate::mono_model::{
    actual_of, actuals, class_position, declares, first_alias, free_name, last_alias, last_bound,
    most_lead, origin, origin_position, specialized_bindings, stub_class, template_named, value_expr,
    EntryV, OriginV,
};
use crate::stmt_check::name_views;
use crate::text::{chars_of, parse_i64};

verus! {

/// The view of an optional value.
pub open spec fn opt_view<T: View>(o: Option<T>) -> Option<T::V> {
    match o {
        Some(v) => Some(v@),
        None => None,
    }
}

/// The views of a list of pairs of names.
pub open spec fn pair_views(s: Seq<(String, String)>) -> Seq<(Seq<char>, Seq<char>)> {
    s.map_values(|p: (String, String)| (p.0@, p.1@))
}

/// The last binding of a name.
pub fn find_bound<'a>(v: &'a Vec<(String, String)>, name: &String) -> (r: Option<&'a String>)
    ensures
        match r {
            Some(b) => last_bound(pair_views(v@), name@) == Some(b@),
            None => last_bound(pair_views(v@), name@) is None,
        },
{
    let ghost all = pair_views(v@);
    let mut i: usize = v.len();
    assert(all.take(i as int) =~= all);
    while i > 0
        invariant
            i <= v@.len(),
            all == pair_views(v@),
            last_bound(all, name@) == last_bound(all.take(i as int), name@),
        decreases i,
    {
        i = i - 1;
        let ghost t = all.take(i + 1);
        assert(t.drop_last() =~= all.take(i as int));
        assert(t.last() == (v@[i as int].0@, v@[i as int].1@));
        if v[i].0 == *name {
            return Some(&v[i].1);
        }
    }
    None
}

/// The target of the last alias with a name.
pub fn find_last_alias<'a>(v: &'a Vec<TypeAlias>, name: &String) -> (r: Option<&'a TypeRef>)
    ensures
        match r {
            Some(t) => last_alias(views(v@), name@) == Some(t@),
            None => last_alias(views(v@), name@) is None,
        },
{
    let ghost all = views(v@);
    let mut i: usize = v.len();
    assert(all.take(i as int) =~= all);
    while i > 0
        invariant
            i <= v@.len(),
            all == views(v@),
            last_alias(all, name@) == last_alias(all.take(i as int), name@),
        decreases i,
    {
        i = i - 1;
        let ghost t = all.take(i + 1);
        assert(t.drop_last() =~= all.take(i as int));
        assert(t.last() == v@[i as int]@);
        if v[i].alias == *name {
            return Some(&v[i].target);
        }
    }
    None
}

/// The target of the first alias with a name.
pub fn find_first_alias<'a>(v: &'a Vec<TypeAlias>, name: &String) -> (r: Option<&'a TypeRef>)
    ensures
        match r {
            Some(t) => first_alias(views(v@), name@) == Some(t@),
            None => first_alias(views(v@), name@) is None,
        },
{
    let ghost all = views(v@);
    let mut i: usize = 0;
    assert(all.skip(0) =~= all);
    while i < v.len()
        invariant
            i <= v@.len(),
            all == views(v@),
            first_alias(all, name@) == first_alias(all.skip(i as int), name@),
        decreases v@.len() - i,
    {
        assert(all.skip(i as int)[0] == v@[i as int]@);
        assert(all.skip(i as int).skip(1) =~= all.skip(i + 1));
        if v[i].alias == *name {
            return Some(&v[i].target);
        }
        i = i + 1;
    }
    None
}

/// The first parameterized class with a name.
pub fn find_template<'a>(v: &'a Vec<ClassDecl>, name: &String) -> (r: Option<&'a ClassDecl>)
    ensures
        match r {
            Some(t) => template_named(views(v@), name@) == Some(t@),
            None => template_named(views(v@), name@) is None,
        },
{
    let ghost all = views(v@);
    let mut i: usize = 0;
    assert(all.skip(0) =~= all);
    while i < v.len()
        invariant
            i <= v@.len(),
            all == views(v@),
            template_named(all, name@) == template_named(all.skip(i as int), name@),
        decreases v@.len() - i,
    {
        assert(all.skip(i as int)[0] == v@[i as int]@);
        assert(all.skip(i as int).skip(1) =~= all.skip(i + 1));
        if v[i].params.len() > 0 && v[i].name == *name {
            return Some(&v[i]);
        }
        i = i + 1;
    }
    None
}

/// What a specialization is of: a template, and what each parameter stands for.
pub struct Origin {
    pub base: String,
    pub parts: Vec<Option<String>>,
}

impl View for Origin {
    type V = OriginV;

    open spec fn view(&self) -> OriginV {
        OriginV { base: self.base@, parts: part_views(self.parts@) }
    }
}

/// A class among those built, with its origin where it is a specialization.
pub struct Entry {
    pub class: ClassDecl,
    pub origin: Option<Origin>,
}

impl View for Entry {
    type V = EntryV;

    open spec fn view(&self) -> EntryV {
        EntryV { class: self.class@, origin: opt_view(self.origin) }
    }
}

/// The position of the first class with a name, or the length.
pub fn find_class(v: &Vec<Entry>, name: &String) -> (r: usize)
    ensures
        r == class_position(views(v@), name@),
        r <= v@.len(),
{
    let ghost all = views(v@);
    let mut i: usize = 0;
    assert(all.skip(0) =~= all);
    while i < v.len()
        invariant
            i <= v@.len(),
            all == views(v@),
            class_position(all, name@) == i + class_position(all.skip(i as int), name@),
        decreases v@.len() - i,
    {
        assert(all.skip(i as int)[0] == v@[i as int]@);
        assert(all.skip(i as int).skip(1) =~= all.skip(i + 1));
        if v[i].class.name == *name {
            return i;
        }
        i = i + 1;
    }
    i
}

/// Whether two arguments are the same.
fn same_part(a: &Option<String>, b: &Option<String>) -> (r: bool)
    ensures
        r == (opt_view(*a) == opt_view(*b)),
{
    match (a, b) {
        (Some(x), Some(y)) => *x == *y,
        (None, None) => true,
        _ => false,
    }
}

/// Whether two specializations are of the same template and arguments.
fn same_origin(a: &Origin, b: &Origin) -> (r: bool)
    ensures
        r == (a@ == b@),
{
    if a.base != b.base || a.parts.len() != b.parts.len() {
        assert(a@.parts.len() == a.parts@.len() && b@.parts.len() == b.parts@.len());
        return false;
    }
    let mut i: usize = 0;
    while i < a.parts.len()
        invariant
            i <= a.parts@.len(),
            a.parts@.len() == b.parts@.len(),
            forall|j: int| 0 <= j < i ==> a@.parts[j] == #[trigger] b@.parts[j],
        decreases a.parts@.len() - i,
    {
        assert(a@.parts[i as int] == opt_view(a.parts@[i as int]));
        assert(b@.parts[i as int] == opt_view(b.parts@[i as int]));
        if !same_part(&a.parts[i], &b.parts[i]) {
            return false;
        }
        i = i + 1;
    }
    assert(a@.parts =~= b@.parts);
    true
}

/// The position of the specialization with an origin, or the length.
pub fn find_origin(v: &Vec<Entry>, origin: &Origin) -> (r: usize)
    ensures
        r == origin_position(views(v@), origin@),
        r <= v@.len(),
{
    let ghost all = views(v@);
    let mut i: usize = 0;
    assert(all.skip(0) =~= all);
    while i < v.len()
        invariant
            i <= v@.len(),
            all == views(v@),
            origin_position(all, origin@) == i + origin_position(all.skip(i as int), origin@),
        decreases v@.len() - i,
    {
        assert(all.skip(i as int)[0] == v@[i as int]@);
        assert(all.skip(i as int).skip(1) =~= all.skip(i + 1));
        if let Some(o) = &v[i].origin {
            if same_origin(o, origin) {
                return i;
            }
        }
        i = i + 1;
    }
    i
}

/// Whether a declared class has a name.
fn is_declared(v: &Vec<ClassDecl>, name: &String) -> (r: bool)
    ensures
        r == declares(views(v@), name@),
{
    let mut i: usize = 0;
    while i < v.len()
        invariant
            i <= v@.len(),
            forall|j: int| 0 <= j < i ==> (#[trigger] views(v@)[j]).name != name@,
        decreases v@.len() - i,
    {
        assert(views(v@)[i as int] == v@[i as int]@);
        if v[i].name == *name {
            return true;
        }
        i = i + 1;
    }
    false
}

/// The most dollar signs that start the name of a declared class.
fn find_most_lead(v: &Vec<ClassDecl>) -> (r: usize)
    ensures
        r == most_lead(views(v@)),
{
    let ghost all = views(v@);
    let mut most: usize = 0;
    let mut i: usize = 0;
    assert(all.take(0) =~= Seq::empty());
    while i < v.len()
        invariant
            i <= v@.len(),
            all == views(v@),
            most == most_lead(all.take(i as int)),
        decreases v@.len() - i,
    {
        let ghost upto = all.take(i + 1);
        assert(upto.drop_last() =~= all.take(i as int));
        assert(upto.last() == v@[i as int]@);
        let n: usize = lead_of(&v[i].name);
        if n > most {
            most = n;
        }
        i = i + 1;
    }
    assert(all.take(i as int) =~= all);
    most
}

/// The name of a new specialization.
pub fn choose_name(classes: &Vec<ClassDecl>, out: &Vec<Entry>, o: &Origin) -> (r: String)
    ensures
        r@ == free_name(views(classes@), views(out@), o@),
{
    let name: String = join_parts(&o.base, &o.parts);
    if is_declared(classes, &name) || find_class(out, &name) < out.len() {
        count_parts(find_most_lead(classes), &o.base, &o.parts)
    } else {
        name
    }
}

/// What parameter `i` stands for.
pub fn actual<'a>(params: &'a Vec<ParamDecl>, args: &'a Vec<String>, i: usize) -> (r: Option<&'a String>)
    requires
        i < params@.len(),
    ensures
        match r {
            Some(v) => actual_of(views(params@), name_views(args@), i as int) == Some(v@),
            None => actual_of(views(params@), name_views(args@), i as int) is None,
        },
{
    if i < args.len() {
        assert(name_views(args@)[i as int] == args@[i as int]@);
        Some(&args[i])
    } else {
        assert(views(params@)[i as int] == params@[i as int]@);
        match &params[i].default {
            Some(d) => Some(d),
            None => None,
        }
    }
}

proof fn lemma_actual_prefix(params: Seq<ParamDeclV>, args: Seq<Seq<char>>, k: int, i: int)
    requires
        0 <= i < k <= params.len(),
    ensures
        actual_of(params.take(k), args, i) == actual_of(params, args, i),
{
}

/// What a template with arguments is the origin of.
pub fn origin_of(t: &ClassDecl, args: &Vec<String>) -> (r: Origin)
    ensures
        r@ == origin(t@, name_views(args@)),
{
    let ghost all = actuals(views(t.params@), name_views(args@));
    let mut parts: Vec<Option<String>> = Vec::new();
    let mut i: usize = 0;
    while i < t.params.len()
        invariant
            i <= t.params@.len(),
            all == actuals(views(t.params@), name_views(args@)),
            parts@.len() == i,
            forall|j: int| 0 <= j < i ==> opt_view(#[trigger] parts@[j]) == all[j],
        decreases t.params@.len() - i,
    {
        match actual(&t.params, args, i) {
            Some(v) => {
                parts.push(Some(v.clone()));
            },
            None => {
                parts.push(None);
            },
        }
        i = i + 1;
    }
    assert(part_views(parts@) =~= all);
    Origin { base: t.name.clone(), parts }
}

/// The bindings of a specialization.
pub fn bind_params(params: &Vec<ParamDecl>, args: &Vec<String>, values_only: bool) -> (r: Vec<
    (String, String),
>)
    ensures
        pair_views(r@) == specialized_bindings(views(params@), name_views(args@), values_only),
{
    let ghost all = views(params@);
    let ghost given = name_views(args@);
    let mut out: Vec<(String, String)> = Vec::new();
    let mut i: usize = 0;
    assert(all.take(0) =~= Seq::empty());
    assert(pair_views(out@) =~= Seq::empty());
    while i < params.len()
        invariant
            i <= params@.len(),
            all == views(params@),
            given == name_views(args@),
            pair_views(out@) == specialized_bindings(all.take(i as int), given, values_only),
        decreases params@.len() - i,
    {
        let ghost before = out@;
        proof {
            let t = all.take(i + 1);
            assert(t.drop_last() =~= all.take(i as int));
            assert(t.last() == params@[i as int]@);
            lemma_actual_prefix(all, given, i + 1, i as int);
        }
        if let Some(v) = actual(params, args, i) {
            if !v.as_str().is_empty() && !(values_only && params[i].is_type) {
                out.push((params[i].name.clone(), v.clone()));
                assert(pair_views(out@) =~= pair_views(before).push((params@[i as int].name@, v@)));
            }
        }
        i = i + 1;
    }
    assert(all.take(i as int) =~= all);
    out
}

/// The class that keeps a specialization's place.
pub fn stub(name: String) -> (r: ClassDecl)
    ensures
        r@ == stub_class(name@),
{
    let r = ClassDecl {
        name,
        base: None,
        fields: Vec::new(),
        methods: Vec::new(),
        constructor: None,
        type_aliases: Vec::new(),
        collection_aliases: Vec::new(),
        params: Vec::new(),
        base_args: Vec::new(),
        consts: Vec::new(),
        is_struct: false,
    };
    assert(r@.fields =~= Seq::empty());
    assert(r@.methods =~= Seq::empty());
    assert(r@.type_aliases =~= Seq::empty());
    assert(r@.collection_aliases =~= Seq::empty());
    assert(r@.params =~= Seq::empty());
    assert(r@.base_args =~= Seq::empty());
    assert(r@.consts =~= Seq::empty());
    r
}

/// The expression for the text of a value parameter.
pub fn value_to_expr(text: &String) -> (r: Expr)
    ensures
        r@ == value_expr(text@),
{
    let chars: Vec<char> = chars_of(text.as_str());
    match parse_i64(chars.as_slice()) {
        Some(n) => Expr::Literal(LogicVec::from_i64(n, 32)),
        None => Expr::Str(text.clone()),
    }
}

} // verus!
