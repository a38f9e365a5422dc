//! Laying out a class: its fields, methods and virtual methods after those of its
//! base.
use vstd::prelude::*;

use crate::ast::{
    const_views, type_ref_view, views, ClassDecl, CollKind, CollectionAlias, Expr, ParamDecl,
    TypeAlias, TypeRef, VarDecl,
};
use crate::ast_model::{
    ClassDeclV, CollectionAliasV, ExprV, ParamDeclV, TypeAliasV, TypeRefV, VarDeclV,
};
use crate::bit::Bit;
use crate::bits::{fill, resized};
use crate::const_fold::{const_eval_with, folded_const, Consts, Made};
use crate::ir::{Value, ValueV};
use crate::layout::{first_of, name_view, value_views, ClassInfo, ClassInfoV, CollInfo};
use crate::logic::LogicVec;
use crate::mangle::{join_parts, joined, part_views};
use crate::mono_names::opt_view;
use crate::table::{lookup, put, Table};

verus! {

/// A method of a class: its function, whether it is virtual, and the class that
/// it returns.
#[derive(Debug)]
pub struct MethodId {
    pub name: String,
    pub func: u32,
    pub is_virtual: bool,
    pub ret_class: Option<u32>,
}

/// The mathematical form of a [`MethodId`].
pub struct MethodIdV {
    pub name: Seq<char>,
    pub func: u32,
    pub is_virtual: bool,
    pub ret_class: Option<u32>,
}

impl View for MethodId {
    type V = MethodIdV;

    open spec fn view(&self) -> MethodIdV {
        MethodIdV {
            name: self.name@,
            func: self.func,
            is_virtual: self.is_virtual,
            ret_class: self.ret_class,
        }
    }
}

/// The functions of a class.
#[derive(Debug)]
pub struct ClassFids {
    pub methods: Vec<MethodId>,
    pub ctor: Option<u32>,
}

/// The mathematical form of [`ClassFids`].
pub struct ClassFidsV {
    pub methods: Seq<MethodIdV>,
    pub ctor: Option<u32>,
}

impl View for ClassFids {
    type V = ClassFidsV;

    open spec fn view(&self) -> ClassFidsV {
        ClassFidsV { methods: views(self.methods@), ctor: self.ctor }
    }
}

// ---- initial values -------------------------------------------------------------------

/// A width of at least one bit.
pub open spec fn some_width(width: u32) -> u32 {
    if width == 0 {
        1
    } else {
        width
    }
}

/// The initial value of a field. A collection gets its storage when an object is
/// made.
pub open spec fn initial_value(v: VarDeclV, consts: Consts) -> Made<ValueV> {
    if v.coll is Some || v.class_name is Some {
        Ok(ValueV::Null)
    } else if v.is_event {
        Ok(ValueV::Event)
    } else if v.is_string {
        match v.init {
            Some(ExprV::Str(s)) => Ok(ValueV::Str(s)),
            _ => Ok(ValueV::Str(Seq::empty())),
        }
    } else {
        match v.init {
            Some(e) => match folded_const(e, consts) {
                Err(m) => Err(m),
                Ok(bits) => Ok(
                    ValueV::Logic(resized(bits, some_width(v.width) as nat, v.signed)),
                ),
            },
            None => Ok(ValueV::Logic(fill(Bit::Zero, some_width(v.width) as nat))),
        }
    }
}

/// The initial value of shared storage.
pub open spec fn shared_value(v: VarDeclV, consts: Consts) -> Made<ValueV> {
    match v.coll {
        Some(CollKind::Assoc) => Ok(ValueV::Assoc),
        Some(CollKind::Queue) => Ok(ValueV::Queue),
        None => initial_value(v, consts),
    }
}

/// Whether a value is what it is to be.
pub open spec fn valued(r: Result<Value, String>, want: Made<ValueV>) -> bool {
    match r {
        Ok(v) => want == Ok::<ValueV, Seq<char>>(v@),
        Err(m) => want == Err::<ValueV, Seq<char>>(m@),
    }
}

/// The initial value of a field.
pub fn default_value(v: &VarDecl, consts: &Vec<(String, LogicVec)>) -> (r: Result<Value, String>)
    ensures
        valued(r, initial_value(v@, const_views(consts@))),
{
    if v.coll.is_some() || v.class_name.is_some() {
        return Ok(Value::Null);
    }
    if v.is_event {
        return Ok(Value::Event);
    }
    if v.is_string {
        if let Some(Expr::Str(s)) = &v.init {
            return Ok(Value::Str(s.clone()));
        }
        let empty: String = String::new();
        assert(empty@ =~= Seq::<char>::empty());
        return Ok(Value::Str(empty));
    }
    let width: u32 = if v.width == 0 {
        1
    } else {
        v.width
    };
    match &v.init {
        Some(e) => match const_eval_with(e, consts) {
            Err(m) => Err(m),
            Ok(bits) => Ok(Value::Logic(bits.resize(width, v.signed))),
        },
        None => Ok(Value::Logic(LogicVec::zero(width))),
    }
}

/// The initial value of shared storage.
pub fn shared_default(v: &VarDecl, consts: &Vec<(String, LogicVec)>) -> (r: Result<Value, String>)
    ensures
        valued(r, shared_value(v@, const_views(consts@))),
{
    match v.coll {
        Some(CollKind::Assoc) => Ok(Value::Assoc),
        Some(CollKind::Queue) => Ok(Value::Queue),
        None => default_value(v, consts),
    }
}

// ---- the parts of a layout --------------------------------------------------------------

/// The layout that a class starts with: that of its base.
pub open spec fn inherited(
    name: Seq<char>,
    is_struct: bool,
    ctor: Option<u32>,
    base: Option<(u32, ClassInfoV)>,
) -> ClassInfoV {
    match base {
        Some((id, b)) => ClassInfoV {
            name,
            base: Some(id),
            type_param_default: Seq::empty(),
            ctor,
            is_struct,
            ..b
        },
        None => ClassInfoV {
            name,
            base: None,
            field_slot: Seq::empty(),
            field_class: Seq::empty(),
            field_coll: Seq::empty(),
            field_events: Seq::empty(),
            static_fields: Seq::empty(),
            static_field_class: Seq::empty(),
            static_field_coll: Seq::empty(),
            type_param_default: Seq::empty(),
            type_aliases: Seq::empty(),
            collection_aliases: Seq::empty(),
            method_ret_class: Seq::empty(),
            field_defaults: Seq::empty(),
            methods: Seq::empty(),
            vtable: Seq::empty(),
            vslot_of: Seq::empty(),
            ctor,
            is_struct,
        },
    }
}

/// Copies of values.
pub fn copy_values(v: &Vec<Value>) -> (r: Vec<Value>)
    ensures
        value_views(r@) == value_views(v@),
{
    let ghost all = value_views(v@);
    let mut out: Vec<Value> = Vec::new();
    let mut i: usize = 0;
    assert(value_views(out@) =~= all.take(0));
    while i < v.len()
        invariant
            i <= v@.len(),
            all == value_views(v@),
            value_views(out@) == all.take(i as int),
        decreases v@.len() - i,
    {
        let ghost before = out@;
        let x: Value = v[i].copy();
        out.push(x);
        assert(value_views(out@) =~= value_views(before).push(x@));
        assert(all[i as int] == v@[i as int]@);
        i = i + 1;
        assert(all.take(i as int) =~= all.take(i as int - 1).push(all[i as int - 1]));
    }
    assert(all.take(i as int) =~= all);
    out
}

/// Copies of numbers.
pub fn copy_ids(v: &Vec<u32>) -> (r: Vec<u32>)
    ensures
        r@ == v@,
{
    let mut out: Vec<u32> = Vec::new();
    let mut i: usize = 0;
    while i < v.len()
        invariant
            i <= v@.len(),
            out@ == v@.take(i as int),
        decreases v@.len() - i,
    {
        out.push(v[i]);
        i = i + 1;
        assert(v@.take(i as int) =~= v@.take(i as int - 1).push(v@[i as int - 1]));
    }
    assert(v@.take(i as int) =~= v@);
    out
}

/// The layout that a class starts with.
fn inherit(c: &ClassDecl, ctor: Option<u32>, base: Option<(u32, &ClassInfo)>) -> (r: ClassInfo)
    ensures
        r@ == inherited(
            c.name@,
            c.is_struct,
            ctor,
            match base {
                Some((id, b)) => Some((id, b@)),
                None => None,
            },
        ),
{
    match base {
        Some((id, b)) => ClassInfo {
            name: c.name.clone(),
            base: Some(id),
            field_slot: b.field_slot.copy(),
            field_class: b.field_class.copy(),
            field_coll: b.field_coll.copy(),
            field_events: b.field_events.copy(),
            static_fields: b.static_fields.copy(),
            static_field_class: b.static_field_class.copy(),
            static_field_coll: b.static_field_coll.copy(),
            type_param_default: Table::new(),
            type_aliases: b.type_aliases.copy(),
            collection_aliases: b.collection_aliases.copy(),
            method_ret_class: b.method_ret_class.copy(),
            field_defaults: copy_values(&b.field_defaults),
            methods: b.methods.copy(),
            vtable: copy_ids(&b.vtable),
            vslot_of: b.vslot_of.copy(),
            ctor,
            is_struct: c.is_struct,
        },
        None => {
            let r = ClassInfo {
                name: c.name.clone(),
                base: None,
                field_slot: Table::new(),
                field_class: Table::new(),
                field_coll: Table::new(),
                field_events: Table::new(),
                static_fields: Table::new(),
                static_field_class: Table::new(),
                static_field_coll: Table::new(),
                type_param_default: Table::new(),
                type_aliases: Table::new(),
                collection_aliases: Table::new(),
                method_ret_class: Table::new(),
                field_defaults: Vec::new(),
                methods: Table::new(),
                vtable: Vec::new(),
                vslot_of: Table::new(),
                ctor,
                is_struct: c.is_struct,
            };
            assert(r@.field_defaults =~= Seq::empty());
            assert(r@.vtable =~= Seq::empty());
            r
        },
    }
}

/// The class that a declared parameter has as its default.
pub open spec fn default_class(p: ParamDeclV, ids: Seq<(Seq<char>, u32)>) -> Option<u32> {
    match p.default {
        Some(name) => if p.is_type {
            lookup(ids, name)
        } else {
            None
        },
        None => None,
    }
}

/// The type parameters that have a class as their default.
pub open spec fn with_params(
    t: Seq<(Seq<char>, u32)>,
    params: Seq<ParamDeclV>,
    ids: Seq<(Seq<char>, u32)>,
) -> Seq<(Seq<char>, u32)>
    decreases params.len(),
{
    if params.len() == 0 {
        t
    } else {
        let before = with_params(t, params.drop_last(), ids);
        match default_class(params.last(), ids) {
            Some(cid) => put(before, params.last().name, cid),
            None => before,
        }
    }
}

/// Note the type parameters that have a class as their default.
fn add_params(t: &mut Table<u32>, params: &Vec<ParamDecl>, ids: &Table<u32>)
    ensures
        final(t)@ == with_params(old(t)@, views(params@), ids@),
{
    let ghost all = views(params@);
    let ghost start = t@;
    let mut i: usize = 0;
    while i < params.len()
        invariant
            i <= params@.len(),
            all == views(params@),
            t@ == with_params(start, all.take(i as int), ids@),
        decreases params@.len() - i,
    {
        let ghost upto = all.take(i + 1);
        assert(upto.drop_last() =~= all.take(i as int));
        assert(upto.last() == params@[i as int]@);
        if params[i].is_type {
            if let Some(name) = &params[i].default {
                if let Some(cid) = ids.get(name.as_str()) {
                    t.insert(params[i].name.clone(), cid);
                }
            }
        }
        i = i + 1;
    }
    assert(all.take(i as int) =~= all);
}

/// The name of a class with type arguments.
pub open spec fn instance_name(name: Seq<char>, args: Seq<TypeRefV>) -> Seq<char> {
    joined(name, args.map_values(|a: TypeRefV| Some(a.name)))
}

/// The name of a class with type arguments.
fn name_instance(target: &TypeRef) -> (r: String)
    ensures
        r@ == instance_name(target@.name, target@.args),
{
    let ghost all = target@.args;
    assert(all.len() == target.args@.len());
    let mut parts: Vec<Option<String>> = Vec::new();
    let mut i: usize = 0;
    while i < target.args.len()
        invariant
            i <= target.args@.len(),
            all == target@.args,
            all.len() == target.args@.len(),
            parts@.len() == i,
            forall|j: int| 0 <= j < i ==> opt_view(#[trigger] parts@[j]) == Some(all[j].name),
        decreases target.args@.len() - i,
    {
        assert(all[i as int] == type_ref_view(target.args@[i as int]));
        parts.push(Some(target.args[i].name.clone()));
        i = i + 1;
    }
    assert(part_views(parts@) =~= all.map_values(|a: TypeRefV| Some(a.name)));
    join_parts(&target.name, &parts)
}

/// The type aliases of a class.
pub open spec fn with_aliases(
    t: Seq<(Seq<char>, u32)>,
    aliases: Seq<TypeAliasV>,
    ids: Seq<(Seq<char>, u32)>,
) -> Seq<(Seq<char>, u32)>
    decreases aliases.len(),
{
    if aliases.len() == 0 {
        t
    } else {
        let before = with_aliases(t, aliases.drop_last(), ids);
        let a = aliases.last();
        match lookup(ids, instance_name(a.target.name, a.target.args)) {
            Some(cid) => put(before, a.alias, cid),
            None => before,
        }
    }
}

/// Note the type aliases of a class.
fn add_aliases(t: &mut Table<u32>, aliases: &Vec<TypeAlias>, ids: &Table<u32>)
    ensures
        final(t)@ == with_aliases(old(t)@, views(aliases@), ids@),
{
    let ghost all = views(aliases@);
    let ghost start = t@;
    let mut i: usize = 0;
    while i < aliases.len()
        invariant
            i <= aliases@.len(),
            all == views(aliases@),
            t@ == with_aliases(start, all.take(i as int), ids@),
        decreases aliases@.len() - i,
    {
        let ghost upto = all.take(i + 1);
        assert(upto.drop_last() =~= all.take(i as int));
        assert(upto.last() == aliases@[i as int]@);
        let name: String = name_instance(&aliases[i].target);
        if let Some(cid) = ids.get(name.as_str()) {
            t.insert(aliases[i].alias.clone(), cid);
        }
        i = i + 1;
    }
    assert(all.take(i as int) =~= all);
}

/// The class that a type name means in a class: a class, a type alias of it, or
/// the default of a type parameter.
pub open spec fn type_class(ids: Seq<(Seq<char>, u32)>, c: ClassInfoV, name: Seq<char>) -> Option<
    u32,
> {
    first_of(
        lookup(ids, name),
        first_of(lookup(c.type_aliases, name), lookup(c.type_param_default, name)),
    )
}

/// The class that a type name means, if there is one.
pub open spec fn opt_type_class(
    ids: Seq<(Seq<char>, u32)>,
    c: ClassInfoV,
    name: Option<Seq<char>>,
) -> Option<u32> {
    match name {
        Some(n) => type_class(ids, c, n),
        None => None,
    }
}

/// The class that a type name means in a class.
fn resolve_type(ids: &Table<u32>, c: &ClassInfo, name: &str) -> (r: Option<u32>)
    ensures
        r == type_class(ids@, c@, name@),
{
    if let Some(cid) = ids.get(name) {
        return Some(cid);
    }
    if let Some(cid) = c.type_aliases.get(name) {
        return Some(cid);
    }
    c.type_param_default.get(name)
}

/// The class that a type name means, if there is one.
fn resolve_opt_type(ids: &Table<u32>, c: &ClassInfo, name: &Option<String>) -> (r: Option<u32>)
    ensures
        r == opt_type_class(ids@, c@, name_view(*name)),
{
    match name {
        Some(n) => resolve_type(ids, c, n.as_str()),
        None => None,
    }
}

/// The name of a type, if there is one.
pub open spec fn type_called(t: Option<TypeRefV>) -> Option<Seq<char>> {
    match t {
        Some(t) => Some(t.name),
        None => None,
    }
}

/// The class with aliases of collection types.
pub open spec fn with_collections(
    c: ClassInfoV,
    aliases: Seq<CollectionAliasV>,
    ids: Seq<(Seq<char>, u32)>,
) -> ClassInfoV
    decreases aliases.len(),
{
    if aliases.len() == 0 {
        c
    } else {
        let before = with_collections(c, aliases.drop_last(), ids);
        let a = aliases.last();
        ClassInfoV {
            collection_aliases: put(
                before.collection_aliases,
                a.alias,
                CollInfo {
                    kind: a.kind,
                    elem_class: opt_type_class(ids, before, type_called(a.element)),
                    key_class: opt_type_class(ids, before, type_called(a.key)),
                },
            ),
            ..before
        }
    }
}

/// The class that a type means, if there is one.
fn resolve_ref(ids: &Table<u32>, c: &ClassInfo, t: &Option<TypeRef>) -> (r: Option<u32>)
    ensures
        r == opt_type_class(ids@, c@, type_called(opt_view(*t))),
{
    match t {
        Some(t) => resolve_type(ids, c, t.name.as_str()),
        None => None,
    }
}

/// Note the aliases of collection types.
fn add_collections(c: &mut ClassInfo, aliases: &Vec<CollectionAlias>, ids: &Table<u32>)
    ensures
        final(c)@ == with_collections(old(c)@, views(aliases@), ids@),
{
    let ghost all = views(aliases@);
    let ghost start = c@;
    let mut i: usize = 0;
    while i < aliases.len()
        invariant
            i <= aliases@.len(),
            all == views(aliases@),
            c@ == with_collections(start, all.take(i as int), ids@),
        decreases aliases@.len() - i,
    {
        let ghost upto = all.take(i + 1);
        assert(upto.drop_last() =~= all.take(i as int));
        assert(upto.last() == aliases@[i as int]@);
        let a: &CollectionAlias = &aliases[i];
        let info = CollInfo {
            kind: a.kind,
            elem_class: resolve_ref(ids, c, &a.element),
            key_class: resolve_ref(ids, c, &a.key),
        };
        c.collection_aliases.insert(a.alias.clone(), info);
        i = i + 1;
    }
    assert(all.take(i as int) =~= all);
}

// ---- fields ---------------------------------------------------------------------------------

/// A layout with a static field, whose storage is shared.
pub open spec fn with_static(
    c: ClassInfoV,
    v: VarDeclV,
    ids: Seq<(Seq<char>, u32)>,
    place: u32,
) -> ClassInfoV {
    let elem_class = opt_type_class(ids, c, v.class_name);
    let key_class = opt_type_class(ids, c, v.key_class_name);
    ClassInfoV {
        static_fields: put(c.static_fields, v.name, place),
        static_field_class: match elem_class {
            Some(cid) => put(c.static_field_class, v.name, cid),
            None => c.static_field_class,
        },
        static_field_coll: match v.coll {
            Some(kind) => put(
                c.static_field_coll,
                v.name,
                CollInfo { kind, elem_class, key_class },
            ),
            None => c.static_field_coll,
        },
        ..c
    }
}

/// A layout with a field of each object, in a slot of its own.
pub open spec fn with_field(
    c: ClassInfoV,
    v: VarDeclV,
    ids: Seq<(Seq<char>, u32)>,
    value: ValueV,
) -> ClassInfoV {
    let elem_class = opt_type_class(ids, c, v.class_name);
    let key_class = opt_type_class(ids, c, v.key_class_name);
    ClassInfoV {
        field_slot: put(c.field_slot, v.name, (c.field_defaults.len() as u32, v.width)),
        field_events: if v.is_event {
            put(c.field_events, v.name, ())
        } else {
            c.field_events
        },
        field_coll: match v.coll {
            Some(kind) => put(c.field_coll, v.name, CollInfo { kind, elem_class, key_class }),
            None => c.field_coll,
        },
        field_class: if v.coll is None && elem_class is Some {
            put(c.field_class, v.name, elem_class->0)
        } else {
            c.field_class
        },
        field_defaults: c.field_defaults.push(value),
        ..c
    }
}

/// A layout, and the initial values of the shared storage.
pub type Laid = Made<(ClassInfoV, Seq<ValueV>)>;

/// A layout with one more field.
pub open spec fn with_var(
    c: ClassInfoV,
    statics: Seq<ValueV>,
    v: VarDeclV,
    ids: Seq<(Seq<char>, u32)>,
    consts: Consts,
) -> Laid {
    if v.is_static {
        match shared_value(v, consts) {
            Err(m) => Err(m),
            Ok(value) => Ok((with_static(c, v, ids, statics.len() as u32), statics.push(value))),
        }
    } else {
        match initial_value(v, consts) {
            Err(m) => Err(m),
            Ok(value) => Ok((with_field(c, v, ids, value), statics)),
        }
    }
}

/// A layout with fields.
pub open spec fn with_vars(
    c: ClassInfoV,
    statics: Seq<ValueV>,
    vars: Seq<VarDeclV>,
    ids: Seq<(Seq<char>, u32)>,
    consts: Consts,
) -> Laid
    decreases vars.len(),
{
    if vars.len() == 0 {
        Ok((c, statics))
    } else {
        match with_vars(c, statics, vars.drop_last(), ids, consts) {
            Err(m) => Err(m),
            Ok((c1, statics1)) => with_var(c1, statics1, vars.last(), ids, consts),
        }
    }
}

/// Whether laying out gave what it is to give.
pub open spec fn laid(r: Result<(), String>, c: ClassInfoV, statics: Seq<ValueV>, want: Laid) -> bool {
    match r {
        Ok(_) => want == Ok::<(ClassInfoV, Seq<ValueV>), Seq<char>>((c, statics)),
        Err(m) => want == Err::<(ClassInfoV, Seq<ValueV>), Seq<char>>(m@),
    }
}

/// Lay out a field.
fn add_var(
    c: &mut ClassInfo,
    statics: &mut Vec<Value>,
    v: &VarDecl,
    ids: &Table<u32>,
    consts: &Vec<(String, LogicVec)>,
) -> (r: Result<(), String>)
    ensures
        laid(
            r,
            final(c)@,
            value_views(final(statics)@),
            with_var(old(c)@, value_views(old(statics)@), v@, ids@, const_views(consts@)),
        ),
{
    let ghost start = *c;
    let ghost shared = statics@;
    let elem_class: Option<u32> = resolve_opt_type(ids, c, &v.class_name);
    let key_class: Option<u32> = resolve_opt_type(ids, c, &v.key_class_name);
    if v.is_static {
        let value: Value = match shared_default(v, consts) {
            Ok(value) => value,
            Err(m) => {
                return Err(m);
            },
        };
        assert(value_views(statics@).len() == statics@.len());
        let place: u32 = statics.len() as u32;
        statics.push(value);
        assert(value_views(statics@) =~= value_views(shared).push(value@));
        c.static_fields.insert(v.name.clone(), place);
        if let Some(cid) = elem_class {
            c.static_field_class.insert(v.name.clone(), cid);
        }
        if let Some(kind) = v.coll {
            c.static_field_coll.insert(v.name.clone(), CollInfo { kind, elem_class, key_class });
        }
        assert(c@ == with_static(start@, v@, ids@, place));
        return Ok(());
    }
    let value: Value = match default_value(v, consts) {
        Ok(value) => value,
        Err(m) => {
            return Err(m);
        },
    };
    assert(value_views(c.field_defaults@).len() == c.field_defaults@.len());
    let slot: u32 = c.field_defaults.len() as u32;
    c.field_slot.insert(v.name.clone(), (slot, v.width));
    if v.is_event {
        c.field_events.insert(v.name.clone(), ());
    }
    match v.coll {
        Some(kind) => {
            c.field_coll.insert(v.name.clone(), CollInfo { kind, elem_class, key_class });
        },
        None => {
            if let Some(cid) = elem_class {
                c.field_class.insert(v.name.clone(), cid);
            }
        },
    }
    c.field_defaults.push(value);
    assert(value_views(c.field_defaults@) =~= value_views(start.field_defaults@).push(value@));
    assert(c@ == with_field(start@, v@, ids@, value@));
    Ok(())
}

/// Fields fail as their first failing prefix does.
proof fn lemma_vars_error(
    c: ClassInfoV,
    statics: Seq<ValueV>,
    all: Seq<VarDeclV>,
    ids: Seq<(Seq<char>, u32)>,
    consts: Consts,
    i: int,
)
    requires
        0 <= i < all.len(),
        with_vars(c, statics, all.take(i + 1), ids, consts) is Err,
    ensures
        with_vars(c, statics, all, ids, consts) == with_vars(
            c,
            statics,
            all.take(i + 1),
            ids,
            consts,
        ),
    decreases all.len() - i,
{
    if i + 1 == all.len() {
        assert(all.take(i + 1) =~= all);
    } else {
        assert(all.take(i + 2).drop_last() =~= all.take(i + 1));
        lemma_vars_error(c, statics, all, ids, consts, i + 1);
    }
}

/// Lay out fields.
fn add_vars(
    c: &mut ClassInfo,
    statics: &mut Vec<Value>,
    vars: &Vec<VarDecl>,
    ids: &Table<u32>,
    consts: &Vec<(String, LogicVec)>,
) -> (r: Result<(), String>)
    ensures
        laid(
            r,
            final(c)@,
            value_views(final(statics)@),
            with_vars(
                old(c)@,
                value_views(old(statics)@),
                views(vars@),
                ids@,
                const_views(consts@),
            ),
        ),
{
    let ghost all = views(vars@);
    let ghost start = c@;
    let ghost shared = value_views(statics@);
    let mut i: usize = 0;
    while i < vars.len()
        invariant
            i <= vars@.len(),
            all == views(vars@),
            start == old(c)@,
            shared == value_views(old(statics)@),
            with_vars(start, shared, all.take(i as int), ids@, const_views(consts@)) == Ok::<
                (ClassInfoV, Seq<ValueV>),
                Seq<char>,
            >((c@, value_views(statics@))),
        decreases vars@.len() - i,
    {
        let ghost upto = all.take(i + 1);
        assert(upto.drop_last() =~= all.take(i as int));
        assert(upto.last() == vars@[i as int]@);
        if let Err(m) = add_var(c, statics, &vars[i], ids, consts) {
            proof {
                lemma_vars_error(start, shared, all, ids@, const_views(consts@), i as int);
            }
            return Err(m);
        }
        i = i + 1;
    }
    assert(all.take(i as int) =~= all);
    Ok(())
}

// ---- methods ----------------------------------------------------------------------------------

/// A layout with one more method. A method that overrides a virtual one takes
/// its place.
pub open spec fn with_method(c: ClassInfoV, m: MethodIdV) -> ClassInfoV {
    let c1 = ClassInfoV {
        methods: put(c.methods, m.name, m.func),
        method_ret_class: match m.ret_class {
            Some(cid) => put(c.method_ret_class, m.name, cid),
            None => c.method_ret_class,
        },
        ..c
    };
    match lookup(c.vslot_of, m.name) {
        Some(place) => if place < c.vtable.len() {
            ClassInfoV { vtable: c.vtable.update(place as int, m.func), ..c1 }
        } else {
            c1
        },
        None => if m.is_virtual {
            ClassInfoV {
                vslot_of: put(c.vslot_of, m.name, c.vtable.len() as u32),
                vtable: c.vtable.push(m.func),
                ..c1
            }
        } else {
            c1
        },
    }
}

/// A layout with methods.
pub open spec fn with_methods(c: ClassInfoV, methods: Seq<MethodIdV>) -> ClassInfoV
    decreases methods.len(),
{
    if methods.len() == 0 {
        c
    } else {
        with_method(with_methods(c, methods.drop_last()), methods.last())
    }
}

/// Lay out a method.
fn add_method(c: &mut ClassInfo, m: &MethodId)
    ensures
        final(c)@ == with_method(old(c)@, m@),
{
    let place: Option<u32> = c.vslot_of.get(m.name.as_str());
    c.methods.insert(m.name.clone(), m.func);
    if let Some(cid) = m.ret_class {
        c.method_ret_class.insert(m.name.clone(), cid);
    }
    match place {
        Some(place) => {
            if (place as usize) < c.vtable.len() {
                c.vtable.set(place as usize, m.func);
            }
        },
        None => {
            if m.is_virtual {
                let place: u32 = c.vtable.len() as u32;
                c.vslot_of.insert(m.name.clone(), place);
                c.vtable.push(m.func);
            }
        },
    }
}

/// Lay out methods.
fn add_methods(c: &mut ClassInfo, methods: &Vec<MethodId>)
    ensures
        final(c)@ == with_methods(old(c)@, views(methods@)),
{
    let ghost all = views(methods@);
    let ghost start = c@;
    let mut i: usize = 0;
    while i < methods.len()
        invariant
            i <= methods@.len(),
            all == views(methods@),
            c@ == with_methods(start, all.take(i as int)),
        decreases methods@.len() - i,
    {
        let ghost upto = all.take(i + 1);
        assert(upto.drop_last() =~= all.take(i as int));
        assert(upto.last() == methods@[i as int]@);
        add_method(c, &methods[i]);
        i = i + 1;
    }
    assert(all.take(i as int) =~= all);
}

// ---- classes ------------------------------------------------------------------------------------

/// The types that a layout knows: the type parameters, the type aliases and the
/// collection aliases.
pub open spec fn with_types(c: ClassInfoV, d: ClassDeclV, ids: Seq<(Seq<char>, u32)>) -> ClassInfoV {
    with_collections(
        ClassInfoV {
            type_param_default: with_params(c.type_param_default, d.params, ids),
            type_aliases: with_aliases(c.type_aliases, d.type_aliases, ids),
            ..c
        },
        d.collection_aliases,
        ids,
    )
}

/// The layout of a class, and the initial values of the shared storage.
#[verifier::opaque]
pub open spec fn class_layout(
    d: ClassDeclV,
    base: Option<(u32, ClassInfoV)>,
    fids: ClassFidsV,
    ids: Seq<(Seq<char>, u32)>,
    consts: Consts,
    statics: Seq<ValueV>,
) -> Laid {
    let c = with_types(inherited(d.name, d.is_struct, fids.ctor, base), d, ids);
    match with_vars(c, statics, d.fields, ids, consts) {
        Err(m) => Err(m),
        Ok((c1, statics1)) => Ok((with_methods(c1, fids.methods), statics1)),
    }
}

/// Lay out a class.
pub fn build_class_info(
    d: &ClassDecl,
    base: Option<(u32, &ClassInfo)>,
    fids: &ClassFids,
    ids: &Table<u32>,
    consts: &Vec<(String, LogicVec)>,
    statics: &mut Vec<Value>,
) -> (r: Result<ClassInfo, String>)
    ensures
        match r {
            Ok(c) => class_layout(
                d@,
                match base {
                    Some((id, b)) => Some((id, b@)),
                    None => None,
                },
                fids@,
                ids@,
                const_views(consts@),
                value_views(old(statics)@),
            ) == Ok::<(ClassInfoV, Seq<ValueV>), Seq<char>>((c@, value_views(final(statics)@))),
            Err(m) => class_layout(
                d@,
                match base {
                    Some((id, b)) => Some((id, b@)),
                    None => None,
                },
                fids@,
                ids@,
                const_views(consts@),
                value_views(old(statics)@),
            ) == Err::<(ClassInfoV, Seq<ValueV>), Seq<char>>(m@),
        },
{
    reveal(class_layout);
    let mut c: ClassInfo = inherit(d, fids.ctor, base);
    add_params(&mut c.type_param_default, &d.params, ids);
    add_aliases(&mut c.type_aliases, &d.type_aliases, ids);
    add_collections(&mut c, &d.collection_aliases, ids);
    if let Err(m) = add_vars(&mut c, statics, &d.fields, ids, consts) {
        return Err(m);
    }
    add_methods(&mut c, &fids.methods);
    Ok(c)
}

} // verus!
