//! The layout of classes, and looking names up in it.
use vstd::prelude::*;

use crate::ast::{const_views, expr_view, exprs_view, CollKind, Expr};
use crate::ast_model::ExprV;
use crate::const_fold::{Consts, Made};
use crate::ir::{Value, ValueV};
use crate::logic::LogicVec;
use crate::message::{text3, text5};
use crate::table::{lookup, Table};
use crate::text::{chars_of, str_eq, string_of};

verus! {

/// A collection: its kind, and the classes of its elements and keys.
#[derive(Debug, Clone, Copy, PartialEq, Eq, Structural)]
pub struct CollInfo {
    pub kind: CollKind,
    pub elem_class: Option<u32>,
    pub key_class: Option<u32>,
}

/// The layout of one class.
#[derive(Debug)]
pub struct ClassInfo {
    pub name: String,
    pub base: Option<u32>,
    /// Fields: slot and width.
    pub field_slot: Table<(u32, u32)>,
    /// Fields that hold handles: the class.
    pub field_class: Table<u32>,
    /// Fields that are collections.
    pub field_coll: Table<CollInfo>,
    /// Fields that are events.
    pub field_events: Table<()>,
    /// Static fields: the place in shared storage.
    pub static_fields: Table<u32>,
    /// Static fields that hold handles: the class.
    pub static_field_class: Table<u32>,
    /// Static fields that are collections.
    pub static_field_coll: Table<CollInfo>,
    /// Type parameters with a class as their default.
    pub type_param_default: Table<u32>,
    /// Type aliases: the class.
    pub type_aliases: Table<u32>,
    /// Aliases of collection types.
    pub collection_aliases: Table<CollInfo>,
    /// Methods that return handles: the class.
    pub method_ret_class: Table<u32>,
    /// The initial values of the fields, by slot.
    pub field_defaults: Vec<Value>,
    /// Methods: the function.
    pub methods: Table<u32>,
    /// Virtual methods, by their place: the function.
    pub vtable: Vec<u32>,
    /// Virtual methods: the place.
    pub vslot_of: Table<u32>,
    pub ctor: Option<u32>,
    /// Whether the class stands for a struct.
    pub is_struct: bool,
}

/// The mathematical form of a [`ClassInfo`].
pub struct ClassInfoV {
    pub name: Seq<char>,
    pub base: Option<u32>,
    pub field_slot: Seq<(Seq<char>, (u32, u32))>,
    pub field_class: Seq<(Seq<char>, u32)>,
    pub field_coll: Seq<(Seq<char>, CollInfo)>,
    pub field_events: Seq<(Seq<char>, ())>,
    pub static_fields: Seq<(Seq<char>, u32)>,
    pub static_field_class: Seq<(Seq<char>, u32)>,
    pub static_field_coll: Seq<(Seq<char>, CollInfo)>,
    pub type_param_default: Seq<(Seq<char>, u32)>,
    pub type_aliases: Seq<(Seq<char>, u32)>,
    pub collection_aliases: Seq<(Seq<char>, CollInfo)>,
    pub method_ret_class: Seq<(Seq<char>, u32)>,
    pub field_defaults: Seq<ValueV>,
    pub methods: Seq<(Seq<char>, u32)>,
    pub vtable: Seq<u32>,
    pub vslot_of: Seq<(Seq<char>, u32)>,
    pub ctor: Option<u32>,
    pub is_struct: bool,
}

/// The mathematical form of values.
pub open spec fn value_views(s: Seq<Value>) -> Seq<ValueV> {
    s.map_values(|v: Value| v@)
}

impl View for ClassInfo {
    type V = ClassInfoV;

    open spec fn view(&self) -> ClassInfoV {
        ClassInfoV {
            name: self.name@,
            base: self.base,
            field_slot: self.field_slot@,
            field_class: self.field_class@,
            field_coll: self.field_coll@,
            field_events: self.field_events@,
            static_fields: self.static_fields@,
            static_field_class: self.static_field_class@,
            static_field_coll: self.static_field_coll@,
            type_param_default: self.type_param_default@,
            type_aliases: self.type_aliases@,
            collection_aliases: self.collection_aliases@,
            method_ret_class: self.method_ret_class@,
            field_defaults: value_views(self.field_defaults@),
            methods: self.methods@,
            vtable: self.vtable@,
            vslot_of: self.vslot_of@,
            ctor: self.ctor,
            is_struct: self.is_struct,
        }
    }
}

/// What code is compiled against: the names of a whole design.
#[derive(Debug)]
pub struct Env {
    /// The nets of the module: number and width.
    pub nets: Table<(u32, u32)>,
    pub funcs: Table<u32>,
    pub class_ids: Table<u32>,
    pub classes: Vec<ClassInfo>,
    /// Enumeration members and parameters.
    pub consts: Vec<(String, LogicVec)>,
    /// Global variables: the place in shared storage.
    pub vars: Table<u32>,
    /// Global variables that are collections.
    pub var_coll: Table<CollInfo>,
    /// Global variables that hold handles: the class.
    pub var_class: Table<u32>,
    /// Type aliases outside classes: the class.
    pub type_aliases: Table<u32>,
    /// Enumeration types: the table of member names.
    pub enums: Table<u32>,
    /// Type aliases that mean the same in every class that has them.
    pub class_typedefs: Table<u32>,
    /// Collection aliases that mean the same in every class that has them.
    pub class_collection_typedefs: Table<CollInfo>,
}

/// The mathematical form of an [`Env`].
pub struct EnvV {
    pub nets: Seq<(Seq<char>, (u32, u32))>,
    pub funcs: Seq<(Seq<char>, u32)>,
    pub class_ids: Seq<(Seq<char>, u32)>,
    pub classes: Seq<ClassInfoV>,
    pub consts: Consts,
    pub vars: Seq<(Seq<char>, u32)>,
    pub var_coll: Seq<(Seq<char>, CollInfo)>,
    pub var_class: Seq<(Seq<char>, u32)>,
    pub type_aliases: Seq<(Seq<char>, u32)>,
    pub enums: Seq<(Seq<char>, u32)>,
    pub class_typedefs: Seq<(Seq<char>, u32)>,
    pub class_collection_typedefs: Seq<(Seq<char>, CollInfo)>,
}

/// The mathematical form of layouts.
pub open spec fn class_views(s: Seq<ClassInfo>) -> Seq<ClassInfoV> {
    s.map_values(|c: ClassInfo| c@)
}

impl View for Env {
    type V = EnvV;

    open spec fn view(&self) -> EnvV {
        EnvV {
            nets: self.nets@,
            funcs: self.funcs@,
            class_ids: self.class_ids@,
            classes: class_views(self.classes@),
            consts: const_views(self.consts@),
            vars: self.vars@,
            var_coll: self.var_coll@,
            var_class: self.var_class@,
            type_aliases: self.type_aliases@,
            enums: self.enums@,
            class_typedefs: self.class_typedefs@,
            class_collection_typedefs: self.class_collection_typedefs@,
        }
    }
}

/// The names of the body being compiled.
#[derive(Debug)]
pub struct Scope {
    /// The class of the method being compiled.
    pub class_ctx: Option<u32>,
    pub this_reg: u32,
    /// Locals that hold handles: the class.
    pub classes: Table<u32>,
    /// Locals that are collections.
    pub colls: Table<CollInfo>,
    /// Locals of enumeration types: the table of member names.
    pub enums: Table<u32>,
    /// Locals that are events.
    pub events: Table<()>,
    /// Locals: register and width.
    pub locals: Table<(u32, u32)>,
    /// The labels that `break` and `continue` go to, innermost loop last.
    pub loops: Vec<(u32, u32)>,
}

/// The mathematical form of a [`Scope`].
pub struct ScopeV {
    pub class_ctx: Option<u32>,
    pub this_reg: u32,
    pub classes: Seq<(Seq<char>, u32)>,
    pub colls: Seq<(Seq<char>, CollInfo)>,
    pub enums: Seq<(Seq<char>, u32)>,
    pub events: Seq<(Seq<char>, ())>,
    pub locals: Seq<(Seq<char>, (u32, u32))>,
    pub loops: Seq<(u32, u32)>,
}

impl View for Scope {
    type V = ScopeV;

    open spec fn view(&self) -> ScopeV {
        ScopeV {
            class_ctx: self.class_ctx,
            this_reg: self.this_reg,
            classes: self.classes@,
            colls: self.colls@,
            enums: self.enums@,
            events: self.events@,
            locals: self.locals@,
            loops: self.loops@,
        }
    }
}

/// No names yet.
pub open spec fn no_scope() -> ScopeV {
    ScopeV {
        class_ctx: None,
        this_reg: 0,
        classes: Seq::empty(),
        colls: Seq::empty(),
        enums: Seq::empty(),
        events: Seq::empty(),
        locals: Seq::empty(),
        loops: Seq::empty(),
    }
}

impl Scope {
    /// No names yet.
    pub fn new() -> (r: Scope)
        ensures
            r@ == no_scope(),
    {
        let r = Scope {
            class_ctx: None,
            this_reg: 0,
            classes: Table::new(),
            colls: Table::new(),
            enums: Table::new(),
            events: Table::new(),
            locals: Table::new(),
            loops: Vec::new(),
        };
        assert(r@.loops =~= Seq::<(u32, u32)>::empty());
        r
    }
}

// ---- classes --------------------------------------------------------------------

/// The layout of a class.
pub open spec fn class_at(env: EnvV, cid: u32) -> Option<ClassInfoV> {
    if cid < env.classes.len() {
        Some(env.classes[cid as int])
    } else {
        None
    }
}

/// The layout of the class of the method being compiled.
pub open spec fn own_class(env: EnvV, sc: ScopeV) -> Option<ClassInfoV> {
    match sc.class_ctx {
        Some(cid) => class_at(env, cid),
        None => None,
    }
}

/// The name of a class.
pub open spec fn class_name_at(env: EnvV, cid: u32) -> Seq<char> {
    match class_at(env, cid) {
        Some(c) => c.name,
        None => Seq::empty(),
    }
}

impl Env {
    /// The layout of a class.
    pub fn class(&self, cid: u32) -> (r: Option<&ClassInfo>)
        ensures
            match r {
                Some(c) => class_at(self@, cid) == Some(c@),
                None => class_at(self@, cid) is None,
            },
    {
        assert(self@.classes.len() == self.classes@.len());
        if (cid as usize) < self.classes.len() {
            Some(&self.classes[cid as usize])
        } else {
            None
        }
    }

    /// The layout of the class of the method being compiled.
    pub fn own(&self, sc: &Scope) -> (r: Option<&ClassInfo>)
        ensures
            match r {
                Some(c) => own_class(self@, sc@) == Some(c@),
                None => own_class(self@, sc@) is None,
            },
    {
        match sc.class_ctx {
            Some(cid) => self.class(cid),
            None => None,
        }
    }

    /// The name of a class.
    pub fn class_name(&self, cid: u32) -> (r: String)
        ensures
            r@ == class_name_at(self@, cid),
    {
        match self.class(cid) {
            Some(c) => c.name.clone(),
            None => {
                let s = String::new();
                assert(s@ =~= Seq::<char>::empty());
                s
            },
        }
    }
}

/// The first of two that is there.
pub open spec fn first_of<T>(a: Option<T>, b: Option<T>) -> Option<T> {
    if a is Some {
        a
    } else {
        b
    }
}

/// A field of the class of the method being compiled: slot and width.
pub open spec fn own_field(env: EnvV, sc: ScopeV, name: Seq<char>) -> Option<(u32, u32)> {
    match own_class(env, sc) {
        Some(c) => lookup(c.field_slot, name),
        None => None,
    }
}

/// The class of a field of the class of the method being compiled.
pub open spec fn own_field_class(env: EnvV, sc: ScopeV, name: Seq<char>) -> Option<u32> {
    match own_class(env, sc) {
        Some(c) => lookup(c.field_class, name),
        None => None,
    }
}

/// A static field of the class of the method being compiled.
pub open spec fn own_static(env: EnvV, sc: ScopeV, name: Seq<char>) -> Option<u32> {
    match own_class(env, sc) {
        Some(c) => lookup(c.static_fields, name),
        None => None,
    }
}

/// The class of a static field of the class of the method being compiled.
pub open spec fn own_static_class(env: EnvV, sc: ScopeV, name: Seq<char>) -> Option<u32> {
    match own_class(env, sc) {
        Some(c) => lookup(c.static_field_class, name),
        None => None,
    }
}

/// Whether the class of the method being compiled has a method.
pub open spec fn own_method(env: EnvV, sc: ScopeV, name: Seq<char>) -> bool {
    match own_class(env, sc) {
        Some(c) => lookup(c.methods, name) is Some,
        None => false,
    }
}

/// The class of the handle that a name holds.
pub open spec fn handle_class(env: EnvV, sc: ScopeV, name: Seq<char>) -> Option<u32> {
    first_of(
        lookup(sc.classes, name),
        first_of(
            own_field_class(env, sc, name),
            first_of(own_static_class(env, sc, name), lookup(env.var_class, name)),
        ),
    )
}

/// Whether a name is a local that holds a plain value or a string.
pub open spec fn plain_local(sc: ScopeV, name: Seq<char>) -> bool {
    &&& lookup(sc.locals, name) is Some
    &&& lookup(sc.classes, name) is None
    &&& lookup(sc.enums, name) is None
    &&& lookup(sc.colls, name) is None
}

impl Env {
    /// A field of the class of the method being compiled.
    pub fn class_field(&self, sc: &Scope, name: &str) -> (r: Option<(u32, u32)>)
        ensures
            r == own_field(self@, sc@, name@),
    {
        match self.own(sc) {
            Some(c) => c.field_slot.get(name),
            None => None,
        }
    }

    /// A static field of the class of the method being compiled.
    pub fn static_field(&self, sc: &Scope, name: &str) -> (r: Option<u32>)
        ensures
            r == own_static(self@, sc@, name@),
    {
        match self.own(sc) {
            Some(c) => c.static_fields.get(name),
            None => None,
        }
    }

    /// Whether the class of the method being compiled has a method.
    pub fn method_of_ctx(&self, sc: &Scope, name: &str) -> (r: bool)
        ensures
            r == own_method(self@, sc@, name@),
    {
        match self.own(sc) {
            Some(c) => c.methods.has(name),
            None => false,
        }
    }

    /// The class of the handle that a name holds.
    pub fn handle(&self, sc: &Scope, name: &str) -> (r: Option<u32>)
        ensures
            r == handle_class(self@, sc@, name@),
    {
        let local: Option<u32> = sc.classes.get(name);
        if local.is_some() {
            return local;
        }
        if let Some(c) = self.own(sc) {
            let field: Option<u32> = c.field_class.get(name);
            if field.is_some() {
                return field;
            }
            let shared: Option<u32> = c.static_field_class.get(name);
            if shared.is_some() {
                return shared;
            }
        }
        self.var_class.get(name)
    }
}

impl Scope {
    /// Whether a name is a local that holds a plain value or a string.
    pub fn is_string_local(&self, name: &str) -> (r: bool)
        ensures
            r == plain_local(self@, name@),
    {
        self.locals.has(name) && !self.classes.has(name) && !self.enums.has(name)
            && !self.colls.has(name)
    }
}

// ---- scoped names -----------------------------------------------------------------

/// Where the first `::` stands; the length where there is none.
pub open spec fn scope_mark(s: Seq<char>) -> nat
    decreases s.len(),
{
    if s.len() < 2 {
        s.len()
    } else if s[0] == ':' && s[1] == ':' {
        0
    } else {
        1 + scope_mark(s.skip(1))
    }
}

/// The pieces of a name between `::`.
pub open spec fn scope_pieces(s: Seq<char>) -> Seq<Seq<char>>
    decreases s.len(),
{
    let i = scope_mark(s);
    if i + 2 <= s.len() {
        seq![s.take(i as int)] + scope_pieces(s.skip(i as int + 2))
    } else {
        seq![s]
    }
}

/// A name resolved to a class without a scope: a class, or an alias of one.
pub open spec fn plain_class(env: EnvV, sc: ScopeV, name: Seq<char>) -> Option<u32> {
    first_of(
        lookup(env.class_ids, name),
        first_of(
            lookup(env.type_aliases, name),
            first_of(
                lookup(env.class_typedefs, name),
                match own_class(env, sc) {
                    Some(c) => first_of(
                        lookup(c.type_aliases, name),
                        lookup(c.type_param_default, name),
                    ),
                    None => None,
                },
            ),
        ),
    )
}

/// The class that aliases lead to, each of the class before it.
pub open spec fn alias_path(env: EnvV, cid: u32, aliases: Seq<Seq<char>>) -> Option<u32>
    decreases aliases.len(),
{
    if aliases.len() == 0 {
        Some(cid)
    } else {
        match class_at(env, cid) {
            Some(c) => match lookup(c.type_aliases, aliases[0]) {
                Some(next) => alias_path(env, next, aliases.drop_first()),
                None => None,
            },
            None => None,
        }
    }
}

/// The class that a name means: a class, an alias, or a type parameter with a
/// default; `A::b::c` is the alias `c` of the alias `b` of the class `A`.
pub open spec fn class_named(env: EnvV, sc: ScopeV, name: Seq<char>) -> Option<u32> {
    let pieces = scope_pieces(name);
    if lookup(env.class_ids, name) is Some {
        lookup(env.class_ids, name)
    } else if pieces.len() > 1 {
        match plain_class(env, sc, pieces[0]) {
            Some(cid) => alias_path(env, cid, pieces.drop_first()),
            None => None,
        }
    } else {
        plain_class(env, sc, name)
    }
}

/// Where the first `::` stands.
fn find_mark(s: &[char]) -> (r: usize)
    ensures
        r == scope_mark(s@),
        r <= s@.len(),
{
    let mut i: usize = 0;
    assert(s@.skip(0) =~= s@);
    while i < s.len() && s.len() - i >= 2
        invariant
            i <= s@.len(),
            scope_mark(s@) == i + scope_mark(s@.skip(i as int)),
        decreases s@.len() - i,
    {
        let ghost rest = s@.skip(i as int);
        assert(rest[0] == s@[i as int] && rest[1] == s@[i + 1]);
        assert(rest.skip(1) =~= s@.skip(i as int + 1));
        if s[i] == ':' && s[i + 1] == ':' {
            return i;
        }
        i = i + 1;
    }
    s.len()
}

/// The strings of texts.
pub open spec fn string_views(s: Seq<String>) -> Seq<Seq<char>> {
    s.map_values(|t: String| t@)
}

/// The pieces of a name between `::`.
fn split_scope(name: &str) -> (r: Vec<String>)
    ensures
        string_views(r@) == scope_pieces(name@),
        r@.len() >= 1,
{
    let all: Vec<char> = chars_of(name);
    let mut out: Vec<String> = Vec::new();
    let mut from: usize = 0;
    assert(all@.skip(0) =~= all@);
    assert(string_views(out@) + scope_pieces(all@) =~= scope_pieces(all@));
    loop
        invariant
            from <= all@.len(),
            all@ == name@,
            scope_pieces(name@) == string_views(out@) + scope_pieces(all@.skip(from as int)),
        decreases all@.len() - from,
    {
        let ghost rest = all@.skip(from as int);
        let tail: &[char] = vstd::slice::slice_subrange(all.as_slice(), from, all.len());
        assert(tail@ =~= rest);
        let i: usize = find_mark(tail);
        let ghost before = out@;
        if i < tail.len() && tail.len() - i >= 2 {
            let piece: String = string_of(vstd::slice::slice_subrange(tail, 0, i));
            assert(piece@ =~= rest.take(i as int));
            out.push(piece);
            assert(string_views(out@) =~= string_views(before).push(piece@));
            assert(rest.skip(i as int + 2) =~= all@.skip(from + i + 2));
            assert(string_views(before) + (seq![piece@] + scope_pieces(rest.skip(i as int + 2)))
                =~= string_views(out@) + scope_pieces(rest.skip(i as int + 2)));
            from = from + i + 2;
        } else {
            let piece: String = string_of(tail);
            out.push(piece);
            assert(string_views(out@) =~= string_views(before).push(piece@));
            assert(string_views(before) + seq![rest] =~= string_views(out@));
            return out;
        }
    }
}

impl Env {
    /// A name resolved to a class without a scope.
    fn plain(&self, sc: &Scope, name: &str) -> (r: Option<u32>)
        ensures
            r == plain_class(self@, sc@, name@),
    {
        let a: Option<u32> = self.class_ids.get(name);
        if a.is_some() {
            return a;
        }
        let b: Option<u32> = self.type_aliases.get(name);
        if b.is_some() {
            return b;
        }
        let c: Option<u32> = self.class_typedefs.get(name);
        if c.is_some() {
            return c;
        }
        match self.own(sc) {
            Some(c) => {
                let d: Option<u32> = c.type_aliases.get(name);
                if d.is_some() {
                    return d;
                }
                c.type_param_default.get(name)
            },
            None => None,
        }
    }

    /// The class that a name means.
    pub fn resolve_class(&self, sc: &Scope, name: &str) -> (r: Option<u32>)
        ensures
            r == class_named(self@, sc@, name@),
    {
        let direct: Option<u32> = self.class_ids.get(name);
        if direct.is_some() {
            return direct;
        }
        let pieces: Vec<String> = split_scope(name);
        let ghost all = string_views(pieces@);
        assert(all.len() == pieces@.len());
        if pieces.len() == 1 {
            return self.plain(sc, name);
        }
        assert(all[0] == pieces@[0]@);
        let mut cid: u32 = match self.plain(sc, pieces[0].as_str()) {
            Some(cid) => cid,
            None => {
                return None;
            },
        };
        let mut i: usize = 1;
        assert(all.skip(1) =~= all.drop_first());
        while i < pieces.len()
            invariant
                1 <= i <= pieces@.len(),
                all == string_views(pieces@),
                class_named(self@, sc@, name@) == alias_path(self@, cid, all.skip(i as int)),
            decreases pieces@.len() - i,
        {
            let ghost rest = all.skip(i as int);
            assert(rest[0] == pieces@[i as int]@);
            assert(rest.drop_first() =~= all.skip(i as int + 1));
            let next: Option<u32> = match self.class(cid) {
                Some(c) => c.type_aliases.get(pieces[i].as_str()),
                None => None,
            };
            match next {
                Some(n) => {
                    cid = n;
                },
                None => {
                    return None;
                },
            }
            i = i + 1;
        }
        Some(cid)
    }
}

/// The class that a name that may be absent means.
pub open spec fn opt_class(env: EnvV, sc: ScopeV, name: Option<Seq<char>>) -> Option<u32> {
    match name {
        Some(n) => class_named(env, sc, n),
        None => None,
    }
}

/// A collection alias of a class.
pub open spec fn alias_of_class(env: EnvV, cid: Option<u32>, name: Seq<char>) -> Option<CollInfo> {
    match cid {
        Some(c) => match class_at(env, c) {
            Some(info) => lookup(info.collection_aliases, name),
            None => None,
        },
        None => None,
    }
}

/// The collection that an alias means: in its scope, in the class of the method
/// being compiled, or in every class that has it.
pub open spec fn collection_named(
    env: EnvV,
    sc: ScopeV,
    scope: Option<Seq<char>>,
    name: Seq<char>,
) -> Option<CollInfo> {
    first_of(
        alias_of_class(env, opt_class(env, sc, scope), name),
        first_of(
            alias_of_class(env, sc.class_ctx, name),
            lookup(env.class_collection_typedefs, name),
        ),
    )
}

/// The view of a name that may be absent.
pub open spec fn name_view(o: Option<String>) -> Option<Seq<char>> {
    match o {
        Some(s) => Some(s@),
        None => None,
    }
}

impl Env {
    /// The class that a name that may be absent means.
    pub fn resolve_opt(&self, sc: &Scope, name: &Option<String>) -> (r: Option<u32>)
        ensures
            r == opt_class(self@, sc@, name_view(*name)),
    {
        match name {
            Some(n) => self.resolve_class(sc, n.as_str()),
            None => None,
        }
    }

    /// The collection that an alias means.
    pub fn resolve_collection_alias(
        &self,
        sc: &Scope,
        scope: &Option<String>,
        name: &str,
    ) -> (r: Option<CollInfo>)
        ensures
            r == collection_named(self@, sc@, name_view(*scope), name@),
    {
        if let Some(cid) = self.resolve_opt(sc, scope) {
            if let Some(c) = self.class(cid) {
                let a: Option<CollInfo> = c.collection_aliases.get(name);
                if a.is_some() {
                    return a;
                }
            }
        }
        if let Some(c) = self.own(sc) {
            let a: Option<CollInfo> = c.collection_aliases.get(name);
            if a.is_some() {
                return a;
            }
        }
        self.class_collection_typedefs.get(name)
    }
}

// ---- receivers --------------------------------------------------------------------

/// The class of the handle that an expression is, where it is plainly one.
pub open spec fn class_of(env: EnvV, sc: ScopeV, e: ExprV) -> Option<u32>
    decreases e,
{
    match e {
        ExprV::Ref(name) => if name == "this"@ {
            sc.class_ctx
        } else {
            handle_class(env, sc, name)
        },
        ExprV::Field { obj, field } => match class_of(env, sc, *obj) {
            Some(cid) => match class_at(env, cid) {
                Some(c) => lookup(c.field_class, field),
                None => None,
            },
            None => None,
        },
        _ => None,
    }
}

/// The collection that an expression is, where it is one.
pub open spec fn collection_of(env: EnvV, sc: ScopeV, e: ExprV) -> Option<CollInfo> {
    match e {
        ExprV::Ref(name) => if name == "this"@ {
            None
        } else {
            first_of(
                lookup(sc.colls, name),
                first_of(
                    match own_class(env, sc) {
                        Some(c) => first_of(
                            lookup(c.field_coll, name),
                            lookup(c.static_field_coll, name),
                        ),
                        None => None,
                    },
                    lookup(env.var_coll, name),
                ),
            )
        },
        ExprV::Field { obj, field } => match class_of(env, sc, *obj) {
            Some(cid) => match class_at(env, cid) {
                Some(c) => first_of(
                    lookup(c.field_coll, field),
                    lookup(c.static_field_coll, field),
                ),
                None => None,
            },
            None => None,
        },
        ExprV::StaticCall { class_name, class_args, method, args } => if args.len() == 0
            && class_named(env, sc, class_name) is None {
            lookup(env.var_coll, method)
        } else {
            None
        },
        _ => None,
    }
}

/// The class of the elements of the collection that an expression is.
pub open spec fn element_class(env: EnvV, sc: ScopeV, e: ExprV) -> Option<u32> {
    match collection_of(env, sc, e) {
        Some(info) => info.elem_class,
        None => None,
    }
}

/// The class that a method of a class returns.
pub open spec fn returned_class(env: EnvV, cid: u32, method: Seq<char>) -> Option<u32> {
    match class_at(env, cid) {
        Some(c) => lookup(c.method_ret_class, method),
        None => None,
    }
}

/// The value, or an error where there is none.
pub open spec fn or_error<T>(o: Option<T>, m: Seq<char>) -> Made<T> {
    match o {
        Some(v) => Ok(v),
        None => Err(m),
    }
}

/// The class of the receiver of a method or field, or why it has none.
pub open spec fn receiver(env: EnvV, sc: ScopeV, e: ExprV) -> Made<u32>
    decreases e,
{
    match e {
        ExprV::Ref(name) => if name == "this"@ {
            or_error(sc.class_ctx, "`this` used outside a method"@)
        } else {
            or_error(handle_class(env, sc, name), "'"@ + name + "' is not a class handle"@)
        },
        ExprV::Field { obj, field } => match receiver(env, sc, *obj) {
            Err(m) => Err(m),
            Ok(cid) => or_error(
                match class_at(env, cid) {
                    Some(c) => first_of(
                        lookup(c.field_class, field),
                        lookup(c.static_field_class, field),
                    ),
                    None => None,
                },
                "field '"@ + field + "' is not a class handle on '"@ + class_name_at(env, cid)
                    + "'"@,
            ),
        },
        ExprV::MethodCall { obj, method, args } => match receiver(env, sc, *obj) {
            Err(m) => Err(m),
            Ok(cid) => or_error(
                returned_class(env, cid, method),
                "method '"@ + method + "' does not return a class handle on '"@ + class_name_at(
                    env,
                    cid,
                ) + "'"@,
            ),
        },
        ExprV::StaticCall { class_name, class_args, method, args } => match class_named(
            env,
            sc,
            class_name,
        ) {
            None => Err("static call on unknown class '"@ + class_name + "'"@),
            Some(cid) => or_error(
                returned_class(env, cid, method),
                "static method '"@ + method + "' does not return a class handle"@,
            ),
        },
        ExprV::Call { name, args } => if own_method(env, sc, name) {
            or_error(
                match sc.class_ctx {
                    Some(cid) => returned_class(env, cid, name),
                    None => None,
                },
                "method '"@ + name + "' does not return a class handle"@,
            )
        } else {
            Err("unsupported method/field receiver expression"@)
        },
        ExprV::Index { base, index } => or_error(
            element_class(env, sc, *base),
            "indexed receiver is not a class-handle collection"@,
        ),
        _ => Err("unsupported method/field receiver expression"@),
    }
}

/// What a lookup gives.
pub open spec fn made<T>(r: Result<T, String>) -> Made<T> {
    match r {
        Ok(v) => Ok(v),
        Err(m) => Err(m@),
    }
}

/// Whether an expression is a named event.
pub open spec fn named_event(env: EnvV, sc: ScopeV, e: ExprV) -> Made<bool> {
    match e {
        ExprV::Ref(name) => Ok(
            lookup(sc.events, name) is Some || (match own_class(env, sc) {
                Some(c) => lookup(c.field_events, name) is Some,
                None => false,
            }),
        ),
        ExprV::Field { obj, field } => match receiver(env, sc, *obj) {
            Err(m) => Err(m),
            Ok(cid) => Ok(
                match class_at(env, cid) {
                    Some(c) => lookup(c.field_events, field) is Some,
                    None => false,
                },
            ),
        },
        _ => Ok(false),
    }
}

impl Env {
    /// The class of the handle that an expression is, where it is plainly one.
    pub fn try_class_of(&self, sc: &Scope, e: &Expr) -> (r: Option<u32>)
        ensures
            r == class_of(self@, sc@, e@),
        decreases e,
    {
        match e {
            Expr::Ref(name) => if str_eq(name.as_str(), "this") {
                sc.class_ctx
            } else {
                self.handle(sc, name.as_str())
            },
            Expr::Field { obj, field } => {
                assert((**obj)@ == expr_view(**obj));
                match self.try_class_of(sc, obj) {
                    Some(cid) => match self.class(cid) {
                        Some(c) => c.field_class.get(field.as_str()),
                        None => None,
                    },
                    None => None,
                }
            },
            _ => None,
        }
    }

    /// The collection that an expression is, where it is one.
    pub fn coll_of_receiver(&self, sc: &Scope, e: &Expr) -> (r: Option<CollInfo>)
        ensures
            r == collection_of(self@, sc@, e@),
    {
        match e {
            Expr::Ref(name) => {
                if str_eq(name.as_str(), "this") {
                    return None;
                }
                let local: Option<CollInfo> = sc.colls.get(name.as_str());
                if local.is_some() {
                    return local;
                }
                if let Some(c) = self.own(sc) {
                    let field: Option<CollInfo> = c.field_coll.get(name.as_str());
                    if field.is_some() {
                        return field;
                    }
                    let shared: Option<CollInfo> = c.static_field_coll.get(name.as_str());
                    if shared.is_some() {
                        return shared;
                    }
                }
                self.var_coll.get(name.as_str())
            },
            Expr::Field { obj, field } => {
                assert((**obj)@ == expr_view(**obj));
                match self.try_class_of(sc, obj) {
                    Some(cid) => match self.class(cid) {
                        Some(c) => {
                            let own: Option<CollInfo> = c.field_coll.get(field.as_str());
                            if own.is_some() {
                                return own;
                            }
                            c.static_field_coll.get(field.as_str())
                        },
                        None => None,
                    },
                    None => None,
                }
            },
            Expr::StaticCall { class_name, class_args, method, args } => {
                assert(exprs_view(args@).len() == args@.len());
                if args.len() == 0 && self.resolve_class(sc, class_name.as_str()).is_none() {
                    self.var_coll.get(method.as_str())
                } else {
                    None
                }
            },
            _ => None,
        }
    }

    /// The class of the elements of the collection that an expression is.
    pub fn coll_elem_class(&self, sc: &Scope, e: &Expr) -> (r: Option<u32>)
        ensures
            r == element_class(self@, sc@, e@),
    {
        match self.coll_of_receiver(sc, e) {
            Some(info) => info.elem_class,
            None => None,
        }
    }

    /// The class that a method of a class returns.
    fn method_class(&self, cid: u32, method: &str) -> (r: Option<u32>)
        ensures
            r == returned_class(self@, cid, method@),
    {
        match self.class(cid) {
            Some(c) => c.method_ret_class.get(method),
            None => None,
        }
    }

    /// The class of the receiver of a method or field, or why it has none.
    pub fn receiver_class(&self, sc: &Scope, e: &Expr) -> (r: Result<u32, String>)
        ensures
            made(r) == receiver(self@, sc@, e@),
        decreases e,
    {
        match e {
            Expr::Ref(name) => {
                if str_eq(name.as_str(), "this") {
                    return match sc.class_ctx {
                        Some(cid) => Ok(cid),
                        None => Err("`this` used outside a method".to_owned()),
                    };
                }
                match self.handle(sc, name.as_str()) {
                    Some(cid) => Ok(cid),
                    None => Err(text3("'", name.as_str(), "' is not a class handle")),
                }
            },
            Expr::Field { obj, field } => {
                assert((**obj)@ == expr_view(**obj));
                let cid: u32 = match self.receiver_class(sc, obj) {
                    Ok(cid) => cid,
                    Err(m) => {
                        return Err(m);
                    },
                };
                if let Some(c) = self.class(cid) {
                    if let Some(f) = c.field_class.get(field.as_str()) {
                        return Ok(f);
                    }
                    if let Some(f) = c.static_field_class.get(field.as_str()) {
                        return Ok(f);
                    }
                }
                Err(
                    text5(
                        "field '",
                        field.as_str(),
                        "' is not a class handle on '",
                        self.class_name(cid).as_str(),
                        "'",
                    ),
                )
            },
            Expr::MethodCall { obj, method, args } => {
                assert((**obj)@ == expr_view(**obj));
                let cid: u32 = match self.receiver_class(sc, obj) {
                    Ok(cid) => cid,
                    Err(m) => {
                        return Err(m);
                    },
                };
                match self.method_class(cid, method.as_str()) {
                    Some(f) => Ok(f),
                    None => Err(
                        text5(
                            "method '",
                            method.as_str(),
                            "' does not return a class handle on '",
                            self.class_name(cid).as_str(),
                            "'",
                        ),
                    ),
                }
            },
            Expr::StaticCall { class_name, class_args, method, args } => {
                let cid: u32 = match self.resolve_class(sc, class_name.as_str()) {
                    Some(cid) => cid,
                    None => {
                        return Err(
                            text3("static call on unknown class '", class_name.as_str(), "'"),
                        );
                    },
                };
                match self.method_class(cid, method.as_str()) {
                    Some(f) => Ok(f),
                    None => Err(
                        text3("static method '", method.as_str(), "' does not return a class handle"),
                    ),
                }
            },
            Expr::Call { name, args } => {
                if !self.method_of_ctx(sc, name.as_str()) {
                    return Err("unsupported method/field receiver expression".to_owned());
                }
                let found: Option<u32> = match sc.class_ctx {
                    Some(cid) => self.method_class(cid, name.as_str()),
                    None => None,
                };
                match found {
                    Some(f) => Ok(f),
                    None => Err(
                        text3("method '", name.as_str(), "' does not return a class handle"),
                    ),
                }
            },
            Expr::Index { base, index } => {
                assert((**base)@ == expr_view(**base));
                match self.coll_elem_class(sc, base) {
                    Some(f) => Ok(f),
                    None => Err("indexed receiver is not a class-handle collection".to_owned()),
                }
            },
            _ => Err("unsupported method/field receiver expression".to_owned()),
        }
    }

    /// Whether an expression is a named event.
    pub fn is_named_event_expr(&self, sc: &Scope, e: &Expr) -> (r: Result<bool, String>)
        ensures
            made(r) == named_event(self@, sc@, e@),
    {
        match e {
            Expr::Ref(name) => {
                if sc.events.has(name.as_str()) {
                    return Ok(true);
                }
                match self.own(sc) {
                    Some(c) => Ok(c.field_events.has(name.as_str())),
                    None => Ok(false),
                }
            },
            Expr::Field { obj, field } => {
                assert((**obj)@ == expr_view(**obj));
                match self.receiver_class(sc, obj) {
                    Err(m) => Err(m),
                    Ok(cid) => match self.class(cid) {
                        Some(c) => Ok(c.field_events.has(field.as_str())),
                        None => Ok(false),
                    },
                }
            },
            _ => Ok(false),
        }
    }
}

} // verus!
