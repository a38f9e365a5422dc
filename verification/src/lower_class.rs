//! Lowering classes.
use vstd::prelude::*;

use crate::ast::{
    clone_type_refs, const_views, type_ref_view, type_refs_view, views, ClassDecl, CollectionAlias,
    FuncDecl, TypeAlias, TypeRef, VarDecl,
};
use crate::ast_model::{
    ClassDeclV, CollectionAliasV, FuncDeclV, TypeAliasV, TypeRefV, VarDeclV,
};
use crate::bit::Bit;
use crate::const_expr::{enum_const_pairs, enum_consts, param_const, param_const_pair, param_fits};
use crate::cst::{
    find, find_deep_in, find_in, found, found_deep_in, found_in, group_cst, has_tag, opt_node,
    opt_text, Node, NodeV,
};
use crate::logic::LogicVec;
use crate::lower_decl::{
    class_params, class_typedef, collection_typedef, constructor, function, lower_class_typedef,
    lower_collection_typedef, lower_constructor, lower_formal_params, lower_function,
    lower_prototype, prototype,
};
use crate::lower_stmt::{data_decls, lower_data_decl};
use crate::lower_types::{
    actual_args_in, deep_identifier, deep_identifier_of, identifier, lower_actual_args_in, name_of,
    or_empty,
};
use crate::text::str_eq;

verus! {

broadcast use group_cst;

/// What the items of a class lower to.
pub struct ClassItemsV {
    pub fields: Seq<VarDeclV>,
    pub methods: Seq<FuncDeclV>,
    pub constructor: Option<FuncDeclV>,
    pub type_aliases: Seq<TypeAliasV>,
    pub collection_aliases: Seq<CollectionAliasV>,
    pub consts: Seq<(Seq<char>, Seq<Bit>)>,
}

/// The first collection alias with a name.
pub open spec fn alias_named(
    aliases: Seq<CollectionAliasV>,
    name: Seq<char>,
) -> Option<CollectionAliasV>
    decreases aliases.len(),
{
    if aliases.len() == 0 {
        None
    } else if aliases[0].alias == name {
        Some(aliases[0])
    } else {
        alias_named(aliases.drop_first(), name)
    }
}

/// A declaration with the collection that its type is an alias of.
pub open spec fn unaliased(d: VarDeclV, aliases: Seq<CollectionAliasV>) -> VarDeclV {
    let alias = match d.class_name {
        Some(name) => if d.coll is None {
            alias_named(aliases, name)
        } else {
            None
        },
        None => None,
    };
    match alias {
        Some(a) => VarDeclV {
            coll: Some(a.kind),
            class_name: match a.element {
                Some(t) => Some(t.name),
                None => None,
            },
            type_scope: None,
            type_args: match a.element {
                Some(t) => t.args,
                None => Seq::empty(),
            },
            key_class_name: match a.key {
                Some(t) => Some(t.name),
                None => None,
            },
            ..d
        },
        None => d,
    }
}

/// The items of a class after one more.
pub open spec fn with_item(so_far: ClassItemsV, item: NodeV) -> ClassItemsV {
    if item.tag == "kDataDeclaration"@ {
        ClassItemsV {
            fields: so_far.fields + data_decls(item).map_values(
                |d: VarDeclV| unaliased(d, so_far.collection_aliases),
            ),
            ..so_far
        }
    } else if item.tag == "kFunctionDeclaration"@ || item.tag == "kTaskDeclaration"@ {
        ClassItemsV { methods: so_far.methods.push(function(item)), ..so_far }
    } else if item.tag == "kClassConstructor"@ {
        ClassItemsV { constructor: Some(constructor(item)), ..so_far }
    } else if item.tag == "kForwardDeclaration"@ {
        match prototype(item) {
            Some(m) => ClassItemsV { methods: so_far.methods.push(m), ..so_far },
            None => so_far,
        }
    } else if item.tag == "kTypeDeclaration"@ {
        ClassItemsV {
            collection_aliases: match collection_typedef(item) {
                Some(a) => so_far.collection_aliases.push(a),
                None => so_far.collection_aliases,
            },
            type_aliases: match class_typedef(item) {
                Some(a) => so_far.type_aliases.push(a),
                None => so_far.type_aliases,
            },
            consts: so_far.consts + enum_consts(item),
            ..so_far
        }
    } else if item.tag == "kParamDeclaration"@ {
        match param_const(item) {
            Some(c) => ClassItemsV { consts: so_far.consts.push(c), ..so_far },
            None => so_far,
        }
    } else {
        so_far
    }
}

/// What the items of a class lower to.
pub open spec fn class_items(ns: Seq<NodeV>) -> ClassItemsV
    decreases ns.len(),
{
    if ns.len() == 0 {
        ClassItemsV {
            fields: Seq::empty(),
            methods: Seq::empty(),
            constructor: None,
            type_aliases: Seq::empty(),
            collection_aliases: Seq::empty(),
            consts: Seq::empty(),
        }
    } else {
        with_item(class_items(ns.drop_last()), ns.last())
    }
}

/// What the items of a class that may have none lower to.
pub open spec fn class_items_in(o: Option<NodeV>) -> ClassItemsV {
    match o {
        Some(list) => class_items(list.kids),
        None => class_items(Seq::empty()),
    }
}

/// What a class lowers to.
pub open spec fn class(n: NodeV) -> ClassDeclV {
    let header = found(n, "kClassHeader"@);
    let extended = found_in(header, "kExtendsList"@);
    let items = class_items_in(found(n, "kClassItems"@));
    ClassDeclV {
        name: or_empty(identifier(header)),
        base: deep_identifier(extended),
        fields: items.fields,
        methods: items.methods,
        constructor: items.constructor,
        type_aliases: items.type_aliases,
        collection_aliases: items.collection_aliases,
        params: class_params(header),
        base_args: actual_args_in(found_deep_in(extended, "kActualParameterList"@)),
        consts: items.consts,
        is_struct: false,
    }
}

/// Whether the constants among some items can be computed.
pub open spec fn params_fit(ns: Seq<NodeV>) -> bool {
    forall|i: int|
        0 <= i < ns.len() && (#[trigger] ns[i]).tag == "kParamDeclaration"@ ==> param_fits(ns[i])
}

/// Whether the constants of a class can be computed.
pub open spec fn class_complete(n: NodeV) -> bool {
    found(n, "kClassItems"@) matches Some(list) ==> params_fit(list.kids)
}

// ---- lowering -------------------------------------------------------------------

/// The items of a class.
struct ClassItems {
    fields: Vec<VarDecl>,
    methods: Vec<FuncDecl>,
    constructor: Option<FuncDecl>,
    type_aliases: Vec<TypeAlias>,
    collection_aliases: Vec<CollectionAlias>,
    consts: Vec<(String, LogicVec)>,
}

impl View for ClassItems {
    type V = ClassItemsV;

    closed spec fn view(&self) -> ClassItemsV {
        ClassItemsV {
            fields: views(self.fields@),
            methods: views(self.methods@),
            constructor: match self.constructor {
                Some(f) => Some(f@),
                None => None,
            },
            type_aliases: views(self.type_aliases@),
            collection_aliases: views(self.collection_aliases@),
            consts: const_views(self.consts@),
        }
    }
}

/// The first collection alias with a name.
fn find_alias<'a>(aliases: &'a Vec<CollectionAlias>, name: &String) -> (r: Option<
    &'a CollectionAlias,
>)
    ensures
        match r {
            Some(a) => alias_named(views(aliases@), name@) == Some(a@),
            None => alias_named(views(aliases@), name@) is None,
        },
{
    let mut i: usize = 0;
    let ghost all = views(aliases@);
    assert(all.skip(0) =~= all);
    while i < aliases.len()
        invariant
            i <= aliases@.len(),
            all == views(aliases@),
            alias_named(all, name@) == alias_named(all.skip(i as int), name@),
        decreases aliases@.len() - i,
    {
        let ghost rest = all.skip(i as int);
        assert(rest[0] == aliases@[i as int]@);
        assert(rest.drop_first() =~= all.skip(i as int + 1));
        if str_eq(aliases[i].alias.as_str(), name.as_str()) {
            return Some(&aliases[i]);
        }
        i = i + 1;
    }
    None
}

/// The name of a type that may be absent.
fn opt_name(o: &Option<TypeRef>) -> (r: Option<String>)
    ensures
        opt_text(r) == (match *o {
            Some(t) => Some(type_ref_view(t).name),
            None => None,
        }),
{
    match o {
        Some(t) => Some(t.name.clone()),
        None => None,
    }
}

/// Give a declaration the collection that its type is an alias of.
fn resolve_alias(d: &VarDecl, aliases: &Vec<CollectionAlias>) -> (r: VarDecl)
    ensures
        r@ == unaliased(d@, views(aliases@)),
{
    if d.coll.is_none() {
        if let Some(name) = &d.class_name {
            if let Some(a) = find_alias(aliases, name) {
                let type_args: Vec<TypeRef> = match &a.element {
                    Some(t) => clone_type_refs(&t.args),
                    None => {
                        let out: Vec<TypeRef> = Vec::new();
                        assert(type_refs_view(out@) =~= Seq::<TypeRefV>::empty());
                        out
                    },
                };
                let class_name: Option<String> = opt_name(&a.element);
                let key_class_name: Option<String> = opt_name(&a.key);
                let mut out: VarDecl = d.clone();
                out.coll = Some(a.kind);
                out.class_name = class_name;
                out.type_scope = None;
                out.type_args = type_args;
                out.key_class_name = key_class_name;
                return out;
            }
        }
    }
    d.clone()
}

/// Add a field declaration to the items of a class.
fn add_fields(so_far: &mut ClassItems, item: &Node)
    ensures
        final(so_far)@ == (ClassItemsV {
            fields: old(so_far)@.fields + data_decls(item@).map_values(
                |d: VarDeclV| unaliased(d, old(so_far)@.collection_aliases),
            ),
            ..old(so_far)@
        }),
{
    let ds: Vec<VarDecl> = lower_data_decl(item);
    let ghost all = views(ds@);
    let ghost aliases = so_far@.collection_aliases;
    let ghost f = |d: VarDeclV| unaliased(d, aliases);
    let ghost before = so_far@;
    let mut i: usize = 0;
    assert(so_far@.fields =~= before.fields + all.take(0).map_values(f));
    while i < ds.len()
        invariant
            i <= ds@.len(),
            all == views(ds@),
            aliases == before.collection_aliases,
            f == (|d: VarDeclV| unaliased(d, aliases)),
            so_far@ == (ClassItemsV {
                fields: before.fields + all.take(i as int).map_values(f),
                ..before
            }),
        decreases ds@.len() - i,
    {
        assert(all[i as int] == ds@[i as int]@);
        let d: VarDecl = resolve_alias(&ds[i], &so_far.collection_aliases);
        let ghost held = so_far@;
        let ghost vs = so_far.fields@;
        assert(d@ == f(all[i as int]));
        so_far.fields.push(d);
        i = i + 1;
        assert(views(so_far.fields@) =~= views(vs).push(d@));
        assert(all.take(i as int).map_values(f) =~= all.take(i as int - 1).map_values(f).push(d@));
        assert(so_far@.fields =~= before.fields + all.take(i as int).map_values(f));
    }
    assert(all.take(i as int) =~= all);
}

/// Append constants.
fn append_consts(out: &mut Vec<(String, LogicVec)>, more: Vec<(String, LogicVec)>)
    ensures
        const_views(final(out)@) == const_views(old(out)@) + const_views(more@),
{
    let mut more: Vec<(String, LogicVec)> = more;
    let ghost a = out@;
    let ghost b = more@;
    out.append(&mut more);
    assert(const_views(out@) =~= const_views(a) + const_views(b));
}

/// Add a type declaration to the items of a class.
fn add_type(so_far: &mut ClassItems, item: &Node)
    ensures
        final(so_far)@ == (ClassItemsV {
            collection_aliases: match collection_typedef(item@) {
                Some(a) => old(so_far)@.collection_aliases.push(a),
                None => old(so_far)@.collection_aliases,
            },
            type_aliases: match class_typedef(item@) {
                Some(a) => old(so_far)@.type_aliases.push(a),
                None => old(so_far)@.type_aliases,
            },
            consts: old(so_far)@.consts + enum_consts(item@),
            ..old(so_far)@
        }),
{
    if let Some(a) = lower_collection_typedef(item) {
        let ghost held = so_far.collection_aliases@;
        so_far.collection_aliases.push(a);
        assert(views(so_far.collection_aliases@) =~= views(held).push(a@));
    }
    if let Some(a) = lower_class_typedef(item) {
        let ghost held = so_far.type_aliases@;
        so_far.type_aliases.push(a);
        assert(views(so_far.type_aliases@) =~= views(held).push(a@));
    }
    append_consts(&mut so_far.consts, enum_const_pairs(item));
}

/// Add a method to the items of a class.
fn add_method(so_far: &mut ClassItems, f: FuncDecl)
    ensures
        final(so_far)@ == (ClassItemsV {
            methods: old(so_far)@.methods.push(f@),
            ..old(so_far)@
        }),
{
    let ghost held = so_far.methods@;
    so_far.methods.push(f);
    assert(views(so_far.methods@) =~= views(held).push(f@));
}

/// Add one item to the items of a class.
fn add_item(so_far: &mut ClassItems, item: &Node)
    requires
        item@.tag == "kParamDeclaration"@ ==> param_fits(item@),
    ensures
        final(so_far)@ == with_item(old(so_far)@, item@),
{
    if has_tag(item, "kDataDeclaration") {
        add_fields(so_far, item);
    } else if has_tag(item, "kFunctionDeclaration") || has_tag(item, "kTaskDeclaration") {
        add_method(so_far, lower_function(item));
    } else if has_tag(item, "kClassConstructor") {
        so_far.constructor = Some(lower_constructor(item));
    } else if has_tag(item, "kForwardDeclaration") {
        if let Some(m) = lower_prototype(item) {
            add_method(so_far, m);
        }
    } else if has_tag(item, "kTypeDeclaration") {
        add_type(so_far, item);
    } else if has_tag(item, "kParamDeclaration") {
        if let Some(c) = param_const_pair(item) {
            let ghost held = so_far.consts@;
            let ghost pair = (c.0@, c.1@);
            so_far.consts.push(c);
            assert(const_views(so_far.consts@) =~= const_views(held).push(pair));
        }
    }
}

/// The items of a class that has none.
fn no_items() -> (r: ClassItems)
    ensures
        r@ == class_items(Seq::empty()),
{
    let r = ClassItems {
        fields: Vec::new(),
        methods: Vec::new(),
        constructor: None,
        type_aliases: Vec::new(),
        collection_aliases: Vec::new(),
        consts: Vec::new(),
    };
    proof {
        assert(r@.fields =~= Seq::<VarDeclV>::empty());
        assert(r@.methods =~= Seq::<FuncDeclV>::empty());
        assert(r@.type_aliases =~= Seq::<TypeAliasV>::empty());
        assert(r@.collection_aliases =~= Seq::<CollectionAliasV>::empty());
        assert(r@.consts =~= Seq::<(Seq<char>, Seq<Bit>)>::empty());
    }
    r
}

/// Lower the items of a class.
fn lower_class_items(o: Option<&Node>) -> (r: ClassItems)
    requires
        opt_node(o) matches Some(list) ==> params_fit(list.kids),
    ensures
        r@ == class_items_in(opt_node(o)),
{
    let mut items: ClassItems = no_items();
    let list: &Node = match o {
        Some(list) => list,
        None => {
            return items;
        },
    };
    let mut i: usize = 0;
    assert(list@.kids.take(0) =~= Seq::<NodeV>::empty());
    while i < list.kids.len()
        invariant
            i <= list.kids@.len(),
            params_fit(list@.kids),
            items@ == class_items(list@.kids.take(i as int)),
        decreases list.kids@.len() - i,
    {
        let ghost upto = list@.kids.take(i as int + 1);
        assert(upto.drop_last() =~= list@.kids.take(i as int));
        assert(upto.last() == list.kids[i as int]@);
        assert(list@.kids[i as int] == list.kids[i as int]@);
        add_item(&mut items, &list.kids[i]);
        i = i + 1;
    }
    assert(list@.kids.take(i as int) =~= list@.kids);
    items
}

/// Lower a class.
///
/// A field whose type is an alias of a collection keeps the kind of collection;
/// else the alias would pass for a class.
pub fn lower_class(n: &Node) -> (r: ClassDecl)
    requires
        class_complete(n@),
    ensures
        r@ == class(n@),
{
    let header: Option<&Node> = find(n, "kClassHeader");
    let extended: Option<&Node> = find_in(header, "kExtendsList");
    let items: ClassItems = lower_class_items(find(n, "kClassItems"));
    ClassDecl {
        name: name_of(header),
        base: deep_identifier_of(extended),
        fields: items.fields,
        methods: items.methods,
        constructor: items.constructor,
        type_aliases: items.type_aliases,
        collection_aliases: items.collection_aliases,
        params: lower_formal_params(header),
        base_args: lower_actual_args_in(find_deep_in(extended, "kActualParameterList")),
        consts: items.consts,
        is_struct: false,
    }
}

} // verus!
