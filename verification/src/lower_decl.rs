//! Lowering functions, tasks, classes and structs.
use vstd::prelude::*;

use crate::ast::{
    views, ClassDecl, CollKind, CollectionAlias, FuncDecl, Param, ParamDecl, Stmt, TypeAlias,
    TypeRef, VarDecl,
};
use crate::ast_model::{
    ClassDeclV, CollectionAliasV, FuncDeclV, ParamDeclV, ParamV, StmtV, TypeAliasV, TypeRefV,
    VarDeclV,
};
use crate::bit::Bit;
use crate::cst::{
    find, find_deep_in, find_in, find_or, found, found_deep_in, found_in, group_cst, has_tag,
    is_empty, kid_tagged, kids_tagged, opt_node, opt_text, or_else, refs_view, tagged, Node, NodeV,
};
use crate::lower_body::{body_of, lower_body};
use crate::lower_expr::{lower_opt, lowered_opt};
use crate::lower_stmt::initial_value;
use crate::lower_types::{
    assoc_key_class_name, class_type_name, class_type_name_in, class_type_scope, classify_coll,
    collection, data_width_or, deep_identifier, deep_identifier_of, direction, direction_of,
    identifier, identifier_of, is_string_type, key_class, name_of, or_empty, packed_width_or,
    string_type, type_args_in, type_args_of, type_scope_in, unwrap_text, user_type, user_type_in,
};

verus! {

broadcast use group_cst;

// ---- formals ------------------------------------------------------------------

/// The part of a formal that holds its type and name.
pub open spec fn formal_core(n: NodeV) -> NodeV {
    match found(n, "kDataTypeImplicitBasicIdDimensions"@) {
        Some(inner) => inner,
        None => n,
    }
}

/// What a formal of a function or task lowers to.
pub open spec fn formal(n: NodeV) -> ParamV {
    let inner = formal_core(n);
    let dtype = found(inner, "kDataType"@);
    ParamV {
        name: or_empty(identifier(found(inner, "kUnqualifiedId"@))),
        dir: direction(n),
        width: data_width_or(dtype, 32),
        class_name: user_type_in(dtype),
        type_scope: type_scope_in(dtype),
        type_args: type_args_in(dtype),
        coll: match collection(inner) {
            Some(kind) => Some(kind),
            None => collection(n),
        },
        key_class_name: match key_class(inner) {
            Some(name) => Some(name),
            None => key_class(n),
        },
        default: lowered_opt(initial_value(n)),
    }
}

/// Lower a formal of a function or task.
fn lower_port_item(n: &Node) -> (r: Param)
    ensures
        r@ == formal(n@),
{
    let inner: &Node = match find(n, "kDataTypeImplicitBasicIdDimensions") {
        Some(inner) => inner,
        None => n,
    };
    let dtype: Option<&Node> = find(inner, "kDataType");
    let assign: Option<&Node> = find(n, "kTrailingAssign");
    let coll: Option<CollKind> = match classify_coll(inner) {
        Some(kind) => Some(kind),
        None => classify_coll(n),
    };
    let key_class_name: Option<String> = match assoc_key_class_name(inner) {
        Some(name) => Some(name),
        None => assoc_key_class_name(n),
    };
    Param {
        name: name_of(find(inner, "kUnqualifiedId")),
        dir: direction_of(n),
        width: packed_width_or(dtype, 32),
        class_name: class_type_name_in(dtype),
        type_scope: class_type_scope(dtype),
        type_args: type_args_of(dtype),
        coll,
        key_class_name,
        default: lower_opt(find_or(find_in(assign, "kExpression"), find_in(assign, "kClassNew"))),
    }
}

/// What the formals in a list that may be absent lower to.
pub open spec fn formals_in(o: Option<NodeV>) -> Seq<ParamV> {
    match o {
        Some(list) => tagged(list.kids, "kPortItem"@).map_values(|m: NodeV| formal(m)),
        None => Seq::empty(),
    }
}

/// Lower the formals in a list that may be absent.
fn lower_port_list(o: Option<&Node>) -> (r: Vec<Param>)
    ensures
        views(r@) == formals_in(opt_node(o)),
{
    let mut out: Vec<Param> = Vec::new();
    let list: &Node = match o {
        Some(list) => list,
        None => {
            assert(views(out@) =~= Seq::<ParamV>::empty());
            return out;
        },
    };
    let ns: Vec<&Node> = kids_tagged(list, "kPortItem");
    let ghost all = tagged(list@.kids, "kPortItem"@);
    let ghost f = |m: NodeV| formal(m);
    let mut i: usize = 0;
    assert(views(out@) =~= all.take(0).map_values(f));
    while i < ns.len()
        invariant
            i <= ns@.len(),
            all == refs_view(ns@),
            f == (|m: NodeV| formal(m)),
            views(out@) == all.take(i as int).map_values(f),
        decreases ns@.len() - i,
    {
        assert(all[i as int] == ns[i as int]@);
        let p: Param = lower_port_item(ns[i]);
        let ghost before = out@;
        out.push(p);
        i = i + 1;
        assert(views(out@) =~= views(before).push(p@));
        assert(all.take(i as int).map_values(f) =~= all.take(i as int - 1).map_values(f).push(p@));
    }
    assert(all.take(i as int) =~= all);
    out
}

// ---- functions ----------------------------------------------------------------

/// The segments of the name of a method defined outside its class; the
/// constructor is the keyword `new`.
pub open spec fn method_segments(ns: Seq<NodeV>) -> Seq<Seq<char>>
    decreases ns.len(),
{
    if ns.len() == 0 {
        Seq::empty()
    } else {
        let before = method_segments(ns.drop_last());
        let last = ns.last();
        if last.tag == "kUnqualifiedId"@ {
            match identifier(Some(last)) {
                Some(t) => before.push(t),
                None => before,
            }
        } else if last.tag == "new"@ {
            before.push("new"@)
        } else {
            before
        }
    }
}

/// The segments of the name of a method defined outside its class.
fn method_segments_of(n: &Node) -> (r: Vec<String>)
    ensures
        views(r@) == method_segments(n@.kids),
{
    let mut out: Vec<String> = Vec::new();
    let mut i: usize = 0;
    assert(views(out@) =~= method_segments(n@.kids.take(0)));
    while i < n.kids.len()
        invariant
            i <= n.kids@.len(),
            views(out@) == method_segments(n@.kids.take(i as int)),
        decreases n.kids@.len() - i,
    {
        let ghost before = out@;
        let ghost upto = n@.kids.take(i as int + 1);
        assert(upto.drop_last() =~= n@.kids.take(i as int));
        assert(upto.last() == n.kids[i as int]@);
        if has_tag(&n.kids[i], "kUnqualifiedId") {
            if let Some(t) = identifier_of(Some(&n.kids[i])) {
                out.push(t);
                assert(views(out@) =~= views(before).push(t@));
            }
        } else if has_tag(&n.kids[i], "new") {
            let t: String = "new".to_owned();
            out.push(t);
            assert(views(out@) =~= views(before).push("new"@));
        }
        i = i + 1;
    }
    assert(n@.kids.take(i as int) =~= n@.kids);
    out
}

/// The header of a function or task.
pub open spec fn callable_header(n: NodeV) -> Option<NodeV> {
    or_else(found(n, "kFunctionHeader"@), found(n, "kTaskHeader"@))
}

/// The name that a header gives, and the class it names in front of it.
pub open spec fn callable_name(header: Option<NodeV>) -> (Seq<char>, Option<Seq<char>>) {
    match found_in(header, "kQualifiedId"@) {
        Some(q) => {
            let segs = method_segments(q.kids);
            (
                if segs.len() > 0 {
                    segs.last()
                } else {
                    Seq::empty()
                },
                if segs.len() >= 2 {
                    Some(segs[segs.len() - 2])
                } else {
                    None
                },
            )
        },
        None => (or_empty(identifier(found_in(header, "kUnqualifiedId"@))), None),
    }
}

/// The name that a header gives, and the class it names in front of it.
fn callable_name_of(header: Option<&Node>) -> (r: (String, Option<String>))
    ensures
        (r.0@, opt_text(r.1)) == callable_name(opt_node(header)),
{
    match find_in(header, "kQualifiedId") {
        Some(q) => {
            let segs: Vec<String> = method_segments_of(q);
            let ghost all = views(segs@);
            assert(all.len() == segs@.len());
            if segs.len() == 0 {
                return (unwrap_text(None), None);
            }
            assert(all.last() == segs@.last()@);
            let name: String = segs[segs.len() - 1].clone();
            if segs.len() >= 2 {
                assert(all[all.len() - 2] == segs@[segs@.len() - 2]@);
                (name, Some(segs[segs.len() - 2].clone()))
            } else {
                (name, None)
            }
        },
        None => (name_of(find_in(header, "kUnqualifiedId")), None),
    }
}

/// What a function or task lowers to.
pub open spec fn function(n: NodeV) -> FuncDeclV {
    let header = callable_header(n);
    let dtype = found_in(header, "kDataType"@);
    FuncDeclV {
        name: callable_name(header).0,
        ret_width: data_width_or(dtype, 32),
        ret_class: user_type_in(dtype),
        class_scope: callable_name(header).1,
        dpi_name: None,
        is_void: found(n, "kTaskHeader"@) is Some || kid_tagged(
            found_in(dtype, "kDataTypePrimitive"@),
            "void"@,
        ),
        is_virtual: kid_tagged(found_in(header, "kQualifierList"@), "virtual"@),
        params: formals_in(found_in(found_in(header, "kParenGroup"@), "kPortList"@)),
        body: StmtV::Block(
            body_of(or_else(found(n, "kBlockItemStatementList"@), found(n, "kStatementList"@))),
        ),
    }
}

/// Lower a function or task. A task, and a `void` function, returns nothing.
pub fn lower_function(n: &Node) -> (r: FuncDecl)
    ensures
        r@ == function(n@),
{
    let header: Option<&Node> = find_or(find(n, "kFunctionHeader"), find(n, "kTaskHeader"));
    let dtype: Option<&Node> = find_in(header, "kDataType");
    let (name, class_scope) = callable_name_of(header);
    let is_task: bool = find(n, "kTaskHeader").is_some();
    let is_void_return: bool = find_in(find_in(dtype, "kDataTypePrimitive"), "void").is_some();
    let body: Stmt = Stmt::Block(
        lower_body(find_or(find(n, "kBlockItemStatementList"), find(n, "kStatementList"))),
    );
    FuncDecl {
        name,
        ret_width: packed_width_or(dtype, 32),
        ret_class: class_type_name_in(dtype),
        class_scope,
        dpi_name: None,
        is_void: is_task || is_void_return,
        is_virtual: find_in(find_in(header, "kQualifierList"), "virtual").is_some(),
        params: lower_port_list(find_in(find_in(header, "kParenGroup"), "kPortList")),
        body,
    }
}

/// The prototype of a declaration without a body.
pub open spec fn prototype_in(n: NodeV) -> Option<NodeV> {
    or_else(found(n, "kFunctionPrototype"@), found(n, "kTaskPrototype"@))
}

/// What an imported foreign function lowers to: it is called by its own name.
pub open spec fn dpi_import(n: NodeV) -> FuncDeclV {
    match prototype_in(n) {
        Some(p) => FuncDeclV { dpi_name: Some(function(p).name), ..function(p) },
        None => arbitrary(),
    }
}

/// Lower an imported foreign function, which has a prototype.
pub fn lower_dpi_import(n: &Node) -> (r: FuncDecl)
    requires
        prototype_in(n@) is Some,
    ensures
        r@ == dpi_import(n@),
{
    let prototype: &Node = match find(n, "kFunctionPrototype") {
        Some(p) => p,
        None => find(n, "kTaskPrototype").unwrap(),
    };
    let mut function: FuncDecl = lower_function(prototype);
    let name: String = function.name.clone();
    function.dpi_name = Some(name);
    function
}

/// What a method declared without a body lowers to: an abstract method.
pub open spec fn prototype(n: NodeV) -> Option<FuncDeclV> {
    match prototype_in(n) {
        Some(p) => Some(
            FuncDeclV {
                is_virtual: function(p).is_virtual || kid_tagged(
                    found(n, "kQualifierList"@),
                    "virtual"@,
                ),
                ..function(p)
            },
        ),
        None => None,
    }
}

/// Lower a method declared without a body, so that dispatch sees it.
pub fn lower_prototype(n: &Node) -> (r: Option<FuncDecl>)
    ensures
        match r {
            Some(f) => prototype(n@) == Some(f@),
            None => prototype(n@) is None,
        },
{
    match find_or(find(n, "kFunctionPrototype"), find(n, "kTaskPrototype")) {
        Some(p) => {
            let mut function: FuncDecl = lower_function(p);
            let is_virtual: bool = find_in(find(n, "kQualifierList"), "virtual").is_some();
            function.is_virtual = function.is_virtual || is_virtual;
            Some(function)
        },
        None => None,
    }
}

/// What a constructor lowers to.
pub open spec fn constructor(n: NodeV) -> FuncDeclV {
    FuncDeclV {
        name: "new"@,
        ret_width: 0,
        ret_class: None,
        class_scope: None,
        dpi_name: None,
        is_void: true,
        is_virtual: false,
        params: formals_in(
            found_in(
                found_in(found(n, "kClassConstructorPrototype"@), "kParenGroup"@),
                "kPortList"@,
            ),
        ),
        body: StmtV::Block(body_of(found(n, "kStatementList"@))),
    }
}

/// Lower a constructor.
pub fn lower_constructor(n: &Node) -> (r: FuncDecl)
    ensures
        r@ == constructor(n@),
{
    let body: Stmt = Stmt::Block(lower_body(find(n, "kStatementList")));
    FuncDecl {
        name: "new".to_owned(),
        ret_width: 0,
        ret_class: None,
        class_scope: None,
        dpi_name: None,
        is_void: true,
        is_virtual: false,
        params: lower_port_list(
            find_in(find_in(find(n, "kClassConstructorPrototype"), "kParenGroup"), "kPortList"),
        ),
        body,
    }
}

// ---- type declarations --------------------------------------------------------

/// What a `typedef` of a class lowers to.
pub open spec fn class_typedef(n: NodeV) -> Option<TypeAliasV> {
    match (identifier(Some(n)), found(n, "kDataType"@)) {
        (Some(alias), Some(dtype)) => match user_type(dtype) {
            Some(name) => Some(
                TypeAliasV { alias, target: TypeRefV { name, args: type_args_in(Some(dtype)) } },
            ),
            None => None,
        },
        _ => None,
    }
}

/// Lower a `typedef` of a class.
pub fn lower_class_typedef(n: &Node) -> (r: Option<TypeAlias>)
    ensures
        match r {
            Some(a) => class_typedef(n@) == Some(a@),
            None => class_typedef(n@) is None,
        },
{
    let alias: String = match identifier_of(Some(n)) {
        Some(alias) => alias,
        None => {
            return None;
        },
    };
    let dtype: &Node = match find(n, "kDataType") {
        Some(dtype) => dtype,
        None => {
            return None;
        },
    };
    match class_type_name(dtype) {
        Some(name) => Some(
            TypeAlias { alias, target: TypeRef { name, args: type_args_of(Some(dtype)) } },
        ),
        None => None,
    }
}

/// What a `typedef` of a collection lowers to.
pub open spec fn collection_typedef(n: NodeV) -> Option<CollectionAliasV> {
    match (identifier(Some(n)), collection(n), found(n, "kDataType"@)) {
        (Some(alias), Some(kind), Some(dtype)) => Some(
            CollectionAliasV {
                alias,
                kind,
                element: match user_type(dtype) {
                    Some(name) => Some(TypeRefV { name, args: type_args_in(Some(dtype)) }),
                    None => None,
                },
                key: match key_class(n) {
                    Some(name) => Some(TypeRefV { name, args: Seq::empty() }),
                    None => None,
                },
            },
        ),
        _ => None,
    }
}

/// Lower a `typedef` of a collection such as `typedef bit edges_t[uvm_phase]`.
pub fn lower_collection_typedef(n: &Node) -> (r: Option<CollectionAlias>)
    ensures
        match r {
            Some(a) => collection_typedef(n@) == Some(a@),
            None => collection_typedef(n@) is None,
        },
{
    let alias: String = match identifier_of(Some(n)) {
        Some(alias) => alias,
        None => {
            return None;
        },
    };
    let kind: CollKind = match classify_coll(n) {
        Some(kind) => kind,
        None => {
            return None;
        },
    };
    let dtype: &Node = match find(n, "kDataType") {
        Some(dtype) => dtype,
        None => {
            return None;
        },
    };
    let element: Option<TypeRef> = match class_type_name(dtype) {
        Some(name) => Some(TypeRef { name, args: type_args_of(Some(dtype)) }),
        None => None,
    };
    let key: Option<TypeRef> = match assoc_key_class_name(n) {
        Some(name) => Some(TypeRef::simple(name)),
        None => None,
    };
    Some(CollectionAlias { alias, kind, element, key })
}

/// What one member of a struct lowers to.
pub open spec fn struct_member(m: NodeV) -> Option<VarDeclV> {
    match found(m, "kDataTypeImplicitIdDimensions"@) {
        Some(inner) => {
            let dtype = found(inner, "kDataType"@);
            let name = or_empty(identifier(Some(inner)));
            if m.tag == "kStructUnionMember"@ && name.len() > 0 {
                Some(
                    VarDeclV {
                        name,
                        width: data_width_or(dtype, 1),
                        signed: false,
                        class_name: user_type_in(dtype),
                        type_scope: type_scope_in(dtype),
                        type_args: type_args_in(dtype),
                        is_string: string_type(dtype),
                        is_event: found_deep_in(dtype, "event"@) is Some,
                        coll: None,
                        key_class_name: None,
                        is_static: false,
                        init: None,
                    },
                )
            } else {
                None
            }
        },
        None => None,
    }
}

/// What the members of a struct lower to.
pub open spec fn struct_members(ns: Seq<NodeV>) -> Seq<VarDeclV>
    decreases ns.len(),
{
    if ns.len() == 0 {
        Seq::empty()
    } else {
        match struct_member(ns.last()) {
            Some(d) => struct_members(ns.drop_last()).push(d),
            None => struct_members(ns.drop_last()),
        }
    }
}

/// The list of members of a struct declaration.
pub open spec fn struct_list(n: NodeV) -> Option<NodeV> {
    found_in(
        found_in(
            found_in(
                found_in(found(n, "kDataType"@), "kDataTypePrimitive"@),
                "kStructType"@,
            ),
            "kBraceGroup"@,
        ),
        "kStructUnionMemberList"@,
    )
}

/// A class of fields alone.
pub open spec fn struct_class(name: Seq<char>, fields: Seq<VarDeclV>) -> ClassDeclV {
    ClassDeclV {
        name,
        base: None,
        fields,
        methods: Seq::empty(),
        constructor: None,
        type_aliases: Seq::empty(),
        collection_aliases: Seq::empty(),
        params: Seq::empty(),
        base_args: Seq::empty(),
        consts: Seq::empty(),
        is_struct: true,
    }
}

/// What a `typedef struct` lowers to: a class of fields alone.
pub open spec fn struct_typedef(n: NodeV) -> Option<ClassDeclV> {
    match (identifier(Some(n)), struct_list(n)) {
        (Some(name), Some(list)) => Some(struct_class(name, struct_members(list.kids))),
        _ => None,
    }
}

/// Lower one member of a struct.
fn lower_struct_member(m: &Node) -> (r: Option<VarDecl>)
    ensures
        match r {
            Some(d) => struct_member(m@) == Some(d@),
            None => struct_member(m@) is None,
        },
{
    if !has_tag(m, "kStructUnionMember") {
        return None;
    }
    let inner: &Node = match find(m, "kDataTypeImplicitIdDimensions") {
        Some(inner) => inner,
        None => {
            return None;
        },
    };
    let dtype: Option<&Node> = find(inner, "kDataType");
    let name: String = name_of(Some(inner));
    if is_empty(&name) {
        return None;
    }
    Some(
        VarDecl {
            name,
            width: packed_width_or(dtype, 1),
            signed: false,
            class_name: class_type_name_in(dtype),
            type_scope: class_type_scope(dtype),
            type_args: type_args_of(dtype),
            is_string: is_string_type(dtype),
            is_event: find_deep_in(dtype, "event").is_some(),
            coll: None,
            key_class_name: None,
            is_static: false,
            init: None,
        },
    )
}

/// Lower the members of a struct.
fn lower_struct_members(list: &Node) -> (r: Vec<VarDecl>)
    ensures
        views(r@) == struct_members(list@.kids),
{
    let mut fields: Vec<VarDecl> = Vec::new();
    let mut i: usize = 0;
    assert(views(fields@) =~= struct_members(list@.kids.take(0)));
    while i < list.kids.len()
        invariant
            i <= list.kids@.len(),
            views(fields@) == struct_members(list@.kids.take(i as int)),
        decreases list.kids@.len() - i,
    {
        let ghost before = fields@;
        let ghost upto = list@.kids.take(i as int + 1);
        assert(upto.drop_last() =~= list@.kids.take(i as int));
        assert(upto.last() == list.kids[i as int]@);
        if let Some(d) = lower_struct_member(&list.kids[i]) {
            fields.push(d);
            assert(views(fields@) =~= views(before).push(d@));
        }
        i = i + 1;
    }
    assert(list@.kids.take(i as int) =~= list@.kids);
    fields
}

/// A class of fields alone.
fn class_of_fields(name: String, fields: Vec<VarDecl>) -> (r: ClassDecl)
    ensures
        r@ == struct_class(name@, views(fields@)),
{
    let c = ClassDecl {
        name,
        base: None,
        fields,
        methods: Vec::new(),
        constructor: None,
        type_aliases: Vec::new(),
        collection_aliases: Vec::new(),
        params: Vec::new(),
        base_args: Vec::new(),
        consts: Vec::new(),
        is_struct: true,
    };
    proof {
        assert(c@.methods =~= Seq::<FuncDeclV>::empty());
        assert(c@.type_aliases =~= Seq::<TypeAliasV>::empty());
        assert(c@.collection_aliases =~= Seq::<CollectionAliasV>::empty());
        assert(c@.params =~= Seq::<ParamDeclV>::empty());
        assert(c@.base_args =~= Seq::<TypeRefV>::empty());
        assert(c@.consts =~= Seq::<(Seq<char>, Seq<Bit>)>::empty());
    }
    c
}

/// Lower a `typedef struct`. Its values are objects of a class without methods,
/// so that a chain of members reads like a chain of fields.
pub fn lower_struct_typedef(n: &Node) -> (r: Option<ClassDecl>)
    ensures
        match r {
            Some(c) => struct_typedef(n@) == Some(c@),
            None => struct_typedef(n@) is None,
        },
{
    let struct_type: Option<&Node> = find_in(
        find_in(find(n, "kDataType"), "kDataTypePrimitive"),
        "kStructType",
    );
    let list: &Node = match find_in(
        find_in(struct_type, "kBraceGroup"),
        "kStructUnionMemberList",
    ) {
        Some(list) => list,
        None => {
            return None;
        },
    };
    let name: String = match identifier_of(Some(n)) {
        Some(name) => name,
        None => {
            return None;
        },
    };
    Some(class_of_fields(name, lower_struct_members(list)))
}

/// What one formal parameter of a class lowers to.
pub open spec fn class_param(n: NodeV) -> Option<ParamDeclV> {
    if n.tag != "kParamDeclaration"@ {
        None
    } else {
        match found(n, "kTypeAssignment"@) {
            Some(assign) => {
                let name = or_empty(identifier(Some(assign)));
                if name.len() > 0 {
                    Some(
                        ParamDeclV {
                            name,
                            is_type: true,
                            default: user_type_in(found(assign, "kDataType"@)),
                        },
                    )
                } else {
                    None
                }
            },
            None => match found(n, "kParamType"@) {
                Some(t) => {
                    let name = or_empty(deep_identifier(Some(t)));
                    if name.len() > 0 {
                        Some(ParamDeclV { name, is_type: false, default: None })
                    } else {
                        None
                    }
                },
                None => None,
            },
        }
    }
}

/// What the formal parameters of a class lower to.
pub open spec fn class_params_among(ns: Seq<NodeV>) -> Seq<ParamDeclV>
    decreases ns.len(),
{
    if ns.len() == 0 {
        Seq::empty()
    } else {
        match class_param(ns.last()) {
            Some(p) => class_params_among(ns.drop_last()).push(p),
            None => class_params_among(ns.drop_last()),
        }
    }
}

/// What the formal parameters in a class header lower to.
pub open spec fn class_params(header: Option<NodeV>) -> Seq<ParamDeclV> {
    match found_deep_in(header, "kFormalParameterList"@) {
        Some(list) => class_params_among(list.kids),
        None => Seq::empty(),
    }
}

/// Lower one formal parameter of a class.
fn lower_class_param(n: &Node) -> (r: Option<ParamDecl>)
    ensures
        match r {
            Some(p) => class_param(n@) == Some(p@),
            None => class_param(n@) is None,
        },
{
    if !has_tag(n, "kParamDeclaration") {
        return None;
    }
    if let Some(assign) = find(n, "kTypeAssignment") {
        let name: String = name_of(Some(assign));
        if is_empty(&name) {
            return None;
        }
        let default: Option<String> = class_type_name_in(find(assign, "kDataType"));
        return Some(ParamDecl { name, is_type: true, default });
    }
    if let Some(t) = find(n, "kParamType") {
        let name: String = unwrap_text(deep_identifier_of(Some(t)));
        if is_empty(&name) {
            return None;
        }
        return Some(ParamDecl { name, is_type: false, default: None });
    }
    None
}

/// Lower the formal parameters in a class header. A type parameter records its
/// default type.
pub fn lower_formal_params(header: Option<&Node>) -> (r: Vec<ParamDecl>)
    ensures
        views(r@) == class_params(opt_node(header)),
{
    let mut out: Vec<ParamDecl> = Vec::new();
    assert(views(out@) =~= Seq::<ParamDeclV>::empty());
    let list: &Node = match find_deep_in(header, "kFormalParameterList") {
        Some(list) => list,
        None => {
            return out;
        },
    };
    let mut i: usize = 0;
    assert(views(out@) == class_params_among(list@.kids.take(0)));
    while i < list.kids.len()
        invariant
            i <= list.kids@.len(),
            views(out@) == class_params_among(list@.kids.take(i as int)),
        decreases list.kids@.len() - i,
    {
        let ghost before = out@;
        let ghost upto = list@.kids.take(i as int + 1);
        assert(upto.drop_last() =~= list@.kids.take(i as int));
        assert(upto.last() == list.kids[i as int]@);
        if let Some(p) = lower_class_param(&list.kids[i]) {
            out.push(p);
            assert(views(out@) =~= views(before).push(p@));
        }
        i = i + 1;
    }
    assert(list@.kids.take(i as int) =~= list@.kids);
    out
}

} // verus!
