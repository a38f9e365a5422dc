//! Lowering a concrete syntax tree to the syntax tree.
//!
//! Items outside the supported subset are skipped.
use vstd::prelude::*;

use crate::ast::{
    const_views, views, AlwaysBlock, AlwaysKind, ContinuousDelay, Item, Module, ModuleInstance,
    ModuleItem, NetDecl, Package, SourceFile, Stmt, VarDecl,
};
use crate::ast_model::{
    AlwaysBlockV, ItemV, ModuleInstanceV, ModuleItemV, ModuleV, NetDeclV, PackageV, SourceFileV,
    StmtV, VarDeclV,
};
use crate::bit::Bit;
use crate::const_expr::{enum_const_pairs, enum_consts, param_const, param_const_pair, param_fits};
use crate::cst::{
    find, first_kid, first_kid_of, found, found_deep, group_cst, has_tag, is_empty, kid,
    kids_tagged, lemma_size_last, nth_kid, refs_view, size, size_all, tagged, Node, NodeV,
};
use crate::drive::{drive_strength, lower_strength, StrengthMark};
use crate::logic::LogicVec;
use crate::lower_body::{lower_stmt, lowered_stmt};
use crate::lower_class::{class, class_complete, lower_class};
use crate::lower_decl::{
    class_typedef, dpi_import, function, lower_class_typedef, lower_dpi_import, lower_function,
    lower_struct_typedef, prototype_in, struct_typedef,
};
use crate::lower_expr::lower_lvalue;
use crate::lower_expr::target;
use crate::lower_module::{
    instances, lower_delay_in, lower_module_instances, lower_module_parameters, lower_module_ports,
    lower_net_decl, module_parameters, module_ports, net_decls, opt_delay, opt_delay_complete,
};
use crate::lower_stmt::{assigned, data_decls, lower_data_decl, lower_rhs};
use crate::lower_types::{identifier, identifier_of, name_of, or_empty};

verus! {

broadcast use group_cst;

// ---- what items lower to --------------------------------------------------------

/// What the enumeration in a declaration lowers to: a constant for each member,
/// and the members of a named type.
pub open spec fn enum_items(n: NodeV) -> Seq<ModuleItemV> {
    let members = enum_consts(n);
    let consts = members.map_values(
        |c: (Seq<char>, Seq<Bit>)| ModuleItemV::EnumConst { name: c.0, value: c.1 },
    );
    match identifier(Some(n)) {
        Some(name) => if members.len() > 0 && name.len() > 0 {
            consts.push(ModuleItemV::EnumType { name, members })
        } else {
            consts
        },
        None => consts,
    }
}

/// What an `always` block lowers to.
pub open spec fn always(n: NodeV) -> AlwaysBlockV {
    AlwaysBlockV {
        kind: match first_kid(Some(n)) {
            Some(c) => if c.tag == "always_ff"@ {
                AlwaysKind::Ff
            } else if c.tag == "always_comb"@ {
                AlwaysKind::Comb
            } else if c.tag == "always_latch"@ {
                AlwaysKind::Latch
            } else {
                AlwaysKind::Plain
            },
            None => AlwaysKind::Plain,
        },
        body: second_stmt(n),
    }
}

/// What the statement behind a keyword lowers to.
pub open spec fn second_stmt(n: NodeV) -> StmtV {
    match nth_kid(Some(n), 1) {
        Some(s) => lowered_stmt(s),
        None => StmtV::Null,
    }
}

/// What one continuous assignment lowers to.
pub open spec fn continuous(n: NodeV, m: NodeV, marks: Seq<StrengthMark>) -> ModuleItemV {
    ModuleItemV::ContinuousAssign {
        lhs: target(m),
        rhs: assigned(m),
        delay: opt_delay(found(n, "kDelay"@)),
        strength: drive_strength(n, marks),
    }
}

/// What a list of continuous assignments lowers to.
pub open spec fn continuous_assigns(n: NodeV, marks: Seq<StrengthMark>) -> Seq<ModuleItemV> {
    match found(n, "kAssignmentList"@) {
        Some(list) => tagged(list.kids, "kNetVariableAssignment"@).map_values(
            |m: NodeV| continuous(n, m, marks),
        ),
        None => Seq::empty(),
    }
}

/// What a declaration of variables or instances lowers to.
pub open spec fn data_items(n: NodeV) -> Seq<ModuleItemV> {
    enum_items(n) + data_decls(n).map_values(|d: VarDeclV| ModuleItemV::Var(d)) + instances(
        n,
    ).map_values(|i: ModuleInstanceV| ModuleItemV::Instance(i))
}

/// What a type declaration lowers to.
pub open spec fn type_items(n: NodeV) -> Seq<ModuleItemV> {
    match struct_typedef(n) {
        Some(c) => enum_items(n).push(ModuleItemV::Class(Box::new(c))),
        None => match class_typedef(n) {
            Some(a) => enum_items(n).push(ModuleItemV::TypeAlias(a)),
            None => enum_items(n),
        },
    }
}

/// Whether a node is a list of items.
pub open spec fn is_item_list(n: NodeV) -> bool {
    n.tag == "kModuleItemList"@ || n.tag == "kPackageItemList"@ || n.tag == "kClassItems"@
}

/// What an item that is not a list lowers to.
pub open spec fn single_item(n: NodeV, marks: Seq<StrengthMark>) -> Seq<ModuleItemV> {
    if n.tag == "kDataDeclaration"@ {
        data_items(n)
    } else if n.tag == "kNetDeclaration"@ {
        net_decls(n).map_values(|d: NetDeclV| ModuleItemV::Net(d))
    } else if n.tag == "kAlwaysStatement"@ {
        seq![ModuleItemV::Always(always(n))]
    } else if n.tag == "kInitialStatement"@ {
        seq![ModuleItemV::Initial(second_stmt(n))]
    } else if n.tag == "kContinuousAssignmentStatement"@ {
        continuous_assigns(n, marks)
    } else if n.tag == "kFunctionDeclaration"@ || n.tag == "kTaskDeclaration"@ {
        seq![ModuleItemV::Func(function(n))]
    } else if n.tag == "kDPIImportItem"@ {
        seq![ModuleItemV::Func(dpi_import(n))]
    } else if n.tag == "kClassDeclaration"@ {
        seq![ModuleItemV::Class(Box::new(class(n)))]
    } else if n.tag == "kParamDeclaration"@ {
        match param_const(n) {
            Some(c) => seq![ModuleItemV::EnumConst { name: c.0, value: c.1 }],
            None => Seq::empty(),
        }
    } else if n.tag == "kTypeDeclaration"@ {
        type_items(n)
    } else {
        Seq::empty()
    }
}

/// What a module or package item lowers to.
pub open spec fn lowered_item(n: NodeV, marks: Seq<StrengthMark>) -> Seq<ModuleItemV>
    decreases size(n), 0int,
{
    if is_item_list(n) {
        lowered_items(n.kids, marks)
    } else {
        single_item(n, marks)
    }
}

/// What module or package items lower to, in order.
pub open spec fn lowered_items(ns: Seq<NodeV>, marks: Seq<StrengthMark>) -> Seq<ModuleItemV>
    decreases size_all(ns), 1int,
{
    if ns.len() == 0 {
        Seq::empty()
    } else {
        proof {
            lemma_size_last(ns);
        }
        lowered_items(ns.drop_last(), marks) + lowered_item(ns.last(), marks)
    }
}

/// What a module lowers to.
pub open spec fn module(n: NodeV, marks: Seq<StrengthMark>) -> ModuleV {
    ModuleV {
        name: or_empty(identifier(found(n, "kModuleHeader"@))),
        parameters: module_parameters(n),
        ports: module_ports(n),
        items: match found(n, "kModuleItemList"@) {
            Some(list) => lowered_items(list.kids, marks),
            None => Seq::empty(),
        },
    }
}

/// What a package lowers to.
pub open spec fn package(n: NodeV, marks: Seq<StrengthMark>) -> PackageV {
    PackageV {
        name: or_empty(identifier(found(n, "kPackageHeader"@))),
        items: lowered_items(n.kids, marks),
    }
}

/// Whether a node is a top-level description.
pub open spec fn is_description(n: NodeV) -> bool {
    n.tag == "kModuleDeclaration"@ || n.tag == "kPackageDeclaration"@ || n.tag
        == "kClassDeclaration"@ || n.tag == "kFunctionDeclaration"@ || n.tag
        == "kTaskDeclaration"@ || n.tag == "kDPIImportItem"@
}

/// What a top-level description lowers to.
pub open spec fn description(n: NodeV, marks: Seq<StrengthMark>) -> ItemV {
    if n.tag == "kModuleDeclaration"@ {
        ItemV::Module(module(n, marks))
    } else if n.tag == "kPackageDeclaration"@ {
        ItemV::Package(package(n, marks))
    } else if n.tag == "kClassDeclaration"@ {
        ItemV::Class(Box::new(class(n)))
    } else if n.tag == "kDPIImportItem"@ {
        ItemV::Func(Box::new(dpi_import(n)))
    } else {
        ItemV::Func(Box::new(function(n)))
    }
}

/// What the descriptions in a tree lower to.
pub open spec fn descriptions(n: NodeV, marks: Seq<StrengthMark>) -> Seq<ItemV>
    decreases size(n), 0int,
{
    if is_description(n) {
        seq![description(n, marks)]
    } else {
        descriptions_among(n.kids, marks)
    }
}

/// What the descriptions in some trees lower to, in order.
pub open spec fn descriptions_among(ns: Seq<NodeV>, marks: Seq<StrengthMark>) -> Seq<ItemV>
    decreases size_all(ns), 1int,
{
    if ns.len() == 0 {
        Seq::empty()
    } else {
        proof {
            lemma_size_last(ns);
        }
        descriptions_among(ns.drop_last(), marks) + descriptions(ns.last(), marks)
    }
}

// ---- complete trees ---------------------------------------------------------------

/// Whether an item has all that lowering it reads: a delay its values, an import
/// its prototype, and a constant products that can be computed.
pub open spec fn item_complete(n: NodeV) -> bool
    decreases n,
{
    if is_item_list(n) {
        forall|i: int| 0 <= i < n.kids.len() ==> item_complete(#[trigger] n.kids[i])
    } else if n.tag == "kNetDeclaration"@ {
        opt_delay_complete(found_deep(n, "kDelay"@))
    } else if n.tag == "kContinuousAssignmentStatement"@ {
        found(n, "kAssignmentList"@) is Some ==> opt_delay_complete(found(n, "kDelay"@))
    } else if n.tag == "kDPIImportItem"@ {
        prototype_in(n) is Some
    } else if n.tag == "kClassDeclaration"@ {
        class_complete(n)
    } else if n.tag == "kParamDeclaration"@ {
        param_fits(n)
    } else {
        true
    }
}

/// Whether items are complete.
pub open spec fn items_complete(ns: Seq<NodeV>) -> bool {
    forall|i: int| 0 <= i < ns.len() ==> item_complete(#[trigger] ns[i])
}

/// Whether the descriptions in a tree are complete.
pub open spec fn complete(n: NodeV) -> bool
    decreases n,
{
    if n.tag == "kModuleDeclaration"@ {
        found(n, "kModuleItemList"@) matches Some(list) ==> items_complete(list.kids)
    } else if n.tag == "kPackageDeclaration"@ {
        items_complete(n.kids)
    } else if n.tag == "kClassDeclaration"@ {
        class_complete(n)
    } else if n.tag == "kDPIImportItem"@ {
        prototype_in(n) is Some
    } else if is_description(n) {
        true
    } else {
        forall|i: int| 0 <= i < n.kids.len() ==> complete(#[trigger] n.kids[i])
    }
}

// ---- lowering ---------------------------------------------------------------------

/// Append the constants of the enumeration in a declaration.
fn add_enum(n: &Node, out: &mut Vec<ModuleItem>)
    ensures
        views(final(out)@) == views(old(out)@) + enum_items(n@),
{
    let members: Vec<(String, LogicVec)> = enum_const_pairs(n);
    let ghost all = const_views(members@);
    assert(all.len() == members@.len());
    let ghost f = |c: (Seq<char>, Seq<Bit>)| ModuleItemV::EnumConst { name: c.0, value: c.1 };
    let ghost start = views(out@);
    let mut i: usize = 0;
    assert(views(out@) =~= start + all.take(0).map_values(f));
    while i < members.len()
        invariant
            i <= members@.len(),
            all == const_views(members@),
            f == (|c: (Seq<char>, Seq<Bit>)| ModuleItemV::EnumConst { name: c.0, value: c.1 }),
            views(out@) == start + all.take(i as int).map_values(f),
        decreases members@.len() - i,
    {
        let ghost before = out@;
        let item = ModuleItem::EnumConst {
            name: members[i].0.clone(),
            value: members[i].1.clone(),
        };
        assert(all[i as int] == (members@[i as int].0@, members@[i as int].1@));
        assert(item@ == f(all[i as int]));
        out.push(item);
        i = i + 1;
        assert(views(out@) =~= views(before).push(item@));
        assert(all.take(i as int).map_values(f) =~= all.take(i as int - 1).map_values(f).push(
            item@,
        ));
        assert(views(out@) =~= start + all.take(i as int).map_values(f));
    }
    assert(all.take(i as int) =~= all);
    if members.len() > 0 {
        if let Some(name) = identifier_of(Some(n)) {
            if !is_empty(&name) {
                let ghost before = out@;
                let item = ModuleItem::EnumType { name, members };
                out.push(item);
                assert(views(out@) =~= views(before).push(item@));
                assert(views(out@) =~= start + all.map_values(f).push(item@));
            }
        }
    }
}

/// Append variables.
fn add_vars(ds: Vec<VarDecl>, out: &mut Vec<ModuleItem>)
    ensures
        views(final(out)@) == views(old(out)@) + views(ds@).map_values(
            |d: VarDeclV| ModuleItemV::Var(d),
        ),
{
    let ghost all = views(ds@);
    let ghost f = |d: VarDeclV| ModuleItemV::Var(d);
    let ghost start = views(out@);
    let mut i: usize = 0;
    assert(views(out@) =~= start + all.take(0).map_values(f));
    while i < ds.len()
        invariant
            i <= ds@.len(),
            all == views(ds@),
            f == (|d: VarDeclV| ModuleItemV::Var(d)),
            views(out@) == start + all.take(i as int).map_values(f),
        decreases ds@.len() - i,
    {
        let ghost before = out@;
        let item = ModuleItem::Var(ds[i].clone());
        assert(all[i as int] == ds@[i as int]@);
        assert(item@ == f(all[i as int]));
        out.push(item);
        i = i + 1;
        assert(views(out@) =~= views(before).push(item@));
        assert(all.take(i as int).map_values(f) =~= all.take(i as int - 1).map_values(f).push(
            item@,
        ));
        assert(views(out@) =~= start + all.take(i as int).map_values(f));
    }
    assert(all.take(i as int) =~= all);
}

/// Append instances.
fn add_instances(ds: Vec<ModuleInstance>, out: &mut Vec<ModuleItem>)
    ensures
        views(final(out)@) == views(old(out)@) + views(ds@).map_values(
            |d: ModuleInstanceV| ModuleItemV::Instance(d),
        ),
{
    let ghost all = views(ds@);
    let ghost f = |d: ModuleInstanceV| ModuleItemV::Instance(d);
    let ghost start = views(out@);
    let mut i: usize = 0;
    assert(views(out@) =~= start + all.take(0).map_values(f));
    while i < ds.len()
        invariant
            i <= ds@.len(),
            all == views(ds@),
            f == (|d: ModuleInstanceV| ModuleItemV::Instance(d)),
            views(out@) == start + all.take(i as int).map_values(f),
        decreases ds@.len() - i,
    {
        let ghost before = out@;
        let item = ModuleItem::Instance(ds[i].clone());
        assert(all[i as int] == ds@[i as int]@);
        assert(item@ == f(all[i as int]));
        out.push(item);
        i = i + 1;
        assert(views(out@) =~= views(before).push(item@));
        assert(all.take(i as int).map_values(f) =~= all.take(i as int - 1).map_values(f).push(
            item@,
        ));
        assert(views(out@) =~= start + all.take(i as int).map_values(f));
    }
    assert(all.take(i as int) =~= all);
}

/// Append nets.
fn add_nets(ds: Vec<NetDecl>, out: &mut Vec<ModuleItem>)
    ensures
        views(final(out)@) == views(old(out)@) + views(ds@).map_values(
            |d: NetDeclV| ModuleItemV::Net(d),
        ),
{
    let ghost all = views(ds@);
    let ghost f = |d: NetDeclV| ModuleItemV::Net(d);
    let ghost start = views(out@);
    let mut i: usize = 0;
    assert(views(out@) =~= start + all.take(0).map_values(f));
    while i < ds.len()
        invariant
            i <= ds@.len(),
            all == views(ds@),
            f == (|d: NetDeclV| ModuleItemV::Net(d)),
            views(out@) == start + all.take(i as int).map_values(f),
        decreases ds@.len() - i,
    {
        let ghost before = out@;
        let item = ModuleItem::Net(ds[i].clone());
        assert(all[i as int] == ds@[i as int]@);
        assert(item@ == f(all[i as int]));
        out.push(item);
        i = i + 1;
        assert(views(out@) =~= views(before).push(item@));
        assert(all.take(i as int).map_values(f) =~= all.take(i as int - 1).map_values(f).push(
            item@,
        ));
        assert(views(out@) =~= start + all.take(i as int).map_values(f));
    }
    assert(all.take(i as int) =~= all);
}

/// Append one item.
fn add_one(item: ModuleItem, out: &mut Vec<ModuleItem>)
    ensures
        views(final(out)@) == views(old(out)@) + seq![item@],
        views(final(out)@) == views(old(out)@).push(item@),
{
    let ghost before = out@;
    out.push(item);
    assert(views(out@) =~= views(before).push(item@));
    assert(views(out@) =~= views(before) + seq![item@]);
}

/// Append continuous assignments.
fn lower_continuous_assignments(n: &Node, out: &mut Vec<ModuleItem>, marks: &Vec<StrengthMark>)
    requires
        found(n@, "kAssignmentList"@) is Some ==> opt_delay_complete(found(n@, "kDelay"@)),
    ensures
        views(final(out)@) == views(old(out)@) + continuous_assigns(n@, marks@),
{
    let list: &Node = match find(n, "kAssignmentList") {
        Some(list) => list,
        None => {
            assert(views(out@) =~= views(out@) + Seq::<ModuleItemV>::empty());
            return;
        },
    };
    let ns: Vec<&Node> = kids_tagged(list, "kNetVariableAssignment");
    let ghost all = tagged(list@.kids, "kNetVariableAssignment"@);
    let ghost f = |m: NodeV| continuous(n@, m, marks@);
    let ghost start = views(out@);
    let mut i: usize = 0;
    assert(views(out@) =~= start + all.take(0).map_values(f));
    while i < ns.len()
        invariant
            i <= ns@.len(),
            all == refs_view(ns@),
            opt_delay_complete(found(n@, "kDelay"@)),
            f == (|m: NodeV| continuous(n@, m, marks@)),
            views(out@) == start + all.take(i as int).map_values(f),
        decreases ns@.len() - i,
    {
        assert(all[i as int] == ns[i as int]@);
        let delay: Option<ContinuousDelay> = lower_delay_in(find(n, "kDelay"));
        let item = ModuleItem::ContinuousAssign {
            lhs: lower_lvalue(ns[i]),
            rhs: lower_rhs(ns[i]),
            delay,
            strength: lower_strength(n, marks),
        };
        assert(item@ == f(all[i as int]));
        add_one(item, out);
        i = i + 1;
        assert(all.take(i as int).map_values(f) =~= all.take(i as int - 1).map_values(f).push(
            item@,
        ));
        assert(views(out@) =~= start + all.take(i as int).map_values(f));
    }
    assert(all.take(i as int) =~= all);
}

/// Lower the statement behind a keyword.
fn lower_second(n: &Node) -> (r: Stmt)
    ensures
        r@ == second_stmt(n@),
{
    match kid(n, 1) {
        Some(s) => lower_stmt(s),
        None => Stmt::Null,
    }
}

/// Lower an `always` block.
fn lower_always(n: &Node) -> (r: AlwaysBlock)
    ensures
        r@ == always(n@),
{
    let kind: AlwaysKind = match first_kid_of(Some(n)) {
        Some(c) => if has_tag(c, "always_ff") {
            AlwaysKind::Ff
        } else if has_tag(c, "always_comb") {
            AlwaysKind::Comb
        } else if has_tag(c, "always_latch") {
            AlwaysKind::Latch
        } else {
            AlwaysKind::Plain
        },
        None => AlwaysKind::Plain,
    };
    AlwaysBlock { kind, body: lower_second(n) }
}

proof fn lemma_regroup<T>(a: Seq<T>, b: Seq<T>, c: Seq<T>, d: Seq<T>)
    ensures
        a + b + c + d == a + (b + c + d),
{
    assert(a + b + c + d =~= a + (b + c + d));
}

/// Append what a declaration of variables or instances lowers to.
fn add_data(n: &Node, out: &mut Vec<ModuleItem>)
    ensures
        views(final(out)@) == views(old(out)@) + data_items(n@),
{
    let ghost start = views(out@);
    add_enum(n, out);
    let vars: Vec<VarDecl> = lower_data_decl(n);
    add_vars(vars, out);
    let nodes: Vec<ModuleInstance> = lower_module_instances(n);
    add_instances(nodes, out);
    proof {
        lemma_regroup(
            start,
            enum_items(n@),
            data_decls(n@).map_values(|d: VarDeclV| ModuleItemV::Var(d)),
            instances(n@).map_values(|i: ModuleInstanceV| ModuleItemV::Instance(i)),
        );
    }
}

/// Append what a type declaration lowers to.
fn add_types(n: &Node, out: &mut Vec<ModuleItem>)
    ensures
        views(final(out)@) == views(old(out)@) + type_items(n@),
{
    let ghost start = views(out@);
    add_enum(n, out);
    if let Some(c) = lower_struct_typedef(n) {
        let item = ModuleItem::Class(Box::new(c));
        add_one(item, out);
        assert(views(out@) =~= start + enum_items(n@).push(item@));
    } else if let Some(a) = lower_class_typedef(n) {
        let item = ModuleItem::TypeAlias(a);
        add_one(item, out);
        assert(views(out@) =~= start + enum_items(n@).push(item@));
    }
}

/// Append what an item that is not a list lowers to.
fn add_single(n: &Node, out: &mut Vec<ModuleItem>, marks: &Vec<StrengthMark>)
    requires
        item_complete(n@),
        !is_item_list(n@),
    ensures
        views(final(out)@) == views(old(out)@) + single_item(n@, marks@),
{
    if has_tag(n, "kDataDeclaration") {
        add_data(n, out);
    } else if has_tag(n, "kNetDeclaration") {
        add_nets(lower_net_decl(n), out);
    } else if has_tag(n, "kAlwaysStatement") {
        add_one(ModuleItem::Always(lower_always(n)), out);
    } else if has_tag(n, "kInitialStatement") {
        add_one(ModuleItem::Initial(lower_second(n)), out);
    } else if has_tag(n, "kContinuousAssignmentStatement") {
        lower_continuous_assignments(n, out, marks);
    } else if has_tag(n, "kFunctionDeclaration") || has_tag(n, "kTaskDeclaration") {
        add_one(ModuleItem::Func(lower_function(n)), out);
    } else if has_tag(n, "kDPIImportItem") {
        add_one(ModuleItem::Func(lower_dpi_import(n)), out);
    } else if has_tag(n, "kClassDeclaration") {
        add_one(ModuleItem::Class(Box::new(lower_class(n))), out);
    } else if has_tag(n, "kParamDeclaration") {
        match param_const_pair(n) {
            Some((name, value)) => {
                add_one(ModuleItem::EnumConst { name, value }, out);
            },
            None => {
                assert(views(out@) =~= views(out@) + Seq::<ModuleItemV>::empty());
            },
        }
    } else if has_tag(n, "kTypeDeclaration") {
        add_types(n, out);
    } else {
        assert(views(out@) =~= views(out@) + Seq::<ModuleItemV>::empty());
    }
}

/// Lower one module or package item, appending what it gives.
pub fn lower_module_item(item: &Node, out: &mut Vec<ModuleItem>, marks: &Vec<StrengthMark>)
    requires
        item_complete(item@),
    ensures
        views(final(out)@) == views(old(out)@) + lowered_item(item@, marks@),
    decreases item, 0int,
{
    if has_tag(item, "kModuleItemList") || has_tag(item, "kPackageItemList") || has_tag(
        item,
        "kClassItems",
    ) {
        lower_items(item, out, marks);
    } else {
        add_single(item, out, marks);
    }
}

/// Lower the items below a node, appending what they give.
#[verifier::spinoff_prover]
#[verifier::rlimit(30)]
fn lower_items(n: &Node, out: &mut Vec<ModuleItem>, marks: &Vec<StrengthMark>)
    requires
        items_complete(n@.kids),
    ensures
        views(final(out)@) == views(old(out)@) + lowered_items(n@.kids, marks@),
    decreases n.kids, 1int,
{
    let ghost start = views(out@);
    let mut i: usize = 0;
    assert(views(out@) =~= start + lowered_items(n@.kids.take(0), marks@));
    while i < n.kids.len()
        invariant
            i <= n.kids@.len(),
            items_complete(n@.kids),
            views(out@) == start + lowered_items(n@.kids.take(i as int), marks@),
        decreases n.kids@.len() - i,
    {
        let ghost upto = n@.kids.take(i as int + 1);
        assert(upto.drop_last() =~= n@.kids.take(i as int));
        assert(upto.last() == n@.kids[i as int]);
        assert(n@.kids[i as int] == n.kids[i as int]@);
        assert(decreases_to!(n.kids => n.kids@[i as int]));
        let ghost before = lowered_items(n@.kids.take(i as int), marks@);
        let ghost item = lowered_item(n@.kids[i as int], marks@);
        lower_module_item(&n.kids[i], out, marks);
        i = i + 1;
        assert(lowered_items(upto, marks@) == before + item);
        assert((start + before) + item =~= start + (before + item));
    }
    assert(n@.kids.take(i as int) =~= n@.kids);
}

/// Lower a module.
pub fn lower_module(n: &Node, marks: &Vec<StrengthMark>) -> (r: Module)
    requires
        found(n@, "kModuleItemList"@) matches Some(list) ==> items_complete(list.kids),
    ensures
        r@ == module(n@, marks@),
{
    let mut items: Vec<ModuleItem> = Vec::new();
    assert(views(items@) =~= Seq::<ModuleItemV>::empty());
    if let Some(list) = find(n, "kModuleItemList") {
        lower_items(list, &mut items, marks);
        assert(views(items@) =~= lowered_items(list@.kids, marks@));
    }
    Module {
        name: name_of(find(n, "kModuleHeader")),
        parameters: lower_module_parameters(n),
        ports: lower_module_ports(n),
        items,
    }
}

/// Lower a package.
pub fn lower_package(n: &Node, marks: &Vec<StrengthMark>) -> (r: Package)
    requires
        items_complete(n@.kids),
    ensures
        r@ == package(n@, marks@),
{
    let mut items: Vec<ModuleItem> = Vec::new();
    lower_items(n, &mut items, marks);
    assert(views(items@) =~= lowered_items(n@.kids, marks@));
    Package { name: name_of(find(n, "kPackageHeader")), items }
}

/// Lower a top-level description; `None` for another node.
fn lower_description(n: &Node, marks: &Vec<StrengthMark>) -> (r: Option<Item>)
    requires
        complete(n@),
    ensures
        match r {
            Some(item) => is_description(n@) && item@ == description(n@, marks@),
            None => !is_description(n@),
        },
{
    if has_tag(n, "kModuleDeclaration") {
        Some(Item::Module(lower_module(n, marks)))
    } else if has_tag(n, "kPackageDeclaration") {
        Some(Item::Package(lower_package(n, marks)))
    } else if has_tag(n, "kClassDeclaration") {
        Some(Item::Class(Box::new(lower_class(n))))
    } else if has_tag(n, "kDPIImportItem") {
        Some(Item::Func(Box::new(lower_dpi_import(n))))
    } else if has_tag(n, "kFunctionDeclaration") || has_tag(n, "kTaskDeclaration") {
        Some(Item::Func(Box::new(lower_function(n))))
    } else {
        None
    }
}

/// Append the descriptions in a tree.
fn collect_descriptions(n: &Node, out: &mut Vec<Item>, marks: &Vec<StrengthMark>)
    requires
        complete(n@),
    ensures
        views(final(out)@) == views(old(out)@) + descriptions(n@, marks@),
    decreases n,
{
    let ghost start = views(out@);
    if let Some(item) = lower_description(n, marks) {
        let ghost before = out@;
        out.push(item);
        assert(views(out@) =~= views(before).push(item@));
        assert(views(out@) =~= start + seq![item@]);
        return;
    }
    let mut i: usize = 0;
    assert(views(out@) =~= start + descriptions_among(n@.kids.take(0), marks@));
    while i < n.kids.len()
        invariant
            i <= n.kids@.len(),
            forall|j: int| 0 <= j < n@.kids.len() ==> complete(#[trigger] n@.kids[j]),
            views(out@) == start + descriptions_among(n@.kids.take(i as int), marks@),
        decreases n.kids@.len() - i,
    {
        let ghost upto = n@.kids.take(i as int + 1);
        assert(upto.drop_last() =~= n@.kids.take(i as int));
        assert(upto.last() == n@.kids[i as int]);
        assert(n@.kids[i as int] == n.kids[i as int]@);
        assert(decreases_to!(n.kids => n.kids@[i as int]));
        collect_descriptions(&n.kids[i], out, marks);
        i = i + 1;
        assert(views(out@) =~= start + descriptions_among(upto, marks@));
    }
    assert(n@.kids.take(i as int) =~= n@.kids);
}

/// Lower a whole file, given the root of its concrete syntax tree and the strength
/// keywords of its source.
pub fn lower_file_with_strengths(tree: &Node, marks: &Vec<StrengthMark>) -> (r: SourceFile)
    requires
        complete(tree@),
    ensures
        r@ == (SourceFileV { items: descriptions(tree@, marks@) }),
{
    let mut items: Vec<Item> = Vec::new();
    collect_descriptions(tree, &mut items, marks);
    assert(views(items@) =~= descriptions(tree@, marks@));
    SourceFile { items }
}

/// Lower a whole file, given the root of its concrete syntax tree. No assignment
/// has a strength.
pub fn lower_file(tree: &Node) -> (r: SourceFile)
    requires
        complete(tree@),
    ensures
        r@ == (SourceFileV { items: descriptions(tree@, Seq::empty()) }),
{
    let none: Vec<StrengthMark> = Vec::new();
    assert(none@ =~= Seq::<StrengthMark>::empty());
    lower_file_with_strengths(tree, &none)
}

} // verus!
