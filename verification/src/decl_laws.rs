//! What the trees of declarations lower to, form by form: callables, classes, modules and
//! what stands in them.
use vstd::prelude::*;

use crate::ast_model::{ContinuousDelayV, ExprV, ModuleItemV, PortConnectionV};
use crate::cst::{found, found_deep, found_in, group_cst, kid_tagged, tagged, NodeV};
use crate::drive::{drive_strength, level_between, StrengthMark};
use crate::lower::{lowered_items, module, single_item};
use crate::lower_body::lowered_stmt;
use crate::lower_class::{class, class_items, with_item, ClassItemsV};
use crate::lower_decl::{callable_header, constructor, dpi_import, function, prototype_in};
use crate::lower_expr::{lowered, read_of, target, target_of};
use crate::lower_module::{connection, net, port};
use crate::lower_stmt::{
    continuous_delay, data_decls, declared, declared_among, declares, delay_values, initial_value,
};
use crate::lower_types::{data_width_or, deep_identifier, direction, identifier, or_empty};
use crate::ast::StrengthLevel;
use crate::symbol_laws::net_word;

verus! {

broadcast use group_cst;

/// The tags of declarations differ.
proof fn lemma_item_tags()
    ensures
        "kDataDeclaration"@.len() == 16 && "kDataDeclaration"@[1] == 'D' && "kDataDeclaration"@[2] == 'a' && "kDataDeclaration"@[6] == 'e',
        "kNetDeclaration"@.len() == 15 && "kNetDeclaration"@[1] == 'N' && "kNetDeclaration"@[2] == 'e' && "kNetDeclaration"@[6] == 'c',
        "kAlwaysStatement"@.len() == 16 && "kAlwaysStatement"@[1] == 'A' && "kAlwaysStatement"@[2] == 'l' && "kAlwaysStatement"@[6] == 's',
        "kInitialStatement"@.len() == 17 && "kInitialStatement"@[1] == 'I' && "kInitialStatement"@[2] == 'n' && "kInitialStatement"@[6] == 'a',
        "kContinuousAssignmentStatement"@.len() == 30 && "kContinuousAssignmentStatement"@[1] == 'C' && "kContinuousAssignmentStatement"@[2] == 'o' && "kContinuousAssignmentStatement"@[6] == 'n',
        "kFunctionDeclaration"@.len() == 20 && "kFunctionDeclaration"@[1] == 'F' && "kFunctionDeclaration"@[2] == 'u' && "kFunctionDeclaration"@[6] == 'i',
        "kTaskDeclaration"@.len() == 16 && "kTaskDeclaration"@[1] == 'T' && "kTaskDeclaration"@[2] == 'a' && "kTaskDeclaration"@[6] == 'e',
        "kDPIImportItem"@.len() == 14 && "kDPIImportItem"@[1] == 'D' && "kDPIImportItem"@[2] == 'P' && "kDPIImportItem"@[6] == 'p',
        "kClassDeclaration"@.len() == 17 && "kClassDeclaration"@[1] == 'C' && "kClassDeclaration"@[2] == 'l' && "kClassDeclaration"@[6] == 'D',
        "kParamDeclaration"@.len() == 17 && "kParamDeclaration"@[1] == 'P' && "kParamDeclaration"@[2] == 'a' && "kParamDeclaration"@[6] == 'D',
        "kTypeDeclaration"@.len() == 16 && "kTypeDeclaration"@[1] == 'T' && "kTypeDeclaration"@[2] == 'y' && "kTypeDeclaration"@[6] == 'e',
        "kModuleItemList"@.len() == 15 && "kModuleItemList"@[1] == 'M' && "kModuleItemList"@[2] == 'o' && "kModuleItemList"@[6] == 'e',
        "kPackageItemList"@.len() == 16 && "kPackageItemList"@[1] == 'P' && "kPackageItemList"@[2] == 'a' && "kPackageItemList"@[6] == 'g',
        "kClassItems"@.len() == 11 && "kClassItems"@[1] == 'C' && "kClassItems"@[2] == 'l' && "kClassItems"@[6] == 'I',
        "kModuleDeclaration"@.len() == 18 && "kModuleDeclaration"@[1] == 'M' && "kModuleDeclaration"@[2] == 'o' && "kModuleDeclaration"@[6] == 'e',
        "kPackageDeclaration"@.len() == 19 && "kPackageDeclaration"@[1] == 'P' && "kPackageDeclaration"@[2] == 'a' && "kPackageDeclaration"@[6] == 'g',
        "kClassConstructor"@.len() == 17 && "kClassConstructor"@[1] == 'C' && "kClassConstructor"@[2] == 'l' && "kClassConstructor"@[6] == 'C',
        "kForwardDeclaration"@.len() == 19 && "kForwardDeclaration"@[1] == 'F' && "kForwardDeclaration"@[2] == 'o' && "kForwardDeclaration"@[6] == 'r',
{
    reveal_strlit("kDataDeclaration");
    reveal_strlit("kNetDeclaration");
    reveal_strlit("kAlwaysStatement");
    reveal_strlit("kInitialStatement");
    reveal_strlit("kContinuousAssignmentStatement");
    reveal_strlit("kFunctionDeclaration");
    reveal_strlit("kTaskDeclaration");
    reveal_strlit("kDPIImportItem");
    reveal_strlit("kClassDeclaration");
    reveal_strlit("kParamDeclaration");
    reveal_strlit("kTypeDeclaration");
    reveal_strlit("kModuleItemList");
    reveal_strlit("kPackageItemList");
    reveal_strlit("kClassItems");
    reveal_strlit("kModuleDeclaration");
    reveal_strlit("kPackageDeclaration");
    reveal_strlit("kClassConstructor");
    reveal_strlit("kForwardDeclaration");
}

// ---- targets ------------------------------------------------------------------------------

/// Reading the target that an expression is gives the expression back; names, fields and
/// elements of either are targets, and nothing else is.
pub proof fn targets_are_read_as_written(e: ExprV)
    ensures
        target_of(e) matches Some(lhs) ==> read_of(lhs) == e,
        e is Ref || e is Field ==> target_of(e) is Some,
        e matches ExprV::Index { base, index } ==> (target_of(e) is Some <==> *base is Ref || *base is Field),
{
}

// ---- delays and strengths ---------------------------------------------------------------------

/// A delay in parentheses has as many values as are written, in order: one, or rise and
/// fall, or rise, fall and turn-off.
#[verifier::spinoff_prover]
#[verifier::rlimit(60)]
pub proof fn delay_trees_keep_their_values(n: NodeV)
    requires
        found(n, "kDelayValue"@) is None,
        1 <= delay_values(n).len() <= 3,
    ensures
        ({
            let v = delay_values(n);
            match continuous_delay(n) {
                ContinuousDelayV::Single(e) => v == seq![e],
                ContinuousDelayV::RiseFall { rise, fall } => v == seq![rise, fall],
                ContinuousDelayV::RiseFallTurnOff { rise, fall, turn_off } => v == seq![
                    rise,
                    fall,
                    turn_off,
                ],
            }
        }),
{
    let v = delay_values(n);
    if v.len() == 1 {
        assert(v =~= seq![v[0]]);
    } else if v.len() == 2 {
        assert(v =~= seq![v[0], v[1]]);
    } else {
        assert(v =~= seq![v[0], v[1], v[2]]);
    }
}

/// The strength that counts is the first of its kind between two places.
pub proof fn the_first_strength_counts(
    marks: Seq<StrengthMark>,
    from: u64,
    to: u64,
    one: bool,
)
    ensures
        match level_between(marks, from, to, one) {
            Some(level) => exists|i: int| #[trigger] first_mark(marks, from, to, one, level, i),
            None => forall|i: int|
                0 <= i < marks.len() ==> !(from < (#[trigger] marks[i]).start < to && marks[i].one
                    == one),
        },
    decreases marks.len(),
{
    if marks.len() > 0 {
        if from < marks[0].start < to && marks[0].one == one {
            assert(first_mark(marks, from, to, one, marks[0].level, 0));
        } else {
            let rest = marks.skip(1);
            the_first_strength_counts(rest, from, to, one);
            match level_between(rest, from, to, one) {
                Some(level) => {
                    let i = choose|i: int| #[trigger] first_mark(rest, from, to, one, level, i);
                    assert(rest[i] == marks[i + 1]);
                    assert forall|j: int| 0 <= j < i + 1 implies !(from < (#[trigger] marks[j]).start
                        < to && marks[j].one == one) by {
                        if j > 0 {
                            assert(rest[j - 1] == marks[j]);
                        }
                    }
                    assert(first_mark(marks, from, to, one, level, i + 1));
                },
                None => {
                    assert forall|i: int| 0 <= i < marks.len() implies !(from < (
                    #[trigger] marks[i]).start < to && marks[i].one == one) by {
                        if i > 0 {
                            assert(rest[i - 1] == marks[i]);
                        }
                    }
                },
            }
        }
    }
}

/// Whether a mark is the first of its kind between two places, of a level.
pub open spec fn first_mark(
    marks: Seq<StrengthMark>,
    from: u64,
    to: u64,
    one: bool,
    level: StrengthLevel,
    i: int,
) -> bool {
    &&& 0 <= i < marks.len()
    &&& from < marks[i].start < to && marks[i].one == one
    &&& marks[i].level == level
    &&& forall|j: int|
        0 <= j < i ==> !(from < (#[trigger] marks[j]).start < to && marks[j].one == one)
}

/// An assignment has strengths exactly if both a strength of zero and one of one are
/// written, and each stands for its own.
pub proof fn strengths_stand_for_their_own(n: NodeV, marks: Seq<StrengthMark>, list: NodeV, from: u64, to: u64)
    requires
        crate::syntax_check::first_offset(n) == Some(from),
        found(n, "kAssignmentList"@) == Some(list),
        crate::syntax_check::first_offset(list) == Some(to),
    ensures
        drive_strength(n, marks) is Some <==> level_between(marks, from, to, false) is Some
            && level_between(marks, from, to, true) is Some,
        drive_strength(n, marks) matches Some(s) ==> {
            &&& level_between(marks, from, to, false) == Some(s.zero)
            &&& level_between(marks, from, to, true) == Some(s.one)
        },
{
}

// ---- callables -----------------------------------------------------------------------------------

/// A function or task has the formals of its list in order, each under its name, with its
/// direction and its default; a task and a `void` function have no result; it is virtual
/// where that is written; and its body is its statements, in order.
pub proof fn callable_trees_keep_their_parts(n: NodeV, header: NodeV, ports: NodeV, i: int)
    requires
        callable_header(n) == Some(header),
        found_in(found(header, "kParenGroup"@), "kPortList"@) == Some(ports),
        0 <= i < tagged(ports.kids, "kPortItem"@).len(),
    ensures
        ({
            let f = function(n);
            let items = tagged(ports.kids, "kPortItem"@);
            &&& f.params.len() == items.len()
            &&& f.params[i].dir == direction(items[i])
            &&& f.params[i].default == (match initial_value(items[i]) {
                Some(e) => Some(lowered(e)),
                None => None,
            })
            &&& found(n, "kTaskHeader"@) is Some ==> f.is_void
            &&& found(n, "kTaskHeader"@) is None ==> (f.is_void <==> kid_tagged(
                found_in(found(header, "kDataType"@), "kDataTypePrimitive"@),
                "void"@,
            ))
            &&& f.is_virtual <==> kid_tagged(found(header, "kQualifierList"@), "virtual"@)
            &&& f.dpi_name is None
        }),
{
}

/// The statements of a callable are its body, in order.
pub proof fn callable_bodies_keep_their_order(n: NodeV, list: NodeV, i: int)
    requires
        found(n, "kBlockItemStatementList"@) == Some(list),
        0 <= i < list.kids.len(),
    ensures
        function(n).body is Block,
        (function(n).body->Block_0).len() == list.kids.len(),
        (function(n).body->Block_0)[i] == lowered_stmt(list.kids[i]),
{
}

/// A constructor is called `new`, has no result, is not virtual, and has the formals and the
/// statements that are written, in order.
pub proof fn constructor_trees_keep_their_parts(n: NodeV, list: NodeV)
    requires
        found(n, "kStatementList"@) == Some(list),
    ensures
        constructor(n).name == "new"@,
        constructor(n).is_void && !constructor(n).is_virtual,
        constructor(n).body is Block,
        (constructor(n).body->Block_0).len() == list.kids.len(),
        forall|i: int|
            0 <= i < list.kids.len() ==> #[trigger] (constructor(n).body->Block_0)[i]
                == lowered_stmt(list.kids[i]),
{
}

/// An imported function calls the symbol of its own name.
pub proof fn imports_call_their_name(n: NodeV)
    requires
        prototype_in(n) is Some,
    ensures
        dpi_import(n).dpi_name == Some(dpi_import(n).name),
        dpi_import(n).params == function(prototype_in(n)->0).params,
        dpi_import(n).is_void == function(prototype_in(n)->0).is_void,
{
}

// ---- classes ------------------------------------------------------------------------------------

/// An item behind others adds to a class what it declares and keeps all else: fields and
/// methods behind those before, a constructor in place of one before.
pub proof fn class_items_add_what_they_declare(ns: Seq<NodeV>, last: NodeV)
    ensures
        ({
            let a = class_items(ns);
            let b = class_items(ns.push(last));
            &&& last.tag == "kFunctionDeclaration"@ || last.tag == "kTaskDeclaration"@
                ==> b.methods == a.methods.push(function(last)) && b.fields == a.fields
                && b.constructor == a.constructor
            &&& last.tag == "kClassConstructor"@ ==> b.constructor == Some(constructor(last))
                && b.methods == a.methods && b.fields == a.fields
            &&& last.tag == "kDataDeclaration"@ ==> {
                &&& b.fields.len() == a.fields.len() + data_decls(last).len()
                &&& b.fields.take(a.fields.len() as int) == a.fields
                &&& forall|i: int|
                    0 <= i < data_decls(last).len() ==> (#[trigger] b.fields[a.fields.len() + i]).name
                        == data_decls(last)[i].name
                &&& b.methods == a.methods && b.constructor == a.constructor
            }
        }),
{
    let all = ns.push(last);
    assert(all.drop_last() =~= ns);
    assert(all.last() == last);
    let a = class_items(ns);
    assert(class_items(all) == with_item(a, last));
    if last.tag == "kDataDeclaration"@ {
        lemma_data_item(a, last);
    } else if last.tag == "kClassConstructor"@ {
        lemma_constructor_item(a, last);
    } else if last.tag == "kFunctionDeclaration"@ || last.tag == "kTaskDeclaration"@ {
        lemma_callable_item(a, last);
    }
    lemma_class_item_tags();
}

proof fn lemma_class_item_tags()
    ensures
        "kDataDeclaration"@ != "kClassConstructor"@,
        "kDataDeclaration"@ != "kFunctionDeclaration"@,
        "kDataDeclaration"@ != "kTaskDeclaration"@,
        "kClassConstructor"@ != "kFunctionDeclaration"@,
        "kClassConstructor"@ != "kTaskDeclaration"@,
{
    lemma_item_tags();
}

#[verifier::spinoff_prover]
proof fn lemma_callable_item(a: ClassItemsV, last: NodeV)
    requires
        last.tag == "kFunctionDeclaration"@ || last.tag == "kTaskDeclaration"@,
    ensures
        ({
            let b = with_item(a, last);
            b.methods == a.methods.push(function(last)) && b.fields == a.fields && b.constructor
                == a.constructor
        }),
{
    lemma_class_item_tags();
}

#[verifier::spinoff_prover]
proof fn lemma_constructor_item(a: ClassItemsV, last: NodeV)
    requires
        last.tag == "kClassConstructor"@,
    ensures
        ({
            let b = with_item(a, last);
            b.constructor == Some(constructor(last)) && b.methods == a.methods && b.fields
                == a.fields
        }),
{
    lemma_class_item_tags();
}

#[verifier::spinoff_prover]
proof fn lemma_data_item(a: ClassItemsV, last: NodeV)
    requires
        last.tag == "kDataDeclaration"@,
    ensures
        ({
            let b = with_item(a, last);
            &&& b.fields.len() == a.fields.len() + data_decls(last).len()
            &&& b.fields.take(a.fields.len() as int) == a.fields
            &&& forall|i: int|
                0 <= i < data_decls(last).len() ==> (#[trigger] b.fields[a.fields.len() + i]).name
                    == data_decls(last)[i].name
            &&& b.methods == a.methods && b.constructor == a.constructor
        }),
{
    lemma_class_item_tags();
    assert(with_item(a, last).fields.take(a.fields.len() as int) =~= a.fields);
}

/// A class has the name and the base of its header, and the members of its items.
pub proof fn class_trees_keep_their_members(n: NodeV, header: NodeV, items: NodeV)
    requires
        found(n, "kClassHeader"@) == Some(header),
        found(n, "kClassItems"@) == Some(items),
    ensures
        ({
            let c = class(n);
            let all = class_items(items.kids);
            &&& c.name == or_empty(identifier(Some(header)))
            &&& c.base is Some <==> deep_identifier(found(header, "kExtendsList"@)) is Some
            &&& c.base == deep_identifier(found(header, "kExtendsList"@))
            &&& c.fields == all.fields
            &&& c.methods == all.methods
            &&& c.constructor == all.constructor
            &&& c.consts == all.consts
            &&& !c.is_struct
        }),
{
}

// ---- modules ------------------------------------------------------------------------------------

/// A module has the name of its header, a port for each port declaration, in order, and the
/// items of its list.
pub proof fn module_trees_keep_their_parts(
    n: NodeV,
    header: NodeV,
    ports: NodeV,
    list: NodeV,
    marks: Seq<StrengthMark>,
    i: int,
)
    requires
        found(n, "kModuleHeader"@) == Some(header),
        found_in(found(header, "kParenGroup"@), "kPortDeclarationList"@) == Some(ports),
        found(n, "kModuleItemList"@) == Some(list),
        0 <= i < tagged(ports.kids, "kPortDeclaration"@).len(),
    ensures
        ({
            let m = module(n, marks);
            let ps = tagged(ports.kids, "kPortDeclaration"@);
            &&& m.name == or_empty(identifier(Some(header)))
            &&& m.ports.len() == ps.len()
            &&& m.ports[i].name == or_empty(identifier(found(ps[i], "kUnqualifiedId"@)))
            &&& m.ports[i].dir == direction(ps[i])
            &&& m.ports[i].width == data_width_or(found(ps[i], "kDataType"@), 1)
            &&& m.ports[i].signed <==> found_deep(ps[i], "signed"@) is Some
            &&& m.ports[i].is_net <==> found(ps[i], "wire"@) is Some
            &&& m.items == lowered_items(list.kids, marks)
        }),
{
}

/// A connection by name goes to the port of that name, one by place to the port at its
/// place; each carries its expression.
pub proof fn connection_trees_keep_their_port(n: NodeV, id: NodeV, name: Seq<char>, e: NodeV)
    ensures
        n.tag == "kActualNamedPort"@ && found(n, "SymbolIdentifier"@) == Some(id) && id.text
            == Some(name) && found_in(found(n, "kParenGroup"@), "kExpression"@) == Some(e)
            ==> connection(n) == Some(PortConnectionV { port: Some(name), expr: lowered(e) }),
        n.tag == "kActualPositionalPort"@ && found(n, "kExpression"@) == Some(e) ==> connection(n)
            == Some(PortConnectionV { port: None, expr: lowered(e) }),
{
    reveal_strlit("kActualNamedPort");
    reveal_strlit("kActualPositionalPort");
    assert("kActualNamedPort"@.len() == 16);
    assert("kActualPositionalPort"@.len() == 21);
}

/// An `always` and an `initial` block run the statement behind the word; a continuous
/// assignment drives each target of its list with what stands on its right.
pub proof fn process_trees_keep_their_statement(n: NodeV, marks: Seq<StrengthMark>, list: NodeV, i: int)
    ensures
        n.kids.len() > 1 && n.tag == "kAlwaysStatement"@ ==> {
            let items = single_item(n, marks);
            &&& items.len() == 1
            &&& items[0] is Always
            &&& (items[0]->Always_0).body == lowered_stmt(n.kids[1])
        },
        n.kids.len() > 1 && n.tag == "kInitialStatement"@ ==> single_item(n, marks) == seq![
            ModuleItemV::Initial(lowered_stmt(n.kids[1])),
        ],
        n.tag == "kContinuousAssignmentStatement"@ && found(n, "kAssignmentList"@) == Some(list)
            && 0 <= i < tagged(list.kids, "kNetVariableAssignment"@).len() ==> {
            let items = single_item(n, marks);
            let m = tagged(list.kids, "kNetVariableAssignment"@)[i];
            &&& items.len() == tagged(list.kids, "kNetVariableAssignment"@).len()
            &&& items[i] is ContinuousAssign
            &&& items[i]->ContinuousAssign_lhs == target(m)
            &&& found(m, "kExpression"@) matches Some(e) ==> items[i]->ContinuousAssign_rhs
                == lowered(e)
            &&& items[i]->ContinuousAssign_strength == drive_strength(n, marks)
            &&& items[i]->ContinuousAssign_delay is Some <==> found(n, "kDelay"@) is Some
            &&& found(n, "kDelay"@) matches Some(d) ==> items[i]->ContinuousAssign_delay == Some(
                continuous_delay(d),
            )
        },
{
    lemma_item_tags();
}

/// A net has the width, the kind and the delay that its declaration writes.
pub proof fn net_trees_keep_their_kind(n: NodeV, name: Seq<char>, t: NodeV, kind: crate::ast::NetKind)
    requires
        found(n, "kDataType"@) == Some(t),
        t.kids.len() > 0,
        t.kids[0].tag == net_word(kind),
    ensures
        net(n, name).name == name,
        net(n, name).kind == kind,
        net(n, name).delay is Some <==> found_deep(n, "kDelay"@) is Some,
        found_deep(n, "kDelay"@) matches Some(d) ==> net(n, name).delay == Some(continuous_delay(d)),
        net(n, name).signed <==> found_deep(n, "signed"@) is Some,
{
    crate::symbol_laws::net_keywords_lower_back(kind);
}

/// A declaration declares its variables in order, each under its name, with its own initial
/// value and dimensions and the type that they share.
pub proof fn variables_are_declared_in_order(n: NodeV, ns: Seq<NodeV>, last: NodeV)
    ensures
        declares(last) ==> declared_among(n, ns.push(last)) == declared_among(n, ns).push(
            declared(n, last),
        ),
        !declares(last) ==> declared_among(n, ns.push(last)) == declared_among(n, ns),
        declared(n, last).init == (match initial_value(last) {
            Some(e) => Some(lowered(e)),
            None => None,
        }),
        declared(n, last).is_static <==> kid_tagged(found(n, "kQualifierList"@), "static"@),
{
    assert(ns.push(last).drop_last() =~= ns);
    assert(ns.push(last).last() == last);
}

} // verus!
