//! Whether a concrete syntax tree has all that lowering reads.
use vstd::prelude::*;

use crate::ast::{exprs_view, Expr, SourceFile};
use crate::ast_model::SourceFileV;
use crate::const_expr::{param_fits, products_are_fit};
use crate::cst::{
    find, find_deep, find_in, find_or, found, group_cst, has_tag, is_empty, opt_node, Node,
};
use crate::lower::{
    complete, descriptions, is_description, item_complete, items_complete, lower_file,
};
use crate::lower_class::class_complete;
use crate::lower_expr::lower_expr;
use crate::lower_module::opt_delay_complete;
use crate::lower_stmt::delay_values_of;
use crate::lower_types::identifier_of;

verus! {

broadcast use group_cst;

/// Whether every product in the initializer of a parameter can be computed.
fn param_is_fit(n: &Node) -> (r: bool)
    ensures
        r == param_fits(n@),
{
    let name: String = match identifier_of(find(n, "kParamType")) {
        Some(name) => name,
        None => {
            return true;
        },
    };
    if is_empty(&name) {
        return true;
    }
    match find_in(find_deep(n, "kTrailingAssign"), "kExpression") {
        Some(e) => products_are_fit(&lower_expr(e)),
        None => true,
    }
}

/// Whether the constants of a class can be computed.
fn class_is_complete(n: &Node) -> (r: bool)
    ensures
        r == class_complete(n@),
{
    let list: &Node = match find(n, "kClassItems") {
        Some(list) => list,
        None => {
            return true;
        },
    };
    let mut i: usize = 0;
    while i < list.kids.len()
        invariant
            i <= list.kids@.len(),
            found(n@, "kClassItems"@) == Some(list@),
            forall|j: int|
                0 <= j < i && (#[trigger] list@.kids[j]).tag == "kParamDeclaration"@ ==> param_fits(
                    list@.kids[j],
                ),
        decreases list.kids@.len() - i,
    {
        assert(list@.kids[i as int] == list.kids[i as int]@);
        if has_tag(&list.kids[i], "kParamDeclaration") && !param_is_fit(&list.kids[i]) {
            return false;
        }
        i = i + 1;
    }
    true
}

/// Whether a delay that may be absent is complete.
fn delay_is_complete(o: Option<&Node>) -> (r: bool)
    ensures
        r == opt_delay_complete(opt_node(o)),
{
    match o {
        Some(n) => {
            if find(n, "kDelayValue").is_some() {
                return true;
            }
            let v: Vec<Expr> = delay_values_of(n);
            assert(exprs_view(v@).len() == v@.len());
            1 <= v.len() && v.len() <= 3
        },
        None => true,
    }
}

/// Whether the items below a node are complete.
fn items_are_complete(n: &Node) -> (r: bool)
    ensures
        r == items_complete(n@.kids),
    decreases n.kids, 1int,
{
    let mut i: usize = 0;
    while i < n.kids.len()
        invariant
            i <= n.kids@.len(),
            forall|j: int| 0 <= j < i ==> item_complete(#[trigger] n@.kids[j]),
        decreases n.kids@.len() - i,
    {
        assert(n@.kids[i as int] == n.kids[i as int]@);
        assert(decreases_to!(n.kids => n.kids@[i as int]));
        if !item_is_complete(&n.kids[i]) {
            return false;
        }
        i = i + 1;
    }
    true
}

/// Whether a module or package item is complete.
pub fn item_is_complete(n: &Node) -> (r: bool)
    ensures
        r == item_complete(n@),
    decreases n, 0int,
{
    if has_tag(n, "kModuleItemList") || has_tag(n, "kPackageItemList") || has_tag(
        n,
        "kClassItems",
    ) {
        items_are_complete(n)
    } else if has_tag(n, "kNetDeclaration") {
        delay_is_complete(find_deep(n, "kDelay"))
    } else if has_tag(n, "kContinuousAssignmentStatement") {
        find(n, "kAssignmentList").is_none() || delay_is_complete(find(n, "kDelay"))
    } else if has_tag(n, "kDPIImportItem") {
        find_or(find(n, "kFunctionPrototype"), find(n, "kTaskPrototype")).is_some()
    } else if has_tag(n, "kClassDeclaration") {
        class_is_complete(n)
    } else if has_tag(n, "kParamDeclaration") {
        param_is_fit(n)
    } else {
        true
    }
}

/// Whether the descriptions in a tree are complete.
pub fn is_complete(n: &Node) -> (r: bool)
    ensures
        r == complete(n@),
    decreases n,
{
    if has_tag(n, "kModuleDeclaration") {
        return match find(n, "kModuleItemList") {
            Some(list) => items_are_complete(list),
            None => true,
        };
    }
    if has_tag(n, "kPackageDeclaration") {
        return items_are_complete(n);
    }
    if has_tag(n, "kClassDeclaration") {
        return class_is_complete(n);
    }
    if has_tag(n, "kDPIImportItem") {
        return find_or(find(n, "kFunctionPrototype"), find(n, "kTaskPrototype")).is_some();
    }
    if has_tag(n, "kFunctionDeclaration") || has_tag(n, "kTaskDeclaration") {
        return true;
    }
    let mut i: usize = 0;
    while i < n.kids.len()
        invariant
            i <= n.kids@.len(),
            !is_description(n@),
            forall|j: int| 0 <= j < i ==> complete(#[trigger] n@.kids[j]),
        decreases n.kids@.len() - i,
    {
        assert(n@.kids[i as int] == n.kids[i as int]@);
        assert(decreases_to!(n.kids => n.kids@[i as int]));
        if !is_complete(&n.kids[i]) {
            return false;
        }
        i = i + 1;
    }
    true
}

/// Lower a whole file; `None` for a tree that lacks something that lowering
/// reads, or takes a product of constants that is too wide to compute.
pub fn lower_complete_file(tree: &Node) -> (r: Option<SourceFile>)
    ensures
        match r {
            Some(f) => complete(tree@) && f@ == (SourceFileV {
                items: descriptions(tree@, Seq::empty()),
            }),
            None => !complete(tree@),
        },
{
    if is_complete(tree) {
        Some(lower_file(tree))
    } else {
        None
    }
}

} // verus!
