//! Checking that a concrete syntax tree stays in the supported subset.
//!
//! The check names the first node that it rejects: a node before the nodes below
//! it, and those in order.
use vstd::prelude::*;
use vstd::string::StringSliceAdditionalSpecFns;

use crate::ast::Expr;
use crate::cst::{
    const_int, constant, find, find_deep, find_in, first_kid, first_kid_of, found, found_deep,
    found_in, group_cst, has_tag, kids, kids_tagged, leaf_op, lemma_kid, lemma_size_all, opt_node,
    refs_view, size, size_all, tagged, text, Node, NodeV,
};
use crate::lower_expr::{lower_expr, lowered};
use crate::lower_stmt::{compound_of, first_compound};
use crate::lower_types::ends_with;
use crate::subset::{is_listed, listed, Place};
use crate::verible::{node_views, FeError};

verus! {

broadcast use group_cst;

// ---- lists ----------------------------------------------------------------------

/// The first node of a list that a place does not allow.
pub open spec fn first_unlisted(place: Place, ns: Seq<NodeV>) -> Option<NodeV>
    decreases ns.len(),
{
    if ns.len() == 0 {
        None
    } else if !listed(place, ns[0].tag) {
        Some(ns[0])
    } else {
        first_unlisted(place, ns.drop_first())
    }
}

/// The first node of a list that is one of the words of a place.
pub open spec fn first_listed(place: Place, ns: Seq<NodeV>) -> Option<NodeV>
    decreases ns.len(),
{
    if ns.len() == 0 {
        None
    } else if listed(place, ns[0].tag) {
        Some(ns[0])
    } else {
        first_listed(place, ns.drop_first())
    }
}

/// The first child that a place allows, or the first that it does not.
fn first_by<'a>(place: Place, allowed: bool, n: &'a Node) -> (r: Option<&'a Node>)
    ensures
        opt_node(r) == (if allowed {
            first_listed(place, n@.kids)
        } else {
            first_unlisted(place, n@.kids)
        }),
{
    let mut i: usize = 0;
    assert(n@.kids.skip(0) =~= n@.kids);
    while i < n.kids.len()
        invariant
            i <= n.kids@.len(),
            allowed ==> first_listed(place, n@.kids) == first_listed(place, n@.kids.skip(i as int)),
            !allowed ==> first_unlisted(place, n@.kids) == first_unlisted(
                place,
                n@.kids.skip(i as int),
            ),
        decreases n.kids@.len() - i,
    {
        let ghost rest = n@.kids.skip(i as int);
        assert(rest[0] == n.kids[i as int]@);
        assert(rest.drop_first() =~= n@.kids.skip(i as int + 1));
        if is_listed(place, n.kids[i].tag.as_str()) == allowed {
            return Some(&n.kids[i]);
        }
        i = i + 1;
    }
    None
}

/// Whether nodes are items with commas between them, beginning with an item.
pub open spec fn separated(ns: Seq<NodeV>, item: Seq<char>) -> bool {
    &&& ns.len() > 0
    &&& forall|i: int|
        0 <= i < ns.len() ==> (#[trigger] ns[i]).tag == (if i % 2 == 0 {
            item
        } else {
            ","@
        })
}

/// The list, if it is not items with commas between them.
pub open spec fn list_offender(n: NodeV, item: Seq<char>) -> Option<NodeV> {
    if separated(n.kids, item) {
        None
    } else {
        Some(n)
    }
}

/// The list, if it is not items with commas between them.
fn validate_separated_list<'a>(n: &'a Node, item: &str) -> (r: Option<&'a Node>)
    ensures
        opt_node(r) == list_offender(n@, item@),
{
    if n.kids.len() == 0 {
        return Some(n);
    }
    let mut i: usize = 0;
    while i < n.kids.len()
        invariant
            i <= n.kids@.len(),
            n@.kids.len() > 0,
            forall|j: int|
                0 <= j < i ==> (#[trigger] n@.kids[j]).tag == (if j % 2 == 0 {
                    item@
                } else {
                    ","@
                }),
        decreases n.kids@.len() - i,
    {
        assert(n@.kids[i as int] == n.kids[i as int]@);
        if i % 2 == 0 {
            if !has_tag(&n.kids[i], item) {
                return Some(n);
            }
        } else if !has_tag(&n.kids[i], ",") {
            return Some(n);
        }
        i = i + 1;
    }
    None
}

/// Whether nodes are port connections with commas between them.
pub open spec fn connections_separated(ns: Seq<NodeV>) -> bool {
    &&& ns.len() > 0
    &&& forall|i: int|
        0 <= i < ns.len() ==> if i % 2 == 0 {
            (#[trigger] ns[i]).tag == "kActualNamedPort"@ || ns[i].tag == "kActualPositionalPort"@
        } else {
            ns[i].tag == ","@
        }
}

/// Whether the children of a node are port connections with commas between them.
fn has_separated_connections(n: &Node) -> (r: bool)
    ensures
        r == connections_separated(n@.kids),
{
    if n.kids.len() == 0 {
        return false;
    }
    let mut i: usize = 0;
    while i < n.kids.len()
        invariant
            i <= n.kids@.len(),
            n@.kids.len() > 0,
            forall|j: int|
                0 <= j < i ==> if j % 2 == 0 {
                    (#[trigger] n@.kids[j]).tag == "kActualNamedPort"@ || n@.kids[j].tag
                        == "kActualPositionalPort"@
                } else {
                    n@.kids[j].tag == ","@
                },
        decreases n.kids@.len() - i,
    {
        assert(n@.kids[i as int] == n.kids[i as int]@);
        if i % 2 == 0 {
            if !has_tag(&n.kids[i], "kActualNamedPort") && !has_tag(
                &n.kids[i],
                "kActualPositionalPort",
            ) {
                return false;
            }
        } else if !has_tag(&n.kids[i], ",") {
            return false;
        }
        i = i + 1;
    }
    true
}

/// The first of the operators between operands that is not supported.
pub open spec fn operator_offender(ns: Seq<NodeV>) -> Option<NodeV>
    decreases ns.len(),
{
    if ns.len() < 2 {
        None
    } else if !listed(Place::BinarySymbol, ns[1].operator()) {
        Some(ns[1])
    } else {
        operator_offender(ns.skip(2))
    }
}

/// The first of the operators between operands that is not supported.
fn validate_operators(n: &Node) -> (r: Option<&Node>)
    ensures
        opt_node(r) == operator_offender(n@.kids),
{
    let mut i: usize = 0;
    assert(n@.kids.skip(0) =~= n@.kids);
    while i < n.kids.len() && n.kids.len() - i >= 2
        invariant
            i <= n.kids@.len(),
            operator_offender(n@.kids) == operator_offender(n@.kids.skip(i as int)),
        decreases n.kids@.len() - i,
    {
        let ghost rest = n@.kids.skip(i as int);
        assert(rest[1] == n.kids[i + 1]@);
        assert(rest.skip(2) =~= n@.kids.skip(i as int + 2));
        if !is_listed(Place::BinarySymbol, leaf_op(&n.kids[i + 1]).as_str()) {
            return Some(&n.kids[i + 1]);
        }
        i = i + 2;
    }
    None
}

// ---- dimensions -------------------------------------------------------------------

/// Whether every node of a list is a plain number.
pub open spec fn all_numbers(ns: Seq<NodeV>) -> bool {
    forall|i: int|
        0 <= i < ns.len() ==> (first_kid(Some(#[trigger] ns[i])) matches Some(c) && c.tag
            == "kNumber"@)
}

/// The first packed dimension below a node whose bounds are not two literals.
pub open spec fn dimension_offender(n: NodeV) -> Option<NodeV>
    decreases n,
{
    first_dimension_offender(n.kids)
}

/// The first packed dimension in some trees whose bounds are not two literals.
pub open spec fn first_dimension_offender(ns: Seq<NodeV>) -> Option<NodeV>
    decreases ns,
{
    if ns.len() == 0 {
        None
    } else {
        let bounds = tagged(ns[0].kids, "kExpression"@);
        let own = if ns[0].tag == "kDimensionRange"@ {
            if bounds.len() != 2 || !all_numbers(bounds) {
                Some(ns[0])
            } else {
                None
            }
        } else {
            dimension_offender(ns[0])
        };
        match own {
            Some(m) => Some(m),
            None => first_dimension_offender(ns.drop_first()),
        }
    }
}

/// Whether a range has two literal bounds.
fn has_literal_bounds(n: &Node) -> (r: bool)
    ensures
        r == (tagged(n@.kids, "kExpression"@).len() == 2 && all_numbers(
            tagged(n@.kids, "kExpression"@),
        )),
{
    let bounds: Vec<&Node> = kids_tagged(n, "kExpression");
    let ghost all = tagged(n@.kids, "kExpression"@);
    assert(all.len() == bounds@.len());
    if bounds.len() != 2 {
        return false;
    }
    let mut i: usize = 0;
    while i < bounds.len()
        invariant
            i <= bounds@.len(),
            all == refs_view(bounds@),
            all == tagged(n@.kids, "kExpression"@),
            all.len() == 2,
            forall|j: int|
                0 <= j < i ==> (first_kid(Some(#[trigger] all[j])) matches Some(c) && c.tag
                    == "kNumber"@),
        decreases bounds@.len() - i,
    {
        assert(all[i as int] == bounds[i as int]@);
        match first_kid_of(Some(bounds[i])) {
            Some(c) => {
                if !has_tag(c, "kNumber") {
                    return false;
                }
            },
            None => {
                return false;
            },
        }
        i = i + 1;
    }
    true
}

/// The first packed dimension below a node whose bounds are not two literals.
fn validate_literal_packed_dimensions(n: &Node) -> (r: Option<&Node>)
    ensures
        opt_node(r) == dimension_offender(n@),
    decreases n,
{
    let mut i: usize = 0;
    assert(n@.kids.skip(0) =~= n@.kids);
    assert(dimension_offender(n@) == first_dimension_offender(n@.kids));
    while i < n.kids.len()
        invariant
            i <= n.kids@.len(),
            dimension_offender(n@) == first_dimension_offender(n@.kids.skip(i as int)),
        decreases n.kids@.len() - i,
    {
        let ghost rest = n@.kids.skip(i as int);
        assert(rest[0] == n.kids[i as int]@);
        assert(rest.drop_first() =~= n@.kids.skip(i as int + 1));
        assert(decreases_to!(n.kids => n.kids@[i as int]));
        let child: &Node = &n.kids[i];
        if has_tag(child, "kDimensionRange") {
            if !has_literal_bounds(child) {
                return Some(child);
            }
        } else {
            let inner: Option<&Node> = validate_literal_packed_dimensions(child);
            if inner.is_some() {
                return inner;
            }
        }
        i = i + 1;
    }
    None
}

// ---- declarations -----------------------------------------------------------------

/// What is wrong with the delay of a continuous assignment.
pub open spec fn delay_offender(n: NodeV) -> Option<NodeV> {
    match found(n, "kDelayValue"@) {
        Some(v) => if v.kids.len() != 1 {
            Some(v)
        } else {
            None
        },
        None => match found(n, "kParenGroup"@) {
            Some(group) => if group.kids.len() == 3 && group.kids[1].tag == "kExpression"@ {
                None
            } else if group.kids.len() > 1 {
                Some(group.kids[1])
            } else {
                Some(group)
            },
            None => Some(n),
        },
    }
}

/// What is wrong with the delay of a continuous assignment.
fn validate_single_assignment_delay(n: &Node) -> (r: Option<&Node>)
    ensures
        opt_node(r) == delay_offender(n@),
{
    if let Some(v) = find(n, "kDelayValue") {
        if v.kids.len() != 1 {
            return Some(v);
        }
        return None;
    }
    let group: &Node = match find(n, "kParenGroup") {
        Some(group) => group,
        None => {
            return Some(n);
        },
    };
    if group.kids.len() > 1 {
        assert(group@.kids[1] == group.kids[1]@);
        if group.kids.len() == 3 && has_tag(&group.kids[1], "kExpression") {
            return None;
        }
        return Some(&group.kids[1]);
    }
    Some(group)
}

/// What is wrong with a continuous assignment.
pub open spec fn assignment_offender(n: NodeV) -> Option<NodeV> {
    let by_delay = match found(n, "kDelay"@) {
        Some(d) => delay_offender(d),
        None => None,
    };
    if by_delay is Some {
        by_delay
    } else if found(n, "kDriveStrength"@) is Some {
        found(n, "kDriveStrength"@)
    } else {
        match found(n, "kAssignmentList"@) {
            Some(list) => list_offender(list, "kNetVariableAssignment"@),
            None => Some(n),
        }
    }
}

/// What is wrong with a continuous assignment.
fn validate_assignment(n: &Node) -> (r: Option<&Node>)
    ensures
        opt_node(r) == assignment_offender(n@),
{
    if let Some(d) = find(n, "kDelay") {
        let by_delay: Option<&Node> = validate_single_assignment_delay(d);
        if by_delay.is_some() {
            return by_delay;
        }
    }
    let strength: Option<&Node> = find(n, "kDriveStrength");
    if strength.is_some() {
        return strength;
    }
    match find(n, "kAssignmentList") {
        Some(list) => validate_separated_list(list, "kNetVariableAssignment"),
        None => Some(n),
    }
}

/// Whether a net is declared by a name and without unpacked dimensions.
pub open spec fn plain_net(n: NodeV) -> bool {
    found(n, "SymbolIdentifier"@) is Some && first_kid(found(n, "kUnpackedDimensions"@)) is None
}

/// The first net of a declaration that is not plain.
pub open spec fn first_odd_net(ns: Seq<NodeV>) -> Option<NodeV>
    decreases ns.len(),
{
    if ns.len() == 0 {
        None
    } else if ns[0].tag == "kNetVariable"@ && !plain_net(ns[0]) {
        Some(ns[0])
    } else {
        first_odd_net(ns.drop_first())
    }
}

/// Whether a node lists two or three delay values with commas between them.
pub open spec fn delay_list(n: NodeV) -> bool {
    n.tag == "kUntagged"@ && (n.kids.len() == 3 || n.kids.len() == 5) && separated(
        n.kids,
        "kExpression"@,
    )
}

/// What is wrong with the delay of a net: it has one to three values.
pub open spec fn net_delay_offender(n: NodeV) -> Option<NodeV> {
    match (found(n, "kDelayValue"@), found(n, "kParenGroup"@)) {
        (None, Some(group)) => if group.kids.len() == 3 && delay_list(group.kids[1]) {
            None
        } else {
            delay_offender(n)
        },
        _ => delay_offender(n),
    }
}

/// What is wrong with the delay of a net.
fn validate_net_delay(n: &Node) -> (r: Option<&Node>)
    ensures
        opt_node(r) == net_delay_offender(n@),
{
    if find(n, "kDelayValue").is_none() {
        if let Some(group) = find(n, "kParenGroup") {
            if group.kids.len() == 3 {
                assert(group@.kids[1] == group.kids[1]@);
                let list: &Node = &group.kids[1];
                if has_tag(list, "kUntagged") && (list.kids.len() == 3 || list.kids.len() == 5)
                    && validate_separated_list(list, "kExpression").is_none() {
                    return None;
                }
            }
        }
    }
    validate_single_assignment_delay(n)
}

/// What is wrong with a net declaration.
pub open spec fn net_offender(n: NodeV) -> Option<NodeV> {
    match first_kid(found(n, "kDataType"@)) {
        None => Some(n),
        Some(kind) => if !listed(Place::NetType, kind.tag) {
            Some(kind)
        } else if found_deep(n, "kDelay"@) is Some && net_delay_offender(
            found_deep(n, "kDelay"@)->0,
        ) is Some {
            net_delay_offender(found_deep(n, "kDelay"@)->0)
        } else if found_deep(n, "kDriveStrength"@) is Some {
            found_deep(n, "kDriveStrength"@)
        } else if found_deep(n, "kNetDeclarationAssignment"@) is Some {
            found_deep(n, "kNetDeclarationAssignment"@)
        } else {
            match found(n, "kNetVariableDeclarationAssign"@) {
                None => Some(n),
                Some(list) => match list_offender(list, "kNetVariable"@) {
                    Some(m) => Some(m),
                    None => first_odd_net(list.kids),
                },
            }
        },
    }
}

/// The first net of a declaration that is not plain.
fn validate_nets(n: &Node) -> (r: Option<&Node>)
    ensures
        opt_node(r) == first_odd_net(n@.kids),
{
    let mut i: usize = 0;
    assert(n@.kids.skip(0) =~= n@.kids);
    while i < n.kids.len()
        invariant
            i <= n.kids@.len(),
            first_odd_net(n@.kids) == first_odd_net(n@.kids.skip(i as int)),
        decreases n.kids@.len() - i,
    {
        let ghost rest = n@.kids.skip(i as int);
        assert(rest[0] == n.kids[i as int]@);
        assert(rest.drop_first() =~= n@.kids.skip(i as int + 1));
        let net: &Node = &n.kids[i];
        if has_tag(net, "kNetVariable") && (find(net, "SymbolIdentifier").is_none()
            || first_kid_of(find(net, "kUnpackedDimensions")).is_some()) {
            return Some(net);
        }
        i = i + 1;
    }
    None
}

/// What is wrong with a net declaration.
fn validate_net(n: &Node) -> (r: Option<&Node>)
    ensures
        opt_node(r) == net_offender(n@),
{
    let kind: &Node = match first_kid_of(find(n, "kDataType")) {
        Some(kind) => kind,
        None => {
            return Some(n);
        },
    };
    if !is_listed(Place::NetType, kind.tag.as_str()) {
        return Some(kind);
    }
    if let Some(d) = find_deep(n, "kDelay") {
        let by_delay: Option<&Node> = validate_net_delay(d);
        if by_delay.is_some() {
            return by_delay;
        }
    }
    let strength: Option<&Node> = find_deep(n, "kDriveStrength");
    if strength.is_some() {
        return strength;
    }
    let assigned: Option<&Node> = find_deep(n, "kNetDeclarationAssignment");
    if assigned.is_some() {
        return assigned;
    }
    let list: &Node = match find(n, "kNetVariableDeclarationAssign") {
        Some(list) => list,
        None => {
            return Some(n);
        },
    };
    let by_list: Option<&Node> = validate_separated_list(list, "kNetVariable");
    if by_list.is_some() {
        return by_list;
    }
    validate_nets(list)
}

/// What is wrong with the target of a net assignment: it names a whole net.
pub open spec fn net_target_offender(n: NodeV) -> Option<NodeV> {
    match found(n, "kLPValue"@) {
        None => Some(n),
        Some(lhs) => if found_deep(lhs, "kDimensionScalar"@) is Some || found_deep(
            lhs,
            "kDimensionRange"@,
        ) is Some || found_deep(lhs, "kDimensionSlice"@) is Some || found_deep(
            lhs,
            "kHierarchyExtension"@,
        ) is Some || found_deep(lhs, "kQualifiedId"@) is Some || found_deep(
            lhs,
            "SymbolIdentifier"@,
        ) is None {
            Some(lhs)
        } else {
            None
        },
    }
}

/// What is wrong with the target of a net assignment.
fn validate_net_target(n: &Node) -> (r: Option<&Node>)
    ensures
        opt_node(r) == net_target_offender(n@),
{
    let lhs: &Node = match find(n, "kLPValue") {
        Some(lhs) => lhs,
        None => {
            return Some(n);
        },
    };
    if find_deep(lhs, "kDimensionScalar").is_some() || find_deep(lhs, "kDimensionRange").is_some()
        || find_deep(lhs, "kDimensionSlice").is_some() || find_deep(
        lhs,
        "kHierarchyExtension",
    ).is_some() || find_deep(lhs, "kQualifiedId").is_some() || find_deep(
        lhs,
        "SymbolIdentifier",
    ).is_none() {
        Some(lhs)
    } else {
        None
    }
}

/// What is wrong with a port connection: it connects a plain reference.
pub open spec fn connection_offender(n: NodeV) -> Option<NodeV> {
    match found_deep(n, "kExpression"@) {
        None => Some(n),
        Some(e) => if lowered(e) is Ref {
            None
        } else {
            Some(e)
        },
    }
}

/// What is wrong with a port connection.
fn validate_connection(n: &Node) -> (r: Option<&Node>)
    ensures
        opt_node(r) == connection_offender(n@),
{
    let e: &Node = match find_deep(n, "kExpression") {
        Some(e) => e,
        None => {
            return Some(n);
        },
    };
    match lower_expr(e) {
        Expr::Ref(_) => None,
        _ => Some(e),
    }
}

// ---- nodes ------------------------------------------------------------------------

/// The first node that is rejected in a tree.
#[verifier::opaque]
pub open spec fn offender(n: NodeV) -> Option<NodeV>
    decreases size(n), 1int,
{
    offender_with(offenders_below(size(n)), n)
}

/// The first node that is rejected in trees of less than a size.
#[verifier::opaque]
pub open spec fn offenders_below(bound: nat) -> spec_fn(NodeV) -> Option<NodeV>
    decreases bound, 0int,
{
    |m: NodeV|
        if size(m) < bound {
            offender(m)
        } else {
            arbitrary()
        }
}

/// Checking below a bound is checking.
pub proof fn lemma_offenders_below(bound: nat, m: NodeV)
    requires
        size(m) < bound,
    ensures
        offenders_below(bound)(m) == offender(m),
{
    reveal(offenders_below);
    reveal(offender);
}

/// A tree is checked by its own parts.
pub proof fn lemma_offender(n: NodeV)
    ensures
        offender(n) == offender_with(offenders_below(size(n)), n),
{
    reveal(offenders_below);
    reveal(offender);
}

/// The first node that is rejected in a tree, given that of the trees below it.
pub open spec fn offender_with(g: spec_fn(NodeV) -> Option<NodeV>, n: NodeV) -> Option<NodeV> {
    match own_offender(g, n) {
        Some(m) => Some(m),
        None => first_offender(g, n.kids),
    }
}

/// The first node that is rejected in some trees.
pub open spec fn first_offender(g: spec_fn(NodeV) -> Option<NodeV>, ns: Seq<NodeV>) -> Option<NodeV>
    decreases ns.len(),
{
    if ns.len() == 0 {
        None
    } else {
        match g(ns[0]) {
            Some(m) => Some(m),
            None => first_offender(g, ns.drop_first()),
        }
    }
}

/// The tokens of the type of a parameter.
pub open spec fn type_tokens(n: NodeV) -> Seq<NodeV> {
    match found(n, "kTypeInfo"@) {
        Some(info) => info.kids,
        None => Seq::empty(),
    }
}

/// Whether a parameter declaration writes a type.
pub open spec fn writes_type(n: NodeV) -> bool {
    found(n, "kParamType"@) matches Some(t) && type_tokens(t).len() > 0
}

/// What is wrong with a module parameter: it is an `int` with a default.
pub open spec fn parameter_offender(
    g: spec_fn(NodeV) -> Option<NodeV>,
    n: NodeV,
    inherited: bool,
) -> Option<NodeV> {
    if found(n, "localparam"@) is Some {
        found(n, "localparam"@)
    } else if found(n, "kTypeAssignment"@) is Some {
        found(n, "kTypeAssignment"@)
    } else {
        match found(n, "kParamType"@) {
            None => Some(n),
            Some(t) => {
                let tokens = type_tokens(t);
                if tokens.len() > 0 && (tokens.len() != 1 || tokens[0].tag != "int"@) {
                    Some(tokens[0])
                } else if tokens.len() == 0 && !inherited {
                    Some(t)
                } else if first_kid(found(t, "kPackedDimensions"@)) is Some {
                    found(t, "kPackedDimensions"@)
                } else if first_kid(found(t, "kUnpackedDimensions"@)) is Some {
                    found(t, "kUnpackedDimensions"@)
                } else {
                    match found_in(found(n, "kTrailingAssign"@), "kExpression"@) {
                        None => Some(n),
                        Some(e) => g(e),
                    }
                }
            },
        }
    }
}

/// What is wrong with module parameters; one without a type takes that of the
/// one before it.
pub open spec fn parameters_offender(
    g: spec_fn(NodeV) -> Option<NodeV>,
    ns: Seq<NodeV>,
    inherited: bool,
) -> Option<NodeV>
    decreases ns.len(),
{
    if ns.len() == 0 {
        None
    } else {
        match parameter_offender(g, ns[0], inherited) {
            Some(m) => Some(m),
            None => parameters_offender(g, ns.drop_first(), inherited || writes_type(ns[0])),
        }
    }
}

/// What is wrong with a list of module parameters.
pub open spec fn parameter_list_offender(g: spec_fn(NodeV) -> Option<NodeV>, n: NodeV) -> Option<
    NodeV,
> {
    match list_offender(n, "kParamDeclaration"@) {
        Some(m) => Some(m),
        None => parameters_offender(g, tagged(n.kids, "kParamDeclaration"@), false),
    }
}

/// What is wrong with a named parameter override.
pub open spec fn override_offender(g: spec_fn(NodeV) -> Option<NodeV>, n: NodeV) -> Option<NodeV> {
    match found_in(found(n, "kParenGroup"@), "kExpression"@) {
        None => Some(n),
        Some(e) => g(e),
    }
}

/// What is wrong with the parameter overrides of an instantiation.
pub open spec fn overrides_offender(g: spec_fn(NodeV) -> Option<NodeV>, n: NodeV) -> Option<NodeV> {
    match found_deep(n, "kActualParameterByNameList"@) {
        Some(named) => match list_offender(named, "kParamByName"@) {
            Some(m) => Some(m),
            None => first_offender(
                |m: NodeV| override_offender(g, m),
                tagged(named.kids, "kParamByName"@),
            ),
        },
        None => match found_deep(n, "kActualParameterPositionalList"@) {
            None => Some(n),
            Some(positional) => match list_offender(positional, "kExpression"@) {
                Some(m) => Some(m),
                None => first_offender(g, tagged(positional.kids, "kExpression"@)),
            },
        },
    }
}

/// What is wrong with a node itself.
pub open spec fn own_offender(g: spec_fn(NodeV) -> Option<NodeV>, n: NodeV) -> Option<NodeV> {
    if n.tag == "kDescriptionList"@ {
        first_unlisted(Place::Description, n.kids)
    } else if n.tag == "kModuleItemList"@ {
        first_unlisted(Place::ModuleItem, n.kids)
    } else if n.tag == "kPackageItemList"@ {
        first_unlisted(Place::PackageItem, n.kids)
    } else if n.tag == "kModuleHeader"@ {
        match found_deep(n, "kFormalParameterList"@) {
            Some(list) => parameter_list_offender(g, list),
            None => None,
        }
    } else if n.tag == "kDataDeclaration"@ {
        match found_deep(n, "kActualParameterList"@) {
            Some(list) => if found_deep(n, "kGateInstance"@) is Some {
                overrides_offender(g, list)
            } else {
                None
            },
            None => None,
        }
    } else if n.tag == "kContinuousAssignmentStatement"@ {
        assignment_offender(n)
    } else if n.tag == "kNetDeclaration"@ {
        net_offender(n)
    } else if n.tag == "kPortDeclaration"@ {
        first_listed(Place::ResolvedNet, n.kids)
    } else if n.tag == "kNetVariableAssignment"@ {
        net_target_offender(n)
    } else if n.tag == "kPackedDimensions"@ {
        dimension_offender(n)
    } else {
        leaf_offender(n)
    }
}

/// What is wrong with a node that is part of an expression or a statement.
pub open spec fn leaf_offender(n: NodeV) -> Option<NodeV> {
    if n.tag == "kSystemTFCall"@ {
        match found_deep(n, "SystemTFIdentifier"@) {
            Some(id) => if listed(Place::SystemCall, id.word()) {
                None
            } else {
                Some(id)
            },
            None => Some(n),
        }
    } else if n.tag == "kPortActualList"@ {
        if connections_separated(n.kids) {
            None
        } else {
            Some(n)
        }
    } else if n.tag == "kActualNamedPort"@ || n.tag == "kActualPositionalPort"@ {
        connection_offender(n)
    } else if n.tag == "kCast"@ || n.tag == "kIncrementDecrementExpression"@ || n.tag
        == "TK_TimeLiteral"@ {
        Some(n)
    } else if n.tag == "kBinaryExpression"@ {
        operator_offender(n.kids)
    } else if n.tag == "kUnaryPrefixExpression"@ {
        match first_kid(Some(n)) {
            None => Some(n),
            Some(op) => if listed(Place::UnarySymbol, op.operator()) {
                None
            } else {
                Some(op)
            },
        }
    } else if n.tag == "kAssignModifyStatement"@ {
        if first_compound(n.kids) is Some {
            None
        } else {
            Some(n)
        }
    } else if n.tag == "kNumber"@ {
        if found(n, "kBaseDigits"@) is None && constant(n) is None {
            Some(n)
        } else {
            None
        }
    } else if n.tag == "kExpression"@ {
        match first_kid(Some(n)) {
            Some(root) => if listed(Place::ExpressionRoot, root.tag) {
                None
            } else {
                Some(root)
            },
            None => None,
        }
    } else if "Statement"@.is_suffix_of(n.tag) && !listed(Place::Statement, n.tag) {
        Some(n)
    } else {
        None
    }
}

// ---- checking ---------------------------------------------------------------------

/// What is wrong with a node that is part of an expression or a statement.
fn validate_leaf(n: &Node) -> (r: Option<&Node>)
    ensures
        opt_node(r) == leaf_offender(n@),
{
    if has_tag(n, "kSystemTFCall") {
        match find_deep(n, "SystemTFIdentifier") {
            Some(id) => if is_listed(Place::SystemCall, text(id).as_str()) {
                None
            } else {
                Some(id)
            },
            None => Some(n),
        }
    } else if has_tag(n, "kPortActualList") {
        if has_separated_connections(n) {
            None
        } else {
            Some(n)
        }
    } else if has_tag(n, "kActualNamedPort") || has_tag(n, "kActualPositionalPort") {
        validate_connection(n)
    } else if has_tag(n, "kCast") || has_tag(n, "kIncrementDecrementExpression") || has_tag(
        n,
        "TK_TimeLiteral",
    ) {
        Some(n)
    } else if has_tag(n, "kBinaryExpression") {
        validate_operators(n)
    } else if has_tag(n, "kUnaryPrefixExpression") {
        match first_kid_of(Some(n)) {
            None => Some(n),
            Some(op) => if is_listed(Place::UnarySymbol, leaf_op(op).as_str()) {
                None
            } else {
                Some(op)
            },
        }
    } else if has_tag(n, "kAssignModifyStatement") {
        if compound_of(n).is_some() {
            None
        } else {
            Some(n)
        }
    } else if has_tag(n, "kNumber") {
        if find(n, "kBaseDigits").is_none() && const_int(n).is_none() {
            Some(n)
        } else {
            None
        }
    } else if has_tag(n, "kExpression") {
        match first_kid_of(Some(n)) {
            Some(root) => if is_listed(Place::ExpressionRoot, root.tag.as_str()) {
                None
            } else {
                Some(root)
            },
            None => None,
        }
    } else if ends_with(n.tag.as_str(), "Statement") && !is_listed(
        Place::Statement,
        n.tag.as_str(),
    ) {
        Some(n)
    } else {
        None
    }
}

/// What is wrong with a module parameter.
fn validate_parameter<'a>(n: &'a Node, inherited: bool, Ghost(bound): Ghost<nat>) -> (r: Option<&'a Node>)
    requires
        size(n@) <= bound,
    ensures
        opt_node(r) == parameter_offender(offenders_below(bound), n@, inherited),
    decreases bound, 0int,
{
    let local: Option<&Node> = find(n, "localparam");
    if local.is_some() {
        return local;
    }
    let assign: Option<&Node> = find(n, "kTypeAssignment");
    if assign.is_some() {
        return assign;
    }
    let t: &Node = match find(n, "kParamType") {
        Some(t) => t,
        None => {
            return Some(n);
        },
    };
    match find(t, "kTypeInfo") {
        Some(info) => {
            if info.kids.len() > 0 {
                assert(info@.kids[0] == info.kids[0]@);
                if info.kids.len() != 1 || !has_tag(&info.kids[0], "int") {
                    return Some(&info.kids[0]);
                }
            } else if !inherited {
                return Some(t);
            }
        },
        None => {
            if !inherited {
                return Some(t);
            }
        },
    }
    let packed: Option<&Node> = find(t, "kPackedDimensions");
    if first_kid_of(packed).is_some() {
        return packed;
    }
    let unpacked: Option<&Node> = find(t, "kUnpackedDimensions");
    if first_kid_of(unpacked).is_some() {
        return unpacked;
    }
    let value: Option<&Node> = find(n, "kTrailingAssign");
    match find_in(value, "kExpression") {
        None => Some(n),
        Some(e) => {
            proof {
                lemma_offenders_below(bound, e@);
            }
            validate_node(e)
        },
    }
}

/// Whether a parameter says its type.
fn has_written_type(n: &Node) -> (r: bool)
    ensures
        r == writes_type(n@),
{
    match find_in(find(n, "kParamType"), "kTypeInfo") {
        Some(info) => info.kids.len() > 0,
        None => false,
    }
}

/// What is wrong with a list of module parameters.
#[verifier::spinoff_prover]
#[verifier::rlimit(30)]
fn validate_module_parameter_list<'a>(n: &'a Node, Ghost(bound): Ghost<nat>) -> (r: Option<&'a Node>)
    requires
        size(n@) <= bound,
    ensures
        opt_node(r) == parameter_list_offender(offenders_below(bound), n@),
    decreases bound, 1int,
{
    let by_list: Option<&Node> = validate_separated_list(n, "kParamDeclaration");
    if by_list.is_some() {
        return by_list;
    }
    let ns: Vec<&Node> = kids_tagged(n, "kParamDeclaration");
    let ghost all = tagged(n@.kids, "kParamDeclaration"@);
    let ghost g = offenders_below(bound);
    let mut inherited: bool = false;
    let mut i: usize = 0;
    assert(all.skip(0) =~= all);
    while i < ns.len()
        invariant
            i <= ns@.len(),
            all == refs_view(ns@),
            size_all(all) < bound,
            g == offenders_below(bound),
            list_offender(n@, "kParamDeclaration"@) is None,
            all == tagged(n@.kids, "kParamDeclaration"@),
            parameters_offender(g, all, false) == parameters_offender(
                g,
                all.skip(i as int),
                inherited,
            ),
        decreases ns@.len() - i,
    {
        let ghost rest = all.skip(i as int);
        assert(rest[0] == all[i as int]);
        assert(all[i as int] == ns[i as int]@);
        assert(rest.drop_first() =~= all.skip(i as int + 1));
        proof {
            lemma_size_all(all, i as int);
        }
        let own: Option<&Node> = validate_parameter(ns[i], inherited, Ghost(bound));
        if own.is_some() {
            return own;
        }
        inherited = inherited || has_written_type(ns[i]);
        i = i + 1;
    }
    None
}

/// What is wrong with the parameter overrides of an instantiation.
fn validate_module_parameter_actuals<'a>(n: &'a Node, Ghost(bound): Ghost<nat>) -> (r: Option<
    &'a Node,
>)
    requires
        size(n@) <= bound,
    ensures
        opt_node(r) == overrides_offender(offenders_below(bound), n@),
    decreases bound, 1int,
{
    let ghost g = offenders_below(bound);
    if let Some(named) = find_deep(n, "kActualParameterByNameList") {
        let by_list: Option<&Node> = validate_separated_list(named, "kParamByName");
        if by_list.is_some() {
            return by_list;
        }
        let ns: Vec<&Node> = kids_tagged(named, "kParamByName");
        let ghost all = tagged(named@.kids, "kParamByName"@);
        let ghost h = |m: NodeV| override_offender(g, m);
        let mut i: usize = 0;
        assert(all.skip(0) =~= all);
        while i < ns.len()
            invariant
                i <= ns@.len(),
                all == refs_view(ns@),
                size_all(all) < bound,
                g == offenders_below(bound),
                h == (|m: NodeV| override_offender(g, m)),
                overrides_offender(g, n@) == first_offender(h, all.skip(i as int)),
            decreases ns@.len() - i,
        {
            let ghost rest = all.skip(i as int);
            assert(rest[0] == all[i as int]);
            assert(all[i as int] == ns[i as int]@);
            assert(rest.drop_first() =~= all.skip(i as int + 1));
            proof {
                lemma_size_all(all, i as int);
            }
            let group: Option<&Node> = find(ns[i], "kParenGroup");
            let own: Option<&Node> = match find_in(group, "kExpression") {
                None => Some(ns[i]),
                Some(e) => {
                    proof {
                        lemma_offenders_below(bound, e@);
                    }
                    validate_node(e)
                },
            };
            assert(opt_node(own) == h(all[i as int]));
            if own.is_some() {
                return own;
            }
            i = i + 1;
        }
        return None;
    }
    let positional: &Node = match find_deep(n, "kActualParameterPositionalList") {
        Some(positional) => positional,
        None => {
            return Some(n);
        },
    };
    let by_list: Option<&Node> = validate_separated_list(positional, "kExpression");
    if by_list.is_some() {
        return by_list;
    }
    let ns: Vec<&Node> = kids_tagged(positional, "kExpression");
    proof {
        let all = tagged(positional@.kids, "kExpression"@);
        assert forall|j: int| 0 <= j < all.len() implies size(#[trigger] all[j]) < bound by {
            lemma_size_all(all, j);
        }
    }
    validate_nodes(&ns, Ghost(bound))
}

/// The first node that is rejected in some trees.
fn validate_nodes<'a>(ns: &Vec<&'a Node>, Ghost(bound): Ghost<nat>) -> (r: Option<&'a Node>)
    requires
        forall|j: int| 0 <= j < ns@.len() ==> size(#[trigger] refs_view(ns@)[j]) < bound,
    ensures
        opt_node(r) == first_offender(offenders_below(bound), refs_view(ns@)),
    decreases bound, 0int,
{
    let ghost all = refs_view(ns@);
    let ghost g = offenders_below(bound);
    let mut i: usize = 0;
    assert(all.skip(0) =~= all);
    while i < ns.len()
        invariant
            i <= ns@.len(),
            all == refs_view(ns@),
            forall|j: int| 0 <= j < all.len() ==> size(#[trigger] all[j]) < bound,
            g == offenders_below(bound),
            first_offender(g, all) == first_offender(g, all.skip(i as int)),
        decreases ns@.len() - i,
    {
        let ghost rest = all.skip(i as int);
        assert(rest[0] == all[i as int]);
        assert(all[i as int] == ns[i as int]@);
        assert(rest.drop_first() =~= all.skip(i as int + 1));
        proof {
            lemma_offenders_below(bound, all[i as int]);
        }
        let own: Option<&Node> = validate_node(ns[i]);
        if own.is_some() {
            return own;
        }
        i = i + 1;
    }
    None
}

/// What is wrong with a node itself.
fn validate_own<'a>(n: &'a Node, Ghost(bound): Ghost<nat>) -> (r: Option<&'a Node>)
    requires
        size(n@) <= bound,
    ensures
        opt_node(r) == own_offender(offenders_below(bound), n@),
    decreases bound, 2int,
{
    if has_tag(n, "kDescriptionList") {
        first_by(Place::Description, false, n)
    } else if has_tag(n, "kModuleItemList") {
        first_by(Place::ModuleItem, false, n)
    } else if has_tag(n, "kPackageItemList") {
        first_by(Place::PackageItem, false, n)
    } else if has_tag(n, "kModuleHeader") {
        match find_deep(n, "kFormalParameterList") {
            Some(list) => validate_module_parameter_list(list, Ghost(bound)),
            None => None,
        }
    } else if has_tag(n, "kDataDeclaration") {
        match find_deep(n, "kActualParameterList") {
            Some(list) => if find_deep(n, "kGateInstance").is_some() {
                validate_module_parameter_actuals(list, Ghost(bound))
            } else {
                None
            },
            None => None,
        }
    } else if has_tag(n, "kContinuousAssignmentStatement") {
        validate_assignment(n)
    } else if has_tag(n, "kNetDeclaration") {
        validate_net(n)
    } else if has_tag(n, "kPortDeclaration") {
        first_by(Place::ResolvedNet, true, n)
    } else if has_tag(n, "kNetVariableAssignment") {
        validate_net_target(n)
    } else if has_tag(n, "kPackedDimensions") {
        validate_literal_packed_dimensions(n)
    } else {
        validate_leaf(n)
    }
}

/// The first node that is rejected in a tree.
pub fn validate_node(n: &Node) -> (r: Option<&Node>)
    ensures
        opt_node(r) == offender(n@),
    decreases size(n@), 5int,
{
    let ghost bound = size(n@);
    proof {
        lemma_offender(n@);
    }
    let own: Option<&Node> = validate_own(n, Ghost(bound));
    if own.is_some() {
        return own;
    }
    proof {
        assert forall|j: int| 0 <= j < n@.kids.len() implies size(#[trigger] n@.kids[j])
            < bound by {
            lemma_kid(n@, j);
        }
    }
    validate_nodes(&kids(n), Ghost(bound))
}

// ---- strength tokens ----------------------------------------------------------------

/// Whether a tree declares a net whose type is a token.
pub open spec fn declares_net(n: NodeV, token: NodeV) -> bool
    decreases n,
{
    ||| n.tag == "kNetDeclaration"@ && (first_kid(found(n, "kDataType"@)) matches Some(kind)
        && kind.tag == token.tag && kind.start == token.start && token.start is Some)
    ||| exists|i: int| 0 <= i < n.kids.len() && declares_net(#[trigger] n.kids[i], token)
}

/// Whether a token is a strength, and not the type of a supply net.
pub open spec fn strength_token(tree: NodeV, token: NodeV) -> bool {
    listed(Place::StrengthToken, token.tag) && !((token.tag == "supply0"@ || token.tag
        == "supply1"@) && declares_net(tree, token))
}

/// The first strength token.
pub open spec fn first_strength(tree: NodeV, tokens: Seq<NodeV>) -> Option<NodeV>
    decreases tokens.len(),
{
    if tokens.len() == 0 {
        None
    } else if strength_token(tree, tokens[0]) {
        Some(tokens[0])
    } else {
        first_strength(tree, tokens.drop_first())
    }
}

/// The first node or token that is rejected: a strength token, or a node.
pub open spec fn rejected(tree: NodeV, tokens: Seq<NodeV>) -> Option<NodeV> {
    match first_strength(tree, tokens) {
        Some(t) => Some(t),
        None => offender(tree),
    }
}

/// Whether a tree declares a net whose type is a token.
fn is_internal_supply_net_token(n: &Node, token: &Node) -> (r: bool)
    ensures
        r == declares_net(n@, token@),
    decreases n,
{
    if has_tag(n, "kNetDeclaration") {
        if let Some(kind) = first_kid_of(find(n, "kDataType")) {
            if let (Some(a), Some(b)) = (kind.start, token.start) {
                if a == b && has_tag(kind, token.tag.as_str()) {
                    return true;
                }
            }
        }
    }
    let mut i: usize = 0;
    while i < n.kids.len()
        invariant
            i <= n.kids@.len(),
            !(n@.tag == "kNetDeclaration"@ && (first_kid(found(n@, "kDataType"@)) matches Some(
                kind,
            ) && kind.tag == token@.tag && kind.start == token@.start && token@.start is Some)),
            forall|j: int| 0 <= j < i ==> !declares_net(#[trigger] n@.kids[j], token@),
        decreases n.kids@.len() - i,
    {
        assert(n@.kids[i as int] == n.kids[i as int]@);
        assert(decreases_to!(n.kids => n.kids@[i as int]));
        if is_internal_supply_net_token(&n.kids[i], token) {
            return true;
        }
        i = i + 1;
    }
    false
}

// ---- places in the source -------------------------------------------------------------

/// The first offset that a tree records.
pub open spec fn first_offset(n: NodeV) -> Option<u64>
    decreases n,
{
    match n.start {
        Some(o) => Some(o),
        None => first_offset_among(n.kids),
    }
}

/// The first offset that some trees record.
pub open spec fn first_offset_among(ns: Seq<NodeV>) -> Option<u64>
    decreases ns,
{
    if ns.len() == 0 {
        None
    } else {
        match first_offset(ns[0]) {
            Some(o) => Some(o),
            None => first_offset_among(ns.drop_first()),
        }
    }
}

/// The offset of a tree in a source of some length.
pub open spec fn offset_in(n: NodeV, len: nat) -> nat {
    match first_offset(n) {
        Some(o) => if o < len {
            o as nat
        } else {
            len
        },
        None => 0,
    }
}

/// The number of line breaks before an offset.
pub open spec fn line_breaks(source: Seq<u8>, offset: nat) -> nat
    decreases offset,
{
    if offset == 0 {
        0
    } else {
        line_breaks(source, (offset - 1) as nat) + (if source[offset - 1] == 10 {
            1nat
        } else {
            0nat
        })
    }
}

/// Where the line of an offset starts.
pub open spec fn line_start(source: Seq<u8>, offset: nat) -> nat
    decreases offset,
{
    if offset == 0 {
        0
    } else if source[offset - 1] == 10 {
        offset
    } else {
        line_start(source, (offset - 1) as nat)
    }
}

/// Whether an error names a node as unsupported, at its place in the source.
pub open spec fn names(e: FeError, n: NodeV, source: Seq<u8>) -> bool {
    match e {
        FeError::UnsupportedSyntax { construct, line, column } => {
            let offset = offset_in(n, source.len());
            &&& construct@ == n.tag
            &&& line == line_breaks(source, offset) + 1
            &&& column == offset - line_start(source, offset) + 1
        },
        _ => false,
    }
}

/// The first offset that a tree records.
pub fn offset_of(n: &Node) -> (r: Option<u64>)
    ensures
        r == first_offset(n@),
    decreases n,
{
    if n.start.is_some() {
        return n.start;
    }
    let mut i: usize = 0;
    assert(n@.kids.skip(0) =~= n@.kids);
    while i < n.kids.len()
        invariant
            i <= n.kids@.len(),
            n@.start is None,
            first_offset_among(n@.kids) == first_offset_among(n@.kids.skip(i as int)),
        decreases n.kids@.len() - i,
    {
        let ghost rest = n@.kids.skip(i as int);
        assert(rest[0] == n.kids[i as int]@);
        assert(rest.drop_first() =~= n@.kids.skip(i as int + 1));
        assert(decreases_to!(n.kids => n.kids@[i as int]));
        let o: Option<u64> = offset_of(&n.kids[i]);
        if o.is_some() {
            return o;
        }
        i = i + 1;
    }
    None
}

/// The error that names a node as unsupported.
fn unsupported(n: &Node, source: &str) -> (r: FeError)
    requires
        source.spec_bytes().len() < usize::MAX,
    ensures
        names(r, n@, source.spec_bytes()),
{
    let bytes: &[u8] = source.as_bytes();
    let len: usize = bytes.len();
    let offset: usize = match offset_of(n) {
        Some(o) => if o < len as u64 {
            o as usize
        } else {
            len
        },
        None => 0,
    };
    let mut breaks: usize = 0;
    let mut start: usize = 0;
    let mut i: usize = 0;
    while i < offset
        invariant
            i <= offset <= bytes@.len(),
            bytes@.len() < usize::MAX,
            breaks <= i,
            breaks == line_breaks(bytes@, i as nat),
            start <= i,
            start == line_start(bytes@, i as nat),
        decreases offset - i,
    {
        if bytes[i] == 10 {
            breaks = breaks + 1;
            start = i + 1;
        }
        i = i + 1;
    }
    FeError::UnsupportedSyntax {
        construct: n.tag.clone(),
        line: breaks + 1,
        column: offset - start + 1,
    }
}

/// The first strength token.
pub fn find_strength<'a>(tree: &Node, tokens: &'a Vec<Node>) -> (r: Option<&'a Node>)
    ensures
        opt_node(r) == first_strength(tree@, node_views(tokens@)),
{
    let ghost all = node_views(tokens@);
    let mut i: usize = 0;
    assert(all.skip(0) =~= all);
    while i < tokens.len()
        invariant
            i <= tokens@.len(),
            all == node_views(tokens@),
            first_strength(tree@, all) == first_strength(tree@, all.skip(i as int)),
        decreases tokens@.len() - i,
    {
        let ghost rest = all.skip(i as int);
        let t: &Node = &tokens[i];
        assert(rest[0] == t@);
        assert(rest.drop_first() =~= all.skip(i as int + 1));
        if is_listed(Place::StrengthToken, t.tag.as_str()) && !((has_tag(t, "supply0") || has_tag(
            t,
            "supply1",
        )) && is_internal_supply_net_token(tree, t)) {
            return Some(t);
        }
        i = i + 1;
    }
    None
}

/// Check that a tree and its tokens stay in the supported subset.
pub fn validate(tree: &Node, tokens: &Vec<Node>, source: &str) -> (r: Result<(), FeError>)
    requires
        source.spec_bytes().len() < usize::MAX,
    ensures
        match rejected(tree@, node_views(tokens@)) {
            Some(n) => r matches Err(e) && names(e, n, source.spec_bytes()),
            None => r is Ok,
        },
{
    if let Some(t) = find_strength(tree, tokens) {
        return Err(unsupported(t, source));
    }
    match validate_node(tree) {
        Some(n) => Err(unsupported(n, source)),
        None => Ok(()),
    }
}

} // verus!
