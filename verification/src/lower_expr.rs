//! Lowering expressions.
//!
//! Verible wraps what it parses in ways that lowering undoes: a plain variable
//! read is printed as a function call without arguments, an operator leaf holds
//! its symbol as its tag, and `common.find(x)` is printed with an extension node
//! of its own because `find` is an array method.
use vstd::prelude::*;

use crate::ast::{clone_expr, expr_view, exprs_view, type_refs_view, views, Expr, Lvalue, TypeRef};
use crate::ast_model::{ExprV, LvalueV};
use crate::bit::Bit;
use crate::bits::fill;
use crate::cst::{
    find, find_deep, find_deep_in, find_in, first_kid, first_kid_of, found, found_deep,
    found_deep_in, found_in, group_cst, has_tag, kids_tagged, leaf_op, lemma_size_all, opt_node,
    refs_view, size, size_all, size_opt, tagged, text, text_of, word_of, Node, NodeV,
};
use crate::logic::LogicVec;
use crate::lower_types::{
    actual_args_in, binary_operator, deep_identifier, deep_identifier_of, identifier,
    last_qualified_segment, last_segment, lower_actual_args_in, lower_binop, lower_number,
    lower_unop, name_of, number, or_empty, own_qualified, own_qualified_id, qualified_segments,
    scope_of, scope_path, scoped, unary_operator, unquote, unquoted, unwrap_text,
};

verus! {

broadcast use group_cst;

// ---- what an expression lowers to --------------------------------------------

/// A literal zero.
pub open spec fn zero_literal(width: nat) -> ExprV {
    ExprV::Literal(fill(Bit::Zero, width))
}

/// What an expression node lowers to.
#[verifier::opaque]
pub open spec fn lowered(n: NodeV) -> ExprV
    decreases size(n), 1int,
{
    lowered_with(below(size(n)), n)
}

/// What expression nodes of less than a size lower to.
#[verifier::opaque]
pub open spec fn below(bound: nat) -> spec_fn(NodeV) -> ExprV
    decreases bound, 0int,
{
    |m: NodeV|
        if size(m) < bound {
            lowered(m)
        } else {
            arbitrary()
        }
}

/// Lowering below a bound is lowering.
pub proof fn lemma_below(bound: nat, m: NodeV)
    requires
        size(m) < bound,
    ensures
        below(bound)(m) == lowered(m),
{
    reveal(below);
    reveal(lowered);
}

/// A node lowers by its own parts.
pub proof fn lemma_lowered(n: NodeV)
    ensures
        lowered(n) == lowered_with(below(size(n)), n),
{
    reveal(below);
    reveal(lowered);
}

/// What an expression node lowers to, given what its parts lower to. Where a part is
/// missing, an operand included, a zero stands for it or for the whole.
pub open spec fn lowered_with(f: spec_fn(NodeV) -> ExprV, n: NodeV) -> ExprV {
    if n.tag == "kExpression"@ {
        or_zero(f, first_kid(Some(n)), 32)
    } else if n.tag == "kNumber"@ {
        ExprV::Literal(number(n))
    } else if n.tag == "TK_StringLiteral"@ {
        ExprV::Str(unquoted(n.word()))
    } else if n.tag == "null"@ {
        ExprV::Null
    } else if n.tag == "kCast"@ {
        or_zero(f, found_in(found(n, "kParenGroup"@), "kExpression"@), 32)
    } else if n.tag == "kConcatenationExpression"@ {
        ExprV::Concat(exprs_in_with(f, found(n, "kOpenRangeList"@)))
    } else if n.tag == "kSystemTFCall"@ {
        ExprV::SysCall {
            name: word_of(found(n, "SystemTFIdentifier"@)),
            args: exprs_in_with(f, found_deep(n, "kArgumentList"@)),
        }
    } else if n.tag == "kClassNew"@ {
        ExprV::New { args: exprs_in_with(f, found_in(found(n, "kParenGroup"@), "kArgumentList"@)) }
    } else if n.tag == "kBinaryExpression"@ {
        folded_with(f, n.kids)
    } else if n.tag == "kUnaryPrefixExpression"@ {
        if n.kids.len() >= 2 {
            ExprV::Unary {
                op: unary_operator(n.kids[0].operator()),
                operand: Box::new(f(n.kids[1])),
            }
        } else {
            zero_literal(32)
        }
    } else if n.tag == "kParenGroup"@ || n.tag == "kParenExpression"@ {
        or_zero(f, found(n, "kExpression"@), 32)
    } else if n.tag == "kFunctionCall"@ || n.tag == "kReferenceCallBase"@ {
        call_or_ref_with(f, n)
    } else if n.tag == "kReference"@ {
        chain_value_with(f, n)
    } else if n.tag == "kIncrementDecrementExpression"@ {
        read_of(target_with(f, n))
    } else {
        ref_or_zero(n)
    }
}

/// What an expression that may be absent lowers to; a zero where it is.
pub open spec fn or_zero(f: spec_fn(NodeV) -> ExprV, o: Option<NodeV>, width: nat) -> ExprV {
    match o {
        Some(n) => f(n),
        None => zero_literal(width),
    }
}

/// What an expression that may be absent lowers to; a zero where it is.
pub open spec fn lowered_or(o: Option<NodeV>, width: nat) -> ExprV {
    match o {
        Some(n) => lowered(n),
        None => zero_literal(width),
    }
}

/// What an expression that may be absent lowers to.
pub open spec fn lowered_opt(o: Option<NodeV>) -> Option<ExprV> {
    match o {
        Some(n) => Some(lowered(n)),
        None => None,
    }
}

/// What the expressions in a list that may be absent lower to.
pub open spec fn exprs_in_with(f: spec_fn(NodeV) -> ExprV, o: Option<NodeV>) -> Seq<ExprV> {
    match o {
        Some(list) => tagged(list.kids, "kExpression"@).map_values(f),
        None => Seq::empty(),
    }
}

/// What the expressions in a list that may be absent lower to.
pub open spec fn exprs_in(o: Option<NodeV>) -> Seq<ExprV> {
    match o {
        Some(list) => tagged(list.kids, "kExpression"@).map_values(|m: NodeV| lowered(m)),
        None => Seq::empty(),
    }
}

/// What operands with operators between them lower to, grouped from the left.
pub open spec fn folded_with(f: spec_fn(NodeV) -> ExprV, cs: Seq<NodeV>) -> ExprV
    decreases cs.len(),
{
    if cs.len() == 0 {
        zero_literal(32)
    } else {
        if cs.len() == 1 {
            f(cs[0])
        } else if cs.len() % 2 == 0 {
            folded_with(f, cs.drop_last())
        } else {
            ExprV::Binary {
                op: binary_operator(cs[cs.len() - 2].operator()),
                lhs: Box::new(folded_with(f, cs.drop_last().drop_last())),
                rhs: Box::new(f(cs.last())),
            }
        }
    }
}

/// The first identifier or number below a node, or zero.
pub open spec fn ref_or_zero(n: NodeV) -> ExprV {
    match last_segment(n) {
        Some(name) => ExprV::Ref(name),
        None => match deep_identifier(Some(n)) {
            Some(name) => ExprV::Ref(name),
            None => if found_deep(n, "TK_DecNumber"@) is Some {
                ExprV::Literal(number(n))
            } else {
                zero_literal(32)
            },
        },
    }
}

/// What the root of a reference names.
pub open spec fn local_root(root: NodeV) -> ExprV {
    if found(root, "super"@) is Some {
        ExprV::Ref("super"@)
    } else if found(root, "this"@) is Some {
        ExprV::Ref("this"@)
    } else {
        match last_segment(root) {
            Some(name) => ExprV::Ref(name),
            None => match deep_identifier(Some(root)) {
                Some(name) => ExprV::Ref(name),
                None => zero_literal(32),
            },
        }
    }
}

/// Whether a node is a subscript.
pub open spec fn is_dimension(n: NodeV) -> bool {
    n.tag == "kDimensionScalar"@ || n.tag == "kDimensionRange"@ || n.tag == "kDimensionSlice"@
}

/// An element of a list, or a zero where there is none.
pub open spec fn element_or_zero(es: Seq<ExprV>, i: int) -> ExprV {
    if 0 <= i < es.len() {
        es[i]
    } else {
        zero_literal(32)
    }
}

/// A value with a subscript: an element, or a part-select for a range.
pub open spec fn subscripted(f: spec_fn(NodeV) -> ExprV, base: ExprV, dim: NodeV) -> ExprV {
    if dim.tag == "kDimensionRange"@ {
        let bounds = exprs_in_with(f, Some(dim));
        ExprV::PartSelect {
            base: Box::new(base),
            left: Box::new(element_or_zero(bounds, 0)),
            right: Box::new(element_or_zero(bounds, 1)),
        }
    } else if dim.tag != "kDimensionScalar"@ {
        base
    } else {
        ExprV::Index {
            base: Box::new(base),
            index: Box::new(
                or_zero(f, found_in(found(dim, "kExpressionList"@), "kExpression"@), 32),
            ),
        }
    }
}

/// The method that an array-method extension names.
pub open spec fn extension_method(ns: Seq<NodeV>) -> Seq<char>
    decreases ns.len(),
{
    if ns.len() == 0 {
        Seq::empty()
    } else if ns[0].tag != "."@ && ns[0].tag != "kParenGroup"@ {
        ns[0].operator()
    } else {
        extension_method(ns.drop_first())
    }
}

/// A reference continued by its next part.
pub open spec fn continued(f: spec_fn(NodeV) -> ExprV, so_far: Option<ExprV>, c: NodeV) -> Option<ExprV> {
    if c.tag == "kLocalRoot"@ {
        Some(local_root(c))
    } else {
        match so_far {
            None => None,
            Some(base) => if is_dimension(c) {
                Some(subscripted(f, base, c))
            } else if c.tag == "kHierarchyExtension"@ {
                let member = or_empty(identifier(found(c, "kUnqualifiedId"@)));
                match found(c, "kParenGroup"@) {
                    Some(paren) => Some(
                        ExprV::MethodCall {
                            obj: Box::new(base),
                            method: member,
                            args: exprs_in_with(f, found(paren, "kArgumentList"@)),
                        },
                    ),
                    None => Some(ExprV::Field { obj: Box::new(base), field: member }),
                }
            } else if c.tag == "kBuiltinArrayMethodCallExtension"@ {
                Some(
                    ExprV::MethodCall {
                        obj: Box::new(base),
                        method: extension_method(c.kids),
                        args: exprs_in_with(f, found_in(found(c, "kParenGroup"@), "kArgumentList"@)),
                    },
                )
            } else {
                Some(base)
            },
        }
    }
}

/// What the parts of a reference lower to, from the left.
pub open spec fn chain(f: spec_fn(NodeV) -> ExprV, ns: Seq<NodeV>) -> Option<ExprV>
    decreases ns.len(),
{
    if ns.len() == 0 {
        None
    } else {
        continued(f, chain(f, ns.drop_last()), ns.last())
    }
}

/// What a reference lowers to.
pub open spec fn chain_value_with(f: spec_fn(NodeV) -> ExprV, reference: NodeV) -> ExprV {
    match chain(f, reference.kids) {
        Some(e) => e,
        None => zero_literal(32),
    }
}

/// What a reference lowers to.
pub open spec fn chain_value(reference: NodeV) -> ExprV {
    chain_value_with(below(size(reference)), reference)
}

/// A value with the subscripts of a reference.
pub open spec fn dimensioned(f: spec_fn(NodeV) -> ExprV, ns: Seq<NodeV>, base: ExprV) -> ExprV
    decreases ns.len(),
{
    if ns.len() == 0 {
        base
    } else {
        let before = dimensioned(f, ns.drop_last(), base);
        if is_dimension(ns.last()) {
            subscripted(f, before, ns.last())
        } else {
            before
        }
    }
}

/// The node that carries the reference of a call.
pub open spec fn call_base(n: NodeV) -> Option<NodeV> {
    if n.tag == "kReferenceCallBase"@ {
        Some(n)
    } else {
        found(n, "kReferenceCallBase"@)
    }
}

/// A reference called with arguments.
pub open spec fn called(e: ExprV, args: Seq<ExprV>) -> ExprV {
    match e {
        ExprV::Field { obj, field } => ExprV::MethodCall { obj, method: field, args },
        ExprV::Ref(name) => ExprV::Call { name, args },
        other => other,
    }
}

/// What a call, or a reference printed as one, lowers to.
pub open spec fn call_or_ref_with(f: spec_fn(NodeV) -> ExprV, n: NodeV) -> ExprV {
    let reference = match call_base(n) {
        Some(b) => found(b, "kReference"@),
        None => found(n, "kReference"@),
    };
    let paren = match call_base(n) {
        Some(b) => found(b, "kParenGroup"@),
        None => None,
    };
    match reference {
        Some(r) => match scoped(r) {
            Some(segs) => match paren {
                Some(p) => ExprV::StaticCall {
                    class_name: scope_path(segs.drop_last()),
                    class_args: segment_args(r),
                    method: segs.last(),
                    args: exprs_in_with(f, found(p, "kArgumentList"@)),
                },
                None => dimensioned(
                    f,
                    r.kids,
                    ExprV::StaticRef {
                        class_name: scope_path(segs.drop_last()),
                        field: segs.last(),
                    },
                ),
            },
            None => match paren {
                Some(p) => called(chain_value_with(f, r), exprs_in_with(f, found(p, "kArgumentList"@))),
                None => chain_value_with(f, r),
            },
        },
        None => ref_or_zero(n),
    }
}

/// The `#(...)` arguments of the first segment of a scoped name.
pub open spec fn segment_args(reference: NodeV) -> Seq<crate::ast_model::TypeRefV> {
    actual_args_in(
        found_in(
            found_in(own_qualified(reference), "kUnqualifiedId"@),
            "kActualParameterList"@,
        ),
    )
}

/// The assignment target that a reference is, if it is one.
pub open spec fn target_of(e: ExprV) -> Option<LvalueV> {
    match e {
        ExprV::Index { base, index } => match *base {
            ExprV::Field { obj, field } => Some(
                LvalueV { name: field, receiver: Some(obj), index: Some(*index), scope: None },
            ),
            ExprV::Ref(name) => Some(
                LvalueV { name, receiver: None, index: Some(*index), scope: None },
            ),
            _ => None,
        },
        ExprV::Field { obj, field } => Some(
            LvalueV { name: field, receiver: Some(obj), index: None, scope: None },
        ),
        ExprV::Ref(name) => Some(LvalueV { name, receiver: None, index: None, scope: None }),
        _ => None,
    }
}

/// What the target of an assignment lowers to.
pub open spec fn target(n: NodeV) -> LvalueV {
    target_with(below(size(n)), n)
}

/// What the target of an assignment lowers to, given what its parts lower to.
pub open spec fn target_with(f: spec_fn(NodeV) -> ExprV, n: NodeV) -> LvalueV {
    let place = found(n, "kLPValue"@);
    let index = match found_in(
        found_in(found_deep_in(place, "kDimensionScalar"@), "kExpressionList"@),
        "kExpression"@,
    ) {
        Some(e) => Some(f(e)),
        None => None,
    };
    let by_name = LvalueV {
        name: or_empty(deep_identifier(place)),
        receiver: None,
        index,
        scope: None,
    };
    match place {
        None => by_name,
        Some(p) => match scoped(p) {
            Some(segs) => LvalueV {
                name: segs.last(),
                receiver: None,
                index,
                scope: Some(segs[0]),
            },
            None => match found(p, "kReference"@) {
                Some(reference) => match target_of(chain_value_with(f, reference)) {
                    Some(lhs) => lhs,
                    None => by_name,
                },
                None => by_name,
            },
        },
    }
}

/// The value that an assignment target holds.
pub open spec fn read_of(lhs: LvalueV) -> ExprV {
    match lhs.index {
        Some(index) => ExprV::Index { base: Box::new(named(lhs)), index: Box::new(index) },
        None => named(lhs),
    }
}

/// What an assignment target names, without its index.
pub open spec fn named(lhs: LvalueV) -> ExprV {
    match lhs.scope {
        Some(scope) => ExprV::StaticRef { class_name: scope, field: lhs.name },
        None => match lhs.receiver {
            Some(receiver) => ExprV::Field { obj: receiver, field: lhs.name },
            None => ExprV::Ref(lhs.name),
        },
    }
}

// ---- lowering ---------------------------------------------------------------

/// An expression, if there is one.
pub open spec fn opt_expr(o: Option<Expr>) -> Option<ExprV> {
    match o {
        Some(e) => Some(e@),
        None => None,
    }
}

/// A literal zero.
pub fn zero(width: u32) -> (r: Expr)
    requires
        width >= 1,
    ensures
        r@ == zero_literal(width as nat),
{
    Expr::Literal(LogicVec::zero(width))
}

/// Lower an expression node: anything that may appear under `kExpression`.
pub fn lower_expr(n: &Node) -> (r: Expr)
    ensures
        r@ == lowered(n@),
    decreases size(n@), 5int,
{
    let ghost f = below(size(n@));
    proof {
        lemma_lowered(n@);
    }
    if has_tag(n, "kExpression") {
        lower_part(first_kid_of(Some(n)), 32, Ghost(size(n@)))
    } else if has_tag(n, "kNumber") {
        Expr::Literal(lower_number(n))
    } else if has_tag(n, "TK_StringLiteral") {
        Expr::Str(unquote(text(n).as_str()))
    } else if has_tag(n, "null") {
        Expr::Null
    } else if has_tag(n, "kCast") {
        lower_part(find_in(find(n, "kParenGroup"), "kExpression"), 32, Ghost(size(n@)))
    } else if has_tag(n, "kConcatenationExpression") {
        Expr::Concat(lower_list(find(n, "kOpenRangeList"), Ghost(size(n@))))
    } else if has_tag(n, "kSystemTFCall") {
        Expr::SysCall {
            name: text_of(find(n, "SystemTFIdentifier")),
            args: lower_list(find_deep(n, "kArgumentList"), Ghost(size(n@))),
        }
    } else if has_tag(n, "kClassNew") {
        Expr::New { args: lower_list(find_in(find(n, "kParenGroup"), "kArgumentList"), Ghost(size(n@))) }
    } else if has_tag(n, "kBinaryExpression") {
        fold_binary(n, Ghost(size(n@)))
    } else if has_tag(n, "kUnaryPrefixExpression") {
        if n.kids.len() < 2 {
            return zero(32);
        }
        proof {
            lemma_below(size(n@), n@.kids[1]);
        }
        assert(n@.kids[0] == n.kids[0]@ && n@.kids[1] == n.kids[1]@);
        Expr::Unary {
            op: lower_unop(leaf_op(&n.kids[0]).as_str()),
            operand: Box::new(lower_expr(&n.kids[1])),
        }
    } else if has_tag(n, "kParenGroup") || has_tag(n, "kParenExpression") {
        lower_part(find(n, "kExpression"), 32, Ghost(size(n@)))
    } else if has_tag(n, "kFunctionCall") || has_tag(n, "kReferenceCallBase") {
        lower_call_or_ref(n, Ghost(size(n@)))
    } else if has_tag(n, "kReference") {
        lower_chain(n, Ghost(size(n@)))
    } else if has_tag(n, "kIncrementDecrementExpression") {
        lvalue_read(&lower_target(n, Ghost(size(n@))))
    } else {
        lower_ref_or_zero(n)
    }
}

/// Lower an expression that may be absent; a zero where it is.
pub fn lower_or(o: Option<&Node>, width: u32) -> (r: Expr)
    requires
        width >= 1,
    ensures
        r@ == lowered_or(opt_node(o), width as nat),
    decreases size_opt(opt_node(o)), 6int,
{
    match o {
        Some(n) => lower_expr(n),
        None => zero(width),
    }
}

/// Lower an expression that may be absent.
pub fn lower_opt(o: Option<&Node>) -> (r: Option<Expr>)
    ensures
        opt_expr(r) == lowered_opt(opt_node(o)),
    decreases size_opt(opt_node(o)), 6int,
{
    match o {
        Some(n) => Some(lower_expr(n)),
        None => None,
    }
}

/// Lower an expression below a bound that may be absent; a zero where it is.
fn lower_part(o: Option<&Node>, width: u32, Ghost(bound): Ghost<nat>) -> (r: Expr)
    requires
        width >= 1,
        o is Some ==> size_opt(opt_node(o)) < bound,
    ensures
        r@ == or_zero(below(bound), opt_node(o), width as nat),
    decreases bound, 0int,
{
    match o {
        Some(n) => {
            proof {
                lemma_below(bound, n@);
            }
            lower_expr(n)
        },
        None => zero(width),
    }
}

/// Lower the expressions in a list that may be absent.
fn lower_list(o: Option<&Node>, Ghost(bound): Ghost<nat>) -> (r: Vec<Expr>)
    requires
        size_opt(opt_node(o)) <= bound,
    ensures
        exprs_view(r@) == exprs_in_with(below(bound), opt_node(o)),
    decreases bound, 0int,
{
    let mut out: Vec<Expr> = Vec::new();
    let list: &Node = match o {
        Some(list) => list,
        None => {
            assert(exprs_view(out@) =~= Seq::<ExprV>::empty());
            return out;
        },
    };
    let ns: Vec<&Node> = kids_tagged(list, "kExpression");
    let ghost all = tagged(list@.kids, "kExpression"@);
    assert(refs_view(ns@) == all);
    let mut i: usize = 0;
    assert(exprs_view(out@) =~= all.take(0).map_values(below(bound)));
    while i < ns.len()
        invariant
            i <= ns@.len(),
            all == refs_view(ns@),
            size_all(all) < bound,
            exprs_view(out@) == all.take(i as int).map_values(below(bound)),
        decreases ns@.len() - i,
    {
        assert(all[i as int] == ns[i as int]@);
        proof {
            lemma_size_all(all, i as int);
            lemma_below(bound, all[i as int]);
        }
        let e: Expr = lower_expr(ns[i]);
        let ghost before = out@;
        out.push(e);
        i = i + 1;
        assert(exprs_view(out@) =~= exprs_view(before).push(e@));
        assert(all.take(i as int).map_values(below(bound)) =~= all.take(i as int - 1).map_values(
            below(bound),
        ).push(e@));
    }
    assert(all.take(i as int) =~= all);
    out
}

/// Lower the expressions in a list that may be absent.
pub fn lower_exprs(o: Option<&Node>) -> (r: Vec<Expr>)
    ensures
        exprs_view(r@) == exprs_in(opt_node(o)),
{
    let ghost bound = size_opt(opt_node(o));
    let out: Vec<Expr> = lower_list(o, Ghost(bound));
    proof {
        if let Some(list) = opt_node(o) {
            let all = tagged(list.kids, "kExpression"@);
            assert forall|i: int| 0 <= i < all.len() implies #[trigger] below(bound)(all[i])
                == lowered(all[i]) by {
                lemma_size_all(all, i);
                lemma_below(bound, all[i]);
            }
            assert(all.map_values(below(bound)) =~= all.map_values(|m: NodeV| lowered(m)));
        }
    }
    out
}

proof fn lemma_folded(f: spec_fn(NodeV) -> ExprV, all: Seq<NodeV>, i: int)
    requires
        1 <= i,
        i + 2 <= all.len(),
        i % 2 == 1,
    ensures
        folded_with(f, all.take(i + 2)) == (ExprV::Binary {
            op: binary_operator(all[i].operator()),
            lhs: Box::new(folded_with(f, all.take(i))),
            rhs: Box::new(f(all[i + 1])),
        }),
{
    let next = all.take(i + 2);
    assert(next.drop_last().drop_last() =~= all.take(i));
    assert(next[next.len() - 2] == all[i]);
    assert(next.last() == all[i + 1]);
}

/// Lower operands with operators between them, grouped from the left.
#[verifier::spinoff_prover]
#[verifier::rlimit(40)]
fn fold_binary(n: &Node, Ghost(bound): Ghost<nat>) -> (r: Expr)
    requires
        size(n@) <= bound,
    ensures
        r@ == folded_with(below(bound), n@.kids),
    decreases bound, 4int,
{
    if n.kids.len() == 0 {
        return zero(32);
    }
    let ghost f = below(bound);
    let ghost all = n@.kids;
    proof {
        lemma_below(bound, all[0]);
    }
    assert(all[0] == n.kids[0]@);
    let mut acc: Expr = lower_expr(&n.kids[0]);
    let mut i: usize = 1;
    assert(all.take(1).len() == 1 && all.take(1)[0] == all[0]);
    while i < n.kids.len() && n.kids.len() - i >= 2
        invariant
            1 <= i <= n.kids@.len(),
            i % 2 == 1,
            all == n@.kids,
            size(n@) <= bound,
            f == below(bound),
            acc@ == folded_with(f, all.take(i as int)),
        decreases n.kids@.len() - i,
    {
        assert(all[i as int] == n.kids[i as int]@);
        assert(all[i + 1] == n.kids[i + 1]@);
        let op = lower_binop(leaf_op(&n.kids[i]).as_str());
        let rhs: Expr = lower_expr(&n.kids[i + 1]);
        acc = Expr::Binary { op, lhs: Box::new(acc), rhs: Box::new(rhs) };
        proof {
            lemma_below(bound, all[i + 1]);
            lemma_folded(f, all, i as int);
        }
        i = i + 2;
    }
    proof {
        if i < n.kids@.len() {
            assert(all.drop_last() =~= all.take(i as int));
        } else {
            assert(all =~= all.take(i as int));
        }
    }
    acc
}

/// The first identifier or number below a node, or zero: what is left of the
/// ways in which a reference may be wrapped.
fn lower_ref_or_zero(n: &Node) -> (r: Expr)
    ensures
        r@ == ref_or_zero(n@),
{
    if let Some(last) = last_qualified_segment(n) {
        return Expr::Ref(last);
    }
    if let Some(name) = deep_identifier_of(Some(n)) {
        return Expr::Ref(name);
    }
    if find_deep(n, "TK_DecNumber").is_some() {
        return Expr::Literal(lower_number(n));
    }
    zero(32)
}

/// Lower the root of a reference: `super`, `this`, the last segment of a scoped
/// name, or a plain identifier.
fn lower_local_root(root: &Node) -> (r: Expr)
    ensures
        r@ == local_root(root@),
{
    if find(root, "super").is_some() {
        return Expr::Ref("super".to_owned());
    }
    if find(root, "this").is_some() {
        return Expr::Ref("this".to_owned());
    }
    if let Some(last) = last_qualified_segment(root) {
        return Expr::Ref(last);
    }
    if let Some(name) = deep_identifier_of(Some(root)) {
        return Expr::Ref(name);
    }
    zero(32)
}

/// Whether a node is a subscript.
fn dimension(n: &Node) -> (r: bool)
    ensures
        r == is_dimension(n@),
{
    has_tag(n, "kDimensionScalar") || has_tag(n, "kDimensionRange") || has_tag(n, "kDimensionSlice")
}

/// Lower a subscript: an element, or a part-select for a range.
fn lower_dimension_subscript(base: Expr, dim: &Node, Ghost(bound): Ghost<nat>) -> (r: Expr)
    requires
        size(dim@) <= bound,
    ensures
        r@ == subscripted(below(bound), base@, dim@),
    decreases bound, 1int,
{
    if has_tag(dim, "kDimensionRange") {
        let bounds: Vec<Expr> = lower_list(Some(dim), Ghost(bound));
        assert(exprs_view(bounds@).len() == bounds@.len());
        let left: Expr = if bounds.len() > 0 {
            assert(exprs_view(bounds@)[0] == expr_view(bounds@[0]));
            clone_expr(&bounds[0])
        } else {
            zero(32)
        };
        let right: Expr = if bounds.len() > 1 {
            assert(exprs_view(bounds@)[1] == expr_view(bounds@[1]));
            clone_expr(&bounds[1])
        } else {
            zero(32)
        };
        return Expr::PartSelect {
            base: Box::new(base),
            left: Box::new(left),
            right: Box::new(right),
        };
    }
    if !has_tag(dim, "kDimensionScalar") {
        return base;
    }
    let index: Expr = lower_part(
        find_in(find(dim, "kExpressionList"), "kExpression"),
        32,
        Ghost(bound),
    );
    Expr::Index { base: Box::new(base), index: Box::new(index) }
}

/// The method that an array-method extension names.
fn extension_method_of(n: &Node) -> (r: String)
    ensures
        r@ == extension_method(n@.kids),
{
    let mut i: usize = 0;
    assert(n@.kids.skip(0) =~= n@.kids);
    while i < n.kids.len()
        invariant
            i <= n.kids@.len(),
            extension_method(n@.kids) == extension_method(n@.kids.skip(i as int)),
        decreases n.kids@.len() - i,
    {
        let ghost rest = n@.kids.skip(i as int);
        assert(rest[0] == n.kids[i as int]@);
        assert(rest.drop_first() =~= n@.kids.skip(i as int + 1));
        if !has_tag(&n.kids[i], ".") && !has_tag(&n.kids[i], "kParenGroup") {
            return leaf_op(&n.kids[i]);
        }
        i = i + 1;
    }
    unwrap_text(None)
}

/// Continue a reference by its next part.
fn lower_continued(so_far: Option<Expr>, c: &Node, Ghost(bound): Ghost<nat>) -> (r: Option<Expr>)
    requires
        size(c@) <= bound,
    ensures
        opt_expr(r) == continued(below(bound), opt_expr(so_far), c@),
    decreases bound, 2int,
{
    if has_tag(c, "kLocalRoot") {
        return Some(lower_local_root(c));
    }
    let base: Expr = match so_far {
        Some(base) => base,
        None => {
            return None;
        },
    };
    if dimension(c) {
        Some(lower_dimension_subscript(base, c, Ghost(bound)))
    } else if has_tag(c, "kHierarchyExtension") {
        let member: String = name_of(find(c, "kUnqualifiedId"));
        match find(c, "kParenGroup") {
            Some(paren) => Some(
                Expr::MethodCall {
                    obj: Box::new(base),
                    method: member,
                    args: lower_list(find(paren, "kArgumentList"), Ghost(bound)),
                },
            ),
            None => Some(Expr::Field { obj: Box::new(base), field: member }),
        }
    } else if has_tag(c, "kBuiltinArrayMethodCallExtension") {
        Some(
            Expr::MethodCall {
                obj: Box::new(base),
                method: extension_method_of(c),
                args: lower_list(find_in(find(c, "kParenGroup"), "kArgumentList"), Ghost(bound)),
            },
        )
    } else {
        Some(base)
    }
}

/// Lower a reference, part by part from the left.
pub fn lower_reference_chain(reference: &Node) -> (r: Expr)
    ensures
        r@ == chain_value(reference@),
{
    lower_chain(reference, Ghost(size(reference@)))
}

/// Lower a reference, part by part from the left.
fn lower_chain(reference: &Node, Ghost(bound): Ghost<nat>) -> (r: Expr)
    requires
        size(reference@) <= bound,
    ensures
        r@ == chain_value_with(below(bound), reference@),
    decreases bound, 3int,
{
    let ghost f = below(bound);
    let mut result: Option<Expr> = None;
    let mut i: usize = 0;
    let ghost all = reference@.kids;
    while i < reference.kids.len()
        invariant
            i <= reference.kids@.len(),
            all == reference@.kids,
            size(reference@) <= bound,
            f == below(bound),
            opt_expr(result) == chain(f, all.take(i as int)),
        decreases reference.kids@.len() - i,
    {
        assert(all[i as int] == reference.kids[i as int]@);
        result = lower_continued(result, &reference.kids[i], Ghost(bound));
        proof {
            assert(all.take(i as int + 1).drop_last() =~= all.take(i as int));
            assert(all.take(i as int + 1).last() == all[i as int]);
        }
        i = i + 1;
    }
    assert(all.take(i as int) =~= all);
    match result {
        Some(e) => e,
        None => zero(32),
    }
}

/// Lower the subscripts of a reference onto a value.
fn lower_reference_dimensions(
    reference: &Node,
    base: Expr,
    Ghost(bound): Ghost<nat>,
) -> (r: Expr)
    requires
        size(reference@) <= bound,
    ensures
        r@ == dimensioned(below(bound), reference@.kids, base@),
    decreases bound, 3int,
{
    let ghost f = below(bound);
    let ghost start = base@;
    let mut base: Expr = base;
    let mut i: usize = 0;
    let ghost all = reference@.kids;
    while i < reference.kids.len()
        invariant
            i <= reference.kids@.len(),
            all == reference@.kids,
            size(reference@) <= bound,
            f == below(bound),
            base@ == dimensioned(f, all.take(i as int), start),
        decreases reference.kids@.len() - i,
    {
        assert(all[i as int] == reference.kids[i as int]@);
        proof {
            assert(all.take(i as int + 1).drop_last() =~= all.take(i as int));
            assert(all.take(i as int + 1).last() == all[i as int]);
        }
        if dimension(&reference.kids[i]) {
            base = lower_dimension_subscript(base, &reference.kids[i], Ghost(bound));
        }
        i = i + 1;
    }
    assert(all.take(i as int) =~= all);
    base
}

/// The `#(...)` arguments of the first segment of a scoped name.
fn first_segment_args(reference: &Node) -> (r: Vec<TypeRef>)
    ensures
        type_refs_view(r@) == segment_args(reference@),
{
    lower_actual_args_in(
        find_in(find_in(own_qualified_id(reference), "kUnqualifiedId"), "kActualParameterList"),
    )
}

/// Call a reference with arguments.
fn call_reference(e: Expr, args: Vec<Expr>) -> (r: Expr)
    ensures
        r@ == called(e@, exprs_view(args@)),
{
    match e {
        Expr::Field { obj, field } => Expr::MethodCall { obj, method: field, args },
        Expr::Ref(name) => Expr::Call { name, args },
        other => other,
    }
}

/// Lower a function call, a method call, a static call, a field access, or a
/// reference that is printed as a call.
fn lower_call_or_ref(n: &Node, Ghost(bound): Ghost<nat>) -> (r: Expr)
    requires
        size(n@) <= bound,
    ensures
        r@ == call_or_ref_with(below(bound), n@),
    decreases bound, 4int,
{
    let base: Option<&Node> = if has_tag(n, "kReferenceCallBase") {
        Some(n)
    } else {
        find(n, "kReferenceCallBase")
    };
    let reference: Option<&Node> = match base {
        Some(b) => find(b, "kReference"),
        None => find(n, "kReference"),
    };
    let paren: Option<&Node> = match base {
        Some(b) => find(b, "kParenGroup"),
        None => None,
    };
    let r: &Node = match reference {
        Some(r) => r,
        None => {
            return lower_ref_or_zero(n);
        },
    };
    if let Some(segs) = qualified_segments(r) {
        let scope: String = scope_of(&segs);
        let member: String = segs[segs.len() - 1].clone();
        assert(views(segs@).last() == segs@.last()@);
        return match paren {
            Some(p) => Expr::StaticCall {
                class_name: scope,
                class_args: first_segment_args(r),
                method: member,
                args: lower_list(find(p, "kArgumentList"), Ghost(bound)),
            },
            None => lower_reference_dimensions(
                r,
                Expr::StaticRef { class_name: scope, field: member },
                Ghost(bound),
            ),
        };
    }
    let chain: Expr = lower_chain(r, Ghost(bound));
    match paren {
        Some(p) => call_reference(chain, lower_list(find(p, "kArgumentList"), Ghost(bound))),
        None => chain,
    }
}

/// The assignment target that a reference is, if it is one.
fn reference_target(e: &Expr) -> (r: Option<Lvalue>)
    ensures
        match r {
            Some(lhs) => target_of(e@) == Some(lhs@),
            None => target_of(e@) is None,
        },
{
    proof {
        if let Expr::Index { base, index } = e {
            assert(expr_view(**base) == (**base)@);
        }
    }
    match e {
        Expr::Index { base, index } => match &**base {
            Expr::Field { obj, field } => Some(
                Lvalue {
                    name: field.clone(),
                    receiver: Some(Box::new(clone_expr(&**obj))),
                    index: Some(clone_expr(&**index)),
                    scope: None,
                },
            ),
            Expr::Ref(name) => Some(
                Lvalue {
                    name: name.clone(),
                    receiver: None,
                    index: Some(clone_expr(&**index)),
                    scope: None,
                },
            ),
            _ => None,
        },
        Expr::Field { obj, field } => Some(
            Lvalue {
                name: field.clone(),
                receiver: Some(Box::new(clone_expr(&**obj))),
                index: None,
                scope: None,
            },
        ),
        Expr::Ref(name) => Some(
            Lvalue { name: name.clone(), receiver: None, index: None, scope: None },
        ),
        _ => None,
    }
}

/// Lower the target of an assignment.
pub fn lower_lvalue(n: &Node) -> (r: Lvalue)
    ensures
        r@ == target(n@),
{
    lower_target(n, Ghost(size(n@)))
}

/// Lower the target of an assignment.
fn lower_target(n: &Node, Ghost(bound): Ghost<nat>) -> (r: Lvalue)
    requires
        size(n@) <= bound,
    ensures
        r@ == target_with(below(bound), n@),
    decreases bound, 4int,
{
    let place: Option<&Node> = find(n, "kLPValue");
    let index: Option<Expr> = match find_in(
        find_in(find_deep_in(place, "kDimensionScalar"), "kExpressionList"),
        "kExpression",
    ) {
        Some(e) => {
            proof {
                lemma_below(bound, e@);
            }
            Some(lower_expr(e))
        },
        None => None,
    };
    if let Some(p) = place {
        if let Some(segs) = qualified_segments(p) {
            assert(views(segs@).last() == segs@.last()@);
            assert(views(segs@)[0] == segs@[0]@);
            return Lvalue {
                name: segs[segs.len() - 1].clone(),
                receiver: None,
                index,
                scope: Some(segs[0].clone()),
            };
        }
        if let Some(reference) = find(p, "kReference") {
            let chain: Expr = lower_chain(reference, Ghost(bound));
            if let Some(lhs) = reference_target(&chain) {
                return lhs;
            }
        }
    }
    Lvalue { name: unwrap_text(deep_identifier_of(place)), receiver: None, index, scope: None }
}

/// Read the value that an assignment target holds.
pub fn lvalue_read(lhs: &Lvalue) -> (r: Expr)
    ensures
        r@ == read_of(lhs@),
{
    let base: Expr = match &lhs.scope {
        Some(scope) => Expr::StaticRef { class_name: scope.clone(), field: lhs.name.clone() },
        None => match &lhs.receiver {
            Some(receiver) => Expr::Field {
                obj: Box::new(clone_expr(&**receiver)),
                field: lhs.name.clone(),
            },
            None => Expr::Ref(lhs.name.clone()),
        },
    };
    assert(base@ == named(lhs@));
    match &lhs.index {
        Some(index) => Expr::Index { base: Box::new(base), index: Box::new(clone_expr(index)) },
        None => base,
    }
}

} // verus!
