//! What syntax trees lower to, form by form: which part of a tree becomes which part of
//! an expression or a statement.
use vstd::prelude::*;

use crate::ast::BinOp;
use crate::ast_model::{ExprV, LvalueV, StmtV, TimingControlV};
use crate::bits::bits_of;
use crate::cst::{
    first_kid, found, found_deep, found_deep_in, found_in, group_cst, last_kid, lemma_kid,
    lemma_size_all, nth_kid, size, tagged, word_of, NodeV,
};
use crate::lower_body::{lemma_lowered_stmt, lemma_stmts_below, lowered_stmt, stmts_below};
use crate::lower_expr::{
    below, chain, chain_value, chain_value_with, exprs_in_with, folded_with, lemma_below,
    lemma_lowered, lowered, target,
};
use crate::lower_stmt::{first_compound, timing_control};
use crate::lower_types::{binary_operator, identifier, scoped};
use crate::symbol_laws::{
    binary_symbol, binary_symbols_lower_back, unary_symbol, unary_symbols_lower_back,
};
use crate::ast::UnaryOp;

verus! {

broadcast use group_cst;

/// The tags of expressions differ.
proof fn lemma_expression_tags()
    ensures
        "kExpression"@.len() == 11 && "kExpression"@[0] == 'k' && "kExpression"@[1] == 'E',
        "kNumber"@.len() == 7 && "kNumber"@[0] == 'k' && "kNumber"@[1] == 'N',
        "TK_StringLiteral"@.len() == 16 && "TK_StringLiteral"@[0] == 'T' && "TK_StringLiteral"@[1] == 'K',
        "null"@.len() == 4 && "null"@[0] == 'n' && "null"@[1] == 'u',
        "kCast"@.len() == 5 && "kCast"@[0] == 'k' && "kCast"@[1] == 'C',
        "kConcatenationExpression"@.len() == 24 && "kConcatenationExpression"@[0] == 'k' && "kConcatenationExpression"@[1] == 'C',
        "kSystemTFCall"@.len() == 13 && "kSystemTFCall"@[0] == 'k' && "kSystemTFCall"@[1] == 'S',
        "kClassNew"@.len() == 9 && "kClassNew"@[0] == 'k' && "kClassNew"@[1] == 'C',
        "kBinaryExpression"@.len() == 17 && "kBinaryExpression"@[0] == 'k' && "kBinaryExpression"@[1] == 'B',
        "kUnaryPrefixExpression"@.len() == 22 && "kUnaryPrefixExpression"@[0] == 'k' && "kUnaryPrefixExpression"@[1] == 'U',
        "kParenGroup"@.len() == 11 && "kParenGroup"@[0] == 'k' && "kParenGroup"@[1] == 'P',
        "kParenExpression"@.len() == 16 && "kParenExpression"@[0] == 'k' && "kParenExpression"@[1] == 'P',
        "kFunctionCall"@.len() == 13 && "kFunctionCall"@[0] == 'k' && "kFunctionCall"@[1] == 'F',
        "kReferenceCallBase"@.len() == 18 && "kReferenceCallBase"@[0] == 'k' && "kReferenceCallBase"@[1] == 'R',
        "kReference"@.len() == 10 && "kReference"@[0] == 'k' && "kReference"@[1] == 'R',
        "kIncrementDecrementExpression"@.len() == 29 && "kIncrementDecrementExpression"@[0] == 'k' && "kIncrementDecrementExpression"@[1] == 'I',
{
    reveal_strlit("kExpression");
    reveal_strlit("kNumber");
    reveal_strlit("TK_StringLiteral");
    reveal_strlit("null");
    reveal_strlit("kCast");
    reveal_strlit("kConcatenationExpression");
    reveal_strlit("kSystemTFCall");
    reveal_strlit("kClassNew");
    reveal_strlit("kBinaryExpression");
    reveal_strlit("kUnaryPrefixExpression");
    reveal_strlit("kParenGroup");
    reveal_strlit("kParenExpression");
    reveal_strlit("kFunctionCall");
    reveal_strlit("kReferenceCallBase");
    reveal_strlit("kReference");
    reveal_strlit("kIncrementDecrementExpression");
}

/// The tags of the parts of a reference differ.
proof fn lemma_reference_tags()
    ensures
        "kLocalRoot"@.len() == 10 && "kLocalRoot"@[0] == 'k' && "kLocalRoot"@[1] == 'L',
        "kDimensionScalar"@.len() == 16 && "kDimensionScalar"@[0] == 'k' && "kDimensionScalar"@[1] == 'D' && "kDimensionScalar"@[10] == 'S',
        "kDimensionRange"@.len() == 15 && "kDimensionRange"@[0] == 'k' && "kDimensionRange"@[1] == 'D' && "kDimensionRange"@[10] == 'R',
        "kDimensionSlice"@.len() == 15 && "kDimensionSlice"@[0] == 'k' && "kDimensionSlice"@[1] == 'D' && "kDimensionSlice"@[10] == 'S',
        "kHierarchyExtension"@.len() == 19 && "kHierarchyExtension"@[0] == 'k' && "kHierarchyExtension"@[1] == 'H' && "kHierarchyExtension"@[10] == 'E',
        "kBuiltinArrayMethodCallExtension"@.len() == 32 && "kBuiltinArrayMethodCallExtension"@[0] == 'k' && "kBuiltinArrayMethodCallExtension"@[1] == 'B' && "kBuiltinArrayMethodCallExtension"@[10] == 'r',
{
    reveal_strlit("kLocalRoot");
    reveal_strlit("kDimensionScalar");
    reveal_strlit("kDimensionRange");
    reveal_strlit("kDimensionSlice");
    reveal_strlit("kHierarchyExtension");
    reveal_strlit("kBuiltinArrayMethodCallExtension");
}

/// The tags of statements differ.
proof fn lemma_statement_tags()
    ensures
        "kProceduralTimingControlStatement"@.len() == 33 && "kProceduralTimingControlStatement"@[1] == 'P' && "kProceduralTimingControlStatement"@[5] == 'e',
        "kNetVariableAssignment"@.len() == 22 && "kNetVariableAssignment"@[1] == 'N' && "kNetVariableAssignment"@[5] == 'a',
        "kBlockingAssignmentStatement"@.len() == 28 && "kBlockingAssignmentStatement"@[1] == 'B' && "kBlockingAssignmentStatement"@[5] == 'k',
        "kFunctionCall"@.len() == 13 && "kFunctionCall"@[1] == 'F' && "kFunctionCall"@[5] == 't',
        "kVoidcast"@.len() == 9 && "kVoidcast"@[1] == 'V' && "kVoidcast"@[5] == 'c',
        "kNonblockingAssignmentStatement"@.len() == 31 && "kNonblockingAssignmentStatement"@[1] == 'N' && "kNonblockingAssignmentStatement"@[5] == 'l',
        "kIncrementDecrementExpression"@.len() == 29 && "kIncrementDecrementExpression"@[1] == 'I' && "kIncrementDecrementExpression"@[5] == 'e',
        "kAssignModifyStatement"@.len() == 22 && "kAssignModifyStatement"@[1] == 'A' && "kAssignModifyStatement"@[5] == 'g',
        "kSeqBlock"@.len() == 9 && "kSeqBlock"@[1] == 'S' && "kSeqBlock"@[5] == 'l',
        "kDataDeclaration"@.len() == 16 && "kDataDeclaration"@[1] == 'D' && "kDataDeclaration"@[5] == 'D',
        "kConditionalStatement"@.len() == 21 && "kConditionalStatement"@[1] == 'C' && "kConditionalStatement"@[5] == 'i',
        "kCaseStatement"@.len() == 14 && "kCaseStatement"@[1] == 'C' && "kCaseStatement"@[5] == 'S',
        "kBlockingEventTriggerStatement"@.len() == 30 && "kBlockingEventTriggerStatement"@[1] == 'B' && "kBlockingEventTriggerStatement"@[5] == 'k',
        "kWaitStatement"@.len() == 14 && "kWaitStatement"@[1] == 'W' && "kWaitStatement"@[5] == 'S',
        "kWhileLoopStatement"@.len() == 19 && "kWhileLoopStatement"@[1] == 'W' && "kWhileLoopStatement"@[5] == 'e',
        "kDoWhileLoopStatement"@.len() == 21 && "kDoWhileLoopStatement"@[1] == 'D' && "kDoWhileLoopStatement"@[5] == 'i',
        "kForeverLoopStatement"@.len() == 21 && "kForeverLoopStatement"@[1] == 'F' && "kForeverLoopStatement"@[5] == 'v',
        "kForeachLoopStatement"@.len() == 21 && "kForeachLoopStatement"@[1] == 'F' && "kForeachLoopStatement"@[5] == 'a',
        "kSystemTFCall"@.len() == 13 && "kSystemTFCall"@[1] == 'S' && "kSystemTFCall"@[5] == 'e',
        "kJumpStatement"@.len() == 14 && "kJumpStatement"@[1] == 'J' && "kJumpStatement"@[5] == 'S',
        "kStatement"@.len() == 10 && "kStatement"@[1] == 'S' && "kStatement"@[5] == 'e',
        "kStatementItem"@.len() == 14 && "kStatementItem"@[1] == 'S' && "kStatementItem"@[5] == 'e',
        "kParBlock"@.len() == 9 && "kParBlock"@[1] == 'P' && "kParBlock"@[5] == 'l',
{
    reveal_strlit("kProceduralTimingControlStatement");
    reveal_strlit("kNetVariableAssignment");
    reveal_strlit("kBlockingAssignmentStatement");
    reveal_strlit("kFunctionCall");
    reveal_strlit("kVoidcast");
    reveal_strlit("kNonblockingAssignmentStatement");
    reveal_strlit("kIncrementDecrementExpression");
    reveal_strlit("kAssignModifyStatement");
    reveal_strlit("kSeqBlock");
    reveal_strlit("kDataDeclaration");
    reveal_strlit("kConditionalStatement");
    reveal_strlit("kCaseStatement");
    reveal_strlit("kBlockingEventTriggerStatement");
    reveal_strlit("kWaitStatement");
    reveal_strlit("kWhileLoopStatement");
    reveal_strlit("kDoWhileLoopStatement");
    reveal_strlit("kForeverLoopStatement");
    reveal_strlit("kForeachLoopStatement");
    reveal_strlit("kSystemTFCall");
    reveal_strlit("kJumpStatement");
    reveal_strlit("kStatement");
    reveal_strlit("kStatementItem");
    reveal_strlit("kParBlock");
}

// ---- operators ------------------------------------------------------------------------

/// An operand, an operator and an operand are the operation on what the operands are, the
/// first on the left.
pub proof fn binary_trees_are_operations(n: NodeV, op: BinOp)
    requires
        n.tag == "kBinaryExpression"@,
        n.kids.len() == 3,
        n.kids[1].operator() == binary_symbol(op),
    ensures
        lowered(n) == (ExprV::Binary {
            op,
            lhs: Box::new(lowered(n.kids[0])),
            rhs: Box::new(lowered(n.kids[2])),
        }),
{
    assert(binary_operator(n.kids[1].operator()) == op) by {
        binary_symbols_lower_back(op);
    }
    assert(lowered(n) == folded_with(below(size(n)), n.kids)) by {
        lemma_expression_tags();
        lemma_lowered(n);
    }
    lemma_kid(n, 0);
    lemma_kid(n, 2);
    lemma_below(size(n), n.kids[0]);
    lemma_below(size(n), n.kids[2]);
    lemma_three(below(size(n)), n.kids);
}

proof fn lemma_three(f: spec_fn(NodeV) -> ExprV, cs: Seq<NodeV>)
    requires
        cs.len() == 3,
    ensures
        folded_with(f, cs) == (ExprV::Binary {
            op: binary_operator(cs[1].operator()),
            lhs: Box::new(f(cs[0])),
            rhs: Box::new(f(cs[2])),
        }),
{
    let one = cs.drop_last().drop_last();
    assert(one.len() == 1 && one[0] == cs[0]);
    assert(folded_with(f, one) == f(cs[0]));
}

/// Operators in a row group from the left: what stands before the last operator is its
/// left operand.
pub proof fn operators_group_from_the_left(n: NodeV, first: NodeV, op: BinOp)
    requires
        n.tag == "kBinaryExpression"@,
        first.tag == "kBinaryExpression"@,
        n.kids.len() >= 5,
        n.kids.len() % 2 == 1,
        first.kids == n.kids.take(n.kids.len() - 2),
        n.kids[n.kids.len() - 2].operator() == binary_symbol(op),
    ensures
        lowered(n) == (ExprV::Binary {
            op,
            lhs: Box::new(lowered(first)),
            rhs: Box::new(lowered(n.kids.last())),
        }),
{
    lemma_expression_tags();
    binary_symbols_lower_back(op);
    lemma_lowered(n);
    lemma_lowered(first);
    let k = n.kids.len() - 1;
    lemma_kid(n, k);
    lemma_below(size(n), n.kids[k]);
    assert(n.kids.drop_last().drop_last() =~= first.kids);
    assert forall|i: int| 0 <= i < first.kids.len() implies #[trigger] first.kids[i]
        == n.kids[i] by {}
    assert(forall|i: int| 0 <= i < first.kids.len() ==> size(#[trigger] first.kids[i]) < size(n)) by {
        assert forall|i: int| 0 <= i < first.kids.len() implies size(#[trigger] first.kids[i])
            < size(n) by {
            lemma_kid(n, i);
        }
    }
    assert(forall|i: int| 0 <= i < first.kids.len() ==> size(#[trigger] first.kids[i]) < size(first)) by {
        assert forall|i: int| 0 <= i < first.kids.len() implies size(#[trigger] first.kids[i])
            < size(first) by {
            lemma_kid(first, i);
        }
    }
    lemma_folded(first.kids, size(n), size(first));
}

proof fn lemma_folded(cs: Seq<NodeV>, x: nat, y: nat)
    requires
        forall|i: int| 0 <= i < cs.len() ==> size(#[trigger] cs[i]) < x && size(cs[i]) < y,
    ensures
        folded_with(below(x), cs) == folded_with(below(y), cs),
    decreases cs.len(),
{
    if cs.len() > 0 {
        let k = cs.len() - 1;
        assert(size(cs[k]) < x && size(cs[k]) < y);
        lemma_below(x, cs[k]);
        lemma_below(y, cs[k]);
        let front = cs.drop_last();
        assert forall|i: int| 0 <= i < front.len() implies size(#[trigger] front[i]) < x && size(
            front[i],
        ) < y by {
            assert(front[i] == cs[i]);
        }
        lemma_folded(front, x, y);
        if front.len() > 0 {
            let less = front.drop_last();
            assert forall|i: int| 0 <= i < less.len() implies size(#[trigger] less[i]) < x && size(
                less[i],
            ) < y by {
                assert(less[i] == cs[i]);
            }
            lemma_folded(less, x, y);
        }
    }
}

/// An operator before an operand is the operation on what the operand is.
pub proof fn unary_trees_are_operations(n: NodeV, op: UnaryOp)
    requires
        n.tag == "kUnaryPrefixExpression"@,
        n.kids.len() >= 2,
        n.kids[0].operator() == unary_symbol(op),
    ensures
        lowered(n) == (ExprV::Unary { op, operand: Box::new(lowered(n.kids[1])) }),
{
    lemma_expression_tags();
    unary_symbols_lower_back(op);
    lemma_lowered(n);
    lemma_kid(n, 1);
    lemma_below(size(n), n.kids[1]);
}

/// An expression around something, and parentheses around an expression, are what is
/// inside.
pub proof fn parentheses_are_what_is_inside(n: NodeV, e: NodeV)
    ensures
        n.tag == "kExpression"@ && n.kids.len() > 0 ==> lowered(n) == lowered(n.kids[0]),
        (n.tag == "kParenGroup"@ || n.tag == "kParenExpression"@) && found(n, "kExpression"@)
            == Some(e) ==> lowered(n) == lowered(e),
        n.tag == "kCast"@ && found_in(found(n, "kParenGroup"@), "kExpression"@) == Some(e)
            ==> lowered(n) == lowered(e),
{
    lemma_expression_tags();
    lemma_lowered(n);
    if n.tag == "kExpression"@ && n.kids.len() > 0 {
        lemma_kid(n, 0);
        lemma_below(size(n), n.kids[0]);
    }
    if found(n, "kExpression"@) == Some(e) || found_in(found(n, "kParenGroup"@), "kExpression"@)
        == Some(e) {
        lemma_below(size(n), e);
    }
}

/// Whether expressions are those of a list of trees, each what its tree is, in order.
pub open spec fn one_for_each(es: Seq<ExprV>, ns: Seq<NodeV>) -> bool {
    &&& es.len() == ns.len()
    &&& forall|i: int| 0 <= i < ns.len() ==> #[trigger] es[i] == lowered(ns[i])
}

proof fn lemma_list(n: NodeV, o: Option<NodeV>)
    requires
        o matches Some(list) ==> size(list) <= size(n),
    ensures
        one_for_each(
            exprs_in_with(below(size(n)), o),
            match o {
                Some(list) => tagged(list.kids, "kExpression"@),
                None => Seq::empty(),
            },
        ),
{
    if let Some(list) = o {
        let ts = tagged(list.kids, "kExpression"@);
        assert forall|i: int| 0 <= i < ts.len() implies #[trigger] exprs_in_with(
            below(size(n)),
            o,
        )[i] == lowered(ts[i]) by {
            lemma_size_all(ts, i);
            lemma_below(size(n), ts[i]);
        }
    }
}

/// A concatenation is of the expressions in its list, in order.
pub proof fn concatenations_keep_their_order(n: NodeV, list: NodeV)
    requires
        n.tag == "kConcatenationExpression"@,
        found(n, "kOpenRangeList"@) == Some(list),
    ensures
        lowered(n) is Concat,
        one_for_each(lowered(n)->Concat_0, tagged(list.kids, "kExpression"@)),
{
    lemma_expression_tags();
    lemma_lowered(n);
    lemma_list(n, Some(list));
}

/// A call of a system function has the name that is written and the arguments that are
/// written, in order; so has a `new`.
pub proof fn system_calls_keep_their_arguments(n: NodeV, list: NodeV)
    ensures
        n.tag == "kSystemTFCall"@ && found_deep(n, "kArgumentList"@) == Some(list) ==> {
            &&& lowered(n) is SysCall
            &&& lowered(n)->SysCall_name == word_of(found(n, "SystemTFIdentifier"@))
            &&& one_for_each(lowered(n)->SysCall_args, tagged(list.kids, "kExpression"@))
        },
        n.tag == "kClassNew"@ && found_in(found(n, "kParenGroup"@), "kArgumentList"@) == Some(list)
            ==> {
            &&& lowered(n) is New
            &&& one_for_each(lowered(n)->New_args, tagged(list.kids, "kExpression"@))
        },
{
    lemma_expression_tags();
    lemma_lowered(n);
    if found_deep(n, "kArgumentList"@) == Some(list) || found_in(
        found(n, "kParenGroup"@),
        "kArgumentList"@,
    ) == Some(list) {
        lemma_list(n, Some(list));
    }
}

// ---- references -------------------------------------------------------------------------

/// A reference with one part more is that part of what the rest is: a name behind a dot a
/// field, with arguments a call of a method on it; one subscript an element, two a part of
/// it from the first to the second.
pub proof fn references_continue_to_the_right(f: spec_fn(NodeV) -> ExprV, ns: Seq<NodeV>, last: NodeV)
    requires
        chain(f, ns) is Some,
    ensures
        ({
            let base = chain(f, ns)->0;
            let whole = chain(f, ns.push(last));
            let member = identifier(found(last, "kUnqualifiedId"@));
            &&& last.tag == "kHierarchyExtension"@ && member is Some && found(
                last,
                "kParenGroup"@,
            ) is None ==> whole == Some(ExprV::Field { obj: Box::new(base), field: member->0 })
            &&& last.tag == "kHierarchyExtension"@ && member is Some && found(
                last,
                "kParenGroup"@,
            ) is Some ==> whole == Some(
                ExprV::MethodCall {
                    obj: Box::new(base),
                    method: member->0,
                    args: exprs_in_with(
                        f,
                        found(found(last, "kParenGroup"@)->0, "kArgumentList"@),
                    ),
                },
            )
            &&& last.tag == "kDimensionScalar"@ && found_in(
                found(last, "kExpressionList"@),
                "kExpression"@,
            ) is Some ==> whole == Some(
                ExprV::Index {
                    base: Box::new(base),
                    index: Box::new(
                        f(found_in(found(last, "kExpressionList"@), "kExpression"@)->0),
                    ),
                },
            )
            &&& last.tag == "kDimensionRange"@ && tagged(last.kids, "kExpression"@).len() == 2
                ==> whole == Some(
                ExprV::PartSelect {
                    base: Box::new(base),
                    left: Box::new(f(tagged(last.kids, "kExpression"@)[0])),
                    right: Box::new(f(tagged(last.kids, "kExpression"@)[1])),
                },
            )
        }),
{
    lemma_reference_tags();
    assert(ns.push(last).drop_last() =~= ns);
    assert(ns.push(last).last() == last);
}

/// A call through a name calls the function of that name; through a member, the method of
/// that name on what stands before the dot. The arguments are in order.
pub proof fn calls_call_what_is_named(n: NodeV, base: NodeV, reference: NodeV, paren: NodeV)
    requires
        n.tag == "kFunctionCall"@,
        found(n, "kReferenceCallBase"@) == Some(base),
        found(base, "kReference"@) == Some(reference),
        found(base, "kParenGroup"@) == Some(paren),
        scoped(reference) is None,
    ensures
        ({
            let args = match found(paren, "kArgumentList"@) {
                Some(list) => tagged(list.kids, "kExpression"@),
                None => Seq::empty(),
            };
            match chain_value_with(below(size(n)), reference) {
                ExprV::Ref(name) => lowered(n) is Call && lowered(n)->Call_name == name
                    && one_for_each(lowered(n)->Call_args, args),
                ExprV::Field { obj, field } => lowered(n) is MethodCall && lowered(
                    n,
                )->MethodCall_obj == obj && lowered(n)->MethodCall_method == field && one_for_each(
                    lowered(n)->MethodCall_args,
                    args,
                ),
                other => lowered(n) == other,
            }
        }),
{
    lemma_expression_tags();
    lemma_lowered(n);
    lemma_list(n, found(paren, "kArgumentList"@));
}

// ---- statements ---------------------------------------------------------------------------

proof fn lemma_part(n: NodeV, m: NodeV)
    requires
        size(m) < size(n),
    ensures
        stmts_below(size(n))(m) == lowered_stmt(m),
{
    lemma_stmts_below(size(n), m);
}

/// An `if` has the condition that stands in its header, the statement of its body as its
/// first branch, and that behind `else`, if there is one, as its other.
pub proof fn if_trees_keep_their_branches(
    n: NodeV,
    clause: NodeV,
    cond: NodeV,
    first: NodeV,
)
    requires
        n.tag == "kConditionalStatement"@,
        found(n, "kIfClause"@) == Some(clause),
        found_in(found_in(found(clause, "kIfHeader"@), "kParenGroup"@), "kExpression"@) == Some(
            cond,
        ),
        first_kid(found(clause, "kIfBody"@)) == Some(first),
    ensures
        lowered_stmt(n) == (StmtV::If {
            cond: lowered(cond),
            then_branch: Box::new(lowered_stmt(first)),
            else_branch: match first_kid(found_in(found(n, "kElseClause"@), "kElseBody"@)) {
                Some(other) => Some(Box::new(lowered_stmt(other))),
                None => None,
            },
        }),
{
    lemma_statement_tags();
    lemma_lowered_stmt(n);
    let body = found(clause, "kIfBody"@)->0;
    lemma_kid(body, 0);
    lemma_part(n, first);
    if let Some(other) = first_kid(found_in(found(n, "kElseClause"@), "kElseBody"@)) {
        let els = found_in(found(n, "kElseClause"@), "kElseBody"@)->0;
        lemma_kid(els, 0);
        lemma_part(n, other);
    }
}

/// A loop has the condition and the body that are written: a `while` the body at its end,
/// a `do` the one behind the word, a `forever` a condition that always holds.
pub proof fn loop_trees_keep_condition_and_body(n: NodeV, cond: NodeV, body: NodeV)
    ensures
        n.tag == "kWhileLoopStatement"@ && found(n, "kExpression"@) == Some(cond) && last_kid(n)
            == Some(body) ==> lowered_stmt(n) == (StmtV::While {
            cond: lowered(cond),
            body: Box::new(lowered_stmt(body)),
        }),
        n.tag == "kDoWhileLoopStatement"@ && found(n, "kExpression"@) == Some(cond) && nth_kid(
            Some(n),
            1,
        ) == Some(body) ==> lowered_stmt(n) == (StmtV::DoWhile {
            cond: lowered(cond),
            body: Box::new(lowered_stmt(body)),
        }),
        n.tag == "kForeverLoopStatement"@ && last_kid(n) == Some(body) ==> lowered_stmt(n) == (
        StmtV::While {
            cond: ExprV::Literal(bits_of(1, 1)),
            body: Box::new(lowered_stmt(body)),
        }),
{
    lemma_statement_tags();
    lemma_lowered_stmt(n);
    if last_kid(n) == Some(body) {
        lemma_kid(n, n.kids.len() - 1);
        lemma_part(n, body);
    }
    if nth_kid(Some(n), 1) == Some(body) {
        lemma_kid(n, 1);
        lemma_part(n, body);
    }
}

/// An assignment writes what stands on its right to what stands on its left: with `=` at
/// once, with `<=` at the end of the time step.
pub proof fn assignment_trees_keep_their_sides(n: NodeV, rhs: NodeV)
    requires
        found(n, "kExpression"@) == Some(rhs),
    ensures
        n.tag == "kNetVariableAssignment"@ || n.tag == "kBlockingAssignmentStatement"@
            ==> lowered_stmt(n) == (StmtV::Blocking { lhs: target(n), rhs: lowered(rhs) }),
        n.tag == "kNonblockingAssignmentStatement"@ ==> lowered_stmt(n) == (StmtV::Nonblocking {
            lhs: target(n),
            rhs: lowered(rhs),
        }),
{
    lemma_statement_tags();
    lemma_lowered_stmt(n);
}

/// How the target of an assignment is read.
pub open spec fn read_back(lhs: LvalueV) -> ExprV {
    let whole = if lhs.scope is Some {
        ExprV::StaticRef { class_name: lhs.scope->0, field: lhs.name }
    } else if lhs.receiver is Some {
        ExprV::Field { obj: lhs.receiver->0, field: lhs.name }
    } else {
        ExprV::Ref(lhs.name)
    };
    match lhs.index {
        Some(index) => ExprV::Index { base: Box::new(whole), index: Box::new(index) },
        None => whole,
    }
}

/// `++` adds one to what it stands with, `--` takes one away, and an assignment by an
/// operation applies it to the target and what stands on the right, in that order.
pub proof fn steps_change_their_target(n: NodeV, op: BinOp, rhs: NodeV)
    ensures
        n.tag == "kIncrementDecrementExpression"@ ==> lowered_stmt(n) == (StmtV::Blocking {
            lhs: target(n),
            rhs: ExprV::Binary {
                op: if found(n, "--"@) is Some {
                    BinOp::Sub
                } else {
                    BinOp::Add
                },
                lhs: Box::new(read_back(target(n))),
                rhs: Box::new(ExprV::Literal(bits_of(1, 32))),
            },
        }),
        n.tag == "kAssignModifyStatement"@ && first_compound(n.kids) == Some(op) && found(
            n,
            "kExpression"@,
        ) == Some(rhs) ==> lowered_stmt(n) == (StmtV::Blocking {
            lhs: target(n),
            rhs: ExprV::Binary {
                op,
                lhs: Box::new(read_back(target(n))),
                rhs: Box::new(lowered(rhs)),
            },
        }),
{
    lemma_statement_tags();
    lemma_lowered_stmt(n);
}

/// A block holds the statements of its list, in order.
pub proof fn blocks_keep_their_order(n: NodeV, list: NodeV)
    requires
        n.tag == "kSeqBlock"@,
        found(n, "kBlockItemStatementList"@) == Some(list),
    ensures
        lowered_stmt(n) is Block,
        (lowered_stmt(n)->Block_0).len() == list.kids.len(),
        forall|i: int|
            0 <= i < list.kids.len() ==> #[trigger] (lowered_stmt(n)->Block_0)[i] == lowered_stmt(
                list.kids[i],
            ),
{
    lemma_statement_tags();
    lemma_lowered_stmt(n);
    assert forall|i: int| 0 <= i < list.kids.len() implies #[trigger] (lowered_stmt(
        n,
    )->Block_0)[i] == lowered_stmt(list.kids[i]) by {
        lemma_kid(list, i);
        lemma_part(n, list.kids[i]);
    }
}

/// A timing control stands before the statement that it delays; a `wait` has the condition
/// of its header and the statement of its body.
pub proof fn timed_trees_keep_their_statement(n: NodeV, cond: NodeV, body: NodeV)
    ensures
        n.tag == "kProceduralTimingControlStatement"@ && n.kids.len() > 1 ==> lowered_stmt(n) == (
        StmtV::Timed {
            control: timing_control(n.kids[0]),
            body: Box::new(lowered_stmt(n.kids[1])),
        }),
        n.tag == "kWaitStatement"@ && found_deep_in(found(n, "kWaitHeader"@), "kExpression"@)
            == Some(cond) && first_kid(found(n, "kWaitBody"@)) == Some(body) ==> lowered_stmt(n)
            == (StmtV::Timed {
            control: TimingControlV::Wait(lowered(cond)),
            body: Box::new(lowered_stmt(body)),
        }),
{
    lemma_statement_tags();
    lemma_lowered_stmt(n);
    if n.kids.len() > 1 {
        lemma_kid(n, 1);
        lemma_part(n, n.kids[1]);
    }
    if first_kid(found(n, "kWaitBody"@)) == Some(body) {
        let inner = found(n, "kWaitBody"@)->0;
        lemma_kid(inner, 0);
        lemma_part(n, body);
    }
}

/// A `case` compares what stands in its parentheses; each item has the expressions of its
/// list and the statement at its end, in order; the last `default` is the default.
pub proof fn case_trees_keep_their_items(n: NodeV, sel: NodeV, list: NodeV, i: int)
    requires
        n.tag == "kCaseStatement"@,
        found_in(found(n, "kParenGroup"@), "kExpression"@) == Some(sel),
        found(n, "kCaseItemList"@) == Some(list),
        0 <= i < tagged(list.kids, "kCaseItem"@).len(),
    ensures
        ({
            let s = lowered_stmt(n);
            let items = tagged(list.kids, "kCaseItem"@);
            let defaults = tagged(list.kids, "kDefaultItem"@);
            &&& s is Case
            &&& s->Case_expr == lowered(sel)
            &&& s->Case_items.len() == items.len()
            &&& found(items[i], "kExpressionList"@) matches Some(es) ==> one_for_each(
                s->Case_items[i].0,
                tagged(es.kids, "kExpression"@),
            )
            &&& last_kid(items[i]) matches Some(body) ==> s->Case_items[i].1 == lowered_stmt(body)
            &&& s->Case_default is Some <==> defaults.len() > 0
            &&& defaults.len() > 0 ==> (last_kid(defaults.last()) matches Some(body) ==> *(
            s->Case_default->0) == lowered_stmt(body))
        }),
{
    lemma_statement_tags();
    lemma_lowered_stmt(n);
    let items = tagged(list.kids, "kCaseItem"@);
    let defaults = tagged(list.kids, "kDefaultItem"@);
    lemma_size_all(items, i);
    if let Some(body) = last_kid(items[i]) {
        lemma_kid(items[i], items[i].kids.len() - 1);
        lemma_part(n, body);
    }
    if defaults.len() > 0 {
        lemma_size_all(defaults, defaults.len() - 1);
        if let Some(body) = last_kid(defaults.last()) {
            lemma_kid(defaults.last(), defaults.last().kids.len() - 1);
            lemma_part(n, body);
        }
    }
}

/// A call as a statement is computed for what it does, a trigger triggers what it names, a
/// system task has its name and its arguments in order, and a statement around a statement
/// is that statement.
pub proof fn simple_statement_trees(n: NodeV, list: NodeV)
    ensures
        n.tag == "kFunctionCall"@ ==> lowered_stmt(n) == StmtV::Expr(lowered(n)),
        n.tag == "kBlockingEventTriggerStatement"@ && found(n, "kReference"@) is Some
            ==> lowered_stmt(n) == StmtV::Trigger(chain_value(found(n, "kReference"@)->0)),
        n.tag == "kSystemTFCall"@ && found_deep(n, "kArgumentList"@) == Some(list) ==> {
            &&& lowered_stmt(n) is SysCall
            &&& lowered_stmt(n)->SysCall_name == word_of(found(n, "SystemTFIdentifier"@))
            &&& one_for_each(lowered_stmt(n)->SysCall_args, tagged(list.kids, "kExpression"@))
        },
        (n.tag == "kStatement"@ || n.tag == "kStatementItem"@) && n.kids.len() > 0 ==> lowered_stmt(
            n,
        ) == lowered_stmt(n.kids[0]),
{
    lemma_statement_tags();
    lemma_lowered_stmt(n);
    if n.kids.len() > 0 {
        lemma_kid(n, 0);
        lemma_part(n, n.kids[0]);
    }
}

/// A `return` returns what is written behind it.
pub proof fn return_trees_keep_their_value(n: NodeV)
    requires
        n.tag == "kJumpStatement"@,
        n.kids.len() > 0,
        n.kids[0].tag == "return"@,
    ensures
        lowered_stmt(n) == StmtV::Return(
            match found(n, "kExpression"@) {
                Some(e) => Some(lowered(e)),
                None => None,
            },
        ),
{
    lemma_statement_tags();
    lemma_lowered_stmt(n);
    reveal_strlit("return");
}

/// A `foreach` walks through what stands before its subscript, with the name in the
/// subscript as its index, and runs the statement at its end.
pub proof fn foreach_trees_keep_index_and_body(
    n: NodeV,
    reference: NodeV,
    collection: ExprV,
    index: Seq<char>,
    body: NodeV,
)
    requires
        n.tag == "kForeachLoopStatement"@,
        found(n, "kReference"@) == Some(reference),
        chain_value(reference) == (ExprV::Index {
            base: Box::new(collection),
            index: Box::new(ExprV::Ref(index)),
        }),
        last_kid(n) == Some(body),
    ensures
        lowered_stmt(n) == (StmtV::Foreach {
            collection,
            index,
            body: Box::new(lowered_stmt(body)),
        }),
{
    lemma_statement_tags();
    lemma_lowered_stmt(n);
    lemma_kid(n, n.kids.len() - 1);
    lemma_part(n, body);
}

/// A `#` is a delay of the value behind it, an `@` waits for the events in its list, in
/// order, each with its expression.
pub proof fn timing_trees_keep_their_values(n: NodeV, e: NodeV, list: NodeV)
    ensures
        n.tag == "kDelay"@ && found(n, "kDelayValue"@) is Some && found(
            found(n, "kDelayValue"@)->0,
            "kExpression"@,
        ) == Some(e) ==> timing_control(n) == TimingControlV::Delay(lowered(e)),
        n.tag == "kEventControl"@ && found_deep(n, "kEventExpressionList"@) == Some(list) ==> ({
            let evs = tagged(list.kids, "kEventExpression"@);
            let c = timing_control(n);
            &&& c is Event
            &&& (c->Event_0).len() == evs.len()
            &&& forall|i: int|
                0 <= i < evs.len() && found(evs[i], "kExpression"@) is Some ==> (
                #[trigger] (c->Event_0)[i]).expr == lowered(found(evs[i], "kExpression"@)->0)
        }),
{
    reveal_strlit("kDelay");
    reveal_strlit("kEventControl");
    assert("kDelay"@.len() == 6);
    assert("kEventControl"@.len() == 13);
}

} // verus!
