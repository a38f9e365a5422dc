//! Lowering variable declarations, delays, timing controls and statements.
use vstd::prelude::*;

use crate::ast::{
    clone_expr, expr_view, exprs_view, views, BinOp, ContinuousDelay, Edge, EventExpr, Expr, Lvalue,
    Stmt, TimingControl, VarDecl,
};
use crate::ast_model::{ContinuousDelayV, EventExprV, ExprV, StmtV, TimingControlV, VarDeclV};
use crate::bits::bits_of;
use crate::cst::{
    find, find_deep, find_deep_in, find_in, find_or, first_kid, first_kid_of, found, found_deep,
    found_deep_in, found_in, group_cst, has_tag, kid_tagged, kids, kids_tagged, opt_node, or_else,
    refs_view, size, size_opt, tagged, text_of, word_of, Node, NodeV,
};
use crate::logic::LogicVec;
use crate::lower_expr::{
    exprs_in, lower_expr, lower_exprs, lower_lvalue, lower_opt, lower_or, lowered, lowered_opt,
    lowered_or, lvalue_read, read_of, target, zero, zero_literal,
};
use crate::lower_types::{
    assoc_key_class_name, class_type_name_in, class_type_scope, classify_coll, collection,
    data_width_or, is_string_type, key_class, packed_width_or, string_type, type_args_in,
    type_args_of, type_scope_in, user_type_in,
};

verus! {

broadcast use group_cst;

// ---- variable declarations ----------------------------------------------------

/// The data type of a declaration.
pub open spec fn declared_type(n: NodeV) -> Option<NodeV> {
    found_in(found_in(found(n, "kInstantiationBase"@), "kInstantiationType"@), "kDataType"@)
}

/// The initializer of a declared name: an expression, or a bare `new`.
pub open spec fn initial_value(n: NodeV) -> Option<NodeV> {
    let assign = found(n, "kTrailingAssign"@);
    or_else(found_in(assign, "kExpression"@), found_in(assign, "kClassNew"@))
}

/// Whether a node declares a variable.
pub open spec fn declares(n: NodeV) -> bool {
    n.tag == "kRegisterVariable"@ || n.tag == "kVariableDeclarationAssignment"@
}

/// What one variable of a declaration lowers to.
pub open spec fn declared(n: NodeV, variable: NodeV) -> VarDeclV {
    let dtype = declared_type(n);
    VarDeclV {
        name: word_of(
            or_else(
                found(variable, "SymbolIdentifier"@),
                found_in(found(variable, "kUnqualifiedId"@), "SymbolIdentifier"@),
            ),
        ),
        width: data_width_or(dtype, 1),
        signed: found_deep_in(dtype, "signed"@) is Some,
        class_name: user_type_in(dtype),
        type_scope: type_scope_in(dtype),
        type_args: type_args_in(dtype),
        is_string: string_type(dtype),
        is_event: found_deep_in(dtype, "event"@) is Some,
        coll: collection(variable),
        key_class_name: key_class(variable),
        is_static: kid_tagged(found(n, "kQualifierList"@), "static"@),
        init: lowered_opt(initial_value(variable)),
    }
}

/// What some nodes of a declaration lower to.
pub open spec fn declared_among(n: NodeV, ns: Seq<NodeV>) -> Seq<VarDeclV>
    decreases ns.len(),
{
    if ns.len() == 0 {
        Seq::empty()
    } else if declares(ns.last()) {
        declared_among(n, ns.drop_last()).push(declared(n, ns.last()))
    } else {
        declared_among(n, ns.drop_last())
    }
}

/// What a variable declaration lowers to: one declaration for each name.
pub open spec fn data_decls(n: NodeV) -> Seq<VarDeclV> {
    let base = found(n, "kInstantiationBase"@);
    match or_else(
        found_in(base, "kGateInstanceRegisterVariableList"@),
        found_in(base, "kVariableDeclarationAssignmentList"@),
    ) {
        Some(list) => declared_among(n, list.kids),
        None => Seq::empty(),
    }
}

/// Lower one variable of a declaration.
fn lower_declared(n: &Node, variable: &Node) -> (r: VarDecl)
    ensures
        r@ == declared(n@, variable@),
{
    let base: Option<&Node> = find(n, "kInstantiationBase");
    let dtype: Option<&Node> = find_in(find_in(base, "kInstantiationType"), "kDataType");
    let assign: Option<&Node> = find(variable, "kTrailingAssign");
    VarDecl {
        name: text_of(
            find_or(
                find(variable, "SymbolIdentifier"),
                find_in(find(variable, "kUnqualifiedId"), "SymbolIdentifier"),
            ),
        ),
        width: packed_width_or(dtype, 1),
        signed: find_deep_in(dtype, "signed").is_some(),
        class_name: class_type_name_in(dtype),
        type_scope: class_type_scope(dtype),
        type_args: type_args_of(dtype),
        is_string: is_string_type(dtype),
        is_event: find_deep_in(dtype, "event").is_some(),
        coll: classify_coll(variable),
        key_class_name: assoc_key_class_name(variable),
        is_static: find_in(find(n, "kQualifierList"), "static").is_some(),
        init: lower_opt(find_or(find_in(assign, "kExpression"), find_in(assign, "kClassNew"))),
    }
}

/// Lower a variable declaration: `logic [7:0] a = 1, b;`, a class handle, or a
/// class field.
pub fn lower_data_decl(n: &Node) -> (r: Vec<VarDecl>)
    ensures
        views(r@) == data_decls(n@),
{
    let mut out: Vec<VarDecl> = Vec::new();
    assert(views(out@) =~= Seq::<VarDeclV>::empty());
    let base: Option<&Node> = find(n, "kInstantiationBase");
    let list: &Node = match find_or(
        find_in(base, "kGateInstanceRegisterVariableList"),
        find_in(base, "kVariableDeclarationAssignmentList"),
    ) {
        Some(list) => list,
        None => {
            return out;
        },
    };
    let mut i: usize = 0;
    assert(views(out@) == declared_among(n@, list@.kids.take(0)));
    while i < list.kids.len()
        invariant
            i <= list.kids@.len(),
            views(out@) == declared_among(n@, list@.kids.take(i as int)),
        decreases list.kids@.len() - i,
    {
        let ghost before = out@;
        let ghost upto = list@.kids.take(i as int + 1);
        assert(upto.drop_last() =~= list@.kids.take(i as int));
        assert(upto.last() == list.kids[i as int]@);
        let variable: &Node = &list.kids[i];
        if has_tag(variable, "kRegisterVariable") || has_tag(
            variable,
            "kVariableDeclarationAssignment",
        ) {
            let d: VarDecl = lower_declared(n, variable);
            out.push(d);
            assert(views(out@) =~= views(before).push(d@));
        }
        i = i + 1;
    }
    assert(list@.kids.take(i as int) =~= list@.kids);
    out
}

// ---- delays and timing controls -------------------------------------------------

/// What a delay lowers to.
pub open spec fn delay_expr(n: NodeV) -> ExprV {
    match or_else(found(n, "kDelayValue"@), found(n, "kParenGroup"@)) {
        Some(v) => match found(v, "kExpression"@) {
            Some(e) => lowered(e),
            None => lowered(v),
        },
        None => zero_literal(32),
    }
}

/// Lower a delay.
pub fn lower_delay_expr(n: &Node) -> (r: Expr)
    ensures
        r@ == delay_expr(n@),
{
    match find_or(find(n, "kDelayValue"), find(n, "kParenGroup")) {
        Some(v) => match find(v, "kExpression") {
            Some(e) => lower_expr(e),
            None => lower_expr(v),
        },
        None => zero(32),
    }
}

/// The node that holds the values of a delay in parentheses.
pub open spec fn delay_body(ns: Seq<NodeV>) -> Option<NodeV>
    decreases ns.len(),
{
    if ns.len() == 0 {
        None
    } else if ns[0].tag == "kExpression"@ || ns[0].tag == "kUntagged"@ {
        Some(ns[0])
    } else {
        delay_body(ns.drop_first())
    }
}

/// The values of a delay in parentheses.
pub open spec fn delay_values(n: NodeV) -> Seq<ExprV> {
    match found(n, "kParenGroup"@) {
        Some(group) => match delay_body(group.kids) {
            Some(body) => if body.tag == "kExpression"@ {
                seq![lowered(body)]
            } else {
                exprs_in(Some(body))
            },
            None => Seq::empty(),
        },
        None => Seq::empty(),
    }
}

/// Whether a delay has a value, or one to three in parentheses.
pub open spec fn delay_complete(n: NodeV) -> bool {
    found(n, "kDelayValue"@) is Some || 1 <= delay_values(n).len() <= 3
}

/// What the delay of a continuous driver lowers to.
pub open spec fn continuous_delay(n: NodeV) -> ContinuousDelayV {
    let v = delay_values(n);
    if found(n, "kDelayValue"@) is Some {
        ContinuousDelayV::Single(delay_expr(n))
    } else if v.len() == 1 {
        ContinuousDelayV::Single(v[0])
    } else if v.len() == 2 {
        ContinuousDelayV::RiseFall { rise: v[0], fall: v[1] }
    } else {
        ContinuousDelayV::RiseFallTurnOff { rise: v[0], fall: v[1], turn_off: v[2] }
    }
}

/// The node that holds the values of a delay in parentheses.
fn delay_body_of(group: &Node) -> (r: Option<&Node>)
    ensures
        opt_node(r) == delay_body(group@.kids),
        size_opt(opt_node(r)) < size(group@),
{
    let mut i: usize = 0;
    assert(group@.kids.skip(0) =~= group@.kids);
    while i < group.kids.len()
        invariant
            i <= group.kids@.len(),
            delay_body(group@.kids) == delay_body(group@.kids.skip(i as int)),
        decreases group.kids@.len() - i,
    {
        let ghost rest = group@.kids.skip(i as int);
        assert(rest[0] == group.kids[i as int]@);
        assert(rest[0] == group@.kids[i as int]);
        assert(rest.drop_first() =~= group@.kids.skip(i as int + 1));
        if has_tag(&group.kids[i], "kExpression") || has_tag(&group.kids[i], "kUntagged") {
            return Some(&group.kids[i]);
        }
        i = i + 1;
    }
    None
}

/// The values of a delay in parentheses.
pub fn delay_values_of(n: &Node) -> (r: Vec<Expr>)
    ensures
        exprs_view(r@) == delay_values(n@),
{
    if let Some(group) = find(n, "kParenGroup") {
        if let Some(body) = delay_body_of(group) {
            if has_tag(body, "kExpression") {
                let mut out: Vec<Expr> = Vec::new();
                let e: Expr = lower_expr(body);
                out.push(e);
                assert(exprs_view(out@) =~= seq![e@]);
                return out;
            }
            return lower_exprs(Some(body));
        }
    }
    let out: Vec<Expr> = Vec::new();
    assert(exprs_view(out@) =~= Seq::<ExprV>::empty());
    out
}

/// Lower the delay of a continuous driver: one value, or one to three in
/// parentheses.
pub fn lower_continuous_delay(n: &Node) -> (r: ContinuousDelay)
    requires
        delay_complete(n@),
    ensures
        r@ == continuous_delay(n@),
{
    if find(n, "kDelayValue").is_some() {
        return ContinuousDelay::Single(lower_delay_expr(n));
    }
    let v: Vec<Expr> = delay_values_of(n);
    assert(exprs_view(v@).len() == v@.len());
    assert(forall|i: int| 0 <= i < v@.len() ==> exprs_view(v@)[i] == #[trigger] expr_view(v@[i]));
    assert(exprs_view(v@)[0] == expr_view(v@[0]));
    if v.len() == 1 {
        ContinuousDelay::Single(clone_expr(&v[0]))
    } else if v.len() == 2 {
        assert(exprs_view(v@)[1] == expr_view(v@[1]));
        ContinuousDelay::RiseFall { rise: clone_expr(&v[0]), fall: clone_expr(&v[1]) }
    } else {
        assert(exprs_view(v@)[1] == expr_view(v@[1]));
        assert(exprs_view(v@)[2] == expr_view(v@[2]));
        ContinuousDelay::RiseFallTurnOff {
            rise: clone_expr(&v[0]),
            fall: clone_expr(&v[1]),
            turn_off: clone_expr(&v[2]),
        }
    }
}

/// What one event of an event control lowers to.
pub open spec fn event_expr(n: NodeV) -> EventExprV {
    EventExprV {
        edge: match first_kid(Some(n)) {
            Some(c) => if c.tag == "posedge"@ {
                Edge::Posedge
            } else if c.tag == "negedge"@ {
                Edge::Negedge
            } else {
                Edge::AnyChange
            },
            None => Edge::AnyChange,
        },
        expr: lowered_or(found(n, "kExpression"@), 1),
    }
}

/// Lower one event of an event control.
fn lower_event_expr(n: &Node) -> (r: EventExpr)
    ensures
        r@ == event_expr(n@),
{
    let edge: Edge = match first_kid_of(Some(n)) {
        Some(c) => if has_tag(c, "posedge") {
            Edge::Posedge
        } else if has_tag(c, "negedge") {
            Edge::Negedge
        } else {
            Edge::AnyChange
        },
        None => Edge::AnyChange,
    };
    EventExpr { edge, expr: lower_or(find(n, "kExpression"), 1) }
}

/// What the events in a list that may be absent lower to.
pub open spec fn events_in(o: Option<NodeV>) -> Seq<EventExprV> {
    match o {
        Some(list) => tagged(list.kids, "kEventExpression"@).map_values(
            |m: NodeV| event_expr(m),
        ),
        None => Seq::empty(),
    }
}

/// What a timing control lowers to.
pub open spec fn timing_control(n: NodeV) -> TimingControlV {
    if n.tag == "kDelay"@ {
        TimingControlV::Delay(delay_expr(n))
    } else if n.tag == "kEventControl"@ {
        TimingControlV::Event(events_in(found_deep(n, "kEventExpressionList"@)))
    } else {
        TimingControlV::Delay(zero_literal(32))
    }
}

/// Lower the events in a list that may be absent.
fn lower_events(o: Option<&Node>) -> (r: Vec<EventExpr>)
    ensures
        views(r@) == events_in(opt_node(o)),
{
    let mut out: Vec<EventExpr> = Vec::new();
    let list: &Node = match o {
        Some(list) => list,
        None => {
            assert(views(out@) =~= Seq::<EventExprV>::empty());
            return out;
        },
    };
    let ns: Vec<&Node> = kids_tagged(list, "kEventExpression");
    let ghost all = tagged(list@.kids, "kEventExpression"@);
    let ghost f = |m: NodeV| event_expr(m);
    let mut i: usize = 0;
    assert(views(out@) =~= all.take(0).map_values(f));
    while i < ns.len()
        invariant
            i <= ns@.len(),
            all == refs_view(ns@),
            f == (|m: NodeV| event_expr(m)),
            views(out@) == all.take(i as int).map_values(f),
        decreases ns@.len() - i,
    {
        assert(all[i as int] == ns[i as int]@);
        let e: EventExpr = lower_event_expr(ns[i]);
        let ghost before = out@;
        out.push(e);
        i = i + 1;
        assert(views(out@) =~= views(before).push(e@));
        assert(all.take(i as int).map_values(f) =~= all.take(i as int - 1).map_values(f).push(e@));
    }
    assert(all.take(i as int) =~= all);
    out
}

/// Lower a timing control.
pub fn lower_timing_control(n: &Node) -> (r: TimingControl)
    ensures
        r@ == timing_control(n@),
{
    if has_tag(n, "kDelay") {
        TimingControl::Delay(lower_delay_expr(n))
    } else if has_tag(n, "kEventControl") {
        TimingControl::Event(lower_events(find_deep(n, "kEventExpressionList")))
    } else {
        TimingControl::Delay(zero(32))
    }
}

// ---- assignments ------------------------------------------------------------------

/// What the right-hand side of an assignment lowers to.
pub open spec fn assigned(n: NodeV) -> ExprV {
    lowered_or(or_else(found(n, "kExpression"@), found(n, "kClassNew"@)), 32)
}

/// Lower the right-hand side of an assignment: an expression, or a bare `new`.
pub fn lower_rhs(n: &Node) -> (r: Expr)
    ensures
        r@ == assigned(n@),
{
    lower_or(find_or(find(n, "kExpression"), find(n, "kClassNew")), 32)
}

/// What `a++` and `a--` lower to: `a = a + 1` and `a = a - 1`.
pub open spec fn stepped(n: NodeV) -> StmtV {
    StmtV::Blocking {
        lhs: target(n),
        rhs: ExprV::Binary {
            op: if found(n, "--"@) is Some {
                BinOp::Sub
            } else {
                BinOp::Add
            },
            lhs: Box::new(read_of(target(n))),
            rhs: Box::new(ExprV::Literal(bits_of(1, 32))),
        },
    }
}

/// Lower `a++` and `a--`, before or after, to an assignment.
pub fn lower_incdec(n: &Node) -> (r: Stmt)
    ensures
        r@ == stepped(n@),
{
    let lhs: Lvalue = lower_lvalue(n);
    let op: BinOp = if find(n, "--").is_some() {
        BinOp::Sub
    } else {
        BinOp::Add
    };
    let one: Expr = Expr::Literal(LogicVec::from_u64(1, 32));
    assert(one@ == ExprV::Literal(bits_of(1, 32)));
    let rhs: Expr = Expr::Binary { op, lhs: Box::new(lvalue_read(&lhs)), rhs: Box::new(one) };
    assert(rhs@ == expr_view(rhs));
    Stmt::Blocking { lhs, rhs }
}

/// The operator of a compound assignment symbol.
pub open spec fn compound_operator(t: Seq<char>) -> Option<BinOp> {
    if t == "+="@ {
        Some(BinOp::Add)
    } else if t == "-="@ {
        Some(BinOp::Sub)
    } else if t == "*="@ {
        Some(BinOp::Mul)
    } else if t == "&="@ {
        Some(BinOp::And)
    } else if t == "|="@ {
        Some(BinOp::Or)
    } else if t == "^="@ {
        Some(BinOp::Xor)
    } else if t == "<<="@ {
        Some(BinOp::Shl)
    } else if t == ">>="@ {
        Some(BinOp::Shr)
    } else {
        None
    }
}

/// The first operator of a compound assignment among some nodes.
pub open spec fn first_compound(ns: Seq<NodeV>) -> Option<BinOp>
    decreases ns.len(),
{
    if ns.len() == 0 {
        None
    } else {
        match compound_operator(ns[0].tag) {
            Some(op) => Some(op),
            None => first_compound(ns.drop_first()),
        }
    }
}

/// The operator of a compound assignment symbol.
fn compound_operator_of(n: &Node) -> (r: Option<BinOp>)
    ensures
        r == compound_operator(n@.tag),
{
    if has_tag(n, "+=") {
        Some(BinOp::Add)
    } else if has_tag(n, "-=") {
        Some(BinOp::Sub)
    } else if has_tag(n, "*=") {
        Some(BinOp::Mul)
    } else if has_tag(n, "&=") {
        Some(BinOp::And)
    } else if has_tag(n, "|=") {
        Some(BinOp::Or)
    } else if has_tag(n, "^=") {
        Some(BinOp::Xor)
    } else if has_tag(n, "<<=") {
        Some(BinOp::Shl)
    } else if has_tag(n, ">>=") {
        Some(BinOp::Shr)
    } else {
        None
    }
}

/// The first operator of a compound assignment among the children of a node.
pub fn compound_of(n: &Node) -> (r: Option<BinOp>)
    ensures
        r == first_compound(n@.kids),
{
    let mut i: usize = 0;
    assert(n@.kids.skip(0) =~= n@.kids);
    while i < n.kids.len()
        invariant
            i <= n.kids@.len(),
            first_compound(n@.kids) == first_compound(n@.kids.skip(i as int)),
        decreases n.kids@.len() - i,
    {
        let ghost rest = n@.kids.skip(i as int);
        assert(rest[0] == n.kids[i as int]@);
        assert(rest.drop_first() =~= n@.kids.skip(i as int + 1));
        let op: Option<BinOp> = compound_operator_of(&n.kids[i]);
        if op.is_some() {
            return op;
        }
        i = i + 1;
    }
    None
}

/// What `a += e` and the like lower to: `a = a + e`.
pub open spec fn compounded(n: NodeV) -> StmtV {
    StmtV::Blocking {
        lhs: target(n),
        rhs: ExprV::Binary {
            op: match first_compound(n.kids) {
                Some(op) => op,
                None => BinOp::Add,
            },
            lhs: Box::new(read_of(target(n))),
            rhs: Box::new(lowered_or(found(n, "kExpression"@), 32)),
        },
    }
}

/// Lower `a += e` and the like to an assignment.
pub fn lower_compound_assign(n: &Node) -> (r: Stmt)
    ensures
        r@ == compounded(n@),
{
    let lhs: Lvalue = lower_lvalue(n);
    let op: BinOp = match compound_of(n) {
        Some(op) => op,
        None => BinOp::Add,
    };
    let operand: Expr = lower_or(find(n, "kExpression"), 32);
    let rhs: Expr = Expr::Binary { op, lhs: Box::new(lvalue_read(&lhs)), rhs: Box::new(operand) };
    assert(rhs@ == expr_view(rhs));
    Stmt::Blocking { lhs, rhs }
}

} // verus!
