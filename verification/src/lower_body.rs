//! Lowering procedural statements.
use vstd::prelude::*;

use crate::ast::{
    arms_view, clone_expr, expr_view, exprs_view, stmt_view, stmts_view, views, Expr, ForkJoin, Stmt,
    TimingControl, VarDecl,
};
use crate::ast_model::{ExprV, StmtV, TimingControlV, VarDeclV};
use crate::bits::bits_of;
use crate::cst::{
    final_kid, find, find_deep, find_deep_in, find_in, find_or, first_kid, first_kid_of, found,
    found_deep, found_deep_in, found_in, group_cst, has_tag, kid, kids, kids_tagged, last_kid,
    lemma_kid, lemma_size_all, nth_kid, opt_node, or_else, refs_view, size, size_all, size_opt,
    tagged, text_of, word_of, Node, NodeV,
};
use crate::logic::LogicVec;
use crate::lower_expr::{
    chain_value, exprs_in, lower_expr, lower_exprs, lower_lvalue, lower_opt, lower_or,
    lower_reference_chain, lowered, lowered_opt, lowered_or, target, zero, zero_literal,
};
use crate::lower_stmt::{
    assigned, compounded, data_decls, lower_compound_assign, lower_data_decl, lower_incdec,
    lower_rhs, lower_timing_control, stepped, timing_control,
};
use crate::lower_types::unwrap_text;

verus! {

broadcast use group_cst;

/// What a statement node lowers to.
#[verifier::opaque]
pub open spec fn lowered_stmt(n: NodeV) -> StmtV
    decreases size(n), 1int,
{
    stmt_with(stmts_below(size(n)), n)
}

/// What statement nodes of less than a size lower to.
#[verifier::opaque]
pub open spec fn stmts_below(bound: nat) -> spec_fn(NodeV) -> StmtV
    decreases bound, 0int,
{
    |m: NodeV|
        if size(m) < bound {
            lowered_stmt(m)
        } else {
            arbitrary()
        }
}

/// Lowering below a bound is lowering.
pub proof fn lemma_stmts_below(bound: nat, m: NodeV)
    requires
        size(m) < bound,
    ensures
        stmts_below(bound)(m) == lowered_stmt(m),
{
    reveal(stmts_below);
    reveal(lowered_stmt);
}

/// A statement lowers by its own parts.
pub proof fn lemma_lowered_stmt(n: NodeV)
    ensures
        lowered_stmt(n) == stmt_with(stmts_below(size(n)), n),
{
    reveal(stmts_below);
    reveal(lowered_stmt);
}

/// What a statement that may be absent lowers to.
pub open spec fn or_null(g: spec_fn(NodeV) -> StmtV, o: Option<NodeV>) -> StmtV {
    match o {
        Some(n) => g(n),
        None => StmtV::Null,
    }
}

/// What the statements in a list that may be absent lower to.
pub open spec fn stmts_in(g: spec_fn(NodeV) -> StmtV, o: Option<NodeV>) -> Seq<StmtV> {
    match o {
        Some(list) => list.kids.map_values(g),
        None => Seq::empty(),
    }
}

/// What a local declaration lowers to: a declaration, or a block of them.
pub open spec fn declaration(ds: Seq<VarDeclV>) -> StmtV {
    if ds.len() == 0 {
        StmtV::Null
    } else if ds.len() == 1 {
        StmtV::VarDecl(ds[0])
    } else {
        StmtV::Block(ds.map_values(|d: VarDeclV| StmtV::VarDecl(d)))
    }
}

/// What an `if` lowers to.
pub open spec fn conditional(g: spec_fn(NodeV) -> StmtV, n: NodeV) -> StmtV {
    let clause = found(n, "kIfClause"@);
    let otherwise = first_kid(found_in(found(n, "kElseClause"@), "kElseBody"@));
    StmtV::If {
        cond: match found_in(
            found_in(found_in(clause, "kIfHeader"@), "kParenGroup"@),
            "kExpression"@,
        ) {
            Some(e) => lowered(e),
            None => ExprV::Literal(bits_of(1, 1)),
        },
        then_branch: Box::new(or_null(g, first_kid(found_in(clause, "kIfBody"@)))),
        else_branch: match otherwise {
            Some(s) => Some(Box::new(g(s))),
            None => None,
        },
    }
}

/// What one item of a `case` lowers to.
pub open spec fn case_item(g: spec_fn(NodeV) -> StmtV, item: NodeV) -> (Seq<ExprV>, StmtV) {
    (exprs_in(found(item, "kExpressionList"@)), or_null(g, last_kid(item)))
}

/// The children of a list that may be absent.
pub open spec fn kids_in(o: Option<NodeV>) -> Seq<NodeV> {
    match o {
        Some(list) => list.kids,
        None => Seq::empty(),
    }
}

/// What a `case` lowers to; the last default counts.
pub open spec fn case_of(g: spec_fn(NodeV) -> StmtV, n: NodeV) -> StmtV {
    let items = kids_in(found(n, "kCaseItemList"@));
    let defaults = tagged(items, "kDefaultItem"@);
    StmtV::Case {
        expr: lowered_or(found_in(found(n, "kParenGroup"@), "kExpression"@), 32),
        items: tagged(items, "kCaseItem"@).map_values(|item: NodeV| case_item(g, item)),
        default: if defaults.len() == 0 {
            None
        } else {
            Some(Box::new(or_null(g, last_kid(defaults.last()))))
        },
    }
}

/// The collection and index variable of a `foreach` reference.
pub open spec fn foreach_parts(e: ExprV) -> (ExprV, Seq<char>) {
    match e {
        ExprV::Index { base, index } => (
            *base,
            match *index {
                ExprV::Ref(name) => name,
                _ => Seq::empty(),
            },
        ),
        other => (other, Seq::empty()),
    }
}

/// What the reference of a `foreach` lowers to.
pub open spec fn foreach_reference(n: NodeV) -> ExprV {
    match found(n, "kReference"@) {
        Some(r) => chain_value(r),
        None => zero_literal(32),
    }
}

/// What a `return`, `break` or `continue` lowers to.
pub open spec fn jump(n: NodeV) -> StmtV {
    match first_kid(Some(n)) {
        Some(c) => if c.tag == "return"@ {
            StmtV::Return(lowered_opt(found(n, "kExpression"@)))
        } else if c.tag == "break"@ {
            StmtV::Break
        } else if c.tag == "continue"@ {
            StmtV::Continue
        } else {
            StmtV::Null
        },
        None => StmtV::Null,
    }
}

/// The statements in the block lists among some nodes.
pub open spec fn block_items(ns: Seq<NodeV>) -> Seq<NodeV>
    decreases ns.len(),
{
    if ns.len() == 0 {
        Seq::empty()
    } else if ns.last().tag == "kBlockItemStatementList"@ {
        block_items(ns.drop_last()) + ns.last().kids
    } else {
        block_items(ns.drop_last())
    }
}

/// The nodes without a tag.
pub open spec fn not_tagged(ns: Seq<NodeV>, t: Seq<char>) -> Seq<NodeV>
    decreases ns.len(),
{
    if ns.len() == 0 {
        Seq::empty()
    } else if ns.last().tag == t {
        not_tagged(ns.drop_last(), t)
    } else {
        not_tagged(ns.drop_last(), t).push(ns.last())
    }
}

/// How a `fork` is joined; the last keyword counts.
pub open spec fn join_of(ns: Seq<NodeV>) -> ForkJoin
    decreases ns.len(),
{
    if ns.len() == 0 {
        ForkJoin::All
    } else if ns.last().tag == "join_none"@ {
        ForkJoin::Detached
    } else if ns.last().tag == "join_any"@ {
        ForkJoin::Any
    } else if ns.last().tag == "join"@ {
        ForkJoin::All
    } else {
        join_of(ns.drop_last())
    }
}

/// What a `fork` lowers to: its declarations come before every branch starts.
pub open spec fn forked(g: spec_fn(NodeV) -> StmtV, n: NodeV) -> StmtV {
    let items = block_items(n.kids);
    let setup = tagged(items, "kDataDeclaration"@).map_values(g);
    let fork = StmtV::Fork {
        branches: not_tagged(items, "kDataDeclaration"@).map_values(g),
        join: join_of(n.kids),
    };
    if setup.len() == 0 {
        fork
    } else {
        StmtV::Block(setup.push(fork))
    }
}

/// What a statement node lowers to, given what its parts lower to.
pub open spec fn stmt_with(g: spec_fn(NodeV) -> StmtV, n: NodeV) -> StmtV {
    if n.tag == "kProceduralTimingControlStatement"@ {
        match nth_kid(Some(n), 0) {
            Some(control) => StmtV::Timed {
                control: timing_control(control),
                body: Box::new(or_null(g, nth_kid(Some(n), 1))),
            },
            None => StmtV::Null,
        }
    } else if n.tag == "kNetVariableAssignment"@ || n.tag == "kBlockingAssignmentStatement"@ {
        StmtV::Blocking { lhs: target(n), rhs: assigned(n) }
    } else if n.tag == "kFunctionCall"@ {
        StmtV::Expr(lowered(n))
    } else if n.tag == "kVoidcast"@ {
        match found_deep(n, "kExpression"@) {
            Some(e) => StmtV::Expr(lowered(e)),
            None => StmtV::Null,
        }
    } else if n.tag == "kNonblockingAssignmentStatement"@ {
        StmtV::Nonblocking { lhs: target(n), rhs: assigned(n) }
    } else if n.tag == "kIncrementDecrementExpression"@ {
        stepped(n)
    } else if n.tag == "kAssignModifyStatement"@ {
        compounded(n)
    } else if n.tag == "kSeqBlock"@ {
        StmtV::Block(
            stmts_in(g, or_else(found(n, "kBlockItemStatementList"@), found(n, "kStatementList"@))),
        )
    } else if n.tag == "kDataDeclaration"@ {
        declaration(data_decls(n))
    } else if n.tag == "kConditionalStatement"@ {
        conditional(g, n)
    } else if n.tag == "kCaseStatement"@ {
        case_of(g, n)
    } else if n.tag == "kBlockingEventTriggerStatement"@ {
        match found(n, "kReference"@) {
            Some(r) => StmtV::Trigger(chain_value(r)),
            None => StmtV::Null,
        }
    } else if n.tag == "kWaitStatement"@ {
        StmtV::Timed {
            control: TimingControlV::Wait(
                lowered_or(found_deep_in(found(n, "kWaitHeader"@), "kExpression"@), 1),
            ),
            body: Box::new(or_null(g, first_kid(found(n, "kWaitBody"@)))),
        }
    } else if n.tag == "kWhileLoopStatement"@ {
        StmtV::While {
            cond: lowered_or(found(n, "kExpression"@), 1),
            body: Box::new(or_null(g, last_kid(n))),
        }
    } else if n.tag == "kDoWhileLoopStatement"@ {
        StmtV::DoWhile {
            cond: lowered_or(found(n, "kExpression"@), 1),
            body: Box::new(or_null(g, nth_kid(Some(n), 1))),
        }
    } else if n.tag == "kForeverLoopStatement"@ {
        StmtV::While {
            cond: ExprV::Literal(bits_of(1, 1)),
            body: Box::new(or_null(g, last_kid(n))),
        }
    } else if n.tag == "kForeachLoopStatement"@ {
        StmtV::Foreach {
            collection: foreach_parts(foreach_reference(n)).0,
            index: foreach_parts(foreach_reference(n)).1,
            body: Box::new(or_null(g, last_kid(n))),
        }
    } else if n.tag == "kSystemTFCall"@ {
        StmtV::SysCall {
            name: word_of(found(n, "SystemTFIdentifier"@)),
            args: exprs_in(found_deep(n, "kArgumentList"@)),
        }
    } else if n.tag == "kJumpStatement"@ {
        jump(n)
    } else if n.tag == "kStatement"@ || n.tag == "kStatementItem"@ {
        or_null(g, first_kid(Some(n)))
    } else if n.tag == "kParBlock"@ {
        forked(g, n)
    } else {
        StmtV::Null
    }
}

// ---- lowering -------------------------------------------------------------------

/// Whether trees are all smaller than a bound.
pub open spec fn all_below(ns: Seq<NodeV>, bound: nat) -> bool {
    forall|i: int| 0 <= i < ns.len() ==> size(#[trigger] ns[i]) < bound
}

/// Lower a statement that may be absent.
fn lower_or_null(o: Option<&Node>, Ghost(bound): Ghost<nat>) -> (r: Stmt)
    requires
        o is Some ==> size_opt(opt_node(o)) < bound,
    ensures
        r@ == or_null(stmts_below(bound), opt_node(o)),
    decreases bound, 0int,
{
    match o {
        Some(n) => {
            proof {
                lemma_stmts_below(bound, n@);
            }
            lower_stmt(n)
        },
        None => Stmt::Null,
    }
}

/// Lower statements.
fn lower_stmts(ns: &Vec<&Node>, Ghost(bound): Ghost<nat>) -> (r: Vec<Stmt>)
    requires
        all_below(refs_view(ns@), bound),
    ensures
        stmts_view(r@) == refs_view(ns@).map_values(stmts_below(bound)),
    decreases bound, 0int,
{
    let mut out: Vec<Stmt> = Vec::new();
    let ghost all = refs_view(ns@);
    let ghost g = stmts_below(bound);
    let mut i: usize = 0;
    assert(stmts_view(out@) =~= all.take(0).map_values(g));
    while i < ns.len()
        invariant
            i <= ns@.len(),
            all == refs_view(ns@),
            g == stmts_below(bound),
            all_below(all, bound),
            stmts_view(out@) == all.take(i as int).map_values(g),
        decreases ns@.len() - i,
    {
        assert(all[i as int] == ns[i as int]@);
        proof {
            lemma_stmts_below(bound, all[i as int]);
        }
        let s: Stmt = lower_stmt(ns[i]);
        let ghost before = out@;
        out.push(s);
        i = i + 1;
        assert(stmts_view(out@) =~= stmts_view(before).push(s@));
        assert(all.take(i as int).map_values(g) =~= all.take(i as int - 1).map_values(g).push(s@));
    }
    assert(all.take(i as int) =~= all);
    out
}

/// Lower the statements in a list that may be absent.
fn lower_stmts_in(o: Option<&Node>, Ghost(bound): Ghost<nat>) -> (r: Vec<Stmt>)
    requires
        size_opt(opt_node(o)) <= bound,
    ensures
        stmts_view(r@) == stmts_in(stmts_below(bound), opt_node(o)),
    decreases bound, 1int,
{
    match o {
        Some(list) => {
            assert forall|i: int| 0 <= i < list@.kids.len() implies size(#[trigger] list@.kids[i])
                < bound by {
                lemma_kid(list@, i);
            }
            lower_stmts(&kids(list), Ghost(bound))
        },
        None => {
            let out: Vec<Stmt> = Vec::new();
            assert(stmts_view(out@) =~= Seq::<StmtV>::empty());
            out
        },
    }
}

/// What the statements in a list lower to, each on its own.
pub open spec fn body_of(o: Option<NodeV>) -> Seq<StmtV> {
    match o {
        Some(list) => list.kids.map_values(|m: NodeV| lowered_stmt(m)),
        None => Seq::empty(),
    }
}

/// Lower the statements in a list that may be absent.
pub fn lower_body(o: Option<&Node>) -> (r: Vec<Stmt>)
    ensures
        stmts_view(r@) == body_of(opt_node(o)),
{
    let ghost bound = size_opt(opt_node(o));
    let out: Vec<Stmt> = lower_stmts_in(o, Ghost(bound));
    proof {
        if let Some(list) = opt_node(o) {
            assert forall|i: int| 0 <= i < list.kids.len() implies #[trigger] stmts_below(bound)(
                list.kids[i],
            ) == lowered_stmt(list.kids[i]) by {
                lemma_kid(list, i);
                lemma_stmts_below(bound, list.kids[i]);
            }
            assert(list.kids.map_values(stmts_below(bound)) =~= list.kids.map_values(
                |m: NodeV| lowered_stmt(m),
            ));
        }
    }
    out
}

/// Lower a local declaration.
fn lower_declaration(n: &Node) -> (r: Stmt)
    ensures
        r@ == declaration(data_decls(n@)),
{
    let mut ds: Vec<VarDecl> = lower_data_decl(n);
    let ghost all = views(ds@);
    assert(all.len() == ds@.len());
    if ds.len() == 0 {
        return Stmt::Null;
    }
    if ds.len() == 1 {
        assert(all[0] == ds@[0]@);
        return Stmt::VarDecl(ds[0].clone());
    }
    let mut out: Vec<Stmt> = Vec::new();
    let mut i: usize = 0;
    let ghost f = |d: VarDeclV| StmtV::VarDecl(d);
    assert(stmts_view(out@) =~= all.take(0).map_values(f));
    while i < ds.len()
        invariant
            i <= ds@.len(),
            all == views(ds@),
            f == (|d: VarDeclV| StmtV::VarDecl(d)),
            stmts_view(out@) == all.take(i as int).map_values(f),
        decreases ds@.len() - i,
    {
        assert(all[i as int] == ds@[i as int]@);
        let s: Stmt = Stmt::VarDecl(ds[i].clone());
        let ghost before = out@;
        assert(s@ == StmtV::VarDecl(all[i as int]));
        out.push(s);
        i = i + 1;
        assert(stmts_view(out@) =~= stmts_view(before).push(s@));
        assert(all.take(i as int).map_values(f) =~= all.take(i as int - 1).map_values(f).push(s@));
    }
    assert(all.take(i as int) =~= all);
    Stmt::Block(out)
}

/// Lower an `if`.
fn lower_if(n: &Node, Ghost(bound): Ghost<nat>) -> (r: Stmt)
    requires
        size(n@) <= bound,
    ensures
        r@ == conditional(stmts_below(bound), n@),
    decreases bound, 1int,
{
    let clause: Option<&Node> = find(n, "kIfClause");
    let cond: Expr = match find_in(
        find_in(find_in(clause, "kIfHeader"), "kParenGroup"),
        "kExpression",
    ) {
        Some(e) => lower_expr(e),
        None => Expr::Literal(LogicVec::from_u64(1, 1)),
    };
    let then_branch: Stmt = lower_or_null(
        first_kid_of(find_in(clause, "kIfBody")),
        Ghost(bound),
    );
    let else_branch: Option<Box<Stmt>> = match first_kid_of(
        find_in(find(n, "kElseClause"), "kElseBody"),
    ) {
        Some(s) => Some(Box::new(lower_or_null(Some(s), Ghost(bound)))),
        None => None,
    };
    Stmt::If { cond, then_branch: Box::new(then_branch), else_branch }
}

/// Lower the items of a `case`.
fn lower_case_items(list: &Node, Ghost(bound): Ghost<nat>) -> (r: Vec<(Vec<Expr>, Stmt)>)
    requires
        size(list@) <= bound,
    ensures
        arms_view(r@) == tagged(list@.kids, "kCaseItem"@).map_values(
            |item: NodeV| case_item(stmts_below(bound), item),
        ),
    decreases bound, 1int,
{
    let ns: Vec<&Node> = kids_tagged(list, "kCaseItem");
    let ghost all = tagged(list@.kids, "kCaseItem"@);
    let ghost f = |item: NodeV| case_item(stmts_below(bound), item);
    let mut out: Vec<(Vec<Expr>, Stmt)> = Vec::new();
    let mut i: usize = 0;
    assert(arms_view(out@) =~= all.take(0).map_values(f));
    while i < ns.len()
        invariant
            i <= ns@.len(),
            all == refs_view(ns@),
            size_all(all) < bound,
            f == (|item: NodeV| case_item(stmts_below(bound), item)),
            arms_view(out@) == all.take(i as int).map_values(f),
        decreases ns@.len() - i,
    {
        assert(all[i as int] == ns[i as int]@);
        proof {
            lemma_size_all(all, i as int);
        }
        let item: &Node = ns[i];
        let values: Vec<Expr> = lower_exprs(find(item, "kExpressionList"));
        let body: Stmt = lower_or_null(final_kid(item), Ghost(bound));
        let ghost arm = (exprs_view(values@), stmt_view(body));
        let ghost before = out@;
        assert(arm == case_item(stmts_below(bound), all[i as int]));
        out.push((values, body));
        i = i + 1;
        assert(arms_view(out@) =~= arms_view(before).push(arm));
        assert(all.take(i as int).map_values(f) =~= all.take(i as int - 1).map_values(f).push(arm));
    }
    assert(all.take(i as int) =~= all);
    out
}

/// Lower a `case`.
fn lower_case(n: &Node, Ghost(bound): Ghost<nat>) -> (r: Stmt)
    requires
        size(n@) <= bound,
    ensures
        r@ == case_of(stmts_below(bound), n@),
    decreases bound, 2int,
{
    let expr: Expr = lower_or(find_in(find(n, "kParenGroup"), "kExpression"), 32);
    let list: &Node = match find(n, "kCaseItemList") {
        Some(list) => list,
        None => {
            let items: Vec<(Vec<Expr>, Stmt)> = Vec::new();
            proof {
                let f = |item: NodeV| case_item(stmts_below(bound), item);
                assert(arms_view(items@) =~= tagged(
                    Seq::<NodeV>::empty(),
                    "kCaseItem"@,
                ).map_values(f));
            }
            return Stmt::Case { expr, items, default: None };
        },
    };
    let items: Vec<(Vec<Expr>, Stmt)> = lower_case_items(list, Ghost(bound));
    let defaults: Vec<&Node> = kids_tagged(list, "kDefaultItem");
    let default: Option<Box<Stmt>> = if defaults.len() == 0 {
        None
    } else {
        let ghost all = tagged(list@.kids, "kDefaultItem"@);
        let last: &Node = defaults[defaults.len() - 1];
        assert(all.last() == last@);
        proof {
            lemma_size_all(all, all.len() - 1);
        }
        Some(Box::new(lower_or_null(final_kid(last), Ghost(bound))))
    };
    Stmt::Case { expr, items, default }
}

/// The collection and index variable of a `foreach` reference.
fn split_foreach(e: &Expr) -> (r: (Expr, String))
    ensures
        (r.0@, r.1@) == foreach_parts(e@),
{
    match e {
        Expr::Index { base, index } => {
            assert((**index)@ == expr_view(**index));
            let name: String = match &**index {
                Expr::Ref(name) => name.clone(),
                _ => unwrap_text(None),
            };
            (clone_expr(&**base), name)
        },
        other => (clone_expr(other), unwrap_text(None)),
    }
}

/// Lower a `return`, `break` or `continue`.
fn lower_jump(n: &Node) -> (r: Stmt)
    ensures
        r@ == jump(n@),
{
    match first_kid_of(Some(n)) {
        Some(c) => if has_tag(c, "return") {
            Stmt::Return(lower_opt(find(n, "kExpression")))
        } else if has_tag(c, "break") {
            Stmt::Break
        } else if has_tag(c, "continue") {
            Stmt::Continue
        } else {
            Stmt::Null
        },
        None => Stmt::Null,
    }
}

/// The statements in the block lists of a `fork`.
fn fork_items(n: &Node) -> (r: Vec<&Node>)
    ensures
        refs_view(r@) == block_items(n@.kids),
        all_below(refs_view(r@), size(n@)),
{
    let mut out: Vec<&Node> = Vec::new();
    let mut i: usize = 0;
    assert(refs_view(out@) =~= block_items(n@.kids.take(0)));
    while i < n.kids.len()
        invariant
            i <= n.kids@.len(),
            refs_view(out@) == block_items(n@.kids.take(i as int)),
            all_below(refs_view(out@), size(n@)),
        decreases n.kids@.len() - i,
    {
        let list: &Node = &n.kids[i];
        let ghost before = out@;
        let ghost upto = n@.kids.take(i as int + 1);
        assert(upto.drop_last() =~= n@.kids.take(i as int));
        assert(upto.last() == list@);
        assert(n@.kids[i as int] == list@);
        if has_tag(list, "kBlockItemStatementList") {
            let mut k: usize = 0;
            assert(refs_view(out@) =~= refs_view(before) + list@.kids.take(0));
            while k < list.kids.len()
                invariant
                    k <= list.kids@.len(),
                    size(list@) < size(n@),
                    refs_view(out@) == refs_view(before) + list@.kids.take(k as int),
                    all_below(refs_view(out@), size(n@)),
                decreases list.kids@.len() - k,
            {
                let ghost held = out@;
                assert(list@.kids[k as int] == list.kids[k as int]@);
                out.push(&list.kids[k]);
                assert(refs_view(out@) =~= refs_view(held).push(list@.kids[k as int]));
                k = k + 1;
                assert(list@.kids.take(k as int) =~= list@.kids.take(k as int - 1).push(
                    list@.kids[k as int - 1],
                ));
                assert(refs_view(out@) =~= refs_view(before) + list@.kids.take(k as int));
                assert forall|j: int| 0 <= j < refs_view(out@).len() implies size(
                    #[trigger] refs_view(out@)[j],
                ) < size(n@) by {
                    if j < held.len() {
                        assert(refs_view(out@)[j] == refs_view(held)[j]);
                    } else {
                        assert(refs_view(out@)[j] == list@.kids[k as int - 1]);
                    }
                }
            }
            assert(list@.kids.take(k as int) =~= list@.kids);
        }
        i = i + 1;
    }
    assert(n@.kids.take(i as int) =~= n@.kids);
    out
}

/// The nodes with a tag, or those without it.
fn sift<'a>(ns: &Vec<&'a Node>, t: &str, with: bool, Ghost(bound): Ghost<nat>) -> (r: Vec<&'a Node>)
    requires
        all_below(refs_view(ns@), bound),
    ensures
        refs_view(r@) == (if with {
            tagged(refs_view(ns@), t@)
        } else {
            not_tagged(refs_view(ns@), t@)
        }),
        all_below(refs_view(r@), bound),
{
    let mut out: Vec<&Node> = Vec::new();
    let ghost all = refs_view(ns@);
    let mut i: usize = 0;
    assert(refs_view(out@) =~= tagged(all.take(0), t@));
    assert(refs_view(out@) =~= not_tagged(all.take(0), t@));
    while i < ns.len()
        invariant
            i <= ns@.len(),
            all == refs_view(ns@),
            all_below(all, bound),
            refs_view(out@) == (if with {
                tagged(all.take(i as int), t@)
            } else {
                not_tagged(all.take(i as int), t@)
            }),
            all_below(refs_view(out@), bound),
        decreases ns@.len() - i,
    {
        let ghost before = out@;
        let ghost upto = all.take(i as int + 1);
        assert(upto.drop_last() =~= all.take(i as int));
        assert(upto.last() == all[i as int]);
        assert(all[i as int] == ns[i as int]@);
        if has_tag(ns[i], t) == with {
            out.push(ns[i]);
            assert(refs_view(out@) =~= refs_view(before).push(all[i as int]));
        }
        i = i + 1;
    }
    assert(all.take(i as int) =~= all);
    out
}

/// How a `fork` is joined.
fn join_kind(n: &Node) -> (r: ForkJoin)
    ensures
        r == join_of(n@.kids),
{
    let mut join: ForkJoin = ForkJoin::All;
    let mut i: usize = 0;
    while i < n.kids.len()
        invariant
            i <= n.kids@.len(),
            join == join_of(n@.kids.take(i as int)),
        decreases n.kids@.len() - i,
    {
        let ghost upto = n@.kids.take(i as int + 1);
        assert(upto.drop_last() =~= n@.kids.take(i as int));
        assert(upto.last() == n.kids[i as int]@);
        if has_tag(&n.kids[i], "join_none") {
            join = ForkJoin::Detached;
        } else if has_tag(&n.kids[i], "join_any") {
            join = ForkJoin::Any;
        } else if has_tag(&n.kids[i], "join") {
            join = ForkJoin::All;
        }
        i = i + 1;
    }
    assert(n@.kids.take(i as int) =~= n@.kids);
    join
}

/// Lower a `fork`. Its declarations initialize before any branch starts and are
/// then visible to every branch.
fn lower_fork(n: &Node, Ghost(bound): Ghost<nat>) -> (r: Stmt)
    requires
        size(n@) <= bound,
    ensures
        r@ == forked(stmts_below(bound), n@),
    decreases bound, 1int,
{
    let items: Vec<&Node> = fork_items(n);
    let setup_nodes: Vec<&Node> = sift(&items, "kDataDeclaration", true, Ghost(bound));
    let branch_nodes: Vec<&Node> = sift(&items, "kDataDeclaration", false, Ghost(bound));
    let mut setup: Vec<Stmt> = lower_stmts(&setup_nodes, Ghost(bound));
    let branches: Vec<Stmt> = lower_stmts(&branch_nodes, Ghost(bound));
    let fork: Stmt = Stmt::Fork { branches, join: join_kind(n) };
    assert(stmts_view(setup@).len() == setup@.len());
    if setup.len() == 0 {
        return fork;
    }
    let ghost before = setup@;
    assert(fork@ == stmt_view(fork));
    setup.push(fork);
    assert(stmts_view(setup@) =~= stmts_view(before).push(fork@));
    Stmt::Block(setup)
}

/// Lower a statement. An unsupported one lowers to the empty statement.
pub fn lower_stmt(n: &Node) -> (r: Stmt)
    ensures
        r@ == lowered_stmt(n@),
    decreases size(n@), 5int,
{
    let ghost bound = size(n@);
    proof {
        lemma_lowered_stmt(n@);
    }
    if has_tag(n, "kProceduralTimingControlStatement") {
        match kid(n, 0) {
            Some(c) => {
                let control: TimingControl = lower_timing_control(c);
                let body: Stmt = lower_or_null(kid(n, 1), Ghost(bound));
                Stmt::Timed { control, body: Box::new(body) }
            },
            None => Stmt::Null,
        }
    } else if has_tag(n, "kNetVariableAssignment") || has_tag(n, "kBlockingAssignmentStatement") {
        Stmt::Blocking { lhs: lower_lvalue(n), rhs: lower_rhs(n) }
    } else if has_tag(n, "kFunctionCall") {
        Stmt::Expr(lower_expr(n))
    } else if has_tag(n, "kVoidcast") {
        match find_deep(n, "kExpression") {
            Some(e) => Stmt::Expr(lower_expr(e)),
            None => Stmt::Null,
        }
    } else if has_tag(n, "kNonblockingAssignmentStatement") {
        Stmt::Nonblocking { lhs: lower_lvalue(n), rhs: lower_rhs(n) }
    } else if has_tag(n, "kIncrementDecrementExpression") {
        lower_incdec(n)
    } else if has_tag(n, "kAssignModifyStatement") {
        lower_compound_assign(n)
    } else if has_tag(n, "kSeqBlock") {
        Stmt::Block(
            lower_stmts_in(
                find_or(find(n, "kBlockItemStatementList"), find(n, "kStatementList")),
                Ghost(bound),
            ),
        )
    } else if has_tag(n, "kDataDeclaration") {
        lower_declaration(n)
    } else if has_tag(n, "kConditionalStatement") {
        lower_if(n, Ghost(bound))
    } else if has_tag(n, "kCaseStatement") {
        lower_case(n, Ghost(bound))
    } else if has_tag(n, "kBlockingEventTriggerStatement") {
        match find(n, "kReference") {
            Some(r) => Stmt::Trigger(lower_reference_chain(r)),
            None => Stmt::Null,
        }
    } else if has_tag(n, "kWaitStatement") {
        let cond: Expr = lower_or(find_deep_in(find(n, "kWaitHeader"), "kExpression"), 1);
        let body: Stmt = lower_or_null(first_kid_of(find(n, "kWaitBody")), Ghost(bound));
        Stmt::Timed { control: TimingControl::Wait(cond), body: Box::new(body) }
    } else if has_tag(n, "kWhileLoopStatement") {
        Stmt::While {
            cond: lower_or(find(n, "kExpression"), 1),
            body: Box::new(lower_or_null(final_kid(n), Ghost(bound))),
        }
    } else if has_tag(n, "kDoWhileLoopStatement") {
        Stmt::DoWhile {
            cond: lower_or(find(n, "kExpression"), 1),
            body: Box::new(lower_or_null(kid(n, 1), Ghost(bound))),
        }
    } else if has_tag(n, "kForeverLoopStatement") {
        let cond: Expr = Expr::Literal(LogicVec::from_u64(1, 1));
        Stmt::While { cond, body: Box::new(lower_or_null(final_kid(n), Ghost(bound))) }
    } else if has_tag(n, "kForeachLoopStatement") {
        let reference: Expr = match find(n, "kReference") {
            Some(r) => lower_reference_chain(r),
            None => zero(32),
        };
        let (collection, index) = split_foreach(&reference);
        let body: Stmt = lower_or_null(final_kid(n), Ghost(bound));
        Stmt::Foreach { collection, index, body: Box::new(body) }
    } else if has_tag(n, "kSystemTFCall") {
        Stmt::SysCall {
            name: text_of(find(n, "SystemTFIdentifier")),
            args: lower_exprs(find_deep(n, "kArgumentList")),
        }
    } else if has_tag(n, "kJumpStatement") {
        lower_jump(n)
    } else if has_tag(n, "kStatement") || has_tag(n, "kStatementItem") {
        lower_or_null(first_kid_of(Some(n)), Ghost(bound))
    } else if has_tag(n, "kParBlock") {
        lower_fork(n, Ghost(bound))
    } else {
        Stmt::Null
    }
}

} // verus!
