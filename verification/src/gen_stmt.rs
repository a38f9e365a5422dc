//! Compiling statements.
use vstd::prelude::*;

use crate::ast::{arms_view, expr_view, exprs_view, stmt_view, stmts_view, BinOp, Expr, Stmt};
use crate::ast_model::{ExprV, StmtV};
use crate::gen_expr::{gen_expr, gives_code};
use crate::gen_simple::{did, gen_assign_lvalue, gen_blocking, gen_sys_call, gen_timing, gen_var};
use crate::gen_stmt_model::{
    after_foreach, asizes, block_code, bodies_code, branch_code, branches_code, by_register,
    captured, case_code, do_while_code, foreach_code, if_code, in_foreach, in_loop, lemma_asizes,
    lemma_ssizes, lemma_stmt_code, lemma_stmts_below, match_code, matches_code, new_labels,
    out_of_loop, placed, restored, ssize, ssizes, stmt_code, stmt_with, stmts_below, while_code,
    Captured, Ran,
};
use crate::ir::{
    branch_view, branches_view, no_code, ArgMode, Branch, BranchV, Builder, Code, CollOp, Inst,
};
use crate::layout::{Env, EnvV, Scope, ScopeV};
use crate::message::text2;
use crate::table::{entries_view, Table};

verus! {

// ---- lists ----------------------------------------------------------------------------

/// A block fails as its first failing prefix does.
proof fn lemma_block_error(
    g: spec_fn(ScopeV, Code, StmtV) -> Ran,
    sc: ScopeV,
    b: Code,
    all: Seq<StmtV>,
    i: int,
)
    requires
        0 <= i < all.len(),
        block_code(g, sc, b, all.take(i + 1)) is Err,
    ensures
        block_code(g, sc, b, all) == block_code(g, sc, b, all.take(i + 1)),
    decreases all.len() - i,
{
    if i + 1 == all.len() {
        assert(all.take(i + 1) =~= all);
    } else {
        assert(all.take(i + 2).drop_last() =~= all.take(i + 1));
        lemma_block_error(g, sc, b, all, i + 1);
    }
}

/// Compile a statement below a bound.
fn gen_part(env: &Env, sc: &mut Scope, b: &mut Builder, s: &Stmt, Ghost(bound): Ghost<nat>) -> (r:
    Result<(), String>)
    requires
        ssize(s@) < bound,
    ensures
        did(r, final(sc)@, final(b)@, stmts_below(env@, bound)(old(sc)@, old(b)@, s@)),
    decreases bound, 0int,
{
    proof {
        lemma_stmts_below(env@, bound, sc@, b@, s@);
    }
    gen_stmt(env, sc, b, s)
}

/// Compile statements one after the other.
fn gen_block(
    env: &Env,
    sc: &mut Scope,
    b: &mut Builder,
    stmts: &Vec<Stmt>,
    Ghost(bound): Ghost<nat>,
) -> (r: Result<(), String>)
    requires
        ssizes(stmts_view(stmts@)) < bound,
    ensures
        did(
            r,
            final(sc)@,
            final(b)@,
            block_code(stmts_below(env@, bound), old(sc)@, old(b)@, stmts_view(stmts@)),
        ),
    decreases bound, 1int,
{
    let ghost g = stmts_below(env@, bound);
    let ghost all = stmts_view(stmts@);
    let ghost names = sc@;
    let ghost start = b@;
    assert(all.len() == stmts@.len());
    let mut i: usize = 0;
    while i < stmts.len()
        invariant
            i <= stmts@.len(),
            g == stmts_below(env@, bound),
            all == stmts_view(stmts@),
            all.len() == stmts@.len(),
            names == old(sc)@,
            start == old(b)@,
            ssizes(all) < bound,
            block_code(g, names, start, all.take(i as int)) == Ok::<(ScopeV, Code), Seq<char>>(
                (sc@, b@),
            ),
        decreases stmts@.len() - i,
    {
        let ghost upto = all.take(i + 1);
        assert(upto.drop_last() =~= all.take(i as int));
        assert(upto.last() == all[i as int]);
        assert(all[i as int] == stmt_view(stmts@[i as int]));
        proof {
            lemma_ssizes(all, i as int);
        }
        if let Err(m) = gen_part(env, sc, b, &stmts[i], Ghost(bound)) {
            proof {
                lemma_block_error(g, names, start, all, i as int);
            }
            return Err(m);
        }
        i = i + 1;
    }
    assert(all.take(i as int) =~= all);
    Ok(())
}

// ---- branches and loops -----------------------------------------------------------------

/// Compile an `if`.
fn gen_if(
    env: &Env,
    sc: &mut Scope,
    b: &mut Builder,
    cond: &Expr,
    then_branch: &Stmt,
    else_branch: &Option<Box<Stmt>>,
    Ghost(bound): Ghost<nat>,
) -> (r: Result<(), String>)
    requires
        ssize(then_branch@) < bound,
        match else_branch {
            Some(els) => ssize(stmt_view(**els)) < bound,
            None => true,
        },
    ensures
        did(
            r,
            final(sc)@,
            final(b)@,
            if_code(
                stmts_below(env@, bound),
                env@,
                old(sc)@,
                old(b)@,
                cond@,
                then_branch@,
                match else_branch {
                    Some(els) => Some(Box::new(stmt_view(**els))),
                    None => None,
                },
            ),
        ),
    decreases bound, 1int,
{
    reveal(if_code);
    let c: u32 = match gen_expr(env, sc, b, cond) {
        Ok(r) => r,
        Err(m) => {
            return Err(m);
        },
    };
    let other: u32 = b.label();
    b.emit(Inst::BranchFalse { cond: c, label: other });
    if let Err(m) = gen_part(env, sc, b, then_branch, Ghost(bound)) {
        return Err(m);
    }
    match else_branch {
        None => {
            b.emit(Inst::Bind { label: other });
        },
        Some(els) => {
            let end: u32 = b.label();
            b.emit(Inst::Jump { label: end });
            b.emit(Inst::Bind { label: other });
            assert((**els)@ == stmt_view(**els));
            if let Err(m) = gen_part(env, sc, b, els, Ghost(bound)) {
                return Err(m);
            }
            b.emit(Inst::Bind { label: end });
        },
    }
    Ok(())
}

/// Compile the body of a loop.
fn gen_loop_body(
    env: &Env,
    sc: &mut Scope,
    b: &mut Builder,
    body: &Stmt,
    done: u32,
    again: u32,
    Ghost(bound): Ghost<nat>,
) -> (r: Result<(), String>)
    requires
        ssize(body@) < bound,
    ensures
        match r {
            Ok(_) => exists|sc1: ScopeV|
                #![trigger out_of_loop(sc1)]
                stmts_below(env@, bound)(in_loop(old(sc)@, done, again), old(b)@, body@) == Ok::<
                    (ScopeV, Code),
                    Seq<char>,
                >((sc1, final(b)@)) && final(sc)@ == out_of_loop(sc1),
            Err(m) => stmts_below(env@, bound)(in_loop(old(sc)@, done, again), old(b)@, body@)
                == Err::<(ScopeV, Code), Seq<char>>(m@),
        },
    decreases bound, 1int,
{
    let ghost before = sc@;
    sc.loops.push((done, again));
    assert(sc@ == in_loop(before, done, again));
    if let Err(m) = gen_part(env, sc, b, body, Ghost(bound)) {
        return Err(m);
    }
    let ghost after = sc@;
    sc.loops.pop();
    assert(sc@ == out_of_loop(after));
    Ok(())
}

/// Compile a `while`.
fn gen_while(
    env: &Env,
    sc: &mut Scope,
    b: &mut Builder,
    cond: &Expr,
    body: &Stmt,
    Ghost(bound): Ghost<nat>,
) -> (r: Result<(), String>)
    requires
        ssize(body@) < bound,
    ensures
        did(
            r,
            final(sc)@,
            final(b)@,
            while_code(stmts_below(env@, bound), env@, old(sc)@, old(b)@, cond@, body@),
        ),
    decreases bound, 2int,
{
    reveal(while_code);
    let top: u32 = b.label();
    let done: u32 = b.label();
    b.emit(Inst::Bind { label: top });
    let v: u32 = match gen_expr(env, sc, b, cond) {
        Ok(r) => r,
        Err(m) => {
            return Err(m);
        },
    };
    b.emit(Inst::BranchFalse { cond: v, label: done });
    if let Err(m) = gen_loop_body(env, sc, b, body, done, top, Ghost(bound)) {
        return Err(m);
    }
    b.emit(Inst::Jump { label: top });
    b.emit(Inst::Bind { label: done });
    Ok(())
}

/// Compile a `do ... while`.
fn gen_do_while(
    env: &Env,
    sc: &mut Scope,
    b: &mut Builder,
    cond: &Expr,
    body: &Stmt,
    Ghost(bound): Ghost<nat>,
) -> (r: Result<(), String>)
    requires
        ssize(body@) < bound,
    ensures
        did(
            r,
            final(sc)@,
            final(b)@,
            do_while_code(stmts_below(env@, bound), env@, old(sc)@, old(b)@, cond@, body@),
        ),
    decreases bound, 2int,
{
    reveal(do_while_code);
    let top: u32 = b.label();
    let check: u32 = b.label();
    let done: u32 = b.label();
    b.emit(Inst::Bind { label: top });
    if let Err(m) = gen_loop_body(env, sc, b, body, done, check, Ghost(bound)) {
        return Err(m);
    }
    b.emit(Inst::Bind { label: check });
    match gen_expr(env, sc, b, cond) {
        Err(m) => Err(m),
        Ok(v) => {
            b.emit(Inst::BranchTrue { cond: v, label: top });
            b.emit(Inst::Bind { label: done });
            Ok(())
        },
    }
}

// ---- case -------------------------------------------------------------------------------

/// New labels.
fn gen_labels(b: &mut Builder, n: usize) -> (r: Vec<u32>)
    ensures
        (final(b)@, r@) == new_labels(old(b)@, n as nat),
        r@.len() == n,
{
    let ghost start = b@;
    let mut labels: Vec<u32> = Vec::new();
    let mut i: usize = 0;
    assert(labels@ =~= Seq::<u32>::empty());
    while i < n
        invariant
            i <= n,
            start == old(b)@,
            (b@, labels@) == new_labels(start, i as nat),
            labels@.len() == i,
        decreases n - i,
    {
        let l: u32 = b.label();
        labels.push(l);
        i = i + 1;
    }
    labels
}

/// Tests fail as their first failing prefix does.
proof fn lemma_match_error(
    env: EnvV,
    sc: ScopeV,
    b: Code,
    selector: u32,
    all: Seq<ExprV>,
    label: u32,
    i: int,
)
    requires
        0 <= i < all.len(),
        match_code(env, sc, b, selector, all.take(i + 1), label) is Err,
    ensures
        match_code(env, sc, b, selector, all, label) == match_code(
            env,
            sc,
            b,
            selector,
            all.take(i + 1),
            label,
        ),
    decreases all.len() - i,
{
    if i + 1 == all.len() {
        assert(all.take(i + 1) =~= all);
    } else {
        assert(all.take(i + 2).drop_last() =~= all.take(i + 1));
        lemma_match_error(env, sc, b, selector, all, label, i + 1);
    }
}

/// Go to a label where a selector equals one of some values.
fn gen_match(
    env: &Env,
    sc: &Scope,
    b: &mut Builder,
    selector: u32,
    values: &Vec<Expr>,
    label: u32,
) -> (r: Result<(), String>)
    ensures
        gives_code(
            r,
            final(b)@,
            match_code(env@, sc@, old(b)@, selector, exprs_view(values@), label),
        ),
{
    let ghost all = exprs_view(values@);
    let ghost start = b@;
    assert(all.len() == values@.len());
    let mut i: usize = 0;
    while i < values.len()
        invariant
            i <= values@.len(),
            all == exprs_view(values@),
            all.len() == values@.len(),
            start == old(b)@,
            match_code(env@, sc@, start, selector, all.take(i as int), label) == Ok::<
                Code,
                Seq<char>,
            >(b@),
        decreases values@.len() - i,
    {
        let ghost upto = all.take(i + 1);
        assert(upto.drop_last() =~= all.take(i as int));
        assert(upto.last() == all[i as int]);
        assert(all[i as int] == expr_view(values@[i as int]));
        let candidate: u32 = match gen_expr(env, sc, b, &values[i]) {
            Ok(r) => r,
            Err(m) => {
                proof {
                    lemma_match_error(env@, sc@, start, selector, all, label, i as int);
                }
                return Err(m);
            },
        };
        let equal: u32 = b.reg();
        b.emit(Inst::Binary { op: BinOp::Eq, dst: equal, a: selector, b: candidate });
        b.emit(Inst::BranchTrue { cond: equal, label });
        i = i + 1;
    }
    assert(all.take(i as int) =~= all);
    Ok(())
}

/// Items fail as their first failing prefix does.
proof fn lemma_matches_error(
    env: EnvV,
    sc: ScopeV,
    b: Code,
    selector: u32,
    all: Seq<(Seq<ExprV>, StmtV)>,
    labels: Seq<u32>,
    i: int,
)
    requires
        0 <= i < all.len(),
        matches_code(env, sc, b, selector, all.take(i + 1), labels) is Err,
    ensures
        matches_code(env, sc, b, selector, all, labels) == matches_code(
            env,
            sc,
            b,
            selector,
            all.take(i + 1),
            labels,
        ),
    decreases all.len() - i,
{
    if i + 1 == all.len() {
        assert(all.take(i + 1) =~= all);
    } else {
        assert(all.take(i + 2).drop_last() =~= all.take(i + 1));
        lemma_matches_error(env, sc, b, selector, all, labels, i + 1);
    }
}

/// Go to the label of the first item that matches.
fn gen_matches(
    env: &Env,
    sc: &Scope,
    b: &mut Builder,
    selector: u32,
    items: &Vec<(Vec<Expr>, Stmt)>,
    labels: &Vec<u32>,
) -> (r: Result<(), String>)
    requires
        labels@.len() == items@.len(),
    ensures
        gives_code(
            r,
            final(b)@,
            matches_code(env@, sc@, old(b)@, selector, arms_view(items@), labels@),
        ),
{
    let ghost all = arms_view(items@);
    let ghost start = b@;
    assert(all.len() == items@.len());
    let mut i: usize = 0;
    while i < items.len()
        invariant
            i <= items@.len(),
            all == arms_view(items@),
            all.len() == items@.len(),
            labels@.len() == items@.len(),
            start == old(b)@,
            matches_code(env@, sc@, start, selector, all.take(i as int), labels@) == Ok::<
                Code,
                Seq<char>,
            >(b@),
        decreases items@.len() - i,
    {
        let ghost upto = all.take(i + 1);
        assert(upto.drop_last() =~= all.take(i as int));
        assert(upto.last() == all[i as int]);
        assert(all[i as int].0 == exprs_view(items@[i as int].0@));
        if let Err(m) = gen_match(env, sc, b, selector, &items[i].0, labels[i]) {
            proof {
                lemma_matches_error(env@, sc@, start, selector, all, labels@, i as int);
            }
            return Err(m);
        }
        i = i + 1;
    }
    assert(all.take(i as int) =~= all);
    Ok(())
}

/// Bodies fail as their first failing prefix does.
proof fn lemma_bodies_error(
    g: spec_fn(ScopeV, Code, StmtV) -> Ran,
    sc: ScopeV,
    b: Code,
    all: Seq<(Seq<ExprV>, StmtV)>,
    labels: Seq<u32>,
    done: u32,
    i: int,
)
    requires
        0 <= i < all.len(),
        bodies_code(g, sc, b, all.take(i + 1), labels, done) is Err,
    ensures
        bodies_code(g, sc, b, all, labels, done) == bodies_code(
            g,
            sc,
            b,
            all.take(i + 1),
            labels,
            done,
        ),
    decreases all.len() - i,
{
    if i + 1 == all.len() {
        assert(all.take(i + 1) =~= all);
    } else {
        assert(all.take(i + 2).drop_last() =~= all.take(i + 1));
        lemma_bodies_error(g, sc, b, all, labels, done, i + 1);
    }
}

/// Compile the bodies of items, each under its label.
fn gen_bodies(
    env: &Env,
    sc: &mut Scope,
    b: &mut Builder,
    items: &Vec<(Vec<Expr>, Stmt)>,
    labels: &Vec<u32>,
    done: u32,
    Ghost(bound): Ghost<nat>,
) -> (r: Result<(), String>)
    requires
        labels@.len() == items@.len(),
        asizes(arms_view(items@)) < bound,
    ensures
        did(
            r,
            final(sc)@,
            final(b)@,
            bodies_code(
                stmts_below(env@, bound),
                old(sc)@,
                old(b)@,
                arms_view(items@),
                labels@,
                done,
            ),
        ),
    decreases bound, 1int,
{
    let ghost g = stmts_below(env@, bound);
    let ghost all = arms_view(items@);
    let ghost names = sc@;
    let ghost start = b@;
    assert(all.len() == items@.len());
    let mut i: usize = 0;
    while i < items.len()
        invariant
            i <= items@.len(),
            g == stmts_below(env@, bound),
            all == arms_view(items@),
            all.len() == items@.len(),
            labels@.len() == items@.len(),
            names == old(sc)@,
            start == old(b)@,
            asizes(all) < bound,
            bodies_code(g, names, start, all.take(i as int), labels@, done) == Ok::<
                (ScopeV, Code),
                Seq<char>,
            >((sc@, b@)),
        decreases items@.len() - i,
    {
        let ghost upto = all.take(i + 1);
        assert(upto.drop_last() =~= all.take(i as int));
        assert(upto.last() == all[i as int]);
        assert(all[i as int].1 == stmt_view(items@[i as int].1));
        proof {
            lemma_asizes(all, i as int);
        }
        b.emit(Inst::Bind { label: labels[i] });
        if let Err(m) = gen_part(env, sc, b, &items[i].1, Ghost(bound)) {
            proof {
                lemma_bodies_error(g, names, start, all, labels@, done, i as int);
            }
            return Err(m);
        }
        b.emit(Inst::Jump { label: done });
        i = i + 1;
    }
    assert(all.take(i as int) =~= all);
    Ok(())
}

/// Compile a `case`.
fn gen_case(
    env: &Env,
    sc: &mut Scope,
    b: &mut Builder,
    expr: &Expr,
    items: &Vec<(Vec<Expr>, Stmt)>,
    default: &Option<Box<Stmt>>,
    Ghost(bound): Ghost<nat>,
) -> (r: Result<(), String>)
    requires
        asizes(arms_view(items@)) < bound,
        match default {
            Some(d) => ssize(stmt_view(**d)) < bound,
            None => true,
        },
    ensures
        did(
            r,
            final(sc)@,
            final(b)@,
            case_code(
                stmts_below(env@, bound),
                env@,
                old(sc)@,
                old(b)@,
                expr@,
                arms_view(items@),
                match default {
                    Some(d) => Some(Box::new(stmt_view(**d))),
                    None => None,
                },
            ),
        ),
    decreases bound, 2int,
{
    reveal(case_code);
    assert(arms_view(items@).len() == items@.len());
    let selector: u32 = match gen_expr(env, sc, b, expr) {
        Ok(r) => r,
        Err(m) => {
            return Err(m);
        },
    };
    let done: u32 = b.label();
    let labels: Vec<u32> = gen_labels(b, items.len());
    let other: u32 = match default {
        Some(_) => b.label(),
        None => done,
    };
    if let Err(m) = gen_matches(env, sc, b, selector, items, &labels) {
        return Err(m);
    }
    b.emit(Inst::Jump { label: other });
    if let Err(m) = gen_bodies(env, sc, b, items, &labels, done, Ghost(bound)) {
        return Err(m);
    }
    if let Some(body) = default {
        b.emit(Inst::Bind { label: other });
        assert((**body)@ == stmt_view(**body));
        if let Err(m) = gen_part(env, sc, b, body, Ghost(bound)) {
            return Err(m);
        }
    }
    b.emit(Inst::Bind { label: done });
    Ok(())
}

// ---- foreach ----------------------------------------------------------------------------

/// Give a name the value that it had before.
fn restore<V: Copy>(t: &mut Table<V>, name: &String, before: Option<V>)
    ensures
        final(t)@ == restored(old(t)@, name@, before),
{
    match before {
        Some(v) => {
            t.insert(name.clone(), v);
        },
        None => {
            t.remove(name.as_str());
        },
    }
}

/// Compile a `foreach`.
fn gen_foreach(
    env: &Env,
    sc: &mut Scope,
    b: &mut Builder,
    collection: &Expr,
    index: &String,
    body: &Stmt,
    Ghost(bound): Ghost<nat>,
) -> (r: Result<(), String>)
    requires
        ssize(body@) < bound,
    ensures
        did(
            r,
            final(sc)@,
            final(b)@,
            foreach_code(
                stmts_below(env@, bound),
                env@,
                old(sc)@,
                old(b)@,
                collection@,
                index@,
                body@,
            ),
        ),
    decreases bound, 2int,
{
    reveal(foreach_code);
    let ghost before = sc@;
    let key: Option<u32> = match env.coll_of_receiver(sc, collection) {
        Some(info) => info.key_class,
        None => {
            return Err("foreach receiver is not a collection".to_owned());
        },
    };
    let base: u32 = match gen_expr(env, sc, b, collection) {
        Ok(r) => r,
        Err(m) => {
            return Err(m);
        },
    };
    let reg: u32 = b.reg();
    let local: Option<(u32, u32)> = sc.locals.get(index.as_str());
    let class: Option<u32> = sc.classes.get(index.as_str());
    sc.locals.insert(index.clone(), (reg, 32));
    restore(&mut sc.classes, index, key);
    assert(sc@ == in_foreach(before, index@, reg, key));
    let more: u32 = b.reg();
    let first: Vec<u32> = vec![reg];
    assert(first@ =~= seq![reg]);
    b.emit(Inst::CollMethod { dst: more, base, op: CollOp::First, args: first });
    let check: u32 = b.label();
    let advance: u32 = b.label();
    let done: u32 = b.label();
    b.emit(Inst::Bind { label: check });
    b.emit(Inst::BranchFalse { cond: more, label: done });
    if let Err(m) = gen_loop_body(env, sc, b, body, done, advance, Ghost(bound)) {
        return Err(m);
    }
    b.emit(Inst::Bind { label: advance });
    let next: Vec<u32> = vec![reg];
    assert(next@ =~= seq![reg]);
    b.emit(Inst::CollMethod { dst: more, base, op: CollOp::Next, args: next });
    b.emit(Inst::Jump { label: check });
    b.emit(Inst::Bind { label: done });
    let ghost after = sc@;
    restore(&mut sc.locals, index, local);
    restore(&mut sc.classes, index, class);
    assert(sc@ == after_foreach(after, before, index@));
    Ok(())
}

// ---- forks --------------------------------------------------------------------------------

/// Put a local in its place by register.
fn place(s: &mut Vec<(String, (u32, u32))>, name: String, local: (u32, u32))
    ensures
        entries_view(final(s)@) == placed(entries_view(old(s)@), (name@, local)),
{
    let ghost all = entries_view(s@);
    let ghost e = (name@, local);
    assert(all.len() == s@.len());
    let mut i: usize = s.len();
    assert(all.take(i as int) =~= all);
    assert(all.skip(i as int) =~= Seq::empty());
    assert(placed(all, e) =~= placed(all.take(i as int), e) + all.skip(i as int));
    while i > 0 && s[i - 1].1.0 > local.0
        invariant
            i <= s@.len(),
            all == entries_view(s@),
            all.len() == s@.len(),
            e == (name@, local),
            placed(all, e) == placed(all.take(i as int), e) + all.skip(i as int),
        decreases i,
    {
        let ghost upto = all.take(i as int);
        assert(upto.drop_last() =~= all.take(i - 1));
        assert(upto.last() == all[i - 1]);
        i = i - 1;
        assert(placed(all.take(i as int), e).push(all[i as int]) + all.skip(i + 1) =~= placed(
            all.take(i as int),
            e,
        ) + all.skip(i as int));
    }
    proof {
        let upto = all.take(i as int);
        if i > 0 {
            assert(upto.last() == all[i - 1]);
        }
        assert(placed(upto, e) == upto.push(e));
        assert(upto.push(e) + all.skip(i as int) =~= all.insert(i as int, e));
    }
    s.insert(i, (name, local));
    assert(entries_view(s@) =~= all.insert(i as int, e));
}

/// Locals in the order of their registers.
fn ordered(t: &Table<(u32, u32)>) -> (r: Vec<(String, (u32, u32))>)
    ensures
        entries_view(r@) == by_register(t@),
{
    let mut out: Vec<(String, (u32, u32))> = Vec::new();
    let ghost all = t@;
    assert(all.len() == t.entries@.len());
    let mut i: usize = 0;
    assert(entries_view(out@) =~= by_register(all.take(0)));
    while i < t.entries.len()
        invariant
            i <= t.entries@.len(),
            all == t@,
            all.len() == t.entries@.len(),
            entries_view(out@) == by_register(all.take(i as int)),
        decreases t.entries@.len() - i,
    {
        let ghost upto = all.take(i + 1);
        assert(upto.drop_last() =~= all.take(i as int));
        assert(upto.last() == all[i as int]);
        let name: String = t.entries[i].0.clone();
        place(&mut out, name, t.entries[i].1);
        i = i + 1;
    }
    assert(all.take(i as int) =~= all);
    out
}

/// Give locals of the parent registers of their own.
fn capture(
    locals: &Vec<(String, (u32, u32))>,
    own: &mut Table<(u32, u32)>,
    b: &mut Builder,
    captures: &mut Vec<(u32, u32)>,
)
    ensures
        (Captured { locals: final(own)@, code: final(b)@, captures: final(captures)@ })
            == captured(
            Captured { locals: old(own)@, code: old(b)@, captures: old(captures)@ },
            entries_view(locals@),
        ),
{
    let ghost all = entries_view(locals@);
    let ghost start = Captured { locals: own@, code: b@, captures: captures@ };
    assert(all.len() == locals@.len());
    let mut i: usize = 0;
    while i < locals.len()
        invariant
            i <= locals@.len(),
            all == entries_view(locals@),
            all.len() == locals@.len(),
            (Captured { locals: own@, code: b@, captures: captures@ }) == captured(
                start,
                all.take(i as int),
            ),
        decreases locals@.len() - i,
    {
        let ghost upto = all.take(i + 1);
        assert(upto.drop_last() =~= all.take(i as int));
        assert(upto.last() == all[i as int]);
        let child: u32 = b.reg();
        own.insert(locals[i].0.clone(), (child, locals[i].1.1));
        captures.push((child, locals[i].1.0));
        i = i + 1;
    }
    assert(all.take(i as int) =~= all);
}

/// Compile a branch of a fork.
fn gen_fork_branch(env: &Env, sc: &Scope, body: &Stmt, Ghost(bound): Ghost<nat>) -> (r: Result<
    Branch,
    String,
>)
    requires
        ssize(body@) < bound,
    ensures
        match r {
            Ok(branch) => branch_code(stmts_below(env@, bound), env@, sc@, body@) == Ok::<
                BranchV,
                Seq<char>,
            >(branch@),
            Err(m) => branch_code(stmts_below(env@, bound), env@, sc@, body@) == Err::<
                BranchV,
                Seq<char>,
            >(m@),
        },
    decreases bound, 1int,
{
    reveal(branch_code);
    let name: String = match sc.class_ctx {
        Some(cid) => text2(env.class_name(cid).as_str(), "::<fork>"),
        None => "<fork>".to_owned(),
    };
    let mut b: Builder = Builder::new();
    let mut captures: Vec<(u32, u32)> = Vec::new();
    let mut this_reg: u32 = sc.this_reg;
    if sc.class_ctx.is_some() {
        this_reg = b.reg();
        captures.push((this_reg, sc.this_reg));
    }
    assert(captures@ =~= (if sc@.class_ctx is Some {
        seq![(no_code().regs, sc@.this_reg)]
    } else {
        Seq::empty()
    }));
    let mut locals: Table<(u32, u32)> = Table::new();
    let parents: Vec<(String, (u32, u32))> = ordered(&sc.locals);
    capture(&parents, &mut locals, &mut b, &mut captures);
    let mut inner = Scope {
        class_ctx: sc.class_ctx,
        this_reg,
        classes: sc.classes.copy(),
        colls: sc.colls.copy(),
        enums: sc.enums.copy(),
        events: sc.events.copy(),
        locals,
        loops: Vec::new(),
    };
    assert(inner@.loops =~= Seq::empty());
    if let Err(m) = gen_part(env, &mut inner, &mut b, body, Ghost(bound)) {
        return Err(m);
    }
    b.emit(Inst::Finish);
    let none: Vec<ArgMode> = Vec::new();
    assert(none@ =~= Seq::empty());
    match b.build(name, none) {
        Err(m) => Err(m),
        Ok(program) => {
            let branch = Branch { program, captures };
            assert(branch@ == branch_view(branch));
            Ok(branch)
        },
    }
}

/// Branches fail as their first failing prefix does.
proof fn lemma_branches_error(
    g: spec_fn(ScopeV, Code, StmtV) -> Ran,
    env: EnvV,
    sc: ScopeV,
    all: Seq<StmtV>,
    i: int,
)
    requires
        0 <= i < all.len(),
        branches_code(g, env, sc, all.take(i + 1)) is Err,
    ensures
        branches_code(g, env, sc, all) == branches_code(g, env, sc, all.take(i + 1)),
    decreases all.len() - i,
{
    if i + 1 == all.len() {
        assert(all.take(i + 1) =~= all);
    } else {
        assert(all.take(i + 2).drop_last() =~= all.take(i + 1));
        lemma_branches_error(g, env, sc, all, i + 1);
    }
}

/// Compile the branches of a fork.
fn gen_branches(env: &Env, sc: &Scope, branches: &Vec<Stmt>, Ghost(bound): Ghost<nat>) -> (r: Result<
    Vec<Branch>,
    String,
>)
    requires
        ssizes(stmts_view(branches@)) < bound,
    ensures
        match r {
            Ok(done) => branches_code(
                stmts_below(env@, bound),
                env@,
                sc@,
                stmts_view(branches@),
            ) == Ok::<Seq<BranchV>, Seq<char>>(branches_view(done@)),
            Err(m) => branches_code(stmts_below(env@, bound), env@, sc@, stmts_view(branches@))
                == Err::<Seq<BranchV>, Seq<char>>(m@),
        },
    decreases bound, 2int,
{
    let ghost g = stmts_below(env@, bound);
    let ghost all = stmts_view(branches@);
    assert(all.len() == branches@.len());
    let mut out: Vec<Branch> = Vec::new();
    let mut i: usize = 0;
    assert(branches_view(out@) =~= Seq::<BranchV>::empty());
    while i < branches.len()
        invariant
            i <= branches@.len(),
            g == stmts_below(env@, bound),
            all == stmts_view(branches@),
            all.len() == branches@.len(),
            ssizes(all) < bound,
            branches_code(g, env@, sc@, all.take(i as int)) == Ok::<Seq<BranchV>, Seq<char>>(
                branches_view(out@),
            ),
        decreases branches@.len() - i,
    {
        let ghost upto = all.take(i + 1);
        let ghost before = out@;
        assert(upto.drop_last() =~= all.take(i as int));
        assert(upto.last() == all[i as int]);
        assert(all[i as int] == stmt_view(branches@[i as int]));
        proof {
            lemma_ssizes(all, i as int);
        }
        match gen_fork_branch(env, sc, &branches[i], Ghost(bound)) {
            Ok(branch) => {
                out.push(branch);
                assert(branches_view(out@) =~= branches_view(before).push(branch@));
            },
            Err(m) => {
                proof {
                    lemma_branches_error(g, env@, sc@, all, i as int);
                }
                return Err(m);
            },
        }
        i = i + 1;
    }
    assert(all.take(i as int) =~= all);
    Ok(out)
}

// ---- statements -----------------------------------------------------------------------------

/// Compile a statement without statements in it.
fn gen_leaf(env: &Env, sc: &mut Scope, b: &mut Builder, s: &Stmt, Ghost(bound): Ghost<nat>) -> (r:
    Result<(), String>)
    requires
        s is VarDecl || s is Blocking || s is Nonblocking || s is SysCall || s is Expr || s
            is Trigger || s is Return || s is Break || s is Continue || s is Null,
    ensures
        did(
            r,
            final(sc)@,
            final(b)@,
            stmt_with(stmts_below(env@, bound), env@, old(sc)@, old(b)@, s@),
        ),
{
    match s {
        Stmt::VarDecl(v) => gen_var(env, sc, b, v),
        Stmt::Blocking { lhs, rhs } => gen_blocking(env, sc, b, lhs, rhs),
        Stmt::Nonblocking { lhs, rhs } => match gen_expr(env, sc, b, rhs) {
            Err(m) => Err(m),
            Ok(src) => gen_assign_lvalue(env, sc, b, lhs, src, true),
        },
        Stmt::SysCall { name, args } => gen_sys_call(env, sc, b, name.as_str(), args),
        Stmt::Expr(e) => match gen_expr(env, sc, b, e) {
            Err(m) => Err(m),
            Ok(_) => Ok(()),
        },
        Stmt::Trigger(e) => match gen_expr(env, sc, b, e) {
            Err(m) => Err(m),
            Ok(event) => {
                b.emit(Inst::TriggerEvent { event });
                Ok(())
            },
        },
        Stmt::Return(o) => match o {
            None => {
                b.emit(Inst::ReturnVoid);
                Ok(())
            },
            Some(e) => match gen_expr(env, sc, b, e) {
                Err(m) => Err(m),
                Ok(value) => {
                    b.emit(Inst::Return { value });
                    Ok(())
                },
            },
        },
        Stmt::Break => {
            let n: usize = sc.loops.len();
            if n == 0 {
                return Err("break used outside a loop".to_owned());
            }
            b.emit(Inst::Jump { label: sc.loops[n - 1].0 });
            Ok(())
        },
        Stmt::Continue => {
            let n: usize = sc.loops.len();
            if n == 0 {
                return Err("continue used outside a loop".to_owned());
            }
            b.emit(Inst::Jump { label: sc.loops[n - 1].1 });
            Ok(())
        },
        _ => Ok(()),
    }
}

/// Compile a statement.
pub fn gen_stmt(env: &Env, sc: &mut Scope, b: &mut Builder, s: &Stmt) -> (r: Result<(), String>)
    ensures
        did(r, final(sc)@, final(b)@, stmt_code(env@, old(sc)@, old(b)@, s@)),
    decreases ssize(s@), 5int,
{
    let ghost bound = ssize(s@);
    proof {
        lemma_stmt_code(env@, sc@, b@, s@);
    }
    match s {
        Stmt::Block(stmts) => gen_block(env, sc, b, stmts, Ghost(bound)),
        Stmt::Timed { control, body } => {
            assert((**body)@ == stmt_view(**body));
            if let Err(m) = gen_timing(env, sc, b, control) {
                return Err(m);
            }
            gen_part(env, sc, b, body, Ghost(bound))
        },
        Stmt::If { cond, then_branch, else_branch } => {
            assert((**then_branch)@ == stmt_view(**then_branch));
            gen_if(env, sc, b, cond, then_branch, else_branch, Ghost(bound))
        },
        Stmt::While { cond, body } => {
            assert((**body)@ == stmt_view(**body));
            gen_while(env, sc, b, cond, body, Ghost(bound))
        },
        Stmt::DoWhile { cond, body } => {
            assert((**body)@ == stmt_view(**body));
            gen_do_while(env, sc, b, cond, body, Ghost(bound))
        },
        Stmt::Case { expr, items, default } => gen_case(
            env,
            sc,
            b,
            expr,
            items,
            default,
            Ghost(bound),
        ),
        Stmt::Foreach { collection, index, body } => {
            assert((**body)@ == stmt_view(**body));
            gen_foreach(env, sc, b, collection, index, body, Ghost(bound))
        },
        Stmt::Fork { branches, join } => match gen_branches(env, sc, branches, Ghost(bound)) {
            Err(m) => Err(m),
            Ok(done) => {
                b.emit(Inst::Fork { branches: done, join: *join });
                Ok(())
            },
        },
        _ => gen_leaf(env, sc, b, s, Ghost(bound)),
    }
}

} // verus!
