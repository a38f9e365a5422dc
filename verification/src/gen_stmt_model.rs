//! The code of a statement.
//!
//! Compiling a statement adds code and may add names: a declaration is seen by
//! what follows it.
use vstd::prelude::*;

use crate::ast::{BinOp, CollKind};
use crate::ast_model::{ExprV, LvalueV, StmtV, TimingControlV, VarDeclV};
use crate::bit::Bit;
use crate::bits::{fill, value};
use crate::const_fold::{folded_const, Made};
use crate::gen_model::{
    args_code, assign_code, cast_code, esizes, expr_code, exprs_below, format_of, formatted,
    ref_code, this_call,
};
use crate::ir::{
    built, emit, loaded, no_code, with_label, with_reg, BranchV, Code, CollOp, InstV, ValueV,
};
use crate::layout::{
    class_at, class_name_at, class_named, collection_named, collection_of, element_class,
    handle_class, named_event, opt_class, receiver, CollInfo, EnvV, ScopeV,
};
use crate::lower_expr::named;
use crate::table::{lookup, put, removed};
use crate::text::decimal;
use vstd::arithmetic::power2::pow2;

verus! {

/// Names and code after a statement, or why there are none.
pub type Ran = Made<(ScopeV, Code)>;

/// The number of nodes of a statement.
pub open spec fn ssize(s: StmtV) -> nat
    decreases s,
{
    match s {
        StmtV::Block(stmts) => 1 + ssizes(stmts),
        StmtV::Timed { control, body } => 1 + ssize(*body),
        StmtV::If { cond, then_branch, else_branch } => 1 + ssize(*then_branch) + (
        match else_branch {
            Some(els) => ssize(*els),
            None => 0,
        }),
        StmtV::While { cond, body } => 1 + ssize(*body),
        StmtV::DoWhile { cond, body } => 1 + ssize(*body),
        StmtV::Case { expr, items, default } => 1 + asizes(items) + (match default {
            Some(d) => ssize(*d),
            None => 0,
        }),
        StmtV::Foreach { collection, index, body } => 1 + ssize(*body),
        StmtV::Fork { branches, join } => 1 + ssizes(branches),
        _ => 1,
    }
}

/// The number of nodes of statements.
pub open spec fn ssizes(s: Seq<StmtV>) -> nat
    decreases s,
{
    if s.len() == 0 {
        0
    } else {
        ssize(s[0]) + ssizes(s.drop_first())
    }
}

/// The number of nodes of the items of a `case`.
pub open spec fn asizes(s: Seq<(Seq<ExprV>, StmtV)>) -> nat
    decreases s,
{
    if s.len() == 0 {
        0
    } else {
        ssize(s[0].1) + asizes(s.drop_first())
    }
}

/// A statement of a list is no larger than the list.
pub proof fn lemma_ssizes(s: Seq<StmtV>, i: int)
    requires
        0 <= i < s.len(),
    ensures
        ssize(s[i]) <= ssizes(s),
    decreases s.len(),
{
    if i > 0 {
        lemma_ssizes(s.drop_first(), i - 1);
        assert(s.drop_first()[i - 1] == s[i]);
    }
}

/// The body of an item is no larger than the items.
pub proof fn lemma_asizes(s: Seq<(Seq<ExprV>, StmtV)>, i: int)
    requires
        0 <= i < s.len(),
    ensures
        ssize(s[i].1) <= asizes(s),
    decreases s.len(),
{
    if i > 0 {
        lemma_asizes(s.drop_first(), i - 1);
        assert(s.drop_first()[i - 1] == s[i]);
    }
}

// ---- declarations -----------------------------------------------------------------

/// The collection that a declared name is: by its dimensions, or by the alias
/// that its type is.
pub open spec fn declared_collection(
    env: EnvV,
    sc: ScopeV,
    coll: Option<CollKind>,
    class_name: Option<Seq<char>>,
    type_scope: Option<Seq<char>>,
    key_class_name: Option<Seq<char>>,
) -> Option<CollInfo> {
    match coll {
        Some(kind) => Some(
            CollInfo {
                kind,
                elem_class: opt_class(env, sc, class_name),
                key_class: opt_class(env, sc, key_class_name),
            },
        ),
        None => match class_name {
            Some(name) => collection_named(env, sc, type_scope, name),
            None => None,
        },
    }
}

/// The names with a local of a class or an enumeration type.
pub open spec fn with_typed(env: EnvV, sc: ScopeV, name: Seq<char>, of: Seq<char>) -> ScopeV {
    match class_named(env, sc, of) {
        Some(cid) => ScopeV { classes: put(sc.classes, name, cid), ..sc },
        None => match lookup(env.enums, of) {
            Some(table) => ScopeV { enums: put(sc.enums, name, table), ..sc },
            None => sc,
        },
    }
}

/// The code that stores a value into a local.
pub open spec fn stored(sc: ScopeV, c: Made<(Code, u32)>, dst: u32) -> Ran {
    match c {
        Err(m) => Err(m),
        Ok((b, src)) => Ok((sc, emit(b, InstV::Assign { dst, src }))),
    }
}

/// What is said of a value without bits.
pub open spec fn no_width() -> Seq<char> {
    "LogicVec width must be >= 1"@
}

/// The code of `handle = new(args)`.
#[verifier::opaque]
pub open spec fn new_code(
    env: EnvV,
    sc: ScopeV,
    b: Code,
    name: Seq<char>,
    args: Seq<ExprV>,
) -> Made<Code> {
    match handle_class(env, sc, name) {
        None => Err("`new` assigned to non-class-handle '"@ + name + "'"@),
        Some(cid) => match constructed(env, sc, b, cid, args) {
            Err(m) => Err(m),
            Ok((b1, obj)) => assign_code(env, sc, b1, name, obj, false),
        },
    }
}

/// The code that makes an object and runs its constructor.
#[verifier::opaque]
pub open spec fn constructed(
    env: EnvV,
    sc: ScopeV,
    b: Code,
    cid: u32,
    args: Seq<ExprV>,
) -> Made<(Code, u32)> {
    let b1 = emit(with_reg(b), InstV::New { dst: b.regs, class: cid });
    let ctor = match class_at(env, cid) {
        Some(c) => c.ctor,
        None => None,
    };
    match ctor {
        None => Ok((b1, b.regs)),
        Some(func) => match this_call(
            exprs_below(env, sc, esizes(args) + 1),
            b1,
            b.regs,
            func,
            args,
        ) {
            Err(m) => Err(m),
            Ok((b2, ret)) => Ok((b2, b.regs)),
        },
    }
}

/// The code of a declaration.
#[verifier::opaque]
pub open spec fn var_code(env: EnvV, sc: ScopeV, b: Code, v: VarDeclV) -> Ran {
    let reg = b.regs;
    let b1 = with_reg(b);
    let sc1 = ScopeV { locals: put(sc.locals, v.name, (reg, v.width)), ..sc };
    let info = declared_collection(env, sc1, v.coll, v.class_name, v.type_scope, v.key_class_name);
    if v.is_event {
        let sc2 = ScopeV { events: put(sc1.events, v.name, ()), ..sc1 };
        match v.init {
            Some(e) => stored(sc2, expr_code(env, sc2, b1, e), reg),
            None => Ok((sc2, emit(b1, InstV::NewEvent { dst: reg }))),
        }
    } else if info is Some {
        let sc2 = ScopeV {
            events: removed(sc1.events, v.name),
            colls: put(sc1.colls, v.name, info->0),
            ..sc1
        };
        if (info->0).kind == CollKind::Assoc {
            Ok((sc2, emit(b1, InstV::NewAssoc { dst: reg })))
        } else {
            Ok((sc2, emit(b1, InstV::NewQueue { dst: reg })))
        }
    } else if v.class_name is Some {
        let sc2 = with_typed(env, sc1, v.name, v.class_name->0);
        match v.init {
            Some(ExprV::New { args }) => match new_code(env, sc2, b1, v.name, args) {
                Err(m) => Err(m),
                Ok(b2) => Ok((sc2, b2)),
            },
            Some(e) => stored(sc2, expr_code(env, sc2, b1, e), reg),
            None => Ok((sc2, b1)),
        }
    } else {
        match v.init {
            Some(e) => stored(sc1, expr_code(env, sc1, b1, e), reg),
            None => if v.is_string {
                stored(sc1, Ok((loaded(b1, ValueV::Str(Seq::empty())), b1.regs)), reg)
            } else if v.width == 0 {
                Err(no_width())
            } else {
                stored(
                    sc1,
                    Ok(
                        (
                            loaded(b1, ValueV::Logic(fill(Bit::Zero, v.width as nat))),
                            b1.regs,
                        ),
                    ),
                    reg,
                )
            },
        }
    }
}

// ---- assignments --------------------------------------------------------------------

/// The code that writes an assignment target.
#[verifier::opaque]
pub open spec fn lvalue_code(
    env: EnvV,
    sc: ScopeV,
    b: Code,
    lhs: LvalueV,
    src: u32,
    nonblocking: bool,
) -> Made<Code> {
    match lhs.index {
        Some(index) => match expr_code(env, sc, b, named(lhs)) {
            Err(m) => Err(m),
            Ok((b1, base)) => match expr_code(env, sc, b1, index) {
                Err(m) => Err(m),
                Ok((b2, idx)) => Ok(emit(b2, InstV::IndexSet { base, idx, src })),
            },
        },
        None => match lhs.scope {
            Some(scope) => match class_named(env, sc, scope) {
                None => Err("scoped assign on unknown class '"@ + scope + "'"@),
                Some(cid) => match (match class_at(env, cid) {
                    Some(c) => lookup(c.static_fields, lhs.name),
                    None => None,
                }) {
                    None => Err(
                        "no static field '"@ + lhs.name + "' on class '"@ + scope + "'"@,
                    ),
                    Some(id) => Ok(emit(b, InstV::StaticSet { id, src })),
                },
            },
            None => match lhs.receiver {
                Some(obj) => match expr_code(env, sc, b, *obj) {
                    Err(m) => Err(m),
                    Ok((b1, reg)) => match receiver(env, sc, *obj) {
                        Err(m) => Err(m),
                        Ok(cid) => match (match class_at(env, cid) {
                            Some(c) => lookup(c.field_slot, lhs.name),
                            None => None,
                        }) {
                            None => Err(
                                "no field '"@ + lhs.name + "' on class '"@ + class_name_at(env, cid)
                                    + "'"@,
                            ),
                            Some(slot) => Ok(
                                emit(b1, InstV::SetField { obj: reg, slot: slot.0, src }),
                            ),
                        },
                    },
                },
                None => assign_code(env, sc, b, lhs.name, src, nonblocking),
            },
        },
    }
}

/// The code of a blocking assignment.
#[verifier::opaque]
pub open spec fn blocking_code(env: EnvV, sc: ScopeV, b: Code, lhs: LvalueV, rhs: ExprV) -> Made<
    Code,
> {
    match rhs {
        ExprV::New { args } => match lhs.index {
            None => new_code(env, sc, b, lhs.name, args),
            Some(index) => match element_class(env, sc, ExprV::Ref(lhs.name)) {
                None => Err("`new` assigned to indexed non-class-handle '"@ + lhs.name + "'"@),
                Some(cid) => match constructed(env, sc, b, cid, args) {
                    Err(m) => Err(m),
                    Ok((b1, obj)) => match ref_code(env, sc, b1, lhs.name) {
                        Err(m) => Err(m),
                        Ok((b2, base)) => match expr_code(env, sc, b2, index) {
                            Err(m) => Err(m),
                            Ok((b3, idx)) => Ok(
                                emit(b3, InstV::IndexSet { base, idx, src: obj }),
                            ),
                        },
                    },
                },
            },
        },
        _ => match expr_code(env, sc, b, rhs) {
            Err(m) => Err(m),
            Ok((b1, r)) => lvalue_code(env, sc, b1, lhs, r, false),
        },
    }
}

// ---- system tasks and timing ----------------------------------------------------------

/// The code of a system task; one that is not known has none.
#[verifier::opaque]
pub open spec fn sys_call_code(
    env: EnvV,
    sc: ScopeV,
    b: Code,
    name: Seq<char>,
    args: Seq<ExprV>,
) -> Made<Code> {
    let f = exprs_below(env, sc, esizes(args) + 1);
    if name == "$display"@ || name == "$write"@ {
        match args_code(f, b, formatted(args)) {
            Err(m) => Err(m),
            Ok((b1, regs)) => Ok(emit(b1, InstV::Display { fmt: format_of(args), args: regs })),
        }
    } else if name == "$swrite"@ || name == "$sformat"@ {
        if args.len() > 0 && args[0] is Ref {
            match args_code(f, b, formatted(args.skip(1))) {
                Err(m) => Err(m),
                Ok((b1, regs)) => assign_code(
                    env,
                    sc,
                    emit(
                        with_reg(b1),
                        InstV::Format { dst: b1.regs, fmt: format_of(args.skip(1)), args: regs },
                    ),
                    args[0]->Ref_0,
                    b1.regs,
                    false,
                ),
            }
        } else {
            Ok(b)
        }
    } else if name == "$cast"@ && args.len() == 2 {
        match cast_code(f, env, sc, b, args) {
            Err(m) => Err(m),
            Ok((b1, r)) => Ok(b1),
        }
    } else {
        Ok(b)
    }
}

/// What is said of an event control of several events.
pub open spec fn several_events(n: nat) -> Seq<char> {
    "assertion `left == right` failed: multi-signal sensitivity not yet supported (needs a WaitAny opcode)\n  left: "@
        + decimal(n) + "\n right: 1"@
}

/// The net whose edge an event waits for.
pub open spec fn edge_net(env: EnvV, e: ExprV) -> Option<u32> {
    match e {
        ExprV::Ref(name) => match lookup(env.nets, name) {
            Some(n) => Some(n.0),
            None => None,
        },
        _ => None,
    }
}

/// The code of a timing control.
#[verifier::opaque]
pub open spec fn timing_code(env: EnvV, sc: ScopeV, b: Code, c: TimingControlV) -> Made<Code> {
    match c {
        TimingControlV::Delay(e) => match folded_const(e, env.consts) {
            Err(m) => Err(m),
            Ok(v) => Ok(emit(b, InstV::Delay { amount: (value(v) % pow2(64)) as u64 })),
        },
        TimingControlV::Event(evs) => if evs.len() != 1 {
            Err(several_events(evs.len()))
        } else {
            match edge_net(env, evs[0].expr) {
                Some(net) => Ok(emit(b, InstV::WaitEdge { net, edge: evs[0].edge })),
                None => match expr_code(env, sc, b, evs[0].expr) {
                    Err(m) => Err(m),
                    Ok((b1, event)) => match named_event(env, sc, evs[0].expr) {
                        Err(m) => Err(m),
                        Ok(yes) => if yes {
                            Ok(emit(b1, InstV::WaitEvent { event }))
                        } else {
                            Ok(emit(b1, InstV::WaitChange { value: event }))
                        },
                    },
                },
            }
        },
        TimingControlV::Wait(cond) => {
            let check = b.labels;
            let ready = with_label(b).labels;
            let b1 = emit(with_label(with_label(b)), InstV::Bind { label: check });
            match expr_code(env, sc, b1, cond) {
                Err(m) => Err(m),
                Ok((b2, v)) => {
                    let b3 = emit(b2, InstV::BranchTrue { cond: v, label: ready });
                    let b4 = emit(emit(b3, InstV::WaitRuntime), InstV::Jump { label: check });
                    Ok(emit(b4, InstV::Bind { label: ready }))
                },
            }
        },
    }
}

// ---- control flow ---------------------------------------------------------------------

/// The code of statements one after the other.
pub open spec fn block_code(
    g: spec_fn(ScopeV, Code, StmtV) -> Ran,
    sc: ScopeV,
    b: Code,
    stmts: Seq<StmtV>,
) -> Ran
    decreases stmts.len(),
{
    if stmts.len() == 0 {
        Ok((sc, b))
    } else {
        match block_code(g, sc, b, stmts.drop_last()) {
            Err(m) => Err(m),
            Ok((sc1, b1)) => g(sc1, b1, stmts.last()),
        }
    }
}

/// The names inside one more loop.
pub open spec fn in_loop(sc: ScopeV, done: u32, again: u32) -> ScopeV {
    ScopeV { loops: sc.loops.push((done, again)), ..sc }
}

/// The names outside the innermost loop.
pub open spec fn out_of_loop(sc: ScopeV) -> ScopeV {
    ScopeV {
        loops: if sc.loops.len() > 0 {
            sc.loops.drop_last()
        } else {
            sc.loops
        },
        ..sc
    }
}

/// The code of an `if`.
#[verifier::opaque]
pub open spec fn if_code(
    g: spec_fn(ScopeV, Code, StmtV) -> Ran,
    env: EnvV,
    sc: ScopeV,
    b: Code,
    cond: ExprV,
    then_branch: StmtV,
    else_branch: Option<Box<StmtV>>,
) -> Ran {
    match expr_code(env, sc, b, cond) {
        Err(m) => Err(m),
        Ok((b1, c)) => {
            let other = b1.labels;
            let b2 = emit(with_label(b1), InstV::BranchFalse { cond: c, label: other });
            match g(sc, b2, then_branch) {
                Err(m) => Err(m),
                Ok((sc1, b3)) => match else_branch {
                    None => Ok((sc1, emit(b3, InstV::Bind { label: other }))),
                    Some(els) => {
                        let end = b3.labels;
                        let b4 = emit(with_label(b3), InstV::Jump { label: end });
                        match g(sc1, emit(b4, InstV::Bind { label: other }), *els) {
                            Err(m) => Err(m),
                            Ok((sc2, b5)) => Ok((sc2, emit(b5, InstV::Bind { label: end }))),
                        }
                    },
                },
            }
        },
    }
}

/// The code of a `while`.
#[verifier::opaque]
pub open spec fn while_code(
    g: spec_fn(ScopeV, Code, StmtV) -> Ran,
    env: EnvV,
    sc: ScopeV,
    b: Code,
    cond: ExprV,
    body: StmtV,
) -> Ran {
    let top = b.labels;
    let done = with_label(b).labels;
    let b1 = emit(with_label(with_label(b)), InstV::Bind { label: top });
    match expr_code(env, sc, b1, cond) {
        Err(m) => Err(m),
        Ok((b2, v)) => {
            let b3 = emit(b2, InstV::BranchFalse { cond: v, label: done });
            match g(in_loop(sc, done, top), b3, body) {
                Err(m) => Err(m),
                Ok((sc1, b4)) => Ok(
                    (
                        out_of_loop(sc1),
                        emit(emit(b4, InstV::Jump { label: top }), InstV::Bind { label: done }),
                    ),
                ),
            }
        },
    }
}

/// The code of a `do ... while`.
#[verifier::opaque]
pub open spec fn do_while_code(
    g: spec_fn(ScopeV, Code, StmtV) -> Ran,
    env: EnvV,
    sc: ScopeV,
    b: Code,
    cond: ExprV,
    body: StmtV,
) -> Ran {
    let top = b.labels;
    let check = with_label(b).labels;
    let done = with_label(with_label(b)).labels;
    let b1 = emit(with_label(with_label(with_label(b))), InstV::Bind { label: top });
    match g(in_loop(sc, done, check), b1, body) {
        Err(m) => Err(m),
        Ok((sc1, b2)) => {
            let sc2 = out_of_loop(sc1);
            match expr_code(env, sc2, emit(b2, InstV::Bind { label: check }), cond) {
                Err(m) => Err(m),
                Ok((b3, v)) => Ok(
                    (
                        sc2,
                        emit(
                            emit(b3, InstV::BranchTrue { cond: v, label: top }),
                            InstV::Bind { label: done },
                        ),
                    ),
                ),
            }
        },
    }
}

/// New labels, one for each of a number.
pub open spec fn new_labels(b: Code, n: nat) -> (Code, Seq<u32>)
    decreases n,
{
    if n == 0 {
        (b, Seq::empty())
    } else {
        let (b1, labels) = new_labels(b, (n - 1) as nat);
        (with_label(b1), labels.push(b1.labels))
    }
}

/// The code that goes to a label where a selector equals one of some values.
pub open spec fn match_code(
    env: EnvV,
    sc: ScopeV,
    b: Code,
    selector: u32,
    values: Seq<ExprV>,
    label: u32,
) -> Made<Code>
    decreases values.len(),
{
    if values.len() == 0 {
        Ok(b)
    } else {
        match match_code(env, sc, b, selector, values.drop_last(), label) {
            Err(m) => Err(m),
            Ok(b1) => match expr_code(env, sc, b1, values.last()) {
                Err(m) => Err(m),
                Ok((b2, candidate)) => {
                    let b3 = emit(
                        with_reg(b2),
                        InstV::Binary {
                            op: BinOp::Eq,
                            dst: b2.regs,
                            a: selector,
                            b: candidate,
                        },
                    );
                    Ok(emit(b3, InstV::BranchTrue { cond: b2.regs, label }))
                },
            },
        }
    }
}

/// The code that goes to the label of the first item that matches.
pub open spec fn matches_code(
    env: EnvV,
    sc: ScopeV,
    b: Code,
    selector: u32,
    items: Seq<(Seq<ExprV>, StmtV)>,
    labels: Seq<u32>,
) -> Made<Code>
    decreases items.len(),
{
    if items.len() == 0 {
        Ok(b)
    } else {
        match matches_code(env, sc, b, selector, items.drop_last(), labels) {
            Err(m) => Err(m),
            Ok(b1) => match_code(
                env,
                sc,
                b1,
                selector,
                items.last().0,
                labels[items.len() - 1],
            ),
        }
    }
}

/// The code of the bodies of items, each under its label.
pub open spec fn bodies_code(
    g: spec_fn(ScopeV, Code, StmtV) -> Ran,
    sc: ScopeV,
    b: Code,
    items: Seq<(Seq<ExprV>, StmtV)>,
    labels: Seq<u32>,
    done: u32,
) -> Ran
    decreases items.len(),
{
    if items.len() == 0 {
        Ok((sc, b))
    } else {
        match bodies_code(g, sc, b, items.drop_last(), labels, done) {
            Err(m) => Err(m),
            Ok((sc1, b1)) => match g(
                sc1,
                emit(b1, InstV::Bind { label: labels[items.len() - 1] }),
                items.last().1,
            ) {
                Err(m) => Err(m),
                Ok((sc2, b2)) => Ok((sc2, emit(b2, InstV::Jump { label: done }))),
            },
        }
    }
}

/// The code of a `case`.
#[verifier::opaque]
pub open spec fn case_code(
    g: spec_fn(ScopeV, Code, StmtV) -> Ran,
    env: EnvV,
    sc: ScopeV,
    b: Code,
    expr: ExprV,
    items: Seq<(Seq<ExprV>, StmtV)>,
    default: Option<Box<StmtV>>,
) -> Ran {
    match expr_code(env, sc, b, expr) {
        Err(m) => Err(m),
        Ok((b1, selector)) => {
            let done = b1.labels;
            let (b2, labels) = new_labels(with_label(b1), items.len());
            let other = if default is Some {
                b2.labels
            } else {
                done
            };
            let b3 = if default is Some {
                with_label(b2)
            } else {
                b2
            };
            match matches_code(env, sc, b3, selector, items, labels) {
                Err(m) => Err(m),
                Ok(b4) => match bodies_code(
                    g,
                    sc,
                    emit(b4, InstV::Jump { label: other }),
                    items,
                    labels,
                    done,
                ) {
                    Err(m) => Err(m),
                    Ok((sc1, b5)) => match default {
                        None => Ok((sc1, emit(b5, InstV::Bind { label: done }))),
                        Some(body) => match g(sc1, emit(b5, InstV::Bind { label: other }), *body) {
                            Err(m) => Err(m),
                            Ok((sc2, b6)) => Ok((sc2, emit(b6, InstV::Bind { label: done }))),
                        },
                    },
                },
            }
        },
    }
}

/// The table with a name as it was before.
pub open spec fn restored<V>(s: Seq<(Seq<char>, V)>, name: Seq<char>, before: Option<V>) -> Seq<
    (Seq<char>, V),
> {
    match before {
        Some(v) => put(s, name, v),
        None => removed(s, name),
    }
}

/// The names inside a `foreach`, with its index variable.
pub open spec fn in_foreach(sc: ScopeV, index: Seq<char>, reg: u32, key: Option<u32>) -> ScopeV {
    ScopeV {
        locals: put(sc.locals, index, (reg, 32u32)),
        classes: restored(sc.classes, index, key),
        ..sc
    }
}

/// The names after a `foreach`, with its index variable as it was before.
pub open spec fn after_foreach(sc: ScopeV, before: ScopeV, index: Seq<char>) -> ScopeV {
    ScopeV {
        locals: restored(sc.locals, index, lookup(before.locals, index)),
        classes: restored(sc.classes, index, lookup(before.classes, index)),
        ..sc
    }
}

/// The code of a `foreach`.
#[verifier::opaque]
pub open spec fn foreach_code(
    g: spec_fn(ScopeV, Code, StmtV) -> Ran,
    env: EnvV,
    sc: ScopeV,
    b: Code,
    collection: ExprV,
    index: Seq<char>,
    body: StmtV,
) -> Ran {
    match collection_of(env, sc, collection) {
        None => Err("foreach receiver is not a collection"@),
        Some(info) => match expr_code(env, sc, b, collection) {
            Err(m) => Err(m),
            Ok((b0, base)) => {
                let reg = b0.regs;
                let b1 = with_reg(b0);
                let more = b1.regs;
                let b2 = emit(
                    with_reg(b1),
                    InstV::CollMethod { dst: more, base, op: CollOp::First, args: seq![reg] },
                );
                let check = b2.labels;
                let advance = with_label(b2).labels;
                let done = with_label(with_label(b2)).labels;
                let b3 = emit(
                    emit(
                        with_label(with_label(with_label(b2))),
                        InstV::Bind { label: check },
                    ),
                    InstV::BranchFalse { cond: more, label: done },
                );
                match g(
                    in_loop(in_foreach(sc, index, reg, info.key_class), done, advance),
                    b3,
                    body,
                ) {
                    Err(m) => Err(m),
                    Ok((sc1, b4)) => {
                        let b5 = emit(
                            emit(b4, InstV::Bind { label: advance }),
                            InstV::CollMethod {
                                dst: more,
                                base,
                                op: CollOp::Next,
                                args: seq![reg],
                            },
                        );
                        Ok(
                            (
                                after_foreach(out_of_loop(sc1), sc, index),
                                emit(
                                    emit(b5, InstV::Jump { label: check }),
                                    InstV::Bind { label: done },
                                ),
                            ),
                        )
                    },
                }
            },
        },
    }
}

// ---- forks ------------------------------------------------------------------------------

/// A local put in its place by register.
pub open spec fn placed(
    s: Seq<(Seq<char>, (u32, u32))>,
    e: (Seq<char>, (u32, u32)),
) -> Seq<(Seq<char>, (u32, u32))>
    decreases s.len(),
{
    if s.len() == 0 || s.last().1.0 <= e.1.0 {
        s.push(e)
    } else {
        placed(s.drop_last(), e).push(s.last())
    }
}

/// Locals in the order of their registers.
pub open spec fn by_register(s: Seq<(Seq<char>, (u32, u32))>) -> Seq<(Seq<char>, (u32, u32))>
    decreases s.len(),
{
    if s.len() == 0 {
        s
    } else {
        placed(by_register(s.drop_last()), s.last())
    }
}

/// A branch of a fork before its body: its names, its code, and which registers
/// start as copies of which registers of the parent.
pub struct Captured {
    pub locals: Seq<(Seq<char>, (u32, u32))>,
    pub code: Code,
    pub captures: Seq<(u32, u32)>,
}

/// A branch with locals of its parent: each gets a register of its own.
pub open spec fn captured(start: Captured, locals: Seq<(Seq<char>, (u32, u32))>) -> Captured
    decreases locals.len(),
{
    if locals.len() == 0 {
        start
    } else {
        let before = captured(start, locals.drop_last());
        let (name, (reg, width)) = locals.last();
        Captured {
            locals: put(before.locals, name, (before.code.regs, width)),
            code: with_reg(before.code),
            captures: before.captures.push((before.code.regs, reg)),
        }
    }
}

/// A branch of a fork before its body.
pub open spec fn branch_start(sc: ScopeV) -> Captured {
    let start = if sc.class_ctx is Some {
        Captured {
            locals: Seq::empty(),
            code: with_reg(no_code()),
            captures: seq![(no_code().regs, sc.this_reg)],
        }
    } else {
        Captured { locals: Seq::empty(), code: no_code(), captures: Seq::empty() }
    };
    captured(start, by_register(sc.locals))
}

/// The name of the program of a branch.
pub open spec fn branch_name(env: EnvV, sc: ScopeV) -> Seq<char> {
    match sc.class_ctx {
        Some(cid) => class_name_at(env, cid) + "::<fork>"@,
        None => "<fork>"@,
    }
}

/// The program of a branch of a fork. It has registers of its own.
#[verifier::opaque]
pub open spec fn branch_code(
    g: spec_fn(ScopeV, Code, StmtV) -> Ran,
    env: EnvV,
    sc: ScopeV,
    body: StmtV,
) -> Made<BranchV> {
    let start = branch_start(sc);
    let inner = ScopeV {
        this_reg: if sc.class_ctx is Some {
            no_code().regs
        } else {
            sc.this_reg
        },
        locals: start.locals,
        loops: Seq::empty(),
        ..sc
    };
    match g(inner, start.code, body) {
        Err(m) => Err(m),
        Ok((sc1, b1)) => match built(
            branch_name(env, sc),
            emit(b1, InstV::Finish),
            Seq::empty(),
        ) {
            Err(m) => Err(m),
            Ok(program) => Ok(BranchV { program, captures: start.captures }),
        },
    }
}

/// The programs of the branches of a fork.
pub open spec fn branches_code(
    g: spec_fn(ScopeV, Code, StmtV) -> Ran,
    env: EnvV,
    sc: ScopeV,
    branches: Seq<StmtV>,
) -> Made<Seq<BranchV>>
    decreases branches.len(),
{
    if branches.len() == 0 {
        Ok(Seq::empty())
    } else {
        match branches_code(g, env, sc, branches.drop_last()) {
            Err(m) => Err(m),
            Ok(done) => match branch_code(g, env, sc, branches.last()) {
                Err(m) => Err(m),
                Ok(branch) => Ok(done.push(branch)),
            },
        }
    }
}

// ---- statements -------------------------------------------------------------------------

/// Code with the names unchanged.
pub open spec fn ran(sc: ScopeV, c: Made<Code>) -> Ran {
    match c {
        Err(m) => Err(m),
        Ok(b) => Ok((sc, b)),
    }
}

/// The code of a statement, given that of its parts.
pub open spec fn stmt_with(
    g: spec_fn(ScopeV, Code, StmtV) -> Ran,
    env: EnvV,
    sc: ScopeV,
    b: Code,
    s: StmtV,
) -> Ran {
    match s {
        StmtV::Block(stmts) => block_code(g, sc, b, stmts),
        StmtV::VarDecl(v) => var_code(env, sc, b, v),
        StmtV::Timed { control, body } => match timing_code(env, sc, b, control) {
            Err(m) => Err(m),
            Ok(b1) => g(sc, b1, *body),
        },
        StmtV::Blocking { lhs, rhs } => ran(sc, blocking_code(env, sc, b, lhs, rhs)),
        StmtV::Nonblocking { lhs, rhs } => match expr_code(env, sc, b, rhs) {
            Err(m) => Err(m),
            Ok((b1, r)) => ran(sc, lvalue_code(env, sc, b1, lhs, r, true)),
        },
        StmtV::If { cond, then_branch, else_branch } => if_code(
            g,
            env,
            sc,
            b,
            cond,
            *then_branch,
            else_branch,
        ),
        StmtV::While { cond, body } => while_code(g, env, sc, b, cond, *body),
        StmtV::DoWhile { cond, body } => do_while_code(g, env, sc, b, cond, *body),
        StmtV::Case { expr, items, default } => case_code(g, env, sc, b, expr, items, default),
        StmtV::Foreach { collection, index, body } => foreach_code(
            g,
            env,
            sc,
            b,
            collection,
            index,
            *body,
        ),
        StmtV::SysCall { name, args } => ran(sc, sys_call_code(env, sc, b, name, args)),
        StmtV::Expr(e) => match expr_code(env, sc, b, e) {
            Err(m) => Err(m),
            Ok((b1, r)) => Ok((sc, b1)),
        },
        StmtV::Trigger(e) => match expr_code(env, sc, b, e) {
            Err(m) => Err(m),
            Ok((b1, event)) => Ok((sc, emit(b1, InstV::TriggerEvent { event }))),
        },
        StmtV::Return(o) => match o {
            None => Ok((sc, emit(b, InstV::ReturnVoid))),
            Some(e) => match expr_code(env, sc, b, e) {
                Err(m) => Err(m),
                Ok((b1, value)) => Ok((sc, emit(b1, InstV::Return { value }))),
            },
        },
        StmtV::Break => if sc.loops.len() == 0 {
            Err("break used outside a loop"@)
        } else {
            Ok((sc, emit(b, InstV::Jump { label: sc.loops.last().0 })))
        },
        StmtV::Continue => if sc.loops.len() == 0 {
            Err("continue used outside a loop"@)
        } else {
            Ok((sc, emit(b, InstV::Jump { label: sc.loops.last().1 })))
        },
        StmtV::Fork { branches, join } => match branches_code(g, env, sc, branches) {
            Err(m) => Err(m),
            Ok(done) => Ok((sc, emit(b, InstV::Fork { branches: done, join }))),
        },
        StmtV::Null => Ok((sc, b)),
    }
}

/// The code of a statement.
#[verifier::opaque]
pub open spec fn stmt_code(env: EnvV, sc: ScopeV, b: Code, s: StmtV) -> Ran
    decreases ssize(s), 1int,
{
    stmt_with(stmts_below(env, ssize(s)), env, sc, b, s)
}

/// The code of statements of less than a size; there is none of others.
#[verifier::opaque]
pub open spec fn stmts_below(env: EnvV, bound: nat) -> spec_fn(ScopeV, Code, StmtV) -> Ran
    decreases bound, 0int,
{
    |sc: ScopeV, b: Code, s: StmtV|
        if ssize(s) < bound {
            stmt_code(env, sc, b, s)
        } else {
            Err(Seq::empty())
        }
}

/// Compiling below a bound is compiling.
pub proof fn lemma_stmts_below(env: EnvV, bound: nat, sc: ScopeV, b: Code, s: StmtV)
    requires
        ssize(s) < bound,
    ensures
        stmts_below(env, bound)(sc, b, s) == stmt_code(env, sc, b, s),
{
    reveal(stmts_below);
    reveal(stmt_code);
}

/// A statement compiles by its own parts.
pub proof fn lemma_stmt_code(env: EnvV, sc: ScopeV, b: Code, s: StmtV)
    ensures
        stmt_code(env, sc, b, s) == stmt_with(stmts_below(env, ssize(s)), env, sc, b, s),
{
    reveal(stmts_below);
    reveal(stmt_code);
}

} // verus!
