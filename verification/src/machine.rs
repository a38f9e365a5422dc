//! How programs run.
//!
//! A state is a position in a program, a value in each register, and a world: nets,
//! objects, shared storage, and whatever happens while a program waits. What the
//! operations do to values and to the world is left open; where a program goes, what it
//! reads and where it puts the results is not.
use vstd::prelude::*;

use crate::ast::{BinOp, Edge, ForkJoin, UnaryOp};
use crate::code_model::binds;
use crate::ir::{BranchV, CollOp, InstV, ValueV};

verus! {

/// What an instruction asks of the world.
pub enum Act {
    Constant(ValueV),
    Unary(UnaryOp),
    Binary(BinOp),
    GetField(u32),
    SetField(u32),
    StaticGet(u32),
    StaticSet(u32),
    NetRead(u32),
    NetWrite(u32),
    NetWriteLater(u32),
    LocalWriteLater(u32),
    Call(u32),
    /// A call through the table of the object that is the first value.
    CallVirtual(u32),
    CallForeign(Seq<char>),
    Collection(CollOp),
    IndexGet,
    IndexSet,
    PartSelect,
    Concat,
    StringIndex,
    StringLen,
    StringSub,
    StringToUpper,
    StringToLower,
    StringAtoi,
    EnumName(u32),
    Format(Seq<char>),
    Display(Seq<char>),
    SimTime,
    New(u32),
    NewEvent,
    NewQueue,
    NewAssoc,
    ClassCast(u32),
    Delay(u64),
    WaitEdge(u32, Edge),
    WaitEvent,
    WaitChange,
    WaitRuntime,
    TriggerEvent,
    Fork(Seq<BranchV>, ForkJoin),
}

/// Whether an operation leaves the world as it is.
pub open spec fn only_reads(a: Act) -> bool {
    match a {
        Act::Constant(_) => true,
        Act::Unary(_) => true,
        Act::Binary(_) => true,
        Act::GetField(_) => true,
        Act::StaticGet(_) => true,
        Act::NetRead(_) => true,
        Act::IndexGet => true,
        Act::PartSelect => true,
        Act::Concat => true,
        Act::StringIndex => true,
        Act::StringLen => true,
        Act::StringSub => true,
        Act::StringToUpper => true,
        Act::StringToLower => true,
        Act::StringAtoi => true,
        Act::EnumName(_) => true,
        Act::Format(_) => true,
        Act::SimTime => true,
        Act::ClassCast(_) => true,
        _ => false,
    }
}

/// What the operations do.
#[verifier::reject_recursive_types(V)]
#[verifier::reject_recursive_types(W)]
pub struct Meaning<V, W> {
    /// The world after an operation on some values, and its result.
    pub act: spec_fn(W, Act, Seq<V>) -> (W, V),
    /// Whether a value counts as true.
    pub truth: spec_fn(V) -> bool,
    /// The key that a walk through a collection goes on to.
    pub key: spec_fn(W, CollOp, Seq<V>) -> V,
    /// Whether the caller gave the argument for the formal in a register.
    pub given: spec_fn(u32) -> bool,
}

/// How a program ended.
pub enum Ending<V> {
    Value(V),
    Void,
    Finished,
}

/// A state of a program.
#[verifier::reject_recursive_types(V)]
pub struct State<V, W> {
    pub pc: int,
    pub regs: spec_fn(u32) -> V,
    pub world: W,
    pub end: Option<Ending<V>>,
}

/// The world after an operation, and its result.
pub open spec fn done<V, W>(m: Meaning<V, W>, w: W, a: Act, vs: Seq<V>) -> (W, V) {
    if only_reads(a) {
        (w, (m.act)(w, a, vs).1)
    } else {
        (m.act)(w, a, vs)
    }
}

/// The parent's registers that the branches of a fork start with.
pub open spec fn captured_regs(branches: Seq<BranchV>) -> Seq<u32>
    decreases branches.len(),
{
    if branches.len() == 0 {
        Seq::empty()
    } else {
        captured_regs(branches.drop_last()) + branches.last().captures.map_values(
            |c: (u32, u32)| c.1,
        )
    }
}

/// An operation, the registers that it reads, and the one that takes its result.
pub struct Task {
    pub act: Act,
    pub reads: Seq<u32>,
    pub writes: Option<u32>,
}

/// The operation that an instruction is, unless it only copies or only says where to
/// go on.
pub open spec fn task(i: InstV) -> Option<Task> {
    match i {
        InstV::Load { dst, value } => Some(
            Task { act: Act::Constant(value), reads: seq![], writes: Some(dst) },
        ),
        InstV::Unary { op, dst, a } => Some(
            Task { act: Act::Unary(op), reads: seq![a], writes: Some(dst) },
        ),
        InstV::Binary { op, dst, a, b } => Some(
            Task { act: Act::Binary(op), reads: seq![a, b], writes: Some(dst) },
        ),
        InstV::NbaAssign { dst, src } => Some(
            Task { act: Act::LocalWriteLater(dst), reads: seq![src], writes: None },
        ),
        InstV::GetField { dst, obj, slot } => Some(
            Task { act: Act::GetField(slot), reads: seq![obj], writes: Some(dst) },
        ),
        InstV::SetField { obj, slot, src } => Some(
            Task { act: Act::SetField(slot), reads: seq![obj, src], writes: None },
        ),
        InstV::StaticGet { dst, id } => Some(
            Task { act: Act::StaticGet(id), reads: seq![], writes: Some(dst) },
        ),
        InstV::StaticSet { id, src } => Some(
            Task { act: Act::StaticSet(id), reads: seq![src], writes: None },
        ),
        InstV::NetRead { dst, net } => Some(
            Task { act: Act::NetRead(net), reads: seq![], writes: Some(dst) },
        ),
        InstV::BlockingWrite { net, src } => Some(
            Task { act: Act::NetWrite(net), reads: seq![src], writes: None },
        ),
        InstV::NbaWrite { net, src } => Some(
            Task { act: Act::NetWriteLater(net), reads: seq![src], writes: None },
        ),
        InstV::Call { func, args, ret } => Some(
            Task { act: Act::Call(func), reads: args, writes: Some(ret) },
        ),
        InstV::CallVirtual { obj, vslot, args, ret } => Some(
            Task { act: Act::CallVirtual(vslot), reads: seq![obj] + args, writes: Some(ret) },
        ),
        InstV::DpiCall { dst, name, args } => Some(
            Task { act: Act::CallForeign(name), reads: args, writes: Some(dst) },
        ),
        InstV::CollMethod { dst, base, op, args } => Some(
            Task { act: Act::Collection(op), reads: seq![base] + args, writes: Some(dst) },
        ),
        InstV::IndexGet { dst, base, idx } => Some(
            Task { act: Act::IndexGet, reads: seq![base, idx], writes: Some(dst) },
        ),
        InstV::IndexSet { base, idx, src } => Some(
            Task { act: Act::IndexSet, reads: seq![base, idx, src], writes: None },
        ),
        InstV::PartSelect { dst, base, left, right } => Some(
            Task { act: Act::PartSelect, reads: seq![base, left, right], writes: Some(dst) },
        ),
        InstV::Concat { dst, args } => Some(
            Task { act: Act::Concat, reads: args, writes: Some(dst) },
        ),
        InstV::StringIndex { dst, src, idx } => Some(
            Task { act: Act::StringIndex, reads: seq![src, idx], writes: Some(dst) },
        ),
        InstV::StringLen { dst, src } => Some(
            Task { act: Act::StringLen, reads: seq![src], writes: Some(dst) },
        ),
        InstV::StringSub { dst, src, lo, hi } => Some(
            Task { act: Act::StringSub, reads: seq![src, lo, hi], writes: Some(dst) },
        ),
        InstV::StringToUpper { dst, src } => Some(
            Task { act: Act::StringToUpper, reads: seq![src], writes: Some(dst) },
        ),
        InstV::StringToLower { dst, src } => Some(
            Task { act: Act::StringToLower, reads: seq![src], writes: Some(dst) },
        ),
        InstV::StringAtoi { dst, src } => Some(
            Task { act: Act::StringAtoi, reads: seq![src], writes: Some(dst) },
        ),
        InstV::EnumName { dst, src, table } => Some(
            Task { act: Act::EnumName(table), reads: seq![src], writes: Some(dst) },
        ),
        InstV::Format { dst, fmt, args } => Some(
            Task { act: Act::Format(fmt), reads: args, writes: Some(dst) },
        ),
        InstV::Display { fmt, args } => Some(
            Task { act: Act::Display(fmt), reads: args, writes: None },
        ),
        InstV::SimTime { dst } => Some(
            Task { act: Act::SimTime, reads: seq![], writes: Some(dst) },
        ),
        InstV::New { dst, class } => Some(
            Task { act: Act::New(class), reads: seq![], writes: Some(dst) },
        ),
        InstV::NewEvent { dst } => Some(
            Task { act: Act::NewEvent, reads: seq![], writes: Some(dst) },
        ),
        InstV::NewQueue { dst } => Some(
            Task { act: Act::NewQueue, reads: seq![], writes: Some(dst) },
        ),
        InstV::NewAssoc { dst } => Some(
            Task { act: Act::NewAssoc, reads: seq![], writes: Some(dst) },
        ),
        InstV::ClassCast { dst, src, class } => Some(
            Task { act: Act::ClassCast(class), reads: seq![src], writes: Some(dst) },
        ),
        InstV::Delay { amount } => Some(
            Task { act: Act::Delay(amount), reads: seq![], writes: None },
        ),
        InstV::WaitEdge { net, edge } => Some(
            Task { act: Act::WaitEdge(net, edge), reads: seq![], writes: None },
        ),
        InstV::WaitEvent { event } => Some(
            Task { act: Act::WaitEvent, reads: seq![event], writes: None },
        ),
        InstV::WaitChange { value } => Some(
            Task { act: Act::WaitChange, reads: seq![value], writes: None },
        ),
        InstV::WaitRuntime => Some(
            Task { act: Act::WaitRuntime, reads: seq![], writes: None },
        ),
        InstV::TriggerEvent { event } => Some(
            Task { act: Act::TriggerEvent, reads: seq![event], writes: None },
        ),
        InstV::Fork { branches, join } => Some(
            Task {
                act: Act::Fork(branches, join),
                reads: captured_regs(branches),
                writes: None,
            },
        ),
        _ => None,
    }
}

/// Whether a method of a collection moves the key that is its argument.
pub open spec fn moves_key(op: CollOp) -> bool {
    op == CollOp::First || op == CollOp::Last || op == CollOp::Next || op == CollOp::Prev
}

/// The values in some registers.
pub open spec fn values<V>(regs: spec_fn(u32) -> V, s: Seq<u32>) -> Seq<V> {
    s.map_values(regs)
}

/// Registers with one changed.
pub open spec fn put_reg<V>(regs: spec_fn(u32) -> V, r: u32, v: V) -> spec_fn(u32) -> V {
    |x: u32|
        if x == r {
            v
        } else {
            regs(x)
        }
}

/// The registers behind a walk through a collection, which moves its key.
pub open spec fn put_key<V, W>(
    m: Meaning<V, W>,
    w: W,
    regs: spec_fn(u32) -> V,
    i: InstV,
) -> spec_fn(u32) -> V {
    match i {
        InstV::CollMethod { dst, base, op, args } => if moves_key(op) && args.len() > 0 {
            put_reg(regs, args[0], (m.key)(w, op, values(regs, seq![base] + args)))
        } else {
            regs
        },
        _ => regs,
    }
}

/// Where a label is bound; behind the program if it is not.
pub open spec fn place(p: Seq<InstV>, l: u32) -> int
    decreases p.len(),
{
    if p.len() == 0 {
        0
    } else if p[0] == (InstV::Bind { label: l }) {
        0
    } else {
        1 + place(p.drop_first(), l)
    }
}

/// A state at another position.
pub open spec fn at<V, W>(s: State<V, W>, pc: int) -> State<V, W> {
    State { pc, ..s }
}

/// One step of a program. Behind its end a program stays.
pub open spec fn step<V, W>(m: Meaning<V, W>, p: Seq<InstV>, s: State<V, W>) -> State<V, W> {
    if s.end is Some || s.pc < 0 || s.pc >= p.len() {
        s
    } else {
        match p[s.pc] {
            InstV::Bind { label } => at(s, s.pc + 1),
            InstV::Jump { label } => at(s, place(p, label)),
            InstV::BranchFalse { cond, label } => if (m.truth)((s.regs)(cond)) {
                at(s, s.pc + 1)
            } else {
                at(s, place(p, label))
            },
            InstV::BranchTrue { cond, label } => if (m.truth)((s.regs)(cond)) {
                at(s, place(p, label))
            } else {
                at(s, s.pc + 1)
            },
            InstV::BranchArgProvided { formal, label } => if (m.given)(formal) {
                at(s, place(p, label))
            } else {
                at(s, s.pc + 1)
            },
            InstV::Mov { dst, src } => State {
                pc: s.pc + 1,
                regs: put_reg(s.regs, dst, (s.regs)(src)),
                ..s
            },
            InstV::Assign { dst, src } => State {
                pc: s.pc + 1,
                regs: put_reg(s.regs, dst, (s.regs)(src)),
                ..s
            },
            InstV::Return { value } => State { end: Some(Ending::Value((s.regs)(value))), ..s },
            InstV::ReturnVoid => State { end: Some(Ending::Void), ..s },
            InstV::Finish => State { end: Some(Ending::Finished), ..s },
            i => match task(i) {
                Some(t) => {
                    let (w, v) = done(m, s.world, t.act, values(s.regs, t.reads));
                    let regs = put_key(m, s.world, s.regs, i);
                    State {
                        pc: s.pc + 1,
                        regs: match t.writes {
                            Some(r) => put_reg(regs, r, v),
                            None => regs,
                        },
                        world: w,
                        ..s
                    }
                },
                None => s,
            },
        }
    }
}

/// Some steps of a program.
pub open spec fn run<V, W>(m: Meaning<V, W>, p: Seq<InstV>, s: State<V, W>, n: nat) -> State<V, W>
    decreases n,
{
    if n == 0 {
        s
    } else {
        run(m, p, step(m, p, s), (n - 1) as nat)
    }
}

/// Whether a program comes from one state to another.
pub open spec fn reaches<V, W>(
    m: Meaning<V, W>,
    p: Seq<InstV>,
    s: State<V, W>,
    t: State<V, W>,
) -> bool {
    exists|n: nat| #[trigger] run(m, p, s, n) == t
}

/// Whether a program goes on at a position, with registers and world as they are.
pub open spec fn goes_to<V, W>(
    m: Meaning<V, W>,
    p: Seq<InstV>,
    s: State<V, W>,
    pc: int,
) -> bool {
    reaches(m, p, s, at(s, pc))
}

/// Whether a program goes on at a position, with registers and world as they are, and on
/// the way runs nothing from one position up to another.
pub open spec fn goes_past<V, W>(
    m: Meaning<V, W>,
    p: Seq<InstV>,
    s: State<V, W>,
    pc: int,
    low: int,
    high: int,
) -> bool {
    exists|n: nat| #[trigger]
        run(m, p, s, n) == at(s, pc) && forall|k: nat|
            k < n ==> !(low <= (#[trigger] run(m, p, s, k)).pc < high)
}

/// A program goes on without a step.
pub proof fn lemma_past_none<V, W>(
    m: Meaning<V, W>,
    p: Seq<InstV>,
    s: State<V, W>,
    low: int,
    high: int,
)
    ensures
        goes_past(m, p, s, s.pc, low, high),
{
    assert(run(m, p, s, 0) == at(s, s.pc));
}

/// A program goes on by one step.
pub proof fn lemma_past_one<V, W>(
    m: Meaning<V, W>,
    p: Seq<InstV>,
    s: State<V, W>,
    low: int,
    high: int,
)
    requires
        step(m, p, s) == at(s, step(m, p, s).pc),
        !(low <= s.pc < high),
    ensures
        goes_past(m, p, s, step(m, p, s).pc, low, high),
{
    let t = step(m, p, s);
    assert(run(m, p, t, 0) == t);
    assert(run(m, p, s, 1) == t);
    assert forall|k: nat| k < 1 implies !(low <= (#[trigger] run(m, p, s, k)).pc < high) by {
        assert(run(m, p, s, 0) == s);
    }
}

/// A program goes on by two steps.
pub proof fn lemma_past_two<V, W>(
    m: Meaning<V, W>,
    p: Seq<InstV>,
    s: State<V, W>,
    low: int,
    high: int,
)
    requires
        ({
            let t = step(m, p, s);
            let u = step(m, p, t);
            &&& u == at(s, u.pc)
            &&& !(low <= s.pc < high)
            &&& !(low <= t.pc < high)
        }),
    ensures
        goes_past(m, p, s, step(m, p, step(m, p, s)).pc, low, high),
{
    let t = step(m, p, s);
    let u = step(m, p, t);
    assert(run(m, p, u, 0) == u);
    assert(run(m, p, t, 1) == u);
    assert(run(m, p, s, 2) == u);
    assert forall|k: nat| k < 2 implies !(low <= (#[trigger] run(m, p, s, k)).pc < high) by {
        assert(run(m, p, s, 0) == s);
        assert(run(m, p, t, 0) == t);
        assert(run(m, p, s, 1) == t);
    }
}

/// What a program goes on to past something, it goes on to.
pub proof fn lemma_past_to<V, W>(
    m: Meaning<V, W>,
    p: Seq<InstV>,
    s: State<V, W>,
    pc: int,
    low: int,
    high: int,
)
    requires
        goes_past(m, p, s, pc, low, high),
    ensures
        goes_to(m, p, s, pc),
{
    let n = choose|n: nat| #[trigger]
        run(m, p, s, n) == at(s, pc) && forall|k: nat|
            k < n ==> !(low <= (#[trigger] run(m, p, s, k)).pc < high);
    assert(run(m, p, s, n) == at(s, pc));
}

/// A program is where it is.
pub proof fn lemma_stays<V, W>(m: Meaning<V, W>, p: Seq<InstV>, s: State<V, W>)
    ensures
        reaches(m, p, s, s),
{
    assert(run(m, p, s, 0) == s);
}

/// A program takes a step.
pub proof fn lemma_step<V, W>(m: Meaning<V, W>, p: Seq<InstV>, s: State<V, W>)
    ensures
        reaches(m, p, s, step(m, p, s)),
{
    assert(run(m, p, step(m, p, s), 0) == step(m, p, s));
    assert(run(m, p, s, 1) == step(m, p, s));
}

proof fn lemma_run<V, W>(m: Meaning<V, W>, p: Seq<InstV>, s: State<V, W>, a: nat, b: nat)
    ensures
        run(m, p, s, a + b) == run(m, p, run(m, p, s, a), b),
    decreases a,
{
    if a > 0 {
        lemma_run(m, p, step(m, p, s), (a - 1) as nat, b);
    }
}

/// What a program comes to from where it comes to, it comes to.
pub proof fn lemma_on<V, W>(
    m: Meaning<V, W>,
    p: Seq<InstV>,
    s: State<V, W>,
    t: State<V, W>,
    u: State<V, W>,
)
    requires
        reaches(m, p, s, t),
        reaches(m, p, t, u),
    ensures
        reaches(m, p, s, u),
{
    let a = choose|n: nat| #[trigger] run(m, p, s, n) == t;
    let b = choose|n: nat| #[trigger] run(m, p, t, n) == u;
    lemma_run(m, p, s, a, b);
    assert(run(m, p, s, a + b) == u);
}

proof fn lemma_binds_first(p: Seq<InstV>, l: u32)
    requires
        p.len() > 0,
    ensures
        binds(p, l) == binds(p.drop_first(), l) + (if p[0] == (InstV::Bind { label: l }) {
            1nat
        } else {
            0nat
        }),
    decreases p.len(),
{
    if p.len() == 1 {
        assert(p.drop_last() =~= Seq::empty());
        assert(p.drop_first() =~= Seq::empty());
        assert(binds(p.drop_last(), l) == 0);
    } else {
        lemma_binds_first(p.drop_last(), l);
        assert(p.drop_last().drop_first() =~= p.drop_first().drop_last());
    }
}

/// A label that is bound once is where it is bound.
pub proof fn lemma_place(p: Seq<InstV>, l: u32, i: int)
    requires
        binds(p, l) <= 1,
        0 <= i < p.len(),
        p[i] == (InstV::Bind { label: l }),
    ensures
        place(p, l) == i,
        binds(p, l) == 1,
    decreases p.len(),
{
    lemma_binds_first(p, l);
    if i > 0 {
        assert(p.drop_first()[i - 1] == p[i]);
        lemma_place(p.drop_first(), l, i - 1);
    }
}

} // verus!
