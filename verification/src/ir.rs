//! Compiled programs: what the elaborator makes of procedural code.
//!
//! A program is a list of instructions over registers, with labels as the targets
//! of jumps. Names are resolved: an instruction names nets, fields, functions and
//! classes by number.
use vstd::prelude::*;

use crate::ast::{BinOp, Edge, ForkJoin, UnaryOp};
use crate::bit::Bit;
use crate::logic::LogicVec;

verus! {

/// A constant or an initial value.
#[derive(Debug)]
pub enum Value {
    /// The null handle.
    Null,
    Logic(LogicVec),
    Str(String),
    /// A fresh event.
    Event,
    /// A fresh empty queue.
    Queue,
    /// A fresh empty associative array.
    Assoc,
}

/// The mathematical form of a [`Value`].
pub enum ValueV {
    Null,
    Logic(Seq<Bit>),
    Str(Seq<char>),
    Event,
    Queue,
    Assoc,
}

impl View for Value {
    type V = ValueV;

    open spec fn view(&self) -> ValueV {
        match *self {
            Value::Null => ValueV::Null,
            Value::Logic(v) => ValueV::Logic(v@),
            Value::Str(s) => ValueV::Str(s@),
            Value::Event => ValueV::Event,
            Value::Queue => ValueV::Queue,
            Value::Assoc => ValueV::Assoc,
        }
    }
}

impl Value {
    /// A copy of the value.
    pub fn copy(&self) -> (r: Value)
        ensures
            r@ == self@,
    {
        match self {
            Value::Null => Value::Null,
            Value::Logic(v) => Value::Logic(v.clone()),
            Value::Str(s) => Value::Str(s.clone()),
            Value::Event => Value::Event,
            Value::Queue => Value::Queue,
            Value::Assoc => Value::Assoc,
        }
    }
}

/// How an argument is passed.
#[derive(Debug, Clone, Copy, PartialEq, Eq, Structural)]
pub enum ArgMode {
    Input,
    Output,
    Inout,
    Ref,
}

/// A built-in method of a collection.
#[derive(Debug, Clone, Copy, PartialEq, Eq, Structural)]
pub enum CollOp {
    PushBack,
    PushFront,
    PopBack,
    PopFront,
    Size,
    Insert,
    Delete,
    Exists,
    Num,
    First,
    Last,
    Next,
    Prev,
}

/// An instruction.
#[derive(Debug)]
#[allow(inconsistent_fields)]
pub enum Inst {
    /// Load a constant.
    Load { dst: u32, value: Value },
    /// Copy a register.
    Mov { dst: u32, src: u32 },
    /// A unary operator.
    Unary { op: UnaryOp, dst: u32, a: u32 },
    /// A binary operator.
    Binary { op: BinOp, dst: u32, a: u32, b: u32 },
    /// Store into a local.
    Assign { dst: u32, src: u32 },
    /// Store into a local at the end of the time step.
    NbaAssign { dst: u32, src: u32 },
    /// Read a field of an object.
    GetField { dst: u32, obj: u32, slot: u32 },
    /// Write a field of an object.
    SetField { obj: u32, slot: u32, src: u32 },
    /// Read shared storage.
    StaticGet { dst: u32, id: u32 },
    /// Write shared storage.
    StaticSet { id: u32, src: u32 },
    /// Read a net.
    NetRead { dst: u32, net: u32 },
    /// Write a net at once.
    BlockingWrite { net: u32, src: u32 },
    /// Write a net at the end of the time step.
    NbaWrite { net: u32, src: u32 },
    /// Call a function.
    Call { func: u32, args: Vec<u32>, ret: u32 },
    /// Call a method through the table of its object.
    CallVirtual { obj: u32, vslot: u32, args: Vec<u32>, ret: u32 },
    /// Call a foreign function.
    DpiCall { dst: u32, name: String, args: Vec<u32> },
    /// Call a method of a collection.
    CollMethod { dst: u32, base: u32, op: CollOp, args: Vec<u32> },
    /// Read an element.
    IndexGet { dst: u32, base: u32, idx: u32 },
    /// Write an element.
    IndexSet { base: u32, idx: u32, src: u32 },
    /// Select bits.
    PartSelect { dst: u32, base: u32, left: u32, right: u32 },
    /// Concatenate.
    Concat { dst: u32, args: Vec<u32> },
    /// A byte of a string.
    StringIndex { dst: u32, src: u32, idx: u32 },
    /// The length of a string.
    StringLen { dst: u32, src: u32 },
    /// A part of a string.
    StringSub { dst: u32, src: u32, lo: u32, hi: u32 },
    /// A string in upper case.
    StringToUpper { dst: u32, src: u32 },
    /// A string in lower case.
    StringToLower { dst: u32, src: u32 },
    /// The number that a string holds.
    StringAtoi { dst: u32, src: u32 },
    /// The name of an enumeration member.
    EnumName { dst: u32, src: u32, table: u32 },
    /// Format into a string.
    Format { dst: u32, fmt: String, args: Vec<u32> },
    /// Format and print.
    Display { fmt: String, args: Vec<u32> },
    /// The simulation time.
    SimTime { dst: u32 },
    /// Make an object.
    New { dst: u32, class: u32 },
    /// Make an event.
    NewEvent { dst: u32 },
    /// Make a queue.
    NewQueue { dst: u32 },
    /// Make an associative array.
    NewAssoc { dst: u32 },
    /// Whether an object is of a class.
    ClassCast { dst: u32, src: u32, class: u32 },
    /// Wait for an amount of time units.
    Delay { amount: u64 },
    /// Wait for an edge of a net.
    WaitEdge { net: u32, edge: Edge },
    /// Wait for an event.
    WaitEvent { event: u32 },
    /// Wait for a value to change.
    WaitChange { value: u32 },
    /// Wait for anything to change.
    WaitRuntime,
    /// Trigger an event.
    TriggerEvent { event: u32 },
    /// Start branches.
    Fork { branches: Vec<Branch>, join: ForkJoin },
    /// Return a value.
    Return { value: u32 },
    /// Return.
    ReturnVoid,
    /// End the process.
    Finish,
    /// The place of a label.
    Bind { label: u32 },
    /// Go to a label.
    Jump { label: u32 },
    /// Go to a label where a value is not true.
    BranchFalse { cond: u32, label: u32 },
    /// Go to a label where a value is true.
    BranchTrue { cond: u32, label: u32 },
    /// Go to a label where the caller gave an argument.
    BranchArgProvided { formal: u32, label: u32 },
}

/// A branch of a fork: a program of its own, and which of its registers start as
/// copies of which registers of the parent.
#[derive(Debug)]
pub struct Branch {
    pub program: Program,
    pub captures: Vec<(u32, u32)>,
}

/// A compiled program.
#[derive(Debug)]
pub struct Program {
    pub name: String,
    pub code: Vec<Inst>,
    pub arg_modes: Vec<ArgMode>,
    /// The number of registers.
    pub regs: u32,
    /// The number of labels.
    pub labels: u32,
}

/// The mathematical form of an [`Inst`].
#[allow(inconsistent_fields)]
pub enum InstV {
    Load { dst: u32, value: ValueV },
    Mov { dst: u32, src: u32 },
    Unary { op: UnaryOp, dst: u32, a: u32 },
    Binary { op: BinOp, dst: u32, a: u32, b: u32 },
    Assign { dst: u32, src: u32 },
    NbaAssign { dst: u32, src: u32 },
    GetField { dst: u32, obj: u32, slot: u32 },
    SetField { obj: u32, slot: u32, src: u32 },
    StaticGet { dst: u32, id: u32 },
    StaticSet { id: u32, src: u32 },
    NetRead { dst: u32, net: u32 },
    BlockingWrite { net: u32, src: u32 },
    NbaWrite { net: u32, src: u32 },
    Call { func: u32, args: Seq<u32>, ret: u32 },
    CallVirtual { obj: u32, vslot: u32, args: Seq<u32>, ret: u32 },
    DpiCall { dst: u32, name: Seq<char>, args: Seq<u32> },
    CollMethod { dst: u32, base: u32, op: CollOp, args: Seq<u32> },
    IndexGet { dst: u32, base: u32, idx: u32 },
    IndexSet { base: u32, idx: u32, src: u32 },
    PartSelect { dst: u32, base: u32, left: u32, right: u32 },
    Concat { dst: u32, args: Seq<u32> },
    StringIndex { dst: u32, src: u32, idx: u32 },
    StringLen { dst: u32, src: u32 },
    StringSub { dst: u32, src: u32, lo: u32, hi: u32 },
    StringToUpper { dst: u32, src: u32 },
    StringToLower { dst: u32, src: u32 },
    StringAtoi { dst: u32, src: u32 },
    EnumName { dst: u32, src: u32, table: u32 },
    Format { dst: u32, fmt: Seq<char>, args: Seq<u32> },
    Display { fmt: Seq<char>, args: Seq<u32> },
    SimTime { dst: u32 },
    New { dst: u32, class: u32 },
    NewEvent { dst: u32 },
    NewQueue { dst: u32 },
    NewAssoc { dst: u32 },
    ClassCast { dst: u32, src: u32, class: u32 },
    Delay { amount: u64 },
    WaitEdge { net: u32, edge: Edge },
    WaitEvent { event: u32 },
    WaitChange { value: u32 },
    WaitRuntime,
    TriggerEvent { event: u32 },
    Fork { branches: Seq<BranchV>, join: ForkJoin },
    Return { value: u32 },
    ReturnVoid,
    Finish,
    Bind { label: u32 },
    Jump { label: u32 },
    BranchFalse { cond: u32, label: u32 },
    BranchTrue { cond: u32, label: u32 },
    BranchArgProvided { formal: u32, label: u32 },
}

/// The mathematical form of a [`Branch`].
pub struct BranchV {
    pub program: ProgramV,
    pub captures: Seq<(u32, u32)>,
}

/// The mathematical form of a [`Program`].
pub struct ProgramV {
    pub name: Seq<char>,
    pub code: Seq<InstV>,
    pub arg_modes: Seq<ArgMode>,
    pub regs: u32,
    pub labels: u32,
}

/// The mathematical form of an instruction.
pub open spec fn inst_view(i: Inst) -> InstV
    decreases i,
{
    match i {
        Inst::Load { dst, value } => InstV::Load { dst, value: value@ },
        Inst::Mov { dst, src } => InstV::Mov { dst, src },
        Inst::Unary { op, dst, a } => InstV::Unary { op, dst, a },
        Inst::Binary { op, dst, a, b } => InstV::Binary { op, dst, a, b },
        Inst::Assign { dst, src } => InstV::Assign { dst, src },
        Inst::NbaAssign { dst, src } => InstV::NbaAssign { dst, src },
        Inst::GetField { dst, obj, slot } => InstV::GetField { dst, obj, slot },
        Inst::SetField { obj, slot, src } => InstV::SetField { obj, slot, src },
        Inst::StaticGet { dst, id } => InstV::StaticGet { dst, id },
        Inst::StaticSet { id, src } => InstV::StaticSet { id, src },
        Inst::NetRead { dst, net } => InstV::NetRead { dst, net },
        Inst::BlockingWrite { net, src } => InstV::BlockingWrite { net, src },
        Inst::NbaWrite { net, src } => InstV::NbaWrite { net, src },
        Inst::Call { func, args, ret } => InstV::Call { func, args: args@, ret },
        Inst::CallVirtual { obj, vslot, args, ret } => InstV::CallVirtual { obj, vslot, args: args@, ret },
        Inst::DpiCall { dst, name, args } => InstV::DpiCall { dst, name: name@, args: args@ },
        Inst::CollMethod { dst, base, op, args } => InstV::CollMethod { dst, base, op, args: args@ },
        Inst::IndexGet { dst, base, idx } => InstV::IndexGet { dst, base, idx },
        Inst::IndexSet { base, idx, src } => InstV::IndexSet { base, idx, src },
        Inst::PartSelect { dst, base, left, right } => InstV::PartSelect { dst, base, left, right },
        Inst::Concat { dst, args } => InstV::Concat { dst, args: args@ },
        Inst::StringIndex { dst, src, idx } => InstV::StringIndex { dst, src, idx },
        Inst::StringLen { dst, src } => InstV::StringLen { dst, src },
        Inst::StringSub { dst, src, lo, hi } => InstV::StringSub { dst, src, lo, hi },
        Inst::StringToUpper { dst, src } => InstV::StringToUpper { dst, src },
        Inst::StringToLower { dst, src } => InstV::StringToLower { dst, src },
        Inst::StringAtoi { dst, src } => InstV::StringAtoi { dst, src },
        Inst::EnumName { dst, src, table } => InstV::EnumName { dst, src, table },
        Inst::Format { dst, fmt, args } => InstV::Format { dst, fmt: fmt@, args: args@ },
        Inst::Display { fmt, args } => InstV::Display { fmt: fmt@, args: args@ },
        Inst::SimTime { dst } => InstV::SimTime { dst },
        Inst::New { dst, class } => InstV::New { dst, class },
        Inst::NewEvent { dst } => InstV::NewEvent { dst },
        Inst::NewQueue { dst } => InstV::NewQueue { dst },
        Inst::NewAssoc { dst } => InstV::NewAssoc { dst },
        Inst::ClassCast { dst, src, class } => InstV::ClassCast { dst, src, class },
        Inst::Delay { amount } => InstV::Delay { amount },
        Inst::WaitEdge { net, edge } => InstV::WaitEdge { net, edge },
        Inst::WaitEvent { event } => InstV::WaitEvent { event },
        Inst::WaitChange { value } => InstV::WaitChange { value },
        Inst::WaitRuntime => InstV::WaitRuntime,
        Inst::TriggerEvent { event } => InstV::TriggerEvent { event },
        Inst::Fork { branches, join } => InstV::Fork { branches: branches_view(branches@), join },
        Inst::Return { value } => InstV::Return { value },
        Inst::ReturnVoid => InstV::ReturnVoid,
        Inst::Finish => InstV::Finish,
        Inst::Bind { label } => InstV::Bind { label },
        Inst::Jump { label } => InstV::Jump { label },
        Inst::BranchFalse { cond, label } => InstV::BranchFalse { cond, label },
        Inst::BranchTrue { cond, label } => InstV::BranchTrue { cond, label },
        Inst::BranchArgProvided { formal, label } => InstV::BranchArgProvided { formal, label },
    }
}

/// The mathematical form of instructions.
pub open spec fn insts_view(s: Seq<Inst>) -> Seq<InstV>
    decreases s,
{
    Seq::new(
        s.len(),
        |i: int|
            if 0 <= i < s.len() {
                inst_view(s[i])
            } else {
                arbitrary()
            },
    )
}

/// The mathematical form of branches.
pub open spec fn branches_view(s: Seq<Branch>) -> Seq<BranchV>
    decreases s,
{
    Seq::new(
        s.len(),
        |i: int|
            if 0 <= i < s.len() {
                branch_view(s[i])
            } else {
                arbitrary()
            },
    )
}

/// The mathematical form of a branch.
pub open spec fn branch_view(b: Branch) -> BranchV
    decreases b,
{
    BranchV { program: program_view(b.program), captures: b.captures@ }
}

/// The mathematical form of a program.
pub open spec fn program_view(p: Program) -> ProgramV
    decreases p,
{
    ProgramV {
        name: p.name@,
        code: insts_view(p.code@),
        arg_modes: p.arg_modes@,
        regs: p.regs,
        labels: p.labels,
    }
}

impl View for Inst {
    type V = InstV;

    open spec fn view(&self) -> InstV {
        inst_view(*self)
    }
}

impl View for Program {
    type V = ProgramV;

    open spec fn view(&self) -> ProgramV {
        program_view(*self)
    }
}

impl View for Branch {
    type V = BranchV;

    open spec fn view(&self) -> BranchV {
        branch_view(*self)
    }
}

// ---- building -----------------------------------------------------------------

/// The code of a program under construction.
pub struct Code {
    pub insts: Seq<InstV>,
    pub regs: u32,
    pub labels: u32,
    /// Whether it asked for more registers or labels than there are.
    pub full: bool,
}

/// No code yet.
pub open spec fn no_code() -> Code {
    Code { insts: Seq::empty(), regs: 0, labels: 0, full: false }
}

/// The code with one more instruction.
pub open spec fn emit(b: Code, i: InstV) -> Code {
    Code { insts: b.insts.push(i), ..b }
}

/// The code with one more register.
pub open spec fn with_reg(b: Code) -> Code {
    if b.regs < u32::MAX {
        Code { regs: (b.regs + 1) as u32, ..b }
    } else {
        Code { full: true, ..b }
    }
}

/// The code with one more label.
pub open spec fn with_label(b: Code) -> Code {
    if b.labels < u32::MAX {
        Code { labels: (b.labels + 1) as u32, ..b }
    } else {
        Code { full: true, ..b }
    }
}

/// The code that loads a constant into a new register, which is `b.regs`.
pub open spec fn loaded(b: Code, value: ValueV) -> Code {
    emit(with_reg(b), InstV::Load { dst: b.regs, value })
}

/// The code that calls a function; the result is in `b.regs`.
pub open spec fn called(b: Code, func: u32, args: Seq<u32>) -> Code {
    emit(with_reg(b), InstV::Call { func, args, ret: b.regs })
}

/// The code that reads shared storage into a new register, which is `b.regs`.
pub open spec fn static_read(b: Code, id: u32) -> Code {
    emit(with_reg(b), InstV::StaticGet { dst: b.regs, id })
}

/// The program of some code, or why there is none.
pub open spec fn built(name: Seq<char>, b: Code, arg_modes: Seq<ArgMode>) -> Result<
    ProgramV,
    Seq<char>,
> {
    if b.full {
        Err("program too large"@)
    } else {
        Ok(ProgramV { name, code: b.insts, arg_modes, regs: b.regs, labels: b.labels })
    }
}

/// A program under construction.
pub struct Builder {
    pub insts: Vec<Inst>,
    pub regs: u32,
    pub labels: u32,
    pub full: bool,
}

impl View for Builder {
    type V = Code;

    open spec fn view(&self) -> Code {
        Code { insts: insts_view(self.insts@), regs: self.regs, labels: self.labels, full: self.full }
    }
}

impl Builder {
    /// No code yet.
    pub fn new() -> (r: Builder)
        ensures
            r@ == no_code(),
    {
        let r = Builder { insts: Vec::new(), regs: 0, labels: 0, full: false };
        assert(r@.insts =~= Seq::<InstV>::empty());
        r
    }

    /// Append an instruction.
    pub fn emit(&mut self, i: Inst)
        ensures
            final(self)@ == emit(old(self)@, i@),
    {
        let ghost before = self.insts@;
        self.insts.push(i);
        assert(insts_view(self.insts@) =~= insts_view(before).push(i@));
    }

    /// A new register.
    pub fn reg(&mut self) -> (r: u32)
        ensures
            r == old(self)@.regs,
            final(self)@ == with_reg(old(self)@),
    {
        let r: u32 = self.regs;
        if self.regs < u32::MAX {
            self.regs = self.regs + 1;
        } else {
            self.full = true;
        }
        r
    }

    /// A new label.
    pub fn label(&mut self) -> (r: u32)
        ensures
            r == old(self)@.labels,
            final(self)@ == with_label(old(self)@),
    {
        let r: u32 = self.labels;
        if self.labels < u32::MAX {
            self.labels = self.labels + 1;
        } else {
            self.full = true;
        }
        r
    }

    /// Load a constant into a new register.
    pub fn load(&mut self, value: Value) -> (r: u32)
        ensures
            r == old(self)@.regs,
            final(self)@ == loaded(old(self)@, value@),
    {
        let dst: u32 = self.reg();
        self.emit(Inst::Load { dst, value });
        dst
    }

    /// Call a function.
    pub fn call(&mut self, func: u32, args: Vec<u32>) -> (r: u32)
        ensures
            r == old(self)@.regs,
            final(self)@ == called(old(self)@, func, args@),
    {
        let ret: u32 = self.reg();
        self.emit(Inst::Call { func, args, ret });
        ret
    }

    /// Read shared storage into a new register.
    pub fn static_get(&mut self, id: u32) -> (r: u32)
        ensures
            r == old(self)@.regs,
            final(self)@ == static_read(old(self)@, id),
    {
        let dst: u32 = self.reg();
        self.emit(Inst::StaticGet { dst, id });
        dst
    }

    /// The program.
    pub fn build(self, name: String, arg_modes: Vec<ArgMode>) -> (r: Result<Program, String>)
        ensures
            match r {
                Ok(p) => built(name@, self@, arg_modes@) == Ok::<ProgramV, Seq<char>>(p@),
                Err(m) => built(name@, self@, arg_modes@) == Err::<ProgramV, Seq<char>>(m@),
            },
    {
        if self.full {
            return Err("program too large".to_owned());
        }
        let p = Program { name, code: self.insts, arg_modes, regs: self.regs, labels: self.labels };
        assert(p@ == program_view(p));
        Ok(p)
    }
}

} // verus!
