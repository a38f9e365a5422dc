//! The syntax tree.
//!
//! The front end builds it; the elaborator checks, specializes and compiles it.
//! The view of a node is its mathematical form in [`ast_model`](crate::ast_model).
use vstd::prelude::*;

use crate::ast_model::{
    AlwaysBlockV, ClassDeclV, CollectionAliasV, ContinuousDelayV, EventExprV, ExprV, FuncDeclV,
    ItemV, LvalueV, ModuleInstanceV, ModuleItemV, ModuleParameterV, ModuleV, NetDeclV,
    PackageV, ParamDeclV, ParamV, ParameterOverrideV, PortConnectionV, PortV, SourceFileV,
    StmtV, TimingControlV, TypeAliasV, TypeRefV, VarDeclV,
};
use crate::bit::Bit;
use crate::logic::LogicVec;

verus! {

/// A parsed source unit: the top-level descriptions in one or more files.
#[derive(Debug)]
pub struct SourceFile {
    pub items: Vec<Item>,
}

/// A top-level description.
#[derive(Debug)]
pub enum Item {
    Module(Module),
    Package(Package),
    /// A class declared at compilation-unit scope (outside any package/module).
    Class(Box<ClassDecl>),
    /// A function/task declared at compilation-unit scope.
    Func(Box<FuncDecl>),
}

/// A `package ... endpackage` (its items reuse [`ModuleItem`]: classes,
/// functions, typedefs, params).
#[derive(Debug)]
pub struct Package {
    pub name: String,
    pub items: Vec<ModuleItem>,
}

/// A `module ... endmodule`.
#[derive(Debug)]
pub struct Module {
    pub name: String,
    pub parameters: Vec<ModuleParameter>,
    pub ports: Vec<Port>,
    pub items: Vec<ModuleItem>,
}

/// An integral value parameter declared in a module header.
#[derive(Debug)]
pub struct ModuleParameter {
    pub name: String,
    pub width: u32,
    pub signed: bool,
    pub default: Expr,
}

/// A module port.
#[derive(Debug)]
pub struct Port {
    pub name: String,
    pub dir: PortDir,
    pub width: u32,
    pub signed: bool,
    pub is_net: bool,
}

/// Port direction.
#[derive(Debug, Clone, Copy, PartialEq, Eq, Structural)]
pub enum PortDir {
    Input,
    Output,
    Inout,
    Ref,
}

/// Delay values attached to a continuous assignment or net declaration.
#[derive(Debug)]
pub enum ContinuousDelay {
    Single(Expr),
    RiseFall {
        rise: Expr,
        fall: Expr,
    },
    RiseFallTurnOff {
        rise: Expr,
        fall: Expr,
        turn_off: Expr,
    },
}

/// One explicit drive-strength level in a continuous assignment.
#[derive(Debug, Clone, Copy, PartialEq, Eq, Structural)]
pub enum StrengthLevel {
    HighZ,
    Weak,
    Pull,
    Strong,
    Supply,
}

/// Separate strengths used when a continuous driver produces 0 or 1.
#[derive(Debug, Clone, Copy, PartialEq, Eq, Structural)]
pub struct DriveStrengthSpec {
    pub zero: StrengthLevel,
    pub one: StrengthLevel,
}

/// An item inside a module body.
#[derive(Debug)]
pub enum ModuleItem {
    Var(VarDecl),
    Net(NetDecl),
    Instance(ModuleInstance),
    ContinuousAssign {
        lhs: Lvalue,
        rhs: Expr,
        delay: Option<ContinuousDelay>,
        strength: Option<DriveStrengthSpec>,
    },
    Always(AlwaysBlock),
    Initial(Stmt),
    Func(FuncDecl),
    Class(Box<ClassDecl>),
    /// A named enum member, lowered to a compile-time constant
    /// (`enum {UVM_LOW, ...}` -> `UVM_LOW = 0`, ...).
    EnumConst {
        name: String,
        value: LogicVec,
    },
    /// A named enum type and its members, for `.name()` resolution.
    /// (`typedef enum {UVM_INFO, ...} uvm_severity;`).
    EnumType {
        name: String,
        members: Vec<(String, LogicVec)>,
    },
    /// A package/module-scope `typedef <Type>[#(...)] <alias>;`.
    TypeAlias(TypeAlias),
}

/// A module net declaration (`wire [W-1:0] name;`).
#[derive(Debug)]
pub struct NetDecl {
    pub name: String,
    pub width: u32,
    pub signed: bool,
    pub kind: NetKind,
    pub delay: Option<ContinuousDelay>,
}

/// Resolution function selected by a built-in net type.
#[derive(Debug, Clone, Copy, PartialEq, Eq, Structural)]
pub enum NetKind {
    /// `wire` or `tri`: strongest/equal-strength logic resolution.
    Wire,
    /// `wand` or `triand`: wired-AND resolution.
    Wand,
    /// `wor` or `trior`: wired-OR resolution.
    Wor,
    /// `tri0`: ordinary resolution with an implicit pull-strength 0 driver.
    Tri0,
    /// `tri1`: ordinary resolution with an implicit pull-strength 1 driver.
    Tri1,
    /// `supply0`: ordinary resolution with an implicit supply-strength 0 driver.
    Supply0,
    /// `supply1`: ordinary resolution with an implicit supply-strength 1 driver.
    Supply1,
}

/// One instance in a module-instantiation declaration.
#[derive(Debug)]
pub struct ModuleInstance {
    pub module_name: String,
    pub name: String,
    pub parameters: Vec<ParameterOverride>,
    pub connections: Vec<PortConnection>,
}

/// A named (`.PARAM(expr)`) or positional module-parameter override.
#[derive(Debug)]
pub struct ParameterOverride {
    /// `None` for positional overrides.
    pub parameter: Option<String>,
    pub value: Expr,
}

/// A named (`.port(expr)`) or positional module-port connection.
#[derive(Debug)]
pub struct PortConnection {
    /// `None` for positional connections.
    pub port: Option<String>,
    pub expr: Expr,
}

/// A (possibly parameterized) type reference, e.g. `int`, `uvm_root`, or
/// `uvm_pool#(string, my_obj)`. Used to carry `#(...)` actual arguments for
/// monomorphization. A value argument (a number/identifier) is stored as a
/// name with no `args`.
#[derive(Debug, PartialEq, Eq, Hash)]
pub struct TypeRef {
    pub name: String,
    pub args: Vec<TypeRef>,
}

/// A variable / net declaration (`logic [W-1:0] name = init;`).
#[derive(Debug)]
pub struct VarDecl {
    pub name: String,
    pub width: u32,
    pub signed: bool,
    /// `Some(class)` if this is a class handle (a reference, not a bit-vector).
    /// For a collection, this is the *element* class (if the elements are
    /// class handles).
    pub class_name: Option<String>,
    /// Qualifying scope of a user type, e.g. `uvm_phase` in
    /// `uvm_phase::edges_t`. Kept separately so class names stay normalized.
    pub type_scope: Option<String>,
    /// Actual `#(...)` type arguments of a parameterized type, e.g. the
    /// `string, my_obj` in `uvm_pool#(string, my_obj) p;`.
    pub type_args: Vec<TypeRef>,
    /// True for a `string`-typed variable.
    pub is_string: bool,
    /// True for an IEEE named `event` variable.
    pub is_event: bool,
    /// `Some(kind)` if this is a queue / dynamic array / associative array.
    pub coll: Option<CollKind>,
    /// Class type used as an associative-array key, if any (`value[Key]`).
    pub key_class_name: Option<String>,
    /// True for a `static` class field (one shared storage, not per-instance).
    pub is_static: bool,
    pub init: Option<Expr>,
}

/// The flavor of an unpacked collection declaration.
#[derive(Debug, Clone, Copy, PartialEq, Eq, Structural)]
pub enum CollKind {
    /// `[$]` queue, `[]` dynamic array, or `[N]` fixed array (all list-backed).
    Queue,
    /// `[key_type]` associative array.
    Assoc,
}

/// A `class ... endclass` declaration.
#[derive(Debug)]
pub struct ClassDecl {
    pub name: String,
    pub base: Option<String>,
    pub fields: Vec<VarDecl>,
    pub methods: Vec<FuncDecl>,
    pub constructor: Option<FuncDecl>,
    /// Class-scoped `typedef <Class> <alias>;` aliases (notably the factory
    /// `type_id`). The target carries any `#(...)` args for monomorphization.
    pub type_aliases: Vec<TypeAlias>,
    /// Class-scoped aliases for unpacked collection types.
    pub collection_aliases: Vec<CollectionAlias>,
    /// Formal parameters of a parameterized class `class C #(type T=int, ...)`.
    pub params: Vec<ParamDecl>,
    /// Actual `#(...)` arguments on the `extends Base#(args)` clause.
    pub base_args: Vec<TypeRef>,
    /// Class-scoped named constants (`localparam`/`parameter`), gathered into
    /// the global constant table.
    pub consts: Vec<(String, LogicVec)>,
    /// True for a synthetic class generated from `typedef struct {...} Name;`
    /// (an unpacked struct modeled as a no-method, no-constructor class: its
    /// instances get auto-constructed sub-objects for struct-typed fields at
    /// `new`, rather than needing an explicit `= new()` from user code).
    pub is_struct: bool,
}

/// A class-scoped typedef `typedef <target> <alias>;`.
#[derive(Debug)]
pub struct TypeAlias {
    pub alias: String,
    pub target: TypeRef,
}

/// A class-scoped unpacked collection typedef such as
/// `typedef bit edges_t[uvm_phase];`.
#[derive(Debug)]
pub struct CollectionAlias {
    pub alias: String,
    pub kind: CollKind,
    /// Class-handle element type, if the collection stores handles.
    pub element: Option<TypeRef>,
    /// Class-handle associative key type, if any.
    pub key: Option<TypeRef>,
}

/// A formal parameter of a parameterized class.
#[derive(Debug)]
pub struct ParamDecl {
    pub name: String,
    /// True for a `type` parameter, false for a value parameter.
    pub is_type: bool,
    /// Default type name (type param) or value text (value param), if declared.
    pub default: Option<String>,
}

/// A `function`/`task` declaration. (Tasks set `is_void` and may contain
/// timing controls; functions return a value of width `ret_width`.)
#[derive(Debug)]
pub struct FuncDecl {
    pub name: String,
    pub ret_width: u32,
    /// `Some(class)` if the function returns a class handle.
    pub ret_class: Option<String>,
    /// `Some(class)` for an out-of-body definition `Class::method`.
    pub class_scope: Option<String>,
    /// Foreign symbol for an imported DPI-C callable.
    pub dpi_name: Option<String>,
    pub is_void: bool,
    pub is_virtual: bool,
    pub params: Vec<Param>,
    pub body: Stmt,
}

/// A function/task formal parameter.
#[derive(Debug)]
pub struct Param {
    pub name: String,
    pub dir: PortDir,
    pub width: u32,
    /// `Some(class)` if the parameter is a class handle.
    pub class_name: Option<String>,
    /// Qualifying scope of a user type, if explicitly scoped.
    pub type_scope: Option<String>,
    /// Type arguments of a parameterized parameter type (e.g. `#(uvm_callback)`
    /// in `uvm_queue #(uvm_callback) q`). Consumed by mono; empty after that.
    pub type_args: Vec<TypeRef>,
    /// Queue/dynamic/associative-array flavor for an unpacked formal.
    pub coll: Option<CollKind>,
    /// Class type used as an associative-array key, if any.
    pub key_class_name: Option<String>,
    /// Expression evaluated when the caller omits this argument.
    pub default: Option<Expr>,
}

/// Which flavor of `always` block.
#[derive(Debug, Clone, Copy, PartialEq, Eq, Structural)]
pub enum AlwaysKind {
    /// `always`
    Plain,
    /// `always_comb`
    Comb,
    /// `always_ff`
    Ff,
    /// `always_latch`
    Latch,
}

/// An `always*` block.
#[derive(Debug)]
pub struct AlwaysBlock {
    pub kind: AlwaysKind,
    pub body: Stmt,
}

/// A procedural statement.
#[derive(Debug)]
pub enum Stmt {
    /// `begin ... end`
    Block(Vec<Stmt>),
    /// A local variable declaration inside a procedural block.
    VarDecl(VarDecl),
    /// A timing control prefixing a statement: `@(...) stmt`, `#d stmt`,
    /// `wait(c) stmt`.
    Timed {
        control: TimingControl,
        body: Box<Stmt>,
    },
    /// Blocking assignment `lhs = rhs;`.
    Blocking { lhs: Lvalue, rhs: Expr },
    /// Non-blocking assignment `lhs <= rhs;`.
    Nonblocking { lhs: Lvalue, rhs: Expr },
    /// `if (cond) then [else els]`.
    If {
        cond: Expr,
        then_branch: Box<Stmt>,
        else_branch: Option<Box<Stmt>>,
    },
    /// `while (cond) body`.
    While { cond: Expr, body: Box<Stmt> },
    /// `do body while (cond)`.
    DoWhile { cond: Expr, body: Box<Stmt> },
    /// `case (expr) ... endcase`. Each item can have multiple match values.
    Case {
        expr: Expr,
        items: Vec<(Vec<Expr>, Stmt)>,
        default: Option<Box<Stmt>>,
    },
    /// `foreach (collection[index]) body`.
    Foreach {
        collection: Expr,
        index: String,
        body: Box<Stmt>,
    },
    /// A system task call statement, e.g. `$display("...", a, b);`.
    SysCall { name: String, args: Vec<Expr> },
    /// An expression evaluated for its side effects (e.g. a void method call).
    Expr(Expr),
    /// Blocking named-event trigger `-> event_expr`.
    Trigger(Expr),
    /// `return [expr];`
    Return(Option<Expr>),
    /// Exit the nearest enclosing loop.
    Break,
    /// Start the next iteration of the nearest enclosing loop.
    Continue,
    /// `fork branches join/join_any/join_none` — each branch runs as its own
    /// concurrent process.
    Fork { branches: Vec<Stmt>, join: ForkJoin },
    /// Empty statement (`;`).
    Null,
}

/// The completion discipline of a `fork` block (LRM 9.3.2).
#[derive(Debug, Clone, Copy, PartialEq, Eq, Structural)]
pub enum ForkJoin {
    /// `join` — the parent resumes only after every branch finishes.
    All,
    /// `join_any` — the parent resumes after the first branch finishes.
    Any,
    /// `join_none` — the parent resumes immediately; branches run detached.
    Detached,
}

/// A timing control.
#[derive(Debug)]
pub enum TimingControl {
    /// `#expr`
    Delay(Expr),
    /// `@(event_list)`
    Event(Vec<EventExpr>),
    /// `wait(expr)`
    Wait(Expr),
}

/// One entry in an event control list, e.g. `posedge clk`.
#[derive(Debug)]
pub struct EventExpr {
    pub edge: Edge,
    pub expr: Expr,
}

/// Edge qualifier on an event expression.
#[derive(Debug, Clone, Copy, PartialEq, Eq, Structural)]
pub enum Edge {
    Posedge,
    Negedge,
    /// Bare `@(sig)` — any value change.
    AnyChange,
}

/// An assignment target.
#[derive(Debug)]
pub struct Lvalue {
    pub name: String,
    /// Receiver for an object-field target (`obj.field`); absent for a local,
    /// net, current-class field, or scoped static target.
    pub receiver: Option<Box<Expr>>,
    /// `Some(index)` for an element assignment `name[index] = ...`.
    pub index: Option<Expr>,
    /// `Some(class)` for a scoped static-field target `Class::name = ...`.
    pub scope: Option<String>,
}

/// An expression.
#[derive(Debug)]
#[allow(inconsistent_fields)]
pub enum Expr {
    /// A sized/unsized literal, already parsed to a 4-state vector.
    Literal(LogicVec),
    /// A string literal (e.g. a `$display` format string).
    Str(String),
    /// A reference to a variable/net by name.
    Ref(String),
    /// Unary operator.
    Unary { op: UnaryOp, operand: Box<Expr> },
    /// Binary operator.
    Binary {
        op: BinOp,
        lhs: Box<Expr>,
        rhs: Box<Expr>,
    },
    /// A function call returning a value: `name(args...)`.
    Call { name: String, args: Vec<Expr> },
    /// Member access `obj.field`.
    Field { obj: Box<Expr>, field: String },
    /// Method call `obj.method(args...)`.
    MethodCall {
        obj: Box<Expr>,
        method: String,
        args: Vec<Expr>,
    },
    /// Static method call `Class::method(args...)` (scope resolution). The
    /// class name has any `#(...)` parameters stripped (type erasure); the
    /// parameters are kept in `class_args` for monomorphization.
    StaticCall {
        class_name: String,
        class_args: Vec<TypeRef>,
        method: String,
        args: Vec<Expr>,
    },
    /// Static field read `Class::field` (scope resolution, no argument list).
    /// The class name may be a type parameter and needs monomorphization.
    StaticRef { class_name: String, field: String },
    /// Index / element access `base[index]` (queue/array element or assoc key).
    Index { base: Box<Expr>, index: Box<Expr> },
    /// Packed part-select `base[left:right]`.
    PartSelect {
        base: Box<Expr>,
        left: Box<Expr>,
        right: Box<Expr>,
    },
    /// `new(args...)` — allocate an object (class inferred from context).
    New { args: Vec<Expr> },
    /// The `null` class-handle literal.
    Null,
    /// A packed or string concatenation `{a, b, c}`.
    Concat(Vec<Expr>),
    /// A system function call in expression position, e.g. `$sformatf(...)`,
    /// `$realtime`, `$cast(...)`, `$time`.
    SysCall { name: String, args: Vec<Expr> },
}

/// Unary operators.
#[derive(Debug, Clone, Copy, PartialEq, Eq, Structural)]
pub enum UnaryOp {
    /// `~`
    BitNot,
    /// `!`
    LogNot,
    /// unary `-`
    Neg,
    /// unary `+`
    Plus,
    /// `&` reduction
    ReduceAnd,
    /// `|` reduction
    ReduceOr,
    /// `^` reduction
    ReduceXor,
}

/// Binary operators.
#[derive(Debug, Clone, Copy, PartialEq, Eq, Structural)]
pub enum BinOp {
    Add,
    Sub,
    Mul,
    And,
    Or,
    Xor,
    Eq,
    Neq,
    Lt,
    Gt,
    Le,
    Ge,
    Shl,
    Shr,
    /// `&&` logical AND.
    LogAnd,
    /// `||` logical OR.
    LogOr,
}

/// The views of a list.
pub open spec fn views<T: View>(s: Seq<T>) -> Seq<T::V> {
    s.map_values(|x: T| x@)
}

/// The views of a list of named constants.
pub open spec fn const_views(s: Seq<(String, LogicVec)>) -> Seq<(Seq<char>, Seq<Bit>)> {
    s.map_values(|c: (String, LogicVec)| (c.0@, c.1@))
}

/// The mathematical form of the arms of a `case`.
pub open spec fn arms_view(s: Seq<(Vec<Expr>, Stmt)>) -> Seq<(Seq<ExprV>, StmtV)>
    decreases s,
{
    Seq::new(
        s.len(),
        |i: int|
            if 0 <= i < s.len() {
                (exprs_view(s[i].0@), stmt_view(s[i].1))
            } else {
                arbitrary()
            },
    )
}

impl View for SourceFile {
    type V = SourceFileV;

    open spec fn view(&self) -> SourceFileV {
        SourceFileV {
            items: views(self.items@),
        }
    }
}

impl View for Item {
    type V = ItemV;

    open spec fn view(&self) -> ItemV {
        match *self {
            Item::Module(a) => ItemV::Module(a@),
            Item::Package(a) => ItemV::Package(a@),
            Item::Class(a) => ItemV::Class(Box::new((*a)@)),
            Item::Func(a) => ItemV::Func(Box::new((*a)@)),
        }
    }
}

impl View for Package {
    type V = PackageV;

    open spec fn view(&self) -> PackageV {
        PackageV {
            name: self.name@,
            items: views(self.items@),
        }
    }
}

impl View for Module {
    type V = ModuleV;

    open spec fn view(&self) -> ModuleV {
        ModuleV {
            name: self.name@,
            parameters: views(self.parameters@),
            ports: views(self.ports@),
            items: views(self.items@),
        }
    }
}

impl View for ModuleParameter {
    type V = ModuleParameterV;

    open spec fn view(&self) -> ModuleParameterV {
        ModuleParameterV {
            name: self.name@,
            width: self.width,
            signed: self.signed,
            default: expr_view(self.default),
        }
    }
}

impl View for Port {
    type V = PortV;

    open spec fn view(&self) -> PortV {
        PortV {
            name: self.name@,
            dir: self.dir,
            width: self.width,
            signed: self.signed,
            is_net: self.is_net,
        }
    }
}

impl View for ContinuousDelay {
    type V = ContinuousDelayV;

    open spec fn view(&self) -> ContinuousDelayV {
        match *self {
            ContinuousDelay::Single(a) => ContinuousDelayV::Single(expr_view(a)),
            ContinuousDelay::RiseFall { rise, fall } => ContinuousDelayV::RiseFall {
                rise: expr_view(rise),
                fall: expr_view(fall),
            },
            ContinuousDelay::RiseFallTurnOff { rise, fall, turn_off } => ContinuousDelayV::RiseFallTurnOff {
                rise: expr_view(rise),
                fall: expr_view(fall),
                turn_off: expr_view(turn_off),
            },
        }
    }
}

/// The mathematical form of an optional delay.
pub open spec fn opt_delay_view(d: Option<ContinuousDelay>) -> Option<ContinuousDelayV> {
    match d {
        Some(v) => Some(v@),
        None => None,
    }
}

impl View for ModuleItem {
    type V = ModuleItemV;

    open spec fn view(&self) -> ModuleItemV {
        match *self {
            ModuleItem::Var(a) => ModuleItemV::Var(a@),
            ModuleItem::Net(a) => ModuleItemV::Net(a@),
            ModuleItem::Instance(a) => ModuleItemV::Instance(a@),
            ModuleItem::ContinuousAssign { lhs, rhs, delay, strength } => ModuleItemV::ContinuousAssign {
                lhs: lhs@,
                rhs: expr_view(rhs),
                delay: opt_delay_view(delay),
                strength: strength,
            },
            ModuleItem::Always(a) => ModuleItemV::Always(a@),
            ModuleItem::Initial(a) => ModuleItemV::Initial(stmt_view(a)),
            ModuleItem::Func(a) => ModuleItemV::Func(a@),
            ModuleItem::Class(a) => ModuleItemV::Class(Box::new((*a)@)),
            ModuleItem::EnumConst { name, value } => ModuleItemV::EnumConst {
                name: name@,
                value: value@,
            },
            ModuleItem::EnumType { name, members } => ModuleItemV::EnumType {
                name: name@,
                members: const_views(members@),
            },
            ModuleItem::TypeAlias(a) => ModuleItemV::TypeAlias(a@),
        }
    }
}

impl View for NetDecl {
    type V = NetDeclV;

    open spec fn view(&self) -> NetDeclV {
        NetDeclV {
            name: self.name@,
            width: self.width,
            signed: self.signed,
            kind: self.kind,
            delay: opt_delay_view(self.delay),
        }
    }
}

impl View for ModuleInstance {
    type V = ModuleInstanceV;

    open spec fn view(&self) -> ModuleInstanceV {
        ModuleInstanceV {
            module_name: self.module_name@,
            name: self.name@,
            parameters: views(self.parameters@),
            connections: views(self.connections@),
        }
    }
}

impl View for ParameterOverride {
    type V = ParameterOverrideV;

    open spec fn view(&self) -> ParameterOverrideV {
        ParameterOverrideV {
            parameter: match self.parameter {
                Some(v) => Some(v@),
                None => None,
            },
            value: expr_view(self.value),
        }
    }
}

impl View for PortConnection {
    type V = PortConnectionV;

    open spec fn view(&self) -> PortConnectionV {
        PortConnectionV {
            port: match self.port {
                Some(v) => Some(v@),
                None => None,
            },
            expr: expr_view(self.expr),
        }
    }
}

/// The mathematical form of a list.
pub open spec fn type_refs_view(s: Seq<TypeRef>) -> Seq<TypeRefV>
    decreases s,
{
    Seq::new(
        s.len(),
        |i: int|
            if 0 <= i < s.len() {
                type_ref_view(s[i])
            } else {
                arbitrary()
            },
    )
}

/// The mathematical form.
pub open spec fn type_ref_view(e: TypeRef) -> TypeRefV
    decreases e,
{
    TypeRefV {
        name: e.name@,
        args: type_refs_view(e.args@),
    }
}

impl View for TypeRef {
    type V = TypeRefV;

    open spec fn view(&self) -> TypeRefV {
        type_ref_view(*self)
    }
}

impl View for VarDecl {
    type V = VarDeclV;

    open spec fn view(&self) -> VarDeclV {
        VarDeclV {
            name: self.name@,
            width: self.width,
            signed: self.signed,
            class_name: match self.class_name {
                Some(v) => Some(v@),
                None => None,
            },
            type_scope: match self.type_scope {
                Some(v) => Some(v@),
                None => None,
            },
            type_args: type_refs_view(self.type_args@),
            is_string: self.is_string,
            is_event: self.is_event,
            coll: self.coll,
            key_class_name: match self.key_class_name {
                Some(v) => Some(v@),
                None => None,
            },
            is_static: self.is_static,
            init: match self.init {
                Some(v) => Some(expr_view(v)),
                None => None,
            },
        }
    }
}

impl View for ClassDecl {
    type V = ClassDeclV;

    open spec fn view(&self) -> ClassDeclV {
        ClassDeclV {
            name: self.name@,
            base: match self.base {
                Some(v) => Some(v@),
                None => None,
            },
            fields: views(self.fields@),
            methods: views(self.methods@),
            constructor: match self.constructor {
                Some(v) => Some(v@),
                None => None,
            },
            type_aliases: views(self.type_aliases@),
            collection_aliases: views(self.collection_aliases@),
            params: views(self.params@),
            base_args: type_refs_view(self.base_args@),
            consts: const_views(self.consts@),
            is_struct: self.is_struct,
        }
    }
}

impl View for TypeAlias {
    type V = TypeAliasV;

    open spec fn view(&self) -> TypeAliasV {
        TypeAliasV {
            alias: self.alias@,
            target: type_ref_view(self.target),
        }
    }
}

impl View for CollectionAlias {
    type V = CollectionAliasV;

    open spec fn view(&self) -> CollectionAliasV {
        CollectionAliasV {
            alias: self.alias@,
            kind: self.kind,
            element: match self.element {
                Some(v) => Some(type_ref_view(v)),
                None => None,
            },
            key: match self.key {
                Some(v) => Some(type_ref_view(v)),
                None => None,
            },
        }
    }
}

impl View for ParamDecl {
    type V = ParamDeclV;

    open spec fn view(&self) -> ParamDeclV {
        ParamDeclV {
            name: self.name@,
            is_type: self.is_type,
            default: match self.default {
                Some(v) => Some(v@),
                None => None,
            },
        }
    }
}

impl View for FuncDecl {
    type V = FuncDeclV;

    open spec fn view(&self) -> FuncDeclV {
        FuncDeclV {
            name: self.name@,
            ret_width: self.ret_width,
            ret_class: match self.ret_class {
                Some(v) => Some(v@),
                None => None,
            },
            class_scope: match self.class_scope {
                Some(v) => Some(v@),
                None => None,
            },
            dpi_name: match self.dpi_name {
                Some(v) => Some(v@),
                None => None,
            },
            is_void: self.is_void,
            is_virtual: self.is_virtual,
            params: views(self.params@),
            body: stmt_view(self.body),
        }
    }
}

impl View for Param {
    type V = ParamV;

    open spec fn view(&self) -> ParamV {
        ParamV {
            name: self.name@,
            dir: self.dir,
            width: self.width,
            class_name: match self.class_name {
                Some(v) => Some(v@),
                None => None,
            },
            type_scope: match self.type_scope {
                Some(v) => Some(v@),
                None => None,
            },
            type_args: type_refs_view(self.type_args@),
            coll: self.coll,
            key_class_name: match self.key_class_name {
                Some(v) => Some(v@),
                None => None,
            },
            default: match self.default {
                Some(v) => Some(expr_view(v)),
                None => None,
            },
        }
    }
}

impl View for AlwaysBlock {
    type V = AlwaysBlockV;

    open spec fn view(&self) -> AlwaysBlockV {
        AlwaysBlockV {
            kind: self.kind,
            body: stmt_view(self.body),
        }
    }
}

/// The mathematical form of a list.
pub open spec fn stmts_view(s: Seq<Stmt>) -> Seq<StmtV>
    decreases s,
{
    Seq::new(
        s.len(),
        |i: int|
            if 0 <= i < s.len() {
                stmt_view(s[i])
            } else {
                arbitrary()
            },
    )
}

/// The mathematical form.
pub open spec fn stmt_view(e: Stmt) -> StmtV
    decreases e,
{
    match e {
        Stmt::Block(a) => StmtV::Block(stmts_view(a@)),
        Stmt::VarDecl(a) => StmtV::VarDecl(a@),
        Stmt::Timed { control, body } => StmtV::Timed {
            control: control@,
            body: Box::new(stmt_view(*body)),
        },
        Stmt::Blocking { lhs, rhs } => StmtV::Blocking {
            lhs: lhs@,
            rhs: expr_view(rhs),
        },
        Stmt::Nonblocking { lhs, rhs } => StmtV::Nonblocking {
            lhs: lhs@,
            rhs: expr_view(rhs),
        },
        Stmt::If { cond, then_branch, else_branch } => StmtV::If {
            cond: expr_view(cond),
            then_branch: Box::new(stmt_view(*then_branch)),
            else_branch: match else_branch {
                Some(v) => Some(Box::new(stmt_view(*v))),
                None => None,
            },
        },
        Stmt::While { cond, body } => StmtV::While {
            cond: expr_view(cond),
            body: Box::new(stmt_view(*body)),
        },
        Stmt::DoWhile { cond, body } => StmtV::DoWhile {
            cond: expr_view(cond),
            body: Box::new(stmt_view(*body)),
        },
        Stmt::Case { expr, items, default } => StmtV::Case {
            expr: expr_view(expr),
            items: arms_view(items@),
            default: match default {
                Some(v) => Some(Box::new(stmt_view(*v))),
                None => None,
            },
        },
        Stmt::Foreach { collection, index, body } => StmtV::Foreach {
            collection: expr_view(collection),
            index: index@,
            body: Box::new(stmt_view(*body)),
        },
        Stmt::SysCall { name, args } => StmtV::SysCall {
            name: name@,
            args: exprs_view(args@),
        },
        Stmt::Expr(a) => StmtV::Expr(expr_view(a)),
        Stmt::Trigger(a) => StmtV::Trigger(expr_view(a)),
        Stmt::Return(a) => StmtV::Return(match a {
                Some(v) => Some(expr_view(v)),
                None => None,
        }),
        Stmt::Break => StmtV::Break,
        Stmt::Continue => StmtV::Continue,
        Stmt::Fork { branches, join } => StmtV::Fork {
            branches: stmts_view(branches@),
            join: join,
        },
        Stmt::Null => StmtV::Null,
    }
}

impl View for Stmt {
    type V = StmtV;

    open spec fn view(&self) -> StmtV {
        stmt_view(*self)
    }
}

impl View for TimingControl {
    type V = TimingControlV;

    open spec fn view(&self) -> TimingControlV {
        match *self {
            TimingControl::Delay(a) => TimingControlV::Delay(expr_view(a)),
            TimingControl::Event(a) => TimingControlV::Event(views(a@)),
            TimingControl::Wait(a) => TimingControlV::Wait(expr_view(a)),
        }
    }
}

impl View for EventExpr {
    type V = EventExprV;

    open spec fn view(&self) -> EventExprV {
        EventExprV {
            edge: self.edge,
            expr: expr_view(self.expr),
        }
    }
}

impl View for Lvalue {
    type V = LvalueV;

    open spec fn view(&self) -> LvalueV {
        LvalueV {
            name: self.name@,
            receiver: match self.receiver {
                Some(v) => Some(Box::new(expr_view(*v))),
                None => None,
            },
            index: match self.index {
                Some(v) => Some(expr_view(v)),
                None => None,
            },
            scope: match self.scope {
                Some(v) => Some(v@),
                None => None,
            },
        }
    }
}

/// The mathematical form of a list.
pub open spec fn exprs_view(s: Seq<Expr>) -> Seq<ExprV>
    decreases s,
{
    Seq::new(
        s.len(),
        |i: int|
            if 0 <= i < s.len() {
                expr_view(s[i])
            } else {
                arbitrary()
            },
    )
}

/// The mathematical form.
pub open spec fn expr_view(e: Expr) -> ExprV
    decreases e,
{
    match e {
        Expr::Literal(a) => ExprV::Literal(a@),
        Expr::Str(a) => ExprV::Str(a@),
        Expr::Ref(a) => ExprV::Ref(a@),
        Expr::Unary { op, operand } => ExprV::Unary {
            op: op,
            operand: Box::new(expr_view(*operand)),
        },
        Expr::Binary { op, lhs, rhs } => ExprV::Binary {
            op: op,
            lhs: Box::new(expr_view(*lhs)),
            rhs: Box::new(expr_view(*rhs)),
        },
        Expr::Call { name, args } => ExprV::Call {
            name: name@,
            args: exprs_view(args@),
        },
        Expr::Field { obj, field } => ExprV::Field {
            obj: Box::new(expr_view(*obj)),
            field: field@,
        },
        Expr::MethodCall { obj, method, args } => ExprV::MethodCall {
            obj: Box::new(expr_view(*obj)),
            method: method@,
            args: exprs_view(args@),
        },
        Expr::StaticCall { class_name, class_args, method, args } => ExprV::StaticCall {
            class_name: class_name@,
            class_args: type_refs_view(class_args@),
            method: method@,
            args: exprs_view(args@),
        },
        Expr::StaticRef { class_name, field } => ExprV::StaticRef {
            class_name: class_name@,
            field: field@,
        },
        Expr::Index { base, index } => ExprV::Index {
            base: Box::new(expr_view(*base)),
            index: Box::new(expr_view(*index)),
        },
        Expr::PartSelect { base, left, right } => ExprV::PartSelect {
            base: Box::new(expr_view(*base)),
            left: Box::new(expr_view(*left)),
            right: Box::new(expr_view(*right)),
        },
        Expr::New { args } => ExprV::New {
            args: exprs_view(args@),
        },
        Expr::Null => ExprV::Null,
        Expr::Concat(a) => ExprV::Concat(exprs_view(a@)),
        Expr::SysCall { name, args } => ExprV::SysCall {
            name: name@,
            args: exprs_view(args@),
        },
    }
}

impl View for Expr {
    type V = ExprV;

    open spec fn view(&self) -> ExprV {
        expr_view(*self)
    }
}

impl TypeRef {
    /// A type name without arguments.
    pub fn simple(name: String) -> (r: TypeRef)
        ensures
            r@ == (TypeRefV { name: name@, args: Seq::empty() }),
    {
        let r = TypeRef { name, args: Vec::new() };
        assert(r@.args =~= Seq::<TypeRefV>::empty());
        r
    }
}

impl Default for SourceFile {
    fn default() -> (r: SourceFile)
        ensures
            r@ == (SourceFileV { items: Seq::empty() }),
    {
        let r = SourceFile { items: Vec::new() };
        assert(r@.items =~= Seq::<ItemV>::empty());
        r
    }
}

/// A copy of a list whose elements copy to the same mathematical form.
pub fn clone_list<T: View + Clone>(v: &Vec<T>) -> (r: Vec<T>)
    requires
        forall|a: &T, b: T| call_ensures(T::clone, (a,), b) ==> b@ == a@,
    ensures
        views(r@) == views(v@),
{
    let mut out: Vec<T> = Vec::new();
    let mut i: usize = 0;
    while i < v.len()
        invariant
            forall|a: &T, b: T| call_ensures(T::clone, (a,), b) ==> b@ == a@,
            i <= v@.len(),
            out@.len() == i,
            views(out@) == views(v@).take(i as int),
        decreases v@.len() - i,
    {
        out.push(v[i].clone());
        i = i + 1;
        assert(views(out@) =~= views(v@).take(i as int));
    }
    assert(views(v@).take(i as int) =~= views(v@));
    out
}

/// A copy of a list of named constants.
pub fn clone_consts(v: &Vec<(String, LogicVec)>) -> (r: Vec<(String, LogicVec)>)
    ensures
        const_views(r@) == const_views(v@),
{
    let mut out: Vec<(String, LogicVec)> = Vec::new();
    let mut i: usize = 0;
    while i < v.len()
        invariant
            i <= v@.len(),
            out@.len() == i,
            const_views(out@) == const_views(v@).take(i as int),
        decreases v@.len() - i,
    {
        out.push((v[i].0.clone(), v[i].1.clone()));
        i = i + 1;
        assert(const_views(out@) =~= const_views(v@).take(i as int));
    }
    assert(const_views(v@).take(i as int) =~= const_views(v@));
    out
}

/// A copy of the arms of a `case`.
pub fn clone_arms(v: &Vec<(Vec<Expr>, Stmt)>) -> (r: Vec<(Vec<Expr>, Stmt)>)
    ensures
        arms_view(r@) == arms_view(v@),
    decreases v,
{
    let mut out: Vec<(Vec<Expr>, Stmt)> = Vec::new();
    let mut i: usize = 0;
    while i < v.len()
        invariant
            i <= v@.len(),
            out@.len() == i,
            arms_view(out@) == arms_view(v@).take(i as int),
        decreases v@.len() - i,
    {
        assert(decreases_to!(v => v@[i as int]));
        assert(decreases_to!(v@[i as int] => v@[i as int].1));
        out.push((clone_exprs(&v[i].0), clone_stmt(&v[i].1)));
        i = i + 1;
        assert(arms_view(out@) =~= arms_view(v@).take(i as int));
    }
    assert(arms_view(v@).take(i as int) =~= arms_view(v@));
    out
}

impl Clone for SourceFile {
    fn clone(&self) -> (r: SourceFile)
        ensures
            r@ == self@,
    {
        SourceFile {
            items: clone_list(&self.items),
        }
    }
}

impl Clone for Item {
    fn clone(&self) -> (r: Item)
        ensures
            r@ == self@,
    {
        match self {
            Item::Module(a) => Item::Module(a.clone()),
            Item::Package(a) => Item::Package(a.clone()),
            Item::Class(a) => Item::Class(Box::new((**a).clone())),
            Item::Func(a) => Item::Func(Box::new((**a).clone())),
        }
    }
}

impl Clone for Package {
    fn clone(&self) -> (r: Package)
        ensures
            r@ == self@,
    {
        Package {
            name: self.name.clone(),
            items: clone_list(&self.items),
        }
    }
}

impl Clone for Module {
    fn clone(&self) -> (r: Module)
        ensures
            r@ == self@,
    {
        Module {
            name: self.name.clone(),
            parameters: clone_list(&self.parameters),
            ports: clone_list(&self.ports),
            items: clone_list(&self.items),
        }
    }
}

impl Clone for ModuleParameter {
    fn clone(&self) -> (r: ModuleParameter)
        ensures
            r@ == self@,
    {
        ModuleParameter {
            name: self.name.clone(),
            width: self.width,
            signed: self.signed,
            default: clone_expr(&self.default),
        }
    }
}

impl Clone for Port {
    fn clone(&self) -> (r: Port)
        ensures
            r@ == self@,
    {
        Port {
            name: self.name.clone(),
            dir: self.dir,
            width: self.width,
            signed: self.signed,
            is_net: self.is_net,
        }
    }
}

impl Clone for ContinuousDelay {
    fn clone(&self) -> (r: ContinuousDelay)
        ensures
            r@ == self@,
    {
        match self {
            ContinuousDelay::Single(a) => ContinuousDelay::Single(clone_expr(a)),
            ContinuousDelay::RiseFall { rise, fall } => ContinuousDelay::RiseFall {
                rise: clone_expr(rise),
                fall: clone_expr(fall),
            },
            ContinuousDelay::RiseFallTurnOff { rise, fall, turn_off } => ContinuousDelay::RiseFallTurnOff {
                rise: clone_expr(rise),
                fall: clone_expr(fall),
                turn_off: clone_expr(turn_off),
            },
        }
    }
}

impl Clone for ModuleItem {
    fn clone(&self) -> (r: ModuleItem)
        ensures
            r@ == self@,
    {
        match self {
            ModuleItem::Var(a) => ModuleItem::Var(a.clone()),
            ModuleItem::Net(a) => ModuleItem::Net(a.clone()),
            ModuleItem::Instance(a) => ModuleItem::Instance(a.clone()),
            ModuleItem::ContinuousAssign { lhs, rhs, delay, strength } => ModuleItem::ContinuousAssign {
                lhs: lhs.clone(),
                rhs: clone_expr(rhs),
                delay: match delay {
                    Some(v) => Some(v.clone()),
                    None => None,
                },
                strength: *strength,
            },
            ModuleItem::Always(a) => ModuleItem::Always(a.clone()),
            ModuleItem::Initial(a) => ModuleItem::Initial(clone_stmt(a)),
            ModuleItem::Func(a) => ModuleItem::Func(a.clone()),
            ModuleItem::Class(a) => ModuleItem::Class(Box::new((**a).clone())),
            ModuleItem::EnumConst { name, value } => ModuleItem::EnumConst {
                name: name.clone(),
                value: value.clone(),
            },
            ModuleItem::EnumType { name, members } => ModuleItem::EnumType {
                name: name.clone(),
                members: clone_consts(members),
            },
            ModuleItem::TypeAlias(a) => ModuleItem::TypeAlias(a.clone()),
        }
    }
}

impl Clone for NetDecl {
    fn clone(&self) -> (r: NetDecl)
        ensures
            r@ == self@,
    {
        NetDecl {
            name: self.name.clone(),
            width: self.width,
            signed: self.signed,
            kind: self.kind,
            delay: match &self.delay {
                Some(v) => Some(v.clone()),
                None => None,
            },
        }
    }
}

impl Clone for ModuleInstance {
    fn clone(&self) -> (r: ModuleInstance)
        ensures
            r@ == self@,
    {
        ModuleInstance {
            module_name: self.module_name.clone(),
            name: self.name.clone(),
            parameters: clone_list(&self.parameters),
            connections: clone_list(&self.connections),
        }
    }
}

impl Clone for ParameterOverride {
    fn clone(&self) -> (r: ParameterOverride)
        ensures
            r@ == self@,
    {
        ParameterOverride {
            parameter: match &self.parameter {
                Some(v) => Some(v.clone()),
                None => None,
            },
            value: clone_expr(&self.value),
        }
    }
}

impl Clone for PortConnection {
    fn clone(&self) -> (r: PortConnection)
        ensures
            r@ == self@,
    {
        PortConnection {
            port: match &self.port {
                Some(v) => Some(v.clone()),
                None => None,
            },
            expr: clone_expr(&self.expr),
        }
    }
}

/// A copy with the same mathematical form.
pub fn clone_type_ref(e: &TypeRef) -> (r: TypeRef)
    ensures
        r@ == e@,
    decreases e,
{
    TypeRef {
        name: e.name.clone(),
        args: clone_type_refs(&e.args),
    }
}

/// A copy with the same mathematical form.
pub fn clone_type_refs(v: &Vec<TypeRef>) -> (r: Vec<TypeRef>)
    ensures
        type_refs_view(r@) == type_refs_view(v@),
    decreases v,
{
    let mut out: Vec<TypeRef> = Vec::new();
    let mut i: usize = 0;
    while i < v.len()
        invariant
            i <= v@.len(),
            out@.len() == i,
            type_refs_view(out@) == type_refs_view(v@).take(i as int),
        decreases v@.len() - i,
    {
        assert(decreases_to!(v => v@[i as int]));
        out.push(clone_type_ref(&v[i]));
        i = i + 1;
        assert(type_refs_view(out@) =~= type_refs_view(v@).take(i as int));
    }
    assert(type_refs_view(v@).take(i as int) =~= type_refs_view(v@));
    out
}

impl Clone for TypeRef {
    fn clone(&self) -> (r: TypeRef)
        ensures
            r@ == self@,
    {
        clone_type_ref(self)
    }
}

impl Clone for VarDecl {
    fn clone(&self) -> (r: VarDecl)
        ensures
            r@ == self@,
    {
        VarDecl {
            name: self.name.clone(),
            width: self.width,
            signed: self.signed,
            class_name: match &self.class_name {
                Some(v) => Some(v.clone()),
                None => None,
            },
            type_scope: match &self.type_scope {
                Some(v) => Some(v.clone()),
                None => None,
            },
            type_args: clone_type_refs(&self.type_args),
            is_string: self.is_string,
            is_event: self.is_event,
            coll: self.coll,
            key_class_name: match &self.key_class_name {
                Some(v) => Some(v.clone()),
                None => None,
            },
            is_static: self.is_static,
            init: match &self.init {
                Some(v) => Some(clone_expr(v)),
                None => None,
            },
        }
    }
}

impl Clone for ClassDecl {
    fn clone(&self) -> (r: ClassDecl)
        ensures
            r@ == self@,
    {
        ClassDecl {
            name: self.name.clone(),
            base: match &self.base {
                Some(v) => Some(v.clone()),
                None => None,
            },
            fields: clone_list(&self.fields),
            methods: clone_list(&self.methods),
            constructor: match &self.constructor {
                Some(v) => Some(v.clone()),
                None => None,
            },
            type_aliases: clone_list(&self.type_aliases),
            collection_aliases: clone_list(&self.collection_aliases),
            params: clone_list(&self.params),
            base_args: clone_type_refs(&self.base_args),
            consts: clone_consts(&self.consts),
            is_struct: self.is_struct,
        }
    }
}

impl Clone for TypeAlias {
    fn clone(&self) -> (r: TypeAlias)
        ensures
            r@ == self@,
    {
        TypeAlias {
            alias: self.alias.clone(),
            target: clone_type_ref(&self.target),
        }
    }
}

impl Clone for CollectionAlias {
    fn clone(&self) -> (r: CollectionAlias)
        ensures
            r@ == self@,
    {
        CollectionAlias {
            alias: self.alias.clone(),
            kind: self.kind,
            element: match &self.element {
                Some(v) => Some(clone_type_ref(v)),
                None => None,
            },
            key: match &self.key {
                Some(v) => Some(clone_type_ref(v)),
                None => None,
            },
        }
    }
}

impl Clone for ParamDecl {
    fn clone(&self) -> (r: ParamDecl)
        ensures
            r@ == self@,
    {
        ParamDecl {
            name: self.name.clone(),
            is_type: self.is_type,
            default: match &self.default {
                Some(v) => Some(v.clone()),
                None => None,
            },
        }
    }
}

impl Clone for FuncDecl {
    fn clone(&self) -> (r: FuncDecl)
        ensures
            r@ == self@,
    {
        FuncDecl {
            name: self.name.clone(),
            ret_width: self.ret_width,
            ret_class: match &self.ret_class {
                Some(v) => Some(v.clone()),
                None => None,
            },
            class_scope: match &self.class_scope {
                Some(v) => Some(v.clone()),
                None => None,
            },
            dpi_name: match &self.dpi_name {
                Some(v) => Some(v.clone()),
                None => None,
            },
            is_void: self.is_void,
            is_virtual: self.is_virtual,
            params: clone_list(&self.params),
            body: clone_stmt(&self.body),
        }
    }
}

impl Clone for Param {
    fn clone(&self) -> (r: Param)
        ensures
            r@ == self@,
    {
        Param {
            name: self.name.clone(),
            dir: self.dir,
            width: self.width,
            class_name: match &self.class_name {
                Some(v) => Some(v.clone()),
                None => None,
            },
            type_scope: match &self.type_scope {
                Some(v) => Some(v.clone()),
                None => None,
            },
            type_args: clone_type_refs(&self.type_args),
            coll: self.coll,
            key_class_name: match &self.key_class_name {
                Some(v) => Some(v.clone()),
                None => None,
            },
            default: match &self.default {
                Some(v) => Some(clone_expr(v)),
                None => None,
            },
        }
    }
}

impl Clone for AlwaysBlock {
    fn clone(&self) -> (r: AlwaysBlock)
        ensures
            r@ == self@,
    {
        AlwaysBlock {
            kind: self.kind,
            body: clone_stmt(&self.body),
        }
    }
}

/// A copy with the same mathematical form.
pub fn clone_stmt(e: &Stmt) -> (r: Stmt)
    ensures
        r@ == e@,
    decreases e,
{
    match e {
        Stmt::Block(a) => Stmt::Block(clone_stmts(a)),
        Stmt::VarDecl(a) => Stmt::VarDecl(a.clone()),
        Stmt::Timed { control, body } => Stmt::Timed {
            control: control.clone(),
            body: Box::new(clone_stmt(body)),
        },
        Stmt::Blocking { lhs, rhs } => Stmt::Blocking {
            lhs: lhs.clone(),
            rhs: clone_expr(rhs),
        },
        Stmt::Nonblocking { lhs, rhs } => Stmt::Nonblocking {
            lhs: lhs.clone(),
            rhs: clone_expr(rhs),
        },
        Stmt::If { cond, then_branch, else_branch } => Stmt::If {
            cond: clone_expr(cond),
            then_branch: Box::new(clone_stmt(then_branch)),
            else_branch: match else_branch {
                Some(v) => Some(Box::new(clone_stmt(v))),
                None => None,
            },
        },
        Stmt::While { cond, body } => Stmt::While {
            cond: clone_expr(cond),
            body: Box::new(clone_stmt(body)),
        },
        Stmt::DoWhile { cond, body } => Stmt::DoWhile {
            cond: clone_expr(cond),
            body: Box::new(clone_stmt(body)),
        },
        Stmt::Case { expr, items, default } => Stmt::Case {
            expr: clone_expr(expr),
            items: clone_arms(items),
            default: match default {
                Some(v) => Some(Box::new(clone_stmt(v))),
                None => None,
            },
        },
        Stmt::Foreach { collection, index, body } => Stmt::Foreach {
            collection: clone_expr(collection),
            index: index.clone(),
            body: Box::new(clone_stmt(body)),
        },
        Stmt::SysCall { name, args } => Stmt::SysCall {
            name: name.clone(),
            args: clone_exprs(args),
        },
        Stmt::Expr(a) => Stmt::Expr(clone_expr(a)),
        Stmt::Trigger(a) => Stmt::Trigger(clone_expr(a)),
        Stmt::Return(a) => Stmt::Return(match a {
                Some(v) => Some(clone_expr(v)),
                None => None,
        }),
        Stmt::Break => Stmt::Break,
        Stmt::Continue => Stmt::Continue,
        Stmt::Fork { branches, join } => Stmt::Fork {
            branches: clone_stmts(branches),
            join: *join,
        },
        Stmt::Null => Stmt::Null,
    }
}

/// A copy with the same mathematical form.
pub fn clone_stmts(v: &Vec<Stmt>) -> (r: Vec<Stmt>)
    ensures
        stmts_view(r@) == stmts_view(v@),
    decreases v,
{
    let mut out: Vec<Stmt> = Vec::new();
    let mut i: usize = 0;
    while i < v.len()
        invariant
            i <= v@.len(),
            out@.len() == i,
            stmts_view(out@) == stmts_view(v@).take(i as int),
        decreases v@.len() - i,
    {
        assert(decreases_to!(v => v@[i as int]));
        out.push(clone_stmt(&v[i]));
        i = i + 1;
        assert(stmts_view(out@) =~= stmts_view(v@).take(i as int));
    }
    assert(stmts_view(v@).take(i as int) =~= stmts_view(v@));
    out
}

impl Clone for Stmt {
    fn clone(&self) -> (r: Stmt)
        ensures
            r@ == self@,
    {
        clone_stmt(self)
    }
}

impl Clone for TimingControl {
    fn clone(&self) -> (r: TimingControl)
        ensures
            r@ == self@,
    {
        match self {
            TimingControl::Delay(a) => TimingControl::Delay(clone_expr(a)),
            TimingControl::Event(a) => TimingControl::Event(clone_list(a)),
            TimingControl::Wait(a) => TimingControl::Wait(clone_expr(a)),
        }
    }
}

impl Clone for EventExpr {
    fn clone(&self) -> (r: EventExpr)
        ensures
            r@ == self@,
    {
        EventExpr {
            edge: self.edge,
            expr: clone_expr(&self.expr),
        }
    }
}

impl Clone for Lvalue {
    fn clone(&self) -> (r: Lvalue)
        ensures
            r@ == self@,
    {
        Lvalue {
            name: self.name.clone(),
            receiver: match &self.receiver {
                Some(v) => Some(Box::new(clone_expr(v))),
                None => None,
            },
            index: match &self.index {
                Some(v) => Some(clone_expr(v)),
                None => None,
            },
            scope: match &self.scope {
                Some(v) => Some(v.clone()),
                None => None,
            },
        }
    }
}

/// A copy with the same mathematical form.
pub fn clone_expr(e: &Expr) -> (r: Expr)
    ensures
        r@ == e@,
    decreases e,
{
    match e {
        Expr::Literal(a) => Expr::Literal(a.clone()),
        Expr::Str(a) => Expr::Str(a.clone()),
        Expr::Ref(a) => Expr::Ref(a.clone()),
        Expr::Unary { op, operand } => Expr::Unary {
            op: *op,
            operand: Box::new(clone_expr(operand)),
        },
        Expr::Binary { op, lhs, rhs } => Expr::Binary {
            op: *op,
            lhs: Box::new(clone_expr(lhs)),
            rhs: Box::new(clone_expr(rhs)),
        },
        Expr::Call { name, args } => Expr::Call {
            name: name.clone(),
            args: clone_exprs(args),
        },
        Expr::Field { obj, field } => Expr::Field {
            obj: Box::new(clone_expr(obj)),
            field: field.clone(),
        },
        Expr::MethodCall { obj, method, args } => Expr::MethodCall {
            obj: Box::new(clone_expr(obj)),
            method: method.clone(),
            args: clone_exprs(args),
        },
        Expr::StaticCall { class_name, class_args, method, args } => Expr::StaticCall {
            class_name: class_name.clone(),
            class_args: clone_type_refs(class_args),
            method: method.clone(),
            args: clone_exprs(args),
        },
        Expr::StaticRef { class_name, field } => Expr::StaticRef {
            class_name: class_name.clone(),
            field: field.clone(),
        },
        Expr::Index { base, index } => Expr::Index {
            base: Box::new(clone_expr(base)),
            index: Box::new(clone_expr(index)),
        },
        Expr::PartSelect { base, left, right } => Expr::PartSelect {
            base: Box::new(clone_expr(base)),
            left: Box::new(clone_expr(left)),
            right: Box::new(clone_expr(right)),
        },
        Expr::New { args } => Expr::New {
            args: clone_exprs(args),
        },
        Expr::Null => Expr::Null,
        Expr::Concat(a) => Expr::Concat(clone_exprs(a)),
        Expr::SysCall { name, args } => Expr::SysCall {
            name: name.clone(),
            args: clone_exprs(args),
        },
    }
}

/// A copy with the same mathematical form.
pub fn clone_exprs(v: &Vec<Expr>) -> (r: Vec<Expr>)
    ensures
        exprs_view(r@) == exprs_view(v@),
    decreases v,
{
    let mut out: Vec<Expr> = Vec::new();
    let mut i: usize = 0;
    while i < v.len()
        invariant
            i <= v@.len(),
            out@.len() == i,
            exprs_view(out@) == exprs_view(v@).take(i as int),
        decreases v@.len() - i,
    {
        assert(decreases_to!(v => v@[i as int]));
        out.push(clone_expr(&v[i]));
        i = i + 1;
        assert(exprs_view(out@) =~= exprs_view(v@).take(i as int));
    }
    assert(exprs_view(v@).take(i as int) =~= exprs_view(v@));
    out
}

impl Clone for Expr {
    fn clone(&self) -> (r: Expr)
        ensures
            r@ == self@,
    {
        clone_expr(self)
    }
}

} // verus!
