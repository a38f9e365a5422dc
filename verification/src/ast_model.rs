//! The mathematical form of the syntax tree: the same shapes over sequences of
//! characters, bits and nodes.
use vstd::prelude::*;

use crate::ast::{AlwaysKind, BinOp, CollKind, DriveStrengthSpec, Edge, ForkJoin, NetKind, PortDir, UnaryOp};
use crate::bit::Bit;

verus! {

/// The mathematical form of a [`SourceFile`].
pub struct SourceFileV {
    pub items: Seq<ItemV>,
}

/// The mathematical form of [`Item`].
pub enum ItemV {
    Module(ModuleV),
    Package(PackageV),
    Class(Box<ClassDeclV>),
    Func(Box<FuncDeclV>),
}

/// The mathematical form of a [`Package`].
pub struct PackageV {
    pub name: Seq<char>,
    pub items: Seq<ModuleItemV>,
}

/// The mathematical form of a [`Module`].
pub struct ModuleV {
    pub name: Seq<char>,
    pub parameters: Seq<ModuleParameterV>,
    pub ports: Seq<PortV>,
    pub items: Seq<ModuleItemV>,
}

/// The mathematical form of a [`ModuleParameter`].
pub struct ModuleParameterV {
    pub name: Seq<char>,
    pub width: u32,
    pub signed: bool,
    pub default: ExprV,
}

/// The mathematical form of a [`Port`].
pub struct PortV {
    pub name: Seq<char>,
    pub dir: PortDir,
    pub width: u32,
    pub signed: bool,
    pub is_net: bool,
}

/// The mathematical form of [`ContinuousDelay`].
pub enum ContinuousDelayV {
    Single(ExprV),
    RiseFall { rise: ExprV, fall: ExprV },
    RiseFallTurnOff { rise: ExprV, fall: ExprV, turn_off: ExprV },
}

/// The mathematical form of [`ModuleItem`].
pub enum ModuleItemV {
    Var(VarDeclV),
    Net(NetDeclV),
    Instance(ModuleInstanceV),
    ContinuousAssign { lhs: LvalueV, rhs: ExprV, delay: Option<ContinuousDelayV>, strength: Option<DriveStrengthSpec> },
    Always(AlwaysBlockV),
    Initial(StmtV),
    Func(FuncDeclV),
    Class(Box<ClassDeclV>),
    EnumConst { name: Seq<char>, value: Seq<Bit> },
    EnumType { name: Seq<char>, members: Seq<(Seq<char>, Seq<Bit>)> },
    TypeAlias(TypeAliasV),
}

/// The mathematical form of a [`NetDecl`].
pub struct NetDeclV {
    pub name: Seq<char>,
    pub width: u32,
    pub signed: bool,
    pub kind: NetKind,
    pub delay: Option<ContinuousDelayV>,
}

/// The mathematical form of a [`ModuleInstance`].
pub struct ModuleInstanceV {
    pub module_name: Seq<char>,
    pub name: Seq<char>,
    pub parameters: Seq<ParameterOverrideV>,
    pub connections: Seq<PortConnectionV>,
}

/// The mathematical form of a [`ParameterOverride`].
pub struct ParameterOverrideV {
    pub parameter: Option<Seq<char>>,
    pub value: ExprV,
}

/// The mathematical form of a [`PortConnection`].
pub struct PortConnectionV {
    pub port: Option<Seq<char>>,
    pub expr: ExprV,
}

/// The mathematical form of a [`TypeRef`].
pub struct TypeRefV {
    pub name: Seq<char>,
    pub args: Seq<TypeRefV>,
}

/// The mathematical form of a [`VarDecl`].
pub struct VarDeclV {
    pub name: Seq<char>,
    pub width: u32,
    pub signed: bool,
    pub class_name: Option<Seq<char>>,
    pub type_scope: Option<Seq<char>>,
    pub type_args: Seq<TypeRefV>,
    pub is_string: bool,
    pub is_event: bool,
    pub coll: Option<CollKind>,
    pub key_class_name: Option<Seq<char>>,
    pub is_static: bool,
    pub init: Option<ExprV>,
}

/// The mathematical form of a [`ClassDecl`].
pub struct ClassDeclV {
    pub name: Seq<char>,
    pub base: Option<Seq<char>>,
    pub fields: Seq<VarDeclV>,
    pub methods: Seq<FuncDeclV>,
    pub constructor: Option<FuncDeclV>,
    pub type_aliases: Seq<TypeAliasV>,
    pub collection_aliases: Seq<CollectionAliasV>,
    pub params: Seq<ParamDeclV>,
    pub base_args: Seq<TypeRefV>,
    pub consts: Seq<(Seq<char>, Seq<Bit>)>,
    pub is_struct: bool,
}

/// The mathematical form of a [`TypeAlias`].
pub struct TypeAliasV {
    pub alias: Seq<char>,
    pub target: TypeRefV,
}

/// The mathematical form of a [`CollectionAlias`].
pub struct CollectionAliasV {
    pub alias: Seq<char>,
    pub kind: CollKind,
    pub element: Option<TypeRefV>,
    pub key: Option<TypeRefV>,
}

/// The mathematical form of a [`ParamDecl`].
pub struct ParamDeclV {
    pub name: Seq<char>,
    pub is_type: bool,
    pub default: Option<Seq<char>>,
}

/// The mathematical form of a [`FuncDecl`].
pub struct FuncDeclV {
    pub name: Seq<char>,
    pub ret_width: u32,
    pub ret_class: Option<Seq<char>>,
    pub class_scope: Option<Seq<char>>,
    pub dpi_name: Option<Seq<char>>,
    pub is_void: bool,
    pub is_virtual: bool,
    pub params: Seq<ParamV>,
    pub body: StmtV,
}

/// The mathematical form of a [`Param`].
pub struct ParamV {
    pub name: Seq<char>,
    pub dir: PortDir,
    pub width: u32,
    pub class_name: Option<Seq<char>>,
    pub type_scope: Option<Seq<char>>,
    pub type_args: Seq<TypeRefV>,
    pub coll: Option<CollKind>,
    pub key_class_name: Option<Seq<char>>,
    pub default: Option<ExprV>,
}

/// The mathematical form of a [`AlwaysBlock`].
pub struct AlwaysBlockV {
    pub kind: AlwaysKind,
    pub body: StmtV,
}

/// The mathematical form of [`Stmt`].
pub enum StmtV {
    Block(Seq<StmtV>),
    VarDecl(VarDeclV),
    Timed { control: TimingControlV, body: Box<StmtV> },
    Blocking { lhs: LvalueV, rhs: ExprV },
    Nonblocking { lhs: LvalueV, rhs: ExprV },
    If { cond: ExprV, then_branch: Box<StmtV>, else_branch: Option<Box<StmtV>> },
    While { cond: ExprV, body: Box<StmtV> },
    DoWhile { cond: ExprV, body: Box<StmtV> },
    Case { expr: ExprV, items: Seq<(Seq<ExprV>, StmtV)>, default: Option<Box<StmtV>> },
    Foreach { collection: ExprV, index: Seq<char>, body: Box<StmtV> },
    SysCall { name: Seq<char>, args: Seq<ExprV> },
    Expr(ExprV),
    Trigger(ExprV),
    Return(Option<ExprV>),
    Break,
    Continue,
    Fork { branches: Seq<StmtV>, join: ForkJoin },
    Null,
}

/// The mathematical form of [`TimingControl`].
pub enum TimingControlV {
    Delay(ExprV),
    Event(Seq<EventExprV>),
    Wait(ExprV),
}

/// The mathematical form of a [`EventExpr`].
pub struct EventExprV {
    pub edge: Edge,
    pub expr: ExprV,
}

/// The mathematical form of a [`Lvalue`].
pub struct LvalueV {
    pub name: Seq<char>,
    pub receiver: Option<Box<ExprV>>,
    pub index: Option<ExprV>,
    pub scope: Option<Seq<char>>,
}

/// The mathematical form of [`Expr`].
#[allow(inconsistent_fields)]
pub enum ExprV {
    Literal(Seq<Bit>),
    Str(Seq<char>),
    Ref(Seq<char>),
    Unary { op: UnaryOp, operand: Box<ExprV> },
    Binary { op: BinOp, lhs: Box<ExprV>, rhs: Box<ExprV> },
    Call { name: Seq<char>, args: Seq<ExprV> },
    Field { obj: Box<ExprV>, field: Seq<char> },
    MethodCall { obj: Box<ExprV>, method: Seq<char>, args: Seq<ExprV> },
    StaticCall { class_name: Seq<char>, class_args: Seq<TypeRefV>, method: Seq<char>, args: Seq<ExprV> },
    StaticRef { class_name: Seq<char>, field: Seq<char> },
    Index { base: Box<ExprV>, index: Box<ExprV> },
    PartSelect { base: Box<ExprV>, left: Box<ExprV>, right: Box<ExprV> },
    New { args: Seq<ExprV> },
    Null,
    Concat(Seq<ExprV>),
    SysCall { name: Seq<char>, args: Seq<ExprV> },
}

} // verus!
