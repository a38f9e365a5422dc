//! The words that the supported subset allows in each place.
use vstd::prelude::*;

use crate::text::str_eq;

verus! {

/// A place where one of a list of words stands.
#[derive(Debug, Clone, Copy, PartialEq, Eq, Structural)]
pub enum Place {
    /// Top-level descriptions.
    Description,
    /// Items of a module body.
    ModuleItem,
    /// Items of a package body.
    PackageItem,
    /// Built-in net types.
    NetType,
    /// Net types that a port may not have.
    ResolvedNet,
    /// System tasks and functions.
    SystemCall,
    /// Binary operators.
    BinarySymbol,
    /// Unary operators.
    UnarySymbol,
    /// Roots of an expression.
    ExpressionRoot,
    /// Statements.
    Statement,
    /// Strength keywords.
    StrengthToken,
}

/// Whether a word is one of the list of a place.
pub open spec fn listed(place: Place, t: Seq<char>) -> bool {
    match place {
        Place::Description => {
            ||| t == "kModuleDeclaration"@
            ||| t == "kPackageDeclaration"@
            ||| t == "kClassDeclaration"@
            ||| t == "kFunctionDeclaration"@
            ||| t == "kTaskDeclaration"@
            ||| t == "kDPIImportItem"@
        },
        Place::ModuleItem => {
            ||| t == "kDataDeclaration"@
            ||| t == "kNetDeclaration"@
            ||| t == "kAlwaysStatement"@
            ||| t == "kInitialStatement"@
            ||| t == "kContinuousAssignmentStatement"@
            ||| t == "kFunctionDeclaration"@
            ||| t == "kTaskDeclaration"@
            ||| t == "kDPIImportItem"@
            ||| t == "kClassDeclaration"@
            ||| t == "kTypeDeclaration"@
            ||| t == "kModuleItemList"@
            ||| t == "kPackageItemList"@
        },
        Place::PackageItem => {
            ||| t == "kDataDeclaration"@
            ||| t == "kNetDeclaration"@
            ||| t == "kAlwaysStatement"@
            ||| t == "kInitialStatement"@
            ||| t == "kContinuousAssignmentStatement"@
            ||| t == "kFunctionDeclaration"@
            ||| t == "kTaskDeclaration"@
            ||| t == "kDPIImportItem"@
            ||| t == "kClassDeclaration"@
            ||| t == "kParamDeclaration"@
            ||| t == "kTypeDeclaration"@
            ||| t == "kModuleItemList"@
            ||| t == "kPackageItemList"@
        },
        Place::NetType => {
            ||| t == "wire"@
            ||| t == "tri"@
            ||| t == "wand"@
            ||| t == "triand"@
            ||| t == "wor"@
            ||| t == "trior"@
            ||| t == "tri0"@
            ||| t == "tri1"@
            ||| t == "supply0"@
            ||| t == "supply1"@
        },
        Place::ResolvedNet => {
            ||| t == "tri"@
            ||| t == "wand"@
            ||| t == "triand"@
            ||| t == "wor"@
            ||| t == "trior"@
            ||| t == "tri0"@
            ||| t == "tri1"@
            ||| t == "supply0"@
            ||| t == "supply1"@
        },
        Place::SystemCall => {
            ||| t == "$display"@
            ||| t == "$write"@
            ||| t == "$swrite"@
            ||| t == "$sformat"@
            ||| t == "$cast"@
            ||| t == "$sformatf"@
            ||| t == "$psprintf"@
            ||| t == "$realtime"@
            ||| t == "$time"@
            ||| t == "$stime"@
            ||| t == "$typename"@
        },
        Place::BinarySymbol => {
            ||| t == "+"@
            ||| t == "-"@
            ||| t == "*"@
            ||| t == "&"@
            ||| t == "|"@
            ||| t == "^"@
            ||| t == "=="@
            ||| t == "!="@
            ||| t == "<"@
            ||| t == ">"@
            ||| t == "<="@
            ||| t == ">="@
            ||| t == "<<"@
            ||| t == ">>"@
            ||| t == "&&"@
            ||| t == "||"@
        },
        Place::UnarySymbol => {
            ||| t == "~"@
            ||| t == "!"@
            ||| t == "-"@
            ||| t == "+"@
            ||| t == "&"@
            ||| t == "|"@
            ||| t == "^"@
        },
        Place::ExpressionRoot => {
            ||| t == "kNumber"@
            ||| t == "TK_StringLiteral"@
            ||| t == "null"@
            ||| t == "kConcatenationExpression"@
            ||| t == "kSystemTFCall"@
            ||| t == "kClassNew"@
            ||| t == "kBinaryExpression"@
            ||| t == "kUnaryPrefixExpression"@
            ||| t == "kParenGroup"@
            ||| t == "kParenExpression"@
            ||| t == "kFunctionCall"@
            ||| t == "kReferenceCallBase"@
            ||| t == "kReference"@
            ||| t == "kLocalRoot"@
            ||| t == "kUnqualifiedId"@
            ||| t == "SymbolIdentifier"@
        },
        Place::Statement => {
            ||| t == "kAlwaysStatement"@
            ||| t == "kInitialStatement"@
            ||| t == "kProceduralTimingControlStatement"@
            ||| t == "kBlockingAssignmentStatement"@
            ||| t == "kNonblockingAssignmentStatement"@
            ||| t == "kAssignModifyStatement"@
            ||| t == "kConditionalStatement"@
            ||| t == "kCaseStatement"@
            ||| t == "kBlockingEventTriggerStatement"@
            ||| t == "kWaitStatement"@
            ||| t == "kWhileLoopStatement"@
            ||| t == "kDoWhileLoopStatement"@
            ||| t == "kForeverLoopStatement"@
            ||| t == "kForeachLoopStatement"@
            ||| t == "kJumpStatement"@
            ||| t == "kStatement"@
            ||| t == "kNullStatement"@
        },
        Place::StrengthToken => {
            ||| t == "supply0"@
            ||| t == "supply1"@
            ||| t == "strong0"@
            ||| t == "strong1"@
            ||| t == "pull0"@
            ||| t == "pull1"@
            ||| t == "weak0"@
            ||| t == "weak1"@
            ||| t == "highz0"@
            ||| t == "highz1"@
            ||| t == "large"@
            ||| t == "medium"@
            ||| t == "small"@
        },
    }
}

fn description(t: &str) -> (r: bool)
    ensures
        r == listed(Place::Description, t@),
{
    str_eq(t, "kModuleDeclaration")
        || str_eq(t, "kPackageDeclaration")
        || str_eq(t, "kClassDeclaration")
        || str_eq(t, "kFunctionDeclaration")
        || str_eq(t, "kTaskDeclaration")
        || str_eq(t, "kDPIImportItem")
}

fn module_item(t: &str) -> (r: bool)
    ensures
        r == listed(Place::ModuleItem, t@),
{
    str_eq(t, "kDataDeclaration")
        || str_eq(t, "kNetDeclaration")
        || str_eq(t, "kAlwaysStatement")
        || str_eq(t, "kInitialStatement")
        || str_eq(t, "kContinuousAssignmentStatement")
        || str_eq(t, "kFunctionDeclaration")
        || str_eq(t, "kTaskDeclaration")
        || str_eq(t, "kDPIImportItem")
        || str_eq(t, "kClassDeclaration")
        || str_eq(t, "kTypeDeclaration")
        || str_eq(t, "kModuleItemList")
        || str_eq(t, "kPackageItemList")
}

fn package_item(t: &str) -> (r: bool)
    ensures
        r == listed(Place::PackageItem, t@),
{
    str_eq(t, "kDataDeclaration")
        || str_eq(t, "kNetDeclaration")
        || str_eq(t, "kAlwaysStatement")
        || str_eq(t, "kInitialStatement")
        || str_eq(t, "kContinuousAssignmentStatement")
        || str_eq(t, "kFunctionDeclaration")
        || str_eq(t, "kTaskDeclaration")
        || str_eq(t, "kDPIImportItem")
        || str_eq(t, "kClassDeclaration")
        || str_eq(t, "kParamDeclaration")
        || str_eq(t, "kTypeDeclaration")
        || str_eq(t, "kModuleItemList")
        || str_eq(t, "kPackageItemList")
}

fn net_type(t: &str) -> (r: bool)
    ensures
        r == listed(Place::NetType, t@),
{
    str_eq(t, "wire")
        || str_eq(t, "tri")
        || str_eq(t, "wand")
        || str_eq(t, "triand")
        || str_eq(t, "wor")
        || str_eq(t, "trior")
        || str_eq(t, "tri0")
        || str_eq(t, "tri1")
        || str_eq(t, "supply0")
        || str_eq(t, "supply1")
}

fn resolved_net(t: &str) -> (r: bool)
    ensures
        r == listed(Place::ResolvedNet, t@),
{
    str_eq(t, "tri")
        || str_eq(t, "wand")
        || str_eq(t, "triand")
        || str_eq(t, "wor")
        || str_eq(t, "trior")
        || str_eq(t, "tri0")
        || str_eq(t, "tri1")
        || str_eq(t, "supply0")
        || str_eq(t, "supply1")
}

fn system_call(t: &str) -> (r: bool)
    ensures
        r == listed(Place::SystemCall, t@),
{
    str_eq(t, "$display")
        || str_eq(t, "$write")
        || str_eq(t, "$swrite")
        || str_eq(t, "$sformat")
        || str_eq(t, "$cast")
        || str_eq(t, "$sformatf")
        || str_eq(t, "$psprintf")
        || str_eq(t, "$realtime")
        || str_eq(t, "$time")
        || str_eq(t, "$stime")
        || str_eq(t, "$typename")
}

fn binary_symbol(t: &str) -> (r: bool)
    ensures
        r == listed(Place::BinarySymbol, t@),
{
    str_eq(t, "+")
        || str_eq(t, "-")
        || str_eq(t, "*")
        || str_eq(t, "&")
        || str_eq(t, "|")
        || str_eq(t, "^")
        || str_eq(t, "==")
        || str_eq(t, "!=")
        || str_eq(t, "<")
        || str_eq(t, ">")
        || str_eq(t, "<=")
        || str_eq(t, ">=")
        || str_eq(t, "<<")
        || str_eq(t, ">>")
        || str_eq(t, "&&")
        || str_eq(t, "||")
}

fn unary_symbol(t: &str) -> (r: bool)
    ensures
        r == listed(Place::UnarySymbol, t@),
{
    str_eq(t, "~")
        || str_eq(t, "!")
        || str_eq(t, "-")
        || str_eq(t, "+")
        || str_eq(t, "&")
        || str_eq(t, "|")
        || str_eq(t, "^")
}

fn expression_root(t: &str) -> (r: bool)
    ensures
        r == listed(Place::ExpressionRoot, t@),
{
    str_eq(t, "kNumber")
        || str_eq(t, "TK_StringLiteral")
        || str_eq(t, "null")
        || str_eq(t, "kConcatenationExpression")
        || str_eq(t, "kSystemTFCall")
        || str_eq(t, "kClassNew")
        || str_eq(t, "kBinaryExpression")
        || str_eq(t, "kUnaryPrefixExpression")
        || str_eq(t, "kParenGroup")
        || str_eq(t, "kParenExpression")
        || str_eq(t, "kFunctionCall")
        || str_eq(t, "kReferenceCallBase")
        || str_eq(t, "kReference")
        || str_eq(t, "kLocalRoot")
        || str_eq(t, "kUnqualifiedId")
        || str_eq(t, "SymbolIdentifier")
}

fn statement(t: &str) -> (r: bool)
    ensures
        r == listed(Place::Statement, t@),
{
    str_eq(t, "kAlwaysStatement")
        || str_eq(t, "kInitialStatement")
        || str_eq(t, "kProceduralTimingControlStatement")
        || str_eq(t, "kBlockingAssignmentStatement")
        || str_eq(t, "kNonblockingAssignmentStatement")
        || str_eq(t, "kAssignModifyStatement")
        || str_eq(t, "kConditionalStatement")
        || str_eq(t, "kCaseStatement")
        || str_eq(t, "kBlockingEventTriggerStatement")
        || str_eq(t, "kWaitStatement")
        || str_eq(t, "kWhileLoopStatement")
        || str_eq(t, "kDoWhileLoopStatement")
        || str_eq(t, "kForeverLoopStatement")
        || str_eq(t, "kForeachLoopStatement")
        || str_eq(t, "kJumpStatement")
        || str_eq(t, "kStatement")
        || str_eq(t, "kNullStatement")
}

fn strength_token(t: &str) -> (r: bool)
    ensures
        r == listed(Place::StrengthToken, t@),
{
    str_eq(t, "supply0")
        || str_eq(t, "supply1")
        || str_eq(t, "strong0")
        || str_eq(t, "strong1")
        || str_eq(t, "pull0")
        || str_eq(t, "pull1")
        || str_eq(t, "weak0")
        || str_eq(t, "weak1")
        || str_eq(t, "highz0")
        || str_eq(t, "highz1")
        || str_eq(t, "large")
        || str_eq(t, "medium")
        || str_eq(t, "small")
}

/// Whether a word is one of the list of a place.
pub fn is_listed(place: Place, t: &str) -> (r: bool)
    ensures
        r == listed(place, t@),
{
    match place {
        Place::Description => description(t),
        Place::ModuleItem => module_item(t),
        Place::PackageItem => package_item(t),
        Place::NetType => net_type(t),
        Place::ResolvedNet => resolved_net(t),
        Place::SystemCall => system_call(t),
        Place::BinarySymbol => binary_symbol(t),
        Place::UnarySymbol => unary_symbol(t),
        Place::ExpressionRoot => expression_root(t),
        Place::Statement => statement(t),
        Place::StrengthToken => strength_token(t),
    }
}

} // verus!
