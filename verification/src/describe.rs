//! A one-line rendering of expressions for messages.
use vstd::prelude::*;

use crate::ast::{exprs_view, type_refs_view, BinOp, Expr, TypeRef, UnaryOp};
use crate::ast_model::{ExprV, TypeRefV};
use crate::literal::rendered;
use crate::logic::LogicVec;
use crate::message::{text3, text5, text7, text9};

verus! {

/// The `Debug` rendering of a string slice: quoted, with escapes.
pub uninterp spec fn quoted(s: Seq<char>) -> Seq<char>;

/// Calls the `Debug` formatting of `str`. Its result depends on the string
/// alone; which characters it escapes is left unsaid.
#[verifier::external_body]
fn quote(s: &str) -> (r: String)
    ensures
        r@ == quoted(s@),
{
    format!("{:?}", s)
}

/// The name of a unary operator.
pub open spec fn unary_name(op: UnaryOp) -> Seq<char> {
    match op {
        UnaryOp::BitNot => "BitNot"@,
        UnaryOp::LogNot => "LogNot"@,
        UnaryOp::Neg => "Neg"@,
        UnaryOp::Plus => "Plus"@,
        UnaryOp::ReduceAnd => "ReduceAnd"@,
        UnaryOp::ReduceOr => "ReduceOr"@,
        UnaryOp::ReduceXor => "ReduceXor"@,
    }
}

/// The name of a binary operator.
pub open spec fn binary_name(op: BinOp) -> Seq<char> {
    match op {
        BinOp::Add => "Add"@,
        BinOp::Sub => "Sub"@,
        BinOp::Mul => "Mul"@,
        BinOp::And => "And"@,
        BinOp::Or => "Or"@,
        BinOp::Xor => "Xor"@,
        BinOp::Eq => "Eq"@,
        BinOp::Neq => "Neq"@,
        BinOp::Lt => "Lt"@,
        BinOp::Gt => "Gt"@,
        BinOp::Le => "Le"@,
        BinOp::Ge => "Ge"@,
        BinOp::Shl => "Shl"@,
        BinOp::Shr => "Shr"@,
        BinOp::LogAnd => "LogAnd"@,
        BinOp::LogOr => "LogOr"@,
    }
}

/// The items of a list separated by commas, without brackets.
pub open spec fn listed(s: Seq<Seq<char>>) -> Seq<char>
    decreases s.len(),
{
    if s.len() == 0 {
        ""@
    } else if s.len() == 1 {
        s[0]
    } else {
        listed(s.drop_last()) + ", "@ + s.last()
    }
}

/// The rendering of a type reference.
pub open spec fn type_text(t: TypeRefV) -> Seq<char>
    decreases t,
{
    "TypeRef { name: "@ + quoted(t.name) + ", args: ["@ + listed(type_list(t.args)) + "] }"@
}

/// The renderings of type references.
pub open spec fn type_list(s: Seq<TypeRefV>) -> Seq<Seq<char>>
    decreases s,
{
    Seq::new(
        s.len(),
        |i: int|
            if 0 <= i < s.len() {
                type_text(s[i])
            } else {
                arbitrary()
            },
    )
}

/// The rendering of an expression.
pub open spec fn expr_text(e: ExprV) -> Seq<char>
    decreases e,
{
    match e {
        ExprV::Literal(v) => "Literal(LogicVec("@ + rendered(v) + "))"@,
        ExprV::Str(s) => "Str("@ + quoted(s) + ")"@,
        ExprV::Ref(s) => "Ref("@ + quoted(s) + ")"@,
        ExprV::Unary { op, operand } => "Unary { op: "@ + unary_name(op) + ", operand: "@
            + expr_text(*operand) + " }"@,
        ExprV::Binary { op, lhs, rhs } => "Binary { op: "@ + binary_name(op) + ", lhs: "@
            + expr_text(*lhs) + ", rhs: "@ + expr_text(*rhs) + " }"@,
        ExprV::Call { name, args } => "Call { name: "@ + quoted(name) + ", args: ["@ + listed(
            expr_list(args),
        ) + "] }"@,
        ExprV::Field { obj, field } => "Field { obj: "@ + expr_text(*obj) + ", field: "@ + quoted(
            field,
        ) + " }"@,
        ExprV::MethodCall { obj, method, args } => "MethodCall { obj: "@ + expr_text(*obj)
            + ", method: "@ + quoted(method) + ", args: ["@ + listed(expr_list(args)) + "] }"@,
        ExprV::StaticCall { class_name, class_args, method, args } => "StaticCall { class_name: "@
            + quoted(class_name) + ", class_args: ["@ + listed(type_list(class_args))
            + "], method: "@ + quoted(method) + ", args: ["@ + listed(expr_list(args)) + "] }"@,
        ExprV::StaticRef { class_name, field } => "StaticRef { class_name: "@ + quoted(class_name)
            + ", field: "@ + quoted(field) + " }"@,
        ExprV::Index { base, index } => "Index { base: "@ + expr_text(*base) + ", index: "@
            + expr_text(*index) + " }"@,
        ExprV::PartSelect { base, left, right } => "PartSelect { base: "@ + expr_text(*base)
            + ", left: "@ + expr_text(*left) + ", right: "@ + expr_text(*right) + " }"@,
        ExprV::New { args } => "New { args: ["@ + listed(expr_list(args)) + "] }"@,
        ExprV::Null => "Null"@,
        ExprV::Concat(parts) => "Concat(["@ + listed(expr_list(parts)) + "])"@,
        ExprV::SysCall { name, args } => "SysCall { name: "@ + quoted(name) + ", args: ["@ + listed(
            expr_list(args),
        ) + "] }"@,
    }
}

/// The renderings of expressions.
pub open spec fn expr_list(s: Seq<ExprV>) -> Seq<Seq<char>>
    decreases s,
{
    Seq::new(
        s.len(),
        |i: int|
            if 0 <= i < s.len() {
                expr_text(s[i])
            } else {
                arbitrary()
            },
    )
}

fn unary_text(op: UnaryOp) -> (r: &'static str)
    ensures
        r@ == unary_name(op),
{
    match op {
        UnaryOp::BitNot => "BitNot",
        UnaryOp::LogNot => "LogNot",
        UnaryOp::Neg => "Neg",
        UnaryOp::Plus => "Plus",
        UnaryOp::ReduceAnd => "ReduceAnd",
        UnaryOp::ReduceOr => "ReduceOr",
        UnaryOp::ReduceXor => "ReduceXor",
    }
}

fn binary_text(op: BinOp) -> (r: &'static str)
    ensures
        r@ == binary_name(op),
{
    match op {
        BinOp::Add => "Add",
        BinOp::Sub => "Sub",
        BinOp::Mul => "Mul",
        BinOp::And => "And",
        BinOp::Or => "Or",
        BinOp::Xor => "Xor",
        BinOp::Eq => "Eq",
        BinOp::Neq => "Neq",
        BinOp::Lt => "Lt",
        BinOp::Gt => "Gt",
        BinOp::Le => "Le",
        BinOp::Ge => "Ge",
        BinOp::Shl => "Shl",
        BinOp::Shr => "Shr",
        BinOp::LogAnd => "LogAnd",
        BinOp::LogOr => "LogOr",
    }
}

fn describe_types(v: &Vec<TypeRef>) -> (r: String)
    ensures
        r@ == listed(type_list(type_refs_view(v@))),
    decreases v,
{
    let ghost all = type_list(type_refs_view(v@));
    let mut out: String = "".to_string();
    let mut i: usize = 0;
    while i < v.len()
        invariant
            i <= v@.len(),
            all == type_list(type_refs_view(v@)),
            all.len() == v@.len(),
            out@ == listed(all.take(i as int)),
        decreases v@.len() - i,
    {
        assert(decreases_to!(v => v@[i as int]));
        let one: String = describe_type(&v[i]);
        assert(one@ == all[i as int]);
        let ghost next = all.take(i + 1);
        assert(next.drop_last() =~= all.take(i as int));
        assert(next.last() == one@);
        out = if i == 0 {
            one
        } else {
            text3(out.as_str(), ", ", one.as_str())
        };
        i = i + 1;
    }
    assert(all.take(i as int) =~= all);
    out
}

fn describe_type(t: &TypeRef) -> (r: String)
    ensures
        r@ == type_text(t@),
    decreases t,
{
    let name: String = quote(t.name.as_str());
    let args: String = describe_types(&t.args);
    text5("TypeRef { name: ", name.as_str(), ", args: [", args.as_str(), "] }")
}

fn describe_exprs(v: &Vec<Expr>) -> (r: String)
    ensures
        r@ == listed(expr_list(exprs_view(v@))),
    decreases v,
{
    let ghost all = expr_list(exprs_view(v@));
    let mut out: String = "".to_string();
    let mut i: usize = 0;
    while i < v.len()
        invariant
            i <= v@.len(),
            all == expr_list(exprs_view(v@)),
            all.len() == v@.len(),
            out@ == listed(all.take(i as int)),
        decreases v@.len() - i,
    {
        assert(decreases_to!(v => v@[i as int]));
        let one: String = describe_expr(&v[i]);
        assert(one@ == all[i as int]);
        let ghost next = all.take(i + 1);
        assert(next.drop_last() =~= all.take(i as int));
        assert(next.last() == one@);
        out = if i == 0 {
            one
        } else {
            text3(out.as_str(), ", ", one.as_str())
        };
        i = i + 1;
    }
    assert(all.take(i as int) =~= all);
    out
}

/// Render an expression.
pub fn describe_expr(e: &Expr) -> (r: String)
    ensures
        r@ == expr_text(e@),
    decreases e,
{
    match e {
        Expr::Literal(v) => {
            let s: String = v.to_string();
            text3("Literal(LogicVec(", s.as_str(), "))")
        },
        Expr::Str(s) => {
            let q: String = quote(s.as_str());
            text3("Str(", q.as_str(), ")")
        },
        Expr::Ref(s) => {
            let q: String = quote(s.as_str());
            text3("Ref(", q.as_str(), ")")
        },
        Expr::Unary { op, operand } => {
            let a: String = describe_expr(operand);
            text5("Unary { op: ", unary_text(*op), ", operand: ", a.as_str(), " }")
        },
        Expr::Binary { op, lhs, rhs } => {
            let a: String = describe_expr(lhs);
            let b: String = describe_expr(rhs);
            text7(
                "Binary { op: ",
                binary_text(*op),
                ", lhs: ",
                a.as_str(),
                ", rhs: ",
                b.as_str(),
                " }",
            )
        },
        Expr::Call { name, args } => {
            let n: String = quote(name.as_str());
            let a: String = describe_exprs(args);
            text5("Call { name: ", n.as_str(), ", args: [", a.as_str(), "] }")
        },
        Expr::Field { obj, field } => {
            let o: String = describe_expr(obj);
            let f: String = quote(field.as_str());
            text5("Field { obj: ", o.as_str(), ", field: ", f.as_str(), " }")
        },
        Expr::MethodCall { obj, method, args } => {
            let o: String = describe_expr(obj);
            let m: String = quote(method.as_str());
            let a: String = describe_exprs(args);
            text7(
                "MethodCall { obj: ",
                o.as_str(),
                ", method: ",
                m.as_str(),
                ", args: [",
                a.as_str(),
                "] }",
            )
        },
        Expr::StaticCall { class_name, class_args, method, args } => {
            let c: String = quote(class_name.as_str());
            let t: String = describe_types(class_args);
            let m: String = quote(method.as_str());
            let a: String = describe_exprs(args);
            text9(
                "StaticCall { class_name: ",
                c.as_str(),
                ", class_args: [",
                t.as_str(),
                "], method: ",
                m.as_str(),
                ", args: [",
                a.as_str(),
                "] }",
            )
        },
        Expr::StaticRef { class_name, field } => {
            let c: String = quote(class_name.as_str());
            let f: String = quote(field.as_str());
            text5("StaticRef { class_name: ", c.as_str(), ", field: ", f.as_str(), " }")
        },
        Expr::Index { base, index } => {
            let b: String = describe_expr(base);
            let i: String = describe_expr(index);
            text5("Index { base: ", b.as_str(), ", index: ", i.as_str(), " }")
        },
        Expr::PartSelect { base, left, right } => {
            let b: String = describe_expr(base);
            let l: String = describe_expr(left);
            let h: String = describe_expr(right);
            text7(
                "PartSelect { base: ",
                b.as_str(),
                ", left: ",
                l.as_str(),
                ", right: ",
                h.as_str(),
                " }",
            )
        },
        Expr::New { args } => {
            let a: String = describe_exprs(args);
            text3("New { args: [", a.as_str(), "] }")
        },
        Expr::Null => "Null".to_string(),
        Expr::Concat(parts) => {
            let a: String = describe_exprs(parts);
            text3("Concat([", a.as_str(), "])")
        },
        Expr::SysCall { name, args } => {
            let n: String = quote(name.as_str());
            let a: String = describe_exprs(args);
            text5("SysCall { name: ", n.as_str(), ", args: [", a.as_str(), "] }")
        },
    }
}

} // verus!
