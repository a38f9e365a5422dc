//! Checks of expressions and statements against the supported subset.
use vstd::prelude::*;

use crate::ast::{arms_view, exprs_view, stmts_view, Expr, Lvalue, Stmt, TimingControl};
use crate::ast_model::{ExprV, LvalueV, StmtV, TimingControlV};
use crate::complaint::{either, outcome, unsupported, Complaint, Rejection};
use crate::message::{text2, text3};
use crate::text::str_eq;

verus! {

/// The complaint about a type name: some built-in types have no runtime.
pub open spec fn type_complaint(name: Option<Seq<char>>) -> Complaint {
    match name {
        Some(n) => if n == "process"@ || n == "mailbox"@ || n == "semaphore"@ {
            Some("builtin type '"@ + n + "' has no conformant runtime implementation"@)
        } else {
            None
        },
        None => None,
    }
}

/// Whether a system function is supported with a number of arguments.
pub open spec fn system_function(name: Seq<char>, args: nat) -> bool {
    if name == "$sformatf"@ || name == "$psprintf"@ {
        true
    } else if name == "$realtime"@ || name == "$time"@ || name == "$stime"@ {
        args == 0
    } else if name == "$typename"@ {
        args == 1
    } else if name == "$cast"@ {
        args == 2
    } else {
        false
    }
}

/// Whether a system task is supported with the given arguments.
pub open spec fn system_task(name: Seq<char>, args: Seq<ExprV>) -> bool {
    if name == "$display"@ || name == "$write"@ {
        true
    } else if name == "$swrite"@ || name == "$sformat"@ {
        args.len() > 0 && args[0] is Ref
    } else if name == "$cast"@ {
        args.len() == 2
    } else {
        false
    }
}

/// The first complaint about an expression.
pub open spec fn expr_complaint(e: ExprV) -> Complaint
    decreases e,
{
    match e {
        ExprV::Unary { operand, .. } => expr_complaint(*operand),
        ExprV::Binary { lhs, rhs, .. } => either(expr_complaint(*lhs), expr_complaint(*rhs)),
        ExprV::Call { args, .. } => exprs_complaint(args),
        ExprV::New { args } => exprs_complaint(args),
        ExprV::Field { obj, .. } => expr_complaint(*obj),
        ExprV::MethodCall { obj, args, .. } => either(expr_complaint(*obj), exprs_complaint(args)),
        ExprV::StaticCall { class_name, args, .. } => either(
            type_complaint(Some(class_name)),
            exprs_complaint(args),
        ),
        ExprV::Index { base, index } => either(expr_complaint(*base), expr_complaint(*index)),
        ExprV::PartSelect { base, left, right } => either(
            expr_complaint(*base),
            either(expr_complaint(*left), expr_complaint(*right)),
        ),
        ExprV::Concat(parts) => exprs_complaint(parts),
        ExprV::SysCall { name, args } => if system_function(name, args.len()) {
            exprs_complaint(args)
        } else {
            Some("system function "@ + name)
        },
        ExprV::StaticRef { class_name, .. } => type_complaint(Some(class_name)),
        ExprV::Literal(_) | ExprV::Str(_) | ExprV::Ref(_) | ExprV::Null => None,
    }
}

/// The first complaint about a list of expressions.
pub open spec fn exprs_complaint(s: Seq<ExprV>) -> Complaint
    decreases s,
{
    if s.len() == 0 {
        None
    } else {
        either(expr_complaint(s[0]), exprs_complaint(s.skip(1)))
    }
}

/// Whether an expression is constant given the names that stand for constants.
pub open spec fn constant_over(e: ExprV, names: Seq<Seq<char>>) -> bool
    decreases e,
{
    match e {
        ExprV::Literal(_) => true,
        ExprV::Ref(name) => names.contains(name),
        ExprV::Unary { operand, .. } => constant_over(*operand, names),
        ExprV::Binary { lhs, rhs, .. } => constant_over(*lhs, names) && constant_over(*rhs, names),
        ExprV::PartSelect { base, left, right } => constant_over(*base, names) && constant_over(
            *left,
            names,
        ) && constant_over(*right, names),
        ExprV::Concat(parts) => all_constant_over(parts, names),
        _ => false,
    }
}

/// Whether every expression of a list is constant.
pub open spec fn all_constant_over(s: Seq<ExprV>, names: Seq<Seq<char>>) -> bool
    decreases s,
{
    s.len() == 0 || (constant_over(s[0], names) && all_constant_over(s.skip(1), names))
}

/// The first complaint about an assignment target.
pub open spec fn lvalue_complaint(l: LvalueV) -> Complaint {
    either(
        match l.receiver {
            Some(r) => expr_complaint(*r),
            None => None,
        },
        match l.index {
            Some(i) => expr_complaint(i),
            None => None,
        },
    )
}

/// The first complaint about a timing control. Delays must be constant and
/// sensitivity lists have one entry.
pub open spec fn control_complaint(c: TimingControlV, names: Seq<Seq<char>>) -> Complaint {
    match c {
        TimingControlV::Delay(e) => if constant_over(e, names) {
            expr_complaint(e)
        } else {
            Some("nonconstant procedural delays are not implemented"@)
        },
        TimingControlV::Event(events) => if events.len() == 1 {
            expr_complaint(events[0].expr)
        } else {
            Some("multi-event sensitivity requires WaitAny semantics"@)
        },
        TimingControlV::Wait(e) => expr_complaint(e),
    }
}

/// The first complaint about a statement, given the names of the constants.
pub open spec fn stmt_complaint(s: StmtV, names: Seq<Seq<char>>) -> Complaint
    decreases s,
{
    match s {
        StmtV::Block(list) => stmts_complaint(list, names),
        StmtV::VarDecl(var) => match var.init {
            Some(e) => expr_complaint(e),
            None => None,
        },
        StmtV::Timed { control, body } => either(
            control_complaint(control, names),
            stmt_complaint(*body, names),
        ),
        StmtV::Blocking { lhs, rhs } => either(lvalue_complaint(lhs), expr_complaint(rhs)),
        StmtV::Nonblocking { lhs, rhs } => either(lvalue_complaint(lhs), expr_complaint(rhs)),
        StmtV::If { cond, then_branch, else_branch } => either(
            expr_complaint(cond),
            either(
                stmt_complaint(*then_branch, names),
                match else_branch {
                    Some(b) => stmt_complaint(*b, names),
                    None => None,
                },
            ),
        ),
        StmtV::While { cond, body } => either(expr_complaint(cond), stmt_complaint(*body, names)),
        StmtV::DoWhile { cond, body } => either(expr_complaint(cond), stmt_complaint(*body, names)),
        StmtV::Case { expr, items, default } => either(
            expr_complaint(expr),
            either(
                arms_complaint(items, names),
                match default {
                    Some(b) => stmt_complaint(*b, names),
                    None => None,
                },
            ),
        ),
        StmtV::Foreach { collection, body, .. } => either(
            expr_complaint(collection),
            stmt_complaint(*body, names),
        ),
        StmtV::SysCall { name, args } => if system_task(name, args) {
            exprs_complaint(args)
        } else {
            Some("system task "@ + name)
        },
        StmtV::Expr(e) => expr_complaint(e),
        StmtV::Trigger(e) => expr_complaint(e),
        StmtV::Return(e) => match e {
            Some(e) => expr_complaint(e),
            None => None,
        },
        StmtV::Fork { branches, .. } => stmts_complaint(branches, names),
        StmtV::Break | StmtV::Continue | StmtV::Null => None,
    }
}

/// The first complaint about a list of statements.
pub open spec fn stmts_complaint(s: Seq<StmtV>, names: Seq<Seq<char>>) -> Complaint
    decreases s,
{
    if s.len() == 0 {
        None
    } else {
        either(stmt_complaint(s[0], names), stmts_complaint(s.skip(1), names))
    }
}

/// The first complaint about the arms of a `case`.
pub open spec fn arms_complaint(s: Seq<(Seq<ExprV>, StmtV)>, names: Seq<Seq<char>>) -> Complaint
    decreases s,
{
    if s.len() == 0 {
        None
    } else {
        either(
            exprs_complaint(s[0].0),
            either(stmt_complaint(s[0].1, names), arms_complaint(s.skip(1), names)),
        )
    }
}

/// The names of a list of strings.
pub open spec fn name_views(v: Seq<String>) -> Seq<Seq<char>> {
    v.map_values(|s: String| s@)
}

/// Whether a list of strings holds a name.
pub fn holds_name(names: &Vec<String>, name: &String) -> (r: bool)
    ensures
        r == name_views(names@).contains(name@),
{
    let mut i: usize = 0;
    while i < names.len()
        invariant
            i <= names@.len(),
            forall|k: int| 0 <= k < i ==> names@[k]@ != name@,
        decreases names@.len() - i,
    {
        if names[i] == *name {
            assert(name_views(names@)[i as int] == name@);
            return true;
        }
        i = i + 1;
    }
    assert forall|k: int| 0 <= k < name_views(names@).len() implies name_views(names@)[k] != name@ by {
        assert(names@[k]@ != name@);
    }
    false
}

/// Check a type name.
pub fn validate_type(name: &String) -> (r: Result<(), Rejection>)
    ensures
        outcome(r) == type_complaint(Some(name@)),
{
    let n: &str = name.as_str();
    if str_eq(n, "process") || str_eq(n, "mailbox") || str_eq(n, "semaphore") {
        return unsupported(
            text3("builtin type '", n, "' has no conformant runtime implementation"),
        );
    }
    Ok(())
}

/// Check an optional type name.
pub fn validate_optional_type(name: &Option<String>) -> (r: Result<(), Rejection>)
    ensures
        outcome(r) == type_complaint(
            match *name {
                Some(n) => Some(n@),
                None => None,
            },
        ),
{
    match name {
        Some(n) => validate_type(n),
        None => Ok(()),
    }
}

fn is_system_function(name: &str, args: usize) -> (r: bool)
    ensures
        r == system_function(name@, args as nat),
{
    if str_eq(name, "$sformatf") || str_eq(name, "$psprintf") {
        true
    } else if str_eq(name, "$realtime") || str_eq(name, "$time") || str_eq(name, "$stime") {
        args == 0
    } else if str_eq(name, "$typename") {
        args == 1
    } else if str_eq(name, "$cast") {
        args == 2
    } else {
        false
    }
}

fn is_system_task(name: &str, args: &Vec<Expr>) -> (r: bool)
    ensures
        r == system_task(name@, exprs_view(args@)),
{
    if str_eq(name, "$display") || str_eq(name, "$write") {
        true
    } else if str_eq(name, "$swrite") || str_eq(name, "$sformat") {
        if args.len() == 0 {
            false
        } else {
            match &args[0] {
                Expr::Ref(_) => true,
                _ => false,
            }
        }
    } else if str_eq(name, "$cast") {
        args.len() == 2
    } else {
        false
    }
}

/// Check an expression.
pub fn validate_expr(e: &Expr) -> (r: Result<(), Rejection>)
    ensures
        outcome(r) == expr_complaint(e@),
    decreases e,
{
    match e {
        Expr::Unary { operand, .. } => validate_expr(operand),
        Expr::Binary { lhs, rhs, .. } => {
            if let Err(x) = validate_expr(lhs) {
                return Err(x);
            }
            validate_expr(rhs)
        },
        Expr::Call { args, .. } => validate_exprs(args),
        Expr::New { args } => validate_exprs(args),
        Expr::Field { obj, .. } => validate_expr(obj),
        Expr::MethodCall { obj, args, .. } => {
            if let Err(x) = validate_expr(obj) {
                return Err(x);
            }
            validate_exprs(args)
        },
        Expr::StaticCall { class_name, args, .. } => {
            if let Err(x) = validate_type(class_name) {
                return Err(x);
            }
            validate_exprs(args)
        },
        Expr::Index { base, index } => {
            if let Err(x) = validate_expr(base) {
                return Err(x);
            }
            validate_expr(index)
        },
        Expr::PartSelect { base, left, right } => {
            if let Err(x) = validate_expr(base) {
                return Err(x);
            }
            if let Err(x) = validate_expr(left) {
                return Err(x);
            }
            validate_expr(right)
        },
        Expr::Concat(parts) => validate_exprs(parts),
        Expr::SysCall { name, args } => {
            assert(exprs_view(args@).len() == args@.len());
            if !is_system_function(name.as_str(), args.len()) {
                return unsupported(text2("system function ", name.as_str()));
            }
            validate_exprs(args)
        },
        Expr::StaticRef { class_name, .. } => validate_type(class_name),
        Expr::Literal(_) | Expr::Str(_) | Expr::Ref(_) | Expr::Null => Ok(()),
    }
}

/// Check a list of expressions.
pub fn validate_exprs(v: &Vec<Expr>) -> (r: Result<(), Rejection>)
    ensures
        outcome(r) == exprs_complaint(exprs_view(v@)),
    decreases v,
{
    let ghost all = exprs_view(v@);
    let mut i: usize = 0;
    assert(all.skip(0) =~= all);
    while i < v.len()
        invariant
            i <= v@.len(),
            all == exprs_view(v@),
            exprs_complaint(all) == exprs_complaint(all.skip(i as int)),
        decreases v@.len() - i,
    {
        assert(decreases_to!(v => v@[i as int]));
        assert(all.skip(i as int)[0] == v@[i as int]@);
        assert(all.skip(i as int).skip(1) =~= all.skip(i + 1));
        if let Err(x) = validate_expr(&v[i]) {
            return Err(x);
        }
        i = i + 1;
    }
    Ok(())
}

/// Whether an expression is constant given the names that stand for constants.
pub fn is_constant_expr(e: &Expr, names: &Vec<String>) -> (r: bool)
    ensures
        r == constant_over(e@, name_views(names@)),
    decreases e,
{
    match e {
        Expr::Literal(_) => true,
        Expr::Ref(name) => holds_name(names, name),
        Expr::Unary { operand, .. } => is_constant_expr(operand, names),
        Expr::Binary { lhs, rhs, .. } => is_constant_expr(lhs, names) && is_constant_expr(
            rhs,
            names,
        ),
        Expr::PartSelect { base, left, right } => is_constant_expr(base, names) && is_constant_expr(
            left,
            names,
        ) && is_constant_expr(right, names),
        Expr::Concat(parts) => are_constant_exprs(parts, names),
        _ => false,
    }
}

fn are_constant_exprs(v: &Vec<Expr>, names: &Vec<String>) -> (r: bool)
    ensures
        r == all_constant_over(exprs_view(v@), name_views(names@)),
    decreases v,
{
    let ghost all = exprs_view(v@);
    let ghost known = name_views(names@);
    let mut i: usize = 0;
    assert(all.skip(0) =~= all);
    while i < v.len()
        invariant
            i <= v@.len(),
            all == exprs_view(v@),
            known == name_views(names@),
            all_constant_over(all, known) == all_constant_over(all.skip(i as int), known),
        decreases v@.len() - i,
    {
        assert(decreases_to!(v => v@[i as int]));
        assert(all.skip(i as int)[0] == v@[i as int]@);
        assert(all.skip(i as int).skip(1) =~= all.skip(i + 1));
        if !is_constant_expr(&v[i], names) {
            return false;
        }
        i = i + 1;
    }
    true
}

/// Check an assignment target.
pub fn validate_lvalue(l: &Lvalue) -> (r: Result<(), Rejection>)
    ensures
        outcome(r) == lvalue_complaint(l@),
{
    if let Some(receiver) = &l.receiver {
        if let Err(x) = validate_expr(receiver) {
            return Err(x);
        }
    }
    if let Some(index) = &l.index {
        return validate_expr(index);
    }
    Ok(())
}

fn validate_control(c: &TimingControl, names: &Vec<String>) -> (r: Result<(), Rejection>)
    ensures
        outcome(r) == control_complaint(c@, name_views(names@)),
{
    match c {
        TimingControl::Delay(e) => {
            if !is_constant_expr(e, names) {
                return unsupported(
                    "nonconstant procedural delays are not implemented".to_string(),
                );
            }
            validate_expr(e)
        },
        TimingControl::Event(events) => {
            if events.len() != 1 {
                return unsupported(
                    "multi-event sensitivity requires WaitAny semantics".to_string(),
                );
            }
            validate_expr(&events[0].expr)
        },
        TimingControl::Wait(e) => validate_expr(e),
    }
}

/// Check a statement, given the names of the constants.
pub fn validate_stmt(s: &Stmt, names: &Vec<String>) -> (r: Result<(), Rejection>)
    ensures
        outcome(r) == stmt_complaint(s@, name_views(names@)),
    decreases s,
{
    match s {
        Stmt::Block(list) => validate_stmts(list, names),
        Stmt::VarDecl(var) => match &var.init {
            Some(e) => validate_expr(e),
            None => Ok(()),
        },
        Stmt::Timed { control, body } => {
            if let Err(x) = validate_control(control, names) {
                return Err(x);
            }
            validate_stmt(body, names)
        },
        Stmt::Blocking { lhs, rhs } => {
            if let Err(x) = validate_lvalue(lhs) {
                return Err(x);
            }
            validate_expr(rhs)
        },
        Stmt::Nonblocking { lhs, rhs } => {
            if let Err(x) = validate_lvalue(lhs) {
                return Err(x);
            }
            validate_expr(rhs)
        },
        Stmt::If { cond, then_branch, else_branch } => {
            if let Err(x) = validate_expr(cond) {
                return Err(x);
            }
            if let Err(x) = validate_stmt(then_branch, names) {
                return Err(x);
            }
            match else_branch {
                Some(branch) => validate_stmt(branch, names),
                None => Ok(()),
            }
        },
        Stmt::While { cond, body } => {
            if let Err(x) = validate_expr(cond) {
                return Err(x);
            }
            validate_stmt(body, names)
        },
        Stmt::DoWhile { cond, body } => {
            if let Err(x) = validate_expr(cond) {
                return Err(x);
            }
            validate_stmt(body, names)
        },
        Stmt::Case { expr, items, default } => {
            if let Err(x) = validate_expr(expr) {
                return Err(x);
            }
            if let Err(x) = validate_arms(items, names) {
                return Err(x);
            }
            match default {
                Some(body) => validate_stmt(body, names),
                None => Ok(()),
            }
        },
        Stmt::Foreach { collection, body, .. } => {
            if let Err(x) = validate_expr(collection) {
                return Err(x);
            }
            validate_stmt(body, names)
        },
        Stmt::SysCall { name, args } => {
            if !is_system_task(name.as_str(), args) {
                return unsupported(text2("system task ", name.as_str()));
            }
            validate_exprs(args)
        },
        Stmt::Expr(e) => validate_expr(e),
        Stmt::Trigger(e) => validate_expr(e),
        Stmt::Return(e) => match e {
            Some(e) => validate_expr(e),
            None => Ok(()),
        },
        Stmt::Fork { branches, .. } => validate_stmts(branches, names),
        Stmt::Break | Stmt::Continue | Stmt::Null => Ok(()),
    }
}

fn validate_stmts(v: &Vec<Stmt>, names: &Vec<String>) -> (r: Result<(), Rejection>)
    ensures
        outcome(r) == stmts_complaint(stmts_view(v@), name_views(names@)),
    decreases v,
{
    let ghost all = stmts_view(v@);
    let ghost known = name_views(names@);
    let mut i: usize = 0;
    assert(all.skip(0) =~= all);
    while i < v.len()
        invariant
            i <= v@.len(),
            all == stmts_view(v@),
            known == name_views(names@),
            stmts_complaint(all, known) == stmts_complaint(all.skip(i as int), known),
        decreases v@.len() - i,
    {
        assert(decreases_to!(v => v@[i as int]));
        assert(all.skip(i as int)[0] == v@[i as int]@);
        assert(all.skip(i as int).skip(1) =~= all.skip(i + 1));
        if let Err(x) = validate_stmt(&v[i], names) {
            return Err(x);
        }
        i = i + 1;
    }
    Ok(())
}

fn validate_arms(v: &Vec<(Vec<Expr>, Stmt)>, names: &Vec<String>) -> (r: Result<(), Rejection>)
    ensures
        outcome(r) == arms_complaint(arms_view(v@), name_views(names@)),
    decreases v,
{
    let ghost all = arms_view(v@);
    let ghost known = name_views(names@);
    let mut i: usize = 0;
    assert(all.skip(0) =~= all);
    while i < v.len()
        invariant
            i <= v@.len(),
            all == arms_view(v@),
            known == name_views(names@),
            arms_complaint(all, known) == arms_complaint(all.skip(i as int), known),
        decreases v@.len() - i,
    {
        assert(decreases_to!(v => v@[i as int]));
        assert(decreases_to!(v@[i as int] => v@[i as int].1));
        assert(all.skip(i as int)[0] == (exprs_view(v@[i as int].0@), v@[i as int].1@));
        assert(all.skip(i as int).skip(1) =~= all.skip(i + 1));
        if let Err(x) = validate_exprs(&v[i].0) {
            return Err(x);
        }
        if let Err(x) = validate_stmt(&v[i].1, names) {
            return Err(x);
        }
        i = i + 1;
    }
    Ok(())
}

} // verus!
