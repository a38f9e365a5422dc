//! Checks of the signals of one module: continuous assignments and procedural
//! writes.
use vstd::arithmetic::power2::pow2;
use vstd::prelude::*;

use crate::ast::{
    arms_view, exprs_view, stmts_view, views, BinOp, Expr, Lvalue, Module, ModuleItem, Port,
    PortDir, Stmt, UnaryOp,
};
use crate::ast_model::{ExprV, LvalueV, ModuleItemV, ModuleV, PortV, StmtV};
use crate::bit::Bit;
use crate::bits::{all_known, value};
use crate::complaint::{either, outcome, unsupported, Complaint, Rejection};
use crate::delay_check::{
    assign_delay_name, delay_complaint, strength_complaint, validate_assign_delay, validate_strength,
};
use crate::describe::{describe_expr, expr_text};
use crate::design_check::parameter_names;
use crate::logic::LogicVec;
use crate::message::{text3, text4, text5, text9};
use crate::text::{decimal, number_text};

verus! {

/// The low word of a literal.
pub open spec fn low_word(bits: Seq<Bit>) -> nat {
    value(bits) % pow2(64)
}

/// The first port with a name.
pub open spec fn port_named(ports: Seq<PortV>, name: Seq<char>) -> Option<PortV>
    decreases ports.len(),
{
    if ports.len() == 0 {
        None
    } else if ports[0].name == name {
        Some(ports[0])
    } else {
        port_named(ports.skip(1), name)
    }
}

/// The width and signedness of the first variable or net with a name.
pub open spec fn declared_signal(items: Seq<ModuleItemV>, name: Seq<char>) -> Option<(u32, bool)>
    decreases items.len(),
{
    if items.len() == 0 {
        None
    } else {
        let rest = declared_signal(items.skip(1), name);
        match items[0] {
            ModuleItemV::Var(v) => if v.name == name {
                Some((v.width, v.signed))
            } else {
                rest
            },
            ModuleItemV::Net(n) => if n.name == name {
                Some((n.width, n.signed))
            } else {
                rest
            },
            _ => rest,
        }
    }
}

/// The width and signedness of a signal of a module, ports first.
pub open spec fn module_signal(m: ModuleV, name: Seq<char>) -> Option<(u32, bool)> {
    match port_named(m.ports, name) {
        Some(p) => Some((p.width, p.signed)),
        None => declared_signal(m.items, name),
    }
}

/// Whether a net declaration has a name.
pub open spec fn net_declared(items: Seq<ModuleItemV>, name: Seq<char>) -> bool {
    exists|i: int| 0 <= i < items.len() && #[trigger] is_net_named(items[i], name)
}

/// Whether an item declares a net with a name.
pub open spec fn is_net_named(item: ModuleItemV, name: Seq<char>) -> bool {
    item matches ModuleItemV::Net(n) && n.name == name
}

/// A net port with a name.
pub open spec fn is_net_port(p: PortV, name: Seq<char>) -> bool {
    p.name == name && p.is_net
}

/// A net port with a name that the module drives.
pub open spec fn is_driven_port(p: PortV, name: Seq<char>) -> bool {
    is_net_port(p, name) && (p.dir == PortDir::Output || p.dir == PortDir::Inout)
}

/// Whether a name is a net of a module.
pub open spec fn is_module_net(m: ModuleV, name: Seq<char>) -> bool {
    net_declared(m.items, name) || exists|i: int|
        0 <= i < m.ports.len() && #[trigger] is_net_port(m.ports[i], name)
}

/// Whether a name is a net that a module may drive.
pub open spec fn is_drivable(m: ModuleV, name: Seq<char>) -> bool {
    net_declared(m.items, name) || exists|i: int|
        0 <= i < m.ports.len() && #[trigger] is_driven_port(m.ports[i], name)
}

/// The larger of two widths.
pub open spec fn wider(a: u32, b: u32) -> u32 {
    if a > b {
        a
    } else {
        b
    }
}

/// The distance of two numbers.
pub open spec fn distance(a: nat, b: nat) -> nat {
    if a > b {
        (a - b) as nat
    } else {
        (b - a) as nat
    }
}

/// The number of bits between two constant bounds, both counted.
pub open spec fn part_width(left: ExprV, right: ExprV) -> Option<u32> {
    match (left, right) {
        (ExprV::Literal(l), ExprV::Literal(r)) => if all_known(l) && all_known(r) && distance(
            low_word(l),
            low_word(r),
        ) < u32::MAX {
            Some((distance(low_word(l), low_word(r)) + 1) as u32)
        } else {
            None
        },
        _ => None,
    }
}

/// The width of an expression over the signals of a module, where it is known.
pub open spec fn net_expr_width(m: ModuleV, e: ExprV) -> Option<u32>
    decreases e,
{
    match e {
        ExprV::Literal(v) => Some(v.len() as u32),
        ExprV::Ref(name) => match module_signal(m, name) {
            Some((w, _)) => Some(w),
            None => None,
        },
        ExprV::Unary { op, operand } => match op {
            UnaryOp::LogNot | UnaryOp::ReduceAnd | UnaryOp::ReduceOr | UnaryOp::ReduceXor => Some(
                1u32,
            ),
            UnaryOp::BitNot | UnaryOp::Neg | UnaryOp::Plus => net_expr_width(m, *operand),
        },
        ExprV::Binary { op, lhs, rhs } => match (
            net_expr_width(m, *lhs),
            net_expr_width(m, *rhs),
        ) {
            (Some(l), Some(r)) => Some(
                match op {
                    BinOp::Eq | BinOp::Neq | BinOp::Lt | BinOp::Gt | BinOp::Le | BinOp::Ge
                    | BinOp::LogAnd | BinOp::LogOr => 1u32,
                    BinOp::Shl | BinOp::Shr => l,
                    BinOp::Add | BinOp::Sub | BinOp::Mul | BinOp::And | BinOp::Or | BinOp::Xor => {
                        wider(l, r)
                    },
                },
            ),
            _ => None,
        },
        ExprV::Index { .. } => Some(1u32),
        ExprV::PartSelect { left, right, .. } => part_width(*left, *right),
        ExprV::Concat(parts) => net_exprs_width(m, parts),
        _ => None,
    }
}

/// The sum of the widths of a list, where all are known and the sum fits.
pub open spec fn net_exprs_width(m: ModuleV, s: Seq<ExprV>) -> Option<u32>
    decreases s,
{
    if s.len() == 0 {
        Some(0u32)
    } else {
        match (net_exprs_width(m, s.drop_last()), net_expr_width(m, s.last())) {
            (Some(a), Some(b)) => if a + b <= u32::MAX {
                Some((a + b) as u32)
            } else {
                None
            },
            _ => None,
        }
    }
}

/// Whether a constant selects a bit of a vector of the given width.
pub open spec fn selects_bit(bound: Seq<Bit>, width: u32) -> bool {
    all_known(bound) && low_word(bound) < width
}

/// The width of an expression, 0 where it is unknown.
pub open spec fn width_or_zero(m: ModuleV, e: ExprV) -> u32 {
    match net_expr_width(m, e) {
        Some(w) => w,
        None => 0,
    }
}

/// The first complaint about the right-hand side of a continuous assignment.
pub open spec fn net_expr_complaint(m: ModuleV, e: ExprV) -> Complaint
    decreases e,
{
    let rejected: Complaint = Some(
        "unsupported continuous assignment expression in module '"@ + m.name + "': "@ + expr_text(
            e,
        ),
    );
    match e {
        ExprV::Literal(_) => None,
        ExprV::Ref(name) => match module_signal(m, name) {
            Some((_, false)) => None,
            _ => rejected,
        },
        ExprV::Unary { operand, .. } => net_expr_complaint(m, *operand),
        ExprV::Binary { lhs, rhs, .. } => either(
            net_expr_complaint(m, *lhs),
            net_expr_complaint(m, *rhs),
        ),
        ExprV::Index { base, index } => either(
            net_expr_complaint(m, *base),
            match *index {
                ExprV::Literal(i) => if selects_bit(i, width_or_zero(m, *base)) {
                    None
                } else {
                    Some("continuous packed index is out of range in module '"@ + m.name + "'"@)
                },
                _ => Some(
                    "continuous packed index must be a constant in module '"@ + m.name + "'"@,
                ),
            },
        ),
        ExprV::PartSelect { base, left, right } => either(
            net_expr_complaint(m, *base),
            match (*left, *right) {
                (ExprV::Literal(l), ExprV::Literal(r)) => {
                    let width = width_or_zero(m, *base);
                    if selects_bit(l, width) && selects_bit(r, width) {
                        None
                    } else {
                        Some("continuous part-select is out of range in module '"@ + m.name + "'"@)
                    }
                },
                _ => Some(
                    "continuous part-select bounds must be constant in module '"@ + m.name + "'"@,
                ),
            },
        ),
        ExprV::Concat(parts) => net_exprs_complaint(m, parts),
        _ => rejected,
    }
}

/// The first complaint about a list of such expressions.
pub open spec fn net_exprs_complaint(m: ModuleV, s: Seq<ExprV>) -> Complaint
    decreases s,
{
    if s.len() == 0 {
        None
    } else {
        either(net_expr_complaint(m, s[0]), net_exprs_complaint(m, s.skip(1)))
    }
}

/// The complaint about one continuous assignment: its target must be a whole
/// unsigned net of the same width as its right-hand side.
pub open spec fn assign_complaint(m: ModuleV, lhs: LvalueV, rhs: ExprV) -> Complaint {
    if lhs.receiver is Some || lhs.index is Some || lhs.scope is Some || !is_drivable(m, lhs.name) {
        Some(
            "continuous assignment target '"@ + m.name + "."@ + lhs.name + "' is not a whole net"@,
        )
    } else {
        match module_signal(m, lhs.name) {
            None => None,
            Some((_, true)) => Some(
                "signed continuous assignment target '"@ + m.name + "."@ + lhs.name
                    + "' is unsupported"@,
            ),
            Some((target, false)) => either(
                net_expr_complaint(m, rhs),
                match net_expr_width(m, rhs) {
                    None => Some(
                        "continuous assignment expression width is not statically known in module '"@
                            + m.name + "'"@,
                    ),
                    Some(w) => if w == target {
                        None
                    } else {
                        Some(
                            "continuous assignment width conversion is unsupported for '"@ + m.name
                                + "."@ + lhs.name + "': RHS is "@ + decimal(w as nat)
                                + " bits, target is "@ + decimal(target as nat) + " bits"@,
                        )
                    },
                },
            ),
        }
    }
}

/// The first complaint about the continuous assignments of a module, their
/// strengths and their delays, from item `i` on.
pub open spec fn assigns_complaint(m: ModuleV, i: nat) -> Complaint
    decreases m.items.len() - i,
{
    if i >= m.items.len() {
        None
    } else {
        either(
            match m.items[i as int] {
                ModuleItemV::ContinuousAssign { lhs, rhs, delay, strength } => either(
                    assign_complaint(m, lhs, rhs),
                    either(
                        strength_complaint(m, lhs.name, strength),
                        delay_complaint(
                            delay,
                            parameter_names(m.parameters),
                            assign_delay_name(m),
                        ),
                    ),
                ),
                _ => None,
            },
            assigns_complaint(m, i + 1),
        )
    }
}

/// The first net that a statement assigns, if any.
pub open spec fn written_net(m: ModuleV, s: StmtV) -> Option<Seq<char>>
    decreases s,
{
    match s {
        StmtV::Block(list) => written_net_in(m, list),
        StmtV::Timed { body, .. } => written_net(m, *body),
        StmtV::While { body, .. } => written_net(m, *body),
        StmtV::DoWhile { body, .. } => written_net(m, *body),
        StmtV::Foreach { body, .. } => written_net(m, *body),
        StmtV::Blocking { lhs, .. } => target_net(m, lhs),
        StmtV::Nonblocking { lhs, .. } => target_net(m, lhs),
        StmtV::If { then_branch, else_branch, .. } => either(
            written_net(m, *then_branch),
            match else_branch {
                Some(b) => written_net(m, *b),
                None => None,
            },
        ),
        StmtV::Case { items, default, .. } => either(
            written_net_in_arms(m, items),
            match default {
                Some(b) => written_net(m, *b),
                None => None,
            },
        ),
        StmtV::Fork { branches, .. } => written_net_in(m, branches),
        _ => None,
    }
}

/// The net that an assignment target names, if any.
pub open spec fn target_net(m: ModuleV, lhs: LvalueV) -> Option<Seq<char>> {
    if lhs.receiver is None && lhs.scope is None && is_module_net(m, lhs.name) {
        Some(lhs.name)
    } else {
        None
    }
}

/// The first net that a list of statements assigns.
pub open spec fn written_net_in(m: ModuleV, s: Seq<StmtV>) -> Option<Seq<char>>
    decreases s,
{
    if s.len() == 0 {
        None
    } else {
        either(written_net(m, s[0]), written_net_in(m, s.skip(1)))
    }
}

/// The first net that the arms of a `case` assign.
pub open spec fn written_net_in_arms(m: ModuleV, s: Seq<(Seq<ExprV>, StmtV)>) -> Option<Seq<char>>
    decreases s,
{
    if s.len() == 0 {
        None
    } else {
        either(written_net(m, s[0].1), written_net_in_arms(m, s.skip(1)))
    }
}

/// The first procedural assignment to a net, from item `i` on.
pub open spec fn net_writes_complaint(m: ModuleV, i: nat) -> Complaint
    decreases m.items.len() - i,
{
    if i >= m.items.len() {
        None
    } else {
        let written = match m.items[i as int] {
            ModuleItemV::Always(a) => written_net(m, a.body),
            ModuleItemV::Initial(body) => written_net(m, body),
            ModuleItemV::Func(f) => written_net(m, f.body),
            _ => None,
        };
        match written {
            Some(name) => Some(
                "procedural assignment to net '"@ + m.name + "."@ + name + "' is unsupported"@,
            ),
            None => net_writes_complaint(m, i + 1),
        }
    }
}

/// The first port with a name.
pub fn find_port<'a>(ports: &'a Vec<Port>, name: &String) -> (r: Option<&'a Port>)
    ensures
        match r {
            Some(p) => port_named(views(ports@), name@) == Some(p@),
            None => port_named(views(ports@), name@) is None,
        },
{
    let ghost all = views(ports@);
    let mut i: usize = 0;
    assert(all.skip(0) =~= all);
    while i < ports.len()
        invariant
            i <= ports@.len(),
            all == views(ports@),
            port_named(all, name@) == port_named(all.skip(i as int), name@),
        decreases ports@.len() - i,
    {
        assert(all.skip(i as int)[0] == ports@[i as int]@);
        assert(all.skip(i as int).skip(1) =~= all.skip(i + 1));
        if ports[i].name == *name {
            return Some(&ports[i]);
        }
        i = i + 1;
    }
    None
}

/// The width and signedness of a signal of a module, ports first.
pub fn find_signal(m: &Module, name: &String) -> (r: Option<(u32, bool)>)
    ensures
        r == module_signal(m@, name@),
{
    if let Some(p) = find_port(&m.ports, name) {
        return Some((p.width, p.signed));
    }
    let ghost all = m@.items;
    let mut i: usize = 0;
    assert(all.skip(0) =~= all);
    while i < m.items.len()
        invariant
            i <= m.items@.len(),
            all == views(m.items@),
            declared_signal(all, name@) == declared_signal(all.skip(i as int), name@),
            module_signal(m@, name@) == declared_signal(all, name@),
        decreases m.items@.len() - i,
    {
        assert(all.skip(i as int)[0] == m.items@[i as int]@);
        assert(all.skip(i as int).skip(1) =~= all.skip(i + 1));
        match &m.items[i] {
            ModuleItem::Var(v) => {
                if v.name == *name {
                    return Some((v.width, v.signed));
                }
            },
            ModuleItem::Net(n) => {
                if n.name == *name {
                    return Some((n.width, n.signed));
                }
            },
            _ => {},
        }
        i = i + 1;
    }
    None
}

/// The width of a signal of a module.
pub fn module_signal_width(m: &Module, name: &String) -> (r: Option<u32>)
    ensures
        r == match module_signal(m@, name@) {
            Some((w, _)) => Some(w),
            None => None,
        },
{
    match find_signal(m, name) {
        Some((w, _)) => Some(w),
        None => None,
    }
}

/// Whether a signal of a module is signed.
pub fn module_signal_signed(m: &Module, name: &String) -> (r: bool)
    ensures
        r == (module_signal(m@, name@) matches Some((_, true))),
{
    match find_signal(m, name) {
        Some((_, signed)) => signed,
        None => false,
    }
}

fn has_net_declaration(m: &Module, name: &String) -> (r: bool)
    ensures
        r == net_declared(m@.items, name@),
{
    let mut i: usize = 0;
    while i < m.items.len()
        invariant
            i <= m.items@.len(),
            forall|k: int| 0 <= k < i ==> !#[trigger] is_net_named(m@.items[k], name@),
        decreases m.items@.len() - i,
    {
        assert(m@.items[i as int] == m.items@[i as int]@);
        if let ModuleItem::Net(n) = &m.items[i] {
            if n.name == *name {
                assert(is_net_named(m@.items[i as int], name@));
                return true;
            }
        }
        i = i + 1;
    }
    false
}

/// Whether a name is a net of a module.
pub fn module_signal_is_net(m: &Module, name: &String) -> (r: bool)
    ensures
        r == is_module_net(m@, name@),
{
    if has_net_declaration(m, name) {
        return true;
    }
    let mut i: usize = 0;
    while i < m.ports.len()
        invariant
            i <= m.ports@.len(),
            forall|k: int| 0 <= k < i ==> !#[trigger] is_net_port(m@.ports[k], name@),
        decreases m.ports@.len() - i,
    {
        assert(m@.ports[i as int] == m.ports@[i as int]@);
        if m.ports[i].name == *name && m.ports[i].is_net {
            assert(is_net_port(m@.ports[i as int], name@));
            return true;
        }
        i = i + 1;
    }
    false
}

fn may_drive(m: &Module, name: &String) -> (r: bool)
    ensures
        r == is_drivable(m@, name@),
{
    if has_net_declaration(m, name) {
        return true;
    }
    let mut i: usize = 0;
    while i < m.ports.len()
        invariant
            i <= m.ports@.len(),
            forall|k: int| 0 <= k < i ==> !#[trigger] is_driven_port(m@.ports[k], name@),
        decreases m.ports@.len() - i,
    {
        let p: &Port = &m.ports[i];
        assert(m@.ports[i as int] == p@);
        if p.name == *name && p.is_net && (p.dir == PortDir::Output || p.dir == PortDir::Inout) {
            assert(is_driven_port(m@.ports[i as int], name@));
            return true;
        }
        i = i + 1;
    }
    false
}

fn literal_part_width(left: &Expr, right: &Expr) -> (r: Option<u32>)
    ensures
        r == part_width(left@, right@),
{
    match (left, right) {
        (Expr::Literal(l), Expr::Literal(h)) => {
            if !l.is_known() || !h.is_known() {
                return None;
            }
            let a: u64 = l.to_u64();
            let b: u64 = h.to_u64();
            let d: u64 = if a > b { a - b } else { b - a };
            if d < 0xffff_ffff {
                Some((d + 1) as u32)
            } else {
                None
            }
        },
        _ => None,
    }
}

/// The width of an expression over the signals of a module, where it is known.
pub fn continuous_expr_width(m: &Module, e: &Expr) -> (r: Option<u32>)
    ensures
        r == net_expr_width(m@, e@),
    decreases e,
{
    match e {
        Expr::Literal(v) => Some(v.width()),
        Expr::Ref(name) => module_signal_width(m, name),
        Expr::Unary { op, operand } => match op {
            UnaryOp::LogNot | UnaryOp::ReduceAnd | UnaryOp::ReduceOr | UnaryOp::ReduceXor => Some(1),
            UnaryOp::BitNot | UnaryOp::Neg | UnaryOp::Plus => continuous_expr_width(m, operand),
        },
        Expr::Binary { op, lhs, rhs } => {
            let l: u32 = match continuous_expr_width(m, lhs) {
                Some(w) => w,
                None => {
                    return None;
                },
            };
            let h: u32 = match continuous_expr_width(m, rhs) {
                Some(w) => w,
                None => {
                    return None;
                },
            };
            Some(
                match op {
                    BinOp::Eq | BinOp::Neq | BinOp::Lt | BinOp::Gt | BinOp::Le | BinOp::Ge
                    | BinOp::LogAnd | BinOp::LogOr => 1,
                    BinOp::Shl | BinOp::Shr => l,
                    BinOp::Add | BinOp::Sub | BinOp::Mul | BinOp::And | BinOp::Or | BinOp::Xor => {
                        if l > h {
                            l
                        } else {
                            h
                        }
                    },
                },
            )
        },
        Expr::Index { .. } => Some(1),
        Expr::PartSelect { left, right, .. } => literal_part_width(left, right),
        Expr::Concat(parts) => continuous_exprs_width(m, parts),
        _ => None,
    }
}

fn continuous_exprs_width(m: &Module, v: &Vec<Expr>) -> (r: Option<u32>)
    ensures
        r == net_exprs_width(m@, exprs_view(v@)),
    decreases v,
{
    let ghost all = exprs_view(v@);
    let mut total: u32 = 0;
    let mut i: usize = 0;
    while i < v.len()
        invariant
            i <= v@.len(),
            all == exprs_view(v@),
            all.len() == v@.len(),
            net_exprs_width(m@, all.take(i as int)) == Some(total),
        decreases v@.len() - i,
    {
        assert(decreases_to!(v => v@[i as int]));
        let ghost next = all.take(i + 1);
        assert(next.drop_last() =~= all.take(i as int));
        assert(next.last() == v@[i as int]@);
        let w: Option<u32> = continuous_expr_width(m, &v[i]);
        let sum: Option<u32> = match w {
            Some(w) => total.checked_add(w),
            None => None,
        };
        match sum {
            Some(s) => {
                total = s;
            },
            None => {
                proof {
                    lemma_unknown_width(m@, all, i + 1);
                }
                return None;
            },
        }
        i = i + 1;
    }
    assert(all.take(i as int) =~= all);
    Some(total)
}

proof fn lemma_unknown_width(m: ModuleV, s: Seq<ExprV>, k: int)
    requires
        0 <= k <= s.len(),
        net_exprs_width(m, s.take(k)) is None,
    ensures
        net_exprs_width(m, s) is None,
    decreases s.len(),
{
    if k == s.len() {
        assert(s.take(k) =~= s);
    } else {
        assert(s.drop_last().take(k) =~= s.take(k));
        lemma_unknown_width(m, s.drop_last(), k);
    }
}

fn is_bit_of(bound: &LogicVec, width: u32) -> (r: bool)
    ensures
        r == selects_bit(bound@, width),
{
    bound.is_known() && bound.to_u64() < width as u64
}

fn known_width(m: &Module, e: &Expr) -> (r: u32)
    ensures
        r == width_or_zero(m@, e@),
{
    match continuous_expr_width(m, e) {
        Some(w) => w,
        None => 0,
    }
}

/// The value of a literal expression.
pub fn as_literal(e: &Expr) -> (r: Option<&LogicVec>)
    ensures
        match r {
            Some(v) => e@ == ExprV::Literal(v@),
            None => !(e@ is Literal),
        },
{
    match e {
        Expr::Literal(v) => Some(v),
        _ => None,
    }
}

/// Check the right-hand side of a continuous assignment.
pub fn validate_continuous_expr(m: &Module, e: &Expr) -> (r: Result<(), Rejection>)
    ensures
        outcome(r) == net_expr_complaint(m@, e@),
    decreases e,
{
    let name: &str = m.name.as_str();
    match e {
        Expr::Literal(_) => {
            return Ok(());
        },
        Expr::Ref(signal) => {
            if let Some((_, false)) = find_signal(m, signal) {
                return Ok(());
            }
        },
        Expr::Unary { operand, .. } => {
            return validate_continuous_expr(m, operand);
        },
        Expr::Binary { lhs, rhs, .. } => {
            if let Err(x) = validate_continuous_expr(m, lhs) {
                return Err(x);
            }
            return validate_continuous_expr(m, rhs);
        },
        Expr::Index { base, index } => {
            if let Err(x) = validate_continuous_expr(m, base) {
                return Err(x);
            }
            return match as_literal(index) {
                Some(i) => {
                    if is_bit_of(i, known_width(m, base)) {
                        Ok(())
                    } else {
                        unsupported(
                            text3(
                                "continuous packed index is out of range in module '",
                                name,
                                "'",
                            ),
                        )
                    }
                },
                None => unsupported(
                    text3("continuous packed index must be a constant in module '", name, "'"),
                ),
            };
        },
        Expr::PartSelect { base, left, right } => {
            if let Err(x) = validate_continuous_expr(m, base) {
                return Err(x);
            }
            return match (as_literal(left), as_literal(right)) {
                (Some(l), Some(h)) => {
                    let width: u32 = known_width(m, base);
                    if is_bit_of(l, width) && is_bit_of(h, width) {
                        Ok(())
                    } else {
                        unsupported(
                            text3(
                                "continuous part-select is out of range in module '",
                                name,
                                "'",
                            ),
                        )
                    }
                },
                _ => unsupported(
                    text3("continuous part-select bounds must be constant in module '", name, "'"),
                ),
            };
        },
        Expr::Concat(parts) => {
            return validate_continuous_exprs(m, parts);
        },
        _ => {},
    }
    let shown: String = describe_expr(e);
    unsupported(
        text4(
            "unsupported continuous assignment expression in module '",
            name,
            "': ",
            shown.as_str(),
        ),
    )
}

fn validate_continuous_exprs(m: &Module, v: &Vec<Expr>) -> (r: Result<(), Rejection>)
    ensures
        outcome(r) == net_exprs_complaint(m@, exprs_view(v@)),
    decreases v,
{
    let ghost all = exprs_view(v@);
    let mut i: usize = 0;
    assert(all.skip(0) =~= all);
    while i < v.len()
        invariant
            i <= v@.len(),
            all == exprs_view(v@),
            net_exprs_complaint(m@, all) == net_exprs_complaint(m@, all.skip(i as int)),
        decreases v@.len() - i,
    {
        assert(decreases_to!(v => v@[i as int]));
        assert(all.skip(i as int)[0] == v@[i as int]@);
        assert(all.skip(i as int).skip(1) =~= all.skip(i + 1));
        if let Err(x) = validate_continuous_expr(m, &v[i]) {
            return Err(x);
        }
        i = i + 1;
    }
    Ok(())
}

fn validate_assign(m: &Module, lhs: &Lvalue, rhs: &Expr) -> (r: Result<(), Rejection>)
    ensures
        outcome(r) == assign_complaint(m@, lhs@, rhs@),
{
    let name: &str = m.name.as_str();
    let target: &str = lhs.name.as_str();
    if lhs.receiver.is_some() || lhs.index.is_some() || lhs.scope.is_some() || !may_drive(
        m,
        &lhs.name,
    ) {
        return unsupported(
            text5("continuous assignment target '", name, ".", target, "' is not a whole net"),
        );
    }
    match find_signal(m, &lhs.name) {
        None => Ok(()),
        Some((target_width, signed)) => {
            if signed {
                return unsupported(
                    text5(
                        "signed continuous assignment target '",
                        name,
                        ".",
                        target,
                        "' is unsupported",
                    ),
                );
            }
            if let Err(x) = validate_continuous_expr(m, rhs) {
                return Err(x);
            }
            match continuous_expr_width(m, rhs) {
                None => unsupported(
                    text3(
                        "continuous assignment expression width is not statically known in module '",
                        name,
                        "'",
                    ),
                ),
                Some(w) => {
                    if w == target_width {
                        return Ok(());
                    }
                    let got: String = number_text(w as u64);
                    let want: String = number_text(target_width as u64);
                    unsupported(
                        text9(
                            "continuous assignment width conversion is unsupported for '",
                            name,
                            ".",
                            target,
                            "': RHS is ",
                            got.as_str(),
                            " bits, target is ",
                            want.as_str(),
                            " bits",
                        ),
                    )
                },
            }
        },
    }
}

/// Check the continuous assignments of a module.
pub fn validate_continuous_assignments(m: &Module) -> (r: Result<(), Rejection>)
    ensures
        outcome(r) == assigns_complaint(m@, 0),
{
    let mut i: usize = 0;
    while i < m.items.len()
        invariant
            i <= m.items@.len(),
            assigns_complaint(m@, 0) == assigns_complaint(m@, i as nat),
        decreases m.items@.len() - i,
    {
        assert(m@.items[i as int] == m.items@[i as int]@);
        if let ModuleItem::ContinuousAssign { lhs, rhs, delay, strength } = &m.items[i] {
            if let Err(x) = validate_assign(m, lhs, rhs) {
                return Err(x);
            }
            if let Err(x) = validate_strength(m, &lhs.name, strength) {
                return Err(x);
            }
            if let Err(x) = validate_assign_delay(m, delay) {
                return Err(x);
            }
        }
        i = i + 1;
    }
    Ok(())
}

fn net_target<'a>(m: &Module, lhs: &'a Lvalue) -> (r: Option<&'a String>)
    ensures
        match r {
            Some(n) => target_net(m@, lhs@) == Some(n@),
            None => target_net(m@, lhs@) is None,
        },
{
    if lhs.receiver.is_none() && lhs.scope.is_none() && module_signal_is_net(m, &lhs.name) {
        Some(&lhs.name)
    } else {
        None
    }
}

/// The first net that a statement assigns, if any.
pub fn procedural_net_write<'a>(m: &Module, s: &'a Stmt) -> (r: Option<&'a String>)
    ensures
        match r {
            Some(n) => written_net(m@, s@) == Some(n@),
            None => written_net(m@, s@) is None,
        },
    decreases s,
{
    match s {
        Stmt::Block(list) => procedural_net_write_in(m, list),
        Stmt::Timed { body, .. } => procedural_net_write(m, body),
        Stmt::While { body, .. } => procedural_net_write(m, body),
        Stmt::DoWhile { body, .. } => procedural_net_write(m, body),
        Stmt::Foreach { body, .. } => procedural_net_write(m, body),
        Stmt::Blocking { lhs, .. } => net_target(m, lhs),
        Stmt::Nonblocking { lhs, .. } => net_target(m, lhs),
        Stmt::If { then_branch, else_branch, .. } => {
            if let Some(n) = procedural_net_write(m, then_branch) {
                return Some(n);
            }
            match else_branch {
                Some(b) => procedural_net_write(m, b),
                None => None,
            }
        },
        Stmt::Case { items, default, .. } => {
            if let Some(n) = procedural_net_write_in_arms(m, items) {
                return Some(n);
            }
            match default {
                Some(b) => procedural_net_write(m, b),
                None => None,
            }
        },
        Stmt::Fork { branches, .. } => procedural_net_write_in(m, branches),
        _ => None,
    }
}

fn procedural_net_write_in<'a>(m: &Module, v: &'a Vec<Stmt>) -> (r: Option<&'a String>)
    ensures
        match r {
            Some(n) => written_net_in(m@, stmts_view(v@)) == Some(n@),
            None => written_net_in(m@, stmts_view(v@)) is None,
        },
    decreases v,
{
    let ghost all = stmts_view(v@);
    let mut i: usize = 0;
    assert(all.skip(0) =~= all);
    while i < v.len()
        invariant
            i <= v@.len(),
            all == stmts_view(v@),
            written_net_in(m@, all) == written_net_in(m@, all.skip(i as int)),
        decreases v@.len() - i,
    {
        assert(decreases_to!(v => v@[i as int]));
        assert(all.skip(i as int)[0] == v@[i as int]@);
        assert(all.skip(i as int).skip(1) =~= all.skip(i + 1));
        if let Some(n) = procedural_net_write(m, &v[i]) {
            return Some(n);
        }
        i = i + 1;
    }
    None
}

fn procedural_net_write_in_arms<'a>(m: &Module, v: &'a Vec<(Vec<Expr>, Stmt)>) -> (r: Option<
    &'a String,
>)
    ensures
        match r {
            Some(n) => written_net_in_arms(m@, arms_view(v@)) == Some(n@),
            None => written_net_in_arms(m@, arms_view(v@)) is None,
        },
    decreases v,
{
    let ghost all = arms_view(v@);
    let mut i: usize = 0;
    assert(all.skip(0) =~= all);
    while i < v.len()
        invariant
            i <= v@.len(),
            all == arms_view(v@),
            written_net_in_arms(m@, all) == written_net_in_arms(m@, all.skip(i as int)),
        decreases v@.len() - i,
    {
        assert(decreases_to!(v => v@[i as int]));
        assert(decreases_to!(v@[i as int] => v@[i as int].1));
        assert(all.skip(i as int)[0].1 == v@[i as int].1@);
        assert(all.skip(i as int).skip(1) =~= all.skip(i + 1));
        if let Some(n) = procedural_net_write(m, &v[i].1) {
            return Some(n);
        }
        i = i + 1;
    }
    None
}

/// Check that no procedural statement of a module assigns a net.
pub fn validate_procedural_net_writes(m: &Module) -> (r: Result<(), Rejection>)
    ensures
        outcome(r) == net_writes_complaint(m@, 0),
{
    let mut i: usize = 0;
    while i < m.items.len()
        invariant
            i <= m.items@.len(),
            net_writes_complaint(m@, 0) == net_writes_complaint(m@, i as nat),
        decreases m.items@.len() - i,
    {
        assert(m@.items[i as int] == m.items@[i as int]@);
        let written: Option<&String> = match &m.items[i] {
            ModuleItem::Always(a) => procedural_net_write(m, &a.body),
            ModuleItem::Initial(body) => procedural_net_write(m, body),
            ModuleItem::Func(f) => procedural_net_write(m, &f.body),
            _ => None,
        };
        if let Some(n) = written {
            return unsupported(
                text5(
                    "procedural assignment to net '",
                    m.name.as_str(),
                    ".",
                    n.as_str(),
                    "' is unsupported",
                ),
            );
        }
        i = i + 1;
    }
    Ok(())
}

} // verus!
