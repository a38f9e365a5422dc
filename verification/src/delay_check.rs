//! Checks of the delays and strengths of nets and continuous assignments.
use vstd::prelude::*;

use crate::ast::{
    opt_delay_view, ContinuousDelay, DriveStrengthSpec, Expr, Module, ModuleItem, NetKind,
};
use crate::ast_model::{ContinuousDelayV, ExprV, ModuleItemV, ModuleV};
use crate::bit::Bit;
use crate::bits::all_known;
use crate::complaint::{either, outcome, unsupported, Complaint, Rejection};
use crate::const_fold::{const_eval, folded_const};
use crate::design_check::{names_of_parameters, parameter_names};
use crate::logic::LogicVec;
use crate::message::{text2, text3, text5};
use crate::stmt_check::{constant_over, is_constant_expr, name_views};

verus! {

/// Whether a number is below zero. A number of the width of an `int` or more is
/// signed; a narrower one is a sized literal, which is not.
pub open spec fn below_zero(v: Seq<Bit>) -> bool {
    v.len() >= 32 && v[v.len() - 1] == Bit::One
}

/// The complaint about one value of a delay, which `what` names: it is constant
/// over the parameters, and, where it needs none of them, a number from zero up.
pub open spec fn delay_value_complaint(e: ExprV, names: Seq<Seq<char>>, what: Seq<char>) -> Complaint {
    if !constant_over(e, names) {
        Some(what + " is not a constant parameter expression"@)
    } else if !constant_over(e, Seq::empty()) {
        None
    } else {
        match folded_const(e, Seq::empty()) {
            Err(m) => Some(what + ": "@ + m),
            Ok(v) => if !all_known(v) {
                Some(what + ": delay contains X or Z"@)
            } else if below_zero(v) {
                Some(what + ": delay is negative"@)
            } else {
                None
            },
        }
    }
}

/// The first complaint about the values of a delay.
pub open spec fn delay_complaint(
    d: Option<ContinuousDelayV>,
    names: Seq<Seq<char>>,
    what: Seq<char>,
) -> Complaint {
    match d {
        None => None,
        Some(ContinuousDelayV::Single(e)) => delay_value_complaint(e, names, what),
        Some(ContinuousDelayV::RiseFall { rise, fall }) => either(
            delay_value_complaint(rise, names, what),
            delay_value_complaint(fall, names, what),
        ),
        Some(ContinuousDelayV::RiseFallTurnOff { rise, fall, turn_off }) => either(
            delay_value_complaint(rise, names, what),
            either(
                delay_value_complaint(fall, names, what),
                delay_value_complaint(turn_off, names, what),
            ),
        ),
    }
}

/// Whether an item declares a wired net with a name.
pub open spec fn is_wired_net(item: ModuleItemV, name: Seq<char>) -> bool {
    item matches ModuleItemV::Net(n) && n.name == name && (n.kind == NetKind::Wand || n.kind
        == NetKind::Wor)
}

/// The complaint about an explicit strength on a net that combines its drivers by
/// a wired AND or OR.
pub open spec fn strength_complaint(
    m: ModuleV,
    target: Seq<char>,
    strength: Option<DriveStrengthSpec>,
) -> Complaint {
    if strength is Some && exists|i: int|
        0 <= i < m.items.len() && #[trigger] is_wired_net(m.items[i], target) {
        Some(
            "explicit drive strengths on wired net '"@ + m.name + "."@ + target
                + "' are unsupported"@,
        )
    } else {
        None
    }
}

/// How a complaint names the delay of a continuous assignment.
pub open spec fn assign_delay_name(m: ModuleV) -> Seq<char> {
    "continuous assignment delay in module '"@ + m.name + "'"@
}

/// How a complaint names the delay of a net.
pub open spec fn net_delay_name(m: ModuleV, name: Seq<char>) -> Seq<char> {
    "net declaration delay for '"@ + m.name + "."@ + name + "'"@
}

/// The first complaint about the delays of the nets of a module, from item `i`
/// on.
pub open spec fn net_delays_complaint(m: ModuleV, i: nat) -> Complaint
    decreases m.items.len() - i,
{
    if i >= m.items.len() {
        None
    } else {
        either(
            match m.items[i as int] {
                ModuleItemV::Net(n) => delay_complaint(
                    n.delay,
                    parameter_names(m.parameters),
                    net_delay_name(m, n.name),
                ),
                _ => None,
            },
            net_delays_complaint(m, i + 1),
        )
    }
}

fn validate_delay_value(e: &Expr, names: &Vec<String>, what: &str) -> (r: Result<(), Rejection>)
    ensures
        outcome(r) == delay_value_complaint(e@, name_views(names@), what@),
{
    if !is_constant_expr(e, names) {
        return unsupported(text2(what, " is not a constant parameter expression"));
    }
    let none: Vec<String> = Vec::new();
    assert(name_views(none@) =~= Seq::<Seq<char>>::empty());
    if !is_constant_expr(e, &none) {
        return Ok(());
    }
    let v: LogicVec = match const_eval(e) {
        Ok(v) => v,
        Err(m) => {
            return unsupported(text3(what, ": ", m.as_str()));
        },
    };
    if v.has_unknown() {
        return unsupported(text2(what, ": delay contains X or Z"));
    }
    let w: u32 = v.width();
    if w >= 32 && v.get_bit(w - 1) == Bit::One {
        return unsupported(text2(what, ": delay is negative"));
    }
    Ok(())
}

/// Check the values of a delay, which `what` names.
pub fn validate_delay(d: &Option<ContinuousDelay>, names: &Vec<String>, what: &str) -> (r: Result<
    (),
    Rejection,
>)
    ensures
        outcome(r) == delay_complaint(
            opt_delay_view(*d),
            name_views(names@),
            what@,
        ),
{
    match d {
        None => Ok(()),
        Some(ContinuousDelay::Single(e)) => validate_delay_value(e, names, what),
        Some(ContinuousDelay::RiseFall { rise, fall }) => {
            if let Err(x) = validate_delay_value(rise, names, what) {
                return Err(x);
            }
            validate_delay_value(fall, names, what)
        },
        Some(ContinuousDelay::RiseFallTurnOff { rise, fall, turn_off }) => {
            if let Err(x) = validate_delay_value(rise, names, what) {
                return Err(x);
            }
            if let Err(x) = validate_delay_value(fall, names, what) {
                return Err(x);
            }
            validate_delay_value(turn_off, names, what)
        },
    }
}

/// Check the strength of a driver against the kind of its net.
pub fn validate_strength(m: &Module, target: &String, strength: &Option<DriveStrengthSpec>) -> (r:
    Result<(), Rejection>)
    ensures
        outcome(r) == strength_complaint(m@, target@, *strength),
{
    if strength.is_none() {
        return Ok(());
    }
    let mut i: usize = 0;
    while i < m.items.len()
        invariant
            i <= m.items@.len(),
            strength is Some,
            forall|k: int| 0 <= k < i ==> !#[trigger] is_wired_net(m@.items[k], target@),
        decreases m.items@.len() - i,
    {
        assert(m@.items[i as int] == m.items@[i as int]@);
        if let ModuleItem::Net(n) = &m.items[i] {
            if n.name == *target && (n.kind == NetKind::Wand || n.kind == NetKind::Wor) {
                assert(is_wired_net(m@.items[i as int], target@));
                return unsupported(
                    text5(
                        "explicit drive strengths on wired net '",
                        m.name.as_str(),
                        ".",
                        target.as_str(),
                        "' are unsupported",
                    ),
                );
            }
        }
        i = i + 1;
    }
    Ok(())
}

/// Check the delay of a continuous assignment.
pub fn validate_assign_delay(m: &Module, d: &Option<ContinuousDelay>) -> (r: Result<(), Rejection>)
    ensures
        outcome(r) == delay_complaint(
            opt_delay_view(*d),
            parameter_names(m@.parameters),
            assign_delay_name(m@),
        ),
{
    let names: Vec<String> = names_of_parameters(&m.parameters);
    let what: String = text3("continuous assignment delay in module '", m.name.as_str(), "'");
    validate_delay(d, &names, what.as_str())
}

/// Check the delays of the nets of a module.
pub fn validate_net_delays(m: &Module) -> (r: Result<(), Rejection>)
    ensures
        outcome(r) == net_delays_complaint(m@, 0),
{
    let names: Vec<String> = names_of_parameters(&m.parameters);
    let mut i: usize = 0;
    while i < m.items.len()
        invariant
            i <= m.items@.len(),
            name_views(names@) == parameter_names(m@.parameters),
            net_delays_complaint(m@, 0) == net_delays_complaint(m@, i as nat),
        decreases m.items@.len() - i,
    {
        assert(m@.items[i as int] == m.items@[i as int]@);
        if let ModuleItem::Net(n) = &m.items[i] {
            let what: String = text5(
                "net declaration delay for '",
                m.name.as_str(),
                ".",
                n.name.as_str(),
                "'",
            );
            if let Err(x) = validate_delay(&n.delay, &names, what.as_str()) {
                return Err(x);
            }
        }
        i = i + 1;
    }
    Ok(())
}

} // verus!
