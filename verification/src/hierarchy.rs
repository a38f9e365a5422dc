//! The module hierarchy: the nets, drivers and processes of every instance.
//!
//! A module that no module instantiates is a root. An instance has nets of its
//! own, named by its path, but a port that is connected to a signal of the parent
//! is that signal. Parameters are constants of the instance.
use vstd::arithmetic::power2::pow2;
use vstd::prelude::*;

use crate::ast::{
    clone_consts, const_views, opt_delay_view, views, ContinuousDelay, DriveStrengthSpec, Expr,
    Module, ModuleItem, ModuleParameter, NetDecl, NetKind, ParameterOverride, Port, PortConnection,
    SourceFile, VarDecl,
};
use crate::ast_model::{
    ContinuousDelayV, ExprV, ItemV, ModuleItemV, ModuleParameterV, ModuleV, ParameterOverrideV,
    PortConnectionV, PortV, VarDeclV,
};
use crate::bit::Bit;
use crate::bits::{fill, resized, value};
use crate::compile::program_views;
use crate::const_fold::{const_eval_with, folded_const, Consts, Made};
use crate::design_check::{collect_modules, find_module, module_index, modules_of};
use crate::gen_program::{
    always_code, driver_code, gen_always, gen_driver, gen_initial, initial_code,
};
use crate::gen_stmt_model::no_width;
use crate::ir::{Program, ProgramV};
use crate::layout::{Env, EnvV};
use crate::logic::LogicVec;
use crate::message::{text2, text3};
use crate::table::{lookup, put, set_const, Table};

verus! {

/// A signal: a variable or a net.
#[derive(Debug)]
pub struct Net {
    pub name: String,
    /// The value before anything drives or assigns it.
    pub init: LogicVec,
    /// How drivers combine, for a net.
    pub kind: Option<NetKind>,
    /// The delays of a net: one for all, or rise, fall and turn-off.
    pub delays: Vec<u64>,
}

/// The mathematical form of a [`Net`].
pub struct NetV {
    pub name: Seq<char>,
    pub init: Seq<Bit>,
    pub kind: Option<NetKind>,
    pub delays: Seq<u64>,
}

impl View for Net {
    type V = NetV;

    open spec fn view(&self) -> NetV {
        NetV { name: self.name@, init: self.init@, kind: self.kind, delays: self.delays@ }
    }
}

/// A continuous assignment: what drives a net.
#[derive(Debug)]
pub struct Driver {
    pub net: u32,
    /// The program that computes the value.
    pub value: Program,
    /// The delays: one for all, or rise, fall and turn-off.
    pub delays: Vec<u64>,
    pub strength: Option<DriveStrengthSpec>,
}

/// The mathematical form of a [`Driver`].
pub struct DriverV {
    pub net: u32,
    pub value: ProgramV,
    pub delays: Seq<u64>,
    pub strength: Option<DriveStrengthSpec>,
}

impl View for Driver {
    type V = DriverV;

    open spec fn view(&self) -> DriverV {
        DriverV {
            net: self.net,
            value: self.value@,
            delays: self.delays@,
            strength: self.strength,
        }
    }
}

/// The nets, drivers and processes of a design.
pub struct Running {
    pub nets: Vec<Net>,
    pub drivers: Vec<Driver>,
    pub processes: Vec<Program>,
}

/// The mathematical form of [`Running`].
pub struct RunningV {
    pub nets: Seq<NetV>,
    pub drivers: Seq<DriverV>,
    pub processes: Seq<ProgramV>,
}

impl View for Running {
    type V = RunningV;

    open spec fn view(&self) -> RunningV {
        RunningV {
            nets: views(self.nets@),
            drivers: views(self.drivers@),
            processes: program_views(self.processes@),
        }
    }
}

/// The signals in the scope of an instance, by number and width, and all nets.
pub struct NetsV {
    pub scope: Seq<(Seq<char>, (u32, u32))>,
    pub nets: Seq<NetV>,
}

// ---- parameters -------------------------------------------------------------------------

/// The value that an instance gives the parameter `name`, its `i`th: by name, or
/// by position.
pub open spec fn override_of(s: Seq<ParameterOverrideV>, name: Seq<char>, i: int) -> Option<ExprV>
{
    match named_override(s, name) {
        Some(e) => Some(e),
        None => if 0 <= i < s.len() && s[i].parameter is None {
            Some(s[i].value)
        } else {
            None
        },
    }
}

/// The first override by a name.
pub open spec fn named_override(s: Seq<ParameterOverrideV>, name: Seq<char>) -> Option<ExprV>
    decreases s.len(),
{
    if s.len() == 0 {
        None
    } else if s[0].parameter == Some(name) {
        Some(s[0].value)
    } else {
        named_override(s.skip(1), name)
    }
}

/// The value of a parameter: that of the override, over the constants of the
/// parent, or the default, over the constants before it.
pub open spec fn parameter_value(
    p: ModuleParameterV,
    given: Option<ExprV>,
    parent: Consts,
    before: Consts,
) -> Made<Seq<Bit>> {
    match given {
        Some(e) => folded_const(e, parent),
        None => folded_const(p.default, before),
    }
}

/// The constants of an instance: those of all modules, and its parameters, each
/// of its declared width.
pub open spec fn with_parameters(
    base: Consts,
    parent: Consts,
    ps: Seq<ModuleParameterV>,
    overrides: Seq<ParameterOverrideV>,
) -> Made<Consts>
    decreases ps.len(),
{
    if ps.len() == 0 {
        Ok(base)
    } else {
        match with_parameters(base, parent, ps.drop_last(), overrides) {
            Err(m) => Err(m),
            Ok(before) => {
                let p = ps.last();
                match parameter_value(
                    p,
                    override_of(overrides, p.name, ps.len() - 1),
                    parent,
                    before,
                ) {
                    Err(m) => Err(m),
                    Ok(v) => if p.width == 0 {
                        Err(no_width())
                    } else {
                        Ok(put(before, p.name, resized(v, p.width as nat, p.signed)))
                    },
                }
            },
        }
    }
}

/// Parameters fail as their first failing prefix does.
proof fn lemma_parameters_error(
    base: Consts,
    parent: Consts,
    all: Seq<ModuleParameterV>,
    overrides: Seq<ParameterOverrideV>,
    i: int,
)
    requires
        0 <= i < all.len(),
        with_parameters(base, parent, all.take(i + 1), overrides) is Err,
    ensures
        with_parameters(base, parent, all, overrides) == with_parameters(
            base,
            parent,
            all.take(i + 1),
            overrides,
        ),
    decreases all.len() - i,
{
    if i + 1 == all.len() {
        assert(all.take(i + 1) =~= all);
    } else {
        assert(all.take(i + 2).drop_last() =~= all.take(i + 1));
        lemma_parameters_error(base, parent, all, overrides, i + 1);
    }
}

fn find_override<'a>(v: &'a Vec<ParameterOverride>, name: &String, i: usize) -> (r: Option<&'a Expr>)
    ensures
        match r {
            Some(e) => override_of(views(v@), name@, i as int) == Some(e@),
            None => override_of(views(v@), name@, i as int) is None,
        },
{
    let ghost all = views(v@);
    let mut k: usize = 0;
    assert(all.skip(0) =~= all);
    while k < v.len()
        invariant
            k <= v@.len(),
            all == views(v@),
            named_override(all, name@) == named_override(all.skip(k as int), name@),
        decreases v@.len() - k,
    {
        assert(all.skip(k as int)[0] == v@[k as int]@);
        assert(all.skip(k as int).skip(1) =~= all.skip(k + 1));
        if let Some(n) = &v[k].parameter {
            if *n == *name {
                return Some(&v[k].value);
            }
        }
        k = k + 1;
    }
    if i < v.len() {
        assert(all[i as int] == v@[i as int]@);
        if v[i].parameter.is_none() {
            return Some(&v[i].value);
        }
    }
    None
}

fn add_parameters(
    base: &Vec<(String, LogicVec)>,
    parent: &Vec<(String, LogicVec)>,
    ps: &Vec<ModuleParameter>,
    overrides: &Vec<ParameterOverride>,
) -> (r: Result<Vec<(String, LogicVec)>, String>)
    ensures
        match r {
            Ok(consts) => with_parameters(
                const_views(base@),
                const_views(parent@),
                views(ps@),
                views(overrides@),
            ) == Ok::<Consts, Seq<char>>(const_views(consts@)),
            Err(m) => with_parameters(
                const_views(base@),
                const_views(parent@),
                views(ps@),
                views(overrides@),
            ) == Err::<Consts, Seq<char>>(m@),
        },
{
    let ghost all = views(ps@);
    let ghost given = views(overrides@);
    let ghost start = const_views(base@);
    let ghost outer = const_views(parent@);
    let mut consts: Vec<(String, LogicVec)> = clone_consts(base);
    let mut i: usize = 0;
    assert(all.take(0).len() == 0);
    while i < ps.len()
        invariant
            i <= ps@.len(),
            all == views(ps@),
            given == views(overrides@),
            start == const_views(base@),
            outer == const_views(parent@),
            with_parameters(start, outer, all.take(i as int), given) == Ok::<Consts, Seq<char>>(
                const_views(consts@),
            ),
        decreases ps@.len() - i,
    {
        let p: &ModuleParameter = &ps[i];
        let ghost upto = all.take(i + 1);
        assert(upto.drop_last() =~= all.take(i as int));
        assert(upto.last() == p@);
        let made: Result<LogicVec, String> = match find_override(overrides, &p.name, i) {
            Some(e) => const_eval_with(e, parent),
            None => const_eval_with(&p.default, &consts),
        };
        let v: LogicVec = match made {
            Ok(v) => v,
            Err(m) => {
                proof {
                    lemma_parameters_error(start, outer, all, given, i as int);
                }
                return Err(m);
            },
        };
        if p.width == 0 {
            proof {
                lemma_parameters_error(start, outer, all, given, i as int);
            }
            return Err("LogicVec width must be >= 1".to_owned());
        }
        set_const(&mut consts, &p.name, v.resize(p.width, p.signed));
        i = i + 1;
    }
    assert(all.take(i as int) =~= all);
    Ok(consts)
}

// ---- signals ----------------------------------------------------------------------------

/// The expression that an instance connects to the port `name`, its `i`th: by
/// name, or by position.
pub open spec fn actual_of(s: Seq<PortConnectionV>, name: Seq<char>, i: int) -> Option<ExprV> {
    match named_actual(s, name) {
        Some(e) => Some(e),
        None => if 0 <= i < s.len() && s[i].port is None {
            Some(s[i].expr)
        } else {
            None
        },
    }
}

/// The first connection by a name.
pub open spec fn named_actual(s: Seq<PortConnectionV>, name: Seq<char>) -> Option<ExprV>
    decreases s.len(),
{
    if s.len() == 0 {
        None
    } else if s[0].port == Some(name) {
        Some(s[0].expr)
    } else {
        named_actual(s.skip(1), name)
    }
}

/// The signal of the parent that a port is connected to: a whole signal.
pub open spec fn connected(
    outer: Seq<(Seq<char>, (u32, u32))>,
    conns: Seq<PortConnectionV>,
    name: Seq<char>,
    i: int,
) -> Option<(u32, u32)> {
    match actual_of(conns, name, i) {
        Some(ExprV::Ref(signal)) => lookup(outer, signal),
        _ => None,
    }
}

/// The nets with one more, which stands in scope under a name.
pub open spec fn with_net(n: NetsV, name: Seq<char>, width: u32, net: NetV) -> NetsV {
    NetsV { scope: put(n.scope, name, (n.nets.len() as u32, width)), nets: n.nets.push(net) }
}

/// The ports of an instance in scope: a connected one is a signal of the parent,
/// any other has a net of its own.
pub open spec fn with_ports(
    nets: Seq<NetV>,
    path: Seq<char>,
    ports: Seq<PortV>,
    outer: Seq<(Seq<char>, (u32, u32))>,
    conns: Seq<PortConnectionV>,
) -> Made<NetsV>
    decreases ports.len(),
{
    if ports.len() == 0 {
        Ok(NetsV { scope: Seq::empty(), nets })
    } else {
        match with_ports(nets, path, ports.drop_last(), outer, conns) {
            Err(m) => Err(m),
            Ok(n) => {
                let p = ports.last();
                match connected(outer, conns, p.name, ports.len() - 1) {
                    Some(signal) => Ok(
                        NetsV { scope: put(n.scope, p.name, signal), nets: n.nets },
                    ),
                    None => if p.width == 0 {
                        Err(no_width())
                    } else {
                        Ok(
                            with_net(
                                n,
                                p.name,
                                p.width,
                                NetV {
                                    name: path + p.name,
                                    init: fill(Bit::Zero, p.width as nat),
                                    kind: None,
                                    delays: Seq::empty(),
                                },
                            ),
                        )
                    },
                }
            },
        }
    }
}

/// Ports fail as their first failing prefix does.
proof fn lemma_ports_error(
    nets: Seq<NetV>,
    path: Seq<char>,
    all: Seq<PortV>,
    outer: Seq<(Seq<char>, (u32, u32))>,
    conns: Seq<PortConnectionV>,
    i: int,
)
    requires
        0 <= i < all.len(),
        with_ports(nets, path, all.take(i + 1), outer, conns) is Err,
    ensures
        with_ports(nets, path, all, outer, conns) == with_ports(
            nets,
            path,
            all.take(i + 1),
            outer,
            conns,
        ),
    decreases all.len() - i,
{
    if i + 1 == all.len() {
        assert(all.take(i + 1) =~= all);
    } else {
        assert(all.take(i + 2).drop_last() =~= all.take(i + 1));
        lemma_ports_error(nets, path, all, outer, conns, i + 1);
    }
}

fn find_actual<'a>(v: &'a Vec<PortConnection>, name: &String, i: usize) -> (r: Option<&'a Expr>)
    ensures
        match r {
            Some(e) => actual_of(views(v@), name@, i as int) == Some(e@),
            None => actual_of(views(v@), name@, i as int) is None,
        },
{
    let ghost all = views(v@);
    let mut k: usize = 0;
    assert(all.skip(0) =~= all);
    while k < v.len()
        invariant
            k <= v@.len(),
            all == views(v@),
            named_actual(all, name@) == named_actual(all.skip(k as int), name@),
        decreases v@.len() - k,
    {
        assert(all.skip(k as int)[0] == v@[k as int]@);
        assert(all.skip(k as int).skip(1) =~= all.skip(k + 1));
        if let Some(n) = &v[k].port {
            if *n == *name {
                return Some(&v[k].expr);
            }
        }
        k = k + 1;
    }
    if i < v.len() {
        assert(all[i as int] == v@[i as int]@);
        if v[i].port.is_none() {
            return Some(&v[i].expr);
        }
    }
    None
}

fn find_signal(outer: &Table<(u32, u32)>, conns: &Vec<PortConnection>, name: &String, i: usize) -> (r:
    Option<(u32, u32)>)
    ensures
        r == connected(outer@, views(conns@), name@, i as int),
{
    match find_actual(conns, name, i) {
        Some(Expr::Ref(signal)) => outer.get(signal.as_str()),
        _ => None,
    }
}

/// Add a net, and put it in scope.
fn add_net(nets: &mut Vec<Net>, scope: &mut Table<(u32, u32)>, name: &String, width: u32, net: Net)
    ensures
        (NetsV { scope: final(scope)@, nets: views(final(nets)@) }) == with_net(
            NetsV { scope: old(scope)@, nets: views(old(nets)@) },
            name@,
            width,
            net@,
        ),
{
    let ghost before = nets@;
    assert(views(nets@).len() == nets@.len());
    let id: u32 = nets.len() as u32;
    nets.push(net);
    assert(views(nets@) =~= views(before).push(net@));
    scope.insert(name.clone(), (id, width));
}

fn add_ports(
    nets: &mut Vec<Net>,
    path: &str,
    ports: &Vec<Port>,
    outer: &Table<(u32, u32)>,
    conns: &Vec<PortConnection>,
) -> (r: Result<Table<(u32, u32)>, String>)
    ensures
        match r {
            Ok(scope) => with_ports(
                views(old(nets)@),
                path@,
                views(ports@),
                outer@,
                views(conns@),
            ) == Ok::<NetsV, Seq<char>>((NetsV { scope: scope@, nets: views(final(nets)@) })),
            Err(m) => with_ports(views(old(nets)@), path@, views(ports@), outer@, views(conns@))
                == Err::<NetsV, Seq<char>>(m@),
        },
{
    let ghost all = views(ports@);
    let ghost start = views(nets@);
    let ghost given = views(conns@);
    let mut scope: Table<(u32, u32)> = Table::new();
    let mut i: usize = 0;
    assert(all.take(0).len() == 0);
    while i < ports.len()
        invariant
            i <= ports@.len(),
            all == views(ports@),
            start == views(old(nets)@),
            given == views(conns@),
            with_ports(start, path@, all.take(i as int), outer@, given) == Ok::<NetsV, Seq<char>>(
                (NetsV { scope: scope@, nets: views(nets@) }),
            ),
        decreases ports@.len() - i,
    {
        let p: &Port = &ports[i];
        let ghost upto = all.take(i + 1);
        assert(upto.drop_last() =~= all.take(i as int));
        assert(upto.last() == p@);
        match find_signal(outer, conns, &p.name, i) {
            Some(signal) => {
                scope.insert(p.name.clone(), signal);
            },
            None => {
                if p.width == 0 {
                    proof {
                        lemma_ports_error(start, path@, all, outer@, given, i as int);
                    }
                    return Err("LogicVec width must be >= 1".to_owned());
                }
                let none: Vec<u64> = Vec::new();
                assert(none@ =~= Seq::<u64>::empty());
                let net = Net {
                    name: text2(path, p.name.as_str()),
                    init: LogicVec::zero(p.width),
                    kind: None,
                    delays: none,
                };
                add_net(nets, &mut scope, &p.name, p.width, net);
            },
        }
        i = i + 1;
    }
    assert(all.take(i as int) =~= all);
    Ok(scope)
}

/// The initial value of a variable.
pub open spec fn initial_value(v: VarDeclV, consts: Consts) -> Made<Seq<Bit>> {
    match v.init {
        Some(e) => match folded_const(e, consts) {
            Err(m) => Err(m),
            Ok(bits) => if v.width == 0 {
                Err(no_width())
            } else {
                Ok(resized(bits, v.width as nat, v.signed))
            },
        },
        None => if v.width == 0 {
            Err(no_width())
        } else {
            Ok(fill(Bit::Zero, v.width as nat))
        },
    }
}

fn initial_bits(v: &VarDecl, consts: &Vec<(String, LogicVec)>) -> (r: Result<LogicVec, String>)
    ensures
        match r {
            Ok(bits) => initial_value(v@, const_views(consts@)) == Ok::<Seq<Bit>, Seq<char>>(bits@),
            Err(m) => initial_value(v@, const_views(consts@)) == Err::<Seq<Bit>, Seq<char>>(m@),
        },
{
    match &v.init {
        Some(e) => match const_eval_with(e, consts) {
            Err(m) => Err(m),
            Ok(bits) => if v.width == 0 {
                Err("LogicVec width must be >= 1".to_owned())
            } else {
                Ok(bits.resize(v.width, v.signed))
            },
        },
        None => if v.width == 0 {
            Err("LogicVec width must be >= 1".to_owned())
        } else {
            Ok(LogicVec::zero(v.width))
        },
    }
}

/// What a net holds while nothing drives it.
pub open spec fn undriven(kind: NetKind) -> Bit {
    match kind {
        NetKind::Tri0 => Bit::Zero,
        NetKind::Supply0 => Bit::Zero,
        NetKind::Tri1 => Bit::One,
        NetKind::Supply1 => Bit::One,
        _ => Bit::Z,
    }
}

/// The amount of a delay value.
pub open spec fn amount(e: ExprV, consts: Consts) -> Made<u64> {
    match folded_const(e, consts) {
        Err(m) => Err(m),
        Ok(v) => Ok((value(v) % pow2(64)) as u64),
    }
}

/// The amounts of the values of a delay.
pub open spec fn amounts(d: Option<ContinuousDelayV>, consts: Consts) -> Made<Seq<u64>> {
    match d {
        None => Ok(Seq::empty()),
        Some(ContinuousDelayV::Single(e)) => match amount(e, consts) {
            Err(m) => Err(m),
            Ok(a) => Ok(seq![a]),
        },
        Some(ContinuousDelayV::RiseFall { rise, fall }) => match amount(rise, consts) {
            Err(m) => Err(m),
            Ok(a) => match amount(fall, consts) {
                Err(m) => Err(m),
                Ok(b) => Ok(seq![a, b]),
            },
        },
        Some(ContinuousDelayV::RiseFallTurnOff { rise, fall, turn_off }) => match amount(
            rise,
            consts,
        ) {
            Err(m) => Err(m),
            Ok(a) => match amount(fall, consts) {
                Err(m) => Err(m),
                Ok(b) => match amount(turn_off, consts) {
                    Err(m) => Err(m),
                    Ok(c) => Ok(seq![a, b, c]),
                },
            },
        },
    }
}

fn add_amount(out: &mut Vec<u64>, e: &Expr, consts: &Vec<(String, LogicVec)>) -> (r: Result<
    (),
    String,
>)
    ensures
        match r {
            Ok(_) => amount(e@, const_views(consts@)) is Ok && final(out)@ == old(out)@.push(
                amount(e@, const_views(consts@))->Ok_0,
            ),
            Err(m) => amount(e@, const_views(consts@)) == Err::<u64, Seq<char>>(m@),
        },
{
    match const_eval_with(e, consts) {
        Err(m) => Err(m),
        Ok(v) => {
            out.push(v.to_u64());
            Ok(())
        },
    }
}

fn delay_amounts(d: &Option<ContinuousDelay>, consts: &Vec<(String, LogicVec)>) -> (r: Result<
    Vec<u64>,
    String,
>)
    ensures
        match r {
            Ok(v) => amounts(opt_delay_view(*d), const_views(consts@)) == Ok::<
                Seq<u64>,
                Seq<char>,
            >(v@),
            Err(m) => amounts(opt_delay_view(*d), const_views(consts@)) == Err::<
                Seq<u64>,
                Seq<char>,
            >(m@),
        },
{
    let mut out: Vec<u64> = Vec::new();
    match d {
        None => {
            assert(out@ =~= Seq::<u64>::empty());
        },
        Some(ContinuousDelay::Single(e)) => {
            if let Err(m) = add_amount(&mut out, e, consts) {
                return Err(m);
            }
            assert(out@ =~= seq![out@[0]]);
        },
        Some(ContinuousDelay::RiseFall { rise, fall }) => {
            if let Err(m) = add_amount(&mut out, rise, consts) {
                return Err(m);
            }
            if let Err(m) = add_amount(&mut out, fall, consts) {
                return Err(m);
            }
            assert(out@ =~= seq![out@[0], out@[1]]);
        },
        Some(ContinuousDelay::RiseFallTurnOff { rise, fall, turn_off }) => {
            if let Err(m) = add_amount(&mut out, rise, consts) {
                return Err(m);
            }
            if let Err(m) = add_amount(&mut out, fall, consts) {
                return Err(m);
            }
            if let Err(m) = add_amount(&mut out, turn_off, consts) {
                return Err(m);
            }
            assert(out@ =~= seq![out@[0], out@[1], out@[2]]);
        },
    }
    Ok(out)
}

/// The signal that a declaration makes.
pub open spec fn declared(path: Seq<char>, item: ModuleItemV, consts: Consts) -> Made<
    Option<(Seq<char>, u32, NetV)>,
> {
    match item {
        ModuleItemV::Var(v) => match initial_value(v, consts) {
            Err(m) => Err(m),
            Ok(init) => Ok(
                Some(
                    (
                        v.name,
                        v.width,
                        NetV { name: path + v.name, init, kind: None, delays: Seq::empty() },
                    ),
                ),
            ),
        },
        ModuleItemV::Net(n) => if n.width == 0 {
            Err(no_width())
        } else {
            match amounts(n.delay, consts) {
                Err(m) => Err(m),
                Ok(delays) => Ok(
                    Some(
                        (
                            n.name,
                            n.width,
                            NetV {
                                name: path + n.name,
                                init: fill(undriven(n.kind), n.width as nat),
                                kind: Some(n.kind),
                                delays,
                            },
                        ),
                    ),
                ),
            }
        },
        _ => Ok(None),
    }
}

/// The signals with those that the items of a module declare.
pub open spec fn with_signals(
    start: NetsV,
    path: Seq<char>,
    items: Seq<ModuleItemV>,
    consts: Consts,
) -> Made<NetsV>
    decreases items.len(),
{
    if items.len() == 0 {
        Ok(start)
    } else {
        match with_signals(start, path, items.drop_last(), consts) {
            Err(m) => Err(m),
            Ok(n) => match declared(path, items.last(), consts) {
                Err(m) => Err(m),
                Ok(None) => Ok(n),
                Ok(Some((name, width, net))) => Ok(with_net(n, name, width, net)),
            },
        }
    }
}

/// Signals fail as their first failing prefix does.
proof fn lemma_signals_error(
    start: NetsV,
    path: Seq<char>,
    all: Seq<ModuleItemV>,
    consts: Consts,
    i: int,
)
    requires
        0 <= i < all.len(),
        with_signals(start, path, all.take(i + 1), consts) is Err,
    ensures
        with_signals(start, path, all, consts) == with_signals(start, path, all.take(i + 1), consts),
    decreases all.len() - i,
{
    if i + 1 == all.len() {
        assert(all.take(i + 1) =~= all);
    } else {
        assert(all.take(i + 2).drop_last() =~= all.take(i + 1));
        lemma_signals_error(start, path, all, consts, i + 1);
    }
}

fn variable_net(path: &str, v: &VarDecl, consts: &Vec<(String, LogicVec)>) -> (r: Result<Net, String>)
    ensures
        match r {
            Ok(net) => declared(path@, ModuleItemV::Var(v@), const_views(consts@)) == Ok::<
                Option<(Seq<char>, u32, NetV)>,
                Seq<char>,
            >(Some((v.name@, v.width, net@))),
            Err(m) => declared(path@, ModuleItemV::Var(v@), const_views(consts@)) == Err::<
                Option<(Seq<char>, u32, NetV)>,
                Seq<char>,
            >(m@),
        },
{
    match initial_bits(v, consts) {
        Err(m) => Err(m),
        Ok(init) => {
            let none: Vec<u64> = Vec::new();
            assert(none@ =~= Seq::<u64>::empty());
            Ok(Net { name: text2(path, v.name.as_str()), init, kind: None, delays: none })
        },
    }
}

fn declared_net(path: &str, n: &NetDecl, consts: &Vec<(String, LogicVec)>) -> (r: Result<Net, String>)
    ensures
        match r {
            Ok(net) => declared(path@, ModuleItemV::Net(n@), const_views(consts@)) == Ok::<
                Option<(Seq<char>, u32, NetV)>,
                Seq<char>,
            >(Some((n.name@, n.width, net@))),
            Err(m) => declared(path@, ModuleItemV::Net(n@), const_views(consts@)) == Err::<
                Option<(Seq<char>, u32, NetV)>,
                Seq<char>,
            >(m@),
        },
{
    if n.width == 0 {
        return Err("LogicVec width must be >= 1".to_owned());
    }
    match delay_amounts(&n.delay, consts) {
        Err(m) => Err(m),
        Ok(delays) => {
            let idle: Bit = match n.kind {
                NetKind::Tri0 => Bit::Zero,
                NetKind::Supply0 => Bit::Zero,
                NetKind::Tri1 => Bit::One,
                NetKind::Supply1 => Bit::One,
                _ => Bit::Z,
            };
            Ok(
                Net {
                    name: text2(path, n.name.as_str()),
                    init: LogicVec::filled(idle, n.width),
                    kind: Some(n.kind),
                    delays,
                },
            )
        },
    }
}

fn add_signals(
    nets: &mut Vec<Net>,
    scope: &mut Table<(u32, u32)>,
    path: &str,
    items: &Vec<ModuleItem>,
    consts: &Vec<(String, LogicVec)>,
) -> (r: Result<(), String>)
    ensures
        match r {
            Ok(_) => with_signals(
                NetsV { scope: old(scope)@, nets: views(old(nets)@) },
                path@,
                views(items@),
                const_views(consts@),
            ) == Ok::<NetsV, Seq<char>>(
                (NetsV { scope: final(scope)@, nets: views(final(nets)@) }),
            ),
            Err(m) => with_signals(
                NetsV { scope: old(scope)@, nets: views(old(nets)@) },
                path@,
                views(items@),
                const_views(consts@),
            ) == Err::<NetsV, Seq<char>>(m@),
        },
{
    let ghost all = views(items@);
    let ghost start = NetsV { scope: scope@, nets: views(nets@) };
    let ghost known = const_views(consts@);
    let mut i: usize = 0;
    assert(all.take(0).len() == 0);
    while i < items.len()
        invariant
            i <= items@.len(),
            all == views(items@),
            start == (NetsV { scope: old(scope)@, nets: views(old(nets)@) }),
            known == const_views(consts@),
            with_signals(start, path@, all.take(i as int), known) == Ok::<NetsV, Seq<char>>(
                (NetsV { scope: scope@, nets: views(nets@) }),
            ),
        decreases items@.len() - i,
    {
        let ghost upto = all.take(i + 1);
        assert(upto.drop_last() =~= all.take(i as int));
        assert(upto.last() == items@[i as int]@);
        let made: Option<(&String, u32, Result<Net, String>)> = match &items[i] {
            ModuleItem::Var(v) => Some((&v.name, v.width, variable_net(path, v, consts))),
            ModuleItem::Net(n) => Some((&n.name, n.width, declared_net(path, n, consts))),
            _ => None,
        };
        match made {
            Some((name, width, Ok(net))) => {
                add_net(nets, scope, name, width, net);
            },
            Some((_, _, Err(m))) => {
                proof {
                    lemma_signals_error(start, path@, all, known, i as int);
                }
                return Err(m);
            },
            None => {},
        }
        i = i + 1;
    }
    assert(all.take(i as int) =~= all);
    Ok(())
}

// ---- instances ------------------------------------------------------------------------------

/// What is said of a hierarchy without end.
pub open spec fn endless() -> Seq<char> {
    "module hierarchy has no end"@
}

/// The driver of a continuous assignment.
pub open spec fn driver(
    env: EnvV,
    target: Seq<char>,
    rhs: ExprV,
    delay: Option<ContinuousDelayV>,
    strength: Option<DriveStrengthSpec>,
) -> Made<DriverV> {
    match lookup(env.nets, target) {
        None => Err("elaboration: unknown signal '"@ + target + "'"@),
        Some((net, _)) => match driver_code(env, rhs) {
            Err(m) => Err(m),
            Ok(value) => match amounts(delay, env.consts) {
                Err(m) => Err(m),
                Ok(delays) => Ok(DriverV { net, value, delays, strength }),
            },
        },
    }
}

fn make_driver(
    env: &Env,
    target: &String,
    rhs: &Expr,
    delay: &Option<ContinuousDelay>,
    strength: Option<DriveStrengthSpec>,
) -> (r: Result<Driver, String>)
    ensures
        match r {
            Ok(d) => driver(env@, target@, rhs@, opt_delay_view(*delay), strength) == Ok::<
                DriverV,
                Seq<char>,
            >(d@),
            Err(m) => driver(env@, target@, rhs@, opt_delay_view(*delay), strength) == Err::<
                DriverV,
                Seq<char>,
            >(m@),
        },
{
    let net: u32 = match env.nets.get(target.as_str()) {
        Some(n) => n.0,
        None => {
            return Err(text3("elaboration: unknown signal '", target.as_str(), "'"));
        },
    };
    let value: Program = match gen_driver(env, rhs) {
        Ok(p) => p,
        Err(m) => {
            return Err(m);
        },
    };
    match delay_amounts(delay, &env.consts) {
        Err(m) => Err(m),
        Ok(delays) => Ok(Driver { net, value, delays, strength }),
    }
}

/// The path before the names of an instance.
pub open spec fn inner_path(path: Seq<char>, name: Seq<char>) -> Seq<char> {
    path + name + "."@
}

/// What a design has with one instance of a module. `outer` is what the parent
/// sees; `depth` bounds the levels below.
pub open spec fn with_instance(
    depth: nat,
    base: Consts,
    mods: Seq<ModuleV>,
    outer: EnvV,
    done: RunningV,
    m: ModuleV,
    path: Seq<char>,
    conns: Seq<PortConnectionV>,
    overrides: Seq<ParameterOverrideV>,
) -> Made<RunningV>
    decreases depth, 1nat, 0nat,
{
    if depth == 0 {
        Err(endless())
    } else {
        match with_parameters(base, outer.consts, m.parameters, overrides) {
            Err(e) => Err(e),
            Ok(consts) => match with_ports(done.nets, path, m.ports, outer.nets, conns) {
                Err(e) => Err(e),
                Ok(ports) => match with_signals(ports, path, m.items, consts) {
                    Err(e) => Err(e),
                    Ok(n) => with_items(
                        depth,
                        base,
                        mods,
                        EnvV { nets: n.scope, consts, ..outer },
                        RunningV { nets: n.nets, ..done },
                        m.items,
                        path,
                    ),
                },
            },
        }
    }
}

/// What a design has with the items of an instance, of which `env` is what it
/// sees: a process for each `always` and `initial` block, a driver for each
/// continuous assignment, and the instances. An instance of an unknown module adds
/// nothing.
pub open spec fn with_items(
    depth: nat,
    base: Consts,
    mods: Seq<ModuleV>,
    env: EnvV,
    done: RunningV,
    items: Seq<ModuleItemV>,
    path: Seq<char>,
) -> Made<RunningV>
    decreases depth, 0nat, items.len(),
{
    if items.len() == 0 {
        Ok(done)
    } else {
        match with_items(depth, base, mods, env, done, items.drop_last(), path) {
            Err(m) => Err(m),
            Ok(r) => match items.last() {
                ModuleItemV::Always(a) => match always_code(env, a.body) {
                    Err(m) => Err(m),
                    Ok(p) => Ok(RunningV { processes: r.processes.push(p), ..r }),
                },
                ModuleItemV::Initial(body) => match initial_code(env, body) {
                    Err(m) => Err(m),
                    Ok(p) => Ok(RunningV { processes: r.processes.push(p), ..r }),
                },
                ModuleItemV::ContinuousAssign { lhs, rhs, delay, strength } => match driver(
                    env,
                    lhs.name,
                    rhs,
                    delay,
                    strength,
                ) {
                    Err(m) => Err(m),
                    Ok(d) => Ok(RunningV { drivers: r.drivers.push(d), ..r }),
                },
                ModuleItemV::Instance(inst) => match module_index(mods, inst.module_name, 0) {
                    None => Ok(r),
                    Some(k) => if depth == 0 {
                        Err(endless())
                    } else {
                        with_instance(
                            (depth - 1) as nat,
                            base,
                            mods,
                            env,
                            r,
                            mods[k as int],
                            inner_path(path, inst.name),
                            inst.connections,
                            inst.parameters,
                        )
                    },
                },
                _ => Ok(r),
            },
        }
    }
}

/// Items fail as their first failing prefix does.
proof fn lemma_items_error(
    depth: nat,
    base: Consts,
    mods: Seq<ModuleV>,
    env: EnvV,
    done: RunningV,
    all: Seq<ModuleItemV>,
    path: Seq<char>,
    i: int,
)
    requires
        0 <= i < all.len(),
        with_items(depth, base, mods, env, done, all.take(i + 1), path) is Err,
    ensures
        with_items(depth, base, mods, env, done, all, path) == with_items(
            depth,
            base,
            mods,
            env,
            done,
            all.take(i + 1),
            path,
        ),
    decreases all.len() - i,
{
    if i + 1 == all.len() {
        assert(all.take(i + 1) =~= all);
    } else {
        assert(all.take(i + 2).drop_last() =~= all.take(i + 1));
        lemma_items_error(depth, base, mods, env, done, all, path, i + 1);
    }
}

/// Add one instance of a module.
fn add_instance(
    depth: usize,
    base: &Vec<(String, LogicVec)>,
    mods: &Vec<&Module>,
    env: &mut Env,
    out: &mut Running,
    m: &Module,
    path: &str,
    conns: &Vec<PortConnection>,
    overrides: &Vec<ParameterOverride>,
) -> (r: Result<(), String>)
    ensures
        match r {
            Ok(_) => final(env)@ == old(env)@ && with_instance(
                depth as nat,
                const_views(base@),
                views(mods@),
                old(env)@,
                old(out)@,
                m@,
                path@,
                views(conns@),
                views(overrides@),
            ) == Ok::<RunningV, Seq<char>>(final(out)@),
            Err(e) => with_instance(
                depth as nat,
                const_views(base@),
                views(mods@),
                old(env)@,
                old(out)@,
                m@,
                path@,
                views(conns@),
                views(overrides@),
            ) == Err::<RunningV, Seq<char>>(e@),
        },
    decreases depth, 1nat,
{
    if depth == 0 {
        return Err("module hierarchy has no end".to_owned());
    }
    let ghost outer = env@;
    let ghost done = out@;
    let mut consts: Vec<(String, LogicVec)> = match add_parameters(
        base,
        &env.consts,
        &m.parameters,
        overrides,
    ) {
        Ok(consts) => consts,
        Err(e) => {
            return Err(e);
        },
    };
    let mut scope: Table<(u32, u32)> = match add_ports(
        &mut out.nets,
        path,
        &m.ports,
        &env.nets,
        conns,
    ) {
        Ok(scope) => scope,
        Err(e) => {
            return Err(e);
        },
    };
    if let Err(e) = add_signals(&mut out.nets, &mut scope, path, &m.items, &consts) {
        return Err(e);
    }
    std::mem::swap(&mut env.nets, &mut scope);
    std::mem::swap(&mut env.consts, &mut consts);
    let ghost inner = env@;
    let ghost ready = out@;
    if let Err(e) = add_items(depth, base, mods, env, out, &m.items, path) {
        return Err(e);
    }
    std::mem::swap(&mut env.nets, &mut scope);
    std::mem::swap(&mut env.consts, &mut consts);
    Ok(())
}

/// Add the items of an instance.
fn add_items(
    depth: usize,
    base: &Vec<(String, LogicVec)>,
    mods: &Vec<&Module>,
    env: &mut Env,
    out: &mut Running,
    items: &Vec<ModuleItem>,
    path: &str,
) -> (r: Result<(), String>)
    requires
        depth > 0,
    ensures
        match r {
            Ok(_) => final(env)@ == old(env)@ && with_items(
                depth as nat,
                const_views(base@),
                views(mods@),
                old(env)@,
                old(out)@,
                views(items@),
                path@,
            ) == Ok::<RunningV, Seq<char>>(final(out)@),
            Err(e) => with_items(
                depth as nat,
                const_views(base@),
                views(mods@),
                old(env)@,
                old(out)@,
                views(items@),
                path@,
            ) == Err::<RunningV, Seq<char>>(e@),
        },
    decreases depth, 0nat,
{
    let ghost all = views(items@);
    let ghost start = out@;
    let ghost sees = env@;
    let ghost known = const_views(base@);
    let ghost ms = views(mods@);
    let mut i: usize = 0;
    assert(all.take(0).len() == 0);
    while i < items.len()
        invariant
            i <= items@.len(),
            depth > 0,
            all == views(items@),
            known == const_views(base@),
            ms == views(mods@),
            start == old(out)@,
            sees == old(env)@,
            env@ == sees,
            with_items(depth as nat, known, ms, sees, start, all.take(i as int), path@) == Ok::<
                RunningV,
                Seq<char>,
            >(out@),
        decreases items@.len() - i,
    {
        let ghost upto = all.take(i + 1);
        let ghost before = out@;
        assert(upto.drop_last() =~= all.take(i as int));
        assert(upto.last() == items@[i as int]@);
        let step: Result<(), String> = match &items[i] {
            ModuleItem::Always(a) => match gen_always(env, &a.body) {
                Ok(p) => {
                    out.processes.push(p);
                    assert(out@.processes =~= before.processes.push(p@));
                    Ok(())
                },
                Err(m) => Err(m),
            },
            ModuleItem::Initial(body) => match gen_initial(env, body) {
                Ok(p) => {
                    out.processes.push(p);
                    assert(out@.processes =~= before.processes.push(p@));
                    Ok(())
                },
                Err(m) => Err(m),
            },
            ModuleItem::ContinuousAssign { lhs, rhs, delay, strength } => match make_driver(
                env,
                &lhs.name,
                rhs,
                delay,
                *strength,
            ) {
                Ok(d) => {
                    out.drivers.push(d);
                    assert(out@.drivers =~= before.drivers.push(d@));
                    Ok(())
                },
                Err(m) => Err(m),
            },
            ModuleItem::Instance(inst) => match find_module(mods, &inst.module_name) {
                None => Ok(()),
                Some(k) => {
                    let head: String = text3(path, inst.name.as_str(), ".");
                    assert(ms[k as int] == mods@[k as int]@);
                    add_instance(
                        depth - 1,
                        base,
                        mods,
                        env,
                        out,
                        mods[k],
                        head.as_str(),
                        &inst.connections,
                        &inst.parameters,
                    )
                },
            },
            _ => Ok(()),
        };
        if let Err(m) = step {
            proof {
                lemma_items_error(depth as nat, known, ms, sees, start, all, path@, i as int);
            }
            return Err(m);
        }
        i = i + 1;
    }
    assert(all.take(i as int) =~= all);
    Ok(())
}

// ---- roots --------------------------------------------------------------------------------------

/// Whether an item is an instance of a module.
pub open spec fn instantiates(item: ModuleItemV, name: Seq<char>) -> bool {
    item matches ModuleItemV::Instance(inst) && inst.module_name == name
}

/// Whether a module instantiates another.
pub open spec fn has_instance(m: ModuleV, name: Seq<char>) -> bool {
    exists|j: int| 0 <= j < m.items.len() && instantiates(#[trigger] m.items[j], name)
}

/// Whether no module instantiates a module.
pub open spec fn is_root(mods: Seq<ModuleV>, name: Seq<char>) -> bool {
    forall|i: int| 0 <= i < mods.len() ==> !has_instance(#[trigger] mods[i], name)
}

/// What a design has of its roots, in order.
pub open spec fn with_roots(env: EnvV, mods: Seq<ModuleV>, roots: Seq<ModuleV>) -> Made<RunningV>
    decreases roots.len(),
{
    if roots.len() == 0 {
        Ok(RunningV { nets: Seq::empty(), drivers: Seq::empty(), processes: Seq::empty() })
    } else {
        match with_roots(env, mods, roots.drop_last()) {
            Err(m) => Err(m),
            Ok(r) => if is_root(mods, roots.last().name) {
                with_instance(
                    mods.len(),
                    env.consts,
                    mods,
                    env,
                    r,
                    roots.last(),
                    Seq::empty(),
                    Seq::empty(),
                    Seq::empty(),
                )
            } else {
                Ok(r)
            },
        }
    }
}

/// The nets, drivers and processes of a file.
pub open spec fn running(env: EnvV, items: Seq<ItemV>) -> Made<RunningV> {
    with_roots(env, modules_of(items), modules_of(items))
}

/// Roots fail as their first failing prefix does.
proof fn lemma_roots_error(env: EnvV, mods: Seq<ModuleV>, all: Seq<ModuleV>, i: int)
    requires
        0 <= i < all.len(),
        with_roots(env, mods, all.take(i + 1)) is Err,
    ensures
        with_roots(env, mods, all) == with_roots(env, mods, all.take(i + 1)),
    decreases all.len() - i,
{
    if i + 1 == all.len() {
        assert(all.take(i + 1) =~= all);
    } else {
        assert(all.take(i + 2).drop_last() =~= all.take(i + 1));
        lemma_roots_error(env, mods, all, i + 1);
    }
}

fn module_has_instance(m: &Module, name: &String) -> (r: bool)
    ensures
        r == has_instance(m@, name@),
{
    let mut j: usize = 0;
    while j < m.items.len()
        invariant
            j <= m.items@.len(),
            forall|k: int| 0 <= k < j ==> !instantiates(#[trigger] m@.items[k], name@),
        decreases m.items@.len() - j,
    {
        assert(m@.items[j as int] == m.items@[j as int]@);
        if let ModuleItem::Instance(inst) = &m.items[j] {
            if inst.module_name == *name {
                assert(instantiates(m@.items[j as int], name@));
                return true;
            }
        }
        j = j + 1;
    }
    false
}

fn is_root_module(mods: &Vec<&Module>, name: &String) -> (r: bool)
    ensures
        r == is_root(views(mods@), name@),
{
    let ghost all = views(mods@);
    let mut i: usize = 0;
    while i < mods.len()
        invariant
            i <= mods@.len(),
            all == views(mods@),
            forall|k: int| 0 <= k < i ==> !has_instance(#[trigger] all[k], name@),
        decreases mods@.len() - i,
    {
        assert(all[i as int] == mods@[i as int]@);
        if module_has_instance(mods[i], name) {
            assert(has_instance(all[i as int], name@));
            return false;
        }
        i = i + 1;
    }
    true
}

/// The nets, drivers and processes of the modules of a file.
pub fn run_modules(env: &mut Env, file: &SourceFile) -> (r: Result<Running, String>)
    ensures
        match r {
            Ok(out) => final(env)@ == old(env)@ && running(old(env)@, file@.items) == Ok::<
                RunningV,
                Seq<char>,
            >(out@),
            Err(m) => running(old(env)@, file@.items) == Err::<RunningV, Seq<char>>(m@),
        },
{
    let mods: Vec<&Module> = collect_modules(file);
    let base: Vec<(String, LogicVec)> = clone_consts(&env.consts);
    let no_conns: Vec<PortConnection> = Vec::new();
    let no_overrides: Vec<ParameterOverride> = Vec::new();
    let mut out = Running { nets: Vec::new(), drivers: Vec::new(), processes: Vec::new() };
    let ghost all = views(mods@);
    let ghost sees = env@;
    proof {
        assert(views(no_conns@) =~= Seq::empty());
        assert(views(no_overrides@) =~= Seq::empty());
        assert(out@.nets =~= Seq::empty());
        assert(out@.drivers =~= Seq::empty());
        assert(out@.processes =~= Seq::empty());
        reveal_strlit("");
        assert(""@ =~= Seq::<char>::empty());
        assert(all.take(0).len() == 0);
    }
    let mut i: usize = 0;
    while i < mods.len()
        invariant
            i <= mods@.len(),
            all == views(mods@),
            all == modules_of(file@.items),
            sees == old(env)@,
            env@ == sees,
            const_views(base@) == sees.consts,
            views(no_conns@) == Seq::<PortConnectionV>::empty(),
            views(no_overrides@) == Seq::<ParameterOverrideV>::empty(),
            ""@ == Seq::<char>::empty(),
            with_roots(sees, all, all.take(i as int)) == Ok::<RunningV, Seq<char>>(out@),
        decreases mods@.len() - i,
    {
        let ghost upto = all.take(i + 1);
        assert(upto.drop_last() =~= all.take(i as int));
        assert(upto.last() == mods@[i as int]@);
        assert(all.len() == mods@.len());
        let m: &Module = mods[i];
        if is_root_module(&mods, &m.name) {
            if let Err(e) = add_instance(
                mods.len(),
                &base,
                &mods,
                env,
                &mut out,
                m,
                "",
                &no_conns,
                &no_overrides,
            ) {
                proof {
                    lemma_roots_error(sees, all, all, i as int);
                }
                return Err(e);
            }
        }
        i = i + 1;
    }
    assert(all.take(i as int) =~= all);
    Ok(out)
}

} // verus!
