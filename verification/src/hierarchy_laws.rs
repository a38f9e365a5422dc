//! Laws of the module hierarchy.
use vstd::prelude::*;

use crate::ast::{DriveStrengthSpec, NetKind};
use crate::ast_model::{
    ContinuousDelayV, ExprV, ModuleItemV, ModuleParameterV, ModuleV, NetDeclV, ParameterOverrideV,
    PortConnectionV, PortV, SourceFileV, VarDeclV,
};
use crate::bit::Bit;
use crate::bits::{resized, value};
use crate::const_fold::{folded_const, Consts};
use crate::design_check::{
    cycle_below, cycle_from, declarations_complaint, hierarchy_complaint,
    lemma_module_index, lemma_off_path, lemma_roots_explored, module_index, module_names, modules_of,
    off_path,
};
use crate::gen_program::{always_code, driver_code, initial_code};
use crate::hierarchy::{
    amount, amounts, connected, declared, driver, has_instance, inner_path, instantiates, is_root,
    named_actual, named_override, override_of, parameter_value, with_instance, with_items,
    with_net, with_parameters, with_ports, with_signals, DriverV, NetV, NetsV, RunningV,
};
use crate::ir::ProgramV;
use crate::layout::EnvV;
use crate::table::{lookup, put_then_lookup};
use vstd::arithmetic::power2::{lemma2_to64, lemma_pow2_pos, pow2};

verus! {

// ---- scopes -----------------------------------------------------------------------------

/// Whether each name in scope has a signal of its width.
pub open spec fn scope_sound(n: NetsV) -> bool {
    forall|name: Seq<char>|
        (#[trigger] lookup(n.scope, name)) is Some ==> ({
            let (id, width) = lookup(n.scope, name)->0;
            id < n.nets.len() && n.nets[id as int].init.len() == width
        })
}

/// Whether signals are those of before, with more after them.
pub open spec fn extends(before: Seq<NetV>, after: Seq<NetV>) -> bool {
    before.len() <= after.len() && after.take(before.len() as int) == before
}

proof fn lemma_extends(a: Seq<NetV>, b: Seq<NetV>, c: Seq<NetV>)
    requires
        extends(a, b),
        extends(b, c),
    ensures
        extends(a, c),
{
    assert(c.take(a.len() as int) =~= b.take(a.len() as int));
}

proof fn lemma_with_net(n: NetsV, name: Seq<char>, width: u32, net: NetV)
    requires
        scope_sound(n),
        n.nets.len() < u32::MAX,
        net.init.len() == width,
    ensures
        scope_sound(with_net(n, name, width, net)),
        extends(n.nets, with_net(n, name, width, net).nets),
{
    let after = with_net(n, name, width, net);
    let id = n.nets.len() as u32;
    assert(after.nets.take(n.nets.len() as int) =~= n.nets);
    assert forall|other: Seq<char>| (#[trigger] lookup(after.scope, other)) is Some implies ({
        let (id, width) = lookup(after.scope, other)->0;
        id < after.nets.len() && after.nets[id as int].init.len() == width
    }) by {
        put_then_lookup(n.scope, name, (id, width), other);
        if other != name {
            assert(lookup(n.scope, other) is Some);
        }
    }
}

proof fn lemma_ports_grow(
    nets: Seq<NetV>,
    path: Seq<char>,
    ports: Seq<PortV>,
    outer: Seq<(Seq<char>, (u32, u32))>,
    conns: Seq<PortConnectionV>,
)
    requires
        with_ports(nets, path, ports, outer, conns) is Ok,
    ensures
        extends(nets, with_ports(nets, path, ports, outer, conns)->Ok_0.nets),
    decreases ports.len(),
{
    if ports.len() == 0 {
        assert(nets.take(nets.len() as int) =~= nets);
    } else {
        lemma_ports_grow(nets, path, ports.drop_last(), outer, conns);
        let before = with_ports(nets, path, ports.drop_last(), outer, conns)->Ok_0.nets;
        let after = with_ports(nets, path, ports, outer, conns)->Ok_0.nets;
        assert(after.take(before.len() as int) =~= before);
        lemma_extends(nets, before, after);
    }
}

proof fn lemma_ports_sound(
    nets: Seq<NetV>,
    path: Seq<char>,
    ports: Seq<PortV>,
    outer: Seq<(Seq<char>, (u32, u32))>,
    conns: Seq<PortConnectionV>,
)
    requires
        scope_sound(NetsV { scope: outer, nets }),
        with_ports(nets, path, ports, outer, conns) is Ok,
        with_ports(nets, path, ports, outer, conns)->Ok_0.nets.len() <= u32::MAX,
    ensures
        scope_sound(with_ports(nets, path, ports, outer, conns)->Ok_0),
    decreases ports.len(),
{
    if ports.len() > 0 {
        lemma_ports_grow(nets, path, ports.drop_last(), outer, conns);
        lemma_ports_sound(nets, path, ports.drop_last(), outer, conns);
        let before = with_ports(nets, path, ports.drop_last(), outer, conns)->Ok_0;
        let after = with_ports(nets, path, ports, outer, conns)->Ok_0;
        let p = ports.last();
        match connected(outer, conns, p.name, ports.len() - 1) {
            Some(signal) => {
                assert forall|other: Seq<char>|
                    (#[trigger] lookup(after.scope, other)) is Some implies ({
                    let (id, width) = lookup(after.scope, other)->0;
                    id < after.nets.len() && after.nets[id as int].init.len() == width
                }) by {
                    put_then_lookup(before.scope, p.name, signal, other);
                    if other != p.name {
                        assert(lookup(before.scope, other) is Some);
                    } else {
                        assert(before.nets[signal.0 as int] == before.nets.take(
                            nets.len() as int,
                        )[signal.0 as int]);
                    }
                }
            },
            None => {
                lemma_with_net(before, p.name, p.width, after.nets.last());
                assert(after.nets =~= before.nets.push(after.nets.last()));
            },
        }
    }
}

proof fn lemma_signals_grow(start: NetsV, path: Seq<char>, items: Seq<ModuleItemV>, consts: Consts)
    requires
        with_signals(start, path, items, consts) is Ok,
    ensures
        extends(start.nets, with_signals(start, path, items, consts)->Ok_0.nets),
    decreases items.len(),
{
    if items.len() == 0 {
        assert(start.nets.take(start.nets.len() as int) =~= start.nets);
    } else {
        lemma_signals_grow(start, path, items.drop_last(), consts);
        let before = with_signals(start, path, items.drop_last(), consts)->Ok_0.nets;
        let after = with_signals(start, path, items, consts)->Ok_0.nets;
        assert(after.take(before.len() as int) =~= before);
        lemma_extends(start.nets, before, after);
    }
}

proof fn lemma_signals_sound(start: NetsV, path: Seq<char>, items: Seq<ModuleItemV>, consts: Consts)
    requires
        scope_sound(start),
        with_signals(start, path, items, consts) is Ok,
        with_signals(start, path, items, consts)->Ok_0.nets.len() <= u32::MAX,
    ensures
        scope_sound(with_signals(start, path, items, consts)->Ok_0),
    decreases items.len(),
{
    if items.len() > 0 {
        let before = with_signals(start, path, items.drop_last(), consts)->Ok_0;
        let after = with_signals(start, path, items, consts)->Ok_0;
        if let Some((name, width, net)) = declared(path, items.last(), consts)->Ok_0 {
            assert(before.nets.len() < after.nets.len());
            lemma_signals_sound(start, path, items.drop_last(), consts);
            lemma_with_net(before, name, width, net);
        } else {
            lemma_signals_sound(start, path, items.drop_last(), consts);
        }
    }
}

/// In an instance each name in scope means a signal whose initial value has the
/// width of its declaration, and the signals of all others stay as they are.
pub proof fn instance_scope_is_sound(
    nets: Seq<NetV>,
    outer: Seq<(Seq<char>, (u32, u32))>,
    m: ModuleV,
    path: Seq<char>,
    conns: Seq<PortConnectionV>,
    consts: Consts,
)
    requires
        scope_sound(NetsV { scope: outer, nets }),
        with_ports(nets, path, m.ports, outer, conns) is Ok,
        with_signals(
            with_ports(nets, path, m.ports, outer, conns)->Ok_0,
            path,
            m.items,
            consts,
        ) is Ok,
        with_signals(
            with_ports(nets, path, m.ports, outer, conns)->Ok_0,
            path,
            m.items,
            consts,
        )->Ok_0.nets.len() <= u32::MAX,
    ensures
        scope_sound(
            with_signals(
                with_ports(nets, path, m.ports, outer, conns)->Ok_0,
                path,
                m.items,
                consts,
            )->Ok_0,
        ),
        extends(
            nets,
            with_signals(
                with_ports(nets, path, m.ports, outer, conns)->Ok_0,
                path,
                m.items,
                consts,
            )->Ok_0.nets,
        ),
{
    let ports = with_ports(nets, path, m.ports, outer, conns)->Ok_0;
    let all = with_signals(ports, path, m.items, consts)->Ok_0;
    lemma_ports_grow(nets, path, m.ports, outer, conns);
    lemma_signals_grow(ports, path, m.items, consts);
    lemma_extends(nets, ports.nets, all.nets);
    lemma_ports_sound(nets, path, m.ports, outer, conns);
    lemma_signals_sound(ports, path, m.items, consts);
}

/// A port that is connected to a signal of the parent is that signal.
pub proof fn connected_ports_are_shared(
    nets: Seq<NetV>,
    path: Seq<char>,
    ports: Seq<PortV>,
    outer: Seq<(Seq<char>, (u32, u32))>,
    conns: Seq<PortConnectionV>,
    i: int,
)
    requires
        with_ports(nets, path, ports, outer, conns) is Ok,
        0 <= i < ports.len(),
        forall|a: int, b: int|
            0 <= a < ports.len() && 0 <= b < ports.len() && a != b ==> (#[trigger] ports[a]).name
                != (#[trigger] ports[b]).name,
        connected(outer, conns, ports[i].name, i) is Some,
    ensures
        lookup(with_ports(nets, path, ports, outer, conns)->Ok_0.scope, ports[i].name)
            == connected(outer, conns, ports[i].name, i),
    decreases ports.len(),
{
    let rest = ports.drop_last();
    let before = with_ports(nets, path, rest, outer, conns)->Ok_0;
    let p = ports.last();
    let entry = match connected(outer, conns, p.name, ports.len() - 1) {
        Some(signal) => signal,
        None => (before.nets.len() as u32, p.width),
    };
    put_then_lookup(before.scope, p.name, entry, ports[i].name);
    if i < ports.len() - 1 {
        assert(rest[i] == ports[i]);
        assert forall|a: int, b: int|
            0 <= a < rest.len() && 0 <= b < rest.len() && a != b implies (#[trigger] rest[a]).name
            != (#[trigger] rest[b]).name by {
            assert(ports[a].name != ports[b].name);
        }
        connected_ports_are_shared(nets, path, rest, outer, conns, i);
        assert(ports[i].name != p.name);
    }
}

// ---- parameters -----------------------------------------------------------------------------

/// A parameter has the value of its override over the constants of the parent, or
/// else of its default over the parameters before it, at its declared width.
pub proof fn parameters_take_their_values(
    base: Consts,
    parent: Consts,
    ps: Seq<ModuleParameterV>,
    overrides: Seq<ParameterOverrideV>,
    i: int,
)
    requires
        with_parameters(base, parent, ps, overrides) is Ok,
        0 <= i < ps.len(),
        forall|a: int, b: int|
            0 <= a < ps.len() && 0 <= b < ps.len() && a != b ==> (#[trigger] ps[a]).name
                != (#[trigger] ps[b]).name,
    ensures
        with_parameters(base, parent, ps.take(i), overrides) is Ok,
        parameter_value(
            ps[i],
            override_of(overrides, ps[i].name, i),
            parent,
            with_parameters(base, parent, ps.take(i), overrides)->Ok_0,
        ) is Ok,
        lookup(with_parameters(base, parent, ps, overrides)->Ok_0, ps[i].name) == Some(
            resized(
                parameter_value(
                    ps[i],
                    override_of(overrides, ps[i].name, i),
                    parent,
                    with_parameters(base, parent, ps.take(i), overrides)->Ok_0,
                )->Ok_0,
                ps[i].width as nat,
                ps[i].signed,
            ),
        ),
    decreases ps.len(),
{
    let rest = ps.drop_last();
    let before = with_parameters(base, parent, rest, overrides)->Ok_0;
    let p = ps.last();
    let v = parameter_value(p, override_of(overrides, p.name, ps.len() - 1), parent, before)->Ok_0;
    put_then_lookup(before, p.name, resized(v, p.width as nat, p.signed), ps[i].name);
    if i == ps.len() - 1 {
        assert(ps.take(i) =~= rest);
    } else {
        assert(rest[i] == ps[i]);
        assert(rest.take(i) =~= ps.take(i));
        assert forall|a: int, b: int|
            0 <= a < rest.len() && 0 <= b < rest.len() && a != b implies (#[trigger] rest[a]).name
            != (#[trigger] rest[b]).name by {
            assert(ps[a].name != ps[b].name);
        }
        parameters_take_their_values(base, parent, rest, overrides, i);
        assert(ps[i].name != p.name);
    }
}

// ---- levels -------------------------------------------------------------------------------------

/// Whether the hierarchy below a module ends within some levels.
pub open spec fn ends(mods: Seq<ModuleV>, m: ModuleV, levels: nat) -> bool
    decreases levels, 1nat,
{
    levels > 0 && forall|j: int|
        0 <= j < m.items.len() ==> item_ends(mods, #[trigger] m.items[j], (levels - 1) as nat)
}

/// Whether the hierarchy below an item ends within some levels.
pub open spec fn item_ends(mods: Seq<ModuleV>, item: ModuleItemV, levels: nat) -> bool
    decreases levels, 2nat,
{
    match item {
        ModuleItemV::Instance(inst) => match module_index(mods, inst.module_name, 0) {
            Some(k) => ends(mods, mods[k as int], levels),
            None => true,
        },
        _ => true,
    }
}

/// How many levels are allowed does not matter once the hierarchy ends within
/// them.
pub proof fn levels_do_not_matter(
    levels: nat,
    more: nat,
    base: Consts,
    mods: Seq<ModuleV>,
    outer: EnvV,
    done: RunningV,
    m: ModuleV,
    path: Seq<char>,
    conns: Seq<PortConnectionV>,
    overrides: Seq<ParameterOverrideV>,
)
    requires
        ends(mods, m, levels),
        levels <= more,
    ensures
        with_instance(levels, base, mods, outer, done, m, path, conns, overrides) == with_instance(
            more,
            base,
            mods,
            outer,
            done,
            m,
            path,
            conns,
            overrides,
        ),
    decreases levels, 1nat, 0nat,
{
    if let Ok(consts) = with_parameters(base, outer.consts, m.parameters, overrides) {
        if let Ok(ports) = with_ports(done.nets, path, m.ports, outer.nets, conns) {
            if let Ok(n) = with_signals(ports, path, m.items, consts) {
                lemma_item_levels(
                    levels,
                    more,
                    base,
                    mods,
                    EnvV { nets: n.scope, consts, ..outer },
                    RunningV { nets: n.nets, ..done },
                    m.items,
                    path,
                );
            }
        }
    }
}

proof fn lemma_item_levels(
    levels: nat,
    more: nat,
    base: Consts,
    mods: Seq<ModuleV>,
    env: EnvV,
    done: RunningV,
    items: Seq<ModuleItemV>,
    path: Seq<char>,
)
    requires
        0 < levels <= more,
        forall|j: int|
            0 <= j < items.len() ==> item_ends(mods, #[trigger] items[j], (levels - 1) as nat),
    ensures
        with_items(levels, base, mods, env, done, items, path) == with_items(
            more,
            base,
            mods,
            env,
            done,
            items,
            path,
        ),
    decreases levels, 0nat, items.len(),
{
    if items.len() > 0 {
        let rest = items.drop_last();
        assert forall|j: int| 0 <= j < rest.len() implies item_ends(
            mods,
            #[trigger] rest[j],
            (levels - 1) as nat,
        ) by {
            assert(rest[j] == items[j]);
        }
        lemma_item_levels(levels, more, base, mods, env, done, rest, path);
        assert(item_ends(mods, items[items.len() - 1], (levels - 1) as nat));
        if let Ok(r) = with_items(levels, base, mods, env, done, rest, path) {
            if let ModuleItemV::Instance(inst) = items.last() {
                if let Some(k) = module_index(mods, inst.module_name, 0) {
                    levels_do_not_matter(
                        (levels - 1) as nat,
                        (more - 1) as nat,
                        base,
                        mods,
                        env,
                        r,
                        mods[k as int],
                        inner_path(path, inst.name),
                        inst.connections,
                        inst.parameters,
                    );
                }
            }
        }
    }
}

proof fn lemma_ends_more(mods: Seq<ModuleV>, m: ModuleV, levels: nat, more: nat)
    requires
        ends(mods, m, levels),
        levels <= more,
    ensures
        ends(mods, m, more),
    decreases levels,
{
    assert forall|j: int| 0 <= j < m.items.len() implies item_ends(
        mods,
        #[trigger] m.items[j],
        (more - 1) as nat,
    ) by {
        assert(item_ends(mods, m.items[j], (levels - 1) as nat));
        if let ModuleItemV::Instance(inst) = m.items[j] {
            if let Some(k) = module_index(mods, inst.module_name, 0) {
                lemma_ends_more(mods, mods[k as int], (levels - 1) as nat, (more - 1) as nat);
            }
        }
    }
}

proof fn lemma_below_ends(
    mods: Seq<ModuleV>,
    items: Seq<ModuleItemV>,
    from: nat,
    path: Seq<Seq<char>>,
    j: int,
)
    requires
        cycle_below(mods, items, from, path) is None,
        from <= j < items.len(),
    ensures
        item_ends(mods, items[j], off_path(mods, path)),
    decreases off_path(mods, path), items.len() - from + 1,
{
    if from < j {
        lemma_below_ends(mods, items, from + 1, path, j);
    } else if let ModuleItemV::Instance(inst) = items[j] {
        if module_index(mods, inst.module_name, 0) is Some {
            lemma_acyclic_ends(mods, inst.module_name, path);
        }
    }
}

proof fn lemma_acyclic_ends(mods: Seq<ModuleV>, name: Seq<char>, path: Seq<Seq<char>>)
    requires
        cycle_from(mods, name, path) is None,
        module_index(mods, name, 0) is Some,
    ensures
        ends(mods, mods[module_index(mods, name, 0)->0 as int], off_path(mods, path)),
    decreases off_path(mods, path), 0nat,
{
    let m = mods[module_index(mods, name, 0)->0 as int];
    lemma_module_index(mods, name, 0);
    lemma_off_path(mods, path, name);
    let below = off_path(mods, path.push(name));
    assert forall|j: int| 0 <= j < m.items.len() implies item_ends(
        mods,
        #[trigger] m.items[j],
        below,
    ) by {
        lemma_below_ends(mods, m.items, 0, path.push(name), j);
    }
    assert(ends(mods, m, below + 1)) by {
        assert forall|j: int| 0 <= j < m.items.len() implies item_ends(
            mods,
            #[trigger] m.items[j],
            (below + 1 - 1) as nat,
        ) by {
            assert(item_ends(mods, m.items[j], below));
        }
    }
    lemma_ends_more(mods, m, below + 1, off_path(mods, path));
}

proof fn lemma_off_empty_path(mods: Seq<ModuleV>)
    ensures
        off_path(mods, Seq::empty()) == mods.len(),
    decreases mods.len(),
{
    if mods.len() > 0 {
        lemma_off_empty_path(mods.drop_last());
    }
}

proof fn lemma_new_name(mods: Seq<ModuleV>, from: nat, i: int)
    requires
        declarations_complaint(mods, from) is None,
        from <= i < mods.len(),
    ensures
        !module_names(mods).take(i).contains(mods[i].name),
    decreases i - from,
{
    if from < i {
        lemma_new_name(mods, from + 1, i);
    }
}

/// The hierarchy below each module of an accepted file ends within as many levels
/// as there are modules.
pub proof fn accepted_hierarchies_end(f: SourceFileV, i: int)
    requires
        hierarchy_complaint(f) is None,
        0 <= i < modules_of(f.items).len(),
    ensures
        ends(modules_of(f.items), modules_of(f.items)[i], modules_of(f.items).len()),
{
    let mods = modules_of(f.items);
    let name = mods[i].name;
    lemma_roots_explored(mods, 0, i);
    lemma_off_empty_path(mods);
    lemma_module_index(mods, name, 0);
    let k = module_index(mods, name, 0)->0 as int;
    lemma_new_name(mods, 0, i);
    lemma_new_name(mods, 0, k);
    assert(k == i) by {
        if k < i {
            assert(module_names(mods).take(i)[k] == name);
        }
        if i < k {
            assert(module_names(mods).take(k)[i] == name);
        }
    }
    lemma_acyclic_ends(mods, name, Seq::empty());
}

// ---- instances ----------------------------------------------------------------------------------

/// Whether what a design has is that of before, with more after it.
pub open spec fn adds_to(before: RunningV, after: RunningV) -> bool {
    &&& extends(before.nets, after.nets)
    &&& before.drivers.len() <= after.drivers.len()
    &&& after.drivers.take(before.drivers.len() as int) == before.drivers
    &&& before.processes.len() <= after.processes.len()
    &&& after.processes.take(before.processes.len() as int) == before.processes
}

proof fn lemma_adds_to(a: RunningV, b: RunningV, c: RunningV)
    requires
        adds_to(a, b),
        adds_to(b, c),
    ensures
        adds_to(a, c),
{
    lemma_extends(a.nets, b.nets, c.nets);
    assert(c.drivers.take(a.drivers.len() as int) =~= b.drivers.take(a.drivers.len() as int));
    assert(c.processes.take(a.processes.len() as int) =~= b.processes.take(
        a.processes.len() as int,
    ));
}

proof fn lemma_adds_nothing(r: RunningV)
    ensures
        adds_to(r, r),
{
    assert(r.nets.take(r.nets.len() as int) =~= r.nets);
    assert(r.drivers.take(r.drivers.len() as int) =~= r.drivers);
    assert(r.processes.take(r.processes.len() as int) =~= r.processes);
}

/// An instance adds signals, drivers and processes, and leaves those of others as
/// they are.
pub proof fn instances_only_add(
    depth: nat,
    base: Consts,
    mods: Seq<ModuleV>,
    outer: EnvV,
    done: RunningV,
    m: ModuleV,
    path: Seq<char>,
    conns: Seq<PortConnectionV>,
    overrides: Seq<ParameterOverrideV>,
)
    requires
        with_instance(depth, base, mods, outer, done, m, path, conns, overrides) is Ok,
    ensures
        adds_to(
            done,
            with_instance(depth, base, mods, outer, done, m, path, conns, overrides)->Ok_0,
        ),
    decreases depth, 1nat, 0nat,
{
    let consts = with_parameters(base, outer.consts, m.parameters, overrides)->Ok_0;
    let ports = with_ports(done.nets, path, m.ports, outer.nets, conns)->Ok_0;
    let n = with_signals(ports, path, m.items, consts)->Ok_0;
    let ready = RunningV { nets: n.nets, ..done };
    lemma_ports_grow(done.nets, path, m.ports, outer.nets, conns);
    lemma_signals_grow(ports, path, m.items, consts);
    lemma_extends(done.nets, ports.nets, n.nets);
    lemma_adds_nothing(done);
    assert(adds_to(done, ready));
    let env = EnvV { nets: n.scope, consts, ..outer };
    lemma_items_add(depth, base, mods, env, ready, m.items, path);
    lemma_adds_to(done, ready, with_items(depth, base, mods, env, ready, m.items, path)->Ok_0);
}

proof fn lemma_items_add(
    depth: nat,
    base: Consts,
    mods: Seq<ModuleV>,
    env: EnvV,
    done: RunningV,
    items: Seq<ModuleItemV>,
    path: Seq<char>,
)
    requires
        with_items(depth, base, mods, env, done, items, path) is Ok,
    ensures
        adds_to(done, with_items(depth, base, mods, env, done, items, path)->Ok_0),
    decreases depth, 0nat, items.len(),
{
    lemma_adds_nothing(done);
    if items.len() > 0 {
        let rest = items.drop_last();
        lemma_items_add(depth, base, mods, env, done, rest, path);
        let r = with_items(depth, base, mods, env, done, rest, path)->Ok_0;
        let after = with_items(depth, base, mods, env, done, items, path)->Ok_0;
        lemma_adds_nothing(r);
        if let ModuleItemV::Instance(inst) = items.last() {
            if let Some(k) = module_index(mods, inst.module_name, 0) {
                instances_only_add(
                    (depth - 1) as nat,
                    base,
                    mods,
                    env,
                    r,
                    mods[k as int],
                    inner_path(path, inst.name),
                    inst.connections,
                    inst.parameters,
                );
            }
        } else {
            assert(after.processes.take(r.processes.len() as int) =~= r.processes);
            assert(after.drivers.take(r.drivers.len() as int) =~= r.drivers);
        }
        lemma_adds_to(done, r, after);
    }
}

/// The values that a delay writes, in order.
pub open spec fn written(d: Option<ContinuousDelayV>) -> Seq<ExprV> {
    match d {
        None => Seq::empty(),
        Some(ContinuousDelayV::Single(e)) => seq![e],
        Some(ContinuousDelayV::RiseFall { rise, fall }) => seq![rise, fall],
        Some(ContinuousDelayV::RiseFallTurnOff { rise, fall, turn_off }) => seq![
            rise,
            fall,
            turn_off,
        ],
    }
}

/// Whether delays are as many as a declaration writes, each the value of its expression
/// over some constants.
pub open spec fn delays_as_written(
    delays: Seq<u64>,
    d: Option<ContinuousDelayV>,
    consts: Consts,
) -> bool {
    &&& delays.len() == written(d).len()
    &&& forall|k: int|
        0 <= k < delays.len() ==> folded_const(#[trigger] written(d)[k], consts) is Ok
            && delays[k] as nat == value(folded_const(written(d)[k], consts)->Ok_0) % pow2(64)
}

/// The delays of a driver are as many as its assignment writes, and each is the value of
/// its expression over the constants of the instance; they are there exactly where every
/// expression has a value. In particular one value gives one delay, that value.
pub proof fn delays_are_as_written(d: Option<ContinuousDelayV>, consts: Consts)
    ensures
        amounts(d, consts) is Ok <==> forall|k: int|
            0 <= k < written(d).len() ==> folded_const(#[trigger] written(d)[k], consts) is Ok,
        amounts(d, consts) is Ok ==> delays_as_written(amounts(d, consts)->Ok_0, d, consts),
        d matches Some(ContinuousDelayV::Single(e)) ==> (amounts(d, consts) is Ok ==> amounts(
            d,
            consts,
        )->Ok_0.len() == 1),
{
    let w = written(d);
    match d {
        None => {},
        Some(ContinuousDelayV::Single(e)) => {
            lemma_amount(e, consts);
            assert(w[0] == e);
        },
        Some(ContinuousDelayV::RiseFall { rise, fall }) => {
            lemma_amount(rise, consts);
            lemma_amount(fall, consts);
            assert(w[0] == rise && w[1] == fall);
        },
        Some(ContinuousDelayV::RiseFallTurnOff { rise, fall, turn_off }) => {
            lemma_amount(rise, consts);
            lemma_amount(fall, consts);
            lemma_amount(turn_off, consts);
            assert(w[0] == rise && w[1] == fall && w[2] == turn_off);
        },
    }
}

/// A delay is the value of its expression, as far as sixty-four bits hold it.
proof fn lemma_amount(e: ExprV, consts: Consts)
    ensures
        amount(e, consts) is Ok <==> folded_const(e, consts) is Ok,
        amount(e, consts) is Ok ==> amount(e, consts)->Ok_0 as nat == value(
            folded_const(e, consts)->Ok_0,
        ) % pow2(64),
{
    lemma_pow2_pos(64);
    lemma2_to64();
    if folded_const(e, consts) is Ok {
        vstd::arithmetic::div_mod::lemma_mod_bound(
            value(folded_const(e, consts)->Ok_0) as int,
            pow2(64) as int,
        );
    }
}

/// The driver of a continuous assignment drives the net that the target names, computes
/// the right-hand side, has the strength that is written, and the delays that are written.
pub proof fn drivers_are_as_written(
    env: EnvV,
    target: Seq<char>,
    rhs: ExprV,
    delay: Option<ContinuousDelayV>,
    strength: Option<DriveStrengthSpec>,
)
    requires
        driver(env, target, rhs, delay, strength) is Ok,
    ensures
        ({
            let d = driver(env, target, rhs, delay, strength)->Ok_0;
            &&& lookup(env.nets, target) is Some && d.net == (lookup(env.nets, target)->0).0
            &&& driver_code(env, rhs) == Ok::<ProgramV, Seq<char>>(d.value)
            &&& d.strength == strength
            &&& delays_as_written(d.delays, delay, env.consts)
        }),
{
    delays_are_as_written(delay, env.consts);
}

/// A net declaration makes a net of its name, width and kind, undriven, with the delays
/// that are written: a net that pulls down or is low starts low, one that pulls up or is
/// high starts high, and any other starts without a value.
pub proof fn nets_are_as_declared(path: Seq<char>, n: NetDeclV, consts: Consts)
    requires
        n.width > 0,
        declared(path, ModuleItemV::Net(n), consts) is Ok,
    ensures
        ({
            let (name, width, net) = (declared(path, ModuleItemV::Net(n), consts)->Ok_0)->0;
            &&& declared(path, ModuleItemV::Net(n), consts)->Ok_0 is Some
            &&& name == n.name && width == n.width
            &&& net.name == path + n.name
            &&& net.kind == Some(n.kind)
            &&& net.init.len() == n.width
            &&& forall|i: int|
                0 <= i < net.init.len() ==> #[trigger] net.init[i] == (if n.kind == NetKind::Tri0
                    || n.kind == NetKind::Supply0 {
                    Bit::Zero
                } else if n.kind == NetKind::Tri1 || n.kind == NetKind::Supply1 {
                    Bit::One
                } else {
                    Bit::Z
                })
            &&& delays_as_written(net.delays, n.delay, consts)
        }),
{
    delays_are_as_written(n.delay, consts);
}

// ---- connections and overrides ----------------------------------------------------------------

/// A port takes the first connection of its name; without one it takes the connection at
/// its place, if that has no name; and else it is not connected. It is then the signal that
/// the connection names.
pub proof fn connections_go_by_name_then_by_place(
    outer: Seq<(Seq<char>, (u32, u32))>,
    conns: Seq<PortConnectionV>,
    name: Seq<char>,
    i: int,
    k: int,
)
    ensures
        0 <= k < conns.len() && conns[k].port == Some(name) && (forall|j: int|
            0 <= j < k ==> (#[trigger] conns[j]).port != Some(name)) ==> connected(
            outer,
            conns,
            name,
            i,
        ) == (match conns[k].expr {
            ExprV::Ref(signal) => lookup(outer, signal),
            _ => None,
        }),
        (forall|j: int| 0 <= j < conns.len() ==> (#[trigger] conns[j]).port != Some(name)) ==> connected(
            outer,
            conns,
            name,
            i,
        ) == (if 0 <= i < conns.len() && conns[i].port is None {
            match conns[i].expr {
                ExprV::Ref(signal) => lookup(outer, signal),
                _ => None,
            }
        } else {
            None
        }),
{
    lemma_named_actual(conns, name, k);
}

proof fn lemma_named_actual(conns: Seq<PortConnectionV>, name: Seq<char>, k: int)
    ensures
        0 <= k < conns.len() && conns[k].port == Some(name) && (forall|j: int|
            0 <= j < k ==> (#[trigger] conns[j]).port != Some(name)) ==> named_actual(conns, name)
            == Some(conns[k].expr),
        (forall|j: int| 0 <= j < conns.len() ==> (#[trigger] conns[j]).port != Some(name))
            ==> named_actual(conns, name) is None,
    decreases conns.len(),
{
    if conns.len() > 0 {
        let rest = conns.skip(1);
        lemma_named_actual(rest, name, k - 1);
        assert(forall|j: int| 0 <= j < rest.len() ==> #[trigger] rest[j] == conns[j + 1]);
        if 0 <= k < conns.len() && conns[k].port == Some(name) && (forall|j: int|
            0 <= j < k ==> (#[trigger] conns[j]).port != Some(name)) {
            if k > 0 {
                assert(conns[0].port != Some(name));
                assert forall|j: int| 0 <= j < k - 1 implies (#[trigger] rest[j]).port
                    != Some(name) by {
                    assert(conns[j + 1].port != Some(name));
                }
                assert(rest[k - 1] == conns[k]);
            }
        }
        if forall|j: int| 0 <= j < conns.len() ==> (#[trigger] conns[j]).port != Some(name) {
            assert(conns[0].port != Some(name));
            assert forall|j: int| 0 <= j < rest.len() implies (#[trigger] rest[j]).port
                != Some(name) by {
                assert(conns[j + 1].port != Some(name));
            }
        }
    }
}

/// A parameter takes the first override of its name; without one it takes the override at
/// its place, if that has no name; and else it has its default.
pub proof fn overrides_go_by_name_then_by_place(
    overrides: Seq<ParameterOverrideV>,
    name: Seq<char>,
    i: int,
    k: int,
)
    ensures
        0 <= k < overrides.len() && overrides[k].parameter == Some(name) && (forall|j: int|
            0 <= j < k ==> (#[trigger] overrides[j]).parameter != Some(name)) ==> override_of(
            overrides,
            name,
            i,
        ) == Some(overrides[k].value),
        (forall|j: int| 0 <= j < overrides.len() ==> (#[trigger] overrides[j]).parameter != Some(name))
            ==> override_of(overrides, name, i) == (if 0 <= i < overrides.len()
            && overrides[i].parameter is None {
            Some(overrides[i].value)
        } else {
            None
        }),
    decreases overrides.len(),
{
    lemma_named_override(overrides, name, k);
}

proof fn lemma_named_override(s: Seq<ParameterOverrideV>, name: Seq<char>, k: int)
    ensures
        0 <= k < s.len() && s[k].parameter == Some(name) && (forall|j: int|
            0 <= j < k ==> (#[trigger] s[j]).parameter != Some(name)) ==> named_override(s, name)
            == Some(s[k].value),
        (forall|j: int| 0 <= j < s.len() ==> (#[trigger] s[j]).parameter != Some(name))
            ==> named_override(s, name) is None,
    decreases s.len(),
{
    if s.len() > 0 {
        let rest = s.skip(1);
        lemma_named_override(rest, name, k - 1);
        assert(forall|j: int| 0 <= j < rest.len() ==> #[trigger] rest[j] == s[j + 1]);
        if 0 <= k < s.len() && s[k].parameter == Some(name) && (forall|j: int|
            0 <= j < k ==> (#[trigger] s[j]).parameter != Some(name)) {
            if k > 0 {
                assert(s[0].parameter != Some(name));
                assert forall|j: int| 0 <= j < k - 1 implies (#[trigger] rest[j]).parameter
                    != Some(name) by {
                    assert(s[j + 1].parameter != Some(name));
                }
                assert(rest[k - 1] == s[k]);
            }
        }
        if forall|j: int| 0 <= j < s.len() ==> (#[trigger] s[j]).parameter != Some(name) {
            assert(s[0].parameter != Some(name));
            assert forall|j: int| 0 <= j < rest.len() implies (#[trigger] rest[j]).parameter
                != Some(name) by {
                assert(s[j + 1].parameter != Some(name));
            }
        }
    }
}

// ---- items ---------------------------------------------------------------------------------------

/// Each item of an instance adds what it is: an `always` and an `initial` block a process, a
/// continuous assignment a driver, an instance what its module adds under its own path; any
/// other item nothing. What was there stays.
pub proof fn items_add_what_they_are(
    depth: nat,
    base: Consts,
    mods: Seq<ModuleV>,
    env: EnvV,
    done: RunningV,
    items: Seq<ModuleItemV>,
    last: ModuleItemV,
    path: Seq<char>,
)
    requires
        with_items(depth, base, mods, env, done, items.push(last), path) is Ok,
    ensures
        with_items(depth, base, mods, env, done, items, path) is Ok,
        ({
            let a = with_items(depth, base, mods, env, done, items, path)->Ok_0;
            let b = with_items(depth, base, mods, env, done, items.push(last), path)->Ok_0;
            &&& last matches ModuleItemV::Always(x) ==> {
                &&& b.processes.len() == a.processes.len() + 1
                &&& b.processes.drop_last() == a.processes
                &&& always_code(env, x.body) == Ok::<ProgramV, Seq<char>>(b.processes.last())
                &&& b.nets == a.nets && b.drivers == a.drivers
            }
            &&& last matches ModuleItemV::Initial(x) ==> {
                &&& b.processes.len() == a.processes.len() + 1
                &&& b.processes.drop_last() == a.processes
                &&& initial_code(env, x) == Ok::<ProgramV, Seq<char>>(b.processes.last())
                &&& b.nets == a.nets && b.drivers == a.drivers
            }
            &&& last matches ModuleItemV::ContinuousAssign { lhs, rhs, delay, strength } ==> {
                &&& b.drivers.len() == a.drivers.len() + 1
                &&& b.drivers.drop_last() == a.drivers
                &&& driver(env, lhs.name, rhs, delay, strength) == Ok::<DriverV, Seq<char>>(
                    b.drivers.last(),
                )
                &&& b.nets == a.nets && b.processes == a.processes
            }
            &&& last matches ModuleItemV::Instance(inst) ==> (module_index(
                mods,
                inst.module_name,
                0,
            ) matches Some(k) ==> depth > 0 && with_instance(
                (depth - 1) as nat,
                base,
                mods,
                env,
                a,
                mods[k as int],
                path + inst.name + "."@,
                inst.connections,
                inst.parameters,
            ) == Ok::<RunningV, Seq<char>>(b))
            &&& last is Func || last is Class || last is Var || last is Net || last is EnumConst
                || last is EnumType || last is TypeAlias ==> a == b
        }),
{
    let all = items.push(last);
    assert(all.drop_last() =~= items);
    assert(all.last() == last);
    let a = with_items(depth, base, mods, env, done, items, path)->Ok_0;
    let b = with_items(depth, base, mods, env, done, all, path)->Ok_0;
    if last is Always || last is Initial {
        assert(b.processes.drop_last() =~= a.processes);
    }
    if last is ContinuousAssign {
        assert(b.drivers.drop_last() =~= a.drivers);
    }
}

/// A port that is not connected is a net of its own, of its name and width, all zero.
pub proof fn open_ports_are_nets_of_their_own(
    nets: Seq<NetV>,
    path: Seq<char>,
    ports: Seq<PortV>,
    p: PortV,
    outer: Seq<(Seq<char>, (u32, u32))>,
    conns: Seq<PortConnectionV>,
)
    requires
        with_ports(nets, path, ports.push(p), outer, conns) is Ok,
        connected(outer, conns, p.name, ports.len() as int) is None,
    ensures
        with_ports(nets, path, ports, outer, conns) is Ok,
        ({
            let a = with_ports(nets, path, ports, outer, conns)->Ok_0;
            let b = with_ports(nets, path, ports.push(p), outer, conns)->Ok_0;
            &&& b.nets.len() == a.nets.len() + 1
            &&& b.nets.drop_last() == a.nets
            &&& b.nets.last().name == path + p.name
            &&& b.nets.last().init.len() == p.width
            &&& forall|i: int| 0 <= i < p.width ==> #[trigger] b.nets.last().init[i] == Bit::Zero
            &&& b.nets.last().kind is None && b.nets.last().delays.len() == 0
            &&& lookup(b.scope, p.name) == Some((a.nets.len() as u32, p.width))
        }),
{
    let all = ports.push(p);
    assert(all.drop_last() =~= ports);
    assert(all.last() == p);
    let a = with_ports(nets, path, ports, outer, conns)->Ok_0;
    let b = with_ports(nets, path, all, outer, conns)->Ok_0;
    assert(b.nets.drop_last() =~= a.nets);
    put_then_lookup(a.scope, p.name, (a.nets.len() as u32, p.width), p.name);
}

/// A variable starts with its initial value in as many bits as it has, or else with zeros;
/// it has no net kind and no delays.
pub proof fn variables_are_as_declared(path: Seq<char>, v: VarDeclV, consts: Consts)
    requires
        declared(path, ModuleItemV::Var(v), consts) is Ok,
    ensures
        ({
            let (name, width, net) = (declared(path, ModuleItemV::Var(v), consts)->Ok_0)->0;
            &&& declared(path, ModuleItemV::Var(v), consts)->Ok_0 is Some
            &&& name == v.name && width == v.width
            &&& net.name == path + v.name
            &&& net.kind is None && net.delays.len() == 0
            &&& net.init.len() == v.width
            &&& v.init is None ==> forall|i: int|
                0 <= i < v.width ==> #[trigger] net.init[i] == Bit::Zero
            &&& v.init matches Some(e) ==> folded_const(e, consts) is Ok && forall|i: int|
                0 <= i < v.width && i < (folded_const(e, consts)->Ok_0).len()
                    ==> #[trigger] net.init[i] == (folded_const(e, consts)->Ok_0)[i]
        }),
{
}

/// A module runs by itself exactly if no module has an instance of it.
pub proof fn roots_are_not_instantiated(mods: Seq<ModuleV>, name: Seq<char>)
    ensures
        is_root(mods, name) <==> forall|i: int, j: int|
            0 <= i < mods.len() && 0 <= j < mods[i].items.len() ==> !(#[trigger] mods[i].items[j] is Instance
                && (mods[i].items[j]->Instance_0).module_name == name),
{
    if is_root(mods, name) {
        assert forall|i: int, j: int|
            0 <= i < mods.len() && 0 <= j < mods[i].items.len() implies !(
        #[trigger] mods[i].items[j] is Instance && (mods[i].items[j]->Instance_0).module_name
            == name) by {
            assert(!has_instance(mods[i], name));
            assert(!instantiates(mods[i].items[j], name));
        }
    } else {
        let i = choose|i: int| 0 <= i < mods.len() && has_instance(#[trigger] mods[i], name);
        let j = choose|j: int|
            0 <= j < mods[i].items.len() && instantiates(#[trigger] mods[i].items[j], name);
        assert(mods[i].items[j] is Instance);
    }
}

} // verus!
