//! Checks of a whole design: scopes, parameters, instances and the module
//! hierarchy.
use vstd::prelude::*;

use crate::ast::{
    views, ClassDecl, Expr, FuncDecl, Item, Module, ModuleInstance, ModuleItem, ModuleParameter,
    ParameterOverride, PortConnection, PortDir, SourceFile, VarDecl, Port, Param,
};
use crate::ast_model::{
    ClassDeclV, ExprV, FuncDeclV, ItemV, ModuleInstanceV, ModuleItemV, ModuleParameterV, ModuleV,
    ParamV, ParameterOverrideV, PortConnectionV, PortV, SourceFileV, VarDeclV,
};
use crate::complaint::{
    either, outcome, unsupported, Complaint, ElabError, ElabErrorV, Rejection,
};
use crate::message::{text11, text2, text5, text7, text9, text3};
use crate::delay_check::{net_delays_complaint, validate_net_delays};
use crate::net_check::{
    assigns_complaint, find_port, find_signal, is_module_net, module_signal, module_signal_is_net,
    net_writes_complaint, port_named, validate_continuous_assignments,
    validate_procedural_net_writes,
};
use crate::stmt_check::{
    constant_over, expr_complaint, holds_name, is_constant_expr, lvalue_complaint, name_views,
    stmt_complaint, type_complaint, validate_expr, validate_lvalue, validate_optional_type,
    validate_stmt,
};
use crate::text::{decimal, number_text};

verus! {

/// The names of module parameters.
pub open spec fn parameter_names(s: Seq<ModuleParameterV>) -> Seq<Seq<char>> {
    s.map_values(|p: ModuleParameterV| p.name)
}

/// The name that an item declares in its module's scope, if any.
pub open spec fn item_name(item: ModuleItemV) -> Option<Seq<char>> {
    match item {
        ModuleItemV::Var(v) => Some(v.name),
        ModuleItemV::Net(n) => Some(n.name),
        ModuleItemV::Instance(i) => Some(i.name),
        _ => None,
    }
}

/// The names that items declare, in order.
pub open spec fn item_names(items: Seq<ModuleItemV>) -> Seq<Seq<char>>
    decreases items.len(),
{
    if items.len() == 0 {
        Seq::empty()
    } else {
        match item_name(items.last()) {
            Some(n) => item_names(items.drop_last()).push(n),
            None => item_names(items.drop_last()),
        }
    }
}

/// The names of a module's scope: parameters, ports, then items.
pub open spec fn scope_names(m: ModuleV) -> Seq<Seq<char>> {
    parameter_names(m.parameters) + m.ports.map_values(|p: PortV| p.name) + item_names(m.items)
}

/// The first name at or after position `i` that occurred before.
pub open spec fn repeated_name(names: Seq<Seq<char>>, i: nat) -> Option<Seq<char>>
    decreases names.len() - i,
{
    if i >= names.len() {
        None
    } else if names.take(i as int).contains(names[i as int]) {
        Some(names[i as int])
    } else {
        repeated_name(names, i + 1)
    }
}

/// The complaint about a scope that declares a name twice.
pub open spec fn scope_complaint(m: ModuleV) -> Complaint {
    match repeated_name(scope_names(m), 0) {
        Some(n) => Some("duplicate declaration '"@ + n + "' in module '"@ + m.name + "'"@),
        None => None,
    }
}

/// The first complaint about the parameters of a module from `i` on: a default
/// is constant over the parameters before it.
pub open spec fn parameters_complaint(m: ModuleV, i: nat) -> Complaint
    decreases m.parameters.len() - i,
{
    if i >= m.parameters.len() {
        None
    } else {
        let p = m.parameters[i as int];
        if !constant_over(p.default, parameter_names(m.parameters).take(i as int)) {
            Some(
                "default value for module parameter '"@ + m.name + "."@ + p.name
                    + "' is not a constant expression"@,
            )
        } else {
            either(expr_complaint(p.default), parameters_complaint(m, i + 1))
        }
    }
}

/// The first parameter with a name.
pub open spec fn parameter_named(s: Seq<ModuleParameterV>, name: Seq<char>) -> Option<
    ModuleParameterV,
>
    decreases s.len(),
{
    if s.len() == 0 {
        None
    } else if s[0].name == name {
        Some(s[0])
    } else {
        parameter_named(s.skip(1), name)
    }
}

/// Whether overrides mix named and positional ones.
pub open spec fn mixes_overrides(s: Seq<ParameterOverrideV>) -> bool {
    exists|i: int| 0 <= i < s.len() && (#[trigger] s[i]).parameter is Some != s[0].parameter is Some
}

/// The first complaint about the parameter overrides of an instance from `i`
/// on, where `seen` are the parameters overridden before.
pub open spec fn overrides_complaint(
    parent: ModuleV,
    child: ModuleV,
    inst: ModuleInstanceV,
    i: nat,
    seen: Seq<Seq<char>>,
) -> Complaint
    decreases inst.parameters.len() - i,
{
    if i >= inst.parameters.len() {
        None
    } else {
        let over = inst.parameters[i as int];
        let target = match over.parameter {
            Some(name) => parameter_named(child.parameters, name),
            None => if i < child.parameters.len() {
                Some(child.parameters[i as int])
            } else {
                None
            },
        };
        match target {
            None => match over.parameter {
                Some(name) => Some(
                    "module '"@ + child.name + "' has no parameter '"@ + name + "' overridden by '"@
                        + parent.name + "."@ + inst.name + "'"@,
                ),
                None => Some(
                    "instance '"@ + parent.name + "."@ + inst.name
                        + "' has more positional parameter overrides than module '"@ + child.name
                        + "' has parameters"@,
                ),
            },
            Some(p) => if seen.contains(p.name) {
                Some(
                    "instance '"@ + parent.name + "."@ + inst.name + "' overrides parameter '"@
                        + p.name + "' more than once"@,
                )
            } else if !constant_over(over.value, parameter_names(parent.parameters)) {
                Some(
                    "override for module parameter '"@ + child.name + "."@ + p.name
                        + "' is not a constant expression"@,
                )
            } else {
                either(
                    expr_complaint(over.value),
                    overrides_complaint(parent, child, inst, i + 1, seen.push(p.name)),
                )
            },
        }
    }
}

/// The complaint about all parameter overrides of an instance.
pub open spec fn instance_overrides_complaint(
    parent: ModuleV,
    child: ModuleV,
    inst: ModuleInstanceV,
) -> Complaint {
    if mixes_overrides(inst.parameters) {
        Some(
            "instance '"@ + parent.name + "."@ + inst.name
                + "' mixes named and positional parameter overrides"@,
        )
    } else {
        overrides_complaint(parent, child, inst, 0, Seq::empty())
    }
}

/// Whether an earlier connection names the same port.
pub open spec fn connected_before(s: Seq<PortConnectionV>, i: int, port: Seq<char>) -> bool {
    exists|k: int| 0 <= k < i && (#[trigger] s[k]).port == Some(port)
}

/// The complaint about what is connected to a port.
pub open spec fn actual_complaint(
    parent: ModuleV,
    inst: ModuleInstanceV,
    port: PortV,
    actual: ExprV,
) -> Complaint {
    match actual {
        ExprV::Ref(signal) => match module_signal(parent, signal) {
            None => Some(
                "unknown signal '"@ + signal + "' connected to '"@ + inst.name + "."@ + port.name
                    + "'"@,
            ),
            Some((width, _)) => if width != port.width {
                Some(
                    "port width conversion is unsupported for '"@ + inst.name + "."@ + port.name
                        + "': actual '"@ + signal + "' is "@ + decimal(width as nat)
                        + " bits, port is "@ + decimal(port.width as nat) + " bits"@,
                )
            } else if port.is_net && (port.dir == PortDir::Output || port.dir == PortDir::Inout)
                && !is_module_net(parent, signal) {
                Some(
                    "net port '"@ + inst.name + "."@ + port.name
                        + "' must connect to a parent net"@,
                )
            } else {
                None
            },
        },
        _ => Some(
            "module connection '"@ + inst.name + "."@ + port.name
                + "' is not a simple signal reference"@,
        ),
    }
}

/// The first complaint about the port connections of an instance from `i` on.
pub open spec fn connections_complaint(
    parent: ModuleV,
    child: ModuleV,
    inst: ModuleInstanceV,
    i: nat,
) -> Complaint
    decreases inst.connections.len() - i,
{
    if i >= inst.connections.len() {
        None
    } else {
        let c = inst.connections[i as int];
        either(
            match c.port {
                Some(name) => if connected_before(inst.connections, i as int, name) {
                    Some(
                        "instance '"@ + parent.name + "."@ + inst.name + "' connects port '"@ + name
                            + "' more than once"@,
                    )
                } else {
                    match port_named(child.ports, name) {
                        Some(port) => actual_complaint(parent, inst, port, c.expr),
                        None => Some(
                            "module '"@ + child.name + "' has no port '"@ + name
                                + "' connected by '"@ + parent.name + "."@ + inst.name + "'"@,
                        ),
                    }
                },
                None => if i >= child.ports.len() {
                    Some(
                        "instance '"@ + parent.name + "."@ + inst.name
                            + "' has more positional connections than module '"@ + child.name
                            + "' has ports"@,
                    )
                } else {
                    actual_complaint(parent, inst, child.ports[i as int], c.expr)
                },
            },
            connections_complaint(parent, child, inst, i + 1),
        )
    }
}

/// The modules of a source file, in order.
pub open spec fn modules_of(items: Seq<ItemV>) -> Seq<ModuleV>
    decreases items.len(),
{
    if items.len() == 0 {
        Seq::empty()
    } else {
        match items.last() {
            ItemV::Module(m) => modules_of(items.drop_last()).push(m),
            _ => modules_of(items.drop_last()),
        }
    }
}

/// The names of modules.
pub open spec fn module_names(mods: Seq<ModuleV>) -> Seq<Seq<char>> {
    mods.map_values(|m: ModuleV| m.name)
}

/// The position of the first module with a name.
pub open spec fn module_index(mods: Seq<ModuleV>, name: Seq<char>, from: nat) -> Option<nat>
    decreases mods.len() - from,
{
    if from >= mods.len() {
        None
    } else if mods[from as int].name == name {
        Some(from)
    } else {
        module_index(mods, name, from + 1)
    }
}

/// The first complaint about the declarations of the modules from `i` on.
pub open spec fn declarations_complaint(mods: Seq<ModuleV>, i: nat) -> Complaint
    decreases mods.len() - i,
{
    if i >= mods.len() {
        None
    } else {
        let m = mods[i as int];
        if module_names(mods).take(i as int).contains(m.name) {
            Some("duplicate module declaration '"@ + m.name + "'"@)
        } else {
            either(
                scope_complaint(m),
                either(
                    parameters_complaint(m, 0),
                    either(
                        assigns_complaint(m, 0),
                        either(
                            net_delays_complaint(m, 0),
                            either(net_writes_complaint(m, 0), declarations_complaint(mods, i + 1)),
                        ),
                    ),
                ),
            )
        }
    }
}

/// The complaint about one instance.
pub open spec fn instance_complaint(mods: Seq<ModuleV>, parent: ModuleV, inst: ModuleInstanceV) -> Complaint {
    match module_index(mods, inst.module_name, 0) {
        None => Some(
            "unknown module '"@ + inst.module_name + "' instantiated as '"@ + parent.name + "."@
                + inst.name + "'"@,
        ),
        Some(k) => either(
            instance_overrides_complaint(parent, mods[k as int], inst),
            connections_complaint(parent, mods[k as int], inst, 0),
        ),
    }
}

/// The first complaint about the instances of a module from item `j` on.
pub open spec fn module_instances_complaint(mods: Seq<ModuleV>, parent: ModuleV, j: nat) -> Complaint
    decreases parent.items.len() - j,
{
    if j >= parent.items.len() {
        None
    } else {
        either(
            match parent.items[j as int] {
                ModuleItemV::Instance(inst) => instance_complaint(mods, parent, inst),
                _ => None,
            },
            module_instances_complaint(mods, parent, j + 1),
        )
    }
}

/// The first complaint about the instances of the modules from `i` on.
pub open spec fn instances_complaint(mods: Seq<ModuleV>, i: nat) -> Complaint
    decreases mods.len() - i,
{
    if i >= mods.len() {
        None
    } else {
        either(
            module_instances_complaint(mods, mods[i as int], 0),
            instances_complaint(mods, i + 1),
        )
    }
}

/// How many modules are not on a path.
pub open spec fn off_path(mods: Seq<ModuleV>, path: Seq<Seq<char>>) -> nat
    decreases mods.len(),
{
    if mods.len() == 0 {
        0
    } else {
        off_path(mods.drop_last(), path) + if path.contains(mods.last().name) {
            0nat
        } else {
            1nat
        }
    }
}

pub proof fn lemma_off_path(mods: Seq<ModuleV>, path: Seq<Seq<char>>, name: Seq<char>)
    ensures
        off_path(mods, path.push(name)) <= off_path(mods, path),
        !path.contains(name) && module_names(mods).contains(name) ==> off_path(
            mods,
            path.push(name),
        ) < off_path(mods, path),
    decreases mods.len(),
{
    let longer = path.push(name);
    assert forall|x: Seq<char>| longer.contains(x) == (path.contains(x) || x == name) by {
        if path.contains(x) {
            let k = choose|k: int| 0 <= k < path.len() && path[k] == x;
            assert(longer[k] == x);
        }
        if x == name {
            assert(longer[path.len() as int] == x);
        }
        if longer.contains(x) {
            let k = choose|k: int| 0 <= k < longer.len() && longer[k] == x;
            if k < path.len() {
                assert(path[k] == x);
            }
        }
    }
    if mods.len() > 0 {
        lemma_off_path(mods.drop_last(), path, name);
        if module_names(mods).contains(name) && mods.last().name != name {
            let k = choose|k: int| 0 <= k < mods.len() && module_names(mods)[k] == name;
            assert(module_names(mods.drop_last())[k] == name);
        }
    }
}

/// Names joined by arrows.
pub open spec fn arrows(names: Seq<Seq<char>>) -> Seq<char>
    decreases names.len(),
{
    if names.len() == 0 {
        ""@
    } else if names.len() == 1 {
        names[0]
    } else {
        arrows(names.drop_last()) + " -> "@ + names.last()
    }
}

/// The position of a name on a path.
pub open spec fn path_index(path: Seq<Seq<char>>, name: Seq<char>, from: nat) -> nat
    decreases path.len() - from,
{
    if from >= path.len() || path[from as int] == name {
        from
    } else {
        path_index(path, name, from + 1)
    }
}

/// The complaint about a path that comes back to a module.
pub open spec fn cycle_text(path: Seq<Seq<char>>, name: Seq<char>) -> Seq<char> {
    "cyclic module hierarchy: "@ + arrows(path.skip(path_index(path, name, 0) as int).push(name))
}

/// The first cycle met by walking the instances depth first from a module, with
/// `path` the modules entered before.
pub open spec fn cycle_from(mods: Seq<ModuleV>, name: Seq<char>, path: Seq<Seq<char>>) -> Complaint
    decreases off_path(mods, path), 0nat,
{
    match module_index(mods, name, 0) {
        None => None,
        Some(k) => if path.contains(name) {
            Some(cycle_text(path, name))
        } else {
            proof {
                lemma_module_index(mods, name, 0);
                lemma_off_path(mods, path, name);
            }
            cycle_below(mods, mods[k as int].items, 0, path.push(name))
        },
    }
}

/// The first cycle met below a module from item `j` on.
pub open spec fn cycle_below(
    mods: Seq<ModuleV>,
    items: Seq<ModuleItemV>,
    j: nat,
    path: Seq<Seq<char>>,
) -> Complaint
    decreases off_path(mods, path), items.len() - j + 1,
{
    if j >= items.len() {
        None
    } else {
        either(
            match items[j as int] {
                ModuleItemV::Instance(inst) => cycle_from(mods, inst.module_name, path),
                _ => None,
            },
            cycle_below(mods, items, j + 1, path),
        )
    }
}

pub proof fn lemma_module_index(mods: Seq<ModuleV>, name: Seq<char>, from: nat)
    ensures
        module_index(mods, name, from) matches Some(k) ==> from <= k < mods.len() && mods[k as int].name
            == name && module_names(mods).contains(name),
        module_index(mods, name, from) is None ==> forall|i: int|
            from <= i < mods.len() ==> mods[i].name != name,
    decreases mods.len() - from,
{
    if from < mods.len() {
        if mods[from as int].name == name {
            assert(module_names(mods)[from as int] == name);
        } else {
            lemma_module_index(mods, name, from + 1);
        }
    }
}

/// The first cycle met from the modules in turn.
pub open spec fn cycles_complaint(mods: Seq<ModuleV>, i: nat) -> Complaint
    decreases mods.len() - i,
{
    if i >= mods.len() {
        None
    } else {
        either(
            cycle_from(mods, mods[i as int].name, Seq::empty()),
            cycles_complaint(mods, i + 1),
        )
    }
}

/// The first complaint about the module hierarchy of a file.
pub open spec fn hierarchy_complaint(f: SourceFileV) -> Complaint {
    let mods = modules_of(f.items);
    either(
        declarations_complaint(mods, 0),
        either(instances_complaint(mods, 0), cycles_complaint(mods, 0)),
    )
}

/// The modules of a source file, in order.
pub fn collect_modules(f: &SourceFile) -> (r: Vec<&Module>)
    ensures
        views(r@) == modules_of(f@.items),
{
    let ghost all = f@.items;
    let mut out: Vec<&Module> = Vec::new();
    let mut i: usize = 0;
    assert(views(out@) =~= modules_of(all.take(0)));
    while i < f.items.len()
        invariant
            i <= f.items@.len(),
            all == views(f.items@),
            views(out@) == modules_of(all.take(i as int)),
        decreases f.items@.len() - i,
    {
        let ghost before = out@;
        let ghost next = all.take(i + 1);
        assert(next.drop_last() =~= all.take(i as int));
        assert(next.last() == f.items@[i as int]@);
        if let Item::Module(m) = &f.items[i] {
            out.push(m);
            assert(views(out@) =~= views(before).push(m@));
        }
        i = i + 1;
    }
    assert(all.take(i as int) =~= all);
    out
}

/// The position of the first module with a name.
pub fn find_module(mods: &Vec<&Module>, name: &String) -> (r: Option<usize>)
    ensures
        match r {
            Some(k) => module_index(views(mods@), name@, 0) == Some(k as nat) && k < mods@.len()
                && views(mods@)[k as int].name == name@,
            None => module_index(views(mods@), name@, 0) is None,
        },
{
    let ghost all = views(mods@);
    let mut i: usize = 0;
    while i < mods.len()
        invariant
            i <= mods@.len(),
            all == views(mods@),
            module_index(all, name@, 0) == module_index(all, name@, i as nat),
        decreases mods@.len() - i,
    {
        assert(all[i as int] == mods@[i as int]@);
        if mods[i].name == *name {
            return Some(i);
        }
        i = i + 1;
    }
    None
}

/// The names of module parameters.
pub fn names_of_parameters(v: &Vec<ModuleParameter>) -> (r: Vec<String>)
    ensures
        name_views(r@) == parameter_names(views(v@)),
{
    let ghost all = parameter_names(views(v@));
    let mut out: Vec<String> = Vec::new();
    let mut i: usize = 0;
    while i < v.len()
        invariant
            i <= v@.len(),
            out@.len() == i,
            all == parameter_names(views(v@)),
            name_views(out@) == all.take(i as int),
        decreases v@.len() - i,
    {
        out.push(v[i].name.clone());
        i = i + 1;
        assert(name_views(out@) =~= all.take(i as int));
    }
    assert(all.take(i as int) =~= all);
    out
}

/// The names of a module's scope.
fn collect_scope(m: &Module) -> (r: Vec<String>)
    ensures
        name_views(r@) == scope_names(m@),
{
    let mut out: Vec<String> = names_of_parameters(&m.parameters);
    let ghost params = parameter_names(m@.parameters);
    let ghost ports = m@.ports.map_values(|p: PortV| p.name);
    let mut i: usize = 0;
    assert(name_views(out@) =~= params + ports.take(0));
    while i < m.ports.len()
        invariant
            i <= m.ports@.len(),
            ports == m@.ports.map_values(|p: PortV| p.name),
            name_views(out@) == params + ports.take(i as int),
        decreases m.ports@.len() - i,
    {
        let ghost before = out@;
        out.push(m.ports[i].name.clone());
        assert(name_views(out@) =~= name_views(before).push(m.ports@[i as int].name@));
        assert(ports[i as int] == m.ports@[i as int].name@);
        i = i + 1;
        assert(name_views(out@) =~= params + ports.take(i as int));
    }
    assert(ports.take(i as int) =~= ports);
    let ghost items = m@.items;
    let mut j: usize = 0;
    assert(name_views(out@) =~= params + ports + item_names(items.take(0)));
    while j < m.items.len()
        invariant
            j <= m.items@.len(),
            items == views(m.items@),
            name_views(out@) == params + ports + item_names(items.take(j as int)),
        decreases m.items@.len() - j,
    {
        let ghost before = out@;
        let ghost next = items.take(j + 1);
        assert(next.drop_last() =~= items.take(j as int));
        assert(next.last() == m.items@[j as int]@);
        let name: Option<&String> = match &m.items[j] {
            ModuleItem::Var(v) => Some(&v.name),
            ModuleItem::Net(n) => Some(&n.name),
            ModuleItem::Instance(inst) => Some(&inst.name),
            _ => None,
        };
        if let Some(n) = name {
            out.push(n.clone());
            assert(name_views(out@) =~= name_views(before).push(n@));
            assert(name_views(out@) =~= params + ports + item_names(next));
        }
        j = j + 1;
    }
    assert(items.take(j as int) =~= items);
    out
}

/// The first repeated name of a list.
fn find_repeated(names: &Vec<String>) -> (r: Option<usize>)
    ensures
        match r {
            Some(k) => k < names@.len() && repeated_name(name_views(names@), 0) == Some(
                names@[k as int]@,
            ),
            None => repeated_name(name_views(names@), 0) is None,
        },
{
    let ghost all = name_views(names@);
    let mut i: usize = 0;
    while i < names.len()
        invariant
            i <= names@.len(),
            all == name_views(names@),
            repeated_name(all, 0) == repeated_name(all, i as nat),
        decreases names@.len() - i,
    {
        let mut k: usize = 0;
        let mut found = false;
        while k < i && !found
            invariant
                i < names@.len(),
                k <= i,
                all == name_views(names@),
                found ==> all.take(i as int).contains(all[i as int]),
                !found ==> forall|q: int| 0 <= q < k ==> all[q] != all[i as int],
            decreases i - k + (if found { 0int } else { 1int }),
        {
            if names[k] == names[i] {
                assert(all.take(i as int)[k as int] == all[i as int]);
                found = true;
            } else {
                k = k + 1;
            }
        }
        if found {
            return Some(i);
        }
        i = i + 1;
    }
    None
}

/// Check that a module declares no name twice.
pub fn validate_module_scope(m: &Module) -> (r: Result<(), Rejection>)
    ensures
        outcome(r) == scope_complaint(m@),
{
    let names: Vec<String> = collect_scope(m);
    match find_repeated(&names) {
        Some(k) => unsupported(
            text5(
                "duplicate declaration '",
                names[k].as_str(),
                "' in module '",
                m.name.as_str(),
                "'",
            ),
        ),
        None => Ok(()),
    }
}

/// Check the parameter defaults of a module.
pub fn validate_module_parameters(m: &Module) -> (r: Result<(), Rejection>)
    ensures
        outcome(r) == parameters_complaint(m@, 0),
{
    let ghost all = parameter_names(m@.parameters);
    let mut visible: Vec<String> = Vec::new();
    let mut i: usize = 0;
    assert(name_views(visible@) =~= all.take(0));
    while i < m.parameters.len()
        invariant
            i <= m.parameters@.len(),
            all == parameter_names(m@.parameters),
            name_views(visible@) == all.take(i as int),
            parameters_complaint(m@, 0) == parameters_complaint(m@, i as nat),
        decreases m.parameters@.len() - i,
    {
        let p: &ModuleParameter = &m.parameters[i];
        assert(m@.parameters[i as int] == p@);
        if !is_constant_expr(&p.default, &visible) {
            return unsupported(
                text5(
                    "default value for module parameter '",
                    m.name.as_str(),
                    ".",
                    p.name.as_str(),
                    "' is not a constant expression",
                ),
            );
        }
        if let Err(x) = validate_expr(&p.default) {
            return Err(x);
        }
        let ghost before = visible@;
        visible.push(p.name.clone());
        assert(name_views(visible@) =~= name_views(before).push(p.name@));
        assert(all[i as int] == p.name@);
        i = i + 1;
        assert(name_views(visible@) =~= all.take(i as int));
    }
    Ok(())
}

/// The first parameter with a name.
fn find_parameter<'a>(v: &'a Vec<ModuleParameter>, name: &String) -> (r: Option<&'a ModuleParameter>)
    ensures
        match r {
            Some(p) => parameter_named(views(v@), name@) == Some(p@),
            None => parameter_named(views(v@), name@) is None,
        },
{
    let ghost all = views(v@);
    let mut i: usize = 0;
    assert(all.skip(0) =~= all);
    while i < v.len()
        invariant
            i <= v@.len(),
            all == views(v@),
            parameter_named(all, name@) == parameter_named(all.skip(i as int), name@),
        decreases v@.len() - i,
    {
        assert(all.skip(i as int)[0] == v@[i as int]@);
        assert(all.skip(i as int).skip(1) =~= all.skip(i + 1));
        if v[i].name == *name {
            return Some(&v[i]);
        }
        i = i + 1;
    }
    None
}

fn has_mixed_overrides(v: &Vec<ParameterOverride>) -> (r: bool)
    ensures
        r == mixes_overrides(views(v@)),
{
    let ghost all = views(v@);
    let mut i: usize = 0;
    while i < v.len()
        invariant
            i <= v@.len(),
            all == views(v@),
            forall|k: int| 0 <= k < i ==> (#[trigger] all[k]).parameter is Some == all[0].parameter is Some,
        decreases v@.len() - i,
    {
        assert(all[i as int] == v@[i as int]@);
        assert(all[0] == v@[0]@);
        if v[i].parameter.is_some() != v[0].parameter.is_some() {
            return true;
        }
        i = i + 1;
    }
    false
}

/// Check the parameter overrides of an instance.
pub fn validate_parameter_overrides(parent: &Module, child: &Module, inst: &ModuleInstance) -> (r:
    Result<(), Rejection>)
    ensures
        outcome(r) == instance_overrides_complaint(parent@, child@, inst@),
{
    let pname: &str = parent.name.as_str();
    let iname: &str = inst.name.as_str();
    let cname: &str = child.name.as_str();
    if has_mixed_overrides(&inst.parameters) {
        return unsupported(
            text5(
                "instance '",
                pname,
                ".",
                iname,
                "' mixes named and positional parameter overrides",
            ),
        );
    }
    let known: Vec<String> = names_of_parameters(&parent.parameters);
    let mut seen: Vec<String> = Vec::new();
    let mut i: usize = 0;
    assert(name_views(seen@) =~= Seq::empty());
    while i < inst.parameters.len()
        invariant
            i <= inst.parameters@.len(),
            pname@ == parent@.name,
            iname@ == inst@.name,
            cname@ == child@.name,
            name_views(known@) == parameter_names(parent@.parameters),
            overrides_complaint(parent@, child@, inst@, 0, Seq::empty()) == overrides_complaint(
                parent@,
                child@,
                inst@,
                i as nat,
                name_views(seen@),
            ),
            !mixes_overrides(inst@.parameters),
        decreases inst.parameters@.len() - i,
    {
        let over: &ParameterOverride = &inst.parameters[i];
        assert(inst@.parameters[i as int] == over@);
        let target: Option<&ModuleParameter> = match &over.parameter {
            Some(name) => find_parameter(&child.parameters, name),
            None => if i < child.parameters.len() {
                assert(child@.parameters[i as int] == child.parameters@[i as int]@);
                Some(&child.parameters[i])
            } else {
                None
            },
        };
        match target {
            None => {
                return match &over.parameter {
                    Some(name) => unsupported(
                        text9(
                            "module '",
                            cname,
                            "' has no parameter '",
                            name.as_str(),
                            "' overridden by '",
                            pname,
                            ".",
                            iname,
                            "'",
                        ),
                    ),
                    None => unsupported(
                        text7(
                            "instance '",
                            pname,
                            ".",
                            iname,
                            "' has more positional parameter overrides than module '",
                            cname,
                            "' has parameters",
                        ),
                    ),
                };
            },
            Some(p) => {
                if holds_name(&seen, &p.name) {
                    return unsupported(
                        text7(
                            "instance '",
                            pname,
                            ".",
                            iname,
                            "' overrides parameter '",
                            p.name.as_str(),
                            "' more than once",
                        ),
                    );
                }
                if !is_constant_expr(&over.value, &known) {
                    return unsupported(
                        text5(
                            "override for module parameter '",
                            cname,
                            ".",
                            p.name.as_str(),
                            "' is not a constant expression",
                        ),
                    );
                }
                if let Err(x) = validate_expr(&over.value) {
                    return Err(x);
                }
                let ghost before = seen@;
                seen.push(p.name.clone());
                assert(name_views(seen@) =~= name_views(before).push(p.name@));
            },
        }
        i = i + 1;
    }
    Ok(())
}

fn validate_actual(parent: &Module, inst: &ModuleInstance, port: &Port, actual: &Expr) -> (r: Result<
    (),
    Rejection,
>)
    ensures
        outcome(r) == actual_complaint(parent@, inst@, port@, actual@),
{
    let iname: &str = inst.name.as_str();
    let port_name: &str = port.name.as_str();
    let signal: &String = match actual {
        Expr::Ref(signal) => signal,
        _ => {
            return unsupported(
                text5(
                    "module connection '",
                    iname,
                    ".",
                    port_name,
                    "' is not a simple signal reference",
                ),
            );
        },
    };
    match find_signal(parent, signal) {
        None => unsupported(
            text7(
                "unknown signal '",
                signal.as_str(),
                "' connected to '",
                iname,
                ".",
                port_name,
                "'",
            ),
        ),
        Some((width, _)) => {
            if width != port.width {
                let got: String = number_text(width as u64);
                let want: String = number_text(port.width as u64);
                return unsupported(
                    text11(
                        "port width conversion is unsupported for '",
                        iname,
                        ".",
                        port_name,
                        "': actual '",
                        signal.as_str(),
                        "' is ",
                        got.as_str(),
                        " bits, port is ",
                        want.as_str(),
                        " bits",
                    ),
                );
            }
            if port.is_net && (port.dir == PortDir::Output || port.dir == PortDir::Inout)
                && !module_signal_is_net(parent, signal) {
                return unsupported(
                    text5(
                        "net port '",
                        iname,
                        ".",
                        port_name,
                        "' must connect to a parent net",
                    ),
                );
            }
            Ok(())
        },
    }
}

fn is_connected_before(v: &Vec<PortConnection>, i: usize, port: &String) -> (r: bool)
    requires
        i <= v@.len(),
    ensures
        r == connected_before(views(v@), i as int, port@),
{
    let ghost all = views(v@);
    let mut k: usize = 0;
    while k < i
        invariant
            k <= i <= v@.len(),
            all == views(v@),
            forall|q: int| 0 <= q < k ==> (#[trigger] all[q]).port != Some(port@),
        decreases i - k,
    {
        assert(all[k as int] == v@[k as int]@);
        if let Some(p) = &v[k].port {
            if *p == *port {
                assert(all[k as int].port == Some(port@));
                return true;
            }
        }
        k = k + 1;
    }
    false
}

/// Check the port connections of an instance.
pub fn validate_connections(parent: &Module, child: &Module, inst: &ModuleInstance) -> (r: Result<
    (),
    Rejection,
>)
    ensures
        outcome(r) == connections_complaint(parent@, child@, inst@, 0),
{
    let pname: &str = parent.name.as_str();
    let iname: &str = inst.name.as_str();
    let cname: &str = child.name.as_str();
    let mut i: usize = 0;
    while i < inst.connections.len()
        invariant
            i <= inst.connections@.len(),
            pname@ == parent@.name,
            iname@ == inst@.name,
            cname@ == child@.name,
            connections_complaint(parent@, child@, inst@, 0) == connections_complaint(
                parent@,
                child@,
                inst@,
                i as nat,
            ),
        decreases inst.connections@.len() - i,
    {
        let c: &PortConnection = &inst.connections[i];
        assert(inst@.connections[i as int] == c@);
        let port: &Port = match &c.port {
            Some(name) => {
                if is_connected_before(&inst.connections, i, name) {
                    return unsupported(
                        text7(
                            "instance '",
                            pname,
                            ".",
                            iname,
                            "' connects port '",
                            name.as_str(),
                            "' more than once",
                        ),
                    );
                }
                match find_port(&child.ports, name) {
                    Some(port) => port,
                    None => {
                        return unsupported(
                            text9(
                                "module '",
                                cname,
                                "' has no port '",
                                name.as_str(),
                                "' connected by '",
                                pname,
                                ".",
                                iname,
                                "'",
                            ),
                        );
                    },
                }
            },
            None => {
                if i >= child.ports.len() {
                    return unsupported(
                        text7(
                            "instance '",
                            pname,
                            ".",
                            iname,
                            "' has more positional connections than module '",
                            cname,
                            "' has ports",
                        ),
                    );
                }
                assert(child@.ports[i as int] == child.ports@[i as int]@);
                &child.ports[i]
            },
        };
        if let Err(x) = validate_actual(parent, inst, port, &c.expr) {
            return Err(x);
        }
        i = i + 1;
    }
    Ok(())
}

fn validate_declarations(mods: &Vec<&Module>) -> (r: Result<(), Rejection>)
    ensures
        outcome(r) == declarations_complaint(views(mods@), 0),
{
    let ghost all = views(mods@);
    let mut names: Vec<String> = Vec::new();
    let mut i: usize = 0;
    assert(name_views(names@) =~= module_names(all).take(0));
    while i < mods.len()
        invariant
            i <= mods@.len(),
            all == views(mods@),
            name_views(names@) == module_names(all).take(i as int),
            declarations_complaint(all, 0) == declarations_complaint(all, i as nat),
        decreases mods@.len() - i,
    {
        let m: &Module = mods[i];
        assert(all[i as int] == m@);
        if holds_name(&names, &m.name) {
            return unsupported(text3("duplicate module declaration '", m.name.as_str(), "'"));
        }
        if let Err(x) = validate_module_scope(m) {
            return Err(x);
        }
        if let Err(x) = validate_module_parameters(m) {
            return Err(x);
        }
        if let Err(x) = validate_continuous_assignments(m) {
            return Err(x);
        }
        if let Err(x) = validate_net_delays(m) {
            return Err(x);
        }
        if let Err(x) = validate_procedural_net_writes(m) {
            return Err(x);
        }
        let ghost before = names@;
        names.push(m.name.clone());
        assert(name_views(names@) =~= name_views(before).push(m.name@));
        assert(module_names(all)[i as int] == m.name@);
        i = i + 1;
        assert(name_views(names@) =~= module_names(all).take(i as int));
    }
    Ok(())
}

fn validate_instance(mods: &Vec<&Module>, parent: &Module, inst: &ModuleInstance) -> (r: Result<
    (),
    Rejection,
>)
    ensures
        outcome(r) == instance_complaint(views(mods@), parent@, inst@),
{
    match find_module(mods, &inst.module_name) {
        None => unsupported(
            text7(
                "unknown module '",
                inst.module_name.as_str(),
                "' instantiated as '",
                parent.name.as_str(),
                ".",
                inst.name.as_str(),
                "'",
            ),
        ),
        Some(k) => {
            assert(views(mods@)[k as int] == mods@[k as int]@);
            if let Err(x) = validate_parameter_overrides(parent, mods[k], inst) {
                return Err(x);
            }
            validate_connections(parent, mods[k], inst)
        },
    }
}

fn validate_module_instances(mods: &Vec<&Module>, parent: &Module) -> (r: Result<(), Rejection>)
    ensures
        outcome(r) == module_instances_complaint(views(mods@), parent@, 0),
{
    let ghost all = views(mods@);
    let mut j: usize = 0;
    while j < parent.items.len()
        invariant
            j <= parent.items@.len(),
            all == views(mods@),
            module_instances_complaint(all, parent@, 0) == module_instances_complaint(
                all,
                parent@,
                j as nat,
            ),
        decreases parent.items@.len() - j,
    {
        assert(parent@.items[j as int] == parent.items@[j as int]@);
        if let ModuleItem::Instance(inst) = &parent.items[j] {
            if let Err(x) = validate_instance(mods, parent, inst) {
                return Err(x);
            }
        }
        j = j + 1;
    }
    Ok(())
}

fn validate_instances(mods: &Vec<&Module>) -> (r: Result<(), Rejection>)
    ensures
        outcome(r) == instances_complaint(views(mods@), 0),
{
    let ghost all = views(mods@);
    let mut i: usize = 0;
    while i < mods.len()
        invariant
            i <= mods@.len(),
            all == views(mods@),
            instances_complaint(all, 0) == instances_complaint(all, i as nat),
        decreases mods@.len() - i,
    {
        assert(all[i as int] == mods@[i as int]@);
        if let Err(x) = validate_module_instances(mods, mods[i]) {
            return Err(x);
        }
        i = i + 1;
    }
    Ok(())
}

/// No name of a path belongs to a module that is done.
pub open spec fn clear_of_done(mods: Seq<ModuleV>, done: Seq<bool>, path: Seq<Seq<char>>) -> bool {
    forall|d: int| 0 <= d < done.len() && done[d] ==> !path.contains((#[trigger] mods[d]).name)
}

/// From a module that is done no cycle is met, whatever path leads to it.
pub open spec fn done_is_acyclic(mods: Seq<ModuleV>, done: Seq<bool>) -> bool {
    &&& done.len() == mods.len()
    &&& forall|d: int|
        0 <= d < done.len() && done[d] ==> module_index(mods, (#[trigger] mods[d]).name, 0) == Some(
            d as nat,
        )
    &&& forall|d: int, path: Seq<Seq<char>>|
        0 <= d < done.len() && done[d] && #[trigger] clear_of_done(mods, done, path)
            ==> #[trigger] cycle_from(mods, mods[d].name, path) is None
}

/// What was done stays done.
pub open spec fn still_done(before: Seq<bool>, after: Seq<bool>) -> bool {
    &&& before.len() == after.len()
    &&& forall|d: int| 0 <= d < before.len() && before[d] ==> #[trigger] after[d]
}

/// Whether every instance of known modules among the first `j` items leads to a
/// module that is done.
pub open spec fn targets_done(mods: Seq<ModuleV>, items: Seq<ModuleItemV>, j: int, done: Seq<bool>) -> bool {
    forall|q: int| 0 <= q < j ==> #[trigger] target_done(mods, items[q], done)
}

/// Whether an item is no instance of a known module that is not done.
pub open spec fn target_done(mods: Seq<ModuleV>, item: ModuleItemV, done: Seq<bool>) -> bool {
    match item {
        ModuleItemV::Instance(inst) => match module_index(mods, inst.module_name, 0) {
            Some(c) => c < done.len() && done[c as int],
            None => true,
        },
        _ => true,
    }
}

proof fn lemma_below_done(
    mods: Seq<ModuleV>,
    items: Seq<ModuleItemV>,
    j: nat,
    done: Seq<bool>,
    path: Seq<Seq<char>>,
)
    requires
        done_is_acyclic(mods, done),
        targets_done(mods, items, items.len() as int, done),
        clear_of_done(mods, done, path),
    ensures
        cycle_below(mods, items, j, path) is None,
    decreases items.len() - j,
{
    if j < items.len() {
        lemma_below_done(mods, items, j + 1, done, path);
        assert(target_done(mods, items[j as int], done));
        if let ModuleItemV::Instance(inst) = items[j as int] {
            let name = inst.module_name;
            lemma_module_index(mods, name, 0);
            match module_index(mods, name, 0) {
                Some(c) => {
                    assert(mods[c as int].name == name);
                    assert(cycle_from(mods, mods[c as int].name, path) is None);
                },
                None => {},
            }
        }
    }
}

proof fn lemma_pushed_contains(path: Seq<Seq<char>>, name: Seq<char>, x: Seq<char>)
    ensures
        path.push(name).contains(x) == (path.contains(x) || x == name),
{
    let longer = path.push(name);
    if path.contains(x) {
        let k = choose|k: int| 0 <= k < path.len() && path[k] == x;
        assert(longer[k] == x);
    }
    if x == name {
        assert(longer[path.len() as int] == x);
    }
    if longer.contains(x) {
        let k = choose|k: int| 0 <= k < longer.len() && longer[k] == x;
        if k < path.len() {
            assert(path[k] == x);
        }
    }
}

/// Marking a module whose instances all lead to modules that are done.
proof fn lemma_mark_done(mods: Seq<ModuleV>, k: int, done: Seq<bool>)
    requires
        done_is_acyclic(mods, done),
        0 <= k < mods.len(),
        !done[k],
        module_index(mods, mods[k].name, 0) == Some(k as nat),
        targets_done(mods, mods[k].items, mods[k].items.len() as int, done),
    ensures
        done_is_acyclic(mods, done.update(k, true)),
{
    let next = done.update(k, true);
    let name = mods[k].name;
    assert forall|d: int, path: Seq<Seq<char>>|
        0 <= d < next.len() && next[d] && #[trigger] clear_of_done(mods, next, path) implies
        #[trigger] cycle_from(mods, mods[d].name, path) is None by {
        assert(clear_of_done(mods, done, path)) by {
            assert forall|q: int| 0 <= q < done.len() && done[q] implies !path.contains(
                (#[trigger] mods[q]).name,
            ) by {
                assert(next[q]);
            }
        }
        if d == k {
            assert(!path.contains(mods[k].name)) by {
                assert(next[k]);
            }
            assert(clear_of_done(mods, done, path.push(name))) by {
                assert forall|q: int| 0 <= q < done.len() && done[q] implies !path.push(
                    name,
                ).contains((#[trigger] mods[q]).name) by {
                    lemma_pushed_contains(path, name, mods[q].name);
                    if mods[q].name == name {
                        assert(module_index(mods, mods[q].name, 0) == Some(q as nat));
                    }
                }
            }
            lemma_below_done(mods, mods[k].items, 0, done, path.push(name));
        }
    }
}

/// Names joined by arrows, from position `start` on.
fn join_arrows(path: &Vec<String>, start: usize, last: &String) -> (r: String)
    requires
        start <= path@.len(),
    ensures
        r@ == arrows(name_views(path@).skip(start as int).push(last@)),
{
    let ghost all = name_views(path@).skip(start as int).push(last@);
    let len: usize = path.len();
    let mut out: String = "".to_string();
    let mut i: usize = start;
    while i < len
        invariant
            len == path@.len(),
            start <= i <= len,
            all == name_views(path@).skip(start as int).push(last@),
            out@ == arrows(all.take(i - start)),
        decreases len - i,
    {
        assert(all[i - start] == path@[i as int]@);
        let ghost next = all.take(i - start + 1);
        assert(next.drop_last() =~= all.take(i - start));
        assert(next.last() == path@[i as int]@);
        out = if i == start {
            path[i].clone()
        } else {
            text3(out.as_str(), " -> ", path[i].as_str())
        };
        i = i + 1;
    }
    assert(all.drop_last() =~= all.take(len - start));
    if start == len {
        last.clone()
    } else {
        text3(out.as_str(), " -> ", last.as_str())
    }
}

fn find_on_path(path: &Vec<String>, name: &String) -> (r: usize)
    ensures
        r == path_index(name_views(path@), name@, 0),
        r <= path@.len(),
        r < path@.len() <==> name_views(path@).contains(name@),
{
    let ghost all = name_views(path@);
    let mut i: usize = 0;
    while i < path.len()
        invariant
            i <= path@.len(),
            all == name_views(path@),
            path_index(all, name@, 0) == path_index(all, name@, i as nat),
            forall|k: int| 0 <= k < i ==> all[k] != name@,
        decreases path@.len() - i,
    {
        assert(all[i as int] == path@[i as int]@);
        if path[i] == *name {
            return i;
        }
        i = i + 1;
    }
    i
}

/// Walk the instances depth first from module `k`.
fn visit_module(mods: &Vec<&Module>, k: usize, done: &mut Vec<bool>, path: &mut Vec<String>) -> (r:
    Result<(), Rejection>)
    requires
        k < mods@.len(),
        module_index(views(mods@), views(mods@)[k as int].name, 0) == Some(k as nat),
        done_is_acyclic(views(mods@), old(done)@),
        clear_of_done(views(mods@), old(done)@, name_views(old(path)@)),
    ensures
        outcome(r) == cycle_from(
            views(mods@),
            views(mods@)[k as int].name,
            name_views(old(path)@),
        ),
        r is Ok ==> {
            &&& done_is_acyclic(views(mods@), final(done)@)
            &&& clear_of_done(views(mods@), final(done)@, name_views(old(path)@))
            &&& name_views(final(path)@) == name_views(old(path)@)
            &&& final(done)@[k as int]
            &&& still_done(old(done)@, final(done)@)
        },
    decreases off_path(views(mods@), name_views(old(path)@)),
{
    let ghost all = views(mods@);
    let ghost before = name_views(path@);
    let m: &Module = mods[k];
    assert(all[k as int] == m@);
    let ghost name = m@.name;
    if done[k] {
        return Ok(());
    }
    let at: usize = find_on_path(path, &m.name);
    if at < path.len() {
        let shown: String = join_arrows(path, at, &m.name);
        return unsupported(text2("cyclic module hierarchy: ", shown.as_str()));
    }
    let ghost longer = before.push(name);
    path.push(m.name.clone());
    assert(name_views(path@) =~= longer);
    proof {
        lemma_module_index(all, name, 0);
        lemma_off_path(all, before, name);
        assert(clear_of_done(all, done@, longer)) by {
            assert forall|q: int| 0 <= q < done@.len() && done@[q] implies !longer.contains(
                (#[trigger] all[q]).name,
            ) by {
                lemma_pushed_contains(before, name, all[q].name);
                if all[q].name == name {
                    assert(module_index(all, all[q].name, 0) == Some(q as nat));
                }
            }
        }
    }
    let mut j: usize = 0;
    while j < m.items.len()
        invariant
            j <= m.items@.len(),
            k < mods@.len(),
            all == views(mods@),
            all[k as int] == m@,
            name == m@.name,
            longer == before.push(name),
            before == name_views(old(path)@),
            name_views(path@) == longer,
            off_path(all, longer) < off_path(all, before),
            done_is_acyclic(all, done@),
            clear_of_done(all, done@, longer),
            targets_done(all, m@.items, j as int, done@),
            cycle_below(all, m@.items, 0, longer) == cycle_below(all, m@.items, j as nat, longer),
            cycle_from(all, name, before) == cycle_below(all, m@.items, 0, longer),
            still_done(old(done)@, done@),
        decreases m.items@.len() - j,
    {
        assert(m@.items[j as int] == m.items@[j as int]@);
        let ghost was = done@;
        if let ModuleItem::Instance(inst) = &m.items[j] {
            if let Some(c) = find_module(mods, &inst.module_name) {
                if let Err(x) = visit_module(mods, c, done, path) {
                    return Err(x);
                }
            }
        }
        assert(targets_done(all, m@.items, j + 1, done@)) by {
            assert forall|q: int| 0 <= q < j + 1 implies #[trigger] target_done(
                all,
                m@.items[q],
                done@,
            ) by {
                if q < j {
                    assert(target_done(all, m@.items[q], was));
                }
            }
        }
        j = j + 1;
    }
    proof {
        assert(longer[before.len() as int] == name);
        assert(longer.contains(name));
        assert(!done@[k as int]) by {
            if done@[k as int] {
                assert(!longer.contains(all[k as int].name));
            }
        }
        lemma_mark_done(all, k as int, done@);
    }
    let ghost was = done@;
    let ghost full = path@;
    done.set(k, true);
    path.pop();
    proof {
        assert(path@ =~= full.drop_last());
        assert(name_views(path@) =~= name_views(full).drop_last());
        assert(longer.drop_last() =~= before);
        assert forall|d: int| 0 <= d < done@.len() && done@[d] implies !before.contains(
            (#[trigger] all[d]).name,
        ) by {
            lemma_pushed_contains(before, name, all[d].name);
            if d != k {
                assert(was[d]);
            }
        }
    }
    Ok(())
}

fn validate_cycles(mods: &Vec<&Module>) -> (r: Result<(), Rejection>)
    ensures
        outcome(r) == cycles_complaint(views(mods@), 0),
{
    let ghost all = views(mods@);
    let n: usize = mods.len();
    let mut done: Vec<bool> = vec![false; n];
    let mut i: usize = 0;
    while i < n
        invariant
            i <= n,
            n == mods@.len(),
            all == views(mods@),
            done_is_acyclic(all, done@),
            cycles_complaint(all, 0) == cycles_complaint(all, i as nat),
        decreases n - i,
    {
        assert(all[i as int] == mods@[i as int]@);
        let mut path: Vec<String> = Vec::new();
        assert(name_views(path@) =~= Seq::empty());
        if let Some(k) = find_module(mods, &mods[i].name) {
            if let Err(x) = visit_module(mods, k, &mut done, &mut path) {
                return Err(x);
            }
        }
        i = i + 1;
    }
    Ok(())
}

/// Check the module hierarchy of a file.
pub fn validate_hierarchy(f: &SourceFile) -> (r: Result<(), Rejection>)
    ensures
        outcome(r) == hierarchy_complaint(f@),
{
    let mods: Vec<&Module> = collect_modules(f);
    if let Err(x) = validate_declarations(&mods) {
        return Err(x);
    }
    if let Err(x) = validate_instances(&mods) {
        return Err(x);
    }
    validate_cycles(&mods)
}

/// Whether an initializer of a static variable is supported: `null` for handles
/// and collections, a string literal for strings, a constant otherwise.
pub open spec fn static_initializer(v: VarDeclV, init: ExprV, names: Seq<Seq<char>>) -> bool {
    if v.class_name is Some || v.coll is Some {
        init is Null
    } else if v.is_string {
        init is Str
    } else {
        constant_over(init, names)
    }
}

/// The complaint about a static variable.
pub open spec fn static_var_complaint(v: VarDeclV, names: Seq<Seq<char>>) -> Complaint {
    either(
        type_complaint(v.class_name),
        match v.init {
            None => None,
            Some(init) => if static_initializer(v, init, names) {
                expr_complaint(init)
            } else {
                Some("static variable '"@ + v.name + "' has an unsupported initializer"@)
            },
        },
    )
}

/// The complaint about a formal parameter.
pub open spec fn formal_complaint(p: ParamV) -> Complaint {
    either(
        type_complaint(p.class_name),
        match p.default {
            Some(e) => expr_complaint(e),
            None => None,
        },
    )
}

/// The first complaint about the formal parameters from `i` on.
pub open spec fn formals_complaint(s: Seq<ParamV>, i: nat) -> Complaint
    decreases s.len() - i,
{
    if i >= s.len() {
        None
    } else {
        either(formal_complaint(s[i as int]), formals_complaint(s, i + 1))
    }
}

/// The first complaint about a function or task.
pub open spec fn function_complaint(f: FuncDeclV, names: Seq<Seq<char>>) -> Complaint {
    either(
        type_complaint(f.ret_class),
        either(formals_complaint(f.params, 0), stmt_complaint(f.body, names)),
    )
}

/// The first complaint about the fields of a class from `i` on.
pub open spec fn fields_complaint(s: Seq<VarDeclV>, i: nat) -> Complaint
    decreases s.len() - i,
{
    if i >= s.len() {
        None
    } else {
        either(static_var_complaint(s[i as int], Seq::empty()), fields_complaint(s, i + 1))
    }
}

/// The first complaint about the methods of a class from `i` on.
pub open spec fn methods_complaint(s: Seq<FuncDeclV>, i: nat) -> Complaint
    decreases s.len() - i,
{
    if i >= s.len() {
        None
    } else {
        either(function_complaint(s[i as int], Seq::empty()), methods_complaint(s, i + 1))
    }
}

/// The first complaint about a class.
pub open spec fn class_complaint(c: ClassDeclV) -> Complaint {
    either(
        type_complaint(c.base),
        either(
            fields_complaint(c.fields, 0),
            either(
                methods_complaint(c.methods, 0),
                match c.constructor {
                    Some(f) => function_complaint(f, Seq::empty()),
                    None => None,
                },
            ),
        ),
    )
}

/// The first connection from `i` on that is no signal reference.
pub open spec fn references_complaint(inst: ModuleInstanceV, i: nat) -> Complaint
    decreases inst.connections.len() - i,
{
    if i >= inst.connections.len() {
        None
    } else {
        let c = inst.connections[i as int];
        if c.expr is Ref {
            references_complaint(inst, i + 1)
        } else {
            Some(
                "module connection '"@ + inst.name + "."@ + (match c.port {
                    Some(p) => p,
                    None => "<positional>"@,
                }) + "' is not a simple signal reference"@,
            )
        }
    }
}

/// The complaint about an item of a module or package, given the names of its
/// constants.
pub open spec fn item_complaint(item: ModuleItemV, names: Seq<Seq<char>>) -> Complaint {
    match item {
        ModuleItemV::Var(v) => static_var_complaint(v, names),
        ModuleItemV::Net(_) => None,
        ModuleItemV::Instance(inst) => references_complaint(inst, 0),
        ModuleItemV::ContinuousAssign { lhs, rhs, .. } => either(
            lvalue_complaint(lhs),
            expr_complaint(rhs),
        ),
        ModuleItemV::Always(a) => stmt_complaint(a.body, names),
        ModuleItemV::Initial(body) => stmt_complaint(body, names),
        ModuleItemV::Func(f) => function_complaint(f, names),
        ModuleItemV::Class(c) => class_complaint(*c),
        ModuleItemV::EnumConst { .. }
        | ModuleItemV::EnumType { .. }
        | ModuleItemV::TypeAlias(_) => None,
    }
}

/// The first complaint about items from `i` on.
pub open spec fn items_complaint(s: Seq<ModuleItemV>, i: nat, names: Seq<Seq<char>>) -> Complaint
    decreases s.len() - i,
{
    if i >= s.len() {
        None
    } else {
        either(item_complaint(s[i as int], names), items_complaint(s, i + 1, names))
    }
}

/// The complaint about a top-level description.
pub open spec fn unit_complaint(item: ItemV) -> Complaint {
    match item {
        ItemV::Module(m) => items_complaint(m.items, 0, parameter_names(m.parameters)),
        ItemV::Package(p) => items_complaint(p.items, 0, Seq::empty()),
        ItemV::Class(c) => class_complaint(*c),
        ItemV::Func(f) => function_complaint(*f, Seq::empty()),
    }
}

/// The first complaint about top-level descriptions from `i` on.
pub open spec fn units_complaint(s: Seq<ItemV>, i: nat) -> Complaint
    decreases s.len() - i,
{
    if i >= s.len() {
        None
    } else {
        either(unit_complaint(s[i as int]), units_complaint(s, i + 1))
    }
}

/// The first complaint about a design: its hierarchy, then its descriptions.
pub open spec fn design_complaint(f: SourceFileV) -> Complaint {
    either(hierarchy_complaint(f), units_complaint(f.items, 0))
}

fn validate_static_var(v: &VarDecl, names: &Vec<String>) -> (r: Result<(), Rejection>)
    ensures
        outcome(r) == static_var_complaint(v@, name_views(names@)),
{
    if let Err(x) = validate_optional_type(&v.class_name) {
        return Err(x);
    }
    match &v.init {
        None => Ok(()),
        Some(init) => {
            let supported: bool = if v.class_name.is_some() || v.coll.is_some() {
                match init {
                    Expr::Null => true,
                    _ => false,
                }
            } else if v.is_string {
                match init {
                    Expr::Str(_) => true,
                    _ => false,
                }
            } else {
                is_constant_expr(init, names)
            };
            if !supported {
                return unsupported(
                    text3(
                        "static variable '",
                        v.name.as_str(),
                        "' has an unsupported initializer",
                    ),
                );
            }
            validate_expr(init)
        },
    }
}

fn validate_function(f: &FuncDecl, names: &Vec<String>) -> (r: Result<(), Rejection>)
    ensures
        outcome(r) == function_complaint(f@, name_views(names@)),
{
    if let Err(x) = validate_optional_type(&f.ret_class) {
        return Err(x);
    }
    let ghost params = f@.params;
    let mut i: usize = 0;
    while i < f.params.len()
        invariant
            i <= f.params@.len(),
            params == views(f.params@),
            params == f@.params,
            type_complaint(f@.ret_class) is None,
            formals_complaint(params, 0) == formals_complaint(params, i as nat),
        decreases f.params@.len() - i,
    {
        let p: &Param = &f.params[i];
        assert(params[i as int] == p@);
        if let Err(x) = validate_optional_type(&p.class_name) {
            return Err(x);
        }
        if let Some(e) = &p.default {
            if let Err(x) = validate_expr(e) {
                return Err(x);
            }
        }
        i = i + 1;
    }
    validate_stmt(&f.body, names)
}

fn validate_class(c: &ClassDecl) -> (r: Result<(), Rejection>)
    ensures
        outcome(r) == class_complaint(c@),
{
    let none: Vec<String> = Vec::new();
    assert(name_views(none@) =~= Seq::empty());
    if let Err(x) = validate_optional_type(&c.base) {
        return Err(x);
    }
    let mut i: usize = 0;
    while i < c.fields.len()
        invariant
            i <= c.fields@.len(),
            name_views(none@) == Seq::<Seq<char>>::empty(),
            type_complaint(c@.base) is None,
            fields_complaint(c@.fields, 0) == fields_complaint(c@.fields, i as nat),
        decreases c.fields@.len() - i,
    {
        assert(c@.fields[i as int] == c.fields@[i as int]@);
        if let Err(x) = validate_static_var(&c.fields[i], &none) {
            return Err(x);
        }
        i = i + 1;
    }
    let mut j: usize = 0;
    while j < c.methods.len()
        invariant
            j <= c.methods@.len(),
            name_views(none@) == Seq::<Seq<char>>::empty(),
            type_complaint(c@.base) is None,
            fields_complaint(c@.fields, 0) is None,
            methods_complaint(c@.methods, 0) == methods_complaint(c@.methods, j as nat),
        decreases c.methods@.len() - j,
    {
        assert(c@.methods[j as int] == c.methods@[j as int]@);
        if let Err(x) = validate_function(&c.methods[j], &none) {
            return Err(x);
        }
        j = j + 1;
    }
    match &c.constructor {
        Some(f) => validate_function(f, &none),
        None => Ok(()),
    }
}

fn validate_references(inst: &ModuleInstance) -> (r: Result<(), Rejection>)
    ensures
        outcome(r) == references_complaint(inst@, 0),
{
    let mut i: usize = 0;
    while i < inst.connections.len()
        invariant
            i <= inst.connections@.len(),
            references_complaint(inst@, 0) == references_complaint(inst@, i as nat),
        decreases inst.connections@.len() - i,
    {
        let c: &PortConnection = &inst.connections[i];
        assert(inst@.connections[i as int] == c@);
        let simple: bool = match &c.expr {
            Expr::Ref(_) => true,
            _ => false,
        };
        if !simple {
            let port: &str = match &c.port {
                Some(p) => p.as_str(),
                None => "<positional>",
            };
            return unsupported(
                text5(
                    "module connection '",
                    inst.name.as_str(),
                    ".",
                    port,
                    "' is not a simple signal reference",
                ),
            );
        }
        i = i + 1;
    }
    Ok(())
}

fn validate_item(item: &ModuleItem, names: &Vec<String>) -> (r: Result<(), Rejection>)
    ensures
        outcome(r) == item_complaint(item@, name_views(names@)),
{
    match item {
        ModuleItem::Var(v) => validate_static_var(v, names),
        ModuleItem::Net(_) => Ok(()),
        ModuleItem::Instance(inst) => validate_references(inst),
        ModuleItem::ContinuousAssign { lhs, rhs, .. } => {
            if let Err(x) = validate_lvalue(lhs) {
                return Err(x);
            }
            validate_expr(rhs)
        },
        ModuleItem::Always(a) => validate_stmt(&a.body, names),
        ModuleItem::Initial(body) => validate_stmt(body, names),
        ModuleItem::Func(f) => validate_function(f, names),
        ModuleItem::Class(c) => validate_class(c),
        ModuleItem::EnumConst { .. } | ModuleItem::EnumType { .. } | ModuleItem::TypeAlias(_) => Ok(
            (),
        ),
    }
}

fn validate_items(v: &Vec<ModuleItem>, names: &Vec<String>) -> (r: Result<(), Rejection>)
    ensures
        outcome(r) == items_complaint(views(v@), 0, name_views(names@)),
{
    let ghost all = views(v@);
    let ghost known = name_views(names@);
    let mut i: usize = 0;
    while i < v.len()
        invariant
            i <= v@.len(),
            all == views(v@),
            known == name_views(names@),
            items_complaint(all, 0, known) == items_complaint(all, i as nat, known),
        decreases v@.len() - i,
    {
        assert(all[i as int] == v@[i as int]@);
        if let Err(x) = validate_item(&v[i], names) {
            return Err(x);
        }
        i = i + 1;
    }
    Ok(())
}

/// Check a design against the supported subset.
pub fn validate(f: &SourceFile) -> (r: Result<(), ElabError>)
    ensures
        match r {
            Ok(_) => design_complaint(f@) is None,
            Err(e) => match design_complaint(f@) {
                Some(m) => e@ == ElabErrorV::UnsupportedSemantic(m),
                None => false,
            },
        },
{
    match check_design(f) {
        Ok(_) => Ok(()),
        Err(x) => Err(ElabError::UnsupportedSemantic { message: x.message }),
    }
}

/// Check a design against the supported subset.
fn check_design(f: &SourceFile) -> (r: Result<(), Rejection>)
    ensures
        outcome(r) == design_complaint(f@),
{
    if let Err(x) = validate_hierarchy(f) {
        return Err(x);
    }
    let none: Vec<String> = Vec::new();
    assert(name_views(none@) =~= Seq::empty());
    let mut i: usize = 0;
    while i < f.items.len()
        invariant
            i <= f.items@.len(),
            name_views(none@) == Seq::<Seq<char>>::empty(),
            hierarchy_complaint(f@) is None,
            units_complaint(f@.items, 0) == units_complaint(f@.items, i as nat),
        decreases f.items@.len() - i,
    {
        assert(f@.items[i as int] == f.items@[i as int]@);
        let one: Result<(), Rejection> = match &f.items[i] {
            Item::Module(m) => {
                let names: Vec<String> = names_of_parameters(&m.parameters);
                validate_items(&m.items, &names)
            },
            Item::Package(p) => validate_items(&p.items, &none),
            Item::Class(c) => validate_class(c),
            Item::Func(func) => validate_function(func, &none),
        };
        if let Err(x) = one {
            return Err(x);
        }
        i = i + 1;
    }
    Ok(())
}

/// Whether a module has an instance of another.
pub open spec fn instantiates(mods: Seq<ModuleV>, parent: Seq<char>, child: Seq<char>) -> bool {
    module_index(mods, parent, 0) matches Some(k) && exists|j: int|
        0 <= j < mods[k as int].items.len() && #[trigger] is_instance_of(
            mods[k as int].items[j],
            child,
        )
}

/// Whether an item is an instance of a module.
pub open spec fn is_instance_of(item: ModuleItemV, child: Seq<char>) -> bool {
    item matches ModuleItemV::Instance(inst) && inst.module_name == child
}

proof fn lemma_below_covers(
    mods: Seq<ModuleV>,
    items: Seq<ModuleItemV>,
    from: nat,
    j: int,
    child: Seq<char>,
    path: Seq<Seq<char>>,
)
    requires
        from <= j < items.len(),
        is_instance_of(items[j], child),
        cycle_below(mods, items, from, path) is None,
    ensures
        cycle_from(mods, child, path) is None,
    decreases j - from,
{
    if from < j {
        lemma_below_covers(mods, items, from + 1, j, child, path);
    }
}

proof fn lemma_chain_explored(mods: Seq<ModuleV>, chain: Seq<Seq<char>>, i: int)
    requires
        chain.len() > 0,
        0 <= i < chain.len(),
        cycle_from(mods, chain[0], Seq::empty()) is None,
        forall|k: int| 0 <= k < chain.len() - 1 ==> #[trigger] instantiates(
            mods,
            chain[k],
            chain[k + 1],
        ),
        module_index(mods, chain[i], 0) is Some,
    ensures
        cycle_from(mods, chain[i], chain.take(i)) is None,
        !chain.take(i).contains(chain[i]),
    decreases i,
{
    if i == 0 {
        assert(chain.take(0) =~= Seq::empty());
    } else {
        assert(instantiates(mods, chain[i - 1], chain[i - 1 + 1]));
        lemma_chain_explored(mods, chain, i - 1);
        let k = module_index(mods, chain[i - 1], 0)->0;
        let items = mods[k as int].items;
        let j = choose|j: int| 0 <= j < items.len() && #[trigger] is_instance_of(items[j], chain[i]);
        let path = chain.take(i - 1).push(chain[i - 1]);
        lemma_below_covers(mods, items, 0, j, chain[i], path);
        assert(path =~= chain.take(i));
    }
}

/// In an accepted hierarchy no module contains itself, directly or through
/// others: along any chain of instances every module is new.
pub proof fn accepted_hierarchy_has_no_cycle(
    mods: Seq<ModuleV>,
    chain: Seq<Seq<char>>,
    first: int,
    i: int,
)
    requires
        cycles_complaint(mods, 0) is None,
        0 <= first < mods.len(),
        chain.len() > 0,
        chain[0] == mods[first].name,
        forall|k: int| 0 <= k < chain.len() - 1 ==> #[trigger] instantiates(
            mods,
            chain[k],
            chain[k + 1],
        ),
        0 <= i < chain.len(),
        module_index(mods, chain[i], 0) is Some,
    ensures
        !chain.take(i).contains(chain[i]),
{
    lemma_roots_explored(mods, 0, first);
    lemma_chain_explored(mods, chain, i);
}

pub proof fn lemma_roots_explored(mods: Seq<ModuleV>, from: nat, i: int)
    requires
        cycles_complaint(mods, from) is None,
        from <= i < mods.len(),
    ensures
        cycle_from(mods, mods[i].name, Seq::empty()) is None,
    decreases i - from,
{
    if from < i {
        lemma_roots_explored(mods, from + 1, i);
    }
}

} // verus!
