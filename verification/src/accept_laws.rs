//! Laws of the design checks: a design is accepted exactly if each of its parts is.
use vstd::prelude::*;

use crate::ast::PortDir;
use crate::ast_model::{
    ClassDeclV, ContinuousDelayV, ExprV, FuncDeclV, ItemV, ModuleInstanceV, ModuleItemV,
    ModuleParameterV, ModuleV, ParamV, PortV, SourceFileV, VarDeclV,
};
use crate::check_laws::{assigns_net, lists_are_accepted_by_their_members, net_writes_are_found};
use crate::delay_check::{
    assign_delay_name, delay_complaint, delay_value_complaint, net_delay_name,
    net_delays_complaint, strength_complaint,
};
use crate::design_check::{
    actual_complaint, class_complaint, connections_complaint, cycles_complaint,
    declarations_complaint, design_complaint, fields_complaint, formal_complaint, formals_complaint,
    function_complaint, hierarchy_complaint, instance_complaint, instance_overrides_complaint,
    instances_complaint, item_complaint, item_names, items_complaint, methods_complaint,
    mixes_overrides, module_index, module_instances_complaint, module_names, modules_of,
    overrides_complaint, parameter_named, parameter_names, parameters_complaint,
    references_complaint, repeated_name, scope_complaint, scope_names, static_var_complaint,
    unit_complaint, units_complaint,
};
use crate::net_check::{
    assign_complaint, assigns_complaint, declared_signal, is_module_net, module_signal,
    net_writes_complaint, port_named,
};
use crate::stmt_check::{
    all_constant_over, constant_over, expr_complaint, lvalue_complaint, stmt_complaint,
    system_function, type_complaint,
};

verus! {

// ---- names ----------------------------------------------------------------------------------

/// Whether no name stands twice.
pub open spec fn all_differ(names: Seq<Seq<char>>) -> bool {
    forall|i: int, j: int| 0 <= i < j < names.len() ==> #[trigger] names[i] != #[trigger] names[j]
}

/// A repeated name is found exactly if there is one, and it is one.
pub proof fn repeated_names_are_found(names: Seq<Seq<char>>)
    ensures
        repeated_name(names, 0) is None <==> all_differ(names),
        repeated_name(names, 0) matches Some(n) ==> exists|i: int, j: int|
            0 <= i < j < names.len() && #[trigger] names[i] == n && #[trigger] names[j] == n,
{
    lemma_repeated(names, 0);
}

proof fn lemma_repeated(names: Seq<Seq<char>>, k: nat)
    requires
        k <= names.len(),
        forall|i: int, j: int| 0 <= i < j < k ==> #[trigger] names[i] != #[trigger] names[j],
    ensures
        repeated_name(names, k) is None <==> all_differ(names),
        repeated_name(names, k) matches Some(n) ==> exists|i: int, j: int|
            0 <= i < j < names.len() && #[trigger] names[i] == n && #[trigger] names[j] == n,
    decreases names.len() - k,
{
    if k < names.len() {
        let front = names.take(k as int);
        if front.contains(names[k as int]) {
            let i = choose|i: int| 0 <= i < front.len() && front[i] == names[k as int];
            assert(names[i] == names[k as int]);
        } else {
            assert forall|i: int, j: int| 0 <= i < j < k + 1 implies #[trigger] names[i]
                != #[trigger] names[j] by {
                if j == k {
                    assert(front[i] == names[i]);
                }
            }
            lemma_repeated(names, k + 1);
        }
    }
}

/// A module is accepted for its names exactly if its parameters, ports, variables, nets and
/// instances all have different names.
pub proof fn accepted_scopes_have_no_doubles(m: ModuleV)
    ensures
        scope_complaint(m) is None <==> all_differ(scope_names(m)),
{
    repeated_names_are_found(scope_names(m));
}

/// Whether an item declares a name: a variable, a net or an instance of that name.
pub open spec fn declares(item: ModuleItemV, name: Seq<char>) -> bool {
    match item {
        ModuleItemV::Var(v) => v.name == name,
        ModuleItemV::Net(n) => n.name == name,
        ModuleItemV::Instance(i) => i.name == name,
        _ => false,
    }
}

/// In an accepted module no two items declare the same name, nor does an item declare the name
/// of a port or of a parameter, nor do two ports or parameters share one.
pub proof fn accepted_names_are_declared_once(m: ModuleV, n: Seq<char>)
    requires
        scope_complaint(m) is None,
    ensures
        forall|i: int, j: int|
            0 <= i < j < m.items.len() ==> !(#[trigger] declares(m.items[i], n)
                && #[trigger] declares(m.items[j], n)),
        forall|i: int, k: int|
            0 <= i < m.items.len() && 0 <= k < m.ports.len() ==> !(#[trigger] declares(
                m.items[i],
                n,
            ) && (#[trigger] m.ports[k]).name == n),
        forall|i: int, k: int|
            0 <= i < m.items.len() && 0 <= k < m.parameters.len() ==> !(#[trigger] declares(
                m.items[i],
                n,
            ) && (#[trigger] m.parameters[k]).name == n),
        forall|i: int, k: int|
            0 <= i < m.ports.len() && 0 <= k < m.parameters.len() ==> (#[trigger] m.ports[i]).name
                != (#[trigger] m.parameters[k]).name,
        forall|i: int, j: int|
            0 <= i < j < m.ports.len() ==> (#[trigger] m.ports[i]).name != (
            #[trigger] m.ports[j]).name,
        forall|i: int, j: int|
            0 <= i < j < m.parameters.len() ==> (#[trigger] m.parameters[i]).name != (
            #[trigger] m.parameters[j]).name,
{
    repeated_names_are_found(scope_names(m));
    let names = scope_names(m);
    let a: int = m.parameters.len() as int;
    let b: int = m.ports.len() as int;
    let own = item_names(m.items);
    assert(forall|k: int| 0 <= k < a ==> names[k] == (#[trigger] m.parameters[k]).name);
    assert(forall|k: int| 0 <= k < b ==> names[a + k] == (#[trigger] m.ports[k]).name);
    assert forall|i: int| 0 <= i < m.items.len() && #[trigger] declares(m.items[i], n) implies ({
        let p: int = item_names(m.items.take(i)).len() as int;
        p < own.len() && names[a + b + p] == n
    }) by {
        lemma_item_name(m.items, i, n);
        let p: int = item_names(m.items.take(i)).len() as int;
        assert(names[a + b + p] == own[p]);
    }
    assert forall|i: int, j: int| 0 <= i < j < m.items.len() implies !(#[trigger] declares(
        m.items[i],
        n,
    ) && #[trigger] declares(m.items[j], n)) by {
        if declares(m.items[i], n) && declares(m.items[j], n) {
            let p: int = item_names(m.items.take(i)).len() as int;
            let q: int = item_names(m.items.take(j)).len() as int;
            lemma_item_name(m.items.take(j), i, n);
            assert(m.items.take(j).take(i) =~= m.items.take(i));
            assert(names[a + b + p] == names[a + b + q]);
        }
    }
    assert forall|i: int, k: int|
        0 <= i < m.items.len() && 0 <= k < m.ports.len() implies !(#[trigger] declares(
        m.items[i],
        n,
    ) && (#[trigger] m.ports[k]).name == n) by {
        if declares(m.items[i], n) {
            let p: int = item_names(m.items.take(i)).len() as int;
            assert(names[a + k] != names[a + b + p]);
        }
    }
    assert forall|i: int, k: int|
        0 <= i < m.items.len() && 0 <= k < m.parameters.len() implies !(#[trigger] declares(
        m.items[i],
        n,
    ) && (#[trigger] m.parameters[k]).name == n) by {
        if declares(m.items[i], n) {
            let p: int = item_names(m.items.take(i)).len() as int;
            assert(names[k] != names[a + b + p]);
        }
    }
    assert forall|i: int, k: int|
        0 <= i < m.ports.len() && 0 <= k < m.parameters.len() implies (#[trigger] m.ports[i]).name
        != (#[trigger] m.parameters[k]).name by {
        assert(names[k] != names[a + i]);
    }
    assert forall|i: int, j: int| 0 <= i < j < m.ports.len() implies (#[trigger] m.ports[i]).name
        != (#[trigger] m.ports[j]).name by {
        assert(names[a + i] != names[a + j]);
    }
    assert forall|i: int, j: int|
        0 <= i < j < m.parameters.len() implies (#[trigger] m.parameters[i]).name != (
    #[trigger] m.parameters[j]).name by {
        assert(names[i] != names[j]);
    }
}

/// What an item declares stands behind what the items before it declare.
proof fn lemma_item_name(items: Seq<ModuleItemV>, i: int, n: Seq<char>)
    requires
        0 <= i < items.len(),
        declares(items[i], n),
    ensures
        item_names(items.take(i)).len() < item_names(items).len(),
        item_names(items)[item_names(items.take(i)).len() as int] == n,
    decreases items.len(),
{
    let front = items.drop_last();
    if i == items.len() - 1 {
        assert(items.take(i) =~= front);
    } else {
        assert(front[i] == items[i]);
        lemma_item_name(front, i, n);
        assert(front.take(i) =~= items.take(i));
    }
}

/// A module name means the first module of that name.
pub proof fn module_names_mean_the_first(mods: Seq<ModuleV>, name: Seq<char>)
    ensures
        match module_index(mods, name, 0) {
            Some(k) => k < mods.len() && mods[k as int].name == name && forall|j: int|
                0 <= j < k ==> (#[trigger] mods[j]).name != name,
            None => forall|j: int| 0 <= j < mods.len() ==> (#[trigger] mods[j]).name != name,
        },
{
    lemma_first_module(mods, name, 0);
}

proof fn lemma_first_module(mods: Seq<ModuleV>, name: Seq<char>, from: nat)
    ensures
        match module_index(mods, name, from) {
            Some(k) => from <= k < mods.len() && mods[k as int].name == name && forall|j: int|
                from <= j < k ==> (#[trigger] mods[j]).name != name,
            None => forall|j: int| from <= j < mods.len() ==> (#[trigger] mods[j]).name != name,
        },
    decreases mods.len() - from,
{
    if from < mods.len() && mods[from as int].name != name {
        lemma_first_module(mods, name, from + 1);
    }
}

// ---- connections and parameters -----------------------------------------------------------------

/// A port is accepted with what it is connected to exactly if that is a signal of the parent
/// of the same width, and a net where the port is a net that drives it.
pub proof fn accepted_connections_fit_their_port(
    parent: ModuleV,
    inst: ModuleInstanceV,
    port: PortV,
    actual: ExprV,
)
    ensures
        actual_complaint(parent, inst, port, actual) is None <==> {
            &&& actual is Ref
            &&& module_signal(parent, actual->Ref_0) is Some
            &&& (module_signal(parent, actual->Ref_0)->0).0 == port.width
            &&& port.is_net && (port.dir == PortDir::Output || port.dir == PortDir::Inout)
                ==> is_module_net(parent, actual->Ref_0)
        },
{
}

/// Whether a connection of an instance is in order: by name to a port of that name that is not
/// connected before, or by place to the port there, and the port accepts it.
pub open spec fn connection_fits(
    parent: ModuleV,
    child: ModuleV,
    inst: ModuleInstanceV,
    i: int,
) -> bool {
    let c = inst.connections[i];
    match c.port {
        Some(name) => {
            &&& forall|k: int| 0 <= k < i ==> (#[trigger] inst.connections[k]).port != Some(name)
            &&& port_named(child.ports, name) matches Some(port) && actual_complaint(
                parent,
                inst,
                port,
                c.expr,
            ) is None
        },
        None => i < child.ports.len() && actual_complaint(parent, inst, child.ports[i], c.expr) is None,
    }
}

/// The connections of an instance are accepted exactly if each is in order.
pub proof fn connections_are_accepted_one_by_one(
    parent: ModuleV,
    child: ModuleV,
    inst: ModuleInstanceV,
)
    ensures
        connections_complaint(parent, child, inst, 0) is None <==> forall|i: int|
            0 <= i < inst.connections.len() ==> #[trigger] connection_fits(parent, child, inst, i),
{
    lemma_connections(parent, child, inst, 0);
}

proof fn lemma_connections(parent: ModuleV, child: ModuleV, inst: ModuleInstanceV, from: nat)
    ensures
        connections_complaint(parent, child, inst, from) is None <==> forall|i: int|
            from <= i < inst.connections.len() ==> #[trigger] connection_fits(parent, child, inst, i),
    decreases inst.connections.len() - from,
{
    if from < inst.connections.len() {
        lemma_connections(parent, child, inst, from + 1);
        let fits = connection_fits(parent, child, inst, from as int);
        assert(connections_complaint(parent, child, inst, from) is None <==> fits
            && connections_complaint(parent, child, inst, from + 1) is None);
    }
}

/// The parameter that an override is for: the one it names, or the one at its place.
pub open spec fn overridden(child: ModuleV, inst: ModuleInstanceV, i: int) -> Seq<char> {
    match inst.parameters[i].parameter {
        Some(name) => name,
        None => child.parameters[i].name,
    }
}

/// Whether an override of an instance is in order: the module has the parameter, and the value
/// is an accepted constant over the parameters of the parent.
pub open spec fn override_fits(
    parent: ModuleV,
    child: ModuleV,
    inst: ModuleInstanceV,
    i: int,
) -> bool {
    &&& match inst.parameters[i].parameter {
        Some(name) => exists|k: int|
            0 <= k < child.parameters.len() && (#[trigger] child.parameters[k]).name == name,
        None => i < child.parameters.len(),
    }
    &&& constant_over(inst.parameters[i].value, parameter_names(parent.parameters))
    &&& expr_complaint(inst.parameters[i].value) is None
}

/// The overrides of an instance are accepted exactly if they are all by name or all by place,
/// each is in order, and no two are for the same parameter.
pub proof fn overrides_are_accepted_one_by_one(
    parent: ModuleV,
    child: ModuleV,
    inst: ModuleInstanceV,
)
    ensures
        instance_overrides_complaint(parent, child, inst) is None <==> {
            &&& forall|i: int, j: int|
                0 <= i < inst.parameters.len() && 0 <= j < inst.parameters.len() ==> (
                #[trigger] inst.parameters[i].parameter is Some <==>
                #[trigger] inst.parameters[j].parameter is Some)
            &&& forall|i: int|
                0 <= i < inst.parameters.len() ==> #[trigger] override_fits(parent, child, inst, i)
            &&& forall|i: int, j: int|
                0 <= i < j < inst.parameters.len() ==> #[trigger] overridden(child, inst, i)
                    != #[trigger] overridden(child, inst, j)
        },
{
    lemma_overrides(parent, child, inst, 0, Seq::empty());
    let s = inst.parameters;
    if mixes_overrides(s) {
        let i = choose|i: int|
            0 <= i < s.len() && (#[trigger] s[i]).parameter is Some != s[0].parameter is Some;
        assert(s[i].parameter is Some != s[0].parameter is Some);
    } else {
        assert forall|i: int, j: int| 0 <= i < s.len() && 0 <= j < s.len() implies (
        #[trigger] s[i].parameter is Some <==> #[trigger] s[j].parameter is Some) by {
            assert(s[i].parameter is Some == s[0].parameter is Some);
            assert(s[j].parameter is Some == s[0].parameter is Some);
        }
    }
}

proof fn lemma_overrides(
    parent: ModuleV,
    child: ModuleV,
    inst: ModuleInstanceV,
    from: nat,
    seen: Seq<Seq<char>>,
)
    requires
        from <= inst.parameters.len(),
        seen.len() == from,
        forall|k: int| 0 <= k < from ==> #[trigger] seen[k] == overridden(child, inst, k),
        forall|i: int, j: int|
            0 <= i < j < from ==> #[trigger] overridden(child, inst, i) != #[trigger] overridden(
                child,
                inst,
                j,
            ),
    ensures
        overrides_complaint(parent, child, inst, from, seen) is None <==> {
            &&& forall|i: int|
                from <= i < inst.parameters.len() ==> #[trigger] override_fits(
                    parent,
                    child,
                    inst,
                    i,
                )
            &&& forall|i: int, j: int|
                0 <= i < j < inst.parameters.len() ==> #[trigger] overridden(child, inst, i)
                    != #[trigger] overridden(child, inst, j)
        },
    decreases inst.parameters.len() - from,
{
    if from < inst.parameters.len() {
        let over = inst.parameters[from as int];
        let name = overridden(child, inst, from as int);
        if let Some(n) = over.parameter {
            lemma_parameter_named(child.parameters, n);
        }
        if !override_fits(parent, child, inst, from as int) {
            assert(overrides_complaint(parent, child, inst, from, seen) is Some);
        } else if seen.contains(name) {
            let k = choose|k: int| 0 <= k < seen.len() && seen[k] == name;
            assert(overridden(child, inst, k) == overridden(child, inst, from as int));
            assert(overrides_complaint(parent, child, inst, from, seen) is Some);
        } else {
            let more = seen.push(name);
            assert forall|k: int| 0 <= k < from + 1 implies #[trigger] more[k] == overridden(
                child,
                inst,
                k,
            ) by {
                if k < from {
                    assert(more[k] == seen[k]);
                }
            }
            assert forall|i: int, j: int| 0 <= i < j < from + 1 implies #[trigger] overridden(
                child,
                inst,
                i,
            ) != #[trigger] overridden(child, inst, j) by {
                if j == from {
                    assert(seen[i] == overridden(child, inst, i));
                }
            }
            lemma_overrides(parent, child, inst, from + 1, more);
            assert(overrides_complaint(parent, child, inst, from, seen) == overrides_complaint(
                parent,
                child,
                inst,
                from + 1,
                more,
            ));
        }
    }
}

proof fn lemma_parameter_named(s: Seq<ModuleParameterV>, name: Seq<char>)
    ensures
        match parameter_named(s, name) {
            Some(p) => p.name == name && s.contains(p),
            None => forall|k: int| 0 <= k < s.len() ==> (#[trigger] s[k]).name != name,
        },
    decreases s.len(),
{
    if s.len() > 0 && s[0].name != name {
        let rest = s.skip(1);
        lemma_parameter_named(rest, name);
        match parameter_named(rest, name) {
            Some(p) => {
                let k = choose|k: int| 0 <= k < rest.len() && rest[k] == p;
                assert(s[k + 1] == p);
            },
            None => {
                assert forall|k: int| 0 <= k < s.len() implies (#[trigger] s[k]).name != name by {
                    if k > 0 {
                        assert(rest[k - 1] == s[k]);
                    }
                }
            },
        }
    }
}

/// An instance is accepted exactly if its module is known and accepts its overrides and its
/// connections.
pub proof fn accepted_instances_are_of_known_modules(
    mods: Seq<ModuleV>,
    parent: ModuleV,
    inst: ModuleInstanceV,
)
    ensures
        instance_complaint(mods, parent, inst) is None <==> (module_index(
            mods,
            inst.module_name,
            0,
        ) matches Some(k) && instance_overrides_complaint(parent, mods[k as int], inst) is None
            && connections_complaint(parent, mods[k as int], inst, 0) is None),
{
}

/// The parameters of a module are accepted exactly if the default of each is an accepted
/// constant over the parameters before it.
pub proof fn accepted_defaults_use_what_comes_before(m: ModuleV)
    ensures
        parameters_complaint(m, 0) is None <==> forall|i: int|
            0 <= i < m.parameters.len() ==> constant_over(
                (#[trigger] m.parameters[i]).default,
                parameter_names(m.parameters).take(i),
            ) && expr_complaint(m.parameters[i].default) is None,
{
    lemma_parameters(m, 0);
}

proof fn lemma_parameters(m: ModuleV, from: nat)
    ensures
        parameters_complaint(m, from) is None <==> forall|i: int|
            from <= i < m.parameters.len() ==> constant_over(
                (#[trigger] m.parameters[i]).default,
                parameter_names(m.parameters).take(i),
            ) && expr_complaint(m.parameters[i].default) is None,
    decreases m.parameters.len() - from,
{
    if from < m.parameters.len() {
        lemma_parameters(m, from + 1);
        assert(m.parameters[from as int].default == m.parameters[from as int].default);
    }
}

// ---- modules ------------------------------------------------------------------------------------

/// Whether a module is accepted for what it declares.
pub open spec fn module_fits(m: ModuleV) -> bool {
    &&& scope_complaint(m) is None
    &&& parameters_complaint(m, 0) is None
    &&& assigns_complaint(m, 0) is None
    &&& net_delays_complaint(m, 0) is None
    &&& net_writes_complaint(m, 0) is None
}

/// The modules are accepted exactly if no two have the same name and each is accepted for what
/// it declares.
pub proof fn modules_are_accepted_one_by_one(mods: Seq<ModuleV>)
    ensures
        declarations_complaint(mods, 0) is None <==> all_differ(module_names(mods)) && forall|i: int|
            0 <= i < mods.len() ==> module_fits(#[trigger] mods[i]),
{
    lemma_declarations(mods, 0);
}

proof fn lemma_declarations(mods: Seq<ModuleV>, from: nat)
    requires
        from <= mods.len(),
        forall|i: int, j: int|
            0 <= i < j < from ==> #[trigger] module_names(mods)[i] != #[trigger] module_names(mods)[j],
    ensures
        declarations_complaint(mods, from) is None <==> all_differ(module_names(mods)) && forall|
            i: int,
        |
            from <= i < mods.len() ==> module_fits(#[trigger] mods[i]),
    decreases mods.len() - from,
{
    let names = module_names(mods);
    if from < mods.len() {
        let front = names.take(from as int);
        let m = mods[from as int];
        assert(names[from as int] == m.name);
        if front.contains(m.name) {
            let i = choose|i: int| 0 <= i < front.len() && front[i] == m.name;
            assert(names[i] == names[from as int]);
        } else {
            assert forall|i: int, j: int| 0 <= i < j < from + 1 implies #[trigger] names[i]
                != #[trigger] names[j] by {
                if j == from {
                    assert(front[i] == names[i]);
                }
            }
            lemma_declarations(mods, from + 1);
            assert(declarations_complaint(mods, from) is None <==> module_fits(mods[from as int])
                && declarations_complaint(mods, from + 1) is None);
        }
    }
}

/// A hierarchy is accepted exactly if its modules are, their instances are, and it has no
/// cycle.
pub proof fn accepted_hierarchies(f: SourceFileV)
    ensures
        hierarchy_complaint(f) is None <==> declarations_complaint(modules_of(f.items), 0) is None
            && instances_complaint(modules_of(f.items), 0) is None && cycles_complaint(
            modules_of(f.items),
            0,
        ) is None,
{
}

// ---- classes and functions ------------------------------------------------------------------------

/// A variable with a value at its declaration is accepted exactly if its type is, and the value
/// is `null` for a handle or a collection, a literal for a string, and else a constant.
pub proof fn accepted_initializers_suit_their_type(v: VarDeclV, init: ExprV, names: Seq<Seq<char>>)
    requires
        v.init == Some(init),
    ensures
        static_var_complaint(v, names) is None <==> {
            &&& type_complaint(v.class_name) is None
            &&& v.class_name is Some || v.coll is Some ==> init is Null
            &&& v.class_name is None && v.coll is None && v.is_string ==> init is Str
            &&& v.class_name is None && v.coll is None && !v.is_string ==> constant_over(init, names)
            &&& expr_complaint(init) is None
        },
{
}

/// A function is accepted exactly if the types of its result and its formals, the defaults of
/// its formals, and its body are.
pub proof fn functions_are_accepted_by_their_parts(f: FuncDeclV, names: Seq<Seq<char>>)
    ensures
        function_complaint(f, names) is None <==> {
            &&& type_complaint(f.ret_class) is None
            &&& forall|i: int| 0 <= i < f.params.len() ==> formal_fits(#[trigger] f.params[i])
            &&& stmt_complaint(f.body, names) is None
        },
{
    lemma_formals(f.params, 0);
}

/// Whether a formal is accepted: its type, and its default if it has one.
pub open spec fn formal_fits(p: ParamV) -> bool {
    &&& type_complaint(p.class_name) is None
    &&& p.default matches Some(e) ==> expr_complaint(e) is None
}

proof fn lemma_formals(s: Seq<ParamV>, from: nat)
    ensures
        formals_complaint(s, from) is None <==> forall|i: int|
            from <= i < s.len() ==> formal_fits(#[trigger] s[i]),
    decreases s.len() - from,
{
    if from < s.len() {
        lemma_formals(s, from + 1);
        assert(formal_complaint(s[from as int]) is None <==> formal_fits(s[from as int]));
    }
}

/// A class is accepted exactly if its base, each of its fields, each of its methods and its
/// constructor are.
pub proof fn classes_are_accepted_by_their_members(c: ClassDeclV)
    ensures
        class_complaint(c) is None <==> {
            &&& type_complaint(c.base) is None
            &&& forall|i: int|
                0 <= i < c.fields.len() ==> static_var_complaint(
                    #[trigger] c.fields[i],
                    Seq::empty(),
                ) is None
            &&& forall|i: int|
                0 <= i < c.methods.len() ==> function_complaint(
                    #[trigger] c.methods[i],
                    Seq::empty(),
                ) is None
            &&& c.constructor matches Some(f) ==> function_complaint(f, Seq::empty()) is None
        },
{
    lemma_fields(c.fields, 0);
    lemma_methods(c.methods, 0);
}

proof fn lemma_fields(s: Seq<VarDeclV>, from: nat)
    ensures
        fields_complaint(s, from) is None <==> forall|i: int|
            from <= i < s.len() ==> static_var_complaint(#[trigger] s[i], Seq::empty()) is None,
    decreases s.len() - from,
{
    if from < s.len() {
        lemma_fields(s, from + 1);
        assert(s[from as int] == s[from as int]);
    }
}

proof fn lemma_methods(s: Seq<FuncDeclV>, from: nat)
    ensures
        methods_complaint(s, from) is None <==> forall|i: int|
            from <= i < s.len() ==> function_complaint(#[trigger] s[i], Seq::empty()) is None,
    decreases s.len() - from,
{
    if from < s.len() {
        lemma_methods(s, from + 1);
        assert(s[from as int] == s[from as int]);
    }
}

// ---- items and descriptions ---------------------------------------------------------------------

/// An instance is accepted as an item exactly if each of its connections is a signal, a
/// continuous assignment if its target and its value are accepted, a process if its body is, and
/// a declaration if what it declares is.
pub proof fn items_are_accepted_as_what_they_are(
    inst: ModuleInstanceV,
    item: ModuleItemV,
    names: Seq<Seq<char>>,
)
    ensures
        item_complaint(ModuleItemV::Instance(inst), names) is None <==> forall|i: int|
            0 <= i < inst.connections.len() ==> (#[trigger] inst.connections[i]).expr is Ref,
        item is ContinuousAssign ==> (item_complaint(item, names) is None <==> lvalue_complaint(
            item->ContinuousAssign_lhs,
        ) is None && expr_complaint(item->ContinuousAssign_rhs) is None),
        item matches ModuleItemV::Always(a) ==> (item_complaint(item, names) is None
            <==> stmt_complaint(a.body, names) is None),
        item matches ModuleItemV::Initial(body) ==> (item_complaint(item, names) is None
            <==> stmt_complaint(body, names) is None),
        item matches ModuleItemV::Func(f) ==> (item_complaint(item, names) is None
            <==> function_complaint(f, names) is None),
        item matches ModuleItemV::Class(c) ==> (item_complaint(item, names) is None
            <==> class_complaint(*c) is None),
        item matches ModuleItemV::Var(v) ==> (item_complaint(item, names) is None
            <==> static_var_complaint(v, names) is None),
{
    lemma_references(inst, 0);
}

proof fn lemma_references(inst: ModuleInstanceV, from: nat)
    ensures
        references_complaint(inst, from) is None <==> forall|i: int|
            from <= i < inst.connections.len() ==> (#[trigger] inst.connections[i]).expr is Ref,
    decreases inst.connections.len() - from,
{
    if from < inst.connections.len() {
        lemma_references(inst, from + 1);
        assert(inst.connections[from as int] == inst.connections[from as int]);
    }
}

/// A design is accepted exactly if its hierarchy and each of its descriptions are.
pub proof fn designs_are_accepted_by_their_descriptions(f: SourceFileV)
    ensures
        design_complaint(f) is None <==> hierarchy_complaint(f) is None && forall|i: int|
            0 <= i < f.items.len() ==> unit_complaint(#[trigger] f.items[i]) is None,
{
    lemma_units(f.items, 0);
}

proof fn lemma_units(s: Seq<ItemV>, from: nat)
    ensures
        units_complaint(s, from) is None <==> forall|i: int|
            from <= i < s.len() ==> unit_complaint(#[trigger] s[i]) is None,
    decreases s.len() - from,
{
    if from < s.len() {
        lemma_units(s, from + 1);
        assert(s[from as int] == s[from as int]);
    }
}

/// A module is accepted exactly if each of its items is, where the parameters are its constants;
/// a package exactly if each of its items is, with no constants.
pub proof fn descriptions_are_accepted_by_their_items(m: ModuleV, unit: ItemV)
    ensures
        unit_complaint(ItemV::Module(m)) is None <==> forall|i: int|
            0 <= i < m.items.len() ==> item_complaint(
                #[trigger] m.items[i],
                m.parameters.map_values(|p: ModuleParameterV| p.name),
            ) is None,
        unit matches ItemV::Package(p) ==> (unit_complaint(unit) is None <==> forall|i: int|
            0 <= i < p.items.len() ==> item_complaint(#[trigger] p.items[i], Seq::empty()) is None),
{
    lemma_items(m.items, 0, parameter_names(m.parameters));
    if let ItemV::Package(p) = unit {
        lemma_items(p.items, 0, Seq::empty());
    }
}

proof fn lemma_items(s: Seq<ModuleItemV>, from: nat, names: Seq<Seq<char>>)
    ensures
        items_complaint(s, from, names) is None <==> forall|i: int|
            from <= i < s.len() ==> item_complaint(#[trigger] s[i], names) is None,
    decreases s.len() - from,
{
    if from < s.len() {
        lemma_items(s, from + 1, names);
        assert(s[from as int] == s[from as int]);
    }
}

/// All instances are accepted exactly if each instance of each module is.
pub proof fn instances_are_accepted_one_by_one(mods: Seq<ModuleV>)
    ensures
        instances_complaint(mods, 0) is None <==> forall|i: int, j: int, inst: ModuleInstanceV|
            0 <= i < mods.len() && 0 <= j < mods[i].items.len() && #[trigger] mods[i].items[j]
                == ModuleItemV::Instance(inst) ==> #[trigger] instance_complaint(
                mods,
                mods[i],
                inst,
            ) is None,
{
    lemma_instances(mods, 0);
}

proof fn lemma_instances(mods: Seq<ModuleV>, from: nat)
    ensures
        instances_complaint(mods, from) is None <==> forall|i: int, j: int, inst: ModuleInstanceV|
            from <= i < mods.len() && 0 <= j < mods[i].items.len() && #[trigger] mods[i].items[j]
                == ModuleItemV::Instance(inst) ==> #[trigger] instance_complaint(
                mods,
                mods[i],
                inst,
            ) is None,
    decreases mods.len() - from,
{
    if from < mods.len() {
        lemma_instances(mods, from + 1);
        lemma_module_instances(mods, mods[from as int], 0);
    }
}

proof fn lemma_module_instances(mods: Seq<ModuleV>, m: ModuleV, from: nat)
    ensures
        module_instances_complaint(mods, m, from) is None <==> forall|
            j: int,
            inst: ModuleInstanceV,
        |
            from <= j < m.items.len() && #[trigger] m.items[j] == ModuleItemV::Instance(inst)
                ==> #[trigger] instance_complaint(mods, m, inst) is None,
    decreases m.items.len() - from,
{
    if from < m.items.len() {
        lemma_module_instances(mods, m, from + 1);
        assert(m.items[from as int] == m.items[from as int]);
    }
}

// ---- expressions ----------------------------------------------------------------------------------

/// Whether each expression of a list is accepted.
pub open spec fn all_accepted(s: Seq<ExprV>) -> bool {
    forall|i: int| 0 <= i < s.len() ==> (#[trigger] expr_complaint(s[i])) is None
}

/// Names, literals, strings and `null` are accepted; any other expression is accepted only if
/// each expression in it is, and it calls no class or function that has no runtime.
pub proof fn expressions_are_accepted_by_their_parts(e: ExprV)
    ensures
        expr_complaint(e) is None <==> match e {
            ExprV::Unary { operand, .. } => expr_complaint(*operand) is None,
            ExprV::Binary { lhs, rhs, .. } => expr_complaint(*lhs) is None && expr_complaint(
                *rhs,
            ) is None,
            ExprV::Call { args, .. } => all_accepted(args),
            ExprV::New { args } => all_accepted(args),
            ExprV::Field { obj, .. } => expr_complaint(*obj) is None,
            ExprV::MethodCall { obj, args, .. } => expr_complaint(*obj) is None && all_accepted(args),
            ExprV::StaticCall { class_name, args, .. } => type_complaint(Some(class_name)) is None
                && all_accepted(args),
            ExprV::Index { base, index } => expr_complaint(*base) is None && expr_complaint(
                *index,
            ) is None,
            ExprV::PartSelect { base, left, right } => expr_complaint(*base) is None
                && expr_complaint(*left) is None && expr_complaint(*right) is None,
            ExprV::Concat(parts) => all_accepted(parts),
            ExprV::SysCall { name, args } => system_function(name, args.len()) && all_accepted(args),
            ExprV::StaticRef { class_name, .. } => type_complaint(Some(class_name)) is None,
            ExprV::Literal(_) | ExprV::Str(_) | ExprV::Ref(_) | ExprV::Null => true,
        },
{
    match e {
        ExprV::Call { args, .. } => lists_are_accepted_by_their_members(args),
        ExprV::New { args } => lists_are_accepted_by_their_members(args),
        ExprV::MethodCall { args, .. } => lists_are_accepted_by_their_members(args),
        ExprV::StaticCall { args, .. } => lists_are_accepted_by_their_members(args),
        ExprV::Concat(parts) => lists_are_accepted_by_their_members(parts),
        ExprV::SysCall { args, .. } => lists_are_accepted_by_their_members(args),
        _ => {},
    }
}

/// A constant is built of literals and of names that stand for constants: an operation, a part
/// or a concatenation is one exactly if each operand is, and nothing else is.
pub proof fn constants_are_built_of_constants(e: ExprV, names: Seq<Seq<char>>)
    ensures
        constant_over(e, names) <==> match e {
            ExprV::Literal(_) => true,
            ExprV::Ref(name) => exists|k: int| 0 <= k < names.len() && #[trigger] names[k] == name,
            ExprV::Unary { operand, .. } => constant_over(*operand, names),
            ExprV::Binary { lhs, rhs, .. } => constant_over(*lhs, names) && constant_over(
                *rhs,
                names,
            ),
            ExprV::PartSelect { base, left, right } => constant_over(*base, names)
                && constant_over(*left, names) && constant_over(*right, names),
            ExprV::Concat(parts) => forall|i: int|
                0 <= i < parts.len() ==> #[trigger] constant_over(parts[i], names),
            _ => false,
        },
{
    if let ExprV::Concat(parts) = e {
        lemma_all_constant(parts, names);
    }
}

proof fn lemma_all_constant(s: Seq<ExprV>, names: Seq<Seq<char>>)
    ensures
        all_constant_over(s, names) <==> forall|i: int|
            0 <= i < s.len() ==> #[trigger] constant_over(s[i], names),
    decreases s.len(),
{
    if s.len() > 0 {
        let rest = s.skip(1);
        lemma_all_constant(rest, names);
        assert(all_constant_over(s, names) == (constant_over(s[0], names) && all_constant_over(
            rest,
            names,
        )));
        if all_constant_over(rest, names) {
            assert forall|i: int| 1 <= i < s.len() implies #[trigger] constant_over(s[i], names) by {
                assert(constant_over(rest[i - 1], names));
            }
        } else {
            let i = choose|i: int| 0 <= i < rest.len() && !#[trigger] constant_over(rest[i], names);
            assert(!constant_over(s[i + 1], names));
        }
    }
}

/// What is constant over some names is constant over more.
pub proof fn more_names_keep_constants(e: ExprV, some: Seq<Seq<char>>, more: Seq<Seq<char>>)
    requires
        forall|k: int| 0 <= k < some.len() ==> more.contains(#[trigger] some[k]),
        constant_over(e, some),
    ensures
        constant_over(e, more),
    decreases e,
{
    constants_are_built_of_constants(e, some);
    constants_are_built_of_constants(e, more);
    match e {
        ExprV::Unary { operand, .. } => more_names_keep_constants(*operand, some, more),
        ExprV::Binary { lhs, rhs, .. } => {
            more_names_keep_constants(*lhs, some, more);
            more_names_keep_constants(*rhs, some, more);
        },
        ExprV::PartSelect { base, left, right } => {
            more_names_keep_constants(*base, some, more);
            more_names_keep_constants(*left, some, more);
            more_names_keep_constants(*right, some, more);
        },
        ExprV::Concat(parts) => {
            assert forall|i: int| 0 <= i < parts.len() implies #[trigger] constant_over(
                parts[i],
                more,
            ) by {
                assert(constant_over(parts[i], some));
                more_names_keep_constants(parts[i], some, more);
            }
        },
        _ => {},
    }
}

// ---- signals, drivers and delays ------------------------------------------------------------------

/// A name of a module means the first port of that name, or else the first variable or net, and
/// nothing if there is none.
pub proof fn signal_names_mean_the_first(m: ModuleV, name: Seq<char>)
    ensures
        match module_signal(m, name) {
            Some((w, signed)) => {
                ||| exists|k: int|
                    0 <= k < m.ports.len() && (#[trigger] m.ports[k]).name == name && m.ports[k].width
                        == w && m.ports[k].signed == signed && forall|j: int|
                        0 <= j < k ==> (#[trigger] m.ports[j]).name != name
                ||| (forall|j: int| 0 <= j < m.ports.len() ==> (#[trigger] m.ports[j]).name != name)
                    && exists|k: int|
                    0 <= k < m.items.len() && #[trigger] signal_of(m.items[k], name) == Some(
                        (w, signed),
                    ) && forall|j: int|
                        0 <= j < k ==> #[trigger] signal_of(m.items[j], name) is None
            },
            None => (forall|j: int|
                0 <= j < m.ports.len() ==> (#[trigger] m.ports[j]).name != name) && forall|j: int|
                0 <= j < m.items.len() ==> #[trigger] signal_of(m.items[j], name) is None,
        },
{
    lemma_first_port(m.ports, name);
    lemma_first_signal(m.items, name);
}

/// The width and the sign of what an item declares under a name, if it is a variable or a net.
pub open spec fn signal_of(item: ModuleItemV, name: Seq<char>) -> Option<(u32, bool)> {
    match item {
        ModuleItemV::Var(v) if v.name == name => Some((v.width, v.signed)),
        ModuleItemV::Net(n) if n.name == name => Some((n.width, n.signed)),
        _ => None,
    }
}

proof fn lemma_first_port(s: Seq<PortV>, name: Seq<char>)
    ensures
        match port_named(s, name) {
            Some(p) => exists|k: int|
                0 <= k < s.len() && #[trigger] s[k] == p && p.name == name && forall|j: int|
                    0 <= j < k ==> (#[trigger] s[j]).name != name,
            None => forall|j: int| 0 <= j < s.len() ==> (#[trigger] s[j]).name != name,
        },
    decreases s.len(),
{
    if s.len() > 0 {
        if s[0].name == name {
            assert(s[0] == port_named(s, name)->0);
        } else {
            let rest = s.skip(1);
            lemma_first_port(rest, name);
            if let Some(p) = port_named(rest, name) {
                let k = choose|k: int|
                    0 <= k < rest.len() && #[trigger] rest[k] == p && p.name == name && forall|j: int|
                        0 <= j < k ==> (#[trigger] rest[j]).name != name;
                assert(s[k + 1] == p);
                assert forall|j: int| 0 <= j < k + 1 implies (#[trigger] s[j]).name != name by {
                    if j > 0 {
                        assert(rest[j - 1] == s[j]);
                    }
                }
            } else {
                assert forall|j: int| 0 <= j < s.len() implies (#[trigger] s[j]).name != name by {
                    if j > 0 {
                        assert(rest[j - 1] == s[j]);
                    }
                }
            }
        }
    }
}

proof fn lemma_first_signal(s: Seq<ModuleItemV>, name: Seq<char>)
    ensures
        match declared_signal(s, name) {
            Some(w) => exists|k: int|
                0 <= k < s.len() && #[trigger] signal_of(s[k], name) == Some(w) && forall|j: int|
                    0 <= j < k ==> #[trigger] signal_of(s[j], name) is None,
            None => forall|j: int| 0 <= j < s.len() ==> #[trigger] signal_of(s[j], name) is None,
        },
    decreases s.len(),
{
    if s.len() > 0 {
        if signal_of(s[0], name) is Some {
            assert(signal_of(s[0], name) == declared_signal(s, name));
        } else {
            let rest = s.skip(1);
            lemma_first_signal(rest, name);
            assert(declared_signal(s, name) == declared_signal(rest, name));
            if let Some(w) = declared_signal(rest, name) {
                let k = choose|k: int|
                    0 <= k < rest.len() && #[trigger] signal_of(rest[k], name) == Some(w)
                        && forall|j: int|
                        0 <= j < k ==> #[trigger] signal_of(rest[j], name) is None;
                assert(signal_of(s[k + 1], name) == Some(w));
                assert forall|j: int| 0 <= j < k + 1 implies #[trigger] signal_of(
                    s[j],
                    name,
                ) is None by {
                    if j > 0 {
                        assert(rest[j - 1] == s[j]);
                        assert(signal_of(rest[j - 1], name) is None);
                    }
                }
            } else {
                assert forall|j: int| 0 <= j < s.len() implies #[trigger] signal_of(
                    s[j],
                    name,
                ) is None by {
                    if j > 0 {
                        assert(rest[j - 1] == s[j]);
                        assert(signal_of(rest[j - 1], name) is None);
                    }
                }
            }
        }
    }
}

/// A delay is accepted exactly if each of its values is.
pub proof fn delays_are_accepted_by_their_values(
    d: ContinuousDelayV,
    names: Seq<Seq<char>>,
    what: Seq<char>,
)
    ensures
        delay_complaint(None, names, what) is None,
        delay_complaint(Some(d), names, what) is None <==> match d {
            ContinuousDelayV::Single(e) => delay_value_complaint(e, names, what) is None,
            ContinuousDelayV::RiseFall { rise, fall } => delay_value_complaint(
                rise,
                names,
                what,
            ) is None && delay_value_complaint(fall, names, what) is None,
            ContinuousDelayV::RiseFallTurnOff { rise, fall, turn_off } => delay_value_complaint(
                rise,
                names,
                what,
            ) is None && delay_value_complaint(fall, names, what) is None && delay_value_complaint(
                turn_off,
                names,
                what,
            ) is None,
        },
{
}

/// Whether an item is in order as a driver: a continuous assignment has an accepted target and
/// value, accepted strengths and an accepted delay over the parameters.
pub open spec fn driver_fits(m: ModuleV, item: ModuleItemV) -> bool {
    item matches ModuleItemV::ContinuousAssign { lhs, rhs, delay, strength } ==> {
        &&& assign_complaint(m, lhs, rhs) is None
        &&& strength_complaint(m, lhs.name, strength) is None
        &&& delay_complaint(delay, parameter_names(m.parameters), assign_delay_name(m)) is None
    }
}

/// Whether an item is in order as a net: its delay is accepted over the parameters.
pub open spec fn net_fits(m: ModuleV, item: ModuleItemV) -> bool {
    item matches ModuleItemV::Net(n) ==> delay_complaint(
        n.delay,
        parameter_names(m.parameters),
        net_delay_name(m, n.name),
    ) is None
}

/// Whether the statement of an item, if it has one, assigns to no net.
pub open spec fn leaves_nets(m: ModuleV, item: ModuleItemV) -> bool {
    match item {
        ModuleItemV::Always(a) => !assigns_net(m, a.body),
        ModuleItemV::Initial(body) => !assigns_net(m, body),
        ModuleItemV::Func(f) => !assigns_net(m, f.body),
        _ => true,
    }
}

/// The drivers and the nets of a module are accepted exactly if each is in order, and its
/// statements exactly if none of them assigns to a net.
pub proof fn drivers_and_nets_are_accepted_one_by_one(m: ModuleV)
    ensures
        assigns_complaint(m, 0) is None <==> forall|i: int|
            0 <= i < m.items.len() ==> driver_fits(m, #[trigger] m.items[i]),
        net_delays_complaint(m, 0) is None <==> forall|i: int|
            0 <= i < m.items.len() ==> net_fits(m, #[trigger] m.items[i]),
        net_writes_complaint(m, 0) is None <==> forall|i: int|
            0 <= i < m.items.len() ==> leaves_nets(m, #[trigger] m.items[i]),
{
    lemma_assigns(m, 0);
    lemma_net_delays(m, 0);
    lemma_net_writes(m, 0);
}

proof fn lemma_assigns(m: ModuleV, from: nat)
    ensures
        assigns_complaint(m, from) is None <==> forall|i: int|
            from <= i < m.items.len() ==> driver_fits(m, #[trigger] m.items[i]),
    decreases m.items.len() - from,
{
    if from < m.items.len() {
        lemma_assigns(m, from + 1);
        assert(assigns_complaint(m, from) is None <==> driver_fits(m, m.items[from as int])
            && assigns_complaint(m, from + 1) is None);
    }
}

proof fn lemma_net_delays(m: ModuleV, from: nat)
    ensures
        net_delays_complaint(m, from) is None <==> forall|i: int|
            from <= i < m.items.len() ==> net_fits(m, #[trigger] m.items[i]),
    decreases m.items.len() - from,
{
    if from < m.items.len() {
        lemma_net_delays(m, from + 1);
        assert(net_delays_complaint(m, from) is None <==> net_fits(m, m.items[from as int])
            && net_delays_complaint(m, from + 1) is None);
    }
}

proof fn lemma_net_writes(m: ModuleV, from: nat)
    ensures
        net_writes_complaint(m, from) is None <==> forall|i: int|
            from <= i < m.items.len() ==> leaves_nets(m, #[trigger] m.items[i]),
    decreases m.items.len() - from,
{
    if from < m.items.len() {
        lemma_net_writes(m, from + 1);
        match m.items[from as int] {
            ModuleItemV::Always(a) => net_writes_are_found(m, a.body),
            ModuleItemV::Initial(body) => net_writes_are_found(m, body),
            ModuleItemV::Func(f) => net_writes_are_found(m, f.body),
            _ => {},
        }
        assert(net_writes_complaint(m, from) is None <==> leaves_nets(m, m.items[from as int])
            && net_writes_complaint(m, from + 1) is None);
    }
}

} // verus!
