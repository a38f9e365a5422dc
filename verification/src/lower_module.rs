//! Lowering module headers, nets, instances and their connections.
use vstd::prelude::*;

use crate::ast::{
    views, ContinuousDelay, ModuleInstance, ModuleParameter, NetDecl, NetKind, ParameterOverride,
    Port, PortConnection,
};
use crate::ast_model::{
    ContinuousDelayV, ModuleInstanceV, ModuleParameterV, NetDeclV, ParameterOverrideV,
    PortConnectionV, PortV,
};
use crate::cst::{
    find, find_deep, find_deep_in, find_in, find_or, first_kid, first_kid_of, found, found_deep,
    found_deep_in, found_in, group_cst, has_tag, kids_tagged, opt_node, or_else, refs_view, tagged,
    text, Node, NodeV,
};
use crate::lower_expr::{lower_expr, lowered};
use crate::lower_stmt::{continuous_delay, declared_type, delay_complete, lower_continuous_delay};
use crate::lower_types::{
    class_type_name_in, data_width, data_width_or, direction, direction_of, identifier,
    identifier_of, name_of, natural_width, or_empty, packed_width, packed_width_or, user_type_in,
    width_of_keyword,
};

verus! {

broadcast use group_cst;

// ---- parameters ---------------------------------------------------------------

/// Whether a keyword names a signed integer type.
pub open spec fn signed_keyword(t: Seq<char>) -> bool {
    t == "byte"@ || t == "shortint"@ || t == "int"@ || t == "integer"@ || t == "longint"@
}

/// The width and signedness that a parameter declares, if it names a type.
pub open spec fn parameter_type(n: NodeV) -> Option<(u32, bool)> {
    match first_kid(found(n, "kTypeInfo"@)) {
        Some(primitive) => Some(
            (
                if first_kid(found(n, "kPackedDimensions"@)) is Some {
                    data_width(n)
                } else {
                    natural_width(primitive.tag)
                },
                signed_keyword(primitive.tag) && found_deep(n, "unsigned"@) is None,
            ),
        ),
        None => None,
    }
}

/// The width and signedness that a parameter declares, if it names a type.
fn module_parameter_type(n: &Node) -> (r: Option<(u32, bool)>)
    ensures
        r == parameter_type(n@),
{
    let primitive: &Node = match first_kid_of(find(n, "kTypeInfo")) {
        Some(primitive) => primitive,
        None => {
            return None;
        },
    };
    let width: u32 = if first_kid_of(find(n, "kPackedDimensions")).is_some() {
        packed_width(n)
    } else {
        width_of_keyword(primitive.tag.as_str())
    };
    let named: bool = has_tag(primitive, "byte") || has_tag(primitive, "shortint") || has_tag(
        primitive,
        "int",
    ) || has_tag(primitive, "integer") || has_tag(primitive, "longint");
    Some((width, named && find_deep(n, "unsigned").is_none()))
}

/// The parameters lowered so far, and the type that the next one inherits.
pub struct ParametersV {
    pub parameters: Seq<ModuleParameterV>,
    pub inherited: Option<(u32, bool)>,
}

/// The identifier of a parameter.
pub open spec fn parameter_name(n: NodeV) -> Option<NodeV> {
    or_else(found(n, "SymbolIdentifier"@), found_deep(n, "SymbolIdentifier"@))
}

/// The parameters after one more declaration. A declaration without a type takes
/// that of the one before it.
pub open spec fn with_parameter(so_far: ParametersV, n: NodeV) -> ParametersV {
    match found(n, "kParamType"@) {
        Some(t) => {
            let inherited = match parameter_type(t) {
                Some(p) => Some(p),
                None => so_far.inherited,
            };
            let (width, signed) = match inherited {
                Some(p) => p,
                None => (32u32, false),
            };
            match (
                parameter_name(t),
                found_in(found(n, "kTrailingAssign"@), "kExpression"@),
            ) {
                (Some(id), Some(e)) => ParametersV {
                    parameters: so_far.parameters.push(
                        ModuleParameterV { name: id.word(), width, signed, default: lowered(e) },
                    ),
                    inherited,
                },
                _ => ParametersV { inherited, ..so_far },
            }
        },
        None => so_far,
    }
}

/// What parameter declarations lower to.
pub open spec fn parameters_among(ns: Seq<NodeV>) -> ParametersV
    decreases ns.len(),
{
    if ns.len() == 0 {
        ParametersV { parameters: Seq::empty(), inherited: None }
    } else {
        with_parameter(parameters_among(ns.drop_last()), ns.last())
    }
}

/// What the parameters in a module header lower to.
pub open spec fn module_parameters(n: NodeV) -> Seq<ModuleParameterV> {
    match found_deep_in(
        found_in(found(n, "kModuleHeader"@), "kFormalParameterListDeclaration"@),
        "kFormalParameterList"@,
    ) {
        Some(list) => parameters_among(tagged(list.kids, "kParamDeclaration"@)).parameters,
        None => Seq::empty(),
    }
}

/// Lower the parameters in a module header.
pub fn lower_module_parameters(n: &Node) -> (r: Vec<ModuleParameter>)
    ensures
        views(r@) == module_parameters(n@),
{
    let mut out: Vec<ModuleParameter> = Vec::new();
    assert(views(out@) =~= Seq::<ModuleParameterV>::empty());
    let list: &Node = match find_deep_in(
        find_in(find(n, "kModuleHeader"), "kFormalParameterListDeclaration"),
        "kFormalParameterList",
    ) {
        Some(list) => list,
        None => {
            return out;
        },
    };
    let mut inherited: Option<(u32, bool)> = None;
    let ns: Vec<&Node> = kids_tagged(list, "kParamDeclaration");
    let ghost all = tagged(list@.kids, "kParamDeclaration"@);
    let mut i: usize = 0;
    assert(all.take(0) =~= Seq::<NodeV>::empty());
    while i < ns.len()
        invariant
            i <= ns@.len(),
            all == refs_view(ns@),
            parameters_among(all.take(i as int)) == (ParametersV {
                parameters: views(out@),
                inherited,
            }),
        decreases ns@.len() - i,
    {
        let ghost upto = all.take(i as int + 1);
        assert(upto.drop_last() =~= all.take(i as int));
        assert(upto.last() == all[i as int]);
        assert(all[i as int] == ns[i as int]@);
        let parameter: &Node = ns[i];
        i = i + 1;
        let t: &Node = match find(parameter, "kParamType") {
            Some(t) => t,
            None => {
                continue;
            },
        };
        let declared: Option<(u32, bool)> = module_parameter_type(t);
        if declared.is_some() {
            inherited = declared;
        }
        let (width, signed): (u32, bool) = match inherited {
            Some(p) => p,
            None => (32, false),
        };
        let id: &Node = match find_or(
            find(t, "SymbolIdentifier"),
            find_deep(t, "SymbolIdentifier"),
        ) {
            Some(id) => id,
            None => {
                continue;
            },
        };
        let e: &Node = match find_in(find(parameter, "kTrailingAssign"), "kExpression") {
            Some(e) => e,
            None => {
                continue;
            },
        };
        let p = ModuleParameter { name: text(id), width, signed, default: lower_expr(e) };
        let ghost before = out@;
        out.push(p);
        assert(views(out@) =~= views(before).push(p@));
    }
    assert(all.take(i as int) =~= all);
    out
}

// ---- ports ------------------------------------------------------------------------

/// What a port declaration lowers to.
pub open spec fn port(n: NodeV) -> PortV {
    PortV {
        name: or_empty(identifier(found(n, "kUnqualifiedId"@))),
        dir: direction(n),
        width: data_width_or(found(n, "kDataType"@), 1),
        signed: found_deep(n, "signed"@) is Some,
        is_net: found(n, "wire"@) is Some,
    }
}

/// What the ports in a module header lower to.
pub open spec fn module_ports(n: NodeV) -> Seq<PortV> {
    match found_in(
        found_in(found(n, "kModuleHeader"@), "kParenGroup"@),
        "kPortDeclarationList"@,
    ) {
        Some(list) => tagged(list.kids, "kPortDeclaration"@).map_values(|m: NodeV| port(m)),
        None => Seq::empty(),
    }
}

/// Lower a port declaration.
fn lower_port(n: &Node) -> (r: Port)
    ensures
        r@ == port(n@),
{
    Port {
        name: name_of(find(n, "kUnqualifiedId")),
        dir: direction_of(n),
        width: packed_width_or(find(n, "kDataType"), 1),
        signed: find_deep(n, "signed").is_some(),
        is_net: find(n, "wire").is_some(),
    }
}

/// Lower the ports in a module header.
pub fn lower_module_ports(n: &Node) -> (r: Vec<Port>)
    ensures
        views(r@) == module_ports(n@),
{
    let mut out: Vec<Port> = Vec::new();
    assert(views(out@) =~= Seq::<PortV>::empty());
    let list: &Node = match find_in(
        find_in(find(n, "kModuleHeader"), "kParenGroup"),
        "kPortDeclarationList",
    ) {
        Some(list) => list,
        None => {
            return out;
        },
    };
    let ns: Vec<&Node> = kids_tagged(list, "kPortDeclaration");
    let ghost all = tagged(list@.kids, "kPortDeclaration"@);
    let ghost f = |m: NodeV| port(m);
    let mut i: usize = 0;
    assert(views(out@) =~= all.take(0).map_values(f));
    while i < ns.len()
        invariant
            i <= ns@.len(),
            all == refs_view(ns@),
            f == (|m: NodeV| port(m)),
            views(out@) == all.take(i as int).map_values(f),
        decreases ns@.len() - i,
    {
        assert(all[i as int] == ns[i as int]@);
        let p: Port = lower_port(ns[i]);
        let ghost before = out@;
        out.push(p);
        i = i + 1;
        assert(views(out@) =~= views(before).push(p@));
        assert(all.take(i as int).map_values(f) =~= all.take(i as int - 1).map_values(f).push(p@));
    }
    assert(all.take(i as int) =~= all);
    out
}

// ---- nets -------------------------------------------------------------------------

/// The kind of net that a keyword names.
pub open spec fn net_keyword(t: Seq<char>) -> Option<NetKind> {
    if t == "wire"@ || t == "tri"@ {
        Some(NetKind::Wire)
    } else if t == "wand"@ || t == "triand"@ {
        Some(NetKind::Wand)
    } else if t == "wor"@ || t == "trior"@ {
        Some(NetKind::Wor)
    } else if t == "tri0"@ {
        Some(NetKind::Tri0)
    } else if t == "tri1"@ {
        Some(NetKind::Tri1)
    } else if t == "supply0"@ {
        Some(NetKind::Supply0)
    } else if t == "supply1"@ {
        Some(NetKind::Supply1)
    } else {
        None
    }
}

/// The kind of net that the first net keyword names.
pub open spec fn net_kind(ns: Seq<NodeV>) -> Option<NetKind>
    decreases ns.len(),
{
    if ns.len() == 0 {
        None
    } else {
        match net_keyword(ns[0].tag) {
            Some(kind) => Some(kind),
            None => net_kind(ns.drop_first()),
        }
    }
}

/// The kind of net that a keyword names.
fn net_keyword_of(n: &Node) -> (r: Option<NetKind>)
    ensures
        r == net_keyword(n@.tag),
{
    if has_tag(n, "wire") || has_tag(n, "tri") {
        Some(NetKind::Wire)
    } else if has_tag(n, "wand") || has_tag(n, "triand") {
        Some(NetKind::Wand)
    } else if has_tag(n, "wor") || has_tag(n, "trior") {
        Some(NetKind::Wor)
    } else if has_tag(n, "tri0") {
        Some(NetKind::Tri0)
    } else if has_tag(n, "tri1") {
        Some(NetKind::Tri1)
    } else if has_tag(n, "supply0") {
        Some(NetKind::Supply0)
    } else if has_tag(n, "supply1") {
        Some(NetKind::Supply1)
    } else {
        None
    }
}

/// The kind of net that a data type names.
fn lower_net_kind(n: &Node) -> (r: Option<NetKind>)
    ensures
        r == net_kind(n@.kids),
{
    let mut i: usize = 0;
    assert(n@.kids.skip(0) =~= n@.kids);
    while i < n.kids.len()
        invariant
            i <= n.kids@.len(),
            net_kind(n@.kids) == net_kind(n@.kids.skip(i as int)),
        decreases n.kids@.len() - i,
    {
        let ghost rest = n@.kids.skip(i as int);
        assert(rest[0] == n.kids[i as int]@);
        assert(rest.drop_first() =~= n@.kids.skip(i as int + 1));
        let kind: Option<NetKind> = net_keyword_of(&n.kids[i]);
        if kind.is_some() {
            return kind;
        }
        i = i + 1;
    }
    None
}

/// The delay of a net declaration, if it has one.
pub open spec fn opt_delay(o: Option<NodeV>) -> Option<ContinuousDelayV> {
    match o {
        Some(d) => Some(continuous_delay(d)),
        None => None,
    }
}

/// Whether a delay that may be absent is complete.
pub open spec fn opt_delay_complete(o: Option<NodeV>) -> bool {
    match o {
        Some(d) => delay_complete(d),
        None => true,
    }
}

/// What one net of a declaration lowers to.
pub open spec fn net(n: NodeV, name: Seq<char>) -> NetDeclV {
    NetDeclV {
        name,
        width: data_width_or(
            found_in(found(n, "kDataTypeImplicitIdDimensions"@), "kDataType"@),
            1,
        ),
        signed: found_deep(n, "signed"@) is Some,
        kind: match found(n, "kDataType"@) {
            Some(t) => match net_kind(t.kids) {
                Some(kind) => kind,
                None => NetKind::Wire,
            },
            None => NetKind::Wire,
        },
        delay: opt_delay(found_deep(n, "kDelay"@)),
    }
}

/// What some nets of a declaration lower to.
pub open spec fn nets_among(n: NodeV, ns: Seq<NodeV>) -> Seq<NetDeclV>
    decreases ns.len(),
{
    if ns.len() == 0 {
        Seq::empty()
    } else {
        match identifier(Some(ns.last())) {
            Some(name) => nets_among(n, ns.drop_last()).push(net(n, name)),
            None => nets_among(n, ns.drop_last()),
        }
    }
}

/// What a net declaration lowers to: one declaration for each name.
pub open spec fn net_decls(n: NodeV) -> Seq<NetDeclV> {
    match found(n, "kNetVariableDeclarationAssign"@) {
        Some(list) => nets_among(n, tagged(list.kids, "kNetVariable"@)),
        None => Seq::empty(),
    }
}

/// Lower a delay that may be absent.
pub fn lower_delay_in(o: Option<&Node>) -> (r: Option<ContinuousDelay>)
    requires
        opt_delay_complete(opt_node(o)),
    ensures
        match r {
            Some(d) => opt_delay(opt_node(o)) == Some(d@),
            None => opt_delay(opt_node(o)) is None,
        },
{
    match o {
        Some(d) => Some(lower_continuous_delay(d)),
        None => None,
    }
}

/// Lower one net of a declaration.
fn lower_net(n: &Node, name: String) -> (r: NetDecl)
    requires
        opt_delay_complete(found_deep(n@, "kDelay"@)),
    ensures
        r@ == net(n@, name@),
{
    let kind: NetKind = match find(n, "kDataType") {
        Some(t) => match lower_net_kind(t) {
            Some(kind) => kind,
            None => NetKind::Wire,
        },
        None => NetKind::Wire,
    };
    NetDecl {
        name,
        width: packed_width_or(
            find_in(find(n, "kDataTypeImplicitIdDimensions"), "kDataType"),
            1,
        ),
        signed: find_deep(n, "signed").is_some(),
        kind,
        delay: lower_delay_in(find_deep(n, "kDelay")),
    }
}

/// Lower a net declaration.
pub fn lower_net_decl(n: &Node) -> (r: Vec<NetDecl>)
    requires
        opt_delay_complete(found_deep(n@, "kDelay"@)),
    ensures
        views(r@) == net_decls(n@),
{
    let mut out: Vec<NetDecl> = Vec::new();
    assert(views(out@) =~= Seq::<NetDeclV>::empty());
    let list: &Node = match find(n, "kNetVariableDeclarationAssign") {
        Some(list) => list,
        None => {
            return out;
        },
    };
    let ns: Vec<&Node> = kids_tagged(list, "kNetVariable");
    let ghost all = tagged(list@.kids, "kNetVariable"@);
    let mut i: usize = 0;
    assert(views(out@) == nets_among(n@, all.take(0)));
    while i < ns.len()
        invariant
            i <= ns@.len(),
            all == refs_view(ns@),
            opt_delay_complete(found_deep(n@, "kDelay"@)),
            views(out@) == nets_among(n@, all.take(i as int)),
        decreases ns@.len() - i,
    {
        let ghost upto = all.take(i as int + 1);
        assert(upto.drop_last() =~= all.take(i as int));
        assert(upto.last() == all[i as int]);
        assert(all[i as int] == ns[i as int]@);
        if let Some(name) = identifier_of(Some(ns[i])) {
            let d: NetDecl = lower_net(n, name);
            let ghost before = out@;
            out.push(d);
            assert(views(out@) =~= views(before).push(d@));
        }
        i = i + 1;
    }
    assert(all.take(i as int) =~= all);
    out
}

// ---- instances ----------------------------------------------------------------------

/// What one named parameter override lowers to.
pub open spec fn named_override(n: NodeV) -> Option<ParameterOverrideV> {
    match (identifier(Some(n)), found_in(found(n, "kParenGroup"@), "kExpression"@)) {
        (Some(name), Some(e)) => Some(
            ParameterOverrideV { parameter: Some(name), value: lowered(e) },
        ),
        _ => None,
    }
}

/// What named parameter overrides lower to.
pub open spec fn named_overrides(ns: Seq<NodeV>) -> Seq<ParameterOverrideV>
    decreases ns.len(),
{
    if ns.len() == 0 {
        Seq::empty()
    } else {
        match named_override(ns.last()) {
            Some(o) => named_overrides(ns.drop_last()).push(o),
            None => named_overrides(ns.drop_last()),
        }
    }
}

/// What the parameter overrides of an instantiation lower to.
pub open spec fn overrides(n: NodeV) -> Seq<ParameterOverrideV> {
    let actuals = found_deep(n, "kActualParameterList"@);
    match found_deep_in(actuals, "kActualParameterByNameList"@) {
        Some(list) => named_overrides(tagged(list.kids, "kParamByName"@)),
        None => match found_deep_in(actuals, "kActualParameterPositionalList"@) {
            Some(list) => tagged(list.kids, "kExpression"@).map_values(
                |m: NodeV| ParameterOverrideV { parameter: None, value: lowered(m) },
            ),
            None => Seq::empty(),
        },
    }
}

/// Lower named parameter overrides.
fn lower_named_overrides(list: &Node) -> (r: Vec<ParameterOverride>)
    ensures
        views(r@) == named_overrides(tagged(list@.kids, "kParamByName"@)),
{
    let mut out: Vec<ParameterOverride> = Vec::new();
    let ns: Vec<&Node> = kids_tagged(list, "kParamByName");
    let ghost all = tagged(list@.kids, "kParamByName"@);
    let mut i: usize = 0;
    assert(views(out@) =~= named_overrides(all.take(0)));
    while i < ns.len()
        invariant
            i <= ns@.len(),
            all == refs_view(ns@),
            views(out@) == named_overrides(all.take(i as int)),
        decreases ns@.len() - i,
    {
        let ghost upto = all.take(i as int + 1);
        assert(upto.drop_last() =~= all.take(i as int));
        assert(upto.last() == all[i as int]);
        assert(all[i as int] == ns[i as int]@);
        let n: &Node = ns[i];
        if let Some(name) = identifier_of(Some(n)) {
            if let Some(e) = find_in(find(n, "kParenGroup"), "kExpression") {
                let o = ParameterOverride { parameter: Some(name), value: lower_expr(e) };
                let ghost before = out@;
                out.push(o);
                assert(views(out@) =~= views(before).push(o@));
            }
        }
        i = i + 1;
    }
    assert(all.take(i as int) =~= all);
    out
}

/// Lower positional parameter overrides.
fn lower_positional_overrides(list: &Node) -> (r: Vec<ParameterOverride>)
    ensures
        views(r@) == tagged(list@.kids, "kExpression"@).map_values(
            |m: NodeV| ParameterOverrideV { parameter: None, value: lowered(m) },
        ),
{
    let mut out: Vec<ParameterOverride> = Vec::new();
    let ns: Vec<&Node> = kids_tagged(list, "kExpression");
    let ghost all = tagged(list@.kids, "kExpression"@);
    let ghost f = |m: NodeV| ParameterOverrideV { parameter: None, value: lowered(m) };
    let mut i: usize = 0;
    assert(views(out@) =~= all.take(0).map_values(f));
    while i < ns.len()
        invariant
            i <= ns@.len(),
            all == refs_view(ns@),
            f == (|m: NodeV| ParameterOverrideV { parameter: None, value: lowered(m) }),
            views(out@) == all.take(i as int).map_values(f),
        decreases ns@.len() - i,
    {
        assert(all[i as int] == ns[i as int]@);
        let o = ParameterOverride { parameter: None, value: lower_expr(ns[i]) };
        let ghost before = out@;
        assert(o@ == f(all[i as int]));
        out.push(o);
        i = i + 1;
        assert(views(out@) =~= views(before).push(o@));
        assert(all.take(i as int).map_values(f) =~= all.take(i as int - 1).map_values(f).push(o@));
    }
    assert(all.take(i as int) =~= all);
    out
}

/// Lower the parameter overrides of an instantiation.
fn lower_parameter_overrides(n: &Node) -> (r: Vec<ParameterOverride>)
    ensures
        views(r@) == overrides(n@),
{
    let actuals: Option<&Node> = find_deep(n, "kActualParameterList");
    if let Some(list) = find_deep_in(actuals, "kActualParameterByNameList") {
        return lower_named_overrides(list);
    }
    match find_deep_in(actuals, "kActualParameterPositionalList") {
        Some(list) => lower_positional_overrides(list),
        None => {
            let out: Vec<ParameterOverride> = Vec::new();
            assert(views(out@) =~= Seq::<ParameterOverrideV>::empty());
            out
        },
    }
}

/// What one port connection lowers to.
pub open spec fn connection(n: NodeV) -> Option<PortConnectionV> {
    if n.tag == "kActualNamedPort"@ {
        match (
            found(n, "SymbolIdentifier"@),
            found_in(found(n, "kParenGroup"@), "kExpression"@),
        ) {
            (Some(id), Some(e)) => match id.text {
                Some(name) => Some(PortConnectionV { port: Some(name), expr: lowered(e) }),
                None => None,
            },
            _ => None,
        }
    } else if n.tag == "kActualPositionalPort"@ {
        match found(n, "kExpression"@) {
            Some(e) => Some(PortConnectionV { port: None, expr: lowered(e) }),
            None => None,
        }
    } else {
        None
    }
}

/// What port connections lower to.
pub open spec fn connections_among(ns: Seq<NodeV>) -> Seq<PortConnectionV>
    decreases ns.len(),
{
    if ns.len() == 0 {
        Seq::empty()
    } else {
        match connection(ns.last()) {
            Some(c) => connections_among(ns.drop_last()).push(c),
            None => connections_among(ns.drop_last()),
        }
    }
}

/// What the connections of an instance lower to.
pub open spec fn connections(n: NodeV) -> Seq<PortConnectionV> {
    match found_in(found(n, "kParenGroup"@), "kPortActualList"@) {
        Some(list) => connections_among(list.kids),
        None => Seq::empty(),
    }
}

/// Lower one port connection.
fn lower_connection(n: &Node) -> (r: Option<PortConnection>)
    ensures
        match r {
            Some(c) => connection(n@) == Some(c@),
            None => connection(n@) is None,
        },
{
    if has_tag(n, "kActualNamedPort") {
        let id: &Node = match find(n, "SymbolIdentifier") {
            Some(id) => id,
            None => {
                return None;
            },
        };
        let e: &Node = match find_in(find(n, "kParenGroup"), "kExpression") {
            Some(e) => e,
            None => {
                return None;
            },
        };
        match &id.text {
            Some(name) => Some(
                PortConnection { port: Some(name.clone()), expr: lower_expr(e) },
            ),
            None => None,
        }
    } else if has_tag(n, "kActualPositionalPort") {
        match find(n, "kExpression") {
            Some(e) => Some(PortConnection { port: None, expr: lower_expr(e) }),
            None => None,
        }
    } else {
        None
    }
}

/// Lower the connections of an instance.
fn lower_port_connections(n: &Node) -> (r: Vec<PortConnection>)
    ensures
        views(r@) == connections(n@),
{
    let mut out: Vec<PortConnection> = Vec::new();
    assert(views(out@) =~= Seq::<PortConnectionV>::empty());
    let list: &Node = match find_in(find(n, "kParenGroup"), "kPortActualList") {
        Some(list) => list,
        None => {
            return out;
        },
    };
    let mut i: usize = 0;
    assert(views(out@) == connections_among(list@.kids.take(0)));
    while i < list.kids.len()
        invariant
            i <= list.kids@.len(),
            views(out@) == connections_among(list@.kids.take(i as int)),
        decreases list.kids@.len() - i,
    {
        let ghost upto = list@.kids.take(i as int + 1);
        assert(upto.drop_last() =~= list@.kids.take(i as int));
        assert(upto.last() == list@.kids[i as int]);
        assert(list@.kids[i as int] == list.kids[i as int]@);
        if let Some(c) = lower_connection(&list.kids[i]) {
            let ghost before = out@;
            out.push(c);
            assert(views(out@) =~= views(before).push(c@));
        }
        i = i + 1;
    }
    assert(list@.kids.take(i as int) =~= list@.kids);
    out
}

/// What one instance lowers to.
pub open spec fn instance(base: NodeV, module_name: Seq<char>, n: NodeV) -> ModuleInstanceV {
    ModuleInstanceV {
        module_name,
        name: or_empty(identifier(Some(n))),
        parameters: overrides(base),
        connections: connections(n),
    }
}

/// What the module instances of a declaration lower to.
pub open spec fn instances(n: NodeV) -> Seq<ModuleInstanceV> {
    match (
        found(n, "kInstantiationBase"@),
        user_type_in(declared_type(n)),
        found_in(found(n, "kInstantiationBase"@), "kGateInstanceRegisterVariableList"@),
    ) {
        (Some(base), Some(module_name), Some(list)) => tagged(
            list.kids,
            "kGateInstance"@,
        ).map_values(|m: NodeV| instance(base, module_name, m)),
        _ => Seq::empty(),
    }
}

/// Lower one instance.
fn lower_instance(base: &Node, module_name: &String, n: &Node) -> (r: ModuleInstance)
    ensures
        r@ == instance(base@, module_name@, n@),
{
    ModuleInstance {
        module_name: module_name.clone(),
        name: name_of(Some(n)),
        parameters: lower_parameter_overrides(base),
        connections: lower_port_connections(n),
    }
}

/// Lower the module instances of a declaration.
pub fn lower_module_instances(n: &Node) -> (r: Vec<ModuleInstance>)
    ensures
        views(r@) == instances(n@),
{
    let mut out: Vec<ModuleInstance> = Vec::new();
    assert(views(out@) =~= Seq::<ModuleInstanceV>::empty());
    let base: &Node = match find(n, "kInstantiationBase") {
        Some(base) => base,
        None => {
            return out;
        },
    };
    let dtype: Option<&Node> = find_in(find(base, "kInstantiationType"), "kDataType");
    let module_name: String = match class_type_name_in(dtype) {
        Some(name) => name,
        None => {
            return out;
        },
    };
    let list: &Node = match find(base, "kGateInstanceRegisterVariableList") {
        Some(list) => list,
        None => {
            return out;
        },
    };
    let ns: Vec<&Node> = kids_tagged(list, "kGateInstance");
    let ghost all = tagged(list@.kids, "kGateInstance"@);
    let ghost f = |m: NodeV| instance(base@, module_name@, m);
    let mut i: usize = 0;
    assert(views(out@) =~= all.take(0).map_values(f));
    while i < ns.len()
        invariant
            i <= ns@.len(),
            all == refs_view(ns@),
            f == (|m: NodeV| instance(base@, module_name@, m)),
            views(out@) == all.take(i as int).map_values(f),
        decreases ns@.len() - i,
    {
        assert(all[i as int] == ns[i as int]@);
        let o: ModuleInstance = lower_instance(base, &module_name, ns[i]);
        let ghost before = out@;
        assert(o@ == f(all[i as int]));
        out.push(o);
        i = i + 1;
        assert(views(out@) =~= views(before).push(o@));
        assert(all.take(i as int).map_values(f) =~= all.take(i as int - 1).map_values(f).push(o@));
    }
    assert(all.take(i as int) =~= all);
    out
}

} // verus!
