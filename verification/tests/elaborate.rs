//! Checking and elaborating syntax trees.

use eevee::ast::{
    AlwaysBlock, AlwaysKind, BinOp, ClassDecl, CollKind, ContinuousDelay, DriveStrengthSpec, Edge,
    EventExpr, Expr, ForkJoin, FuncDecl, Item, Lvalue, Module, ModuleInstance, ModuleItem,
    ModuleParameter, NetDecl, NetKind, Package, Param, ParamDecl, ParameterOverride, Port,
    PortConnection, PortDir, SourceFile, Stmt, StrengthLevel, TimingControl, TypeRef, UnaryOp, VarDecl,
};
use eevee::complaint::ElabError;
use eevee::elaborate::{elaborate, elaborate_conformant, elaborate_with_stats, Design};
use eevee::ir::{ArgMode, CollOp, Inst, Program, Value};
use eevee::logic::LogicVec;

// ---- building trees ----

fn lit(v: u64) -> Expr {
    Expr::Literal(LogicVec::from_u64(v, 32))
}

fn bits(text: &str) -> Expr {
    Expr::Literal(LogicVec::parse_sized(text).expect("a literal"))
}

fn var(s: &str) -> Expr {
    Expr::Ref(s.to_string())
}

fn binary(op: BinOp, a: Expr, b: Expr) -> Expr {
    Expr::Binary { op, lhs: Box::new(a), rhs: Box::new(b) }
}

fn unary(op: UnaryOp, a: Expr) -> Expr {
    Expr::Unary { op, operand: Box::new(a) }
}

fn variable(s: &str, width: u32) -> VarDecl {
    VarDecl {
        name: s.to_string(),
        width,
        signed: false,
        class_name: None,
        type_scope: None,
        type_args: vec![],
        is_string: false,
        is_event: false,
        coll: None,
        key_class_name: None,
        is_static: false,
        init: None,
    }
}

fn initialized(s: &str, width: u32, init: Expr) -> VarDecl {
    VarDecl { init: Some(init), ..variable(s, width) }
}

fn handle(s: &str, class: &str) -> VarDecl {
    VarDecl { class_name: Some(class.to_string()), ..variable(s, 1) }
}

fn net(s: &str, width: u32, kind: NetKind) -> ModuleItem {
    ModuleItem::Net(NetDecl { name: s.to_string(), width, signed: false, kind, delay: None })
}

fn target(s: &str) -> Lvalue {
    Lvalue { name: s.to_string(), receiver: None, index: None, scope: None }
}

fn assign(s: &str, rhs: Expr) -> Stmt {
    Stmt::Blocking { lhs: target(s), rhs }
}

fn continuous(s: &str, rhs: Expr) -> ModuleItem {
    ModuleItem::ContinuousAssign { lhs: target(s), rhs, delay: None, strength: None }
}

fn module(s: &str, items: Vec<ModuleItem>) -> Module {
    Module { name: s.to_string(), parameters: vec![], ports: vec![], items }
}

fn port(s: &str, dir: PortDir, width: u32) -> Port {
    Port { name: s.to_string(), dir, width, signed: false, is_net: false }
}

fn parameter(s: &str, default: Expr) -> ModuleParameter {
    ModuleParameter { name: s.to_string(), width: 32, signed: true, default }
}

fn named(port: &str, signal: &str) -> PortConnection {
    PortConnection { port: Some(port.to_string()), expr: var(signal) }
}

fn positional(signal: &str) -> PortConnection {
    PortConnection { port: None, expr: var(signal) }
}

fn by_name(s: &str, value: Expr) -> ParameterOverride {
    ParameterOverride { parameter: Some(s.to_string()), value }
}

fn by_position(value: Expr) -> ParameterOverride {
    ParameterOverride { parameter: None, value }
}

fn instance(
    module_name: &str,
    s: &str,
    parameters: Vec<ParameterOverride>,
    connections: Vec<PortConnection>,
) -> ModuleItem {
    ModuleItem::Instance(ModuleInstance {
        module_name: module_name.to_string(),
        name: s.to_string(),
        parameters,
        connections,
    })
}

fn file(modules: Vec<Module>) -> SourceFile {
    SourceFile { items: modules.into_iter().map(Item::Module).collect() }
}

fn class(s: &str) -> ClassDecl {
    ClassDecl {
        name: s.to_string(),
        base: None,
        fields: vec![],
        methods: vec![],
        constructor: None,
        type_aliases: vec![],
        collection_aliases: vec![],
        params: vec![],
        base_args: vec![],
        consts: vec![],
        is_struct: false,
    }
}

fn function(s: &str, params: Vec<Param>, body: Vec<Stmt>) -> FuncDecl {
    FuncDecl {
        name: s.to_string(),
        ret_width: 32,
        ret_class: None,
        class_scope: None,
        dpi_name: None,
        is_void: false,
        is_virtual: false,
        params,
        body: Stmt::Block(body),
    }
}

fn formal(s: &str, dir: PortDir) -> Param {
    Param {
        name: s.to_string(),
        dir,
        width: 32,
        class_name: None,
        type_scope: None,
        type_args: vec![],
        coll: None,
        key_class_name: None,
        default: None,
    }
}

fn unsupported(file: &SourceFile) -> String {
    match elaborate_conformant(file) {
        Err(ElabError::UnsupportedSemantic { message }) => message,
        other => panic!("expected a rejection, got {other:?}"),
    }
}

fn expect_message(file: &SourceFile, expected: &str) {
    let message = unsupported(file);
    assert!(message.contains(expected), "{message}");
}

fn net_named<'a>(design: &'a Design, s: &str) -> (u32, &'a LogicVec) {
    let i = design.nets.iter().position(|n| n.name == s).expect("a net");
    (i as u32, &design.nets[i].init)
}

/// The nets that a program reads and writes.
fn touched(p: &Program) -> (Vec<u32>, Vec<u32>) {
    let mut reads: Vec<u32> = vec![];
    let mut writes: Vec<u32> = vec![];
    for i in &p.code {
        match i {
            Inst::NetRead { net, .. } => reads.push(*net),
            Inst::BlockingWrite { net, .. } | Inst::NbaWrite { net, .. } => writes.push(*net),
            _ => {}
        }
    }
    (reads, writes)
}

fn delays(p: &Program) -> Vec<u64> {
    p.code
        .iter()
        .filter_map(|i| match i {
            Inst::Delay { amount } => Some(*amount),
            _ => None,
        })
        .collect()
}

fn program<'a>(design: &'a Design, s: &str) -> &'a Program {
    design.funcs.iter().find(|p| p.name == s).expect("a program")
}

// ---- conformance ----

#[test]
fn conformance_mode_rejects_resilient_callable_stubs() {
    // class broken; function int value(); return missing_name; endfunction endclass
    let mut broken = class("broken");
    broken.methods.push(function("value", vec![], vec![Stmt::Return(Some(var("missing_name")))]));
    let tree = SourceFile {
        items: vec![Item::Class(Box::new(broken)), Item::Module(module("top", vec![]))],
    };
    let error = match elaborate_conformant(&tree) {
        Ok(_) => panic!("stubbed callable must not pass conformance mode"),
        Err(error) => error,
    };
    assert!(matches!(
        error,
        ElabError::CallableStubs { ref stubs }
            if stubs.iter().any(|stub| stub.callable == "broken::value")
    ));
}

#[test]
fn permissive_mode_counts_and_ranks_stubs() {
    let mut broken = class("broken");
    for s in ["a", "b"] {
        broken.methods.push(function(s, vec![], vec![Stmt::Return(Some(var("missing_name")))]));
    }
    broken.methods.push(function("c", vec![], vec![Stmt::Return(Some(lit(1)))]));
    let tree = SourceFile { items: vec![Item::Class(Box::new(broken))] };
    let (design, stats) = elaborate_with_stats(&tree).expect("a design");
    // The class, and the built-in ones.
    assert_eq!(stats.classes, 3);
    assert_eq!(stats.callables_stubbed, 2);
    assert_eq!(stats.stub_reasons.len(), 1);
    assert_eq!(stats.stub_reasons[0].0, "elaboration: unknown signal 'missing_name'");
    assert_eq!(stats.stub_reasons[0].1, 2);
    assert_eq!(program(&design, "stub a").code.len(), 2);
    assert_eq!(design.classes.len(), 3);
}

#[test]
fn conformance_mode_rejects_placeholder_builtin_classes() {
    // module top; mailbox messages; initial messages = new(); endmodule
    let tree = file(vec![module(
        "top",
        vec![
            ModuleItem::Var(handle("messages", "mailbox")),
            ModuleItem::Initial(assign("messages", Expr::New { args: vec![] })),
        ],
    )]);
    let message = unsupported(&tree);
    assert!(message.contains("mailbox") && message.contains("no conformant runtime"), "{message}");
}

#[test]
fn conformance_mode_rejects_cyclic_module_hierarchy() {
    // module first; second child(); endmodule module second; first child(); endmodule
    let tree = file(vec![
        module("first", vec![instance("second", "child", vec![], vec![])]),
        module("second", vec![instance("first", "child", vec![], vec![])]),
    ]);
    let message = unsupported(&tree);
    assert!(
        message.contains("cyclic module hierarchy")
            && message.contains("first")
            && message.contains("second"),
        "{message}"
    );
    assert_eq!(message, "cyclic module hierarchy: first -> second -> first");
}

#[test]
fn a_cycle_below_a_root_has_no_end() {
    let tree = file(vec![
        module("top", vec![instance("first", "child", vec![], vec![])]),
        module("first", vec![instance("second", "child", vec![], vec![])]),
        module("second", vec![instance("first", "child", vec![], vec![])]),
    ]);
    assert_eq!(elaborate(&tree).expect_err("a cycle"), "module hierarchy has no end");
}

#[test]
fn conformant_constant_initializers_apply_all_supported_operators() {
    // logic less = (2 < 1); logic [3:0] shifted = (1 << 2); logic negated = !1;
    let tree = file(vec![module(
        "top",
        vec![
            ModuleItem::Var(initialized("less", 1, binary(BinOp::Lt, lit(2), lit(1)))),
            ModuleItem::Var(initialized("shifted", 4, binary(BinOp::Shl, lit(1), lit(2)))),
            ModuleItem::Var(initialized("negated", 1, unary(UnaryOp::LogNot, lit(1)))),
        ],
    )]);
    let design = elaborate_conformant(&tree).expect("conformant elaboration");
    assert_eq!(net_named(&design, "less").1.to_u64(), 0);
    assert_eq!(net_named(&design, "shifted").1.to_u64(), 4);
    assert_eq!(net_named(&design, "negated").1.to_u64(), 0);
    assert_eq!(net_named(&design, "shifted").1.width(), 4);
}

fn overriding(parameters: Vec<ParameterOverride>) -> SourceFile {
    let mut child = module("child", vec![]);
    child.parameters.push(parameter("VALUE", lit(1)));
    file(vec![child, module("top", vec![instance("child", "dut", parameters, vec![])])])
}

#[test]
fn conformance_mode_rejects_invalid_module_parameter_overrides() {
    let cases = [
        (vec![by_name("MISSING", lit(2))], "no parameter 'MISSING'"),
        (
            vec![by_name("VALUE", lit(2)), by_name("VALUE", lit(3))],
            "overrides parameter 'VALUE' more than once",
        ),
        (vec![by_position(lit(2)), by_position(lit(3))], "more positional parameter overrides"),
        (vec![by_name("VALUE", var("MISSING"))], "not a constant expression"),
    ];
    for (parameters, expected) in cases {
        expect_message(&overriding(parameters), expected);
    }
}

#[test]
fn port_widths_must_agree() {
    // module child(input logic [7:0] value); endmodule
    // module top; logic [3:0] value; child dut(value); endmodule
    let mut child = module("child", vec![]);
    child.ports.push(port("value", PortDir::Input, 8));
    let tree = file(vec![
        child,
        module(
            "top",
            vec![
                ModuleItem::Var(variable("value", 4)),
                instance("child", "dut", vec![], vec![positional("value")]),
            ],
        ),
    ]);
    let message = unsupported(&tree);
    assert!(
        message.contains("port width conversion")
            && message.contains("4 bits")
            && message.contains("8 bits"),
        "{message}"
    );
}

#[test]
fn conformance_mode_rejects_invalid_net_declaration_delays() {
    let delayed = |delay: ContinuousDelay| {
        ModuleItem::Net(NetDecl {
            name: "result".to_string(),
            width: 1,
            signed: false,
            kind: NetKind::Wire,
            delay: Some(delay),
        })
    };
    let minus = |v: u64| unary(UnaryOp::Neg, lit(v));
    let cases = [
        // module top; logic source; wire #source result; endmodule
        (
            vec![
                ModuleItem::Var(variable("source", 1)),
                delayed(ContinuousDelay::Single(var("source"))),
            ],
            "net declaration delay for 'top.result' is not a constant parameter expression",
        ),
        // module top; wire #(1, -2) result; endmodule
        (
            vec![delayed(ContinuousDelay::RiseFall { rise: lit(1), fall: minus(2) })],
            "delay is negative",
        ),
        // module top; wire #(1, 2, 1'bx) result; endmodule
        (
            vec![delayed(ContinuousDelay::RiseFallTurnOff {
                rise: lit(1),
                fall: lit(2),
                turn_off: bits("1'bx"),
            })],
            "delay contains X or Z",
        ),
    ];
    for (items, expected) in cases {
        expect_message(&file(vec![module("top", items)]), expected);
    }
}

/// A module with a variable and a net, and one continuous assignment.
fn driving(
    source_width: u32,
    result_width: u32,
    kind: NetKind,
    rhs: Expr,
    delay: Option<ContinuousDelay>,
    strength: Option<DriveStrengthSpec>,
) -> SourceFile {
    file(vec![module(
        "top",
        vec![
            ModuleItem::Var(variable("source", source_width)),
            net("result", result_width, kind),
            ModuleItem::ContinuousAssign { lhs: target("result"), rhs, delay, strength },
        ],
    )])
}

fn delayed_by(delay: ContinuousDelay) -> SourceFile {
    driving(1, 1, NetKind::Wire, var("source"), Some(delay), None)
}

#[test]
fn invalid_continuous_drivers_are_rejected() {
    let variable_target = file(vec![module(
        "top",
        vec![
            ModuleItem::Var(variable("source", 1)),
            ModuleItem::Var(variable("result", 1)),
            continuous("result", var("source")),
        ],
    )]);
    expect_message(&variable_target, "not a whole net");

    let procedural = file(vec![module(
        "top",
        vec![net("result", 1, NetKind::Wire), ModuleItem::Initial(assign("result", lit(1)))],
    )]);
    expect_message(&procedural, "procedural assignment to net");

    let missing = driving(1, 1, NetKind::Wire, var("missing"), None, None);
    expect_message(&missing, "unsupported continuous assignment expression");

    let signed = file(vec![module(
        "top",
        vec![
            ModuleItem::Var(VarDecl { signed: true, ..variable("source", 1) }),
            net("result", 8, NetKind::Wire),
            continuous("result", var("source")),
        ],
    )]);
    expect_message(&signed, "unsupported continuous assignment expression");

    let widened = driving(1, 8, NetKind::Wire, var("source"), None, None);
    expect_message(&widened, "width conversion is unsupported");

    let minus = |v: u64| unary(UnaryOp::Neg, lit(v));
    expect_message(&delayed_by(ContinuousDelay::Single(minus(1))), "delay is negative");
    expect_message(&delayed_by(ContinuousDelay::Single(bits("1'bx"))), "delay contains X or Z");
    expect_message(
        &delayed_by(ContinuousDelay::Single(var("source"))),
        "delay in module 'top' is not a constant parameter expression",
    );
    expect_message(
        &delayed_by(ContinuousDelay::RiseFall { rise: lit(1), fall: var("source") }),
        "delay in module 'top' is not a constant parameter expression",
    );
    expect_message(
        &delayed_by(ContinuousDelay::RiseFall { rise: lit(1), fall: minus(2) }),
        "delay is negative",
    );
    expect_message(
        &delayed_by(ContinuousDelay::RiseFallTurnOff {
            rise: lit(1),
            fall: lit(2),
            turn_off: bits("1'bz"),
        }),
        "delay contains X or Z",
    );

    let strong = DriveStrengthSpec { zero: StrengthLevel::Pull, one: StrengthLevel::Strong };
    let wired = driving(1, 1, NetKind::Wand, var("source"), None, Some(strong));
    expect_message(&wired, "explicit drive strengths on wired net 'top.result' are unsupported");
    let plain = driving(1, 1, NetKind::Wire, var("source"), None, Some(strong));
    assert!(elaborate_conformant(&plain).is_ok());
}

#[test]
fn an_unsupported_expression_is_described() {
    let call = Expr::Call { name: "f".to_string(), args: vec![Expr::Str("a\"b\n".to_string())] };
    let tree = driving(1, 1, NetKind::Wire, call, None, None);
    expect_message(
        &tree,
        "unsupported continuous assignment expression in module 'top': Call { name: \"f\", args: \
         [Str(\"a\\\"b\\n\")] }",
    );
}

#[test]
fn declarations_must_be_unique_and_constant() {
    let twice = file(vec![module(
        "top",
        vec![ModuleItem::Var(variable("a", 1)), net("a", 1, NetKind::Wire)],
    )]);
    assert_eq!(unsupported(&twice), "duplicate declaration 'a' in module 'top'");

    let modules = file(vec![module("top", vec![]), module("top", vec![])]);
    assert_eq!(unsupported(&modules), "duplicate module declaration 'top'");

    let mut forward = module("top", vec![]);
    forward.parameters.push(parameter("A", var("B")));
    forward.parameters.push(parameter("B", lit(1)));
    expect_message(&file(vec![forward]), "default value for module parameter 'top.A'");

    let unknown = file(vec![module("top", vec![instance("missing", "dut", vec![], vec![])])]);
    expect_message(&unknown, "unknown module 'missing'");
}

// ---- hierarchy ----

#[test]
fn child_instances_share_named_and_positional_ports() {
    // module child(input logic [7:0] source, output logic [7:0] result);
    //   initial begin #5 result = source + 1; end
    // endmodule
    let mut child = module(
        "child",
        vec![ModuleItem::Initial(Stmt::Block(vec![Stmt::Timed {
            control: TimingControl::Delay(lit(5)),
            body: Box::new(assign("result", binary(BinOp::Add, var("source"), lit(1)))),
        }]))],
    );
    child.ports.push(port("source", PortDir::Input, 8));
    child.ports.push(port("result", PortDir::Output, 8));
    let top = module(
        "top",
        vec![
            ModuleItem::Var(initialized("source", 8, lit(41))),
            ModuleItem::Var(initialized("named_result", 8, lit(0))),
            ModuleItem::Var(initialized("positional_result", 8, lit(0))),
            instance(
                "child",
                "named_child",
                vec![],
                vec![named("source", "source"), named("result", "named_result")],
            ),
            instance(
                "child",
                "positional_child",
                vec![],
                vec![positional("source"), positional("positional_result")],
            ),
        ],
    );
    let design = elaborate_conformant(&file(vec![child, top])).expect("conformant elaboration");
    let (source, value) = net_named(&design, "source");
    assert_eq!(value.to_u64(), 41);
    let (named_result, _) = net_named(&design, "named_result");
    let (positional_result, _) = net_named(&design, "positional_result");
    assert_eq!(design.nets.len(), 3);
    assert_eq!(design.processes.len(), 2);
    assert_eq!(touched(&design.processes[0]), (vec![source], vec![named_result]));
    assert_eq!(touched(&design.processes[1]), (vec![source], vec![positional_result]));
    assert_eq!(delays(&design.processes[0]), vec![5]);
}

#[test]
fn child_instances_take_default_named_and_positional_parameters() {
    // module child #(parameter int VALUE = 3, parameter int BIAS = VALUE + 1)
    //   (output logic [7:0] result);
    //   logic [7:0] configured = VALUE + BIAS;
    //   initial result = configured;
    // endmodule
    let mut child = module(
        "child",
        vec![
            ModuleItem::Var(initialized(
                "configured",
                8,
                binary(BinOp::Add, var("VALUE"), var("BIAS")),
            )),
            ModuleItem::Initial(assign("result", var("configured"))),
        ],
    );
    child.parameters.push(parameter("VALUE", lit(3)));
    child.parameters.push(parameter("BIAS", binary(BinOp::Add, var("VALUE"), lit(1))));
    child.ports.push(port("result", PortDir::Output, 8));
    let mut top = module(
        "top",
        vec![
            ModuleItem::Var(initialized("default_result", 8, lit(0))),
            ModuleItem::Var(initialized("named_result", 8, lit(0))),
            ModuleItem::Var(initialized("positional_result", 8, lit(0))),
            instance("child", "default_child", vec![], vec![named("result", "default_result")]),
            instance(
                "child",
                "named_child",
                vec![by_name("VALUE", binary(BinOp::Add, var("BASE"), lit(2)))],
                vec![named("result", "named_result")],
            ),
            instance(
                "child",
                "positional_child",
                vec![by_position(lit(11)), by_position(lit(1))],
                vec![named("result", "positional_result")],
            ),
        ],
    );
    top.parameters.push(parameter("BASE", lit(7)));
    let design = elaborate_conformant(&file(vec![child, top])).expect("conformant elaboration");
    let (default_configured, a) = net_named(&design, "default_child.configured");
    let (named_configured, b) = net_named(&design, "named_child.configured");
    let (positional_configured, c) = net_named(&design, "positional_child.configured");
    assert_eq!(a.to_u64(), 7);
    assert_eq!(b.to_u64(), 19);
    assert_eq!(c.to_u64(), 12);
    let results =
        ["default_result", "named_result", "positional_result"].map(|s| net_named(&design, s).0);
    let sources = [default_configured, named_configured, positional_configured];
    for k in 0..3usize {
        assert_eq!(touched(&design.processes[k]), (vec![sources[k]], vec![results[k]]));
    }
}

#[test]
fn parameter_values_set_instance_delays() {
    // initial #(DELAY + 1) result = VALUE;
    let mut child = module(
        "child",
        vec![ModuleItem::Initial(Stmt::Timed {
            control: TimingControl::Delay(binary(BinOp::Add, var("DELAY"), lit(1))),
            body: Box::new(assign("result", var("VALUE"))),
        })],
    );
    child.parameters.push(parameter("VALUE", lit(3)));
    child.parameters.push(parameter("DELAY", lit(5)));
    child.ports.push(port("result", PortDir::Output, 8));
    let top = module(
        "top",
        vec![
            ModuleItem::Var(variable("a", 8)),
            ModuleItem::Var(variable("b", 8)),
            ModuleItem::Var(variable("c", 8)),
            instance("child", "default_child", vec![], vec![named("result", "a")]),
            instance(
                "child",
                "named_child",
                vec![by_name("VALUE", lit(9)), by_name("DELAY", lit(2))],
                vec![named("result", "b")],
            ),
            instance(
                "child",
                "positional_child",
                vec![by_position(lit(11)), by_position(lit(1))],
                vec![named("result", "c")],
            ),
        ],
    );
    let design = elaborate_conformant(&file(vec![child, top])).expect("conformant elaboration");
    let all: Vec<Vec<u64>> = design.processes.iter().map(delays).collect();
    assert_eq!(all, vec![vec![6], vec![3], vec![2]]);
    let loaded = |p: &Program| match &p.code[1] {
        Inst::Load { value: Value::Logic(v), .. } => v.to_u64(),
        other => panic!("expected a constant, got {other:?}"),
    };
    assert_eq!(loaded(&design.processes[0]), 3);
    assert_eq!(loaded(&design.processes[1]), 9);
    assert_eq!(loaded(&design.processes[2]), 11);
}

#[test]
fn only_modules_without_a_parent_are_roots() {
    let leaf = module("leaf", vec![ModuleItem::Var(variable("x", 2))]);
    let middle = module("middle", vec![instance("leaf", "inner", vec![], vec![])]);
    let top = module(
        "top",
        vec![
            instance("middle", "left", vec![], vec![]),
            instance("middle", "right", vec![], vec![]),
            instance("unknown", "nothing", vec![], vec![]),
        ],
    );
    let design = elaborate(&file(vec![leaf, middle, top])).expect("a design");
    let names: Vec<&str> = design.nets.iter().map(|n| n.name.as_str()).collect();
    assert_eq!(names, vec!["left.inner.x", "right.inner.x"]);
}

#[test]
fn unconnected_ports_have_nets_of_their_own() {
    let mut child = module("child", vec![]);
    child.ports.push(port("p", PortDir::Input, 3));
    let mut top = module("top", vec![instance("child", "dut", vec![], vec![])]);
    top.ports.push(port("q", PortDir::Input, 2));
    let design = elaborate(&file(vec![child, top])).expect("a design");
    assert_eq!(design.nets[0].name, "q");
    assert_eq!(design.nets[0].init.width(), 2);
    assert_eq!(design.nets[1].name, "dut.p");
    assert_eq!(design.nets[1].init.width(), 3);
}

#[test]
fn nets_and_drivers_are_listed() {
    let items = vec![
        ModuleItem::Var(variable("source", 1)),
        net("plain", 2, NetKind::Wire),
        net("low", 2, NetKind::Tri0),
        net("high", 2, NetKind::Supply1),
        ModuleItem::Net(NetDecl {
            name: "slow".to_string(),
            width: 1,
            signed: false,
            kind: NetKind::Wire,
            delay: Some(ContinuousDelay::RiseFall { rise: lit(3), fall: lit(4) }),
        }),
        ModuleItem::ContinuousAssign {
            lhs: target("slow"),
            rhs: unary(UnaryOp::BitNot, var("source")),
            delay: Some(ContinuousDelay::RiseFallTurnOff {
                rise: lit(1),
                fall: lit(2),
                turn_off: lit(5),
            }),
            strength: Some(DriveStrengthSpec {
                zero: StrengthLevel::Weak,
                one: StrengthLevel::HighZ,
            }),
        },
    ];
    let design = elaborate_conformant(&file(vec![module("top", items)])).expect("a design");
    let text = |s: &str| net_named(&design, s).1.to_string();
    assert_eq!(text("plain"), "2'bzz");
    assert_eq!(text("low"), "2'b00");
    assert_eq!(text("high"), "2'b11");
    let (slow, _) = net_named(&design, "slow");
    assert_eq!(design.nets[slow as usize].delays, vec![3, 4]);
    assert_eq!(design.nets[slow as usize].kind, Some(NetKind::Wire));
    assert_eq!(design.nets[0].kind, None);
    assert_eq!(design.drivers.len(), 1);
    let driver = &design.drivers[0];
    assert_eq!(driver.net, slow);
    assert_eq!(driver.delays, vec![1, 2, 5]);
    assert_eq!(driver.strength.map(|s| s.zero), Some(StrengthLevel::Weak));
    assert!(matches!(
        driver.value.code.as_slice(),
        [
            Inst::NetRead { dst: 0, net: 0 },
            Inst::Unary { op: UnaryOp::BitNot, dst: 1, a: 0 },
            Inst::Return { value: 1 }
        ]
    ));
}

// ---- processes ----

#[test]
fn a_counter_compiles() {
    let tree = file(vec![module(
        "top",
        vec![
            ModuleItem::Var(initialized("clk", 1, lit(0))),
            ModuleItem::Var(initialized("c", 32, lit(0))),
            ModuleItem::Always(AlwaysBlock {
                kind: AlwaysKind::Plain,
                body: Stmt::Timed {
                    control: TimingControl::Delay(lit(5)),
                    body: Box::new(assign("clk", unary(UnaryOp::BitNot, var("clk")))),
                },
            }),
            ModuleItem::Always(AlwaysBlock {
                kind: AlwaysKind::Ff,
                body: Stmt::Timed {
                    control: TimingControl::Event(vec![EventExpr {
                        edge: Edge::Posedge,
                        expr: var("clk"),
                    }]),
                    body: Box::new(Stmt::Nonblocking {
                        lhs: target("c"),
                        rhs: binary(BinOp::Add, var("c"), lit(1)),
                    }),
                },
            }),
        ],
    )]);
    let design = elaborate_conformant(&tree).expect("a design");
    assert!(matches!(
        design.processes[0].code.as_slice(),
        [
            Inst::Bind { label: 0 },
            Inst::Delay { amount: 5 },
            Inst::NetRead { dst: 0, net: 0 },
            Inst::Unary { op: UnaryOp::BitNot, dst: 1, a: 0 },
            Inst::BlockingWrite { net: 0, src: 1 },
            Inst::Jump { label: 0 }
        ]
    ));
    assert!(matches!(
        design.processes[1].code.as_slice(),
        [
            Inst::Bind { label: 0 },
            Inst::WaitEdge { net: 0, edge: Edge::Posedge },
            Inst::NetRead { dst: 0, net: 1 },
            Inst::Load { dst: 1, .. },
            Inst::Binary { op: BinOp::Add, dst: 2, a: 0, b: 1 },
            Inst::NbaWrite { net: 1, src: 2 },
            Inst::Jump { label: 0 }
        ]
    ));
}

#[test]
fn a_process_that_cannot_be_compiled_fails() {
    let tree = file(vec![module("top", vec![ModuleItem::Initial(assign("x", lit(1)))])]);
    assert_eq!(
        elaborate(&tree).expect_err("an unknown signal"),
        "elaboration: unknown signal 'x'"
    );
    assert!(matches!(
        elaborate_conformant(&tree),
        Err(ElabError::Failed { message }) if message == "elaboration: unknown signal 'x'"
    ));
}

/// Whether each label is bound once, and each jump goes to a bound one.
fn is_linked(p: &Program) -> bool {
    let mut bound: Vec<u32> = vec![];
    let mut wanted: Vec<u32> = vec![];
    let mut branches = true;
    for i in &p.code {
        match i {
            Inst::Bind { label } => {
                if bound.contains(label) {
                    return false;
                }
                bound.push(*label);
            }
            Inst::Jump { label }
            | Inst::BranchFalse { label, .. }
            | Inst::BranchTrue { label, .. }
            | Inst::BranchArgProvided { label, .. } => wanted.push(*label),
            Inst::Fork { branches: all, .. } => {
                branches = branches && all.iter().all(|b| is_linked(&b.program));
            }
            _ => {}
        }
    }
    branches && wanted.iter().all(|l| bound.contains(l))
}

#[test]
fn control_flow_is_linked() {
    let body = Stmt::Block(vec![
        Stmt::VarDecl(initialized("i", 32, lit(0))),
        Stmt::While {
            cond: binary(BinOp::Lt, var("i"), lit(3)),
            body: Box::new(Stmt::Block(vec![
                Stmt::If {
                    cond: binary(BinOp::Eq, var("i"), lit(1)),
                    then_branch: Box::new(Stmt::Break),
                    else_branch: Some(Box::new(Stmt::Continue)),
                },
                Stmt::Case {
                    expr: var("i"),
                    items: vec![(vec![lit(1), lit(2)], assign("i", lit(7)))],
                    default: Some(Box::new(assign("i", lit(8)))),
                },
            ])),
        },
        Stmt::DoWhile { cond: lit(0), body: Box::new(Stmt::Null) },
        Stmt::Fork {
            branches: vec![
                assign("i", lit(9)),
                Stmt::SysCall {
                    name: "$display".to_string(),
                    args: vec![Expr::Str("%0d".to_string()), var("i")],
                },
            ],
            join: ForkJoin::Any,
        },
        Stmt::Timed { control: TimingControl::Wait(var("i")), body: Box::new(Stmt::Null) },
    ]);
    let tree = file(vec![module("top", vec![ModuleItem::Initial(body)])]);
    let design = elaborate_conformant(&tree).expect("a design");
    let p = &design.processes[0];
    assert!(is_linked(p), "{p:?}");
    let fork = p.code.iter().find_map(|i| match i {
        Inst::Fork { branches, join } => Some((branches, join)),
        _ => None,
    });
    let (branches, join) = fork.expect("a fork");
    assert_eq!(*join, ForkJoin::Any);
    assert_eq!(branches.len(), 2);
    assert!(branches.iter().all(|b| b.captures.iter().all(|c| c.0 < p.regs)));
    assert!(branches[1].program.code.iter().any(
        |i| matches!(i, Inst::Display { fmt, args } if fmt == "%0d" && args.len() == 1)
    ));
}

// ---- functions and classes ----

#[test]
fn functions_call_each_other() {
    // function int sq(input int x); return x * x; endfunction
    let sq = function(
        "sq",
        vec![formal("x", PortDir::Input)],
        vec![Stmt::Return(Some(binary(BinOp::Mul, var("x"), var("x"))))],
    );
    let twice = function(
        "twice",
        vec![formal("x", PortDir::Input), formal("y", PortDir::Output)],
        vec![
            assign("y", Expr::Call { name: "sq".to_string(), args: vec![var("x")] }),
            Stmt::Return(Some(var("y"))),
        ],
    );
    let tree = file(vec![module("top", vec![ModuleItem::Func(sq), ModuleItem::Func(twice)])]);
    let design = elaborate_conformant(&tree).expect("a design");
    let sq = program(&design, "func sq");
    assert_eq!(sq.arg_modes, vec![ArgMode::Input]);
    let twice = program(&design, "func twice");
    assert_eq!(twice.arg_modes, vec![ArgMode::Input, ArgMode::Output]);
    let number = design.funcs.iter().position(|p| p.name == "func sq").expect("a number") as u32;
    assert!(twice.code.iter().any(|i| matches!(i, Inst::Call { func, .. } if *func == number)));
}

#[test]
fn foreign_functions_become_host_calls() {
    let mut f = function("host_add", vec![formal("a", PortDir::Input)], vec![]);
    f.dpi_name = Some("host_add".to_string());
    let tree = file(vec![module("top", vec![ModuleItem::Func(f)])]);
    let design = elaborate_conformant(&tree).expect("a design");
    let p = program(&design, "dpi host_add");
    assert!(matches!(
        p.code.as_slice(),
        [Inst::DpiCall { dst: 1, name, args }, Inst::Return { value: 1 }]
            if name == "host_add" && args == &vec![0]
    ));
}

#[test]
fn overrides_take_the_slot_of_the_method_they_override() {
    let mut base = class("Base");
    base.fields.push(variable("count", 32));
    let mut greet = function("greet", vec![], vec![Stmt::Return(Some(lit(1)))]);
    greet.is_virtual = true;
    base.methods.push(greet);
    let mut derived = class("Derived");
    derived.base = Some("Base".to_string());
    derived.fields.push(variable("extra", 8));
    let mut greet = function("greet", vec![], vec![Stmt::Return(Some(lit(2)))]);
    greet.is_virtual = true;
    derived.methods.push(greet);
    let tree = SourceFile {
        items: vec![Item::Class(Box::new(base)), Item::Class(Box::new(derived))],
    };
    let design = elaborate_conformant(&tree).expect("a design");
    let def = |s: &str| design.classes.iter().find(|c| c.name == s).expect("a class");
    let base = def("Base");
    let derived = def("Derived");
    assert_eq!(base.vtable.len(), 1);
    assert_eq!(derived.vtable.len(), 1);
    assert_ne!(base.vtable[0], derived.vtable[0]);
    assert_eq!(base.field_defaults.len(), 1);
    assert_eq!(derived.field_defaults.len(), 2);
}

#[test]
fn specializations_have_shared_storage_of_their_own() {
    // class box #(type T = int); static int made; T value; endclass
    let mut container = class("box");
    container.params.push(ParamDecl { name: "T".to_string(), is_type: true, default: None });
    container.fields.push(VarDecl { is_static: true, ..variable("made", 32) });
    container.fields.push(handle("value", "T"));
    let item = |s: &str| {
        let mut c = class(s);
        c.fields.push(variable("x", 1));
        c
    };
    let user = |s: &str, arg: &str| {
        let mut c = class(s);
        c.fields.push(VarDecl {
            type_args: vec![TypeRef { name: arg.to_string(), args: vec![] }],
            ..handle("held", "box")
        });
        c
    };
    let tree = SourceFile {
        items: vec![
            Item::Class(Box::new(container)),
            Item::Class(Box::new(item("Apple"))),
            Item::Class(Box::new(item("Pear"))),
            Item::Class(Box::new(user("First", "Apple"))),
            Item::Class(Box::new(user("Second", "Pear"))),
        ],
    };
    let design = elaborate_conformant(&tree).expect("a design");
    let names: Vec<&str> = design.classes.iter().map(|c| c.name.as_str()).collect();
    assert!(names.contains(&"box__Apple"), "{names:?}");
    assert!(names.contains(&"box__Pear"), "{names:?}");
    assert!(design.statics.len() >= 2);
}

#[test]
fn collections_have_methods() {
    let queue = VarDecl { coll: Some(CollKind::Queue), ..variable("q", 32) };
    let call = |method: &str, args: Vec<Expr>| Expr::MethodCall {
        obj: Box::new(var("q")),
        method: method.to_string(),
        args,
    };
    let f = function(
        "f",
        vec![],
        vec![
            Stmt::VarDecl(queue),
            Stmt::Expr(call("push_back", vec![lit(4)])),
            Stmt::Return(Some(call("size", vec![]))),
        ],
    );
    let tree = file(vec![module("top", vec![ModuleItem::Func(f)])]);
    let design = elaborate_conformant(&tree).expect("a design");
    let ops: Vec<CollOp> = program(&design, "func f")
        .code
        .iter()
        .filter_map(|i| match i {
            Inst::CollMethod { op, .. } => Some(*op),
            _ => None,
        })
        .collect();
    assert_eq!(ops, vec![CollOp::PushBack, CollOp::Size]);
}

#[test]
fn package_constants_are_seen_everywhere() {
    let package = Package {
        name: "p".to_string(),
        items: vec![ModuleItem::EnumConst {
            name: "LIMIT".to_string(),
            value: LogicVec::from_u64(9, 32),
        }],
    };
    let tree = SourceFile {
        items: vec![
            Item::Package(package),
            Item::Module(module(
                "top",
                vec![ModuleItem::Var(initialized("start", 8, var("LIMIT")))],
            )),
        ],
    };
    let design = elaborate(&tree).expect("a design");
    assert_eq!(net_named(&design, "start").1.to_u64(), 9);
}

#[test]
fn value_parameters_reach_initializers_and_delays() {
    // class timer #(int N = 1); int x = N; task run; int y = N; #N; endtask endclass
    let mut timer = class("timer");
    timer.params.push(ParamDecl {
        name: "N".to_string(),
        is_type: false,
        default: Some("1".to_string()),
    });
    timer.fields.push(initialized("x", 32, var("N")));
    timer.methods.push(function(
        "run",
        vec![],
        vec![
            Stmt::VarDecl(initialized("y", 32, var("N"))),
            Stmt::Timed { control: TimingControl::Delay(var("N")), body: Box::new(Stmt::Null) },
        ],
    ));
    let mut user = class("user");
    user.fields.push(VarDecl {
        type_args: vec![TypeRef { name: "3".to_string(), args: vec![] }],
        ..handle("held", "timer")
    });
    let tree = SourceFile {
        items: vec![Item::Class(Box::new(timer)), Item::Class(Box::new(user))],
    };
    let (design, stats) = elaborate_with_stats(&tree).expect("a design");
    assert_eq!(stats.callables_stubbed, 0, "{:?}", stats.stub_reasons);
    assert!(design.classes.iter().any(|c| c.name == "timer__3"));
    assert!(design.funcs.iter().any(|p| delays(p) == [3]));
}
