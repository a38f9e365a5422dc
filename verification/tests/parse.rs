//! Trees as the Verible parser prints them, checked and lowered.

use eevee::ast::{
    AlwaysBlock, AlwaysKind, BinOp, CollKind, ContinuousDelay, DriveStrengthSpec, Edge, Expr, Item,
    Lvalue, Module,
    ModuleInstance, ModuleItem, ModuleParameter, NetDecl, NetKind, ParameterOverride, PortConnection,
    PortDir, SourceFile, Stmt, StrengthLevel, TimingControl, UnaryOp, VarDecl,
};
use eevee::cst::{Node, RawNode};
use eevee::front::{parse_tree, ParseMode};
use eevee::verible::{accept, ErrorReport, FeError, SyntaxError, SyntaxReport};

// ---- building trees ----

fn node(tag: &str, kids: Vec<Node>) -> Node {
    Node { tag: tag.to_string(), text: None, start: None, kids }
}

fn token(tag: &str, text: &str) -> Node {
    Node { tag: tag.to_string(), text: Some(text.to_string()), start: None, kids: vec![] }
}

/// A keyword or a punctuation mark.
fn word(w: &str) -> Node {
    node(w, vec![])
}

fn name(s: &str) -> Node {
    token("SymbolIdentifier", s)
}

fn id(s: &str) -> Node {
    node("kUnqualifiedId", vec![name(s)])
}

fn group(body: Vec<Node>) -> Node {
    let mut kids = vec![word("(")];
    kids.extend(body);
    kids.push(word(")"));
    node("kParenGroup", kids)
}

fn root(s: &str) -> Node {
    node("kLocalRoot", vec![id(s)])
}

fn reference(s: &str) -> Node {
    node("kReference", vec![root(s)])
}

/// A variable that is read.
fn read(s: &str) -> Node {
    node("kFunctionCall", vec![reference(s)])
}

fn digits(s: &str) -> Node {
    node("kNumber", vec![token("TK_DecNumber", s)])
}

fn expr(inner: Node) -> Node {
    node("kExpression", vec![inner])
}

fn binary(a: Node, op: &str, b: Node) -> Node {
    node("kBinaryExpression", vec![a, word(op), b])
}

/// Items with commas between them.
fn listed(tag: &str, items: Vec<Node>) -> Node {
    let mut kids: Vec<Node> = vec![];
    for item in items {
        if !kids.is_empty() {
            kids.push(word(","));
        }
        kids.push(item);
    }
    node(tag, kids)
}

fn packed(hi: Node, lo: Node) -> Node {
    node(
        "kPackedDimensions",
        vec![node(
            "kDeclarationDimensions",
            vec![node(
                "kDimensionRange",
                vec![word("["), expr(hi), word(":"), expr(lo), word("]")],
            )],
        )],
    )
}

fn primitive(keyword: &str, dimensions: Node) -> Node {
    node("kDataType", vec![node("kDataTypePrimitive", vec![word(keyword)]), dimensions])
}

fn plain(keyword: &str) -> Node {
    primitive(keyword, node("kPackedDimensions", vec![]))
}

fn user_type(s: &str) -> Node {
    node("kDataType", vec![root(s), node("kPackedDimensions", vec![])])
}

fn assign_to(value: Node) -> Node {
    node("kTrailingAssign", vec![word("="), value])
}

fn declare(dtype: Node, variables: Vec<Node>) -> Node {
    node(
        "kDataDeclaration",
        vec![
            node(
                "kInstantiationBase",
                vec![
                    node("kInstantiationType", vec![dtype]),
                    listed("kGateInstanceRegisterVariableList", variables),
                ],
            ),
            word(";"),
        ],
    )
}

fn variable(s: &str) -> Node {
    node("kRegisterVariable", vec![name(s), node("kUnpackedDimensions", vec![])])
}

fn initialized(s: &str, value: Node) -> Node {
    node(
        "kRegisterVariable",
        vec![name(s), node("kUnpackedDimensions", vec![]), assign_to(expr(value))],
    )
}

fn instance(s: &str, actuals: Vec<Node>) -> Node {
    let body = if actuals.is_empty() {
        vec![]
    } else {
        vec![listed("kPortActualList", actuals)]
    };
    node("kGateInstance", vec![name(s), group(body)])
}

fn named_port(port: &str, value: Node) -> Node {
    node("kActualNamedPort", vec![word("."), name(port), group(vec![expr(value)])])
}

fn positional_port(value: Node) -> Node {
    node("kActualPositionalPort", vec![expr(value)])
}

fn module_with(module_name: &str, head: Vec<Node>, items: Vec<Node>) -> Node {
    let mut header = vec![word("module"), name(module_name)];
    header.extend(head);
    header.push(word(";"));
    node(
        "kModuleDeclaration",
        vec![
            node("kModuleHeader", header),
            node("kModuleItemList", items),
            word("endmodule"),
        ],
    )
}

fn module_of(module_name: &str, items: Vec<Node>) -> Node {
    module_with(module_name, vec![], items)
}

fn file(descriptions: Vec<Node>) -> Node {
    node("kDescriptionList", descriptions)
}

fn port(direction: &str, dtype: Node, s: &str) -> Node {
    node(
        "kPortDeclaration",
        vec![word(direction), dtype, id(s), node("kUnpackedDimensions", vec![])],
    )
}

fn ports(declarations: Vec<Node>) -> Node {
    group(vec![listed("kPortDeclarationList", declarations)])
}

fn formals(declarations: Vec<Node>) -> Node {
    node(
        "kFormalParameterListDeclaration",
        vec![word("#"), group(vec![listed("kFormalParameterList", declarations)])],
    )
}

fn param_type(type_words: Vec<Node>, s: &str) -> Node {
    node(
        "kParamType",
        vec![
            node("kTypeInfo", type_words),
            node("kPackedDimensions", vec![]),
            name(s),
            node("kUnpackedDimensions", vec![]),
        ],
    )
}

fn parameter(keyword: &str, type_words: Vec<Node>, s: &str, value: Node) -> Node {
    node(
        "kParamDeclaration",
        vec![word(keyword), param_type(type_words, s), assign_to(expr(value))],
    )
}

fn actual_parameters(module_name: &str, list: Node) -> Node {
    node(
        "kDataType",
        vec![node(
            "kLocalRoot",
            vec![node(
                "kUnqualifiedId",
                vec![
                    name(module_name),
                    node("kActualParameterList", vec![word("#"), group(vec![list])]),
                ],
            )],
        )],
    )
}

fn by_name(s: &str, value: Node) -> Node {
    node("kParamByName", vec![word("."), name(s), group(vec![expr(value)])])
}

fn net(kind: &str, names: Vec<&str>) -> Node {
    let variables = names.into_iter().map(|s| node("kNetVariable", vec![name(s)])).collect();
    node(
        "kNetDeclaration",
        vec![
            node("kDataType", vec![word(kind)]),
            listed("kNetVariableDeclarationAssign", variables),
            word(";"),
        ],
    )
}

fn target(s: &str) -> Node {
    node("kLPValue", vec![reference(s)])
}

fn net_assign(s: &str, value: Node) -> Node {
    node("kNetVariableAssignment", vec![target(s), word("="), expr(value)])
}

fn continuous(extra: Vec<Node>, assignments: Vec<Node>) -> Node {
    let mut kids = vec![word("assign")];
    kids.extend(extra);
    kids.push(listed("kAssignmentList", assignments));
    kids.push(word(";"));
    node("kContinuousAssignmentStatement", kids)
}

fn delay(value: Node) -> Node {
    node("kDelay", vec![word("#"), node("kDelayValue", vec![value])])
}

fn initial(body: Node) -> Node {
    node("kInitialStatement", vec![word("initial"), body])
}

fn block(statements: Vec<Node>) -> Node {
    node(
        "kSeqBlock",
        vec![word("begin"), node("kBlockItemStatementList", statements), word("end")],
    )
}

fn scoped(segments: Vec<&str>) -> Node {
    let mut kids: Vec<Node> = vec![];
    for s in segments {
        if !kids.is_empty() {
            kids.push(word("::"));
        }
        kids.push(id(s));
    }
    node("kReference", vec![node("kLocalRoot", vec![node("kQualifiedId", kids)])])
}

fn call_of(callee: Node) -> Node {
    node("kFunctionCall", vec![node("kReferenceCallBase", vec![callee, group(vec![])])])
}

/// A tree node that stands for no text of its own.
fn is_branch(n: &Node) -> bool {
    let mut letters = n.tag.chars();
    letters.next() == Some('k') && letters.next().is_some_and(|c| c.is_ascii_uppercase())
}

/// Give each leaf its place in the source, in order.
fn place(n: &mut Node, source: &str, from: &mut usize) {
    if is_branch(n) {
        for kid in &mut n.kids {
            place(kid, source, from);
        }
        return;
    }
    let text = n.text.clone().unwrap_or_else(|| n.tag.clone());
    let at = match source[*from..].find(&text) {
        Some(offset) => *from + offset,
        None => panic!("no {text} after byte {from}"),
    };
    n.start = Some(at as u64);
    *from = at + text.len();
}

fn placed(source: &str, mut tree: Node) -> Node {
    place(&mut tree, source, &mut 0usize);
    tree
}

fn leaves(n: &Node, out: &mut Vec<Node>) {
    if !is_branch(n) {
        out.push(Node { tag: n.tag.clone(), text: n.text.clone(), start: n.start, kids: vec![] });
    }
    for kid in &n.kids {
        leaves(kid, out);
    }
}

fn parse_source(source: &str, tree: Node) -> SourceFile {
    let tree = placed(source, tree);
    match parse_tree(&tree, &vec![], source, ParseMode::Permissive) {
        Some(Ok(file)) => file,
        other => panic!("expected a source file, got {other:?}"),
    }
}

fn parse_source_conformant(source: &str, tree: Node) -> Result<SourceFile, FeError> {
    let tree = placed(source, tree);
    let mut tokens: Vec<Node> = vec![];
    leaves(&tree, &mut tokens);
    parse_tree(&tree, &tokens, source, ParseMode::Conformance).expect("a complete tree")
}

fn module(file: &SourceFile) -> &Module {
    match &file.items[0] {
        Item::Module(m) => m,
        other => panic!("expected a module, got {other:?}"),
    }
}

// ---- the counter ----

const COUNTER: &str = "module top;\n\
  logic clk = 0;\n\
  logic [31:0] c = 0;\n\
  always #5 clk = ~clk;\n\
  always_ff @(posedge clk) c <= c + 1;\n\
endmodule\n";

fn counter() -> Node {
    file(vec![module_of(
        "top",
        vec![
            declare(plain("logic"), vec![initialized("clk", digits("0"))]),
            declare(
                primitive("logic", packed(digits("31"), digits("0"))),
                vec![initialized("c", digits("0"))],
            ),
            node(
                "kAlwaysStatement",
                vec![
                    word("always"),
                    node(
                        "kProceduralTimingControlStatement",
                        vec![
                            delay(token("TK_DecNumber", "5")),
                            node(
                                "kNetVariableAssignment",
                                vec![
                                    target("clk"),
                                    word("="),
                                    expr(node(
                                        "kUnaryPrefixExpression",
                                        vec![word("~"), read("clk")],
                                    )),
                                    word(";"),
                                ],
                            ),
                        ],
                    ),
                ],
            ),
            node(
                "kAlwaysStatement",
                vec![
                    word("always_ff"),
                    node(
                        "kProceduralTimingControlStatement",
                        vec![
                            node(
                                "kEventControl",
                                vec![
                                    word("@"),
                                    group(vec![node(
                                        "kEventExpressionList",
                                        vec![node(
                                            "kEventExpression",
                                            vec![word("posedge"), expr(read("clk"))],
                                        )],
                                    )]),
                                ],
                            ),
                            node(
                                "kNonblockingAssignmentStatement",
                                vec![
                                    target("c"),
                                    word("<="),
                                    expr(binary(read("c"), "+", digits("1"))),
                                    word(";"),
                                ],
                            ),
                        ],
                    ),
                ],
            ),
        ],
    )])
}

#[test]
fn parses_counter_structure() {
    let file = parse_source(COUNTER, counter());
    assert_eq!(file.items.len(), 1);
    let m = module(&file);
    assert_eq!(m.name, "top");

    let vars: Vec<&VarDecl> = m
        .items
        .iter()
        .filter_map(|i| match i {
            ModuleItem::Var(v) => Some(v),
            _ => None,
        })
        .collect();
    assert_eq!(vars.len(), 2, "two variable decls");
    assert_eq!(vars[0].name, "clk");
    assert_eq!(vars[0].width, 1, "scalar logic is 1 bit");
    assert_eq!(vars[1].name, "c");
    assert_eq!(vars[1].width, 32, "[31:0] is 32 bits");

    let always: Vec<&AlwaysBlock> = m
        .items
        .iter()
        .filter_map(|i| match i {
            ModuleItem::Always(a) => Some(a),
            _ => None,
        })
        .collect();
    assert_eq!(always.len(), 2);
    assert_eq!(always[0].kind, AlwaysKind::Plain);
    assert_eq!(always[1].kind, AlwaysKind::Ff);
}

#[test]
fn parses_clock_always() {
    let file = parse_source(COUNTER, counter());
    let m = module(&file);
    let clk_always = m
        .items
        .iter()
        .find_map(|i| match i {
            ModuleItem::Always(a) if a.kind == AlwaysKind::Plain => Some(a),
            _ => None,
        })
        .unwrap();

    // always #5 clk = ~clk;
    let Stmt::Timed { control, body } = &clk_always.body else {
        panic!("expected timed statement");
    };
    match control {
        TimingControl::Delay(Expr::Literal(d)) => assert_eq!(d.to_u64(), 5),
        other => panic!("expected #5 delay, got {other:?}"),
    }
    let Stmt::Blocking { lhs, rhs } = &**body else {
        panic!("expected blocking assign");
    };
    assert_eq!(lhs.name, "clk");
    match rhs {
        Expr::Unary { op: UnaryOp::BitNot, operand } => {
            assert!(matches!(&**operand, Expr::Ref(n) if n == "clk"));
        }
        other => panic!("expected ~clk, got {other:?}"),
    }
}

#[test]
fn parses_counter_always_ff() {
    let file = parse_source(COUNTER, counter());
    let m = module(&file);
    let ff = m
        .items
        .iter()
        .find_map(|i| match i {
            ModuleItem::Always(a) if a.kind == AlwaysKind::Ff => Some(a),
            _ => None,
        })
        .unwrap();

    // always_ff @(posedge clk) c <= c + 1;
    let Stmt::Timed { control, body } = &ff.body else {
        panic!("expected timed statement");
    };
    match control {
        TimingControl::Event(evs) => {
            assert_eq!(evs.len(), 1);
            assert_eq!(evs[0].edge, Edge::Posedge);
            assert!(matches!(&evs[0].expr, Expr::Ref(n) if n == "clk"));
        }
        other => panic!("expected @(posedge clk), got {other:?}"),
    }
    let Stmt::Nonblocking { lhs, rhs } = &**body else {
        panic!("expected nonblocking assign");
    };
    assert_eq!(lhs.name, "c");
    match rhs {
        Expr::Binary { op: BinOp::Add, lhs, rhs } => {
            assert!(matches!(&**lhs, Expr::Ref(n) if n == "c"));
            assert!(matches!(&**rhs, Expr::Literal(v) if v.to_u64() == 1));
        }
        other => panic!("expected c + 1, got {other:?}"),
    }
}

#[test]
fn init_values_present() {
    let file = parse_source(COUNTER, counter());
    let m = module(&file);
    for i in &m.items {
        if let ModuleItem::Var(v) = i {
            let init = v.init.as_ref().expect("has init");
            assert!(matches!(init, Expr::Literal(val) if val.to_u64() == 0));
        }
    }
}

// ---- modules ----

#[test]
fn parses_module_ports_and_instances() {
    let src = "module child(input logic [3:0] a, output logic [3:0] y);\n\
      initial y = a;\n\
    endmodule\n\
    module top;\n\
      logic [3:0] source, named_y, positional_y;\n\
      child named_child(.a(source), .y(named_y));\n\
      child positional_child(source, positional_y);\n\
    endmodule\n";
    let nibble = || primitive("logic", packed(digits("3"), digits("0")));
    let tree = file(vec![
        module_with(
            "child",
            vec![ports(vec![port("input", nibble(), "a"), port("output", nibble(), "y")])],
            vec![initial(net_assign("y", read("a")))],
        ),
        module_of(
            "top",
            vec![
                declare(
                    nibble(),
                    vec![variable("source"), variable("named_y"), variable("positional_y")],
                ),
                declare(
                    user_type("child"),
                    vec![instance(
                        "named_child",
                        vec![named_port("a", read("source")), named_port("y", read("named_y"))],
                    )],
                ),
                declare(
                    user_type("child"),
                    vec![instance(
                        "positional_child",
                        vec![positional_port(read("source")), positional_port(read("positional_y"))],
                    )],
                ),
            ],
        ),
    ]);
    let file = parse_source(src, tree);
    let Item::Module(child) = &file.items[0] else {
        panic!("expected child module, got {:?}", file.items[0]);
    };
    assert_eq!(child.ports.len(), 2);
    assert_eq!(child.ports[0].name, "a");
    assert_eq!(child.ports[0].dir, PortDir::Input);
    assert_eq!(child.ports[0].width, 4);
    assert_eq!(child.ports[1].name, "y");
    assert_eq!(child.ports[1].dir, PortDir::Output);

    let Item::Module(top) = &file.items[1] else {
        panic!("expected top module, got {:?}", file.items[1]);
    };
    let instances: Vec<&ModuleInstance> = top
        .items
        .iter()
        .filter_map(|item| match item {
            ModuleItem::Instance(instance) => Some(instance),
            _ => None,
        })
        .collect();
    assert_eq!(instances.len(), 2);
    assert_eq!(instances[0].module_name, "child");
    assert_eq!(instances[0].name, "named_child");
    assert!(matches!(
        instances[0].connections.as_slice(),
        [
            PortConnection { port: Some(a), expr: Expr::Ref(source) },
            PortConnection { port: Some(y), expr: Expr::Ref(named_y) }
        ] if a == "a" && source == "source" && y == "y" && named_y == "named_y"
    ));
    assert!(matches!(
        instances[1].connections.as_slice(),
        [
            PortConnection { port: None, expr: Expr::Ref(source) },
            PortConnection { port: None, expr: Expr::Ref(positional_y) }
        ] if source == "source" && positional_y == "positional_y"
    ));
}

#[test]
fn parses_continuous_assignments() {
    let src = "module top;\n\
      logic a, b;\n\
      wire y, z;\n\
      assign y = a & b;\n\
      assign z = a, y = b;\n\
            assign #2 z = b;\n\
    endmodule\n";
    let tree = file(vec![module_of(
        "top",
        vec![
            declare(plain("logic"), vec![variable("a"), variable("b")]),
            net("wire", vec!["y", "z"]),
            continuous(vec![], vec![net_assign("y", binary(read("a"), "&", read("b")))]),
            continuous(vec![], vec![net_assign("z", read("a")), net_assign("y", read("b"))]),
            continuous(vec![delay(token("TK_DecNumber", "2"))], vec![net_assign("z", read("b"))]),
        ],
    )]);
    let file = parse_source(src, tree);
    let continuous: Vec<(&Lvalue, &Expr, &Option<ContinuousDelay>)> = module(&file)
        .items
        .iter()
        .filter_map(|item| match item {
            ModuleItem::ContinuousAssign { lhs, rhs, delay, .. } => Some((lhs, rhs, delay)),
            _ => None,
        })
        .collect();
    let nets: Vec<&NetDecl> = module(&file)
        .items
        .iter()
        .filter_map(|item| match item {
            ModuleItem::Net(net) => Some(net),
            _ => None,
        })
        .collect();
    assert_eq!(nets.len(), 2);
    assert_eq!(nets[0].name, "y");
    assert_eq!(nets[1].name, "z");
    assert_eq!(continuous.len(), 4);
    assert_eq!(continuous[0].0.name, "y");
    assert!(matches!(
        continuous[0].1,
        Expr::Binary { op: BinOp::And, lhs, rhs }
            if matches!(&**lhs, Expr::Ref(name) if name == "a")
                && matches!(&**rhs, Expr::Ref(name) if name == "b")
    ));
    assert_eq!(continuous[1].0.name, "z");
    assert!(matches!(continuous[1].1, Expr::Ref(name) if name == "a"));
    assert_eq!(continuous[2].0.name, "y");
    assert!(matches!(continuous[2].1, Expr::Ref(name) if name == "b"));
    assert!(continuous[0].2.is_none());
    assert!(matches!(
        continuous[3],
        (
            Lvalue { name, .. },
            Expr::Ref(source),
            Some(ContinuousDelay::Single(Expr::Literal(delay)))
        ) if name == "z" && source == "b" && delay.to_u64() == 2
    ));
}

#[test]
fn parses_resolved_net_types() {
    let src = "module top;\n\
      wire wire_net;\n\
      tri tri_net;\n\
      wand wand_net;\n\
      triand triand_net;\n\
      wor wor_net;\n\
      trior trior_net;\n\
    tri0 tri0_net;\n\
    tri1 tri1_net;\n\
    supply0 supply0_net;\n\
    supply1 supply1_net;\n\
    endmodule\n";
    let tree = file(vec![module_of(
        "top",
        vec![
            net("wire", vec!["wire_net"]),
            net("tri", vec!["tri_net"]),
            net("wand", vec!["wand_net"]),
            net("triand", vec!["triand_net"]),
            net("wor", vec!["wor_net"]),
            net("trior", vec!["trior_net"]),
            net("tri0", vec!["tri0_net"]),
            net("tri1", vec!["tri1_net"]),
            net("supply0", vec!["supply0_net"]),
            net("supply1", vec!["supply1_net"]),
        ],
    )]);
    let file = parse_source(src, tree);
    let nets: Vec<_> = module(&file)
        .items
        .iter()
        .filter_map(|item| match item {
            ModuleItem::Net(net) => Some((net.name.as_str(), net.kind)),
            _ => None,
        })
        .collect();
    assert_eq!(
        nets,
        vec![
            ("wire_net", NetKind::Wire),
            ("tri_net", NetKind::Wire),
            ("wand_net", NetKind::Wand),
            ("triand_net", NetKind::Wand),
            ("wor_net", NetKind::Wor),
            ("trior_net", NetKind::Wor),
            ("tri0_net", NetKind::Tri0),
            ("tri1_net", NetKind::Tri1),
            ("supply0_net", NetKind::Supply0),
            ("supply1_net", NetKind::Supply1),
        ]
    );
}

fn child_parameters() -> Vec<Node> {
    vec![
        formals(vec![
            parameter("parameter", vec![word("int")], "VALUE", digits("3")),
            node(
                "kParamDeclaration",
                vec![param_type(vec![], "DELAY"), assign_to(expr(digits("5")))],
            ),
        ]),
        group(vec![]),
    ]
}

#[test]
fn parses_module_parameter_defaults_and_overrides() {
    let src = "module child #(parameter int VALUE = 3, DELAY = 5) ();\n\
      endmodule\n\
      module top;\n\
        child default_child();\n\
        child #(.VALUE(9), .DELAY(2)) named_child();\n\
        child #(11, 1) positional_child();\n\
      endmodule\n";
    let tree = file(vec![
        module_with("child", child_parameters(), vec![]),
        module_of(
            "top",
            vec![
                declare(user_type("child"), vec![instance("default_child", vec![])]),
                declare(
                    actual_parameters(
                        "child",
                        listed(
                            "kActualParameterByNameList",
                            vec![by_name("VALUE", digits("9")), by_name("DELAY", digits("2"))],
                        ),
                    ),
                    vec![instance("named_child", vec![])],
                ),
                declare(
                    actual_parameters(
                        "child",
                        listed(
                            "kActualParameterPositionalList",
                            vec![expr(digits("11")), expr(digits("1"))],
                        ),
                    ),
                    vec![instance("positional_child", vec![])],
                ),
            ],
        ),
    ]);
    let file = parse_source(src, tree);
    let Item::Module(child) = &file.items[0] else {
        panic!("expected child module, got {:?}", file.items[0]);
    };
    assert!(matches!(
        child.parameters.as_slice(),
        [
            ModuleParameter {
                name: value,
                width: 32,
                signed: true,
                default: Expr::Literal(value_default),
            },
            ModuleParameter {
                name: delay,
                width: 32,
                signed: true,
                default: Expr::Literal(delay_default),
            }
        ] if value == "VALUE"
            && value_default.to_u64() == 3
            && delay == "DELAY"
            && delay_default.to_u64() == 5
    ));

    let Item::Module(top) = &file.items[1] else {
        panic!("expected top module, got {:?}", file.items[1]);
    };
    let instances: Vec<&ModuleInstance> = top
        .items
        .iter()
        .filter_map(|item| match item {
            ModuleItem::Instance(instance) => Some(instance),
            _ => None,
        })
        .collect();
    assert!(instances[0].parameters.is_empty());
    assert!(matches!(
        instances[1].parameters.as_slice(),
        [
            ParameterOverride { parameter: Some(value), value: Expr::Literal(value_override) },
            ParameterOverride { parameter: Some(delay), value: Expr::Literal(delay_override) }
        ] if value == "VALUE"
            && value_override.to_u64() == 9
            && delay == "DELAY"
            && delay_override.to_u64() == 2
    ));
    assert!(matches!(
        instances[2].parameters.as_slice(),
        [
            ParameterOverride { parameter: None, value: Expr::Literal(value_override) },
            ParameterOverride { parameter: None, value: Expr::Literal(delay_override) }
        ] if value_override.to_u64() == 11 && delay_override.to_u64() == 1
    ));
}

// ---- the supported subset ----

fn expect_construct(result: Result<SourceFile, FeError>, expected: &str) {
    match result {
        Err(FeError::UnsupportedSyntax { construct, .. }) => assert_eq!(construct, expected),
        other => panic!("expected {expected} to be unsupported, got {other:?}"),
    }
}

#[test]
fn conformance_mode_accepts_resolved_and_implicit_strength_nets() {
    let supported = "module top; tri t; wand wa; triand ta; wor wo; trior to;\n\
                     tri0 t0; tri1 t1; supply0 s0; supply1 s1; endmodule";
    let tree = file(vec![module_of(
        "top",
        vec![
            net("tri", vec!["t"]),
            net("wand", vec!["wa"]),
            net("triand", vec!["ta"]),
            net("wor", vec!["wo"]),
            net("trior", vec!["to"]),
            net("tri0", vec!["t0"]),
            net("tri1", vec!["t1"]),
            net("supply0", vec!["s0"]),
            net("supply1", vec!["s1"]),
        ],
    )]);
    parse_source_conformant(supported, tree)
        .expect("resolved and implicit-strength nets supported");

    let resolved_port = "module top(output tri value); endmodule";
    let tree = file(vec![module_with(
        "top",
        vec![ports(vec![node(
            "kPortDeclaration",
            vec![word("output"), word("tri"), id("value")],
        )])],
        vec![],
    )]);
    expect_construct(parse_source_conformant(resolved_port, tree), "tri");

    let strength = "module top; logic source; wire result;\n\
                    assign (strong1, strong0) result = source; endmodule";
    let tree = file(vec![module_of(
        "top",
        vec![
            declare(plain("logic"), vec![variable("source")]),
            net("wire", vec!["result"]),
            continuous(
                vec![node(
                    "kDriveStrength",
                    vec![word("("), word("strong1"), word(","), word("strong0"), word(")")],
                )],
                vec![net_assign("result", read("source"))],
            ),
        ],
    )]);
    expect_construct(parse_source_conformant(strength, tree), "strong1");

    let supply_strength = "module top; logic source; wire result;\n\
                           assign (supply1, supply0) result = source; endmodule";
    let tree = file(vec![module_of(
        "top",
        vec![
            declare(plain("logic"), vec![variable("source")]),
            net("wire", vec!["result"]),
            continuous(
                vec![node(
                    "kDriveStrength",
                    vec![word("("), word("supply1"), word(","), word("supply0"), word(")")],
                )],
                vec![net_assign("result", read("source"))],
            ),
        ],
    )]);
    expect_construct(parse_source_conformant(supply_strength, tree), "supply1");
}

/// A module with a variable and a net, and one more item.
fn driven(item: Node) -> Node {
    file(vec![module_of(
        "top",
        vec![
            declare(plain("logic"), vec![variable("source")]),
            net("wire", vec!["result"]),
            item,
        ],
    )])
}

#[test]
fn conformance_mode_accepts_single_and_rejects_multi_delayed_continuous_assignments() {
    let simple =
        "module top;\n  logic source; wire result;\n  assign result = source;\nendmodule\n";
    let tree = driven(continuous(vec![], vec![net_assign("result", read("source"))]));
    parse_source_conformant(simple, tree).expect("simple continuous assignment is supported");

    let delayed =
        "module top;\n  logic source; wire result;\n  assign #2 result = source;\nendmodule\n";
    let tree = driven(continuous(
        vec![delay(token("TK_DecNumber", "2"))],
        vec![net_assign("result", read("source"))],
    ));
    parse_source_conformant(delayed, tree).expect("single assignment delay is supported");

    let multi =
        "module top;\n  logic source; wire result;\n  assign #(1, 2) result = source;\nendmodule\n";
    let tree = driven(continuous(
        vec![node(
            "kDelay",
            vec![
                word("#"),
                group(vec![listed("kUntagged", vec![expr(digits("1")), expr(digits("2"))])]),
            ],
        )],
        vec![net_assign("result", read("source"))],
    ));
    let error = parse_source_conformant(multi, tree).expect_err("multi-value delay is unsupported");
    assert!(matches!(
        error,
        FeError::UnsupportedSyntax { ref construct, line: 3, .. } if construct == "kUntagged"
    ));

    let declaration_assign = "module top;\n  logic source;\n  wire result = source;\nendmodule\n";
    let tree = file(vec![module_of(
        "top",
        vec![
            declare(plain("logic"), vec![variable("source")]),
            node(
                "kNetDeclaration",
                vec![
                    node("kDataType", vec![word("wire")]),
                    node(
                        "kNetVariableDeclarationAssign",
                        vec![node(
                            "kNetDeclarationAssignment",
                            vec![name("result"), word("="), expr(read("source"))],
                        )],
                    ),
                    word(";"),
                ],
            ),
        ],
    )]);
    let error = parse_source_conformant(declaration_assign, tree)
        .expect_err("net declaration assignments are unsupported");
    assert!(matches!(
        error,
        FeError::UnsupportedSyntax { ref construct, line: 3, column: 8 }
            if construct == "kNetDeclarationAssignment"
    ));
}

#[test]
fn conformance_mode_rejects_noop_system_tasks_with_location() {
    let src = "module top;\n  initial $finish;\nendmodule\n";
    let tree = file(vec![module_of(
        "top",
        vec![initial(node(
            "kStatement",
            vec![
                node("kSystemTFCall", vec![token("SystemTFIdentifier", "$finish")]),
                word(";"),
            ],
        ))],
    )]);
    let error = parse_source_conformant(src, tree).expect_err("$finish is not implemented");
    assert!(matches!(
        error,
        FeError::UnsupportedSyntax { ref construct, line: 2, column: 11 }
            if construct == "SystemTFIdentifier"
    ));
    assert_eq!(
        error.message(),
        "unsupported SystemVerilog construct SystemTFIdentifier at 2:11"
    );
}

#[test]
fn conformance_mode_rejects_unsupported_port_actuals() {
    let expression = "module child(input logic a); endmodule\n\
      module top; logic a, b; child c(.a(a | b)); endmodule\n";
    let tree = file(vec![
        module_with("child", vec![ports(vec![port("input", plain("logic"), "a")])], vec![]),
        module_of(
            "top",
            vec![
                declare(plain("logic"), vec![variable("a"), variable("b")]),
                declare(
                    user_type("child"),
                    vec![instance(
                        "c",
                        vec![named_port("a", binary(read("a"), "|", read("b")))],
                    )],
                ),
            ],
        ),
    ]);
    let error =
        parse_source_conformant(expression, tree).expect_err("expression actual is unsupported");
    assert!(matches!(
        error,
        FeError::UnsupportedSyntax { ref construct, line: 2, .. } if construct == "kExpression"
    ));

    let hole = "module child(input logic a, output logic y); endmodule\n\
      module top; logic y; child c(, y); endmodule\n";
    let tree = file(vec![
        module_with(
            "child",
            vec![ports(vec![
                port("input", plain("logic"), "a"),
                port("output", plain("logic"), "y"),
            ])],
            vec![],
        ),
        module_of(
            "top",
            vec![
                declare(plain("logic"), vec![variable("y")]),
                declare(
                    user_type("child"),
                    vec![node(
                        "kGateInstance",
                        vec![
                            name("c"),
                            group(vec![node(
                                "kPortActualList",
                                vec![word(","), positional_port(read("y"))],
                            )]),
                        ],
                    )],
                ),
            ],
        ),
    ]);
    let error = parse_source_conformant(hole, tree).expect_err("positional hole is unsupported");
    assert!(matches!(
        error,
        FeError::UnsupportedSyntax { ref construct, line: 2, .. }
            if construct == "kPortActualList"
    ));
}

#[test]
fn conformance_mode_rejects_operator_and_cast_approximations() {
    let equality = "module top; logic result; initial result = (1 === 1); endmodule";
    let tree = file(vec![module_of(
        "top",
        vec![
            declare(plain("logic"), vec![variable("result")]),
            initial(net_assign(
                "result",
                group(vec![expr(binary(digits("1"), "===", digits("1")))]),
            )),
        ],
    )]);
    expect_construct(parse_source_conformant(equality, tree), "===");

    let cast = "module top; logic [7:0] result; initial result = 8'(1); endmodule";
    let tree = file(vec![module_of(
        "top",
        vec![
            declare(primitive("logic", packed(digits("7"), digits("0"))), vec![variable("result")]),
            initial(net_assign(
                "result",
                node("kCast", vec![digits("8"), word("'"), group(vec![expr(digits("1"))])]),
            )),
        ],
    )]);
    expect_construct(parse_source_conformant(cast, tree), "kCast");

    let time_literal = "module top; initial #1ns $display(\"done\"); endmodule";
    let tree = file(vec![module_of(
        "top",
        vec![initial(node(
            "kProceduralTimingControlStatement",
            vec![
                delay(token("TK_TimeLiteral", "1ns")),
                node(
                    "kStatement",
                    vec![
                        node(
                            "kSystemTFCall",
                            vec![
                                token("SystemTFIdentifier", "$display"),
                                group(vec![node(
                                    "kArgumentList",
                                    vec![expr(token("TK_StringLiteral", "\"done\""))],
                                )]),
                            ],
                        ),
                        word(";"),
                    ],
                ),
            ],
        ))],
    )]);
    expect_construct(parse_source_conformant(time_literal, tree), "TK_TimeLiteral");
}

#[test]
fn conformance_mode_accepts_integral_module_parameterization() {
    let src = "module child #(parameter int WIDTH = 8) (); endmodule\n\
            module top; child #(.WIDTH(16)) dut(); endmodule\n";
    let tree = file(vec![
        module_with(
            "child",
            vec![
                formals(vec![parameter("parameter", vec![word("int")], "WIDTH", digits("8"))]),
                group(vec![]),
            ],
            vec![],
        ),
        module_of(
            "top",
            vec![declare(
                actual_parameters(
                    "child",
                    listed("kActualParameterByNameList", vec![by_name("WIDTH", digits("16"))]),
                ),
                vec![instance("dut", vec![])],
            )],
        ),
    ]);
    parse_source_conformant(src, tree).expect("integral value parameters are supported");
}

fn logic_actual() -> Node {
    declare(
        actual_parameters(
            "child",
            listed("kActualParameterPositionalList", vec![plain("logic")]),
        ),
        vec![instance("dut", vec![])],
    )
}

#[test]
fn conformance_mode_rejects_type_module_parameters() {
    let src = "module child #(parameter type T = int) (); endmodule\n\
            module top; child #(logic) dut(); endmodule\n";
    let tree = file(vec![
        module_with(
            "child",
            vec![
                formals(vec![node(
                    "kParamDeclaration",
                    vec![
                        word("parameter"),
                        word("type"),
                        node("kTypeAssignment", vec![name("T"), word("="), plain("int")]),
                    ],
                )]),
                group(vec![]),
            ],
            vec![],
        ),
        module_of("top", vec![logic_actual()]),
    ]);
    expect_construct(parse_source_conformant(src, tree), "kTypeAssignment");

    let type_actual = "module child #(parameter int VALUE = 1) (); endmodule\n\
            module top; child #(logic) dut(); endmodule\n";
    let tree = file(vec![
        module_with(
            "child",
            vec![
                formals(vec![parameter("parameter", vec![word("int")], "VALUE", digits("1"))]),
                group(vec![]),
            ],
            vec![],
        ),
        module_of("top", vec![logic_actual()]),
    ]);
    expect_construct(parse_source_conformant(type_actual, tree), "kActualParameterPositionalList");
}

#[test]
fn conformance_mode_rejects_unimplemented_parameter_types_and_widths() {
    let non_int = "module child #(parameter byte VALUE = 1) (); endmodule";
    let tree = file(vec![module_with(
        "child",
        vec![
            formals(vec![parameter("parameter", vec![word("byte")], "VALUE", digits("1"))]),
            group(vec![]),
        ],
        vec![],
    )]);
    expect_construct(parse_source_conformant(non_int, tree), "byte");

    let symbolic_width = "module child #(parameter int WIDTH = 8)\n\
                                (input logic [WIDTH-1:0] value);\n\
                          endmodule\n";
    let tree = file(vec![module_with(
        "child",
        vec![
            formals(vec![parameter("parameter", vec![word("int")], "WIDTH", digits("8"))]),
            ports(vec![port(
                "input",
                primitive(
                    "logic",
                    packed(binary(read("WIDTH"), "-", digits("1")), digits("0")),
                ),
                "value",
            )]),
        ],
        vec![],
    )]);
    expect_construct(parse_source_conformant(symbolic_width, tree), "kDimensionRange");

    let localparam = "module child #(localparam int LOCKED = 1) (); endmodule";
    let tree = file(vec![module_with(
        "child",
        vec![
            formals(vec![parameter("localparam", vec![word("int")], "LOCKED", digits("1"))]),
            group(vec![]),
        ],
        vec![],
    )]);
    expect_construct(parse_source_conformant(localparam, tree), "localparam");

    let body_parameter = "module child; parameter int VALUE = 1; endmodule";
    let tree = file(vec![module_of(
        "child",
        vec![parameter("parameter", vec![word("int")], "VALUE", digits("1"))],
    )]);
    expect_construct(parse_source_conformant(body_parameter, tree), "kParamDeclaration");
}

#[test]
fn conformance_mode_keeps_class_type_parameters_separate() {
    let src = "class box #(type T = int); endclass\n\
            module top; box #(int) value; endmodule\n";
    let tree = file(vec![
        node(
            "kClassDeclaration",
            vec![
                node(
                    "kClassHeader",
                    vec![
                        word("class"),
                        name("box"),
                        formals(vec![node(
                            "kParamDeclaration",
                            vec![
                                word("type"),
                                node("kTypeAssignment", vec![name("T"), word("="), plain("int")]),
                            ],
                        )]),
                        word(";"),
                    ],
                ),
                node("kClassItems", vec![]),
                word("endclass"),
            ],
        ),
        module_of(
            "top",
            vec![declare(
                actual_parameters(
                    "box",
                    listed("kActualParameterPositionalList", vec![plain("int")]),
                ),
                vec![variable("value")],
            )],
        ),
    ]);
    let file = parse_source_conformant(src, tree)
        .expect("class type parameters remain supported syntax");
    let Item::Class(class) = &file.items[0] else {
        panic!("expected a class, got {:?}", file.items[0]);
    };
    assert_eq!(class.params.len(), 1);
    assert_eq!(class.params[0].name, "T");
    assert!(class.params[0].is_type);
}

#[test]
fn conformance_mode_rejects_verible_recovery_trees() {
    // "module child; endmodule module top; child instance(); endmodule"
    let report = |errors: Option<ErrorReport>| SyntaxReport {
        success: false,
        stderr: String::new(),
        errors,
        tree: Some(RawNode {
            tag: Some("kDescriptionList".to_string()),
            text: None,
            start: None,
            children: vec![None],
        }),
        tokens: vec![],
    };
    let found = || SyntaxError {
        phase: None,
        text: Some("instance".to_string()),
        line: Some(0),
        column: Some(42),
    };
    let error = accept(&report(Some(ErrorReport::List(vec![found()]))), true)
        .expect_err("keyword identifier requires recovery");
    assert!(matches!(
        error,
        FeError::Syntax { ref phase, ref text, line: 1, .. }
            if phase == "parse" && text == "instance"
    ));
    assert_eq!(error.message(), "SystemVerilog parse error at 1:43 near 'instance'");

    // A single error that is no list, and one with its phase.
    let lexical = SyntaxError {
        phase: Some("lex".to_string()),
        text: None,
        line: None,
        column: None,
    };
    let error = accept(&report(Some(ErrorReport::Single(lexical))), true).expect_err("an error");
    assert_eq!(error.message(), "SystemVerilog lex error at 1:1 near ''");

    // Without recovery being rejected, the tree stands, and its holes are gone.
    let (tree, tokens) =
        accept(&report(Some(ErrorReport::List(vec![found()]))), false).expect("a tree");
    assert_eq!(tree.tag, "kDescriptionList");
    assert!(tree.kids.is_empty());
    assert!(tokens.is_empty());

    // A process that failed without an error, and a run without a tree.
    let failed = report(Some(ErrorReport::List(vec![])));
    assert!(matches!(accept(&failed, true), Err(FeError::NoTree { .. })));
    let mut bare = report(None);
    bare.success = true;
    bare.tree = None;
    bare.stderr = "no such file".to_string();
    let error = accept(&bare, true).expect_err("no tree");
    assert_eq!(
        error.message(),
        "verible produced no syntax tree (parse error):\nno such file"
    );
}

// ---- procedural code ----

#[test]
fn nested_static_call_is_preserved_as_method_argument() {
    let src = "module top;\n\
      initial begin\n\
        C common;\n\
        P bld;\n\
        bld = common.find(P::get());\n\
      end\n\
    endmodule\n";
    let find_call = node(
        "kFunctionCall",
        vec![node(
            "kReference",
            vec![
                root("common"),
                node(
                    "kBuiltinArrayMethodCallExtension",
                    vec![
                        word("."),
                        word("find"),
                        group(vec![node(
                            "kArgumentList",
                            vec![expr(call_of(scoped(vec!["P", "get"])))],
                        )]),
                    ],
                ),
            ],
        )],
    );
    let tree = file(vec![module_of(
        "top",
        vec![initial(block(vec![
            declare(user_type("C"), vec![variable("common")]),
            declare(user_type("P"), vec![variable("bld")]),
            net_assign("bld", find_call),
        ]))],
    )]);
    let file = parse_source(src, tree);
    let m = module(&file);
    let ModuleItem::Initial(Stmt::Block(stmts)) = &m.items[0] else {
        panic!("expected initial block, got {:?}", m.items[0]);
    };
    let Stmt::Blocking { rhs, .. } = &stmts[2] else {
        panic!("expected blocking assignment, got {:?}", stmts[2]);
    };
    let Expr::MethodCall { obj, method, args } = rhs else {
        panic!("expected common.find(P::get()), got {rhs:?}");
    };
    assert!(matches!(&**obj, Expr::Ref(name) if name == "common"));
    assert_eq!(method, "find");
    assert!(matches!(
        args.as_slice(),
        [Expr::StaticCall { class_name, method, args, .. }]
            if class_name == "P" && method == "get" && args.is_empty()
    ));
}

fn package_of(package_name: &str, items: Vec<Node>) -> Node {
    node(
        "kPackageDeclaration",
        vec![
            node("kPackageHeader", vec![word("package"), name(package_name), word(";")]),
            node("kPackageItemList", items),
            word("endpackage"),
        ],
    )
}

fn constants(file: &SourceFile) -> std::collections::HashMap<&str, u64> {
    let Item::Package(package) = &file.items[0] else {
        panic!("expected package, got {:?}", file.items[0]);
    };
    package
        .items
        .iter()
        .filter_map(|item| match item {
            ModuleItem::EnumConst { name, value } => Some((name.as_str(), value.to_u64())),
            _ => None,
        })
        .collect()
}

#[test]
fn package_parameter_constant_expressions_are_evaluated() {
    let src = "package p;\n\
      parameter int COPY = (1 << 0);\n\
      parameter int RECORD = (1 << 6);\n\
      parameter int COMBINED = (4 | 16);\n\
    endpackage\n";
    let constant = |s: &str, a: &str, op: &str, b: &str| {
        parameter(
            "parameter",
            vec![word("int")],
            s,
            group(vec![expr(binary(digits(a), op, digits(b)))]),
        )
    };
    let tree = file(vec![package_of(
        "p",
        vec![
            constant("COPY", "1", "<<", "0"),
            constant("RECORD", "1", "<<", "6"),
            constant("COMBINED", "4", "|", "16"),
        ],
    )]);
    let file = parse_source(src, tree);
    let constants = constants(&file);
    assert_eq!(constants["COPY"], 1);
    assert_eq!(constants["RECORD"], 64);
    assert_eq!(constants["COMBINED"], 20);
}

fn enum_of(members: Vec<Node>, type_named: &str) -> Node {
    node(
        "kTypeDeclaration",
        vec![
            word("typedef"),
            node(
                "kDataType",
                vec![node(
                    "kDataTypePrimitive",
                    vec![node(
                        "kEnumType",
                        vec![
                            word("enum"),
                            node(
                                "kBraceGroup",
                                vec![word("{"), listed("kEnumNameList", members), word("}")],
                            ),
                        ],
                    )],
                )],
            ),
            name(type_named),
            word(";"),
        ],
    )
}

fn bare_member(s: &str) -> Node {
    node("kEnumName", vec![name(s)])
}

#[test]
fn implicit_enum_members_increment_from_zero() {
    let src = "package p;\n\
      typedef enum { IMP, NODE, TERMINAL, SCHEDULE, DOMAIN, GLOBAL } phase_type;\n\
    endpackage\n";
    let tree = file(vec![package_of(
        "p",
        vec![enum_of(
            vec![
                bare_member("IMP"),
                bare_member("NODE"),
                bare_member("TERMINAL"),
                bare_member("SCHEDULE"),
                bare_member("DOMAIN"),
                bare_member("GLOBAL"),
            ],
            "phase_type",
        )],
    )]);
    let file = parse_source(src, tree);
    let constants = constants(&file);
    assert_eq!(constants["IMP"], 0);
    assert_eq!(constants["NODE"], 1);
    assert_eq!(constants["TERMINAL"], 2);
    assert_eq!(constants["SCHEDULE"], 3);
    assert_eq!(constants["DOMAIN"], 4);
    assert_eq!(constants["GLOBAL"], 5);
}

#[test]
fn explicit_enum_members_move_the_count() {
    let src = "package p;\n typedef enum { A, B = 7, C } t;\n endpackage\n";
    let tree = file(vec![package_of(
        "p",
        vec![enum_of(
            vec![
                bare_member("A"),
                node("kEnumName", vec![name("B"), assign_to(expr(digits("7")))]),
                bare_member("C"),
            ],
            "t",
        )],
    )]);
    let file = parse_source(src, tree);
    let constants = constants(&file);
    assert_eq!(constants["A"], 0);
    assert_eq!(constants["B"], 7);
    assert_eq!(constants["C"], 8);
    let Item::Package(package) = &file.items[0] else {
        panic!("expected package, got {:?}", file.items[0]);
    };
    assert!(matches!(
        package.items.last(),
        Some(ModuleItem::EnumType { name, members }) if name == "t" && members.len() == 3
    ));
}

#[test]
fn class_field_preserves_collection_typedef_kind() {
    let src = "module top;\n\
            class Node;\n\
                typedef bit edges_t[Node];\n\
                edges_t predecessors;\n\
            endclass\n\
        endmodule\n";
    let alias = node(
        "kTypeDeclaration",
        vec![
            word("typedef"),
            plain("bit"),
            name("edges_t"),
            node(
                "kDeclarationDimensions",
                vec![node(
                    "kDimensionScalar",
                    vec![
                        word("["),
                        node("kExpressionList", vec![expr(read("Node"))]),
                        word("]"),
                    ],
                )],
            ),
            word(";"),
        ],
    );
    let field = node(
        "kDataDeclaration",
        vec![
            node(
                "kInstantiationBase",
                vec![
                    node("kInstantiationType", vec![user_type("edges_t")]),
                    node(
                        "kVariableDeclarationAssignmentList",
                        vec![node("kVariableDeclarationAssignment", vec![id("predecessors")])],
                    ),
                ],
            ),
            word(";"),
        ],
    );
    let tree = file(vec![module_of(
        "top",
        vec![node(
            "kClassDeclaration",
            vec![
                node("kClassHeader", vec![word("class"), name("Node"), word(";")]),
                node("kClassItems", vec![alias, field]),
                word("endclass"),
            ],
        )],
    )]);
    let file = parse_source(src, tree);
    let m = module(&file);
    let ModuleItem::Class(class) = &m.items[0] else {
        panic!("expected class, got {:?}", m.items[0]);
    };
    let field = &class.fields[0];
    assert_eq!(field.name, "predecessors");
    assert_eq!(field.coll, Some(CollKind::Assoc));
    assert_eq!(field.class_name, None);
    assert_eq!(field.key_class_name.as_deref(), Some("Node"));
}

fn indexed(s: &str, index: &str) -> Node {
    node(
        "kReference",
        vec![
            root(s),
            node(
                "kDimensionScalar",
                vec![
                    word("["),
                    node("kExpressionList", vec![expr(read(index))]),
                    word("]"),
                ],
            ),
        ],
    )
}

#[test]
fn foreach_preserves_collection_and_index() {
    let src = "module top;\n\
          initial begin\n\
            int values[int];\n\
            foreach (values[key]) values[key] = key;\n\
          end\n\
        endmodule\n";
    let values = node(
        "kRegisterVariable",
        vec![
            name("values"),
            node(
                "kUnpackedDimensions",
                vec![node(
                    "kDeclarationDimensions",
                    vec![node(
                        "kDimensionAssociativeType",
                        vec![word("["), plain("int"), word("]")],
                    )],
                )],
            ),
        ],
    );
    let tree = file(vec![module_of(
        "top",
        vec![initial(block(vec![
            declare(plain("int"), vec![values]),
            node(
                "kForeachLoopStatement",
                vec![
                    word("foreach"),
                    word("("),
                    indexed("values", "key"),
                    word(")"),
                    node(
                        "kNetVariableAssignment",
                        vec![
                            node("kLPValue", vec![indexed("values", "key")]),
                            word("="),
                            expr(read("key")),
                            word(";"),
                        ],
                    ),
                ],
            ),
        ]))],
    )]);
    let file = parse_source(src, tree);
    let m = module(&file);
    let ModuleItem::Initial(Stmt::Block(stmts)) = &m.items[0] else {
        panic!("expected initial block, got {:?}", m.items[0]);
    };
    let Stmt::Foreach { collection, index, .. } = &stmts[1] else {
        panic!("expected foreach, got {:?}", stmts[1]);
    };
    assert!(matches!(collection, Expr::Ref(name) if name == "values"));
    assert_eq!(index, "key");
}

#[test]
fn class_scoped_typedef_static_call_keeps_full_scope() {
    let src = "module top;\n\
          initial begin\n\
            Product product;\n\
            product = Product::type_id::create();\n\
          end\n\
        endmodule\n";
    let tree = file(vec![module_of(
        "top",
        vec![initial(block(vec![
            declare(user_type("Product"), vec![variable("product")]),
            net_assign("product", call_of(scoped(vec!["Product", "type_id", "create"]))),
        ]))],
    )]);
    let file = parse_source(src, tree);
    let m = module(&file);
    let ModuleItem::Initial(Stmt::Block(stmts)) = &m.items[0] else {
        panic!("expected initial block, got {:?}", m.items[0]);
    };
    let Stmt::Blocking { rhs, .. } = &stmts[1] else {
        panic!("expected assignment, got {:?}", stmts[1]);
    };
    assert!(matches!(
        rhs,
        Expr::StaticCall { class_name, method, args, .. }
            if class_name == "Product::type_id" && method == "create" && args.is_empty()
    ));
}

#[test]
fn function_formal_directions_are_preserved() {
    let src = "module top;\n\
          function void transfer(input int source, output int result,\n\
                                 inout int state, ref int shared);\n\
          endfunction\n\
        endmodule\n";
    let formal = |direction: &str, s: &str| {
        node(
            "kPortItem",
            vec![
                word(direction),
                node(
                    "kDataTypeImplicitBasicIdDimensions",
                    vec![plain("int"), id(s), node("kUnpackedDimensions", vec![])],
                ),
            ],
        )
    };
    let tree = file(vec![module_of(
        "top",
        vec![node(
            "kFunctionDeclaration",
            vec![
                node(
                    "kFunctionHeader",
                    vec![
                        word("function"),
                        plain("void"),
                        id("transfer"),
                        group(vec![listed(
                            "kPortList",
                            vec![
                                formal("input", "source"),
                                formal("output", "result"),
                                formal("inout", "state"),
                                formal("ref", "shared"),
                            ],
                        )]),
                        word(";"),
                    ],
                ),
                word("endfunction"),
            ],
        )],
    )]);
    let file = parse_source(src, tree);
    let m = module(&file);
    let ModuleItem::Func(func) = &m.items[0] else {
        panic!("expected function, got {:?}", m.items[0]);
    };
    let directions: Vec<PortDir> = func.params.iter().map(|param| param.dir).collect();
    assert_eq!(
        directions,
        vec![PortDir::Input, PortDir::Output, PortDir::Inout, PortDir::Ref]
    );
    assert_eq!(func.name, "transfer");
    assert!(func.is_void);
}

// ---- trees that cannot be lowered ----

#[test]
fn an_operator_without_its_operand_reads_as_zero() {
    let tree = file(vec![module_of(
        "top",
        vec![continuous(
            vec![],
            vec![
                net_assign("y", node("kUnaryPrefixExpression", vec![word("~")])),
                net_assign("y", node("kBinaryExpression", vec![])),
            ],
        )],
    )]);
    let result = parse_tree(&tree, &vec![], "", ParseMode::Permissive);
    let Some(Ok(file)) = result else { panic!("expected a source file, got {result:?}") };
    for item in &module(&file).items {
        assert!(matches!(
            item,
            ModuleItem::ContinuousAssign { rhs: Expr::Literal(v), .. }
                if v.to_u64() == 0 && v.width() == 32
        ));
    }
    assert_eq!(module(&file).items.len(), 2);
}

#[test]
fn what_is_not_read_need_not_be_whole() {
    // Lowering reads the first expression only, and nothing of an unknown item.
    let odd = || node("kUnaryPrefixExpression", vec![]);
    let tree = file(vec![module_of(
        "top",
        vec![
            node("kUnknownItem", vec![odd(), node("kSystemTFCall", vec![])]),
            continuous(
                vec![],
                vec![node(
                    "kNetVariableAssignment",
                    vec![target("y"), word("="), expr(read("a")), expr(odd())],
                )],
            ),
        ],
    )]);
    let result = parse_tree(&tree, &vec![], "", ParseMode::Permissive);
    let Some(Ok(parsed)) = result else { panic!("expected a source file, got {result:?}") };
    assert!(matches!(
        module(&parsed).items.as_slice(),
        [ModuleItem::ContinuousAssign { rhs: Expr::Ref(s), .. }] if s == "a"
    ));

    // What stands behind the first node that is rejected is not looked at.
    let source = "module top; endmodule";
    let tree = file(vec![module_of(
        "top",
        vec![
            initial(node("kCast", vec![])),
            initial(node("kSystemTFCall", vec![])),
        ],
    )]);
    let result = parse_tree(&tree, &vec![], source, ParseMode::Conformance).expect("an answer");
    expect_construct(result, "kCast");
}

#[test]
fn a_delay_of_four_values_is_not_lowered() {
    let four = node(
        "kDelay",
        vec![
            word("#"),
            group(vec![listed(
                "kUntagged",
                vec![expr(digits("1")), expr(digits("2")), expr(digits("3")), expr(digits("4"))],
            )]),
        ],
    );
    let tree = driven(continuous(vec![four], vec![net_assign("result", read("source"))]));
    assert!(parse_tree(&tree, &vec![], "", ParseMode::Permissive).is_none());
}

#[test]
fn an_operator_without_children_is_rejected_in_conformance_mode() {
    let source = "module top; initial y = ; endmodule";
    let statement = |e: Node| initial(node("kNetVariableAssignment", vec![target("y"), expr(e)]));
    let empty = file(vec![module_of(
        "top",
        vec![statement(node("kUnaryPrefixExpression", vec![]))],
    )]);
    let result = parse_tree(&empty, &vec![], source, ParseMode::Conformance).expect("an answer");
    expect_construct(result, "kUnaryPrefixExpression");

    // Elsewhere a construct that is not supported is named, whatever else is missing.
    let both = file(vec![module_of(
        "top",
        vec![
            statement(node("kCast", vec![])),
            statement(node("kUnaryPrefixExpression", vec![word("~")])),
        ],
    )]);
    let result = parse_tree(&both, &vec![], source, ParseMode::Conformance).expect("an answer");
    expect_construct(result, "kCast");

    // A port takes a plain reference.
    let connected = file(vec![module_of(
        "top",
        vec![node(
            "kDataDeclaration",
            vec![node(
                "kInstantiationBase",
                vec![
                    node("kInstantiationType", vec![user_type("child")]),
                    listed(
                        "kGateInstanceRegisterVariableList",
                        vec![instance(
                            "u",
                            vec![positional_port(node("kUnaryPrefixExpression", vec![word("~")]))],
                        )],
                    ),
                ],
            )],
        )],
    )]);
    let result = parse_tree(&connected, &vec![], source, ParseMode::Conformance).expect("an answer");
    expect_construct(result, "kExpression");

    // A system call has a name.
    let nameless = file(vec![module_of("top", vec![statement(node("kSystemTFCall", vec![]))])]);
    let result = parse_tree(&nameless, &vec![], source, ParseMode::Conformance).expect("an answer");
    expect_construct(result, "kSystemTFCall");
}

// ---- delays and strengths ----

/// A net with a delay.
fn delayed_net(delay: Node) -> Node {
    node(
        "kNetDeclaration",
        vec![
            node("kDataType", vec![word("wire")]),
            delay,
            listed("kNetVariableDeclarationAssign", vec![node("kNetVariable", vec![name("result")])]),
            word(";"),
        ],
    )
}

fn delay_group(values: Vec<Node>) -> Node {
    node("kDelay", vec![word("#"), group(values)])
}

fn values(texts: Vec<&str>) -> Node {
    listed("kUntagged", texts.into_iter().map(|s| expr(digits(s))).collect())
}

#[test]
fn conformance_mode_accepts_net_declaration_delays() {
    let parse = |source: &str, delay: Node| {
        parse_source_conformant(source, file(vec![module_of("top", vec![delayed_net(delay)])]))
    };
    let kept = |result: Result<SourceFile, FeError>| {
        let file = result.expect("a net delay is supported");
        let numbers: Vec<u64> = match &module(&file).items[0] {
            ModuleItem::Net(NetDecl { delay: Some(d), .. }) => match d {
                ContinuousDelay::Single(e) => vec![e],
                ContinuousDelay::RiseFall { rise, fall } => vec![rise, fall],
                ContinuousDelay::RiseFallTurnOff { rise, fall, turn_off } => {
                    vec![rise, fall, turn_off]
                }
            },
            other => panic!("expected a delayed net, got {other:?}"),
        }
        .into_iter()
        .map(|e| match e {
            Expr::Literal(v) => v.to_u64(),
            other => panic!("expected a number, got {other:?}"),
        })
        .collect();
        numbers
    };
    let one = parse("module top; wire #3 result; endmodule", delay(token("TK_DecNumber", "3")));
    assert_eq!(kept(one), [3]);
    let one = parse("module top; wire #(3) result; endmodule", delay_group(vec![expr(digits("3"))]));
    assert_eq!(kept(one), [3]);
    let two =
        parse("module top; wire #(1, 2) result; endmodule", delay_group(vec![values(vec!["1", "2"])]));
    assert_eq!(kept(two), [1, 2]);
    let three = parse(
        "module top; wire #(1, 2, 3) result; endmodule",
        delay_group(vec![values(vec!["1", "2", "3"])]),
    );
    assert_eq!(kept(three), [1, 2, 3]);

    let four = parse(
        "module top; wire #(1, 2, 3, 4) result; endmodule",
        delay_group(vec![values(vec!["1", "2", "3", "4"])]),
    );
    expect_construct(four, "kUntagged");
    let none = parse("module top; wire # result; endmodule", node("kDelay", vec![word("#")]));
    expect_construct(none, "kDelay");
}

#[test]
fn drive_strengths_reach_the_assignments() {
    let source = "module top; logic source; wire result; supply1 one;\n\
                  assign (strong1, pull0) #2 result = source;\n\
                  assign result = source;\n\
                  assign (highz0, weak1) result = source, result = source;\n\
                  assign (supply0, supply1) result = source; endmodule";
    let strength = |a: &str, b: &str| {
        node("kUntagged", vec![word("("), word(a), word(","), word(b), word(")")])
    };
    let drive = || net_assign("result", read("source"));
    let tree = placed(
        source,
        file(vec![module_of(
            "top",
            vec![
                declare(plain("logic"), vec![variable("source")]),
                net("wire", vec!["result"]),
                net("supply1", vec!["one"]),
                continuous(
                    vec![strength("strong1", "pull0"), delay(token("TK_DecNumber", "2"))],
                    vec![drive()],
                ),
                continuous(vec![], vec![drive()]),
                continuous(vec![strength("highz0", "weak1")], vec![drive(), drive()]),
                continuous(vec![strength("supply0", "supply1")], vec![drive()]),
            ],
        )]),
    );
    let mut tokens: Vec<Node> = vec![];
    leaves(&tree, &mut tokens);
    let read_back = |tokens: &Vec<Node>| -> Vec<Option<DriveStrengthSpec>> {
        match parse_tree(&tree, tokens, source, ParseMode::Permissive) {
            Some(Ok(file)) => module(&file)
                .items
                .iter()
                .filter_map(|item| match item {
                    ModuleItem::ContinuousAssign { strength, .. } => Some(*strength),
                    _ => None,
                })
                .collect(),
            other => panic!("expected a source file, got {other:?}"),
        }
    };
    let spec = |zero: StrengthLevel, one: StrengthLevel| Some(DriveStrengthSpec { zero, one });
    assert_eq!(
        read_back(&tokens),
        [
            spec(StrengthLevel::Pull, StrengthLevel::Strong),
            None,
            spec(StrengthLevel::HighZ, StrengthLevel::Weak),
            spec(StrengthLevel::HighZ, StrengthLevel::Weak),
            spec(StrengthLevel::Supply, StrengthLevel::Supply),
        ]
    );
    assert_eq!(read_back(&vec![]), [None; 5]);
}

#[test]
fn enum_members_take_the_value_of_their_expression() {
    let src = "package p;\n typedef enum { A = 1 << 3, B, C = - 1, D } t;\n endpackage\n";
    let written = |s: &str, e: Node| node("kEnumName", vec![name(s), assign_to(expr(e))]);
    let tree = file(vec![package_of(
        "p",
        vec![enum_of(
            vec![
                written("A", binary(digits("1"), "<<", digits("3"))),
                bare_member("B"),
                written("C", node("kUnaryPrefixExpression", vec![word("-"), digits("1")])),
                bare_member("D"),
            ],
            "t",
        )],
    )]);
    let file = parse_source(src, tree);
    let constants = constants(&file);
    assert_eq!(constants["A"], 8);
    assert_eq!(constants["B"], 9);
    assert_eq!(constants["C"], 0xffff_ffff);
    assert_eq!(constants["D"], 0);
}

#[test]
fn an_error_at_any_place_stands_where_recovery_is_kept() {
    let report = SyntaxReport {
        success: false,
        stderr: String::new(),
        errors: Some(ErrorReport::Single(SyntaxError {
            phase: None,
            text: None,
            line: Some(u64::MAX),
            column: Some(u64::MAX),
        })),
        tree: Some(RawNode {
            tag: Some("kDescriptionList".to_string()),
            text: None,
            start: None,
            children: vec![],
        }),
        tokens: vec![],
    };
    let (tree, _) = accept(&report, false).expect("a tree");
    assert_eq!(tree.tag, "kDescriptionList");
}
