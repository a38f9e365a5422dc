//! Properties of the library, on values.

use eevee::ast::{
    BinOp, ClassDecl, CollKind, CollectionAlias, Edge, EventExpr, Expr, FuncDecl, Lvalue, Param,
    ParamDecl, PortDir, Stmt, TimingControl, TypeAlias, TypeRef, VarDecl,
};
use eevee::bit::Bit;
use eevee::compile::rank_reasons;
use eevee::const_expr::eval_const_expr;
use eevee::const_fold::const_eval;
use eevee::describe::describe_expr;
use eevee::gather::add_builtins;
use eevee::gen_program::panic_category;
use eevee::logic::LogicVec;
use eevee::mono::monomorphize;
use eevee::preprocess::{HeaderFile, HeaderLookup, Preprocessor};
use eevee::region::Region;
use eevee::scan::strip_comments;
use eevee::table::Table;
use eevee::text::{chars_of, join, number_text, parse_i64, parse_unsigned, split_on, string_of};
use eevee::time::{split_time_spec, SimTime, TimeUnit, Timescale};

fn sized(s: &str) -> LogicVec {
    LogicVec::parse_sized(s).expect("a literal")
}

// ---- four-state values ----

#[test]
fn planes_give_back_the_bit() {
    for bit in [Bit::Zero, Bit::One, Bit::X, Bit::Z] {
        let (a, b) = bit.planes();
        assert_eq!(Bit::from_planes(a, b), bit);
    }
}

#[test]
fn subtraction_takes_back_an_addition() {
    let a = LogicVec::from_u64(200, 8);
    let b = LogicVec::from_u64(100, 8);
    assert_eq!(a.add(&b).to_u64(), 44);
    assert!(a.add(&b).sub(&b).eq_case(&a));
    assert!(a.neg().neg().eq_case(&a));
    assert_eq!(a.neg().to_u64(), 56);
}

#[test]
fn a_concatenation_splits_again() {
    let high = sized("4'b10xz");
    let low = sized("3'b011");
    let both = high.concat(&low);
    assert_eq!(both.width(), 7);
    assert!(both.slice(6, 3).eq_case(&high));
    assert!(both.slice(2, 0).eq_case(&low));
    let known = LogicVec::from_u64(5, 4).concat(&LogicVec::from_u64(3, 3));
    assert_eq!(known.to_u64(), 5 * 8 + 3);
}

#[test]
fn resizing_up_and_down_changes_nothing() {
    let v = sized("5'b1x0z1");
    assert!(v.resize(90, true).resize(5, false).eq_case(&v));
    assert!(v.resize(90, false).resize(5, true).eq_case(&v));
}

#[test]
fn equal_branches_decide_an_unknown_condition() {
    let branch = sized("3'b101");
    let other = sized("3'b100");
    let unknown = LogicVec::x(1);
    assert!(LogicVec::conditional(&unknown, &branch, &branch).eq_case(&branch));
    assert_eq!(LogicVec::conditional(&unknown, &branch, &other).to_string(), "3'b10x");
}

#[test]
fn de_morgan_holds_of_vectors() {
    let a = sized("4'b01xz");
    let b = sized("4'b1x0z");
    assert!(a.bitand(&b).bitnot().eq_case(&a.bitnot().bitor(&b.bitnot())));
    assert!(a.bitand(&b).eq_case(&b.bitand(&a)));
    assert!(a.bitxor(&b).eq_case(&b.bitxor(&a)));
}

#[test]
fn printed_values_are_read_back() {
    for s in ["4'b10xz", "1'b1", "65'bx", "12'b000011110000"] {
        let v = sized(s);
        assert!(sized(&v.to_string()).eq_case(&v));
    }
}

#[test]
fn an_unknown_operand_makes_arithmetic_unknown() {
    let a = LogicVec::from_u64(3, 8);
    let b = sized("8'b0000000x");
    assert!(a.add(&b).eq_case(&LogicVec::x(8)));
    assert!(a.mul(&b).eq_case(&LogicVec::x(8)));
    assert!(!b.is_true());
}

// ---- text ----

#[test]
fn numbers_are_read_back() {
    for n in [0u64, 7, 10, 4_294_967_296, u64::MAX] {
        let text = number_text(n);
        assert_eq!(text, n.to_string());
        assert_eq!(parse_unsigned(&chars_of(&text), u64::MAX), Some(n));
    }
    assert_eq!(parse_unsigned(&chars_of("18446744073709551616"), u64::MAX), None);
    assert_eq!(parse_i64(&chars_of("-9223372036854775808")), Some(i64::MIN));
    assert_eq!(parse_i64(&chars_of("9223372036854775808")), None);
    assert_eq!(parse_i64(&chars_of("12a")), None);
}

#[test]
fn splitting_and_joining_keep_the_text() {
    let text = chars_of("a,,b,");
    let parts = split_on(&text, ',');
    assert_eq!(parts.len(), 4);
    assert_eq!(string_of(&join(&parts, ',')), "a,,b,");
}

#[test]
fn comments_leave_the_layout() {
    let text = "a/*x\ny*/b// z\n\"//\"";
    let out = strip_comments(&chars_of(text));
    assert_eq!(out.len(), text.chars().count());
    let lines = |s: &str| s.matches('\n').count();
    assert_eq!(lines(&string_of(&out)), lines(text));
    assert_eq!(string_of(&out), "a   \n   b    \n\"//\"");
    let plain = "a / b * c \"x\\\"y\"\n";
    assert_eq!(string_of(&strip_comments(&chars_of(plain))), plain);
}

// ---- time and regions ----

#[test]
fn units_are_read_back() {
    for unit in
        [TimeUnit::Fs, TimeUnit::Ps, TimeUnit::Ns, TimeUnit::Us, TimeUnit::Ms, TimeUnit::S]
    {
        assert_eq!(TimeUnit::parse(unit.suffix()), Some(unit));
    }
    assert_eq!(TimeUnit::parse(" NS "), Some(TimeUnit::Ns));
    assert_eq!(TimeUnit::parse("h"), None);
}

#[test]
fn time_specs_split() {
    let split = |s: &str| split_time_spec(s).map(|(count, unit)| (count, unit.fs()));
    assert_eq!(split("1ns"), Some(("1".to_string(), 1_000_000)));
    assert_eq!(split("100 fs"), Some(("100".to_string(), 1)));
    assert_eq!(split("ps"), Some((String::new(), 1_000)));
    assert_eq!(split("10"), None);
    assert_eq!(split("1 hour"), None);
    let ts = Timescale::new((10, TimeUnit::Ns), (100, TimeUnit::Ps));
    assert_eq!(ts.unit_fs(), 10_000_000);
    assert_eq!(ts.prec_fs(), 100_000);
    assert_eq!(SimTime::from_fs(u64::MAX).saturating_add_fs(1).as_fs(), u64::MAX);
}

#[test]
fn the_last_region_has_no_next() {
    let mut r = Region::Preponed;
    let mut steps: u8 = 0;
    while let Some(next) = r.next() {
        assert_eq!(next.priority(), r.priority() + 1);
        r = next;
        steps += 1;
    }
    assert_eq!(r, Region::Postponed);
    assert_eq!(steps, r.priority());
}

// ---- tables and orders ----

#[test]
fn a_table_gives_back_what_was_put() {
    let mut t: Table<u32> = Table::new();
    t.insert("a".to_string(), 1);
    t.insert("b".to_string(), 2);
    t.insert("a".to_string(), 3);
    assert_eq!(t.get("a"), Some(3));
    assert_eq!(t.get("b"), Some(2));
    assert_eq!(t.get("c"), None);
    t.insert_new(&"b".to_string(), 9);
    assert_eq!(t.get("b"), Some(2));
    let other = t.copy();
    t.remove("a");
    assert!(!t.has("a"));
    assert!(other.has("a"));
}

#[test]
fn reasons_are_ranked_by_count_then_text() {
    let mut t: Table<usize> = Table::new();
    t.insert("beta".to_string(), 1);
    t.insert("gamma".to_string(), 5);
    t.insert("alpha".to_string(), 1);
    let ranked = rank_reasons(&t);
    let names: Vec<&str> = ranked.iter().map(|r| r.0.as_str()).collect();
    assert_eq!(names, vec!["gamma", "alpha", "beta"]);
    assert_eq!(ranked[0].1, 5);
}

#[test]
fn failures_are_grouped() {
    assert_eq!(panic_category("unsupported call: foo"), "unsupported call");
    assert_eq!(
        panic_category("elaboration: unknown signal 'x'"),
        "elaboration: unknown signal 'x'"
    );
    assert_eq!(panic_category("no colon"), "no colon");
}

// ---- expressions ----

#[test]
fn expressions_are_described() {
    let e = Expr::Index {
        base: Box::new(Expr::Str("q\\".to_string())),
        index: Box::new(Expr::Ref("i".to_string())),
    };
    assert_eq!(describe_expr(&e), "Index { base: Str(\"q\\\\\"), index: Ref(\"i\") }");
}

#[test]
fn wide_products_are_not_folded() {
    let wide = || Expr::Literal(LogicVec::from_u64(3, 100));
    let e = Expr::Binary {
        op: eevee::ast::BinOp::Mul,
        lhs: Box::new(wide()),
        rhs: Box::new(wide()),
    };
    assert_eq!(
        const_eval(&e).expect_err("too wide"),
        "wide multiply (width 100) not yet implemented"
    );
}

#[test]
fn parts_fold_in_either_direction() {
    let literal = |v: u64| Box::new(Expr::Literal(LogicVec::from_u64(v, 32)));
    let part = |l: u64, r: u64| Expr::PartSelect {
        base: Box::new(Expr::Literal(sized("4'b0011"))),
        left: literal(l),
        right: literal(r),
    };
    assert_eq!(const_eval(&part(2, 1)).expect("bits").to_string(), "2'b01");
    assert_eq!(const_eval(&part(1, 2)).expect("bits").to_string(), "2'b10");
    let both = Expr::Concat(vec![Expr::Literal(sized("2'b10")), Expr::Literal(sized("1'b1"))]);
    assert_eq!(const_eval(&both).expect("bits").to_string(), "3'b101");
}

// ---- preprocessing ----

#[test]
fn each_line_gives_one_line() {
    let text = "`define A 1\n`ifdef A\nx\n`else\ny\n`endif\n`A";
    let out = Preprocessor::new(vec![]).process(text, "f");
    let lines: Vec<&str> = out.split('\n').collect();
    assert_eq!(lines.len(), 7);
    assert_eq!(lines[2], "x");
    assert_eq!(lines[4], "");
    assert_eq!(lines[6], "1");
}

#[test]
fn plain_text_passes_through() {
    let text = "module top;\n  logic a;\nendmodule";
    assert_eq!(Preprocessor::new(vec![]).process(text, "f"), text);
}

#[test]
fn files_are_looked_up() {
    let found = |candidates: Vec<Option<HeaderFile>>| HeaderLookup {
        name: "a.svh".to_string(),
        source: "top.sv".to_string(),
        candidates,
    };
    let header = HeaderFile {
        id: 1,
        path: "dir/a.svh".to_string(),
        contents: Some("`define W 8".to_string()),
    };
    let mut known = Preprocessor::new(vec![found(vec![None, Some(header)])]);
    let out = known.process("`include \"a.svh\"\nlogic [`W-1:0] x;", "top.sv");
    assert!(out.contains("logic [8-1:0] x;"), "{out}");
    assert!(known.missed_lookups().is_empty());

    let mut missing = Preprocessor::new(vec![]);
    missing.process("`include \"a.svh\"", "top.sv");
    assert_eq!(missing.missed_lookups(), vec![("a.svh".to_string(), "top.sv".to_string())]);
}

#[test]
fn predefined_macros_expand() {
    let mut p = Preprocessor::new(vec![]);
    p.define("WIDTH", "16");
    assert_eq!(p.process("`WIDTH `__FILE__ `__LINE__", "f.sv"), "16 \"f.sv\" 1");
}

// ---- classes ----

fn class(s: &str) -> ClassDecl {
    ClassDecl {
        name: s.to_string(),
        base: None,
        fields: vec![],
        methods: vec![],
        constructor: None,
        type_aliases: vec![],
        collection_aliases: vec![],
        params: vec![],
        base_args: vec![],
        consts: vec![],
        is_struct: false,
    }
}

fn held(class_name: &str, type_args: Vec<TypeRef>) -> VarDecl {
    VarDecl {
        name: "held".to_string(),
        width: 1,
        signed: false,
        class_name: Some(class_name.to_string()),
        type_scope: None,
        type_args,
        is_string: false,
        is_event: false,
        coll: None,
        key_class_name: None,
        is_static: false,
        init: None,
    }
}

fn plain(s: &str) -> TypeRef {
    TypeRef { name: s.to_string(), args: vec![] }
}

#[test]
fn specialized_classes_are_concrete() {
    let mut pair = class("pair");
    for s in ["A", "B"] {
        pair.params.push(ParamDecl { name: s.to_string(), is_type: true, default: None });
    }
    pair.fields.push(held("A", vec![]));
    let mut user = class("user");
    user.fields.push(held("pair", vec![plain("int"), plain("user")]));
    let alias = TypeAlias {
        alias: "pair_t".to_string(),
        target: TypeRef { name: "pair".to_string(), args: vec![plain("int"), plain("user")] },
    };
    let (classes, names) = monomorphize(&vec![pair, user], &vec![alias]).expect("an end");
    assert!(classes.iter().all(|c| c.params.is_empty()));
    let user = classes.iter().find(|c| c.name == "user").expect("the user");
    let held_class = user.fields[0].class_name.clone().expect("a class");
    assert!(user.fields[0].type_args.is_empty());
    assert_eq!(classes.iter().filter(|c| c.name == held_class).count(), 1);
    assert_eq!(names, vec![("pair_t".to_string(), held_class)]);
}

#[test]
fn built_in_classes_give_way() {
    let mut classes = vec![class("process")];
    add_builtins(&mut classes);
    let names: Vec<&str> = classes.iter().map(|c| c.name.as_str()).collect();
    assert_eq!(names, vec!["process", "mailbox"]);
    assert!(classes[0].methods.is_empty());
    assert!(!classes[1].methods.is_empty());
}

#[test]
fn arguments_tell_specializations() {
    let mut pair = class("pair");
    for s in ["A", "B"] {
        pair.params.push(ParamDecl { name: s.to_string(), is_type: true, default: None });
    }
    let mut user = class("user");
    user.fields.push(held("pair", vec![plain("a__b"), plain("c")]));
    user.fields.push(held("pair", vec![plain("a"), plain("b__c")]));
    user.fields.push(held("pair", vec![plain("a_"), plain("b")]));
    user.fields.push(held("pair", vec![plain("a"), plain("_b")]));
    user.fields.push(held("pair", vec![plain("a"), plain("b")]));
    user.fields.push(held("pair", vec![plain("a"), plain("b")]));
    user.fields.push(held("pair", vec![plain("a"), plain("")]));
    user.fields.push(held("pair", vec![plain("a"), plain("_")]));
    user.fields.push(held("pair", vec![plain("a")]));
    let (classes, _) = monomorphize(&vec![pair, user], &vec![]).expect("an end");
    let user = classes.iter().find(|c| c.name == "user").expect("the user");
    let names: Vec<&str> =
        user.fields.iter().map(|f| f.class_name.as_deref().expect("a class")).collect();
    assert_eq!(names[0], "pair__a__b__c");
    assert_eq!(names[1], "$4$pair1$a4$b__c");
    assert_eq!(names[2], "pair__a___b");
    assert_eq!(names[3], "$4$pair1$a2$_b");
    assert_eq!(names[4], "pair__a__b");
    assert_eq!(names[4], names[5]);
    assert_eq!(names[6], "pair__a___");
    assert_eq!(names[7], "$4$pair1$a1$_");
    assert_eq!(names[8], "$4$pair1$a$");
    for i in 0..names.len() {
        for j in 0..i {
            assert_eq!(names[i] == names[j], (i, j) == (5, 4), "{} {}", names[i], names[j]);
        }
        assert_eq!(classes.iter().filter(|c| c.name == names[i]).count(), 1);
    }
    assert_eq!(classes.len(), names.len());
}

#[test]
fn specializations_have_joined_names() {
    let template = |s: &str, params: Vec<&str>| {
        let mut c = class(s);
        for p in params {
            c.params.push(ParamDecl { name: p.to_string(), is_type: true, default: None });
        }
        c
    };
    let mut user = class("user");
    let node = TypeRef { name: "node".to_string(), args: vec![plain("int")] };
    user.fields.push(held("pool", vec![node, plain("string")]));
    user.fields.push(held("counter", vec![plain("-1")]));
    let classes = vec![
        template("pool", vec!["K", "V"]),
        template("node", vec!["T"]),
        template("counter", vec!["N"]),
        user,
    ];
    let (classes, _) = monomorphize(&classes, &vec![]).expect("an end");
    let mut names: Vec<&str> = classes.iter().map(|c| c.name.as_str()).collect();
    names.sort();
    assert_eq!(names, ["counter___1", "node__int", "pool__node__int__string", "user"]);
}

#[test]
fn a_declared_class_keeps_its_name() {
    let mut template = class("C");
    template.params.push(ParamDecl { name: "T".to_string(), is_type: true, default: None });
    template.fields.push(held("T", vec![]));
    let mut first = class("first");
    first.fields.push(held("C", vec![plain("a")]));
    let mut other = class("C__a");
    other.fields.push(held("b", vec![]));
    other.fields.push(held("C", vec![plain("a")]));
    for classes in [
        vec![template.clone(), first.clone(), other.clone()],
        vec![other.clone(), first.clone(), template.clone()],
    ] {
        let (classes, _) = monomorphize(&classes, &vec![]).expect("an end");
        let find = |s: &str| {
            let mut found = classes.iter().filter(|c| c.name == s);
            let c = found.next().expect("a class");
            assert!(found.next().is_none());
            c
        };
        let first = find("first");
        assert_eq!(first.fields[0].class_name.as_deref(), Some("$1$C1$a"));
        assert_eq!(find("$1$C1$a").fields[0].class_name.as_deref(), Some("a"));
        let other = find("C__a");
        assert_eq!(other.fields[0].class_name.as_deref(), Some("b"));
        assert_eq!(other.fields[1].class_name.as_deref(), Some("$1$C1$a"));
        assert_eq!(classes.len(), 3);
    }
    // A declared name that has the other form.
    let (classes, _) =
        monomorphize(&vec![template, first, other, class("$1$C1$a")], &vec![]).expect("an end");
    assert!(classes.iter().any(|c| c.name == "$$1$C1$a" && c.fields.len() == 1));
    assert_eq!(classes.len(), 4);
}

#[test]
fn parameters_are_replaced_everywhere() {
    let mut template = class("C");
    template.params.push(ParamDecl { name: "T".to_string(), is_type: true, default: None });
    template.params.push(ParamDecl { name: "N".to_string(), is_type: false, default: None });
    let n = || Expr::Ref("N".to_string());
    let seven = |e: &Expr| matches!(e, Expr::Literal(v) if v.to_u64() == 7);
    let mut count = held("int", vec![]);
    count.class_name = None;
    count.init = Some(n());
    template.fields.push(count);
    let mut map = held("T", vec![]);
    map.key_class_name = Some("T".to_string());
    map.type_scope = Some("T".to_string());
    template.fields.push(map);
    template.collection_aliases.push(CollectionAlias {
        alias: "queue_t".to_string(),
        kind: CollKind::Queue,
        element: Some(plain("T")),
        key: Some(plain("T")),
    });
    let target = || Lvalue {
        name: "x".to_string(),
        receiver: Some(Box::new(Expr::Index {
            base: Box::new(Expr::Ref("o".to_string())),
            index: Box::new(n()),
        })),
        index: Some(n()),
        scope: Some("T".to_string()),
    };
    let timed = |control: TimingControl| Stmt::Timed { control, body: Box::new(Stmt::Null) };
    template.methods.push(FuncDecl {
        name: "f".to_string(),
        ret_width: 32,
        ret_class: None,
        class_scope: None,
        dpi_name: None,
        is_void: true,
        is_virtual: false,
        params: vec![Param {
            name: "p".to_string(),
            dir: PortDir::Input,
            width: 32,
            class_name: None,
            type_scope: None,
            type_args: vec![],
            coll: None,
            key_class_name: Some("T".to_string()),
            default: Some(n()),
        }],
        body: Stmt::Block(vec![
            timed(TimingControl::Delay(n())),
            timed(TimingControl::Wait(n())),
            timed(TimingControl::Event(vec![EventExpr { edge: Edge::Posedge, expr: n() }])),
            Stmt::Blocking { lhs: target(), rhs: n() },
            Stmt::Nonblocking { lhs: target(), rhs: n() },
        ]),
    });
    let mut user = class("user");
    user.fields.push(held("C", vec![plain("item"), plain("7")]));
    let (classes, _) = monomorphize(&vec![template, user], &vec![]).expect("an end");
    let c = classes.iter().find(|c| c.name == "C__item__7").expect("the copy");
    assert!(seven(c.fields[0].init.as_ref().expect("a value")));
    assert_eq!(c.fields[1].class_name.as_deref(), Some("item"));
    assert_eq!(c.fields[1].key_class_name.as_deref(), Some("item"));
    assert_eq!(c.fields[1].type_scope.as_deref(), Some("item"));
    let collection = &c.collection_aliases[0];
    assert_eq!(collection.element.as_ref().map(|t| t.name.as_str()), Some("item"));
    assert_eq!(collection.key.as_ref().map(|t| t.name.as_str()), Some("item"));
    let f = &c.methods[0];
    assert!(seven(f.params[0].default.as_ref().expect("a value")));
    assert_eq!(f.params[0].key_class_name.as_deref(), Some("item"));
    let Stmt::Block(body) = &f.body else { panic!("expected a block, got {:?}", f.body) };
    assert!(matches!(&body[0], Stmt::Timed { control: TimingControl::Delay(e), .. } if seven(e)));
    assert!(matches!(&body[1], Stmt::Timed { control: TimingControl::Wait(e), .. } if seven(e)));
    assert!(matches!(
        &body[2],
        Stmt::Timed { control: TimingControl::Event(l), .. } if seven(&l[0].expr)
    ));
    for s in &body[3..] {
        let (Stmt::Blocking { lhs, rhs } | Stmt::Nonblocking { lhs, rhs }) = s else {
            panic!("expected an assignment, got {s:?}")
        };
        assert!(seven(rhs));
        assert!(seven(lhs.index.as_ref().expect("an index")));
        assert_eq!(lhs.scope.as_deref(), Some("item"));
        assert!(matches!(
            lhs.receiver.as_deref(),
            Some(Expr::Index { index, .. }) if seven(index)
        ));
    }
}

// ---- constants ----

fn literal(text: &str) -> Expr {
    Expr::Literal(sized(text))
}

fn folded(op: BinOp, a: &str, b: &str) -> LogicVec {
    let e = Expr::Binary { op, lhs: Box::new(literal(a)), rhs: Box::new(literal(b)) };
    eval_const_expr(&e).expect("a constant")
}

#[test]
fn logical_operators_keep_unknown_values() {
    assert_eq!(folded(BinOp::LogAnd, "1'b1", "1'bx").get_bit(0), Bit::X);
    assert_eq!(folded(BinOp::LogAnd, "1'b0", "1'bx").get_bit(0), Bit::Zero);
    assert_eq!(folded(BinOp::LogAnd, "2'bx0", "2'b1x").get_bit(0), Bit::X);
    assert_eq!(folded(BinOp::LogAnd, "2'b10", "2'b1x").get_bit(0), Bit::One);
    assert_eq!(folded(BinOp::LogOr, "1'b1", "1'bx").get_bit(0), Bit::One);
    assert_eq!(folded(BinOp::LogOr, "1'b0", "1'bx").get_bit(0), Bit::X);
    assert_eq!(folded(BinOp::LogOr, "1'b0", "2'b00").get_bit(0), Bit::Zero);
}

#[test]
fn constant_shifts_are_exact() {
    assert_eq!(folded(BinOp::Shl, "8'h81", "4'd1").to_u64(), 0x02);
    assert_eq!(folded(BinOp::Shr, "8'h81", "4'd7").to_u64(), 1);
    for amount in ["4'd8", "40'h100000000", "80'h10000000000000000000"] {
        let left = folded(BinOp::Shl, "8'hff", amount);
        let right = folded(BinOp::Shr, "8'hff", amount);
        assert!(!left.has_unknown() && left.to_u64() == 0 && left.width() == 8, "{amount}");
        assert!(!right.has_unknown() && right.to_u64() == 0 && right.width() == 8, "{amount}");
    }
    for op in [BinOp::Shl, BinOp::Shr] {
        let r = folded(op, "4'b1010", "2'b0x");
        assert!((0..4).all(|i| r.get_bit(i) == Bit::X));
    }
}
