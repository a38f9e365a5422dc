use eevee::preprocess::Preprocessor;

fn pp(src: &str) -> String {
    Preprocessor::new(vec![]).process(src, "<test>")
}

#[test]
fn object_like_macro() {
    let out = pp("`define W 8\nlogic [`W-1:0] x;");
    assert!(out.contains("logic [8-1:0] x;"), "{out}");
}

#[test]
fn function_like_macro() {
    let out = pp("`define ADD(a, b) ((a) + (b))\nint y = `ADD(3, 4);");
    assert!(out.contains("((3) + (4))"), "{out}");
}

#[test]
fn ifdef_else() {
    let out = pp("`ifdef FOO\nint a;\n`else\nint b;\n`endif");
    assert!(out.contains("int b;") && !out.contains("int a;"), "{out}");
    let out2 = pp("`define FOO\n`ifdef FOO\nint a;\n`else\nint b;\n`endif");
    assert!(
        out2.contains("int a;") && !out2.contains("int b;"),
        "{out2}"
    );
}

#[test]
fn nested_macro_expansion() {
    let out = pp("`define A 1\n`define B (`A + `A)\nint x = `B;");
    assert!(out.contains("(1 + 1)"), "{out}");
}

#[test]
fn elsif_chain_first_branch_wins() {
    let out = pp("`define A\n`ifdef A\nx\n`elsif A\ny\n`else\nz\n`endif");
    assert!(
        out.contains('x') && !out.contains('y') && !out.contains('z'),
        "{out}"
    );
}

#[test]
fn line_continuation_in_define() {
    let out = pp("`define M(a) do_a(a); \\\n do_b(a)\n`M(5)");
    assert!(out.contains("do_a(5);") && out.contains("do_b(5)"), "{out}");
}

#[test]
fn comments_stripped_respecting_strings() {
    let out = pp("string s = \"a // not a comment\"; // real comment");
    assert!(out.contains("\"a // not a comment\""), "{out}");
    assert!(!out.contains("real comment"), "{out}");
}
