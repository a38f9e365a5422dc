use eevee::strength::contains_strength_keyword;

#[test]
fn strength_keyword_scan_ignores_non_syntax_text() {
    assert!(contains_strength_keyword(
        "assign (strong1, pull0) result = source;"
    ));
    assert!(!contains_strength_keyword(
        "$display(\"strong1 is too large\"); // pull0\n/* weak1 */"
    ));
    assert!(!contains_strength_keyword("logic UVM_STRONG1; \\highz0 ;"));
}
