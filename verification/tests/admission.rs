use xpath_match::admission::{is_admitted, MAX_DEPTH, MAX_LENGTH};
use xpath_match::evaluate::{CallLog, CompiledQuery};

fn compile(expression: &str) -> CompiledQuery {
    CompiledQuery::compile(expression, &mut CallLog::new()).expect("the expression is admitted")
}

fn nested(open: &str, close: &str, depth: usize) -> String {
    format!("{}1{}", open.repeat(depth), close.repeat(depth))
}

#[test]
fn ordinary_expressions_are_admitted() {
    for expression in [
        "",
        "/html/body/p",
        "//a[@id='link1']",
        "//div[@class='yes']/parent::div/div[@class='duplicate']",
        "//*[contains(concat(' ', normalize-space(@class), ' '), ' x ')]",
        "//a[1]/b[2]/c[3]/d[4]/e[5]/f[6]/g[7]/h[8]/i[9]/j[10]/k[11]",
        "[[[",
    ] {
        assert!(is_admitted(expression), "{:?} was refused", expression);
    }
}

#[test]
fn nesting_is_admitted_up_to_the_bound() {
    assert_eq!(MAX_DEPTH, 8);
    for (open, close) in [("(", ")"), ("a[", "]"), ("if(", ")"), ("map{1:", "}")] {
        assert!(is_admitted(&nested(open, close, 8)));
        assert!(!is_admitted(&nested(open, close, 9)));
    }
    assert!(is_admitted("((([[[{{1}}]]])))"));
    assert!(!is_admitted("((([[[{{{1}}}]]])))"));
}

#[test]
fn closed_brackets_do_not_add_to_the_depth() {
    assert!(is_admitted("(1)(2)(3)(4)(5)(6)(7)(8)(9)(10)(11)"));
    assert!(is_admitted("((((((((1))))))))((((((((2))))))))"));
}

#[test]
fn brackets_inside_string_literals_do_not_count() {
    assert!(is_admitted("contains(., '((((((((((')"));
    assert!(is_admitted("contains(., \"[[[[[[[[[[\")"));
    assert!(is_admitted("f('))))))', ((((((1)))))))"));
    assert!(!is_admitted("f('))))))', ((((((((1)))))))))"));
    assert!(is_admitted("f('a''b((((((((((', 1)"));
}

#[test]
fn comment_and_uri_openers_inside_string_literals_change_nothing() {
    assert!(is_admitted("//p[.='(:']"));
    assert!(is_admitted("//p[.='(:'][(1)][(2)][(3)][(4)][(5)][(6)][(7)][(8)][(9)]"));
    assert!(is_admitted("//p[.=\"Q{\"][(1)][(2)][(3)][(4)][(5)][(6)][(7)][(8)][(9)]"));
}

#[test]
fn after_a_comment_opener_every_opening_bracket_counts() {
    assert!(is_admitted("(: note :) //p[1]"));
    assert!(is_admitted("(: don't :) //a[1]/b[2]/c[3]"));
    assert!(is_admitted("(: note :) (1)(2)(3)(4)(5)(6)(7)"));
    assert!(!is_admitted("(: note :) (1)(2)(3)(4)(5)(6)(7)(8)"));
    assert!(is_admitted("(1)(2)(3)(4)(5)(6)(7)(8)(9) (: note :)"));
    assert!(is_admitted("Q{http://www.w3.org/2005/xpath-functions}abs(1)"));
    assert!(!is_admitted("Q{u}a(1)+Q{u}a(2)+Q{u}a(3)+Q{u}a(4)+Q{u}a(5)+Q{u}a(6)"));
}

#[test]
fn length_is_admitted_up_to_the_bound() {
    assert_eq!(MAX_LENGTH, 2048);
    assert!(is_admitted(&"a".repeat(2048)));
    assert!(!is_admitted(&"a".repeat(2049)));
    assert!(is_admitted(&"\u{e9}".repeat(1024)));
    assert!(!is_admitted(&format!("a{}", "\u{e9}".repeat(1024))));
}

#[test]
fn expression_that_is_not_admitted_is_not_compiled() {
    assert!(CompiledQuery::compile(&nested("(", ")", 9), &mut CallLog::new()).is_none());
    assert!(CompiledQuery::compile(&format!("//p[{}1]", "1 or ".repeat(500)), &mut CallLog::new()).is_none());
}

#[test]
fn malformed_expression_is_admitted_and_does_not_compile() {
    let query = compile("[[[");
    assert!(!query.is_valid());
    assert!(query.error().is_some());
}

#[test]
fn every_kind_of_bracket_compiles_at_the_bound() {
    for (open, close) in [
        ("(", ")"),
        ("f(", ")"),
        ("not(", ")"),
        ("if(", ")"),
        ("a[", "]"),
        ("text()[", "]"),
        ("[", "]"),
        ("map{1:", "}"),
    ] {
        let text = nested(open, close, MAX_DEPTH);
        let query = compile(&text);
        assert!(query.is_valid(), "{:?} did not compile", text);
    }
}

#[test]
fn longest_nesting_of_keywords_compiles_inside_the_deepest_brackets() {
    let chain = format!("{}1{}", "if(1)then ".repeat(115), " else 2".repeat(115));
    let text = format!("{}{}{}", "(".repeat(7), chain, ")".repeat(7));
    assert!(text.len() <= MAX_LENGTH);
    let query = compile(&text);
    assert!(query.is_valid());

    let chain = format!("{}1", "for $a in 1 return ".repeat(105));
    let text = format!("{}{}{}", "(".repeat(8), chain, ")".repeat(8));
    assert!(text.len() <= MAX_LENGTH);
    assert!(compile(&text).is_valid());
}
