use skyscraper::xpath::grammar::data_model::{AnyAtomicType, XpathItem};
use skyscraper::xpath::{Xpath, XpathItemTree};
use xpath_match::documents::DocumentSet;
use xpath_match::evaluate::{request, settle, CallLog, CompiledQuery, ParsedDocument};
use xpath_match::input::{DocumentRecord, Target};
use xpath_match::outcome::{NoMatchReason, Outcome};
use xpath_match::selection::{Item, Selection};

fn compile(expression: &str) -> CompiledQuery {
    CompiledQuery::compile(expression, &mut CallLog::new()).expect("the expression is admitted")
}

fn select(query: &Xpath, tree: &XpathItemTree) -> Selection {
    match query.apply(tree) {
        Err(_) => Selection::Failed,
        Ok(items) => Selection::Items(
            items
                .iter()
                .map(|item| match item {
                    XpathItem::Node(node) => Item::Node(node.text_content(tree)),
                    XpathItem::AnyAtomicType(AnyAtomicType::String(text)) => {
                        Item::Text(text.clone())
                    }
                    _ => Item::Other,
                })
                .collect(),
        ),
    }
}

fn parse(markup: &str) -> ParsedDocument {
    ParsedDocument::parse(markup, &mut CallLog::new())
}

fn evaluate(query: &CompiledQuery, document: &ParsedDocument, target: Option<&String>) -> Outcome {
    let selected = request(query, document, target).map(|(query, tree)| select(query, tree));
    settle(query, document, target, selected.as_ref())
}

const PAGE: &str = "<html><body><p>X</p><p>Y</p><a id='link1' href='u'>Link <b>bold</b> tail</a></body></html>";

fn outcome(expression: &str, markup: &str, target: Option<&str>) -> Outcome {
    let query = compile(expression);
    let document = parse(markup);
    let target = target.map(|text| text.to_string());
    evaluate(&query, &document, target.as_ref())
}

#[test]
fn well_formed_expression_compiles() {
    let query = compile("//div[@class='yes']/parent::div/div[@class='duplicate']");
    assert!(query.is_valid());
    assert_eq!(query.error(), None);
    assert_eq!(
        query.expression(),
        "//div[@class='yes']/parent::div/div[@class='duplicate']"
    );
}

#[test]
fn malformed_expression_does_not_compile() {
    for expression in ["[[[", "", "//", "//p[", "//p)"] {
        let query = compile(expression);
        assert!(!query.is_valid(), "{:?} compiled", expression);
        assert_eq!(query.expression(), expression);
        let description = query.error().expect("a malformed expression has a description");
        assert!(!description.is_empty());
        assert_ne!(description, expression);
    }
}

#[test]
fn markup_parses_leniently() {
    for markup in [
        "<html><body><p>X</p></body></html>",
        "<div><span>unclosed</div>",
        "<js-searchapivalidator computed=\"false\" kind=\"init\" method=\"false\" shorthand=\"false\">/[.*?#%^$&!,<>:;'=@{}()|[\\\\]\\\\\\\\]/g</js-searchapivalidator>",
        "<js-Program sourceType=\"script\"><js-body><js-id>x</js-id><js-searchApiValidator computed=\"false\">/[.*?#%^$&amp;!&lt;&gt;,:;&#39;=@{}()|[\\\\]\\\\\\\\]/g</js-searchApiValidator></js-body></js-Program>",
        "plain text",
        "",
    ] {
        let document = parse(markup);
        assert!(document.is_valid(), "{:?} did not parse", markup);
        assert!(document.parsed().is_some());
        assert_eq!(document.error(), None);
    }
}

#[test]
fn first_node_in_document_order_decides() {
    assert_eq!(outcome("//p", PAGE, Some("X")), Outcome::Match);
    assert_eq!(
        outcome("//p", PAGE, Some("Y")),
        Outcome::NoMatch(NoMatchReason::Mismatch)
    );
    assert_eq!(outcome("//p[2]", PAGE, Some("Y")), Outcome::Match);
}

#[test]
fn node_value_is_its_concatenated_text() {
    assert_eq!(outcome("//a[@id='link1']", PAGE, Some("Link bold tail")), Outcome::Match);
    assert_eq!(
        outcome("//a[@id='link1']", PAGE, Some("Link ")),
        Outcome::NoMatch(NoMatchReason::Mismatch)
    );
    assert_eq!(outcome("/html/body/p/text()", PAGE, Some("X")), Outcome::Match);
}

#[test]
fn no_selected_node_gives_the_empty_string() {
    assert_eq!(outcome("//div[@class='nonexistent']", PAGE, Some("")), Outcome::Match);
    assert_eq!(
        outcome("//div[@class='nonexistent']", PAGE, Some("X")),
        Outcome::NoMatch(NoMatchReason::Mismatch)
    );
}

#[test]
fn string_result_is_compared_directly() {
    assert_eq!(outcome("string(//a)", PAGE, Some("Link bold tail")), Outcome::Match);
    assert_eq!(outcome("concat('a', 'b')", PAGE, Some("ab")), Outcome::Match);
    assert_eq!(
        outcome("concat('a', 'b')", PAGE, Some("a")),
        Outcome::NoMatch(NoMatchReason::Mismatch)
    );
}

#[test]
fn boolean_and_numeric_results_never_match() {
    assert_eq!(
        outcome("count(//p)", PAGE, Some("2")),
        Outcome::NoMatch(NoMatchReason::NotAString)
    );
    assert_eq!(
        outcome("1 + 1", PAGE, Some("2")),
        Outcome::NoMatch(NoMatchReason::NotAString)
    );
    assert_eq!(
        outcome("true()", PAGE, Some("true")),
        Outcome::NoMatch(NoMatchReason::NotAString)
    );
    assert_eq!(
        outcome("true()", PAGE, Some("")),
        Outcome::NoMatch(NoMatchReason::NotAString)
    );
}

#[test]
fn missing_target_is_no_match_whatever_the_rest() {
    assert_eq!(
        outcome("//p", PAGE, None),
        Outcome::NoMatch(NoMatchReason::MissingTarget)
    );
    assert_eq!(
        outcome("[[[", PAGE, None),
        Outcome::NoMatch(NoMatchReason::MissingTarget)
    );
    assert_eq!(
        outcome("//nothing", PAGE, None),
        Outcome::NoMatch(NoMatchReason::MissingTarget)
    );
}

#[test]
fn malformed_expression_is_no_match() {
    assert_eq!(
        outcome("[[[", PAGE, Some("")),
        Outcome::NoMatch(NoMatchReason::CompileFailure)
    );
    assert_eq!(
        outcome("[[[", PAGE, Some("X")),
        Outcome::NoMatch(NoMatchReason::CompileFailure)
    );
}

#[test]
fn evaluation_error_is_no_match() {
    assert_eq!(
        outcome("undefined-function()", PAGE, Some("")),
        Outcome::NoMatch(NoMatchReason::EvaluationFailure)
    );
    assert_eq!(
        outcome("$unbound", PAGE, Some("")),
        Outcome::NoMatch(NoMatchReason::EvaluationFailure)
    );
}

#[test]
fn character_references_are_decoded() {
    let markup = "<html><body><div>a &amp; b &#39;c&#39; &eacute; &#x41;</div></body></html>";
    assert_eq!(outcome("//div", markup, Some("a & b 'c' \u{e9} A")), Outcome::Match);
}

#[test]
fn unclosed_and_custom_elements_are_tolerated() {
    let markup = "<html><body><js-drivencollect>NOT_AVAILABLE</js-drivencollect><div><span>open</div></body></html>";
    assert_eq!(
        outcome("//js-drivencollect/text()", markup, Some("NOT_AVAILABLE")),
        Outcome::Match
    );
    assert_eq!(outcome("//span", markup, Some("open")), Outcome::Match);
}

#[test]
fn recompiling_gives_the_same_behaviour() {
    let first = compile("//p");
    let second = compile("//p");
    assert_eq!(first.is_valid(), second.is_valid());
    let document = parse(PAGE);
    for target in ["X", "Y", ""] {
        let target = target.to_string();
        assert_eq!(
            evaluate(&first, &document, Some(&target)),
            evaluate(&second, &document, Some(&target))
        );
    }
    assert_eq!(evaluate(&first, &document, None), evaluate(&second, &document, None));
}

#[test]
fn unit_looks_up_the_target_of_its_heading() {
    let record = DocumentRecord {
        url: "http://site1.com".to_string(),
        content: PAGE.to_string(),
        targets: vec![
            Target { heading: "First".to_string(), expected: "X".to_string() },
            Target { heading: "Second".to_string(), expected: "Y".to_string() },
        ],
    };
    let set = DocumentSet::prepare(vec![record]);
    let query = compile("//p");
    let outcome = |heading: &str| {
        let heading = heading.to_string();
        let selected = set.request(&query, &heading, 0).map(|(query, tree)| select(query, tree));
        set.settle(&query, &heading, 0, selected.as_ref())
    };
    assert_eq!(outcome("First"), Some(Outcome::Match));
    assert_eq!(outcome("Second"), Some(Outcome::NoMatch(NoMatchReason::Mismatch)));
    assert_eq!(outcome("Third"), Some(Outcome::NoMatch(NoMatchReason::MissingTarget)));
}

#[test]
fn nothing_is_applied_without_a_target() {
    let query = compile("//p");
    let document = parse(PAGE);
    assert!(request(&query, &document, None).is_none());
    assert!(request(&query, &document, Some(&"X".to_string())).is_some());
    let matching = Selection::Items(vec![Item::Node("X".to_string())]);
    assert_eq!(
        settle(&query, &document, None, Some(&matching)),
        Outcome::NoMatch(NoMatchReason::MissingTarget)
    );
    assert_eq!(settle(&query, &document, Some(&"X".to_string()), Some(&matching)), Outcome::Match);
}

#[test]
fn nothing_is_applied_for_a_malformed_expression() {
    let query = compile("[[[");
    let document = parse(PAGE);
    let target = String::new();
    assert!(query.query().is_none());
    assert!(request(&query, &document, Some(&target)).is_none());
    let matching = Selection::Items(Vec::new());
    assert_eq!(
        settle(&query, &document, Some(&target), Some(&matching)),
        Outcome::NoMatch(NoMatchReason::CompileFailure)
    );
}

#[test]
fn failed_unit_is_no_match() {
    let query = compile("//p");
    let document = parse(PAGE);
    assert_eq!(
        settle(&query, &document, Some(&"X".to_string()), None),
        Outcome::NoMatch(NoMatchReason::Fault)
    );
}

#[test]
fn every_parse_is_logged() {
    let mut log = CallLog::new();
    assert_eq!(log.len(), 0);
    ParsedDocument::parse(PAGE, &mut log);
    assert_eq!(log.len(), 1);
    ParsedDocument::parse(PAGE, &mut log);
    ParsedDocument::parse("", &mut log);
    assert_eq!(log.len(), 3);
}

#[test]
fn every_compilation_is_logged() {
    let mut log = CallLog::new();
    assert!(CompiledQuery::compile("//p", &mut log).is_some());
    assert!(CompiledQuery::compile("[[[", &mut log).is_some());
    assert_eq!(log.len(), 2);
    let deep = format!("{}1{}", "(".repeat(9), ")".repeat(9));
    assert!(CompiledQuery::compile(&deep, &mut log).is_none());
    assert_eq!(log.len(), 2);
}
