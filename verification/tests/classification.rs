use skyscraper::xpath::grammar::data_model::{AnyAtomicType, XpathItem};
use skyscraper::xpath::{Xpath, XpathItemTree};
use xpath_match::input::{DocumentRecord, HeadingGroup, InputError, Target};
use xpath_match::results::Results;
use xpath_match::selection::{Item, Selection};

fn select(query: &Xpath, tree: &XpathItemTree) -> Selection {
    match query.apply(tree) {
        Err(_) => Selection::Failed,
        Ok(items) => Selection::Items(
            items
                .iter()
                .map(|item| match item {
                    XpathItem::Node(node) => Item::Node(node.text_content(tree)),
                    XpathItem::AnyAtomicType(AnyAtomicType::String(text)) => {
                        Item::Text(text.clone())
                    }
                    _ => Item::Other,
                })
                .collect(),
        ),
    }
}

fn process_input(
    headings: Vec<HeadingGroup>,
    documents: Vec<DocumentRecord>,
) -> Result<Results, InputError> {
    xpath_match::batch::process_input(headings, documents, select).map(|report| report.results)
}

fn heading(name: &str, expressions: &[&str]) -> HeadingGroup {
    HeadingGroup {
        name: name.to_string(),
        expressions: expressions.iter().map(|text| text.to_string()).collect(),
    }
}

fn document(url: &str, content: &str, targets: &[(&str, &str)]) -> DocumentRecord {
    DocumentRecord {
        url: url.to_string(),
        content: content.to_string(),
        targets: targets
            .iter()
            .map(|(heading, expected)| Target {
                heading: heading.to_string(),
                expected: expected.to_string(),
            })
            .collect(),
    }
}

fn lists(results: &Results, expression: &str) -> (Vec<String>, Vec<String>) {
    let entry = results
        .get(&expression.to_string())
        .unwrap_or_else(|| panic!("no entry for {}", expression));
    (entry.successful.clone(), entry.unsuccessful.clone())
}

#[test]
fn matching_and_non_matching_documents_are_separated() {
    let headings = vec![heading("H", &["/html/body/p"])];
    let documents = vec![
        document("A", "<html><body><p>X</p></body></html>", &[("H", "X")]),
        document("B", "<html><body><p>Z</p></body></html>", &[("H", "Y")]),
    ];
    let results = process_input(headings, documents).unwrap();
    assert_eq!(results.len(), 1);
    let (successful, unsuccessful) = lists(&results, "/html/body/p");
    assert_eq!(successful, vec!["A".to_string()]);
    assert_eq!(unsuccessful, vec!["B".to_string()]);
}

#[test]
fn malformed_expression_matches_no_document() {
    let headings = vec![heading("H", &["[[["])];
    let documents = vec![
        document("A", "<html><body><p>X</p></body></html>", &[("H", "X")]),
        document("B", "<html><body><p>Z</p></body></html>", &[("H", "")]),
    ];
    let results = process_input(headings, documents).unwrap();
    let (successful, unsuccessful) = lists(&results, "[[[");
    assert_eq!(successful, Vec::<String>::new());
    assert_eq!(unsuccessful, vec!["A".to_string(), "B".to_string()]);
}

#[test]
fn document_without_target_never_matches() {
    let headings = vec![heading("H", &["/html/body/p", "//p", "//missing"])];
    let documents = vec![
        document("A", "<html><body><p>X</p></body></html>", &[("H", "X")]),
        document("C", "<html><body><p>X</p></body></html>", &[("Other", "X")]),
    ];
    let results = process_input(headings, documents).unwrap();
    for expression in ["/html/body/p", "//p", "//missing"] {
        let (successful, unsuccessful) = lists(&results, expression);
        assert!(!successful.contains(&"C".to_string()));
        assert!(unsuccessful.contains(&"C".to_string()));
    }
    let (successful, _) = lists(&results, "//p");
    assert_eq!(successful, vec!["A".to_string()]);
}

#[test]
fn empty_selection_matches_empty_target() {
    let headings = vec![heading("H", &["//div[@class='nonexistent']"])];
    let documents = vec![
        document("A", "<html><body><p>X</p></body></html>", &[("H", "")]),
        document("B", "<html><body><p>X</p></body></html>", &[("H", "X")]),
    ];
    let results = process_input(headings, documents).unwrap();
    let (successful, unsuccessful) = lists(&results, "//div[@class='nonexistent']");
    assert_eq!(successful, vec!["A".to_string()]);
    assert_eq!(unsuccessful, vec!["B".to_string()]);
}

#[test]
fn first_registered_heading_decides_a_shared_expression() {
    for _ in 0..3 {
        let headings = vec![heading("H1", &["//p"]), heading("H2", &["//p"])];
        let documents = vec![document(
            "D",
            "<html><body><p>one</p></body></html>",
            &[("H1", "one"), ("H2", "two")],
        )];
        let results = process_input(headings, documents).unwrap();
        assert_eq!(results.len(), 1);
        let (successful, unsuccessful) = lists(&results, "//p");
        assert_eq!(successful, vec!["D".to_string()]);
        assert_eq!(unsuccessful, Vec::<String>::new());

        let headings = vec![heading("H2", &["//p"]), heading("H1", &["//p"])];
        let documents = vec![document(
            "D",
            "<html><body><p>one</p></body></html>",
            &[("H1", "one"), ("H2", "two")],
        )];
        let results = process_input(headings, documents).unwrap();
        let (successful, unsuccessful) = lists(&results, "//p");
        assert_eq!(successful, Vec::<String>::new());
        assert_eq!(unsuccessful, vec!["D".to_string()]);
    }
}
