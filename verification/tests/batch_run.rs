use std::sync::Arc;

use skyscraper::xpath::grammar::data_model::{AnyAtomicType, XpathItem};
use skyscraper::xpath::{Xpath, XpathItemTree};
use xpath_match::input::{DocumentRecord, HeadingGroup, InputError, Target};
use xpath_match::results::ResultEntry;
use xpath_match::run::{plan_of, BatchRun};
use xpath_match::selection::{Item, Selection};

fn select(query: &Xpath, tree: &XpathItemTree) -> Selection {
    match query.apply(tree) {
        Err(_) => Selection::Failed,
        Ok(items) => Selection::Items(
            items
                .iter()
                .map(|item| match item {
                    XpathItem::Node(node) => Item::Node(node.text_content(tree)),
                    XpathItem::AnyAtomicType(AnyAtomicType::String(text)) => {
                        Item::Text(text.clone())
                    }
                    _ => Item::Other,
                })
                .collect(),
        ),
    }
}

fn apply(run: &BatchRun, unit: usize) -> Option<Selection> {
    let job = run.job().expect("a job is in flight");
    job.request(run.documents(), unit).map(|(query, tree)| select(query, tree))
}

fn node(text: &str) -> Selection {
    Selection::Items(vec![Item::Node(text.to_string())])
}

fn heading(name: &str, expressions: &[&str]) -> HeadingGroup {
    HeadingGroup {
        name: name.to_string(),
        expressions: expressions.iter().map(|text| text.to_string()).collect(),
    }
}

fn document(url: &str, content: &str, targets: &[(&str, &str)]) -> DocumentRecord {
    DocumentRecord {
        url: url.to_string(),
        content: content.to_string(),
        targets: targets
            .iter()
            .map(|(heading, expected)| Target {
                heading: heading.to_string(),
                expected: expected.to_string(),
            })
            .collect(),
    }
}

fn entry(expression: &str, successful: &[&str], unsuccessful: &[&str]) -> ResultEntry {
    ResultEntry {
        expression: expression.to_string(),
        successful: successful.iter().map(|url| url.to_string()).collect(),
        unsuccessful: unsuccessful.iter().map(|url| url.to_string()).collect(),
    }
}

fn pages() -> Vec<DocumentRecord> {
    vec![
        document("A", "<html><body><p>X</p></body></html>", &[("H1", "X"), ("H2", "Z")]),
        document("B", "<html><body><p>Z</p></body></html>", &[("H1", "Y"), ("H2", "Z")]),
    ]
}

#[test]
fn plan_lists_every_registration_in_order() {
    let headings =
        vec![heading("H1", &["//p", "//a"]), heading("Empty", &[]), heading("H2", &["//p"])];
    let plan: Vec<(String, String)> = plan_of(&headings)
        .into_iter()
        .map(|registered| (registered.heading, registered.expression))
        .collect();
    assert_eq!(
        plan,
        vec![
            ("H1".to_string(), "//p".to_string()),
            ("H1".to_string(), "//a".to_string()),
            ("H2".to_string(), "//p".to_string()),
        ]
    );
    assert!(plan_of(&Vec::new()).is_empty());
}

#[test]
fn run_refuses_invalid_input() {
    let headings = vec![heading("H", &[]), heading("H", &[])];
    assert!(matches!(
        BatchRun::start(headings, Vec::new()),
        Err(InputError::DuplicateHeading(1))
    ));
}

#[test]
fn run_without_registrations_is_finished_at_once() {
    let mut run = BatchRun::start(vec![heading("H", &[])], pages()).unwrap();
    assert!(run.is_finished());
    assert!(!run.next_job());
    assert!(run.job().is_none());
    assert!(!run.finalize());
    assert_eq!(run.into_results().len(), 0);
}

#[test]
fn job_is_finalized_only_when_every_unit_is_accounted_for() {
    let mut run = BatchRun::start(vec![heading("H1", &["//p"])], pages()).unwrap();
    assert!(!run.is_finished());
    assert_eq!(run.pending(), 0);
    assert!(run.job().is_none());
    assert!(!run.report(0, Some(&node("X"))));

    assert!(run.next_job());
    let job = Arc::clone(run.job().unwrap());
    assert_eq!(job.heading, "H1");
    assert_eq!(job.query.expression(), "//p");
    assert_eq!(run.documents().len(), 2);
    assert_eq!(run.pending(), 2);
    assert!(!run.next_job());
    assert!(!run.is_finished());
    assert!(!run.finalize());

    let second = apply(&run, 1);
    assert_eq!(second, Some(node("Z")));
    assert!(run.report(1, second.as_ref()));
    assert!(!run.report(1, Some(&node("Y"))));
    assert!(!run.report(2, Some(&node("Y"))));
    assert_eq!(run.pending(), 1);
    assert!(!run.finalize());

    let first = apply(&run, 0);
    assert!(job.request(run.documents(), 2).is_none());
    assert!(run.report(0, first.as_ref()));
    assert_eq!(run.pending(), 0);
    assert!(run.finalize());
    assert!(!run.finalize());

    assert!(run.is_finished());
    assert!(!run.next_job());
    assert_eq!(run.into_results().into_entries(), vec![entry("//p", &["A"], &["B"])]);
}

#[test]
fn run_settles_the_outcome_from_what_is_reported() {
    let mut run = BatchRun::start(vec![heading("H1", &["//p"])], pages()).unwrap();
    assert!(run.next_job());
    assert!(run.report(0, Some(&node("not X"))));
    assert!(run.report(1, Some(&node("Y"))));
    assert!(run.finalize());
    assert_eq!(run.into_results().into_entries(), vec![entry("//p", &["B"], &["A"])]);
}

#[test]
fn no_report_makes_a_document_without_target_match() {
    let documents = vec![
        document("A", "<html><body><p>X</p></body></html>", &[("H1", "X")]),
        document("C", "<html><body><p>X</p></body></html>", &[("Other", "X")]),
    ];
    let mut run = BatchRun::start(vec![heading("H1", &["//p"])], documents).unwrap();
    assert!(run.next_job());
    assert!(apply(&run, 1).is_none());
    assert!(run.report(0, Some(&node("X"))));
    assert!(run.report(1, Some(&node("X"))));
    assert!(run.finalize());
    assert_eq!(run.into_results().into_entries(), vec![entry("//p", &["A"], &["C"])]);
}

#[test]
fn no_report_makes_a_malformed_expression_match() {
    let mut run = BatchRun::start(vec![heading("H1", &["[[["])], pages()).unwrap();
    assert!(run.next_job());
    assert!(run.job().unwrap().query.error().is_some());
    for unit in 0..2 {
        assert!(apply(&run, unit).is_none());
        assert!(run.report(unit, Some(&node("X"))));
    }
    assert!(run.finalize());
    assert_eq!(run.into_results().into_entries(), vec![entry("[[[", &[], &["A", "B"])]);
}

#[test]
fn faulted_unit_counts_as_unsuccessful() {
    let mut run = BatchRun::start(vec![heading("H1", &["//p"])], pages()).unwrap();
    assert!(run.next_job());
    assert!(run.fault(0));
    assert!(!run.report(0, Some(&node("X"))));
    assert!(run.report(1, Some(&node("Y"))));
    assert!(!run.fault(1));
    assert!(run.finalize());
    assert_eq!(run.into_results().into_entries(), vec![entry("//p", &["B"], &["A"])]);
}

#[test]
fn later_registration_of_an_expression_is_passed_over() {
    let headings = vec![heading("H1", &["//p", "//p"]), heading("H2", &["//p", "//a"])];
    let mut run = BatchRun::start(headings, pages()).unwrap();
    let mut jobs = Vec::new();
    while run.next_job() {
        let job = Arc::clone(run.job().unwrap());
        for unit in 0..run.documents().len() {
            let selected = apply(&run, unit);
            assert!(run.report(unit, selected.as_ref()));
        }
        assert!(run.finalize());
        jobs.push((job.heading.clone(), job.query.expression().clone()));
    }
    assert!(run.is_finished());
    assert_eq!(
        jobs,
        vec![("H1".to_string(), "//p".to_string()), ("H2".to_string(), "//a".to_string())]
    );
    assert_eq!(
        run.into_results().into_entries(),
        vec![entry("//p", &["A"], &["B"]), entry("//a", &[], &["A", "B"])]
    );
}

#[test]
fn reports_in_any_order_give_the_same_entry() {
    for order in [[0usize, 1], [1, 0]] {
        let mut run = BatchRun::start(vec![heading("H2", &["//p"])], pages()).unwrap();
        assert!(run.next_job());
        for unit in order {
            let selected = apply(&run, unit);
            assert!(run.report(unit, selected.as_ref()));
        }
        assert!(run.finalize());
        assert_eq!(run.into_results().into_entries(), vec![entry("//p", &["B"], &["A"])]);
    }
}

#[test]
fn documents_are_parsed_once_for_the_whole_run() {
    let headings = vec![heading("H1", &["//p", "//a", "//b"]), heading("H2", &["//i", "//p"])];
    let mut run = BatchRun::start(headings, pages()).unwrap();
    assert_eq!(run.documents().parse_count(), 2);
    while run.next_job() {
        for unit in 0..run.documents().len() {
            let selected = apply(&run, unit);
            assert!(run.report(unit, selected.as_ref()));
        }
        assert!(run.finalize());
        assert_eq!(run.documents().parse_count(), 2);
    }
    assert_eq!(run.compile_count(), 4);
    assert_eq!(run.into_results().len(), 4);
}
