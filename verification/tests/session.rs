use rizon_lsp::diagnostic::{DiagnosticRecord, LocatedError, Severity};
use rizon_lsp::pipeline::{ParseOutcome, Report, Stage};
use rizon_lsp::position::{ByteSpan, LinePosition, PositionRange};
use rizon_lsp::session::{Publication, Reparse, Session};

const URI: &str = "file:///work/main.rz";

fn uri() -> String {
    URI.to_string()
}

fn error(message: &str, start: usize, end: usize) -> LocatedError {
    LocatedError { message: message.to_string(), span: Some(ByteSpan { start, end }) }
}

fn record(start: (usize, usize), end: (usize, usize), message: &str) -> DiagnosticRecord {
    DiagnosticRecord {
        range: PositionRange {
            start: LinePosition { line: start.0, character: start.1 },
            end: LinePosition { line: end.0, character: end.1 },
        },
        severity: Severity::Error,
        message: message.to_string(),
    }
}

/// Drives one reparse to its end with what the two phases report.
fn run(lexer: Report, parser: Report) -> ParseOutcome {
    let stage = Stage::start().advance(lexer).advance(parser);
    match stage.into_outcome() {
        Some(outcome) => outcome,
        None => unreachable!(),
    }
}

#[test]
fn new_session_knows_no_document() {
    let session = Session::new();
    assert_eq!(session.text_of(&uri()), None);
    assert_eq!(session.shown_for(&uri()), None);
    assert!(!session.is_current(&uri(), &String::new()));
}

#[test]
fn open_records_the_text_and_orders_a_reparse() {
    let mut session = Session::new();
    let order = session.did_open(uri(), "let x = 1;".to_string());
    assert_eq!(order, Reparse { uri: uri(), text: "let x = 1;".to_string() });
    assert_eq!(session.text_of(&uri()), Some(&"let x = 1;".to_string()));
    assert_eq!(session.shown_for(&uri()), Some(&vec![]));
    assert!(session.is_current(&uri(), &"let x = 1;".to_string()));
}

#[test]
fn parser_error_is_published_at_its_position() {
    let mut session = Session::new();
    let order = session.did_open(uri(), "let x = ;".to_string());
    let outcome = run(Report::Passed, Report::Failed(vec![error("expected expression", 8, 9)]));
    assert!(outcome.is_located_in(&order.text));
    let publication = session.finish(order, &outcome);
    let expected = vec![record((0, 8), (0, 9), "expected expression")];
    assert_eq!(publication, Some(Publication { uri: uri(), diagnostics: expected.clone() }));
    assert_eq!(session.shown_for(&uri()), Some(&expected));
}

#[test]
fn unterminated_string_is_published_and_later_cleared() {
    let mut session = Session::new();
    let order = session.did_open(uri(), "x = 1".to_string());
    let publication = session.finish(order, &run(Report::Passed, Report::Passed));
    assert_eq!(publication, Some(Publication { uri: uri(), diagnostics: vec![] }));

    let broken = "x = \"abc\ny".to_string();
    let order = session.did_change(uri(), vec![broken.clone()]);
    let order = order.expect("a change was given");
    let outcome =
        run(Report::Failed(vec![error("unterminated string", 4, broken.len())]), Report::Passed);
    let publication = session.finish(order, &outcome);
    let expected = vec![record((0, 4), (1, 1), "unterminated string")];
    assert_eq!(publication, Some(Publication { uri: uri(), diagnostics: expected.clone() }));
    assert_eq!(session.shown_for(&uri()), Some(&expected));

    let order = session.did_change(uri(), vec!["x = \"abc\"\ny".to_string()]);
    let order = order.expect("a change was given");
    let publication = session.finish(order, &run(Report::Passed, Report::Passed));
    assert_eq!(publication, Some(Publication { uri: uri(), diagnostics: vec![] }));
    assert_eq!(session.shown_for(&uri()), Some(&vec![]));
}

#[test]
fn empty_set_is_published_not_skipped() {
    let mut session = Session::new();
    let order = session.did_open(uri(), "let = 1;".to_string());
    let outcome = ParseOutcome::ParseFailure(vec![error("expected identifier", 4, 5)]);
    let first = session.finish(order, &outcome);
    assert_eq!(first.map(|p| p.diagnostics.len()), Some(1));

    let order = session.did_change(uri(), vec!["let a = 1;".to_string()]).expect("a change");
    let second = session.finish(order, &ParseOutcome::Success);
    assert!(second.is_some());
    assert_eq!(second, Some(Publication { uri: uri(), diagnostics: vec![] }));
    assert_eq!(session.shown_for(&uri()), Some(&vec![]));
}

#[test]
fn empty_document_and_valid_document_both_publish_an_empty_set() {
    let mut session = Session::new();
    let order = session.did_open(uri(), String::new());
    let publication = session.finish(order, &ParseOutcome::Success);
    assert_eq!(publication, Some(Publication { uri: uri(), diagnostics: vec![] }));
}

#[test]
fn later_change_overtakes_a_reparse_in_flight() {
    let mut session = Session::new();
    let opened = session.did_open(uri(), "let x = 1;".to_string());
    session.finish(opened, &ParseOutcome::Success);

    let first = session.did_change(uri(), vec!["let x = ;".to_string()]).expect("a change");
    let second = session.did_change(uri(), vec!["let x = 2;".to_string()]).expect("a change");

    // The reparse of the first change ends only now.
    let stale = ParseOutcome::ParseFailure(vec![error("expected expression", 8, 9)]);
    assert_eq!(session.finish(first, &stale), None);
    assert_eq!(session.shown_for(&uri()), Some(&vec![]));
    assert_eq!(session.text_of(&uri()), Some(&"let x = 2;".to_string()));

    let publication = session.finish(second, &ParseOutcome::Success);
    assert_eq!(publication, Some(Publication { uri: uri(), diagnostics: vec![] }));
    assert_eq!(session.shown_for(&uri()), Some(&vec![]));
}

#[test]
fn overtaken_reparse_that_ends_last_changes_nothing() {
    let mut session = Session::new();
    let first = session.did_open(uri(), "let x = 1;".to_string());
    let second = session.did_change(uri(), vec!["let x = ;".to_string()]).expect("a change");

    let fresh = ParseOutcome::ParseFailure(vec![error("expected expression", 8, 9)]);
    let expected = vec![record((0, 8), (0, 9), "expected expression")];
    let publication = session.finish(second, &fresh);
    assert_eq!(publication, Some(Publication { uri: uri(), diagnostics: expected.clone() }));

    assert_eq!(session.finish(first, &ParseOutcome::Success), None);
    assert_eq!(session.shown_for(&uri()), Some(&expected));
    assert_eq!(session.text_of(&uri()), Some(&"let x = ;".to_string()));
}

#[test]
fn change_takes_only_the_last_payload() {
    let mut session = Session::new();
    session.did_open(uri(), "old".to_string());
    let changes = vec!["first".to_string(), "second".to_string(), "third".to_string()];
    let order = session.did_change(uri(), changes);
    assert_eq!(order, Some(Reparse { uri: uri(), text: "third".to_string() }));
    assert_eq!(session.text_of(&uri()), Some(&"third".to_string()));
    assert!(!session.is_current(&uri(), &"first".to_string()));
    assert!(!session.is_current(&uri(), &"old".to_string()));
}

#[test]
fn change_without_payload_does_nothing() {
    let mut session = Session::new();
    let order = session.did_open(uri(), "let = 1;".to_string());
    let outcome = ParseOutcome::ParseFailure(vec![error("expected identifier", 4, 5)]);
    session.finish(order, &outcome);
    let shown = vec![record((0, 4), (0, 5), "expected identifier")];

    assert_eq!(session.did_change(uri(), vec![]), None);
    assert_eq!(session.text_of(&uri()), Some(&"let = 1;".to_string()));
    assert_eq!(session.shown_for(&uri()), Some(&shown));

    let mut fresh = Session::new();
    assert_eq!(fresh.did_change(uri(), vec![]), None);
    assert_eq!(fresh.text_of(&uri()), None);
}

#[test]
fn change_of_an_unknown_document_records_it() {
    let mut session = Session::new();
    let order = session.did_change(uri(), vec!["x".to_string()]);
    assert_eq!(order, Some(Reparse { uri: uri(), text: "x".to_string() }));
    assert_eq!(session.text_of(&uri()), Some(&"x".to_string()));
    assert_eq!(session.shown_for(&uri()), Some(&vec![]));
}

#[test]
fn notification_keeps_what_is_shown_until_the_next_publication() {
    let mut session = Session::new();
    let order = session.did_open(uri(), "let = 1;".to_string());
    let outcome = ParseOutcome::ParseFailure(vec![error("expected identifier", 4, 5)]);
    session.finish(order, &outcome);
    let shown = vec![record((0, 4), (0, 5), "expected identifier")];

    let order = session.did_change(uri(), vec!["let a = 1;".to_string()]).expect("a change");
    assert_eq!(session.shown_for(&uri()), Some(&shown));
    session.finish(order, &ParseOutcome::Success);
    assert_eq!(session.shown_for(&uri()), Some(&vec![]));
}

#[test]
fn reopening_replaces_the_text() {
    let mut session = Session::new();
    let first = session.did_open(uri(), "one".to_string());
    let second = session.did_open(uri(), "two".to_string());
    assert_eq!(session.text_of(&uri()), Some(&"two".to_string()));
    assert_eq!(session.finish(first, &ParseOutcome::Success), None);
    assert!(session.finish(second, &ParseOutcome::Success).is_some());
}

#[test]
fn same_text_twice_publishes_twice() {
    let mut session = Session::new();
    let first = session.did_open(uri(), "let x = ;".to_string());
    let second = session.did_change(uri(), vec!["let x = ;".to_string()]).expect("a change");
    let outcome = ParseOutcome::ParseFailure(vec![error("expected expression", 8, 9)]);
    let expected = Publication {
        uri: uri(),
        diagnostics: vec![record((0, 8), (0, 9), "expected expression")],
    };
    assert_eq!(session.finish(first, &outcome), Some(expected.clone()));
    assert_eq!(session.finish(second, &outcome), Some(expected));
}

#[test]
fn documents_do_not_touch_each_other() {
    let a = "file:///a.rz".to_string();
    let b = "file:///b.rz".to_string();
    let mut session = Session::new();
    let order_a = session.did_open(a.clone(), "a = ;".to_string());
    let order_b = session.did_open(b.clone(), "b = 1;".to_string());

    let failed = ParseOutcome::ParseFailure(vec![error("expected expression", 4, 5)]);
    let published_a = session.finish(order_a, &failed);
    assert_eq!(published_a.map(|p| p.uri), Some(a.clone()));
    assert_eq!(session.shown_for(&b), Some(&vec![]));

    let published_b = session.finish(order_b, &ParseOutcome::Success);
    assert_eq!(published_b, Some(Publication { uri: b.clone(), diagnostics: vec![] }));
    assert_eq!(
        session.shown_for(&a),
        Some(&vec![record((0, 4), (0, 5), "expected expression")])
    );
    assert_eq!(session.text_of(&a), Some(&"a = ;".to_string()));
    assert_eq!(session.text_of(&b), Some(&"b = 1;".to_string()));

    session.did_change(b.clone(), vec!["b = 2;".to_string()]);
    assert_eq!(session.text_of(&a), Some(&"a = ;".to_string()));
    assert!(session.is_current(&a, &"a = ;".to_string()));
}

#[test]
fn order_for_an_unknown_document_publishes_nothing() {
    let mut session = Session::new();
    session.did_open(uri(), "x".to_string());
    let stray = Reparse { uri: "file:///elsewhere.rz".to_string(), text: "x".to_string() };
    assert_eq!(session.finish(stray, &ParseOutcome::Success), None);
    assert_eq!(session.text_of(&"file:///elsewhere.rz".to_string()), None);
}

#[test]
fn lexer_errors_are_published_in_the_order_reported() {
    let text = "1a\n2b\n3c".to_string();
    let mut session = Session::new();
    let order = session.did_open(uri(), text);
    let errors = vec![error("third", 6, 8), error("first", 0, 2), error("second", 3, 5)];
    let outcome = run(Report::Failed(errors), Report::Failed(vec![error("never seen", 0, 1)]));
    let publication = session.finish(order, &outcome).expect("the text is the latest");
    assert_eq!(
        publication.diagnostics,
        vec![
            record((2, 0), (2, 2), "third"),
            record((0, 0), (0, 2), "first"),
            record((1, 0), (1, 2), "second"),
        ]
    );
}
