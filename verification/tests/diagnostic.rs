use rizon_lsp::diagnostic::{
    are_located_in, to_diagnostic, to_diagnostics, DiagnosticRecord, LocatedError, Severity,
};
use rizon_lsp::position::{ByteSpan, LinePosition, PositionRange};

fn error(message: &str, span: Option<(usize, usize)>) -> LocatedError {
    LocatedError {
        message: message.to_string(),
        span: span.map(|(start, end)| ByteSpan { start, end }),
    }
}

fn range(start: (usize, usize), end: (usize, usize)) -> PositionRange {
    PositionRange {
        start: LinePosition { line: start.0, character: start.1 },
        end: LinePosition { line: end.0, character: end.1 },
    }
}

#[test]
fn diagnostic_covers_the_span_of_the_error() {
    let record = to_diagnostic(&error("expected expression", Some((8, 9))), "let x = ;");
    assert_eq!(
        record,
        DiagnosticRecord {
            range: range((0, 8), (0, 9)),
            severity: Severity::Error,
            message: "expected expression".to_string(),
        }
    );
}

#[test]
fn diagnostic_is_always_an_error() {
    let text = "a\nb\nc";
    for span in [None, Some((0, 0)), Some((1, 4)), Some((5, 5))] {
        assert_eq!(to_diagnostic(&error("m", span), text).severity, Severity::Error);
    }
}

#[test]
fn diagnostic_keeps_the_message_as_it_is() {
    let long = "x".repeat(10_000);
    let messages = ["", "  padded \t", "line one\nline two", "unexpected `»` — naïve", long.as_str()];
    for message in messages {
        let record = to_diagnostic(&error(message, Some((0, 1))), "ab");
        assert_eq!(record.message, message);
    }
}

#[test]
fn error_without_a_span_is_shown_at_the_start() {
    let record = to_diagnostic(&error("unexpected end of input", None), "fn main\n{");
    assert_eq!(record.range, range((0, 0), (0, 0)));
    assert_eq!(record.message, "unexpected end of input");
    let record = to_diagnostic(&error("nothing to parse", None), "");
    assert_eq!(record.range, range((0, 0), (0, 0)));
}

#[test]
fn diagnostic_spans_lines() {
    let text = "let s = \"abc\nlet t = 1;\n";
    let record = to_diagnostic(&error("unterminated string", Some((8, text.len()))), text);
    assert_eq!(record.range, range((0, 8), (2, 0)));
}

#[test]
fn error_is_located_in_a_text_that_holds_its_span() {
    assert!(error("m", Some((0, 3))).is_located_in("abc"));
    assert!(error("m", Some((3, 3))).is_located_in("abc"));
    assert!(!error("m", Some((0, 4))).is_located_in("abc"));
    assert!(!error("m", Some((2, 1))).is_located_in("abc"));
    assert!(error("m", None).is_located_in("abc"));
    assert!(error("m", None).is_located_in(""));
    assert!(!error("m", Some((0, 1))).is_located_in(""));
}

#[test]
fn location_is_measured_in_bytes() {
    // Two characters, five bytes.
    assert!(error("m", Some((0, 5))).is_located_in("é日"));
    assert!(!error("m", Some((0, 6))).is_located_in("é日"));
}

#[test]
fn list_is_located_only_if_every_error_is() {
    let text = "abc";
    assert!(are_located_in(&vec![], text));
    assert!(are_located_in(&vec![error("a", Some((0, 1))), error("b", None)], text));
    assert!(!are_located_in(&vec![error("a", Some((0, 1))), error("b", Some((2, 9)))], text));
    assert!(!are_located_in(&vec![error("a", Some((7, 8))), error("b", Some((0, 1)))], text));
}

#[test]
fn every_error_becomes_one_diagnostic_in_order() {
    let text = "a b\nc d\ne";
    let errors = vec![
        error("first", Some((2, 3))),
        error("second", None),
        error("third", Some((4, 9))),
        error("first", Some((2, 3))),
    ];
    let records = to_diagnostics(&errors, text);
    assert_eq!(records.len(), 4);
    for (record, error) in records.iter().zip(errors.iter()) {
        assert_eq!(*record, to_diagnostic(error, text));
    }
    assert_eq!(records[0].range, range((0, 2), (0, 3)));
    assert_eq!(records[1].range, range((0, 0), (0, 0)));
    assert_eq!(records[2].range, range((1, 0), (2, 1)));
    assert_eq!(records[3], records[0]);
}

#[test]
fn no_errors_give_no_diagnostics() {
    assert_eq!(to_diagnostics(&vec![], "anything"), vec![]);
}
