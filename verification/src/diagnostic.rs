//! Diagnostics, and how a located front-end error becomes one.

use crate::position::{range_at, range_of, ByteSpan, PositionRange, RangeView};
use vstd::prelude::*;
use vstd::string::StringSliceAdditionalSpecFns;

verus! {

/// How grave a diagnostic is. Failures of the front end are always `Error`.
#[derive(Clone, Copy, Debug, PartialEq, Eq, Structural)]
pub enum Severity {
    Error,
    Warning,
    Information,
    Hint,
}

/// One failure that the lexer or the parser reported: what went wrong and, where
/// the front end knows it, the bytes that it concerns.
#[derive(Clone, Debug, PartialEq, Eq)]
pub struct LocatedError {
    pub message: String,
    pub span: Option<ByteSpan>,
}

/// Mathematical value of a `LocatedError`.
pub struct ErrorView {
    pub message: Seq<char>,
    pub span: Option<ByteSpan>,
}

impl View for LocatedError {
    type V = ErrorView;

    open spec fn view(&self) -> ErrorView {
        ErrorView { message: self.message@, span: self.span }
    }
}

impl ErrorView {
    /// The span that the error is shown at: its own, or the empty span at the
    /// start of the text where it has none.
    pub open spec fn shown_span(self) -> ByteSpan {
        match self.span {
            Some(span) => span,
            None => ByteSpan { start: 0, end: 0 },
        }
    }

    /// The error speaks of a place that exists in `text`.
    pub open spec fn located_in(self, text: Seq<u8>) -> bool {
        self.shown_span().within(text.len())
    }
}

/// What an editor shows for one failure.
#[derive(Clone, Debug, PartialEq, Eq)]
pub struct DiagnosticRecord {
    pub range: PositionRange,
    pub severity: Severity,
    pub message: String,
}

/// Mathematical value of a `DiagnosticRecord`.
pub struct DiagnosticView {
    pub range: RangeView,
    pub severity: Severity,
    pub message: Seq<char>,
}

impl View for DiagnosticRecord {
    type V = DiagnosticView;

    open spec fn view(&self) -> DiagnosticView {
        DiagnosticView { range: self.range@, severity: self.severity, message: self.message@ }
    }
}

/// The diagnostic that stands for `error` in `text`: an `Error` over the error's
/// span, with the error's own words.
pub open spec fn diagnostic_of(error: ErrorView, text: Seq<u8>) -> DiagnosticView {
    DiagnosticView {
        range: range_of(text, error.shown_span()),
        severity: Severity::Error,
        message: error.message,
    }
}

/// The values of a list of errors, in order.
pub open spec fn error_views(errors: Seq<LocatedError>) -> Seq<ErrorView> {
    Seq::new(errors.len(), |i: int| errors[i]@)
}

/// The values of a list of diagnostics, in order.
pub open spec fn record_views(records: Seq<DiagnosticRecord>) -> Seq<DiagnosticView> {
    Seq::new(records.len(), |i: int| records[i]@)
}

/// Every error of the list speaks of a place that exists in `text`.
pub open spec fn all_located_in(errors: Seq<ErrorView>, text: Seq<u8>) -> bool {
    forall|i: int| 0 <= i < errors.len() ==> (#[trigger] errors[i]).located_in(text)
}

/// The diagnostics that stand for a list of errors: one for each, in order.
pub open spec fn diagnostics_of_errors(errors: Seq<ErrorView>, text: Seq<u8>) -> Seq<
    DiagnosticView,
> {
    Seq::new(errors.len(), |i: int| diagnostic_of(errors[i], text))
}

impl LocatedError {
    /// Tells whether the error speaks of a place that exists in `text`. An error
    /// without a span always does.
    pub fn is_located_in(&self, text: &str) -> (ok: bool)
        ensures
            ok == self@.located_in(text.spec_bytes()),
    {
        match self.span {
            Some(span) => span.is_within(text.as_bytes().len()),
            None => true,
        }
    }
}

/// Turns one located error into the diagnostic that the editor gets for it.
///
/// The severity is always `Error`, the message is carried over unchanged, and an
/// error without a span is shown at the very start of the text.
pub fn to_diagnostic(error: &LocatedError, text: &str) -> (record: DiagnosticRecord)
    requires
        error@.located_in(text.spec_bytes()),
    ensures
        record@ == diagnostic_of(error@, text.spec_bytes()),
{
    let span = match error.span {
        Some(span) => span,
        None => ByteSpan::origin(),
    };
    DiagnosticRecord {
        range: range_at(text, span),
        severity: Severity::Error,
        message: error.message.clone(),
    }
}

/// Tells whether every error of the list speaks of a place that exists in `text`.
pub fn are_located_in(errors: &Vec<LocatedError>, text: &str) -> (ok: bool)
    ensures
        ok == all_located_in(error_views(errors@), text.spec_bytes()),
{
    let mut i: usize = 0;
    while i < errors.len()
        invariant
            i <= errors@.len(),
            forall|k: int|
                0 <= k < i ==> (#[trigger] error_views(errors@)[k]).located_in(text.spec_bytes()),
        decreases errors@.len() - i,
    {
        if !errors[i].is_located_in(text) {
            assert(!error_views(errors@)[i as int].located_in(text.spec_bytes()));
            return false;
        }
        i = i + 1;
    }
    true
}

/// Turns every error of a list into its diagnostic, keeping the order.
pub fn to_diagnostics(errors: &Vec<LocatedError>, text: &str) -> (records: Vec<DiagnosticRecord>)
    requires
        all_located_in(error_views(errors@), text.spec_bytes()),
    ensures
        record_views(records@) == diagnostics_of_errors(error_views(errors@), text.spec_bytes()),
{
    let mut records: Vec<DiagnosticRecord> = Vec::new();
    let mut i: usize = 0;
    while i < errors.len()
        invariant
            i <= errors@.len(),
            records@.len() == i,
            all_located_in(error_views(errors@), text.spec_bytes()),
            forall|k: int|
                0 <= k < i ==> (#[trigger] records@[k])@ == diagnostic_of(
                    errors@[k]@,
                    text.spec_bytes(),
                ),
        decreases errors@.len() - i,
    {
        assert(error_views(errors@)[i as int].located_in(text.spec_bytes()));
        let record = to_diagnostic(&errors[i], text);
        records.push(record);
        i = i + 1;
    }
    assert(record_views(records@) =~= diagnostics_of_errors(
        error_views(errors@),
        text.spec_bytes(),
    ));
    records
}

} // verus!
