//! One reparse of one text: which phase of the front end runs next, how the run
//! ends, and which diagnostics the editor gets for it.
//!
//! The front end itself is not part of this crate. A driver runs it and reports
//! back; `Stage` decides what the driver does next. Lexing comes first, parsing
//! follows only where lexing passed, and every run ends in a `ParseOutcome`.

use crate::diagnostic::{
    all_located_in, are_located_in, diagnostic_of, diagnostics_of_errors, error_views,
    record_views, to_diagnostics, DiagnosticRecord, DiagnosticView, ErrorView, LocatedError,
};
use vstd::prelude::*;
use vstd::string::StringSliceAdditionalSpecFns;

verus! {

/// How a reparse ended.
#[derive(Clone, Debug, PartialEq, Eq)]
pub enum ParseOutcome {
    /// The lexer rejected the text; the parser did not run.
    LexFailure(Vec<LocatedError>),
    /// The lexer accepted the text and the parser rejected its tokens.
    ParseFailure(Vec<LocatedError>),
    /// Both phases accepted the text.
    Success,
}

/// Mathematical value of a `ParseOutcome`.
pub enum OutcomeView {
    LexFailure(Seq<ErrorView>),
    ParseFailure(Seq<ErrorView>),
    Success,
}

impl View for ParseOutcome {
    type V = OutcomeView;

    open spec fn view(&self) -> OutcomeView {
        match self {
            ParseOutcome::LexFailure(errors) => OutcomeView::LexFailure(error_views(errors@)),
            ParseOutcome::ParseFailure(errors) => OutcomeView::ParseFailure(error_views(errors@)),
            ParseOutcome::Success => OutcomeView::Success,
        }
    }
}

impl OutcomeView {
    /// The errors that the outcome carries: those of the one phase that failed,
    /// or none.
    pub open spec fn errors(self) -> Seq<ErrorView> {
        match self {
            OutcomeView::LexFailure(errors) => errors,
            OutcomeView::ParseFailure(errors) => errors,
            OutcomeView::Success => Seq::empty(),
        }
    }

    /// Every error of the outcome speaks of a place that exists in `text`.
    pub open spec fn located_in(self, text: Seq<u8>) -> bool {
        all_located_in(self.errors(), text)
    }
}

/// The full set of diagnostics for a text whose reparse ended in `outcome`: one
/// for each error of the phase that failed, in the order reported, and none after
/// a success.
pub open spec fn diagnostics_of(outcome: OutcomeView, text: Seq<u8>) -> Seq<DiagnosticView> {
    diagnostics_of_errors(outcome.errors(), text)
}

/// What the front end said of the phase that was run last.
#[derive(Clone, Debug, PartialEq, Eq)]
pub enum Report {
    Passed,
    Failed(Vec<LocatedError>),
}

/// Mathematical value of a `Report`.
pub enum ReportView {
    Passed,
    Failed(Seq<ErrorView>),
}

impl View for Report {
    type V = ReportView;

    open spec fn view(&self) -> ReportView {
        match self {
            Report::Passed => ReportView::Passed,
            Report::Failed(errors) => ReportView::Failed(error_views(errors@)),
        }
    }
}

/// What the driver of a reparse has to do next.
#[derive(Clone, Copy, Debug, PartialEq, Eq, Structural)]
pub enum Action {
    RunLexer,
    RunParser,
    Publish,
}

/// Where a reparse stands.
#[derive(Clone, Debug, PartialEq, Eq)]
pub enum Stage {
    AwaitingLexer,
    AwaitingParser,
    Finished(ParseOutcome),
}

/// Mathematical value of a `Stage`.
pub enum StageView {
    AwaitingLexer,
    AwaitingParser,
    Finished(OutcomeView),
}

impl View for Stage {
    type V = StageView;

    open spec fn view(&self) -> StageView {
        match self {
            Stage::AwaitingLexer => StageView::AwaitingLexer,
            Stage::AwaitingParser => StageView::AwaitingParser,
            Stage::Finished(outcome) => StageView::Finished(outcome@),
        }
    }
}

/// The action that a stage asks for.
pub open spec fn action_at(stage: StageView) -> Action {
    match stage {
        StageView::AwaitingLexer => Action::RunLexer,
        StageView::AwaitingParser => Action::RunParser,
        StageView::Finished(_) => Action::Publish,
    }
}

/// The stage that follows `stage` once the front end has reported.
///
/// A failure ends the run with the errors of the phase that was awaited. A pass
/// of the lexer leads on to the parser, a pass of the parser ends the run with
/// success. A run that has ended stays as it is.
pub open spec fn advanced(stage: StageView, report: ReportView) -> StageView {
    match stage {
        StageView::AwaitingLexer => match report {
            ReportView::Passed => StageView::AwaitingParser,
            ReportView::Failed(errors) => StageView::Finished(OutcomeView::LexFailure(errors)),
        },
        StageView::AwaitingParser => match report {
            ReportView::Passed => StageView::Finished(OutcomeView::Success),
            ReportView::Failed(errors) => StageView::Finished(OutcomeView::ParseFailure(errors)),
        },
        StageView::Finished(outcome) => StageView::Finished(outcome),
    }
}

impl Stage {
    /// The stage at which every reparse begins.
    pub fn start() -> (stage: Stage)
        ensures
            stage@ == StageView::AwaitingLexer,
    {
        Stage::AwaitingLexer
    }

    /// Tells the driver what to do at this stage.
    pub fn next_action(&self) -> (action: Action)
        ensures
            action == action_at(self@),
    {
        match self {
            Stage::AwaitingLexer => Action::RunLexer,
            Stage::AwaitingParser => Action::RunParser,
            Stage::Finished(_) => Action::Publish,
        }
    }

    /// Takes in what the front end reported and moves to the next stage.
    pub fn advance(self, report: Report) -> (next: Stage)
        ensures
            next@ == advanced(self@, report@),
    {
        match self {
            Stage::AwaitingLexer => match report {
                Report::Passed => Stage::AwaitingParser,
                Report::Failed(errors) => Stage::Finished(ParseOutcome::LexFailure(errors)),
            },
            Stage::AwaitingParser => match report {
                Report::Passed => Stage::Finished(ParseOutcome::Success),
                Report::Failed(errors) => Stage::Finished(ParseOutcome::ParseFailure(errors)),
            },
            Stage::Finished(outcome) => Stage::Finished(outcome),
        }
    }

    /// Hands out the outcome of a run that has ended, and nothing before that.
    pub fn into_outcome(self) -> (outcome: Option<ParseOutcome>)
        ensures
            match outcome {
                Some(o) => self@ == StageView::Finished(o@),
                None => !(self@ is Finished),
            },
    {
        match self {
            Stage::Finished(outcome) => Some(outcome),
            _ => None,
        }
    }
}

impl ParseOutcome {
    /// Tells whether every error of the outcome speaks of a place that exists in
    /// `text`.
    pub fn is_located_in(&self, text: &str) -> (ok: bool)
        ensures
            ok == self@.located_in(text.spec_bytes()),
    {
        match self {
            ParseOutcome::LexFailure(errors) => are_located_in(errors, text),
            ParseOutcome::ParseFailure(errors) => are_located_in(errors, text),
            ParseOutcome::Success => true,
        }
    }
}

/// Assembles the full set of diagnostics for a text whose reparse ended in
/// `outcome`.
///
/// The set holds one diagnostic for each error of the phase that failed, in the
/// order in which the front end reported them, and is empty after a success.
pub fn diagnostics_for(outcome: &ParseOutcome, text: &str) -> (records: Vec<DiagnosticRecord>)
    requires
        outcome@.located_in(text.spec_bytes()),
    ensures
        record_views(records@) == diagnostics_of(outcome@, text.spec_bytes()),
{
    match outcome {
        ParseOutcome::LexFailure(errors) => to_diagnostics(errors, text),
        ParseOutcome::ParseFailure(errors) => to_diagnostics(errors, text),
        ParseOutcome::Success => {
            let records: Vec<DiagnosticRecord> = Vec::new();
            assert(record_views(records@) =~= diagnostics_of(outcome@, text.spec_bytes()));
            records
        },
    }
}

/// A lexer failure ends the run at once. The parser is never asked for, nothing
/// that is reported later changes the outcome, and the diagnostics are those of
/// the lexer's errors: as many, in the same order, and no others.
pub proof fn lemma_lex_failure_only_lex_errors(
    errors: Seq<ErrorView>,
    text: Seq<u8>,
    later: ReportView,
)
    ensures
        advanced(StageView::AwaitingLexer, ReportView::Failed(errors)) == StageView::Finished(
            OutcomeView::LexFailure(errors),
        ),
        action_at(advanced(StageView::AwaitingLexer, ReportView::Failed(errors)))
            == Action::Publish,
        advanced(advanced(StageView::AwaitingLexer, ReportView::Failed(errors)), later)
            == StageView::Finished(OutcomeView::LexFailure(errors)),
        diagnostics_of(OutcomeView::LexFailure(errors), text).len() == errors.len(),
        forall|i: int|
            0 <= i < errors.len() ==> #[trigger] diagnostics_of(
                OutcomeView::LexFailure(errors),
                text,
            )[i] == diagnostic_of(errors[i], text),
{
}

/// Where the lexer passes and the parser fails, the run ends with the parser's
/// errors, and the diagnostics are those of the parser's errors: as many, in the
/// same order, and no others.
pub proof fn lemma_parse_failure_only_parse_errors(errors: Seq<ErrorView>, text: Seq<u8>)
    ensures
        action_at(advanced(StageView::AwaitingLexer, ReportView::Passed)) == Action::RunParser,
        advanced(
            advanced(StageView::AwaitingLexer, ReportView::Passed),
            ReportView::Failed(errors),
        ) == StageView::Finished(OutcomeView::ParseFailure(errors)),
        diagnostics_of(OutcomeView::ParseFailure(errors), text).len() == errors.len(),
        forall|i: int|
            0 <= i < errors.len() ==> #[trigger] diagnostics_of(
                OutcomeView::ParseFailure(errors),
                text,
            )[i] == diagnostic_of(errors[i], text),
{
}

/// Where both phases pass, the run ends in success and the set of diagnostics is
/// empty, whatever the text.
pub proof fn lemma_success_is_empty(text: Seq<u8>)
    ensures
        advanced(advanced(StageView::AwaitingLexer, ReportView::Passed), ReportView::Passed)
            == StageView::Finished(OutcomeView::Success),
        diagnostics_of(OutcomeView::Success, text) == Seq::<DiagnosticView>::empty(),
{
    assert(diagnostics_of(OutcomeView::Success, text) =~= Seq::<DiagnosticView>::empty());
}

} // verus!
