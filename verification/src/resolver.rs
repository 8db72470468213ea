//! The retry-by-truncation policy for one address, as a state machine.
//!
//! The resolver never touches the network, the clock or the output stream. It
//! is told what a query gave and answers with the actions to perform next, in
//! order. Whoever drives it performs them and hands back the outcome of the
//! query that ends the list.

use crate::address::{
    drop_first_token, exhausted, is_exhausted, lemma_without_first_token, without_first_token,
};
use crate::query::{outcome_view, Answer, Outcome};
use crate::record::{rows_view, tagged, AddrGeoData, GeoMatch, OutputRecord};
use vstd::prelude::*;

verus! {

/// The pause, in milliseconds, that keeps the requests under the provider's
/// ceiling of one per second.
pub const PAUSE_MILLIS: u64 = 1200;

/// One line for the operator.
#[derive(Clone, Debug, PartialEq, Eq)]
pub enum Diagnostic {
    /// A query failed; the text is its error message.
    QueryFailed(String),
    /// The address was shortened to the given one, which is queried next.
    Retrying(String),
    /// The last query listed no match and nothing is left to retry; the text is
    /// what the address had been shortened to.
    NoResults(String),
    /// The last query failed and nothing is left to retry; the text is its
    /// error message.
    GaveUp(String),
}

/// A `Diagnostic` as mathematical values.
pub ghost enum DiagnosticView {
    QueryFailed(Seq<char>),
    Retrying(Seq<char>),
    NoResults(Seq<char>),
    GaveUp(Seq<char>),
}

impl View for Diagnostic {
    type V = DiagnosticView;

    open spec fn view(&self) -> DiagnosticView {
        match self {
            Diagnostic::QueryFailed(message) => DiagnosticView::QueryFailed(message@),
            Diagnostic::Retrying(address) => DiagnosticView::Retrying(address@),
            Diagnostic::NoResults(address) => DiagnosticView::NoResults(address@),
            Diagnostic::GaveUp(message) => DiagnosticView::GaveUp(message@),
        }
    }
}

/// The text of the line that reports a diagnostic.
pub open spec fn diagnostic_text(diagnostic: DiagnosticView) -> Seq<char> {
    match diagnostic {
        DiagnosticView::QueryFailed(message) => "Got error: "@ + message,
        DiagnosticView::Retrying(address) => "Trimming and retrying new address: "@ + address,
        DiagnosticView::NoResults(address) => "Got 0 results for "@ + address,
        DiagnosticView::GaveUp(message) => message,
    }
}

impl Diagnostic {
    /// The line to write for this diagnostic.
    pub fn message(&self) -> (line: String)
        ensures
            line@ == diagnostic_text(self@),
    {
        match self {
            Diagnostic::QueryFailed(message) => {
                let mut line = String::from_str("Got error: ");
                line.append(message.as_str());
                line
            },
            Diagnostic::Retrying(address) => {
                let mut line = String::from_str("Trimming and retrying new address: ");
                line.append(address.as_str());
                line
            },
            Diagnostic::NoResults(address) => {
                let mut line = String::from_str("Got 0 results for ");
                line.append(address.as_str());
                line
            },
            Diagnostic::GaveUp(message) => message.clone(),
        }
    }
}

/// One thing for the driver to do.
#[derive(Clone, Debug, PartialEq, Eq)]
pub enum Action {
    /// Write the diagnostic to the operator.
    Report(Diagnostic),
    /// Wait for `PAUSE_MILLIS`.
    Pause,
    /// Ask the provider about this address and hand the outcome to `advance`.
    Query(String),
    /// Write this row to the output and flush it.
    Emit(AddrGeoData),
}

/// An `Action` as mathematical values.
pub ghost enum ActionView {
    Report(DiagnosticView),
    Pause,
    Query(Seq<char>),
    Emit(OutputRecord),
}

impl View for Action {
    type V = ActionView;

    open spec fn view(&self) -> ActionView {
        match self {
            Action::Report(diagnostic) => ActionView::Report(diagnostic@),
            Action::Pause => ActionView::Pause,
            Action::Query(address) => ActionView::Query(address@),
            Action::Emit(row) => ActionView::Emit(row@),
        }
    }
}

/// The actions of a list, each as mathematical values.
pub open spec fn actions_view(actions: Seq<Action>) -> Seq<ActionView> {
    actions.map_values(|a: Action| a@)
}

/// Where the resolving of one address stands: the address as it was given, and
/// what is left of it for the query that is under way.
#[derive(Debug)]
pub struct Resolver {
    original: String,
    candidate: String,
}

/// A `Resolver` as mathematical values.
pub ghost struct ResolverView {
    pub original: Seq<char>,
    pub candidate: Seq<char>,
}

impl View for Resolver {
    type V = ResolverView;

    closed spec fn view(&self) -> ResolverView {
        ResolverView { original: self.original@, candidate: self.candidate@ }
    }
}

/// What the resolver answers: the actions to perform, in order, and the state
/// that waits for the outcome of the query that ends them, if one does.
#[derive(Debug)]
pub struct Turn {
    pub actions: Vec<Action>,
    pub next: Option<Resolver>,
}

/// A `Turn` as mathematical values.
pub ghost struct TurnView {
    pub actions: Seq<ActionView>,
    pub next: Option<ResolverView>,
}

impl View for Turn {
    type V = TurnView;

    open spec fn view(&self) -> TurnView {
        TurnView {
            actions: actions_view(self.actions@),
            next: match self.next {
                Some(resolver) => Some(resolver@),
                None => None,
            },
        }
    }
}

/// A query is accepted when it succeeded and lists at least one match.
pub open spec fn accepted(answer: Answer) -> bool {
    answer matches Ok(matches) && matches.len() > 0
}

/// The rows of an accepted answer as actions: one `Emit` for each match, in
/// order, each row tagged with the original address.
pub open spec fn emissions(original: Seq<char>, matches: Seq<GeoMatch>) -> Seq<ActionView> {
    tagged(original, matches).map_values(|row: OutputRecord| ActionView::Emit(row))
}

/// The report of a failed query, which comes before anything else is decided;
/// a query that merely listed no match is not reported here.
pub open spec fn failure_report(answer: Answer) -> Seq<ActionView> {
    match answer {
        Err(message) => seq![ActionView::Report(DiagnosticView::QueryFailed(message))],
        Ok(_) => Seq::empty(),
    }
}

/// The last word on an address that found no match: the error of the last
/// query, or that the last query listed nothing for what was left.
pub open spec fn final_report(answer: Answer, shorter: Seq<char>) -> ActionView {
    match answer {
        Err(message) => ActionView::Report(DiagnosticView::GaveUp(message)),
        Ok(_) => ActionView::Report(DiagnosticView::NoResults(shorter)),
    }
}

/// The first turn for an address: query it as it stands.
pub open spec fn opening(original: Seq<char>) -> TurnView {
    TurnView {
        actions: seq![ActionView::Query(original)],
        next: Some(ResolverView { original, candidate: original }),
    }
}

/// The turn that follows the answer to the query for `state.candidate`.
///
/// An accepted answer is emitted, row by row, and the address is done. Any
/// other answer drops the first token of the candidate. If what is left is
/// exhausted, the address is given up with a last report; if not, it is
/// announced and queried after a pause. Every address ends with a pause.
pub open spec fn reply_turn(state: ResolverView, answer: Answer) -> TurnView {
    if accepted(answer) {
        TurnView {
            actions: emissions(state.original, answer->Ok_0) + seq![ActionView::Pause],
            next: None,
        }
    } else {
        let shorter = without_first_token(state.candidate);
        if exhausted(shorter) {
            TurnView {
                actions: failure_report(answer) + seq![
                    final_report(answer, shorter),
                    ActionView::Pause,
                ],
                next: None,
            }
        } else {
            TurnView {
                actions: failure_report(answer) + seq![
                    ActionView::Report(DiagnosticView::Retrying(shorter)),
                    ActionView::Pause,
                    ActionView::Query(shorter),
                ],
                next: Some(ResolverView { original: state.original, candidate: shorter }),
            }
        }
    }
}

/// Truncation is monotone: a turn that asks for a retry has dropped the first
/// token of the candidate, so the new candidate is a proper suffix of the old
/// one and strictly shorter; the original address stays as it was. A retry
/// only follows an answer that was not accepted, and never asks about an
/// address that is empty or a single token.
pub proof fn lemma_retry_shrinks(state: ResolverView, answer: Answer)
    ensures
        reply_turn(state, answer).next matches Some(next) ==> {
            &&& !accepted(answer)
            &&& next.original == state.original
            &&& next.candidate == without_first_token(state.candidate)
            &&& next.candidate.is_suffix_of(state.candidate)
            &&& next.candidate.len() < state.candidate.len()
            &&& !exhausted(next.candidate)
        },
{
    lemma_without_first_token(state.candidate);
}

impl Resolver {
    #[verifier::type_invariant]
    spec fn shrinks_from_the_left(self) -> bool {
        self.candidate@.is_suffix_of(self.original@)
    }

    /// Starts on one input line: the line itself is the first address to query.
    pub fn begin(line: String) -> (turn: Turn)
        ensures
            turn@ == opening(line@),
    {
        let candidate = line.clone();
        let mut actions: Vec<Action> = Vec::new();
        actions.push(Action::Query(line.clone()));
        assert(candidate@.is_suffix_of(line@));
        let turn = Turn { actions, next: Some(Resolver { original: line, candidate }) };
        assert(turn@.actions =~= opening(line@).actions);
        turn
    }

    /// The address as it was given, untrimmed: what every row is tagged with.
    pub fn original(&self) -> (address: &str)
        ensures
            address@ == self@.original,
    {
        self.original.as_str()
    }

    /// What is left of the address: what the query under way asks about. It is
    /// the end of the original address, never anything else.
    pub fn candidate(&self) -> (address: &str)
        ensures
            address@ == self@.candidate,
            self@.candidate.is_suffix_of(self@.original),
    {
        proof {
            use_type_invariant(self);
        }
        self.candidate.as_str()
    }

    /// Takes the outcome of the query for the candidate and decides what
    /// follows.
    pub fn advance(self, outcome: Outcome) -> (turn: Turn)
        ensures
            turn@ == reply_turn(self@, outcome_view(outcome)),
    {
        proof {
            use_type_invariant(&self);
        }
        let ghost state = self@;
        let ghost answer = outcome_view(outcome);
        let Resolver { original, candidate } = self;
        let mut actions: Vec<Action> = Vec::new();
        let failure: Option<String> = match outcome {
            Ok(matches) => {
                if matches.len() > 0 {
                    let rows = AddrGeoData::tag_all(&original, matches);
                    let ghost all = rows@;
                    for row in it: rows
                        invariant
                            it.seq() == all,
                            actions@.len() == it.index(),
                            forall|i: int|
                                0 <= i < actions@.len() ==> (#[trigger] actions@[i])@
                                    == ActionView::Emit(all[i]@),
                    {
                        actions.push(Action::Emit(row));
                    }
                    actions.push(Action::Pause);
                    let turn = Turn { actions, next: None };
                    assert(turn@.actions =~= reply_turn(state, answer).actions);
                    return turn;
                }
                None
            },
            Err(message) => {
                actions.push(Action::Report(Diagnostic::QueryFailed(message.clone())));
                Some(message)
            },
        };
        assert(actions_view(actions@) =~= failure_report(answer));
        let shorter = drop_first_token(candidate.as_str());
        if is_exhausted(shorter.as_str()) {
            let last = match failure {
                Some(message) => Diagnostic::GaveUp(message),
                None => Diagnostic::NoResults(shorter),
            };
            actions.push(Action::Report(last));
            actions.push(Action::Pause);
            let turn = Turn { actions, next: None };
            assert(turn@.actions =~= reply_turn(state, answer).actions);
            turn
        } else {
            actions.push(Action::Report(Diagnostic::Retrying(shorter.clone())));
            actions.push(Action::Pause);
            actions.push(Action::Query(shorter.clone()));
            proof {
                lemma_without_first_token(state.candidate);
            }
            assert(shorter@.is_suffix_of(original@));
            let turn = Turn {
                actions,
                next: Some(Resolver { original, candidate: shorter }),
            };
            assert(turn@.actions =~= reply_turn(state, answer).actions);
            turn
        }
    }
}

} // verus!
