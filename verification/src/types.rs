//! The data model shared by the whole oracle: accounts, outcomes and the
//! answer kinds a data request can ask for.

use vstd::prelude::*;

verus! {

/// Account identifiers as the host chain presents them.
pub type AccountId = String;

/// A numeric answer: an unsigned value scaled by a decimal multiplier, with an
/// explicit sign.
#[derive(Clone, Copy, PartialEq, Eq, Structural, Debug)]
pub struct AnswerNumber {
    pub value: u128,
    pub multiplier: u128,
    pub negative: bool,
}

/// The payload of a non-invalid outcome: either free text or a number.
#[derive(Debug)]
pub enum AnswerType {
    StringAnswer(String),
    NumericAnswer(AnswerNumber),
}

/// A candidate resolution for a data request. `Invalid` marks the request
/// itself as unanswerable, forfeiting the requester's validity bond.
#[derive(Debug)]
pub enum Outcome {
    Answer(AnswerType),
    Invalid,
}

/// The answer kind a data request expects: free text, or a number with a
/// fixed multiplier.
#[derive(Clone, Copy, PartialEq, Eq, Structural, Debug)]
pub enum DataRequestDataType {
    Text,
    Number(u128),
}

/// Mathematical value of an [`AnswerType`]: the text is abstracted to its
/// character sequence. Equality of views is the structural equality that the
/// protocol compares outcomes by.
pub enum AnswerTypeView {
    StringAnswer(Seq<char>),
    NumericAnswer(AnswerNumber),
}

/// Mathematical value of an [`Outcome`].
pub enum OutcomeView {
    Answer(AnswerTypeView),
    Invalid,
}

impl View for AnswerType {
    type V = AnswerTypeView;

    open spec fn view(&self) -> AnswerTypeView {
        match self {
            AnswerType::StringAnswer(s) => AnswerTypeView::StringAnswer(s@),
            AnswerType::NumericAnswer(n) => AnswerTypeView::NumericAnswer(*n),
        }
    }
}

impl View for Outcome {
    type V = OutcomeView;

    open spec fn view(&self) -> OutcomeView {
        match self {
            Outcome::Answer(a) => OutcomeView::Answer(a@),
            Outcome::Invalid => OutcomeView::Invalid,
        }
    }
}

impl Clone for AnswerType {
    /// Cloning keeps the mathematical value.
    fn clone(&self) -> (r: Self)
        ensures
            r == *self,
    {
        match self {
            AnswerType::StringAnswer(s) => AnswerType::StringAnswer(s.clone()),
            AnswerType::NumericAnswer(n) => AnswerType::NumericAnswer(*n),
        }
    }
}

impl Clone for Outcome {
    /// Cloning keeps the mathematical value.
    fn clone(&self) -> (r: Self)
        ensures
            r == *self,
    {
        match self {
            Outcome::Answer(a) => Outcome::Answer(a.clone()),
            Outcome::Invalid => Outcome::Invalid,
        }
    }
}

impl PartialEq for AnswerType {
    /// Equality is structural: what the protocol compares answers by.
    fn eq(&self, other: &Self) -> (r: bool) {
        answer_eq(self, other)
    }
}

impl vstd::std_specs::cmp::PartialEqSpecImpl for AnswerType {
    open spec fn obeys_eq_spec() -> bool {
        true
    }

    open spec fn eq_spec(&self, other: &Self) -> bool {
        self@ == other@
    }
}

impl PartialEq for Outcome {
    /// Equality is structural: what the protocol compares outcomes by.
    fn eq(&self, other: &Self) -> (r: bool) {
        outcome_eq(self, other)
    }
}

impl vstd::std_specs::cmp::PartialEqSpecImpl for Outcome {
    open spec fn obeys_eq_spec() -> bool {
        true
    }

    open spec fn eq_spec(&self, other: &Self) -> bool {
        self@ == other@
    }
}

/// Where an answer can be fetched from: an end point and a path into its
/// response.
pub struct Source {
    pub end_point: String,
    pub source_path: String,
}

impl Clone for Source {
    /// Cloning keeps the mathematical value.
    fn clone(&self) -> (r: Self)
        ensures
            r == *self,
    {
        Source { end_point: self.end_point.clone(), source_path: self.source_path.clone() }
    }
}

/// Structural equality of answers, the equality the protocol stakes on.
pub fn answer_eq(a: &AnswerType, b: &AnswerType) -> (r: bool)
    ensures
        r == (a@ == b@),
{
    match (a, b) {
        (AnswerType::StringAnswer(x), AnswerType::StringAnswer(y)) => *x == *y,
        (AnswerType::NumericAnswer(x), AnswerType::NumericAnswer(y)) => *x == *y,
        _ => false,
    }
}

/// Structural equality of outcomes.
pub fn outcome_eq(a: &Outcome, b: &Outcome) -> (r: bool)
    ensures
        r == (a@ == b@),
{
    match (a, b) {
        (Outcome::Answer(x), Outcome::Answer(y)) => answer_eq(x, y),
        (Outcome::Invalid, Outcome::Invalid) => true,
        _ => false,
    }
}

} // verus!
