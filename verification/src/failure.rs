//! Why an invocation was refused.

use vstd::prelude::*;

verus! {

#[derive(Clone, Copy, Debug, PartialEq, Eq, Structural)]
pub enum FailureKind {
    /// The invocation does not begin with a name to bind.
    MissingBinding,
    /// No `,` follows the name.
    MissingSeparator,
    /// No `if` follows the `,`.
    MissingKeyword,
    /// The tokens end before a block in braces.
    MissingBlock,
    /// An `&&` of the guard has no operand before it or none after it.
    MissingOperand,
    /// `||` stands beside `&&` in the guard, outside every group.
    MixedOperators,
    /// An operand of the guard is not an expression.
    MalformedCondition,
    /// What stands in the braces is not a sequence of statements.
    MalformedBlock,
    /// Tokens follow the block.
    TrailingTokens,
    /// The guard has no operand.
    NoConditions,
}

/// A refused invocation: no code is made for it.
#[derive(Debug, PartialEq, Eq)]
pub struct Failure {
    pub kind: FailureKind,
    /// The index, among the tokens of the input, at which the failure shows.
    pub position: usize,
    /// The text of the operand, for a malformed condition; empty otherwise.
    pub source: String,
}

/// A [`Failure`] as a mathematical value.
pub struct FailureView {
    pub kind: FailureKind,
    pub position: int,
    pub source: Seq<char>,
}

impl FailureView {
    /// A failure that quotes no source text.
    pub open spec fn at(kind: FailureKind, position: int) -> FailureView {
        FailureView { kind, position, source: Seq::empty() }
    }

    /// The same failure, seen from an input that has `by` more tokens in front.
    pub open spec fn shifted(self, by: int) -> FailureView {
        FailureView { kind: self.kind, position: self.position + by, source: self.source }
    }

    /// The diagnostic that the failure is reported with.
    pub open spec fn message(self) -> Seq<char> {
        match self.kind {
            FailureKind::MissingBinding => "expected a name to bind the failing condition to"@,
            FailureKind::MissingSeparator => "expected `,` after the name"@,
            FailureKind::MissingKeyword => "expected `if` before the conditions"@,
            FailureKind::MissingBlock => "expected a block in braces after the conditions"@,
            FailureKind::MissingOperand => "expected a condition on each side of `&&`"@,
            FailureKind::MixedOperators => "expected parentheses where `||` stands beside `&&`"@,
            FailureKind::MalformedCondition => "expected an expression, found `"@ + self.source
                + "`"@,
            FailureKind::MalformedBlock => "expected statements between the braces"@,
            FailureKind::TrailingTokens => "unexpected tokens after the block"@,
            FailureKind::NoConditions => "at least one condition is required"@,
        }
    }
}

impl DeepView for Failure {
    type V = FailureView;

    open spec fn deep_view(&self) -> FailureView {
        FailureView { kind: self.kind, position: self.position as int, source: self.source@ }
    }
}

impl Clone for Failure {
    fn clone(&self) -> (copy: Self)
        ensures
            copy == *self,
    {
        Failure { kind: self.kind, position: self.position, source: self.source.clone() }
    }
}

impl Failure {
    /// A failure of `kind` at `position` that quotes no source text.
    pub fn at(kind: FailureKind, position: usize) -> (failure: Failure)
        ensures
            failure.deep_view() == FailureView::at(kind, position as int),
    {
        Failure { kind, position, source: String::new() }
    }

    /// The diagnostic to report.
    pub fn message(&self) -> (text: String)
        ensures
            text@ == self.deep_view().message(),
    {
        match self.kind {
            FailureKind::MissingBinding => String::from_str(
                "expected a name to bind the failing condition to",
            ),
            FailureKind::MissingSeparator => String::from_str("expected `,` after the name"),
            FailureKind::MissingKeyword => String::from_str("expected `if` before the conditions"),
            FailureKind::MissingBlock => String::from_str(
                "expected a block in braces after the conditions",
            ),
            FailureKind::MissingOperand => String::from_str(
                "expected a condition on each side of `&&`",
            ),
            FailureKind::MixedOperators => String::from_str(
                "expected parentheses where `||` stands beside `&&`",
            ),
            FailureKind::MalformedCondition => {
                let mut text = String::from_str("expected an expression, found `");
                text.append(self.source.as_str());
                text.append("`");
                text
            },
            FailureKind::MalformedBlock => String::from_str(
                "expected statements between the braces",
            ),
            FailureKind::TrailingTokens => String::from_str("unexpected tokens after the block"),
            FailureKind::NoConditions => String::from_str("at least one condition is required"),
        }
    }
}

/// The outcome of a step that may fail, as a mathematical value.
pub open spec fn outcome_view<T: DeepView>(outcome: Result<T, Failure>) -> Result<
    T::V,
    FailureView,
> {
    match outcome {
        Ok(value) => Ok(value.deep_view()),
        Err(failure) => Err(failure.deep_view()),
    }
}

} // verus!
