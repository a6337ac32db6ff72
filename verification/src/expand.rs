//! From the tokens of an invocation to the code that takes its place.

use crate::cascade::{generate, BranchView, Cascade};
use crate::failure::{outcome_view, Failure, FailureKind, FailureView};
use crate::parse::{lemma_next_block, next_block, Invocation, WhichFailedInput, GUARD_START};
use crate::split::{
    conditions_of, lemma_conditions_of, lemma_failure_of_guard, pieces, ConditionView,
};
use crate::syntax::expression_text;
use crate::token::{source_of, Token, TokenView};
use vstd::prelude::*;

verus! {

/// The code that takes the place of the invocation `tokens`, or why there is
/// none.
pub open spec fn expansion(tokens: Seq<TokenView>) -> Result<Seq<char>, FailureView> {
    match Invocation::of(tokens) {
        Err(failure) => Err(failure),
        Ok(invocation) => match Cascade::of(invocation) {
            Err(failure) => Err(failure),
            Ok(cascade) => Ok(cascade.code()),
        },
    }
}

/// Expands one invocation: the code of its cascade, or the failure to report in
/// its place. An invocation is refused as a whole; no part of it is expanded.
pub fn which_failed(input: Vec<Token>) -> (code: Result<String, Failure>)
    ensures
        outcome_view(code) == expansion(input.deep_view()),
{
    let invocation = match WhichFailedInput::parse(&input) {
        Ok(invocation) => invocation,
        Err(failure) => {
            return Err(failure);
        },
    };
    match generate(&invocation) {
        Ok(chain) => Ok(chain.render()),
        Err(failure) => Err(failure),
    }
}

/// The first condition that is false is the one reported, and no other: where
/// the conditions before `first` hold and that at `first` does not, the branch
/// of `first` runs. It tests the negation of that condition, binds the
/// invocation's name to that condition's text and runs the invocation's block.
pub proof fn lemma_first_false_is_reported(
    tokens: Seq<TokenView>,
    invocation: Invocation,
    truth: Seq<bool>,
    first: int,
)
    requires
        Invocation::of(tokens) == Ok::<Invocation, FailureView>(invocation),
        truth.len() == invocation.conditions.len(),
        0 <= first < truth.len(),
        !truth[first],
        forall|i: int| 0 <= i < first ==> truth[i],
    ensures
        Cascade::of(invocation) matches Ok(cascade) && {
            &&& expansion(tokens) == Ok::<Seq<char>, FailureView>(cascade.code())
            &&& cascade.runs(truth) == Some(first)
            &&& cascade.binding == invocation.binding
            &&& cascade.branches[first] == BranchView::of(
                invocation.conditions[first],
                invocation.body,
            )
        },
{
    match Cascade::of(invocation) {
        Ok(cascade) => {
            cascade.lemma_first_false_runs(truth, first);
        },
        Err(_) => {},
    }
}

/// Where every condition holds, no branch runs.
pub proof fn lemma_all_true_runs_nothing(
    tokens: Seq<TokenView>,
    invocation: Invocation,
    truth: Seq<bool>,
)
    requires
        Invocation::of(tokens) == Ok::<Invocation, FailureView>(invocation),
        invocation.conditions.len() > 0,
        truth.len() == invocation.conditions.len(),
        forall|i: int| 0 <= i < truth.len() ==> truth[i],
    ensures
        Cascade::of(invocation) matches Ok(cascade) && {
            &&& expansion(tokens) == Ok::<Seq<char>, FailureView>(cascade.code())
            &&& cascade.runs(truth) is None
        },
{
    match Cascade::of(invocation) {
        Ok(cascade) => {
            cascade.lemma_runs_nothing_iff_all_hold(truth);
        },
        Err(_) => {},
    }
}

/// An invocation whose guard holds no token is refused, whatever else it
/// holds: no code is made for it. Where nothing else is wrong with it, the
/// failure is that a condition is required.
pub proof fn lemma_empty_guard_is_refused(tokens: Seq<TokenView>)
    requires
        next_block(tokens, GUARD_START as int) == GUARD_START,
    ensures
        expansion(tokens) is Err,
        Invocation::of(tokens) is Ok ==> expansion(tokens) == Err::<Seq<char>, FailureView>(
            FailureView::at(FailureKind::NoConditions, GUARD_START as int),
        ),
        FailureView::at(FailureKind::NoConditions, GUARD_START as int).message()
            == "at least one condition is required"@,
{
    let guard = tokens.subrange(GUARD_START as int, GUARD_START as int);
    lemma_conditions_of(guard);
}

/// Only an invocation whose guard holds no token fails for want of a
/// condition: a guard of operators alone fails for its operators.
pub proof fn lemma_no_conditions_means_no_tokens(tokens: Seq<TokenView>)
    requires
        expansion(tokens) == Err::<Seq<char>, FailureView>(
            FailureView::at(FailureKind::NoConditions, GUARD_START as int),
        ),
    ensures
        next_block(tokens, GUARD_START as int) == GUARD_START,
{
    let block = next_block(tokens, GUARD_START as int);
    lemma_next_block(tokens, GUARD_START as int);
    lemma_conditions_of(tokens.subrange(GUARD_START as int, block));
    lemma_failure_of_guard(tokens.subrange(GUARD_START as int, block));
}

/// The text of a condition comes of its own tokens and of nothing beside them:
/// it is the text of the expression that their source text is. So two
/// conditions with the same tokens have the same text, in whatever guards and
/// at whatever places they stand.
pub proof fn lemma_text_is_of_own_tokens(
    guard: Seq<TokenView>,
    conditions: Seq<ConditionView>,
    i: int,
    other_guard: Seq<TokenView>,
    other_conditions: Seq<ConditionView>,
    j: int,
)
    requires
        conditions_of(guard) == Ok::<Seq<ConditionView>, FailureView>(conditions),
        conditions_of(other_guard) == Ok::<Seq<ConditionView>, FailureView>(other_conditions),
        0 <= i < conditions.len(),
        0 <= j < other_conditions.len(),
        conditions[i].tokens == other_conditions[j].tokens,
    ensures
        expression_text(source_of(conditions[i].tokens)) == Some(conditions[i].text),
        conditions[i].text == other_conditions[j].text,
{
    lemma_conditions_of(guard);
    lemma_conditions_of(other_guard);
    let left = pieces(guard)[i];
    let right = pieces(other_guard)[j];
}

} // verus!
