//! The invocation: `name , if guard { block }`.

use crate::failure::{outcome_view, Failure, FailureKind, FailureView};
use crate::split::{
    conditions_of, copy_tokens, lemma_failure_of_guard, split_conditions, Condition, ConditionView,
};
use crate::syntax::{block_text, identifier_text, parse_block, parse_identifier};
use crate::token::{Token, TokenKind, TokenView};
use vstd::prelude::*;

verus! {

/// An invocation, taken apart.
#[derive(Debug, PartialEq, Eq)]
pub struct WhichFailedInput {
    /// The name that the failing condition's text is bound to.
    pub binding: String,
    /// The operands of the guard, from the left.
    pub conditions: Vec<Condition>,
    /// The block, braces included.
    pub body: String,
}

/// A [`WhichFailedInput`] as a mathematical value.
pub struct Invocation {
    pub binding: Seq<char>,
    pub conditions: Seq<ConditionView>,
    pub body: Seq<char>,
}

impl DeepView for WhichFailedInput {
    type V = Invocation;

    open spec fn deep_view(&self) -> Invocation {
        Invocation {
            binding: self.binding@,
            conditions: self.conditions.deep_view(),
            body: self.body@,
        }
    }
}

/// The index of the first block from `from` on, or the length of `tokens` where
/// there is none.
pub open spec fn next_block(tokens: Seq<TokenView>, from: int) -> int
    decreases tokens.len() - from,
{
    if from >= tokens.len() {
        tokens.len() as int
    } else if tokens[from].opens_block() {
        from
    } else {
        next_block(tokens, from + 1)
    }
}

/// [`next_block`] finds the first block from `from` on.
pub proof fn lemma_next_block(tokens: Seq<TokenView>, from: int)
    requires
        0 <= from <= tokens.len(),
    ensures
        from <= next_block(tokens, from) <= tokens.len(),
        next_block(tokens, from) < tokens.len() ==> tokens[next_block(tokens, from)].opens_block(),
        forall|i: int| from <= i < next_block(tokens, from) ==> !tokens[i].opens_block(),
    decreases tokens.len() - from,
{
    if from < tokens.len() && !tokens[from].opens_block() {
        lemma_next_block(tokens, from + 1);
    }
}

/// An index that no block comes before, from `from` on, and at which one
/// stands or the tokens end, is what [`next_block`] finds.
pub proof fn lemma_next_block_is(tokens: Seq<TokenView>, from: int, block: int)
    requires
        0 <= from <= block <= tokens.len(),
        forall|i: int| from <= i < block ==> !tokens[i].opens_block(),
        block == tokens.len() || tokens[block].opens_block(),
    ensures
        next_block(tokens, from) == block,
    decreases block - from,
{
    if from < block {
        lemma_next_block_is(tokens, from + 1, block);
    }
}

/// Where the guard begins: after the name, the `,` and the `if`.
pub const GUARD_START: usize = 3;

impl Invocation {
    /// What the tokens of an invocation stand for. In this order: a name, which
    /// is an identifier and no keyword; `,`; `if`; the guard, which runs up to
    /// the first block, whose every `&&` has an operand on each side, which
    /// holds no `||` beside an `&&` and whose operands are expressions; the
    /// block, which holds statements; and nothing more. What fails first decides
    /// the failure.
    pub open spec fn of(tokens: Seq<TokenView>) -> Result<Invocation, FailureView> {
        let block = next_block(tokens, GUARD_START as int);
        if !(tokens.len() > 0 && tokens[0].kind is Ident && identifier_text(tokens[0].text) is Some) {
            Err(FailureView::at(FailureKind::MissingBinding, 0))
        } else if !(tokens.len() > 1 && tokens[1].is_comma()) {
            Err(FailureView::at(FailureKind::MissingSeparator, 1))
        } else if !(tokens.len() > 2 && tokens[2].is_guard_keyword()) {
            Err(FailureView::at(FailureKind::MissingKeyword, 2))
        } else if block >= tokens.len() {
            Err(FailureView::at(FailureKind::MissingBlock, tokens.len() as int))
        } else {
            match conditions_of(tokens.subrange(GUARD_START as int, block)) {
                Err(failure) => Err(failure.shifted(GUARD_START as int)),
                Ok(conditions) => match block_text(tokens[block].text) {
                    None => Err(FailureView::at(FailureKind::MalformedBlock, block)),
                    Some(body) => if block + 1 < tokens.len() {
                        Err(FailureView::at(FailureKind::TrailingTokens, block + 1))
                    } else {
                        Ok(
                            Invocation {
                                binding: identifier_text(tokens[0].text).unwrap(),
                                conditions,
                                body,
                            },
                        )
                    },
                },
            }
        }
    }

    /// The shape of an invocation that is accepted: a name, `,`, `if`, a guard
    /// that holds no block and is not refused, and a block of statements as the
    /// last token.
    pub open spec fn is_read_from(self, tokens: Seq<TokenView>) -> bool {
        let block = tokens.len() - 1;
        &&& tokens.len() > GUARD_START
        &&& tokens[0].kind is Ident
        &&& identifier_text(tokens[0].text) == Some(self.binding)
        &&& tokens[1].is_comma()
        &&& tokens[2].is_guard_keyword()
        &&& forall|i: int| GUARD_START <= i < block ==> !tokens[i].opens_block()
        &&& tokens[block].opens_block()
        &&& conditions_of(tokens.subrange(GUARD_START as int, block)) == Ok::<
            Seq<ConditionView>,
            FailureView,
        >(self.conditions)
        &&& block_text(tokens[block].text) == Some(self.body)
    }

    /// The tokens are accepted as an invocation exactly when they have its
    /// shape.
    pub proof fn lemma_accepted(self, tokens: Seq<TokenView>)
        ensures
            Invocation::of(tokens) == Ok::<Invocation, FailureView>(self) <==> self.is_read_from(
                tokens,
            ),
    {
        if tokens.len() > GUARD_START {
            lemma_next_block(tokens, GUARD_START as int);
            if self.is_read_from(tokens) {
                lemma_next_block_is(tokens, GUARD_START as int, tokens.len() - 1);
            }
        }
    }
}

/// What the parser made of a text, or the failure of `kind` at `position` where
/// it refused the text.
pub fn accepted(parsed: Result<String, syn::Error>, kind: FailureKind, position: usize) -> (outcome:
    Result<String, Failure>)
    ensures
        parsed matches Ok(text) ==> outcome_view(outcome) == Ok::<Seq<char>, FailureView>(text@),
        parsed is Err ==> outcome_view(outcome) == Err::<Seq<char>, FailureView>(
            FailureView::at(kind, position as int),
        ),
{
    match parsed {
        Ok(text) => Ok(text),
        Err(_) => Err(Failure::at(kind, position)),
    }
}

impl WhichFailedInput {
    /// Takes an invocation apart, or says what is wrong with it.
    pub fn parse(tokens: &Vec<Token>) -> (input: Result<WhichFailedInput, Failure>)
        ensures
            outcome_view(input) == Invocation::of(tokens.deep_view()),
    {
        let ghost all = tokens.deep_view();
        let length = tokens.len();
        if length == 0 {
            return Err(Failure::at(FailureKind::MissingBinding, 0));
        }
        let named = match tokens[0].kind {
            TokenKind::Ident => parse_identifier(tokens[0].text.as_str()),
            _ => {
                return Err(Failure::at(FailureKind::MissingBinding, 0));
            },
        };
        let binding = match accepted(named, FailureKind::MissingBinding, 0) {
            Ok(name) => name,
            Err(failure) => {
                return Err(failure);
            },
        };
        if length < 2 || !tokens[1].is_comma() {
            return Err(Failure::at(FailureKind::MissingSeparator, 1));
        }
        if length < 3 || !tokens[2].is_guard_keyword() {
            return Err(Failure::at(FailureKind::MissingKeyword, 2));
        }
        let mut block: usize = GUARD_START;
        while block < length && !tokens[block].opens_block()
            invariant
                all == tokens.deep_view(),
                length == tokens.len(),
                GUARD_START <= block <= length,
                next_block(all, GUARD_START as int) == next_block(all, block as int),
            decreases length - block,
        {
            block += 1;
        }
        if block >= length {
            return Err(Failure::at(FailureKind::MissingBlock, length));
        }
        let guard = copy_tokens(tokens, GUARD_START, block);
        let conditions = match split_conditions(&guard) {
            Ok(conditions) => conditions,
            Err(failure) => {
                proof {
                    lemma_failure_of_guard(guard.deep_view());
                }
                return Err(
                    Failure {
                        kind: failure.kind,
                        position: failure.position + GUARD_START,
                        source: failure.source,
                    },
                );
            },
        };
        let body = match accepted(
            parse_block(tokens[block].text.as_str()),
            FailureKind::MalformedBlock,
            block,
        ) {
            Ok(body) => body,
            Err(failure) => {
                return Err(failure);
            },
        };
        if block + 1 < length {
            return Err(Failure::at(FailureKind::TrailingTokens, block + 1));
        }
        Ok(WhichFailedInput { binding, conditions, body })
    }
}

} // verus!
