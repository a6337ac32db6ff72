//! Expansion of `which_failed!(name, if a && b && c { .. })`.
//!
//! The guard is a conjunction. The expansion tests its operands one by one, from
//! the left, and runs the block for the first one that is false, with `name`
//! bound to that operand's text. When every operand holds, nothing runs.
//!
//! The input is the invocation as a sequence of [`Token`]s, the output is the
//! text of the code that takes its place, or a [`Failure`].

pub mod cascade;
pub mod expand;
pub mod failure;
pub mod parse;
pub mod split;
pub mod syntax;
pub mod token;

pub use cascade::{generate, Branch, BranchChain, BranchView, Cascade};
pub use expand::{expansion, which_failed};
pub use failure::{outcome_view, Failure, FailureKind, FailureView};
pub use parse::{accepted, Invocation, WhichFailedInput, GUARD_START};
pub use split::{
    split_conditions, split_operands, Condition, ConditionView, Operand, OperandView,
};
pub use token::{same_text, source_text, Delimiter, Spacing, Token, TokenKind, TokenView};
