//! What is asked of `syn` and `proc_macro2`, and believed of their answers.
//!
//! Verus does not read these crates. Each function below makes one call into
//! them; its contract is what the rest of the library takes on trust. Both are
//! built without their `proc-macro` feature, so that they never hand a text to
//! the compiler and an answer depends on the text alone.

use quote::ToTokens;
use vstd::prelude::*;

verus! {

/// `syn::Error`: why a text was refused. The library only tells it from success.
#[verifier::external_type_specification]
#[verifier::external_body]
pub struct ExSyntaxError(syn::Error);

/// What `syn::parse_str::<syn::Ident>` makes of `source`: the identifier it
/// holds, or `None` where `source` is not one identifier, or is a keyword or
/// `_`.
pub uninterp spec fn identifier_text(source: Seq<char>) -> Option<Seq<char>>;

/// What `syn::parse_str::<syn::Expr>` makes of `source`: the tokens of the
/// expression, printed by `proc_macro2`, or `None` where `source` is not one
/// whole expression.
pub uninterp spec fn expression_text(source: Seq<char>) -> Option<Seq<char>>;

/// What `syn::parse_str::<syn::Block>` makes of `source`: the tokens of the
/// block, printed by `proc_macro2`, or `None` where `source` is not statements
/// in braces.
pub uninterp spec fn block_text(source: Seq<char>) -> Option<Seq<char>>;

/// What `proc_macro2::Literal::string` makes of `text`: a string literal, quotes
/// and escapes included, that stands for `text`.
pub uninterp spec fn string_literal(text: Seq<char>) -> Seq<char>;

/// Calls `syn::parse_str::<syn::Ident>`. Claimed: the outcome is
/// [`identifier_text`] of the argument, an error standing for `None`.
#[verifier::external_body]
pub(crate) fn parse_identifier(source: &str) -> (parsed: Result<String, syn::Error>)
    ensures
        parsed matches Ok(name) ==> identifier_text(source@) == Some(name@),
        parsed is Err ==> identifier_text(source@) is None,
{
    match syn::parse_str::<syn::Ident>(source) {
        Ok(ident) => Ok(ident.to_string()),
        Err(error) => Err(error),
    }
}

/// Calls `syn::parse_str::<syn::Expr>`. Claimed: the outcome is
/// [`expression_text`] of the argument, an error standing for `None`.
#[verifier::external_body]
pub(crate) fn parse_expression(source: &str) -> (parsed: Result<String, syn::Error>)
    ensures
        parsed matches Ok(text) ==> expression_text(source@) == Some(text@),
        parsed is Err ==> expression_text(source@) is None,
{
    match syn::parse_str::<syn::Expr>(source) {
        Ok(expression) => Ok(expression.to_token_stream().to_string()),
        Err(error) => Err(error),
    }
}

/// Calls `syn::parse_str::<syn::Block>`. Claimed: the outcome is [`block_text`]
/// of the argument, an error standing for `None`.
#[verifier::external_body]
pub(crate) fn parse_block(source: &str) -> (parsed: Result<String, syn::Error>)
    ensures
        parsed matches Ok(text) ==> block_text(source@) == Some(text@),
        parsed is Err ==> block_text(source@) is None,
{
    match syn::parse_str::<syn::Block>(source) {
        Ok(block) => Ok(block.to_token_stream().to_string()),
        Err(error) => Err(error),
    }
}

/// Calls `proc_macro2::Literal::string`. Claimed: the literal's text is
/// [`string_literal`] of the argument.
#[verifier::external_body]
pub(crate) fn quote_text(text: &str) -> (literal: String)
    ensures
        literal@ == string_literal(text@),
{
    proc_macro2::Literal::string(text).to_string()
}

} // verus!
