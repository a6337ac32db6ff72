//! Tokens as the expansion sees them: a kind, and the text as written.
//!
//! A group (anything between a pair of delimiters) is one token. Nothing here
//! looks inside it.

use vstd::prelude::*;

verus! {

/// What encloses a group.
#[derive(Clone, Copy, Debug, PartialEq, Eq, Structural)]
pub enum Delimiter {
    /// `( .. )`
    Parenthesis,
    /// `{ .. }`
    Brace,
    /// `[ .. ]`
    Bracket,
    /// Nothing that is written: a group made by an earlier expansion. Its text
    /// is to be given in parentheses, so that it is read as one operand.
    Invisible,
}

/// Whether a punctuation character is followed at once by another one.
#[derive(Clone, Copy, Debug, PartialEq, Eq, Structural)]
pub enum Spacing {
    Alone,
    Joint,
}

#[derive(Clone, Copy, Debug, PartialEq, Eq, Structural)]
pub enum TokenKind {
    /// An identifier or a keyword.
    Ident,
    /// One punctuation character.
    Punct(Spacing),
    Literal,
    /// A delimited group, its delimiters included.
    Group(Delimiter),
}

/// One token of an invocation.
#[derive(Debug, PartialEq, Eq)]
pub struct Token {
    pub kind: TokenKind,
    /// The token as written. For a group, the whole group.
    pub text: String,
}

/// A [`Token`] as a mathematical value.
pub struct TokenView {
    pub kind: TokenKind,
    pub text: Seq<char>,
}

impl TokenView {
    /// One half of the operator `&&`.
    pub open spec fn is_and(self) -> bool {
        self.kind is Punct && self.text == "&"@
    }

    /// One half of the operator `||`.
    pub open spec fn is_or(self) -> bool {
        self.kind is Punct && self.text == "|"@
    }

    /// The separator between the binding and the guard.
    pub open spec fn is_comma(self) -> bool {
        self.kind is Punct && self.text == ","@
    }

    /// The keyword that introduces the guard.
    pub open spec fn is_guard_keyword(self) -> bool {
        self.kind is Ident && self.text == "if"@
    }

    /// A group in braces: where the guard ends and the block begins.
    pub open spec fn opens_block(self) -> bool {
        self.kind == TokenKind::Group(Delimiter::Brace)
    }

    /// A punctuation character that the next token follows without a space.
    pub open spec fn is_joint(self) -> bool {
        self.kind == TokenKind::Punct(Spacing::Joint)
    }
}

impl DeepView for Token {
    type V = TokenView;

    open spec fn deep_view(&self) -> TokenView {
        TokenView { kind: self.kind, text: self.text@ }
    }
}

impl Clone for Token {
    fn clone(&self) -> (copy: Self)
        ensures
            copy == *self,
    {
        Token { kind: self.kind, text: self.text.clone() }
    }
}

/// What stands between the tokens of `before` and the token that follows them:
/// a space, but nothing at the start and nothing after a joint character.
pub open spec fn gap_after(before: Seq<TokenView>) -> Seq<char> {
    if before.len() == 0 || before.last().is_joint() {
        Seq::empty()
    } else {
        " "@
    }
}

/// The source text of a run of tokens.
pub open spec fn source_of(tokens: Seq<TokenView>) -> Seq<char>
    decreases tokens.len(),
{
    if tokens.len() == 0 {
        Seq::empty()
    } else {
        source_of(tokens.drop_last()) + gap_after(tokens.drop_last()) + tokens.last().text
    }
}

/// Whether two texts hold the same characters.
pub fn same_text(left: &str, right: &str) -> (same: bool)
    ensures
        same == (left@ == right@),
{
    let length = left.unicode_len();
    if right.unicode_len() != length {
        return false;
    }
    let mut at: usize = 0;
    while at < length
        invariant
            length == left@.len(),
            length == right@.len(),
            at <= length,
            left@.take(at as int) == right@.take(at as int),
        decreases length - at,
    {
        if left.get_char(at) != right.get_char(at) {
            return false;
        }
        proof {
            assert(left@.take(at + 1) == left@.take(at as int).push(left@[at as int]));
            assert(right@.take(at + 1) == right@.take(at as int).push(right@[at as int]));
        }
        at += 1;
    }
    proof {
        assert(left@.take(length as int) == left@);
        assert(right@.take(length as int) == right@);
    }
    true
}

impl Token {
    pub fn is_and(&self) -> (yes: bool)
        ensures
            yes == self.deep_view().is_and(),
    {
        match self.kind {
            TokenKind::Punct(_) => same_text(self.text.as_str(), "&"),
            _ => false,
        }
    }

    pub fn is_or(&self) -> (yes: bool)
        ensures
            yes == self.deep_view().is_or(),
    {
        match self.kind {
            TokenKind::Punct(_) => same_text(self.text.as_str(), "|"),
            _ => false,
        }
    }

    pub fn is_comma(&self) -> (yes: bool)
        ensures
            yes == self.deep_view().is_comma(),
    {
        match self.kind {
            TokenKind::Punct(_) => same_text(self.text.as_str(), ","),
            _ => false,
        }
    }

    pub fn is_guard_keyword(&self) -> (yes: bool)
        ensures
            yes == self.deep_view().is_guard_keyword(),
    {
        match self.kind {
            TokenKind::Ident => same_text(self.text.as_str(), "if"),
            _ => false,
        }
    }

    pub fn opens_block(&self) -> (yes: bool)
        ensures
            yes == self.deep_view().opens_block(),
    {
        match self.kind {
            TokenKind::Group(Delimiter::Brace) => true,
            _ => false,
        }
    }

    pub fn is_joint(&self) -> (yes: bool)
        ensures
            yes == self.deep_view().is_joint(),
    {
        match self.kind {
            TokenKind::Punct(Spacing::Joint) => true,
            _ => false,
        }
    }
}

/// The source text of `tokens`: their texts in order, a space between two of
/// them unless the first is a joint punctuation character.
pub fn source_text(tokens: &Vec<Token>) -> (text: String)
    ensures
        text@ == source_of(tokens.deep_view()),
{
    let mut text = String::new();
    let mut at: usize = 0;
    while at < tokens.len()
        invariant
            at <= tokens.len(),
            text@ == source_of(tokens.deep_view().take(at as int)),
        decreases tokens.len() - at,
    {
        if at > 0 && !tokens[at - 1].is_joint() {
            text.append(" ");
        }
        text.append(tokens[at].text.as_str());
        proof {
            let all = tokens.deep_view();
            assert(all.take(at + 1).drop_last() == all.take(at as int));
        }
        at += 1;
    }
    proof {
        assert(tokens.deep_view().take(tokens.len() as int) == tokens.deep_view());
    }
    text
}

} // verus!
