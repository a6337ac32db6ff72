//! The guard, cut into its operands at each top-level `&&`.

use crate::failure::{outcome_view, Failure, FailureKind, FailureView};
use crate::syntax::{expression_text, parse_expression};
use crate::token::{source_of, source_text, Token, TokenView};
use vstd::prelude::*;

verus! {

/// One operand of the guard, as written.
#[derive(Debug, PartialEq, Eq)]
pub struct Operand {
    /// The index of its first token among the tokens of the guard.
    pub start: usize,
    pub tokens: Vec<Token>,
}

/// An [`Operand`] as a mathematical value.
pub struct OperandView {
    pub start: int,
    pub tokens: Seq<TokenView>,
}

impl OperandView {
    /// The index just after the operand's last token.
    pub open spec fn end(self) -> int {
        self.start + self.tokens.len()
    }

    /// The operand is a run of `tokens`, as long as can be, that is not empty
    /// and that no `&&` cuts or begins in.
    pub open spec fn is_run_of(self, tokens: Seq<TokenView>) -> bool {
        &&& 0 <= self.start < self.end() <= tokens.len()
        &&& self.tokens == tokens.subrange(self.start, self.end())
        &&& forall|i: int| self.start <= i < self.end() ==> !splits_at(tokens, i)
        &&& self.end() == tokens.len() || splits_at(tokens, self.end())
    }
}

impl DeepView for Operand {
    type V = OperandView;

    open spec fn deep_view(&self) -> OperandView {
        OperandView { start: self.start as int, tokens: self.tokens.deep_view() }
    }
}

/// One condition of the guard: an operand that is an expression.
#[derive(Debug, PartialEq, Eq)]
pub struct Condition {
    /// The operand's tokens, as written.
    pub tokens: Vec<Token>,
    /// The expression's text. The expansion tests it, and binds it when it is
    /// the first that fails.
    pub text: String,
}

/// A [`Condition`] as a mathematical value.
pub struct ConditionView {
    pub tokens: Seq<TokenView>,
    pub text: Seq<char>,
}

impl DeepView for Condition {
    type V = ConditionView;

    open spec fn deep_view(&self) -> ConditionView {
        ConditionView { tokens: self.tokens.deep_view(), text: self.text@ }
    }
}

/// Whether the operator `&&` stands at `at`: two `&` in a row.
pub open spec fn splits_at(tokens: Seq<TokenView>, at: int) -> bool {
    0 <= at && at + 1 < tokens.len() && tokens[at].is_and() && tokens[at + 1].is_and()
}

/// The first index from `from` on at which `&&` stands, or the length of `tokens`
/// where there is none.
pub open spec fn next_split(tokens: Seq<TokenView>, from: int) -> int
    decreases tokens.len() - from,
{
    if from >= tokens.len() {
        tokens.len() as int
    } else if splits_at(tokens, from) {
        from
    } else {
        next_split(tokens, from + 1)
    }
}

/// [`next_split`] finds the first `&&` from `from` on.
pub proof fn lemma_next_split(tokens: Seq<TokenView>, from: int)
    requires
        0 <= from <= tokens.len(),
    ensures
        from <= next_split(tokens, from) <= tokens.len(),
        next_split(tokens, from) < tokens.len() ==> splits_at(tokens, next_split(tokens, from)),
        forall|i: int| from <= i < next_split(tokens, from) ==> !splits_at(tokens, i),
    decreases tokens.len() - from,
{
    if from < tokens.len() && !splits_at(tokens, from) {
        lemma_next_split(tokens, from + 1);
    }
}

/// An index that no `&&` comes before, and at which one stands or the tokens
/// end, is what [`next_split`] finds.
pub proof fn lemma_next_split_is(tokens: Seq<TokenView>, from: int, cut: int)
    requires
        0 <= from <= cut <= tokens.len(),
        forall|i: int| from <= i < cut ==> !splits_at(tokens, i),
        cut == tokens.len() || splits_at(tokens, cut),
    ensures
        next_split(tokens, from) == cut,
    decreases cut - from,
{
    if from < cut {
        lemma_next_split_is(tokens, from + 1, cut);
    }
}

/// The pieces that begin at `from` or later, where a piece or a `&&` begins at
/// `from`. Two tokens `&` in a row are the operator; a piece is what stands
/// between two operators, before the first or after the last, where that is a
/// token at least. Where it is nothing the guard has no operands at all: see
/// [`operands`], which refuses it.
pub open spec fn pieces_from(tokens: Seq<TokenView>, from: int) -> Seq<OperandView>
    decreases tokens.len() - from,
{
    if from < 0 || from >= tokens.len() {
        Seq::empty()
    } else {
        let cut = next_split(tokens, from);
        let after = if cut < tokens.len() {
            proof {
                lemma_next_split(tokens, from);
            }
            pieces_from(tokens, cut + 2)
        } else {
            Seq::empty()
        };
        if cut == from {
            after
        } else {
            seq![OperandView { start: from, tokens: tokens.subrange(from, cut) }] + after
        }
    }
}

/// The pieces that the operators cut the guard `tokens` into, from the left.
pub open spec fn pieces(tokens: Seq<TokenView>) -> Seq<OperandView> {
    pieces_from(tokens, 0)
}

/// Each piece found from `from` on is a run of the guard's tokens; the runs
/// come in the guard's order, an `&&` between one and the next.
pub proof fn lemma_pieces_from(tokens: Seq<TokenView>, from: int)
    requires
        0 <= from,
    ensures
        forall|k: int|
            0 <= k < pieces_from(tokens, from).len() ==> {
                &&& (#[trigger] pieces_from(tokens, from)[k]).is_run_of(tokens)
                &&& from <= pieces_from(tokens, from)[k].start
            },
        forall|k: int|
            0 <= k && k + 1 < pieces_from(tokens, from).len() ==> (#[trigger] pieces_from(
                tokens,
                from,
            )[k]).end() + 2 <= pieces_from(tokens, from)[k + 1].start,
    decreases tokens.len() - from,
{
    if from < tokens.len() {
        lemma_next_split(tokens, from);
        let cut = next_split(tokens, from);
        if cut < tokens.len() {
            lemma_pieces_from(tokens, cut + 2);
        }
        let after = if cut < tokens.len() {
            pieces_from(tokens, cut + 2)
        } else {
            Seq::empty()
        };
        if cut != from {
            let first = OperandView { start: from, tokens: tokens.subrange(from, cut) };
            assert(first.is_run_of(tokens));
            let found = pieces_from(tokens, from);
            assert(found == seq![first] + after);
            assert forall|k: int| 0 <= k < found.len() implies {
                &&& (#[trigger] found[k]).is_run_of(tokens)
                &&& from <= found[k].start
            } by {
                if k > 0 {
                    assert(found[k] == after[k - 1]);
                }
            }
            assert forall|k: int| 0 <= k && k + 1 < found.len() implies (#[trigger] found[k]).end()
                + 2 <= found[k + 1].start by {
                assert(found[k + 1] == after[k]);
                if k > 0 {
                    assert(found[k] == after[k - 1]);
                }
            }
        }
    }
}

/// Each piece of the guard is a run of its tokens; the runs come in the
/// guard's order, an `&&` between one and the next.
pub proof fn lemma_pieces(tokens: Seq<TokenView>)
    ensures
        forall|k: int|
            0 <= k < pieces(tokens).len() ==> (#[trigger] pieces(tokens)[k]).is_run_of(tokens),
        forall|k: int|
            0 <= k && k + 1 < pieces(tokens).len() ==> (#[trigger] pieces(tokens)[k]).end() + 2
                <= pieces(tokens)[k + 1].start,
{
    lemma_pieces_from(tokens, 0);
}

/// The first operator from `from` on that lacks an operand, where an operand or
/// an operator begins at `from`: one with no token between it and `from`, with
/// no token after it, or with another operator directly after it, in which
/// case it is that other one.
pub open spec fn stray_from(tokens: Seq<TokenView>, from: int) -> Option<int>
    decreases tokens.len() - from,
{
    let cut = next_split(tokens, from);
    if from < 0 || cut >= tokens.len() {
        None
    } else if cut == from || cut + 2 >= tokens.len() {
        Some(cut)
    } else {
        proof {
            lemma_next_split(tokens, from);
        }
        stray_from(tokens, cut + 2)
    }
}

/// The first `&&` of the guard that lacks an operand: one at the start of the
/// guard, at its end, or directly after another `&&`.
pub open spec fn stray_operator(tokens: Seq<TokenView>) -> Option<int> {
    stray_from(tokens, 0)
}

/// What [`stray_from`] finds is an `&&` that stands at `from`, at the end, or
/// directly after another `&&`.
pub proof fn lemma_stray_from(tokens: Seq<TokenView>, from: int)
    requires
        0 <= from <= tokens.len(),
    ensures
        stray_from(tokens, from) matches Some(at) ==> {
            &&& from <= at
            &&& at + 2 <= tokens.len()
            &&& splits_at(tokens, at)
            &&& at == from || at + 2 == tokens.len() || splits_at(tokens, at - 2)
        },
    decreases tokens.len() - from,
{
    lemma_next_split(tokens, from);
    let cut = next_split(tokens, from);
    if cut < tokens.len() && cut != from && cut + 2 < tokens.len() {
        lemma_stray_from(tokens, cut + 2);
    }
}

/// Where no operator from `from` on lacks an operand, the pieces and the
/// operators between them are all the tokens from `from` on: the first piece
/// begins at `from`, each next one two tokens after the one before, and the
/// last ends where the tokens end.
pub proof fn lemma_whole_from(tokens: Seq<TokenView>, from: int)
    requires
        0 <= from < tokens.len(),
        stray_from(tokens, from) is None,
    ensures
        pieces_from(tokens, from).len() > 0,
        pieces_from(tokens, from)[0].start == from,
        pieces_from(tokens, from).last().end() == tokens.len(),
        forall|k: int|
            0 <= k && k + 1 < pieces_from(tokens, from).len() ==> (#[trigger] pieces_from(
                tokens,
                from,
            )[k]).end() + 2 == pieces_from(tokens, from)[k + 1].start,
    decreases tokens.len() - from,
{
    lemma_next_split(tokens, from);
    let cut = next_split(tokens, from);
    let found = pieces_from(tokens, from);
    let first = OperandView { start: from, tokens: tokens.subrange(from, cut) };
    if cut < tokens.len() {
        lemma_whole_from(tokens, cut + 2);
        let after = pieces_from(tokens, cut + 2);
        assert(found == seq![first] + after);
        assert(found.last() == after.last());
        assert forall|k: int| 0 <= k && k + 1 < found.len() implies (#[trigger] found[k]).end() + 2
            == found[k + 1].start by {
            assert(found[k + 1] == after[k]);
            if k > 0 {
                assert(found[k] == after[k - 1]);
            }
        }
    } else {
        assert(found =~= seq![first]);
    }
}

/// The operands of the guard `tokens`, from the left: its pieces, where every
/// `&&` has an operand on each side. Where one has not, the failure stands at
/// the first such `&&`.
pub open spec fn operands(tokens: Seq<TokenView>) -> Result<Seq<OperandView>, FailureView> {
    match stray_operator(tokens) {
        Some(at) => Err(FailureView::at(FailureKind::MissingOperand, at)),
        None => Ok(pieces(tokens)),
    }
}

/// The operands of a guard are runs of its tokens that no `&&` cuts. With one
/// `&&` between each two of them they are the whole guard, so that no token is
/// passed over; a guard has no operand only where it has no token. A guard
/// without operands for an `&&` fails at such an `&&`.
pub proof fn lemma_operands(tokens: Seq<TokenView>)
    ensures
        match operands(tokens) {
            Ok(found) => {
                &&& found.len() == 0 <==> tokens.len() == 0
                &&& forall|k: int| 0 <= k < found.len() ==> (#[trigger] found[k]).is_run_of(tokens)
                &&& found.len() > 0 ==> found[0].start == 0 && found.last().end() == tokens.len()
                &&& forall|k: int|
                    0 <= k && k + 1 < found.len() ==> (#[trigger] found[k]).end() + 2 == found[k
                        + 1].start
            },
            Err(failure) => {
                &&& failure.kind == FailureKind::MissingOperand
                &&& failure.source == Seq::<char>::empty()
                &&& 0 <= failure.position
                &&& failure.position + 2 <= tokens.len()
                &&& splits_at(tokens, failure.position)
                &&& failure.position == 0 || failure.position + 2 == tokens.len() || splits_at(
                    tokens,
                    failure.position - 2,
                )
            },
        },
{
    lemma_pieces(tokens);
    lemma_stray_from(tokens, 0);
    if tokens.len() > 0 && stray_operator(tokens) is None {
        lemma_whole_from(tokens, 0);
    }
}

/// Whether the operator `||` stands at `at`: two `|` in a row.
pub open spec fn alternates_at(tokens: Seq<TokenView>, at: int) -> bool {
    0 <= at && at + 1 < tokens.len() && tokens[at].is_or() && tokens[at + 1].is_or()
}

/// The first index from `from` on at which `||` stands, or the length of `tokens`
/// where there is none.
pub open spec fn next_or(tokens: Seq<TokenView>, from: int) -> int
    decreases tokens.len() - from,
{
    if from >= tokens.len() {
        tokens.len() as int
    } else if alternates_at(tokens, from) {
        from
    } else {
        next_or(tokens, from + 1)
    }
}

/// [`next_or`] finds the first `||` from `from` on.
pub proof fn lemma_next_or(tokens: Seq<TokenView>, from: int)
    requires
        0 <= from <= tokens.len(),
    ensures
        from <= next_or(tokens, from) <= tokens.len(),
        next_or(tokens, from) < tokens.len() ==> alternates_at(tokens, next_or(tokens, from)),
        forall|i: int| from <= i < next_or(tokens, from) ==> !alternates_at(tokens, i),
    decreases tokens.len() - from,
{
    if from < tokens.len() && !alternates_at(tokens, from) {
        lemma_next_or(tokens, from + 1);
    }
}

/// Whether the guard holds both `&&` and `||` outside every group. Cut at its
/// `&&`, such a guard would be grouped otherwise than it reads.
pub open spec fn mixes_operators(tokens: Seq<TokenView>) -> bool {
    next_split(tokens, 0) < tokens.len() && next_or(tokens, 0) < tokens.len()
}

/// A token that is no `&` and stands at `at`, no earlier than `from`, lies in
/// one of the pieces found from `from` on.
pub proof fn lemma_token_lies_in_piece_from(tokens: Seq<TokenView>, from: int, at: int)
    requires
        0 <= from <= at < tokens.len(),
        !tokens[at].is_and(),
    ensures
        exists|k: int|
            0 <= k < pieces_from(tokens, from).len() && (#[trigger] pieces_from(
                tokens,
                from,
            )[k]).start <= at < pieces_from(tokens, from)[k].end(),
    decreases tokens.len() - from,
{
    lemma_next_split(tokens, from);
    let cut = next_split(tokens, from);
    let found = pieces_from(tokens, from);
    if at < cut {
        assert(found[0].start <= at < found[0].end());
    } else {
        lemma_token_lies_in_piece_from(tokens, cut + 2, at);
        let after = pieces_from(tokens, cut + 2);
        let k = choose|k: int| 0 <= k < after.len() && (#[trigger] after[k]).start <= at < after[k].end();
        if cut == from {
            assert(found[k].start <= at < found[k].end());
        } else {
            assert(found[k + 1] == after[k]);
            assert(found[k + 1].start <= at < found[k + 1].end());
        }
    }
}

/// Every token of the guard that is no `&` lies in one of its operands, where
/// the guard has operands. A group is one token: it lies there whole, whatever
/// it holds.
pub proof fn lemma_token_lies_in_operand(tokens: Seq<TokenView>, found: Seq<OperandView>, at: int)
    requires
        operands(tokens) == Ok::<Seq<OperandView>, FailureView>(found),
        0 <= at < tokens.len(),
        !tokens[at].is_and(),
    ensures
        exists|k: int| 0 <= k < found.len() && (#[trigger] found[k]).start <= at < found[k].end(),
{
    lemma_token_lies_in_piece_from(tokens, 0, at);
    let cut = pieces_from(tokens, 0);
    let k = choose|k: int| 0 <= k < cut.len() && (#[trigger] cut[k]).start <= at < cut[k].end();
    assert(found[k].start <= at < found[k].end());
}

/// A group, `&&` and one more token are two operands, whatever the group
/// holds: `(a && b) && c` is `(a && b)` and `c`.
pub proof fn lemma_group_is_one_operand(
    group: TokenView,
    first_and: TokenView,
    second_and: TokenView,
    last: TokenView,
)
    requires
        group.kind is Group,
        first_and.is_and(),
        second_and.is_and(),
        !last.is_and(),
    ensures
        operands(seq![group, first_and, second_and, last]) == Ok::<
            Seq<OperandView>,
            FailureView,
        >(
            seq![
                OperandView { start: 0, tokens: seq![group] },
                OperandView { start: 3, tokens: seq![last] },
            ],
        ),
{
    let tokens = seq![group, first_and, second_and, last];
    assert(!splits_at(tokens, 0));
    assert(splits_at(tokens, 1));
    assert(!splits_at(tokens, 3));
    lemma_next_split_is(tokens, 0, 1);
    lemma_next_split_is(tokens, 3, 4);
    assert(tokens.subrange(0, 1) =~= seq![group]);
    assert(tokens.subrange(3, 4) =~= seq![last]);
    assert(pieces_from(tokens, 3) =~= seq![OperandView { start: 3, tokens: seq![last] }]);
    assert(pieces_from(tokens, 0) =~= seq![
        OperandView { start: 0, tokens: seq![group] },
        OperandView { start: 3, tokens: seq![last] },
    ]);
    assert(stray_from(tokens, 3) is None);
    assert(stray_from(tokens, 0) is None);
}

/// A copy of the tokens from `from` up to `to`.
pub(crate) fn copy_tokens(tokens: &Vec<Token>, from: usize, to: usize) -> (copy: Vec<Token>)
    requires
        from <= to <= tokens.len(),
    ensures
        copy@ == tokens@.subrange(from as int, to as int),
        copy.deep_view() == tokens.deep_view().subrange(from as int, to as int),
{
    let mut copy: Vec<Token> = Vec::new();
    let mut at: usize = from;
    while at < to
        invariant
            from <= at <= to <= tokens.len(),
            copy@ == tokens@.subrange(from as int, at as int),
        decreases to - at,
    {
        copy.push(tokens[at].clone());
        proof {
            assert(copy@ =~= tokens@.subrange(from as int, at + 1));
        }
        at += 1;
    }
    proof {
        assert(copy.deep_view() =~= tokens.deep_view().subrange(from as int, to as int));
    }
    copy
}

/// Cuts the guard into its pieces.
fn cut_pieces(tokens: &Vec<Token>) -> (found: Vec<Operand>)
    ensures
        found.deep_view() == pieces(tokens.deep_view()),
{
    let ghost all = tokens.deep_view();
    let mut found: Vec<Operand> = Vec::new();
    let mut start: usize = 0;
    let mut at: usize = 0;
    while at < tokens.len()
        invariant
            all == tokens.deep_view(),
            start <= at <= tokens.len(),
            forall|i: int| start <= i < at ==> !splits_at(all, i),
            pieces(all) == found.deep_view() + pieces_from(all, start as int),
        decreases tokens.len() - at,
    {
        if tokens[at].is_and() && at + 1 < tokens.len() && tokens[at + 1].is_and() {
            proof {
                assert(splits_at(all, at as int));
                lemma_next_split_is(all, start as int, at as int);
            }
            if start < at {
                let operand = Operand { start, tokens: copy_tokens(tokens, start, at) };
                let ghost before = found.deep_view();
                let ghost made = operand.deep_view();
                found.push(operand);
                proof {
                    assert(found.deep_view() =~= before.push(made));
                    assert(pieces(all) =~= found.deep_view() + pieces_from(all, at + 2));
                }
            }
            at += 2;
            start = at;
        } else {
            at += 1;
        }
    }
    proof {
        lemma_next_split_is(all, start as int, at as int);
    }
    if start < at {
        let operand = Operand { start, tokens: copy_tokens(tokens, start, at) };
        let ghost before = found.deep_view();
        let ghost made = operand.deep_view();
        found.push(operand);
        proof {
            assert(found.deep_view() =~= before.push(made));
            assert(pieces(all) =~= found.deep_view());
        }
    } else {
        proof {
            assert(pieces(all) =~= found.deep_view());
        }
    }
    found
}


/// Looks for an `&&` that lacks an operand.
fn find_stray_operator(tokens: &Vec<Token>) -> (found: Option<usize>)
    ensures
        found matches Some(at) ==> stray_operator(tokens.deep_view()) == Some(at as int),
        found is None ==> stray_operator(tokens.deep_view()) is None,
{
    let ghost all = tokens.deep_view();
    let mut start: usize = 0;
    let mut at: usize = 0;
    while at < tokens.len()
        invariant
            all == tokens.deep_view(),
            start <= at <= tokens.len(),
            forall|i: int| start <= i < at ==> !splits_at(all, i),
            stray_operator(all) == stray_from(all, start as int),
        decreases tokens.len() - at,
    {
        if tokens[at].is_and() && at + 1 < tokens.len() && tokens[at + 1].is_and() {
            proof {
                assert(splits_at(all, at as int));
                lemma_next_split_is(all, start as int, at as int);
            }
            if at == start || at + 2 >= tokens.len() {
                return Some(at);
            }
            at += 2;
            start = at;
        } else {
            at += 1;
        }
    }
    proof {
        lemma_next_split_is(all, start as int, at as int);
    }
    None
}

/// Cuts the guard at each `&&`. A group is one token, so an `&&` inside one
/// cuts nothing; a single `&` stays where it is. An `&&` at the start of the
/// guard, at its end or directly after another one fails the guard.
pub fn split_operands(tokens: &Vec<Token>) -> (found: Result<Vec<Operand>, Failure>)
    ensures
        outcome_view(found) == operands(tokens.deep_view()),
{
    match find_stray_operator(tokens) {
        Some(at) => Err(Failure::at(FailureKind::MissingOperand, at)),
        None => Ok(cut_pieces(tokens)),
    }
}

/// The index of the first `&&` of the guard, or its length.
fn first_and(tokens: &Vec<Token>) -> (at: usize)
    ensures
        at == next_split(tokens.deep_view(), 0),
{
    let ghost all = tokens.deep_view();
    let mut at: usize = 0;
    while at < tokens.len()
        invariant
            all == tokens.deep_view(),
            at <= tokens.len(),
            next_split(all, 0) == next_split(all, at as int),
        decreases tokens.len() - at,
    {
        if tokens[at].is_and() && at + 1 < tokens.len() && tokens[at + 1].is_and() {
            return at;
        }
        at += 1;
    }
    at
}

/// The index of the first `||` of the guard, or its length.
fn first_or(tokens: &Vec<Token>) -> (at: usize)
    ensures
        at == next_or(tokens.deep_view(), 0),
{
    let ghost all = tokens.deep_view();
    let mut at: usize = 0;
    while at < tokens.len()
        invariant
            all == tokens.deep_view(),
            at <= tokens.len(),
            next_or(all, 0) == next_or(all, at as int),
        decreases tokens.len() - at,
    {
        if tokens[at].is_or() && at + 1 < tokens.len() && tokens[at + 1].is_or() {
            return at;
        }
        at += 1;
    }
    at
}

impl ConditionView {
    /// The condition that `operand` is, where `parsed` is what the parser made
    /// of its source text `source`.
    pub open spec fn from_parsed(
        operand: OperandView,
        source: Seq<char>,
        parsed: Option<Seq<char>>,
    ) -> Result<ConditionView, FailureView> {
        match parsed {
            Some(text) => Ok(ConditionView { tokens: operand.tokens, text }),
            None => Err(
                FailureView {
                    kind: FailureKind::MalformedCondition,
                    position: operand.start,
                    source,
                },
            ),
        }
    }

    /// The condition that `operand` is: its tokens with the text of the
    /// expression that they are, or the failure that quotes them where they are
    /// no expression.
    pub open spec fn of(operand: OperandView) -> Result<ConditionView, FailureView> {
        let source = source_of(operand.tokens);
        ConditionView::from_parsed(operand, source, expression_text(source))
    }
}

/// The conditions that `operands` are, or the failure of the first among them
/// that is no expression.
pub open spec fn conditions_of_operands(operands: Seq<OperandView>) -> Result<
    Seq<ConditionView>,
    FailureView,
>
    decreases operands.len(),
{
    if operands.len() == 0 {
        Ok(Seq::empty())
    } else {
        match conditions_of_operands(operands.drop_last()) {
            Err(failure) => Err(failure),
            Ok(conditions) => match ConditionView::of(operands.last()) {
                Err(failure) => Err(failure),
                Ok(condition) => Ok(conditions.push(condition)),
            },
        }
    }
}

/// The conditions of the guard `tokens`, from the left, or why it has none. A
/// guard is refused, in this order: for the first `&&` that lacks an operand;
/// for the first `||` outside every group, where there is an `&&` too; for the
/// first operand that is no expression. A guard without tokens has no
/// conditions and is not refused here.
pub open spec fn conditions_of(tokens: Seq<TokenView>) -> Result<Seq<ConditionView>, FailureView> {
    match operands(tokens) {
        Err(failure) => Err(failure),
        Ok(found) => if mixes_operators(tokens) {
            Err(FailureView::at(FailureKind::MixedOperators, next_or(tokens, 0)))
        } else {
            conditions_of_operands(found)
        },
    }
}

/// The conditions are those of the operands, one for one; a failure is that of
/// the first operand that is no expression.
pub proof fn lemma_conditions_of_operands(operands: Seq<OperandView>)
    ensures
        match conditions_of_operands(operands) {
            Ok(conditions) => {
                &&& conditions.len() == operands.len()
                &&& forall|k: int|
                    0 <= k < operands.len() ==> ConditionView::of(#[trigger] operands[k]) == Ok::<
                        ConditionView,
                        FailureView,
                    >(conditions[k])
            },
            Err(failure) => exists|k: int|
                {
                    &&& 0 <= k < operands.len()
                    &&& ConditionView::of(#[trigger] operands[k]) == Err::<
                        ConditionView,
                        FailureView,
                    >(failure)
                    &&& forall|j: int| 0 <= j < k ==> ConditionView::of(#[trigger] operands[j]) is Ok
                },
        },
    decreases operands.len(),
{
    if operands.len() > 0 {
        let front = operands.drop_last();
        lemma_conditions_of_operands(front);
        match conditions_of_operands(front) {
            Err(failure) => {
                let k = choose|k: int|
                    {
                        &&& 0 <= k < front.len()
                        &&& ConditionView::of(#[trigger] front[k]) == Err::<
                            ConditionView,
                            FailureView,
                        >(failure)
                        &&& forall|j: int| 0 <= j < k ==> ConditionView::of(#[trigger] front[j]) is Ok
                    };
                assert(operands[k] == front[k]);
                assert forall|j: int| 0 <= j < k implies ConditionView::of(
                    #[trigger] operands[j],
                ) is Ok by {
                    assert(operands[j] == front[j]);
                }
            },
            Ok(conditions) => {
                let last = operands.len() - 1;
                match ConditionView::of(operands.last()) {
                    Err(failure) => {
                        assert(operands[last] == operands.last());
                        assert forall|j: int| 0 <= j < last implies ConditionView::of(
                            #[trigger] operands[j],
                        ) is Ok by {
                            assert(operands[j] == front[j]);
                        }
                    },
                    Ok(condition) => {
                        assert forall|k: int| 0 <= k < operands.len() implies ConditionView::of(
                            #[trigger] operands[k],
                        ) == Ok::<ConditionView, FailureView>(conditions.push(condition)[k]) by {
                            if k < last {
                                assert(operands[k] == front[k]);
                            }
                        }
                    },
                }
            },
        }
    }
}

/// Why a guard fails, and where. The failure stands at a token of the guard:
/// at an `&&` that lacks an operand, at a `||` beside an `&&`, or at the first
/// token of an operand that is no expression, whose text it then quotes.
pub proof fn lemma_failure_of_guard(tokens: Seq<TokenView>)
    ensures
        conditions_of(tokens) matches Err(failure) ==> {
            &&& 0 <= failure.position < tokens.len()
            &&& match failure.kind {
                FailureKind::MissingOperand => stray_operator(tokens) == Some(failure.position)
                    && splits_at(tokens, failure.position),
                FailureKind::MixedOperators => {
                    &&& stray_operator(tokens) is None
                    &&& next_split(tokens, 0) < tokens.len()
                    &&& alternates_at(tokens, failure.position)
                    &&& forall|i: int| 0 <= i < failure.position ==> !alternates_at(tokens, i)
                },
                FailureKind::MalformedCondition => {
                    &&& stray_operator(tokens) is None
                    &&& !mixes_operators(tokens)
                    &&& exists|k: int|
                        {
                            &&& 0 <= k < pieces(tokens).len()
                            &&& failure.position == (#[trigger] pieces(tokens)[k]).start
                            &&& failure.source == source_of(pieces(tokens)[k].tokens)
                            &&& expression_text(failure.source) is None
                            &&& forall|j: int|
                                0 <= j < k ==> ConditionView::of(#[trigger] pieces(tokens)[j]) is Ok
                        }
                },
                _ => false,
            }
        },
{
    lemma_operands(tokens);
    lemma_next_or(tokens, 0);
    lemma_conditions_of_operands(pieces(tokens));
}

/// Whether the guard ends in the operator: in two `&`, with no third before
/// them.
pub open spec fn ends_in_operator(tokens: Seq<TokenView>) -> bool {
    &&& splits_at(tokens, tokens.len() - 2)
    &&& tokens.len() >= 3 ==> !tokens[tokens.len() - 3].is_and()
}

/// Where the guard ends in the operator, an operator from `from` on lacks an
/// operand.
pub proof fn lemma_trailing_operator_from(tokens: Seq<TokenView>, from: int)
    requires
        0 <= from <= tokens.len() - 2,
        ends_in_operator(tokens),
    ensures
        stray_from(tokens, from) is Some,
    decreases tokens.len() - from,
{
    lemma_next_split(tokens, from);
    let cut = next_split(tokens, from);
    if cut != from && cut + 2 < tokens.len() {
        lemma_trailing_operator_from(tokens, cut + 2);
    }
}

/// The guards that are refused for their operators, whatever their operands
/// are: one that begins with `&&`, one that ends in `&&`, and one that holds
/// `||` beside `&&` outside every group.
pub proof fn lemma_refused_for_operators(tokens: Seq<TokenView>)
    ensures
        splits_at(tokens, 0) ==> stray_operator(tokens) == Some(0int),
        ends_in_operator(tokens) ==> stray_operator(tokens) is Some,
        stray_operator(tokens) matches Some(at) ==> conditions_of(tokens) == Err::<
            Seq<ConditionView>,
            FailureView,
        >(FailureView::at(FailureKind::MissingOperand, at)),
        stray_operator(tokens) is None && mixes_operators(tokens) ==> conditions_of(tokens) == Err::<
            Seq<ConditionView>,
            FailureView,
        >(FailureView::at(FailureKind::MixedOperators, next_or(tokens, 0))),
        mixes_operators(tokens) ==> conditions_of(tokens) is Err,
{
    if ends_in_operator(tokens) {
        lemma_trailing_operator_from(tokens, 0);
    }
}

/// A guard that is not refused has a condition for each operand, and has none
/// only where it has no token.
pub proof fn lemma_conditions_of(tokens: Seq<TokenView>)
    ensures
        conditions_of(tokens) matches Ok(conditions) ==> {
            &&& operands(tokens) matches Ok(found) && found.len() == conditions.len()
                && forall|k: int|
                0 <= k < found.len() ==> ConditionView::of(#[trigger] found[k]) == Ok::<
                    ConditionView,
                    FailureView,
                >(conditions[k])
            &&& conditions.len() == 0 <==> tokens.len() == 0
        },
{
    lemma_operands(tokens);
    lemma_conditions_of_operands(pieces(tokens));
}

impl Condition {
    /// Makes a condition of `operand`, given what the parser made of its source
    /// text `source`: the expression's text, or an error.
    pub fn from_parsed(
        operand: &Operand,
        source: String,
        parsed: Result<String, syn::Error>,
    ) -> (condition: Result<Condition, Failure>)
        ensures
            parsed matches Ok(text) ==> outcome_view(condition) == ConditionView::from_parsed(
                operand.deep_view(),
                source@,
                Some(text@),
            ),
            parsed is Err ==> outcome_view(condition) == ConditionView::from_parsed(
                operand.deep_view(),
                source@,
                None,
            ),
    {
        match parsed {
            Ok(text) => {
                let tokens = copy_tokens(&operand.tokens, 0, operand.tokens.len());
                proof {
                    assert(tokens.deep_view() =~= operand.tokens.deep_view());
                }
                Ok(Condition { tokens, text })
            },
            Err(_) => Err(
                Failure { kind: FailureKind::MalformedCondition, position: operand.start, source },
            ),
        }
    }

    /// Makes a condition of `operand`, which must be one whole expression.
    pub fn parse(operand: &Operand) -> (condition: Result<Condition, Failure>)
        ensures
            outcome_view(condition) == ConditionView::of(operand.deep_view()),
    {
        let source = source_text(&operand.tokens);
        let parsed = parse_expression(source.as_str());
        Condition::from_parsed(operand, source, parsed)
    }
}

/// Cuts the guard at each top-level `&&` and makes a condition of each operand,
/// from the left. What fails the whole, in this order: an `&&` that lacks an
/// operand, a `||` beside the `&&`, an operand that is no expression.
pub fn split_conditions(tokens: &Vec<Token>) -> (conditions: Result<Vec<Condition>, Failure>)
    ensures
        outcome_view(conditions) == conditions_of(tokens.deep_view()),
{
    let found = match split_operands(tokens) {
        Ok(found) => found,
        Err(failure) => {
            return Err(failure);
        },
    };
    if first_and(tokens) < tokens.len() {
        let or = first_or(tokens);
        if or < tokens.len() {
            return Err(Failure::at(FailureKind::MixedOperators, or));
        }
    }
    let mut conditions: Vec<Condition> = Vec::new();
    let mut at: usize = 0;
    proof {
        assert(conditions.deep_view() =~= Seq::empty());
    }
    while at < found.len()
        invariant
            at <= found.len(),
            conditions_of(tokens.deep_view()) == conditions_of_operands(found.deep_view()),
            conditions_of_operands(found.deep_view().take(at as int)) == Ok::<
                Seq<ConditionView>,
                FailureView,
            >(conditions.deep_view()),
        decreases found.len() - at,
    {
        proof {
            let all = found.deep_view();
            assert(all.take(at + 1).drop_last() == all.take(at as int));
            assert(all.take(at + 1).last() == found[at as int].deep_view());
        }
        match Condition::parse(&found[at]) {
            Err(failure) => {
                proof {
                    lemma_failure_stays(found.deep_view(), at + 1);
                }
                return Err(failure);
            },
            Ok(condition) => {
                let ghost before = conditions.deep_view();
                let ghost made = condition.deep_view();
                conditions.push(condition);
                proof {
                    assert(conditions.deep_view() =~= before.push(made));
                }
            },
        }
        at += 1;
    }
    proof {
        let all = found.deep_view();
        assert(all.take(found.len() as int) == all);
    }
    Ok(conditions)
}

/// A failure among the first `upto` operands is the failure of the whole.
pub proof fn lemma_failure_stays(operands: Seq<OperandView>, upto: int)
    requires
        0 <= upto <= operands.len(),
        conditions_of_operands(operands.take(upto)) is Err,
    ensures
        conditions_of_operands(operands) == conditions_of_operands(operands.take(upto)),
    decreases operands.len() - upto,
{
    if upto < operands.len() {
        assert(operands.take(upto + 1).drop_last() == operands.take(upto));
        lemma_failure_stays(operands, upto + 1);
    } else {
        assert(operands.take(upto) == operands);
    }
}

} // verus!
