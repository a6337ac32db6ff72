//! The code that takes the invocation's place: one branch for each condition,
//! each the `else` of the one before it, and no `else` after the last.

use crate::failure::{outcome_view, Failure, FailureKind, FailureView};
use crate::parse::{Invocation, WhichFailedInput, GUARD_START};
use crate::split::{Condition, ConditionView};
use crate::syntax::{quote_text, string_literal};
use vstd::prelude::*;

verus! {

/// One branch: `if` guard `{ let` name `=` text `;` body `}`.
#[derive(Debug, PartialEq, Eq)]
pub struct Branch {
    /// The condition, negated.
    pub guard: String,
    /// The condition's text, which the branch binds.
    pub text: String,
    /// The block that the branch runs.
    pub body: String,
}

/// A [`Branch`] as a mathematical value.
pub struct BranchView {
    pub guard: Seq<char>,
    pub text: Seq<char>,
    pub body: Seq<char>,
}

impl DeepView for Branch {
    type V = BranchView;

    open spec fn deep_view(&self) -> BranchView {
        BranchView { guard: self.guard@, text: self.text@, body: self.body@ }
    }
}

/// The expression that holds when the expression `text` does not.
pub open spec fn negation(text: Seq<char>) -> Seq<char> {
    "! ("@ + text + ")"@
}

impl BranchView {
    /// The branch made for `condition`, to run `body`.
    pub open spec fn of(condition: ConditionView, body: Seq<char>) -> BranchView {
        BranchView { guard: negation(condition.text), text: condition.text, body }
    }

    /// The branch's code, where `literal` is the string literal to bind `name` to.
    pub open spec fn code_with(self, name: Seq<char>, literal: Seq<char>) -> Seq<char> {
        "if "@ + self.guard + " { let "@ + name + " = "@ + literal + " ; "@ + self.body + " }"@
    }

    /// The branch's code: it binds `name` to a literal that stands for the text.
    pub open spec fn code(self, name: Seq<char>) -> Seq<char> {
        self.code_with(name, string_literal(self.text))
    }
}

impl Branch {
    /// The branch that tests `condition` and runs `body` when it fails.
    pub fn new(condition: &Condition, body: &String) -> (branch: Branch)
        ensures
            branch.deep_view() == BranchView::of(condition.deep_view(), body@),
    {
        let mut guard = String::from_str("! (");
        guard.append(condition.text.as_str());
        guard.append(")");
        Branch { guard, text: condition.text.clone(), body: body.clone() }
    }

    /// The branch's code, given the string literal that stands for its text.
    pub fn render_with(&self, name: &str, literal: &str) -> (code: String)
        ensures
            code@ == self.deep_view().code_with(name@, literal@),
    {
        let mut code = String::from_str("if ");
        code.append(self.guard.as_str());
        code.append(" { let ");
        code.append(name);
        code.append(" = ");
        code.append(literal);
        code.append(" ; ");
        code.append(self.body.as_str());
        code.append(" }");
        code
    }

    /// The branch's code.
    pub fn render(&self, name: &str) -> (code: String)
        ensures
            code@ == self.deep_view().code(name@),
    {
        let literal = quote_text(self.text.as_str());
        self.render_with(name, literal.as_str())
    }
}

/// The branches made for `conditions`, in their order, each to run `body`.
pub open spec fn branches_of(conditions: Seq<ConditionView>, body: Seq<char>) -> Seq<BranchView> {
    Seq::new(conditions.len(), |i: int| BranchView::of(conditions[i], body))
}

/// What joins a branch to the branches before it.
pub open spec fn link_after(before: Seq<BranchView>) -> Seq<char> {
    if before.len() == 0 {
        Seq::empty()
    } else {
        " else "@
    }
}

/// The code of `branches`, each the `else` of the one before it.
pub open spec fn chain_code(name: Seq<char>, branches: Seq<BranchView>) -> Seq<char>
    decreases branches.len(),
{
    if branches.len() == 0 {
        Seq::empty()
    } else {
        chain_code(name, branches.drop_last()) + link_after(branches.drop_last())
            + branches.last().code(name)
    }
}

/// A [`BranchChain`] as a mathematical value.
pub struct Cascade {
    pub binding: Seq<char>,
    pub branches: Seq<BranchView>,
}

impl Cascade {
    /// There is a branch, and each branch's guard negates the text that it binds.
    pub open spec fn wf(self) -> bool {
        &&& self.branches.len() > 0
        &&& forall|i: int|
            0 <= i < self.branches.len() ==> (#[trigger] self.branches[i]).guard == negation(
                self.branches[i].text,
            )
    }

    /// The cascade made for `invocation`, or the failure where it has no condition.
    pub open spec fn of(invocation: Invocation) -> Result<Cascade, FailureView> {
        if invocation.conditions.len() == 0 {
            Err(FailureView::at(FailureKind::NoConditions, GUARD_START as int))
        } else {
            Ok(
                Cascade {
                    binding: invocation.binding,
                    branches: branches_of(invocation.conditions, invocation.body),
                },
            )
        }
    }

    /// The cascade's code.
    pub open spec fn code(self) -> Seq<char> {
        chain_code(self.binding, self.branches)
    }

    /// The branch that runs when control reaches branch `from` and condition `i`
    /// has the value `truth[i]`: a branch whose condition holds hands over to
    /// its `else`, and after the last branch nothing runs.
    pub open spec fn runs_from(self, truth: Seq<bool>, from: int) -> Option<int>
        decreases self.branches.len() - from,
    {
        if from >= self.branches.len() {
            None
        } else if !truth[from] {
            Some(from)
        } else {
            self.runs_from(truth, from + 1)
        }
    }

    /// The branch that runs when condition `i` has the value `truth[i]`.
    pub open spec fn runs(self, truth: Seq<bool>) -> Option<int> {
        self.runs_from(truth, 0)
    }

    /// How many conditions are evaluated once control reaches branch `from`:
    /// each branch evaluates its own, and only one whose condition holds hands
    /// over to the next.
    pub open spec fn evaluated_from(self, truth: Seq<bool>, from: int) -> int
        decreases self.branches.len() - from,
    {
        if from >= self.branches.len() {
            0
        } else if !truth[from] {
            1
        } else {
            1 + self.evaluated_from(truth, from + 1)
        }
    }

    /// How many conditions are evaluated: the first so many.
    pub open spec fn evaluated(self, truth: Seq<bool>) -> int {
        self.evaluated_from(truth, 0)
    }

    /// From branch `from` on, the conditions evaluated are those up to the first
    /// that is false, that one included.
    pub proof fn lemma_evaluated_from(self, truth: Seq<bool>, from: int)
        requires
            0 <= from <= self.branches.len(),
        ensures
            0 <= self.evaluated_from(truth, from) <= self.branches.len() - from,
            forall|i: int|
                from <= i < from + self.evaluated_from(truth, from) - 1 ==> truth[i],
            self.runs_from(truth, from) matches Some(branch) ==> self.evaluated_from(truth, from)
                == branch - from + 1,
            self.runs_from(truth, from) is None ==> self.evaluated_from(truth, from)
                == self.branches.len() - from,
        decreases self.branches.len() - from,
    {
        if from < self.branches.len() && truth[from] {
            self.lemma_evaluated_from(truth, from + 1);
        }
    }

    /// A condition is evaluated if and only if every condition before it holds:
    /// as in the conjunction that the cascade stands for.
    pub proof fn lemma_evaluated_iff_earlier_hold(self, truth: Seq<bool>, index: int)
        requires
            0 <= index < self.branches.len(),
        ensures
            index < self.evaluated(truth) <==> forall|i: int| 0 <= i < index ==> truth[i],
    {
        self.lemma_evaluated_from(truth, 0);
        self.lemma_runs_from(truth, 0);
    }

    /// From branch `from` on, the branch that runs is that of the first
    /// condition that is false, and none runs where all of them hold.
    pub proof fn lemma_runs_from(self, truth: Seq<bool>, from: int)
        requires
            0 <= from,
        ensures
            match self.runs_from(truth, from) {
                Some(branch) => {
                    &&& from <= branch < self.branches.len()
                    &&& !truth[branch]
                    &&& forall|i: int| from <= i < branch ==> truth[i]
                },
                None => forall|i: int| from <= i < self.branches.len() ==> truth[i],
            },
        decreases self.branches.len() - from,
    {
        if from < self.branches.len() && truth[from] {
            self.lemma_runs_from(truth, from + 1);
        }
    }

    /// Where the conditions before `first` hold and that at `first` does not,
    /// the branch of `first` is the one that runs.
    pub proof fn lemma_first_false_runs(self, truth: Seq<bool>, first: int)
        requires
            0 <= first < self.branches.len(),
            !truth[first],
            forall|i: int| 0 <= i < first ==> truth[i],
        ensures
            self.runs(truth) == Some(first),
    {
        self.lemma_runs_from(truth, 0);
    }

    /// No branch runs if and only if every condition holds: just when the
    /// conjunction of the conditions holds.
    pub proof fn lemma_runs_nothing_iff_all_hold(self, truth: Seq<bool>)
        ensures
            self.runs(truth) is None <==> forall|i: int| 0 <= i < self.branches.len() ==> truth[i],
    {
        self.lemma_runs_from(truth, 0);
    }

    /// The cascade made for an invocation has one branch for each condition, in
    /// their order, and is well formed.
    pub proof fn lemma_of(invocation: Invocation)
        ensures
            Cascade::of(invocation) is Ok <==> invocation.conditions.len() > 0,
            Cascade::of(invocation) matches Ok(cascade) ==> {
                &&& cascade.wf()
                &&& cascade.binding == invocation.binding
                &&& cascade.branches.len() == invocation.conditions.len()
                &&& forall|i: int|
                    0 <= i < cascade.branches.len() ==> #[trigger] cascade.branches[i]
                        == BranchView::of(invocation.conditions[i], invocation.body)
            },
    {
    }

    /// One condition gives one branch, and no `else`: the code is that of the
    /// branch alone.
    pub proof fn lemma_single_condition(invocation: Invocation)
        requires
            invocation.conditions.len() == 1,
        ensures
            Cascade::of(invocation) matches Ok(cascade) && {
                &&& cascade.branches.len() == 1
                &&& cascade.code() == BranchView::of(
                    invocation.conditions[0],
                    invocation.body,
                ).code(invocation.binding)
            },
    {
        let branches = branches_of(invocation.conditions, invocation.body);
        assert(chain_code(invocation.binding, branches.drop_last()) =~= Seq::empty());
        assert(chain_code(invocation.binding, branches) =~= branches[0].code(invocation.binding));
    }
}

/// The cascade of branches made for one invocation.
#[derive(Debug, PartialEq, Eq)]
pub struct BranchChain {
    binding: String,
    branches: Vec<Branch>,
}

impl DeepView for BranchChain {
    type V = Cascade;

    closed spec fn deep_view(&self) -> Cascade {
        Cascade { binding: self.binding@, branches: self.branches.deep_view() }
    }
}

impl BranchChain {
    #[verifier::type_invariant]
    spec fn well_formed(self) -> bool {
        self.deep_view().wf()
    }

    /// The name that each branch binds.
    pub fn binding(&self) -> (name: &String)
        ensures
            name@ == self.deep_view().binding,
    {
        &self.binding
    }

    /// The branches, in the order in which they are tried.
    pub fn branches(&self) -> (branches: &Vec<Branch>)
        ensures
            branches.deep_view() == self.deep_view().branches,
            branches.len() > 0,
            forall|i: int|
                0 <= i < branches.len() ==> (#[trigger] branches[i]).deep_view()
                    == self.deep_view().branches[i],
            self.deep_view().wf(),
    {
        proof {
            use_type_invariant(self);
        }
        &self.branches
    }

    /// The code of the whole cascade.
    pub fn render(&self) -> (code: String)
        ensures
            code@ == self.deep_view().code(),
    {
        let mut code = String::new();
        let mut at: usize = 0;
        while at < self.branches.len()
            invariant
                at <= self.branches.len(),
                code@ == chain_code(self.binding@, self.branches.deep_view().take(at as int)),
            decreases self.branches.len() - at,
        {
            if at > 0 {
                code.append(" else ");
            }
            let branch = self.branches[at].render(self.binding.as_str());
            code.append(branch.as_str());
            proof {
                let all = self.branches.deep_view();
                assert(all.take(at + 1).drop_last() == all.take(at as int));
            }
            at += 1;
        }
        proof {
            let all = self.branches.deep_view();
            assert(all.take(self.branches.len() as int) == all);
        }
        code
    }

    /// The branch that runs when condition `i` has the value `truth[i]`, if any.
    pub fn runs(&self, truth: &Vec<bool>) -> (branch: Option<usize>)
        requires
            truth.len() == self.deep_view().branches.len(),
        ensures
            branch.is_some() == self.deep_view().runs(truth@).is_some(),
            branch matches Some(index) ==> self.deep_view().runs(truth@) == Some(index as int),
    {
        let mut at: usize = 0;
        while at < self.branches.len()
            invariant
                at <= self.branches.len(),
                truth.len() == self.branches.len(),
                self.deep_view().runs(truth@) == self.deep_view().runs_from(truth@, at as int),
            decreases self.branches.len() - at,
        {
            if !truth[at] {
                return Some(at);
            }
            at += 1;
        }
        None
    }
}

/// The cascade for `input`: one branch for each condition, in their order. An
/// input without a condition is refused.
pub fn generate(input: &WhichFailedInput) -> (chain: Result<BranchChain, Failure>)
    ensures
        outcome_view(chain) == Cascade::of(input.deep_view()),
{
    if input.conditions.len() == 0 {
        return Err(Failure::at(FailureKind::NoConditions, GUARD_START));
    }
    let mut branches: Vec<Branch> = Vec::new();
    let mut at: usize = 0;
    while at < input.conditions.len()
        invariant
            at <= input.conditions.len(),
            branches.deep_view() == branches_of(
                input.conditions.deep_view().take(at as int),
                input.body@,
            ),
        decreases input.conditions.len() - at,
    {
        let branch = Branch::new(&input.conditions[at], &input.body);
        let ghost made = branches.deep_view().push(branch.deep_view());
        branches.push(branch);
        proof {
            let conditions = input.conditions.deep_view();
            assert(branches.deep_view() =~= made);
            assert(made =~= branches_of(conditions.take(at + 1), input.body@));
        }
        at += 1;
    }
    proof {
        let conditions = input.conditions.deep_view();
        assert(conditions.take(input.conditions.len() as int) == conditions);
    }
    Ok(BranchChain { binding: input.binding.clone(), branches })
}

} // verus!
