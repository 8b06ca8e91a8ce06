//! Formulas as syntax trees: the mathematical objects that the token
//! sequences encode.

use crate::semantics::{
    connect, is_postfix_formula, lemma_run_concat, lemma_run_push, lemma_run_shape, run,
};
use crate::token::Token;
use vstd::arithmetic::power2::{
    lemma2_to64, lemma_pow2_strictly_increases, lemma_pow2_unfold, pow2,
};
use vstd::prelude::*;

verus! {

/// A binary connective.
pub enum Connective {
    And,
    Or,
    Impls,
    BiImpls,
}

impl Connective {
    /// The token that stands for the connective in a token sequence.
    pub open spec fn token(self) -> Token {
        match self {
            Connective::And => Token::And,
            Connective::Or => Token::Or,
            Connective::Impls => Token::Impls,
            Connective::BiImpls => Token::BiImpls,
        }
    }
}

/// The syntax tree of a formula: variables at the leaves, negation and the
/// binary connectives at the inner nodes.
pub enum Formula {
    Var(u32),
    Not(Box<Formula>),
    Binary(Connective, Box<Formula>, Box<Formula>),
}

impl Formula {
    /// The tokens of the formula in postorder: each operand in full, the left
    /// one first, and then the operator that joins them.
    pub open spec fn postfix(self) -> Seq<Token>
        decreases self,
    {
        match self {
            Formula::Var(index) => seq![Token::Var(index)],
            Formula::Not(operand) => operand.postfix().push(Token::Not),
            Formula::Binary(connective, left, right) => (left.postfix() + right.postfix()).push(
                connective.token(),
            ),
        }
    }

    /// The height of the tree; a single variable has height one.
    pub open spec fn height(self) -> nat
        decreases self,
    {
        match self {
            Formula::Var(_) => 1,
            Formula::Not(operand) => operand.height() + 1,
            Formula::Binary(_, left, right) => if left.height() >= right.height() {
                left.height() + 1
            } else {
                right.height() + 1
            },
        }
    }

    /// Every variable of the formula has an index below `var_count`.
    pub open spec fn within(self, var_count: nat) -> bool
        decreases self,
    {
        match self {
            Formula::Var(index) => index < var_count,
            Formula::Not(operand) => operand.within(var_count),
            Formula::Binary(_, left, right) => left.within(var_count) && right.within(var_count),
        }
    }

    /// The truth value of the formula under `assignment`.
    pub open spec fn value(self, assignment: Seq<bool>) -> bool
        decreases self,
    {
        match self {
            Formula::Var(index) => assignment[index as int],
            Formula::Not(operand) => !operand.value(assignment),
            Formula::Binary(connective, left, right) => connect(
                connective.token(),
                left.value(assignment),
                right.value(assignment),
            ),
        }
    }
}

/// No token of the sequence is a truth value.
pub open spec fn has_no_truth_value(tokens: Seq<Token>) -> bool {
    forall|k: int| 0 <= k < tokens.len() ==> !((#[trigger] tokens[k]) is Bool)
}

/// `formula` is a tree of height at most `depth` over `var_count` variables,
/// and `tokens` is its postfix form.
pub open spec fn encodes(formula: Formula, tokens: Seq<Token>, var_count: nat, depth: nat) -> bool {
    formula.postfix() == tokens && formula.height() <= depth && formula.within(var_count)
}

/// `tokens` is the postfix form of some formula of height at most `depth`
/// over `var_count` variables.
pub open spec fn is_generated(tokens: Seq<Token>, var_count: nat, depth: nat) -> bool {
    exists|formula: Formula| encodes(formula, tokens, var_count, depth)
}

/// The stack machine computes the value of a formula from its postfix form:
/// it gets through the whole sequence and leaves the value of the formula as
/// the only entry on the stack.
pub proof fn lemma_postfix_runs(formula: Formula, assignment: Seq<bool>)
    requires
        formula.within(assignment.len()),
    ensures
        run(formula.postfix(), assignment) == Some(seq![formula.value(assignment)]),
    decreases formula,
{
    match formula {
        Formula::Var(index) => {
            lemma_run_push(Seq::empty(), Token::Var(index), assignment);
            assert(Seq::<Token>::empty().push(Token::Var(index)) =~= formula.postfix());
            assert(Seq::<bool>::empty().push(assignment[index as int]) =~= seq![
                formula.value(assignment),
            ]);
        },
        Formula::Not(operand) => {
            lemma_postfix_runs(*operand, assignment);
            lemma_run_push(operand.postfix(), Token::Not, assignment);
            let stack = seq![operand.value(assignment)];
            assert(stack.drop_last().push(!stack.last()) =~= seq![formula.value(assignment)]);
        },
        Formula::Binary(connective, left, right) => {
            lemma_postfix_runs(*left, assignment);
            lemma_postfix_runs(*right, assignment);
            lemma_run_concat(left.postfix(), right.postfix(), assignment);
            lemma_run_push(left.postfix() + right.postfix(), connective.token(), assignment);
            let stack = seq![left.value(assignment)] + seq![right.value(assignment)];
            assert(stack.take(stack.len() - 2).push(
                connect(connective.token(), stack[stack.len() - 2], stack.last()),
            ) =~= seq![formula.value(assignment)]);
        },
    }
}

/// The postfix form of a formula over `var_count` variables meets the
/// invariant of a formula buffer.
pub proof fn lemma_postfix_is_well_formed(formula: Formula, var_count: nat)
    requires
        formula.within(var_count),
    ensures
        is_postfix_formula(formula.postfix(), var_count),
{
    let assignment = Seq::new(var_count, |k: int| true);
    lemma_postfix_runs(formula, assignment);
    lemma_run_shape(formula.postfix(), assignment);
}

/// A formula of height `h` has fewer than `2^h` tokens.
pub proof fn lemma_postfix_len(formula: Formula)
    ensures
        formula.postfix().len() < pow2(formula.height()),
    decreases formula,
{
    match formula {
        Formula::Var(_) => {
            lemma2_to64();
        },
        Formula::Not(operand) => {
            lemma_postfix_len(*operand);
            lemma_pow2_unfold(formula.height());
        },
        Formula::Binary(_, left, right) => {
            lemma_postfix_len(*left);
            lemma_postfix_len(*right);
            lemma_pow2_unfold(formula.height());
            if left.height() < right.height() {
                lemma_pow2_strictly_increases(left.height(), right.height());
            }
            if right.height() < left.height() {
                lemma_pow2_strictly_increases(right.height(), left.height());
            }
        },
    }
}

/// The postfix form of a formula holds operators and variables only.
pub proof fn lemma_postfix_has_no_truth_value(formula: Formula)
    ensures
        has_no_truth_value(formula.postfix()),
    decreases formula,
{
    match formula {
        Formula::Var(_) => {},
        Formula::Not(operand) => {
            lemma_postfix_has_no_truth_value(*operand);
        },
        Formula::Binary(_, left, right) => {
            lemma_postfix_has_no_truth_value(*left);
            lemma_postfix_has_no_truth_value(*right);
        },
    }
}

} // verus!
