//! What holds of evaluation in general.

use crate::expression::{Expression, ExpressionError, ExpressionView};
use crate::formula::{lemma_postfix_is_well_formed, lemma_postfix_runs, Connective, Formula};
use crate::semantics::{
    assignment, lemma_in_scope_last, lemma_run_concat, lemma_run_push, lemma_run_shape, run,
    stack_depth,
};
use crate::token::Token;
use vstd::arithmetic::power2::pow2;
use vstd::prelude::*;

verus! {

impl Formula {
    /// The buffer that holds the formula over `var_count` variables.
    pub open spec fn buffer(self, var_count: nat) -> ExpressionView {
        ExpressionView { var_count, tokens: self.postfix() }
    }

    /// The truth table of the formula over `var_count` variables, read off
    /// the syntax tree.
    pub open spec fn table(self, var_count: nat) -> Seq<bool> {
        Seq::new(pow2(var_count), |row: int| self.value(assignment(var_count, row as nat)))
    }
}

/// Evaluation is deterministic: the result is fixed by the variable count and
/// the tokens, so two buffers that hold the same have the same truth table,
/// and so have two evaluations of one buffer.
pub proof fn evaluation_is_deterministic(first: Expression, second: Expression)
    requires
        first@ == second@,
    ensures
        first@.evaluate() == second@.evaluate(),
{
}

/// Evaluating the postfix form of a formula never fails, and gives the values
/// that the syntax tree has under the assignments, row by row.
pub proof fn formula_evaluates_to_its_table(formula: Formula, var_count: nat)
    requires
        formula.within(var_count),
    ensures
        formula.buffer(var_count).evaluate() == Ok::<Seq<bool>, ExpressionError>(
            formula.table(var_count),
        ),
{
    let buffer = formula.buffer(var_count);
    lemma_postfix_is_well_formed(formula, var_count);
    assert forall|row: int| 0 <= row < pow2(var_count) implies buffer.truth_table()[row]
        == formula.table(var_count)[row] by {
        lemma_postfix_runs(formula, assignment(var_count, row as nat));
    }
    assert(buffer.truth_table() =~= formula.table(var_count));
}

/// What the generator appends to an empty buffer can always be evaluated: the
/// buffer is well-formed, so its evaluation is its truth table and never the
/// error.
pub proof fn generated_formula_evaluates(before: ExpressionView, after: ExpressionView, depth: nat)
    requires
        before.tokens.len() == 0,
        before.grown_by_formula(after, depth),
    ensures
        after.well_formed(),
        after.evaluate() == Ok::<Seq<bool>, ExpressionError>(after.truth_table()),
{
}

/// Two negations in a row change nothing, whatever the tokens before them
/// are: the value under every assignment is the same, and so is whether there
/// is one.
pub proof fn double_negation_of_tokens(expression: ExpressionView)
    ensures
        expression.negated().negated().evaluate() == expression.evaluate(),
{
    let tokens = expression.tokens;
    let once = expression.negated();
    let twice = once.negated();
    lemma_in_scope_last(once.tokens, expression.var_count);
    lemma_in_scope_last(twice.tokens, expression.var_count);
    assert(once.tokens.drop_last() =~= tokens);
    assert(twice.tokens.drop_last() =~= once.tokens);
    assert(stack_depth(once.tokens) == (match stack_depth(tokens) {
        Some(depth) => if depth >= 1 {
            Some(depth)
        } else {
            None
        },
        None => None,
    }));
    assert(stack_depth(twice.tokens) == stack_depth(once.tokens));
    assert(twice.well_formed() == expression.well_formed());
    assert forall|row: nat| #[trigger] twice.row(row) == expression.row(row) by {
        let values = assignment(expression.var_count, row);
        lemma_run_push(tokens, Token::Not, values);
        lemma_run_push(once.tokens, Token::Not, values);
        match run(tokens, values) {
            Some(stack) => {
                if stack.len() >= 1 {
                    let negated = stack.drop_last().push(!stack.last());
                    assert(negated.drop_last().push(!negated.last()) =~= stack);
                }
            },
            None => {},
        }
    }
    assert(twice.truth_table() =~= expression.truth_table());
}

/// Double negation: the truth table of `Not(Not(f))` is the truth table of
/// `f`.
pub proof fn double_negation(formula: Formula, var_count: nat)
    ensures
        Formula::Not(Box::new(Formula::Not(Box::new(formula)))).buffer(var_count).evaluate()
            == formula.buffer(var_count).evaluate(),
{
    let once = Formula::Not(Box::new(formula));
    let twice = Formula::Not(Box::new(once));
    assert(once.postfix() == formula.postfix().push(Token::Not));
    assert(twice.postfix() == once.postfix().push(Token::Not));
    assert(twice.buffer(var_count) == formula.buffer(var_count).negated().negated());
    double_negation_of_tokens(formula.buffer(var_count));
}

/// Under an assignment of all its variables, a well-formed buffer joined to
/// itself by equivalence runs to the single value `true`.
proof fn lemma_self_equivalence_runs(expression: ExpressionView, values: Seq<bool>)
    requires
        expression.well_formed(),
        values.len() == expression.var_count,
    ensures
        run(expression.joined(Token::BiImpls, expression).tokens, values) == Some(seq![true]),
{
    let tokens = expression.tokens;
    lemma_run_shape(tokens, values);
    lemma_run_concat(tokens, tokens, values);
    lemma_run_push(tokens + tokens, Token::BiImpls, values);
    let stack = run(tokens, values).unwrap();
    assert(stack.len() == 1);
    let both = stack + stack;
    assert(both.len() == 2);
    assert(both[0] == both[1]);
    assert(both.take(both.len() - 2).push(true) =~= seq![true]);
}

/// A well-formed buffer joined to itself by equivalence is true in every row.
pub proof fn self_equivalence_of_tokens(expression: ExpressionView)
    requires
        expression.well_formed(),
    ensures
        expression.joined(Token::BiImpls, expression).evaluate() == Ok::<
            Seq<bool>,
            ExpressionError,
        >(Seq::new(pow2(expression.var_count), |row: int| true)),
{
    let joined = expression.joined(Token::BiImpls, expression);
    let first = assignment(expression.var_count, 0);
    lemma_self_equivalence_runs(expression, first);
    lemma_run_shape(joined.tokens, first);
    assert forall|row: int| 0 <= row < pow2(expression.var_count) implies joined.truth_table()[row]
        == true by {
        lemma_self_equivalence_runs(expression, assignment(expression.var_count, row as nat));
    }
    assert(joined.truth_table() =~= Seq::new(pow2(expression.var_count), |row: int| true));
}

/// Self-equivalence: `BiImplies(f, f)` is true under every assignment, for
/// every formula `f` over the declared variables.
pub proof fn self_equivalence(formula: Formula, var_count: nat)
    requires
        formula.within(var_count),
    ensures
        Formula::Binary(Connective::BiImpls, Box::new(formula), Box::new(formula)).buffer(
            var_count,
        ).evaluate() == Ok::<Seq<bool>, ExpressionError>(
            Seq::new(pow2(var_count), |row: int| true),
        ),
{
    lemma_postfix_is_well_formed(formula, var_count);
    self_equivalence_of_tokens(formula.buffer(var_count));
}

} // verus!
