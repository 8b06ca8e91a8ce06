//! What a token sequence means: the stack machine that reduces a postfix
//! formula under an assignment, and the order in which assignments are
//! enumerated.

use crate::token::Token;
use vstd::arithmetic::power2::pow2;
use vstd::prelude::*;

verus! {

/// What a binary connective makes of its left operand `a` and its right
/// operand `b`. For a token that is no binary connective the value is `false`.
pub open spec fn connect(token: Token, a: bool, b: bool) -> bool {
    match token {
        Token::And => a && b,
        Token::Or => a || b,
        Token::Impls => !a || b,
        Token::BiImpls => a == b,
        _ => false,
    }
}

/// One step of the stack machine: the stack after `token` has been consumed,
/// or `None` where the token finds too few operands or refers to a variable
/// that `assignment` does not cover.
///
/// The right operand of a binary connective is on top of the stack and the
/// left operand directly below it.
pub open spec fn step(stack: Seq<bool>, token: Token, assignment: Seq<bool>) -> Option<Seq<bool>> {
    match token {
        Token::Bool(value) => Some(stack.push(value)),
        Token::Var(index) => if index < assignment.len() {
            Some(stack.push(assignment[index as int]))
        } else {
            None
        },
        Token::Not => if stack.len() >= 1 {
            Some(stack.drop_last().push(!stack.last()))
        } else {
            None
        },
        _ => if stack.len() >= 2 {
            Some(
                stack.take(stack.len() - 2).push(
                    connect(token, stack[stack.len() - 2], stack.last()),
                ),
            )
        } else {
            None
        },
    }
}

/// The stack that is left when the machine has consumed `tokens` from left to
/// right, starting on an empty stack; `None` as soon as one step fails.
pub open spec fn run(tokens: Seq<Token>, assignment: Seq<bool>) -> Option<Seq<bool>>
    decreases tokens.len(),
{
    if tokens.len() == 0 {
        Some(Seq::empty())
    } else {
        match run(tokens.drop_last(), assignment) {
            Some(stack) => step(stack, tokens.last(), assignment),
            None => None,
        }
    }
}

/// The value of `tokens` under `assignment`: the one value that the machine
/// leaves on the stack. A run that fails, or that leaves no value or more than
/// one, has no value.
pub open spec fn value_of(tokens: Seq<Token>, assignment: Seq<bool>) -> Option<bool> {
    match run(tokens, assignment) {
        Some(stack) => if stack.len() == 1 {
            Some(stack[0])
        } else {
            None
        },
        None => None,
    }
}

/// The height of the stack after `tokens`, looking at arities only: a leaf
/// pushes one entry, an operator takes as many as its arity and pushes one.
/// `None` where an operator finds fewer entries than its arity.
pub open spec fn stack_depth(tokens: Seq<Token>) -> Option<nat>
    decreases tokens.len(),
{
    if tokens.len() == 0 {
        Some(0)
    } else {
        match stack_depth(tokens.drop_last()) {
            Some(depth) => if depth >= tokens.last().arity() {
                Some((depth - tokens.last().arity() + 1) as nat)
            } else {
                None
            },
            None => None,
        }
    }
}

/// Every variable that occurs in `tokens` has an index below `var_count`.
pub open spec fn in_scope(tokens: Seq<Token>, var_count: nat) -> bool {
    forall|k: int|
        0 <= k < tokens.len() ==> ((#[trigger] tokens[k]) matches Token::Var(index) ==> index
            < var_count)
}

/// `tokens` is the postfix form of one formula over `var_count` variables:
/// the machine never runs short of operands on it, ends with exactly one
/// entry, and meets no variable outside the declared ones.
pub open spec fn is_postfix_formula(tokens: Seq<Token>, var_count: nat) -> bool {
    stack_depth(tokens) == Some(1nat) && in_scope(tokens, var_count)
}

/// The value of variable `k` in row `row` of a table over `var_count`
/// variables. The row number is read as a binary number of `var_count` digits
/// with variable zero as its most significant digit; a digit of zero makes the
/// variable true, a digit of one makes it false. So the first row sets every
/// variable to true and the last row sets every variable to false.
pub open spec fn assigned(var_count: nat, row: nat, k: nat) -> bool {
    (row / pow2((var_count - 1 - k) as nat)) % 2 == 0
}

/// The assignment of row `row`: one value for each of the `var_count`
/// variables, in the order of their indices.
pub open spec fn assignment(var_count: nat, row: nat) -> Seq<bool> {
    Seq::new(var_count, |k: int| assigned(var_count, row, k as nat))
}

/// The token that stands for `token` once `assignment` has been substituted:
/// a variable that the assignment covers becomes its truth value, every other
/// token stays as it is.
pub open spec fn substituted_token(token: Token, assignment: Seq<bool>) -> Token {
    match token {
        Token::Var(index) => if index < assignment.len() {
            Token::Bool(assignment[index as int])
        } else {
            token
        },
        _ => token,
    }
}

/// `tokens` with `assignment` substituted for its variables.
pub open spec fn substituted(tokens: Seq<Token>, assignment: Seq<bool>) -> Seq<Token> {
    Seq::new(tokens.len(), |k: int| substituted_token(tokens[k], assignment))
}

/// The number of negations in `tokens`.
pub open spec fn negation_count(tokens: Seq<Token>) -> nat
    decreases tokens.len(),
{
    if tokens.len() == 0 {
        0
    } else if tokens.last() is Not {
        negation_count(tokens.drop_last()) + 1
    } else {
        negation_count(tokens.drop_last())
    }
}

/// The number of leaves in `tokens`: variables and truth values.
pub open spec fn leaf_count(tokens: Seq<Token>) -> nat
    decreases tokens.len(),
{
    if tokens.len() == 0 {
        0
    } else if tokens.last().arity() == 0 {
        leaf_count(tokens.drop_last()) + 1
    } else {
        leaf_count(tokens.drop_last())
    }
}

/// `run` unfolded at the last token of a sequence.
pub proof fn lemma_run_push(tokens: Seq<Token>, token: Token, assignment: Seq<bool>)
    ensures
        run(tokens.push(token), assignment) == (match run(tokens, assignment) {
            Some(stack) => step(stack, token, assignment),
            None => None,
        }),
{
    assert(tokens.push(token).drop_last() =~= tokens);
}

/// Once the machine has failed on a prefix, it fails on the whole sequence.
pub proof fn lemma_run_fails_after_prefix(tokens: Seq<Token>, k: int, assignment: Seq<bool>)
    requires
        0 <= k <= tokens.len(),
        run(tokens.take(k), assignment) is None,
    ensures
        run(tokens, assignment) is None,
    decreases tokens.len() - k,
{
    if k < tokens.len() {
        assert(tokens.take(k + 1).drop_last() =~= tokens.take(k));
        lemma_run_fails_after_prefix(tokens, k + 1, assignment);
    } else {
        assert(tokens.take(k) =~= tokens);
    }
}

/// A sequence is in scope exactly if all but its last token are, and the last
/// token is no variable out of range.
pub proof fn lemma_in_scope_last(tokens: Seq<Token>, var_count: nat)
    requires
        tokens.len() > 0,
    ensures
        in_scope(tokens, var_count) <==> in_scope(tokens.drop_last(), var_count) && (
        tokens.last() matches Token::Var(index) ==> index < var_count),
{
    let front = tokens.drop_last();
    if in_scope(tokens, var_count) {
        assert forall|k: int| 0 <= k < front.len() implies ((#[trigger] front[k]) matches Token::Var(
            index,
        ) ==> index < var_count) by {
            assert(front[k] == tokens[k]);
        }
        assert(tokens.last() == tokens[tokens.len() - 1]);
    }
    if in_scope(front, var_count) && (tokens.last() matches Token::Var(index) ==> index
        < var_count) {
        assert forall|k: int| 0 <= k < tokens.len() implies ((#[trigger] tokens[k]) matches Token::Var(
            index,
        ) ==> index < var_count) by {
            if k < front.len() {
                assert(front[k] == tokens[k]);
            }
        }
    }
}

/// Whether the machine gets through a sequence depends on the arities of the
/// tokens and on the range of the variables alone, and so does the height of
/// the stack it ends with.
pub proof fn lemma_run_shape(tokens: Seq<Token>, assignment: Seq<bool>)
    ensures
        match run(tokens, assignment) {
            Some(stack) => stack_depth(tokens) == Some(stack.len()) && in_scope(
                tokens,
                assignment.len(),
            ),
            None => stack_depth(tokens) is None || !in_scope(tokens, assignment.len()),
        },
    decreases tokens.len(),
{
    if tokens.len() > 0 {
        lemma_run_shape(tokens.drop_last(), assignment);
        lemma_in_scope_last(tokens, assignment.len());
    }
}

/// Substituting an assignment first and reducing without one afterwards comes
/// to the same as reducing under the assignment.
pub proof fn lemma_run_substituted(tokens: Seq<Token>, assignment: Seq<bool>)
    ensures
        run(substituted(tokens, assignment), Seq::empty()) == run(tokens, assignment),
    decreases tokens.len(),
{
    if tokens.len() > 0 {
        lemma_run_substituted(tokens.drop_last(), assignment);
        assert(substituted(tokens, assignment).drop_last() =~= substituted(
            tokens.drop_last(),
            assignment,
        ));
    }
}

/// A step that succeeds on a stack succeeds on any taller stack with that
/// stack on top, and leaves what lies below untouched.
pub proof fn lemma_step_frame(
    below: Seq<bool>,
    stack: Seq<bool>,
    token: Token,
    assignment: Seq<bool>,
)
    requires
        step(stack, token, assignment) is Some,
    ensures
        step(below + stack, token, assignment) == Some(
            below + step(stack, token, assignment).unwrap(),
        ),
{
    let whole = below + stack;
    let after = step(stack, token, assignment).unwrap();
    match token {
        Token::Bool(_) | Token::Var(_) => {
            assert(step(whole, token, assignment).unwrap() =~= below + after);
        },
        Token::Not => {
            assert(whole.last() == stack.last());
            assert(step(whole, token, assignment).unwrap() =~= below + after);
        },
        _ => {
            assert(whole.last() == stack.last());
            assert(whole[whole.len() - 2] == stack[stack.len() - 2]);
            assert(step(whole, token, assignment).unwrap() =~= below + after);
        },
    }
}

/// Running one sequence after another: where both runs succeed on their own,
/// the run of the concatenation leaves the two stacks one on top of the other.
pub proof fn lemma_run_concat(first: Seq<Token>, second: Seq<Token>, assignment: Seq<bool>)
    requires
        run(first, assignment) is Some,
        run(second, assignment) is Some,
    ensures
        run(first + second, assignment) == Some(
            run(first, assignment).unwrap() + run(second, assignment).unwrap(),
        ),
    decreases second.len(),
{
    let below = run(first, assignment).unwrap();
    if second.len() == 0 {
        assert(first + second =~= first);
        assert(below + run(second, assignment).unwrap() =~= below);
    } else {
        let front = second.drop_last();
        lemma_run_concat(first, front, assignment);
        assert((first + second).drop_last() =~= first + front);
        assert((first + second).last() == second.last());
        lemma_step_frame(below, run(front, assignment).unwrap(), second.last(), assignment);
    }
}

/// How the length of a sequence that the machine gets through is made up: a
/// leaf adds a token and a stack entry, a negation adds a token, a binary
/// connective adds a token and takes a stack entry away.
pub proof fn lemma_token_count(tokens: Seq<Token>)
    requires
        stack_depth(tokens) is Some,
    ensures
        tokens.len() + stack_depth(tokens).unwrap() == 2 * leaf_count(tokens) + negation_count(
            tokens,
        ),
    decreases tokens.len(),
{
    if tokens.len() > 0 {
        lemma_token_count(tokens.drop_last());
    }
}

/// A sequence that holds one formula has an odd number of tokens exactly if
/// the number of its negations is even.
pub proof fn lemma_token_parity(tokens: Seq<Token>)
    requires
        stack_depth(tokens) == Some(1nat),
    ensures
        tokens.len() == 2 * leaf_count(tokens) - 1 + negation_count(tokens),
        tokens.len() % 2 == 1 <==> negation_count(tokens) % 2 == 0,
{
    lemma_token_count(tokens);
}

} // verus!
