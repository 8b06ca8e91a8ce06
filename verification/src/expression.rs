//! The formula buffer and its evaluator.

use crate::semantics::{
    assigned, assignment, connect, is_postfix_formula, lemma_run_fails_after_prefix,
    lemma_run_shape, lemma_run_substituted, run, step, substituted, substituted_token, value_of,
};
use crate::token::Token;
use vstd::arithmetic::power2::{
    lemma2_to64, lemma_pow2_pos, lemma_pow2_strictly_increases, lemma_pow2_unfold, pow2,
};
use vstd::layout::unsigned_int_max_values;
use vstd::prelude::*;

verus! {

/// What can go wrong when a formula is generated or evaluated.
#[derive(Clone, Copy, Debug, PartialEq, Eq, Structural)]
pub enum ExpressionError {
    /// A formula of height zero was asked for.
    InvalidDepth,
    /// The token sequence is not the postfix form of one formula over the
    /// declared variables.
    MalformedFormula,
}

/// A formula in postfix form, together with the number of variables it may
/// refer to.
pub struct Expression {
    var_count: u32,
    token_vec: Vec<Token>,
}

/// What an [`Expression`] holds, as plain mathematical values.
pub struct ExpressionView {
    pub var_count: nat,
    pub tokens: Seq<Token>,
}

impl ExpressionView {
    /// The buffer holds the postfix form of exactly one formula, and every
    /// variable in it is one of the declared ones.
    pub open spec fn well_formed(self) -> bool {
        is_postfix_formula(self.tokens, self.var_count)
    }

    /// The value of the formula in row `row` of its truth table, if it has one.
    pub open spec fn row(self, row: nat) -> Option<bool> {
        value_of(self.tokens, assignment(self.var_count, row))
    }

    /// The truth table: one entry for each of the `2^var_count` assignments,
    /// in the order of their row numbers. An entry is true where the formula
    /// has the value true in that row; in a well-formed buffer every row has a
    /// value.
    pub open spec fn truth_table(self) -> Seq<bool> {
        Seq::new(pow2(self.var_count), |row: int| self.row(row as nat) == Some(true))
    }

    /// The buffer with a negation appended: the formula negated.
    pub open spec fn negated(self) -> ExpressionView {
        ExpressionView { var_count: self.var_count, tokens: self.tokens.push(Token::Not) }
    }

    /// The buffer followed by the tokens of `right` and by `operator`: the two
    /// formulas joined by a binary connective, this one as the left operand.
    pub open spec fn joined(self, operator: Token, right: ExpressionView) -> ExpressionView {
        ExpressionView {
            var_count: self.var_count,
            tokens: (self.tokens + right.tokens).push(operator),
        }
    }

    /// What evaluating the buffer gives: the truth table of a well-formed
    /// buffer, and the error for any other.
    pub open spec fn evaluate(self) -> Result<Seq<bool>, ExpressionError> {
        if self.well_formed() {
            Ok(self.truth_table())
        } else {
            Err(ExpressionError::MalformedFormula)
        }
    }
}

impl View for Expression {
    type V = ExpressionView;

    closed spec fn view(&self) -> ExpressionView {
        ExpressionView { var_count: self.var_count as nat, tokens: self.token_vec@ }
    }
}

/// The result of a binary connective on two operands taken from the stack:
/// an operand that is missing makes the formula malformed.
pub open spec fn connected(token: Token, a: Option<bool>, b: Option<bool>) -> Result<
    bool,
    ExpressionError,
> {
    match (a, b) {
        (Some(x), Some(y)) => Ok(connect(token, x, y)),
        _ => Err(ExpressionError::MalformedFormula),
    }
}

/// The result of reducing a sequence in which no variable is left to look up:
/// its value, or the error where it has none.
pub open spec fn reduction(tokens: Seq<Token>) -> Result<bool, ExpressionError> {
    match value_of(tokens, Seq::empty()) {
        Some(value) => Ok(value),
        None => Err(ExpressionError::MalformedFormula),
    }
}

impl Expression {
    /// An empty buffer over `var_count` variables.
    pub fn new(var_count: u32) -> (expression: Expression)
        ensures
            expression@.var_count == var_count,
            expression@.tokens == Seq::<Token>::empty(),
    {
        Expression { var_count, token_vec: Vec::new() }
    }

    /// The number of variables the formula may refer to.
    pub fn var_count(&self) -> (var_count: u32)
        ensures
            var_count == self@.var_count,
    {
        self.var_count
    }

    /// The tokens of the buffer, in order.
    pub fn tokens(&self) -> (tokens: &Vec<Token>)
        ensures
            tokens@ == self@.tokens,
    {
        &self.token_vec
    }

    /// Appends one token.
    pub fn push_tok(&mut self, token: Token)
        ensures
            final(self)@.var_count == old(self)@.var_count,
            final(self)@.tokens == old(self)@.tokens.push(token),
    {
        self.token_vec.push(token);
    }

    /// Conjunction of the left operand `a` and the right operand `b`.
    pub fn and(a: Option<bool>, b: Option<bool>) -> (res: Result<bool, ExpressionError>)
        ensures
            res == connected(Token::And, a, b),
    {
        match a {
            Some(a) => match b {
                Some(b) => Ok(a && b),
                None => Err(ExpressionError::MalformedFormula),
            },
            None => Err(ExpressionError::MalformedFormula),
        }
    }

    /// Disjunction of the left operand `a` and the right operand `b`.
    pub fn or(a: Option<bool>, b: Option<bool>) -> (res: Result<bool, ExpressionError>)
        ensures
            res == connected(Token::Or, a, b),
    {
        match a {
            Some(a) => match b {
                Some(b) => Ok(a || b),
                None => Err(ExpressionError::MalformedFormula),
            },
            None => Err(ExpressionError::MalformedFormula),
        }
    }

    /// Implication from the antecedent `a` to the consequent `b`.
    pub fn impls(a: Option<bool>, b: Option<bool>) -> (res: Result<bool, ExpressionError>)
        ensures
            res == connected(Token::Impls, a, b),
    {
        match a {
            Some(a) => match b {
                Some(b) => Ok(!a || b),
                None => Err(ExpressionError::MalformedFormula),
            },
            None => Err(ExpressionError::MalformedFormula),
        }
    }

    /// Equivalence of `a` and `b`.
    pub fn bi_impls(a: Option<bool>, b: Option<bool>) -> (res: Result<bool, ExpressionError>)
        ensures
            res == connected(Token::BiImpls, a, b),
    {
        match a {
            Some(a) => match b {
                Some(b) => Ok(a == b),
                None => Err(ExpressionError::MalformedFormula),
            },
            None => Err(ExpressionError::MalformedFormula),
        }
    }

    /// Negation of `a`.
    pub fn not(a: Option<bool>) -> (res: Result<bool, ExpressionError>)
        ensures
            res == (match a {
                Some(x) => Ok::<bool, ExpressionError>(!x),
                None => Err::<bool, ExpressionError>(ExpressionError::MalformedFormula),
            }),
    {
        match a {
            Some(a) => Ok(!a),
            None => Err(ExpressionError::MalformedFormula),
        }
    }

    /// A working copy of the tokens in which every variable that
    /// `interpretation` covers is replaced by its truth value.
    pub fn substitute(&self, interpretation: &Vec<bool>) -> (token_vec: Vec<Token>)
        ensures
            token_vec@ == substituted(self@.tokens, interpretation@),
    {
        let mut token_vec: Vec<Token> = Vec::new();
        let mut j: usize = 0;
        while j < self.token_vec.len()
            invariant
                j <= self.token_vec.len(),
                token_vec@.len() == j,
                forall|k: int|
                    0 <= k < j ==> token_vec@[k] == substituted_token(
                        #[trigger] self.token_vec@[k],
                        interpretation@,
                    ),
            decreases self.token_vec.len() - j,
        {
            let token = match self.token_vec[j] {
                Token::Var(index) => if (index as usize) < interpretation.len() {
                    Token::Bool(interpretation[index as usize])
                } else {
                    Token::Var(index)
                },
                oper => oper,
            };
            token_vec.push(token);
            j += 1;
        }
        assert(token_vec@ =~= substituted(self@.tokens, interpretation@));
        token_vec
    }

    /// Reduces a sequence of operators and truth values to its value.
    ///
    /// The sequence is run through the stack machine from left to right. It is
    /// malformed if a variable is still in it, if an operator finds too few
    /// operands, or if the stack does not end with exactly one value.
    pub fn reduce(token_vec: &Vec<Token>) -> (res: Result<bool, ExpressionError>)
        ensures
            res == reduction(token_vec@),
    {
        let ghost unassigned = Seq::<bool>::empty();
        let mut value_stack: Vec<bool> = Vec::new();
        let mut j: usize = 0;
        assert(token_vec@.take(0) =~= Seq::<Token>::empty());
        while j < token_vec.len()
            invariant
                j <= token_vec.len(),
                unassigned == Seq::<bool>::empty(),
                run(token_vec@.take(j as int), unassigned) == Some(value_stack@),
            decreases token_vec.len() - j,
        {
            let ghost before = value_stack@;
            assert(token_vec@.take(j + 1).drop_last() =~= token_vec@.take(j as int));
            let outcome = match token_vec[j] {
                Token::Bool(value) => Ok(value),
                Token::And => {
                    let b = value_stack.pop();
                    let a = value_stack.pop();
                    Expression::and(a, b)
                },
                Token::Or => {
                    let b = value_stack.pop();
                    let a = value_stack.pop();
                    Expression::or(a, b)
                },
                Token::Impls => {
                    let b = value_stack.pop();
                    let a = value_stack.pop();
                    Expression::impls(a, b)
                },
                Token::BiImpls => {
                    let b = value_stack.pop();
                    let a = value_stack.pop();
                    Expression::bi_impls(a, b)
                },
                Token::Not => {
                    let a = value_stack.pop();
                    Expression::not(a)
                },
                Token::Var(_) => Err(ExpressionError::MalformedFormula),
            };
            match outcome {
                Ok(value) => {
                    value_stack.push(value);
                    assert(Some(value_stack@) =~= step(before, token_vec@[j as int], unassigned));
                },
                Err(error) => {
                    proof {
                        lemma_run_fails_after_prefix(token_vec@, j + 1, unassigned);
                    }
                    return Err(error);
                },
            }
            j += 1;
        }
        assert(token_vec@.take(j as int) =~= token_vec@);
        if value_stack.len() == 1 {
            Ok(value_stack[0])
        } else {
            Err(ExpressionError::MalformedFormula)
        }
    }

    /// The number of rows of a truth table over `var_count` variables.
    pub fn row_count(var_count: u32) -> (rows: usize)
        requires
            var_count < usize::BITS,
        ensures
            rows == pow2(var_count as nat),
    {
        let mut rows: usize = 1;
        let mut k: u32 = 0;
        proof {
            unsigned_int_max_values();
            lemma2_to64();
        }
        while k < var_count
            invariant
                k <= var_count,
                var_count < usize::BITS,
                rows == pow2(k as nat),
                usize::MAX == pow2(usize::BITS as nat) - 1,
            decreases var_count - k,
        {
            proof {
                lemma_pow2_unfold((k + 1) as nat);
                lemma_pow2_strictly_increases((k + 1) as nat, usize::BITS as nat);
            }
            rows = rows * 2;
            k += 1;
        }
        rows
    }

    /// The assignment of row `row`: the value of each of the `var_count`
    /// variables, variable zero first.
    pub fn interpretation(var_count: u32, row: usize) -> (values: Vec<bool>)
        requires
            var_count < usize::BITS,
        ensures
            values@ == assignment(var_count as nat, row as nat),
    {
        let mut values: Vec<bool> = Vec::new();
        if var_count == 0 {
            assert(values@ =~= assignment(var_count as nat, row as nat));
            return values;
        }
        let mut weight: usize = Expression::row_count(var_count - 1);
        let mut k: u32 = 0;
        while k < var_count
            invariant
                k <= var_count,
                values@.len() == k,
                k < var_count ==> weight == pow2((var_count - 1 - k) as nat),
                forall|j: int|
                    0 <= j < k ==> values@[j] == assigned(var_count as nat, row as nat, j as nat),
            decreases var_count - k,
        {
            proof {
                lemma_pow2_pos((var_count - 1 - k) as nat);
                if k + 1 < var_count {
                    lemma_pow2_unfold((var_count - 1 - k) as nat);
                }
            }
            values.push((row / weight) % 2 == 0);
            weight = weight / 2;
            k += 1;
        }
        assert(values@ =~= assignment(var_count as nat, row as nat));
        values
    }

    /// The truth table of the formula: its value under each of the
    /// `2^var_count` assignments, in the order of their row numbers.
    ///
    /// The buffer is left as it is; each row is computed on a working copy. A
    /// buffer that does not hold exactly one formula over the declared
    /// variables is reported as malformed.
    pub fn truth_table(&self) -> (res: Result<Vec<bool>, ExpressionError>)
        requires
            self@.var_count < usize::BITS,
        ensures
            match res {
                Ok(table) => self@.evaluate() == Ok::<Seq<bool>, ExpressionError>(table@)
                    && table@.len() == pow2(self@.var_count),
                Err(error) => self@.evaluate() == Err::<Seq<bool>, ExpressionError>(error),
            },
    {
        let rows: usize = Expression::row_count(self.var_count);
        let mut result: Vec<bool> = Vec::new();
        let mut i: usize = 0;
        while i < rows
            invariant
                i <= rows,
                rows == pow2(self@.var_count),
                self@.var_count < usize::BITS,
                result@.len() == i,
                forall|r: int| 0 <= r < i ==> self@.row(r as nat) == Some(#[trigger] result@[r]),
            decreases rows - i,
        {
            let interpretation = Expression::interpretation(self.var_count, i);
            let token_vec = self.substitute(&interpretation);
            proof {
                lemma_run_substituted(self@.tokens, interpretation@);
                lemma_run_shape(self@.tokens, interpretation@);
            }
            match Expression::reduce(&token_vec) {
                Ok(value) => {
                    result.push(value);
                },
                Err(error) => {
                    return Err(error);
                },
            }
            i += 1;
        }
        proof {
            lemma_pow2_pos(self@.var_count);
            assert(self@.row(0) == Some(result@[0]));
            lemma_run_shape(self@.tokens, assignment(self@.var_count, 0));
            assert(result@ =~= self@.truth_table());
        }
        Ok(result)
    }
}

} // verus!
