//! The generator: grows a random formula of bounded height at the end of a
//! buffer.

use crate::expression::{Expression, ExpressionError, ExpressionView};
use crate::formula::{
    encodes, has_no_truth_value, is_generated, lemma_postfix_has_no_truth_value,
    lemma_postfix_is_well_formed, lemma_postfix_len, Connective, Formula,
};
use crate::rng::{gen_range, thread_rng};
use crate::semantics::{is_postfix_formula, lemma_token_parity, negation_count};
use crate::token::{Token, Type};
use rand::rngs::ThreadRng;
use vstd::arithmetic::power2::{lemma_pow2_strictly_increases, pow2};
use vstd::prelude::*;

verus! {

impl Connective {
    /// The connective of a binary kind of node.
    pub open spec fn of_kind(kind: Type) -> Connective {
        match kind {
            Type::Or => Connective::Or,
            Type::Implies => Connective::Impls,
            Type::BiImplies => Connective::BiImpls,
            _ => Connective::And,
        }
    }
}

impl ExpressionView {
    /// What was appended to this buffer to get `after`.
    pub open spec fn appended(self, after: ExpressionView) -> Seq<Token> {
        after.tokens.skip(self.tokens.len() as int)
    }

    /// `after` is this buffer with one formula of height at most `depth`
    /// appended to it.
    ///
    /// The variable count is the same and the tokens that were there are kept.
    /// What was appended is the postfix form of a syntax tree of height at
    /// most `depth` over the declared variables. So it meets the invariant of
    /// a formula buffer and holds no truth value, it has fewer than `2^depth`
    /// tokens, and the number of its tokens is odd exactly if the number of
    /// its negations is even. If the buffer was empty, the whole of `after` is
    /// well-formed.
    pub open spec fn grown_by_formula(self, after: ExpressionView, depth: nat) -> bool {
        let appended = self.appended(after);
        &&& after.var_count == self.var_count
        &&& self.tokens.len() <= after.tokens.len()
        &&& after.tokens == self.tokens + appended
        &&& is_generated(appended, self.var_count, depth)
        &&& is_postfix_formula(appended, self.var_count)
        &&& has_no_truth_value(appended)
        &&& appended.len() < pow2(depth)
        &&& (appended.len() % 2 == 1 <==> negation_count(appended) % 2 == 0)
        &&& (self.tokens.len() == 0 ==> after.well_formed())
    }

    /// The formula that was appended to this buffer to get `after` has a node
    /// of the given kind at its root: it is a single variable, or it ends with
    /// the operator of that kind.
    pub open spec fn rooted_in(self, after: ExpressionView, kind: Type) -> bool {
        let appended = self.appended(after);
        if kind == Type::Var {
            appended.len() == 1
        } else {
            appended.len() >= 1 && appended.last() == Token::of_kind(kind)
        }
    }
}

/// A syntax tree that `tokens` encodes, where there is one.
spec fn tree_of(tokens: Seq<Token>, var_count: nat, depth: nat) -> Formula {
    choose|formula: Formula| encodes(formula, tokens, var_count, depth)
}

/// A buffer to which the postfix form of a formula was appended has grown by
/// that formula.
proof fn lemma_grown_by_formula(
    before: ExpressionView,
    after: ExpressionView,
    formula: Formula,
    depth: nat,
)
    requires
        after.var_count == before.var_count,
        after.tokens == before.tokens + formula.postfix(),
        formula.height() <= depth,
        formula.within(before.var_count),
    ensures
        before.grown_by_formula(after, depth),
        before.appended(after) == formula.postfix(),
{
    let appended = before.appended(after);
    assert(appended =~= formula.postfix());
    assert(encodes(formula, appended, before.var_count, depth));
    lemma_postfix_is_well_formed(formula, before.var_count);
    lemma_postfix_has_no_truth_value(formula);
    lemma_postfix_len(formula);
    if formula.height() < depth {
        lemma_pow2_strictly_increases(formula.height(), depth);
    }
    lemma_token_parity(appended);
    if before.tokens.len() == 0 {
        assert(after.tokens =~= appended);
    }
}

impl Expression {
    /// Appends a random formula of height at most `depth`, or reports a
    /// `depth` of zero before anything is drawn and leaves the buffer as it
    /// is.
    ///
    /// With a height of one left, the formula is a variable. Otherwise one of
    /// the six kinds of node is drawn for its root.
    pub fn random(&mut self, rng: &mut ThreadRng, depth: u8) -> (res: Result<(), ExpressionError>)
        requires
            old(self)@.var_count >= 1,
        ensures
            depth == 0 ==> res == Err::<(), ExpressionError>(ExpressionError::InvalidDepth)
                && final(self)@ == old(self)@,
            depth >= 1 ==> res == Ok::<(), ExpressionError>(()) && old(self)@.grown_by_formula(
                final(self)@,
                depth as nat,
            ),
        decreases depth, 1nat,
    {
        if depth == 0 {
            return Err(ExpressionError::InvalidDepth);
        }
        if depth != 1 {
            let kind = Type::from_u8(gen_range(rng, 0, 6) as u8);
            self.grow(rng, kind, depth)
        } else {
            self.grow(rng, Type::Var, depth)
        }
    }

    /// Appends a random formula of height at most `depth` that has a node of
    /// the given kind at its root, or reports a `depth` that is too small for
    /// such a formula before anything is drawn and leaves the buffer as it is.
    ///
    /// A binary connective is put after two random formulas of height at most
    /// `depth - 1`, the left operand first; a negation is put after one such
    /// formula; a variable stands alone, with an index drawn from the declared
    /// variables. The operands are drawn independently of each other.
    pub fn grow(&mut self, rng: &mut ThreadRng, kind: Type, depth: u8) -> (res: Result<
        (),
        ExpressionError,
    >)
        requires
            old(self)@.var_count >= 1,
        ensures
            depth < kind.least_height() ==> res == Err::<(), ExpressionError>(
                ExpressionError::InvalidDepth,
            ) && final(self)@ == old(self)@,
            depth >= kind.least_height() ==> res == Ok::<(), ExpressionError>(())
                && old(self)@.grown_by_formula(final(self)@, depth as nat) && old(
                self,
            )@.rooted_in(final(self)@, kind),
        decreases depth, 0nat,
    {
        let ghost before = self@;
        match kind {
            Type::Var => {
                if depth == 0 {
                    return Err(ExpressionError::InvalidDepth);
                }
                let index: u32 = gen_range(rng, 0, self.var_count());
                self.push_tok(Token::new_var(index));
                proof {
                    let formula = Formula::Var(index);
                    assert(self@.tokens =~= before.tokens + formula.postfix());
                    lemma_grown_by_formula(before, self@, formula, depth as nat);
                }
            },
            Type::Not => {
                if depth < 2 {
                    return Err(ExpressionError::InvalidDepth);
                }
                match self.random(rng, depth - 1) {
                    Ok(()) => {},
                    Err(error) => {
                        return Err(error);
                    },
                }
                let ghost middle = self@;
                self.push_tok(Token::new_oper(Type::Not));
                proof {
                    let below = (depth - 1) as nat;
                    let operand = tree_of(before.appended(middle), before.var_count, below);
                    let formula = Formula::Not(Box::new(operand));
                    assert(self@.tokens =~= before.tokens + formula.postfix());
                    lemma_grown_by_formula(before, self@, formula, depth as nat);
                }
            },
            binary_type => {
                if depth < 2 {
                    return Err(ExpressionError::InvalidDepth);
                }
                match self.random(rng, depth - 1) {
                    Ok(()) => {},
                    Err(error) => {
                        return Err(error);
                    },
                }
                let ghost middle = self@;
                match self.random(rng, depth - 1) {
                    Ok(()) => {},
                    Err(error) => {
                        return Err(error);
                    },
                }
                let ghost late = self@;
                self.push_tok(Token::new_oper(binary_type));
                proof {
                    let below = (depth - 1) as nat;
                    let left = tree_of(before.appended(middle), before.var_count, below);
                    let right = tree_of(middle.appended(late), before.var_count, below);
                    let formula = Formula::Binary(
                        Connective::of_kind(binary_type),
                        Box::new(left),
                        Box::new(right),
                    );
                    assert(self@.tokens =~= before.tokens + formula.postfix());
                    lemma_grown_by_formula(before, self@, formula, depth as nat);
                }
            },
        }
        Ok(())
    }

    /// Appends a random formula of height at most `depth`, or reports a
    /// `depth` of zero before anything is drawn and leaves the buffer as it
    /// is.
    pub fn gen_expr(&mut self, rng: &mut ThreadRng, depth: u8) -> (res: Result<
        (),
        ExpressionError,
    >)
        requires
            old(self)@.var_count >= 1,
        ensures
            depth == 0 ==> res == Err::<(), ExpressionError>(ExpressionError::InvalidDepth)
                && final(self)@ == old(self)@,
            depth >= 1 ==> res == Ok::<(), ExpressionError>(()) && old(self)@.grown_by_formula(
                final(self)@,
                depth as nat,
            ),
    {
        if depth == 0 {
            return Err(ExpressionError::InvalidDepth);
        }
        self.random(rng, depth)
    }

    /// Appends a random formula of height at most `depth`, drawing from the
    /// random generator of the current thread, or reports a `depth` of zero
    /// and leaves the buffer as it is.
    pub fn random_wrapper(&mut self, depth: u8) -> (res: Result<(), ExpressionError>)
        requires
            old(self)@.var_count >= 1,
        ensures
            depth == 0 ==> res == Err::<(), ExpressionError>(ExpressionError::InvalidDepth)
                && final(self)@ == old(self)@,
            depth >= 1 ==> res == Ok::<(), ExpressionError>(()) && old(self)@.grown_by_formula(
                final(self)@,
                depth as nat,
            ),
    {
        if depth == 0 {
            return Err(ExpressionError::InvalidDepth);
        }
        let mut rng = thread_rng();
        self.random(&mut rng, depth)
    }
}

} // verus!
