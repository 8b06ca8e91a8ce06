use proplogic::{Expression, ExpressionError, Token};

fn expression(var_count: u32, tokens: &[Token]) -> Expression {
    let mut expression = Expression::new(var_count);
    for token in tokens {
        expression.push_tok(*token);
    }
    expression
}

fn table(var_count: u32, tokens: &[Token]) -> Result<Vec<bool>, ExpressionError> {
    expression(var_count, tokens).truth_table()
}

#[test]
fn new_expression_is_empty() {
    let expression = Expression::new(3);
    assert_eq!(expression.var_count(), 3);
    assert!(expression.tokens().is_empty());
}

#[test]
fn push_tok_appends_in_order() {
    let mut expression = Expression::new(2);
    expression.push_tok(Token::Var(1));
    expression.push_tok(Token::Not);
    assert_eq!(expression.tokens(), &vec![Token::Var(1), Token::Not]);
    assert_eq!(expression.var_count(), 2);
}

#[test]
fn single_variable() {
    let rows = table(1, &[Token::Var(0)]).unwrap();
    assert_eq!(rows.len(), 2);
    assert_ne!(rows[0], rows[1]);
    assert_eq!(rows, vec![true, false]);
}

#[test]
fn negated_variable() {
    let plain = table(1, &[Token::Var(0)]).unwrap();
    let negated = table(1, &[Token::Var(0), Token::Not]).unwrap();
    assert_eq!(negated.len(), plain.len());
    for row in 0..plain.len() {
        assert_eq!(negated[row], !plain[row]);
    }
    assert_eq!(negated, vec![false, true]);
}

#[test]
fn lone_operator_is_malformed() {
    assert_eq!(table(1, &[Token::And]), Err(ExpressionError::MalformedFormula));
    assert_eq!(table(1, &[Token::Or]), Err(ExpressionError::MalformedFormula));
    assert_eq!(table(1, &[Token::Impls]), Err(ExpressionError::MalformedFormula));
    assert_eq!(table(1, &[Token::BiImpls]), Err(ExpressionError::MalformedFormula));
    assert_eq!(table(1, &[Token::Not]), Err(ExpressionError::MalformedFormula));
}

#[test]
fn empty_buffer_is_malformed() {
    assert_eq!(table(0, &[]), Err(ExpressionError::MalformedFormula));
    assert_eq!(table(2, &[]), Err(ExpressionError::MalformedFormula));
}

#[test]
fn two_formulas_in_one_buffer_are_malformed() {
    assert_eq!(
        table(2, &[Token::Var(0), Token::Var(1)]),
        Err(ExpressionError::MalformedFormula)
    );
    assert_eq!(
        table(2, &[Token::Var(0), Token::Var(1), Token::And, Token::Var(0)]),
        Err(ExpressionError::MalformedFormula)
    );
}

#[test]
fn operator_short_of_an_operand_is_malformed() {
    assert_eq!(
        table(1, &[Token::Var(0), Token::And]),
        Err(ExpressionError::MalformedFormula)
    );
    assert_eq!(
        table(1, &[Token::And, Token::Var(0), Token::Var(0)]),
        Err(ExpressionError::MalformedFormula)
    );
}

#[test]
fn variable_out_of_range_is_malformed() {
    assert_eq!(table(1, &[Token::Var(1)]), Err(ExpressionError::MalformedFormula));
    assert_eq!(table(0, &[Token::Var(0)]), Err(ExpressionError::MalformedFormula));
    assert_eq!(
        table(2, &[Token::Var(0), Token::Var(2), Token::Or]),
        Err(ExpressionError::MalformedFormula)
    );
}

#[test]
fn vacuous_implication() {
    let rows = table(2, &[Token::Var(0), Token::Var(1), Token::Impls]).unwrap();
    assert_eq!(rows.len(), 4);
    for row in 0..4usize {
        let interpretation = Expression::interpretation(2, row);
        if !interpretation[0] {
            assert!(rows[row]);
        }
    }
    assert_eq!(rows, vec![true, false, true, true]);
}

#[test]
fn implication_takes_the_first_operand_as_antecedent() {
    assert_eq!(
        Expression::reduce(&vec![Token::Bool(true), Token::Bool(false), Token::Impls]),
        Ok(false)
    );
    assert_eq!(
        Expression::reduce(&vec![Token::Bool(false), Token::Bool(true), Token::Impls]),
        Ok(true)
    );
}

#[test]
fn tables_of_the_connectives() {
    let p = Token::Var(0);
    let q = Token::Var(1);
    assert_eq!(table(2, &[p, q, Token::And]), Ok(vec![true, false, false, false]));
    assert_eq!(table(2, &[p, q, Token::Or]), Ok(vec![true, true, true, false]));
    assert_eq!(table(2, &[p, q, Token::Impls]), Ok(vec![true, false, true, true]));
    assert_eq!(table(2, &[p, q, Token::BiImpls]), Ok(vec![true, false, false, true]));
    assert_eq!(table(2, &[q, p, Token::Impls]), Ok(vec![true, true, false, true]));
}

#[test]
fn table_over_three_variables() {
    // (P ^ !Q) => R
    let tokens = [
        Token::Var(0),
        Token::Var(1),
        Token::Not,
        Token::And,
        Token::Var(2),
        Token::Impls,
    ];
    assert_eq!(
        table(3, &tokens),
        Ok(vec![true, true, true, false, true, true, true, true])
    );
}

#[test]
fn table_length_is_two_to_the_variable_count() {
    for var_count in 0..12u32 {
        let rows = table(var_count, &[Token::Bool(true)]).unwrap();
        assert_eq!(rows.len(), 1usize << var_count);
        assert!(rows.iter().all(|value| *value));
    }
    for var_count in 1..12u32 {
        let rows = table(var_count, &[Token::Var(var_count - 1)]).unwrap();
        assert_eq!(rows.len(), 1usize << var_count);
    }
}

#[test]
fn last_variable_alternates_fastest() {
    let rows = table(3, &[Token::Var(2)]).unwrap();
    assert_eq!(rows, vec![true, false, true, false, true, false, true, false]);
    let rows = table(3, &[Token::Var(0)]).unwrap();
    assert_eq!(rows, vec![true, true, true, true, false, false, false, false]);
}

#[test]
fn evaluation_is_repeatable() {
    let expression = expression(
        3,
        &[Token::Var(0), Token::Var(2), Token::Or, Token::Var(1), Token::BiImpls],
    );
    let first = expression.truth_table();
    let second = expression.truth_table();
    assert_eq!(first, second);
    assert_eq!(expression.tokens().len(), 5);
}

#[test]
fn double_negation_keeps_the_table() {
    let formula = [Token::Var(0), Token::Var(1), Token::And, Token::Var(2), Token::Impls];
    let mut negated_twice = formula.to_vec();
    negated_twice.push(Token::Not);
    negated_twice.push(Token::Not);
    assert_eq!(table(3, &negated_twice), table(3, &formula));
    assert!(table(3, &formula).is_ok());
    assert_eq!(table(1, &[Token::Not, Token::Not]), table(1, &[]));
}

#[test]
fn formula_is_equivalent_to_itself() {
    let formula = [Token::Var(0), Token::Var(1), Token::Or, Token::Not];
    let mut joined = formula.to_vec();
    joined.extend_from_slice(&formula);
    joined.push(Token::BiImpls);
    assert_eq!(table(2, &joined), Ok(vec![true; 4]));
}

#[test]
fn interpretation_reads_the_row_number_in_binary() {
    assert_eq!(Expression::interpretation(0, 0), Vec::<bool>::new());
    assert_eq!(Expression::interpretation(1, 0), vec![true]);
    assert_eq!(Expression::interpretation(1, 1), vec![false]);
    assert_eq!(Expression::interpretation(3, 0), vec![true, true, true]);
    assert_eq!(Expression::interpretation(3, 5), vec![false, true, false]);
    assert_eq!(Expression::interpretation(3, 6), vec![false, false, true]);
    assert_eq!(Expression::interpretation(3, 7), vec![false, false, false]);
    assert_eq!(Expression::interpretation(4, 1), vec![true, true, true, false]);
}

#[test]
fn row_count_is_a_power_of_two() {
    assert_eq!(Expression::row_count(0), 1);
    assert_eq!(Expression::row_count(1), 2);
    assert_eq!(Expression::row_count(3), 8);
    assert_eq!(Expression::row_count(10), 1024);
    assert_eq!(Expression::row_count(31), 1usize << 31);
}

#[test]
fn substitute_replaces_the_variables_it_covers() {
    let expression = expression(
        2,
        &[Token::Var(0), Token::Var(1), Token::And, Token::Var(5), Token::Bool(true), Token::Not],
    );
    let working = expression.substitute(&vec![false, true]);
    assert_eq!(
        working,
        vec![
            Token::Bool(false),
            Token::Bool(true),
            Token::And,
            Token::Var(5),
            Token::Bool(true),
            Token::Not,
        ]
    );
    assert_eq!(expression.tokens().len(), 6);
    assert_eq!(expression.tokens()[0], Token::Var(0));
}

#[test]
fn reduce_computes_the_value() {
    let t = Token::Bool(true);
    let f = Token::Bool(false);
    assert_eq!(Expression::reduce(&vec![t]), Ok(true));
    assert_eq!(Expression::reduce(&vec![f]), Ok(false));
    assert_eq!(Expression::reduce(&vec![t, Token::Not]), Ok(false));
    assert_eq!(Expression::reduce(&vec![t, f, Token::And]), Ok(false));
    assert_eq!(Expression::reduce(&vec![t, f, Token::Or]), Ok(true));
    assert_eq!(Expression::reduce(&vec![t, f, Token::BiImpls]), Ok(false));
    assert_eq!(Expression::reduce(&vec![f, f, Token::BiImpls]), Ok(true));
    assert_eq!(
        Expression::reduce(&vec![t, f, Token::Or, f, Token::Not, Token::And]),
        Ok(true)
    );
}

#[test]
fn reduce_rejects_what_is_no_formula() {
    let t = Token::Bool(true);
    let malformed = Err(ExpressionError::MalformedFormula);
    assert_eq!(Expression::reduce(&vec![]), malformed);
    assert_eq!(Expression::reduce(&vec![Token::And]), malformed);
    assert_eq!(Expression::reduce(&vec![Token::Not]), malformed);
    assert_eq!(Expression::reduce(&vec![t, Token::Or]), malformed);
    assert_eq!(Expression::reduce(&vec![t, t]), malformed);
    assert_eq!(Expression::reduce(&vec![Token::Var(0)]), malformed);
    assert_eq!(Expression::reduce(&vec![t, Token::Var(0), Token::And]), malformed);
}

#[test]
fn operators_on_present_operands() {
    for a in [false, true] {
        assert_eq!(Expression::not(Some(a)), Ok(!a));
        for b in [false, true] {
            assert_eq!(Expression::and(Some(a), Some(b)), Ok(a & b));
            assert_eq!(Expression::or(Some(a), Some(b)), Ok(a | b));
            assert_eq!(Expression::impls(Some(a), Some(b)), Ok(!a | b));
            assert_eq!(Expression::bi_impls(Some(a), Some(b)), Ok(!(a ^ b)));
        }
    }
    assert_eq!(Expression::impls(Some(true), Some(false)), Ok(false));
    assert_eq!(Expression::impls(Some(false), Some(true)), Ok(true));
}

#[test]
fn operators_on_missing_operands() {
    let malformed = Err(ExpressionError::MalformedFormula);
    assert_eq!(Expression::not(None), malformed);
    assert_eq!(Expression::and(None, Some(true)), malformed);
    assert_eq!(Expression::and(Some(true), None), malformed);
    assert_eq!(Expression::or(None, None), malformed);
    assert_eq!(Expression::or(Some(true), None), malformed);
    assert_eq!(Expression::impls(None, Some(true)), malformed);
    assert_eq!(Expression::impls(Some(false), None), malformed);
    assert_eq!(Expression::bi_impls(None, Some(false)), malformed);
    assert_eq!(Expression::bi_impls(Some(false), None), malformed);
}
