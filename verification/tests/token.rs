use proplogic::token::decimal_text;
use proplogic::{Token, TokenError, Type};

#[test]
fn operators_are_operators() {
    assert!(Token::And.is_opr());
    assert!(Token::Or.is_opr());
    assert!(Token::Impls.is_opr());
    assert!(Token::BiImpls.is_opr());
    assert!(Token::Not.is_opr());
}

#[test]
fn leaves_are_no_operators() {
    assert!(!Token::Var(0).is_opr());
    assert!(!Token::Var(17).is_opr());
    assert!(!Token::Bool(true).is_opr());
    assert!(!Token::Bool(false).is_opr());
}

#[test]
fn is_oper_agrees_with_is_opr() {
    let all = [
        Token::And,
        Token::Or,
        Token::Impls,
        Token::BiImpls,
        Token::Not,
        Token::Var(3),
        Token::Bool(true),
    ];
    for token in all {
        assert_eq!(token.is_oper(), token.is_opr());
    }
    assert!(Token::Not.is_oper());
    assert!(!Token::Var(3).is_oper());
    assert!(!Token::Bool(false).is_oper());
}

#[test]
fn only_variables_are_variables() {
    assert!(Token::Var(0).is_var());
    assert!(Token::Var(u32::MAX).is_var());
    assert!(!Token::And.is_var());
    assert!(!Token::Or.is_var());
    assert!(!Token::Impls.is_var());
    assert!(!Token::BiImpls.is_var());
    assert!(!Token::Not.is_var());
    assert!(!Token::Bool(true).is_var());
}

#[test]
fn variable_index_of_a_variable() {
    assert_eq!(Token::Var(0).get_var_index(), Ok(0));
    assert_eq!(Token::Var(41).get_var_index(), Ok(41));
    assert_eq!(Token::Var(u32::MAX).get_var_index(), Ok(u32::MAX));
    assert_eq!(Token::Var(7).get_variable(), Ok(7));
}

#[test]
fn variable_index_of_anything_else_is_an_error() {
    assert_eq!(Token::And.get_var_index(), Err(TokenError));
    assert_eq!(Token::Or.get_var_index(), Err(TokenError));
    assert_eq!(Token::Impls.get_var_index(), Err(TokenError));
    assert_eq!(Token::BiImpls.get_var_index(), Err(TokenError));
    assert_eq!(Token::Not.get_var_index(), Err(TokenError));
    assert_eq!(Token::Bool(true).get_var_index(), Err(TokenError));
    assert_eq!(Token::Not.get_variable(), Err(TokenError));
    assert_eq!(Token::Bool(false).get_variable(), Err(TokenError));
}

#[test]
fn token_error_message() {
    assert_eq!(TokenError.to_string(), "token is not a variable (display)");
}

#[test]
fn kinds_by_number() {
    assert_eq!(Type::from_u8(0), Type::And);
    assert_eq!(Type::from_u8(1), Type::Or);
    assert_eq!(Type::from_u8(2), Type::Implies);
    assert_eq!(Type::from_u8(3), Type::BiImplies);
    assert_eq!(Type::from_u8(4), Type::Not);
    assert_eq!(Type::from_u8(5), Type::Var);
}

#[test]
fn new_var_makes_a_variable() {
    assert_eq!(Token::new_var(0), Token::Var(0));
    assert_eq!(Token::new_var(9), Token::Var(9));
    assert_ne!(Token::new_var(9), Token::Var(8));
}

#[test]
fn new_oper_makes_the_token_of_its_kind() {
    assert_eq!(Token::new_oper(Type::And), Token::And);
    assert_eq!(Token::new_oper(Type::Or), Token::Or);
    assert_eq!(Token::new_oper(Type::Implies), Token::Impls);
    assert_eq!(Token::new_oper(Type::BiImplies), Token::BiImpls);
    assert_eq!(Token::new_oper(Type::Not), Token::Not);
    assert_eq!(Token::new_oper(Type::Var), Token::Var(0));
}

#[test]
fn symbols_of_the_operators() {
    assert_eq!(Token::And.get_symbol(), "^");
    assert_eq!(Token::Or.get_symbol(), "v");
    assert_eq!(Token::Impls.get_symbol(), "=>");
    assert_eq!(Token::BiImpls.get_symbol(), "<=>");
    assert_eq!(Token::Not.get_symbol(), "!");
}

#[test]
fn symbols_of_the_first_five_variables() {
    assert_eq!(Token::Var(0).get_symbol(), "P");
    assert_eq!(Token::Var(1).get_symbol(), "Q");
    assert_eq!(Token::Var(2).get_symbol(), "R");
    assert_eq!(Token::Var(3).get_symbol(), "S");
    assert_eq!(Token::Var(4).get_symbol(), "T");
}

#[test]
fn symbols_of_the_later_variables() {
    assert_eq!(Token::Var(5).get_symbol(), "A5");
    assert_eq!(Token::Var(9).get_symbol(), "A9");
    assert_eq!(Token::Var(10).get_symbol(), "A10");
    assert_eq!(Token::Var(1203).get_symbol(), "A1203");
    assert_eq!(Token::Var(u32::MAX).get_symbol(), "A4294967295");
}

#[test]
fn symbols_of_the_truth_values() {
    assert_eq!(Token::Bool(true).get_symbol(), "true");
    assert_eq!(Token::Bool(false).get_symbol(), "false");
}

#[test]
fn decimal_numerals() {
    assert_eq!(decimal_text(0), "0");
    assert_eq!(decimal_text(7), "7");
    assert_eq!(decimal_text(10), "10");
    assert_eq!(decimal_text(109), "109");
    assert_eq!(decimal_text(4294967295), "4294967295");
    for n in 0..2000u32 {
        assert_eq!(decimal_text(n), format!("{}", n));
    }
}

#[test]
fn tokens_are_ordered_as_declared() {
    assert!(Token::And < Token::Or);
    assert!(Token::Or < Token::Impls);
    assert!(Token::Impls < Token::BiImpls);
    assert!(Token::BiImpls < Token::Not);
    assert!(Token::Not < Token::Var(0));
    assert!(Token::Var(0) < Token::Var(1));
    assert!(Token::Var(u32::MAX) < Token::Bool(false));
    assert!(Token::Bool(false) < Token::Bool(true));
    assert!(Type::And < Type::Or);
    assert!(Type::Not < Type::Var);
}
