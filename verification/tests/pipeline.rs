use simple_math_parser::{evaluate_str, tokenize, EvalError, Expression, Op, Token};

#[test]
fn precedence_holds() {
    assert_eq!(evaluate_str("2+3*4"), Ok(14));
    assert_eq!(evaluate_str("(2+3)*4"), Ok(20));
    assert_eq!(evaluate_str("2*3+4"), Ok(10));
    assert_eq!(evaluate_str("20-6/2"), Ok(17));
}

#[test]
fn associativity_is_left_to_right() {
    assert_eq!(evaluate_str("10-2-3"), Ok(5));
    assert_eq!(evaluate_str("8/4/2"), Ok(1));
}

#[test]
fn nested_parens() {
    assert_eq!(evaluate_str("((1+2))*3"), Ok(9));
    assert_eq!(evaluate_str("(((7)))"), Ok(7));
}

#[test]
fn whitespace_is_insignificant() {
    assert_eq!(evaluate_str(" 1 +  2 "), Ok(3));
    assert_eq!(evaluate_str(" 1 +  2 "), evaluate_str("1+2"));
    assert_eq!(evaluate_str("\t10 -\n2- 3\r"), Ok(5));
}

#[test]
fn multi_digit_constants_are_single_values() {
    assert_eq!(evaluate_str("12+3"), Ok(15));
    let tokens = tokenize("12+3").unwrap();
    assert_eq!(
        tokens,
        vec![
            Token::Constant(12),
            Token::Operator(Op::Add),
            Token::Constant(3)
        ]
    );
}

#[test]
fn division_truncates_toward_zero() {
    assert_eq!(evaluate_str("7/2"), Ok(3));
    assert_eq!(evaluate_str("1-4"), Ok(-3));
    assert_eq!(evaluate_str("(1-4)/2"), Ok(-1));
    assert_eq!(evaluate_str("(0-7)/2"), Ok(-3));
    assert_eq!(evaluate_str("(0-7)/(0-2)"), Ok(3));
}

#[test]
fn division_by_zero_fails() {
    assert_eq!(evaluate_str("1/0"), Err(EvalError::DivisionByZero));
    assert_eq!(evaluate_str("1/(2-2)"), Err(EvalError::DivisionByZero));
}

#[test]
fn unmatched_parenthesis_fails() {
    assert_eq!(evaluate_str("(1+2"), Err(EvalError::UnmatchedParen));
    assert_eq!(evaluate_str("1+2)"), Err(EvalError::UnmatchedParen));
    assert_eq!(evaluate_str("((1+2)"), Err(EvalError::UnmatchedParen));
}

#[test]
fn unknown_character_fails() {
    assert_eq!(evaluate_str("1+@"), Err(EvalError::Lexical));
    assert_eq!(evaluate_str("deux+2"), Err(EvalError::Lexical));
    assert_eq!(evaluate_str("1+é"), Err(EvalError::Lexical));
}

#[test]
fn mixed_precedence_expressions() {
    assert_eq!(evaluate_str("1+2*3-4/2"), Ok(5));
    assert_eq!(evaluate_str("2*(3+4)"), Ok(14));
    assert_eq!(evaluate_str("(2+3)*(4+5)"), Ok(45));
    assert_eq!(evaluate_str("100/10/5+3*(2+8)"), Ok(32));
}

#[test]
fn missing_operand_fails() {
    assert_eq!(evaluate_str("+1"), Err(EvalError::MissingOperand));
    assert_eq!(evaluate_str("1+"), Err(EvalError::MissingOperand));
    assert_eq!(evaluate_str(""), Err(EvalError::MissingOperand));
    assert_eq!(evaluate_str("()"), Err(EvalError::MissingOperand));
    assert_eq!(evaluate_str("1 2"), Err(EvalError::MissingOperand));
}

#[test]
fn constants_out_of_bounds_fail() {
    assert_eq!(evaluate_str("2147483647"), Ok(2147483647));
    assert_eq!(evaluate_str("2147483648"), Err(EvalError::Overflow));
    assert_eq!(evaluate_str("4294967296"), Err(EvalError::Overflow));
}

#[test]
fn arithmetic_overflow_fails() {
    assert_eq!(evaluate_str("2147483647+1"), Err(EvalError::Overflow));
    assert_eq!(evaluate_str("65536*65536"), Err(EvalError::Overflow));
    assert_eq!(evaluate_str("0-2147483647-1"), Ok(-2147483648));
    assert_eq!(evaluate_str("0-2147483647-2"), Err(EvalError::Overflow));
    assert_eq!(evaluate_str("(0-2147483647-1)/(0-1)"), Err(EvalError::Overflow));
}

#[test]
fn rerunning_the_pipeline_is_idempotent() {
    let inputs = ["2+3*4", " 1 +  2 ", "(1+2", "1/0", "4294967296", ""];
    for s in inputs {
        assert_eq!(evaluate_str(s), evaluate_str(s));
    }
}

#[test]
fn parsing_twice_yields_equal_trees() {
    let tokens = tokenize("(2+3)*4-5").unwrap();
    let first = Expression::parse(&tokens).unwrap();
    let second = Expression::parse(&tokens).unwrap();
    assert_eq!(first, second);
}

#[test]
fn tokenizing_twice_yields_equal_tokens() {
    let first = tokenize(" 12*(3+4) ").unwrap();
    let second = tokenize(" 12*(3+4) ").unwrap();
    assert_eq!(first, second);
}

#[test]
fn error_messages() {
    assert_eq!(EvalError::Lexical.message(), "Unknown operator!");
    assert_eq!(EvalError::Overflow.message(), "Out of bounds!");
    assert_eq!(EvalError::MissingOperand.message(), "Expected an operand!");
    assert_eq!(EvalError::UnmatchedParen.message(), "Unmatched parenthesis!");
    assert_eq!(EvalError::DivisionByZero.message(), "Division by zero!");
}
