use simple_math_parser::{tokenize, EvalError, Expression, Op, Token};

fn constant(n: i32) -> Box<Expression> {
    Box::new(Expression::Constant(n))
}

#[test]
fn tokenize_maps_each_symbol() {
    let tokens = tokenize("(1+2)-3*4/5").unwrap();
    assert_eq!(
        tokens,
        vec![
            Token::ParenOpen,
            Token::Constant(1),
            Token::Operator(Op::Add),
            Token::Constant(2),
            Token::ParenClose,
            Token::Operator(Op::Sub),
            Token::Constant(3),
            Token::Operator(Op::Mul),
            Token::Constant(4),
            Token::Operator(Op::Div),
            Token::Constant(5),
        ]
    );
}

#[test]
fn tokenize_skips_whitespace_only_input() {
    assert_eq!(tokenize("   \t\n"), Ok(vec![]));
}

#[test]
fn tokenize_rejects_unknown_characters() {
    assert_eq!(tokenize("1+@"), Err(EvalError::Lexical));
    assert_eq!(tokenize("1.5"), Err(EvalError::Lexical));
}

#[test]
fn tokenize_keeps_constants_up_to_u32_max() {
    assert_eq!(tokenize("4294967295"), Ok(vec![Token::Constant(4294967295)]));
    assert_eq!(tokenize("4294967296"), Err(EvalError::Overflow));
}

#[test]
fn parse_builds_precedence_into_the_tree() {
    let tokens = tokenize("2+3*4").unwrap();
    let tree = Expression::parse(&tokens).unwrap();
    assert_eq!(
        tree,
        Expression::Operator(
            Op::Add,
            constant(2),
            Box::new(Expression::Operator(Op::Mul, constant(3), constant(4))),
        )
    );
}

#[test]
fn parse_groups_equal_precedence_to_the_left() {
    let tokens = tokenize("10-2-3").unwrap();
    let tree = Expression::parse(&tokens).unwrap();
    assert_eq!(
        tree,
        Expression::Operator(
            Op::Sub,
            Box::new(Expression::Operator(Op::Sub, constant(10), constant(2))),
            constant(3),
        )
    );
}

#[test]
fn parse_rejects_constants_beyond_i32() {
    let tokens = vec![Token::Constant(2147483648)];
    assert_eq!(Expression::parse(&tokens), Err(EvalError::Overflow));
}

#[test]
fn parse_block_consumes_one_group() {
    let tokens = tokenize("(1+2)*3").unwrap();
    let (result, after) = Expression::parse_block(&tokens, 1, true);
    assert_eq!(
        result,
        Ok(Expression::Operator(Op::Add, constant(1), constant(2)))
    );
    assert_eq!(after, 5);
}

#[test]
fn parse_block_reports_a_group_without_close() {
    let tokens = tokenize("(1+2").unwrap();
    let (result, _) = Expression::parse_block(&tokens, 1, true);
    assert_eq!(result, Err(EvalError::UnmatchedParen));
}

#[test]
fn evaluate_combines_children() {
    let tree = Expression::Operator(Op::Div, constant(7), constant(2));
    assert_eq!(tree.evaluate(), Ok(3));
    let tree = Expression::Operator(Op::Div, constant(-7), constant(2));
    assert_eq!(tree.evaluate(), Ok(-3));
    let tree = Expression::Operator(Op::Div, constant(1), constant(0));
    assert_eq!(tree.evaluate(), Err(EvalError::DivisionByZero));
    let tree = Expression::Operator(Op::Mul, constant(65536), constant(65536));
    assert_eq!(tree.evaluate(), Err(EvalError::Overflow));
}

#[test]
fn evaluate_reports_the_leftmost_error() {
    let left = Expression::Operator(Op::Div, constant(1), constant(0));
    let right = Expression::Operator(Op::Mul, constant(65536), constant(65536));
    let tree = Expression::Operator(Op::Add, Box::new(left), Box::new(right));
    assert_eq!(tree.evaluate(), Err(EvalError::DivisionByZero));
}
