//! Building an expression tree from the token sequence.
//!
//! The grammar is the usual one for the four operators:
//!
//! ```text
//! expression := term   { (+|-) term }
//! term       := factor { (*|/) factor }
//! factor     := Constant | '(' expression ')'
//! ```
//!
//! `*` and `/` bind tighter than `+` and `-`, and operators of equal
//! precedence group left-to-right, so `10-2-3` parses as `(10-2)-3`. The
//! parser is a recursive descent over the grammar; each level folds its
//! operators into the tree as it meets them, which puts earlier operands
//! deeper on the left and yields the left-to-right grouping.
//!
//! Positions index the token sequence from the front: each parsing function
//! takes the position where its piece starts and returns the parsed tree
//! together with the position just after what it consumed.

use crate::ast::{EvalError, Expression, Op, Token};
use vstd::prelude::*;

verus! {

/// Parse one factor at `i`: a constant, or a parenthesized group. A constant
/// above `i32::MAX` is out of bounds; a token that cannot start a factor
/// (an operator, a closing parenthesis, or the end of input) is a missing
/// operand.
pub open spec fn spec_parse_factor(t: Seq<Token>, i: nat) -> (Result<Expression, EvalError>, nat)
    decreases t.len() - i, 0int,
{
    if i >= t.len() {
        (Err(EvalError::MissingOperand), i)
    } else {
        match t[i as int] {
            Token::Constant(n) => {
                if n > i32::MAX as u32 {
                    (Err(EvalError::Overflow), i)
                } else {
                    (Ok(Expression::Constant(n as i32)), i + 1)
                }
            },
            Token::ParenOpen => spec_parse_block(t, i + 1, true),
            Token::Operator(_) => (Err(EvalError::MissingOperand), i),
            Token::ParenClose => (Err(EvalError::MissingOperand), i),
        }
    }
}

/// The position a sub-parse that started at `i` ends at: strictly right of
/// `i` and never past the end. A successful sub-parse consumes at least one
/// token and stays inside the sequence, so `j` itself lands in that window;
/// the fallback only keeps the recursion well-founded.
pub open spec fn advance(t: Seq<Token>, i: nat, j: nat) -> nat {
    if i < j <= t.len() {
        j
    } else {
        t.len()
    }
}

/// Parse one term at `i`: a factor, then every `*` or `/` that follows at
/// this level, folded left-to-right.
pub open spec fn spec_parse_term(t: Seq<Token>, i: nat) -> (Result<Expression, EvalError>, nat)
    decreases t.len() - i, 1int,
{
    if i >= t.len() {
        spec_parse_factor(t, i)
    } else {
        let f = spec_parse_factor(t, i);
        match f.0 {
            Err(_) => f,
            Ok(e) => spec_parse_term_rest(t, advance(t, i, f.1), e),
        }
    }
}

/// Fold `(*|/) factor` repetitions onto `acc`, left-to-right, stopping at
/// the first token that does not continue the term.
pub open spec fn spec_parse_term_rest(t: Seq<Token>, i: nat, acc: Expression) -> (Result<
    Expression,
    EvalError,
>, nat)
    decreases t.len() - i, 2int,
{
    if i < t.len() && (t[i as int] == Token::Operator(Op::Mul) || t[i as int] == Token::Operator(
        Op::Div,
    )) {
        let op = if t[i as int] == Token::Operator(Op::Mul) {
            Op::Mul
        } else {
            Op::Div
        };
        let f = spec_parse_factor(t, i + 1);
        match f.0 {
            Err(e) => (Err(e), f.1),
            Ok(rhs) => {
                let node = Expression::Operator(op, Box::new(acc), Box::new(rhs));
                spec_parse_term_rest(t, advance(t, i, f.1), node)
            },
        }
    } else {
        (Ok(acc), i)
    }
}

/// Parse one expression at `i`: a term, then every `+` or `-` that follows
/// at this level, folded left-to-right.
pub open spec fn spec_parse_expr(t: Seq<Token>, i: nat) -> (Result<Expression, EvalError>, nat)
    decreases t.len() - i, 3int,
{
    if i >= t.len() {
        spec_parse_term(t, i)
    } else {
        let f = spec_parse_term(t, i);
        match f.0 {
            Err(_) => f,
            Ok(e) => spec_parse_expr_rest(t, advance(t, i, f.1), e),
        }
    }
}

/// Fold `(+|-) term` repetitions onto `acc`, left-to-right, stopping at the
/// first token that does not continue the expression.
pub open spec fn spec_parse_expr_rest(t: Seq<Token>, i: nat, acc: Expression) -> (Result<
    Expression,
    EvalError,
>, nat)
    decreases t.len() - i, 4int,
{
    if i < t.len() && (t[i as int] == Token::Operator(Op::Add) || t[i as int] == Token::Operator(
        Op::Sub,
    )) {
        let op = if t[i as int] == Token::Operator(Op::Add) {
            Op::Add
        } else {
            Op::Sub
        };
        let f = spec_parse_term(t, i + 1);
        match f.0 {
            Err(e) => (Err(e), f.1),
            Ok(rhs) => {
                let node = Expression::Operator(op, Box::new(acc), Box::new(rhs));
                spec_parse_expr_rest(t, advance(t, i, f.1), node)
            },
        }
    } else {
        (Ok(acc), i)
    }
}

/// Parse one block starting at `i`: a whole expression, and, for a
/// parenthesized block, the closing parenthesis that must follow it. A group
/// whose expression ends without that parenthesis is unmatched.
pub open spec fn spec_parse_block(t: Seq<Token>, i: nat, is_paren_block: bool) -> (Result<
    Expression,
    EvalError,
>, nat)
    decreases t.len() - i, 5int,
{
    let sub = spec_parse_expr(t, i);
    match sub.0 {
        Err(_) => sub,
        Ok(e) => {
            if !is_paren_block {
                (Ok(e), sub.1)
            } else if sub.1 < t.len() && t[sub.1 as int] == Token::ParenClose {
                (Ok(e), sub.1 + 1)
            } else {
                (Err(EvalError::UnmatchedParen), sub.1)
            }
        },
    }
}

/// Parse a whole token sequence into one tree. Tokens left over after the
/// expression are an error: a stray closing parenthesis is an unmatched
/// parenthesis, and anything else means two operands stand side by side
/// with no operator between them.
pub open spec fn spec_parse(t: Seq<Token>) -> Result<Expression, EvalError> {
    let b = spec_parse_block(t, 0, false);
    match b.0 {
        Err(e) => Err(e),
        Ok(e) => {
            if b.1 >= t.len() {
                Ok(e)
            } else if t[b.1 as int] == Token::ParenClose {
                Err(EvalError::UnmatchedParen)
            } else {
                Err(EvalError::MissingOperand)
            }
        },
    }
}

/// Precedence holds for every pair of constants: in `a + b * c` the
/// multiplication ends up deeper in the tree than the addition, so it is
/// evaluated first.
pub proof fn lemma_mul_binds_tighter_than_add(a: u32, b: u32, c: u32)
    requires
        a <= i32::MAX as u32,
        b <= i32::MAX as u32,
        c <= i32::MAX as u32,
    ensures
        spec_parse(
            seq![
                Token::Constant(a),
                Token::Operator(Op::Add),
                Token::Constant(b),
                Token::Operator(Op::Mul),
                Token::Constant(c),
            ],
        ) == Ok::<Expression, EvalError>(
            Expression::Operator(
                Op::Add,
                Box::new(Expression::Constant(a as i32)),
                Box::new(
                    Expression::Operator(
                        Op::Mul,
                        Box::new(Expression::Constant(b as i32)),
                        Box::new(Expression::Constant(c as i32)),
                    ),
                ),
            ),
        ),
{
    let t = seq![
        Token::Constant(a),
        Token::Operator(Op::Add),
        Token::Constant(b),
        Token::Operator(Op::Mul),
        Token::Constant(c),
    ];
    let ca = Expression::Constant(a as i32);
    let cb = Expression::Constant(b as i32);
    let cc = Expression::Constant(c as i32);
    let prod = Expression::Operator(Op::Mul, Box::new(cb), Box::new(cc));
    assert(spec_parse_factor(t, 0) == (Ok::<Expression, EvalError>(ca), 1nat));
    assert(spec_parse_term_rest(t, 1, ca) == (Ok::<Expression, EvalError>(ca), 1nat));
    assert(spec_parse_term(t, 0) == (Ok::<Expression, EvalError>(ca), 1nat));
    assert(spec_parse_factor(t, 2) == (Ok::<Expression, EvalError>(cb), 3nat));
    assert(spec_parse_factor(t, 4) == (Ok::<Expression, EvalError>(cc), 5nat));
    assert(spec_parse_term_rest(t, 5, prod) == (Ok::<Expression, EvalError>(prod), 5nat));
    assert(spec_parse_term_rest(t, 3, cb) == (Ok::<Expression, EvalError>(prod), 5nat));
    assert(spec_parse_term(t, 2) == (Ok::<Expression, EvalError>(prod), 5nat));
    let sum = Expression::Operator(Op::Add, Box::new(ca), Box::new(prod));
    assert(spec_parse_expr_rest(t, 5, sum) == (Ok::<Expression, EvalError>(sum), 5nat));
    assert(spec_parse_expr_rest(t, 1, ca) == (Ok::<Expression, EvalError>(sum), 5nat));
    assert(spec_parse_expr(t, 0) == (Ok::<Expression, EvalError>(sum), 5nat));
    assert(spec_parse_block(t, 0, false) == (Ok::<Expression, EvalError>(sum), 5nat));
}

/// Operators of equal precedence group left-to-right for every triple of
/// constants: `a - b - c` parses as `(a - b) - c`, never `a - (b - c)`.
pub proof fn lemma_sub_groups_left_to_right(a: u32, b: u32, c: u32)
    requires
        a <= i32::MAX as u32,
        b <= i32::MAX as u32,
        c <= i32::MAX as u32,
    ensures
        spec_parse(
            seq![
                Token::Constant(a),
                Token::Operator(Op::Sub),
                Token::Constant(b),
                Token::Operator(Op::Sub),
                Token::Constant(c),
            ],
        ) == Ok::<Expression, EvalError>(
            Expression::Operator(
                Op::Sub,
                Box::new(
                    Expression::Operator(
                        Op::Sub,
                        Box::new(Expression::Constant(a as i32)),
                        Box::new(Expression::Constant(b as i32)),
                    ),
                ),
                Box::new(Expression::Constant(c as i32)),
            ),
        ),
{
    let t = seq![
        Token::Constant(a),
        Token::Operator(Op::Sub),
        Token::Constant(b),
        Token::Operator(Op::Sub),
        Token::Constant(c),
    ];
    let ca = Expression::Constant(a as i32);
    let cb = Expression::Constant(b as i32);
    let cc = Expression::Constant(c as i32);
    assert(spec_parse_factor(t, 0) == (Ok::<Expression, EvalError>(ca), 1nat));
    assert(spec_parse_term_rest(t, 1, ca) == (Ok::<Expression, EvalError>(ca), 1nat));
    assert(spec_parse_term(t, 0) == (Ok::<Expression, EvalError>(ca), 1nat));
    assert(spec_parse_factor(t, 2) == (Ok::<Expression, EvalError>(cb), 3nat));
    assert(spec_parse_term_rest(t, 3, cb) == (Ok::<Expression, EvalError>(cb), 3nat));
    assert(spec_parse_term(t, 2) == (Ok::<Expression, EvalError>(cb), 3nat));
    let left = Expression::Operator(Op::Sub, Box::new(ca), Box::new(cb));
    assert(spec_parse_factor(t, 4) == (Ok::<Expression, EvalError>(cc), 5nat));
    assert(spec_parse_term_rest(t, 5, cc) == (Ok::<Expression, EvalError>(cc), 5nat));
    assert(spec_parse_term(t, 4) == (Ok::<Expression, EvalError>(cc), 5nat));
    let whole = Expression::Operator(Op::Sub, Box::new(left), Box::new(cc));
    assert(spec_parse_expr_rest(t, 5, whole) == (Ok::<Expression, EvalError>(whole), 5nat));
    assert(spec_parse_expr_rest(t, 3, left) == (Ok::<Expression, EvalError>(whole), 5nat));
    assert(spec_parse_expr_rest(t, 1, ca) == (Ok::<Expression, EvalError>(whole), 5nat));
    assert(spec_parse_expr(t, 0) == (Ok::<Expression, EvalError>(whole), 5nat));
    assert(spec_parse_block(t, 0, false) == (Ok::<Expression, EvalError>(whole), 5nat));
}

impl Expression {
    /// Parse one factor: a constant or a parenthesized group.
    fn parse_factor(tokens: &[Token], from: usize) -> (r: (Result<Expression, EvalError>, usize))
        requires
            from <= tokens@.len(),
        ensures
            from <= r.1 <= tokens@.len(),
            r.0 is Ok ==> r.1 > from,
            (r.0, r.1 as nat) == spec_parse_factor(tokens@, from as nat),
        decreases tokens@.len() - from, 0int,
    {
        if from >= tokens.len() {
            return (Err(EvalError::MissingOperand), from);
        }
        match tokens[from] {
            Token::Constant(n) => {
                if n > 0x7fff_ffff {
                    (Err(EvalError::Overflow), from)
                } else {
                    (Ok(Expression::Constant(n as i32)), from + 1)
                }
            },
            Token::ParenOpen => Self::parse_block(tokens, from + 1, true),
            Token::Operator(_) => (Err(EvalError::MissingOperand), from),
            Token::ParenClose => (Err(EvalError::MissingOperand), from),
        }
    }

    /// Parse one term: a factor and the `*`/`/` chain after it.
    fn parse_term(tokens: &[Token], from: usize) -> (r: (Result<Expression, EvalError>, usize))
        requires
            from <= tokens@.len(),
        ensures
            from <= r.1 <= tokens@.len(),
            r.0 is Ok ==> r.1 > from,
            (r.0, r.1 as nat) == spec_parse_term(tokens@, from as nat),
        decreases tokens@.len() - from, 1int,
    {
        let f = Self::parse_factor(tokens, from);
        let j = f.1;
        match f.0 {
            Err(e) => (Err(e), j),
            Ok(e) => Self::parse_term_rest(tokens, j, e),
        }
    }

    /// Fold the `*`/`/` chain at `from` onto `acc`, left-to-right.
    fn parse_term_rest(tokens: &[Token], from: usize, acc: Expression) -> (r: (
        Result<Expression, EvalError>,
        usize,
    ))
        requires
            from <= tokens@.len(),
        ensures
            from <= r.1 <= tokens@.len(),
            (r.0, r.1 as nat) == spec_parse_term_rest(tokens@, from as nat, acc),
        decreases tokens@.len() - from, 2int,
    {
        if from < tokens.len() {
            let op = match tokens[from] {
                Token::Operator(Op::Mul) => Op::Mul,
                Token::Operator(Op::Div) => Op::Div,
                _ => {
                    return (Ok(acc), from);
                },
            };
            let f = Self::parse_factor(tokens, from + 1);
            let j = f.1;
            match f.0 {
                Err(e) => (Err(e), j),
                Ok(rhs) => {
                    let node = Expression::Operator(op, Box::new(acc), Box::new(rhs));
                    Self::parse_term_rest(tokens, j, node)
                },
            }
        } else {
            (Ok(acc), from)
        }
    }

    /// Parse one expression: a term and the `+`/`-` chain after it.
    fn parse_expr(tokens: &[Token], from: usize) -> (r: (Result<Expression, EvalError>, usize))
        requires
            from <= tokens@.len(),
        ensures
            from <= r.1 <= tokens@.len(),
            r.0 is Ok ==> r.1 > from,
            (r.0, r.1 as nat) == spec_parse_expr(tokens@, from as nat),
        decreases tokens@.len() - from, 3int,
    {
        let f = Self::parse_term(tokens, from);
        let j = f.1;
        match f.0 {
            Err(e) => (Err(e), j),
            Ok(e) => Self::parse_expr_rest(tokens, j, e),
        }
    }

    /// Fold the `+`/`-` chain at `from` onto `acc`, left-to-right.
    fn parse_expr_rest(tokens: &[Token], from: usize, acc: Expression) -> (r: (
        Result<Expression, EvalError>,
        usize,
    ))
        requires
            from <= tokens@.len(),
        ensures
            from <= r.1 <= tokens@.len(),
            (r.0, r.1 as nat) == spec_parse_expr_rest(tokens@, from as nat, acc),
        decreases tokens@.len() - from, 4int,
    {
        if from < tokens.len() {
            let op = match tokens[from] {
                Token::Operator(Op::Add) => Op::Add,
                Token::Operator(Op::Sub) => Op::Sub,
                _ => {
                    return (Ok(acc), from);
                },
            };
            let f = Self::parse_term(tokens, from + 1);
            let j = f.1;
            match f.0 {
                Err(e) => (Err(e), j),
                Ok(rhs) => {
                    let node = Expression::Operator(op, Box::new(acc), Box::new(rhs));
                    Self::parse_expr_rest(tokens, j, node)
                },
            }
        } else {
            (Ok(acc), from)
        }
    }

    /// Parse one block of the input: an expression, and, when the block is a
    /// parenthesized group, the closing parenthesis after it. Returns the
    /// block's tree and the position just after what it consumed; the result
    /// is pinned to `spec_parse_block`.
    pub fn parse_block(tokens: &[Token], from: usize, is_paren_block: bool) -> (r: (
        Result<Expression, EvalError>,
        usize,
    ))
        requires
            from <= tokens@.len(),
        ensures
            from <= r.1 <= tokens@.len(),
            r.0 is Ok ==> r.1 > from || !is_paren_block,
            (r.0, r.1 as nat) == spec_parse_block(tokens@, from as nat, is_paren_block),
        decreases tokens@.len() - from, 5int,
    {
        let sub = Self::parse_expr(tokens, from);
        let j = sub.1;
        match sub.0 {
            Err(e) => (Err(e), j),
            Ok(e) => {
                if !is_paren_block {
                    (Ok(e), j)
                } else if j < tokens.len() && matches!(tokens[j], Token::ParenClose) {
                    (Ok(e), j + 1)
                } else {
                    (Err(EvalError::UnmatchedParen), j)
                }
            },
        }
    }

    /// Parse a whole token sequence into one expression tree. The tree is
    /// pinned to `spec_parse`, a function of the tokens alone, so parsing
    /// the same sequence twice yields structurally equal trees.
    pub fn parse(tokens: &[Token]) -> (r: Result<Expression, EvalError>)
        ensures
            r == spec_parse(tokens@),
    {
        let block = Self::parse_block(tokens, 0, false);
        let j = block.1;
        match block.0 {
            Err(e) => Err(e),
            Ok(e) => {
                if j >= tokens.len() {
                    Ok(e)
                } else if matches!(tokens[j], Token::ParenClose) {
                    Err(EvalError::UnmatchedParen)
                } else {
                    Err(EvalError::MissingOperand)
                }
            },
        }
    }
}

} // verus!
