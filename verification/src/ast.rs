//! The data the pipeline passes between its stages: tokens, expression
//! trees, and the error taxonomy shared by every stage.

use vstd::prelude::*;

verus! {

/// One of the four binary arithmetic operators.
#[derive(Clone, Copy, Debug, PartialEq, Eq, Structural)]
pub enum Op {
    Add,
    Sub,
    Mul,
    Div,
}

/// A lexical unit of the input text.
///
/// A constant carries the unsigned value of one maximal run of decimal
/// digits; parentheses are structural markers with no payload.
#[derive(Clone, Copy, Debug, PartialEq, Eq, Structural)]
pub enum Token {
    Operator(Op),
    Constant(u32),
    ParenOpen,
    ParenClose,
}

/// A parsed arithmetic expression: a binary tree whose leaves are signed
/// integer constants. Every operator node owns exactly two fully built
/// children, so a value of this type is a tree by construction.
#[derive(Debug, PartialEq, Eq)]
pub enum Expression {
    Operator(Op, Box<Expression>, Box<Expression>),
    Constant(i32),
}

/// Why the pipeline stopped. Every error is fatal: the stage that detects it
/// reports it at once and no partial result is kept.
#[derive(Clone, Copy, Debug, PartialEq, Eq, Structural)]
pub enum EvalError {
    /// The input holds a character that is not a digit, an operator, a
    /// parenthesis, or whitespace.
    Lexical,
    /// A constant or an intermediate result does not fit the evaluator's
    /// signed 32-bit integer type.
    Overflow,
    /// An operator has no operand where one is required, or the input holds
    /// no operand at all.
    MissingOperand,
    /// A parenthesis is opened without a matching close, or closed without a
    /// matching open.
    UnmatchedParen,
    /// A division's right operand evaluates to zero.
    DivisionByZero,
}

impl EvalError {
    /// The user-visible diagnostic for this error.
    pub fn message(&self) -> (r: &'static str)
        ensures
            *self == EvalError::Lexical ==> r@ == "Unknown operator!"@,
            *self == EvalError::Overflow ==> r@ == "Out of bounds!"@,
            *self == EvalError::MissingOperand ==> r@ == "Expected an operand!"@,
            *self == EvalError::UnmatchedParen ==> r@ == "Unmatched parenthesis!"@,
            *self == EvalError::DivisionByZero ==> r@ == "Division by zero!"@,
    {
        match self {
            EvalError::Lexical => "Unknown operator!",
            EvalError::Overflow => "Out of bounds!",
            EvalError::MissingOperand => "Expected an operand!",
            EvalError::UnmatchedParen => "Unmatched parenthesis!",
            EvalError::DivisionByZero => "Division by zero!",
        }
    }
}

} // verus!
