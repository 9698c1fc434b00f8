//! An arithmetic expression calculator.
//!
//! An input string such as `"(2+3)*4"` is tokenized into a sequence of
//! [`ast::Token`] values, parsed into an [`ast::Expression`] tree that honors
//! the usual precedence (`*` and `/` bind tighter than `+` and `-`) and
//! left-to-right associativity, and evaluated to a signed 32-bit integer.
//! Every stage either fully succeeds or reports an [`ast::EvalError`]; no
//! stage panics, and each stage's result is a function of its input alone.

pub mod ast;
pub mod evaluator;
pub mod parser;
pub mod tokenizer;

pub use ast::{EvalError, Expression, Op, Token};
pub use tokenizer::tokenize;

use vstd::prelude::*;

verus! {

/// The value of an expression string: tokenize it, parse the tokens, and
/// evaluate the resulting tree, stopping at the first error.
pub open spec fn spec_evaluate_str(s: Seq<char>) -> Result<int, EvalError> {
    match tokenizer::spec_tokenize(s, 0) {
        Err(e) => Err(e),
        Ok(tokens) => match parser::spec_parse(tokens) {
            Err(e) => Err(e),
            Ok(tree) => evaluator::spec_evaluate(tree),
        },
    }
}

/// Whitespace is insignificant to the whole pipeline: inserting a
/// whitespace character anywhere except strictly inside a digit run (where
/// it would split one constant in two) leaves the expression's value — and
/// any error it reports — unchanged.
pub proof fn lemma_whitespace_insignificant_for_value(s: Seq<char>, p: int, c: char)
    requires
        tokenizer::is_space_char(c),
        0 <= p <= s.len(),
        !(0 < p < s.len() && tokenizer::is_digit_char(s[p - 1]) && tokenizer::is_digit_char(
            s[p],
        )),
    ensures
        spec_evaluate_str(s.insert(p, c)) == spec_evaluate_str(s),
{
    tokenizer::lemma_whitespace_insignificant(s, p, c);
}

/// Run the whole pipeline on one input string.
///
/// The result is pinned to `spec_evaluate_str`, a function of the input text
/// alone, so two runs on the same string always agree.
pub fn evaluate_str(s: &str) -> (r: Result<i32, EvalError>)
    ensures
        match r {
            Ok(v) => spec_evaluate_str(s@) == Ok::<int, EvalError>(v as int),
            Err(e) => spec_evaluate_str(s@) == Err::<int, EvalError>(e),
        },
{
    let tokens = match tokenize(s) {
        Ok(ts) => ts,
        Err(e) => {
            return Err(e);
        },
    };
    let tree = match Expression::parse(tokens.as_slice()) {
        Ok(t) => t,
        Err(e) => {
            return Err(e);
        },
    };
    tree.evaluate()
}

} // verus!
