//! Evaluation of a parsed expression tree to a signed 32-bit integer.
//!
//! Arithmetic is checked: a division whose right operand is zero reports
//! [`EvalError::DivisionByZero`], and any operation whose mathematical result
//! falls outside the `i32` range reports [`EvalError::Overflow`]. Division
//! truncates toward zero, as Rust's signed division does.

use crate::ast::{EvalError, Expression, Op};
use vstd::prelude::*;

verus! {

/// The magnitude of an integer.
pub open spec fn mag(a: int) -> nat {
    if a >= 0 {
        a as nat
    } else {
        (-a) as nat
    }
}

/// Integer division truncating toward zero: the quotient's magnitude is the
/// floor of `mag(a) / mag(b)`, and its sign is the sign of `a * b`.
pub open spec fn trunc_div(a: int, b: int) -> int
    recommends
        b != 0,
{
    if (a < 0) == (b < 0) {
        (mag(a) / mag(b)) as int
    } else {
        -((mag(a) / mag(b)) as int)
    }
}

/// The result of one arithmetic operation, `Overflow` if the exact value
/// does not fit in `i32`, and `DivisionByZero` for a zero right operand.
pub open spec fn spec_apply(op: Op, a: int, b: int) -> Result<int, EvalError> {
    match op {
        Op::Add => in_i32_range(a + b),
        Op::Sub => in_i32_range(a - b),
        Op::Mul => in_i32_range(a * b),
        Op::Div => if b == 0 {
            Err(EvalError::DivisionByZero)
        } else {
            in_i32_range(trunc_div(a, b))
        },
    }
}

pub open spec fn in_i32_range(v: int) -> Result<int, EvalError> {
    if i32::MIN <= v <= i32::MAX {
        Ok(v)
    } else {
        Err(EvalError::Overflow)
    }
}

/// The value of an expression tree: constants evaluate to themselves, an
/// operator node combines the values of its children, and the first error
/// (in left-to-right order) aborts the whole evaluation.
pub open spec fn spec_evaluate(e: Expression) -> Result<int, EvalError>
    decreases e,
{
    match e {
        Expression::Constant(n) => Ok(n as int),
        Expression::Operator(op, l, r) => match spec_evaluate(*l) {
            Err(e1) => Err(e1),
            Ok(a) => match spec_evaluate(*r) {
                Err(e2) => Err(e2),
                Ok(b) => spec_apply(op, a, b),
            },
        },
    }
}

/// Division truncates toward zero: the quotient's magnitude counts how many
/// whole divisors fit in the dividend's magnitude (never rounding away from
/// zero), and the quotient is negative exactly when the operands' signs
/// differ — so `7 / 2` is `3` and `(1-4) / 2` is `-1`, not `-2`.
pub proof fn lemma_division_truncates(a: int, b: int)
    requires
        b != 0,
    ensures
        mag(trunc_div(a, b)) == mag(a) / mag(b),
        mag(trunc_div(a, b)) * mag(b) <= mag(a) < (mag(trunc_div(a, b)) + 1) * mag(b),
        ((a < 0) == (b < 0)) ==> trunc_div(a, b) >= 0,
        ((a < 0) != (b < 0)) ==> trunc_div(a, b) <= 0,
{
    let x = mag(a) as int;
    let m = mag(b) as int;
    let q = x / m;
    vstd::arithmetic::div_mod::lemma_fundamental_div_mod(x, m);
    vstd::arithmetic::div_mod::lemma_mod_bound(x, m);
    vstd::arithmetic::div_mod::lemma_div_pos_is_pos(x, m);
    assert(q * m <= x < (q + 1) * m) by (nonlinear_arith)
        requires
            m > 0,
            0 <= x % m < m,
            x == m * q + x % m,
    ;
}

/// Check that a wide intermediate result fits in `i32`.
fn fit_i32(v: i64) -> (r: Result<i32, EvalError>)
    ensures
        match r {
            Ok(w) => in_i32_range(v as int) == Ok::<int, EvalError>(w as int),
            Err(e) => in_i32_range(v as int) == Err::<int, EvalError>(e),
        },
{
    if v < i32::MIN as i64 || v > i32::MAX as i64 {
        Err(EvalError::Overflow)
    } else {
        Ok(v as i32)
    }
}

/// Divide truncating toward zero. The operands are `i32` values widened to
/// `i64`, so taking magnitudes cannot overflow.
fn div_trunc(a: i64, b: i64) -> (q: i64)
    requires
        i32::MIN as i64 <= a <= i32::MAX as i64,
        i32::MIN as i64 <= b <= i32::MAX as i64,
        b != 0,
    ensures
        q as int == trunc_div(a as int, b as int),
{
    let ua: u64 = if a < 0 {
        (-a) as u64
    } else {
        a as u64
    };
    let ub: u64 = if b < 0 {
        (-b) as u64
    } else {
        b as u64
    };
    assert(ua as nat == mag(a as int) && ub as nat == mag(b as int));
    let uq: u64 = ua / ub;
    assert(uq <= ua) by {
        assert(ua as nat / ub as nat <= ua as nat) by (nonlinear_arith)
            requires
                ub >= 1,
        ;
    }
    if (a < 0) != (b < 0) {
        -(uq as i64)
    } else {
        uq as i64
    }
}

/// Apply one operator to two evaluated operands with checked arithmetic.
fn apply(op: Op, a: i32, b: i32) -> (r: Result<i32, EvalError>)
    ensures
        match r {
            Ok(w) => spec_apply(op, a as int, b as int) == Ok::<int, EvalError>(w as int),
            Err(e) => spec_apply(op, a as int, b as int) == Err::<int, EvalError>(e),
        },
{
    match op {
        Op::Add => fit_i32(a as i64 + b as i64),
        Op::Sub => fit_i32(a as i64 - b as i64),
        Op::Mul => {
            proof {
                assert((a as int) * (b as int) <= 0x8000_0000 * 0x8000_0000 && (a as int) * (
                b as int) >= -(0x8000_0000 * 0x8000_0000)) by (nonlinear_arith)
                    requires
                        -0x8000_0000 <= a as int <= 0x7fff_ffff,
                        -0x8000_0000 <= b as int <= 0x7fff_ffff,
                ;
            }
            let wide: i64 = a as i64 * b as i64;
            fit_i32(wide)
        },
        Op::Div => {
            if b == 0 {
                Err(EvalError::DivisionByZero)
            } else {
                fit_i32(div_trunc(a as i64, b as i64))
            }
        },
    }
}

impl Expression {
    /// Evaluate the tree bottom-up. The result is pinned to
    /// `spec_evaluate`, a function of the tree alone.
    pub fn evaluate(&self) -> (r: Result<i32, EvalError>)
        ensures
            match r {
                Ok(v) => spec_evaluate(*self) == Ok::<int, EvalError>(v as int),
                Err(e) => spec_evaluate(*self) == Err::<int, EvalError>(e),
            },
        decreases *self,
    {
        match self {
            Expression::Constant(n) => Ok(*n),
            Expression::Operator(op, l, r) => {
                let a = match l.evaluate() {
                    Ok(v) => v,
                    Err(e) => {
                        return Err(e);
                    },
                };
                let b = match r.evaluate() {
                    Ok(v) => v,
                    Err(e) => {
                        return Err(e);
                    },
                };
                apply(*op, a, b)
            },
        }
    }
}

} // verus!
