//! Turning the input text into a sequence of tokens.
//!
//! Maximal runs of decimal digits fold left-to-right into one unsigned
//! constant, ASCII whitespace is skipped, each of `+ - * / ( )` maps to its
//! token, and any other character stops the whole pipeline with
//! [`EvalError::Lexical`]. A digit run whose value does not fit the `u32`
//! accumulator stops it with [`EvalError::Overflow`].

use crate::ast::{EvalError, Op, Token};
use vstd::prelude::*;
use vstd::string::StrSliceExecFns;

verus! {

/// A decimal digit.
pub open spec fn is_digit_char(c: char) -> bool {
    '0' as u32 <= c as u32 && c as u32 <= '9' as u32
}

/// The numeric value of a decimal digit.
pub open spec fn digit_value(c: char) -> nat
    recommends
        is_digit_char(c),
{
    (c as u32 - '0' as u32) as nat
}

/// ASCII whitespace: space, tab, line feed, carriage return, form feed.
pub open spec fn is_space_char(c: char) -> bool {
    c == ' ' || c == '\t' || c == '\n' || c == '\r' || c == '\u{c}'
}

/// The token for a single operator or parenthesis character, `None` for any
/// character that is not one of `+ - * / ( )`.
pub open spec fn symbol_token(c: char) -> Option<Token> {
    if c == '+' {
        Some(Token::Operator(Op::Add))
    } else if c == '-' {
        Some(Token::Operator(Op::Sub))
    } else if c == '*' {
        Some(Token::Operator(Op::Mul))
    } else if c == '/' {
        Some(Token::Operator(Op::Div))
    } else if c == '(' {
        Some(Token::ParenOpen)
    } else if c == ')' {
        Some(Token::ParenClose)
    } else {
        None
    }
}

/// The tokens of `s` from position `i` on: skip whitespace, fold digit runs
/// into constants via `spec_tokenize_number`, map symbols to their tokens,
/// and stop with an error at the first character that fits none of these.
pub open spec fn spec_tokenize(s: Seq<char>, i: nat) -> Result<Seq<Token>, EvalError>
    decreases s.len() - i, 0int,
{
    if i >= s.len() {
        Ok(Seq::empty())
    } else if is_space_char(s[i as int]) {
        spec_tokenize(s, i + 1)
    } else if is_digit_char(s[i as int]) {
        spec_tokenize_number(s, i + 1, digit_value(s[i as int]))
    } else {
        match symbol_token(s[i as int]) {
            Some(t) => match spec_tokenize(s, i + 1) {
                Ok(rest) => Ok(seq![t] + rest),
                Err(e) => Err(e),
            },
            None => Err(EvalError::Lexical),
        }
    }
}

/// Continue a digit run whose value so far is `acc`: extend the accumulator
/// (`acc * 10 + digit`) through the run, then emit one constant token, or
/// report overflow if the run's full value does not fit in `u32`.
pub open spec fn spec_tokenize_number(s: Seq<char>, i: nat, acc: nat) -> Result<
    Seq<Token>,
    EvalError,
>
    decreases s.len() - i, 1int,
{
    if i < s.len() && is_digit_char(s[i as int]) {
        spec_tokenize_number(s, i + 1, acc * 10 + digit_value(s[i as int]))
    } else if acc > u32::MAX as nat {
        Err(EvalError::Overflow)
    } else {
        match spec_tokenize(s, i) {
            Ok(rest) => Ok(seq![Token::Constant(acc as u32)] + rest),
            Err(e) => Err(e),
        }
    }
}

/// Once the accumulator has outgrown `u32`, the rest of the run cannot bring
/// it back: the whole digit run reports overflow.
proof fn lemma_number_overflow(s: Seq<char>, i: nat, acc: nat)
    requires
        acc > u32::MAX as nat,
    ensures
        spec_tokenize_number(s, i, acc) == Err::<Seq<Token>, EvalError>(EvalError::Overflow),
    decreases s.len() - i,
{
    if i < s.len() && is_digit_char(s[i as int]) {
        let acc2 = acc * 10 + digit_value(s[i as int]);
        assert(acc * 10 >= acc) by (nonlinear_arith)
            requires
                acc >= 0,
        ;
        lemma_number_overflow(s, i + 1, acc2);
    }
}

/// The decimal value of the digits of `s` from `i` on, folded left-to-right
/// onto `acc`, one `acc * 10 + digit` step per digit.
pub open spec fn digits_value_from(s: Seq<char>, i: nat, acc: nat) -> nat
    decreases s.len() - i,
{
    if i < s.len() && is_digit_char(s[i as int]) {
        digits_value_from(s, i + 1, acc * 10 + digit_value(s[i as int]))
    } else {
        acc
    }
}

/// A string of digits tokenizes to exactly one constant token carrying the
/// string's decimal value — never to one token per digit — as long as that
/// value fits the `u32` accumulator.
pub proof fn lemma_digits_are_one_constant(s: Seq<char>)
    requires
        s.len() > 0,
        forall|k: int| 0 <= k < s.len() ==> is_digit_char(s[k]),
        digits_value_from(s, 0, 0) <= u32::MAX as nat,
    ensures
        spec_tokenize(s, 0) == Ok::<Seq<Token>, EvalError>(
            seq![Token::Constant(digits_value_from(s, 0, 0) as u32)],
        ),
{
    lemma_number_run(s, 1, digit_value(s[0]));
    assert(digits_value_from(s, 0, 0) == digits_value_from(s, 1, digit_value(s[0])));
    assert(seq![Token::Constant(digits_value_from(s, 0, 0) as u32)] + Seq::<Token>::empty()
        =~= seq![Token::Constant(digits_value_from(s, 0, 0) as u32)]);
}

/// Within a digit run the tokenizer's accumulator follows `digits_value_from`
/// step for step.
proof fn lemma_number_run(s: Seq<char>, i: nat, acc: nat)
    requires
        forall|k: int| 0 <= k < s.len() ==> is_digit_char(s[k]),
    ensures
        spec_tokenize_number(s, i, acc) == (if digits_value_from(s, i, acc) > u32::MAX as nat {
            Err::<Seq<Token>, EvalError>(EvalError::Overflow)
        } else {
            Ok::<Seq<Token>, EvalError>(
                seq![Token::Constant(digits_value_from(s, i, acc) as u32)] + Seq::<
                    Token,
                >::empty(),
            )
        }),
    decreases s.len() - i,
{
    if i < s.len() {
        lemma_number_run(s, i + 1, acc * 10 + digit_value(s[i as int]));
    } else {
        assert(spec_tokenize(s, i) == Ok::<Seq<Token>, EvalError>(Seq::empty()));
        assert(digits_value_from(s, i, acc) == acc);
    }
}

/// Prepend already-produced tokens to the outcome of tokenizing the rest.
pub open spec fn tokens_then(pre: Seq<Token>, rest: Result<Seq<Token>, EvalError>) -> Result<
    Seq<Token>,
    EvalError,
> {
    match rest {
        Ok(ts) => Ok(pre + ts),
        Err(e) => Err(e),
    }
}

proof fn lemma_tokens_then_join(
    pre: Seq<Token>,
    one: Seq<Token>,
    rest: Result<Seq<Token>, EvalError>,
)
    ensures
        tokens_then(pre, tokens_then(one, rest)) == tokens_then(pre + one, rest),
{
    match rest {
        Ok(ts) => {
            assert(pre + (one + ts) =~= (pre + one) + ts);
        },
        Err(_) => {},
    }
}

/// `w` is `s` with one extra character at position `p`: the two agree left
/// of `p`, and the tail of `s` reappears in `w` shifted right by one.
spec fn inserted_at(s: Seq<char>, w: Seq<char>, p: nat, c: char) -> bool {
    &&& p <= s.len()
    &&& w.len() == s.len() + 1
    &&& (forall|k: int| 0 <= k < p ==> w[k] == s[k])
    &&& w[p as int] == c
    &&& (forall|k: int| p <= k < s.len() ==> w[k + 1] == s[k])
}

/// Right of the inserted character the two inputs are the same text, so
/// tokenizing `w` from `i + 1` is tokenizing `s` from `i`.
proof fn lemma_shift_tok(s: Seq<char>, w: Seq<char>, p: nat, c: char, i: nat)
    requires
        inserted_at(s, w, p, c),
        p <= i,
    ensures
        spec_tokenize(w, i + 1) == spec_tokenize(s, i),
    decreases s.len() - i, 0int,
{
    if i < s.len() {
        assert(w[i as int + 1] == s[i as int]);
        if is_space_char(s[i as int]) {
            lemma_shift_tok(s, w, p, c, i + 1);
        } else if is_digit_char(s[i as int]) {
            lemma_shift_num(s, w, p, c, i + 1, digit_value(s[i as int]));
        } else {
            lemma_shift_tok(s, w, p, c, i + 1);
        }
    }
}

/// The digit-run counterpart of `lemma_shift_tok`.
proof fn lemma_shift_num(s: Seq<char>, w: Seq<char>, p: nat, c: char, i: nat, acc: nat)
    requires
        inserted_at(s, w, p, c),
        p <= i,
    ensures
        spec_tokenize_number(w, i + 1, acc) == spec_tokenize_number(s, i, acc),
    decreases s.len() - i, 1int,
{
    if i < s.len() {
        assert(w[i as int + 1] == s[i as int]);
    }
    if i < s.len() && is_digit_char(s[i as int]) {
        lemma_shift_num(s, w, p, c, i + 1, acc * 10 + digit_value(s[i as int]));
    } else {
        lemma_shift_tok(s, w, p, c, i);
    }
}

/// Up to the insertion point the two inputs agree; at it, `w` holds one
/// whitespace character that `s` lacks, which the scan skips.
proof fn lemma_insert_tok(s: Seq<char>, w: Seq<char>, p: nat, c: char, i: nat)
    requires
        inserted_at(s, w, p, c),
        is_space_char(c),
        i <= p,
        !(0 < p < s.len() && is_digit_char(s[p - 1]) && is_digit_char(s[p as int])),
    ensures
        spec_tokenize(w, i) == spec_tokenize(s, i),
    decreases p - i, 0int,
{
    if i == p {
        // the scan meets the inserted whitespace and skips it
        assert(w[p as int] == c);
        assert(spec_tokenize(w, p) == spec_tokenize(w, p + 1));
        lemma_shift_tok(s, w, p, c, p);
    } else {
        assert(w[i as int] == s[i as int]);
        if is_space_char(s[i as int]) {
            lemma_insert_tok(s, w, p, c, i + 1);
        } else if is_digit_char(s[i as int]) {
            lemma_insert_num(s, w, p, c, i + 1, digit_value(s[i as int]));
        } else {
            lemma_insert_tok(s, w, p, c, i + 1);
        }
    }
}

/// The digit-run counterpart of `lemma_insert_tok`: a run in progress left
/// of the insertion point unfolds the same way in both inputs. The run may
/// reach the insertion point only from a digit just before it, and then the
/// character after the point is not a digit, so the run ends there in both.
proof fn lemma_insert_num(s: Seq<char>, w: Seq<char>, p: nat, c: char, i: nat, acc: nat)
    requires
        inserted_at(s, w, p, c),
        is_space_char(c),
        0 < i <= p,
        is_digit_char(s[i - 1]),
        !(0 < p < s.len() && is_digit_char(s[p - 1]) && is_digit_char(s[p as int])),
    ensures
        spec_tokenize_number(w, i, acc) == spec_tokenize_number(s, i, acc),
    decreases p - i, 1int,
{
    if i == p {
        // the run cannot continue: `w` meets the whitespace, and the
        // character after the insertion point is not a digit
        assert(w[p as int] == c && !is_digit_char(c));
        assert(p < s.len() ==> !is_digit_char(s[p as int]));
        if acc <= u32::MAX as nat {
            assert(spec_tokenize(w, p) == spec_tokenize(w, p + 1));
            lemma_shift_tok(s, w, p, c, p);
        }
    } else {
        assert(w[i as int] == s[i as int]);
        if is_digit_char(s[i as int]) {
            lemma_insert_num(s, w, p, c, i + 1, acc * 10 + digit_value(s[i as int]));
        } else {
            lemma_insert_tok(s, w, p, c, i);
        }
    }
}

/// Whitespace is insignificant: inserting a whitespace character anywhere
/// except strictly inside a digit run (where it would split one constant in
/// two) leaves the token sequence unchanged.
pub proof fn lemma_whitespace_insignificant(s: Seq<char>, p: int, c: char)
    requires
        is_space_char(c),
        0 <= p <= s.len(),
        !(0 < p < s.len() && is_digit_char(s[p - 1]) && is_digit_char(s[p])),
    ensures
        spec_tokenize(s.insert(p, c), 0) == spec_tokenize(s, 0),
{
    s.insert_ensures(p, c);
    lemma_insert_tok(s, s.insert(p, c), p as nat, c, 0);
}

/// Tokenize the characters of the input.
fn tokenize_chars(cs: &Vec<char>) -> (r: Result<Vec<Token>, EvalError>)
    ensures
        match r {
            Ok(v) => spec_tokenize(cs@, 0) == Ok::<Seq<Token>, EvalError>(v@),
            Err(e) => spec_tokenize(cs@, 0) == Err::<Seq<Token>, EvalError>(e),
        },
{
    let s = Ghost(cs@);
    let n = cs.len();
    let mut out: Vec<Token> = Vec::new();
    let mut i: usize = 0;
    while i < n
        invariant
            i <= n,
            n == s@.len(),
            s@ == cs@,
            tokens_then(out@, spec_tokenize(s@, i as nat)) == spec_tokenize(s@, 0),
        decreases n - i,
    {
        let c = cs[i];
        let u = c as u32;
        if c == ' ' || c == '\t' || c == '\n' || c == '\r' || c == '\u{c}' {
            i += 1;
        } else if '0' as u32 <= u && u <= '9' as u32 {
            // a maximal digit run becomes one constant token
            let mut acc: u32 = u - '0' as u32;
            let mut j: usize = i + 1;
            assert(spec_tokenize(s@, i as nat) == spec_tokenize_number(
                s@,
                j as nat,
                acc as nat,
            ));
            while j < n
                invariant
                    i < j <= n,
                    n == s@.len(),
                    s@ == cs@,
                    tokens_then(out@, spec_tokenize_number(s@, j as nat, acc as nat))
                        == spec_tokenize(s@, 0),
                ensures
                    i < j <= n,
                    tokens_then(out@, spec_tokenize_number(s@, j as nat, acc as nat))
                        == spec_tokenize(s@, 0),
                    j == n || !is_digit_char(s@[j as int]),
                decreases n - j,
            {
                let d_u: u32 = cs[j] as u32;
                if !('0' as u32 <= d_u && d_u <= '9' as u32) {
                    break ;
                }
                let d: u32 = d_u - '0' as u32;
                let wide: u64 = acc as u64 * 10 + d as u64;
                proof {
                    let acc2 = acc as nat * 10 + digit_value(s@[j as int]);
                    assert(spec_tokenize_number(s@, j as nat, acc as nat) == spec_tokenize_number(
                        s@,
                        (j + 1) as nat,
                        acc2,
                    ));
                    if wide > u32::MAX as u64 {
                        lemma_number_overflow(s@, (j + 1) as nat, acc2);
                    }
                }
                if wide > u32::MAX as u64 {
                    return Err(EvalError::Overflow);
                }
                acc = wide as u32;
                j += 1;
            }
            proof {
                // the run has ended: the spec emits the accumulated constant
                assert(spec_tokenize_number(s@, j as nat, acc as nat) == tokens_then(
                    seq![Token::Constant(acc)],
                    spec_tokenize(s@, j as nat),
                ));
                lemma_tokens_then_join(
                    out@,
                    seq![Token::Constant(acc)],
                    spec_tokenize(s@, j as nat),
                );
                assert(out@ + seq![Token::Constant(acc)] =~= out@.push(Token::Constant(acc)));
            }
            out.push(Token::Constant(acc));
            i = j;
        } else {
            let t = if c == '+' {
                Token::Operator(Op::Add)
            } else if c == '-' {
                Token::Operator(Op::Sub)
            } else if c == '*' {
                Token::Operator(Op::Mul)
            } else if c == '/' {
                Token::Operator(Op::Div)
            } else if c == '(' {
                Token::ParenOpen
            } else if c == ')' {
                Token::ParenClose
            } else {
                return Err(EvalError::Lexical);
            };
            proof {
                assert(spec_tokenize(s@, i as nat) == tokens_then(
                    seq![t],
                    spec_tokenize(s@, (i + 1) as nat),
                ));
                lemma_tokens_then_join(out@, seq![t], spec_tokenize(s@, (i + 1) as nat));
                assert(out@ + seq![t] =~= out@.push(t));
            }
            out.push(t);
            i += 1;
        }
    }
    proof {
        assert(spec_tokenize(s@, n as nat) == Ok::<Seq<Token>, EvalError>(Seq::empty()));
        assert(out@ + Seq::<Token>::empty() =~= out@);
    }
    Ok(out)
}

/// Tokenize the input text, or report the first lexical problem.
pub fn tokenize(s: &str) -> (r: Result<Vec<Token>, EvalError>)
    ensures
        match r {
            Ok(v) => spec_tokenize(s@, 0) == Ok::<Seq<Token>, EvalError>(v@),
            Err(e) => spec_tokenize(s@, 0) == Err::<Seq<Token>, EvalError>(e),
        },
{
    let n = s.unicode_len();
    let mut cs: Vec<char> = Vec::new();
    let mut i: usize = 0;
    while i < n
        invariant
            i <= n,
            n == s@.len(),
            cs@ =~= s@.take(i as int),
        decreases n - i,
    {
        cs.push(s.get_char(i));
        i += 1;
    }
    proof {
        assert(cs@ =~= s@);
    }
    tokenize_chars(&cs)
}

} // verus!
