//! The mathematical model of the prefix-expression language: which characters
//! are whitespace, digits and operators, how a digit run is folded into a
//! 64-bit value, and a recursive specification of the parse itself.
//!
//! `parse_expr(s, i)` says exactly what parsing one expression of `s`,
//! starting at position `i`, returns: either the expression's value together
//! with the position just past it, or the first error met. The executable
//! parser is proved to return `parse_expr(s, 0)` collapsed to an integer.

use vstd::prelude::*;
use vstd::wrapping::i64_specs;

verus! {

/// One of the four binary operators of the language.
#[derive(Clone, Copy, Debug, PartialEq, Eq)]
pub enum Op {
    Add,
    Sub,
    Mul,
    Div,
}

/// Why a parse aborted. Every error is terminal: the first one met anywhere
/// in the descent propagates unchanged to the top, where the public entry
/// point collapses it (and only it) to the integer 0.
///
/// The grammar itself can only fail with the first three kinds. Division by
/// zero is not a grammar violation, but the evaluator must answer something
/// for it; it is reported as its own kind and collapses to 0 like the others.
/// Overflow, by contrast, wraps and is not an error.
#[derive(Clone, Copy, Debug, PartialEq, Eq)]
pub enum ParseError {
    /// The character consumed where an operator was required is not one of
    /// `+ - * /`.
    InvalidOperator,
    /// A required literal character (the closing parenthesis) did not match.
    InvalidCharacter,
    /// The input ended where a character was required.
    UnexpectedEof,
    /// A division's right operand evaluated to zero.
    DivisionByZero,
}

/// The whitespace characters skipped between tokens: the Unicode
/// `White_Space` set, the same set `char::is_whitespace` recognises.
pub open spec fn is_space(c: char) -> bool {
    ||| ('\u{0009}' <= c && c <= '\u{000D}')
    ||| c == ' '
    ||| c == '\u{0085}'
    ||| c == '\u{00A0}'
    ||| c == '\u{1680}'
    ||| ('\u{2000}' <= c && c <= '\u{200A}')
    ||| c == '\u{2028}'
    ||| c == '\u{2029}'
    ||| c == '\u{202F}'
    ||| c == '\u{205F}'
    ||| c == '\u{3000}'
}

/// An ASCII decimal digit.
pub open spec fn is_digit(c: char) -> bool {
    '0' <= c && c <= '9'
}

/// The numeric value of a decimal digit.
pub open spec fn digit_value(c: char) -> i64
    recommends
        is_digit(c),
{
    (c as u32 - 48) as i64
}

/// The operator denoted by a character, if any.
pub open spec fn op_of_char(c: char) -> Option<Op> {
    if c == '+' {
        Some(Op::Add)
    } else if c == '-' {
        Some(Op::Sub)
    } else if c == '*' {
        Some(Op::Mul)
    } else if c == '/' {
        Some(Op::Div)
    } else {
        None
    }
}

/// 64-bit division truncating toward zero, with the one out-of-range
/// quotient (`i64::MIN / -1`) wrapping back to `i64::MIN`, as all other
/// arithmetic here wraps.
pub open spec fn trunc_div(l: i64, r: i64) -> i64
    recommends
        r != 0,
{
    if l == i64::MIN && r == -1 {
        i64::MIN
    } else {
        let a = l as int;
        let b = r as int;
        let am = if a >= 0 { a } else { -a };
        let bm = if b >= 0 { b } else { -b };
        let q = am / bm;
        if (a >= 0) == (b >= 0) {
            q as i64
        } else {
            (-q) as i64
        }
    }
}

/// What one operator application returns: wrapping 64-bit addition,
/// subtraction and multiplication, and truncating division, which alone can
/// fail (on a zero right operand).
pub open spec fn apply_op(op: Op, l: i64, r: i64) -> Result<i64, ParseError> {
    match op {
        Op::Add => Ok(i64_specs::wrapping_add(l, r)),
        Op::Sub => Ok(i64_specs::wrapping_sub(l, r)),
        Op::Mul => Ok(i64_specs::wrapping_mul(l, r)),
        Op::Div => if r == 0 {
            Err(ParseError::DivisionByZero)
        } else {
            Ok(trunc_div(l, r))
        },
    }
}

/// The first position at or after `i` holding a non-whitespace character
/// (or the end of the input).
pub open spec fn skip_ws(s: Seq<char>, i: int) -> int
    decreases s.len() - i,
        when 0 <= i <= s.len()
{
    if i < s.len() && is_space(s[i]) {
        skip_ws(s, i + 1)
    } else {
        i
    }
}

/// The end of the maximal digit run starting at `i`.
pub open spec fn digit_run_end(s: Seq<char>, i: int) -> int
    decreases s.len() - i,
        when 0 <= i <= s.len()
{
    if i < s.len() && is_digit(s[i]) {
        digit_run_end(s, i + 1)
    } else {
        i
    }
}

/// One accumulation step of reading a decimal literal left to right:
/// multiply by ten and add the next digit, both wrapping.
pub open spec fn fold_digit(acc: i64, c: char) -> i64 {
    i64_specs::wrapping_add(i64_specs::wrapping_mul(acc, 10), digit_value(c))
}

/// The accumulator after folding the characters `s[i..j)` into `acc`,
/// left to right.
pub open spec fn fold_digits(s: Seq<char>, i: int, j: int, acc: i64) -> i64
    decreases j - i,
        when i <= j
{
    if i < j {
        fold_digits(s, i + 1, j, fold_digit(acc, s[i]))
    } else {
        acc
    }
}

/// The value of the maximal digit run starting at `i`.
pub open spec fn run_value(s: Seq<char>, i: int) -> i64 {
    fold_digits(s, i, digit_run_end(s, i), 0)
}

/// The value of a sequence that is entirely digits.
pub open spec fn digits_value(ds: Seq<char>) -> i64 {
    fold_digits(ds, 0, ds.len() as int, 0)
}

/// Whether position `k`, where an inner parenthesized expression ended,
/// is followed (after whitespace) by the required `)`; on success the
/// value `v` is passed through and the position moves past the `)`.
pub open spec fn close_paren(s: Seq<char>, v: i64, k: int) -> Result<(i64, int), ParseError> {
    let m = skip_ws(s, k);
    if m >= s.len() {
        Err(ParseError::UnexpectedEof)
    } else if s[m] == ')' {
        Ok((v, m + 1))
    } else {
        Err(ParseError::InvalidCharacter)
    }
}

/// What parsing one expression of `s` starting at position `i` returns:
/// `Ok((v, j))` when the expression evaluates to `v` and ends just before
/// `j`, and the first error met otherwise.
///
/// Leading whitespace is skipped; then one character of lookahead decides:
/// `(` opens an explicitly grouped expression, a digit starts a literal
/// (its maximal digit run, folded with wrapping arithmetic), and any other
/// character is consumed as an operator, `parse_op` taking over. At the end
/// of the input the lookahead falls through to the operator form, whose
/// demand for a character fails with `UnexpectedEof`.
pub open spec fn parse_expr(s: Seq<char>, i: int) -> Result<(i64, int), ParseError>
    decreases s.len() - i, 1int,
        when 0 <= i <= s.len()
{
    if i < s.len() && is_space(s[i]) {
        parse_expr(s, i + 1)
    } else if i < s.len() && s[i] == '(' {
        match parse_expr(s, i + 1) {
            Ok((v, k)) => close_paren(s, v, k),
            Err(e) => Err(e),
        }
    } else if i < s.len() && is_digit(s[i]) {
        Ok((run_value(s, i), digit_run_end(s, i)))
    } else {
        parse_op(s, i)
    }
}

/// The operator form: consume one character as the operator, parse the two
/// operand expressions left before right, and combine their values with
/// `apply_op`. Fails with `UnexpectedEof` when no character is left, and
/// with `InvalidOperator` when the consumed character is not `+ - * /`.
///
/// The inner bounds test on `k` only guards termination: a successful parse
/// always advances the cursor (`lemma_parse_expr_advances`), so the test is
/// never false.
pub open spec fn parse_op(s: Seq<char>, i: int) -> Result<(i64, int), ParseError>
    decreases s.len() - i, 0int,
        when 0 <= i <= s.len()
{
    if i >= s.len() {
        Err(ParseError::UnexpectedEof)
    } else {
        match op_of_char(s[i]) {
            None => Err(ParseError::InvalidOperator),
            Some(op) => match parse_expr(s, i + 1) {
                Err(e) => Err(e),
                Ok((l, k)) => if i < k <= s.len() {
                    match parse_expr(s, k) {
                        Err(e) => Err(e),
                        Ok((r, m)) => match apply_op(op, l, r) {
                            Ok(v) => Ok((v, m)),
                            Err(e) => Err(e),
                        },
                    }
                } else {
                    Err(ParseError::UnexpectedEof)
                },
            },
        }
    }
}

/// What the public entry point returns: the value of the first expression
/// of `s` (any trailing characters are ignored), or 0 when the parse fails.
/// A malformed input is thus indistinguishable from one whose value is 0.
pub open spec fn spec_execute(s: Seq<char>) -> i64 {
    match parse_expr(s, 0) {
        Ok(r) => r.0,
        Err(_) => 0,
    }
}

/// `checked_div` computes exactly `trunc_div` on a non-zero divisor: its
/// quotient is truncated toward zero, and it refuses only the one quotient
/// out of the 64-bit range, `i64::MIN / -1`, which `trunc_div` wraps.
#[verifier::rlimit(50)]
pub proof fn lemma_trunc_div_checked(l: i64, r: i64)
    requires
        r != 0,
    ensures
        l.checked_div(r) matches Some(v) ==> v == trunc_div(l, r),
        l.checked_div(r) is None ==> l == i64::MIN && r == -1,
{
    let a = l as int;
    let b = r as int;
    let am = if a >= 0 { a } else { -a };
    let bm = if b >= 0 { b } else { -b };
    let q = am / bm;
    vstd::arithmetic::div_mod::lemma_div_pos_is_pos(am, bm);
    vstd::arithmetic::div_mod::lemma_div_nonincreasing(am, bm);
    assert(0 <= q <= am <= 0x8000_0000_0000_0000);
    if a == 0 {
        assert(q == 0);
    } else if a > 0 && b > 0 {
        assert(a / b == q);
    } else if a < 0 && b < 0 {
        assert((a * -1) / (b * -1) == q);
    } else if a < 0 {
        assert((a * -1) / b == q);
    } else {
        assert(a / (b * -1) == q);
    }
    if q >= 0x8000_0000_0000_0000 {
        vstd::arithmetic::div_mod::lemma_fundamental_div_mod(am, bm);
        vstd::arithmetic::div_mod::lemma_mod_bound(am, bm);
        assert(bm == 1) by (nonlinear_arith)
            requires
                am == bm * q + am % bm,
                am % bm >= 0,
                q >= 0x8000_0000_0000_0000,
                am <= 0x8000_0000_0000_0000,
                bm >= 1,
        ;
        assert(am % bm == 0);
        assert(q == am);
        assert(l == i64::MIN);
        assert(r == 1 || r == -1);
    }
    if l == i64::MIN && r == -1 {
        vstd::arithmetic::div_mod::lemma_fundamental_div_mod(am, bm);
        vstd::arithmetic::div_mod::lemma_mod_bound(am, bm);
        assert(q == am);
        assert(l.checked_div(r) is None);
    } else if (a >= 0) == (b >= 0) {
        assert(q <= i64::MAX as int);
        assert(l.checked_div(r) == Some(trunc_div(l, r)));
    } else {
        assert(-q >= i64::MIN as int);
        assert(l.checked_div(r) == Some(trunc_div(l, r)));
    }
}

/// Skipping whitespace stays within the input and lands on a non-whitespace
/// character or the end, having passed only whitespace.
pub proof fn lemma_skip_ws_bounds(s: Seq<char>, i: int)
    requires
        0 <= i <= s.len(),
    ensures
        i <= skip_ws(s, i) <= s.len(),
        skip_ws(s, i) < s.len() ==> !is_space(s[skip_ws(s, i)]),
        forall|m: int| i <= m < skip_ws(s, i) ==> is_space(s[m]),
    decreases s.len() - i,
{
    if i < s.len() && is_space(s[i]) {
        lemma_skip_ws_bounds(s, i + 1);
    }
}

/// The maximal digit run stays within the input, is non-empty exactly when
/// a digit stands at its start, and ends at the end of the input or just
/// before a non-digit.
pub proof fn lemma_digit_run_end_bounds(s: Seq<char>, i: int)
    requires
        0 <= i <= s.len(),
    ensures
        i <= digit_run_end(s, i) <= s.len(),
        i < s.len() && is_digit(s[i]) ==> i < digit_run_end(s, i),
        digit_run_end(s, i) < s.len() ==> !is_digit(s[digit_run_end(s, i)]),
        forall|m: int| i <= m < digit_run_end(s, i) ==> is_digit(s[m]),
    decreases s.len() - i,
{
    if i < s.len() && is_digit(s[i]) {
        lemma_digit_run_end_bounds(s, i + 1);
    }
}

/// A run of digits bounded by a non-digit (or the input's end) is exactly
/// the maximal digit run.
pub proof fn lemma_digit_run_end_of_run(s: Seq<char>, i: int, j: int)
    requires
        0 <= i <= j <= s.len(),
        forall|m: int| i <= m < j ==> is_digit(s[m]),
        j == s.len() || !is_digit(s[j]),
    ensures
        digit_run_end(s, i) == j,
    decreases j - i,
{
    if i < j {
        assert(is_digit(s[i]));
        lemma_digit_run_end_of_run(s, i + 1, j);
    }
}

/// Folding ranges that hold the same characters gives the same value.
pub proof fn lemma_fold_digits_equal(s1: Seq<char>, a: int, s2: Seq<char>, c: int, n: int, acc: i64)
    requires
        n >= 0,
        forall|m: int| 0 <= m < n ==> s1[a + m] == #[trigger] s2[c + m],
    ensures
        fold_digits(s1, a, a + n, acc) == fold_digits(s2, c, c + n, acc),
    decreases n,
{
    if n > 0 {
        assert(s1[a + 0] == s2[c + 0]);
        assert forall|m: int| 0 <= m < n - 1 implies s1[a + 1 + m] == #[trigger] s2[c + 1 + m] by {
            assert(s1[a + (m + 1)] == s2[c + (m + 1)]);
        }
        lemma_fold_digits_equal(s1, a + 1, s2, c + 1, n - 1, fold_digit(acc, s1[a]));
    }
}

/// Parsing is insensitive to where within a leading whitespace run it
/// starts: the whitespace skip may be taken in advance.
pub proof fn lemma_parse_expr_skip_ws(s: Seq<char>, i: int)
    requires
        0 <= i <= s.len(),
    ensures
        parse_expr(s, i) == parse_expr(s, skip_ws(s, i)),
    decreases s.len() - i,
{
    if i < s.len() && is_space(s[i]) {
        lemma_parse_expr_skip_ws(s, i + 1);
    }
}

/// A successful parse consumes at least one character and never passes the
/// end of the input.
pub proof fn lemma_parse_expr_advances(s: Seq<char>, i: int)
    requires
        0 <= i <= s.len(),
    ensures
        parse_expr(s, i) matches Ok(r) ==> i < r.1 <= s.len(),
    decreases s.len() - i, 1int,
{
    if i < s.len() && is_space(s[i]) {
        lemma_parse_expr_advances(s, i + 1);
    } else if i < s.len() && s[i] == '(' {
        lemma_parse_expr_advances(s, i + 1);
        if let Ok((v, k)) = parse_expr(s, i + 1) {
            lemma_skip_ws_bounds(s, k);
        }
    } else if i < s.len() && is_digit(s[i]) {
        lemma_digit_run_end_bounds(s, i);
    } else {
        lemma_parse_op_advances(s, i);
    }
}

/// The operator form of `lemma_parse_expr_advances`.
pub proof fn lemma_parse_op_advances(s: Seq<char>, i: int)
    requires
        0 <= i <= s.len(),
    ensures
        parse_op(s, i) matches Ok(r) ==> i < r.1 <= s.len(),
    decreases s.len() - i, 0int,
{
    if i < s.len() && op_of_char(s[i]) is Some {
        lemma_parse_expr_advances(s, i + 1);
        if let Ok((l, k)) = parse_expr(s, i + 1) {
            if i < k <= s.len() {
                lemma_parse_expr_advances(s, k);
            }
        }
    }
}

} // verus!
