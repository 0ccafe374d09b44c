//! The parser proved correct against the grammar itself.
//!
//! [`PrefixExpr`] is the structure of a well-formed prefix expression, and
//! [`spells`] says when the input, read from a position, is a spelling of
//! it: the same literals, operators and parentheses in order, with any
//! amount of whitespace before each token. [`lemma_parse_spells`] proves
//! that the parser maps every spelling of every well-formed expression to
//! exactly the expression's value under the standard operator semantics
//! ([`eval_expr`]). Two corollaries follow: grouping an expression in
//! parentheses never changes its value, and neither does rearranging
//! whitespace.

use vstd::prelude::*;

use crate::semantics::{
    apply_op, digits_value, is_digit, is_space, lemma_digit_run_end_of_run,
    lemma_fold_digits_equal, lemma_parse_expr_skip_ws, lemma_skip_ws_bounds, op_of_char,
    parse_expr, parse_op, run_value, skip_ws, spec_execute, Op, ParseError,
};

verus! {

/// The abstract structure of a prefix expression: a non-negative decimal
/// literal, a parenthesized group, or an operator applied to two operands.
pub enum PrefixExpr {
    Literal { digits: Seq<char> },
    Grouped { inner: Box<PrefixExpr> },
    Compound { op: Op, left: Box<PrefixExpr>, right: Box<PrefixExpr> },
}

/// A well-formed expression: every literal is a non-empty run of decimal
/// digits.
pub open spec fn wf_expr(e: PrefixExpr) -> bool
    decreases e,
{
    match e {
        PrefixExpr::Literal { digits } => digits.len() > 0 && (forall|m: int|
            0 <= m < digits.len() ==> is_digit(#[trigger] digits[m])),
        PrefixExpr::Grouped { inner } => wf_expr(*inner),
        PrefixExpr::Compound { left, right, .. } => wf_expr(*left) && wf_expr(*right),
    }
}

/// The value of an expression under the standard semantics: a literal is its
/// decimal value (folded with wrapping 64-bit arithmetic), grouping changes
/// nothing, and an operator combines the values of its operands, the left
/// one evaluated before the right, depth first; the first error anywhere
/// (division by zero is the only one evaluation can raise) is the result.
pub open spec fn eval_expr(e: PrefixExpr) -> Result<i64, ParseError>
    decreases e,
{
    match e {
        PrefixExpr::Literal { digits } => Ok(digits_value(digits)),
        PrefixExpr::Grouped { inner } => eval_expr(*inner),
        PrefixExpr::Compound { op, left, right } => match eval_expr(*left) {
            Err(e1) => Err(e1),
            Ok(l) => match eval_expr(*right) {
                Err(e2) => Err(e2),
                Ok(r) => apply_op(op, l, r),
            },
        },
    }
}

/// Where a spelling of `e` read from position `i` would end: just past its
/// last token. Meaningful only where `spells(s, i, e)` holds.
pub open spec fn spell_end(s: Seq<char>, i: int, e: PrefixExpr) -> int
    decreases e,
{
    let p = skip_ws(s, i);
    match e {
        PrefixExpr::Literal { digits } => p + digits.len(),
        PrefixExpr::Grouped { inner } => skip_ws(s, spell_end(s, p + 1, *inner)) + 1,
        PrefixExpr::Compound { left, right, .. } => spell_end(
            s,
            spell_end(s, p + 1, *left),
            *right,
        ),
    }
}

/// Whether the input, read from position `i`, spells the expression `e`:
/// each token of `e` in order, preceded by arbitrary whitespace. A literal's
/// digit run must end at a non-digit (or at the input's end), since the
/// parser always reads the maximal run. Characters after the spelling are
/// unconstrained.
pub open spec fn spells(s: Seq<char>, i: int, e: PrefixExpr) -> bool
    decreases e,
{
    let p = skip_ws(s, i);
    match e {
        PrefixExpr::Literal { digits } => {
            &&& p + digits.len() <= s.len()
            &&& (forall|m: int| 0 <= m < digits.len() ==> s[p + m] == #[trigger] digits[m])
            &&& (p + digits.len() == s.len() || !is_digit(s[p + digits.len()]))
        },
        PrefixExpr::Grouped { inner } => {
            &&& p < s.len()
            &&& s[p] == '('
            &&& spells(s, p + 1, *inner)
            &&& {
                let m = skip_ws(s, spell_end(s, p + 1, *inner));
                m < s.len() && s[m] == ')'
            }
        },
        PrefixExpr::Compound { op, left, right } => {
            &&& p < s.len()
            &&& op_of_char(s[p]) == Some(op)
            &&& spells(s, p + 1, *left)
            &&& spells(s, spell_end(s, p + 1, *left), *right)
        },
    }
}

/// The parser is correct: on any spelling of a well-formed expression `e`
/// read from position `i`, parsing at `i` returns exactly the value of `e`
/// under the standard semantics, ending exactly where the spelling ends —
/// or the error evaluation raises, division by zero being the only
/// possibility.
pub proof fn lemma_parse_spells(s: Seq<char>, i: int, e: PrefixExpr)
    requires
        0 <= i <= s.len(),
        wf_expr(e),
        spells(s, i, e),
    ensures
        parse_expr(s, i) == (match eval_expr(e) {
            Ok(v) => Ok::<(i64, int), ParseError>((v, spell_end(s, i, e))),
            Err(er) => Err::<(i64, int), ParseError>(er),
        }),
        i < spell_end(s, i, e) <= s.len(),
    decreases e,
{
    let p = skip_ws(s, i);
    lemma_skip_ws_bounds(s, i);
    lemma_parse_expr_skip_ws(s, i);
    match e {
        PrefixExpr::Literal { digits } => {
            let j = p + digits.len();
            assert(s[p + 0] == digits[0]);
            assert forall|m: int| p <= m < j implies is_digit(s[m]) by {
                assert(s[p + (m - p)] == digits[m - p]);
            }
            lemma_digit_run_end_of_run(s, p, j);
            lemma_fold_digits_equal(s, p, digits, 0, digits.len() as int, 0);
            assert(run_value(s, p) == digits_value(digits));
        },
        PrefixExpr::Grouped { inner } => {
            lemma_parse_spells(s, p + 1, *inner);
            let k = spell_end(s, p + 1, *inner);
            lemma_skip_ws_bounds(s, k);
        },
        PrefixExpr::Compound { op, left, right } => {
            lemma_parse_spells(s, p + 1, *left);
            let k = spell_end(s, p + 1, *left);
            lemma_parse_spells(s, k, *right);
            let m = spell_end(s, k, *right);
            assert(!is_space(s[p]) && s[p] != '(' && !is_digit(s[p]));
            assert(parse_expr(s, p) == parse_op(s, p));
            match eval_expr(*left) {
                Err(e1) => {
                    assert(parse_expr(s, p + 1) == Err::<(i64, int), ParseError>(e1));
                    assert(parse_op(s, p) == Err::<(i64, int), ParseError>(e1));
                },
                Ok(l) => {
                    assert(parse_expr(s, p + 1) == Ok::<(i64, int), ParseError>((l, k)));
                    assert(p < k <= s.len());
                    match eval_expr(*right) {
                        Err(e2) => {
                            assert(parse_expr(s, k) == Err::<(i64, int), ParseError>(e2));
                            assert(parse_op(s, p) == Err::<(i64, int), ParseError>(e2));
                        },
                        Ok(rv) => {
                            assert(parse_expr(s, k) == Ok::<(i64, int), ParseError>((rv, m)));
                            assert(parse_op(s, p) == (match apply_op(op, l, rv) {
                                Ok(v) => Ok::<(i64, int), ParseError>((v, m)),
                                Err(er) => Err::<(i64, int), ParseError>(er),
                            }));
                        },
                    }
                },
            }
        },
    }
}

/// Law: the program's value is the expression's value. When the input spells
/// a well-formed prefix expression, the collapsed result that the public
/// entry point returns is the expression's value under the standard
/// semantics, or 0 when its evaluation divides by zero.
pub proof fn lemma_execute_spelled(s: Seq<char>, e: PrefixExpr)
    requires
        wf_expr(e),
        spells(s, 0, e),
    ensures
        spec_execute(s) == (match eval_expr(e) {
            Ok(v) => v,
            Err(_) => 0,
        }),
{
    lemma_parse_spells(s, 0, e);
}

/// Law: parentheses are pure grouping. A spelling of an expression wrapped
/// in parentheses and a spelling of the bare expression yield the same
/// result.
pub proof fn lemma_grouping_preserves_value(
    s1: Seq<char>,
    s2: Seq<char>,
    inner: Box<PrefixExpr>,
)
    requires
        wf_expr(*inner),
        spells(s1, 0, PrefixExpr::Grouped { inner }),
        spells(s2, 0, *inner),
    ensures
        spec_execute(s1) == spec_execute(s2),
{
    lemma_execute_spelled(s1, PrefixExpr::Grouped { inner });
    lemma_execute_spelled(s2, *inner);
}

/// Law: whitespace between tokens does not matter. Any two spellings of the
/// same well-formed expression — which may differ in the whitespace before
/// each token and in what follows the expression — yield the same result.
pub proof fn lemma_whitespace_insensitive(s1: Seq<char>, s2: Seq<char>, e: PrefixExpr)
    requires
        wf_expr(e),
        spells(s1, 0, e),
        spells(s2, 0, e),
    ensures
        spec_execute(s1) == spec_execute(s2),
{
    lemma_execute_spelled(s1, e);
    lemma_execute_spelled(s2, e);
}

/// Law: the parse is a pure function of the program text. `Parser::execute`
/// ensures its result equals `spec_execute` of the text, so any two calls on
/// the same text — from any thread, in any order — return the same value.
pub proof fn lemma_execute_deterministic(s: Seq<char>, r1: i64, r2: i64)
    requires
        r1 == spec_execute(s),
        r2 == spec_execute(s),
    ensures
        r1 == r2,
{
}

} // verus!
