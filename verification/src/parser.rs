//! The executable recursive-descent parser. It walks the characters of the
//! input behind a forward-only cursor with one character of lookahead, and
//! evaluates each grammar rule as it is parsed; no syntax tree is built.
//! Every method is proved to return exactly what the specification functions
//! of [`crate::semantics`] describe.

use vstd::prelude::*;
use vstd::string::StrSliceExecFns;

use crate::semantics::{
    digit_run_end, fold_digits, is_digit, is_space, lemma_digit_run_end_bounds,
    lemma_parse_expr_skip_ws, lemma_skip_ws_bounds, lemma_trunc_div_checked, op_of_char,
    parse_expr, parse_op, run_value, skip_ws, spec_execute, Op, ParseError,
};

verus! {

/// The public face of the parser. It holds no state: each call to
/// [`Parser::execute`] works on its own cursor and discards it on return.
#[derive(Clone, Copy)]
pub struct Parser;

pub type ParserResult<T> = Result<T, ParseError>;

/// The cursor of one parse: the input characters and the position of the
/// next character to read. `len` caches the number of characters of `text`.
struct ParserImpl<'a> {
    text: &'a str,
    pos: usize,
    len: usize,
}

impl Parser {
    /// Parses and evaluates the first prefix expression of `program` and
    /// returns its value; any malformed input yields 0, indistinguishable
    /// from an expression whose value is 0. Characters after the first
    /// complete expression are ignored.
    pub fn execute(&self, program: &String) -> (result: i64)
        ensures
            result == spec_execute(program@),
    {
        let text = program.as_str();
        let len = text.unicode_len();
        let mut p = ParserImpl { text, pos: 0, len };
        match p.expression() {
            Ok(x) => x,
            Err(_) => 0,
        }
    }
}

impl<'a> ParserImpl<'a> {
    /// The cursor's invariant: the cached length is the character count of
    /// the input and the position never passes the end.
    spec fn wf(self) -> bool {
        self.len == self.text@.len() && self.pos <= self.len
    }

    /// One expression, dispatched on one character of lookahead after
    /// skipping whitespace: `(` opens a grouped expression, a digit starts
    /// a literal, anything else is taken as an operator form.
    fn expression(&mut self) -> (r: ParserResult<i64>)
        requires
            old(self).wf(),
        ensures
            final(self).wf(),
            final(self).text == old(self).text,
            old(self).pos <= final(self).pos,
            (match r {
                Ok(v) => parse_expr(old(self).text@, old(self).pos as int) == Ok::<
                    (i64, int),
                    ParseError,
                >((v, final(self).pos as int)) && old(self).pos < final(self).pos,
                Err(e) => parse_expr(old(self).text@, old(self).pos as int) == Err::<
                    (i64, int),
                    ParseError,
                >(e),
            }),
        decreases old(self).len - old(self).pos, 1int,
    {
        let ghost s = self.text@;
        let ghost start = self.pos as int;
        proof {
            lemma_parse_expr_skip_ws(s, start);
            lemma_skip_ws_bounds(s, start);
        }
        self.skip_whitespace();
        let ghost j = self.pos as int;
        let c = self.peek();
        if c == '(' {
            self.pos = self.pos + 1;
            proof {
                lemma_parse_expr_skip_ws(s, j + 1);
                lemma_skip_ws_bounds(s, j + 1);
            }
            self.skip_whitespace();
            match self.expression() {
                Ok(v) => {
                    let ghost k = self.pos as int;
                    self.skip_whitespace();
                    match self.expect_char(')') {
                        Ok(_) => Ok(v),
                        Err(e) => Err(e),
                    }
                },
                Err(e) => Err(e),
            }
        } else if is_digit_char(c) {
            proof {
                lemma_digit_run_end_bounds(s, j);
            }
            self.number()
        } else {
            self.inner_expression()
        }
    }

    /// The operator form: one character is consumed as the operator, the two
    /// operand expressions are parsed left before right, and their values
    /// are combined. Addition, subtraction and multiplication wrap on
    /// overflow; division truncates toward zero, wraps its one out-of-range
    /// quotient, and fails on a zero right operand.
    fn inner_expression(&mut self) -> (r: ParserResult<i64>)
        requires
            old(self).wf(),
        ensures
            final(self).wf(),
            final(self).text == old(self).text,
            old(self).pos <= final(self).pos,
            (match r {
                Ok(v) => parse_op(old(self).text@, old(self).pos as int) == Ok::<
                    (i64, int),
                    ParseError,
                >((v, final(self).pos as int)) && old(self).pos < final(self).pos,
                Err(e) => parse_op(old(self).text@, old(self).pos as int) == Err::<
                    (i64, int),
                    ParseError,
                >(e),
            }),
        decreases old(self).len - old(self).pos, 0int,
    {
        let op = match self.operation() {
            Ok(op) => op,
            Err(e) => return Err(e),
        };
        let left = match self.expression() {
            Ok(v) => v,
            Err(e) => return Err(e),
        };
        let right = match self.expression() {
            Ok(v) => v,
            Err(e) => return Err(e),
        };
        match op {
            Op::Add => Ok(left.wrapping_add(right)),
            Op::Sub => Ok(left.wrapping_sub(right)),
            Op::Mul => Ok(left.wrapping_mul(right)),
            Op::Div => {
                if right == 0 {
                    Err(ParseError::DivisionByZero)
                } else {
                    proof {
                        lemma_trunc_div_checked(left, right);
                    }
                    match left.checked_div(right) {
                        Some(v) => Ok(v),
                        None => Ok(i64::MIN),
                    }
                }
            },
        }
    }

    /// A non-negative integer literal: the maximal run of digits at the
    /// cursor, folded left to right as `value * 10 + digit` with wrapping
    /// 64-bit arithmetic. Never fails; at a non-digit it returns 0 without
    /// moving, as the specification's empty fold does.
    fn number(&mut self) -> (r: ParserResult<i64>)
        requires
            old(self).wf(),
        ensures
            final(self).wf(),
            final(self).text == old(self).text,
            old(self).pos <= final(self).pos,
            final(self).pos as int == digit_run_end(old(self).text@, old(self).pos as int),
            r == Ok::<i64, ParseError>(run_value(old(self).text@, old(self).pos as int)),
    {
        let ghost s = self.text@;
        let ghost start = self.pos as int;
        let ghost end = digit_run_end(s, start);
        proof {
            lemma_digit_run_end_bounds(s, start);
        }
        let mut result: i64 = 0;
        while is_digit_char(self.peek())
            invariant
                self.wf(),
                self.text == old(self).text,
                self.text@ == s,
                start <= self.pos as int <= end <= s.len(),
                digit_run_end(s, self.pos as int) == end,
                fold_digits(s, self.pos as int, end, result) == fold_digits(s, start, end, 0),
            decreases self.len - self.pos,
        {
            let c = self.peek();
            proof {
                lemma_digit_run_end_bounds(s, self.pos as int);
            }
            let d = (c as u32) - 48;
            result = result.wrapping_mul(10).wrapping_add(d as i64);
            self.pos = self.pos + 1;
        }
        Ok(result)
    }

    /// One character consumed and matched against the four operators;
    /// any other character is an `InvalidOperator`.
    fn operation(&mut self) -> (r: ParserResult<Op>)
        requires
            old(self).wf(),
        ensures
            final(self).wf(),
            final(self).text == old(self).text,
            old(self).pos >= old(self).len ==> r == Err::<Op, ParseError>(
                ParseError::UnexpectedEof,
            ) && final(self).pos == old(self).pos,
            old(self).pos < old(self).len ==> final(self).pos == old(self).pos + 1 && r == (
            match op_of_char(old(self).text@[old(self).pos as int]) {
                Some(op) => Ok::<Op, ParseError>(op),
                None => Err::<Op, ParseError>(ParseError::InvalidOperator),
            }),
    {
        let c = match self.get_char() {
            Ok(c) => c,
            Err(e) => return Err(e),
        };
        match c {
            '+' => Ok(Op::Add),
            '-' => Ok(Op::Sub),
            '*' => Ok(Op::Mul),
            '/' => Ok(Op::Div),
            _ => Err(ParseError::InvalidOperator),
        }
    }

    /// One character consumed and required to equal `c`; a different
    /// character is an `InvalidCharacter`, a missing one an `UnexpectedEof`.
    fn expect_char(&mut self, c: char) -> (r: ParserResult<char>)
        requires
            old(self).wf(),
        ensures
            final(self).wf(),
            final(self).text == old(self).text,
            old(self).pos >= old(self).len ==> r == Err::<char, ParseError>(
                ParseError::UnexpectedEof,
            ) && final(self).pos == old(self).pos,
            old(self).pos < old(self).len ==> final(self).pos == old(self).pos + 1 && r == (
            if old(self).text@[old(self).pos as int] == c {
                Ok::<char, ParseError>(c)
            } else {
                Err::<char, ParseError>(ParseError::InvalidCharacter)
            }),
    {
        let x = match self.get_char() {
            Ok(x) => x,
            Err(e) => return Err(e),
        };
        if x == c {
            Ok(c)
        } else {
            Err(ParseError::InvalidCharacter)
        }
    }

    /// The next character, consumed; `UnexpectedEof` at the end of the input.
    fn get_char(&mut self) -> (r: ParserResult<char>)
        requires
            old(self).wf(),
        ensures
            final(self).wf(),
            final(self).text == old(self).text,
            old(self).pos < old(self).len ==> r == Ok::<char, ParseError>(
                old(self).text@[old(self).pos as int],
            ) && final(self).pos == old(self).pos + 1,
            old(self).pos >= old(self).len ==> r == Err::<char, ParseError>(
                ParseError::UnexpectedEof,
            ) && final(self).pos == old(self).pos,
    {
        if self.pos < self.len {
            let c = self.text.get_char(self.pos);
            self.pos = self.pos + 1;
            Ok(c)
        } else {
            Err(ParseError::UnexpectedEof)
        }
    }

    /// The next character without consuming it; the NUL character stands in
    /// at the end of the input, where it safely fails every dispatch test.
    fn peek(&self) -> (c: char)
        requires
            self.wf(),
        ensures
            c == (if (self.pos as int) < self.text@.len() {
                self.text@[self.pos as int]
            } else {
                '\u{0000}'
            }),
    {
        if self.pos < self.len {
            self.text.get_char(self.pos)
        } else {
            '\u{0000}'
        }
    }

    /// Advances the cursor past every whitespace character before the next
    /// token.
    fn skip_whitespace(&mut self)
        requires
            old(self).wf(),
        ensures
            final(self).wf(),
            final(self).text == old(self).text,
            old(self).pos <= final(self).pos,
            final(self).pos as int == skip_ws(old(self).text@, old(self).pos as int),
    {
        let ghost start = self.pos as int;
        while is_space_char(self.peek())
            invariant
                self.wf(),
                self.text == old(self).text,
                start <= self.pos as int,
                skip_ws(self.text@, start) == skip_ws(self.text@, self.pos as int),
            decreases self.len - self.pos,
        {
            self.pos = self.pos + 1;
        }
    }
}

/// Whether `c` is whitespace: the Unicode `White_Space` set, matching
/// `is_space` of the specification.
fn is_space_char(c: char) -> (r: bool)
    ensures
        r == is_space(c),
{
    ('\u{0009}' <= c && c <= '\u{000D}') || c == ' ' || c == '\u{0085}' || c == '\u{00A0}' || c
        == '\u{1680}' || ('\u{2000}' <= c && c <= '\u{200A}') || c == '\u{2028}' || c == '\u{2029}'
        || c == '\u{202F}' || c == '\u{205F}' || c == '\u{3000}'
}

/// Whether `c` is an ASCII decimal digit, matching `is_digit` of the
/// specification.
fn is_digit_char(c: char) -> (r: bool)
    ensures
        r == is_digit(c),
{
    '0' <= c && c <= '9'
}

} // verus!
