//! The grammar, as functions from a stripped character sequence and a start
//! position to a tree and the position just past it:
//!   expression = term { ('+' | '-') term }
//!   term       = factor { ('*' | '/' | '%') factor }
//!   factor     = base [ '^' factor ]
//!   base       = '(' expression ')' | literal
//! A literal is a maximal run of digits and dots with at least one digit and at
//! most one dot. Each function returns the first error met, left to right.
//! A successful step always ends past its start and within the sequence (the
//! parser proves it); the tests `p < q <= s.len()` before each recursive call
//! only spell that out, so that the recursion is visibly well-founded.
use vstd::prelude::*;
use crate::syntax::{ErrorKind, ExprView};
use crate::text::{is_digit, is_number_char, all_allowed, strip_spaces};

verus! {

/// One past the last index of the run of number characters that starts at `p`.
pub open spec fn literal_end(s: Seq<char>, p: int) -> int
    decreases s.len() - p,
{
    if 0 <= p < s.len() && is_number_char(s[p]) {
        literal_end(s, p + 1)
    } else {
        p
    }
}

/// A number literal: digits and dots only, some digit, no two dots.
pub open spec fn valid_literal(t: Seq<char>) -> bool {
    &&& forall|i: int| 0 <= i < t.len() ==> is_number_char(#[trigger] t[i])
    &&& exists|i: int| 0 <= i < t.len() && is_digit(#[trigger] t[i])
    &&& forall|i: int, j: int| 0 <= i < j < t.len() && #[trigger] t[i] == '.' ==> #[trigger] t[j]
        != '.'
}

/// Whether the character at `p` exists and is `c`.
pub open spec fn at(s: Seq<char>, p: int, c: char) -> bool {
    0 <= p < s.len() && s[p] == c
}

/// A base: a parenthesized expression or a literal.
pub open spec fn base_at(s: Seq<char>, p: int) -> Result<(ExprView, int), ErrorKind>
    decreases s.len() - p, 1int,
{
    if p < 0 || p >= s.len() {
        Err(ErrorKind::SyntaxError)
    } else if s[p] == '(' {
        match expr_at(s, p + 1) {
            Err(k) => Err(k),
            Ok((e, q)) => if at(s, q, ')') {
                Ok((e, q + 1))
            } else {
                Err(ErrorKind::UnbalancedParens)
            },
        }
    } else {
        let q = literal_end(s, p);
        if valid_literal(s.subrange(p, q)) {
            Ok((ExprView::Num(s.subrange(p, q)), q))
        } else {
            Err(ErrorKind::SyntaxError)
        }
    }
}

/// A factor: a base, raised to a factor where `^` follows (right-associative).
pub open spec fn factor_at(s: Seq<char>, p: int) -> Result<(ExprView, int), ErrorKind>
    decreases s.len() - p, 2int,
{
    match base_at(s, p) {
        Err(k) => Err(k),
        Ok((b, q)) => if at(s, q, '^') && q >= p {
            match factor_at(s, q + 1) {
                Err(k) => Err(k),
                Ok((x, r)) => Ok((ExprView::Pow(Box::new(b), Box::new(x)), r)),
            }
        } else {
            Ok((b, q))
        },
    }
}

/// The rest of a term after `acc`, which ends at `p`.
pub open spec fn term_rest(s: Seq<char>, p: int, acc: ExprView) -> Result<(ExprView, int), ErrorKind>
    decreases s.len() - p, 0int,
{
    if at(s, p, '*') || at(s, p, '/') || at(s, p, '%') {
        match factor_at(s, p + 1) {
            Err(k) => Err(k),
            Ok((f, q)) => {
                let next = if s[p] == '*' {
                    ExprView::Mul(Box::new(acc), Box::new(f))
                } else if s[p] == '/' {
                    ExprView::Div(Box::new(acc), Box::new(f))
                } else {
                    ExprView::Rem(Box::new(acc), Box::new(f))
                };
                if p < q <= s.len() {
                    term_rest(s, q, next)
                } else {
                    Ok((next, q))
                }
            },
        }
    } else {
        Ok((acc, p))
    }
}

/// A term: factors joined by `*`, `/` and `%`, grouped to the left.
pub open spec fn term_at(s: Seq<char>, p: int) -> Result<(ExprView, int), ErrorKind>
    decreases s.len() - p, 3int,
{
    match factor_at(s, p) {
        Err(k) => Err(k),
        Ok((f, q)) => if p < q <= s.len() {
            term_rest(s, q, f)
        } else {
            Ok((f, q))
        },
    }
}

/// The rest of an expression after `acc`, which ends at `p`.
pub open spec fn expr_rest(s: Seq<char>, p: int, acc: ExprView) -> Result<(ExprView, int), ErrorKind>
    decreases s.len() - p, 0int,
{
    if at(s, p, '+') || at(s, p, '-') {
        match term_at(s, p + 1) {
            Err(k) => Err(k),
            Ok((t, q)) => {
                let next = if s[p] == '+' {
                    ExprView::Add(Box::new(acc), Box::new(t))
                } else {
                    ExprView::Sub(Box::new(acc), Box::new(t))
                };
                if p < q <= s.len() {
                    expr_rest(s, q, next)
                } else {
                    Ok((next, q))
                }
            },
        }
    } else {
        Ok((acc, p))
    }
}

/// An expression: terms joined by `+` and `-`, grouped to the left.
pub open spec fn expr_at(s: Seq<char>, p: int) -> Result<(ExprView, int), ErrorKind>
    decreases s.len() - p, 4int,
{
    match term_at(s, p) {
        Err(k) => Err(k),
        Ok((t, q)) => if p < q <= s.len() {
            expr_rest(s, q, t)
        } else {
            Ok((t, q))
        },
    }
}

/// What a whole stripped sequence parses to: an expression that uses it all.
pub open spec fn parse_chars(s: Seq<char>) -> Result<ExprView, ErrorKind> {
    if !all_allowed(s) {
        Err(ErrorKind::UnexpectedCharacter)
    } else {
        match expr_at(s, 0) {
            Err(k) => Err(k),
            Ok((e, q)) => if q == s.len() {
                Ok(e)
            } else if at(s, q, ')') {
                Err(ErrorKind::UnbalancedParens)
            } else {
                Err(ErrorKind::SyntaxError)
            },
        }
    }
}

/// What a text parses to once its whitespace is removed.
pub open spec fn parse_text(text: Seq<char>) -> Result<ExprView, ErrorKind> {
    parse_chars(strip_spaces(text))
}

} // verus!
