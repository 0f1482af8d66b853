//! The recursive-descent parser. Each level takes the position where it starts
//! and hands back the tree it read with the position just past it. Nesting depth
//! is bounded only by the call stack.
use vstd::prelude::*;
use crate::syntax::{ErrorKind, Expr, ExprView};
use crate::text::{is_digit, is_number_char, check_allowed, is_number_character, tokenize};
use crate::grammar::{
    literal_end, valid_literal, base_at, factor_at, term_rest, term_at, expr_rest, expr_at,
    parse_chars, parse_text,
};

verus! {

/// The shape of a step's result: the tree's view and the position as an integer.
pub open spec fn view_step(r: Result<(Expr, usize), ErrorKind>) -> Result<(ExprView, int), ErrorKind> {
    match r {
        Ok((e, q)) => Ok((e@, q as int)),
        Err(k) => Err(k),
    }
}

/// A successful step ends past `p` and within the `n` characters.
pub open spec fn advances(r: Result<(Expr, usize), ErrorKind>, p: int, n: int) -> bool {
    r matches Ok((_, q)) ==> p < q <= n
}

pub open spec fn view_result(r: Result<Expr, ErrorKind>) -> Result<ExprView, ErrorKind> {
    match r {
        Ok(e) => Ok(e@),
        Err(k) => Err(k),
    }
}

/// The run of number characters that starts at `p`, and the position past it.
fn scan_literal(s: &Vec<char>, p: usize) -> (r: (Vec<char>, usize))
    requires
        p <= s@.len(),
    ensures
        r.1 == literal_end(s@, p as int),
        p <= r.1 <= s@.len(),
        r.0@ == s@.subrange(p as int, r.1 as int),
{
    let mut out: Vec<char> = Vec::new();
    let mut q: usize = p;
    while q < s.len() && is_number_character(s[q])
        invariant
            p <= q <= s@.len(),
            literal_end(s@, q as int) == literal_end(s@, p as int),
            out@ == s@.subrange(p as int, q as int),
        decreases s@.len() - q,
    {
        out.push(s[q]);
        q = q + 1;
        proof {
            assert(out@ == s@.subrange(p as int, q as int));
        }
    }
    (out, q)
}

/// Whether `t` is a number literal: digits and dots, some digit, at most one dot.
pub fn check_literal(t: &Vec<char>) -> (r: bool)
    ensures
        r == valid_literal(t@),
{
    let mut saw_digit = false;
    let mut saw_dot = false;
    let mut i: usize = 0;
    while i < t.len()
        invariant
            i <= t@.len(),
            forall|j: int| 0 <= j < i ==> is_number_char(#[trigger] t@[j]),
            saw_digit == exists|j: int| 0 <= j < i && is_digit(#[trigger] t@[j]),
            saw_dot == exists|j: int| 0 <= j < i && #[trigger] t@[j] == '.',
            forall|j: int, k: int| 0 <= j < k < i && #[trigger] t@[j] == '.' ==> #[trigger] t@[k]
                != '.',
        decreases t@.len() - i,
    {
        let c = t[i];
        if !is_number_character(c) {
            return false;
        }
        if c == '.' {
            if saw_dot {
                proof {
                    let j = choose|j: int| 0 <= j < i && #[trigger] t@[j] == '.';
                    assert(t@[j] == '.' && t@[i as int] == '.');
                }
                return false;
            }
            saw_dot = true;
        } else {
            proof {
                assert(is_digit(t@[i as int]));
            }
            saw_digit = true;
        }
        i = i + 1;
    }
    saw_digit
}

fn parse_base(s: &Vec<char>, p: usize) -> (r: Result<(Expr, usize), ErrorKind>)
    requires
        p <= s@.len(),
    ensures
        view_step(r) == base_at(s@, p as int),
        advances(r, p as int, s@.len() as int),
    decreases s@.len() - p, 1int,
{
    if p >= s.len() {
        return Err(ErrorKind::SyntaxError);
    }
    if s[p] == '(' {
        match parse_expression(s, p + 1) {
            Err(k) => Err(k),
            Ok((e, q)) => {
                if q < s.len() && s[q] == ')' {
                    Ok((e, q + 1))
                } else {
                    Err(ErrorKind::UnbalancedParens)
                }
            },
        }
    } else {
        let (t, q) = scan_literal(s, p);
        if check_literal(&t) {
            proof {
                let j = choose|j: int| 0 <= j < t@.len() && is_digit(#[trigger] t@[j]);
                assert(t@.len() > 0);
            }
            Ok((Expr::Num(t), q))
        } else {
            Err(ErrorKind::SyntaxError)
        }
    }
}

fn parse_factor(s: &Vec<char>, p: usize) -> (r: Result<(Expr, usize), ErrorKind>)
    requires
        p <= s@.len(),
    ensures
        view_step(r) == factor_at(s@, p as int),
        advances(r, p as int, s@.len() as int),
    decreases s@.len() - p, 2int,
{
    match parse_base(s, p) {
        Err(k) => Err(k),
        Ok((b, q)) => {
            if q < s.len() && s[q] == '^' {
                match parse_factor(s, q + 1) {
                    Err(k) => Err(k),
                    Ok((x, r)) => Ok((Expr::Pow(Box::new(b), Box::new(x)), r)),
                }
            } else {
                Ok((b, q))
            }
        },
    }
}

fn parse_term(s: &Vec<char>, p: usize) -> (r: Result<(Expr, usize), ErrorKind>)
    requires
        p <= s@.len(),
    ensures
        view_step(r) == term_at(s@, p as int),
        advances(r, p as int, s@.len() as int),
    decreases s@.len() - p, 3int,
{
    let (mut acc, mut q) = match parse_factor(s, p) {
        Err(k) => return Err(k),
        Ok(x) => x,
    };
    while q < s.len() && (s[q] == '*' || s[q] == '/' || s[q] == '%')
        invariant
            p < q <= s@.len(),
            term_rest(s@, q as int, acc@) == term_at(s@, p as int),
        decreases s@.len() - q,
    {
        let op = s[q];
        match parse_factor(s, q + 1) {
            Err(k) => {
                return Err(k);
            },
            Ok((f, r)) => {
                acc = if op == '*' {
                    Expr::Mul(Box::new(acc), Box::new(f))
                } else if op == '/' {
                    Expr::Div(Box::new(acc), Box::new(f))
                } else {
                    Expr::Rem(Box::new(acc), Box::new(f))
                };
                q = r;
            },
        }
    }
    Ok((acc, q))
}

fn parse_expression(s: &Vec<char>, p: usize) -> (r: Result<(Expr, usize), ErrorKind>)
    requires
        p <= s@.len(),
    ensures
        view_step(r) == expr_at(s@, p as int),
        advances(r, p as int, s@.len() as int),
    decreases s@.len() - p, 4int,
{
    let (mut acc, mut q) = match parse_term(s, p) {
        Err(k) => return Err(k),
        Ok(x) => x,
    };
    while q < s.len() && (s[q] == '+' || s[q] == '-')
        invariant
            p < q <= s@.len(),
            expr_rest(s@, q as int, acc@) == expr_at(s@, p as int),
        decreases s@.len() - q,
    {
        let op = s[q];
        match parse_term(s, q + 1) {
            Err(k) => {
                return Err(k);
            },
            Ok((t, r)) => {
                acc = if op == '+' {
                    Expr::Add(Box::new(acc), Box::new(t))
                } else {
                    Expr::Sub(Box::new(acc), Box::new(t))
                };
                q = r;
            },
        }
    }
    Ok((acc, q))
}

/// Parses a whitespace-free character sequence as one expression that uses
/// every character.
pub fn parse_tokens(s: &Vec<char>) -> (r: Result<Expr, ErrorKind>)
    ensures
        view_result(r) == parse_chars(s@),
{
    if !check_allowed(s) {
        return Err(ErrorKind::UnexpectedCharacter);
    }
    match parse_expression(s, 0) {
        Err(k) => Err(k),
        Ok((e, q)) => {
            if q == s.len() {
                Ok(e)
            } else if s[q] == ')' {
                Err(ErrorKind::UnbalancedParens)
            } else {
                Err(ErrorKind::SyntaxError)
            }
        },
    }
}

/// Parses `expression` after removing its whitespace.
pub fn parse(expression: &str) -> (r: Result<Expr, ErrorKind>)
    ensures
        view_result(r) == parse_text(expression@),
{
    let s = tokenize(expression);
    parse_tokens(&s)
}

} // verus!
