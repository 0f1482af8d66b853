use vstd::prelude::*;

verus! {

/// Unicode `White_Space` code points: the characters dropped before parsing.
pub open spec fn is_space(c: char) -> bool {
    ('\u{9}' <= c && c <= '\u{d}') || c == ' ' || c == '\u{85}' || c == '\u{a0}' || c
        == '\u{1680}' || ('\u{2000}' <= c && c <= '\u{200a}') || c == '\u{2028}' || c
        == '\u{2029}' || c == '\u{202f}' || c == '\u{205f}' || c == '\u{3000}'
}

pub open spec fn is_digit(c: char) -> bool {
    '0' <= c && c <= '9'
}

/// A character that may stand in a number literal.
pub open spec fn is_number_char(c: char) -> bool {
    is_digit(c) || c == '.'
}

pub open spec fn is_operator(c: char) -> bool {
    c == '+' || c == '-' || c == '*' || c == '/' || c == '%' || c == '^'
}

/// The characters an expression may hold once whitespace is gone.
pub open spec fn is_allowed(c: char) -> bool {
    is_number_char(c) || is_operator(c) || c == '(' || c == ')'
}

pub open spec fn all_allowed(s: Seq<char>) -> bool {
    forall|i: int| 0 <= i < s.len() ==> is_allowed(#[trigger] s[i])
}

/// `s` with every whitespace character removed, the others kept in order.
pub open spec fn strip_spaces(s: Seq<char>) -> Seq<char>
    decreases s.len(),
{
    if s.len() == 0 {
        s
    } else if is_space(s.last()) {
        strip_spaces(s.drop_last())
    } else {
        strip_spaces(s.drop_last()).push(s.last())
    }
}

pub fn is_space_char(c: char) -> (r: bool)
    ensures
        r == is_space(c),
{
    ('\u{9}' <= c && c <= '\u{d}') || c == ' ' || c == '\u{85}' || c == '\u{a0}' || c
        == '\u{1680}' || ('\u{2000}' <= c && c <= '\u{200a}') || c == '\u{2028}' || c
        == '\u{2029}' || c == '\u{202f}' || c == '\u{205f}' || c == '\u{3000}'
}

pub fn is_digit_char(c: char) -> (r: bool)
    ensures
        r == is_digit(c),
{
    '0' <= c && c <= '9'
}

pub fn is_number_character(c: char) -> (r: bool)
    ensures
        r == is_number_char(c),
{
    is_digit_char(c) || c == '.'
}

pub fn is_allowed_char(c: char) -> (r: bool)
    ensures
        r == is_allowed(c),
{
    is_number_character(c) || c == '+' || c == '-' || c == '*' || c == '/' || c == '%' || c
        == '^' || c == '(' || c == ')'
}

/// The characters of `expression` without its whitespace.
pub fn tokenize(expression: &str) -> (r: Vec<char>)
    ensures
        r@ == strip_spaces(expression@),
{
    let n = expression.unicode_len();
    let mut out: Vec<char> = Vec::new();
    let mut i: usize = 0;
    while i < n
        invariant
            n == expression@.len(),
            i <= n,
            out@ == strip_spaces(expression@.subrange(0, i as int)),
        decreases n - i,
    {
        let c = expression.get_char(i);
        proof {
            let pre = expression@.subrange(0, i + 1);
            assert(pre.drop_last() == expression@.subrange(0, i as int));
            assert(pre.last() == c);
        }
        if !is_space_char(c) {
            out.push(c);
        }
        i = i + 1;
    }
    proof {
        assert(expression@.subrange(0, n as int) == expression@);
    }
    out
}

/// Whether every character of `s` is allowed.
pub fn check_allowed(s: &Vec<char>) -> (r: bool)
    ensures
        r == all_allowed(s@),
{
    let mut i: usize = 0;
    while i < s.len()
        invariant
            i <= s@.len(),
            forall|j: int| 0 <= j < i ==> is_allowed(#[trigger] s@[j]),
        decreases s@.len() - i,
    {
        if !is_allowed_char(s[i]) {
            return false;
        }
        i = i + 1;
    }
    true
}

} // verus!
