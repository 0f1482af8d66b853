use rust_calculator::parser::{check_literal, parse, parse_tokens};
use rust_calculator::syntax::{ErrorKind, Expr};
use rust_calculator::text::{check_allowed, is_space_char, tokenize};

fn num(s: &str) -> Expr {
    Expr::Num(s.chars().collect())
}

fn bin(f: fn(Box<Expr>, Box<Expr>) -> Expr, a: Expr, b: Expr) -> Expr {
    f(Box::new(a), Box::new(b))
}

/// Double-precision value of a tree, with zero divisors and moduli as `None`.
fn value(e: &Expr) -> Option<f64> {
    Some(match e {
        Expr::Num(d) => d.iter().collect::<String>().parse::<f64>().ok()?,
        Expr::Add(a, b) => value(a)? + value(b)?,
        Expr::Sub(a, b) => value(a)? - value(b)?,
        Expr::Mul(a, b) => value(a)? * value(b)?,
        Expr::Div(a, b) => {
            let (x, y) = (value(a)?, value(b)?);
            if y == 0.0 {
                return None;
            }
            x / y
        }
        Expr::Rem(a, b) => {
            let (x, y) = (value(a)?, value(b)?);
            if y == 0.0 {
                return None;
            }
            x % y
        }
        Expr::Pow(a, b) => value(a)?.powf(value(b)?),
    })
}

fn rounded(text: &str) -> Option<f64> {
    let v = value(&parse(text).ok()?)?;
    Some((v * 100000.0).round() / 100000.0)
}

#[test]
fn empty_and_blank_text_is_rejected() {
    assert_eq!(parse(""), Err(ErrorKind::SyntaxError));
    assert_eq!(parse("   "), Err(ErrorKind::SyntaxError));
}

#[test]
fn zero_divisor_and_modulus_have_no_value() {
    assert_eq!(parse("1/0"), Ok(bin(Expr::Div, num("1"), num("0"))));
    assert_eq!(parse("5%0"), Ok(bin(Expr::Rem, num("5"), num("0"))));
    assert_eq!(rounded("1/0"), None);
    assert_eq!(rounded("5%0"), None);
    assert_eq!(rounded("1/(2-2)"), None);
}

#[test]
fn exponent_groups_to_the_right() {
    let expected = bin(Expr::Pow, num("2"), bin(Expr::Pow, num("3"), num("2")));
    assert_eq!(parse("2^3^2"), Ok(expected));
    assert_eq!(rounded("2^3^2"), Some(512.0));
}

#[test]
fn products_bind_tighter_than_sums() {
    assert_eq!(parse("2+3*4"), Ok(bin(Expr::Add, num("2"), bin(Expr::Mul, num("3"), num("4")))));
    assert_eq!(parse("(2+3)*4"), Ok(bin(Expr::Mul, bin(Expr::Add, num("2"), num("3")), num("4"))));
    assert_eq!(rounded("2+3*4"), Some(14.0));
    assert_eq!(rounded("(2+3)*4"), Some(20.0));
}

#[test]
fn missing_operand_and_unbalanced_parens_are_rejected() {
    assert_eq!(parse("2+"), Err(ErrorKind::SyntaxError));
    assert_eq!(parse("(1+2"), Err(ErrorKind::UnbalancedParens));
    assert_eq!(parse("1+2)"), Err(ErrorKind::UnbalancedParens));
    assert_eq!(parse("(1(2))"), Err(ErrorKind::UnbalancedParens));
}

#[test]
fn decimal_literals() {
    assert_eq!(parse("3.5*2"), Ok(bin(Expr::Mul, num("3.5"), num("2"))));
    assert_eq!(rounded("3.5*2"), Some(7.0));
    assert_eq!(parse("1..2"), Err(ErrorKind::SyntaxError));
    assert_eq!(parse("."), Err(ErrorKind::SyntaxError));
    assert_eq!(parse("1."), Ok(num("1.")));
    assert_eq!(parse(".5"), Ok(num(".5")));
}

#[test]
fn disallowed_characters_are_rejected_anywhere() {
    assert_eq!(parse("a+1"), Err(ErrorKind::UnexpectedCharacter));
    assert_eq!(parse("1+a"), Err(ErrorKind::UnexpectedCharacter));
    assert_eq!(parse("(1+2"), Err(ErrorKind::UnbalancedParens));
    assert_eq!(parse("((1+2)x"), Err(ErrorKind::UnexpectedCharacter));
}

#[test]
fn parsing_twice_gives_the_same_tree() {
    for text in ["2+3*4", "1/0", "(1+2", "a+1", "2^0.5%3"] {
        assert_eq!(parse(text), parse(text));
    }
}

#[test]
fn rounding_hides_binary_noise() {
    assert_eq!(rounded("0.1+0.2"), Some(0.3));
    assert_eq!(rounded("1/3"), Some(0.33333));
    assert_eq!(rounded("2/3"), Some(0.66667));
}

#[test]
fn fully_parenthesized_text_keeps_its_structure() {
    let expected = bin(
        Expr::Div,
        bin(Expr::Add, num("1"), num("2")),
        bin(Expr::Sub, num("3"), bin(Expr::Mul, num("4"), num("5"))),
    );
    assert_eq!(parse("((1+2)/(3-(4*5)))"), Ok(expected));
    assert_eq!(rounded("((1+2)/(3-(4*5)))"), Some(-0.17647));
}

#[test]
fn sums_and_products_group_to_the_left() {
    assert_eq!(parse("8-3-2"), Ok(bin(Expr::Sub, bin(Expr::Sub, num("8"), num("3")), num("2"))));
    assert_eq!(parse("8/4/2"), Ok(bin(Expr::Div, bin(Expr::Div, num("8"), num("4")), num("2"))));
    assert_eq!(rounded("8-3-2"), Some(3.0));
    assert_eq!(rounded("8/4/2"), Some(1.0));
}

#[test]
fn remainder_follows_the_dividend_sign() {
    assert_eq!(rounded("7%3"), Some(1.0));
    assert_eq!(rounded("(0-7)%3"), Some(-1.0));
    assert_eq!(rounded("5.5%2"), Some(1.5));
}

#[test]
fn unary_minus_is_not_accepted() {
    assert_eq!(parse("-1"), Err(ErrorKind::SyntaxError));
    assert_eq!(parse("(-1)"), Err(ErrorKind::SyntaxError));
    assert_eq!(parse("2*-1"), Err(ErrorKind::SyntaxError));
}

#[test]
fn parenthesized_base_takes_an_exponent() {
    assert_eq!(parse("(1+1)^3"), Ok(bin(Expr::Pow, bin(Expr::Add, num("1"), num("1")), num("3"))));
    assert_eq!(rounded("(1+1)^3"), Some(8.0));
}

#[test]
fn trailing_input_is_rejected() {
    assert_eq!(parse("2(3)"), Err(ErrorKind::SyntaxError));
    assert_eq!(parse("(2)3"), Err(ErrorKind::SyntaxError));
    assert_eq!(parse("2)"), Err(ErrorKind::UnbalancedParens));
}

#[test]
fn whitespace_is_ignored() {
    assert_eq!(parse(" 1 +\t2\n"), Ok(bin(Expr::Add, num("1"), num("2"))));
    assert_eq!(parse("1\u{a0}+\u{3000}2"), Ok(bin(Expr::Add, num("1"), num("2"))));
    assert_eq!(tokenize(" 1 + 2 "), vec!['1', '+', '2']);
    assert_eq!(tokenize("\u{2003}x\u{85}"), vec!['x']);
    assert!(is_space_char('\u{2028}'));
    assert!(!is_space_char('\u{200b}'));
}

#[test]
fn deep_nesting_is_read() {
    let text = format!("{}7{}", "(".repeat(200), ")".repeat(200));
    assert_eq!(parse(&text), Ok(num("7")));
}

#[test]
fn token_level_checks() {
    assert!(check_literal(&vec!['1', '.', '5']));
    assert!(!check_literal(&vec!['.']));
    assert!(!check_literal(&vec!['1', '.', '.', '2']));
    assert!(!check_literal(&vec![]));
    assert!(check_allowed(&vec!['(', '1', '^', '2', ')', '%', '3']));
    assert!(!check_allowed(&vec!['1', ' ', '2']));
    assert_eq!(parse_tokens(&vec!['4', '-', '1']), Ok(bin(Expr::Sub, num("4"), num("1"))));
    assert_eq!(parse_tokens(&vec!['4', ' ']), Err(ErrorKind::UnexpectedCharacter));
}

#[test]
fn power_of_a_negative_base_with_fraction_is_nan() {
    let v = value(&parse("(0-8)^0.5").unwrap()).unwrap();
    assert!(v.is_nan());
}
