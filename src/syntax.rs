use vstd::prelude::*;

verus! {

/// Why a text is not a well-formed expression, or why its value is undefined.
#[derive(Clone, Copy, Debug, PartialEq, Eq, Structural)]
pub enum ErrorKind {
    /// A missing operand, a malformed number literal or unconsumed input.
    SyntaxError,
    /// A divisor that evaluates to zero.
    DivisionByZero,
    /// A modulus that evaluates to zero.
    ModulusByZero,
    /// A character outside digits, `.`, `+ - * / % ^` and parentheses.
    UnexpectedCharacter,
    /// An opening parenthesis without its closing one, or a stray closing one.
    UnbalancedParens,
}

/// The mathematical shape of an expression tree; a literal is its text.
pub enum ExprView {
    Num(Seq<char>),
    Add(Box<ExprView>, Box<ExprView>),
    Sub(Box<ExprView>, Box<ExprView>),
    Mul(Box<ExprView>, Box<ExprView>),
    Div(Box<ExprView>, Box<ExprView>),
    Rem(Box<ExprView>, Box<ExprView>),
    Pow(Box<ExprView>, Box<ExprView>),
}

/// A parsed expression. A literal keeps its characters: one or more digits with
/// at most one `.` among them.
#[derive(Debug, PartialEq)]
pub enum Expr {
    Num(Vec<char>),
    Add(Box<Expr>, Box<Expr>),
    Sub(Box<Expr>, Box<Expr>),
    Mul(Box<Expr>, Box<Expr>),
    Div(Box<Expr>, Box<Expr>),
    Rem(Box<Expr>, Box<Expr>),
    Pow(Box<Expr>, Box<Expr>),
}

/// The shape of `e`, literal text included.
pub open spec fn view_of(e: &Expr) -> ExprView
    decreases e,
{
    match e {
        Expr::Num(d) => ExprView::Num(d@),
        Expr::Add(a, b) => ExprView::Add(Box::new(view_of(a)), Box::new(view_of(b))),
        Expr::Sub(a, b) => ExprView::Sub(Box::new(view_of(a)), Box::new(view_of(b))),
        Expr::Mul(a, b) => ExprView::Mul(Box::new(view_of(a)), Box::new(view_of(b))),
        Expr::Div(a, b) => ExprView::Div(Box::new(view_of(a)), Box::new(view_of(b))),
        Expr::Rem(a, b) => ExprView::Rem(Box::new(view_of(a)), Box::new(view_of(b))),
        Expr::Pow(a, b) => ExprView::Pow(Box::new(view_of(a)), Box::new(view_of(b))),
    }
}

impl View for Expr {
    type V = ExprView;

    open spec fn view(&self) -> ExprView {
        view_of(self)
    }
}

} // verus!
