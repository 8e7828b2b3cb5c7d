//! Expression trees: what the parser produces from tokens.
use vstd::prelude::*;

verus! {

/// A binary operator.
#[derive(Clone, Copy, Debug, PartialEq, Eq, Structural)]
pub enum BinOp {
    Add,
    Sub,
    Mul,
    Div,
    Pow,
}

/// A parsed expression. Numbers keep the text of their literal; variables are names that
/// were bound when the expression was parsed.
#[derive(Debug, PartialEq)]
pub enum Expr {
    Number(String),
    Variable(String),
    Negate(Box<Expr>),
    Binary(BinOp, Box<Expr>, Box<Expr>),
}

/// The mathematical value of an [`Expr`].
pub enum Term {
    Num(Seq<char>),
    Var(Seq<char>),
    Neg(Box<Term>),
    Bin(BinOp, Box<Term>, Box<Term>),
}

pub open spec fn term_of(e: Expr) -> Term
    decreases e,
{
    match e {
        Expr::Number(s) => Term::Num(s@),
        Expr::Variable(s) => Term::Var(s@),
        Expr::Negate(a) => Term::Neg(Box::new(term_of(*a))),
        Expr::Binary(op, a, b) => Term::Bin(op, Box::new(term_of(*a)), Box::new(term_of(*b))),
    }
}

impl View for Expr {
    type V = Term;

    open spec fn view(&self) -> Term {
        term_of(*self)
    }
}

} // verus!
