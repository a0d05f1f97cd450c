//! Surface terms: expression trees whose variables and binders are spelled
//! out as strings.

use vstd::prelude::*;

verus! {

/// Unary operators.
#[derive(Debug, Clone, Copy, PartialEq, Eq, Structural)]
pub enum Op1 {
    Neg,
    Not,
}

/// Binary operators.
#[derive(Debug, Clone, Copy, PartialEq, Eq, Structural)]
pub enum Op2 {
    Add,
    Sub,
    Mul,
    Div,
    Lte,
    Gte,
    Lt,
    Gt,
    Eq,
    Neq,
    And,
    Or,
}

/// A surface term.
#[derive(Debug)]
pub enum Term {
    Int(i32),
    Bool(bool),
    Var(String),
    Op1(Op1, Box<Term>),
    Op2(Op2, Box<Term>, Box<Term>),
    /// A function that knows itself by the first name and its parameter by
    /// the second.
    Fun(String, String, Box<Term>),
    App(Box<Term>, Box<Term>),
    LetIn(String, Box<Term>, Box<Term>),
    Ifte(Box<Term>, Box<Term>, Box<Term>),
}

/// The mathematical value of a surface [`Term`].
pub enum TermView {
    Int(i32),
    Bool(bool),
    Var(Seq<char>),
    Op1(Op1, Box<TermView>),
    Op2(Op2, Box<TermView>, Box<TermView>),
    Fun(Seq<char>, Seq<char>, Box<TermView>),
    App(Box<TermView>, Box<TermView>),
    LetIn(Seq<char>, Box<TermView>, Box<TermView>),
    Ifte(Box<TermView>, Box<TermView>, Box<TermView>),
}

impl Term {
    /// The tree that this term stands for.
    pub open spec fn model(&self) -> TermView
        decreases self,
    {
        match self {
            Term::Int(i) => TermView::Int(*i),
            Term::Bool(b) => TermView::Bool(*b),
            Term::Var(s) => TermView::Var(s@),
            Term::Op1(op, m) => TermView::Op1(*op, Box::new(m.model())),
            Term::Op2(op, m, n) => TermView::Op2(*op, Box::new(m.model()), Box::new(n.model())),
            Term::Fun(f, x, m) => TermView::Fun(f@, x@, Box::new(m.model())),
            Term::App(m, n) => TermView::App(Box::new(m.model()), Box::new(n.model())),
            Term::LetIn(x, m, n) => TermView::LetIn(x@, Box::new(m.model()), Box::new(n.model())),
            Term::Ifte(m, n1, n2) => TermView::Ifte(
                Box::new(m.model()),
                Box::new(n1.model()),
                Box::new(n2.model()),
            ),
        }
    }
}

impl View for Term {
    type V = TermView;

    open spec fn view(&self) -> TermView {
        self.model()
    }
}

/// An integer literal.
pub fn num(i: i32) -> (t: Box<Term>)
    ensures
        t@ == TermView::Int(i),
{
    Box::new(Term::Int(i))
}

/// A boolean literal.
pub fn bool(b: bool) -> (t: Box<Term>)
    ensures
        t@ == TermView::Bool(b),
{
    Box::new(Term::Bool(b))
}

/// An occurrence of the variable spelled `s`.
pub fn var(s: String) -> (t: Box<Term>)
    ensures
        t@ == TermView::Var(s@),
{
    Box::new(Term::Var(s))
}

/// `op` applied to `m`.
pub fn op1(op: Op1, m: Box<Term>) -> (t: Box<Term>)
    ensures
        t@ == TermView::Op1(op, Box::new(m@)),
{
    Box::new(Term::Op1(op, m))
}

/// `op` applied to `m` and `n`.
pub fn op2(op: Op2, m: Box<Term>, n: Box<Term>) -> (t: Box<Term>)
    ensures
        t@ == TermView::Op2(op, Box::new(m@), Box::new(n@)),
{
    Box::new(Term::Op2(op, m, n))
}

/// The function with self name `s1`, parameter `s2` and body `m`.
pub fn fun(s1: String, s2: String, m: Box<Term>) -> (t: Box<Term>)
    ensures
        t@ == TermView::Fun(s1@, s2@, Box::new(m@)),
{
    Box::new(Term::Fun(s1, s2, m))
}

/// The application of `m` to `n`.
pub fn app(m: Box<Term>, n: Box<Term>) -> (t: Box<Term>)
    ensures
        t@ == TermView::App(Box::new(m@), Box::new(n@)),
{
    Box::new(Term::App(m, n))
}

/// `let s = m in n`.
pub fn letin(s: String, m: Box<Term>, n: Box<Term>) -> (t: Box<Term>)
    ensures
        t@ == TermView::LetIn(s@, Box::new(m@), Box::new(n@)),
{
    Box::new(Term::LetIn(s, m, n))
}

/// `if m then n1 else n2`.
pub fn ifte(m: Box<Term>, n1: Box<Term>, n2: Box<Term>) -> (t: Box<Term>)
    ensures
        t@ == TermView::Ifte(Box::new(m@), Box::new(n1@), Box::new(n2@)),
{
    Box::new(Term::Ifte(m, n1, n2))
}

} // verus!
