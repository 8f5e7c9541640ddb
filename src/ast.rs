use vstd::prelude::*;

verus! {

/// Variable names.
pub type Var = String;

/// The integers of the language.
pub type Num = i128;

/// A literal as written in a program: the integers from `.0` to `.1`.
#[derive(Debug, Clone, Copy, PartialEq, Eq, Structural)]
pub struct LitInterval(pub Num, pub Num);

#[derive(Debug, Clone, Copy, PartialEq, Eq, Structural)]
pub enum Operator {
    Add,
    Sub,
    Mul,
    Div,
}

#[derive(Debug, Clone, Copy, PartialEq, Eq, Structural)]
pub enum PrePostOp {
    Inc,
    Dec,
}

/// Arithmetic expressions whose literals live in `D`.
#[derive(Debug)]
pub enum Aexpr<D> {
    Lit(D),
    Var(Var),
    PreOp(PrePostOp, Var),
    PostOp(PrePostOp, Var),
    BinOp(Operator, Box<Aexpr<D>>, Box<Aexpr<D>>),
}

/// Boolean expressions.
#[derive(Debug)]
pub enum Bexpr<D> {
    True,
    False,
    Equal(Box<Aexpr<D>>, Box<Aexpr<D>>),
    LessEq(Box<Aexpr<D>>, Box<Aexpr<D>>),
    Not(Box<Bexpr<D>>),
    And(Box<Bexpr<D>>, Box<Bexpr<D>>),
}

/// Statements of the core language (the sugared forms are lowered by the parser).
#[derive(Debug)]
pub enum Statement<D> {
    Assign(Var, Box<Aexpr<D>>),
    Skip,
    Compose(Box<Statement<D>>, Box<Statement<D>>),
    IfThenElse(Box<Bexpr<D>>, Box<Statement<D>>, Box<Statement<D>>),
    While(Box<Bexpr<D>>, Box<Statement<D>>),
}

fn copy_var(x: &Var) -> (r: Var)
    ensures
        r == *x,
{
    x.clone()
}

impl<D: Copy> Aexpr<D> {
    /// A copy of the expression.
    pub fn duplicate(&self) -> (r: Aexpr<D>)
        ensures
            r == *self,
        decreases self,
    {
        match self {
            Aexpr::Lit(d) => Aexpr::Lit(*d),
            Aexpr::Var(x) => Aexpr::Var(copy_var(x)),
            Aexpr::PreOp(op, x) => Aexpr::PreOp(*op, copy_var(x)),
            Aexpr::PostOp(op, x) => Aexpr::PostOp(*op, copy_var(x)),
            Aexpr::BinOp(op, a1, a2) => Aexpr::BinOp(
                *op,
                Box::new(a1.duplicate()),
                Box::new(a2.duplicate()),
            ),
        }
    }
}

impl<D: Copy> Bexpr<D> {
    /// A copy of the expression.
    pub fn duplicate(&self) -> (r: Bexpr<D>)
        ensures
            r == *self,
        decreases self,
    {
        match self {
            Bexpr::True => Bexpr::True,
            Bexpr::False => Bexpr::False,
            Bexpr::Equal(a1, a2) => Bexpr::Equal(Box::new(a1.duplicate()), Box::new(a2.duplicate())),
            Bexpr::LessEq(a1, a2) => Bexpr::LessEq(
                Box::new(a1.duplicate()),
                Box::new(a2.duplicate()),
            ),
            Bexpr::Not(b) => Bexpr::Not(Box::new(b.duplicate())),
            Bexpr::And(b1, b2) => Bexpr::And(Box::new(b1.duplicate()), Box::new(b2.duplicate())),
        }
    }
}

impl<D: Copy> Statement<D> {
    /// A copy of the statement.
    pub fn duplicate(&self) -> (r: Statement<D>)
        ensures
            r == *self,
        decreases self,
    {
        match self {
            Statement::Assign(x, a) => Statement::Assign(copy_var(x), Box::new(a.duplicate())),
            Statement::Skip => Statement::Skip,
            Statement::Compose(s1, s2) => Statement::Compose(
                Box::new(s1.duplicate()),
                Box::new(s2.duplicate()),
            ),
            Statement::IfThenElse(b, s1, s2) => Statement::IfThenElse(
                Box::new(b.duplicate()),
                Box::new(s1.duplicate()),
                Box::new(s2.duplicate()),
            ),
            Statement::While(b, s) => Statement::While(Box::new(b.duplicate()), Box::new(s.duplicate())),
        }
    }
}

} // verus!
