use vstd::prelude::*;

use crate::ast::{LitInterval, Var};

verus! {

/// Concrete syntax trees, as the grammar reads a program: `aexpr := aexpr + term |
/// aexpr - term | term | - factor`.
#[derive(Debug)]
pub enum Aexpr {
    Add(Box<Aexpr>, Box<Term>),
    Sub(Box<Aexpr>, Box<Term>),
    Term(Box<Term>),
    Opposite(Box<Factor>),
}

/// `term := term * factor | term / factor | factor`.
#[derive(Debug)]
pub enum Term {
    Mul(Box<Term>, Box<Factor>),
    Div(Box<Term>, Box<Factor>),
    Factor(Box<Factor>),
}

#[derive(Debug)]
pub enum Factor {
    Lit(LitInterval),
    Var(Var),
    PreInc(Var),
    PostInc(Var),
    PreDec(Var),
    PostDec(Var),
    Aexpr(Box<Aexpr>),
}

/// `bexpr := bexpr and atom | bexpr or atom | atom`.
#[derive(Debug)]
pub enum Bexpr {
    And(Box<Bexpr>, Box<BexprAtomic>),
    Atomic(Box<BexprAtomic>),
    Or(Box<Bexpr>, Box<BexprAtomic>),
}

#[derive(Debug)]
pub enum BexprAtomic {
    True,
    False,
    Equal(Box<Aexpr>, Box<Aexpr>),
    LessEq(Box<Aexpr>, Box<Aexpr>),
    Not(Box<BexprAtomic>),
    Bexpr(Box<Bexpr>),
    Less(Box<Aexpr>, Box<Aexpr>),
    GreaterEq(Box<Aexpr>, Box<Aexpr>),
    Greater(Box<Aexpr>, Box<Aexpr>),
    NotEqual(Box<Aexpr>, Box<Aexpr>),
}

#[derive(Debug)]
pub enum Statement {
    Skip,
    IfThenElse(Box<Bexpr>, Box<Statement>, Box<Statement>),
    While(Box<Bexpr>, Box<Statement>),
    Block(Box<Statements>),
    AssignStm(Box<AssignStatements>),
    RepeatUntil(Box<Statement>, Box<Bexpr>),
    ForLoop(Var, Box<Aexpr>, Box<Bexpr>, Box<AssignStatements>, Box<Statement>),
}

#[derive(Debug)]
pub enum AssignStatements {
    Assign(Var, Box<Aexpr>),
    AddAssign(Var, Box<Aexpr>),
    SubAssign(Var, Box<Aexpr>),
    MulAssign(Var, Box<Aexpr>),
}

#[derive(Debug)]
pub enum Statements {
    Composition(Box<Statements>, Box<Statement>),
    Singleton(Box<Statement>),
}

} // verus!
