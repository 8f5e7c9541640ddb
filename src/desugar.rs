use vstd::prelude::*;

use crate::ast;
use crate::ast::{LitInterval, Operator, PrePostOp};
use crate::cst;
use crate::lexer::{tokenize, ParserError};
use crate::parser::ConcreteParser;

verus! {

pub open spec fn aexpr_spec(c: cst::Aexpr) -> ast::Aexpr<LitInterval>
    decreases c,
{
    match c {
        cst::Aexpr::Add(a, t) => ast::Aexpr::BinOp(Operator::Add, Box::new(aexpr_spec(*a)), Box::new(term_spec(*t))),
        cst::Aexpr::Sub(a, t) => ast::Aexpr::BinOp(Operator::Sub, Box::new(aexpr_spec(*a)), Box::new(term_spec(*t))),
        cst::Aexpr::Term(t) => term_spec(*t),
        cst::Aexpr::Opposite(f) => ast::Aexpr::BinOp(
            Operator::Sub,
            Box::new(ast::Aexpr::Lit(LitInterval(0, 0))),
            Box::new(factor_spec(*f)),
        ),
    }
}

pub open spec fn term_spec(c: cst::Term) -> ast::Aexpr<LitInterval>
    decreases c,
{
    match c {
        cst::Term::Mul(t, f) => ast::Aexpr::BinOp(Operator::Mul, Box::new(term_spec(*t)), Box::new(factor_spec(*f))),
        cst::Term::Div(t, f) => ast::Aexpr::BinOp(Operator::Div, Box::new(term_spec(*t)), Box::new(factor_spec(*f))),
        cst::Term::Factor(f) => factor_spec(*f),
    }
}

pub open spec fn factor_spec(c: cst::Factor) -> ast::Aexpr<LitInterval>
    decreases c,
{
    match c {
        cst::Factor::Lit(n) => ast::Aexpr::Lit(n),
        cst::Factor::Var(x) => ast::Aexpr::Var(x),
        cst::Factor::PreInc(x) => ast::Aexpr::PreOp(PrePostOp::Inc, x),
        cst::Factor::PostInc(x) => ast::Aexpr::PostOp(PrePostOp::Inc, x),
        cst::Factor::PreDec(x) => ast::Aexpr::PreOp(PrePostOp::Dec, x),
        cst::Factor::PostDec(x) => ast::Aexpr::PostOp(PrePostOp::Dec, x),
        cst::Factor::Aexpr(a) => aexpr_spec(*a),
    }
}

/// Boolean expressions with `or` written by De Morgan's law.
pub open spec fn bexpr_spec(c: cst::Bexpr) -> ast::Bexpr<LitInterval>
    decreases c,
{
    match c {
        cst::Bexpr::And(b, ba) => ast::Bexpr::And(Box::new(bexpr_spec(*b)), Box::new(atomic_spec(*ba))),
        cst::Bexpr::Or(b, ba) => ast::Bexpr::Not(
            Box::new(ast::Bexpr::And(
                Box::new(ast::Bexpr::Not(Box::new(bexpr_spec(*b)))),
                Box::new(ast::Bexpr::Not(Box::new(atomic_spec(*ba)))),
            )),
        ),
        cst::Bexpr::Atomic(ba) => atomic_spec(*ba),
    }
}

/// Comparisons written with `==` and `<=` only: `a != b` is `not (a == b)`,
/// `a < b` is `not (b <= a)`, `a >= b` is `b <= a`, `a > b` is `not (a <= b)`.
pub open spec fn atomic_spec(c: cst::BexprAtomic) -> ast::Bexpr<LitInterval>
    decreases c,
{
    match c {
        cst::BexprAtomic::True => ast::Bexpr::True,
        cst::BexprAtomic::False => ast::Bexpr::False,
        cst::BexprAtomic::Equal(a1, a2) => ast::Bexpr::Equal(Box::new(aexpr_spec(*a1)), Box::new(aexpr_spec(*a2))),
        cst::BexprAtomic::LessEq(a1, a2) => ast::Bexpr::LessEq(Box::new(aexpr_spec(*a1)), Box::new(aexpr_spec(*a2))),
        cst::BexprAtomic::Not(ba) => ast::Bexpr::Not(Box::new(atomic_spec(*ba))),
        cst::BexprAtomic::Bexpr(b) => bexpr_spec(*b),
        cst::BexprAtomic::NotEqual(a1, a2) => ast::Bexpr::Not(
            Box::new(ast::Bexpr::Equal(Box::new(aexpr_spec(*a1)), Box::new(aexpr_spec(*a2)))),
        ),
        cst::BexprAtomic::Less(a1, a2) => ast::Bexpr::Not(
            Box::new(ast::Bexpr::LessEq(Box::new(aexpr_spec(*a2)), Box::new(aexpr_spec(*a1)))),
        ),
        cst::BexprAtomic::GreaterEq(a1, a2) => ast::Bexpr::LessEq(Box::new(aexpr_spec(*a2)), Box::new(aexpr_spec(*a1))),
        cst::BexprAtomic::Greater(a1, a2) => ast::Bexpr::Not(
            Box::new(ast::Bexpr::LessEq(Box::new(aexpr_spec(*a1)), Box::new(aexpr_spec(*a2)))),
        ),
    }
}

/// Compound assignments `x op= a` written as `x := x op a`.
pub open spec fn assign_spec(c: cst::AssignStatements) -> ast::Statement<LitInterval> {
    match c {
        cst::AssignStatements::Assign(x, a) => ast::Statement::Assign(x, Box::new(aexpr_spec(*a))),
        cst::AssignStatements::AddAssign(x, a) => ast::Statement::Assign(
            x,
            Box::new(ast::Aexpr::BinOp(Operator::Add, Box::new(ast::Aexpr::Var(x)), Box::new(aexpr_spec(*a)))),
        ),
        cst::AssignStatements::SubAssign(x, a) => ast::Statement::Assign(
            x,
            Box::new(ast::Aexpr::BinOp(Operator::Sub, Box::new(ast::Aexpr::Var(x)), Box::new(aexpr_spec(*a)))),
        ),
        cst::AssignStatements::MulAssign(x, a) => ast::Statement::Assign(
            x,
            Box::new(ast::Aexpr::BinOp(Operator::Mul, Box::new(ast::Aexpr::Var(x)), Box::new(aexpr_spec(*a)))),
        ),
    }
}

/// Statements with blocks flattened, `repeat s until b` as `s; while not b do s`,
/// and `for (x := a; b; u) s` as `x := a; while b do { s; u }`.
pub open spec fn statement_spec(c: cst::Statement) -> ast::Statement<LitInterval>
    decreases c,
{
    match c {
        cst::Statement::Skip => ast::Statement::Skip,
        cst::Statement::IfThenElse(b, s1, s2) => ast::Statement::IfThenElse(
            Box::new(bexpr_spec(*b)),
            Box::new(statement_spec(*s1)),
            Box::new(statement_spec(*s2)),
        ),
        cst::Statement::While(b, s) => ast::Statement::While(Box::new(bexpr_spec(*b)), Box::new(statement_spec(*s))),
        cst::Statement::Block(stms) => statements_spec(*stms),
        cst::Statement::AssignStm(a) => assign_spec(*a),
        cst::Statement::RepeatUntil(s, b) => ast::Statement::Compose(
            Box::new(statement_spec(*s)),
            Box::new(ast::Statement::While(
                Box::new(ast::Bexpr::Not(Box::new(bexpr_spec(*b)))),
                Box::new(statement_spec(*s)),
            )),
        ),
        cst::Statement::ForLoop(x, a, b, upd, s) => ast::Statement::Compose(
            Box::new(ast::Statement::Assign(x, Box::new(aexpr_spec(*a)))),
            Box::new(ast::Statement::While(
                Box::new(bexpr_spec(*b)),
                Box::new(ast::Statement::Compose(Box::new(statement_spec(*s)), Box::new(assign_spec(*upd)))),
            )),
        ),
    }
}

pub open spec fn statements_spec(c: cst::Statements) -> ast::Statement<LitInterval>
    decreases c,
{
    match c {
        cst::Statements::Singleton(s) => statement_spec(*s),
        cst::Statements::Composition(s1, s2) => ast::Statement::Compose(
            Box::new(statements_spec(*s1)),
            Box::new(statement_spec(*s2)),
        ),
    }
}

fn parse_aexpr(c: &cst::Aexpr) -> (r: ast::Aexpr<LitInterval>)
    ensures
        r == aexpr_spec(*c),
    decreases c,
{
    match c {
        cst::Aexpr::Add(a, t) => ast::Aexpr::BinOp(Operator::Add, Box::new(parse_aexpr(a)), Box::new(parse_term(t))),
        cst::Aexpr::Sub(a, t) => ast::Aexpr::BinOp(Operator::Sub, Box::new(parse_aexpr(a)), Box::new(parse_term(t))),
        cst::Aexpr::Term(t) => parse_term(t),
        cst::Aexpr::Opposite(f) => ast::Aexpr::BinOp(
            Operator::Sub,
            Box::new(ast::Aexpr::Lit(LitInterval(0, 0))),
            Box::new(parse_factor(f)),
        ),
    }
}

fn parse_term(c: &cst::Term) -> (r: ast::Aexpr<LitInterval>)
    ensures
        r == term_spec(*c),
    decreases c,
{
    match c {
        cst::Term::Mul(t, f) => ast::Aexpr::BinOp(Operator::Mul, Box::new(parse_term(t)), Box::new(parse_factor(f))),
        cst::Term::Div(t, f) => ast::Aexpr::BinOp(Operator::Div, Box::new(parse_term(t)), Box::new(parse_factor(f))),
        cst::Term::Factor(f) => parse_factor(f),
    }
}

fn parse_factor(c: &cst::Factor) -> (r: ast::Aexpr<LitInterval>)
    ensures
        r == factor_spec(*c),
    decreases c,
{
    match c {
        cst::Factor::Lit(n) => ast::Aexpr::Lit(*n),
        cst::Factor::Var(x) => ast::Aexpr::Var(x.clone()),
        cst::Factor::PreInc(x) => ast::Aexpr::PreOp(PrePostOp::Inc, x.clone()),
        cst::Factor::PostInc(x) => ast::Aexpr::PostOp(PrePostOp::Inc, x.clone()),
        cst::Factor::PreDec(x) => ast::Aexpr::PreOp(PrePostOp::Dec, x.clone()),
        cst::Factor::PostDec(x) => ast::Aexpr::PostOp(PrePostOp::Dec, x.clone()),
        cst::Factor::Aexpr(a) => parse_aexpr(a),
    }
}

fn parse_bexpr(c: &cst::Bexpr) -> (r: ast::Bexpr<LitInterval>)
    ensures
        r == bexpr_spec(*c),
    decreases c,
{
    match c {
        cst::Bexpr::And(b, ba) => ast::Bexpr::And(Box::new(parse_bexpr(b)), Box::new(parse_bexpr_atomic(ba))),
        cst::Bexpr::Or(b, ba) => ast::Bexpr::Not(
            Box::new(ast::Bexpr::And(
                Box::new(ast::Bexpr::Not(Box::new(parse_bexpr(b)))),
                Box::new(ast::Bexpr::Not(Box::new(parse_bexpr_atomic(ba)))),
            )),
        ),
        cst::Bexpr::Atomic(ba) => parse_bexpr_atomic(ba),
    }
}

fn parse_bexpr_atomic(c: &cst::BexprAtomic) -> (r: ast::Bexpr<LitInterval>)
    ensures
        r == atomic_spec(*c),
    decreases c,
{
    match c {
        cst::BexprAtomic::True => ast::Bexpr::True,
        cst::BexprAtomic::False => ast::Bexpr::False,
        cst::BexprAtomic::Equal(a1, a2) => ast::Bexpr::Equal(Box::new(parse_aexpr(a1)), Box::new(parse_aexpr(a2))),
        cst::BexprAtomic::LessEq(a1, a2) => ast::Bexpr::LessEq(Box::new(parse_aexpr(a1)), Box::new(parse_aexpr(a2))),
        cst::BexprAtomic::Not(ba) => ast::Bexpr::Not(Box::new(parse_bexpr_atomic(ba))),
        cst::BexprAtomic::Bexpr(b) => parse_bexpr(b),
        cst::BexprAtomic::NotEqual(a1, a2) => ast::Bexpr::Not(
            Box::new(ast::Bexpr::Equal(Box::new(parse_aexpr(a1)), Box::new(parse_aexpr(a2)))),
        ),
        cst::BexprAtomic::Less(a1, a2) => ast::Bexpr::Not(
            Box::new(ast::Bexpr::LessEq(Box::new(parse_aexpr(a2)), Box::new(parse_aexpr(a1)))),
        ),
        cst::BexprAtomic::GreaterEq(a1, a2) => ast::Bexpr::LessEq(Box::new(parse_aexpr(a2)), Box::new(parse_aexpr(a1))),
        cst::BexprAtomic::Greater(a1, a2) => ast::Bexpr::Not(
            Box::new(ast::Bexpr::LessEq(Box::new(parse_aexpr(a1)), Box::new(parse_aexpr(a2)))),
        ),
    }
}

fn parse_assign_statement(c: &cst::AssignStatements) -> (r: ast::Statement<LitInterval>)
    ensures
        r == assign_spec(*c),
{
    match c {
        cst::AssignStatements::Assign(x, a) => ast::Statement::Assign(x.clone(), Box::new(parse_aexpr(a))),
        cst::AssignStatements::AddAssign(x, a) => ast::Statement::Assign(
            x.clone(),
            Box::new(ast::Aexpr::BinOp(Operator::Add, Box::new(ast::Aexpr::Var(x.clone())), Box::new(parse_aexpr(a)))),
        ),
        cst::AssignStatements::SubAssign(x, a) => ast::Statement::Assign(
            x.clone(),
            Box::new(ast::Aexpr::BinOp(Operator::Sub, Box::new(ast::Aexpr::Var(x.clone())), Box::new(parse_aexpr(a)))),
        ),
        cst::AssignStatements::MulAssign(x, a) => ast::Statement::Assign(
            x.clone(),
            Box::new(ast::Aexpr::BinOp(Operator::Mul, Box::new(ast::Aexpr::Var(x.clone())), Box::new(parse_aexpr(a)))),
        ),
    }
}

fn parse_statement(c: &cst::Statement) -> (r: ast::Statement<LitInterval>)
    ensures
        r == statement_spec(*c),
    decreases c,
{
    match c {
        cst::Statement::Skip => ast::Statement::Skip,
        cst::Statement::IfThenElse(b, s1, s2) => ast::Statement::IfThenElse(
            Box::new(parse_bexpr(b)),
            Box::new(parse_statement(s1)),
            Box::new(parse_statement(s2)),
        ),
        cst::Statement::While(b, s) => ast::Statement::While(Box::new(parse_bexpr(b)), Box::new(parse_statement(s))),
        cst::Statement::Block(stms) => parse_statements(stms),
        cst::Statement::AssignStm(a) => parse_assign_statement(a),
        cst::Statement::RepeatUntil(s, b) => ast::Statement::Compose(
            Box::new(parse_statement(s)),
            Box::new(ast::Statement::While(
                Box::new(ast::Bexpr::Not(Box::new(parse_bexpr(b)))),
                Box::new(parse_statement(s)),
            )),
        ),
        cst::Statement::ForLoop(x, a, b, upd, s) => ast::Statement::Compose(
            Box::new(ast::Statement::Assign(x.clone(), Box::new(parse_aexpr(a)))),
            Box::new(ast::Statement::While(
                Box::new(parse_bexpr(b)),
                Box::new(ast::Statement::Compose(Box::new(parse_statement(s)), Box::new(parse_assign_statement(upd)))),
            )),
        ),
    }
}

fn parse_statements(c: &cst::Statements) -> (r: ast::Statement<LitInterval>)
    ensures
        r == statements_spec(*c),
    decreases c,
{
    match c {
        cst::Statements::Singleton(s) => parse_statement(s),
        cst::Statements::Composition(s1, s2) => ast::Statement::Compose(
            Box::new(parse_statements(s1)),
            Box::new(parse_statement(s2)),
        ),
    }
}

/// The syntax tree of a concrete syntax tree, with the sugared forms lowered.
pub fn abstract_parse(c: &cst::Statements) -> (r: ast::Statement<LitInterval>)
    ensures
        r == statements_spec(*c),
{
    parse_statements(c)
}

/// Reads a program text into its syntax tree.
pub fn parse_string(s: &str) -> (r: Result<ast::Statement<LitInterval>, ParserError>) {
    let tokens = tokenize(s)?;
    let cst = ConcreteParser::new(tokens).parse()?;
    Ok(abstract_parse(&cst))
}

} // verus!
