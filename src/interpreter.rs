use vstd::prelude::*;

use crate::ast::{Aexpr, Bexpr, LitInterval, Num, Operator, Statement, Var};
use crate::state::{
    entries_map, find, lemma_entries_push, lemma_lookup_index, lemma_lookup_update,
    lemma_unique_push, lookup, unique_keys,
};

verus! {

/// What the concrete interpreter does not handle.
#[derive(Debug, Clone, Copy, PartialEq, Eq, Structural)]
pub enum Unsupported {
    Division,
    PrefixOperator,
    PostfixOperator,
}

/// Why a concrete run stopped.
#[derive(Debug)]
pub enum RuntimeError {
    /// A variable was read before any assignment.
    VariableNotInitialized(String),
    NotImplemented(Unsupported),
    /// A value left `i128`.
    Overflow,
    /// The run took more loop iterations than allowed.
    OutOfFuel,
}

/// A concrete store: the values of the assigned variables, one entry each.
pub struct ConcreteState {
    entries: Vec<(Var, Num)>,
}

pub type Store = Map<Seq<char>, Num>;

impl ConcreteState {
    pub closed spec fn view(&self) -> Store {
        entries_map(self.entries@)
    }

    pub closed spec fn wf(&self) -> bool {
        unique_keys(self.entries@)
    }

    /// The empty store.
    pub fn new() -> (r: Self)
        ensures
            r@ == Map::<Seq<char>, Num>::empty(),
            r.wf(),
    {
        let r = ConcreteState { entries: Vec::new() };
        assert(r@ =~= Map::<Seq<char>, Num>::empty());
        r
    }

    /// The entries of the store, one per assigned variable.
    pub fn bindings(&self) -> (r: &Vec<(Var, Num)>)
        ensures
            entries_map(r@) == self@,
    {
        &self.entries
    }

    /// The value of `x`, if it was assigned.
    pub fn get(&self, x: &Var) -> (r: Option<Num>)
        requires
            self.wf(),
        ensures
            r == (if self@.contains_key(x@) { Some(self@[x@]) } else { None::<Num> }),
    {
        proof {
            lemma_lookup_index(self.entries@, x@);
        }
        match find(&self.entries, x) {
            Some(i) => Some(self.entries[i].1),
            None => None,
        }
    }

    /// Assigns `v` to `x`.
    pub fn insert(&mut self, x: Var, v: Num)
        requires
            old(self).wf(),
        ensures
            final(self).wf(),
            final(self)@ == old(self)@.insert(x@, v),
    {
        let ghost v0 = self.entries@;
        proof {
            lemma_lookup_index(v0, x@);
        }
        match find(&self.entries, &x) {
            Some(i) => {
                let ghost e = (x, v);
                self.entries.set(i, (x, v));
                proof {
                    assert(self.entries@ =~= v0.update(i as int, e));
                    assert forall|q: Seq<char>| #[trigger] lookup(self.entries@, q) == (if v0[i as int].0@ == q { Some(v) } else { lookup(v0, q) }) by {
                        lemma_lookup_update(v0, i as int, e, q);
                    }
                    lemma_lookup_update(v0, i as int, e, x@);
                    assert(self@ =~= entries_map(v0).insert(x@, v));
                }
            },
            None => {
                proof {
                    lemma_unique_push(v0, (x, v));
                    lemma_entries_push(v0, (x, v));
                }
                self.entries.push((x, v));
            },
        }
    }
}

pub open spec fn fits(v: int) -> bool {
    i128::MIN <= v <= i128::MAX
}

/// The value of an arithmetic expression in a store.
pub open spec fn aexpr_value(a: Aexpr<Num>, s: Store) -> Result<Num, RuntimeError>
    decreases a,
{
    match a {
        Aexpr::Lit(n) => Ok(n),
        Aexpr::Var(x) => if s.contains_key(x@) { Ok(s[x@]) } else { Err(RuntimeError::VariableNotInitialized(x)) },
        Aexpr::BinOp(op, a1, a2) => match aexpr_value(*a1, s) {
            Err(e) => Err(e),
            Ok(n1) => match aexpr_value(*a2, s) {
                Err(e) => Err(e),
                Ok(n2) => {
                    let v = match op {
                        Operator::Add => n1 + n2,
                        Operator::Sub => n1 - n2,
                        _ => n1 * n2,
                    };
                    if op is Div {
                        Err(RuntimeError::NotImplemented(Unsupported::Division))
                    } else if fits(v) {
                        Ok(v as Num)
                    } else {
                        Err(RuntimeError::Overflow)
                    }
                },
            },
        },
        Aexpr::PreOp(_, _) => Err(RuntimeError::NotImplemented(Unsupported::PrefixOperator)),
        Aexpr::PostOp(_, _) => Err(RuntimeError::NotImplemented(Unsupported::PostfixOperator)),
    }
}

/// The truth of a boolean expression in a store; `and` stops at a false left side.
pub open spec fn bexpr_value(b: Bexpr<Num>, s: Store) -> Result<bool, RuntimeError>
    decreases b,
{
    match b {
        Bexpr::True => Ok(true),
        Bexpr::False => Ok(false),
        Bexpr::Equal(a1, a2) | Bexpr::LessEq(a1, a2) => match aexpr_value(*a1, s) {
            Err(e) => Err(e),
            Ok(n1) => match aexpr_value(*a2, s) {
                Err(e) => Err(e),
                Ok(n2) => Ok(if b is Equal { n1 == n2 } else { n1 <= n2 }),
            },
        },
        Bexpr::Not(b1) => match bexpr_value(*b1, s) {
            Err(e) => Err(e),
            Ok(v) => Ok(!v),
        },
        Bexpr::And(b1, b2) => match bexpr_value(*b1, s) {
            Err(e) => Err(e),
            Ok(false) => Ok(false),
            Ok(true) => bexpr_value(*b2, s),
        },
    }
}

/// The store after a statement, with at most `fuel` loop iterations in all; the
/// fuel left is returned with the store.
pub open spec fn run_spec(stm: Statement<Num>, s: Store, fuel: nat) -> Result<(Store, nat), RuntimeError>
    decreases fuel, stm,
{
    match stm {
        Statement::Assign(x, a) => match aexpr_value(*a, s) {
            Err(e) => Err(e),
            Ok(v) => Ok((s.insert(x@, v), fuel)),
        },
        Statement::Skip => Ok((s, fuel)),
        Statement::Compose(s1, s2) => match run_spec(*s1, s, fuel) {
            Err(e) => Err(e),
            Ok((s1b, f1)) => if f1 <= fuel { run_spec(*s2, s1b, f1) } else { Err(RuntimeError::OutOfFuel) },
        },
        Statement::IfThenElse(b, s1, s2) => match bexpr_value(*b, s) {
            Err(e) => Err(e),
            Ok(true) => run_spec(*s1, s, fuel),
            Ok(false) => run_spec(*s2, s, fuel),
        },
        Statement::While(b, body) => match bexpr_value(*b, s) {
            Err(e) => Err(e),
            Ok(false) => Ok((s, fuel)),
            Ok(true) => {
                if fuel == 0 {
                    Err(RuntimeError::OutOfFuel)
                } else {
                    match run_spec(*body, s, (fuel - 1) as nat) {
                        Err(e) => Err(e),
                        Ok((s2, f2)) => if f2 < fuel { run_spec(stm, s2, f2) } else { Err(RuntimeError::OutOfFuel) },
                    }
                }
            },
        },
    }
}

fn eval_aexpr(a: &Aexpr<Num>, state: &ConcreteState) -> (r: Result<Num, RuntimeError>)
    requires
        state.wf(),
    ensures
        r == aexpr_value(*a, state@),
    decreases a,
{
    match a {
        Aexpr::Lit(n) => Ok(*n),
        Aexpr::Var(x) => match state.get(x) {
            Some(n) => Ok(n),
            None => Err(RuntimeError::VariableNotInitialized(x.clone())),
        },
        Aexpr::BinOp(op, a1, a2) => {
            let n1 = eval_aexpr(a1, state)?;
            let n2 = eval_aexpr(a2, state)?;
            let v = match op {
                Operator::Add => n1.checked_add(n2),
                Operator::Sub => n1.checked_sub(n2),
                Operator::Mul => n1.checked_mul(n2),
                Operator::Div => return Err(RuntimeError::NotImplemented(Unsupported::Division)),
            };
            match v {
                Some(v) => Ok(v),
                None => Err(RuntimeError::Overflow),
            }
        },
        Aexpr::PreOp(_, _) => Err(RuntimeError::NotImplemented(Unsupported::PrefixOperator)),
        Aexpr::PostOp(_, _) => Err(RuntimeError::NotImplemented(Unsupported::PostfixOperator)),
    }
}

fn eval_bexpr(b: &Bexpr<Num>, state: &ConcreteState) -> (r: Result<bool, RuntimeError>)
    requires
        state.wf(),
    ensures
        r == bexpr_value(*b, state@),
    decreases b,
{
    match b {
        Bexpr::True => Ok(true),
        Bexpr::False => Ok(false),
        Bexpr::Equal(a1, a2) => {
            let n1 = eval_aexpr(a1, state)?;
            let n2 = eval_aexpr(a2, state)?;
            Ok(n1 == n2)
        },
        Bexpr::LessEq(a1, a2) => {
            let n1 = eval_aexpr(a1, state)?;
            let n2 = eval_aexpr(a2, state)?;
            Ok(n1 <= n2)
        },
        Bexpr::Not(b1) => Ok(!eval_bexpr(b1, state)?),
        Bexpr::And(b1, b2) => {
            if eval_bexpr(b1, state)? {
                eval_bexpr(b2, state)
            } else {
                Ok(false)
            }
        },
    }
}

fn run(statement: &Statement<Num>, state: ConcreteState, fuel: u64) -> (r: Result<(ConcreteState, u64), RuntimeError>)
    requires
        state.wf(),
    ensures
        match r {
            Ok((s, f)) => s.wf() && run_spec(*statement, state@, fuel as nat) == Ok::<(Store, nat), RuntimeError>((s@, f as nat)),
            Err(e) => run_spec(*statement, state@, fuel as nat) == Err::<(Store, nat), RuntimeError>(e),
        },
    decreases fuel, statement,
{
    match statement {
        Statement::Assign(x, a) => {
            let v = eval_aexpr(a, &state)?;
            let mut state = state;
            state.insert(x.clone(), v);
            Ok((state, fuel))
        },
        Statement::Skip => Ok((state, fuel)),
        Statement::Compose(s1, s2) => {
            let (st, f1) = run(s1, state, fuel)?;
            if f1 <= fuel {
                run(s2, st, f1)
            } else {
                Err(RuntimeError::OutOfFuel)
            }
        },
        Statement::IfThenElse(b, s1, s2) => {
            if eval_bexpr(b, &state)? {
                run(s1, state, fuel)
            } else {
                run(s2, state, fuel)
            }
        },
        Statement::While(b, body) => {
            if !eval_bexpr(b, &state)? {
                return Ok((state, fuel));
            }
            if fuel == 0 {
                return Err(RuntimeError::OutOfFuel);
            }
            let (st, f2) = run(body, state, fuel - 1)?;
            if f2 < fuel {
                run(statement, st, f2)
            } else {
                Err(RuntimeError::OutOfFuel)
            }
        },
    }
}

/// Runs a program from `state` with at most `fuel` loop iterations.
pub fn eval_statement(statement: &Statement<Num>, state: ConcreteState, fuel: u64) -> (r: Result<ConcreteState, RuntimeError>)
    requires
        state.wf(),
    ensures
        match r {
            Ok(s) => s.wf() && (run_spec(*statement, state@, fuel as nat) matches Ok((m, _)) && m == s@),
            Err(e) => run_spec(*statement, state@, fuel as nat) == Err::<(Store, nat), RuntimeError>(e),
        },
{
    match run(statement, state, fuel) {
        Ok((s, _)) => Ok(s),
        Err(e) => Err(e),
    }
}

/// The expression with each literal `[n, n]` read as the number `n`; `None` if a
/// literal stands for more than one number.
pub open spec fn concrete_aexpr(a: Aexpr<LitInterval>) -> Option<Aexpr<Num>>
    decreases a,
{
    match a {
        Aexpr::Lit(n) => if n.0 == n.1 { Some(Aexpr::Lit(n.0)) } else { None },
        Aexpr::Var(x) => Some(Aexpr::Var(x)),
        Aexpr::PreOp(op, x) => Some(Aexpr::PreOp(op, x)),
        Aexpr::PostOp(op, x) => Some(Aexpr::PostOp(op, x)),
        Aexpr::BinOp(op, a1, a2) => match (concrete_aexpr(*a1), concrete_aexpr(*a2)) {
            (Some(c1), Some(c2)) => Some(Aexpr::BinOp(op, Box::new(c1), Box::new(c2))),
            _ => None,
        },
    }
}

pub open spec fn concrete_bexpr(b: Bexpr<LitInterval>) -> Option<Bexpr<Num>>
    decreases b,
{
    match b {
        Bexpr::True => Some(Bexpr::True),
        Bexpr::False => Some(Bexpr::False),
        Bexpr::Equal(a1, a2) => match (concrete_aexpr(*a1), concrete_aexpr(*a2)) {
            (Some(c1), Some(c2)) => Some(Bexpr::Equal(Box::new(c1), Box::new(c2))),
            _ => None,
        },
        Bexpr::LessEq(a1, a2) => match (concrete_aexpr(*a1), concrete_aexpr(*a2)) {
            (Some(c1), Some(c2)) => Some(Bexpr::LessEq(Box::new(c1), Box::new(c2))),
            _ => None,
        },
        Bexpr::Not(b1) => match concrete_bexpr(*b1) {
            Some(c) => Some(Bexpr::Not(Box::new(c))),
            None => None,
        },
        Bexpr::And(b1, b2) => match (concrete_bexpr(*b1), concrete_bexpr(*b2)) {
            (Some(c1), Some(c2)) => Some(Bexpr::And(Box::new(c1), Box::new(c2))),
            _ => None,
        },
    }
}

pub open spec fn concrete_statement(stm: Statement<LitInterval>) -> Option<Statement<Num>>
    decreases stm,
{
    match stm {
        Statement::Assign(x, a) => match concrete_aexpr(*a) {
            Some(c) => Some(Statement::Assign(x, Box::new(c))),
            None => None,
        },
        Statement::Skip => Some(Statement::Skip),
        Statement::Compose(s1, s2) => match (concrete_statement(*s1), concrete_statement(*s2)) {
            (Some(c1), Some(c2)) => Some(Statement::Compose(Box::new(c1), Box::new(c2))),
            _ => None,
        },
        Statement::IfThenElse(b, s1, s2) => match (concrete_bexpr(*b), concrete_statement(*s1), concrete_statement(*s2)) {
            (Some(c), Some(c1), Some(c2)) => Some(Statement::IfThenElse(Box::new(c), Box::new(c1), Box::new(c2))),
            _ => None,
        },
        Statement::While(b, s) => match (concrete_bexpr(*b), concrete_statement(*s)) {
            (Some(c), Some(c1)) => Some(Statement::While(Box::new(c), Box::new(c1))),
            _ => None,
        },
    }
}

fn to_concrete_aexpr(a: &Aexpr<LitInterval>) -> (r: Option<Aexpr<Num>>)
    ensures
        r == concrete_aexpr(*a),
    decreases a,
{
    match a {
        Aexpr::Lit(n) => if n.0 == n.1 { Some(Aexpr::Lit(n.0)) } else { None },
        Aexpr::Var(x) => Some(Aexpr::Var(x.clone())),
        Aexpr::PreOp(op, x) => Some(Aexpr::PreOp(*op, x.clone())),
        Aexpr::PostOp(op, x) => Some(Aexpr::PostOp(*op, x.clone())),
        Aexpr::BinOp(op, a1, a2) => match (to_concrete_aexpr(a1), to_concrete_aexpr(a2)) {
            (Some(c1), Some(c2)) => Some(Aexpr::BinOp(*op, Box::new(c1), Box::new(c2))),
            _ => None,
        },
    }
}

fn to_concrete_bexpr(b: &Bexpr<LitInterval>) -> (r: Option<Bexpr<Num>>)
    ensures
        r == concrete_bexpr(*b),
    decreases b,
{
    match b {
        Bexpr::True => Some(Bexpr::True),
        Bexpr::False => Some(Bexpr::False),
        Bexpr::Equal(a1, a2) => match (to_concrete_aexpr(a1), to_concrete_aexpr(a2)) {
            (Some(c1), Some(c2)) => Some(Bexpr::Equal(Box::new(c1), Box::new(c2))),
            _ => None,
        },
        Bexpr::LessEq(a1, a2) => match (to_concrete_aexpr(a1), to_concrete_aexpr(a2)) {
            (Some(c1), Some(c2)) => Some(Bexpr::LessEq(Box::new(c1), Box::new(c2))),
            _ => None,
        },
        Bexpr::Not(b1) => match to_concrete_bexpr(b1) {
            Some(c) => Some(Bexpr::Not(Box::new(c))),
            None => None,
        },
        Bexpr::And(b1, b2) => match (to_concrete_bexpr(b1), to_concrete_bexpr(b2)) {
            (Some(c1), Some(c2)) => Some(Bexpr::And(Box::new(c1), Box::new(c2))),
            _ => None,
        },
    }
}

/// The program with its literals read as numbers, for the concrete interpreter;
/// `None` if a literal is an interval of more than one number.
pub fn to_concrete(stm: &Statement<LitInterval>) -> (r: Option<Statement<Num>>)
    ensures
        r == concrete_statement(*stm),
    decreases stm,
{
    match stm {
        Statement::Assign(x, a) => match to_concrete_aexpr(a) {
            Some(c) => Some(Statement::Assign(x.clone(), Box::new(c))),
            None => None,
        },
        Statement::Skip => Some(Statement::Skip),
        Statement::Compose(s1, s2) => match (to_concrete(s1), to_concrete(s2)) {
            (Some(c1), Some(c2)) => Some(Statement::Compose(Box::new(c1), Box::new(c2))),
            _ => None,
        },
        Statement::IfThenElse(b, s1, s2) => match (to_concrete_bexpr(b), to_concrete(s1), to_concrete(s2)) {
            (Some(c), Some(c1), Some(c2)) => Some(Statement::IfThenElse(Box::new(c), Box::new(c1), Box::new(c2))),
            _ => None,
        },
        Statement::While(b, s) => match (to_concrete_bexpr(b), to_concrete(s)) {
            (Some(c), Some(c1)) => Some(Statement::While(Box::new(c), Box::new(c1))),
            _ => None,
        },
    }
}

} // verus!
