use vstd::prelude::*;

use crate::ast::{Aexpr, Bexpr, Operator, PrePostOp, Var};
use crate::domain::{
    abstract_operator, backward_abstract_operator, spec_abstract_operator,
    spec_backward_abstract_operator, AbstractDomain, Interval,
};
use crate::state::{model_get, model_glb, model_lub, model_set, HashMapState, StateModel};

verus! {

/// Every literal of the expression is a well-formed domain element.
pub open spec fn aexpr_wf<D: AbstractDomain>(a: Aexpr<D>, c: D::Config) -> bool
    decreases a,
{
    match a {
        Aexpr::Lit(d) => d.wf(c),
        Aexpr::BinOp(_, a1, a2) => aexpr_wf(*a1, c) && aexpr_wf(*a2, c),
        _ => true,
    }
}

pub open spec fn bexpr_wf<D: AbstractDomain>(b: Bexpr<D>, c: D::Config) -> bool
    decreases b,
{
    match b {
        Bexpr::Equal(a1, a2) | Bexpr::LessEq(a1, a2) => aexpr_wf(*a1, c) && aexpr_wf(*a2, c),
        Bexpr::Not(b1) => bexpr_wf(*b1, c),
        Bexpr::And(b1, b2) => bexpr_wf(*b1, c) && bexpr_wf(*b2, c),
        _ => true,
    }
}

/// The value `x ± 1` for an increment or a decrement.
pub open spec fn step_spec<D: AbstractDomain>(op: PrePostOp, d: D, c: D::Config) -> D {
    match op {
        PrePostOp::Inc => d.spec_add(D::spec_from_num(1, c), c),
        PrePostOp::Dec => d.spec_sub(D::spec_from_num(1, c), c),
    }
}

/// Forward evaluation of an arithmetic expression: its value and the state after
/// its increments and decrements, evaluated left to right.
pub open spec fn eval_aexpr_spec<D: AbstractDomain>(a: Aexpr<D>, s: StateModel<D>, c: D::Config) -> (D, StateModel<D>)
    decreases a,
{
    match a {
        Aexpr::Lit(n) => (n, s),
        Aexpr::Var(x) => (model_get(s, x@), s),
        Aexpr::BinOp(op, a1, a2) => {
            let r1 = eval_aexpr_spec(*a1, s, c);
            let r2 = eval_aexpr_spec(*a2, r1.1, c);
            (spec_abstract_operator(op, r1.0, r2.0, c), r2.1)
        },
        Aexpr::PreOp(op, x) => {
            let d = step_spec(op, model_get(s, x@), c);
            (d, model_set(s, x@, d))
        },
        Aexpr::PostOp(op, x) => {
            let d = model_get(s, x@);
            (d, model_set(s, x@, step_spec(op, d, c)))
        },
    }
}

fn step<D: AbstractDomain>(op: PrePostOp, d: D, c: D::Config) -> (r: D)
    requires
        d.wf(c),
    ensures
        r == step_spec(op, d, c),
        r.wf(c),
{
    match op {
        PrePostOp::Inc => d.add(D::from_num(1, c), c),
        PrePostOp::Dec => d.sub(D::from_num(1, c), c),
    }
}

/// Evaluates an arithmetic expression in an abstract state.
pub fn eval_aexpr<D: AbstractDomain>(a: &Aexpr<D>, s: HashMapState<D>, c: D::Config) -> (r: (D, HashMapState<D>))
    requires
        s.wf(c),
        aexpr_wf(*a, c),
    ensures
        (r.0, r.1@) == eval_aexpr_spec(*a, s@, c),
        r.0.wf(c),
        r.1.wf(c),
    decreases a,
{
    match a {
        Aexpr::Lit(n) => (*n, s),
        Aexpr::Var(x) => {
            proof {
                s.lemma_get_wf(x@, c);
            }
            (s.get(x), s)
        },
        Aexpr::BinOp(op, a1, a2) => {
            let (n1, s1) = eval_aexpr(a1, s, c);
            let (n2, s2) = eval_aexpr(a2, s1, c);
            (abstract_operator(op, n1, n2, c), s2)
        },
        Aexpr::PreOp(op, x) => {
            proof {
                s.lemma_get_wf(x@, c);
            }
            let mut s = s;
            let d = step(*op, s.get(x), c);
            s.set(x.clone(), d, c);
            (d, s)
        },
        Aexpr::PostOp(op, x) => {
            proof {
                s.lemma_get_wf(x@, c);
            }
            let mut s = s;
            let d = s.get(x);
            s.set(x.clone(), step(*op, d, c), c);
            (d, s)
        },
    }
}

} // verus!
