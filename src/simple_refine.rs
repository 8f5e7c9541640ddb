use vstd::prelude::*;

use crate::ast::Var;
use crate::domain::AbstractDomain;
use crate::interval::{BoundedIntervalDomain, IntervalBounds};
use crate::state::{model_get, model_glb, model_set, HashMapState, StateModel};

verus! {

/// Refinements of an interval state by simple comparisons of variables and
/// constants, each meeting the variables with what the comparison allows.
pub type IntervalState = HashMapState<BoundedIntervalDomain>;

/// `x` met with `d`.
pub open spec fn restrict(s: StateModel<BoundedIntervalDomain>, x: Seq<char>, d: BoundedIntervalDomain, cfg: IntervalBounds) -> StateModel<BoundedIntervalDomain> {
    model_set(s, x, model_get(s, x).glb_spec(d, cfg))
}

fn restrict_exec(state: IntervalState, x: Var, d: BoundedIntervalDomain, cfg: IntervalBounds) -> (r: IntervalState)
    requires
        state.wf(cfg),
        d.wf(cfg),
    ensures
        r@ == restrict(state@, x@, d, cfg),
        r.wf(cfg),
{
    proof {
        state.lemma_get_wf(x@, cfg);
    }
    let mut state = state;
    let v = state.get(&x).glb(d, cfg);
    state.set(x, v, cfg);
    state
}

/// `x = c`.
pub fn test_eq_case_1(state: IntervalState, x: Var, c: BoundedIntervalDomain, cfg: IntervalBounds) -> (r: IntervalState)
    requires
        state.wf(cfg),
        c.wf(cfg),
    ensures
        r@ == restrict(state@, x@, c, cfg),
        r.wf(cfg),
{
    restrict_exec(state, x, c, cfg)
}

/// `x - y = c`: each variable that is neither `Bottom` nor `Top` is met with what
/// the other allows, and the two results are met.
pub fn test_eq_case_2(state: IntervalState, x: Var, y: Var, c: BoundedIntervalDomain, cfg: IntervalBounds) -> (r: IntervalState)
    requires
        state.wf(cfg),
        c.wf(cfg),
    ensures
        r@ == model_glb(
            if model_get(state@, x@) is Bottom || model_get(state@, x@) is Top {
                state@
            } else {
                restrict(state@, x@, model_get(state@, y@).add_spec(c, cfg), cfg)
            },
            if model_get(state@, y@) is Bottom || model_get(state@, y@) is Top {
                state@
            } else {
                restrict(state@, y@, model_get(state@, x@).sub_spec(c, cfg), cfg)
            },
            cfg,
        ),
        r.wf(cfg),
{
    proof {
        state.lemma_get_wf(x@, cfg);
        state.lemma_get_wf(y@, cfg);
    }
    let xv = state.get(&x);
    let yv = state.get(&y);
    let s1 = if xv == BoundedIntervalDomain::Bottom || xv == BoundedIntervalDomain::Top {
        state.duplicate()
    } else {
        restrict_exec(state.duplicate(), x, yv.add(c, cfg), cfg)
    };
    let s2 = if yv == BoundedIntervalDomain::Bottom || yv == BoundedIntervalDomain::Top {
        state
    } else {
        restrict_exec(state, y, xv.sub(c, cfg), cfg)
    };
    s1.glb(&s2, cfg)
}

/// `x <= c`.
pub fn test_lte_case_1(state: IntervalState, x: Var, c: BoundedIntervalDomain, cfg: IntervalBounds) -> (r: IntervalState)
    requires
        state.wf(cfg),
        c.wf(cfg),
    ensures
        r@ == restrict(state@, x@, c.all_lte_spec(cfg), cfg),
        r.wf(cfg),
{
    restrict_exec(state, x, c.all_lte(cfg), cfg)
}

/// `x <= y`.
pub fn test_lte_case_2(state: IntervalState, x: Var, y: Var, cfg: IntervalBounds) -> (r: IntervalState)
    requires
        state.wf(cfg),
    ensures
        r@ == restrict(
            restrict(state@, x@, model_get(state@, y@).all_lte_spec(cfg), cfg),
            y@,
            model_get(state@, x@).all_gte_spec(cfg),
            cfg,
        ),
        r.wf(cfg),
{
    proof {
        state.lemma_get_wf(x@, cfg);
        state.lemma_get_wf(y@, cfg);
    }
    let xv = state.get(&x);
    let yv = state.get(&y);
    let s = restrict_exec(state, x, yv.all_lte(cfg), cfg);
    restrict_exec(s, y, xv.all_gte(cfg), cfg)
}

/// `x >= c`.
pub fn test_gte_case_1(state: IntervalState, x: Var, c: BoundedIntervalDomain, cfg: IntervalBounds) -> (r: IntervalState)
    requires
        state.wf(cfg),
        c.wf(cfg),
    ensures
        r@ == restrict(state@, x@, c.all_gte_spec(cfg), cfg),
        r.wf(cfg),
{
    restrict_exec(state, x, c.all_gte(cfg), cfg)
}

/// `x < c`.
pub fn test_lt_case_1(state: IntervalState, x: Var, c: BoundedIntervalDomain, cfg: IntervalBounds) -> (r: IntervalState)
    requires
        state.wf(cfg),
        c.wf(cfg),
    ensures
        r@ == restrict(state@, x@, c.all_lt_spec(cfg), cfg),
        r.wf(cfg),
{
    restrict_exec(state, x, c.all_lt(cfg), cfg)
}

/// `x > c`.
pub fn test_gt_case_1(state: IntervalState, x: Var, c: BoundedIntervalDomain, cfg: IntervalBounds) -> (r: IntervalState)
    requires
        state.wf(cfg),
        c.wf(cfg),
    ensures
        r@ == restrict(state@, x@, c.all_gt_spec(cfg), cfg),
        r.wf(cfg),
{
    restrict_exec(state, x, c.all_gt(cfg), cfg)
}

/// `x > y`.
pub fn test_gt_case_2(state: IntervalState, x: Var, y: Var, cfg: IntervalBounds) -> (r: IntervalState)
    requires
        state.wf(cfg),
    ensures
        r@ == restrict(
            restrict(state@, x@, model_get(state@, y@).all_gt_spec(cfg), cfg),
            y@,
            model_get(state@, x@).all_lt_spec(cfg),
            cfg,
        ),
        r.wf(cfg),
{
    proof {
        state.lemma_get_wf(x@, cfg);
        state.lemma_get_wf(y@, cfg);
    }
    let xv = state.get(&x);
    let yv = state.get(&y);
    let s = restrict_exec(state, x, yv.all_gt(cfg), cfg);
    restrict_exec(s, y, xv.all_lt(cfg), cfg)
}

/// `x != c`: the join of the values of `x` below and above `c`.
pub fn test_neq_case_1(state: IntervalState, x: Var, c: BoundedIntervalDomain, cfg: IntervalBounds) -> (r: IntervalState)
    requires
        state.wf(cfg),
        c.wf(cfg),
    ensures
        r@ == model_set(
            state@,
            x@,
            model_get(state@, x@).glb_spec(c.all_lt_spec(cfg), cfg).lub_spec(
                model_get(state@, x@).glb_spec(c.all_gt_spec(cfg), cfg),
                cfg,
            ),
        ),
        r.wf(cfg),
{
    proof {
        state.lemma_get_wf(x@, cfg);
    }
    let mut state = state;
    let xv = state.get(&x);
    let left = xv.glb(c.all_lt(cfg), cfg);
    let right = xv.glb(c.all_gt(cfg), cfg);
    state.set(x, left.lub(right, cfg), cfg);
    state
}

} // verus!
