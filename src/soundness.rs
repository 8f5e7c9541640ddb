use vstd::prelude::*;

use crate::ast::{Aexpr, Bexpr, LitInterval, Operator};
use crate::domain::AbstractDomain;
use crate::interpreter::{aexpr_value, bexpr_value, concrete_aexpr, concrete_bexpr, Store};
use crate::interval::{contains, lemma_interval_add_sub_sound, BoundedIntervalDomain, IntervalBounds};
use crate::semantics::eval_aexpr_spec;
use crate::analyzer::apply_spec;
use crate::program::Command;
use crate::state::{collapse, merge_maps, model_get, model_glb, model_lub, model_set, model_wf, Combine, StateModel};
use crate::translate::{translate_bexpr_spec, translate_command_spec};
use crate::refine::{critical_spec, difference_spec, eval_bexpr_spec, occ_a, occ_b, post_a, pre_a, prepost_b, refine_b, refine_spec, rounds_spec, target_spec, tree_spec, REFINE_ROUNDS};
use crate::ext_num::ExtendedNum;
use crate::translate::translate_aexpr_spec;

verus! {

/// An interval state describes a concrete store: it is reachable and each variable
/// it binds is assigned in the store, to a value in its interval.
pub open spec fn describes(s: StateModel<BoundedIntervalDomain>, m: Store) -> bool {
    match s {
        None => false,
        Some(am) => forall|k: Seq<char>| #[trigger] am.contains_key(k) ==> m.contains_key(k) && contains(am[k], m[k] as int),
    }
}

/// Expressions built from literals, variables and the four operators, without
/// increments or decrements.
pub open spec fn pure_aexpr(a: Aexpr<LitInterval>) -> bool
    decreases a,
{
    match a {
        Aexpr::Lit(_) | Aexpr::Var(_) => true,
        Aexpr::BinOp(op, a1, a2) => pure_aexpr(*a1) && pure_aexpr(*a2),
        _ => false,
    }
}

/// Forward evaluation in the interval domain is sound for expressions without increments:
/// when a concrete run of the expression in a store described by the abstract
/// state yields a value, the abstract value contains it, and the state is unchanged.
#[verifier::rlimit(60)]
pub proof fn lemma_interval_eval_sound(
    a: Aexpr<LitInterval>,
    s: StateModel<BoundedIntervalDomain>,
    m: Store,
    c: IntervalBounds,
)
    requires
        pure_aexpr(a),
        model_wf(s, c),
        describes(s, m),
        concrete_aexpr(a) is Some,
    ensures
        aexpr_value(concrete_aexpr(a)->Some_0, m) matches Ok(v) ==> contains(
            eval_aexpr_spec(translate_aexpr_spec::<BoundedIntervalDomain>(a, c), s, c).0,
            v as int,
        ),
        eval_aexpr_spec(translate_aexpr_spec::<BoundedIntervalDomain>(a, c), s, c).1 == s,
        eval_aexpr_spec(translate_aexpr_spec::<BoundedIntervalDomain>(a, c), s, c).0.wf(c),
    decreases a,
{
    BoundedIntervalDomain::lemma_bottom_top_wf(c);
    match a {
        Aexpr::Lit(n) => {},
        Aexpr::Var(x) => {
            let am = s->Some_0;
            if am.contains_key(x@) {
                assert(am[x@].wf(c));
            }
        },
        Aexpr::BinOp(op, a1, a2) => {
            lemma_interval_eval_sound(*a1, s, m, c);
            lemma_interval_eval_sound(*a2, s, m, c);
            let r1 = eval_aexpr_spec(translate_aexpr_spec::<BoundedIntervalDomain>(*a1, c), s, c);
            let r2 = eval_aexpr_spec(translate_aexpr_spec::<BoundedIntervalDomain>(*a2, c), s, c);
            lemma_wf_add_sub(r1.0, r2.0, c);
            match (aexpr_value(concrete_aexpr(*a1)->Some_0, m), aexpr_value(concrete_aexpr(*a2)->Some_0, m)) {
                (Ok(v1), Ok(v2)) => {
                    match op {
                        Operator::Add | Operator::Sub => {
                            lemma_interval_add_sub_sound(r1.0, r2.0, c, v1 as int, v2 as int);
                        },
                        Operator::Mul => {
                            crate::interval::lemma_interval_mul_sound(r1.0, r2.0, c, v1 as int, v2 as int);
                        },
                        Operator::Div => {},
                    }
                },
                _ => {},
            }
        },
        _ => {},
    }
}

/// An assignment of an expression without increments is sound: from a store described by
/// the state, the concrete assignment (when it yields a value) leads to a store
/// described by the abstract result.
pub proof fn lemma_interval_assign_sound(
    x: crate::ast::Var,
    a: Aexpr<LitInterval>,
    s: StateModel<BoundedIntervalDomain>,
    m: Store,
    c: IntervalBounds,
)
    requires
        pure_aexpr(a),
        model_wf(s, c),
        describes(s, m),
        concrete_aexpr(a) is Some,
    ensures
        aexpr_value(concrete_aexpr(a)->Some_0, m) matches Ok(v) ==> describes(
            apply_spec(translate_command_spec::<BoundedIntervalDomain>(Command::Assignment(x, a), c), s, c),
            m.insert(x@, v),
        ),
{
    lemma_interval_eval_sound(a, s, m, c);
    if let Ok(v) = aexpr_value(concrete_aexpr(a)->Some_0, m) {
        let r = eval_aexpr_spec(translate_aexpr_spec::<BoundedIntervalDomain>(a, c), s, c);
        let am = s->Some_0;
        let post = apply_spec(translate_command_spec::<BoundedIntervalDomain>(Command::Assignment(x, a), c), s, c);
        assert(post == model_set(s, x@, r.0));
        assert(post == Some(am.insert(x@, r.0)));
        let m2 = m.insert(x@, v);
        assert forall|k: Seq<char>| #[trigger] post->Some_0.contains_key(k) implies m2.contains_key(k) && contains(post->Some_0[k], m2[k] as int) by {
            if k != x@ {
                assert(am.contains_key(k));
            }
        }
    }
}

/// The exact integer value of an expression without increments in a store, if
/// its literals are single numbers, its variables are assigned and it divides by
/// no zero (division truncates).
pub open spec fn ival(a: Aexpr<LitInterval>, m: Store) -> Option<int>
    decreases a,
{
    match a {
        Aexpr::Lit(n) => if n.0 == n.1 { Some(n.0 as int) } else { None },
        Aexpr::Var(x) => if m.contains_key(x@) { Some(m[x@] as int) } else { None },
        Aexpr::BinOp(op, a1, a2) => match (ival(*a1, m), ival(*a2, m)) {
            (Some(v1), Some(v2)) => match op {
                Operator::Add => Some(v1 + v2),
                Operator::Sub => Some(v1 - v2),
                Operator::Mul => Some(v1 * v2),
                Operator::Div => if v2 != 0 { Some(crate::ext_num::trunc_div(v1, v2)) } else { None },
            },
            _ => None,
        },
        _ => None,
    }
}

/// A run of the concrete interpreter on an expression without increments computes its exact
/// value, the one the soundness statements speak of.
pub proof fn lemma_ival_of_run(a: Aexpr<LitInterval>, m: Store)
    requires
        pure_aexpr(a),
        concrete_aexpr(a) is Some,
    ensures
        aexpr_value(concrete_aexpr(a)->Some_0, m) matches Ok(v) ==> ival(a, m) == Some(v as int),
    decreases a,
{
    if let Aexpr::BinOp(_, a1, a2) = a {
        lemma_ival_of_run(*a1, m);
        lemma_ival_of_run(*a2, m);
    }
}

/// Every value of the evaluation tree of an expression without increments contains the
/// exact value of the expression in a store the state describes.
proof fn lemma_tree_sound(a: Aexpr<LitInterval>, s: StateModel<BoundedIntervalDomain>, m: Store, c: IntervalBounds)
    requires
        pure_aexpr(a),
        model_wf(s, c),
        describes(s, m),
    ensures
        crate::refine::tree_wf(tree_spec(translate_aexpr_spec::<BoundedIntervalDomain>(a, c), s, c), c),
        ival(a, m) matches Some(v) ==> contains(tree_spec(translate_aexpr_spec::<BoundedIntervalDomain>(a, c), s, c).value(), v),
    decreases a,
{
    BoundedIntervalDomain::lemma_bottom_top_wf(c);
    match a {
        Aexpr::Var(x) => {
            let am = s->Some_0;
            if am.contains_key(x@) {
                assert(am[x@].wf(c));
            }
        },
        Aexpr::BinOp(op, a1, a2) => {
            lemma_tree_sound(*a1, s, m, c);
            lemma_tree_sound(*a2, s, m, c);
            let t1 = tree_spec(translate_aexpr_spec::<BoundedIntervalDomain>(*a1, c), s, c);
            let t2 = tree_spec(translate_aexpr_spec::<BoundedIntervalDomain>(*a2, c), s, c);
            crate::refine::lemma_tree_value_wf(t1, c);
            crate::refine::lemma_tree_value_wf(t2, c);
            lemma_wf_add_sub(t1.value(), t2.value(), c);
            if let (Some(v1), Some(v2)) = (ival(*a1, m), ival(*a2, m)) {
                crate::interval::lemma_interval_add_sub_sound(t1.value(), t2.value(), c, v1, v2);
                crate::interval::lemma_interval_mul_sound(t1.value(), t2.value(), c, v1, v2);
                if v2 != 0 {
                    crate::interval::lemma_interval_div_sound(t1.value(), t2.value(), c, v1, v2);
                }
            }
        },
        _ => {},
    }
}

proof fn lemma_wf_add_sub(x: BoundedIntervalDomain, y: BoundedIntervalDomain, c: IntervalBounds)
    requires
        x.wf(c),
        y.wf(c),
    ensures
        x.spec_add(y, c).wf(c),
        x.spec_sub(y, c).wf(c),
        x.spec_mul(y, c).wf(c),
        x.spec_div(y, c).wf(c),
        x.spec_glb(y, c).wf(c),
{
    crate::interval::lemma_interval_mul_div_wf(x, y, c);
}

/// The backward operators give well-formed elements.
proof fn lemma_backward_wf(op: Operator, x: BoundedIntervalDomain, y: BoundedIntervalDomain, res: BoundedIntervalDomain, c: IntervalBounds)
    requires
        x.wf(c),
        y.wf(c),
        res.wf(c),
    ensures
        crate::domain::spec_backward_abstract_operator(op, x, y, res, c).0.wf(c),
        crate::domain::spec_backward_abstract_operator(op, x, y, res, c).1.wf(c),
{
    let one = BoundedIntervalDomain::spec_from_interval(crate::domain::Interval::Closed(-1i128, 1i128), c);
    crate::interval::lemma_mk_sound(ExtendedNum::Num(-1i128), ExtendedNum::Num(1i128), c, 0);
    lemma_wf_add_sub(res, one, c);
    lemma_wf_add_sub(res.spec_add(one, c), y, c);
    lemma_wf_add_sub(x, res.spec_add(one, c).spec_mul(y, c), c);
    lemma_wf_add_sub(res, y, c);
    lemma_wf_add_sub(res, x, c);
    lemma_wf_add_sub(x, res, c);
    lemma_wf_add_sub(x, res.spec_sub(y, c), c);
    lemma_wf_add_sub(y, res.spec_sub(x, c), c);
    lemma_wf_add_sub(x, res.spec_add(y, c), c);
    lemma_wf_add_sub(y, x.spec_sub(res, c), c);
    lemma_wf_add_sub(x, res.spec_div(y, c), c);
    lemma_wf_add_sub(y, res.spec_div(x, c), c);
}

/// Backward refinement by an expression without increments is sound: if its exact value lies
/// in `target`, refining a state that describes the store gives a state that
/// still describes it.
proof fn lemma_refine_sound(
    a: Aexpr<LitInterval>,
    s0: StateModel<BoundedIntervalDomain>,
    s: StateModel<BoundedIntervalDomain>,
    target: BoundedIntervalDomain,
    m: Store,
    c: IntervalBounds,
)
    requires
        pure_aexpr(a),
        model_wf(s0, c),
        describes(s0, m),
        model_wf(s, c),
        describes(s, m),
        target.wf(c),
        ival(a, m) matches Some(v) && contains(target, v),
    ensures
        model_wf(refine_spec(tree_spec(translate_aexpr_spec::<BoundedIntervalDomain>(a, c), s0, c), s, target, c), c),
        describes(refine_spec(tree_spec(translate_aexpr_spec::<BoundedIntervalDomain>(a, c), s0, c), s, target, c), m),
    decreases a,
{
    BoundedIntervalDomain::lemma_bottom_top_wf(c);
    match a {
        Aexpr::Var(x) => {
            let am = s->Some_0;
            let old_v = model_get(s, x@);
            if am.contains_key(x@) {
                assert(am[x@].wf(c));
            }
            lemma_wf_add_sub(old_v, target, c);
            crate::interval::lemma_interval_lub_glb_sound(old_v, target, c, m[x@] as int);
            let r = refine_spec(tree_spec(translate_aexpr_spec::<BoundedIntervalDomain>(a, c), s0, c), s, target, c);
            assert(r == Some(am.insert(x@, old_v.spec_glb(target, c))));
            assert forall|k: Seq<char>| #[trigger] r->Some_0.contains_key(k) implies m.contains_key(k) && contains(r->Some_0[k], m[k] as int) by {
                if k != x@ {
                    assert(am.contains_key(k));
                }
            }
            let rm = r->Some_0;
            assert(rm.dom() =~= am.dom().insert(x@));
        },
        Aexpr::BinOp(op, a1, a2) => {
            lemma_tree_sound(*a1, s0, m, c);
            lemma_tree_sound(*a2, s0, m, c);
            let t1 = tree_spec(translate_aexpr_spec::<BoundedIntervalDomain>(*a1, c), s0, c);
            let t2 = tree_spec(translate_aexpr_spec::<BoundedIntervalDomain>(*a2, c), s0, c);
            crate::refine::lemma_tree_value_wf(t1, c);
            crate::refine::lemma_tree_value_wf(t2, c);
            let v1 = ival(*a1, m)->Some_0;
            let v2 = ival(*a2, m)->Some_0;
            match op {
                Operator::Add | Operator::Sub => {
                    crate::interval::lemma_interval_backward_add_sub_sound(t1.value(), t2.value(), target, c, v1, v2);
                },
                Operator::Mul => {
                    crate::interval::lemma_interval_backward_mul_sound(t1.value(), t2.value(), target, c, v1, v2);
                },
                Operator::Div => {
                    crate::interval::lemma_interval_backward_div_sound(t1.value(), t2.value(), target, c, v1, v2);
                },
            }
            let p = crate::domain::spec_backward_abstract_operator(op, t1.value(), t2.value(), target, c);
            lemma_backward_wf(op, t1.value(), t2.value(), target, c);
            lemma_refine_sound(*a1, s0, s, p.0, m, c);
            let s1 = refine_spec(t1, s, p.0, c);
            lemma_refine_sound(*a2, s0, s1, p.1, m, c);
        },
        _ => {},
    }
}

/// The exact value of a comparison in a store.
pub open spec fn comparison_holds(b: Bexpr<LitInterval>, m: Store) -> Option<bool> {
    match b {
        Bexpr::Equal(a1, a2) => match (ival(*a1, m), ival(*a2, m)) {
            (Some(v1), Some(v2)) => Some(v1 == v2),
            _ => None,
        },
        Bexpr::LessEq(a1, a2) => match (ival(*a1, m), ival(*a2, m)) {
            (Some(v1), Some(v2)) => Some(v1 <= v2),
            _ => None,
        },
        _ => None,
    }
}

/// Refinement by a comparison of expressions without increments is sound without bounds:
/// when the comparison (or, if `negated`, its negation) holds in a store the state
/// describes, the refined state still describes it.
pub proof fn lemma_interval_comparison_sound(
    b: Bexpr<LitInterval>,
    s: StateModel<BoundedIntervalDomain>,
    m: Store,
    negated: bool,
    c: IntervalBounds,
)
    requires
        c.lower == ExtendedNum::NegInf,
        c.upper == ExtendedNum::PosInf,
        b is Equal || b is LessEq,
        match b {
            Bexpr::Equal(a1, a2) | Bexpr::LessEq(a1, a2) => pure_aexpr(*a1) && pure_aexpr(*a2),
            _ => false,
        },
        model_wf(s, c),
        describes(s, m),
        comparison_holds(b, m) == Some(!negated),
    ensures
        describes(refine_b(translate_bexpr_spec::<BoundedIntervalDomain>(b, c), s, negated, c), m),
{
    BoundedIntervalDomain::lemma_bottom_top_wf(c);
    match b {
        Bexpr::Equal(a1, a2) | Bexpr::LessEq(a1, a2) => {
            let t1 = translate_aexpr_spec::<BoundedIntervalDomain>(*a1, c);
            let t2 = translate_aexpr_spec::<BoundedIntervalDomain>(*a2, c);
            let v1 = ival(*a1, m)->Some_0;
            let v2 = ival(*a2, m)->Some_0;
            let equal = b is Equal;
            let target = target_spec::<BoundedIntervalDomain>(equal, negated, c);
            let diff = Aexpr::BinOp(Operator::Sub, a1, a2);
            assert(translate_aexpr_spec::<BoundedIntervalDomain>(diff, c) == Aexpr::<BoundedIntervalDomain>::BinOp(
                Operator::Sub,
                Box::new(t1),
                Box::new(t2),
            ));
            if difference_spec(t1, t2, c) == t1 {
                if t2 != Aexpr::<BoundedIntervalDomain>::BinOp(Operator::Sub, Box::new(t1), Box::new(t2)) {
                    assert(v2 == 0);
                }
            }
            assert(contains(target, v1 - v2));
            if difference_spec(t1, t2, c) == t1 && v2 == 0 {
                lemma_refine_sound(*a1, s, s, target, m, c);
            } else {
                lemma_refine_sound(diff, s, s, target, m, c);
            }
        },
        _ => {},
    }
}

/// The meet of two states that describe a store describes it.
proof fn lemma_glb_describes(s1: StateModel<BoundedIntervalDomain>, s2: StateModel<BoundedIntervalDomain>, m: Store, c: IntervalBounds)
    requires
        model_wf(s1, c),
        model_wf(s2, c),
        describes(s1, m),
        describes(s2, m),
    ensures
        model_wf(model_glb(s1, s2, c), c),
        describes(model_glb(s1, s2, c), m),
{
    let am1 = s1->Some_0;
    let am2 = s2->Some_0;
    let mm = merge_maps(Combine::Meet, am1, am2, c);
    assert forall|k: Seq<char>| #[trigger] mm.contains_key(k) implies mm[k].wf(c) && mm[k] != BoundedIntervalDomain::spec_bottom()
        && m.contains_key(k) && contains(mm[k], m[k] as int) by {
        if am1.contains_key(k) && am2.contains_key(k) {
            crate::interval::lemma_interval_lub_glb_sound(am1[k], am2[k], c, m[k] as int);
            lemma_wf_add_sub(am1[k], am2[k], c);
        }
    }
    assert(collapse(mm) == Some(mm));
}

/// The join of two states one of which describes a store describes it.
proof fn lemma_lub_describes(s1: StateModel<BoundedIntervalDomain>, s2: StateModel<BoundedIntervalDomain>, m: Store, c: IntervalBounds)
    requires
        model_wf(s1, c),
        model_wf(s2, c),
        describes(s1, m) || describes(s2, m),
    ensures
        model_wf(model_lub(s1, s2, c), c),
        describes(model_lub(s1, s2, c), m),
{
    if s1 is Some && s2 is Some {
        let am1 = s1->Some_0;
        let am2 = s2->Some_0;
        let mm = Map::new(
            |k: Seq<char>| am1.contains_key(k) && am2.contains_key(k),
            |k: Seq<char>| am1[k].spec_lub(am2[k], c),
        );
        assert forall|k: Seq<char>| #[trigger] mm.contains_key(k) implies mm[k].wf(c) && mm[k] != BoundedIntervalDomain::spec_bottom()
            && m.contains_key(k) && contains(mm[k], m[k] as int) by {
            crate::interval::lemma_interval_lub_glb_sound(am1[k], am2[k], c, m[k] as int);
            assert(am1[k].spec_lub(am2[k], c).wf(c));
        }
        assert(collapse(mm) == Some(mm));
    }
}

/// Conditions built from `true`, `false`, comparisons of expressions without increments,
/// `not` and `and`.
pub open spec fn pure_test(b: Bexpr<LitInterval>) -> bool
    decreases b,
{
    match b {
        Bexpr::True | Bexpr::False => true,
        Bexpr::Equal(a1, a2) | Bexpr::LessEq(a1, a2) => pure_aexpr(*a1) && pure_aexpr(*a2),
        Bexpr::Not(b1) => pure_test(*b1),
        Bexpr::And(b1, b2) => pure_test(*b1) && pure_test(*b2),
    }
}

/// The exact truth of a condition in a store (both sides of `and` evaluated).
pub open spec fn bval(b: Bexpr<LitInterval>, m: Store) -> Option<bool>
    decreases b,
{
    match b {
        Bexpr::True => Some(true),
        Bexpr::False => Some(false),
        Bexpr::Equal(_, _) | Bexpr::LessEq(_, _) => comparison_holds(b, m),
        Bexpr::Not(b1) => match bval(*b1, m) {
            Some(v) => Some(!v),
            None => None,
        },
        Bexpr::And(b1, b2) => match (bval(*b1, m), bval(*b2, m)) {
            (Some(v1), Some(v2)) => Some(v1 && v2),
            _ => None,
        },
    }
}

/// One round of refinement is sound: when the condition (or, if `negated`, its
/// negation) holds in a store the state describes, the refined state describes it.
pub proof fn lemma_refine_b_sound(
    b: Bexpr<LitInterval>,
    s: StateModel<BoundedIntervalDomain>,
    m: Store,
    negated: bool,
    c: IntervalBounds,
)
    requires
        c.lower == ExtendedNum::NegInf,
        c.upper == ExtendedNum::PosInf,
        pure_test(b),
        model_wf(s, c),
        describes(s, m),
        bval(b, m) == Some(!negated),
    ensures
        model_wf(refine_b(translate_bexpr_spec::<BoundedIntervalDomain>(b, c), s, negated, c), c),
        describes(refine_b(translate_bexpr_spec::<BoundedIntervalDomain>(b, c), s, negated, c), m),
    decreases b,
{
    match b {
        Bexpr::True | Bexpr::False => {},
        Bexpr::Equal(_, _) | Bexpr::LessEq(_, _) => {
            lemma_interval_comparison_sound(b, s, m, negated, c);
            lemma_refine_comparison_wf(b, s, negated, c);
        },
        Bexpr::Not(b1) => {
            lemma_refine_b_sound(*b1, s, m, !negated, c);
        },
        Bexpr::And(b1, b2) => {
            let r1 = refine_b(translate_bexpr_spec::<BoundedIntervalDomain>(*b1, c), s, negated, c);
            let r2 = refine_b(translate_bexpr_spec::<BoundedIntervalDomain>(*b2, c), s, negated, c);
            lemma_refine_b_wf(*b1, s, negated, c);
            lemma_refine_b_wf(*b2, s, negated, c);
            if !negated {
                lemma_refine_b_sound(*b1, s, m, negated, c);
                lemma_refine_b_sound(*b2, s, m, negated, c);
                lemma_glb_describes(r1, r2, m, c);
            } else {
                if bval(*b1, m) == Some(false) {
                    lemma_refine_b_sound(*b1, s, m, negated, c);
                } else {
                    lemma_refine_b_sound(*b2, s, m, negated, c);
                }
                lemma_lub_describes(r1, r2, m, c);
            }
        },
    }
}

/// Refinement keeps states well formed.
proof fn lemma_refine_b_wf(b: Bexpr<LitInterval>, s: StateModel<BoundedIntervalDomain>, negated: bool, c: IntervalBounds)
    requires
        pure_test(b),
        model_wf(s, c),
    ensures
        model_wf(refine_b(translate_bexpr_spec::<BoundedIntervalDomain>(b, c), s, negated, c), c),
    decreases b,
{
    match b {
        Bexpr::Equal(_, _) | Bexpr::LessEq(_, _) => {
            lemma_refine_comparison_wf(b, s, negated, c);
        },
        Bexpr::Not(b1) => {
            lemma_refine_b_wf(*b1, s, !negated, c);
        },
        Bexpr::And(b1, b2) => {
            lemma_refine_b_wf(*b1, s, negated, c);
            lemma_refine_b_wf(*b2, s, negated, c);
            let r1 = refine_b(translate_bexpr_spec::<BoundedIntervalDomain>(*b1, c), s, negated, c);
            let r2 = refine_b(translate_bexpr_spec::<BoundedIntervalDomain>(*b2, c), s, negated, c);
            lemma_lub_glb_wf(r1, r2, c);
        },
        _ => {},
    }
}

/// The join and the meet of well-formed states are well formed.
proof fn lemma_lub_glb_wf(s1: StateModel<BoundedIntervalDomain>, s2: StateModel<BoundedIntervalDomain>, c: IntervalBounds)
    requires
        model_wf(s1, c),
        model_wf(s2, c),
    ensures
        model_wf(model_lub(s1, s2, c), c),
        model_wf(model_glb(s1, s2, c), c),
{
    if s1 is Some && s2 is Some {
        let am1 = s1->Some_0;
        let am2 = s2->Some_0;
        let mm = merge_maps(Combine::Meet, am1, am2, c);
        assert forall|k: Seq<char>| #[trigger] mm.contains_key(k) implies mm[k].wf(c) by {
            if am1.contains_key(k) && am2.contains_key(k) {
                lemma_wf_add_sub(am1[k], am2[k], c);
            }
        }
        let jm = Map::new(
            |k: Seq<char>| am1.contains_key(k) && am2.contains_key(k),
            |k: Seq<char>| am1[k].spec_lub(am2[k], c),
        );
        assert forall|k: Seq<char>| #[trigger] jm.contains_key(k) implies jm[k].wf(c) by {
            assert(am1[k].spec_lub(am2[k], c).wf(c));
        }
    }
}

/// Every value of the evaluation tree is well formed.
proof fn lemma_tree_wf(a: Aexpr<LitInterval>, s: StateModel<BoundedIntervalDomain>, c: IntervalBounds)
    requires
        pure_aexpr(a),
        model_wf(s, c),
    ensures
        crate::refine::tree_wf(tree_spec(translate_aexpr_spec::<BoundedIntervalDomain>(a, c), s, c), c),
    decreases a,
{
    BoundedIntervalDomain::lemma_bottom_top_wf(c);
    match a {
        Aexpr::Var(x) => {
            if s is Some && s->Some_0.contains_key(x@) {
                assert(s->Some_0[x@].wf(c));
            }
        },
        Aexpr::BinOp(op, a1, a2) => {
            lemma_tree_wf(*a1, s, c);
            lemma_tree_wf(*a2, s, c);
            let t1 = tree_spec(translate_aexpr_spec::<BoundedIntervalDomain>(*a1, c), s, c);
            let t2 = tree_spec(translate_aexpr_spec::<BoundedIntervalDomain>(*a2, c), s, c);
            crate::refine::lemma_tree_value_wf(t1, c);
            crate::refine::lemma_tree_value_wf(t2, c);
            lemma_wf_add_sub(t1.value(), t2.value(), c);
        },
        _ => {},
    }
}

/// Backward refinement keeps states well formed.
proof fn lemma_refine_wf(
    a: Aexpr<LitInterval>,
    s0: StateModel<BoundedIntervalDomain>,
    s: StateModel<BoundedIntervalDomain>,
    target: BoundedIntervalDomain,
    c: IntervalBounds,
)
    requires
        pure_aexpr(a),
        model_wf(s0, c),
        model_wf(s, c),
        target.wf(c),
    ensures
        model_wf(refine_spec(tree_spec(translate_aexpr_spec::<BoundedIntervalDomain>(a, c), s0, c), s, target, c), c),
    decreases a,
{
    BoundedIntervalDomain::lemma_bottom_top_wf(c);
    match a {
        Aexpr::Var(x) => {
            if s is Some && s->Some_0.contains_key(x@) {
                assert(s->Some_0[x@].wf(c));
            }
            lemma_wf_add_sub(model_get(s, x@), target, c);
        },
        Aexpr::BinOp(op, a1, a2) => {
            lemma_tree_wf(*a1, s0, c);
            lemma_tree_wf(*a2, s0, c);
            let t1 = tree_spec(translate_aexpr_spec::<BoundedIntervalDomain>(*a1, c), s0, c);
            let t2 = tree_spec(translate_aexpr_spec::<BoundedIntervalDomain>(*a2, c), s0, c);
            crate::refine::lemma_tree_value_wf(t1, c);
            crate::refine::lemma_tree_value_wf(t2, c);
            let p = crate::domain::spec_backward_abstract_operator(op, t1.value(), t2.value(), target, c);
            lemma_backward_wf(op, t1.value(), t2.value(), target, c);
            lemma_refine_wf(*a1, s0, s, p.0, c);
            let s1 = refine_spec(t1, s, p.0, c);
            lemma_refine_wf(*a2, s0, s1, p.1, c);
        },
        _ => {},
    }
}

/// Refinement by a comparison keeps states well formed.
proof fn lemma_refine_comparison_wf(b: Bexpr<LitInterval>, s: StateModel<BoundedIntervalDomain>, negated: bool, c: IntervalBounds)
    requires
        b is Equal || b is LessEq,
        pure_test(b),
        model_wf(s, c),
    ensures
        model_wf(refine_b(translate_bexpr_spec::<BoundedIntervalDomain>(b, c), s, negated, c), c),
{
    match b {
        Bexpr::Equal(a1, a2) | Bexpr::LessEq(a1, a2) => {
            let t1 = translate_aexpr_spec::<BoundedIntervalDomain>(*a1, c);
            let t2 = translate_aexpr_spec::<BoundedIntervalDomain>(*a2, c);
            let target = target_spec::<BoundedIntervalDomain>(b is Equal, negated, c);
            let diff = Aexpr::BinOp(Operator::Sub, a1, a2);
            assert(translate_aexpr_spec::<BoundedIntervalDomain>(diff, c) == Aexpr::<BoundedIntervalDomain>::BinOp(
                Operator::Sub,
                Box::new(t1),
                Box::new(t2),
            ));
            assert(target.wf(c));
            if difference_spec(t1, t2, c) == t1 {
                lemma_refine_wf(*a1, s, s, target, c);
            } else {
                lemma_refine_wf(diff, s, s, target, c);
            }
        },
        _ => {},
    }
}

proof fn lemma_rounds_sound(b: Bexpr<LitInterval>, s: StateModel<BoundedIntervalDomain>, fuel: nat, m: Store, c: IntervalBounds)
    requires
        c.lower == ExtendedNum::NegInf,
        c.upper == ExtendedNum::PosInf,
        pure_test(b),
        model_wf(s, c),
        describes(s, m),
        bval(b, m) == Some(true),
    ensures
        describes(rounds_spec(translate_bexpr_spec::<BoundedIntervalDomain>(b, c), s, fuel, c), m),
    decreases fuel,
{
    let tb = translate_bexpr_spec::<BoundedIntervalDomain>(b, c);
    let n = refine_b(tb, s, false, c);
    lemma_refine_b_sound(b, s, m, false, c);
    lemma_glb_describes(s, n, m, c);
    if n != s && fuel > 0 {
        lemma_rounds_sound(b, model_glb(s, n, c), (fuel - 1) as nat, m, c);
    }
}

proof fn lemma_prepost_a_identity(a: Aexpr<LitInterval>, s: StateModel<BoundedIntervalDomain>, c: IntervalBounds)
    requires
        pure_aexpr(a),
    ensures
        pre_a(translate_aexpr_spec::<BoundedIntervalDomain>(a, c), s, c) == s,
        post_a(translate_aexpr_spec::<BoundedIntervalDomain>(a, c), s, c) == s,
        forall|i: int| 0 <= i < occ_a(translate_aexpr_spec::<BoundedIntervalDomain>(a, c)).len()
            ==> !(#[trigger] occ_a(translate_aexpr_spec::<BoundedIntervalDomain>(a, c))[i]).1,
    decreases a,
{
    if let Aexpr::BinOp(_, a1, a2) = a {
        lemma_prepost_a_identity(*a1, s, c);
        lemma_prepost_a_identity(*a2, s, c);
        let o1 = occ_a(translate_aexpr_spec::<BoundedIntervalDomain>(*a1, c));
        let o2 = occ_a(translate_aexpr_spec::<BoundedIntervalDomain>(*a2, c));
        assert forall|i: int| 0 <= i < (o1 + o2).len() implies !(#[trigger] (o1 + o2)[i]).1 by {
            if i >= o1.len() {
                assert((o1 + o2)[i] == o2[i - o1.len()]);
            }
        }
    }
}

proof fn lemma_occ_pair(a1: Aexpr<LitInterval>, a2: Aexpr<LitInterval>, s: StateModel<BoundedIntervalDomain>, c: IntervalBounds)
    requires
        pure_aexpr(a1),
        pure_aexpr(a2),
    ensures
        pre_a(translate_aexpr_spec::<BoundedIntervalDomain>(a2, c), pre_a(translate_aexpr_spec::<BoundedIntervalDomain>(a1, c), s, c), c) == s,
        post_a(translate_aexpr_spec::<BoundedIntervalDomain>(a2, c), post_a(translate_aexpr_spec::<BoundedIntervalDomain>(a1, c), s, c), c) == s,
        forall|i: int| 0 <= i < (occ_a(translate_aexpr_spec::<BoundedIntervalDomain>(a1, c)) + occ_a(translate_aexpr_spec::<BoundedIntervalDomain>(a2, c))).len()
            ==> !(#[trigger] (occ_a(translate_aexpr_spec::<BoundedIntervalDomain>(a1, c)) + occ_a(translate_aexpr_spec::<BoundedIntervalDomain>(a2, c)))[i]).1,
{
    lemma_prepost_a_identity(a1, s, c);
    lemma_prepost_a_identity(a2, s, c);
    let o1 = occ_a(translate_aexpr_spec::<BoundedIntervalDomain>(a1, c));
    let o2 = occ_a(translate_aexpr_spec::<BoundedIntervalDomain>(a2, c));
    assert forall|i: int| 0 <= i < (o1 + o2).len() implies !(#[trigger] (o1 + o2)[i]).1 by {
        if i >= o1.len() {
            assert((o1 + o2)[i] == o2[i - o1.len()]);
        } else {
            assert((o1 + o2)[i] == o1[i]);
        }
    }
}

proof fn lemma_prepost_b_identity(b: Bexpr<LitInterval>, s: StateModel<BoundedIntervalDomain>, pre: bool, c: IntervalBounds)
    requires
        pure_test(b),
    ensures
        prepost_b(translate_bexpr_spec::<BoundedIntervalDomain>(b, c), s, pre, c) == s,
    decreases b,
{
    match b {
        Bexpr::Equal(a1, a2) => {
            lemma_occ_pair(*a1, *a2, s, c);
        },
        Bexpr::LessEq(a1, a2) => {
            lemma_occ_pair(*a1, *a2, s, c);
        },
        Bexpr::Not(b1) => {
            lemma_prepost_b_identity(*b1, s, pre, c);
        },
        Bexpr::And(b1, b2) => {
            lemma_prepost_b_identity(*b1, s, pre, c);
            lemma_prepost_b_identity(*b2, s, pre, c);
        },
        _ => {},
    }
}

/// A condition without increments increments and decrements nothing.
proof fn lemma_occ_b_plain(b: Bexpr<LitInterval>, c: IntervalBounds)
    requires
        pure_test(b),
    ensures
        forall|i: int| 0 <= i < occ_b(translate_bexpr_spec::<BoundedIntervalDomain>(b, c)).len()
            ==> !(#[trigger] occ_b(translate_bexpr_spec::<BoundedIntervalDomain>(b, c))[i]).1,
    decreases b,
{
    let ob = occ_b(translate_bexpr_spec::<BoundedIntervalDomain>(b, c));
    if b is Equal {
        let a1 = *b->Equal_0;
        let a2 = *b->Equal_1;
        lemma_occ_pair(a1, a2, None, c);
        let o = occ_a(translate_aexpr_spec::<BoundedIntervalDomain>(a1, c)) + occ_a(translate_aexpr_spec::<BoundedIntervalDomain>(a2, c));
        assert(ob == o);
        assert forall|i: int| 0 <= i < ob.len() implies !(#[trigger] ob[i]).1 by {
            assert(ob[i] == o[i]);
        }
    }
    if b is LessEq {
        let a1 = *b->LessEq_0;
        let a2 = *b->LessEq_1;
        lemma_occ_pair(a1, a2, None, c);
        let o = occ_a(translate_aexpr_spec::<BoundedIntervalDomain>(a1, c)) + occ_a(translate_aexpr_spec::<BoundedIntervalDomain>(a2, c));
        assert(ob == o);
        assert forall|i: int| 0 <= i < ob.len() implies !(#[trigger] ob[i]).1 by {
            assert(ob[i] == o[i]);
        }
    }
    match b {
        Bexpr::Not(b1) => {
            lemma_occ_b_plain(*b1, c);
            assert(ob == occ_b(translate_bexpr_spec::<BoundedIntervalDomain>(*b1, c)));
        },
        Bexpr::And(b1, b2) => {
            lemma_occ_b_plain(*b1, c);
            lemma_occ_b_plain(*b2, c);
            let o1 = occ_b(translate_bexpr_spec::<BoundedIntervalDomain>(*b1, c));
            let o2 = occ_b(translate_bexpr_spec::<BoundedIntervalDomain>(*b2, c));
            assert(ob == o1 + o2);
            assert forall|i: int| 0 <= i < ob.len() implies !(#[trigger] ob[i]).1 by {
                if i >= o1.len() {
                    assert(ob[i] == o2[i - o1.len()]);
                } else {
                    assert(ob[i] == o1[i]);
                }
            }
        },
        Bexpr::True | Bexpr::False => {
            assert(ob.len() == 0);
        },
        _ => {},
    }
}

/// The abstract test is sound in the interval domain without bounds, for
/// conditions over expressions without increments: when the condition holds in a store the
/// state describes, the state after the test still describes it. With the
/// soundness of assignments, this is the soundness of one step of the analysis.
pub proof fn lemma_interval_test_sound(b: Bexpr<LitInterval>, s: StateModel<BoundedIntervalDomain>, m: Store, c: IntervalBounds)
    requires
        c.lower == ExtendedNum::NegInf,
        c.upper == ExtendedNum::PosInf,
        pure_test(b),
        model_wf(s, c),
        describes(s, m),
        bval(b, m) == Some(true),
    ensures
        describes(eval_bexpr_spec(translate_bexpr_spec::<BoundedIntervalDomain>(b, c), s, c), m),
{
    let tb = translate_bexpr_spec::<BoundedIntervalDomain>(b, c);
    lemma_prepost_b_identity(b, s, true, c);
    lemma_occ_b_plain(b, c);
    assert(!critical_spec(tb));
    lemma_rounds_sound(b, s, REFINE_ROUNDS as nat, m, c);
    lemma_prepost_b_identity(b, rounds_spec(tb, s, REFINE_ROUNDS as nat, c), false, c);
}

/// One step of the interval analysis is sound (without bounds, for programs
/// without increments): for an arc's command, if a concrete step leads from a store the state
/// describes to the store `m2`, the state after the abstract step describes `m2`.
pub proof fn lemma_interval_apply_sound(
    cmd: Command<LitInterval>,
    s: StateModel<BoundedIntervalDomain>,
    m: Store,
    m2: Store,
    c: IntervalBounds,
)
    requires
        c.lower == ExtendedNum::NegInf,
        c.upper == ExtendedNum::PosInf,
        model_wf(s, c),
        describes(s, m),
        match cmd {
            Command::Assignment(x, a) => {
                &&& pure_aexpr(a)
                &&& concrete_aexpr(a) is Some
                &&& aexpr_value(concrete_aexpr(a)->Some_0, m) matches Ok(v) && m2 == m.insert(x@, v)
            },
            Command::Test(b) => pure_test(b) && bval(b, m) == Some(true) && m2 == m,
        },
    ensures
        describes(apply_spec(translate_command_spec::<BoundedIntervalDomain>(cmd, c), s, c), m2),
{
    match cmd {
        Command::Assignment(x, a) => {
            lemma_interval_assign_sound(x, a, s, m, c);
        },
        Command::Test(b) => {
            lemma_interval_test_sound(b, s, m, c);
        },
    }
}

} // verus!
