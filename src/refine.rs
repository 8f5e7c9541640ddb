use vstd::prelude::*;

use crate::ast::{Aexpr, Bexpr, Operator, PrePostOp, Var};
use crate::domain::{
    abstract_operator, backward_abstract_operator, spec_abstract_operator,
    spec_backward_abstract_operator, AbstractDomain, Interval,
};
use crate::semantics::{aexpr_wf, bexpr_wf, eval_aexpr, eval_aexpr_spec};
use crate::state::{model_get, model_glb, model_lub, model_set, HashMapState, StateModel};

verus! {

/// Rounds of the refinement of a test before it stops even if the state still
/// shrinks; every round is sound, so stopping only costs precision.
pub const REFINE_ROUNDS: u32 = 64;

/// The variable occurrences of an expression, left to right, each marked with
/// whether it is incremented or decremented there.
pub open spec fn occ_a<D>(a: Aexpr<D>) -> Seq<(Seq<char>, bool)>
    decreases a,
{
    match a {
        Aexpr::Lit(_) => seq![],
        Aexpr::Var(x) => seq![(x@, false)],
        Aexpr::PreOp(_, x) | Aexpr::PostOp(_, x) => seq![(x@, true)],
        Aexpr::BinOp(_, a1, a2) => occ_a(*a1) + occ_a(*a2),
    }
}

pub open spec fn occ_b<D>(b: Bexpr<D>) -> Seq<(Seq<char>, bool)>
    decreases b,
{
    match b {
        Bexpr::True | Bexpr::False => seq![],
        Bexpr::Equal(a1, a2) | Bexpr::LessEq(a1, a2) => occ_a(*a1) + occ_a(*a2),
        Bexpr::Not(b1) => occ_b(*b1),
        Bexpr::And(b1, b2) => occ_b(*b1) + occ_b(*b2),
    }
}

/// The refinement of a test is sound only if no variable that is incremented or
/// decremented in it occurs a second time.
pub open spec fn critical_spec<D>(b: Bexpr<D>) -> bool {
    let o = occ_b(b);
    exists|i: int, j: int| 0 <= i < o.len() && 0 <= j < o.len() && i != j && o[i].1 && #[trigger] o[i].0 == #[trigger] o[j].0
}

/// The state after the pre-increments and pre-decrements of an expression.
pub open spec fn pre_a<D: AbstractDomain>(a: Aexpr<D>, s: StateModel<D>, c: D::Config) -> StateModel<D>
    decreases a,
{
    match a {
        Aexpr::PreOp(_, _) => eval_aexpr_spec(a, s, c).1,
        Aexpr::BinOp(_, a1, a2) => pre_a(*a2, pre_a(*a1, s, c), c),
        _ => s,
    }
}

/// The state after the post-increments and post-decrements of an expression.
pub open spec fn post_a<D: AbstractDomain>(a: Aexpr<D>, s: StateModel<D>, c: D::Config) -> StateModel<D>
    decreases a,
{
    match a {
        Aexpr::PostOp(_, _) => eval_aexpr_spec(a, s, c).1,
        Aexpr::BinOp(_, a1, a2) => post_a(*a2, post_a(*a1, s, c), c),
        _ => s,
    }
}

/// Applies `pre_a` (when `pre`) or `post_a` to the expressions of a test, left to right.
pub open spec fn prepost_b<D: AbstractDomain>(b: Bexpr<D>, s: StateModel<D>, pre: bool, c: D::Config) -> StateModel<D>
    decreases b,
{
    match b {
        Bexpr::True | Bexpr::False => s,
        Bexpr::Equal(a1, a2) | Bexpr::LessEq(a1, a2) => {
            if pre {
                pre_a(*a2, pre_a(*a1, s, c), c)
            } else {
                post_a(*a2, post_a(*a1, s, c), c)
            }
        },
        Bexpr::Not(b1) => prepost_b(*b1, s, pre, c),
        Bexpr::And(b1, b2) => prepost_b(*b2, prepost_b(*b1, s, pre, c), pre, c),
    }
}

/// The state after all the increments and decrements of a test.
pub open spec fn effects_b<D: AbstractDomain>(b: Bexpr<D>, s: StateModel<D>, c: D::Config) -> StateModel<D>
    decreases b,
{
    match b {
        Bexpr::True | Bexpr::False => s,
        Bexpr::Equal(a1, a2) | Bexpr::LessEq(a1, a2) => eval_aexpr_spec(*a2, eval_aexpr_spec(*a1, s, c).1, c).1,
        Bexpr::Not(b1) => effects_b(*b1, s, c),
        Bexpr::And(b1, b2) => effects_b(*b2, effects_b(*b1, s, c), c),
    }
}

/// The test without refinement: an equality whose sides cannot meet is
/// unreachable, `false` is unreachable, anything else keeps the state (after the
/// increments and decrements).
pub open spec fn dumb_spec<D: AbstractDomain>(b: Bexpr<D>, s: StateModel<D>, c: D::Config) -> StateModel<D>
    decreases b,
{
    match b {
        Bexpr::True => s,
        Bexpr::False => None,
        Bexpr::Equal(a1, a2) => {
            let r1 = eval_aexpr_spec(*a1, s, c);
            let r2 = eval_aexpr_spec(*a2, r1.1, c);
            if r1.0.spec_glb(r2.0, c) == D::spec_bottom() {
                None
            } else {
                r2.1
            }
        },
        Bexpr::LessEq(_, _) | Bexpr::Not(_) => effects_b(b, s, c),
        Bexpr::And(b1, b2) => dumb_spec(*b2, dumb_spec(*b1, s, c), c),
    }
}

/// An expression with the value of each of its parts in a given state.
#[derive(Debug)]
pub enum EvalTree<D> {
    LeafNum(D),
    LeafVar(Var, D),
    BinOp(Operator, D, Box<EvalTree<D>>, Box<EvalTree<D>>),
}

impl<D: Copy> EvalTree<D> {
    pub open spec fn value(self) -> D {
        match self {
            EvalTree::LeafNum(d) => d,
            EvalTree::LeafVar(_, d) => d,
            EvalTree::BinOp(_, d, _, _) => d,
        }
    }

    /// The value at the root.
    pub fn get_interval(&self) -> (r: D)
        ensures
            r == self.value(),
    {
        match self {
            EvalTree::LeafNum(d) => *d,
            EvalTree::LeafVar(_, d) => *d,
            EvalTree::BinOp(_, d, _, _) => *d,
        }
    }
}

/// The evaluation tree of `a` in `s`; increments and decrements read their variable.
pub open spec fn tree_spec<D: AbstractDomain>(a: Aexpr<D>, s: StateModel<D>, c: D::Config) -> EvalTree<D>
    decreases a,
{
    match a {
        Aexpr::Lit(n) => EvalTree::LeafNum(n),
        Aexpr::Var(x) | Aexpr::PreOp(_, x) | Aexpr::PostOp(_, x) => EvalTree::LeafVar(x, model_get(s, x@)),
        Aexpr::BinOp(op, a1, a2) => {
            let t1 = tree_spec(*a1, s, c);
            let t2 = tree_spec(*a2, s, c);
            EvalTree::BinOp(op, spec_abstract_operator(op, t1.value(), t2.value(), c), Box::new(t1), Box::new(t2))
        },
    }
}

/// Every value in the tree is well formed.
pub open spec fn tree_wf<D: AbstractDomain>(t: EvalTree<D>, c: D::Config) -> bool
    decreases t,
{
    match t {
        EvalTree::LeafNum(d) => d.wf(c),
        EvalTree::LeafVar(_, d) => d.wf(c),
        EvalTree::BinOp(_, d, l, r) => d.wf(c) && tree_wf(*l, c) && tree_wf(*r, c),
    }
}

pub(crate) proof fn lemma_tree_value_wf<D: AbstractDomain>(t: EvalTree<D>, c: D::Config)
    requires
        tree_wf(t, c),
    ensures
        t.value().wf(c),
{
}

/// Backward refinement: knowing that the tree's value lies in `target`, meets each
/// variable with what its leaf may hold, pushing `target` down through the
/// backward operators.
pub open spec fn refine_spec<D: AbstractDomain>(t: EvalTree<D>, s: StateModel<D>, target: D, c: D::Config) -> StateModel<D>
    decreases t,
{
    match t {
        EvalTree::LeafNum(_) => s,
        EvalTree::LeafVar(x, _) => model_set(s, x@, model_get(s, x@).spec_glb(target, c)),
        EvalTree::BinOp(op, _, l, r) => {
            let p = spec_backward_abstract_operator(op, l.value(), r.value(), target, c);
            refine_spec(*r, refine_spec(*l, s, p.0, c), p.1, c)
        },
    }
}

/// `a1 - a2`, or `a1` itself when `a2` is the literal zero.
pub open spec fn difference_spec<D: AbstractDomain>(a1: Aexpr<D>, a2: Aexpr<D>, c: D::Config) -> Aexpr<D> {
    match a2 {
        Aexpr::Lit(n) if n == D::spec_from_num(0, c) => a1,
        _ => Aexpr::BinOp(Operator::Sub, Box::new(a1), Box::new(a2)),
    }
}

/// What `a1 - a2` must lie in for the comparison (or its negation) to hold.
pub open spec fn target_spec<D: AbstractDomain>(equal: bool, negated: bool, c: D::Config) -> D {
    if equal {
        if !negated {
            D::spec_from_num(0, c)
        } else {
            D::spec_from_interval(Interval::OpenLeft(-1i128), c).spec_lub(D::spec_from_interval(Interval::OpenRight(1i128), c), c)
        }
    } else {
        if !negated {
            D::spec_from_interval(Interval::OpenLeft(0i128), c)
        } else {
            D::spec_from_interval(Interval::OpenRight(1i128), c)
        }
    }
}

/// One round of refinement of `s` by the test `b` (by its negation when `negated`).
pub open spec fn refine_b<D: AbstractDomain>(b: Bexpr<D>, s: StateModel<D>, negated: bool, c: D::Config) -> StateModel<D>
    decreases b,
{
    match b {
        Bexpr::True => if negated { None } else { s },
        Bexpr::False => if negated { s } else { None },
        Bexpr::Equal(a1, a2) => refine_spec(tree_spec(difference_spec(*a1, *a2, c), s, c), s, target_spec(true, negated, c), c),
        Bexpr::LessEq(a1, a2) => refine_spec(tree_spec(difference_spec(*a1, *a2, c), s, c), s, target_spec(false, negated, c), c),
        Bexpr::And(b1, b2) => {
            let s1 = refine_b(*b1, s, negated, c);
            let s2 = refine_b(*b2, s, negated, c);
            if !negated {
                model_glb(s1, s2, c)
            } else {
                model_lub(s1, s2, c)
            }
        },
        Bexpr::Not(b1) => refine_b(*b1, s, !negated, c),
    }
}

/// Repeats refinement rounds while the state shrinks, at most `fuel` more times.
pub open spec fn rounds_spec<D: AbstractDomain>(b: Bexpr<D>, s: StateModel<D>, fuel: nat, c: D::Config) -> StateModel<D>
    decreases fuel,
{
    let n = refine_b(b, s, false, c);
    if n == s {
        s
    } else if fuel == 0 {
        model_glb(s, n, c)
    } else {
        rounds_spec(b, model_glb(s, n, c), (fuel - 1) as nat, c)
    }
}

/// The state after a test: the pre-increments, the refinement by the test, the
/// post-increments; without refinement when the test is critical.
pub open spec fn eval_bexpr_spec<D: AbstractDomain>(b: Bexpr<D>, s: StateModel<D>, c: D::Config) -> StateModel<D> {
    if critical_spec(b) {
        dumb_spec(b, s, c)
    } else {
        prepost_b(b, rounds_spec(b, prepost_b(b, s, true, c), REFINE_ROUNDS as nat, c), false, c)
    }
}

/// The occurrences of a list of entries, as names.
pub open spec fn occ_view(v: Seq<(Var, bool)>) -> Seq<(Seq<char>, bool)> {
    v.map_values(|e: (Var, bool)| (e.0@, e.1))
}

proof fn lemma_occ_push(v: Seq<(Var, bool)>, e: (Var, bool))
    ensures
        occ_view(v.push(e)) == occ_view(v).push((e.0@, e.1)),
{
    assert(occ_view(v.push(e)) =~= occ_view(v).push((e.0@, e.1)));
}

fn collect_occ_a<D>(a: &Aexpr<D>, out: &mut Vec<(Var, bool)>)
    ensures
        occ_view(final(out)@) == occ_view(old(out)@) + occ_a(*a),
    decreases a,
{
    match a {
        Aexpr::Lit(_) => {
            assert(occ_view(out@) =~= occ_view(out@) + occ_a(*a));
        },
        Aexpr::Var(x) => {
            let ghost o = out@;
            out.push((x.clone(), false));
            proof {
                lemma_occ_push(o, out@.last());
                assert(occ_view(out@) =~= occ_view(o) + occ_a(*a));
            }
        },
        Aexpr::PreOp(_, x) | Aexpr::PostOp(_, x) => {
            let ghost o = out@;
            out.push((x.clone(), true));
            proof {
                lemma_occ_push(o, out@.last());
                assert(occ_view(out@) =~= occ_view(o) + occ_a(*a));
            }
        },
        Aexpr::BinOp(_, a1, a2) => {
            let ghost o = out@;
            collect_occ_a(a1, out);
            collect_occ_a(a2, out);
            assert(occ_view(out@) =~= occ_view(o) + occ_a(*a));
        },
    }
}

fn collect_occ_b<D>(b: &Bexpr<D>, out: &mut Vec<(Var, bool)>)
    ensures
        occ_view(final(out)@) == occ_view(old(out)@) + occ_b(*b),
    decreases b,
{
    let ghost o = out@;
    match b {
        Bexpr::True | Bexpr::False => {},
        Bexpr::Equal(a1, a2) | Bexpr::LessEq(a1, a2) => {
            collect_occ_a(a1, out);
            collect_occ_a(a2, out);
        },
        Bexpr::Not(b1) => {
            collect_occ_b(b1, out);
        },
        Bexpr::And(b1, b2) => {
            collect_occ_b(b1, out);
            collect_occ_b(b2, out);
        },
    }
    assert(occ_view(out@) =~= occ_view(o) + occ_b(*b));
}

/// Whether the test increments or decrements a variable that occurs in it twice,
/// which rules out its refinement.
pub fn include_critical_ops<D>(b: &Bexpr<D>) -> (r: bool)
    ensures
        r == critical_spec(*b),
{
    let mut occ: Vec<(Var, bool)> = Vec::new();
    collect_occ_b(b, &mut occ);
    assert(occ_view(occ@) =~= occ_b(*b));
    let ghost o = occ_b(*b);
    let mut i: usize = 0;
    while i < occ.len()
        invariant
            i <= occ@.len(),
            o == occ_view(occ@),
            o == occ_b(*b),
            o.len() == occ@.len(),
            forall|p: int, q: int| 0 <= p < i && 0 <= q < o.len() && p != q && o[p].1 ==> #[trigger] o[p].0 != #[trigger] o[q].0,
        decreases occ@.len() - i,
    {
        if occ[i].1 {
            let mut j: usize = 0;
            while j < occ.len()
                invariant
                    i < occ@.len(),
                    j <= occ@.len(),
                    o == occ_view(occ@),
                    o == occ_b(*b),
                    o.len() == occ@.len(),
                    o[i as int].1,
                    forall|q: int| 0 <= q < j && q != i ==> o[i as int].0 != #[trigger] o[q].0,
                decreases occ@.len() - j,
            {
                if j != i && occ[j].0 == occ[i].0 {
                    assert(o[i as int] == (occ@[i as int].0@, occ@[i as int].1));
                    assert(o[j as int] == (occ@[j as int].0@, occ@[j as int].1));
                    assert(o[i as int].0 == o[j as int].0);
                    return true;
                }
                j += 1;
            }
        }
        i += 1;
    }
    false
}

fn pre_post_a<D: AbstractDomain>(a: &Aexpr<D>, s: HashMapState<D>, pre: bool, c: D::Config) -> (r: HashMapState<D>)
    requires
        s.wf(c),
        aexpr_wf(*a, c),
    ensures
        r@ == (if pre { pre_a(*a, s@, c) } else { post_a(*a, s@, c) }),
        r.wf(c),
    decreases a,
{
    match a {
        Aexpr::PreOp(_, _) => if pre { eval_aexpr(a, s, c).1 } else { s },
        Aexpr::PostOp(_, _) => if pre { s } else { eval_aexpr(a, s, c).1 },
        Aexpr::BinOp(_, a1, a2) => {
            let s1 = pre_post_a(a1, s, pre, c);
            pre_post_a(a2, s1, pre, c)
        },
        _ => s,
    }
}

fn pre_post_b<D: AbstractDomain>(b: &Bexpr<D>, s: HashMapState<D>, pre: bool, c: D::Config) -> (r: HashMapState<D>)
    requires
        s.wf(c),
        bexpr_wf(*b, c),
    ensures
        r@ == prepost_b(*b, s@, pre, c),
        r.wf(c),
    decreases b,
{
    match b {
        Bexpr::True | Bexpr::False => s,
        Bexpr::Equal(a1, a2) | Bexpr::LessEq(a1, a2) => {
            let s1 = pre_post_a(a1, s, pre, c);
            pre_post_a(a2, s1, pre, c)
        },
        Bexpr::Not(b1) => pre_post_b(b1, s, pre, c),
        Bexpr::And(b1, b2) => {
            let s1 = pre_post_b(b1, s, pre, c);
            pre_post_b(b2, s1, pre, c)
        },
    }
}

fn effects<D: AbstractDomain>(b: &Bexpr<D>, s: HashMapState<D>, c: D::Config) -> (r: HashMapState<D>)
    requires
        s.wf(c),
        bexpr_wf(*b, c),
    ensures
        r@ == effects_b(*b, s@, c),
        r.wf(c),
    decreases b,
{
    match b {
        Bexpr::True | Bexpr::False => s,
        Bexpr::Equal(a1, a2) | Bexpr::LessEq(a1, a2) => {
            let (_, s1) = eval_aexpr(a1, s, c);
            eval_aexpr(a2, s1, c).1
        },
        Bexpr::Not(b1) => effects(b1, s, c),
        Bexpr::And(b1, b2) => {
            let s1 = effects(b1, s, c);
            effects(b2, s1, c)
        },
    }
}

/// The test without refinement, used when refining would be unsound.
pub fn eval_bexpr_dumb<D: AbstractDomain>(b: &Bexpr<D>, s: HashMapState<D>, c: D::Config) -> (r: HashMapState<D>)
    requires
        s.wf(c),
        bexpr_wf(*b, c),
    ensures
        r@ == dumb_spec(*b, s@, c),
        r.wf(c),
    decreases b,
{
    match b {
        Bexpr::True => s,
        Bexpr::False => HashMapState::bottom(),
        Bexpr::Equal(a1, a2) => {
            let (d1, s1) = eval_aexpr(a1, s, c);
            let (d2, s2) = eval_aexpr(a2, s1, c);
            if d1.glb(d2, c).same(&D::bottom()) {
                HashMapState::bottom()
            } else {
                s2
            }
        },
        Bexpr::LessEq(_, _) | Bexpr::Not(_) => effects(b, s, c),
        Bexpr::And(b1, b2) => {
            let s1 = eval_bexpr_dumb(b1, s, c);
            eval_bexpr_dumb(b2, s1, c)
        },
    }
}

/// Builds the evaluation tree of `a` in `s`.
pub fn eval_aexpr_tree<D: AbstractDomain>(a: &Aexpr<D>, s: &HashMapState<D>, c: D::Config) -> (r: EvalTree<D>)
    requires
        s.wf(c),
        aexpr_wf(*a, c),
    ensures
        r == tree_spec(*a, s@, c),
        tree_wf(r, c),
    decreases a,
{
    match a {
        Aexpr::Lit(n) => EvalTree::LeafNum(*n),
        Aexpr::Var(x) | Aexpr::PreOp(_, x) | Aexpr::PostOp(_, x) => {
            proof {
                s.lemma_get_wf(x@, c);
            }
            EvalTree::LeafVar(x.clone(), s.get(x))
        },
        Aexpr::BinOp(op, a1, a2) => {
            let t1 = eval_aexpr_tree(a1, s, c);
            let t2 = eval_aexpr_tree(a2, s, c);
            let d = abstract_operator(op, t1.get_interval(), t2.get_interval(), c);
            EvalTree::BinOp(*op, d, Box::new(t1), Box::new(t2))
        },
    }
}

/// Refines `s` knowing that the value of the tree lies in `target`.
pub fn refine<D: AbstractDomain>(tree: &EvalTree<D>, s: HashMapState<D>, target: D, c: D::Config) -> (r: HashMapState<D>)
    requires
        s.wf(c),
        tree_wf(*tree, c),
        target.wf(c),
    ensures
        r@ == refine_spec(*tree, s@, target, c),
        r.wf(c),
    decreases tree,
{
    match tree {
        EvalTree::LeafNum(_) => s,
        EvalTree::LeafVar(x, _) => {
            proof {
                s.lemma_get_wf(x@, c);
            }
            let mut s = s;
            let d = s.get(x).glb(target, c);
            s.set(x.clone(), d, c);
            s
        },
        EvalTree::BinOp(op, _, lhs, rhs) => {
            proof {
                lemma_tree_value_wf(**lhs, c);
                lemma_tree_value_wf(**rhs, c);
            }
            let (l, r) = backward_abstract_operator(op, lhs.get_interval(), rhs.get_interval(), target, c);
            let s1 = refine(lhs, s, l, c);
            refine(rhs, s1, r, c)
        },
    }
}

fn difference<D: AbstractDomain>(a1: &Aexpr<D>, a2: &Aexpr<D>, c: D::Config) -> (r: Aexpr<D>)
    requires
        aexpr_wf(*a1, c),
        aexpr_wf(*a2, c),
    ensures
        r == difference_spec(*a1, *a2, c),
        aexpr_wf(r, c),
{
    match a2 {
        Aexpr::Lit(n) => {
            if n.same(&D::from_num(0, c)) {
                return a1.duplicate();
            }
        },
        _ => {},
    }
    Aexpr::BinOp(Operator::Sub, Box::new(a1.duplicate()), Box::new(a2.duplicate()))
}

fn target<D: AbstractDomain>(equal: bool, negated: bool, c: D::Config) -> (r: D)
    ensures
        r == target_spec::<D>(equal, negated, c),
        r.wf(c),
{
    if equal {
        if !negated {
            D::from_num(0, c)
        } else {
            D::from_interval(Interval::OpenLeft(-1), c).lub(D::from_interval(Interval::OpenRight(1), c), c)
        }
    } else {
        if !negated {
            D::from_interval(Interval::OpenLeft(0), c)
        } else {
            D::from_interval(Interval::OpenRight(1), c)
        }
    }
}

/// Refines `state` by the comparison `a1 - a2 ∈ interval`.
fn advanced_abstract_tests<D: AbstractDomain>(a1: &Aexpr<D>, a2: &Aexpr<D>, state: HashMapState<D>, interval: D, c: D::Config) -> (r: HashMapState<D>)
    requires
        state.wf(c),
        aexpr_wf(*a1, c),
        aexpr_wf(*a2, c),
        interval.wf(c),
    ensures
        r@ == refine_spec(tree_spec(difference_spec(*a1, *a2, c), state@, c), state@, interval, c),
        r.wf(c),
{
    let a = difference(a1, a2, c);
    let tree = eval_aexpr_tree(&a, &state, c);
    refine(&tree, state, interval, c)
}

/// One round of refinement by the test `b` (by its negation when `negated`).
fn eval_bexpr_h<D: AbstractDomain>(b: &Bexpr<D>, state: &HashMapState<D>, negated: bool, c: D::Config) -> (r: HashMapState<D>)
    requires
        state.wf(c),
        bexpr_wf(*b, c),
    ensures
        r@ == refine_b(*b, state@, negated, c),
        r.wf(c),
    decreases b,
{
    match b {
        Bexpr::True => if negated { HashMapState::bottom() } else { state.duplicate() },
        Bexpr::False => if negated { state.duplicate() } else { HashMapState::bottom() },
        Bexpr::Equal(a1, a2) => advanced_abstract_tests(a1, a2, state.duplicate(), target(true, negated, c), c),
        Bexpr::LessEq(a1, a2) => advanced_abstract_tests(a1, a2, state.duplicate(), target(false, negated, c), c),
        Bexpr::And(b1, b2) => {
            let s1 = eval_bexpr_h(b1, state, negated, c);
            let s2 = eval_bexpr_h(b2, state, negated, c);
            if !negated {
                s1.glb(&s2, c)
            } else {
                s1.lub(&s2, c)
            }
        },
        Bexpr::Not(b1) => eval_bexpr_h(b1, state, !negated, c),
    }
}

/// The abstract test: the state `state` refined by the condition `b`.
pub fn eval_bexpr<D: AbstractDomain>(b: &Bexpr<D>, state: HashMapState<D>, c: D::Config) -> (r: HashMapState<D>)
    requires
        state.wf(c),
        bexpr_wf(*b, c),
    ensures
        r@ == eval_bexpr_spec(*b, state@, c),
        r.wf(c),
{
    if include_critical_ops(b) {
        return eval_bexpr_dumb(b, state, c);
    }
    let mut state = pre_post_b(b, state, true, c);
    let ghost start = state@;
    let mut new_state = eval_bexpr_h(b, &state, false, c);
    let mut fuel: u32 = REFINE_ROUNDS;
    while !new_state.same_as(&state) && fuel > 0
        invariant
            state.wf(c),
            new_state.wf(c),
            bexpr_wf(*b, c),
            new_state@ == refine_b(*b, state@, false, c),
            fuel <= REFINE_ROUNDS,
            rounds_spec(*b, start, REFINE_ROUNDS as nat, c) == rounds_spec(*b, state@, fuel as nat, c),
        decreases fuel,
    {
        state = state.glb(&new_state, c);
        new_state = eval_bexpr_h(b, &state, false, c);
        fuel -= 1;
    }
    if !new_state.same_as(&state) {
        state = state.glb(&new_state, c);
    }
    pre_post_b(b, state, false, c)
}

} // verus!
