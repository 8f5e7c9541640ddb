use vstd::prelude::*;

use crate::analyzer::{
    analyze_spec, apply_spec, incoming, initial_map, iterate, iteration_spec, label_step,
    IterationStrategy, StepType,
};
use crate::ast::{Bexpr, Statement};
use crate::domain::AbstractDomain;
use crate::program::{lower, Command, Label};
use crate::refine::{critical_spec, eval_bexpr_spec, occ_b, refine_b, rounds_spec, REFINE_ROUNDS};
use crate::state::{collapse, merge_maps, model_glb, model_lub, model_narrowing, model_widening, model_wf, Combine, StateModel};

verus! {

/// The program `while true do skip;`.
pub open spec fn endless_loop<D>() -> Statement<D> {
    Statement::While(Box::new(Bexpr::True), Box::new(Statement::Skip))
}

/// A well-formed state joined, widened or narrowed with itself is itself.
pub proof fn lemma_state_idempotent<D: AbstractDomain>(s: StateModel<D>, c: D::Config)
    requires
        model_wf(s, c),
    ensures
        model_lub(s, s, c) == s,
        model_widening(s, s, c) == s,
        model_narrowing(s, s, c) == s,
        model_lub(None, s, c) == s,
        model_lub(s, None, c) == s,
{
    if s is Some {
        let m = s->Some_0;
        assert forall|k: Seq<char>| m.contains_key(k) implies m[k].spec_lub(m[k], c) == m[k]
            && m[k].spec_widening(m[k], c) == m[k] && m[k].spec_narrowing(m[k], c) == m[k] by {
            D::lemma_idempotent(m[k], c);
        }
        let l = Map::new(|k: Seq<char>| m.contains_key(k) && m.contains_key(k), |k: Seq<char>| m[k].spec_lub(m[k], c));
        let w = Map::new(|k: Seq<char>| m.contains_key(k) && m.contains_key(k), |k: Seq<char>| m[k].spec_widening(m[k], c));
        let n = merge_maps(Combine::Narrow, m, m, c);
        assert(l =~= m);
        assert(w =~= m);
        assert(n =~= m);
        assert(collapse(m) == Some(m));
    }
}

/// The test `true` keeps every state; its negation makes it unreachable.
pub proof fn lemma_true_tests<D: AbstractDomain>(s: StateModel<D>, c: D::Config)
    ensures
        eval_bexpr_spec(Bexpr::<D>::True, s, c) == s,
        eval_bexpr_spec(Bexpr::<D>::Not(Box::new(Bexpr::True)), s, c) is None,
{
    let t = Bexpr::<D>::True;
    let nt = Bexpr::<D>::Not(Box::new(Bexpr::True));
    assert(occ_b(t).len() == 0);
    assert(occ_b(nt).len() == 0);
    assert(!critical_spec(t));
    assert(!critical_spec(nt));
    assert(refine_b(Bexpr::<D>::True, s, true, c) is None);
    assert(refine_b(nt, s, false, c) is None);
    assert(refine_b(Bexpr::<D>::True, None, true, c) is None);
    assert(refine_b(nt, None, false, c) is None);
    assert(rounds_spec(nt, None, (REFINE_ROUNDS - 1) as nat, c) is None);
    assert(rounds_spec(t, s, REFINE_ROUNDS as nat, c) == s);
    assert(model_glb(s, None, c) is None);
    assert(rounds_spec(nt, s, REFINE_ROUNDS as nat, c) is None);
    assert(crate::refine::prepost_b(t, None, false, c) is None);
    assert(crate::refine::prepost_b(nt, None, false, c) is None);
}

/// The loop `while true do skip;` in any domain, from any well-formed initial
/// state, with any strategy and at least one iteration allowed: the analysis
/// becomes stable with the initial state at the loop head (label 0) and the exit
/// (label 1) unreachable.
pub proof fn lemma_endless_loop<D: AbstractDomain>(
    init: StateModel<D>,
    strategy: IterationStrategy,
    c: D::Config,
    fuel: nat,
)
    requires
        model_wf(init, c),
        fuel >= 1,
    ensures
        lower(endless_loop::<D>()).0 == 2,
        lower(endless_loop::<D>()).2 == seq![0u32],
        analyze_spec(lower(endless_loop::<D>()), init, strategy, c, fuel) == Some(seq![init, None::<Map<Seq<char>, D>>]),
{
    let p = lower(endless_loop::<D>());
    assert(lower(Statement::<D>::Skip) == (1nat, Seq::<(Label, Command<D>, Label)>::empty(), Seq::<Label>::empty()));
    assert(p.1 =~= seq![
        (0u32, Command::Test(Bexpr::<D>::True), 0u32),
        (0u32, Command::Test(Bexpr::<D>::Not(Box::new(Bexpr::True))), 1u32),
    ]);
    assert(p.2 =~= seq![0u32]);
    lemma_state_idempotent(init, c);
    lemma_true_tests::<D>(init, c);
    lemma_true_tests::<D>(None, c);
    let m0 = initial_map(p);
    let m1 = seq![init, None::<Map<Seq<char>, D>>];
    assert(p.2[0] == 0u32);
    assert(p.2.contains(0u32));
    assert(!p.2.contains(1u32));
    let a0 = (0u32, Command::Test(Bexpr::<D>::True), 0u32);
    assert(p.1.drop_last() =~= seq![a0]);
    assert(seq![a0].drop_last() =~= Seq::<(Label, Command<D>, Label)>::empty());
    assert(apply_spec(a0.1, init, c) == init);
    assert(apply_spec(a0.1, None, c) is None);
    assert(apply_spec(Command::Test(Bexpr::<D>::Not(Box::new(Bexpr::True))), init, c) is None);
    assert(apply_spec(Command::Test(Bexpr::<D>::Not(Box::new(Bexpr::True))), None, c) is None);
    assert(m0[0] is None && m0[1] is None && m0.len() == 2);
    assert(seq![a0].last() == a0);
    assert(p.1.last() == (0u32, Command::Test(Bexpr::<D>::Not(Box::new(Bexpr::True))), 1u32));
    assert forall|step: StepType| step != StepType::NarrowingStep implies #[trigger] iteration_spec(p, init, m0, step, c) == m1 by {
        assert(incoming(Seq::<(Label, Command<D>, Label)>::empty(), 0, m0, init, c) == init);
        assert(apply_spec(a0.1, m0[a0.0 as int], c) is None);
        assert(incoming(seq![a0], 0, m0, init, c) == model_lub(init, apply_spec(a0.1, m0[a0.0 as int], c), c));
        assert(incoming(seq![a0], 0, m0, init, c) == init);
        assert(incoming(p.1, 0, m0, init, c) == init);
        assert(incoming(Seq::<(Label, Command<D>, Label)>::empty(), 1, m0, None, c) is None);
        assert(incoming(seq![a0], 1, m0, None, c) is None);
        assert(incoming(p.1, 1, m0, None, c) is None);
        assert(label_step(p, init, m0, step, c, 0) == init);
        assert(label_step(p, init, m0, step, c, 1) is None);
        assert(iteration_spec(p, init, m0, step, c) =~= m1);
    }
    assert forall|step: StepType| #[trigger] iteration_spec(p, init, m1, step, c) == m1 by {
        assert(incoming(Seq::<(Label, Command<D>, Label)>::empty(), 0, m1, init, c) == init);
        assert(apply_spec(a0.1, m1[a0.0 as int], c) == init);
        assert(incoming(seq![a0], 0, m1, init, c) == model_lub(init, init, c));
        assert(incoming(seq![a0], 0, m1, init, c) == init);
        assert(incoming(p.1, 0, m1, init, c) == init);
        assert(incoming(Seq::<(Label, Command<D>, Label)>::empty(), 1, m1, None, c) is None);
        assert(incoming(seq![a0], 1, m1, None, c) is None);
        assert(incoming(p.1, 1, m1, None, c) is None);
        assert(label_step(p, init, m1, step, c, 0) == init);
        assert(label_step(p, init, m1, step, c, 1) is None);
        assert(iteration_spec(p, init, m1, step, c) =~= m1);
    }
    assert forall|step: StepType| step != StepType::NarrowingStep implies #[trigger] iterate(p, init, m0, step, c, fuel) == Some(m1) by {
        if m1 != m0 {
            assert(iterate(p, init, m1, step, c, (fuel - 1) as nat) == Some(m1));
        }
    }
    assert(iterate(p, init, m1, StepType::NarrowingStep, c, fuel) == Some(m1));
}

} // verus!
