use vstd::prelude::*;

use crate::domain::AbstractDomain;
use crate::interval::{
    lemma_interval_lattice_basic, lemma_interval_narrowing_contracts,
    lemma_interval_widening_extensive, lemma_interval_widening_stabilises, BoundedIntervalDomain,
    IntervalBounds,
};
use crate::state::{collapse, merge_maps, model_get, model_glb, model_le, model_narrowing, model_widening, model_wf, Combine, StateModel};

verus! {

/// Widening of interval states is an upper bound of both operands.
pub proof fn lemma_state_widening_extensive(s1: StateModel<BoundedIntervalDomain>, s2: StateModel<BoundedIntervalDomain>, c: IntervalBounds)
    requires
        model_wf(s1, c),
        model_wf(s2, c),
    ensures
        model_le(s1, model_widening(s1, s2, c)),
        model_le(s2, model_widening(s1, s2, c)),
{
    let w = model_widening(s1, s2, c);
    BoundedIntervalDomain::lemma_bottom_top_wf(c);
    if s1 is Some && s2 is Some {
        let m1 = s1->Some_0;
        let m2 = s2->Some_0;
        let mm = Map::new(
            |k: Seq<char>| m1.contains_key(k) && m2.contains_key(k),
            |k: Seq<char>| m1[k].spec_widening(m2[k], c),
        );
        assert forall|k: Seq<char>| #[trigger] mm.contains_key(k) implies mm[k] != BoundedIntervalDomain::spec_bottom() by {
            lemma_interval_widening_extensive(m1[k], m2[k], c);
        }
        assert(collapse(mm) == Some(mm));
        assert forall|k: Seq<char>| #[trigger] model_get(s1, k).spec_le(model_get(w, k)) by {
            if mm.contains_key(k) {
                lemma_interval_widening_extensive(m1[k], m2[k], c);
            }
        }
        assert forall|k: Seq<char>| #[trigger] model_get(s2, k).spec_le(model_get(w, k)) by {
            if mm.contains_key(k) {
                lemma_interval_widening_extensive(m1[k], m2[k], c);
            }
        }
    } else if s1 is Some {
        assert forall|k: Seq<char>| #[trigger] model_get(s1, k).spec_le(model_get(w, k)) by {
            if s1->Some_0.contains_key(k) {
                lemma_interval_lattice_basic(s1->Some_0[k], s1->Some_0[k], c);
            }
        }
    } else if s2 is Some {
        assert forall|k: Seq<char>| #[trigger] model_get(s2, k).spec_le(model_get(w, k)) by {
            if s2->Some_0.contains_key(k) {
                lemma_interval_lattice_basic(s2->Some_0[k], s2->Some_0[k], c);
            }
        }
    }
}

/// Narrowing of interval states contracts: `s1 ⊓ s2 ⊑ s1 Δ s2 ⊑ s1`.
pub proof fn lemma_state_narrowing_contracts(s1: StateModel<BoundedIntervalDomain>, s2: StateModel<BoundedIntervalDomain>, c: IntervalBounds)
    requires
        model_wf(s1, c),
        model_wf(s2, c),
    ensures
        model_le(model_glb(s1, s2, c), model_narrowing(s1, s2, c)),
        model_le(model_narrowing(s1, s2, c), s1),
{
    let n = model_narrowing(s1, s2, c);
    let g = model_glb(s1, s2, c);
    BoundedIntervalDomain::lemma_bottom_top_wf(c);
    if s1 is Some && s2 is Some {
        let m1 = s1->Some_0;
        let m2 = s2->Some_0;
        let nm = merge_maps(Combine::Narrow, m1, m2, c);
        let gm = merge_maps(Combine::Meet, m1, m2, c);
        if exists|k: Seq<char>| nm.contains_key(k) && nm[k] == BoundedIntervalDomain::spec_bottom() {
            let k = choose|k: Seq<char>| nm.contains_key(k) && nm[k] == BoundedIntervalDomain::spec_bottom();
            if m1.contains_key(k) && m2.contains_key(k) {
                lemma_interval_narrowing_contracts(m1[k], m2[k], c);
            }
            assert(gm.contains_key(k) && gm[k] == BoundedIntervalDomain::spec_bottom());
            assert(g is None);
        } else {
            assert(n == Some(nm));
            if g is Some {
                assert forall|k: Seq<char>| #[trigger] model_get(g, k).spec_le(model_get(n, k)) by {
                    if m1.contains_key(k) && m2.contains_key(k) {
                        lemma_interval_narrowing_contracts(m1[k], m2[k], c);
                    } else if m1.contains_key(k) {
                        lemma_interval_lattice_basic(m1[k], m1[k], c);
                    } else if m2.contains_key(k) {
                        lemma_interval_lattice_basic(m2[k], m2[k], c);
                    }
                }
            }
            assert forall|k: Seq<char>| #[trigger] model_get(n, k).spec_le(model_get(s1, k)) by {
                if m1.contains_key(k) && m2.contains_key(k) {
                    lemma_interval_narrowing_contracts(m1[k], m2[k], c);
                } else if m1.contains_key(k) {
                    lemma_interval_lattice_basic(m1[k], m1[k], c);
                }
            }
        }
    } else if s1 is Some {
        assert forall|k: Seq<char>| #[trigger] model_get(n, k).spec_le(model_get(s1, k)) by {
            if s1->Some_0.contains_key(k) {
                lemma_interval_lattice_basic(s1->Some_0[k], s1->Some_0[k], c);
            }
        }
    }
}

/// The number of steps among the first `k` of a sequence at which it changes.
pub open spec fn changes(y: spec_fn(nat) -> BoundedIntervalDomain, k: nat) -> nat
    decreases k,
{
    if k == 0 {
        0
    } else if y((k - 1) as nat) != y(k) {
        changes(y, (k - 1) as nat) + 1
    } else {
        changes(y, (k - 1) as nat)
    }
}

/// Stabilisation of interval widening: along `y₀ = x₀, yₖ₊₁ = yₖ ∇ xₖ₊₁` the
/// sequence changes at most three times, whatever the `xₖ`.
pub proof fn lemma_interval_widening_chain(
    x: spec_fn(nat) -> BoundedIntervalDomain,
    y: spec_fn(nat) -> BoundedIntervalDomain,
    c: IntervalBounds,
    k: nat,
)
    requires
        forall|i: nat| (#[trigger] x(i)).wf(c),
        y(0) == x(0),
        forall|i: nat| #[trigger] y(i + 1) == y(i).spec_widening(x(i + 1), c),
    ensures
        changes(y, k) + y(k).rank() <= y(0).rank(),
        changes(y, k) <= 3,
        y(k).wf(c),
    decreases k,
{
    if k > 0 {
        let j = (k - 1) as nat;
        lemma_interval_widening_chain(x, y, c, j);
        assert(y(j + 1) == y(j).spec_widening(x(j + 1), c));
        lemma_interval_widening_stabilises(y(j), x(j + 1), c);
        assert(j + 1 == k);
    }
}

} // verus!
