use vstd::prelude::*;

use crate::domain::AbstractDomain;
use crate::program::{Command, Label, Program, ProgramModel, well_formed_graph};
use crate::refine::{eval_bexpr, eval_bexpr_spec};
use crate::semantics::{aexpr_wf, bexpr_wf, eval_aexpr, eval_aexpr_spec};
use crate::state::{model_lub, model_narrowing, model_set, model_widening, HashMapState, StateModel};

verus! {

/// How the fixpoint is computed.
#[derive(Debug, Clone, Copy, PartialEq, Eq, Structural)]
pub enum IterationStrategy {
    /// Plain iteration.
    Simple,
    /// Widening at the widening points.
    Widening,
    /// Widening until stable, then narrowing until stable.
    WideningAndNarrowing,
}

/// What one iteration does at the widening points.
#[derive(Debug, Clone, Copy, PartialEq, Eq, Structural)]
pub enum StepType {
    NormalStep,
    WideningStep,
    NarrowingStep,
}

/// Every literal of the command is well formed.
pub open spec fn command_wf<D: AbstractDomain>(cmd: Command<D>, c: D::Config) -> bool {
    match cmd {
        Command::Assignment(_, a) => aexpr_wf(a, c),
        Command::Test(b) => bexpr_wf(b, c),
    }
}

/// A graph the analysis can run on: well formed, entered at `0`, with well-formed literals.
pub open spec fn program_wf<D: AbstractDomain>(p: &Program<D>, c: D::Config) -> bool {
    &&& well_formed_graph(p@)
    &&& p.entry == 0
    &&& forall|i: int| 0 <= i < p.arcs@.len() ==> command_wf((#[trigger] p.arcs@[i]).1, c)
}

/// The effect of a command on a state.
pub open spec fn apply_spec<D: AbstractDomain>(cmd: Command<D>, s: StateModel<D>, c: D::Config) -> StateModel<D> {
    match cmd {
        Command::Assignment(x, a) => {
            let r = eval_aexpr_spec(a, s, c);
            model_set(r.1, x@, r.0)
        },
        Command::Test(b) => eval_bexpr_spec(b, s, c),
    }
}

/// `acc` joined, arc after arc, with what each arc into `l` brings from the state
/// of its source in `m`.
pub open spec fn incoming<D: AbstractDomain>(
    arcs: Seq<(Label, Command<D>, Label)>,
    l: Label,
    m: Seq<StateModel<D>>,
    acc: StateModel<D>,
    c: D::Config,
) -> StateModel<D>
    decreases arcs.len(),
{
    if arcs.len() == 0 {
        acc
    } else {
        let a = incoming(arcs.drop_last(), l, m, acc, c);
        let e = arcs.last();
        if e.2 == l {
            model_lub(a, apply_spec(e.1, m[e.0 as int], c), c)
        } else {
            a
        }
    }
}

/// The new state of label `i`: the initial state at the entry, joined with what
/// the incoming arcs bring; at a widening point, widened or narrowed with the old one.
pub open spec fn label_step<D: AbstractDomain>(
    p: ProgramModel<D>,
    init: StateModel<D>,
    m: Seq<StateModel<D>>,
    step: StepType,
    c: D::Config,
    i: int,
) -> StateModel<D> {
    let start = if i == 0 { init } else { None };
    let joined = incoming(p.1, i as Label, m, start, c);
    if p.2.contains(i as Label) {
        match step {
            StepType::NormalStep => joined,
            StepType::WideningStep => model_widening(m[i], joined, c),
            StepType::NarrowingStep => model_narrowing(m[i], joined, c),
        }
    } else {
        joined
    }
}

/// One iteration over all labels.
pub open spec fn iteration_spec<D: AbstractDomain>(
    p: ProgramModel<D>,
    init: StateModel<D>,
    m: Seq<StateModel<D>>,
    step: StepType,
    c: D::Config,
) -> Seq<StateModel<D>> {
    Seq::new(p.0, |i: int| label_step(p, init, m, step, c, i))
}

/// Iterates from `m` until a state map is stable, with at most `fuel` more
/// iterations; `None` if they do not suffice.
pub open spec fn iterate<D: AbstractDomain>(
    p: ProgramModel<D>,
    init: StateModel<D>,
    m: Seq<StateModel<D>>,
    step: StepType,
    c: D::Config,
    fuel: nat,
) -> Option<Seq<StateModel<D>>>
    decreases fuel,
{
    let n = iteration_spec(p, init, m, step, c);
    if n == m {
        Some(m)
    } else if fuel == 0 {
        None
    } else {
        iterate(p, init, n, step, c, (fuel - 1) as nat)
    }
}

/// The state map where every label is unreachable.
pub open spec fn initial_map<D: AbstractDomain>(p: ProgramModel<D>) -> Seq<StateModel<D>> {
    Seq::new(p.0, |i: int| None::<Map<Seq<char>, D>>)
}

/// The result of the analysis: plain iteration, widening iteration, or widening
/// iteration followed by narrowing iteration from its result, each until stable.
pub open spec fn analyze_spec<D: AbstractDomain>(
    p: ProgramModel<D>,
    init: StateModel<D>,
    strategy: IterationStrategy,
    c: D::Config,
    fuel: nat,
) -> Option<Seq<StateModel<D>>> {
    match strategy {
        IterationStrategy::Simple => iterate(p, init, initial_map(p), StepType::NormalStep, c, fuel),
        IterationStrategy::Widening => iterate(p, init, initial_map(p), StepType::WideningStep, c, fuel),
        IterationStrategy::WideningAndNarrowing => match iterate(p, init, initial_map(p), StepType::WideningStep, c, fuel) {
            Some(m) => iterate(p, init, m, StepType::NarrowingStep, c, fuel),
            None => None,
        },
    }
}

/// The models of a list of states.
pub open spec fn views<D: AbstractDomain>(v: Seq<HashMapState<D>>) -> Seq<StateModel<D>> {
    v.map_values(|s: HashMapState<D>| s@)
}

/// A stable result of `iterate` is a fixpoint of the iteration.
pub proof fn lemma_iterate_stable<D: AbstractDomain>(
    p: ProgramModel<D>,
    init: StateModel<D>,
    m: Seq<StateModel<D>>,
    step: StepType,
    c: D::Config,
    fuel: nat,
)
    ensures
        iterate(p, init, m, step, c, fuel) matches Some(r) ==> iteration_spec(p, init, r, step, c) == r,
    decreases fuel,
{
    if iteration_spec(p, init, m, step, c) != m && fuel > 0 {
        lemma_iterate_stable(p, init, iteration_spec(p, init, m, step, c), step, c, (fuel - 1) as nat);
    }
}

/// The analyzer: the transfer of states along arcs and the fixpoint iteration.
pub struct GenericAnalyzer;

impl GenericAnalyzer {
    /// Applies a command to a state.
    pub fn apply_cmd<D: AbstractDomain>(cmd: &Command<D>, old_state: &HashMapState<D>, c: D::Config) -> (r: HashMapState<D>)
        requires
            old_state.wf(c),
            command_wf(*cmd, c),
        ensures
            r@ == apply_spec(*cmd, old_state@, c),
            r.wf(c),
    {
        let state = old_state.duplicate();
        match cmd {
            Command::Assignment(x, a) => {
                let (d, mut s2) = eval_aexpr(a, state, c);
                s2.set(x.clone(), d, c);
                s2
            },
            Command::Test(b) => eval_bexpr(b, state, c),
        }
    }

    fn is_widening_point(wps: &Vec<Label>, l: Label) -> (r: bool)
        ensures
            r == wps@.contains(l),
    {
        let mut i: usize = 0;
        while i < wps.len()
            invariant
                i <= wps@.len(),
                forall|j: int| 0 <= j < i ==> wps@[j] != l,
            decreases wps@.len() - i,
        {
            if wps[i] == l {
                return true;
            }
            i += 1;
        }
        false
    }

    /// One iteration: the new state of every label from the states `states`.
    pub fn make_iteration<D: AbstractDomain>(
        prog: &Program<D>,
        init_state: &HashMapState<D>,
        states: &Vec<HashMapState<D>>,
        step_type: StepType,
        c: D::Config,
    ) -> (r: Vec<HashMapState<D>>)
        requires
            program_wf(prog, c),
            init_state.wf(c),
            states@.len() == prog.labels_num,
            forall|i: int| 0 <= i < states@.len() ==> (#[trigger] states@[i]).wf(c),
        ensures
            views(r@) == iteration_spec(prog@, init_state@, views(states@), step_type, c),
            r@.len() == prog.labels_num,
            forall|i: int| 0 <= i < r@.len() ==> (#[trigger] r@[i]).wf(c),
    {
        let ghost m = views(states@);
        let mut all: Vec<HashMapState<D>> = Vec::new();
        let mut i: u32 = 0;
        while i < prog.labels_num
            invariant
                program_wf(prog, c),
                init_state.wf(c),
                states@.len() == prog.labels_num,
                forall|q: int| 0 <= q < states@.len() ==> (#[trigger] states@[q]).wf(c),
                m == views(states@),
                i <= prog.labels_num,
                all@.len() == i,
                forall|q: int| 0 <= q < all@.len() ==> (#[trigger] all@[q]).wf(c),
                forall|q: int| 0 <= q < all@.len() ==> (#[trigger] all@[q])@ == label_step(prog@, init_state@, m, step_type, c, q),
            decreases prog.labels_num - i,
        {
            let mut new_state = if i == prog.entry { init_state.duplicate() } else { HashMapState::bottom() };
            let ghost start = new_state@;
            proof {
                assert(prog.arcs@.take(0) =~= Seq::<(Label, Command<D>, Label)>::empty());
            }
            let mut j: usize = 0;
            while j < prog.arcs.len()
                invariant
                    program_wf(prog, c),
                    states@.len() == prog.labels_num,
                    forall|q: int| 0 <= q < states@.len() ==> (#[trigger] states@[q]).wf(c),
                    m == views(states@),
                    j <= prog.arcs@.len(),
                    new_state.wf(c),
                    new_state@ == incoming(prog.arcs@.take(j as int), i, m, start, c),
                decreases prog.arcs@.len() - j,
            {
                let arc = &prog.arcs[j];
                proof {
                    assert(prog.arcs@.take(j + 1).drop_last() =~= prog.arcs@.take(j as int));
                    assert(command_wf(prog.arcs@[j as int].1, c));
                    assert(prog@.1[j as int] == prog.arcs@[j as int]);
                    assert(prog.arcs@[j as int].0 < prog.labels_num);
                }
                if arc.2 == i {
                    let src = arc.0 as usize;
                    let s = Self::apply_cmd(&arc.1, &states[src], c);
                    new_state = new_state.lub(&s, c);
                }
                j += 1;
            }
            proof {
                assert(prog.arcs@.take(prog.arcs@.len() as int) =~= prog.arcs@);
            }
            if Self::is_widening_point(&prog.widening_points, i) {
                let old_state = states[i as usize].duplicate();
                new_state = match step_type {
                    StepType::NormalStep => new_state,
                    StepType::WideningStep => old_state.widening(new_state, c),
                    StepType::NarrowingStep => old_state.narrowing(new_state, c),
                };
            }
            all.push(new_state);
            i += 1;
        }
        proof {
            assert(views(all@) =~= iteration_spec(prog@, init_state@, m, step_type, c));
        }
        all
    }

    fn same_maps<D: AbstractDomain>(a: &Vec<HashMapState<D>>, b: &Vec<HashMapState<D>>, c: D::Config) -> (r: bool)
        requires
            a@.len() == b@.len(),
            forall|i: int| 0 <= i < a@.len() ==> (#[trigger] a@[i]).wf(c),
            forall|i: int| 0 <= i < b@.len() ==> (#[trigger] b@[i]).wf(c),
        ensures
            r == (views(a@) == views(b@)),
    {
        let mut i: usize = 0;
        while i < a.len()
            invariant
                a@.len() == b@.len(),
                forall|q: int| 0 <= q < a@.len() ==> (#[trigger] a@[q]).wf(c),
                forall|q: int| 0 <= q < b@.len() ==> (#[trigger] b@[q]).wf(c),
                i <= a@.len(),
                forall|q: int| 0 <= q < i ==> (#[trigger] a@[q])@ == b@[q]@,
            decreases a@.len() - i,
        {
            if !a[i].same_as(&b[i]) {
                proof {
                    assert(views(a@)[i as int] != views(b@)[i as int]);
                }
                return false;
            }
            i += 1;
        }
        proof {
            assert(views(a@) =~= views(b@));
        }
        true
    }

    fn run<D: AbstractDomain>(
        prog: &Program<D>,
        init_state: &HashMapState<D>,
        states: Vec<HashMapState<D>>,
        step_type: StepType,
        c: D::Config,
        fuel: u64,
    ) -> (r: Option<Vec<HashMapState<D>>>)
        requires
            program_wf(prog, c),
            init_state.wf(c),
            states@.len() == prog.labels_num,
            forall|i: int| 0 <= i < states@.len() ==> (#[trigger] states@[i]).wf(c),
        ensures
            match r {
                Some(v) => {
                    &&& iterate(prog@, init_state@, views(states@), step_type, c, fuel as nat) == Some(views(v@))
                    &&& v@.len() == prog.labels_num
                    &&& forall|i: int| 0 <= i < v@.len() ==> (#[trigger] v@[i]).wf(c)
                },
                None => iterate(prog@, init_state@, views(states@), step_type, c, fuel as nat) is None,
            },
    {
        let ghost goal = iterate(prog@, init_state@, views(states@), step_type, c, fuel as nat);
        let mut cur = states;
        let mut next = Self::make_iteration(prog, init_state, &cur, step_type, c);
        let mut fuel = fuel;
        while !Self::same_maps(&next, &cur, c) && fuel > 0
            invariant
                program_wf(prog, c),
                init_state.wf(c),
                cur@.len() == prog.labels_num,
                next@.len() == prog.labels_num,
                forall|i: int| 0 <= i < cur@.len() ==> (#[trigger] cur@[i]).wf(c),
                forall|i: int| 0 <= i < next@.len() ==> (#[trigger] next@[i]).wf(c),
                views(next@) == iteration_spec(prog@, init_state@, views(cur@), step_type, c),
                goal == iterate(prog@, init_state@, views(cur@), step_type, c, fuel as nat),
            decreases fuel,
        {
            cur = next;
            next = Self::make_iteration(prog, init_state, &cur, step_type, c);
            fuel -= 1;
        }
        if Self::same_maps(&next, &cur, c) {
            Some(cur)
        } else {
            None
        }
    }

    /// Runs the analysis of `prog` from `init_state` at its entry, with at most
    /// `max_iterations` iterations per phase. The result gives the state of each
    /// label; it is `None` when a phase did not become stable in time (plain iteration
    /// on a domain with infinite ascending chains may never become stable).
    pub fn analyze<D: AbstractDomain>(
        prog: &Program<D>,
        init_state: &HashMapState<D>,
        iteration_strategy: IterationStrategy,
        c: D::Config,
        max_iterations: u64,
    ) -> (r: Option<Vec<HashMapState<D>>>)
        requires
            program_wf(prog, c),
            init_state.wf(c),
        ensures
            match r {
                Some(v) => analyze_spec(prog@, init_state@, iteration_strategy, c, max_iterations as nat) == Some(views(v@)),
                None => analyze_spec(prog@, init_state@, iteration_strategy, c, max_iterations as nat) is None,
            },
    {
        let mut all: Vec<HashMapState<D>> = Vec::new();
        let mut i: u32 = 0;
        while i < prog.labels_num
            invariant
                i <= prog.labels_num,
                all@.len() == i,
                forall|q: int| 0 <= q < all@.len() ==> (#[trigger] all@[q]).wf(c),
                forall|q: int| 0 <= q < all@.len() ==> (#[trigger] all@[q])@ is None,
            decreases prog.labels_num - i,
        {
            all.push(HashMapState::bottom());
            i += 1;
        }
        proof {
            assert(views(all@) =~= initial_map(prog@));
        }
        match iteration_strategy {
            IterationStrategy::Simple => Self::run(prog, init_state, all, StepType::NormalStep, c, max_iterations),
            IterationStrategy::Widening => Self::run(prog, init_state, all, StepType::WideningStep, c, max_iterations),
            IterationStrategy::WideningAndNarrowing => {
                match Self::run(prog, init_state, all, StepType::WideningStep, c, max_iterations) {
                    Some(m) => Self::run(prog, init_state, m, StepType::NarrowingStep, c, max_iterations),
                    None => None,
                }
            },
        }
    }
}

} // verus!
