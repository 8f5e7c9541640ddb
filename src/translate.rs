use vstd::prelude::*;

use crate::analyzer::{command_wf, program_wf};
use crate::ast::{Aexpr, Bexpr, LitInterval, Statement};
use crate::domain::{AbstractDomain, Interval};
use crate::program::{count_labels, labels_of, lower, stm_to_program, Command, Label, Program, well_formed_graph};
use crate::semantics::{aexpr_wf, bexpr_wf};

verus! {

/// An expression with its literal intervals turned into domain elements.
pub open spec fn translate_aexpr_spec<D: AbstractDomain>(a: Aexpr<LitInterval>, c: D::Config) -> Aexpr<D>
    decreases a,
{
    match a {
        Aexpr::Lit(n) => Aexpr::Lit(D::spec_from_interval(Interval::Closed(n.0, n.1), c)),
        Aexpr::Var(x) => Aexpr::Var(x),
        Aexpr::PreOp(op, x) => Aexpr::PreOp(op, x),
        Aexpr::PostOp(op, x) => Aexpr::PostOp(op, x),
        Aexpr::BinOp(op, a1, a2) => Aexpr::BinOp(
            op,
            Box::new(translate_aexpr_spec(*a1, c)),
            Box::new(translate_aexpr_spec(*a2, c)),
        ),
    }
}

pub open spec fn translate_bexpr_spec<D: AbstractDomain>(b: Bexpr<LitInterval>, c: D::Config) -> Bexpr<D>
    decreases b,
{
    match b {
        Bexpr::True => Bexpr::True,
        Bexpr::False => Bexpr::False,
        Bexpr::Equal(a1, a2) => Bexpr::Equal(Box::new(translate_aexpr_spec(*a1, c)), Box::new(translate_aexpr_spec(*a2, c))),
        Bexpr::LessEq(a1, a2) => Bexpr::LessEq(Box::new(translate_aexpr_spec(*a1, c)), Box::new(translate_aexpr_spec(*a2, c))),
        Bexpr::Not(b1) => Bexpr::Not(Box::new(translate_bexpr_spec(*b1, c))),
        Bexpr::And(b1, b2) => Bexpr::And(Box::new(translate_bexpr_spec(*b1, c)), Box::new(translate_bexpr_spec(*b2, c))),
    }
}

pub open spec fn translate_command_spec<D: AbstractDomain>(cmd: Command<LitInterval>, c: D::Config) -> Command<D> {
    match cmd {
        Command::Assignment(x, a) => Command::Assignment(x, translate_aexpr_spec(a, c)),
        Command::Test(b) => Command::Test(translate_bexpr_spec(b, c)),
    }
}

/// The arcs of a graph with their literals turned into domain elements.
pub open spec fn translate_arcs_spec<D: AbstractDomain>(
    arcs: Seq<(Label, Command<LitInterval>, Label)>,
    c: D::Config,
) -> Seq<(Label, Command<D>, Label)> {
    arcs.map_values(|a: (Label, Command<LitInterval>, Label)| (a.0, translate_command_spec::<D>(a.1, c), a.2))
}

fn translate_aexpr<D: AbstractDomain>(a: &Aexpr<LitInterval>, c: D::Config) -> (r: Aexpr<D>)
    ensures
        r == translate_aexpr_spec::<D>(*a, c),
        aexpr_wf(r, c),
    decreases a,
{
    match a {
        Aexpr::Lit(n) => Aexpr::Lit(D::from_interval(Interval::from_literal(*n), c)),
        Aexpr::Var(x) => Aexpr::Var(x.clone()),
        Aexpr::PreOp(op, x) => Aexpr::PreOp(*op, x.clone()),
        Aexpr::PostOp(op, x) => Aexpr::PostOp(*op, x.clone()),
        Aexpr::BinOp(op, a1, a2) => Aexpr::BinOp(*op, Box::new(translate_aexpr(a1, c)), Box::new(translate_aexpr(a2, c))),
    }
}

fn translate_bexpr<D: AbstractDomain>(b: &Bexpr<LitInterval>, c: D::Config) -> (r: Bexpr<D>)
    ensures
        r == translate_bexpr_spec::<D>(*b, c),
        bexpr_wf(r, c),
    decreases b,
{
    match b {
        Bexpr::True => Bexpr::True,
        Bexpr::False => Bexpr::False,
        Bexpr::Equal(a1, a2) => Bexpr::Equal(Box::new(translate_aexpr(a1, c)), Box::new(translate_aexpr(a2, c))),
        Bexpr::LessEq(a1, a2) => Bexpr::LessEq(Box::new(translate_aexpr(a1, c)), Box::new(translate_aexpr(a2, c))),
        Bexpr::Not(b1) => Bexpr::Not(Box::new(translate_bexpr(b1, c))),
        Bexpr::And(b1, b2) => Bexpr::And(Box::new(translate_bexpr(b1, c)), Box::new(translate_bexpr(b2, c))),
    }
}

/// The graph with each literal interval `[l, u]` turned into the domain element
/// for it.
pub fn abstract_program<D: AbstractDomain>(prog: &Program<LitInterval>, c: D::Config) -> (r: Program<D>)
    ensures
        r.labels_num == prog.labels_num,
        r.entry == prog.entry,
        r.widening_points@ == prog.widening_points@,
        r.arcs@ == translate_arcs_spec::<D>(prog.arcs@, c),
        forall|i: int| 0 <= i < r.arcs@.len() ==> command_wf((#[trigger] r.arcs@[i]).1, c),
{
    let mut arcs: Vec<(Label, Command<D>, Label)> = Vec::new();
    let mut i: usize = 0;
    while i < prog.arcs.len()
        invariant
            i <= prog.arcs@.len(),
            arcs@ == translate_arcs_spec::<D>(prog.arcs@.take(i as int), c),
            forall|q: int| 0 <= q < arcs@.len() ==> command_wf((#[trigger] arcs@[q]).1, c),
        decreases prog.arcs@.len() - i,
    {
        let (l1, cmd, l2) = &prog.arcs[i];
        let abs_cmd = match cmd {
            Command::Assignment(x, a) => Command::Assignment(x.clone(), translate_aexpr(a, c)),
            Command::Test(b) => Command::Test(translate_bexpr(b, c)),
        };
        arcs.push((*l1, abs_cmd, *l2));
        proof {
            assert(prog.arcs@.take(i + 1) =~= prog.arcs@.take(i as int).push(prog.arcs@[i as int]));
            assert(arcs@ =~= translate_arcs_spec::<D>(prog.arcs@.take(i + 1), c));
        }
        i += 1;
    }
    proof {
        assert(prog.arcs@.take(prog.arcs@.len() as int) =~= prog.arcs@);
    }
    let mut wps: Vec<Label> = Vec::new();
    let mut j: usize = 0;
    while j < prog.widening_points.len()
        invariant
            j <= prog.widening_points@.len(),
            wps@ == prog.widening_points@.take(j as int),
        decreases prog.widening_points@.len() - j,
    {
        wps.push(prog.widening_points[j]);
        proof {
            assert(prog.widening_points@.take(j + 1) =~= prog.widening_points@.take(j as int).push(prog.widening_points@[j as int]));
        }
        j += 1;
    }
    proof {
        assert(prog.widening_points@.take(prog.widening_points@.len() as int) =~= prog.widening_points@);
    }
    Program { labels_num: prog.labels_num, entry: prog.entry, widening_points: wps, arcs }
}

/// The graph of a program ready for the analysis in domain `D`: lowered from the
/// syntax tree, its literals turned into domain elements.
pub fn init_program<D: AbstractDomain>(ast: &Statement<LitInterval>, c: D::Config) -> (r: Program<D>)
    requires
        labels_of(*ast) <= u32::MAX,
    ensures
        r.labels_num == lower(*ast).0,
        r.widening_points@ == lower(*ast).2,
        r.arcs@ == translate_arcs_spec::<D>(lower(*ast).1, c),
        program_wf(&r, c),
{
    let p = stm_to_program(ast);
    let r = abstract_program(&p, c);
    proof {
        assert forall|i: int| 0 <= i < r@.1.len() implies (#[trigger] r@.1[i]).0 < r@.0 && r@.1[i].2 < r@.0
            && r@.1[i].0 != r@.0 - 1 && (r@.1[i].0 < r@.1[i].2 || r@.2.contains(r@.1[i].2)) by {
            assert(r@.1[i] == (p@.1[i].0, translate_command_spec::<D>(p@.1[i].1, c), p@.1[i].2));
            assert(p@.1[i].0 == r@.1[i].0 && p@.1[i].2 == r@.1[i].2);
        }
        assert(r@.2 == p@.2);
        assert(well_formed_graph(r@));
    }
    r
}

/// The graph of a program ready for the analysis, or `None` when it has more
/// labels than a label can number.
pub fn try_init_program<D: AbstractDomain>(ast: &Statement<LitInterval>, c: D::Config) -> (r: Option<Program<D>>)
    ensures
        match r {
            Some(p) => {
                &&& labels_of(*ast) <= u32::MAX
                &&& p.labels_num == lower(*ast).0
                &&& p.widening_points@ == lower(*ast).2
                &&& p.arcs@ == translate_arcs_spec::<D>(lower(*ast).1, c)
                &&& program_wf(&p, c)
            },
            None => labels_of(*ast) > u32::MAX,
        },
{
    match count_labels(ast) {
        Some(_) => Some(init_program(ast, c)),
        None => None,
    }
}

} // verus!
