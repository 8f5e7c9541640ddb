use while_analyzer::analyzer::{GenericAnalyzer, IterationStrategy};
use while_analyzer::ast::{Aexpr, Bexpr, LitInterval, Operator, Statement};
use while_analyzer::ext_num::ExtendedNum;
use while_analyzer::interval::{BoundedIntervalDomain, IntervalBounds};
use while_analyzer::program::Program;
use while_analyzer::state::HashMapState;
use while_analyzer::translate::init_program;

fn num(n: i128) -> Box<Aexpr<LitInterval>> {
    Box::new(Aexpr::Lit(LitInterval(n, n)))
}

fn var(x: &str) -> Box<Aexpr<LitInterval>> {
    Box::new(Aexpr::Var(x.to_string()))
}

fn bin(op: Operator, a: Box<Aexpr<LitInterval>>, b: Box<Aexpr<LitInterval>>) -> Box<Aexpr<LitInterval>> {
    Box::new(Aexpr::BinOp(op, a, b))
}

fn assign(x: &str, a: Box<Aexpr<LitInterval>>) -> Statement<LitInterval> {
    Statement::Assign(x.to_string(), a)
}

fn seq(s1: Statement<LitInterval>, s2: Statement<LitInterval>) -> Statement<LitInterval> {
    Statement::Compose(Box::new(s1), Box::new(s2))
}

fn range(l: i128, u: i128) -> BoundedIntervalDomain {
    BoundedIntervalDomain::Range(ExtendedNum::Num(l), ExtendedNum::Num(u))
}

fn run_interval(
    stm: &Statement<LitInterval>,
    init: &HashMapState<BoundedIntervalDomain>,
    strategy: IterationStrategy,
) -> (Program<BoundedIntervalDomain>, Vec<HashMapState<BoundedIntervalDomain>>) {
    let c = IntervalBounds::unbounded();
    let prog: Program<BoundedIntervalDomain> = init_program(stm, c);
    let result = GenericAnalyzer::analyze(&prog, init, strategy, c, 10_000).expect("the analysis becomes stable");
    (prog, result)
}

#[test]
fn factorial_loop_invariants() {
    let body = seq(
        assign("x", bin(Operator::Mul, var("x"), var("y"))),
        assign("y", bin(Operator::Sub, var("y"), num(1))),
    );
    let cond = Bexpr::Not(Box::new(Bexpr::Equal(var("y"), num(0))));
    let stm = seq(
        seq(assign("y", num(25)), assign("x", num(1))),
        Statement::While(Box::new(cond), Box::new(body)),
    );
    let (prog, result) = run_interval(&stm, &HashMapState::top(), IterationStrategy::WideningAndNarrowing);
    let head = prog.widening_points[0] as usize;
    let exit = (prog.labels_num - 1) as usize;
    assert_eq!(result[head].get(&"x".to_string()), BoundedIntervalDomain::Top);
    assert_eq!(result[exit].get(&"x".to_string()), BoundedIntervalDomain::Top);
    assert_eq!(result[exit].get(&"y".to_string()), range(0, 0));
    // The test `y != 0` refines nothing in intervals (its target, [-inf,-1] joined
    // with [1,+inf], is the whole line) and widening drops the lower bound of the
    // decreasing y, so the head holds [-inf, 25] rather than [0, 25].
    assert_eq!(
        result[head].get(&"y".to_string()),
        BoundedIntervalDomain::Range(ExtendedNum::NegInf, ExtendedNum::Num(25))
    );
}

#[test]
fn infinite_loop_exit_unreachable() {
    let stm = Statement::While(Box::new(Bexpr::True), Box::new(Statement::Skip));
    let (prog, result) = run_interval(&stm, &HashMapState::top(), IterationStrategy::Widening);
    let exit = (prog.labels_num - 1) as usize;
    assert!(result[exit].is_bottom());
    let head = prog.widening_points[0] as usize;
    assert!(result[head].same_as(&HashMapState::top()));
}

#[test]
fn while_false_keeps_assignment() {
    let stm = seq(
        assign("x", num(1)),
        Statement::While(Box::new(Bexpr::False), Box::new(assign("x", num(2)))),
    );
    let (prog, result) = run_interval(&stm, &HashMapState::top(), IterationStrategy::Simple);
    let exit = (prog.labels_num - 1) as usize;
    assert_eq!(result[exit].get(&"x".to_string()), range(1, 1));
}

#[test]
fn counting_loop_widening_narrowing() {
    let stm = seq(
        assign("x", num(0)),
        Statement::While(
            Box::new(Bexpr::LessEq(var("x"), num(1000))),
            Box::new(assign("x", bin(Operator::Add, var("x"), num(10)))),
        ),
    );
    let (prog, result) = run_interval(&stm, &HashMapState::top(), IterationStrategy::WideningAndNarrowing);
    let head = prog.widening_points[0] as usize;
    let exit = (prog.labels_num - 1) as usize;
    assert_eq!(result[head].get(&"x".to_string()), range(0, 1010));
    assert_eq!(result[exit].get(&"x".to_string()), range(1001, 1010));
}

#[test]
fn conditional_refines_branches() {
    let stm = Statement::IfThenElse(
        Box::new(Bexpr::LessEq(var("x"), num(0))),
        Box::new(assign("y", num(1))),
        Box::new(assign("y", bin(Operator::Sub, num(0), num(1)))),
    );
    let c = IntervalBounds::unbounded();
    let mut init: HashMapState<BoundedIntervalDomain> = HashMapState::top();
    init.set("x".to_string(), range(-5, 5), c);
    let (prog, result) = run_interval(&stm, &init, IterationStrategy::Simple);
    let exit = (prog.labels_num - 1) as usize;
    assert_eq!(result[exit].get(&"x".to_string()), range(-5, 5));
    assert_eq!(result[exit].get(&"y".to_string()), range(-1, 1));
    assert_eq!(result[1].get(&"x".to_string()), range(-5, 0));
    assert_eq!(result[2].get(&"x".to_string()), range(1, 5));
}
