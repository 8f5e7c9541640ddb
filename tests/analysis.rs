use while_analyzer::analyzer::{GenericAnalyzer, IterationStrategy};
use while_analyzer::ast::LitInterval;
use while_analyzer::congruence::CongruenceDomain;
use while_analyzer::desugar::parse_string;
use while_analyzer::domain::NoConfig;
use while_analyzer::ext_num::ExtendedNum;
use while_analyzer::interpreter::{eval_statement, to_concrete, ConcreteState, RuntimeError, Unsupported};
use while_analyzer::interval::{BoundedIntervalDomain, IntervalBounds};
use while_analyzer::program::{stm_to_program, Program, ProgramInterface};
use while_analyzer::sign::SignDomain;
use while_analyzer::state::HashMapState;
use while_analyzer::translate::init_program;
use while_analyzer::values::{parse_bounds, parse_state};

fn range(l: i128, u: i128) -> BoundedIntervalDomain {
    BoundedIntervalDomain::Range(ExtendedNum::Num(l), ExtendedNum::Num(u))
}

fn key(x: &str) -> String {
    x.to_string()
}

#[test]
fn congruence_loop_invariant() {
    let stm = parse_string("x:=6; y:=10; while not (x==y) do if x<=y then x:=x+2; else y:=y+1;").expect("parses");
    let prog: Program<CongruenceDomain> = init_program(&stm, NoConfig);
    let result = GenericAnalyzer::analyze(&prog, &HashMapState::top(), IterationStrategy::Widening, NoConfig, 1000)
        .expect("stable");
    let head = prog.get_loop_label()[0] as usize;
    assert_eq!(result[head].get(&key("x")), CongruenceDomain::Congruence { a: 2, b: 0 });
    assert_eq!(result[head].get(&key("y")), CongruenceDomain::Congruence { a: 1, b: 0 });
}

#[test]
fn analysis_is_deterministic() {
    let stm = parse_string("x:=0; while x<=1000 do x:=x+10;").expect("parses");
    let c = IntervalBounds::unbounded();
    let prog: Program<BoundedIntervalDomain> = init_program(&stm, c);
    let r1 = GenericAnalyzer::analyze(&prog, &HashMapState::top(), IterationStrategy::WideningAndNarrowing, c, 1000).unwrap();
    let r2 = GenericAnalyzer::analyze(&prog, &HashMapState::top(), IterationStrategy::WideningAndNarrowing, c, 1000).unwrap();
    assert_eq!(r1.len(), r2.len());
    for i in 0..r1.len() {
        assert!(r1[i].same_as(&r2[i]));
    }
}

#[test]
fn analysis_covers_concrete_runs() {
    let text = "x := 3; y := 0; while 0 < x do { y := y + x; x := x - 1; }";
    let stm = parse_string(text).expect("parses");
    let concrete = to_concrete(&stm).expect("plain literals");
    let end = eval_statement(&concrete, ConcreteState::new(), 1000).expect("terminates");
    let c = IntervalBounds::unbounded();
    let prog: Program<BoundedIntervalDomain> = init_program(&stm, c);
    let result = GenericAnalyzer::analyze(&prog, &HashMapState::top(), IterationStrategy::WideningAndNarrowing, c, 1000).unwrap();
    let exit = prog.get_end_label() as usize;
    for x in ["x", "y"] {
        let v = end.get(&key(x)).expect("assigned");
        match result[exit].get(&key(x)) {
            BoundedIntervalDomain::Range(l, u) => {
                assert!(l.less_eq(&ExtendedNum::Num(v)) && ExtendedNum::Num(v).less_eq(&u));
            },
            BoundedIntervalDomain::Top => {},
            BoundedIntervalDomain::Bottom => panic!("the exit is reachable"),
        }
    }
    assert_eq!(end.get(&key("y")), Some(6));
    assert_eq!(result[exit].get(&key("x")), range(0, 0));
}

#[test]
fn sign_analysis_of_decrement() {
    let stm = parse_string("x := 5; x := x - 1;").expect("parses");
    let prog: Program<SignDomain> = init_program(&stm, NoConfig);
    let result = GenericAnalyzer::analyze(&prog, &HashMapState::top(), IterationStrategy::Simple, NoConfig, 100).unwrap();
    assert_eq!(result[1].get(&key("x")), SignDomain::Positive);
    assert_eq!(result[2].get(&key("x")), SignDomain::Top);
}

#[test]
fn plain_iteration_may_not_stabilise() {
    let stm = parse_string("x := 0; while true do x := x + 1;").expect("parses");
    let c = IntervalBounds::unbounded();
    let prog: Program<BoundedIntervalDomain> = init_program(&stm, c);
    assert!(GenericAnalyzer::analyze(&prog, &HashMapState::top(), IterationStrategy::Simple, c, 50).is_none());
    assert!(GenericAnalyzer::analyze(&prog, &HashMapState::top(), IterationStrategy::Widening, c, 50).is_some());
}

#[test]
fn increments_in_tests_are_applied() {
    let stm = parse_string("x := 0; if x++ <= 0 then y := x; else y := 7;").expect("parses");
    let c = IntervalBounds::unbounded();
    let prog: Program<BoundedIntervalDomain> = init_program(&stm, c);
    let result = GenericAnalyzer::analyze(&prog, &HashMapState::top(), IterationStrategy::Simple, c, 100).unwrap();
    let exit = prog.get_end_label() as usize;
    assert_eq!(result[exit].get(&key("x")), range(1, 1));
    assert_eq!(result[exit].get(&key("y")), range(1, 1));
}

#[test]
fn lowering_shapes() {
    let stm = parse_string("if x <= 0 then y := 1; else y := 2;").expect("parses");
    let p = stm_to_program(&stm);
    assert_eq!(p.labels_num, 4);
    assert_eq!(p.arcs.len(), 4);
    assert!(p.widening_points.is_empty());
    let stm = parse_string("while x <= 3 do { x := x + 1; y := x; }").expect("parses");
    let p = stm_to_program(&stm);
    assert_eq!(p.labels_num, 4);
    assert_eq!(p.widening_points, vec![0]);
    assert_eq!(p.get_entering_arcs(0).len(), 1);
    let stm = parse_string("skip;").expect("parses");
    let p = stm_to_program(&stm);
    assert_eq!(p.labels_num, 1);
    assert!(p.arcs.is_empty());
}

#[test]
fn program_new_counts_labels() {
    let p: Program<LitInterval> = Program::new(Vec::new(), Vec::new());
    assert_eq!(p.labels_num, 1);
    assert_eq!(p.get_end_label(), 0);
}

#[test]
fn interpreter_errors() {
    let stm = to_concrete(&parse_string("x := y + 1;").unwrap()).unwrap();
    assert!(matches!(eval_statement(&stm, ConcreteState::new(), 10), Err(RuntimeError::VariableNotInitialized(ref v)) if v == "y"));
    let stm = to_concrete(&parse_string("x := 4 / 2;").unwrap()).unwrap();
    assert!(matches!(eval_statement(&stm, ConcreteState::new(), 10), Err(RuntimeError::NotImplemented(Unsupported::Division))));
    let stm = to_concrete(&parse_string("x := 0; x := x++;").unwrap()).unwrap();
    assert!(matches!(eval_statement(&stm, ConcreteState::new(), 10), Err(RuntimeError::NotImplemented(Unsupported::PostfixOperator))));
    let stm = to_concrete(&parse_string("while true do skip;").unwrap()).unwrap();
    assert!(matches!(eval_statement(&stm, ConcreteState::new(), 10), Err(RuntimeError::OutOfFuel)));
    let stm = to_concrete(&parse_string("x := 170141183460469231731687303715884105727 + 1;").unwrap()).unwrap();
    assert!(matches!(eval_statement(&stm, ConcreteState::new(), 10), Err(RuntimeError::Overflow)));
    assert!(to_concrete(&parse_string("x := [1,2];").unwrap()).is_none());
}

#[test]
fn reads_states_and_bounds() {
    let c = IntervalBounds::unbounded();
    let s: HashMapState<BoundedIntervalDomain> = parse_state("x:5;y:[1,10]", c).expect("reads");
    assert_eq!(s.get(&key("x")), range(5, 5));
    assert_eq!(s.get(&key("y")), range(1, 10));
    assert_eq!(s.get(&key("z")), BoundedIntervalDomain::Top);
    assert!(parse_state::<BoundedIntervalDomain>("x=5", c).is_none());
    let s: HashMapState<CongruenceDomain> = parse_state("x:2Z+1", NoConfig).expect("reads");
    assert_eq!(s.get(&key("x")), CongruenceDomain::Congruence { a: 2, b: 1 });
    let s: HashMapState<SignDomain> = parse_state("x:-", NoConfig).expect("reads");
    assert_eq!(s.get(&key("x")), SignDomain::Negative);
    let b = parse_bounds("[-100,100]").expect("reads");
    assert_eq!(b.lower, ExtendedNum::Num(-100));
    assert_eq!(b.upper, ExtendedNum::Num(100));
    assert!(parse_bounds("[5,1]").is_none());
    assert_eq!(parse_bounds("[-inf,inf]").unwrap().upper, ExtendedNum::PosInf);
    assert!(parse_bounds("[1,2").is_none());
    assert!(parse_bounds("[1;2]").is_none());
    let s: HashMapState<BoundedIntervalDomain> = parse_state("x:1;x:[2,3]", c).expect("reads");
    assert_eq!(s.get(&key("x")), range(2, 3));
    assert!(parse_state::<BoundedIntervalDomain>(":1", c).is_none());
    let st = while_analyzer::values::parse_concrete_state("a:-4;b:12").expect("reads");
    assert_eq!(st.get(&key("a")), Some(-4));
    assert_eq!(st.get(&key("b")), Some(12));
    assert!(while_analyzer::values::parse_concrete_state("a:x").is_none());
}

#[test]
fn state_operations() {
    let c = IntervalBounds::unbounded();
    let mut s1: HashMapState<BoundedIntervalDomain> = HashMapState::top();
    s1.set(key("x"), range(0, 1), c);
    s1.set(key("y"), range(5, 5), c);
    let mut s2: HashMapState<BoundedIntervalDomain> = HashMapState::top();
    s2.set(key("x"), range(3, 4), c);
    let j = s1.duplicate().lub(&s2, c);
    assert_eq!(j.get(&key("x")), range(0, 4));
    assert_eq!(j.get(&key("y")), BoundedIntervalDomain::Top);
    let m = s1.duplicate().glb(&s2, c);
    assert!(m.is_bottom());
    let mut s3 = s1.duplicate();
    s3.set(key("y"), BoundedIntervalDomain::Bottom, c);
    assert!(s3.is_bottom());
    let b: HashMapState<BoundedIntervalDomain> = HashMapState::bottom();
    assert_eq!(b.get(&key("x")), BoundedIntervalDomain::Bottom);
    assert!(b.lub(&s1, c).same_as(&s1));
}

#[test]
fn product_with_zero_keeps_the_state() {
    let stm = parse_string("x := 1; if x * 0 == 0 then y := x; else y := 5;").expect("parses");
    let c = IntervalBounds::unbounded();
    let prog: Program<BoundedIntervalDomain> = init_program(&stm, c);
    let result = GenericAnalyzer::analyze(&prog, &HashMapState::top(), IterationStrategy::Simple, c, 100).unwrap();
    let exit = prog.get_end_label() as usize;
    assert!(!result[exit].is_bottom());
    assert_eq!(result[exit].get(&key("x")), range(1, 1));
}

#[test]
fn widening_forgets_variables_unbound_on_the_right() {
    let c = IntervalBounds::unbounded();
    let mut s1: HashMapState<BoundedIntervalDomain> = HashMapState::top();
    s1.set(key("x"), range(0, 0), c);
    let s2: HashMapState<BoundedIntervalDomain> = HashMapState::top();
    let w = s1.duplicate().widening(s2.duplicate(), c);
    assert_eq!(w.get(&key("x")), BoundedIntervalDomain::Top);
    let n: HashMapState<BoundedIntervalDomain> = HashMapState::bottom();
    assert!(n.narrowing(s1, c).is_bottom());
}

#[test]
fn loop_head_after_branches_forgets_branch_only_facts() {
    let stm = parse_string("if x<=0 then z:=1; else {a:=1; b:=2;} while false do skip;").expect("parses");
    let c = IntervalBounds::unbounded();
    let prog: Program<BoundedIntervalDomain> = init_program(&stm, c);
    let result = GenericAnalyzer::analyze(&prog, &HashMapState::top(), IterationStrategy::Widening, c, 100).unwrap();
    let head = prog.get_loop_label()[0] as usize;
    assert_eq!(result[head].get(&key("z")), BoundedIntervalDomain::Top);
}
