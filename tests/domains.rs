use while_analyzer::congruence::CongruenceDomain;
use while_analyzer::domain::{backward_abstract_operator, AbstractDomain, Interval, NoConfig};
use while_analyzer::ast::Operator;
use while_analyzer::ext_num::ExtendedNum;
use while_analyzer::ext_sign::ExtendedSignDomain;
use while_analyzer::interval::{BoundedIntervalDomain, IntervalBounds};
use while_analyzer::sign::SignDomain;

fn range(l: i128, u: i128) -> BoundedIntervalDomain {
    BoundedIntervalDomain::Range(ExtendedNum::Num(l), ExtendedNum::Num(u))
}

fn cong(a: i128, b: i128) -> CongruenceDomain {
    CongruenceDomain::Congruence { a, b }
}

fn es(positive: bool, zero: bool, negative: bool) -> ExtendedSignDomain {
    ExtendedSignDomain { positive, zero, negative }
}

#[test]
fn extended_num_arithmetic() {
    assert_eq!(ExtendedNum::Num(3).add(ExtendedNum::Num(4)), ExtendedNum::Num(7));
    assert_eq!(ExtendedNum::Num(3).sub(ExtendedNum::PosInf), ExtendedNum::NegInf);
    assert_eq!(ExtendedNum::Num(-2).mul(ExtendedNum::PosInf), ExtendedNum::NegInf);
    assert_eq!(ExtendedNum::Num(0).mul(ExtendedNum::NegInf), ExtendedNum::Num(0));
    assert_eq!(ExtendedNum::Num(-7).div(ExtendedNum::Num(2)), ExtendedNum::Num(-3));
    assert_eq!(ExtendedNum::Num(5).div(ExtendedNum::Num(0)), ExtendedNum::PosInf);
    assert_eq!(ExtendedNum::Num(-5).div(ExtendedNum::Num(0)), ExtendedNum::NegInf);
    assert_eq!(ExtendedNum::Num(5).div(ExtendedNum::PosInf), ExtendedNum::Num(0));
    assert_eq!(ExtendedNum::NegInf.div(ExtendedNum::Num(-3)), ExtendedNum::PosInf);
    assert_eq!(ExtendedNum::Num(i128::MAX).add(ExtendedNum::Num(1)), ExtendedNum::PosInf);
    assert_eq!(ExtendedNum::Num(i128::MIN).sub(ExtendedNum::Num(1)), ExtendedNum::NegInf);
    assert!(ExtendedNum::NegInf.less_eq(&ExtendedNum::Num(i128::MIN)));
    assert!(!ExtendedNum::PosInf.less_eq(&ExtendedNum::Num(i128::MAX)));
}

#[test]
fn interval_lattice_operations() {
    let c = IntervalBounds::unbounded();
    assert_eq!(range(1, 3).lub(range(5, 8), c), range(1, 8));
    assert_eq!(range(1, 5).glb(range(3, 8), c), range(3, 5));
    assert_eq!(range(1, 2).glb(range(3, 8), c), BoundedIntervalDomain::Bottom);
    assert_eq!(range(1, 2).lub(BoundedIntervalDomain::Bottom, c), range(1, 2));
    assert_eq!(range(1, 2).glb(BoundedIntervalDomain::Top, c), range(1, 2));
    let x = range(0, 10);
    let y = range(-3, 4);
    assert_eq!(x.lub(y, c), y.lub(x, c));
    assert_eq!(x.lub(x.glb(y, c), c), x);
    assert_eq!(x.glb(x.lub(y, c), c), x);
}

#[test]
fn interval_widening_and_narrowing() {
    let c = IntervalBounds::unbounded();
    let w = range(0, 10).widening(range(0, 20), c);
    assert_eq!(w, BoundedIntervalDomain::Range(ExtendedNum::Num(0), ExtendedNum::PosInf));
    assert_eq!(w.widening(range(-1, 5), c), BoundedIntervalDomain::Top);
    assert_eq!(w.widening(range(3, 5), c), w);
    let n = w.narrowing(range(0, 1010), c);
    assert_eq!(n, range(0, 1010));
    assert_eq!(range(0, 5).narrowing(range(2, 3), c), range(0, 5));
}

#[test]
fn interval_arithmetic() {
    let c = IntervalBounds::unbounded();
    assert_eq!(range(1, 2).add(range(10, 20), c), range(11, 22));
    assert_eq!(range(1, 2).sub(range(10, 20), c), range(-19, -8));
    assert_eq!(range(-2, 3).mul(range(4, 5), c), range(-10, 15));
    assert_eq!(range(10, 20).div(range(2, 5), c), range(2, 10));
    assert_eq!(range(10, 20).div(range(-5, -2), c), range(-10, -2));
    assert_eq!(range(10, 20).div(range(-2, 2), c), range(-20, 20));
    assert_eq!(range(10, 20).div(range(0, 0), c), BoundedIntervalDomain::Bottom);
    assert_eq!(BoundedIntervalDomain::Top.mul(range(0, 0), c), range(0, 0));
}

#[test]
fn bounded_interval_snaps_to_infinity() {
    let c = IntervalBounds { lower: ExtendedNum::Num(-100), upper: ExtendedNum::Num(100) };
    assert_eq!(
        BoundedIntervalDomain::from_num(500, c),
        BoundedIntervalDomain::Top
    );
    assert_eq!(
        range(50, 60).add(range(50, 50), c),
        BoundedIntervalDomain::Range(ExtendedNum::Num(100), ExtendedNum::PosInf)
    );
    assert_eq!(BoundedIntervalDomain::from_interval(Interval::Closed(-5, 5), c), range(-5, 5));
}

#[test]
fn interval_backward_add() {
    let c = IntervalBounds::unbounded();
    let (l, r) = backward_abstract_operator(&Operator::Add, range(0, 10), range(0, 10), range(0, 3), c);
    assert_eq!(l, range(0, 3));
    assert_eq!(r, range(0, 3));
    let (l, r) = backward_abstract_operator(&Operator::Sub, range(0, 10), range(5, 5), range(-100, 0), c);
    assert_eq!(l, range(0, 5));
    assert_eq!(r, range(5, 5));
}

#[test]
fn sign_tables() {
    let n = NoConfig;
    assert_eq!(SignDomain::Positive.add(SignDomain::Zero, n), SignDomain::Positive);
    assert_eq!(SignDomain::Positive.add(SignDomain::Negative, n), SignDomain::Top);
    assert_eq!(SignDomain::Zero.sub(SignDomain::Negative, n), SignDomain::Positive);
    assert_eq!(SignDomain::Negative.mul(SignDomain::Negative, n), SignDomain::Positive);
    assert_eq!(SignDomain::Top.mul(SignDomain::Zero, n), SignDomain::Zero);
    assert_eq!(SignDomain::Positive.div(SignDomain::Zero, n), SignDomain::Bottom);
    assert_eq!(SignDomain::Positive.lub(SignDomain::Negative, n), SignDomain::Top);
    assert_eq!(SignDomain::Positive.glb(SignDomain::Negative, n), SignDomain::Bottom);
    assert_eq!(SignDomain::from_num(-4, n), SignDomain::Negative);
    assert_eq!(SignDomain::from_interval(Interval::Closed(1, 9), n), SignDomain::Positive);
    assert_eq!(SignDomain::from_interval(Interval::Closed(-1, 9), n), SignDomain::Top);
}

#[test]
fn extended_sign_sets() {
    let n = NoConfig;
    let pos = es(true, false, false);
    let zero = es(false, true, false);
    let neg = es(false, false, true);
    assert_eq!(pos.add(zero, n), pos);
    assert_eq!(pos.add(neg, n), es(true, true, true));
    assert_eq!(es(true, true, false).sub(pos, n), es(true, true, true));
    assert_eq!(neg.mul(es(true, true, false), n), es(false, true, true));
    assert_eq!(zero.div(pos, n), zero);
    assert_eq!(pos.div(zero, n), es(false, false, false));
    assert_eq!(pos.lub(zero, n), es(true, true, false));
    assert_eq!(pos.glb(zero, n), ExtendedSignDomain::bottom());
    assert_eq!(ExtendedSignDomain::from_interval(Interval::Closed(0, 7), n), es(true, true, false));
}

#[test]
fn congruence_lattice() {
    let n = NoConfig;
    assert_eq!(cong(0, 6).lub(cong(0, 8), n), cong(2, 0));
    assert_eq!(cong(2, 0).lub(cong(0, 11), n), cong(1, 0));
    assert_eq!(cong(4, 1).glb(cong(6, 3), n), cong(12, 9));
    assert_eq!(cong(4, 1).glb(cong(6, 2), n), CongruenceDomain::Bottom);
    assert_eq!(cong(0, 7).glb(cong(3, 1), n), cong(0, 7));
    assert_eq!(cong(0, 7).glb(cong(3, 2), n), CongruenceDomain::Bottom);
    assert_eq!(cong(1, 0).narrowing(cong(2, 1), n), cong(2, 1));
    assert_eq!(cong(4, 1).narrowing(cong(2, 1), n), cong(4, 1));
}

#[test]
fn congruence_arithmetic() {
    let n = NoConfig;
    assert_eq!(cong(4, 1).add(cong(6, 2), n), cong(2, 1));
    assert_eq!(cong(4, 1).sub(cong(0, 3), n), cong(4, 2));
    assert_eq!(cong(2, 1).mul(cong(0, 3), n), cong(6, 3));
    assert_eq!(cong(4, 2).div(cong(0, 2), n), cong(2, 1));
    assert_eq!(cong(4, 1).div(cong(0, 2), n), cong(1, 0));
    assert_eq!(cong(0, 7).div(cong(0, 2), n), cong(0, 3));
    assert_eq!(cong(4, 1).div(cong(0, 0), n), CongruenceDomain::Bottom);
    assert_eq!(cong(4, 1).div(cong(2, 1), n), cong(1, 0));
    assert_eq!(CongruenceDomain::from_interval(Interval::Closed(3, 3), n), cong(0, 3));
    assert_eq!(CongruenceDomain::from_interval(Interval::Closed(3, 4), n), cong(1, 0));
}

#[test]
fn widening_chain_stabilises() {
    let c = IntervalBounds::unbounded();
    let mut y = range(0, 0);
    let mut changes = 0;
    for k in 1..200 {
        let x = range(-k, 3 * k);
        let next = y.widening(x, c);
        if next != y {
            changes += 1;
        }
        y = next;
    }
    assert!(changes <= 3);
    assert_eq!(y, BoundedIntervalDomain::Top);
    let n = NoConfig;
    let mut z = cong(0, 0);
    let mut cong_changes = 0;
    for k in 1..100 {
        let next = z.widening(cong(0, 6 * k), n);
        if next != z {
            cong_changes += 1;
        }
        z = next;
    }
    assert_eq!(z, cong(6, 0));
    assert_eq!(cong_changes, 1);
}

#[test]
fn operations_are_monotone_on_samples() {
    let n = NoConfig;
    let signs = [SignDomain::Bottom, SignDomain::Negative, SignDomain::Zero, SignDomain::Positive, SignDomain::Top];
    let le = |a: SignDomain, b: SignDomain| a == SignDomain::Bottom || b == SignDomain::Top || a == b;
    for x in signs {
        for x2 in signs {
            for y in signs {
                for y2 in signs {
                    if le(x, x2) && le(y, y2) {
                        assert!(le(x.add(y, n), x2.add(y2, n)));
                        assert!(le(x.mul(y, n), x2.mul(y2, n)));
                        assert!(le(x.lub(y, n), x2.lub(y2, n)));
                    }
                }
            }
        }
    }
    let c = IntervalBounds::unbounded();
    let small = range(2, 3);
    let big = range(0, 10);
    assert_eq!(small.lub(range(5, 6), c).glb(big.lub(range(5, 6), c), c), small.lub(range(5, 6), c));
}

#[test]
fn narrowing_stays_between_meet_and_left_operand() {
    let c = IntervalBounds::unbounded();
    let x = BoundedIntervalDomain::Range(ExtendedNum::NegInf, ExtendedNum::Num(10));
    let y = range(-4, 20);
    let nar = x.narrowing(y, c);
    assert_eq!(nar, range(-4, 10));
    assert_eq!(x.glb(y, c), range(-4, 10));
    assert_eq!(nar.lub(x, c), x);
    assert_eq!(cong(3, 1).narrowing(cong(6, 4), NoConfig), cong(3, 1));
}

#[test]
fn truncated_quotients_may_be_zero() {
    let n = NoConfig;
    assert_eq!(SignDomain::Positive.div(SignDomain::Positive, n), SignDomain::Top);
    assert_eq!(SignDomain::Zero.div(SignDomain::Negative, n), SignDomain::Zero);
    let pos = es(true, false, false);
    assert_eq!(pos.div(pos, n), es(true, true, false));
}

#[test]
fn empty_bounded_interval_is_bottom() {
    let c = IntervalBounds { lower: ExtendedNum::Num(-1), upper: ExtendedNum::Num(1) };
    assert_eq!(BoundedIntervalDomain::new(ExtendedNum::Num(5), ExtendedNum::Num(3), c), BoundedIntervalDomain::Bottom);
    assert_eq!(BoundedIntervalDomain::new(ExtendedNum::Num(3), ExtendedNum::Num(5), c), BoundedIntervalDomain::Top);
}

#[test]
fn backward_multiplication_keeps_undetermined_factor() {
    let c = IntervalBounds::unbounded();
    let (l, r) = backward_abstract_operator(&Operator::Mul, range(1, 1), range(0, 0), range(0, 0), c);
    assert_eq!(l, range(1, 1));
    assert_eq!(r, range(0, 0));
    let (l, _) = backward_abstract_operator(&Operator::Mul, range(-10, 10), range(2, 2), range(4, 6), c);
    assert_eq!(l, range(2, 3));
}
