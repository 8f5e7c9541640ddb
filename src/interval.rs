use vstd::prelude::*;

use crate::ast::Num;
use crate::domain::{AbstractDomain, Interval};
use crate::ext_num::ExtendedNum;
use crate::values::{int_spec, pair_spec, parse_int, parse_pair};

verus! {

/// The bounds `[lower, upper]` of the bounded interval domain: an interval endpoint
/// outside them is snapped to the infinity on its side, so that ascending chains
/// are finite. With infinite bounds nothing is snapped.
#[derive(Debug, Clone, Copy, PartialEq, Eq, Structural)]
pub struct IntervalBounds {
    pub lower: ExtendedNum,
    pub upper: ExtendedNum,
}

impl IntervalBounds {
    /// Whether the finite endpoint `v` lies within the bounds.
    pub open spec fn admits(self, v: ExtendedNum) -> bool {
        v.is_finite() && self.lower.le(v) && v.le(self.upper)
    }

    /// The configuration that snaps nothing.
    pub fn unbounded() -> (r: IntervalBounds)
        ensures
            r.lower == ExtendedNum::NegInf,
            r.upper == ExtendedNum::PosInf,
    {
        IntervalBounds { lower: ExtendedNum::NegInf, upper: ExtendedNum::PosInf }
    }

    fn admits_exec(&self, v: ExtendedNum) -> (r: bool)
        ensures
            r == self.admits(v),
    {
        match v {
            ExtendedNum::Num(_) => self.lower.less_eq(&v) && v.less_eq(&self.upper),
            _ => false,
        }
    }
}

/// Intervals of integers with extended-integer endpoints.
#[derive(Debug, Clone, Copy, PartialEq, Eq, Structural)]
pub enum BoundedIntervalDomain {
    Range(ExtendedNum, ExtendedNum),
    Top,
    Bottom,
}

/// A lower endpoint after snapping.
pub open spec fn snap_lower(l: ExtendedNum, c: IntervalBounds) -> ExtendedNum {
    if c.admits(l) { l } else { ExtendedNum::NegInf }
}

/// An upper endpoint after snapping.
pub open spec fn snap_upper(u: ExtendedNum, c: IntervalBounds) -> ExtendedNum {
    if c.admits(u) { u } else { ExtendedNum::PosInf }
}

/// The element for the endpoints `l` and `u`: `Bottom` when the interval is
/// empty; otherwise the endpoints snapped to the bounds, `Top` when both are then
/// infinite.
pub open spec fn mk(l: ExtendedNum, u: ExtendedNum, c: IntervalBounds) -> BoundedIntervalDomain {
    let l2 = snap_lower(l, c);
    let u2 = snap_upper(u, c);
    if !l.le(u) {
        BoundedIntervalDomain::Bottom
    } else if l2 is NegInf && u2 is PosInf {
        BoundedIntervalDomain::Top
    } else {
        BoundedIntervalDomain::Range(l2, u2)
    }
}

/// A quotient of two endpoints; an infinity over an infinity, which the interval
/// rules never let decide a bound, counts as zero.
pub open spec fn corner_div(x: ExtendedNum, y: ExtendedNum) -> ExtendedNum {
    if !x.is_finite() && !y.is_finite() {
        ExtendedNum::Num(0i128)
    } else {
        x.div_spec(y)
    }
}

/// `[a, b] / [c, d]` for a divisor with only positive values.
pub open spec fn div_by_positive(
    a: ExtendedNum,
    b: ExtendedNum,
    c: ExtendedNum,
    d: ExtendedNum,
    cfg: IntervalBounds,
) -> BoundedIntervalDomain {
    mk(corner_div(a, c).min_spec(corner_div(a, d)), corner_div(b, c).max_spec(corner_div(b, d)), cfg)
}

/// `[a, b] / [c, d]` for a divisor with only negative values.
pub open spec fn div_by_negative(
    a: ExtendedNum,
    b: ExtendedNum,
    c: ExtendedNum,
    d: ExtendedNum,
    cfg: IntervalBounds,
) -> BoundedIntervalDomain {
    mk(corner_div(b, c).min_spec(corner_div(b, d)), corner_div(a, c).max_spec(corner_div(a, d)), cfg)
}

fn snap(l: ExtendedNum, u: ExtendedNum, c: IntervalBounds) -> (r: BoundedIntervalDomain)
    ensures
        r == mk(l, u, c),
{
    let l2 = if c.admits_exec(l) { l } else { ExtendedNum::NegInf };
    let u2 = if c.admits_exec(u) { u } else { ExtendedNum::PosInf };
    if !l.less_eq(&u) {
        BoundedIntervalDomain::Bottom
    } else if l2 == ExtendedNum::NegInf && u2 == ExtendedNum::PosInf {
        BoundedIntervalDomain::Top
    } else {
        BoundedIntervalDomain::Range(l2, u2)
    }
}

fn corner_quotient(x: ExtendedNum, y: ExtendedNum) -> (r: ExtendedNum)
    requires
        y != ExtendedNum::Num(0i128),
    ensures
        r == corner_div(x, y),
{
    match (x, y) {
        (ExtendedNum::Num(_), _) | (_, ExtendedNum::Num(_)) => x.div(y),
        _ => ExtendedNum::Num(0i128),
    }
}

fn quotient_by_positive(
    a: ExtendedNum,
    b: ExtendedNum,
    c: ExtendedNum,
    d: ExtendedNum,
    cfg: IntervalBounds,
) -> (r: BoundedIntervalDomain)
    requires
        c != ExtendedNum::Num(0i128),
        d != ExtendedNum::Num(0i128),
    ensures
        r == div_by_positive(a, b, c, d, cfg),
{
    let lo = corner_quotient(a, c).min(corner_quotient(a, d));
    let hi = corner_quotient(b, c).max(corner_quotient(b, d));
    snap(lo, hi, cfg)
}

fn quotient_by_negative(
    a: ExtendedNum,
    b: ExtendedNum,
    c: ExtendedNum,
    d: ExtendedNum,
    cfg: IntervalBounds,
) -> (r: BoundedIntervalDomain)
    requires
        c != ExtendedNum::Num(0i128),
        d != ExtendedNum::Num(0i128),
    ensures
        r == div_by_negative(a, b, c, d, cfg),
{
    let lo = corner_quotient(b, c).min(corner_quotient(b, d));
    let hi = corner_quotient(a, c).max(corner_quotient(a, d));
    snap(lo, hi, cfg)
}

impl BoundedIntervalDomain {
    /// The interval `[lower, upper]`, snapped to the bounds of `c`.
    pub fn new(lower: ExtendedNum, upper: ExtendedNum, c: IntervalBounds) -> (r: Self)
        ensures
            r == mk(lower, upper, c),
            r.wf(c),
    {
        snap(lower, upper, c)
    }

    /// Whether the element is the interval `[0, 0]`.
    pub open spec fn is_zero(self) -> bool {
        self == BoundedIntervalDomain::Range(ExtendedNum::Num(0i128), ExtendedNum::Num(0i128))
    }

    /// Number of finite endpoints, with `Bottom` above all: every widening step that
    /// changes an element lowers it.
    pub open spec fn rank(self) -> nat {
        match self {
            BoundedIntervalDomain::Bottom => 3,
            BoundedIntervalDomain::Top => 0,
            BoundedIntervalDomain::Range(l, u) => (if l.is_finite() { 1nat } else { 0nat }) + (if u.is_finite() { 1nat } else { 0nat }),
        }
    }

    pub open spec fn lub_spec(self, o: Self, c: IntervalBounds) -> Self {
        match (self, o) {
            (BoundedIntervalDomain::Top, _) | (_, BoundedIntervalDomain::Top) => BoundedIntervalDomain::Top,
            (BoundedIntervalDomain::Bottom, x) | (x, BoundedIntervalDomain::Bottom) => x,
            (BoundedIntervalDomain::Range(a, b), BoundedIntervalDomain::Range(x, y)) => mk(a.min_spec(x), b.max_spec(y), c),
        }
    }

    pub open spec fn glb_spec(self, o: Self, c: IntervalBounds) -> Self {
        match (self, o) {
            (BoundedIntervalDomain::Bottom, _) | (_, BoundedIntervalDomain::Bottom) => BoundedIntervalDomain::Bottom,
            (BoundedIntervalDomain::Top, x) | (x, BoundedIntervalDomain::Top) => x,
            (BoundedIntervalDomain::Range(a, b), BoundedIntervalDomain::Range(x, y)) => mk(a.max_spec(x), b.min_spec(y), c),
        }
    }

    /// Keeps each endpoint that did not move outwards; one that did goes to infinity.
    pub open spec fn widening_spec(self, o: Self, c: IntervalBounds) -> Self {
        match (self, o) {
            (BoundedIntervalDomain::Bottom, x) | (x, BoundedIntervalDomain::Bottom) => x,
            (BoundedIntervalDomain::Top, _) | (_, BoundedIntervalDomain::Top) => BoundedIntervalDomain::Top,
            (BoundedIntervalDomain::Range(a, b), BoundedIntervalDomain::Range(x, y)) => mk(
                if a.le(x) { a } else { ExtendedNum::NegInf },
                if y.le(b) { b } else { ExtendedNum::PosInf },
                c,
            ),
        }
    }

    /// Replaces each infinite endpoint by the corresponding endpoint of `o`.
    pub open spec fn narrowing_spec(self, o: Self, c: IntervalBounds) -> Self {
        match (self, o) {
            (BoundedIntervalDomain::Bottom, _) | (_, BoundedIntervalDomain::Bottom) => BoundedIntervalDomain::Bottom,
            (BoundedIntervalDomain::Top, x) | (x, BoundedIntervalDomain::Top) => x,
            (BoundedIntervalDomain::Range(a, b), BoundedIntervalDomain::Range(x, y)) => mk(
                if a is NegInf { x } else { a },
                if b is PosInf { y } else { b },
                c,
            ),
        }
    }

    pub open spec fn add_spec(self, o: Self, c: IntervalBounds) -> Self {
        match (self, o) {
            (BoundedIntervalDomain::Bottom, _) | (_, BoundedIntervalDomain::Bottom) => BoundedIntervalDomain::Bottom,
            (BoundedIntervalDomain::Top, _) | (_, BoundedIntervalDomain::Top) => BoundedIntervalDomain::Top,
            (BoundedIntervalDomain::Range(a, b), BoundedIntervalDomain::Range(x, y)) => mk(a.add_spec(x), b.add_spec(y), c),
        }
    }

    pub open spec fn sub_spec(self, o: Self, c: IntervalBounds) -> Self {
        match (self, o) {
            (BoundedIntervalDomain::Bottom, _) | (_, BoundedIntervalDomain::Bottom) => BoundedIntervalDomain::Bottom,
            (BoundedIntervalDomain::Top, _) | (_, BoundedIntervalDomain::Top) => BoundedIntervalDomain::Top,
            (BoundedIntervalDomain::Range(a, b), BoundedIntervalDomain::Range(x, y)) => mk(a.sub_spec(y), b.sub_spec(x), c),
        }
    }

    pub open spec fn mul_spec(self, o: Self, c: IntervalBounds) -> Self {
        match (self, o) {
            (BoundedIntervalDomain::Bottom, _) | (_, BoundedIntervalDomain::Bottom) => BoundedIntervalDomain::Bottom,
            (BoundedIntervalDomain::Top, BoundedIntervalDomain::Top) => BoundedIntervalDomain::Top,
            (BoundedIntervalDomain::Top, r) | (r, BoundedIntervalDomain::Top) => {
                if r.is_zero() { r } else { BoundedIntervalDomain::Top }
            },
            (BoundedIntervalDomain::Range(a, b), BoundedIntervalDomain::Range(x, y)) => {
                let ac = a.mul_spec(x);
                let ad = a.mul_spec(y);
                let bc = b.mul_spec(x);
                let bd = b.mul_spec(y);
                mk(ac.min_spec(ad).min_spec(bc.min_spec(bd)), ac.max_spec(ad).max_spec(bc.max_spec(bd)), c)
            },
        }
    }

    /// Division; a divisor that holds zero is split into its negative and positive
    /// parts, whose quotients are joined.
    pub open spec fn div_spec(self, o: Self, c: IntervalBounds) -> Self {
        match (self, o) {
            (BoundedIntervalDomain::Bottom, _) | (_, BoundedIntervalDomain::Bottom) => BoundedIntervalDomain::Bottom,
            (BoundedIntervalDomain::Top, BoundedIntervalDomain::Top) => BoundedIntervalDomain::Top,
            (BoundedIntervalDomain::Top, r) => if r.is_zero() { BoundedIntervalDomain::Bottom } else { BoundedIntervalDomain::Top },
            (r, BoundedIntervalDomain::Top) => if r.is_zero() { r } else { BoundedIntervalDomain::Top },
            (BoundedIntervalDomain::Range(a, b), BoundedIntervalDomain::Range(x, y)) => {
                if ExtendedNum::Num(1i128).le(x) {
                    div_by_positive(a, b, x, y, c)
                } else if y.le(ExtendedNum::Num(-1i128)) {
                    div_by_negative(a, b, x, y, c)
                } else {
                    let pos = if ExtendedNum::Num(1i128).le(y) {
                        div_by_positive(a, b, ExtendedNum::Num(1i128), y, c)
                    } else {
                        BoundedIntervalDomain::Bottom
                    };
                    let neg = if x.le(ExtendedNum::Num(-1i128)) {
                        div_by_negative(a, b, x, ExtendedNum::Num(-1i128), c)
                    } else {
                        BoundedIntervalDomain::Bottom
                    };
                    pos.lub_spec(neg, c)
                }
            },
        }
    }

    pub open spec fn from_interval_spec(i: Interval, c: IntervalBounds) -> Self {
        match i {
            Interval::OpenLeft(m) => mk(ExtendedNum::NegInf, ExtendedNum::Num(m), c),
            Interval::OpenRight(m) => mk(ExtendedNum::Num(m), ExtendedNum::PosInf, c),
            Interval::Closed(l, u) => mk(ExtendedNum::Num(l), ExtendedNum::Num(u), c),
        }
    }
}

impl AbstractDomain for BoundedIntervalDomain {
    type Config = IntervalBounds;

    open spec fn wf(self, c: IntervalBounds) -> bool {
        match self {
            BoundedIntervalDomain::Range(l, u) => {
                &&& (l is NegInf || c.admits(l))
                &&& (u is PosInf || c.admits(u))
                &&& l.le(u)
                &&& !(l is NegInf && u is PosInf)
            },
            _ => true,
        }
    }

    open spec fn spec_bottom() -> Self {
        BoundedIntervalDomain::Bottom
    }

    open spec fn spec_top() -> Self {
        BoundedIntervalDomain::Top
    }

    open spec fn spec_le(self, o: Self) -> bool {
        match (self, o) {
            (BoundedIntervalDomain::Bottom, _) => true,
            (_, BoundedIntervalDomain::Top) => true,
            (BoundedIntervalDomain::Range(a, b), BoundedIntervalDomain::Range(x, y)) => x.le(a) && b.le(y),
            _ => false,
        }
    }

    open spec fn spec_lub(self, o: Self, c: IntervalBounds) -> Self {
        self.lub_spec(o, c)
    }

    open spec fn spec_glb(self, o: Self, c: IntervalBounds) -> Self {
        self.glb_spec(o, c)
    }

    open spec fn spec_widening(self, o: Self, c: IntervalBounds) -> Self {
        self.widening_spec(o, c)
    }

    open spec fn spec_narrowing(self, o: Self, c: IntervalBounds) -> Self {
        self.narrowing_spec(o, c)
    }

    open spec fn spec_add(self, o: Self, c: IntervalBounds) -> Self {
        self.add_spec(o, c)
    }

    open spec fn spec_sub(self, o: Self, c: IntervalBounds) -> Self {
        self.sub_spec(o, c)
    }

    open spec fn spec_mul(self, o: Self, c: IntervalBounds) -> Self {
        self.mul_spec(o, c)
    }

    open spec fn spec_div(self, o: Self, c: IntervalBounds) -> Self {
        self.div_spec(o, c)
    }

    open spec fn spec_from_num(n: Num, c: IntervalBounds) -> Self {
        mk(ExtendedNum::Num(n), ExtendedNum::Num(n), c)
    }

    open spec fn spec_from_interval(i: Interval, c: IntervalBounds) -> Self {
        Self::from_interval_spec(i, c)
    }

    proof fn lemma_bottom_top_wf(c: IntervalBounds) {
    }

    proof fn lemma_idempotent(x: Self, c: IntervalBounds) {
    }

    fn bottom() -> (r: Self) {
        BoundedIntervalDomain::Bottom
    }

    fn top() -> (r: Self) {
        BoundedIntervalDomain::Top
    }

    fn same(&self, o: &Self) -> (r: bool) {
        *self == *o
    }

    fn lub(self, o: Self, c: IntervalBounds) -> (r: Self) {
        match (self, o) {
            (BoundedIntervalDomain::Top, _) | (_, BoundedIntervalDomain::Top) => BoundedIntervalDomain::Top,
            (BoundedIntervalDomain::Bottom, x) | (x, BoundedIntervalDomain::Bottom) => x,
            (BoundedIntervalDomain::Range(a, b), BoundedIntervalDomain::Range(x, y)) => snap(a.min(x), b.max(y), c),
        }
    }

    fn glb(self, o: Self, c: IntervalBounds) -> (r: Self) {
        match (self, o) {
            (BoundedIntervalDomain::Bottom, _) | (_, BoundedIntervalDomain::Bottom) => BoundedIntervalDomain::Bottom,
            (BoundedIntervalDomain::Top, x) | (x, BoundedIntervalDomain::Top) => x,
            (BoundedIntervalDomain::Range(a, b), BoundedIntervalDomain::Range(x, y)) => snap(a.max(x), b.min(y), c),
        }
    }

    fn widening(self, o: Self, c: IntervalBounds) -> (r: Self) {
        match (self, o) {
            (BoundedIntervalDomain::Bottom, x) | (x, BoundedIntervalDomain::Bottom) => x,
            (BoundedIntervalDomain::Top, _) | (_, BoundedIntervalDomain::Top) => BoundedIntervalDomain::Top,
            (BoundedIntervalDomain::Range(a, b), BoundedIntervalDomain::Range(x, y)) => {
                let l = if a.less_eq(&x) { a } else { ExtendedNum::NegInf };
                let u = if y.less_eq(&b) { b } else { ExtendedNum::PosInf };
                snap(l, u, c)
            },
        }
    }

    fn narrowing(self, o: Self, c: IntervalBounds) -> (r: Self) {
        match (self, o) {
            (BoundedIntervalDomain::Bottom, _) | (_, BoundedIntervalDomain::Bottom) => BoundedIntervalDomain::Bottom,
            (BoundedIntervalDomain::Top, x) | (x, BoundedIntervalDomain::Top) => x,
            (BoundedIntervalDomain::Range(a, b), BoundedIntervalDomain::Range(x, y)) => {
                let l = if a == ExtendedNum::NegInf { x } else { a };
                let u = if b == ExtendedNum::PosInf { y } else { b };
                snap(l, u, c)
            },
        }
    }

    fn add(self, o: Self, c: IntervalBounds) -> (r: Self) {
        match (self, o) {
            (BoundedIntervalDomain::Bottom, _) | (_, BoundedIntervalDomain::Bottom) => BoundedIntervalDomain::Bottom,
            (BoundedIntervalDomain::Top, _) | (_, BoundedIntervalDomain::Top) => BoundedIntervalDomain::Top,
            (BoundedIntervalDomain::Range(a, b), BoundedIntervalDomain::Range(x, y)) => snap(a.add(x), b.add(y), c),
        }
    }

    fn sub(self, o: Self, c: IntervalBounds) -> (r: Self) {
        match (self, o) {
            (BoundedIntervalDomain::Bottom, _) | (_, BoundedIntervalDomain::Bottom) => BoundedIntervalDomain::Bottom,
            (BoundedIntervalDomain::Top, _) | (_, BoundedIntervalDomain::Top) => BoundedIntervalDomain::Top,
            (BoundedIntervalDomain::Range(a, b), BoundedIntervalDomain::Range(x, y)) => snap(a.sub(y), b.sub(x), c),
        }
    }

    fn mul(self, o: Self, c: IntervalBounds) -> (r: Self) {
        let zero = BoundedIntervalDomain::Range(ExtendedNum::Num(0i128), ExtendedNum::Num(0i128));
        match (self, o) {
            (BoundedIntervalDomain::Bottom, _) | (_, BoundedIntervalDomain::Bottom) => BoundedIntervalDomain::Bottom,
            (BoundedIntervalDomain::Top, BoundedIntervalDomain::Top) => BoundedIntervalDomain::Top,
            (BoundedIntervalDomain::Top, r) | (r, BoundedIntervalDomain::Top) => {
                if r == zero { r } else { BoundedIntervalDomain::Top }
            },
            (BoundedIntervalDomain::Range(a, b), BoundedIntervalDomain::Range(x, y)) => {
                let ac = a.mul(x);
                let ad = a.mul(y);
                let bc = b.mul(x);
                let bd = b.mul(y);
                snap(ac.min(ad).min(bc.min(bd)), ac.max(ad).max(bc.max(bd)), c)
            },
        }
    }

    fn div(self, o: Self, c: IntervalBounds) -> (r: Self) {
        let zero = BoundedIntervalDomain::Range(ExtendedNum::Num(0i128), ExtendedNum::Num(0i128));
        match (self, o) {
            (BoundedIntervalDomain::Bottom, _) | (_, BoundedIntervalDomain::Bottom) => BoundedIntervalDomain::Bottom,
            (BoundedIntervalDomain::Top, BoundedIntervalDomain::Top) => BoundedIntervalDomain::Top,
            (BoundedIntervalDomain::Top, r) => if r == zero { BoundedIntervalDomain::Bottom } else { BoundedIntervalDomain::Top },
            (r, BoundedIntervalDomain::Top) => if r == zero { r } else { BoundedIntervalDomain::Top },
            (BoundedIntervalDomain::Range(a, b), BoundedIntervalDomain::Range(x, y)) => {
                if ExtendedNum::Num(1i128).less_eq(&x) {
                    quotient_by_positive(a, b, x, y, c)
                } else if y.less_eq(&ExtendedNum::Num(-1i128)) {
                    quotient_by_negative(a, b, x, y, c)
                } else {
                    let pos = if ExtendedNum::Num(1i128).less_eq(&y) {
                        quotient_by_positive(a, b, ExtendedNum::Num(1i128), y, c)
                    } else {
                        BoundedIntervalDomain::Bottom
                    };
                    let neg = if x.less_eq(&ExtendedNum::Num(-1i128)) {
                        quotient_by_negative(a, b, x, ExtendedNum::Num(-1i128), c)
                    } else {
                        BoundedIntervalDomain::Bottom
                    };
                    pos.lub(neg, c)
                }
            },
        }
    }

    fn from_num(n: Num, c: IntervalBounds) -> (r: Self) {
        snap(ExtendedNum::Num(n), ExtendedNum::Num(n), c)
    }

    fn from_interval(i: Interval, c: IntervalBounds) -> (r: Self) {
        match i {
            Interval::OpenLeft(m) => snap(ExtendedNum::NegInf, ExtendedNum::Num(m), c),
            Interval::OpenRight(m) => snap(ExtendedNum::Num(m), ExtendedNum::PosInf, c),
            Interval::Closed(l, u) => snap(ExtendedNum::Num(l), ExtendedNum::Num(u), c),
        }
    }

    /// An integer `n` (the interval `[n, n]`) or `[l,u]`, each bound an integer or
    /// an infinity.
    open spec fn spec_from_text(t: Seq<char>, c: IntervalBounds) -> Option<Self> {
        match int_spec(t) {
            Some(n) => Some(mk(ExtendedNum::Num(n), ExtendedNum::Num(n), c)),
            None => match pair_spec(t) {
                Some((l, u)) => Some(mk(l, u, c)),
                None => None,
            },
        }
    }

    fn from_text(cs: &Vec<char>, from: usize, to: usize, c: IntervalBounds) -> (r: Option<Self>) {
        match parse_int(cs, from, to) {
            Some(n) => Some(snap(ExtendedNum::Num(n), ExtendedNum::Num(n), c)),
            None => match parse_pair(cs, from, to) {
                Some((l, u)) => Some(snap(l, u, c)),
                None => None,
            },
        }
    }
}

impl BoundedIntervalDomain {
    /// The integers at most some value of `self` (all of them below its upper bound).
    pub open spec fn all_lte_spec(self, c: IntervalBounds) -> Self {
        match self {
            BoundedIntervalDomain::Range(_, u) => mk(ExtendedNum::NegInf, u, c),
            _ => self,
        }
    }

    /// The integers at least some value of `self`.
    pub open spec fn all_gte_spec(self, c: IntervalBounds) -> Self {
        match self {
            BoundedIntervalDomain::Range(l, _) => mk(l, ExtendedNum::PosInf, c),
            _ => self,
        }
    }

    /// The integers below some value of `self`.
    pub open spec fn all_lt_spec(self, c: IntervalBounds) -> Self {
        match self {
            BoundedIntervalDomain::Range(_, u) => mk(ExtendedNum::NegInf, u.sub_spec(ExtendedNum::Num(1i128)), c),
            _ => self,
        }
    }

    /// The integers above some value of `self`.
    pub open spec fn all_gt_spec(self, c: IntervalBounds) -> Self {
        match self {
            BoundedIntervalDomain::Range(l, _) => mk(l.add_spec(ExtendedNum::Num(1i128)), ExtendedNum::PosInf, c),
            _ => self,
        }
    }

    pub fn all_lte(self, c: IntervalBounds) -> (r: Self)
        requires
            self.wf(c),
        ensures
            r == self.all_lte_spec(c),
            r.wf(c),
    {
        match self {
            BoundedIntervalDomain::Range(_, u) => snap(ExtendedNum::NegInf, u, c),
            _ => self,
        }
    }

    pub fn all_gte(self, c: IntervalBounds) -> (r: Self)
        requires
            self.wf(c),
        ensures
            r == self.all_gte_spec(c),
            r.wf(c),
    {
        match self {
            BoundedIntervalDomain::Range(l, _) => snap(l, ExtendedNum::PosInf, c),
            _ => self,
        }
    }

    pub fn all_lt(self, c: IntervalBounds) -> (r: Self)
        requires
            self.wf(c),
        ensures
            r == self.all_lt_spec(c),
            r.wf(c),
    {
        match self {
            BoundedIntervalDomain::Range(_, u) => snap(ExtendedNum::NegInf, u.sub(ExtendedNum::Num(1)), c),
            _ => self,
        }
    }

    pub fn all_gt(self, c: IntervalBounds) -> (r: Self)
        requires
            self.wf(c),
        ensures
            r == self.all_gt_spec(c),
            r.wf(c),
    {
        match self {
            BoundedIntervalDomain::Range(l, _) => snap(l.add(ExtendedNum::Num(1)), ExtendedNum::PosInf, c),
            _ => self,
        }
    }
}

/// Idempotence, commutativity and the identities of `Bottom` and `Top` for the
/// interval lattice, and the order read off the join.
pub proof fn lemma_interval_lattice_basic(x: BoundedIntervalDomain, y: BoundedIntervalDomain, c: IntervalBounds)
    requires
        x.wf(c),
        y.wf(c),
    ensures
        x.spec_lub(x, c) == x,
        x.spec_glb(x, c) == x,
        x.spec_lub(y, c) == y.spec_lub(x, c),
        x.spec_glb(y, c) == y.spec_glb(x, c),
        x.spec_lub(BoundedIntervalDomain::spec_bottom(), c) == x,
        x.spec_glb(BoundedIntervalDomain::spec_top(), c) == x,
        x.spec_lub(BoundedIntervalDomain::spec_top(), c) == BoundedIntervalDomain::spec_top(),
        x.spec_glb(BoundedIntervalDomain::spec_bottom(), c) == BoundedIntervalDomain::spec_bottom(),
        x.spec_le(y) <==> x.spec_lub(y, c) == y,
        x.spec_le(y) <==> x.spec_glb(y, c) == x,
{
}

/// The join of intervals is associative.
#[verifier::rlimit(40)]
pub proof fn lemma_interval_lub_associative(
    x: BoundedIntervalDomain,
    y: BoundedIntervalDomain,
    z: BoundedIntervalDomain,
    c: IntervalBounds,
)
    requires
        x.wf(c),
        y.wf(c),
        z.wf(c),
    ensures
        x.spec_lub(y, c).spec_lub(z, c) == x.spec_lub(y.spec_lub(z, c), c),
{
}

/// The meet of intervals is associative.
#[verifier::rlimit(40)]
pub proof fn lemma_interval_glb_associative(
    x: BoundedIntervalDomain,
    y: BoundedIntervalDomain,
    z: BoundedIntervalDomain,
    c: IntervalBounds,
)
    requires
        x.wf(c),
        y.wf(c),
        z.wf(c),
    ensures
        x.spec_glb(y, c).spec_glb(z, c) == x.spec_glb(y.spec_glb(z, c), c),
{
}

/// Absorption: `x ⊔ (x ⊓ y) = x` and `x ⊓ (x ⊔ y) = x`.
pub proof fn lemma_interval_absorption(x: BoundedIntervalDomain, y: BoundedIntervalDomain, c: IntervalBounds)
    requires
        x.wf(c),
        y.wf(c),
    ensures
        x.spec_lub(x.spec_glb(y, c), c) == x,
        x.spec_glb(x.spec_lub(y, c), c) == x,
{
}

/// Widening is extensive: `x ⊑ x ∇ y` and `y ⊑ x ∇ y`.
pub proof fn lemma_interval_widening_extensive(x: BoundedIntervalDomain, y: BoundedIntervalDomain, c: IntervalBounds)
    requires
        x.wf(c),
        y.wf(c),
    ensures
        x.spec_le(x.spec_widening(y, c)),
        y.spec_le(x.spec_widening(y, c)),
{
}

/// Widening stabilises: `x ∇ y` is `x` itself or has fewer finite endpoints, so
/// along any chain `y₀ = x₀, yₖ₊₁ = yₖ ∇ xₖ₊₁` at most three steps change anything.
pub proof fn lemma_interval_widening_stabilises(x: BoundedIntervalDomain, y: BoundedIntervalDomain, c: IntervalBounds)
    requires
        x.wf(c),
        y.wf(c),
    ensures
        x.spec_widening(y, c) == x || x.spec_widening(y, c).rank() < x.rank(),
{
}

/// Narrowing contracts: `x ⊓ y ⊑ x Δ y ⊑ x`.
pub proof fn lemma_interval_narrowing_contracts(x: BoundedIntervalDomain, y: BoundedIntervalDomain, c: IntervalBounds)
    requires
        x.wf(c),
        y.wf(c),
    ensures
        x.spec_glb(y, c).spec_le(x.spec_narrowing(y, c)),
        x.spec_narrowing(y, c).spec_le(x),
{
}

/// Whether the integer `v` is at least `l`.
pub open spec fn at_least(v: int, l: ExtendedNum) -> bool {
    match l {
        ExtendedNum::NegInf => true,
        ExtendedNum::PosInf => false,
        ExtendedNum::Num(n) => n <= v,
    }
}

/// Whether the integer `v` is at most `u`.
pub open spec fn at_most(v: int, u: ExtendedNum) -> bool {
    match u {
        ExtendedNum::NegInf => false,
        ExtendedNum::PosInf => true,
        ExtendedNum::Num(n) => v <= n,
    }
}

/// The integers an interval stands for.
pub open spec fn contains(x: BoundedIntervalDomain, v: int) -> bool {
    match x {
        BoundedIntervalDomain::Bottom => false,
        BoundedIntervalDomain::Top => true,
        BoundedIntervalDomain::Range(l, u) => at_least(v, l) && at_most(v, u),
    }
}

/// The join contains both operands, the meet their common values.
pub proof fn lemma_interval_lub_glb_sound(x: BoundedIntervalDomain, y: BoundedIntervalDomain, c: IntervalBounds, v: int)
    requires
        x.wf(c),
        y.wf(c),
    ensures
        contains(x, v) || contains(y, v) ==> contains(x.spec_lub(y, c), v),
        contains(x, v) && contains(y, v) ==> contains(x.spec_glb(y, c), v),
{
}

/// Addition and subtraction are sound: the sum (difference) of values of the
/// operands lies in the result.
pub proof fn lemma_interval_add_sub_sound(x: BoundedIntervalDomain, y: BoundedIntervalDomain, c: IntervalBounds, v1: int, v2: int)
    requires
        x.wf(c),
        y.wf(c),
        contains(x, v1),
        contains(y, v2),
    ensures
        contains(x.spec_add(y, c), v1 + v2),
        contains(x.spec_sub(y, c), v1 - v2),
{
}

/// The backward operators of addition and subtraction keep every pair of operand
/// values whose result lies in `res`, and only shrink the operands.
pub proof fn lemma_interval_backward_add_sub_sound(
    x: BoundedIntervalDomain,
    y: BoundedIntervalDomain,
    res: BoundedIntervalDomain,
    c: IntervalBounds,
    v1: int,
    v2: int,
)
    requires
        x.wf(c),
        y.wf(c),
        res.wf(c),
        contains(x, v1),
        contains(y, v2),
    ensures
        contains(res, v1 + v2) ==> {
            let p = crate::domain::spec_backward_abstract_operator(crate::ast::Operator::Add, x, y, res, c);
            contains(p.0, v1) && contains(p.1, v2) && p.0.spec_le(x) && p.1.spec_le(y)
        },
        contains(res, v1 - v2) ==> {
            let p = crate::domain::spec_backward_abstract_operator(crate::ast::Operator::Sub, x, y, res, c);
            contains(p.0, v1) && contains(p.1, v2) && p.0.spec_le(x) && p.1.spec_le(y)
        },
{
    if contains(res, v1 + v2) {
        let s = v1 + v2;
        lemma_interval_add_sub_sound(res, y, c, s, v2);
        lemma_interval_add_sub_sound(res, x, c, s, v1);
        let d1 = res.spec_sub(y, c);
        let d2 = res.spec_sub(x, c);
        lemma_wf_ops(res, y, c);
        lemma_wf_ops(res, x, c);
        lemma_interval_lub_glb_sound(x, d1, c, v1);
        lemma_interval_lub_glb_sound(y, d2, c, v2);
        lemma_glb_below(x, d1, c);
        lemma_glb_below(y, d2, c);
    }
    if contains(res, v1 - v2) {
        let s = v1 - v2;
        lemma_interval_add_sub_sound(res, y, c, s, v2);
        lemma_interval_add_sub_sound(x, res, c, v1, s);
        let d1 = res.spec_add(y, c);
        let d2 = x.spec_sub(res, c);
        lemma_wf_ops(res, y, c);
        lemma_wf_ops(x, res, c);
        lemma_interval_lub_glb_sound(x, d1, c, v1);
        lemma_interval_lub_glb_sound(y, d2, c, v2);
        lemma_glb_below(x, d1, c);
        lemma_glb_below(y, d2, c);
    }
}

proof fn lemma_wf_ops(x: BoundedIntervalDomain, y: BoundedIntervalDomain, c: IntervalBounds)
    requires
        x.wf(c),
        y.wf(c),
    ensures
        x.spec_add(y, c).wf(c),
        x.spec_sub(y, c).wf(c),
{
}

proof fn lemma_glb_below(x: BoundedIntervalDomain, y: BoundedIntervalDomain, c: IntervalBounds)
    requires
        x.wf(c),
        y.wf(c),
    ensures
        x.spec_glb(y, c).spec_le(x),
{
}

/// Without bounds, the join and the meet of intervals are monotone in both
/// operands. (Arithmetic is not monotone at the edge of `i128`, nor is snapping to
/// finite bounds: an endpoint just past a bound jumps to infinity.)
pub proof fn lemma_interval_ops_monotone(
    x: BoundedIntervalDomain,
    x2: BoundedIntervalDomain,
    y: BoundedIntervalDomain,
    y2: BoundedIntervalDomain,
    c: IntervalBounds,
)
    requires
        c.lower == ExtendedNum::NegInf,
        c.upper == ExtendedNum::PosInf,
        x.wf(c),
        x2.wf(c),
        y.wf(c),
        y2.wf(c),
        x.spec_le(x2),
        y.spec_le(y2),
    ensures
        x.spec_lub(y, c).spec_le(x2.spec_lub(y2, c)),
        x.spec_glb(y, c).spec_le(x2.spec_glb(y2, c)),
{
}

/// `new` (that is, `mk`) gives `Bottom` exactly for an empty interval, and
/// otherwise an element holding every integer between the endpoints.
pub proof fn lemma_mk_sound(l: ExtendedNum, u: ExtendedNum, c: IntervalBounds, v: int)
    ensures
        mk(l, u, c) is Bottom <==> !l.le(u),
        at_least(v, l) && at_most(v, u) ==> contains(mk(l, u, c), v),
        mk(l, u, c).wf(c),
{
}

/// `e` is a lower bound of `p` good enough for snapping: below it, or `p` is
/// beyond `i128`.
pub open spec fn lower_ok(p: int, e: ExtendedNum) -> bool {
    at_least(p, e) || p > i128::MAX
}

pub open spec fn upper_ok(p: int, e: ExtendedNum) -> bool {
    at_most(p, e) || p < i128::MIN
}

proof fn lemma_bounds_contain(lo: ExtendedNum, hi: ExtendedNum, c: IntervalBounds, p: int)
    requires
        lo.le(hi),
        lower_ok(p, lo),
        upper_ok(p, hi),
    ensures
        contains(mk(lo, hi, c), p),
{
}

proof fn lemma_of_int_bounds(z: int, p: int)
    ensures
        z <= p ==> lower_ok(p, crate::ext_num::of_int(z)),
        p <= z ==> upper_ok(p, crate::ext_num::of_int(z)),
{
}

/// Some corner product is a lower bound of `v1 · v2`, and some an upper bound.
proof fn lemma_corner_bounds(a: ExtendedNum, b: ExtendedNum, c: ExtendedNum, d: ExtendedNum, v1: int, v2: int)
    requires
        at_least(v1, a),
        at_most(v1, b),
        at_least(v2, c),
        at_most(v2, d),
    ensures
        lower_ok(v1 * v2, a.mul_spec(c)) || lower_ok(v1 * v2, a.mul_spec(d)) || lower_ok(v1 * v2, b.mul_spec(c))
            || lower_ok(v1 * v2, b.mul_spec(d)),
        upper_ok(v1 * v2, a.mul_spec(c)) || upper_ok(v1 * v2, a.mul_spec(d)) || upper_ok(v1 * v2, b.mul_spec(c))
            || upper_ok(v1 * v2, b.mul_spec(d)),
{
    let p = v1 * v2;
    if v2 >= 0 {
        // p >= a * v2, and a * v2 lies between a * c and a * d
        match a {
            ExtendedNum::Num(x) => {
                assert(x * v2 <= p) by (nonlinear_arith) requires x <= v1, v2 >= 0, p == v1 * v2;
                if x >= 0 {
                    match c {
                        ExtendedNum::Num(y) => {
                            assert(x * y <= x * v2) by (nonlinear_arith) requires y <= v2, x >= 0;
                            lemma_of_int_bounds(x * y, p);
                        },
                        _ => {
                            if x == 0 {
                                assert(p >= 0) by (nonlinear_arith) requires x <= v1, v2 >= 0, p == v1 * v2, x == 0;
                            }
                        },
                    }
                } else {
                    match d {
                        ExtendedNum::Num(y) => {
                            assert(x * y <= x * v2) by (nonlinear_arith) requires y >= v2, x < 0;
                            lemma_of_int_bounds(x * y, p);
                        },
                        _ => {},
                    }
                }
            },
            _ => {
                if v2 == 0 {
                    assert(p == 0) by (nonlinear_arith) requires v2 == 0, p == v1 * v2;
                }
            },
        }
    } else {
        match b {
            ExtendedNum::Num(x) => {
                assert(x * v2 <= p) by (nonlinear_arith) requires v1 <= x, v2 < 0, p == v1 * v2;
                if x >= 0 {
                    match c {
                        ExtendedNum::Num(y) => {
                            assert(x * y <= x * v2) by (nonlinear_arith) requires y <= v2, x >= 0;
                            lemma_of_int_bounds(x * y, p);
                        },
                        _ => {
                            if x == 0 {
                                assert(p >= 0) by (nonlinear_arith) requires v1 <= x, v2 < 0, p == v1 * v2, x == 0;
                            }
                        },
                    }
                } else {
                    match d {
                        ExtendedNum::Num(y) => {
                            assert(x * y <= x * v2) by (nonlinear_arith) requires y >= v2, x < 0;
                            lemma_of_int_bounds(x * y, p);
                        },
                        _ => {},
                    }
                }
            },
            _ => {},
        }
    }
    if v2 >= 0 {
        // p <= b * v2, and b * v2 lies between b * c and b * d
        match b {
            ExtendedNum::Num(x) => {
                assert(p <= x * v2) by (nonlinear_arith) requires v1 <= x, v2 >= 0, p == v1 * v2;
                if x >= 0 {
                    match d {
                        ExtendedNum::Num(y) => {
                            assert(x * v2 <= x * y) by (nonlinear_arith) requires v2 <= y, x >= 0;
                            lemma_of_int_bounds(x * y, p);
                        },
                        _ => {
                            if x == 0 {
                                assert(p <= 0) by (nonlinear_arith) requires v1 <= x, v2 >= 0, p == v1 * v2, x == 0;
                            }
                        },
                    }
                } else {
                    match c {
                        ExtendedNum::Num(y) => {
                            assert(x * v2 <= x * y) by (nonlinear_arith) requires y <= v2, x < 0;
                            lemma_of_int_bounds(x * y, p);
                        },
                        _ => {},
                    }
                }
            },
            _ => {
                if v2 == 0 {
                    assert(p == 0) by (nonlinear_arith) requires v2 == 0, p == v1 * v2;
                }
            },
        }
    } else {
        match a {
            ExtendedNum::Num(x) => {
                assert(p <= x * v2) by (nonlinear_arith) requires x <= v1, v2 < 0, p == v1 * v2;
                if x >= 0 {
                    match d {
                        ExtendedNum::Num(y) => {
                            assert(x * v2 <= x * y) by (nonlinear_arith) requires v2 <= y, x >= 0;
                            lemma_of_int_bounds(x * y, p);
                        },
                        _ => {
                            if x == 0 {
                                assert(p <= 0) by (nonlinear_arith) requires x <= v1, v2 < 0, p == v1 * v2, x == 0;
                            }
                        },
                    }
                } else {
                    match c {
                        ExtendedNum::Num(y) => {
                            assert(x * v2 <= x * y) by (nonlinear_arith) requires y <= v2, x < 0;
                            lemma_of_int_bounds(x * y, p);
                        },
                        _ => {},
                    }
                }
            },
            _ => {},
        }
    }
}

/// Multiplication of intervals is sound: the product of values of the operands
/// lies in the result.
pub proof fn lemma_interval_mul_sound(x: BoundedIntervalDomain, y: BoundedIntervalDomain, c: IntervalBounds, v1: int, v2: int)
    requires
        x.wf(c),
        y.wf(c),
        contains(x, v1),
        contains(y, v2),
    ensures
        contains(x.spec_mul(y, c), v1 * v2),
{
    let p = v1 * v2;
    if v1 == 0 || v2 == 0 {
        assert(p == 0) by (nonlinear_arith) requires v1 == 0 || v2 == 0, p == v1 * v2;
    }
    if let (BoundedIntervalDomain::Range(a, b), BoundedIntervalDomain::Range(cc, d)) = (x, y) {
        lemma_corner_bounds(a, b, cc, d, v1, v2);
        let ac = a.mul_spec(cc);
        let ad = a.mul_spec(d);
        let bc = b.mul_spec(cc);
        let bd = b.mul_spec(d);
        let lo = ac.min_spec(ad).min_spec(bc.min_spec(bd));
        let hi = ac.max_spec(ad).max_spec(bc.max_spec(bd));
        crate::ext_num::lemma_le_total_order(ac, ad, bc);
        crate::ext_num::lemma_le_total_order(bc, bd, ac);
        lemma_bounds_contain(lo, hi, c, p);
    }
}

/// A truncated quotient is within one of the real quotient:
/// `(q - 1) · v2` and `(q + 1) · v2` bracket `v1`.
pub proof fn lemma_trunc_div_bracket(v1: int, v2: int)
    requires
        v2 != 0,
    ensures
        v2 > 0 ==> (crate::ext_num::trunc_div(v1, v2) - 1) * v2 <= v1 <= (crate::ext_num::trunc_div(v1, v2) + 1) * v2,
        v2 < 0 ==> (crate::ext_num::trunc_div(v1, v2) + 1) * v2 <= v1 <= (crate::ext_num::trunc_div(v1, v2) - 1) * v2,
{
    let q = crate::ext_num::trunc_div(v1, v2);
    if v1 == 0 {
        assert(q == 0);
        assert(-v2 <= 0 <= v2 || v2 <= 0 <= -v2);
        assert((0 - 1) * v2 == -v2 && (0 + 1) * v2 == v2) by (nonlinear_arith);
    } else if v1 > 0 && v2 > 0 {
        vstd::arithmetic::div_mod::lemma_fundamental_div_mod(v1, v2);
        let r = v1 % v2;
        assert(0 <= r < v2);
        assert((q - 1) * v2 <= v1 <= (q + 1) * v2) by (nonlinear_arith)
            requires v1 == v2 * q + r, 0 <= r < v2, v2 > 0;
    } else if v1 < 0 && v2 < 0 {
        let a = v1 * -1;
        let b = v2 * -1;
        vstd::arithmetic::div_mod::lemma_fundamental_div_mod(a, b);
        let r = a % b;
        assert(0 <= r < b);
        assert(q == a / b);
        assert((q + 1) * v2 <= v1 <= (q - 1) * v2) by (nonlinear_arith)
            requires a == b * q + r, 0 <= r < b, b > 0, a == -v1, b == -v2;
    } else if v1 < 0 {
        let a = v1 * -1;
        vstd::arithmetic::div_mod::lemma_fundamental_div_mod(a, v2);
        let r = a % v2;
        assert(0 <= r < v2);
        assert(q == -(a / v2));
        assert((q - 1) * v2 <= v1 <= (q + 1) * v2) by (nonlinear_arith)
            requires a == v2 * (a / v2) + r, 0 <= r < v2, v2 > 0, a == -v1, q == -(a / v2);
    } else {
        let b = v2 * -1;
        vstd::arithmetic::div_mod::lemma_fundamental_div_mod(v1, b);
        let r = v1 % b;
        assert(0 <= r < b);
        assert(q == -(v1 / b));
        assert((q + 1) * v2 <= v1 <= (q - 1) * v2) by (nonlinear_arith)
            requires v1 == b * (v1 / b) + r, 0 <= r < b, b > 0, b == -v2, q == -(v1 / b);
    }
}

/// The backward operator of division keeps every pair of operand values whose
/// truncated quotient (by a non-zero divisor) lies in `res`, and only shrinks.
pub proof fn lemma_interval_backward_div_sound(
    x: BoundedIntervalDomain,
    y: BoundedIntervalDomain,
    res: BoundedIntervalDomain,
    c: IntervalBounds,
    v1: int,
    v2: int,
)
    requires
        x.wf(c),
        y.wf(c),
        res.wf(c),
        contains(x, v1),
        contains(y, v2),
        v2 != 0,
        contains(res, crate::ext_num::trunc_div(v1, v2)),
    ensures
        ({
            let p = crate::domain::spec_backward_abstract_operator(crate::ast::Operator::Div, x, y, res, c);
            contains(p.0, v1) && contains(p.1, v2) && p.0.spec_le(x) && p.1.spec_le(y)
        }),
{
    let q = crate::ext_num::trunc_div(v1, v2);
    let one = BoundedIntervalDomain::spec_from_interval(Interval::Closed(-1i128, 1i128), c);
    lemma_mk_sound(ExtendedNum::Num(-1i128), ExtendedNum::Num(1i128), c, -1);
    lemma_mk_sound(ExtendedNum::Num(-1i128), ExtendedNum::Num(1i128), c, 1);
    let s = res.spec_add(one, c);
    lemma_interval_add_sub_sound(res, one, c, q, -1);
    lemma_interval_add_sub_sound(res, one, c, q, 1);
    lemma_wf_ops(res, one, c);
    lemma_interval_mul_sound(s, y, c, q - 1, v2);
    lemma_interval_mul_sound(s, y, c, q + 1, v2);
    lemma_trunc_div_bracket(v1, v2);
    let m = s.spec_mul(y, c);
    assert(m.wf(c));
    assert(contains(m, v1));
    lemma_interval_lub_glb_sound(x, m, c, v1);
    lemma_glb_below(x, m, c);
    lemma_interval_lattice_basic(y, y, c);
}

proof fn lemma_trunc_basics(x: int, z: int)
    requires
        z != 0,
    ensures
        crate::ext_num::trunc_div(x, z) == -crate::ext_num::trunc_div(x, -z),
        z > 0 && x >= 0 ==> crate::ext_num::trunc_div(x, z) >= 0,
        z > 0 && x <= 0 ==> crate::ext_num::trunc_div(x, z) <= 0,
        z > 0 && x >= 0 ==> crate::ext_num::trunc_div(x, z) == x / z,
        z > 0 && x < 0 ==> crate::ext_num::trunc_div(x, z) == -((-x) / z),
        z > 0 ==> crate::ext_num::trunc_div(x, z) <= x || x < 0,
        z > 0 ==> crate::ext_num::trunc_div(x, z) >= x || x >= 0,
{
    if z > 0 && x > 0 {
        assert(x / z >= 0 && x / z <= x) by (nonlinear_arith) requires x > 0, z > 0;
    }
    if z > 0 && x < 0 {
        assert((-x) / z >= 0 && (-x) / z <= -x) by (nonlinear_arith) requires x < 0, z > 0;
        assert((x * -1) == -x);
    }
    if z < 0 && x > 0 {
        assert(x * -1 == -x);
    }
}

/// Truncated division by a positive number is monotone in the numerator.
proof fn lemma_trunc_mono_num(a: int, v: int, z: int)
    requires
        z > 0,
        a <= v,
    ensures
        crate::ext_num::trunc_div(a, z) <= crate::ext_num::trunc_div(v, z),
{
    lemma_trunc_basics(a, z);
    lemma_trunc_basics(v, z);
    if a >= 0 {
        vstd::arithmetic::div_mod::lemma_div_is_ordered(a, v, z);
    } else if v < 0 {
        vstd::arithmetic::div_mod::lemma_div_is_ordered(-v, -a, z);
    }
}

/// For a fixed numerator, truncated division by positive numbers moves towards
/// zero as the divisor grows.
proof fn lemma_trunc_mono_den(a: int, z1: int, z2: int)
    requires
        0 < z1 <= z2,
    ensures
        a >= 0 ==> crate::ext_num::trunc_div(a, z2) <= crate::ext_num::trunc_div(a, z1),
        a < 0 ==> crate::ext_num::trunc_div(a, z1) <= crate::ext_num::trunc_div(a, z2),
{
    lemma_trunc_basics(a, z1);
    lemma_trunc_basics(a, z2);
    if a >= 0 {
        vstd::arithmetic::div_mod::lemma_div_is_ordered_by_denominator(a, z1, z2);
    } else {
        vstd::arithmetic::div_mod::lemma_div_is_ordered_by_denominator(-a, z1, z2);
    }
}

proof fn lemma_corner_int(x: i128, z: i128)
    requires
        z != 0,
    ensures
        corner_div(ExtendedNum::Num(x), ExtendedNum::Num(z)) == crate::ext_num::of_int(crate::ext_num::trunc_div(x as int, z as int)),
{
}

/// Division by an interval of positive numbers is sound.
proof fn lemma_div_positive_sound(
    a: ExtendedNum,
    b: ExtendedNum,
    c: ExtendedNum,
    d: ExtendedNum,
    cfg: IntervalBounds,
    v1: int,
    v2: int,
)
    requires
        a != ExtendedNum::PosInf,
        b != ExtendedNum::NegInf,
        at_least(v1, a),
        at_most(v1, b),
        c matches ExtendedNum::Num(cc) && cc >= 1,
        d != ExtendedNum::NegInf && d != ExtendedNum::Num(0i128),
        at_least(v2, c),
        at_most(v2, d),
    ensures
        contains(div_by_positive(a, b, c, d, cfg), crate::ext_num::trunc_div(v1, v2)),
{
    let q = crate::ext_num::trunc_div(v1, v2);
    let cc = c->Num_0 as int;
    assert(v2 > 0);
    let lo = corner_div(a, c).min_spec(corner_div(a, d));
    let hi = corner_div(b, c).max_spec(corner_div(b, d));
    lemma_trunc_basics(v1, v2);
    // lower bound
    match a {
        ExtendedNum::Num(x) => {
            lemma_trunc_mono_num(x as int, v1, v2);
            lemma_trunc_basics(x as int, v2);
            if x >= 0 {
                match d {
                    ExtendedNum::Num(dd) => {
                        lemma_trunc_mono_den(x as int, v2, dd as int);
                        lemma_corner_int(x, dd);
                        lemma_of_int_bounds(crate::ext_num::trunc_div(x as int, dd as int), q);
                        assert(lower_ok(q, corner_div(a, d)));
                    },
                    _ => {
                        assert(lower_ok(q, corner_div(a, d)));
                    },
                }
            } else {
                lemma_trunc_mono_den(x as int, cc, v2);
                lemma_corner_int(x, c->Num_0);
                lemma_of_int_bounds(crate::ext_num::trunc_div(x as int, cc), q);
                assert(lower_ok(q, corner_div(a, c)));
            }
        },
        _ => {
            assert(lower_ok(q, corner_div(a, c)));
        },
    }
    // upper bound
    match b {
        ExtendedNum::Num(x) => {
            lemma_trunc_mono_num(v1, x as int, v2);
            lemma_trunc_basics(x as int, v2);
            if x >= 0 {
                lemma_trunc_mono_den(x as int, cc, v2);
                lemma_corner_int(x, c->Num_0);
                lemma_of_int_bounds(crate::ext_num::trunc_div(x as int, cc), q);
                assert(upper_ok(q, corner_div(b, c)));
            } else {
                match d {
                    ExtendedNum::Num(dd) => {
                        lemma_trunc_mono_den(x as int, v2, dd as int);
                        lemma_corner_int(x, dd);
                        lemma_of_int_bounds(crate::ext_num::trunc_div(x as int, dd as int), q);
                        assert(upper_ok(q, corner_div(b, d)));
                    },
                    _ => {
                        assert(upper_ok(q, corner_div(b, d)));
                    },
                }
            }
        },
        _ => {
            assert(upper_ok(q, corner_div(b, c)));
        },
    }
    // the endpoints are ordered: a / c <= b / c
    match (a, b) {
        (ExtendedNum::Num(x), ExtendedNum::Num(y)) => {
            lemma_trunc_mono_num(x as int, y as int, cc);
            lemma_corner_int(x, c->Num_0);
            lemma_corner_int(y, c->Num_0);
        },
        _ => {},
    }
    assert(corner_div(a, c).le(corner_div(b, c)));
    crate::ext_num::lemma_le_total_order(corner_div(a, c), corner_div(a, d), corner_div(b, c));
    crate::ext_num::lemma_le_total_order(corner_div(b, c), corner_div(b, d), corner_div(a, c));
    assert(lo.le(hi));
    lemma_bounds_contain(lo, hi, cfg, q);
}

/// Division by an interval of negative numbers is sound.
proof fn lemma_div_negative_sound(
    a: ExtendedNum,
    b: ExtendedNum,
    c: ExtendedNum,
    d: ExtendedNum,
    cfg: IntervalBounds,
    v1: int,
    v2: int,
)
    requires
        a != ExtendedNum::PosInf,
        b != ExtendedNum::NegInf,
        at_least(v1, a),
        at_most(v1, b),
        d matches ExtendedNum::Num(dd) && dd <= -1,
        c != ExtendedNum::PosInf && c != ExtendedNum::Num(0i128),
        at_least(v2, c),
        at_most(v2, d),
    ensures
        contains(div_by_negative(a, b, c, d, cfg), crate::ext_num::trunc_div(v1, v2)),
{
    let q = crate::ext_num::trunc_div(v1, v2);
    let dd = d->Num_0 as int;
    let w = -v2;
    assert(v2 < 0 && w > 0);
    lemma_trunc_basics(v1, v2);
    let lo = corner_div(b, c).min_spec(corner_div(b, d));
    let hi = corner_div(a, c).max_spec(corner_div(a, d));
    // lower bound, from b
    match b {
        ExtendedNum::Num(x) => {
            lemma_trunc_mono_num(v1, x as int, w);
            lemma_trunc_basics(x as int, v2);
            lemma_trunc_basics(x as int, w);
            if x >= 0 {
                lemma_trunc_mono_den(x as int, -dd, w);
                lemma_trunc_basics(x as int, dd);
                lemma_corner_int(x, d->Num_0);
                lemma_of_int_bounds(crate::ext_num::trunc_div(x as int, dd), q);
                assert(lower_ok(q, corner_div(b, d)));
            } else {
                match c {
                    ExtendedNum::Num(cc) => {
                        lemma_trunc_mono_den(x as int, w, -(cc as int));
                        lemma_trunc_basics(x as int, cc as int);
                        lemma_corner_int(x, cc);
                        lemma_of_int_bounds(crate::ext_num::trunc_div(x as int, cc as int), q);
                        assert(lower_ok(q, corner_div(b, c)));
                    },
                    _ => {
                        assert(lower_ok(q, corner_div(b, c)));
                    },
                }
            }
        },
        _ => {
            assert(lower_ok(q, corner_div(b, d)));
        },
    }
    // upper bound, from a
    match a {
        ExtendedNum::Num(x) => {
            lemma_trunc_mono_num(x as int, v1, w);
            lemma_trunc_basics(x as int, v2);
            lemma_trunc_basics(x as int, w);
            if x >= 0 {
                match c {
                    ExtendedNum::Num(cc) => {
                        lemma_trunc_mono_den(x as int, w, -(cc as int));
                        lemma_trunc_basics(x as int, cc as int);
                        lemma_corner_int(x, cc);
                        lemma_of_int_bounds(crate::ext_num::trunc_div(x as int, cc as int), q);
                        assert(upper_ok(q, corner_div(a, c)));
                    },
                    _ => {
                        assert(upper_ok(q, corner_div(a, c)));
                    },
                }
            } else {
                lemma_trunc_mono_den(x as int, -dd, w);
                lemma_trunc_basics(x as int, dd);
                lemma_corner_int(x, d->Num_0);
                lemma_of_int_bounds(crate::ext_num::trunc_div(x as int, dd), q);
                assert(upper_ok(q, corner_div(a, d)));
            }
        },
        _ => {
            assert(upper_ok(q, corner_div(a, d)));
        },
    }
    // the endpoints are ordered: b / d <= a / d
    match (a, b) {
        (ExtendedNum::Num(x), ExtendedNum::Num(y)) => {
            lemma_trunc_mono_num(x as int, y as int, -dd);
            lemma_trunc_basics(x as int, dd);
            lemma_trunc_basics(y as int, dd);
            lemma_corner_int(x, d->Num_0);
            lemma_corner_int(y, d->Num_0);
        },
        _ => {},
    }
    assert(corner_div(b, d).le(corner_div(a, d)));
    crate::ext_num::lemma_le_total_order(corner_div(b, c), corner_div(b, d), corner_div(a, d));
    crate::ext_num::lemma_le_total_order(corner_div(a, c), corner_div(a, d), corner_div(b, d));
    assert(lo.le(hi));
    lemma_bounds_contain(lo, hi, cfg, q);
}

/// Division of intervals is sound: the truncated quotient of values of the
/// operands, by a non-zero divisor, lies in the result.
pub proof fn lemma_interval_div_sound(x: BoundedIntervalDomain, y: BoundedIntervalDomain, c: IntervalBounds, v1: int, v2: int)
    requires
        x.wf(c),
        y.wf(c),
        contains(x, v1),
        contains(y, v2),
        v2 != 0,
    ensures
        contains(x.spec_div(y, c), crate::ext_num::trunc_div(v1, v2)),
{
    let q = crate::ext_num::trunc_div(v1, v2);
    if v1 == 0 {
        assert(q == 0);
    }
    if let (BoundedIntervalDomain::Range(a, b), BoundedIntervalDomain::Range(cc, d)) = (x, y) {
        if ExtendedNum::Num(1i128).le(cc) {
            lemma_div_positive_sound(a, b, cc, d, c, v1, v2);
        } else if d.le(ExtendedNum::Num(-1i128)) {
            lemma_div_negative_sound(a, b, cc, d, c, v1, v2);
        } else {
            let pos = if ExtendedNum::Num(1i128).le(d) {
                div_by_positive(a, b, ExtendedNum::Num(1i128), d, c)
            } else {
                BoundedIntervalDomain::Bottom
            };
            let neg = if cc.le(ExtendedNum::Num(-1i128)) {
                div_by_negative(a, b, cc, ExtendedNum::Num(-1i128), c)
            } else {
                BoundedIntervalDomain::Bottom
            };
            if v2 > 0 {
                lemma_div_positive_sound(a, b, ExtendedNum::Num(1i128), d, c, v1, v2);
            } else {
                lemma_div_negative_sound(a, b, cc, ExtendedNum::Num(-1i128), c, v1, v2);
            }
            lemma_interval_lub_glb_sound(pos, neg, c, q);
        }
    }
}

/// One side of backward multiplication: the factor `x` (with value `v1`), refined
/// by the product `res` and the other factor `y` (with value `v2`).
#[verifier::rlimit(60)]
proof fn lemma_mul_side_sound(
    x: BoundedIntervalDomain,
    y: BoundedIntervalDomain,
    res: BoundedIntervalDomain,
    c: IntervalBounds,
    v1: int,
    v2: int,
)
    requires
        x.wf(c),
        y.wf(c),
        res.wf(c),
        contains(x, v1),
        contains(y, v2),
        contains(res, v1 * v2),
    ensures
        ({
            let r = if crate::domain::may_be_zero(res, c) && crate::domain::may_be_zero(y, c) {
                x
            } else {
                x.spec_glb(res.spec_div(y, c), c)
            };
            contains(r, v1) && r.spec_le(x)
        }),
{
    let zero = BoundedIntervalDomain::spec_from_num(0, c);
    lemma_mk_sound(ExtendedNum::Num(0i128), ExtendedNum::Num(0i128), c, 0);
    lemma_interval_lattice_basic(x, x, c);
    if v2 == 0 {
        assert(v1 * v2 == 0) by (nonlinear_arith) requires v2 == 0;
        lemma_interval_lub_glb_sound(res, zero, c, 0);
        lemma_interval_lub_glb_sound(y, zero, c, 0);
    } else {
        crate::sign::lemma_trunc_div_product(v1, v2);
        lemma_interval_div_sound(res, y, c, v1 * v2, v2);
        lemma_interval_lub_glb_sound(x, res.spec_div(y, c), c, v1);
        lemma_glb_below(x, res.spec_div(y, c), c);
    }
}

/// The backward operator of multiplication keeps every pair of factor values
/// whose product lies in `res`, and only shrinks the factors.
pub proof fn lemma_interval_backward_mul_sound(
    x: BoundedIntervalDomain,
    y: BoundedIntervalDomain,
    res: BoundedIntervalDomain,
    c: IntervalBounds,
    v1: int,
    v2: int,
)
    requires
        x.wf(c),
        y.wf(c),
        res.wf(c),
        contains(x, v1),
        contains(y, v2),
        contains(res, v1 * v2),
    ensures
        ({
            let p = crate::domain::spec_backward_abstract_operator(crate::ast::Operator::Mul, x, y, res, c);
            contains(p.0, v1) && contains(p.1, v2) && p.0.spec_le(x) && p.1.spec_le(y)
        }),
{
    assert(v1 * v2 == v2 * v1) by (nonlinear_arith);
    lemma_mul_side_sound(x, y, res, c, v1, v2);
    lemma_mul_side_sound(y, x, res, c, v2, v1);
}

/// Products and quotients of well-formed intervals are well formed.
#[verifier::rlimit(40)]
pub proof fn lemma_interval_mul_div_wf(x: BoundedIntervalDomain, y: BoundedIntervalDomain, c: IntervalBounds)
    requires
        x.wf(c),
        y.wf(c),
    ensures
        x.spec_mul(y, c).wf(c),
        x.spec_div(y, c).wf(c),
{
}

} // verus!
