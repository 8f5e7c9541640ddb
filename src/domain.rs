use vstd::prelude::*;

use crate::ast::{LitInterval, Num, Operator};

verus! {

/// A set of integers named by its bounds, used to build domain elements.
#[derive(Debug, Clone, Copy, PartialEq, Eq, Structural)]
pub enum Interval {
    /// All integers up to the bound.
    OpenLeft(Num),
    /// All integers from the bound on.
    OpenRight(Num),
    /// The integers between the two bounds.
    Closed(Num, Num),
}

impl Interval {
    pub fn from_literal(value: LitInterval) -> (r: Interval)
        ensures
            r == Interval::Closed(value.0, value.1),
    {
        Interval::Closed(value.0, value.1)
    }
}

/// The configuration of a domain that has no parameters.
#[derive(Debug, Clone, Copy, PartialEq, Eq, Structural)]
pub struct NoConfig;

/// A numeric abstract domain: a lattice of descriptions of integer sets, with
/// arithmetic, widening and narrowing. `Config` holds the parameters that an
/// analysis fixes once (the bounds of the bounded interval domain).
///
/// Each operation is stated exactly by a spec function; `wf` is the invariant
/// that every element built by the operations keeps.
pub trait AbstractDomain: Sized + Copy {
    type Config: Copy;

    spec fn wf(self, c: Self::Config) -> bool;

    spec fn spec_bottom() -> Self;

    spec fn spec_top() -> Self;

    /// The partial order of the lattice.
    spec fn spec_le(self, o: Self) -> bool;

    spec fn spec_lub(self, o: Self, c: Self::Config) -> Self;

    spec fn spec_glb(self, o: Self, c: Self::Config) -> Self;

    spec fn spec_widening(self, o: Self, c: Self::Config) -> Self;

    spec fn spec_narrowing(self, o: Self, c: Self::Config) -> Self;

    spec fn spec_add(self, o: Self, c: Self::Config) -> Self;

    spec fn spec_sub(self, o: Self, c: Self::Config) -> Self;

    spec fn spec_mul(self, o: Self, c: Self::Config) -> Self;

    spec fn spec_div(self, o: Self, c: Self::Config) -> Self;

    spec fn spec_from_num(n: Num, c: Self::Config) -> Self;

    spec fn spec_from_interval(i: Interval, c: Self::Config) -> Self;

    proof fn lemma_bottom_top_wf(c: Self::Config)
        ensures
            Self::spec_bottom().wf(c),
            Self::spec_top().wf(c),
    ;

    /// Join, widening and narrowing of an element with itself give it back.
    proof fn lemma_idempotent(x: Self, c: Self::Config)
        requires
            x.wf(c),
        ensures
            x.spec_lub(x, c) == x,
            x.spec_widening(x, c) == x,
            x.spec_narrowing(x, c) == x,
    ;

    fn bottom() -> (r: Self)
        ensures
            r == Self::spec_bottom(),
    ;

    fn top() -> (r: Self)
        ensures
            r == Self::spec_top(),
    ;

    /// Equality of elements.
    fn same(&self, o: &Self) -> (r: bool)
        ensures
            r == (*self == *o),
    ;

    fn lub(self, o: Self, c: Self::Config) -> (r: Self)
        requires
            self.wf(c),
            o.wf(c),
        ensures
            r == self.spec_lub(o, c),
            r.wf(c),
    ;

    fn glb(self, o: Self, c: Self::Config) -> (r: Self)
        requires
            self.wf(c),
            o.wf(c),
        ensures
            r == self.spec_glb(o, c),
            r.wf(c),
    ;

    fn widening(self, o: Self, c: Self::Config) -> (r: Self)
        requires
            self.wf(c),
            o.wf(c),
        ensures
            r == self.spec_widening(o, c),
            r.wf(c),
    ;

    fn narrowing(self, o: Self, c: Self::Config) -> (r: Self)
        requires
            self.wf(c),
            o.wf(c),
        ensures
            r == self.spec_narrowing(o, c),
            r.wf(c),
    ;

    fn add(self, o: Self, c: Self::Config) -> (r: Self)
        requires
            self.wf(c),
            o.wf(c),
        ensures
            r == self.spec_add(o, c),
            r.wf(c),
    ;

    fn sub(self, o: Self, c: Self::Config) -> (r: Self)
        requires
            self.wf(c),
            o.wf(c),
        ensures
            r == self.spec_sub(o, c),
            r.wf(c),
    ;

    fn mul(self, o: Self, c: Self::Config) -> (r: Self)
        requires
            self.wf(c),
            o.wf(c),
        ensures
            r == self.spec_mul(o, c),
            r.wf(c),
    ;

    fn div(self, o: Self, c: Self::Config) -> (r: Self)
        requires
            self.wf(c),
            o.wf(c),
        ensures
            r == self.spec_div(o, c),
            r.wf(c),
    ;

    fn from_num(n: Num, c: Self::Config) -> (r: Self)
        ensures
            r == Self::spec_from_num(n, c),
            r.wf(c),
    ;

    fn from_interval(i: Interval, c: Self::Config) -> (r: Self)
        ensures
            r == Self::spec_from_interval(i, c),
            r.wf(c),
    ;

    /// The element a text writes, as a user writes it in an initial state.
    spec fn spec_from_text(t: Seq<char>, c: Self::Config) -> Option<Self>;

    /// Reads an element from its text (the characters `cs[from..to]`).
    fn from_text(cs: &Vec<char>, from: usize, to: usize, c: Self::Config) -> (r: Option<Self>)
        requires
            from <= to <= cs@.len(),
        ensures
            r == Self::spec_from_text(cs@.subrange(from as int, to as int), c),
            r matches Some(d) ==> d.wf(c),
    ;
}

/// The forward arithmetic operator `op` of the domain.
pub open spec fn spec_abstract_operator<D: AbstractDomain>(
    op: Operator,
    lhs: D,
    rhs: D,
    c: D::Config,
) -> D {
    match op {
        Operator::Add => lhs.spec_add(rhs, c),
        Operator::Sub => lhs.spec_sub(rhs, c),
        Operator::Mul => lhs.spec_mul(rhs, c),
        Operator::Div => lhs.spec_div(rhs, c),
    }
}

/// Applies the arithmetic operator `op` to two domain elements.
pub fn abstract_operator<D: AbstractDomain>(op: &Operator, lhs: D, rhs: D, c: D::Config) -> (r: D)
    requires
        lhs.wf(c),
        rhs.wf(c),
    ensures
        r == spec_abstract_operator(*op, lhs, rhs, c),
        r.wf(c),
{
    match op {
        Operator::Add => lhs.add(rhs, c),
        Operator::Sub => lhs.sub(rhs, c),
        Operator::Mul => lhs.mul(rhs, c),
        Operator::Div => lhs.div(rhs, c),
    }
}

/// Whether the element may stand for zero: its meet with the element of `0` is
/// not `Bottom`.
pub open spec fn may_be_zero<D: AbstractDomain>(d: D, c: D::Config) -> bool {
    d.spec_glb(D::spec_from_num(0, c), c) != D::spec_bottom()
}

fn may_be_zero_exec<D: AbstractDomain>(d: D, c: D::Config) -> (r: bool)
    requires
        d.wf(c),
    ensures
        r == may_be_zero(d, c),
{
    !d.glb(D::from_num(0, c), c).same(&D::bottom())
}

/// The refinement of the operands of `op` knowing that its result lies in `res`:
/// each operand is met with what the other operand and the result allow. A factor
/// is kept whole when the other factor and the product may both be zero (then it
/// is not determined); a divisor is kept whole (truncation leaves it undetermined),
/// and the dividend is met with `(res ⊔ [-1, 1]) × divisor`.
pub open spec fn spec_backward_abstract_operator<D: AbstractDomain>(
    op: Operator,
    lhs: D,
    rhs: D,
    res: D,
    c: D::Config,
) -> (D, D) {
    match op {
        Operator::Add => (lhs.spec_glb(res.spec_sub(rhs, c), c), rhs.spec_glb(res.spec_sub(lhs, c), c)),
        Operator::Sub => (lhs.spec_glb(res.spec_add(rhs, c), c), rhs.spec_glb(lhs.spec_sub(res, c), c)),
        Operator::Mul => {
            let zero_res = may_be_zero(res, c);
            (
                if zero_res && may_be_zero(rhs, c) { lhs } else { lhs.spec_glb(res.spec_div(rhs, c), c) },
                if zero_res && may_be_zero(lhs, c) { rhs } else { rhs.spec_glb(res.spec_div(lhs, c), c) },
            )
        },
        Operator::Div => {
            let s = res.spec_add(D::spec_from_interval(Interval::Closed(-1i128, 1i128), c), c);
            (lhs.spec_glb(s.spec_mul(rhs, c), c), rhs)
        },
    }
}

/// Refines the operands of `op` from the knowledge that its result lies in `res`.
pub fn backward_abstract_operator<D: AbstractDomain>(
    op: &Operator,
    lhs: D,
    rhs: D,
    res: D,
    c: D::Config,
) -> (r: (D, D))
    requires
        lhs.wf(c),
        rhs.wf(c),
        res.wf(c),
    ensures
        r == spec_backward_abstract_operator(*op, lhs, rhs, res, c),
        r.0.wf(c),
        r.1.wf(c),
{
    match op {
        Operator::Add => (lhs.glb(res.sub(rhs, c), c), rhs.glb(res.sub(lhs, c), c)),
        Operator::Sub => (lhs.glb(res.add(rhs, c), c), rhs.glb(lhs.sub(res, c), c)),
        Operator::Mul => {
            let zero_res = may_be_zero_exec(res, c);
            let l = if zero_res && may_be_zero_exec(rhs, c) { lhs } else { lhs.glb(res.div(rhs, c), c) };
            let r = if zero_res && may_be_zero_exec(lhs, c) { rhs } else { rhs.glb(res.div(lhs, c), c) };
            (l, r)
        },
        Operator::Div => {
            let s = res.add(D::from_interval(Interval::Closed(-1, 1), c), c);
            (lhs.glb(s.mul(rhs, c), c), rhs)
        },
    }
}

} // verus!
