use vstd::prelude::*;

use crate::ast::Num;
use crate::ast::Operator;
use crate::domain::{spec_backward_abstract_operator, AbstractDomain, Interval, NoConfig};
use crate::ext_num::trunc_div;
use crate::values::text_is;

verus! {

/// The sign of an integer, with a least and a greatest element.
#[derive(Debug, Clone, Copy, PartialEq, Eq, Structural)]
pub enum SignDomain {
    Top,
    Bottom,
    Positive,
    Zero,
    Negative,
}

/// The sign of `n`.
pub open spec fn sign_of(n: int) -> SignDomain {
    if n < 0 {
        SignDomain::Negative
    } else if n == 0 {
        SignDomain::Zero
    } else {
        SignDomain::Positive
    }
}

impl SignDomain {
    /// Distance to `Top`: a join that changes an element lowers it.
    pub open spec fn rank(self) -> nat {
        match self {
            SignDomain::Bottom => 2,
            SignDomain::Top => 0,
            _ => 1,
        }
    }

    pub open spec fn lub_spec(self, o: Self) -> Self {
        if self is Bottom {
            o
        } else if o is Bottom {
            self
        } else if self == o {
            self
        } else {
            SignDomain::Top
        }
    }

    pub open spec fn glb_spec(self, o: Self) -> Self {
        if self is Top {
            o
        } else if o is Top {
            self
        } else if self == o {
            self
        } else {
            SignDomain::Bottom
        }
    }

    pub open spec fn add_spec(self, o: Self) -> Self {
        if self is Bottom || o is Bottom {
            SignDomain::Bottom
        } else if self is Top || o is Top {
            SignDomain::Top
        } else if self == o {
            self
        } else if self is Zero {
            o
        } else if o is Zero {
            self
        } else {
            SignDomain::Top
        }
    }

    pub open spec fn sub_spec(self, o: Self) -> Self {
        match (self, o) {
            (SignDomain::Bottom, _) | (_, SignDomain::Bottom) => SignDomain::Bottom,
            (SignDomain::Top, _) | (_, SignDomain::Top) => SignDomain::Top,
            (SignDomain::Zero, SignDomain::Negative) => SignDomain::Positive,
            (SignDomain::Zero, SignDomain::Positive) => SignDomain::Negative,
            (s, SignDomain::Zero) => s,
            (SignDomain::Positive, SignDomain::Negative) => SignDomain::Positive,
            (SignDomain::Negative, SignDomain::Positive) => SignDomain::Negative,
            _ => SignDomain::Top,
        }
    }

    pub open spec fn mul_spec(self, o: Self) -> Self {
        match (self, o) {
            (SignDomain::Bottom, _) | (_, SignDomain::Bottom) => SignDomain::Bottom,
            (SignDomain::Zero, _) | (_, SignDomain::Zero) => SignDomain::Zero,
            (SignDomain::Top, _) | (_, SignDomain::Top) => SignDomain::Top,
            (a, b) => if a == b { SignDomain::Positive } else { SignDomain::Negative },
        }
    }

    /// Division; by zero it gives `Bottom`. A truncated quotient of non-zero
    /// numbers may be zero (`1 / 2 = 0`), so it is `Top`.
    pub open spec fn div_spec(self, o: Self) -> Self {
        match (self, o) {
            (SignDomain::Bottom, _) | (_, SignDomain::Bottom) => SignDomain::Bottom,
            (_, SignDomain::Zero) => SignDomain::Bottom,
            (SignDomain::Zero, _) => SignDomain::Zero,
            _ => SignDomain::Top,
        }
    }

    pub open spec fn from_interval_spec(i: Interval) -> Self {
        match i {
            Interval::OpenLeft(m) => if m < 0 { SignDomain::Negative } else { SignDomain::Top },
            Interval::OpenRight(m) => if m > 0 { SignDomain::Positive } else { SignDomain::Top },
            Interval::Closed(l, u) => {
                if l < 0 && u < 0 {
                    SignDomain::Negative
                } else if l == 0 && u == 0 {
                    SignDomain::Zero
                } else if l > 0 && u > 0 {
                    SignDomain::Positive
                } else {
                    SignDomain::Top
                }
            },
        }
    }
}

impl AbstractDomain for SignDomain {
    type Config = NoConfig;

    open spec fn wf(self, c: NoConfig) -> bool {
        true
    }

    open spec fn spec_bottom() -> Self {
        SignDomain::Bottom
    }

    open spec fn spec_top() -> Self {
        SignDomain::Top
    }

    open spec fn spec_le(self, o: Self) -> bool {
        self is Bottom || o is Top || self == o
    }

    open spec fn spec_lub(self, o: Self, c: NoConfig) -> Self {
        self.lub_spec(o)
    }

    open spec fn spec_glb(self, o: Self, c: NoConfig) -> Self {
        self.glb_spec(o)
    }

    open spec fn spec_widening(self, o: Self, c: NoConfig) -> Self {
        self.lub_spec(o)
    }

    open spec fn spec_narrowing(self, o: Self, c: NoConfig) -> Self {
        self
    }

    open spec fn spec_add(self, o: Self, c: NoConfig) -> Self {
        self.add_spec(o)
    }

    open spec fn spec_sub(self, o: Self, c: NoConfig) -> Self {
        self.sub_spec(o)
    }

    open spec fn spec_mul(self, o: Self, c: NoConfig) -> Self {
        self.mul_spec(o)
    }

    open spec fn spec_div(self, o: Self, c: NoConfig) -> Self {
        self.div_spec(o)
    }

    open spec fn spec_from_num(n: Num, c: NoConfig) -> Self {
        sign_of(n as int)
    }

    open spec fn spec_from_interval(i: Interval, c: NoConfig) -> Self {
        Self::from_interval_spec(i)
    }

    proof fn lemma_bottom_top_wf(c: NoConfig) {
    }

    proof fn lemma_idempotent(x: Self, c: NoConfig) {
    }

    fn bottom() -> (r: Self) {
        SignDomain::Bottom
    }

    fn top() -> (r: Self) {
        SignDomain::Top
    }

    fn same(&self, o: &Self) -> (r: bool) {
        *self == *o
    }

    fn lub(self, o: Self, c: NoConfig) -> (r: Self) {
        if self == SignDomain::Bottom {
            o
        } else if o == SignDomain::Bottom {
            self
        } else if self == o {
            self
        } else {
            SignDomain::Top
        }
    }

    fn glb(self, o: Self, c: NoConfig) -> (r: Self) {
        if self == SignDomain::Top {
            o
        } else if o == SignDomain::Top {
            self
        } else if self == o {
            self
        } else {
            SignDomain::Bottom
        }
    }

    fn widening(self, o: Self, c: NoConfig) -> (r: Self) {
        self.lub(o, c)
    }

    fn narrowing(self, o: Self, c: NoConfig) -> (r: Self) {
        self
    }

    fn add(self, o: Self, c: NoConfig) -> (r: Self) {
        if self == SignDomain::Bottom || o == SignDomain::Bottom {
            SignDomain::Bottom
        } else if self == SignDomain::Top || o == SignDomain::Top {
            SignDomain::Top
        } else if self == o {
            self
        } else if self == SignDomain::Zero {
            o
        } else if o == SignDomain::Zero {
            self
        } else {
            SignDomain::Top
        }
    }

    fn sub(self, o: Self, c: NoConfig) -> (r: Self) {
        match (self, o) {
            (SignDomain::Bottom, _) | (_, SignDomain::Bottom) => SignDomain::Bottom,
            (SignDomain::Top, _) | (_, SignDomain::Top) => SignDomain::Top,
            (SignDomain::Zero, SignDomain::Negative) => SignDomain::Positive,
            (SignDomain::Zero, SignDomain::Positive) => SignDomain::Negative,
            (s, SignDomain::Zero) => s,
            (SignDomain::Positive, SignDomain::Negative) => SignDomain::Positive,
            (SignDomain::Negative, SignDomain::Positive) => SignDomain::Negative,
            _ => SignDomain::Top,
        }
    }

    fn mul(self, o: Self, c: NoConfig) -> (r: Self) {
        match (self, o) {
            (SignDomain::Bottom, _) | (_, SignDomain::Bottom) => SignDomain::Bottom,
            (SignDomain::Zero, _) | (_, SignDomain::Zero) => SignDomain::Zero,
            (SignDomain::Top, _) | (_, SignDomain::Top) => SignDomain::Top,
            (a, b) => if a == b { SignDomain::Positive } else { SignDomain::Negative },
        }
    }

    fn div(self, o: Self, c: NoConfig) -> (r: Self) {
        match (self, o) {
            (SignDomain::Bottom, _) | (_, SignDomain::Bottom) => SignDomain::Bottom,
            (_, SignDomain::Zero) => SignDomain::Bottom,
            (SignDomain::Zero, _) => SignDomain::Zero,
            _ => SignDomain::Top,
        }
    }

    fn from_num(n: Num, c: NoConfig) -> (r: Self) {
        if n < 0 {
            SignDomain::Negative
        } else if n == 0 {
            SignDomain::Zero
        } else {
            SignDomain::Positive
        }
    }

    fn from_interval(i: Interval, c: NoConfig) -> (r: Self) {
        match i {
            Interval::OpenLeft(m) => if m < 0 { SignDomain::Negative } else { SignDomain::Top },
            Interval::OpenRight(m) => if m > 0 { SignDomain::Positive } else { SignDomain::Top },
            Interval::Closed(l, u) => {
                if l < 0 && u < 0 {
                    SignDomain::Negative
                } else if l == 0 && u == 0 {
                    SignDomain::Zero
                } else if l > 0 && u > 0 {
                    SignDomain::Positive
                } else {
                    SignDomain::Top
                }
            },
        }
    }

    /// `-`, `0` or `+`.
    open spec fn spec_from_text(t: Seq<char>, c: NoConfig) -> Option<Self> {
        if t == "-"@ {
            Some(SignDomain::Negative)
        } else if t == "0"@ {
            Some(SignDomain::Zero)
        } else if t == "+"@ {
            Some(SignDomain::Positive)
        } else {
            None
        }
    }

    fn from_text(cs: &Vec<char>, from: usize, to: usize, c: NoConfig) -> (r: Option<Self>) {
        if text_is(cs, from, to, "-") {
            Some(SignDomain::Negative)
        } else if text_is(cs, from, to, "0") {
            Some(SignDomain::Zero)
        } else if text_is(cs, from, to, "+") {
            Some(SignDomain::Positive)
        } else {
            None
        }
    }
}

/// Lattice laws of the sign domain: idempotence, commutativity, associativity,
/// absorption, the identities of `Bottom` and `Top`, and the order read off the join.
pub proof fn lemma_sign_lattice(x: SignDomain, y: SignDomain, z: SignDomain)
    ensures
        x.spec_lub(x, NoConfig) == x,
        x.spec_glb(x, NoConfig) == x,
        x.spec_lub(y, NoConfig) == y.spec_lub(x, NoConfig),
        x.spec_glb(y, NoConfig) == y.spec_glb(x, NoConfig),
        x.spec_lub(y, NoConfig).spec_lub(z, NoConfig) == x.spec_lub(y.spec_lub(z, NoConfig), NoConfig),
        x.spec_glb(y, NoConfig).spec_glb(z, NoConfig) == x.spec_glb(y.spec_glb(z, NoConfig), NoConfig),
        x.spec_lub(x.spec_glb(y, NoConfig), NoConfig) == x,
        x.spec_glb(x.spec_lub(y, NoConfig), NoConfig) == x,
        x.spec_lub(SignDomain::spec_bottom(), NoConfig) == x,
        x.spec_glb(SignDomain::spec_top(), NoConfig) == x,
        x.spec_le(y) <==> x.spec_lub(y, NoConfig) == y,
{
}

/// Widening (the join) is extensive and stabilises: a step that changes `x` lowers
/// its rank; narrowing (keeping `x`) contracts: `x ⊓ y ⊑ x Δ y ⊑ x`.
pub proof fn lemma_sign_widening_narrowing(x: SignDomain, y: SignDomain)
    ensures
        x.spec_le(x.spec_widening(y, NoConfig)),
        y.spec_le(x.spec_widening(y, NoConfig)),
        x.spec_widening(y, NoConfig) == x || x.spec_widening(y, NoConfig).rank() < x.rank(),
        x.spec_glb(y, NoConfig).spec_le(x.spec_narrowing(y, NoConfig)),
        x.spec_narrowing(y, NoConfig).spec_le(x),
{
}

/// The lattice and arithmetic operations of the sign domain are monotone in both
/// operands.
pub proof fn lemma_sign_ops_monotone(x: SignDomain, x2: SignDomain, y: SignDomain, y2: SignDomain)
    requires
        x.spec_le(x2),
        y.spec_le(y2),
    ensures
        x.spec_lub(y, NoConfig).spec_le(x2.spec_lub(y2, NoConfig)),
        x.spec_glb(y, NoConfig).spec_le(x2.spec_glb(y2, NoConfig)),
        x.spec_add(y, NoConfig).spec_le(x2.spec_add(y2, NoConfig)),
        x.spec_sub(y, NoConfig).spec_le(x2.spec_sub(y2, NoConfig)),
        x.spec_mul(y, NoConfig).spec_le(x2.spec_mul(y2, NoConfig)),
        x.spec_div(y, NoConfig).spec_le(x2.spec_div(y2, NoConfig)),
{
}

/// The integers a sign stands for.
pub open spec fn contains(x: SignDomain, v: int) -> bool {
    match x {
        SignDomain::Bottom => false,
        SignDomain::Top => true,
        SignDomain::Positive => v > 0,
        SignDomain::Zero => v == 0,
        SignDomain::Negative => v < 0,
    }
}

proof fn lemma_product_sign(v1: int, v2: int)
    ensures
        (v1 > 0 && v2 > 0) || (v1 < 0 && v2 < 0) ==> v1 * v2 > 0,
        (v1 > 0 && v2 < 0) || (v1 < 0 && v2 > 0) ==> v1 * v2 < 0,
        (v1 == 0 || v2 == 0) ==> v1 * v2 == 0,
        v1 * v2 == 0 ==> v1 == 0 || v2 == 0,
        v1 * v2 == v2 * v1,
{
    assert(v1 * v2 == v2 * v1) by (nonlinear_arith);
    if v1 > 0 && v2 > 0 {
        assert(v1 * v2 > 0) by (nonlinear_arith) requires v1 > 0, v2 > 0;
    }
    if v1 < 0 && v2 < 0 {
        assert(v1 * v2 > 0) by (nonlinear_arith) requires v1 < 0, v2 < 0;
    }
    if v1 > 0 && v2 < 0 {
        assert(v1 * v2 < 0) by (nonlinear_arith) requires v1 > 0, v2 < 0;
    }
    if v1 < 0 && v2 > 0 {
        assert(v1 * v2 < 0) by (nonlinear_arith) requires v1 < 0, v2 > 0;
    }
    if v1 == 0 || v2 == 0 {
        assert(v1 * v2 == 0) by (nonlinear_arith) requires v1 == 0 || v2 == 0;
    }
}

/// Exact division undoes multiplication.
pub proof fn lemma_trunc_div_product(v1: int, v2: int)
    requires
        v2 != 0,
    ensures
        trunc_div(v1 * v2, v2) == v1,
{
    lemma_product_sign(v1, v2);
    let x = v1 * v2;
    if x > 0 && v2 > 0 {
        assert(x / v2 == v1) by (nonlinear_arith) requires x == v1 * v2, v2 > 0;
    } else if x < 0 && v2 < 0 {
        assert((x * -1) / (v2 * -1) == v1) by (nonlinear_arith) requires x == v1 * v2, v2 < 0;
    } else if x < 0 {
        assert(((x * -1) / v2) * -1 == v1) by (nonlinear_arith) requires x == v1 * v2, v2 > 0;
    } else if x > 0 {
        assert((x / (v2 * -1)) * -1 == v1) by (nonlinear_arith) requires x == v1 * v2, v2 < 0;
    }
}

/// The join, the meet and the arithmetic of signs are sound: an operation on
/// values of the operands (a truncated quotient by a non-zero divisor) lies in the
/// result.
pub proof fn lemma_sign_ops_sound(x: SignDomain, y: SignDomain, v1: int, v2: int)
    requires
        contains(x, v1),
        contains(y, v2),
    ensures
        contains(x.spec_lub(y, NoConfig), v1),
        contains(x.spec_lub(y, NoConfig), v2),
        contains(x, v2) ==> contains(x.spec_glb(y, NoConfig), v2),
        contains(x.spec_add(y, NoConfig), v1 + v2),
        contains(x.spec_sub(y, NoConfig), v1 - v2),
        contains(x.spec_mul(y, NoConfig), v1 * v2),
        v2 != 0 ==> contains(x.spec_div(y, NoConfig), trunc_div(v1, v2)),
{
    lemma_product_sign(v1, v2);
}

/// The backward operators keep every pair of operand values whose result (for
/// division, the truncated quotient by a non-zero divisor) lies in `res`.
pub proof fn lemma_sign_backward_sound(op: Operator, x: SignDomain, y: SignDomain, res: SignDomain, v1: int, v2: int)
    requires
        contains(x, v1),
        contains(y, v2),
        match op {
            Operator::Add => contains(res, v1 + v2),
            Operator::Sub => contains(res, v1 - v2),
            Operator::Mul => contains(res, v1 * v2),
            Operator::Div => v2 != 0 && contains(res, trunc_div(v1, v2)),
        },
    ensures
        contains(spec_backward_abstract_operator(op, x, y, res, NoConfig).0, v1),
        contains(spec_backward_abstract_operator(op, x, y, res, NoConfig).1, v2),
{
    lemma_product_sign(v1, v2);
    match op {
        Operator::Add => {
            lemma_sign_ops_sound(res, y, v1 + v2, v2);
            lemma_sign_ops_sound(res, x, v1 + v2, v1);
            lemma_sign_ops_sound(x, res.spec_sub(y, NoConfig), v1, v1);
            lemma_sign_ops_sound(y, res.spec_sub(x, NoConfig), v2, v2);
        },
        Operator::Sub => {
            lemma_sign_ops_sound(res, y, v1 - v2, v2);
            lemma_sign_ops_sound(x, res, v1, v1 - v2);
            lemma_sign_ops_sound(x, res.spec_add(y, NoConfig), v1, v1);
            lemma_sign_ops_sound(y, x.spec_sub(res, NoConfig), v2, v2);
        },
        Operator::Mul => {
            if v2 != 0 {
                lemma_trunc_div_product(v1, v2);
                lemma_sign_ops_sound(res, y, v1 * v2, v2);
                lemma_sign_ops_sound(x, res.spec_div(y, NoConfig), v1, v1);
            }
            if v1 != 0 {
                lemma_trunc_div_product(v2, v1);
                lemma_sign_ops_sound(res, x, v2 * v1, v1);
                lemma_sign_ops_sound(y, res.spec_div(x, NoConfig), v2, v2);
            }
        },
        Operator::Div => {},
    }
}

} // verus!
