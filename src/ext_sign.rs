use vstd::prelude::*;

use crate::ast::Num;
use crate::domain::{AbstractDomain, Interval, NoConfig};
use crate::values::text_is;

verus! {

/// A set of signs: which of negative numbers, zero and positive numbers are possible.
#[derive(Debug, Clone, Copy, PartialEq, Eq, Structural)]
pub struct ExtendedSignDomain {
    pub positive: bool,
    pub zero: bool,
    pub negative: bool,
}

pub open spec fn signs(positive: bool, zero: bool, negative: bool) -> ExtendedSignDomain {
    ExtendedSignDomain { positive, zero, negative }
}

pub open spec fn imply(b1: bool, b2: bool) -> bool {
    b1 ==> b2
}

impl ExtendedSignDomain {
    pub open spec fn is_bottom_spec(self) -> bool {
        !self.negative && !self.zero && !self.positive
    }

    /// Number of signs left out: a join that changes an element lowers it.
    pub open spec fn rank(self) -> nat {
        (if self.positive { 0nat } else { 1nat }) + (if self.zero { 0nat } else { 1nat }) + (if self.negative { 0nat } else { 1nat })
    }

    pub open spec fn add_spec(self, o: Self) -> Self {
        if self.is_bottom_spec() || o.is_bottom_spec() {
            signs(false, false, false)
        } else {
            signs(
                self.positive || o.positive,
                (self.zero && o.zero) || (self.negative && o.positive) || (self.positive && o.negative),
                self.negative || o.negative,
            )
        }
    }

    pub open spec fn sub_spec(self, o: Self) -> Self {
        if self.is_bottom_spec() || o.is_bottom_spec() {
            signs(false, false, false)
        } else {
            signs(
                self.positive || o.negative,
                (self.zero && o.zero) || (self.negative && o.negative) || (self.positive && o.positive),
                self.negative || o.positive,
            )
        }
    }

    pub open spec fn mul_spec(self, o: Self) -> Self {
        if self.is_bottom_spec() || o.is_bottom_spec() {
            signs(false, false, false)
        } else {
            signs(
                (self.positive && o.positive) || (self.negative && o.negative),
                self.zero || o.zero,
                (self.positive && o.negative) || (self.negative && o.positive),
            )
        }
    }

    /// Division: a zero divisor contributes nothing; over a non-zero divisor any
    /// dividend may give zero (truncation: `1 / 2 = 0`).
    pub open spec fn div_spec(self, o: Self) -> Self {
        if self.is_bottom_spec() || o.is_bottom_spec() {
            signs(false, false, false)
        } else {
            signs(
                (self.positive && o.positive) || (self.negative && o.negative),
                o.negative || o.positive,
                (self.positive && o.negative) || (self.negative && o.positive),
            )
        }
    }

    pub open spec fn from_interval_spec(i: Interval) -> Self {
        match i {
            Interval::OpenLeft(m) => signs(m > 0, m >= 0, true),
            Interval::OpenRight(m) => signs(true, m <= 0, m < 0),
            Interval::Closed(l, u) => {
                if l == 0 && u == 0 {
                    signs(false, true, false)
                } else if l == 0 {
                    signs(true, true, false)
                } else if l > 0 {
                    signs(true, false, false)
                } else if u == 0 {
                    signs(false, true, true)
                } else if u < 0 {
                    signs(false, false, true)
                } else {
                    signs(true, true, true)
                }
            },
        }
    }

    pub fn is_bottom(&self) -> (r: bool)
        ensures
            r == self.is_bottom_spec(),
    {
        !self.negative && !self.zero && !self.positive
    }
}

impl AbstractDomain for ExtendedSignDomain {
    type Config = NoConfig;

    open spec fn wf(self, c: NoConfig) -> bool {
        true
    }

    open spec fn spec_bottom() -> Self {
        signs(false, false, false)
    }

    open spec fn spec_top() -> Self {
        signs(true, true, true)
    }

    open spec fn spec_le(self, o: Self) -> bool {
        imply(self.positive, o.positive) && imply(self.zero, o.zero) && imply(self.negative, o.negative)
    }

    open spec fn spec_lub(self, o: Self, c: NoConfig) -> Self {
        signs(self.positive || o.positive, self.zero || o.zero, self.negative || o.negative)
    }

    open spec fn spec_glb(self, o: Self, c: NoConfig) -> Self {
        signs(self.positive && o.positive, self.zero && o.zero, self.negative && o.negative)
    }

    open spec fn spec_widening(self, o: Self, c: NoConfig) -> Self {
        self.spec_lub(o, c)
    }

    open spec fn spec_narrowing(self, o: Self, c: NoConfig) -> Self {
        self
    }

    open spec fn spec_add(self, o: Self, c: NoConfig) -> Self {
        self.add_spec(o)
    }

    open spec fn spec_sub(self, o: Self, c: NoConfig) -> Self {
        self.sub_spec(o)
    }

    open spec fn spec_mul(self, o: Self, c: NoConfig) -> Self {
        self.mul_spec(o)
    }

    open spec fn spec_div(self, o: Self, c: NoConfig) -> Self {
        self.div_spec(o)
    }

    open spec fn spec_from_num(n: Num, c: NoConfig) -> Self {
        signs(n > 0, n == 0, n < 0)
    }

    open spec fn spec_from_interval(i: Interval, c: NoConfig) -> Self {
        Self::from_interval_spec(i)
    }

    proof fn lemma_bottom_top_wf(c: NoConfig) {
    }

    proof fn lemma_idempotent(x: Self, c: NoConfig) {
    }

    fn bottom() -> (r: Self) {
        ExtendedSignDomain { positive: false, zero: false, negative: false }
    }

    fn top() -> (r: Self) {
        ExtendedSignDomain { positive: true, zero: true, negative: true }
    }

    fn same(&self, o: &Self) -> (r: bool) {
        *self == *o
    }

    fn lub(self, o: Self, c: NoConfig) -> (r: Self) {
        ExtendedSignDomain {
            positive: self.positive || o.positive,
            zero: self.zero || o.zero,
            negative: self.negative || o.negative,
        }
    }

    fn glb(self, o: Self, c: NoConfig) -> (r: Self) {
        ExtendedSignDomain {
            positive: self.positive && o.positive,
            zero: self.zero && o.zero,
            negative: self.negative && o.negative,
        }
    }

    fn widening(self, o: Self, c: NoConfig) -> (r: Self) {
        self.lub(o, c)
    }

    fn narrowing(self, o: Self, c: NoConfig) -> (r: Self) {
        self
    }

    fn add(self, o: Self, c: NoConfig) -> (r: Self) {
        if self.is_bottom() || o.is_bottom() {
            return Self::bottom();
        }
        ExtendedSignDomain {
            positive: self.positive || o.positive,
            zero: (self.zero && o.zero) || (self.negative && o.positive) || (self.positive && o.negative),
            negative: self.negative || o.negative,
        }
    }

    fn sub(self, o: Self, c: NoConfig) -> (r: Self) {
        if self.is_bottom() || o.is_bottom() {
            return Self::bottom();
        }
        ExtendedSignDomain {
            positive: self.positive || o.negative,
            zero: (self.zero && o.zero) || (self.negative && o.negative) || (self.positive && o.positive),
            negative: self.negative || o.positive,
        }
    }

    fn mul(self, o: Self, c: NoConfig) -> (r: Self) {
        if self.is_bottom() || o.is_bottom() {
            return Self::bottom();
        }
        ExtendedSignDomain {
            positive: (self.positive && o.positive) || (self.negative && o.negative),
            zero: self.zero || o.zero,
            negative: (self.positive && o.negative) || (self.negative && o.positive),
        }
    }

    fn div(self, o: Self, c: NoConfig) -> (r: Self) {
        if self.is_bottom() || o.is_bottom() {
            return Self::bottom();
        }
        ExtendedSignDomain {
            positive: (self.positive && o.positive) || (self.negative && o.negative),
            zero: o.negative || o.positive,
            negative: (self.positive && o.negative) || (self.negative && o.positive),
        }
    }

    fn from_num(n: Num, c: NoConfig) -> (r: Self) {
        ExtendedSignDomain { positive: n > 0, zero: n == 0, negative: n < 0 }
    }

    fn from_interval(i: Interval, c: NoConfig) -> (r: Self) {
        match i {
            Interval::OpenLeft(m) => ExtendedSignDomain { positive: m > 0, zero: m >= 0, negative: true },
            Interval::OpenRight(m) => ExtendedSignDomain { positive: true, zero: m <= 0, negative: m < 0 },
            Interval::Closed(l, u) => {
                if l == 0 && u == 0 {
                    ExtendedSignDomain { positive: false, zero: true, negative: false }
                } else if l == 0 {
                    ExtendedSignDomain { positive: true, zero: true, negative: false }
                } else if l > 0 {
                    ExtendedSignDomain { positive: true, zero: false, negative: false }
                } else if u == 0 {
                    ExtendedSignDomain { positive: false, zero: true, negative: true }
                } else if u < 0 {
                    ExtendedSignDomain { positive: false, zero: false, negative: true }
                } else {
                    ExtendedSignDomain { positive: true, zero: true, negative: true }
                }
            },
        }
    }

    /// `-`, `0`, `+`, `0+`, `-0` or `-+`: the signs it may have.
    open spec fn spec_from_text(t: Seq<char>, c: NoConfig) -> Option<Self> {
        if t == "-"@ {
            Some(signs(false, false, true))
        } else if t == "0"@ {
            Some(signs(false, true, false))
        } else if t == "+"@ {
            Some(signs(true, false, false))
        } else if t == "0+"@ {
            Some(signs(true, true, false))
        } else if t == "-0"@ {
            Some(signs(false, true, true))
        } else if t == "-+"@ {
            Some(signs(true, false, true))
        } else {
            None
        }
    }

    fn from_text(cs: &Vec<char>, from: usize, to: usize, c: NoConfig) -> (r: Option<Self>) {
        if text_is(cs, from, to, "-") {
            Some(ExtendedSignDomain { positive: false, zero: false, negative: true })
        } else if text_is(cs, from, to, "0") {
            Some(ExtendedSignDomain { positive: false, zero: true, negative: false })
        } else if text_is(cs, from, to, "+") {
            Some(ExtendedSignDomain { positive: true, zero: false, negative: false })
        } else if text_is(cs, from, to, "0+") {
            Some(ExtendedSignDomain { positive: true, zero: true, negative: false })
        } else if text_is(cs, from, to, "-0") {
            Some(ExtendedSignDomain { positive: false, zero: true, negative: true })
        } else if text_is(cs, from, to, "-+") {
            Some(ExtendedSignDomain { positive: true, zero: false, negative: true })
        } else {
            None
        }
    }
}

/// Lattice laws of the extended sign domain: idempotence, commutativity,
/// associativity, absorption, the identities of `⊥` and `⊤`, and the order read
/// off the join.
pub proof fn lemma_ext_sign_lattice(x: ExtendedSignDomain, y: ExtendedSignDomain, z: ExtendedSignDomain)
    ensures
        x.spec_lub(x, NoConfig) == x,
        x.spec_glb(x, NoConfig) == x,
        x.spec_lub(y, NoConfig) == y.spec_lub(x, NoConfig),
        x.spec_glb(y, NoConfig) == y.spec_glb(x, NoConfig),
        x.spec_lub(y, NoConfig).spec_lub(z, NoConfig) == x.spec_lub(y.spec_lub(z, NoConfig), NoConfig),
        x.spec_glb(y, NoConfig).spec_glb(z, NoConfig) == x.spec_glb(y.spec_glb(z, NoConfig), NoConfig),
        x.spec_lub(x.spec_glb(y, NoConfig), NoConfig) == x,
        x.spec_glb(x.spec_lub(y, NoConfig), NoConfig) == x,
        x.spec_lub(ExtendedSignDomain::spec_bottom(), NoConfig) == x,
        x.spec_glb(ExtendedSignDomain::spec_top(), NoConfig) == x,
        x.spec_le(y) <==> x.spec_lub(y, NoConfig) == y,
{
}

/// Widening (the join) is extensive and stabilises: a step that changes `x` lowers
/// its rank; narrowing (keeping `x`) contracts: `x ⊓ y ⊑ x Δ y ⊑ x`.
pub proof fn lemma_ext_sign_widening_narrowing(x: ExtendedSignDomain, y: ExtendedSignDomain)
    ensures
        x.spec_le(x.spec_widening(y, NoConfig)),
        y.spec_le(x.spec_widening(y, NoConfig)),
        x.spec_widening(y, NoConfig) == x || x.spec_widening(y, NoConfig).rank() < x.rank(),
        x.spec_glb(y, NoConfig).spec_le(x.spec_narrowing(y, NoConfig)),
        x.spec_narrowing(y, NoConfig).spec_le(x),
{
}

/// The lattice and arithmetic operations of the extended sign domain are monotone
/// in both operands.
pub proof fn lemma_ext_sign_ops_monotone(
    x: ExtendedSignDomain,
    x2: ExtendedSignDomain,
    y: ExtendedSignDomain,
    y2: ExtendedSignDomain,
)
    requires
        x.spec_le(x2),
        y.spec_le(y2),
    ensures
        x.spec_lub(y, NoConfig).spec_le(x2.spec_lub(y2, NoConfig)),
        x.spec_glb(y, NoConfig).spec_le(x2.spec_glb(y2, NoConfig)),
        x.spec_add(y, NoConfig).spec_le(x2.spec_add(y2, NoConfig)),
        x.spec_sub(y, NoConfig).spec_le(x2.spec_sub(y2, NoConfig)),
        x.spec_mul(y, NoConfig).spec_le(x2.spec_mul(y2, NoConfig)),
        x.spec_div(y, NoConfig).spec_le(x2.spec_div(y2, NoConfig)),
{
}

} // verus!
