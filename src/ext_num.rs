use vstd::prelude::*;

verus! {

/// An integer extended with the two infinities.
#[derive(Debug, Clone, Copy, PartialEq, Eq, Structural)]
pub enum ExtendedNum {
    PosInf,
    NegInf,
    Num(i128),
}

/// The extended integer that stands for the mathematical integer `v`: values beyond
/// the range of `i128` become the infinity on their side.
pub open spec fn of_int(v: int) -> ExtendedNum {
    if v > i128::MAX {
        ExtendedNum::PosInf
    } else if v < i128::MIN {
        ExtendedNum::NegInf
    } else {
        ExtendedNum::Num(v as i128)
    }
}

/// Rust's truncating integer division, stated over `int`.
pub open spec fn trunc_div(x: int, d: int) -> int {
    if x == 0 {
        0
    } else if x > 0 && d > 0 {
        x / d
    } else if x < 0 && d < 0 {
        (x * -1) / (d * -1)
    } else if x < 0 {
        ((x * -1) / d) * -1
    } else {
        (x / (d * -1)) * -1
    }
}

impl ExtendedNum {
    pub open spec fn is_finite(self) -> bool {
        self is Num
    }

    /// The total order: `-inf` below every integer, `+inf` above.
    pub open spec fn le(self, o: ExtendedNum) -> bool {
        match (self, o) {
            (ExtendedNum::NegInf, _) => true,
            (_, ExtendedNum::PosInf) => true,
            (ExtendedNum::Num(a), ExtendedNum::Num(b)) => a <= b,
            _ => false,
        }
    }

    pub open spec fn min_spec(self, o: ExtendedNum) -> ExtendedNum {
        if self.le(o) { self } else { o }
    }

    pub open spec fn max_spec(self, o: ExtendedNum) -> ExtendedNum {
        if self.le(o) { o } else { self }
    }

    /// Sums are defined except `+inf + -inf`.
    pub open spec fn add_defined(self, o: ExtendedNum) -> bool {
        !(self is PosInf && o is NegInf) && !(self is NegInf && o is PosInf)
    }

    pub open spec fn add_spec(self, o: ExtendedNum) -> ExtendedNum {
        match (self, o) {
            (ExtendedNum::Num(a), ExtendedNum::Num(b)) => of_int(a + b),
            (ExtendedNum::PosInf, _) | (_, ExtendedNum::PosInf) => ExtendedNum::PosInf,
            _ => ExtendedNum::NegInf,
        }
    }

    /// Differences are defined except between equal infinities.
    pub open spec fn sub_defined(self, o: ExtendedNum) -> bool {
        !(self is PosInf && o is PosInf) && !(self is NegInf && o is NegInf)
    }

    pub open spec fn sub_spec(self, o: ExtendedNum) -> ExtendedNum {
        match (self, o) {
            (ExtendedNum::Num(a), ExtendedNum::Num(b)) => of_int(a - b),
            (ExtendedNum::PosInf, _) | (_, ExtendedNum::NegInf) => ExtendedNum::PosInf,
            _ => ExtendedNum::NegInf,
        }
    }

    /// Products: an infinity times zero is zero, otherwise the rule of signs.
    pub open spec fn mul_spec(self, o: ExtendedNum) -> ExtendedNum {
        match (self, o) {
            (ExtendedNum::Num(a), ExtendedNum::Num(b)) => of_int(a * b),
            (ExtendedNum::Num(n), inf) | (inf, ExtendedNum::Num(n)) => {
                if n == 0 {
                    ExtendedNum::Num(0)
                } else if (n > 0) == (inf is PosInf) {
                    ExtendedNum::PosInf
                } else {
                    ExtendedNum::NegInf
                }
            },
            (a, b) => if a == b { ExtendedNum::PosInf } else { ExtendedNum::NegInf },
        }
    }

    /// Quotients are defined except `0 / 0` and an infinity over an infinity.
    pub open spec fn div_defined(self, o: ExtendedNum) -> bool {
        !(self == ExtendedNum::Num(0) && o == ExtendedNum::Num(0)) && !(!self.is_finite()
            && !o.is_finite())
    }

    /// Quotients: truncating division on integers; a finite number over an infinity
    /// is zero; a division by zero gives the infinity with the numerator's sign.
    pub open spec fn div_spec(self, o: ExtendedNum) -> ExtendedNum {
        match (self, o) {
            (ExtendedNum::Num(a), ExtendedNum::Num(b)) => {
                if b == 0 {
                    if a > 0 { ExtendedNum::PosInf } else { ExtendedNum::NegInf }
                } else {
                    of_int(trunc_div(a as int, b as int))
                }
            },
            (ExtendedNum::Num(_), _) => ExtendedNum::Num(0),
            (inf, ExtendedNum::Num(n)) => {
                if (n >= 0) == (inf is PosInf) {
                    ExtendedNum::PosInf
                } else {
                    ExtendedNum::NegInf
                }
            },
            _ => ExtendedNum::Num(0),
        }
    }

    pub fn less_eq(&self, o: &ExtendedNum) -> (r: bool)
        ensures
            r == self.le(*o),
    {
        match (self, o) {
            (ExtendedNum::NegInf, _) => true,
            (_, ExtendedNum::PosInf) => true,
            (ExtendedNum::Num(a), ExtendedNum::Num(b)) => *a <= *b,
            _ => false,
        }
    }

    pub fn min(self, o: ExtendedNum) -> (r: ExtendedNum)
        ensures
            r == self.min_spec(o),
    {
        if self.less_eq(&o) { self } else { o }
    }

    pub fn max(self, o: ExtendedNum) -> (r: ExtendedNum)
        ensures
            r == self.max_spec(o),
    {
        if self.less_eq(&o) { o } else { self }
    }

    pub fn add(self, o: ExtendedNum) -> (r: ExtendedNum)
        requires
            self.add_defined(o),
        ensures
            r == self.add_spec(o),
    {
        match (self, o) {
            (ExtendedNum::Num(a), ExtendedNum::Num(b)) => match a.checked_add(b) {
                Some(s) => ExtendedNum::Num(s),
                None => if a > 0 { ExtendedNum::PosInf } else { ExtendedNum::NegInf },
            },
            (ExtendedNum::PosInf, _) | (_, ExtendedNum::PosInf) => ExtendedNum::PosInf,
            _ => ExtendedNum::NegInf,
        }
    }

    pub fn sub(self, o: ExtendedNum) -> (r: ExtendedNum)
        requires
            self.sub_defined(o),
        ensures
            r == self.sub_spec(o),
    {
        match (self, o) {
            (ExtendedNum::Num(a), ExtendedNum::Num(b)) => match a.checked_sub(b) {
                Some(s) => ExtendedNum::Num(s),
                None => if a >= 0 { ExtendedNum::PosInf } else { ExtendedNum::NegInf },
            },
            (ExtendedNum::PosInf, _) | (_, ExtendedNum::NegInf) => ExtendedNum::PosInf,
            _ => ExtendedNum::NegInf,
        }
    }

    pub fn mul(self, o: ExtendedNum) -> (r: ExtendedNum)
        ensures
            r == self.mul_spec(o),
    {
        match (self, o) {
            (ExtendedNum::Num(a), ExtendedNum::Num(b)) => match a.checked_mul(b) {
                Some(p) => ExtendedNum::Num(p),
                None => {
                    proof {
                        let p = a as int * b as int;
                        if a == 0 || b == 0 {
                            assert(p == 0) by (nonlinear_arith) requires a == 0 || b == 0, p == a as int * b as int;
                        } else if (a > 0) == (b > 0) {
                            assert(p > 0) by (nonlinear_arith) requires (a > 0) == (b > 0), a != 0, b != 0, p == a as int * b as int;
                        } else {
                            assert(p < 0) by (nonlinear_arith) requires (a > 0) != (b > 0), a != 0, b != 0, p == a as int * b as int;
                        }
                    }
                    if (a > 0) == (b > 0) { ExtendedNum::PosInf } else { ExtendedNum::NegInf }
                },
            },
            (ExtendedNum::Num(n), inf) | (inf, ExtendedNum::Num(n)) => {
                if n == 0 {
                    ExtendedNum::Num(0)
                } else if (n > 0) == (inf == ExtendedNum::PosInf) {
                    ExtendedNum::PosInf
                } else {
                    ExtendedNum::NegInf
                }
            },
            (a, b) => if a == b { ExtendedNum::PosInf } else { ExtendedNum::NegInf },
        }
    }

    pub fn div(self, o: ExtendedNum) -> (r: ExtendedNum)
        requires
            self.div_defined(o),
        ensures
            r == self.div_spec(o),
    {
        match (self, o) {
            (ExtendedNum::Num(a), ExtendedNum::Num(b)) => {
                if b == 0 {
                    if a > 0 { ExtendedNum::PosInf } else { ExtendedNum::NegInf }
                } else {
                    match a.checked_div(b) {
                        Some(q) => ExtendedNum::Num(q),
                        None => ExtendedNum::PosInf,
                    }
                }
            },
            (ExtendedNum::Num(_), _) => ExtendedNum::Num(0),
            (inf, ExtendedNum::Num(n)) => {
                if (n >= 0) == (inf == ExtendedNum::PosInf) {
                    ExtendedNum::PosInf
                } else {
                    ExtendedNum::NegInf
                }
            },
            _ => ExtendedNum::Num(0),
        }
    }
}

/// `le` is a total order.
pub proof fn lemma_le_total_order(a: ExtendedNum, b: ExtendedNum, c: ExtendedNum)
    ensures
        a.le(a),
        a.le(b) || b.le(a),
        a.le(b) && b.le(a) ==> a == b,
        a.le(b) && b.le(c) ==> a.le(c),
{
}

} // verus!
