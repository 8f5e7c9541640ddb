use vstd::prelude::*;

use crate::ast::Num;
use crate::domain::{AbstractDomain, Interval, NoConfig};
use crate::values::{find_char, first_index, int_spec, parse_int, text_is};

verus! {

/// Congruences: `Bottom`, or the integers `v` with `v ≡ b (mod a)`; `a = 0` is the
/// single integer `b`, `a = 1` all integers. Elements are kept canonical: `a ≥ 0`,
/// and `0 ≤ b < a` when `a > 0`.
#[derive(Debug, Clone, Copy, PartialEq, Eq, Structural)]
pub enum CongruenceDomain {
    Bottom,
    Congruence { a: Num, b: Num },
}

pub open spec fn fits(v: int) -> bool {
    i128::MIN <= v <= i128::MAX
}

pub open spec fn abs_int(v: int) -> int {
    if v < 0 { -v } else { v }
}

/// Greatest common divisor of non-negative integers (Euclid); `gcd(a, 0) = a`.
pub open spec fn gcd_spec(a: int, b: int) -> int
    decreases b,
    when b >= 0
{
    if b <= 0 {
        a
    } else {
        gcd_spec(b, a % b)
    }
}

/// Extended Euclid on non-negative integers: `(g, s, t)` with `a·s + b·t = g`, or
/// `None` if a coefficient leaves `i128`.
pub open spec fn egcd_spec(a: int, b: int) -> Option<(int, int, int)>
    decreases b,
    when b >= 0
{
    if b <= 0 {
        Some((a, 1, 0))
    } else {
        match egcd_spec(b, a % b) {
            Some((g, s, t)) => {
                let p = (a / b) * t;
                if fits(p) && fits(s - p) {
                    Some((g, t, s - p))
                } else {
                    None
                }
            },
            None => None,
        }
    }
}

/// The canonical element for `v ≡ b (mod a)`.
pub open spec fn norm(a: int, b: int) -> CongruenceDomain {
    if a == 0 {
        CongruenceDomain::Congruence { a: 0, b: b as i128 }
    } else {
        CongruenceDomain::Congruence { a: a as i128, b: (b % a) as i128 }
    }
}

pub open spec fn top_spec() -> CongruenceDomain {
    CongruenceDomain::Congruence { a: 1, b: 0 }
}

/// The common residue modulo `lcm(a1, a2)` of `b1 (mod a1)` and `b2 (mod a2)`, by the
/// Chinese remainder theorem; `None` if an intermediate value leaves `i128`.
pub open spec fn crt_spec(a1: int, b1: int, a2: int, b2: int) -> Option<(int, int)> {
    let g = gcd_spec(a1, a2);
    let m1 = a1 / g;
    let m2 = a2 / g;
    let l = m1 * a2;
    if m1 <= 0 || m2 <= 0 || !fits(l) {
        None
    } else {
        match egcd_spec(m1, m2) {
            Some((_, s, _)) => {
                let inv = s % m2;
                let d = (b2 - b1) / g;
                let p = d * inv;
                if !fits(d) || !fits(p) {
                    None
                } else {
                    let k = p % m2;
                    let q = a1 * k;
                    if !fits(q) || !fits(b1 + q) {
                        None
                    } else {
                        Some((l, (b1 + q) % l))
                    }
                }
            },
            None => None,
        }
    }
}

proof fn lemma_gcd_positive(a: int, b: int)
    requires
        a > 0,
        b >= 0,
    ensures
        gcd_spec(a, b) > 0,
    decreases b,
{
    if b > 0 {
        lemma_gcd_positive(b, a % b);
    }
}

impl CongruenceDomain {
    pub open spec fn canonical(self) -> bool {
        match self {
            CongruenceDomain::Bottom => true,
            CongruenceDomain::Congruence { a, b } => a >= 0 && (a > 0 ==> 0 <= b < a),
        }
    }

    pub open spec fn lub_spec(self, o: Self) -> Self {
        match (self, o) {
            (CongruenceDomain::Bottom, x) | (x, CongruenceDomain::Bottom) => x,
            (CongruenceDomain::Congruence { a: a1, b: b1 }, CongruenceDomain::Congruence { a: a2, b: b2 }) => {
                if !fits(b1 - b2) || !fits(abs_int(b1 - b2)) {
                    top_spec()
                } else {
                    norm(gcd_spec(gcd_spec(a1 as int, a2 as int), abs_int(b1 - b2)), b1 as int)
                }
            },
        }
    }

    /// Meet: the congruence of the common values, `Bottom` if there are none. When
    /// the combined modulus leaves `i128`, the first operand (an upper bound of the
    /// common values) is kept.
    pub open spec fn glb_spec(self, o: Self) -> Self {
        match (self, o) {
            (CongruenceDomain::Bottom, _) | (_, CongruenceDomain::Bottom) => CongruenceDomain::Bottom,
            (CongruenceDomain::Congruence { a: a1, b: b1 }, CongruenceDomain::Congruence { a: a2, b: b2 }) => {
                if a1 == 0 && a2 == 0 {
                    if b1 == b2 { self } else { CongruenceDomain::Bottom }
                } else if a1 == 0 {
                    if (b1 as int) % (a2 as int) == b2 { self } else { CongruenceDomain::Bottom }
                } else if a2 == 0 {
                    if (b2 as int) % (a1 as int) == b1 { o } else { CongruenceDomain::Bottom }
                } else {
                    let g = gcd_spec(a1 as int, a2 as int);
                    if (b2 - b1) % g != 0 {
                        CongruenceDomain::Bottom
                    } else {
                        match crt_spec(a1 as int, b1 as int, a2 as int, b2 as int) {
                            Some((l, r)) => CongruenceDomain::Congruence { a: l as i128, b: r as i128 },
                            None => self,
                        }
                    }
                }
            },
        }
    }

    /// Sum and difference: modulus `gcd(a1, a2)`, residue `b1 ± b2`; `Top` when the
    /// residue leaves `i128`.
    pub open spec fn add_sub_spec(self, o: Self, add: bool) -> Self {
        match (self, o) {
            (CongruenceDomain::Bottom, _) | (_, CongruenceDomain::Bottom) => CongruenceDomain::Bottom,
            (CongruenceDomain::Congruence { a: a1, b: b1 }, CongruenceDomain::Congruence { a: a2, b: b2 }) => {
                let b = if add { b1 + b2 } else { b1 - b2 };
                if fits(b) {
                    norm(gcd_spec(a1 as int, a2 as int), b)
                } else {
                    top_spec()
                }
            },
        }
    }

    /// Product: modulus `gcd(a1·a2, a1·b2, a2·b1)`, residue `b1·b2`; `Top` when a
    /// value leaves `i128`.
    pub open spec fn mul_spec(self, o: Self) -> Self {
        match (self, o) {
            (CongruenceDomain::Bottom, _) | (_, CongruenceDomain::Bottom) => CongruenceDomain::Bottom,
            (CongruenceDomain::Congruence { a: a1, b: b1 }, CongruenceDomain::Congruence { a: a2, b: b2 }) => {
                let aa = a1 * a2;
                let ab = abs_int(a1 * b2);
                let ba = abs_int(a2 * b1);
                let b = b1 * b2;
                if fits(aa) && fits(ab) && fits(ba) && fits(b) && fits(a1 * b2) && fits(a2 * b1) {
                    norm(gcd_spec(gcd_spec(aa, ab), ba), b)
                } else {
                    top_spec()
                }
            },
        }
    }

    /// Division: only by a non-zero constant that divides the modulus and the
    /// residue (or of a constant) is the result precise; by zero it is `Bottom`.
    pub open spec fn div_spec(self, o: Self) -> Self {
        match (self, o) {
            (CongruenceDomain::Bottom, _) | (_, CongruenceDomain::Bottom) => CongruenceDomain::Bottom,
            (CongruenceDomain::Congruence { a: a1, b: b1 }, CongruenceDomain::Congruence { a: a2, b: b2 }) => {
                let q = crate::ext_num::trunc_div(b1 as int, b2 as int);
                let m = abs_int(b2 as int);
                if a2 == 0 && b2 == 0 {
                    CongruenceDomain::Bottom
                } else if a2 != 0 || !fits(q) {
                    top_spec()
                } else if a1 == 0 {
                    CongruenceDomain::Congruence { a: 0, b: q as i128 }
                } else if fits(m) && (a1 as int) % m == 0 && (b1 as int) % m == 0 {
                    norm((a1 as int) / m, q)
                } else {
                    top_spec()
                }
            },
        }
    }
}

fn gcd(a: i128, b: i128) -> (r: i128)
    requires
        a >= 0,
        b >= 0,
    ensures
        r == gcd_spec(a as int, b as int),
        r >= 0,
{
    let mut x = a;
    let mut y = b;
    while y != 0
        invariant
            x >= 0,
            y >= 0,
            gcd_spec(x as int, y as int) == gcd_spec(a as int, b as int),
        decreases y,
    {
        let t = x % y;
        x = y;
        y = t;
    }
    x
}

fn extended_euclidean_algorithm(a: i128, b: i128) -> (r: Option<(i128, i128, i128)>)
    requires
        a >= 0,
        b >= 0,
    ensures
        match r {
            Some((g, s, t)) => egcd_spec(a as int, b as int) == Some((g as int, s as int, t as int)),
            None => egcd_spec(a as int, b as int) is None,
        },
    decreases b,
{
    if b == 0 {
        return Some((a, 1, 0));
    }
    match extended_euclidean_algorithm(b, a % b) {
        Some((g, s, t)) => {
            let q = a / b;
            match q.checked_mul(t) {
                Some(p) => match s.checked_sub(p) {
                    Some(u) => Some((g, t, u)),
                    None => None,
                },
                None => None,
            }
        },
        None => None,
    }
}

fn normalize(a: i128, b: i128) -> (r: CongruenceDomain)
    requires
        a >= 0,
    ensures
        r == norm(a as int, b as int),
        r.canonical(),
{
    if a == 0 {
        CongruenceDomain::Congruence { a: 0, b }
    } else {
        match b.checked_rem_euclid(a) {
            Some(m) => CongruenceDomain::Congruence { a, b: m },
            None => CongruenceDomain::Congruence { a, b: 0 },
        }
    }
}

fn crt(a1: i128, b1: i128, a2: i128, b2: i128) -> (r: Option<(i128, i128)>)
    requires
        a1 > 0,
        a2 > 0,
        0 <= b1 < a1,
        0 <= b2 < a2,
    ensures
        match r {
            Some((l, x)) => crt_spec(a1 as int, b1 as int, a2 as int, b2 as int) == Some((l as int, x as int)) && l > 0 && 0 <= x < l,
            None => crt_spec(a1 as int, b1 as int, a2 as int, b2 as int) is None,
        },
{
    let g = gcd(a1, a2);
    proof {
        lemma_gcd_positive(a1 as int, a2 as int);
    }
    let m1 = a1 / g;
    let m2 = a2 / g;
    if m1 <= 0 || m2 <= 0 {
        return None;
    }
    let l = match m1.checked_mul(a2) {
        Some(l) => l,
        None => return None,
    };
    let egcd = extended_euclidean_algorithm(m1, m2);
    match egcd {
        Some((_, s, _)) => {
            let inv = match s.checked_rem_euclid(m2) {
                Some(v) => v,
                None => return None,
            };
            let d = match (b2 - b1).checked_div_euclid(g) {
                Some(v) => v,
                None => return None,
            };
            let p = match d.checked_mul(inv) {
                Some(p) => p,
                None => return None,
            };
            let k = match p.checked_rem_euclid(m2) {
                Some(v) => v,
                None => return None,
            };
            let q = match a1.checked_mul(k) {
                Some(q) => q,
                None => return None,
            };
            let sol = match b1.checked_add(q) {
                Some(x) => x,
                None => return None,
            };
            proof {
                assert(l > 0) by (nonlinear_arith) requires l == m1 * a2, m1 >= 1, a2 > 0;
            }
            match sol.checked_rem_euclid(l) {
                Some(x) => Some((l, x)),
                None => None,
            }
        },
        None => None,
    }
}

fn abs_checked(v: i128) -> (r: Option<i128>)
    ensures
        match r {
            Some(x) => x == abs_int(v as int),
            None => !fits(abs_int(v as int)),
        },
{
    if v >= 0 {
        Some(v)
    } else if v == i128::MIN {
        None
    } else {
        Some(-v)
    }
}

impl AbstractDomain for CongruenceDomain {
    type Config = NoConfig;

    open spec fn wf(self, c: NoConfig) -> bool {
        self.canonical()
    }

    open spec fn spec_bottom() -> Self {
        CongruenceDomain::Bottom
    }

    open spec fn spec_top() -> Self {
        top_spec()
    }

    /// Inclusion of the sets of values.
    open spec fn spec_le(self, o: Self) -> bool {
        match (self, o) {
            (CongruenceDomain::Bottom, _) => true,
            (_, CongruenceDomain::Bottom) => false,
            (CongruenceDomain::Congruence { a: a1, b: b1 }, CongruenceDomain::Congruence { a: a2, b: b2 }) => {
                if a2 == 0 {
                    a1 == 0 && b1 == b2
                } else {
                    (a1 as int) % (a2 as int) == 0 && (b1 as int) % (a2 as int) == b2
                }
            },
        }
    }

    open spec fn spec_lub(self, o: Self, c: NoConfig) -> Self {
        self.lub_spec(o)
    }

    open spec fn spec_glb(self, o: Self, c: NoConfig) -> Self {
        self.glb_spec(o)
    }

    open spec fn spec_widening(self, o: Self, c: NoConfig) -> Self {
        self.lub_spec(o)
    }

    /// Narrowing refines only `Top`.
    open spec fn spec_narrowing(self, o: Self, c: NoConfig) -> Self {
        if self == top_spec() { o } else { self }
    }

    open spec fn spec_add(self, o: Self, c: NoConfig) -> Self {
        self.add_sub_spec(o, true)
    }

    open spec fn spec_sub(self, o: Self, c: NoConfig) -> Self {
        self.add_sub_spec(o, false)
    }

    open spec fn spec_mul(self, o: Self, c: NoConfig) -> Self {
        self.mul_spec(o)
    }

    open spec fn spec_div(self, o: Self, c: NoConfig) -> Self {
        self.div_spec(o)
    }

    open spec fn spec_from_num(n: Num, c: NoConfig) -> Self {
        CongruenceDomain::Congruence { a: 0, b: n }
    }

    open spec fn spec_from_interval(i: Interval, c: NoConfig) -> Self {
        match i {
            Interval::Closed(l, u) => if l == u { CongruenceDomain::Congruence { a: 0, b: l } } else { top_spec() },
            _ => top_spec(),
        }
    }

    proof fn lemma_bottom_top_wf(c: NoConfig) {
    }

    proof fn lemma_idempotent(x: Self, c: NoConfig) {
        lemma_congruence_lattice_basic(x);
    }

    fn bottom() -> (r: Self) {
        CongruenceDomain::Bottom
    }

    fn top() -> (r: Self) {
        CongruenceDomain::Congruence { a: 1, b: 0 }
    }

    fn same(&self, o: &Self) -> (r: bool) {
        *self == *o
    }

    fn lub(self, o: Self, c: NoConfig) -> (r: Self) {
        match (self, o) {
            (CongruenceDomain::Bottom, x) | (x, CongruenceDomain::Bottom) => x,
            (CongruenceDomain::Congruence { a: a1, b: b1 }, CongruenceDomain::Congruence { a: a2, b: b2 }) => {
                let diff = match b1.checked_sub(b2) {
                    Some(d) => d,
                    None => return Self::top(),
                };
                let dist = match abs_checked(diff) {
                    Some(d) => d,
                    None => return Self::top(),
                };
                let g = gcd(gcd(a1, a2), dist);
                normalize(g, b1)
            },
        }
    }

    fn glb(self, o: Self, c: NoConfig) -> (r: Self) {
        match (self, o) {
            (CongruenceDomain::Bottom, _) | (_, CongruenceDomain::Bottom) => CongruenceDomain::Bottom,
            (CongruenceDomain::Congruence { a: a1, b: b1 }, CongruenceDomain::Congruence { a: a2, b: b2 }) => {
                if a1 == 0 && a2 == 0 {
                    if b1 == b2 { self } else { CongruenceDomain::Bottom }
                } else if a1 == 0 {
                    if b1.checked_rem_euclid(a2) == Some(b2) { self } else { CongruenceDomain::Bottom }
                } else if a2 == 0 {
                    if b2.checked_rem_euclid(a1) == Some(b1) { o } else { CongruenceDomain::Bottom }
                } else {
                    let g = gcd(a1, a2);
                    proof {
                        lemma_gcd_positive(a1 as int, a2 as int);
                    }
                    if (b2 - b1).checked_rem_euclid(g) != Some(0i128) {
                        CongruenceDomain::Bottom
                    } else {
                        match crt(a1, b1, a2, b2) {
                            Some((l, x)) => CongruenceDomain::Congruence { a: l, b: x },
                            None => self,
                        }
                    }
                }
            },
        }
    }

    fn widening(self, o: Self, c: NoConfig) -> (r: Self) {
        self.lub(o, c)
    }

    fn narrowing(self, o: Self, c: NoConfig) -> (r: Self) {
        if self == Self::top() { o } else { self }
    }

    fn add(self, o: Self, c: NoConfig) -> (r: Self) {
        match (self, o) {
            (CongruenceDomain::Bottom, _) | (_, CongruenceDomain::Bottom) => CongruenceDomain::Bottom,
            (CongruenceDomain::Congruence { a: a1, b: b1 }, CongruenceDomain::Congruence { a: a2, b: b2 }) => {
                match b1.checked_add(b2) {
                    Some(b) => normalize(gcd(a1, a2), b),
                    None => Self::top(),
                }
            },
        }
    }

    fn sub(self, o: Self, c: NoConfig) -> (r: Self) {
        match (self, o) {
            (CongruenceDomain::Bottom, _) | (_, CongruenceDomain::Bottom) => CongruenceDomain::Bottom,
            (CongruenceDomain::Congruence { a: a1, b: b1 }, CongruenceDomain::Congruence { a: a2, b: b2 }) => {
                match b1.checked_sub(b2) {
                    Some(b) => normalize(gcd(a1, a2), b),
                    None => Self::top(),
                }
            },
        }
    }

    fn mul(self, o: Self, c: NoConfig) -> (r: Self) {
        match (self, o) {
            (CongruenceDomain::Bottom, _) | (_, CongruenceDomain::Bottom) => CongruenceDomain::Bottom,
            (CongruenceDomain::Congruence { a: a1, b: b1 }, CongruenceDomain::Congruence { a: a2, b: b2 }) => {
                let aa = a1.checked_mul(a2);
                let ab0 = a1.checked_mul(b2);
                let ba0 = a2.checked_mul(b1);
                let b = b1.checked_mul(b2);
                match (aa, ab0, ba0, b) {
                    (Some(aa), Some(ab0), Some(ba0), Some(b)) => {
                        match (abs_checked(ab0), abs_checked(ba0)) {
                            (Some(ab), Some(ba)) => {
                                proof {
                                    assert(aa >= 0) by (nonlinear_arith) requires aa == a1 * a2, a1 >= 0, a2 >= 0;
                                }
                                normalize(gcd(gcd(aa, ab), ba), b)
                            },
                            _ => Self::top(),
                        }
                    },
                    _ => Self::top(),
                }
            },
        }
    }

    fn div(self, o: Self, c: NoConfig) -> (r: Self) {
        match (self, o) {
            (CongruenceDomain::Bottom, _) | (_, CongruenceDomain::Bottom) => CongruenceDomain::Bottom,
            (CongruenceDomain::Congruence { a: a1, b: b1 }, CongruenceDomain::Congruence { a: a2, b: b2 }) => {
                if a2 == 0 && b2 == 0 {
                    return CongruenceDomain::Bottom;
                }
                if a2 != 0 {
                    return Self::top();
                }
                let q = match b1.checked_div(b2) {
                    Some(q) => q,
                    None => return Self::top(),
                };
                if a1 == 0 {
                    return CongruenceDomain::Congruence { a: 0, b: q };
                }
                let m = match abs_checked(b2) {
                    Some(m) => m,
                    None => return Self::top(),
                };
                if a1.checked_rem_euclid(m) == Some(0i128) && b1.checked_rem_euclid(m) == Some(0i128) {
                    match a1.checked_div_euclid(m) {
                        Some(a) => normalize(a, q),
                        None => Self::top(),
                    }
                } else {
                    Self::top()
                }
            },
        }
    }

    fn from_num(n: Num, c: NoConfig) -> (r: Self) {
        CongruenceDomain::Congruence { a: 0, b: n }
    }

    fn from_interval(i: Interval, c: NoConfig) -> (r: Self) {
        match i {
            Interval::Closed(l, u) => if l == u { CongruenceDomain::Congruence { a: 0, b: l } } else { Self::top() },
            _ => Self::top(),
        }
    }

    /// `aZ+b` (or with `z` or `ℤ`, the first of them in that order) for `a >= 0`,
    /// or `bot` / `⊥`.
    open spec fn spec_from_text(t: Seq<char>, c: NoConfig) -> Option<Self> {
        if t == "bot"@ || t == "⊥"@ {
            Some(CongruenceDomain::Bottom)
        } else {
            let z = match first_index(t, 'Z') {
                Some(k) => Some(k),
                None => match first_index(t, 'z') {
                    Some(k) => Some(k),
                    None => first_index(t, 'ℤ'),
                },
            };
            match z {
                None => None,
                Some(k) => {
                    if k + 1 >= t.len() || t[k + 1] != '+' {
                        None
                    } else {
                        match (int_spec(t.subrange(0, k)), int_spec(t.subrange(k + 2, t.len() as int))) {
                            (Some(a), Some(b)) => if a >= 0 { Some(norm(a as int, b as int)) } else { None },
                            _ => None,
                        }
                    }
                },
            }
        }
    }

    fn from_text(cs: &Vec<char>, from: usize, to: usize, c: NoConfig) -> (r: Option<Self>) {
        let ghost t = cs@.subrange(from as int, to as int);
        if text_is(cs, from, to, "bot") || text_is(cs, from, to, "⊥") {
            return Some(CongruenceDomain::Bottom);
        }
        let z = match find_char(cs, from, to, 'Z') {
            Some(k) => Some(k),
            None => match find_char(cs, from, to, 'z') {
                Some(k) => Some(k),
                None => find_char(cs, from, to, 'ℤ'),
            },
        };
        let z = match z {
            Some(k) => k,
            None => return None,
        };
        if z + 1 >= to || cs[z + 1] != '+' {
            return None;
        }
        proof {
            let k = z - from;
            assert(t[k + 1] == cs@[z + 1]);
            assert(t.subrange(0, k) =~= cs@.subrange(from as int, z as int));
            assert(t.subrange(k + 2, t.len() as int) =~= cs@.subrange(z + 2, to as int));
        }
        match (parse_int(cs, from, z), parse_int(cs, z + 2, to)) {
            (Some(a), Some(b)) => if a >= 0 { Some(normalize(a, b)) } else { None },
            _ => None,
        }
    }
}

/// Join and meet of congruences are idempotent, and `Bottom` and `Top` are their
/// identities.
pub proof fn lemma_congruence_lattice_basic(x: CongruenceDomain)
    requires
        x.canonical(),
    ensures
        x.spec_lub(x, NoConfig) == x,
        x.spec_glb(x, NoConfig) == x,
        x.spec_lub(CongruenceDomain::spec_bottom(), NoConfig) == x,
        x.spec_glb(CongruenceDomain::spec_bottom(), NoConfig) == CongruenceDomain::spec_bottom(),
        x.spec_narrowing(x, NoConfig) == x,
{
    if let CongruenceDomain::Congruence { a, b } = x {
        assert(gcd_spec(a as int, 0) == a);
        if a > 0 {
            let ai = a as int;
            let bi = b as int;
            assert(ai % ai == 0 && ai / ai == 1) by (nonlinear_arith) requires ai > 0;
            assert(0int / ai == 0 && 0int % 1 == 0 && ai * 1 == ai && ai * 0 == 0 && 0int * 0 == 0) by (nonlinear_arith) requires ai > 0;
            assert(bi % ai == bi) by (nonlinear_arith) requires 0 <= bi < ai;
            assert(gcd_spec(a as int, a as int) == gcd_spec(a as int, 0));
            assert(egcd_spec(1, 0) == Some((1int, 1int, 0int)));
            assert(egcd_spec(1, 1) == Some((1int, 0int, 1int)));
        } else {
            assert(gcd_spec(0, 0) == 0);
        }
    }
}

/// `d` divides `a`.
pub open spec fn divides(d: int, a: int) -> bool {
    exists|k: int| a == #[trigger] (d * k)
}

proof fn lemma_divides_mod(d: int, a: int)
    requires
        d > 0,
    ensures
        divides(d, a) <==> a % d == 0,
{
    if a % d == 0 {
        let k = a / d;
        vstd::arithmetic::div_mod::lemma_fundamental_div_mod(a, d);
        assert(a == d * k);
    }
    if divides(d, a) {
        let k = choose|k: int| a == #[trigger] (d * k);
        vstd::arithmetic::div_mod::lemma_mod_multiples_basic(k, d);
        assert(d * k == k * d) by (nonlinear_arith);
    }
}

proof fn lemma_divides_combination(d: int, x: int, y: int, q: int)
    requires
        divides(d, x),
        divides(d, y),
    ensures
        divides(d, q * x + y),
        divides(d, x - y),
{
    let k1 = choose|k: int| x == #[trigger] (d * k);
    let k2 = choose|k: int| y == #[trigger] (d * k);
    assert(q * x + y == d * (q * k1 + k2)) by (nonlinear_arith) requires x == d * k1, y == d * k2;
    assert(x - y == d * (k1 - k2)) by (nonlinear_arith) requires x == d * k1, y == d * k2;
}

proof fn lemma_divides_trans(a: int, b: int, c: int)
    requires
        divides(a, b),
        divides(b, c),
    ensures
        divides(a, c),
{
    let k1 = choose|k: int| b == #[trigger] (a * k);
    let k2 = choose|k: int| c == #[trigger] (b * k);
    assert(c == a * (k1 * k2)) by (nonlinear_arith) requires b == a * k1, c == b * k2;
}

/// The gcd divides both arguments.
pub proof fn lemma_gcd_divides(a: int, b: int)
    requires
        a >= 0,
        b >= 0,
    ensures
        divides(gcd_spec(a, b), a),
        divides(gcd_spec(a, b), b),
        gcd_spec(a, b) >= 0,
    decreases b,
{
    if b == 0 {
        assert(a == a * 1);
        assert(0 == a * 0);
    } else {
        lemma_gcd_divides(b, a % b);
        let g = gcd_spec(a, b);
        vstd::arithmetic::div_mod::lemma_fundamental_div_mod(a, b);
        assert(a == (a / b) * b + a % b) by (nonlinear_arith) requires a == b * (a / b) + a % b;
        lemma_divides_combination(g, b, a % b, a / b);
    }
}

/// The gcd does not depend on the order of its arguments.
pub proof fn lemma_gcd_commutative(a: int, b: int)
    requires
        a >= 0,
        b >= 0,
    ensures
        gcd_spec(a, b) == gcd_spec(b, a),
{
    if a == 0 {
        if b > 0 {
            assert(0int % b == 0);
        }
    } else if b == 0 {
        assert(0int % a == 0);
    } else if a < b {
        assert(a % b == a) by (nonlinear_arith) requires 0 < a < b;
    } else if b < a {
        assert(b % a == b) by (nonlinear_arith) requires 0 < b < a;
    }
}

/// Widening (the join) of congruences is extensive: `x ⊑ x ∇ y` and `y ⊑ x ∇ y`.
pub proof fn lemma_congruence_widening_extensive(x: CongruenceDomain, y: CongruenceDomain)
    requires
        x.canonical(),
        y.canonical(),
    ensures
        x.spec_le(x.spec_widening(y, NoConfig)),
        y.spec_le(x.spec_widening(y, NoConfig)),
{
    lemma_congruence_le_reflexive(x);
    lemma_congruence_le_reflexive(y);
    if let (CongruenceDomain::Congruence { a: a1, b: b1 }, CongruenceDomain::Congruence { a: a2, b: b2 }) = (x, y) {
        let d = b1 - b2;
        assert((a1 as int) % 1 == 0 && (b1 as int) % 1 == 0 && (a2 as int) % 1 == 0 && (b2 as int) % 1 == 0) by (nonlinear_arith);
        if fits(d) && fits(abs_int(d)) {
            let g0 = gcd_spec(a1 as int, a2 as int);
            lemma_gcd_divides(a1 as int, a2 as int);
            let g = gcd_spec(g0, abs_int(d));
            lemma_gcd_divides(g0, abs_int(d));
            if g > 0 {
                lemma_divides_trans(g, g0, a1 as int);
                lemma_divides_trans(g, g0, a2 as int);
                if a1 > 0 {
                    lemma_divides_le(g, a1 as int);
                } else if a2 > 0 {
                    lemma_divides_le(g, a2 as int);
                } else if abs_int(d) > 0 {
                    lemma_divides_le(g, abs_int(d));
                } else {
                    lemma_gcd_zero_args(g0, abs_int(d));
                }
                assert(fits(g));
                lemma_divides_mod(g, a1 as int);
                lemma_divides_mod(g, a2 as int);
                if d < 0 {
                    let k = choose|k: int| abs_int(d) == #[trigger] (g * k);
                    assert(d == g * (-k)) by (nonlinear_arith) requires abs_int(d) == g * k, d < 0, abs_int(d) == -d;
                }
                assert(divides(g, d));
                lemma_divides_mod(g, d);
                lemma_mod_equal_of_divides(b1 as int, b2 as int, g);
                let r = x.spec_widening(y, NoConfig);
                assert(0 <= (b1 as int) % g < g);
                assert(r == CongruenceDomain::Congruence { a: g as i128, b: ((b1 as int) % g) as i128 });
            } else {
                assert(g0 == 0 && abs_int(d) == 0) by {
                    lemma_gcd_zero(g0, abs_int(d));
                }
                assert(a1 == 0 && a2 == 0) by {
                    lemma_gcd_zero(a1 as int, a2 as int);
                }
            }
        }
    }
}

/// The gcd is zero only for two zeros.
proof fn lemma_gcd_zero(a: int, b: int)
    requires
        a >= 0,
        b >= 0,
        gcd_spec(a, b) == 0,
    ensures
        a == 0 && b == 0,
{
    lemma_gcd_divides(a, b);
    let ka = choose|k: int| a == #[trigger] (0int * k);
    let kb = choose|k: int| b == #[trigger] (0int * k);
    assert(0int * ka == 0 && 0int * kb == 0) by (nonlinear_arith);
}

/// Two integers whose difference `m` divides leave the same remainder.
proof fn lemma_mod_equal_of_divides(x: int, y: int, m: int)
    requires
        m > 0,
        (x - y) % m == 0,
    ensures
        y % m == x % m,
{
    vstd::arithmetic::div_mod::lemma_fundamental_div_mod(x - y, m);
    let k = (x - y) / m;
    assert(x == y + m * k);
    vstd::arithmetic::div_mod::lemma_mod_multiples_vanish(k, y, m);
}

/// A positive divisor of a positive integer is at most it.
proof fn lemma_divides_le(d: int, a: int)
    requires
        d > 0,
        a > 0,
        divides(d, a),
    ensures
        d <= a,
{
    let k = choose|k: int| a == #[trigger] (d * k);
    assert(d <= a) by (nonlinear_arith) requires a == d * k, d > 0, a > 0;
}

/// The gcd of two zeros is zero.
proof fn lemma_gcd_zero_args(a: int, b: int)
    requires
        a == 0,
        b == 0,
    ensures
        gcd_spec(a, b) == 0,
{
}

/// The order of congruences is reflexive.
pub proof fn lemma_congruence_le_reflexive(x: CongruenceDomain)
    requires
        x.canonical(),
    ensures
        x.spec_le(x),
{
    if let CongruenceDomain::Congruence { a, b } = x {
        if a > 0 {
            let ai = a as int;
            let bi = b as int;
            assert(ai % ai == 0) by (nonlinear_arith) requires ai > 0;
            assert(bi % ai == bi) by (nonlinear_arith) requires 0 <= bi < ai;
        }
    }
}

/// A measure that widening lowers: `Bottom` above the single values, those above
/// the proper congruences, which are ordered by their modulus.
pub open spec fn rank_lt(r: CongruenceDomain, x: CongruenceDomain) -> bool {
    match (r, x) {
        (_, CongruenceDomain::Bottom) => !(r is Bottom),
        (CongruenceDomain::Congruence { a: ra, b: _ }, CongruenceDomain::Congruence { a: xa, b: _ }) => {
            (xa == 0 && ra > 0) || (ra > 0 && ra < xa)
        },
        _ => false,
    }
}

/// Widening of congruences stabilises: `x ∇ y` is `x` or lower in the well-founded
/// order `rank_lt`, so no chain of widenings changes forever.
pub proof fn lemma_congruence_widening_stabilises(x: CongruenceDomain, y: CongruenceDomain)
    requires
        x.canonical(),
        y.canonical(),
    ensures
        x.spec_widening(y, NoConfig) == x || rank_lt(x.spec_widening(y, NoConfig), x),
{
    if let (CongruenceDomain::Congruence { a: a1, b: b1 }, CongruenceDomain::Congruence { a: a2, b: b2 }) = (x, y) {
        let d = b1 - b2;
        if fits(d) && fits(abs_int(d)) {
            let g0 = gcd_spec(a1 as int, a2 as int);
            lemma_gcd_divides(a1 as int, a2 as int);
            let g = gcd_spec(g0, abs_int(d));
            lemma_gcd_divides(g0, abs_int(d));
            if g > 0 {
                lemma_divides_trans(g, g0, a1 as int);
                if a1 > 0 {
                    lemma_divides_le(g, a1 as int);
                    if g == a1 {
                        let bi = b1 as int;
                        let gi = g;
                        assert(bi % gi == bi) by (nonlinear_arith) requires 0 <= bi < gi;
                    }
                } else if a2 > 0 {
                    lemma_divides_trans(g, g0, a2 as int);
                    lemma_divides_le(g, a2 as int);
                } else if abs_int(d) > 0 {
                    lemma_divides_le(g, abs_int(d));
                }
            } else {
                lemma_gcd_zero(g0, abs_int(d));
            }
        }
    }
}

/// The join of congruences is commutative.
pub proof fn lemma_congruence_lub_commutative(x: CongruenceDomain, y: CongruenceDomain)
    requires
        x.canonical(),
        y.canonical(),
    ensures
        x.spec_lub(y, NoConfig) == y.spec_lub(x, NoConfig),
{
    if let (CongruenceDomain::Congruence { a: a1, b: b1 }, CongruenceDomain::Congruence { a: a2, b: b2 }) = (x, y) {
        lemma_gcd_commutative(a1 as int, a2 as int);
        let d = b1 - b2;
        if fits(d) && fits(abs_int(d)) {
            let g0 = gcd_spec(a1 as int, a2 as int);
            lemma_gcd_divides(a1 as int, a2 as int);
            let g = gcd_spec(g0, abs_int(d));
            lemma_gcd_divides(g0, abs_int(d));
            assert(abs_int(d) == abs_int(b2 - b1));
            if g > 0 {
                if d < 0 {
                    let k = choose|k: int| abs_int(d) == #[trigger] (g * k);
                    assert(d == g * (-k)) by (nonlinear_arith) requires abs_int(d) == g * k, d < 0, abs_int(d) == -d;
                }
                assert(divides(g, d));
                lemma_divides_mod(g, d);
                lemma_mod_equal_of_divides(b1 as int, b2 as int, g);
            } else {
                lemma_gcd_zero(g0, abs_int(d));
            }
        }
    }
}

/// Narrowing of congruences only shrinks: `x Δ y ⊑ x`.
pub proof fn lemma_congruence_narrowing_below(x: CongruenceDomain, y: CongruenceDomain)
    requires
        x.canonical(),
        y.canonical(),
    ensures
        x.spec_narrowing(y, NoConfig).spec_le(x),
{
    lemma_congruence_le_reflexive(x);
    if let CongruenceDomain::Congruence { a, b } = y {
        assert((a as int) % 1 == 0 && (b as int) % 1 == 0) by (nonlinear_arith);
    }
}

} // verus!
