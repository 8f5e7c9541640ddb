use vstd::prelude::*;
use vstd::string::StrSliceExecFns;

use crate::ast::Num;
use crate::domain::AbstractDomain;
use crate::ext_num::ExtendedNum;
use crate::interpreter::ConcreteState;
use crate::interval::IntervalBounds;
use crate::lexer::chars_of;
use crate::state::{model_set, HashMapState, StateModel};

verus! {

/// Whether `cs[from..to]` is the text `w`.
pub(crate) fn text_is(cs: &Vec<char>, from: usize, to: usize, w: &str) -> (r: bool)
    requires
        from <= to <= cs@.len(),
    ensures
        r == (cs@.subrange(from as int, to as int) == w@),
{
    let n = w.unicode_len();
    if to - from != n {
        return false;
    }
    let mut i: usize = 0;
    while i < n
        invariant
            n == w@.len(),
            to - from == n,
            from <= to <= cs@.len(),
            i <= n,
            forall|j: int| 0 <= j < i ==> cs@[from + j] == w@[j],
        decreases n - i,
    {
        if cs[from + i] != w.get_char(i) {
            assert(cs@.subrange(from as int, to as int)[i as int] != w@[i as int]);
            return false;
        }
        i += 1;
    }
    assert(cs@.subrange(from as int, to as int) =~= w@);
    true
}

/// `i` is the first position of `ch` in `t`.
pub open spec fn is_first(t: Seq<char>, ch: char, i: int) -> bool {
    0 <= i < t.len() && t[i] == ch && forall|j: int| 0 <= j < i ==> t[j] != ch
}

/// The first position of `ch` in `t`, if any.
pub open spec fn first_index(t: Seq<char>, ch: char) -> Option<int> {
    if exists|i: int| is_first(t, ch, i) {
        Some(choose|i: int| is_first(t, ch, i))
    } else {
        None
    }
}

proof fn lemma_first_unique(t: Seq<char>, ch: char, i: int)
    requires
        is_first(t, ch, i),
    ensures
        first_index(t, ch) == Some(i),
{
    let k = choose|k: int| is_first(t, ch, k);
    if k < i {
        assert(t[k] != ch);
    } else if k > i {
        assert(t[i] != ch);
    }
}

/// The first index in `from..to` holding `ch`.
pub(crate) fn find_char(cs: &Vec<char>, from: usize, to: usize, ch: char) -> (r: Option<usize>)
    requires
        from <= to <= cs@.len(),
    ensures
        r matches Some(i) ==> from <= i < to && cs@[i as int] == ch,
        r is None ==> forall|i: int| from <= i < to ==> cs@[i] != ch,
        match r {
            Some(i) => first_index(cs@.subrange(from as int, to as int), ch) == Some(i - from),
            None => first_index(cs@.subrange(from as int, to as int), ch) is None,
        },
{
    let ghost t = cs@.subrange(from as int, to as int);
    let mut i = from;
    while i < to
        invariant
            from <= i <= to <= cs@.len(),
            t == cs@.subrange(from as int, to as int),
            forall|j: int| from <= j < i ==> cs@[j] != ch,
        decreases to - i,
    {
        if cs[i] == ch {
            proof {
                assert forall|j: int| 0 <= j < i - from implies t[j] != ch by {
                    assert(t[j] == cs@[from + j]);
                }
                lemma_first_unique(t, ch, i - from);
            }
            return Some(i);
        }
        i += 1;
    }
    proof {
        assert forall|k: int| !is_first(t, ch, k) by {
            if 0 <= k < t.len() {
                assert(t[k] == cs@[from + k]);
            }
        }
    }
    None
}

pub open spec fn is_digit_char(ch: char) -> bool {
    '0' <= ch <= '9'
}

pub open spec fn digit_val(ch: char) -> int {
    (ch as u32) as int - ('0' as u32) as int
}

/// The value of a string of decimal digits, read left to right; `None` if a
/// character is not a digit or the value leaves `i128`.
pub open spec fn digits_spec(t: Seq<char>) -> Option<int>
    decreases t.len(),
{
    if t.len() == 0 {
        Some(0)
    } else {
        match digits_spec(t.drop_last()) {
            Some(v) => {
                let w = v * 10 + digit_val(t.last());
                if is_digit_char(t.last()) && w <= i128::MAX {
                    Some(w)
                } else {
                    None
                }
            },
            None => None,
        }
    }
}

/// The integer a text writes: an optional `-` and at least one decimal digit.
pub open spec fn int_spec(t: Seq<char>) -> Option<Num> {
    if t.len() > 0 && t[0] == '-' {
        if t.len() > 1 {
            match digits_spec(t.drop_first()) {
                Some(v) => Some((-v) as Num),
                None => None,
            }
        } else {
            None
        }
    } else if t.len() > 0 {
        match digits_spec(t) {
            Some(v) => Some(v as Num),
            None => None,
        }
    } else {
        None
    }
}

proof fn lemma_digits_none(t: Seq<char>, j: int)
    requires
        0 <= j <= t.len(),
        digits_spec(t.subrange(0, j)) is None,
    ensures
        digits_spec(t) is None,
    decreases t.len() - j,
{
    if j == t.len() {
        assert(t.subrange(0, j) =~= t);
    } else {
        assert(t.subrange(0, j + 1).drop_last() =~= t.subrange(0, j));
        lemma_digits_none(t, j + 1);
    }
}

proof fn lemma_digits_nonneg(t: Seq<char>)
    ensures
        digits_spec(t) matches Some(v) ==> 0 <= v <= i128::MAX,
    decreases t.len(),
{
    if t.len() > 0 {
        lemma_digits_nonneg(t.drop_last());
    }
}

/// The integer written in `cs[from..to]`: an optional `-` and decimal digits.
pub(crate) fn parse_int(cs: &Vec<char>, from: usize, to: usize) -> (r: Option<Num>)
    requires
        from <= to <= cs@.len(),
    ensures
        r == int_spec(cs@.subrange(from as int, to as int)),
{
    let ghost t = cs@.subrange(from as int, to as int);
    let negative = from < to && cs[from] == '-';
    let start = if negative { from + 1 } else { from };
    if start >= to {
        return None;
    }
    let ghost u = cs@.subrange(start as int, to as int);
    proof {
        if negative {
            assert(t.drop_first() =~= u);
        } else {
            assert(t =~= u);
        }
        assert(u.subrange(0, 0) =~= Seq::<char>::empty());
    }
    let mut v: i128 = 0;
    let mut i = start;
    while i < to
        invariant
            from <= start <= i <= to <= cs@.len(),
            u == cs@.subrange(start as int, to as int),
            t == cs@.subrange(from as int, to as int),
            negative ==> t.len() > 1 && t[0] == '-' && t.drop_first() == u,
            !negative ==> t.len() > 0 && t[0] != '-' && t == u,
            v >= 0,
            digits_spec(u.subrange(0, i - start)) == Some(v as int),
        decreases to - i,
    {
        let c = cs[i];
        proof {
            assert(u.subrange(0, i - start + 1).drop_last() =~= u.subrange(0, i - start));
            assert(u.subrange(0, i - start + 1).last() == c);
        }
        if !('0' <= c && c <= '9') {
            proof {
                lemma_digits_none(u, i - start + 1);
            }
            return None;
        }
        let d = (c as u32 - '0' as u32) as i128;
        v = match v.checked_mul(10) {
            Some(t) => match t.checked_add(d) {
                Some(w) => w,
                None => {
                    proof {
                        lemma_digits_none(u, i - start + 1);
                    }
                    return None;
                },
            },
            None => {
                proof {
                    lemma_digits_none(u, i - start + 1);
                }
                return None;
            },
        };
        i += 1;
    }
    proof {
        assert(u.subrange(0, to - start) =~= u);
    }
    Some(if negative { -v } else { v })
}

/// The extended integer a text writes: an integer, `inf`, `+inf` or `-inf`.
pub open spec fn ext_spec(t: Seq<char>) -> Option<ExtendedNum> {
    if t == "inf"@ || t == "+inf"@ {
        Some(ExtendedNum::PosInf)
    } else if t == "-inf"@ {
        Some(ExtendedNum::NegInf)
    } else {
        match int_spec(t) {
            Some(n) => Some(ExtendedNum::Num(n)),
            None => None,
        }
    }
}

/// An extended integer: an integer, `inf`, `+inf` or `-inf`.
pub(crate) fn parse_ext(cs: &Vec<char>, from: usize, to: usize) -> (r: Option<ExtendedNum>)
    requires
        from <= to <= cs@.len(),
    ensures
        r == ext_spec(cs@.subrange(from as int, to as int)),
{
    if text_is(cs, from, to, "inf") || text_is(cs, from, to, "+inf") {
        Some(ExtendedNum::PosInf)
    } else if text_is(cs, from, to, "-inf") {
        Some(ExtendedNum::NegInf)
    } else {
        match parse_int(cs, from, to) {
            Some(n) => Some(ExtendedNum::Num(n)),
            None => None,
        }
    }
}

/// The two bounds a text `[l,u]` writes (split at the first comma).
pub open spec fn pair_spec(t: Seq<char>) -> Option<(ExtendedNum, ExtendedNum)> {
    if t.len() >= 2 && t[0] == '[' && t.last() == ']' {
        let inner = t.subrange(1, t.len() - 1);
        match first_index(inner, ',') {
            Some(k) => match (ext_spec(inner.subrange(0, k)), ext_spec(inner.subrange(k + 1, inner.len() as int))) {
                (Some(l), Some(u)) => Some((l, u)),
                _ => None,
            },
            None => None,
        }
    } else {
        None
    }
}

/// The two bounds written `[l,u]` in `cs[from..to]`.
pub(crate) fn parse_pair(cs: &Vec<char>, from: usize, to: usize) -> (r: Option<(ExtendedNum, ExtendedNum)>)
    requires
        from <= to <= cs@.len(),
    ensures
        r == pair_spec(cs@.subrange(from as int, to as int)),
{
    let ghost t = cs@.subrange(from as int, to as int);
    if to - from < 2 || cs[from] != '[' || cs[to - 1] != ']' {
        return None;
    }
    let ghost inner = t.subrange(1, t.len() - 1);
    proof {
        assert(inner =~= cs@.subrange(from + 1, to - 1));
    }
    let comma = match find_char(cs, from + 1, to - 1, ',') {
        Some(k) => k,
        None => return None,
    };
    proof {
        let k = comma - (from + 1);
        assert(inner.subrange(0, k) =~= cs@.subrange(from + 1, comma as int));
        assert(inner.subrange(k + 1, inner.len() as int) =~= cs@.subrange(comma + 1, to - 1));
    }
    match (parse_ext(cs, from + 1, comma), parse_ext(cs, comma + 1, to - 1)) {
        (Some(l), Some(u)) => Some((l, u)),
        _ => None,
    }
}

/// The bounds a text `[l,u]` with `l <= u` writes.
pub open spec fn bounds_spec(t: Seq<char>) -> Option<IntervalBounds> {
    match pair_spec(t) {
        Some((l, u)) => if l.le(u) { Some(IntervalBounds { lower: l, upper: u }) } else { None },
        None => None,
    }
}

/// The bounds of the bounded interval domain, written `[l,u]` with `l <= u`.
pub fn parse_bounds(s: &str) -> (r: Option<IntervalBounds>)
    ensures
        r == bounds_spec(s@),
        r matches Some(b) ==> b.lower.le(b.upper),
{
    let cs = chars_of(s);
    proof {
        assert(cs@.subrange(0, cs@.len() as int) =~= s@);
    }
    match parse_pair(&cs, 0, cs.len()) {
        Some((l, u)) => if l.less_eq(&u) { Some(IntervalBounds { lower: l, upper: u }) } else { None },
        None => None,
    }
}

/// Where the binding that starts at `i` ends: at the next `;`, or at the end.
pub open spec fn segment_end(t: Seq<char>, i: int) -> int {
    match first_index(t.subrange(i, t.len() as int), ';') {
        Some(k) => i + k,
        None => t.len() as int,
    }
}

/// Where the binding after the one from `i` to `end` starts.
pub open spec fn next_start(t: Seq<char>, i: int, end: int) -> int {
    if i < end && end < t.len() { end + 1 } else { t.len() as int }
}

/// The state a text `x:v;y:w;...` writes, reading from position `i` with the
/// bindings `acc` made so far: each binding needs a non-empty name before its
/// first `:` and a value the domain reads; later bindings of a name win.
pub open spec fn state_from<D: AbstractDomain>(t: Seq<char>, i: int, acc: StateModel<D>, c: D::Config) -> Option<StateModel<D>>
    decreases t.len() - i,
{
    if i < 0 || i >= t.len() {
        Some(acc)
    } else {
        let end = segment_end(t, i);
        match first_index(t.subrange(i, end), ':') {
            Some(k) => {
                let colon = i + k;
                if colon == i {
                    None
                } else {
                    match D::spec_from_text(t.subrange(colon + 1, end), c) {
                        Some(d) => state_from(t, next_start(t, i, end), model_set(acc, t.subrange(i, colon), d), c),
                        None => None,
                    }
                }
            },
            None => None,
        }
    }
}

/// An initial state written `x:v;y:w;...`, each value read by the domain.
pub fn parse_state<D: AbstractDomain>(s: &str, c: D::Config) -> (r: Option<HashMapState<D>>)
    ensures
        match r {
            Some(st) => st.wf(c) && state_from(s@, 0, Some(Map::<Seq<char>, D>::empty()), c) == Some(st@),
            None => state_from(s@, 0, Some(Map::<Seq<char>, D>::empty()), c) is None,
        },
{
    let cs = chars_of(s);
    let mut st: HashMapState<D> = HashMapState::top();
    let mut i: usize = 0;
    while i < cs.len()
        invariant
            i <= cs@.len(),
            cs@ == s@,
            st.wf(c),
            state_from(s@, 0, Some(Map::<Seq<char>, D>::empty()), c) == state_from(s@, i as int, st@, c),
        decreases cs@.len() - i,
    {
        let end = match find_char(&cs, i, cs.len(), ';') {
            Some(k) => k,
            None => cs.len(),
        };
        proof {
            assert(end == segment_end(s@, i as int));
        }
        let colon = match find_char(&cs, i, end, ':') {
            Some(k) => k,
            None => return None,
        };
        if colon == i {
            return None;
        }
        let name = s.substring_char(i, colon).to_owned();
        let d = match D::from_text(&cs, colon + 1, end, c) {
            Some(d) => d,
            None => return None,
        };
        let ghost st0 = st@;
        st.set(name, d, c);
        proof {
            assert(s@.subrange(i as int, colon as int) == name@);
            assert(state_from(s@, i as int, st0, c) == state_from(s@, next_start(s@, i as int, end as int), st@, c));
        }
        i = if end < cs.len() { end + 1 } else { cs.len() };
    }
    Some(st)
}

/// The store a text `x:5;y:-3;...` writes, reading from position `i`.
pub open spec fn store_from(t: Seq<char>, i: int, acc: Map<Seq<char>, Num>) -> Option<Map<Seq<char>, Num>>
    decreases t.len() - i,
{
    if i < 0 || i >= t.len() {
        Some(acc)
    } else {
        let end = segment_end(t, i);
        match first_index(t.subrange(i, end), ':') {
            Some(k) => {
                let colon = i + k;
                if colon == i {
                    None
                } else {
                    match int_spec(t.subrange(colon + 1, end)) {
                        Some(v) => store_from(t, next_start(t, i, end), acc.insert(t.subrange(i, colon), v)),
                        None => None,
                    }
                }
            },
            None => None,
        }
    }
}

/// A concrete initial state written `x:5;y:-3;...`.
pub fn parse_concrete_state(s: &str) -> (r: Option<ConcreteState>)
    ensures
        match r {
            Some(st) => st.wf() && store_from(s@, 0, Map::empty()) == Some(st@),
            None => store_from(s@, 0, Map::<Seq<char>, Num>::empty()) is None,
        },
{
    let cs = chars_of(s);
    let mut st = ConcreteState::new();
    let mut i: usize = 0;
    while i < cs.len()
        invariant
            i <= cs@.len(),
            cs@ == s@,
            st.wf(),
            store_from(s@, 0, Map::<Seq<char>, Num>::empty()) == store_from(s@, i as int, st@),
        decreases cs@.len() - i,
    {
        let end = match find_char(&cs, i, cs.len(), ';') {
            Some(k) => k,
            None => cs.len(),
        };
        proof {
            assert(end == segment_end(s@, i as int));
        }
        let colon = match find_char(&cs, i, end, ':') {
            Some(k) => k,
            None => return None,
        };
        if colon == i {
            return None;
        }
        let name = s.substring_char(i, colon).to_owned();
        let v = match parse_int(&cs, colon + 1, end) {
            Some(v) => v,
            None => return None,
        };
        let ghost st0 = st@;
        st.insert(name, v);
        proof {
            assert(s@.subrange(i as int, colon as int) == name@);
            assert(store_from(s@, i as int, st0) == store_from(s@, next_start(s@, i as int, end as int), st@));
        }
        i = if end < cs.len() { end + 1 } else { cs.len() };
    }
    Some(st)
}

} // verus!
