use vstd::prelude::*;

use crate::ast::Var;
use crate::domain::AbstractDomain;

verus! {

/// The value bound to `k` by a list of entries (the last binding counts).
pub open spec fn lookup<D>(s: Seq<(Var, D)>, k: Seq<char>) -> Option<D>
    decreases s.len(),
{
    if s.len() == 0 {
        None
    } else if s.last().0@ == k {
        Some(s.last().1)
    } else {
        lookup(s.drop_last(), k)
    }
}

/// The map that a list of entries denotes.
pub open spec fn entries_map<D>(s: Seq<(Var, D)>) -> Map<Seq<char>, D> {
    Map::new(|k: Seq<char>| lookup(s, k) is Some, |k: Seq<char>| lookup(s, k)->Some_0)
}

/// No variable has two entries.
pub open spec fn unique_keys<D>(s: Seq<(Var, D)>) -> bool {
    forall|i: int, j: int| 0 <= i < j < s.len() ==> s[i].0@ != s[j].0@
}

pub(crate) proof fn lemma_lookup_index<D>(s: Seq<(Var, D)>, k: Seq<char>)
    requires
        unique_keys(s),
    ensures
        forall|i: int| 0 <= i < s.len() && s[i].0@ == k ==> lookup(s, k) == Some(s[i].1),
        (forall|i: int| 0 <= i < s.len() ==> s[i].0@ != k) ==> lookup(s, k) is None,
    decreases s.len(),
{
    if s.len() > 0 {
        let t = s.drop_last();
        assert(unique_keys(t));
        lemma_lookup_index(t, k);
        assert forall|i: int| 0 <= i < s.len() && s[i].0@ == k implies lookup(s, k) == Some(s[i].1) by {
            if i < s.len() - 1 {
                assert(t[i] == s[i]);
            }
        }
        if forall|i: int| 0 <= i < s.len() ==> s[i].0@ != k {
            assert(s[s.len() - 1].0@ != k);
            assert forall|i: int| 0 <= i < t.len() implies t[i].0@ != k by {
                assert(t[i] == s[i]);
            }
        }
    }
}

proof fn lemma_lookup_push<D>(s: Seq<(Var, D)>, e: (Var, D), k: Seq<char>)
    ensures
        lookup(s.push(e), k) == (if e.0@ == k { Some(e.1) } else { lookup(s, k) }),
{
    assert(s.push(e).drop_last() =~= s);
}

pub(crate) proof fn lemma_lookup_update<D>(s: Seq<(Var, D)>, i: int, e: (Var, D), k: Seq<char>)
    requires
        unique_keys(s),
        0 <= i < s.len(),
        e.0@ == s[i].0@,
    ensures
        unique_keys(s.update(i, e)),
        lookup(s.update(i, e), k) == (if s[i].0@ == k { Some(e.1) } else { lookup(s, k) }),
{
    let u = s.update(i, e);
    assert(unique_keys(u));
    lemma_lookup_index(s, k);
    lemma_lookup_index(u, k);
    if s[i].0@ != k {
        if exists|j: int| 0 <= j < s.len() && s[j].0@ == k {
            let j = choose|j: int| 0 <= j < s.len() && s[j].0@ == k;
            assert(u[j] == s[j]);
        } else {
            assert forall|j: int| 0 <= j < u.len() implies u[j].0@ != k by {
                assert(u[j].0@ == s[j].0@);
            }
        }
    } else {
        assert(u[i].0@ == k);
    }
}

pub(crate) proof fn lemma_entries_push<D>(s: Seq<(Var, D)>, e: (Var, D))
    ensures
        entries_map(s.push(e)) =~= entries_map(s).insert(e.0@, e.1),
{
    assert forall|k: Seq<char>| #[trigger] lookup(s.push(e), k) == (if e.0@ == k { Some(e.1) } else { lookup(s, k) }) by {
        lemma_lookup_push(s, e, k);
    }
}

proof fn lemma_entries_take<D>(s: Seq<(Var, D)>, i: int)
    requires
        0 <= i < s.len(),
    ensures
        entries_map(s.take(i + 1)) =~= entries_map(s.take(i)).insert(s[i].0@, s[i].1),
{
    assert(s.take(i + 1) =~= s.take(i).push(s[i]));
    lemma_entries_push(s.take(i), s[i]);
}

/// With one entry per variable, the map holds exactly the entries.
proof fn lemma_entries_index<D>(s: Seq<(Var, D)>)
    requires
        unique_keys(s),
    ensures
        forall|i: int| 0 <= i < s.len() ==> #[trigger] entries_map(s).contains_key(s[i].0@) && entries_map(s)[s[i].0@] == s[i].1,
        forall|k: Seq<char>| #[trigger] entries_map(s).contains_key(k) ==> exists|i: int| 0 <= i < s.len() && s[i].0@ == k && entries_map(s)[k] == s[i].1,
{
    assert forall|i: int| 0 <= i < s.len() implies #[trigger] entries_map(s).contains_key(s[i].0@) && entries_map(s)[s[i].0@] == s[i].1 by {
        lemma_lookup_index(s, s[i].0@);
    }
    assert forall|k: Seq<char>| #[trigger] entries_map(s).contains_key(k) implies exists|i: int| 0 <= i < s.len() && s[i].0@ == k && entries_map(s)[k] == s[i].1 by {
        lemma_lookup_index(s, k);
    }
}

/// Appending a variable that has no entry keeps one entry per variable.
pub(crate) proof fn lemma_unique_push<D>(s: Seq<(Var, D)>, e: (Var, D))
    requires
        unique_keys(s),
        !entries_map(s).contains_key(e.0@),
    ensures
        unique_keys(s.push(e)),
{
    lemma_entries_index(s);
    assert forall|i: int, j: int| 0 <= i < j < s.push(e).len() implies s.push(e)[i].0@ != s.push(e)[j].0@ by {
        if j == s.len() {
            assert(entries_map(s).contains_key(s[i].0@));
        } else {
            assert(s.push(e)[i] == s[i] && s.push(e)[j] == s[j]);
        }
    }
}

pub(crate) fn find<D>(v: &Vec<(Var, D)>, k: &Var) -> (r: Option<usize>)
    ensures
        match r {
            Some(i) => i < v@.len() && v@[i as int].0@ == k@,
            None => forall|i: int| 0 <= i < v@.len() ==> v@[i].0@ != k@,
        },
{
    let mut i: usize = 0;
    while i < v.len()
        invariant
            i <= v@.len(),
            forall|j: int| 0 <= j < i ==> v@[j].0@ != k@,
        decreases v@.len() - i,
    {
        if v[i].0 == *k {
            return Some(i);
        }
        i += 1;
    }
    None
}

/// An injection from the indices of `s1` into those of `s2` that keeps keys.
proof fn lemma_key_injection<D>(s1: Seq<(Var, D)>, s2: Seq<(Var, D)>)
    requires
        unique_keys(s1),
        unique_keys(s2),
        forall|k: Seq<char>| entries_map(s1).contains_key(k) ==> entries_map(s2).contains_key(k),
    ensures
        s1.len() <= s2.len(),
        s1.len() == s2.len() ==> forall|k: Seq<char>| entries_map(s2).contains_key(k) ==> entries_map(s1).contains_key(k),
{
    lemma_entries_index(s1);
    lemma_entries_index(s2);
    let a = vstd::set_lib::set_int_range(0, s1.len() as int);
    let b = vstd::set_lib::set_int_range(0, s2.len() as int);
    vstd::set_lib::lemma_int_range(0, s1.len() as int);
    vstd::set_lib::lemma_int_range(0, s2.len() as int);
    let f = |i: int| choose|j: int| 0 <= j < s2.len() && s2[j].0@ == s1[i].0@;
    assert forall|i: int| a.contains(i) implies b.contains(#[trigger] f(i)) && s2[f(i)].0@ == s1[i].0@ by {
        assert(entries_map(s1).contains_key(s1[i].0@));
    }
    assert forall|i1: int, i2: int| a.contains(i1) && a.contains(i2) && #[trigger] f(i1) == #[trigger] f(i2) implies i1 == i2 by {
        if i1 != i2 {
            if i1 < i2 {
                assert(s1[i1].0@ != s1[i2].0@);
            } else {
                assert(s1[i2].0@ != s1[i1].0@);
            }
        }
    }
    let img = a.map(f);
    assert(vstd::relations::injective_on(f, a));
    vstd::set_lib::lemma_map_size(a, img, f);
    assert(img.subset_of(b));
    vstd::set_lib::lemma_len_subset(img, b);
    if s1.len() == s2.len() {
        vstd::set_lib::lemma_subset_equality(img, b);
        assert forall|k: Seq<char>| entries_map(s2).contains_key(k) implies entries_map(s1).contains_key(k) by {
            let j = choose|j: int| 0 <= j < s2.len() && s2[j].0@ == k && entries_map(s2)[k] == s2[j].1;
            assert(b.contains(j));
            assert(img.contains(j));
            let i = choose|i: int| a.contains(i) && f(i) == j;
            assert(s1[i].0@ == k);
        }
    }
}

/// Equal maps from lists with one entry per variable have lists of equal length.
proof fn lemma_same_len<D>(s1: Seq<(Var, D)>, s2: Seq<(Var, D)>)
    requires
        unique_keys(s1),
        unique_keys(s2),
        entries_map(s1) == entries_map(s2),
    ensures
        s1.len() == s2.len(),
{
    lemma_key_injection(s1, s2);
    lemma_key_injection(s2, s1);
}

/// Two lists of equal length with one entry per variable, where every entry of
/// the first is in the second, denote the same map.
proof fn lemma_included_equal<D>(s1: Seq<(Var, D)>, s2: Seq<(Var, D)>)
    requires
        unique_keys(s1),
        unique_keys(s2),
        s1.len() == s2.len(),
        forall|j: int| 0 <= j < s1.len() ==> #[trigger] entries_map(s2).contains_key(s1[j].0@) && entries_map(s2)[s1[j].0@] == s1[j].1,
    ensures
        entries_map(s1) == entries_map(s2),
{
    lemma_entries_index(s1);
    lemma_entries_index(s2);
    lemma_key_injection(s1, s2);
    assert(entries_map(s1) =~= entries_map(s2));
}

/// The state binding the variables of both lists, combined by `op` where both bind
/// them; unreachable if a combined value is `Bottom`.
fn merge_entries<D: AbstractDomain>(v1: &Vec<(Var, D)>, v2: &Vec<(Var, D)>, op: Combine, c: D::Config) -> (r: Option<Vec<(Var, D)>>)
    requires
        unique_keys(v1@),
        unique_keys(v2@),
        forall|p: int| 0 <= p < v1@.len() ==> #[trigger] entry_ok(v1@[p].1, c),
        forall|p: int| 0 <= p < v2@.len() ==> #[trigger] entry_ok(v2@[p].1, c),
    ensures
        match r {
            None => collapse(merge_maps(op, entries_map(v1@), entries_map(v2@), c)) is None,
            Some(v) => {
                &&& unique_keys(v@)
                &&& forall|p: int| 0 <= p < v@.len() ==> #[trigger] entry_ok(v@[p].1, c)
                &&& collapse(merge_maps(op, entries_map(v1@), entries_map(v2@), c)) == Some(entries_map(v@))
            },
        },
{
    let ghost m1 = entries_map(v1@);
    let ghost m2 = entries_map(v2@);
    let ghost full = merge_maps(op, m1, m2, c);
    proof {
        lemma_entries_index(v1@);
        lemma_entries_index(v2@);
        assert(entries_map(Seq::<(Var, D)>::empty()) =~= Map::<Seq<char>, D>::empty());
        assert(v1@.take(0) =~= Seq::<(Var, D)>::empty());
        assert(v2@.take(0) =~= Seq::<(Var, D)>::empty());
    }
    let mut out: Vec<(Var, D)> = Vec::new();
    let mut i: usize = 0;
    while i < v1.len()
        invariant
            i <= v1@.len(),
            unique_keys(v1@),
            unique_keys(v2@),
            m1 == entries_map(v1@),
            m2 == entries_map(v2@),
            full == merge_maps(op, m1, m2, c),
            forall|p: int| 0 <= p < v1@.len() ==> #[trigger] entry_ok(v1@[p].1, c),
            forall|p: int| 0 <= p < v2@.len() ==> #[trigger] entry_ok(v2@[p].1, c),
            unique_keys(out@),
            forall|p: int| 0 <= p < out@.len() ==> #[trigger] entry_ok(out@[p].1, c),
            entries_map(out@) == Map::new(
                |k: Seq<char>| entries_map(v1@.take(i as int)).contains_key(k),
                |k: Seq<char>| full[k],
            ),
        decreases v1@.len() - i,
    {
        let ghost out0 = out@;
        proof {
            lemma_entries_take(v1@, i as int);
            lemma_entries_index(v1@);
            lemma_entries_index(v2@);
            lemma_lookup_index(v1@.take(i as int), v1@[i as int].0@);
            assert forall|q: int| 0 <= q < v1@.take(i as int).len() implies v1@.take(i as int)[q].0@ != v1@[i as int].0@ by {
                assert(v1@.take(i as int)[q] == v1@[q]);
            }
            assert(m1.contains_key(v1@[i as int].0@));
            assert(entry_ok(v1@[i as int].1, c));
        }
        let d = match find(v2, &v1[i].0) {
            Some(j) => {
                proof {
                    assert(m2.contains_key(v2@[j as int].0@));
                    assert(entry_ok(v2@[j as int].1, c));
                }
                combine(op, v1[i].1, v2[j].1, c)
            },
            None => v1[i].1,
        };
        if d.same(&D::bottom()) {
            proof {
                let k = v1@[i as int].0@;
                assert(full.contains_key(k) && full[k] == D::spec_bottom());
            }
            return None;
        }
        let key = v1[i].0.clone();
        proof {
            lemma_unique_push(out0, (key, d));
            lemma_entries_push(out0, (key, d));
        }
        out.push((key, d));
        proof {
            assert forall|p: int| 0 <= p < out@.len() implies #[trigger] entry_ok(out@[p].1, c) by {
                if p < out0.len() {
                    assert(out@[p] == out0[p]);
                }
            }
            assert(entries_map(out@) =~= Map::new(
                |k: Seq<char>| entries_map(v1@.take(i + 1)).contains_key(k),
                |k: Seq<char>| full[k],
            ));
        }
        i += 1;
    }
    proof {
        assert(v1@.take(v1@.len() as int) =~= v1@);
    }
    let mut j: usize = 0;
    while j < v2.len()
        invariant
            j <= v2@.len(),
            unique_keys(v1@),
            unique_keys(v2@),
            m1 == entries_map(v1@),
            m2 == entries_map(v2@),
            full == merge_maps(op, m1, m2, c),
            forall|p: int| 0 <= p < v2@.len() ==> #[trigger] entry_ok(v2@[p].1, c),
            unique_keys(out@),
            forall|p: int| 0 <= p < out@.len() ==> #[trigger] entry_ok(out@[p].1, c),
            entries_map(out@) == Map::new(
                |k: Seq<char>| m1.contains_key(k) || entries_map(v2@.take(j as int)).contains_key(k),
                |k: Seq<char>| full[k],
            ),
        decreases v2@.len() - j,
    {
        let ghost out0 = out@;
        proof {
            lemma_entries_take(v2@, j as int);
            lemma_entries_index(v1@);
            lemma_entries_index(v2@);
            assert(m2.contains_key(v2@[j as int].0@));
            assert(entry_ok(v2@[j as int].1, c));
        }
        match find(v1, &v2[j].0) {
            Some(p) => {
                proof {
                    assert(m1.contains_key(v1@[p as int].0@));
                    assert(entries_map(out@) =~= Map::new(
                        |k: Seq<char>| m1.contains_key(k) || entries_map(v2@.take(j + 1)).contains_key(k),
                        |k: Seq<char>| full[k],
                    ));
                }
            },
            None => {
                let key = v2[j].0.clone();
                let d = v2[j].1;
                proof {
                    lemma_lookup_index(v1@, key@);
                    lemma_lookup_index(v2@.take(j as int), key@);
                    assert forall|q: int| 0 <= q < v2@.take(j as int).len() implies v2@.take(j as int)[q].0@ != key@ by {
                        assert(v2@.take(j as int)[q] == v2@[q]);
                    }
                    lemma_unique_push(out0, (key, d));
                    lemma_entries_push(out0, (key, d));
                }
                out.push((key, d));
                proof {
                    assert forall|p: int| 0 <= p < out@.len() implies #[trigger] entry_ok(out@[p].1, c) by {
                        if p < out0.len() {
                            assert(out@[p] == out0[p]);
                        }
                    }
                    assert(entries_map(out@) =~= Map::new(
                        |k: Seq<char>| m1.contains_key(k) || entries_map(v2@.take(j + 1)).contains_key(k),
                        |k: Seq<char>| full[k],
                    ));
                }
            },
        }
        j += 1;
    }
    proof {
        assert(v2@.take(v2@.len() as int) =~= v2@);
        assert(entries_map(out@) =~= full);
        lemma_entries_index(out@);
        assert forall|k: Seq<char>| !(full.contains_key(k) && full[k] == D::spec_bottom()) by {
            if full.contains_key(k) {
                let p = choose|p: int| 0 <= p < out@.len() && out@[p].0@ == k && entries_map(out@)[k] == out@[p].1;
                assert(entry_ok(out@[p].1, c));
            }
        }
    }
    Some(out)
}

/// A value that a reachable state may bind.
pub open spec fn entry_ok<D: AbstractDomain>(d: D, c: D::Config) -> bool {
    d.wf(c) && d != D::spec_bottom()
}

/// An abstract state: unreachable (`None`), or the values of the variables, where
/// a variable without an entry may hold any integer. A reachable state holds no
/// `Bottom` value: binding `Bottom` makes the whole state unreachable.
#[derive(Debug)]
pub struct HashMapState<D> {
    entries: Option<Vec<(Var, D)>>,
}

/// The map of an abstract state, or `None` for the unreachable state.
pub type StateModel<D> = Option<Map<Seq<char>, D>>;

/// What a state holds for `k`: `Bottom` when unreachable, `Top` when unbound.
pub open spec fn model_get<D: AbstractDomain>(s: StateModel<D>, k: Seq<char>) -> D {
    match s {
        None => D::spec_bottom(),
        Some(m) => if m.contains_key(k) { m[k] } else { D::spec_top() },
    }
}

/// A reachable state with these bindings, or the unreachable one if one is `Bottom`.
pub open spec fn collapse<D: AbstractDomain>(m: Map<Seq<char>, D>) -> StateModel<D> {
    if exists|k: Seq<char>| m.contains_key(k) && m[k] == D::spec_bottom() {
        None
    } else {
        Some(m)
    }
}

pub open spec fn model_set<D: AbstractDomain>(s: StateModel<D>, k: Seq<char>, v: D) -> StateModel<D> {
    match s {
        None => None,
        Some(m) => if v == D::spec_bottom() { None } else { Some(m.insert(k, v)) },
    }
}

/// Join: an unreachable side yields the other; otherwise the variables bound on
/// both sides, each with the join of its values.
pub open spec fn model_lub<D: AbstractDomain>(s1: StateModel<D>, s2: StateModel<D>, c: D::Config) -> StateModel<D> {
    match (s1, s2) {
        (Some(m1), Some(m2)) => collapse(
            Map::new(
                |k: Seq<char>| m1.contains_key(k) && m2.contains_key(k),
                |k: Seq<char>| m1[k].spec_lub(m2[k], c),
            ),
        ),
        (Some(_), None) => s1,
        (None, _) => s2,
    }
}

/// How the values of a variable bound on both sides are combined.
#[derive(Debug, Clone, Copy, PartialEq, Eq, Structural)]
pub enum Combine {
    Meet,
    Narrow,
}

pub open spec fn combine_spec<D: AbstractDomain>(op: Combine, a: D, b: D, c: D::Config) -> D {
    match op {
        Combine::Meet => a.spec_glb(b, c),
        Combine::Narrow => a.spec_narrowing(b, c),
    }
}

fn combine<D: AbstractDomain>(op: Combine, a: D, b: D, c: D::Config) -> (r: D)
    requires
        a.wf(c),
        b.wf(c),
    ensures
        r == combine_spec(op, a, b, c),
        r.wf(c),
{
    match op {
        Combine::Meet => a.glb(b, c),
        Combine::Narrow => a.narrowing(b, c),
    }
}

/// The variables bound on either side; those bound on both combined by `op`, the
/// others keeping their value.
pub open spec fn merge_maps<D: AbstractDomain>(
    op: Combine,
    m1: Map<Seq<char>, D>,
    m2: Map<Seq<char>, D>,
    c: D::Config,
) -> Map<Seq<char>, D> {
    Map::new(
        |k: Seq<char>| m1.contains_key(k) || m2.contains_key(k),
        |k: Seq<char>|
            if m1.contains_key(k) && m2.contains_key(k) {
                combine_spec(op, m1[k], m2[k], c)
            } else if m1.contains_key(k) {
                m1[k]
            } else {
                m2[k]
            },
    )
}

/// Meet: unreachable if either side is; otherwise all variables, met where both bind them.
pub open spec fn model_glb<D: AbstractDomain>(s1: StateModel<D>, s2: StateModel<D>, c: D::Config) -> StateModel<D> {
    match (s1, s2) {
        (Some(m1), Some(m2)) => collapse(merge_maps(Combine::Meet, m1, m2, c)),
        _ => None,
    }
}

/// Widening: an unreachable side yields the other; otherwise the variables bound
/// on both sides, each widened (a variable unbound on one side is `Top` there, and
/// stays unbound).
pub open spec fn model_widening<D: AbstractDomain>(s1: StateModel<D>, s2: StateModel<D>, c: D::Config) -> StateModel<D> {
    match (s1, s2) {
        (Some(m1), Some(m2)) => collapse(
            Map::new(
                |k: Seq<char>| m1.contains_key(k) && m2.contains_key(k),
                |k: Seq<char>| m1[k].spec_widening(m2[k], c),
            ),
        ),
        (Some(_), None) => s1,
        (None, _) => s2,
    }
}

/// Narrowing: unreachable if the first state is; the first state if the second
/// is unreachable; otherwise all variables, narrowed where both bind them.
pub open spec fn model_narrowing<D: AbstractDomain>(s1: StateModel<D>, s2: StateModel<D>, c: D::Config) -> StateModel<D> {
    match (s1, s2) {
        (Some(m1), Some(m2)) => collapse(merge_maps(Combine::Narrow, m1, m2, c)),
        (None, _) => None,
        (_, None) => s1,
    }
}

/// The order of states: unreachable below all; otherwise pointwise, an unbound
/// variable counting as `Top`.
pub open spec fn model_le<D: AbstractDomain>(s1: StateModel<D>, s2: StateModel<D>) -> bool {
    match (s1, s2) {
        (None, _) => true,
        (Some(_), None) => false,
        (Some(_), Some(_)) => forall|k: Seq<char>| #[trigger] model_get(s1, k).spec_le(model_get(s2, k)),
    }
}

/// Every value is well formed and none is `Bottom`.
pub open spec fn model_wf<D: AbstractDomain>(s: StateModel<D>, c: D::Config) -> bool {
    match s {
        None => true,
        Some(m) => forall|k: Seq<char>| #[trigger] m.contains_key(k) ==> m[k].wf(c) && m[k] != D::spec_bottom(),
    }
}

impl<D: AbstractDomain> HashMapState<D> {
    pub closed spec fn view(&self) -> StateModel<D> {
        match self.entries {
            None => None,
            Some(v) => Some(entries_map(v@)),
        }
    }

    /// The state's invariant: one entry per variable, every value well formed and
    /// none `Bottom`.
    pub closed spec fn wf(&self, c: D::Config) -> bool {
        match self.entries {
            None => true,
            Some(v) => unique_keys(v@) && forall|i: int| 0 <= i < v@.len() ==> #[trigger] entry_ok(v@[i].1, c),
        }
    }

    pub fn bottom() -> (r: Self)
        ensures
            r@ == None::<Map<Seq<char>, D>>,
            forall|c: D::Config| r.wf(c),
    {
        HashMapState { entries: None }
    }

    /// The state that knows nothing: every variable unbound.
    pub fn top() -> (r: Self)
        ensures
            r@ == Some(Map::<Seq<char>, D>::empty()),
            forall|c: D::Config| r.wf(c),
    {
        let r = HashMapState { entries: Some(Vec::new()) };
        proof {
            assert(entries_map(Seq::<(Var, D)>::empty()) =~= Map::<Seq<char>, D>::empty());
        }
        r
    }

    /// The entries of a reachable state, one per bound variable.
    pub fn bindings(&self) -> (r: Option<&Vec<(Var, D)>>)
        ensures
            r is None <==> self@ is None,
            r matches Some(v) ==> self@ == Some(entries_map(v@)),
    {
        match &self.entries {
            None => None,
            Some(v) => Some(v),
        }
    }

    pub fn is_bottom(&self) -> (r: bool)
        ensures
            r == (self@ is None),
    {
        self.entries.is_none()
    }

    /// The value of `k`: `Bottom` in the unreachable state, `Top` if unbound.
    pub fn get(&self, k: &Var) -> (r: D)
        requires
            exists|c: D::Config| self.wf(c),
        ensures
            r == model_get(self@, k@),
    {
        match &self.entries {
            None => D::bottom(),
            Some(v) => {
                proof {
                    lemma_lookup_index(v@, k@);
                }
                match find(v, k) {
                    Some(i) => v[i].1,
                    None => D::top(),
                }
            },
        }
    }

    /// Binds `k` to `d`; binding `Bottom` makes the state unreachable, and the
    /// unreachable state stays so.
    pub fn set(&mut self, k: Var, d: D, c: D::Config)
        requires
            old(self).wf(c),
            d.wf(c),
        ensures
            final(self)@ == model_set(old(self)@, k@, d),
            final(self).wf(c),
    {
        if d.same(&D::bottom()) {
            self.entries = None;
            return;
        }
        match self.entries.take() {
            None => {},
            Some(mut v) => {
                let ghost v0 = v@;
                proof {
                    lemma_lookup_index(v0, k@);
                }
                match find(&v, &k) {
                    Some(i) => {
                        let ghost e = (k, d);
                        v.set(i, (k, d));
                        proof {
                            assert(v@ =~= v0.update(i as int, e));
                            assert forall|q: Seq<char>| #[trigger] lookup(v@, q) == (if v0[i as int].0@ == q { Some(d) } else { lookup(v0, q) }) by {
                                lemma_lookup_update(v0, i as int, e, q);
                            }
                            lemma_lookup_update(v0, i as int, e, k@);
                            assert forall|p: int| 0 <= p < v@.len() implies #[trigger] entry_ok(v@[p].1, c) by {
                                if p != i {
                                    assert(v@[p] == v0[p]);
                                }
                            }
                            assert(entries_map(v@) =~= entries_map(v0).insert(k@, d));
                        }
                    },
                    None => {
                        proof {
                            lemma_unique_push(v0, (k, d));
                            lemma_entries_push(v0, (k, d));
                        }
                        v.push((k, d));
                        proof {
                            assert forall|p: int| 0 <= p < v@.len() implies #[trigger] entry_ok(v@[p].1, c) by {
                                if p < v0.len() {
                                    assert(v@[p] == v0[p]);
                                }
                            }
                        }
                    },
                }
                self.entries = Some(v);
                assert(self.wf(c));
            },
        }
    }


    /// A well-formed state binds only well-formed values, and no `Bottom`.
    pub proof fn lemma_wf_model(&self, c: D::Config)
        requires
            self.wf(c),
        ensures
            model_wf(self@, c),
    {
        match self.entries {
            None => {},
            Some(v) => {
                lemma_entries_index(v@);
                assert forall|k: Seq<char>| #[trigger] entries_map(v@).contains_key(k) implies entries_map(v@)[k].wf(c)
                    && entries_map(v@)[k] != D::spec_bottom() by {
                    let i = choose|i: int| 0 <= i < v@.len() && v@[i].0@ == k && entries_map(v@)[k] == v@[i].1;
                    assert(entry_ok(v@[i].1, c));
                }
            },
        }
    }

    /// What a well-formed state holds for a variable is well formed.
    pub proof fn lemma_get_wf(&self, k: Seq<char>, c: D::Config)
        requires
            self.wf(c),
        ensures
            model_get(self@, k).wf(c),
    {
        D::lemma_bottom_top_wf(c);
        match self.entries {
            None => {},
            Some(v) => {
                lemma_entries_index(v@);
                if entries_map(v@).contains_key(k) {
                    let i = choose|i: int| 0 <= i < v@.len() && v@[i].0@ == k && entries_map(v@)[k] == v@[i].1;
                    assert(entry_ok(v@[i].1, c));
                }
            },
        }
    }

    /// A copy of the state.
    pub fn duplicate(&self) -> (r: Self)
        ensures
            r@ == self@,
            forall|c: D::Config| self.wf(c) ==> r.wf(c),
    {
        match &self.entries {
            None => HashMapState { entries: None },
            Some(v) => {
                let mut out: Vec<(Var, D)> = Vec::new();
                let mut i: usize = 0;
                while i < v.len()
                    invariant
                        i <= v@.len(),
                        out@ == v@.take(i as int),
                    decreases v@.len() - i,
                {
                    let e = (v[i].0.clone(), v[i].1);
                    out.push(e);
                    proof {
                        assert(v@.take(i + 1) =~= v@.take(i as int).push(v@[i as int]));
                    }
                    i += 1;
                }
                proof {
                    assert(v@.take(v@.len() as int) =~= v@);
                }
                HashMapState { entries: Some(out) }
            },
        }
    }

    /// Join of two states.
    pub fn lub(self, other: &Self, c: D::Config) -> (r: Self)
        requires
            self.wf(c),
            other.wf(c),
        ensures
            r.wf(c),
            r@ == model_lub(self@, other@, c),
    {
        let ghost s1 = self@;
        match (self.entries, &other.entries) {
            (Some(v1), Some(v2)) => {
                let ghost m1 = entries_map(v1@);
                let ghost m2 = entries_map(v2@);
                let ghost full = Map::new(
                    |k: Seq<char>| m1.contains_key(k) && m2.contains_key(k),
                    |k: Seq<char>| m1[k].spec_lub(m2[k], c),
                );
                proof {
                    lemma_entries_index(v1@);
                    lemma_entries_index(v2@);
                    assert(entries_map(Seq::<(Var, D)>::empty()) =~= Map::<Seq<char>, D>::empty());
                    assert(v1@.take(0) =~= Seq::<(Var, D)>::empty());
                }
                let mut out: Vec<(Var, D)> = Vec::new();
                let mut i: usize = 0;
                while i < v1.len()
                    invariant
                        i <= v1@.len(),
                        unique_keys(v1@),
                        unique_keys(v2@),
                        m1 == entries_map(v1@),
                        m2 == entries_map(v2@),
                        s1 == self@,
                        s1 == Some(m1),
                        other@ == Some(m2),
                        full == Map::new(
                            |k: Seq<char>| m1.contains_key(k) && m2.contains_key(k),
                            |k: Seq<char>| m1[k].spec_lub(m2[k], c),
                        ),
                        forall|p: int| 0 <= p < v1@.len() ==> #[trigger] entry_ok(v1@[p].1, c),
                        forall|p: int| 0 <= p < v2@.len() ==> #[trigger] entry_ok(v2@[p].1, c),
                        unique_keys(out@),
                        forall|p: int| 0 <= p < out@.len() ==> #[trigger] entry_ok(out@[p].1, c),
                        entries_map(out@) == Map::new(
                            |k: Seq<char>| entries_map(v1@.take(i as int)).contains_key(k) && m2.contains_key(k),
                            |k: Seq<char>| entries_map(v1@.take(i as int))[k].spec_lub(m2[k], c),
                        ),
                    decreases v1@.len() - i,
                {
                    let ghost pre = entries_map(v1@.take(i as int));
                    let ghost out0 = out@;
                    proof {
                        lemma_entries_take(v1@, i as int);
                        lemma_entries_index(v1@);
                        lemma_entries_index(v2@);
                        lemma_lookup_index(v1@.take(i as int), v1@[i as int].0@);
                        assert forall|q: int| 0 <= q < v1@.take(i as int).len() implies v1@.take(i as int)[q].0@ != v1@[i as int].0@ by {
                            assert(v1@.take(i as int)[q] == v1@[q]);
                        }
                    }
                    match find(v2, &v1[i].0) {
                        Some(j) => {
                            proof {
                                assert(entries_map(v2@).contains_key(v2@[j as int].0@));
                                assert(entry_ok(v1@[i as int].1, c));
                                assert(entry_ok(v2@[j as int].1, c));
                            }
                            let d = v1[i].1.lub(v2[j].1, c);
                            if d.same(&D::bottom()) {
                                proof {
                                    let k = v1@[i as int].0@;
                                    assert(m1.contains_key(v1@[i as int].0@));
                                    assert(full.contains_key(k) && full[k] == D::spec_bottom());
                                }
                                return HashMapState { entries: None };
                            }
                            let key = v1[i].0.clone();
                            proof {
                                lemma_unique_push(out0, (key, d));
                                lemma_entries_push(out0, (key, d));
                            }
                            out.push((key, d));
                            proof {
                                assert forall|p: int| 0 <= p < out@.len() implies #[trigger] entry_ok(out@[p].1, c) by {
                                    if p < out0.len() {
                                        assert(out@[p] == out0[p]);
                                    }
                                }
                                assert(entries_map(out@) =~= Map::new(
                                    |k: Seq<char>| entries_map(v1@.take(i + 1)).contains_key(k) && m2.contains_key(k),
                                    |k: Seq<char>| entries_map(v1@.take(i + 1))[k].spec_lub(m2[k], c),
                                ));
                            }
                        },
                        None => {
                            proof {
                                assert(!m2.contains_key(v1@[i as int].0@));
                                assert(entries_map(out@) =~= Map::new(
                                    |k: Seq<char>| entries_map(v1@.take(i + 1)).contains_key(k) && m2.contains_key(k),
                                    |k: Seq<char>| entries_map(v1@.take(i + 1))[k].spec_lub(m2[k], c),
                                ));
                            }
                        },
                    }
                    i += 1;
                }
                proof {
                    assert(v1@.take(v1@.len() as int) =~= v1@);
                    assert(entries_map(out@) =~= full);
                    lemma_entries_index(out@);
                    assert forall|k: Seq<char>| !(full.contains_key(k) && full[k] == D::spec_bottom()) by {
                        if full.contains_key(k) {
                            let p = choose|p: int| 0 <= p < out@.len() && out@[p].0@ == k && entries_map(out@)[k] == out@[p].1;
                            assert(entry_ok(out@[p].1, c));
                        }
                    }
                }
                HashMapState { entries: Some(out) }
            },
            (Some(v1), None) => HashMapState { entries: Some(v1) },
            (None, _) => other.duplicate(),
        }
    }

    /// Widening of `self` by `other`, variable by variable: a variable unbound on
    /// either side (so `Top` there) stays unbound.
    pub fn widening(self, other: Self, c: D::Config) -> (r: Self)
        requires
            self.wf(c),
            other.wf(c),
        ensures
            r.wf(c),
            r@ == model_widening(self@, other@, c),
    {
        let ghost s1 = self@;
        match (self.entries, &other.entries) {
            (Some(v1), Some(v2)) => {
                let ghost m1 = entries_map(v1@);
                let ghost m2 = entries_map(v2@);
                let ghost full = Map::new(
                    |k: Seq<char>| m1.contains_key(k) && m2.contains_key(k),
                    |k: Seq<char>| m1[k].spec_widening(m2[k], c),
                );
                proof {
                    lemma_entries_index(v1@);
                    lemma_entries_index(v2@);
                    assert(entries_map(Seq::<(Var, D)>::empty()) =~= Map::<Seq<char>, D>::empty());
                    assert(v1@.take(0) =~= Seq::<(Var, D)>::empty());
                }
                let mut out: Vec<(Var, D)> = Vec::new();
                let mut i: usize = 0;
                while i < v1.len()
                    invariant
                        i <= v1@.len(),
                        unique_keys(v1@),
                        unique_keys(v2@),
                        m1 == entries_map(v1@),
                        m2 == entries_map(v2@),
                        s1 == self@,
                        s1 == Some(m1),
                        other@ == Some(m2),
                        full == Map::new(
                            |k: Seq<char>| m1.contains_key(k) && m2.contains_key(k),
                            |k: Seq<char>| m1[k].spec_widening(m2[k], c),
                        ),
                        forall|p: int| 0 <= p < v1@.len() ==> #[trigger] entry_ok(v1@[p].1, c),
                        forall|p: int| 0 <= p < v2@.len() ==> #[trigger] entry_ok(v2@[p].1, c),
                        unique_keys(out@),
                        forall|p: int| 0 <= p < out@.len() ==> #[trigger] entry_ok(out@[p].1, c),
                        entries_map(out@) == Map::new(
                            |k: Seq<char>| entries_map(v1@.take(i as int)).contains_key(k) && m2.contains_key(k),
                            |k: Seq<char>| entries_map(v1@.take(i as int))[k].spec_widening(m2[k], c),
                        ),
                    decreases v1@.len() - i,
                {
                    let ghost pre = entries_map(v1@.take(i as int));
                    let ghost out0 = out@;
                    proof {
                        lemma_entries_take(v1@, i as int);
                        lemma_entries_index(v1@);
                        lemma_entries_index(v2@);
                        lemma_lookup_index(v1@.take(i as int), v1@[i as int].0@);
                        assert forall|q: int| 0 <= q < v1@.take(i as int).len() implies v1@.take(i as int)[q].0@ != v1@[i as int].0@ by {
                            assert(v1@.take(i as int)[q] == v1@[q]);
                        }
                    }
                    match find(v2, &v1[i].0) {
                        Some(j) => {
                            proof {
                                assert(entries_map(v2@).contains_key(v2@[j as int].0@));
                                assert(entry_ok(v1@[i as int].1, c));
                                assert(entry_ok(v2@[j as int].1, c));
                            }
                            let d = v1[i].1.widening(v2[j].1, c);
                            if d.same(&D::bottom()) {
                                proof {
                                    let k = v1@[i as int].0@;
                                    assert(m1.contains_key(v1@[i as int].0@));
                                    assert(full.contains_key(k) && full[k] == D::spec_bottom());
                                }
                                return HashMapState { entries: None };
                            }
                            let key = v1[i].0.clone();
                            proof {
                                lemma_unique_push(out0, (key, d));
                                lemma_entries_push(out0, (key, d));
                            }
                            out.push((key, d));
                            proof {
                                assert forall|p: int| 0 <= p < out@.len() implies #[trigger] entry_ok(out@[p].1, c) by {
                                    if p < out0.len() {
                                        assert(out@[p] == out0[p]);
                                    }
                                }
                                assert(entries_map(out@) =~= Map::new(
                                    |k: Seq<char>| entries_map(v1@.take(i + 1)).contains_key(k) && m2.contains_key(k),
                                    |k: Seq<char>| entries_map(v1@.take(i + 1))[k].spec_widening(m2[k], c),
                                ));
                            }
                        },
                        None => {
                            proof {
                                assert(!m2.contains_key(v1@[i as int].0@));
                                assert(entries_map(out@) =~= Map::new(
                                    |k: Seq<char>| entries_map(v1@.take(i + 1)).contains_key(k) && m2.contains_key(k),
                                    |k: Seq<char>| entries_map(v1@.take(i + 1))[k].spec_widening(m2[k], c),
                                ));
                            }
                        },
                    }
                    i += 1;
                }
                proof {
                    assert(v1@.take(v1@.len() as int) =~= v1@);
                    assert(entries_map(out@) =~= full);
                    lemma_entries_index(out@);
                    assert forall|k: Seq<char>| !(full.contains_key(k) && full[k] == D::spec_bottom()) by {
                        if full.contains_key(k) {
                            let p = choose|p: int| 0 <= p < out@.len() && out@[p].0@ == k && entries_map(out@)[k] == out@[p].1;
                            assert(entry_ok(out@[p].1, c));
                        }
                    }
                }
                HashMapState { entries: Some(out) }
            },
            (Some(v1), None) => HashMapState { entries: Some(v1) },
            (None, _) => other.duplicate(),
        }
    }

    /// Meet of two states.
    pub fn glb(self, other: &Self, c: D::Config) -> (r: Self)
        requires
            self.wf(c),
            other.wf(c),
        ensures
            r.wf(c),
            r@ == model_glb(self@, other@, c),
    {
        match (&self.entries, &other.entries) {
            (Some(v1), Some(v2)) => HashMapState { entries: merge_entries(v1, v2, Combine::Meet, c) },
            _ => HashMapState { entries: None },
        }
    }

    /// Narrowing of `self` by `other`, variable by variable; the unreachable state
    /// stays unreachable.
    pub fn narrowing(self, other: Self, c: D::Config) -> (r: Self)
        requires
            self.wf(c),
            other.wf(c),
        ensures
            r.wf(c),
            r@ == model_narrowing(self@, other@, c),
    {
        match (&self.entries, &other.entries) {
            (Some(v1), Some(v2)) => HashMapState { entries: merge_entries(v1, v2, Combine::Narrow, c) },
            (None, _) => HashMapState { entries: None },
            (_, None) => self,
        }
    }

    /// Whether the two states are equal.
    pub fn same_as(&self, o: &Self) -> (r: bool)
        requires
            exists|c: D::Config| self.wf(c),
            exists|c: D::Config| o.wf(c),
        ensures
            r == (self@ == o@),
    {
        match (&self.entries, &o.entries) {
            (None, None) => true,
            (Some(v1), Some(v2)) => {
                proof {
                    lemma_entries_index(v1@);
                    lemma_entries_index(v2@);
                }
                if v1.len() != v2.len() {
                    proof {
                        if entries_map(v1@) == entries_map(v2@) {
                            lemma_same_len(v1@, v2@);
                        }
                    }
                    return false;
                }
                let mut i: usize = 0;
                while i < v1.len()
                    invariant
                        i <= v1@.len(),
                        v1@.len() == v2@.len(),
                        unique_keys(v1@),
                        unique_keys(v2@),
                        self@ == Some(entries_map(v1@)),
                        o@ == Some(entries_map(v2@)),
                        forall|j: int| 0 <= j < i ==> #[trigger] entries_map(v2@).contains_key(v1@[j].0@) && entries_map(v2@)[v1@[j].0@] == v1@[j].1,
                    decreases v1@.len() - i,
                {
                    proof {
                        lemma_lookup_index(v2@, v1@[i as int].0@);
                        lemma_entries_index(v1@);
                        lemma_entries_index(v2@);
                    }
                    match find(v2, &v1[i].0) {
                        Some(j) => {
                            proof {
                                assert(entries_map(v2@).contains_key(v2@[j as int].0@));
                            }
                            if !v1[i].1.same(&v2[j].1) {
                                proof {
                                    let k = v1@[i as int].0@;
                                    assert(entries_map(v1@).contains_key(v1@[i as int].0@));
                                    assert(entries_map(v2@).contains_key(v2@[j as int].0@));
                                    assert(entries_map(v1@)[k] != entries_map(v2@)[k]);
                                    assert(self@ != o@);
                                }
                                return false;
                            }
                        },
                        None => {
                            proof {
                                let k = v1@[i as int].0@;
                                assert(entries_map(v1@).contains_key(k));
                                assert(!entries_map(v2@).contains_key(k));
                                assert(self@ != o@);
                            }
                            return false;
                        },
                    }
                    i += 1;
                }
                proof {
                    lemma_entries_index(v1@);
                    lemma_entries_index(v2@);
                    lemma_included_equal(v1@, v2@);
                }
                true
            },
            _ => false,
        }
    }
}

} // verus!
