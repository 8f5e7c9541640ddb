use vstd::prelude::*;

use crate::ast::{Aexpr, Bexpr, Statement, Var};

verus! {

/// Program points.
pub type Label = u32;

/// What an arc of the control-flow graph does.
#[derive(Debug)]
pub enum Command<D> {
    Assignment(Var, Aexpr<D>),
    Test(Bexpr<D>),
}

/// An arc `(from, command, to)`.
pub type Arc<D> = (Label, Command<D>, Label);

/// A control-flow graph: labels `0 .. labels_num`, entry `0`, exit `labels_num - 1`;
/// the analysis applies widening and narrowing at the widening points.
#[derive(Debug)]
pub struct Program<D> {
    pub labels_num: Label,
    pub entry: Label,
    pub widening_points: Vec<Label>,
    pub arcs: Vec<Arc<D>>,
}

/// The model of a graph: its number of labels, its arcs, its widening points.
pub type ProgramModel<D> = (nat, Seq<Arc<D>>, Seq<Label>);

impl<D> Program<D> {
    pub open spec fn view(&self) -> ProgramModel<D> {
        (self.labels_num as nat, self.arcs@, self.widening_points@)
    }
}

/// An arc moved `offset` labels up, an arc into `old_exit` going to `new_exit` instead.
pub open spec fn shift_arc<D>(a: Arc<D>, offset: u32, old_exit: u32, new_exit: u32) -> Arc<D> {
    if a.2 == old_exit {
        ((a.0 + offset) as u32, a.1, new_exit)
    } else {
        ((a.0 + offset) as u32, a.1, (a.2 + offset) as u32)
    }
}

pub open spec fn shift_arcs_spec<D>(arcs: Seq<Arc<D>>, offset: u32, old_exit: u32, new_exit: u32) -> Seq<Arc<D>> {
    arcs.map_values(|a: Arc<D>| shift_arc(a, offset, old_exit, new_exit))
}

pub open spec fn shift_labels<D>(ls: Seq<Label>, offset: u32) -> Seq<Label> {
    ls.map_values(|l: Label| (l + offset) as u32)
}

/// The number of labels of the graph of a statement.
pub open spec fn labels_of<D>(stm: Statement<D>) -> nat
    decreases stm,
{
    match stm {
        Statement::Assign(_, _) => 2,
        Statement::Skip => 1,
        Statement::Compose(s1, s2) => (labels_of(*s1) + labels_of(*s2) - 1) as nat,
        Statement::IfThenElse(_, s1, s2) => labels_of(*s1) + labels_of(*s2),
        Statement::While(_, s) => labels_of(*s) + 1,
    }
}

/// The graph of a statement. `Skip` has one label and no arc; an assignment one
/// arc. A sequence identifies the exit of the first part with the entry of the
/// second. A conditional tests at `0`, places the branches one after the other and
/// joins them at a fresh exit (an empty branch goes straight to it). A loop tests
/// at its head `0`, a widening point, goes back there from the body's exit, and
/// leaves to a fresh exit.
pub open spec fn lower<D>(stm: Statement<D>) -> ProgramModel<D>
    decreases stm,
{
    match stm {
        Statement::Assign(x, a) => (2, seq![(0u32, Command::Assignment(x, *a), 1u32)], seq![]),
        Statement::Skip => (1, seq![], seq![]),
        Statement::Compose(s1, s2) => {
            let p1 = lower(*s1);
            let p2 = lower(*s2);
            let offset = (p1.0 - 1) as u32;
            let exit2 = (p2.0 - 1) as u32;
            (
                (p1.0 + p2.0 - 1) as nat,
                shift_arcs_spec(p2.1, offset, exit2, (exit2 + offset) as u32) + p1.1,
                p1.2 + shift_labels::<D>(p2.2, offset),
            )
        },
        Statement::IfThenElse(b, s1, s2) => {
            let p1 = lower(*s1);
            let p2 = lower(*s2);
            let n1 = (p1.0 - 1) as u32;
            let n2 = (p2.0 - 1) as u32;
            let off2 = (1 + n1) as u32;
            let exit = (off2 + n2) as u32;
            (
                p1.0 + p2.0,
                seq![
                    (0u32, Command::Test(*b), if n1 > 0 { 1u32 } else { exit }),
                    (0u32, Command::Test(Bexpr::Not(b)), off2),
                ] + shift_arcs_spec(p1.1, 1, n1, exit) + shift_arcs_spec(p2.1, off2, n2, exit),
                shift_labels::<D>(p1.2, 1) + shift_labels::<D>(p2.2, off2),
            )
        },
        Statement::While(b, s) => {
            let p1 = lower(*s);
            let exit = p1.0 as u32;
            (
                p1.0 + 1,
                seq![
                    (0u32, Command::Test(*b), if p1.0 == 1 { 0u32 } else { 1u32 }),
                    (0u32, Command::Test(Bexpr::Not(b)), exit),
                ] + shift_arcs_spec(p1.1, 1, (p1.0 - 1) as u32, 0),
                seq![0u32] + shift_labels::<D>(p1.2, 1),
            )
        },
    }
}

/// A graph whose labels are below its label count, whose exit has no outgoing arc,
/// and where every arc that does not go to a higher label goes to a widening point,
/// so that every cycle passes through one.
pub open spec fn well_formed_graph<D>(p: ProgramModel<D>) -> bool {
    &&& p.0 >= 1
    &&& forall|i: int| 0 <= i < p.1.len() ==> (#[trigger] p.1[i]).0 < p.0 && p.1[i].2 < p.0
    &&& forall|i: int| 0 <= i < p.1.len() ==> (#[trigger] p.1[i]).0 != p.0 - 1
    &&& forall|i: int| 0 <= i < p.1.len() ==> (#[trigger] p.1[i]).0 < p.1[i].2 || p.2.contains(p.1[i].2)
    &&& forall|i: int| 0 <= i < p.2.len() ==> #[trigger] p.2[i] < p.0
}

/// Every statement has at least one label.
pub proof fn lemma_labels_positive<D>(stm: Statement<D>)
    ensures
        labels_of(stm) >= 1,
    decreases stm,
{
    match stm {
        Statement::Compose(s1, s2) => {
            lemma_labels_positive(*s1);
            lemma_labels_positive(*s2);
        },
        Statement::IfThenElse(_, s1, s2) => {
            lemma_labels_positive(*s1);
            lemma_labels_positive(*s2);
        },
        Statement::While(_, s) => {
            lemma_labels_positive(*s);
        },
        _ => {},
    }
}

/// The graph of a statement has `labels_of` labels and is well formed.
pub proof fn lemma_lower_well_formed<D>(stm: Statement<D>)
    requires
        labels_of(stm) <= u32::MAX,
    ensures
        lower(stm).0 == labels_of(stm),
        well_formed_graph(lower(stm)),
    decreases stm,
{
    match stm {
        Statement::Assign(_, _) => {},
        Statement::Skip => {},
        Statement::Compose(s1, s2) => {
            lemma_labels_positive(*s1);
            lemma_labels_positive(*s2);
            lemma_lower_well_formed(*s1);
            lemma_lower_well_formed(*s2);
            let p1 = lower(*s1);
            let p2 = lower(*s2);
            let p = lower(stm);
            let offset = (p1.0 - 1) as u32;
            let exit2 = (p2.0 - 1) as u32;
            let sh = shift_arcs_spec(p2.1, offset, exit2, (exit2 + offset) as u32);
            assert forall|i: int| 0 <= i < p.1.len() implies (#[trigger] p.1[i]).0 < p.0 && p.1[i].2 < p.0
                && p.1[i].0 != p.0 - 1 && (p.1[i].0 < p.1[i].2 || p.2.contains(p.1[i].2)) by {
                if i < sh.len() {
                    assert(p.1[i] == shift_arc(p2.1[i], offset, exit2, (exit2 + offset) as u32));
                    if !(p2.1[i].0 < p2.1[i].2) {
                        let j = choose|j: int| 0 <= j < p2.2.len() && p2.2[j] == p2.1[i].2;
                        assert(p.2[p1.2.len() + j] == (p2.2[j] + offset) as u32);
                    }
                } else {
                    assert(p.1[i] == p1.1[i - sh.len()]);
                    if !(p1.1[i - sh.len()].0 < p1.1[i - sh.len()].2) {
                        let j = choose|j: int| 0 <= j < p1.2.len() && p1.2[j] == p1.1[i - sh.len()].2;
                        assert(p.2[j] == p1.2[j]);
                    }
                }
            }
            assert forall|i: int| 0 <= i < p.2.len() implies #[trigger] p.2[i] < p.0 by {
                if i >= p1.2.len() {
                    assert(p.2[i] == (p2.2[i - p1.2.len()] + offset) as u32);
                }
            }
        },
        Statement::IfThenElse(b, s1, s2) => {
            lemma_labels_positive(*s1);
            lemma_labels_positive(*s2);
            lemma_lower_well_formed(*s1);
            lemma_lower_well_formed(*s2);
            let p1 = lower(*s1);
            let p2 = lower(*s2);
            let p = lower(stm);
            let n1 = (p1.0 - 1) as u32;
            let n2 = (p2.0 - 1) as u32;
            let off2 = (1 + n1) as u32;
            let exit = (off2 + n2) as u32;
            let sh1 = shift_arcs_spec(p1.1, 1, n1, exit);
            let sh2 = shift_arcs_spec(p2.1, off2, n2, exit);
            assert forall|i: int| 0 <= i < p.1.len() implies (#[trigger] p.1[i]).0 < p.0 && p.1[i].2 < p.0
                && p.1[i].0 != p.0 - 1 && (p.1[i].0 < p.1[i].2 || p.2.contains(p.1[i].2)) by {
                if i < 2 {
                } else if i < 2 + sh1.len() {
                    assert(p.1[i] == shift_arc(p1.1[i - 2], 1, n1, exit));
                    if !(p1.1[i - 2].0 < p1.1[i - 2].2) {
                        let j = choose|j: int| 0 <= j < p1.2.len() && p1.2[j] == p1.1[i - 2].2;
                        assert(p.2[j] == (p1.2[j] + 1) as u32);
                    }
                } else {
                    let k = i - 2 - sh1.len();
                    assert(p.1[i] == shift_arc(p2.1[k], off2, n2, exit));
                    if !(p2.1[k].0 < p2.1[k].2) {
                        let j = choose|j: int| 0 <= j < p2.2.len() && p2.2[j] == p2.1[k].2;
                        assert(p.2[p1.2.len() + j] == (p2.2[j] + off2) as u32);
                    }
                }
            }
            assert forall|i: int| 0 <= i < p.2.len() implies #[trigger] p.2[i] < p.0 by {
                if i >= p1.2.len() {
                    assert(p.2[i] == (p2.2[i - p1.2.len()] + off2) as u32);
                } else {
                    assert(p.2[i] == (p1.2[i] + 1) as u32);
                }
            }
        },
        Statement::While(b, s) => {
            lemma_lower_well_formed(*s);
            let p1 = lower(*s);
            let p = lower(stm);
            let sh = shift_arcs_spec(p1.1, 1, (p1.0 - 1) as u32, 0);
            assert(p.2[0] == 0);
            assert forall|i: int| 0 <= i < p.1.len() implies (#[trigger] p.1[i]).0 < p.0 && p.1[i].2 < p.0
                && p.1[i].0 != p.0 - 1 && (p.1[i].0 < p.1[i].2 || p.2.contains(p.1[i].2)) by {
                if i < 2 {
                } else {
                    assert(p.1[i] == shift_arc(p1.1[i - 2], 1, (p1.0 - 1) as u32, 0));
                    if !(p1.1[i - 2].0 < p1.1[i - 2].2) && p1.1[i - 2].2 != p1.0 - 1 {
                        let j = choose|j: int| 0 <= j < p1.2.len() && p1.2[j] == p1.1[i - 2].2;
                        assert(p.2[1 + j] == (p1.2[j] + 1) as u32);
                    }
                }
            }
            assert forall|i: int| 0 <= i < p.2.len() implies #[trigger] p.2[i] < p.0 by {
                if i >= 1 {
                    assert(p.2[i] == (p1.2[i - 1] + 1) as u32);
                }
            }
        },
    }
}

impl<D: Copy> Command<D> {
    /// A copy of the command.
    pub fn duplicate(&self) -> (r: Command<D>)
        ensures
            r == *self,
    {
        match self {
            Command::Assignment(x, a) => Command::Assignment(x.clone(), a.duplicate()),
            Command::Test(b) => Command::Test(b.duplicate()),
        }
    }
}

fn shift_arcs<D: Copy>(arcs: &Vec<Arc<D>>, offset: u32, old_exit: u32, new_exit: u32) -> (r: Vec<Arc<D>>)
    requires
        forall|i: int| 0 <= i < arcs@.len() ==> (#[trigger] arcs@[i]).0 + offset <= u32::MAX && (arcs@[i].2
            != old_exit ==> arcs@[i].2 + offset <= u32::MAX),
    ensures
        r@ == shift_arcs_spec(arcs@, offset, old_exit, new_exit),
{
    let mut out: Vec<Arc<D>> = Vec::new();
    let mut i: usize = 0;
    while i < arcs.len()
        invariant
            i <= arcs@.len(),
            forall|j: int| 0 <= j < arcs@.len() ==> (#[trigger] arcs@[j]).0 + offset <= u32::MAX && (arcs@[j].2
                != old_exit ==> arcs@[j].2 + offset <= u32::MAX),
            out@ == shift_arcs_spec(arcs@.take(i as int), offset, old_exit, new_exit),
        decreases arcs@.len() - i,
    {
        let a = &arcs[i];
        let to = if a.2 == old_exit { new_exit } else { a.2 + offset };
        out.push((a.0 + offset, a.1.duplicate(), to));
        proof {
            assert(arcs@.take(i + 1) =~= arcs@.take(i as int).push(arcs@[i as int]));
            assert(out@ =~= shift_arcs_spec(arcs@.take(i + 1), offset, old_exit, new_exit));
        }
        i += 1;
    }
    proof {
        assert(arcs@.take(arcs@.len() as int) =~= arcs@);
    }
    out
}

fn shift_label_vec<D>(ls: &Vec<Label>, offset: u32) -> (r: Vec<Label>)
    requires
        forall|i: int| 0 <= i < ls@.len() ==> #[trigger] ls@[i] + offset <= u32::MAX,
    ensures
        r@ == shift_labels::<D>(ls@, offset),
{
    let mut out: Vec<Label> = Vec::new();
    let mut i: usize = 0;
    while i < ls.len()
        invariant
            i <= ls@.len(),
            forall|j: int| 0 <= j < ls@.len() ==> #[trigger] ls@[j] + offset <= u32::MAX,
            out@ == shift_labels::<D>(ls@.take(i as int), offset),
        decreases ls@.len() - i,
    {
        out.push(ls[i] + offset);
        proof {
            assert(ls@.take(i + 1) =~= ls@.take(i as int).push(ls@[i as int]));
            assert(out@ =~= shift_labels::<D>(ls@.take(i + 1), offset));
        }
        i += 1;
    }
    proof {
        assert(ls@.take(ls@.len() as int) =~= ls@);
    }
    out
}

/// The control-flow graph of a statement.
pub fn stm_to_program<D: Copy>(stm: &Statement<D>) -> (r: Program<D>)
    requires
        labels_of(*stm) <= u32::MAX,
    ensures
        r@ == lower(*stm),
        r.entry == 0,
        well_formed_graph(r@),
    decreases stm,
{
    proof {
        lemma_lower_well_formed(*stm);
        lemma_labels_positive(*stm);
    }
    match stm {
        Statement::Assign(x, a) => {
            let arcs = vec![(0u32, Command::Assignment(x.clone(), a.duplicate()), 1u32)];
            let r = Program { labels_num: 2, entry: 0, widening_points: Vec::new(), arcs };
            proof {
                assert(r@.1 =~= lower(*stm).1);
                assert(r@.2 =~= lower(*stm).2);
            }
            r
        },
        Statement::Skip => {
            let r = Program { labels_num: 1, entry: 0, widening_points: Vec::new(), arcs: Vec::new() };
            proof {
                assert(r@.1 =~= lower(*stm).1);
                assert(r@.2 =~= lower(*stm).2);
            }
            r
        },
        Statement::Compose(s1, s2) => {
            proof {
                lemma_labels_positive(**s1);
                lemma_labels_positive(**s2);
                lemma_lower_well_formed(**s1);
                lemma_lower_well_formed(**s2);
            }
            let p1 = stm_to_program(s1);
            let p2 = stm_to_program(s2);
            let offset = p1.labels_num - 1;
            let exit2 = p2.labels_num - 1;
            let mut arcs = shift_arcs(&p2.arcs, offset, exit2, exit2 + offset);
            let mut arcs1 = p1.arcs;
            arcs.append(&mut arcs1);
            let mut wps = p1.widening_points;
            let mut wps2 = shift_label_vec::<D>(&p2.widening_points, offset);
            wps.append(&mut wps2);
            Program { labels_num: offset + p2.labels_num, entry: 0, widening_points: wps, arcs }
        },
        Statement::IfThenElse(b, s1, s2) => {
            proof {
                lemma_labels_positive(**s1);
                lemma_labels_positive(**s2);
                lemma_lower_well_formed(**s1);
                lemma_lower_well_formed(**s2);
            }
            let p1 = stm_to_program(s1);
            let p2 = stm_to_program(s2);
            let n1 = p1.labels_num - 1;
            let n2 = p2.labels_num - 1;
            let off2 = 1 + n1;
            let exit = off2 + n2;
            let mut arcs = vec![
                (0u32, Command::Test(b.duplicate()), if n1 > 0 { 1u32 } else { exit }),
                (0u32, Command::Test(Bexpr::Not(Box::new(b.duplicate()))), off2),
            ];
            let mut arcs1 = shift_arcs(&p1.arcs, 1, n1, exit);
            let mut arcs2 = shift_arcs(&p2.arcs, off2, n2, exit);
            arcs.append(&mut arcs1);
            arcs.append(&mut arcs2);
            let mut wps = shift_label_vec::<D>(&p1.widening_points, 1);
            let mut wps2 = shift_label_vec::<D>(&p2.widening_points, off2);
            wps.append(&mut wps2);
            let r = Program { labels_num: p1.labels_num + p2.labels_num, entry: 0, widening_points: wps, arcs };
            proof {
                assert(r@.1 =~= lower(*stm).1);
            }
            r
        },
        Statement::While(b, s) => {
            proof {
                lemma_labels_positive(**s);
                lemma_lower_well_formed(**s);
            }
            let p1 = stm_to_program(s);
            let exit = p1.labels_num;
            let mut arcs = vec![
                (0u32, Command::Test(b.duplicate()), if p1.labels_num == 1 { 0u32 } else { 1u32 }),
                (0u32, Command::Test(Bexpr::Not(Box::new(b.duplicate()))), exit),
            ];
            let mut arcs1 = shift_arcs(&p1.arcs, 1, p1.labels_num - 1, 0);
            arcs.append(&mut arcs1);
            let mut wps = vec![0u32];
            let mut wps1 = shift_label_vec::<D>(&p1.widening_points, 1);
            wps.append(&mut wps1);
            let r = Program { labels_num: p1.labels_num + 1, entry: 0, widening_points: wps, arcs };
            proof {
                assert(r@.1 =~= lower(*stm).1);
                assert(r@.2 =~= lower(*stm).2);
            }
            r
        },
    }
}

/// The largest label an arc touches.
pub open spec fn max_label<D>(arcs: Seq<Arc<D>>) -> nat
    decreases arcs.len(),
{
    if arcs.len() == 0 {
        0
    } else {
        let m = max_label(arcs.drop_last());
        let a = arcs.last();
        let l = if a.0 >= a.2 { a.0 as nat } else { a.2 as nat };
        if l > m { l } else { m }
    }
}

/// Reading the graph's entry points.
pub trait ProgramInterface {
    spec fn spec_end_label(&self) -> Label;

    spec fn spec_loop_labels(&self) -> Seq<Label>;

    /// The exit label.
    fn get_end_label(&self) -> (r: Label)
        ensures
            r == self.spec_end_label(),
    ;

    /// The widening points, the heads of the loops.
    fn get_loop_label(&self) -> (r: &Vec<Label>)
        ensures
            r@ == self.spec_loop_labels(),
    ;
}

impl<D> ProgramInterface for Program<D> {
    open spec fn spec_end_label(&self) -> Label {
        if self.labels_num == 0 { 0 } else { (self.labels_num - 1) as Label }
    }

    open spec fn spec_loop_labels(&self) -> Seq<Label> {
        self.widening_points@
    }

    fn get_end_label(&self) -> (r: Label) {
        if self.labels_num == 0 { 0 } else { self.labels_num - 1 }
    }

    fn get_loop_label(&self) -> (r: &Vec<Label>) {
        &self.widening_points
    }
}

impl<D> Program<D> {
    /// The graph with these arcs and widening points, entered at `0`, whose labels
    /// run up to the largest label of an arc.
    pub fn new(arcs: Vec<Arc<D>>, widening_points: Vec<Label>) -> (r: Self)
        requires
            max_label(arcs@) < u32::MAX,
        ensures
            r.labels_num == max_label(arcs@) + 1,
            r.entry == 0,
            r.arcs@ == arcs@,
            r.widening_points@ == widening_points@,
    {
        let mut m: u32 = 0;
        let mut i: usize = 0;
        proof {
            assert(arcs@.take(0) =~= Seq::<Arc<D>>::empty());
        }
        while i < arcs.len()
            invariant
                i <= arcs@.len(),
                m == max_label(arcs@.take(i as int)),
                max_label(arcs@) < u32::MAX,
            decreases arcs@.len() - i,
        {
            proof {
                assert(arcs@.take(i + 1).drop_last() =~= arcs@.take(i as int));
                lemma_max_label_prefix(arcs@, i + 1);
            }
            let l = if arcs[i].0 >= arcs[i].2 { arcs[i].0 } else { arcs[i].2 };
            if l > m {
                m = l;
            }
            i += 1;
        }
        proof {
            assert(arcs@.take(arcs@.len() as int) =~= arcs@);
        }
        Program { labels_num: m + 1, entry: 0, widening_points, arcs }
    }

    /// The indices of the arcs that enter `label`, in order.
    pub fn get_entering_arcs(&self, label: Label) -> (r: Vec<usize>)
        ensures
            forall|k: int| 0 <= k < r@.len() ==> r@[k] < self.arcs@.len() && self.arcs@[r@[k] as int].2 == label,
            forall|j: int| 0 <= j < self.arcs@.len() && #[trigger] self.arcs@[j].2 == label ==> r@.contains(j as usize),
            forall|k1: int, k2: int| 0 <= k1 < k2 < r@.len() ==> r@[k1] < r@[k2],
    {
        let mut r: Vec<usize> = Vec::new();
        let mut i: usize = 0;
        while i < self.arcs.len()
            invariant
                i <= self.arcs@.len(),
                forall|k: int| 0 <= k < r@.len() ==> r@[k] < i && self.arcs@[r@[k] as int].2 == label,
                forall|j: int| 0 <= j < i && #[trigger] self.arcs@[j].2 == label ==> r@.contains(j as usize),
                forall|k1: int, k2: int| 0 <= k1 < k2 < r@.len() ==> r@[k1] < r@[k2],
            decreases self.arcs@.len() - i,
        {
            if self.arcs[i].2 == label {
                let ghost r0 = r@;
                r.push(i);
                proof {
                    assert forall|j: int| 0 <= j <= i && #[trigger] self.arcs@[j].2 == label implies r@.contains(j as usize) by {
                        if j < i {
                            let k = choose|k: int| 0 <= k < r0.len() && r0[k] == j as usize;
                            assert(r@[k] == j as usize);
                        } else {
                            assert(r@[r0.len() as int] == j as usize);
                        }
                    }
                }
            }
            i += 1;
        }
        r
    }
}

/// The largest label of a prefix is at most that of the whole list.
proof fn lemma_max_label_prefix<D>(arcs: Seq<Arc<D>>, n: int)
    requires
        0 <= n <= arcs.len(),
    ensures
        max_label(arcs.take(n)) <= max_label(arcs),
    decreases arcs.len() - n,
{
    if n < arcs.len() {
        lemma_max_label_prefix(arcs, n + 1);
        assert(arcs.take(n + 1).drop_last() =~= arcs.take(n));
    } else {
        assert(arcs.take(n) =~= arcs);
    }
}

/// The number of labels of the graph of a statement, if it fits in a label.
pub fn count_labels<D>(stm: &Statement<D>) -> (r: Option<u32>)
    ensures
        match r {
            Some(n) => n == labels_of(*stm),
            None => labels_of(*stm) > u32::MAX,
        },
    decreases stm,
{
    proof {
        lemma_labels_positive(*stm);
    }
    match stm {
        Statement::Assign(_, _) => Some(2),
        Statement::Skip => Some(1),
        Statement::Compose(s1, s2) => {
            proof {
                lemma_labels_positive(**s1);
                lemma_labels_positive(**s2);
            }
            match (count_labels(s1), count_labels(s2)) {
                (Some(a), Some(b)) => {
                    if a as u64 + b as u64 - 1 <= u32::MAX as u64 {
                        Some(a + (b - 1))
                    } else {
                        None
                    }
                },
                _ => None,
            }
        },
        Statement::IfThenElse(_, s1, s2) => {
            proof {
                lemma_labels_positive(**s1);
                lemma_labels_positive(**s2);
            }
            match (count_labels(s1), count_labels(s2)) {
                (Some(a), Some(b)) => {
                    if a as u64 + b as u64 <= u32::MAX as u64 {
                        Some(a + b)
                    } else {
                        None
                    }
                },
                _ => None,
            }
        },
        Statement::While(_, s) => match count_labels(s) {
            Some(a) => if a < u32::MAX { Some(a + 1) } else { None },
            None => None,
        },
    }
}

} // verus!
