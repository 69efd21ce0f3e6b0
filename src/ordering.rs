//! Emission order: every item is defined after what it uses by value, with
//! forward declarations where that cannot be had, and source order kept
//! wherever the dependencies leave a choice.
use vstd::prelude::*;

verus! {

/// One step of the emission sequence; the `usize` is an item's index.
#[derive(Clone, Copy, Debug, PartialEq, Eq, Structural)]
pub enum Emission {
    ForwardDecl(usize),
    Definition(usize),
}

/// What each item needs: `by_value[i]` lists the items that item `i` uses by
/// value (as a field, parameter or return type), `by_reference[i]` those it
/// only names through a pointer or reference.  Items are numbered in source
/// order.
#[derive(Debug)]
pub struct DependencyGraph {
    pub by_value: Vec<Vec<usize>>,
    pub by_reference: Vec<Vec<usize>>,
}

/// The emission sequence, with the slot of each item's definition and of its
/// forward declaration, if it has one.
#[derive(Debug)]
pub struct EmissionOrder {
    pub sequence: Vec<Emission>,
    pub definition_slot: Vec<usize>,
    pub forward_slot: Vec<Option<usize>>,
}

impl DependencyGraph {
    pub open spec fn num_items(self) -> nat {
        self.by_value@.len()
    }

    pub open spec fn wf(self) -> bool {
        &&& self.by_reference@.len() == self.by_value@.len()
        &&& forall|i: int, k: int|
            0 <= i < self.by_value@.len() && 0 <= k < self.by_value@[i]@.len()
                ==> self.by_value@[i]@[k] < self.by_value@.len()
        &&& forall|i: int, k: int|
            0 <= i < self.by_reference@.len() && 0 <= k < self.by_reference@[i]@.len()
                ==> self.by_reference@[i]@[k] < self.by_value@.len()
    }

    pub open spec fn uses_by_value(self, i: int, j: int) -> bool {
        self.by_value@[i]@.contains(j as usize)
    }

    /// Item `i` names item `j`, by value or through a reference.
    pub open spec fn uses(self, i: int, j: int) -> bool {
        self.by_value@[i]@.contains(j as usize) || self.by_reference@[i]@.contains(j as usize)
    }
}

/// Item `d` has been defined, at a slot before `p`.
pub open spec fn placed_before(defined: Seq<bool>, slot: Seq<usize>, d: int, p: int) -> bool {
    defined[d] && slot[d] < p
}

/// Everything that item `k` uses by value is defined before slot `p`.
pub open spec fn ready_in(
    g: DependencyGraph,
    defined: Seq<bool>,
    slot: Seq<usize>,
    k: int,
    p: int,
) -> bool {
    forall|x: int|
        0 <= x < g.by_value@[k]@.len() ==> placed_before(defined, slot, g.by_value@[k]@[x] as int, p)
}

/// Everything that item `k` uses by value is already defined.
pub open spec fn is_ready(g: DependencyGraph, defined: Seq<bool>, k: int) -> bool {
    forall|x: int| 0 <= x < g.by_value@[k]@.len() ==> defined[g.by_value@[k]@[x] as int]
}

/// The choice made when item `i` was defined, against an item `k` defined
/// later: the smallest ready item is taken, and only when no item is ready
/// the smallest remaining one.
pub open spec fn picked_fairly(
    g: DependencyGraph,
    defined: Seq<bool>,
    slot: Seq<usize>,
    i: int,
    k: int,
) -> bool {
    if ready_in(g, defined, slot, i, slot[i] as int) {
        !ready_in(g, defined, slot, k, slot[i] as int) || i < k
    } else {
        !ready_in(g, defined, slot, k, slot[i] as int) && i < k
    }
}

/// Before item `i` is defined, every item `j` that it names is either
/// defined or forward declared.
pub open spec fn announced_before(
    defined: Seq<bool>,
    slot: Seq<usize>,
    fwd: Seq<Option<usize>>,
    j: int,
    p: int,
) -> bool {
    placed_before(defined, slot, j, p) || (fwd[j] is Some && fwd[j]->0 < p)
}

pub open spec fn all_true(n: nat) -> Seq<bool> {
    Seq::new(n, |i: int| true)
}

/// The order is a complete, consistent emission sequence for `g`:
/// each item is defined exactly once, each forward declaration precedes its
/// definition, every item named by another is defined or forward declared
/// before that other item (itself excepted), and ties follow source order.
pub open spec fn is_emission_order_of(g: DependencyGraph, o: EmissionOrder) -> bool {
    let n = g.num_items();
    let seq = o.sequence@;
    let slot = o.definition_slot@;
    let fwd = o.forward_slot@;
    let defined = all_true(n);
    &&& slot.len() == n
    &&& fwd.len() == n
    &&& forall|i: int| 0 <= i < n ==> slot[i] < seq.len() && seq[slot[i] as int] == Emission::Definition(i as usize)
    &&& forall|j: int| 0 <= j < n && fwd[j] is Some ==> {
        &&& fwd[j]->0 < slot[j]
        &&& seq[fwd[j]->0 as int] == Emission::ForwardDecl(j as usize)
    }
    &&& forall|p: int| 0 <= p < seq.len() ==> match #[trigger] seq[p] {
        Emission::Definition(i) => i < n && slot[i as int] == p,
        Emission::ForwardDecl(j) => j < n && fwd[j as int] == Some(p as usize),
    }
    &&& forall|i: int, j: int|
        0 <= i < n && 0 <= j < n && i != j && #[trigger] g.uses(i, j)
            ==> announced_before(defined, slot, fwd, j, slot[i] as int)
    &&& forall|i: int, k: int|
        0 <= i < n && 0 <= k < n && i != k && slot[i] < slot[k]
            ==> #[trigger] picked_fairly(g, defined, slot, i, k)
}

pub open spec fn view_of(v: Seq<Vec<usize>>) -> Seq<Seq<usize>> {
    v.map_values(|x: Vec<usize>| x@)
}

/// Everything item `k` uses by value (`bv[k]`) is defined.
pub open spec fn ready_view(bv: Seq<Seq<usize>>, defined: Seq<bool>, k: int) -> bool {
    forall|x: int| 0 <= x < bv[k].len() ==> defined[bv[k][x] as int]
}

/// An undefined item whose by-value uses are all defined.
pub open spec fn candidate(bv: Seq<Seq<usize>>, defined: Seq<bool>, k: int) -> bool {
    !defined[k] && ready_view(bv, defined, k)
}

/// The next item to define: the first candidate, or else the first
/// undefined item, or `None` when all are defined.
pub open spec fn spec_pick(bv: Seq<Seq<usize>>, defined: Seq<bool>) -> Option<int> {
    let n = defined.len() as int;
    if exists|k: int| 0 <= k < n && candidate(bv, defined, k) {
        Some(
            choose|k: int|
                0 <= k < n && candidate(bv, defined, k) && forall|x: int| 0 <= x < k ==> !candidate(bv, defined, x),
        )
    } else if exists|k: int| 0 <= k < n && !defined[k] {
        Some(choose|k: int| 0 <= k < n && !defined[k] && forall|x: int| 0 <= x < k ==> defined[x])
    } else {
        None
    }
}

/// The forward declarations made for the uses `deps` of `pick`, in order:
/// each item not yet defined nor declared, `pick` itself excepted.
pub open spec fn fwd_step(
    deps: Seq<usize>,
    pick: usize,
    defined: Seq<bool>,
    seq: Seq<Emission>,
    fwd: Seq<Option<usize>>,
) -> (Seq<Emission>, Seq<Option<usize>>)
    decreases deps.len(),
{
    if deps.len() == 0 {
        (seq, fwd)
    } else {
        let prev = fwd_step(deps.drop_last(), pick, defined, seq, fwd);
        let j = deps.last();
        if j != pick && !defined[j as int] && prev.1[j as int] is None {
            (prev.0.push(Emission::ForwardDecl(j)), prev.1.update(j as int, Some(prev.0.len() as usize)))
        } else {
            prev
        }
    }
}

/// The state of the ordering between two definitions.
pub struct OrderState {
    pub seq: Seq<Emission>,
    pub defined: Seq<bool>,
    pub slot: Seq<usize>,
    pub fwd: Seq<Option<usize>>,
}

pub open spec fn order_step(bv: Seq<Seq<usize>>, br: Seq<Seq<usize>>, st: OrderState) -> OrderState {
    match spec_pick(bv, st.defined) {
        None => st,
        Some(p) => {
            let s1 = fwd_step(bv[p], p as usize, st.defined, st.seq, st.fwd);
            let s2 = fwd_step(br[p], p as usize, st.defined, s1.0, s1.1);
            OrderState {
                seq: s2.0.push(Emission::Definition(p as usize)),
                defined: st.defined.update(p, true),
                slot: st.slot.update(p, s2.0.len() as usize),
                fwd: s2.1,
            }
        },
    }
}

pub open spec fn order_run(bv: Seq<Seq<usize>>, br: Seq<Seq<usize>>, st: OrderState, k: nat) -> OrderState
    decreases k,
{
    if k == 0 {
        st
    } else {
        order_step(bv, br, order_run(bv, br, st, (k - 1) as nat))
    }
}

pub open spec fn initial_order_state(n: nat) -> OrderState {
    OrderState {
        seq: Seq::empty(),
        defined: Seq::new(n, |i: int| false),
        slot: Seq::new(n, |i: int| 0usize),
        fwd: Seq::new(n, |i: int| None::<usize>),
    }
}

/// The emission order of the graph whose by-value uses are `bv` and whose
/// by-reference uses are `br`, as a function of those alone.
pub open spec fn spec_emission_order(bv: Seq<Seq<usize>>, br: Seq<Seq<usize>>) -> OrderState {
    order_run(bv, br, initial_order_state(bv.len()), bv.len())
}

proof fn lemma_pick_is_spec(g: DependencyGraph, defined: Seq<bool>, r: Option<usize>)
    requires
        defined.len() == g.by_value@.len(),
        r is None ==> forall|k: int| 0 <= k < defined.len() ==> defined[k],
        r matches Some(i) ==> {
            &&& i < defined.len()
            &&& !defined[i as int]
            &&& is_ready(g, defined, i as int) ==> forall|k: int|
                0 <= k < i && !defined[k] ==> !is_ready(g, defined, k)
            &&& !is_ready(g, defined, i as int) ==> {
                &&& forall|k: int| 0 <= k < i ==> defined[k]
                &&& forall|k: int|
                    0 <= k < defined.len() && !defined[k] ==> !is_ready(g, defined, k)
            }
        },
    ensures
        match r {
            Some(i) => spec_pick(view_of(g.by_value@), defined) == Some(i as int),
            None => spec_pick(view_of(g.by_value@), defined) is None,
        },
{
    let n = defined.len() as int;
    let bv = view_of(g.by_value@);
    assert forall|k: int| 0 <= k < n implies is_ready(g, defined, k) == ready_view(bv, defined, k) by {
        assert(bv[k] == g.by_value@[k]@);
    }
    match r {
        None => {},
        Some(i) => {
            let i = i as int;
            if is_ready(g, defined, i) {
                assert(candidate(bv, defined, i));
                assert(forall|x: int| 0 <= x < i ==> !candidate(bv, defined, x));
                let c = choose|k: int|
                    0 <= k < n && candidate(bv, defined, k) && forall|x: int| 0 <= x < k ==> !candidate(bv, defined, x);
                assert(c == i);
            } else {
                assert(forall|k: int| 0 <= k < n ==> !candidate(bv, defined, k));
                let c = choose|k: int| 0 <= k < n && !defined[k] && forall|x: int| 0 <= x < k ==> defined[x];
                assert(c == i);
            }
        },
    }
}

pub open spec fn num_defined(s: Seq<bool>) -> nat
    decreases s.len(),
{
    if s.len() == 0 {
        0
    } else {
        num_defined(s.drop_last()) + if s.last() {
            1nat
        } else {
            0nat
        }
    }
}

proof fn lemma_num_defined_bounds(s: Seq<bool>)
    ensures
        num_defined(s) <= s.len(),
        num_defined(s) == s.len() ==> forall|i: int| 0 <= i < s.len() ==> s[i],
    decreases s.len(),
{
    if s.len() > 0 {
        lemma_num_defined_bounds(s.drop_last());
        assert forall|i: int| 0 <= i < s.len() && num_defined(s) == s.len() implies s[i] by {
            if i < s.len() - 1 {
                assert(s.drop_last()[i] == s[i]);
            }
        }
    }
}

proof fn lemma_num_defined_set(s: Seq<bool>, i: int)
    requires
        0 <= i < s.len(),
        !s[i],
    ensures
        num_defined(s.update(i, true)) == num_defined(s) + 1,
    decreases s.len(),
{
    let t = s.update(i, true);
    if i == s.len() - 1 {
        assert(t.drop_last() =~= s.drop_last());
    } else {
        assert(t.drop_last() =~= s.drop_last().update(i, true));
        lemma_num_defined_set(s.drop_last(), i);
    }
}

fn is_ready_now(g: &DependencyGraph, defined: &Vec<bool>, k: usize) -> (r: bool)
    requires
        g.wf(),
        defined@.len() == g.num_items(),
        k < g.num_items(),
    ensures
        r == is_ready(*g, defined@, k as int),
{
    let deps = &g.by_value[k];
    let mut x: usize = 0;
    while x < deps.len()
        invariant
            g.wf(),
            defined@.len() == g.num_items(),
            k < g.num_items(),
            deps == &g.by_value@[k as int],
            x <= deps@.len(),
            forall|y: int| 0 <= y < x ==> defined@[deps@[y] as int],
        decreases deps.len() - x,
    {
        if !defined[deps[x]] {
            return false;
        }
        x = x + 1;
    }
    true
}

/// The smallest undefined item that is ready, or else the smallest undefined
/// item, or `None` once every item is defined.
fn pick_next(g: &DependencyGraph, defined: &Vec<bool>) -> (r: Option<usize>)
    requires
        g.wf(),
        defined@.len() == g.num_items(),
    ensures
        r is None ==> forall|k: int| 0 <= k < defined@.len() ==> defined@[k],
        r matches Some(i) ==> {
            &&& i < defined@.len()
            &&& !defined@[i as int]
            &&& is_ready(*g, defined@, i as int) ==> forall|k: int|
                0 <= k < i && !defined@[k] ==> !is_ready(*g, defined@, k)
            &&& !is_ready(*g, defined@, i as int) ==> {
                &&& forall|k: int| 0 <= k < i ==> defined@[k]
                &&& forall|k: int|
                    0 <= k < defined@.len() && !defined@[k] ==> !is_ready(*g, defined@, k)
            }
        },
{
    let n = defined.len();
    let mut first: Option<usize> = None;
    let mut k: usize = 0;
    while k < n
        invariant
            g.wf(),
            n == defined@.len(),
            n == g.num_items(),
            k <= n,
            first is None ==> forall|y: int| 0 <= y < k ==> defined@[y],
            first matches Some(f) ==> f < k && !defined@[f as int] && forall|y: int|
                0 <= y < f ==> defined@[y],
            forall|y: int| 0 <= y < k && !defined@[y] ==> !is_ready(*g, defined@, y),
        decreases n - k,
    {
        if !defined[k] {
            if is_ready_now(g, defined, k) {
                return Some(k);
            }
            if first.is_none() {
                first = Some(k);
            }
        }
        k = k + 1;
    }
    first
}

/// Each recorded forward-declaration slot holds that declaration.
pub open spec fn fwd_consistent(seq: Seq<Emission>, fwd: Seq<Option<usize>>) -> bool {
    forall|j: int|
        0 <= j < fwd.len() && (#[trigger] fwd[j]) is Some ==> {
            &&& fwd[j]->0 < seq.len()
            &&& seq[fwd[j]->0 as int] == Emission::ForwardDecl(j as usize)
        }
}

/// Forward declares each item of `deps` other than `pick` that is neither
/// defined nor forward declared yet, appending the declarations to `seq`.
fn forward_declare_missing(
    deps: &Vec<usize>,
    pick: usize,
    defined: &Vec<bool>,
    seq: &mut Vec<Emission>,
    fwd: &mut Vec<Option<usize>>,
)
    requires
        old(fwd)@.len() == defined@.len(),
        forall|k: int| 0 <= k < deps@.len() ==> deps@[k] < defined@.len(),
        fwd_consistent(old(seq)@, old(fwd)@),
    ensures
        final(seq)@.len() >= old(seq)@.len(),
        final(seq)@.subrange(0, old(seq)@.len() as int) == old(seq)@,
        final(fwd)@.len() == old(fwd)@.len(),
        fwd_consistent(final(seq)@, final(fwd)@),
        forall|p: int|
            old(seq)@.len() <= p < final(seq)@.len() ==> (#[trigger] final(seq)@[p] matches Emission::ForwardDecl(j) && j < defined@.len() && final(fwd)@[j as int] == Some(p as usize)),
        forall|j: int|
            0 <= j < old(fwd)@.len() && (#[trigger] old(fwd)@[j]) is Some ==> final(fwd)@[j] == old(fwd)@[j],
        forall|j: int|
            0 <= j < old(fwd)@.len() && old(fwd)@[j] is None && (#[trigger] final(fwd)@[j]) is Some ==> {
                &&& final(fwd)@[j]->0 >= old(seq)@.len()
                &&& !defined@[j]
                &&& j != pick
            },
        forall|k: int|
            0 <= k < deps@.len() && deps@[k] != pick ==> defined@[#[trigger] deps@[k] as int] || final(fwd)@[deps@[k] as int] is Some,
        (final(seq)@, final(fwd)@) == fwd_step(deps@, pick, defined@, old(seq)@, old(fwd)@),
{
    let ghost seq0 = seq@;
    let ghost fwd0 = fwd@;
    let mut x: usize = 0;
    while x < deps.len()
        invariant
            fwd@.len() == defined@.len(),
            fwd0.len() == defined@.len(),
            forall|k: int| 0 <= k < deps@.len() ==> deps@[k] < defined@.len(),
            fwd_consistent(seq@, fwd@),
            x <= deps@.len(),
            seq@.len() >= seq0.len(),
            seq@.subrange(0, seq0.len() as int) == seq0,
            forall|p: int|
                seq0.len() <= p < seq@.len() ==> (#[trigger] seq@[p] matches Emission::ForwardDecl(j) && j < defined@.len() && fwd@[j as int] == Some(p as usize)),
            forall|j: int| 0 <= j < fwd0.len() && (#[trigger] fwd0[j]) is Some ==> fwd@[j] == fwd0[j],
            forall|j: int|
                0 <= j < fwd0.len() && fwd0[j] is None && (#[trigger] fwd@[j]) is Some ==> {
                    &&& fwd@[j]->0 >= seq0.len()
                    &&& !defined@[j]
                    &&& j != pick
                },
            forall|k: int|
                0 <= k < x && deps@[k] != pick ==> defined@[#[trigger] deps@[k] as int] || fwd@[deps@[k] as int] is Some,
            (seq@, fwd@) == fwd_step(deps@.subrange(0, x as int), pick, defined@, seq0, fwd0),
        decreases deps.len() - x,
    {
        let j = deps[x];
        proof {
            let next = deps@.subrange(0, x + 1);
            assert(next.drop_last() =~= deps@.subrange(0, x as int));
            assert(next.last() == j);
        }
        if j != pick && !defined[j] && fwd[j].is_none() {
            let p = seq.len();
            let ghost fwd_prev = fwd@;
            let ghost seq_prev = seq@;
            seq.push(Emission::ForwardDecl(j));
            fwd.set(j, Some(p));
            assert(seq@.subrange(0, seq0.len() as int) =~= seq0);
            assert forall|q: int| seq0.len() <= q < seq@.len() implies (#[trigger] seq@[q] matches Emission::ForwardDecl(j2) && j2 < defined@.len() && fwd@[j2 as int] == Some(q as usize)) by {
                if q < p {
                    assert(seq@[q] == seq_prev[q]);
                    if let Emission::ForwardDecl(j2) = seq_prev[q] {
                        assert(fwd_prev[j2 as int] == Some(q as usize));
                        assert(j2 != j);
                    }
                }
            }
            assert forall|j2: int| 0 <= j2 < fwd@.len() && (#[trigger] fwd@[j2]) is Some implies {
                &&& fwd@[j2]->0 < seq@.len()
                &&& seq@[fwd@[j2]->0 as int] == Emission::ForwardDecl(j2 as usize)
            } by {
                if j2 != j {
                    assert(fwd@[j2] == fwd_prev[j2]);
                }
            }
            assert forall|j2: int| 0 <= j2 < fwd0.len() && (#[trigger] fwd0[j2]) is Some implies fwd@[j2] == fwd0[j2] by {
                if j2 == j {
                    assert(fwd_prev[j2] == fwd0[j2]);
                }
            }
            assert forall|j2: int| 0 <= j2 < fwd0.len() && fwd0[j2] is None && (#[trigger] fwd@[j2]) is Some implies {
                &&& fwd@[j2]->0 >= seq0.len()
                &&& !defined@[j2]
                &&& j2 != pick
            } by {
                if j2 != j {
                    assert(fwd@[j2] == fwd_prev[j2]);
                }
            }
            assert forall|k: int| 0 <= k <= x && deps@[k] != pick implies defined@[#[trigger] deps@[k] as int] || fwd@[deps@[k] as int] is Some by {
                if deps@[k] != j {
                    assert(fwd@[deps@[k] as int] == fwd_prev[deps@[k] as int]);
                }
            }
        }
        x = x + 1;
    }
    assert(deps@.subrange(0, deps@.len() as int) =~= deps@);
}

/// Readiness judged at a slot no later than `p` is unchanged by defining
/// `pick` at slot `p`.
proof fn lemma_ready_stable(
    g: DependencyGraph,
    defined: Seq<bool>,
    slot: Seq<usize>,
    pick: int,
    p: int,
    k: int,
    q: int,
)
    requires
        g.wf(),
        defined.len() == g.num_items(),
        slot.len() == g.num_items(),
        0 <= pick < g.num_items(),
        0 <= k < g.num_items(),
        !defined[pick],
        0 <= p <= usize::MAX,
        q <= p,
    ensures
        ready_in(g, defined.update(pick, true), slot.update(pick, p as usize), k, q)
            == ready_in(g, defined, slot, k, q),
{
    let d2 = defined.update(pick, true);
    let s2 = slot.update(pick, p as usize);
    assert forall|x: int| 0 <= x < g.by_value@[k]@.len() implies placed_before(d2, s2, g.by_value@[k]@[x] as int, q)
        == placed_before(defined, slot, g.by_value@[k]@[x] as int, q) by {
        let d = g.by_value@[k]@[x] as int;
        if d == pick {
            assert(s2[d] == p);
        } else {
            assert(d2[d] == defined[d]);
            assert(s2[d] == slot[d]);
        }
    }
}

/// Once `pick` is defined at slot `p`, after every earlier definition,
/// readiness at `p` is readiness before the step.
proof fn lemma_ready_now(
    g: DependencyGraph,
    defined: Seq<bool>,
    slot: Seq<usize>,
    pick: int,
    p: int,
    k: int,
)
    requires
        g.wf(),
        defined.len() == g.num_items(),
        slot.len() == g.num_items(),
        0 <= pick < g.num_items(),
        0 <= k < g.num_items(),
        !defined[pick],
        0 <= p <= usize::MAX,
        forall|d: int| 0 <= d < defined.len() && #[trigger] defined[d] ==> slot[d] < p,
    ensures
        ready_in(g, defined.update(pick, true), slot.update(pick, p as usize), k, p)
            == is_ready(g, defined, k),
{
    let d2 = defined.update(pick, true);
    let s2 = slot.update(pick, p as usize);
    assert forall|x: int| 0 <= x < g.by_value@[k]@.len() implies placed_before(d2, s2, g.by_value@[k]@[x] as int, p)
        == defined[g.by_value@[k]@[x] as int] by {
        let d = g.by_value@[k]@[x] as int;
        if d != pick {
            assert(d2[d] == defined[d]);
            assert(s2[d] == slot[d]);
        }
    }
}

/// Orders the items of `g` for emission.  Items are taken in source order,
/// except that an item waits until everything it uses by value is defined;
/// when every remaining item waits (a cycle of by-value uses), the first
/// remaining item goes next.  Before an item is defined, each item it names
/// that is not yet defined is forward declared, once.
#[verifier::rlimit(40)]
#[verifier::spinoff_prover]
pub fn order_items(g: &DependencyGraph) -> (o: EmissionOrder)
    requires
        g.wf(),
    ensures
        is_emission_order_of(*g, o),
        o.sequence@ == spec_emission_order(view_of(g.by_value@), view_of(g.by_reference@)).seq,
        o.definition_slot@ == spec_emission_order(view_of(g.by_value@), view_of(g.by_reference@)).slot,
        o.forward_slot@ == spec_emission_order(view_of(g.by_value@), view_of(g.by_reference@)).fwd,
{
    let n = g.by_value.len();
    let mut seq: Vec<Emission> = Vec::new();
    let mut defined: Vec<bool> = Vec::new();
    let mut slot: Vec<usize> = Vec::new();
    let mut fwd: Vec<Option<usize>> = Vec::new();
    let mut x: usize = 0;
    while x < n
        invariant
            x <= n,
            defined@.len() == x,
            slot@.len() == x,
            fwd@.len() == x,
            forall|i: int| 0 <= i < x ==> !(#[trigger] defined@[i]),
            forall|i: int| 0 <= i < x ==> (#[trigger] fwd@[i]) is None,
            defined@ == Seq::new(x as nat, |i: int| false),
            slot@ == Seq::new(x as nat, |i: int| 0usize),
            fwd@ == Seq::new(x as nat, |i: int| None::<usize>),
            seq@ == Seq::<Emission>::empty(),
        decreases n - x,
    {
        defined.push(false);
        slot.push(0);
        fwd.push(None);
        x = x + 1;
        assert(defined@ =~= Seq::new(x as nat, |i: int| false));
        assert(slot@ =~= Seq::new(x as nat, |i: int| 0usize));
        assert(fwd@ =~= Seq::new(x as nat, |i: int| None::<usize>));
    }
    let ghost mut count: nat = 0;
    proof {
        lemma_zero_defined(defined@);
    }
    loop
        invariant
            g.wf(),
            n == g.num_items(),
            defined@.len() == n,
            slot@.len() == n,
            fwd@.len() == n,
            count == num_defined(defined@),
            count <= n,
            (OrderState { seq: seq@, defined: defined@, slot: slot@, fwd: fwd@ }) == order_run(view_of(g.by_value@), view_of(g.by_reference@), initial_order_state(n as nat), count),
            forall|i: int| 0 <= i < n && #[trigger] defined@[i] ==> slot@[i] < seq@.len() && seq@[slot@[i] as int] == Emission::Definition(i as usize),
            fwd_consistent(seq@, fwd@),
            forall|j: int| 0 <= j < n && (#[trigger] fwd@[j]) is Some && defined@[j] ==> fwd@[j]->0 < slot@[j],
            forall|p: int| 0 <= p < seq@.len() ==> match #[trigger] seq@[p] {
                Emission::Definition(i) => i < n && defined@[i as int] && slot@[i as int] == p,
                Emission::ForwardDecl(j) => j < n && fwd@[j as int] == Some(p as usize),
            },
            forall|i: int, j: int|
                0 <= i < n && 0 <= j < n && i != j && defined@[i] && #[trigger] g.uses(i, j)
                    ==> announced_before(defined@, slot@, fwd@, j, slot@[i] as int),
            forall|i: int, k: int|
                0 <= i < n && 0 <= k < n && i != k && defined@[i] && (!defined@[k] || slot@[i] < slot@[k])
                    ==> #[trigger] picked_fairly(*g, defined@, slot@, i, k),
        ensures
            forall|k: int| 0 <= k < n ==> defined@[k],
            (OrderState { seq: seq@, defined: defined@, slot: slot@, fwd: fwd@ }) == order_run(view_of(g.by_value@), view_of(g.by_reference@), initial_order_state(n as nat), n as nat),
            defined@.len() == n,
            slot@.len() == n,
            fwd@.len() == n,
            forall|i: int| 0 <= i < n && #[trigger] defined@[i] ==> slot@[i] < seq@.len() && seq@[slot@[i] as int] == Emission::Definition(i as usize),
            fwd_consistent(seq@, fwd@),
            forall|j: int| 0 <= j < n && (#[trigger] fwd@[j]) is Some && defined@[j] ==> fwd@[j]->0 < slot@[j],
            forall|p: int| 0 <= p < seq@.len() ==> match #[trigger] seq@[p] {
                Emission::Definition(i) => i < n && defined@[i as int] && slot@[i as int] == p,
                Emission::ForwardDecl(j) => j < n && fwd@[j as int] == Some(p as usize),
            },
            forall|i: int, j: int|
                0 <= i < n && 0 <= j < n && i != j && defined@[i] && #[trigger] g.uses(i, j)
                    ==> announced_before(defined@, slot@, fwd@, j, slot@[i] as int),
            forall|i: int, k: int|
                0 <= i < n && 0 <= k < n && i != k && defined@[i] && (!defined@[k] || slot@[i] < slot@[k])
                    ==> #[trigger] picked_fairly(*g, defined@, slot@, i, k),
        decreases n - count,
    {
        let next = pick_next(g, &defined);
        proof {
            lemma_pick_is_spec(*g, defined@, next);
        }
        let pick = match next {
            None => {
                proof {
                    lemma_all_defined_count(defined@);
                }
                break ;
            },
            Some(i) => i,
        };
        let ghost seq0 = seq@;
        let ghost fwd0 = fwd@;
        forward_declare_missing(&g.by_value[pick], pick, &defined, &mut seq, &mut fwd);
        let ghost seq1 = seq@;
        let ghost fwd1 = fwd@;
        forward_declare_missing(&g.by_reference[pick], pick, &defined, &mut seq, &mut fwd);
        let ghost seq2 = seq@;
        let ghost fwd2 = fwd@;
        let p = seq.len();
        let ghost d0 = defined@;
        let ghost s0 = slot@;
        seq.push(Emission::Definition(pick));
        defined.set(pick, true);
        slot.set(pick, p);
        proof {
            lemma_num_defined_set(d0, pick as int);
            lemma_num_defined_bounds(defined@);
            assert(view_of(g.by_value@)[pick as int] == g.by_value@[pick as int]@);
            assert(view_of(g.by_reference@)[pick as int] == g.by_reference@[pick as int]@);
            count = count + 1;
            assert((OrderState { seq: seq@, defined: defined@, slot: slot@, fwd: fwd@ }) == order_run(view_of(g.by_value@), view_of(g.by_reference@), initial_order_state(n as nat), count));
            assert forall|q: int| 0 <= q < seq0.len() implies seq@[q] == seq0[q] by {
                assert(seq1.subrange(0, seq0.len() as int)[q] == seq1[q]);
                assert(seq2.subrange(0, seq1.len() as int)[q] == seq2[q]);
            }
            assert forall|q: int| seq0.len() <= q < seq1.len() implies seq@[q] == seq1[q] by {
                assert(seq2.subrange(0, seq1.len() as int)[q] == seq2[q]);
            }
            assert forall|q: int| 0 <= q < seq2.len() implies seq@[q] == seq2[q] by {}
            // Forward declarations made before this step are kept.
            assert forall|j: int| 0 <= j < n && (#[trigger] fwd0[j]) is Some implies fwd@[j] == fwd0[j] by {
                assert(fwd1[j] == fwd0[j]);
            }
            assert forall|j: int| 0 <= j < n && (#[trigger] fwd1[j]) is Some implies fwd@[j] == fwd1[j] by {}
            assert forall|d: int| 0 <= d < n && #[trigger] d0[d] implies s0[d] < p by {}
            // Definition slots.
            assert forall|i: int| 0 <= i < n && #[trigger] defined@[i] implies slot@[i] < seq@.len() && seq@[slot@[i] as int] == Emission::Definition(i as usize) by {
                if i != pick {
                    assert(d0[i]);
                    assert(seq@[s0[i] as int] == seq0[s0[i] as int]);
                }
            }
            // Forward-declaration slots.
            assert forall|j: int| 0 <= j < n && (#[trigger] fwd@[j]) is Some implies {
                &&& fwd@[j]->0 < seq@.len()
                &&& seq@[fwd@[j]->0 as int] == Emission::ForwardDecl(j as usize)
            } by {
                assert(fwd2[j] is Some);
                assert(seq@[fwd2[j]->0 as int] == seq2[fwd2[j]->0 as int]);
            }
            assert forall|j: int| 0 <= j < n && (#[trigger] fwd@[j]) is Some && defined@[j] implies fwd@[j]->0 < slot@[j] by {
                assert(fwd2[j] is Some);
                if j != pick {
                    assert(d0[j]);
                    if fwd0[j] is None {
                        if fwd1[j] is Some {
                            assert(!d0[j]);
                        } else {
                            assert(!d0[j]);
                        }
                    }
                }
            }
            // Every slot.
            assert forall|q: int| 0 <= q < seq@.len() implies match #[trigger] seq@[q] {
                Emission::Definition(i) => i < n && defined@[i as int] && slot@[i as int] == q,
                Emission::ForwardDecl(j) => j < n && fwd@[j as int] == Some(q as usize),
            } by {
                if q < seq0.len() {
                    assert(seq@[q] == seq0[q]);
                    match seq0[q] {
                        Emission::Definition(i) => {
                            assert(d0[i as int]);
                            assert(i != pick);
                        },
                        Emission::ForwardDecl(j) => {
                            assert(fwd0[j as int] is Some);
                        },
                    }
                } else if q < seq1.len() {
                    assert(seq@[q] == seq1[q]);
                    if let Emission::ForwardDecl(j) = seq1[q] {
                        assert(fwd1[j as int] is Some);
                    }
                } else if q < seq2.len() {
                    assert(seq@[q] == seq2[q]);
                }
            }
            // Everything an item names is announced before it.
            assert forall|i: int, j: int|
                0 <= i < n && 0 <= j < n && i != j && defined@[i] && #[trigger] g.uses(i, j)
                implies announced_before(defined@, slot@, fwd@, j, slot@[i] as int) by {
                if i == pick {
                    if g.by_value@[i]@.contains(j as usize) {
                        let k = choose|k: int| 0 <= k < g.by_value@[i]@.len() && g.by_value@[i]@[k] == j as usize;
                        assert(g.by_value@[pick as int]@[k] == j);
                        if !d0[j] {
                            assert(fwd1[j] is Some);
                        }
                    } else {
                        let k = choose|k: int| 0 <= k < g.by_reference@[i]@.len() && g.by_reference@[i]@[k] == j as usize;
                        assert(g.by_reference@[pick as int]@[k] == j);
                        if !d0[j] {
                            assert(fwd2[j] is Some);
                        }
                    }
                    if d0[j] {
                        assert(defined@[j] && slot@[j] == s0[j]);
                    }
                } else {
                    assert(d0[i]);
                    assert(announced_before(d0, s0, fwd0, j, s0[i] as int));
                    if j == pick {
                        assert(fwd0[j] is Some);
                    } else {
                        if fwd0[j] is Some {
                            assert(fwd@[j] == fwd0[j]);
                        }
                    }
                }
            }
            // Source order among ready items.
            assert forall|i: int, k: int|
                0 <= i < n && 0 <= k < n && i != k && defined@[i] && (!defined@[k] || slot@[i] < slot@[k])
                implies #[trigger] picked_fairly(*g, defined@, slot@, i, k) by {
                if i == pick {
                    if k != pick && d0[k] {
                        assert(slot@[k] == s0[k]);
                    }
                    assert(!d0[k]);
                    lemma_ready_now(*g, d0, s0, pick as int, p as int, pick as int);
                    lemma_ready_now(*g, d0, s0, pick as int, p as int, k);
                } else {
                    assert(d0[i]);
                    assert(slot@[i] == s0[i]);
                    assert(picked_fairly(*g, d0, s0, i, k));
                    lemma_ready_stable(*g, d0, s0, pick as int, p as int, i, s0[i] as int);
                    lemma_ready_stable(*g, d0, s0, pick as int, p as int, k, s0[i] as int);
                }
            }
        }
    }
    proof {
        let all = all_true(n as nat);
        assert(defined@ =~= all);
        assert forall|i: int| 0 <= i < n implies slot@[i] < seq@.len() && seq@[slot@[i] as int] == Emission::Definition(i as usize) by {
            assert(defined@[i]);
        }
        assert forall|j: int| 0 <= j < n && (#[trigger] fwd@[j]) is Some implies {
            &&& fwd@[j]->0 < slot@[j]
            &&& seq@[fwd@[j]->0 as int] == Emission::ForwardDecl(j as usize)
        } by {
            assert(defined@[j]);
        }
        assert forall|i: int, j: int|
            0 <= i < n && 0 <= j < n && i != j && #[trigger] g.uses(i, j)
            implies announced_before(all, slot@, fwd@, j, slot@[i] as int) by {
            assert(defined@[i]);
        }
        assert forall|i: int, k: int|
            0 <= i < n && 0 <= k < n && i != k && slot@[i] < slot@[k]
            implies #[trigger] picked_fairly(*g, all, slot@, i, k) by {
            assert(defined@[i]);
        }
    }
    EmissionOrder { sequence: seq, definition_slot: slot, forward_slot: fwd }
}

proof fn lemma_all_defined_count(s: Seq<bool>)
    requires
        forall|i: int| 0 <= i < s.len() ==> s[i],
    ensures
        num_defined(s) == s.len(),
    decreases s.len(),
{
    if s.len() > 0 {
        lemma_all_defined_count(s.drop_last());
    }
}

proof fn lemma_zero_defined(s: Seq<bool>)
    requires
        forall|i: int| 0 <= i < s.len() ==> !s[i],
    ensures
        num_defined(s) == 0,
    decreases s.len(),
{
    if s.len() > 0 {
        lemma_zero_defined(s.drop_last());
    }
}

pub open spec fn item_of(e: Emission) -> usize {
    match e {
        Emission::ForwardDecl(i) => i,
        Emission::Definition(i) => i,
    }
}

/// A run of consecutive emissions whose items all belong to one container
/// (a namespace or module); a container split by the order is reopened in a
/// later chunk.
#[derive(Debug)]
pub struct Chunk {
    pub container: usize,
    pub emissions: Vec<Emission>,
}

pub open spec fn flatten_chunks(cs: Seq<Chunk>) -> Seq<Emission>
    decreases cs.len(),
{
    if cs.len() == 0 {
        Seq::empty()
    } else {
        flatten_chunks(cs.drop_last()) + cs.last().emissions@
    }
}

/// `cs` cuts `seq` into maximal non-empty runs of one container each.
pub open spec fn is_chunking_of(cs: Seq<Chunk>, seq: Seq<Emission>, container_of: Seq<usize>) -> bool {
    &&& flatten_chunks(cs) == seq
    &&& forall|c: int| 0 <= c < cs.len() ==> (#[trigger] cs[c]).emissions@.len() > 0
    &&& forall|c: int, x: int|
        0 <= c < cs.len() && 0 <= x < cs[c].emissions@.len()
            ==> container_of[item_of(#[trigger] cs[c].emissions@[x]) as int] == cs[c].container
    &&& forall|c: int| 0 <= c < cs.len() - 1 ==> (#[trigger] cs[c]).container != cs[c + 1].container
}

/// The runs of `seq`, as (container, emissions) pairs, as a function of the
/// sequence and the containers alone.
pub open spec fn spec_chunks(seq: Seq<Emission>, container_of: Seq<usize>) -> Seq<(usize, Seq<Emission>)>
    decreases seq.len(),
{
    if seq.len() == 0 {
        Seq::empty()
    } else {
        let prev = spec_chunks(seq.drop_last(), container_of);
        let e = seq.last();
        let c = container_of[item_of(e) as int];
        if prev.len() > 0 && prev.last().0 == c {
            prev.update(prev.len() - 1, (c, prev.last().1.push(e)))
        } else {
            prev.push((c, seq![e]))
        }
    }
}

pub open spec fn chunk_views(cs: Seq<Chunk>) -> Seq<(usize, Seq<Emission>)> {
    cs.map_values(|c: Chunk| (c.container, c.emissions@))
}

/// The chunks built so far, with the open run appended when it is not empty.
pub open spec fn chunks_with_open(cs: Seq<Chunk>, container: usize, cur: Seq<Emission>) -> Seq<(usize, Seq<Emission>)> {
    if cur.len() > 0 {
        chunk_views(cs).push((container, cur))
    } else {
        chunk_views(cs)
    }
}

/// Cuts an emission sequence into runs that each stay in one container.
pub fn split_into_chunks(seq: &Vec<Emission>, container_of: &Vec<usize>) -> (r: Vec<Chunk>)
    requires
        forall|p: int| 0 <= p < seq@.len() ==> item_of(#[trigger] seq@[p]) < container_of@.len(),
    ensures
        is_chunking_of(r@, seq@, container_of@),
        chunk_views(r@) == spec_chunks(seq@, container_of@),
{
    let mut chunks: Vec<Chunk> = Vec::new();
    let mut cur: Vec<Emission> = Vec::new();
    let mut cur_container: usize = 0;
    let mut p: usize = 0;
    while p < seq.len()
        invariant
            p <= seq@.len(),
            forall|q: int| 0 <= q < seq@.len() ==> item_of(#[trigger] seq@[q]) < container_of@.len(),
            flatten_chunks(chunks@) + cur@ == seq@.subrange(0, p as int),
            p > 0 ==> cur@.len() > 0,
            forall|c: int| 0 <= c < chunks@.len() ==> (#[trigger] chunks@[c]).emissions@.len() > 0,
            forall|c: int, x: int|
                0 <= c < chunks@.len() && 0 <= x < chunks@[c].emissions@.len()
                    ==> container_of@[item_of(#[trigger] chunks@[c].emissions@[x]) as int] == chunks@[c].container,
            forall|c: int| 0 <= c < chunks@.len() - 1 ==> (#[trigger] chunks@[c]).container != chunks@[c + 1].container,
            forall|x: int| 0 <= x < cur@.len() ==> container_of@[item_of(#[trigger] cur@[x]) as int] == cur_container,
            chunks@.len() > 0 ==> chunks@.last().container != cur_container,
            p == 0 ==> chunks@.len() == 0,
            chunks_with_open(chunks@, cur_container, cur@) == spec_chunks(seq@.subrange(0, p as int), container_of@),
        decreases seq.len() - p,
    {
        let e = seq[p];
        let i = match e {
            Emission::ForwardDecl(i) => i,
            Emission::Definition(i) => i,
        };
        let c = container_of[i];
        let ghost open_before = chunks_with_open(chunks@, cur_container, cur@);
        proof {
            let next = seq@.subrange(0, p + 1);
            assert(next.drop_last() =~= seq@.subrange(0, p as int));
            assert(next.last() == e);
        }
        if cur.len() > 0 && c != cur_container {
            let ghost before = chunks@;
            let ghost done = cur@;
            chunks.push(Chunk { container: cur_container, emissions: cur });
            cur = Vec::new();
            assert(chunks@.drop_last() == before);
            assert(chunk_views(chunks@) =~= chunk_views(before).push((chunks@.last().container, done)));
            assert(flatten_chunks(chunks@) == flatten_chunks(before) + done);
        }
        let ghost prev = cur@;
        let ghost chunks_now = chunks@;
        cur_container = c;
        cur.push(e);
        proof {
            if prev.len() > 0 {
                assert(chunk_views(chunks_now).push((c, prev.push(e))) =~= open_before.update(open_before.len() - 1, (c, open_before.last().1.push(e))));
            } else {
                if chunks_now.len() > 0 {
                    assert(chunk_views(chunks_now).last() == (chunks_now.last().container, chunks_now.last().emissions@));
                }
                assert(chunks_with_open(chunks@, cur_container, cur@) =~= chunk_views(chunks_now).push((c, seq![e])));
            }
        }
        assert(seq@.subrange(0, p + 1) == seq@.subrange(0, p as int).push(e));
        assert(flatten_chunks(chunks@) + cur@ =~= (flatten_chunks(chunks@) + prev).push(e));
        p = p + 1;
    }
    if cur.len() > 0 {
        let ghost before = chunks@;
        let ghost done = cur@;
        chunks.push(Chunk { container: cur_container, emissions: cur });
        assert(chunks@.drop_last() == before);
        assert(seq@.subrange(0, seq@.len() as int) == seq@);
        assert(chunk_views(chunks@) =~= chunk_views(before).push((chunks@.last().container, done)));
    } else {
        assert(flatten_chunks(chunks@) + cur@ =~= flatten_chunks(chunks@));
        assert(seq@.subrange(0, seq@.len() as int) == seq@);
    }
    chunks
}

/// When item `b` uses item `a` by value, `a` is fully defined before `b`;
/// where that cannot be (a cycle of by-value uses), a forward declaration
/// of `a` comes before `b` and the definition of `a` after it.
pub proof fn lemma_used_by_value_is_announced(g: DependencyGraph, o: EmissionOrder, a: int, b: int)
    requires
        is_emission_order_of(g, o),
        0 <= a < g.num_items(),
        0 <= b < g.num_items(),
        a != b,
        g.uses_by_value(b, a),
    ensures
        o.definition_slot@[a] < o.definition_slot@[b] || {
            &&& o.forward_slot@[a] is Some
            &&& o.forward_slot@[a]->0 < o.definition_slot@[b]
            &&& o.definition_slot@[b] < o.definition_slot@[a]
        },
{
    assert(g.uses(b, a));
    let slot = o.definition_slot@;
    let seq = o.sequence@;
    let all = all_true(g.num_items());
    assert(g.by_value.len() == g.by_value@.len());
    assert(a as usize as int == a && b as usize as int == b);
    assert(announced_before(all, slot, o.forward_slot@, a, slot[b] as int));
    assert(all[a]);
    assert(seq[slot[a] as int] == Emission::Definition(a as usize));
    assert(seq[slot[b] as int] == Emission::Definition(b as usize));
    assert(slot[a] != slot[b]);
}

/// `rank` strictly decreases along every by-value use, so the by-value
/// uses form no cycle.
pub open spec fn ranks_by_value(g: DependencyGraph, rank: Seq<nat>) -> bool {
    &&& rank.len() == g.num_items()
    &&& forall|i: int, x: int|
        0 <= i < g.num_items() && 0 <= x < g.by_value@[i]@.len() ==> rank[#[trigger] g.by_value@[i]@[x] as int] < rank[i]
}

proof fn lemma_definition_slots_distinct(g: DependencyGraph, o: EmissionOrder, i: int, k: int)
    requires
        is_emission_order_of(g, o),
        0 <= i < g.num_items(),
        0 <= k < g.num_items(),
        i != k,
    ensures
        o.definition_slot@[i] != o.definition_slot@[k],
{
    assert(g.by_value.len() == g.by_value@.len());
    assert(i as usize as int == i && k as usize as int == k);
    let seq = o.sequence@;
    let slot = o.definition_slot@;
    assert(seq[slot[i] as int] == Emission::Definition(i as usize));
    assert(seq[slot[k] as int] == Emission::Definition(k as usize));
}

/// If no item from slot `p` on was ready at `p`, each of them would use by
/// value another one of lower rank: impossible below any rank.
proof fn lemma_none_stuck(g: DependencyGraph, o: EmissionOrder, p: int, rank: Seq<nat>, r: nat)
    requires
        g.wf(),
        is_emission_order_of(g, o),
        ranks_by_value(g, rank),
        forall|k: int|
            0 <= k < g.num_items() && o.definition_slot@[k] >= p ==> !ready_in(
                g,
                all_true(g.num_items()),
                o.definition_slot@,
                k,
                p,
            ),
    ensures
        forall|k: int| 0 <= k < g.num_items() && o.definition_slot@[k] >= p ==> rank[k] > r,
    decreases r,
{
    let n = g.num_items();
    let all = all_true(n);
    let slot = o.definition_slot@;
    assert forall|k: int| 0 <= k < n && slot[k] >= p implies rank[k] > r by {
        if rank[k] <= r {
            assert(!ready_in(g, all, slot, k, p));
            let x = choose|x: int|
                0 <= x < g.by_value@[k]@.len() && !placed_before(all, slot, g.by_value@[k]@[x] as int, p);
            let d = g.by_value@[k]@[x] as int;
            assert(d < n);
            assert(all[d]);
            assert(rank[d] < rank[k]);
            if r > 0 {
                lemma_none_stuck(g, o, p, rank, (r - 1) as nat);
                assert(rank[d] > r - 1);
            }
        }
    }
}

/// Without a cycle of by-value uses, everything an item uses by value is
/// defined before it: no forward declaration stands in for a definition.
pub proof fn lemma_acyclic_defined_before_use(
    g: DependencyGraph,
    o: EmissionOrder,
    rank: Seq<nat>,
    i: int,
    j: int,
)
    requires
        g.wf(),
        is_emission_order_of(g, o),
        ranks_by_value(g, rank),
        0 <= i < g.num_items(),
        0 <= j < g.num_items(),
        g.uses_by_value(i, j),
    ensures
        o.definition_slot@[j] < o.definition_slot@[i],
{
    let n = g.num_items();
    let all = all_true(n);
    let slot = o.definition_slot@;
    let p = slot[i] as int;
    if !ready_in(g, all, slot, i, p) {
        assert forall|k: int| 0 <= k < n && slot[k] >= p implies !ready_in(g, all, slot, k, p) by {
            if k != i {
                lemma_definition_slots_distinct(g, o, i, k);
                assert(picked_fairly(g, all, slot, i, k));
            }
        }
        lemma_none_stuck(g, o, p, rank, rank[i]);
    }
    let x = choose|x: int| 0 <= x < g.by_value@[i]@.len() && g.by_value@[i]@[x] == j as usize;
    assert(placed_before(all, slot, g.by_value@[i]@[x] as int, p));
    assert(g.by_value.len() == g.by_value@.len());
    assert(j as usize as int == j);
}

} // verus!
