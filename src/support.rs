//! Which items cannot be bound.  An item is unsupported for a reason of its
//! own, or because it uses an item that is unsupported; the second kind
//! spreads along uses until nothing changes.
use vstd::prelude::*;

verus! {

/// Why an item is unsupported: a reason of its own, or the item (by index)
/// that it uses and that is unsupported.
#[derive(Clone, Copy, Debug, PartialEq, Eq, Structural)]
pub enum Cause {
    Intrinsic,
    Uses(usize),
}

/// `uses[i]` lists the items that item `i` uses, in any way (type, field,
/// parameter, return, owning record); `intrinsic[i]` says whether item `i`
/// is unsupported for a reason of its own.
pub open spec fn support_input_wf(uses: Seq<Vec<usize>>, intrinsic: Seq<bool>) -> bool {
    &&& uses.len() == intrinsic.len()
    &&& forall|i: int, k: int|
        0 <= i < uses.len() && 0 <= k < uses[i]@.len() ==> #[trigger] uses[i]@[k] < uses.len()
}

pub open spec fn uses_item(uses: Seq<Vec<usize>>, i: int, j: int) -> bool {
    uses[i]@.contains(j as usize)
}

/// `s` holds every item with a reason of its own and every item that uses
/// an item of `s`.
pub open spec fn is_closed(uses: Seq<Vec<usize>>, intrinsic: Seq<bool>, s: Set<int>) -> bool {
    &&& forall|i: int| 0 <= i < intrinsic.len() && intrinsic[i] ==> s.contains(i)
    &&& forall|i: int, j: int|
        0 <= i < uses.len() && 0 <= j < uses.len() && #[trigger] uses_item(uses, i, j) && s.contains(j)
            ==> s.contains(i)
}

pub open spec fn marked_set(r: Seq<Option<Cause>>) -> Set<int> {
    Set::new(|i: int| 0 <= i < r.len() && r[i] is Some)
}

/// A marked item that names another as its cause uses it, and that other
/// item is marked too.
pub open spec fn cause_justified(uses: Seq<Vec<usize>>, r: Seq<Option<Cause>>, i: int) -> bool {
    match r[i] {
        Some(Cause::Uses(j)) => j < r.len() && uses_item(uses, i, j as int) && r[j as int] is Some,
        _ => true,
    }
}

/// The first item of `deps[k..]` that `r` marks.
pub open spec fn first_marked_from(deps: Seq<usize>, r: Seq<Option<Cause>>, k: int) -> Option<usize>
    decreases deps.len() - k,
{
    if k < 0 || k >= deps.len() {
        None
    } else if r[deps[k] as int] is Some {
        Some(deps[k])
    } else {
        first_marked_from(deps, r, k + 1)
    }
}

/// An item unsupported through a use cites the first unsupported item it
/// uses.
pub open spec fn cites_first(uses: Seq<Vec<usize>>, r: Seq<Option<Cause>>, i: int) -> bool {
    match r[i] {
        Some(Cause::Uses(j)) => Some(j) == first_marked_from(uses[i]@, r, 0),
        _ => true,
    }
}

/// `r` marks exactly the items that every closed set holds (the least closed
/// set), each with a cause: its own reason when it has one, otherwise an
/// unsupported item that it uses.
pub open spec fn is_support_status(uses: Seq<Vec<usize>>, intrinsic: Seq<bool>, r: Seq<Option<Cause>>) -> bool {
    &&& r.len() == intrinsic.len()
    &&& is_closed(uses, intrinsic, marked_set(r))
    &&& forall|s: Set<int>| is_closed(uses, intrinsic, s) ==> marked_set(r).subset_of(s)
    &&& forall|i: int| 0 <= i < r.len() ==> (#[trigger] r[i] == Some(Cause::Intrinsic) <==> intrinsic[i])
    &&& forall|i: int| 0 <= i < r.len() ==> #[trigger] cause_justified(uses, r, i)
    &&& forall|i: int| 0 <= i < r.len() ==> #[trigger] cites_first(uses, r, i)
}

pub open spec fn num_marked(r: Seq<Option<Cause>>) -> nat
    decreases r.len(),
{
    if r.len() == 0 {
        0
    } else {
        num_marked(r.drop_last()) + if r.last() is Some {
            1nat
        } else {
            0nat
        }
    }
}

proof fn lemma_num_marked_bound(r: Seq<Option<Cause>>)
    ensures
        num_marked(r) <= r.len(),
    decreases r.len(),
{
    if r.len() > 0 {
        lemma_num_marked_bound(r.drop_last());
    }
}

proof fn lemma_num_marked_set(r: Seq<Option<Cause>>, i: int, c: Cause)
    requires
        0 <= i < r.len(),
        r[i] is None,
    ensures
        num_marked(r.update(i, Some(c))) == num_marked(r) + 1,
    decreases r.len(),
{
    let t = r.update(i, Some(c));
    if i == r.len() - 1 {
        assert(t.drop_last() =~= r.drop_last());
    } else {
        assert(t.drop_last() =~= r.drop_last().update(i, Some(c)));
        lemma_num_marked_set(r.drop_last(), i, c);
    }
}

proof fn lemma_first_marked_from_prefix(deps: Seq<usize>, r: Seq<Option<Cause>>, a: int, k: int)
    requires
        0 <= a <= k,
        forall|x: int| a <= x < k && x < deps.len() ==> r[#[trigger] deps[x] as int] is None,
    ensures
        first_marked_from(deps, r, a) == first_marked_from(deps, r, k),
    decreases k - a,
{
    if a < k && a < deps.len() {
        lemma_first_marked_from_prefix(deps, r, a + 1, k);
    } else if a < k {
        lemma_first_marked_from_prefix(deps, r, a + 1, k);
    }
}

/// Marking agrees on every item: the first marked use is the same.
proof fn lemma_first_marked_from_same(deps: Seq<usize>, r1: Seq<Option<Cause>>, r2: Seq<Option<Cause>>, k: int)
    requires
        forall|x: int| 0 <= x < deps.len() ==> (r1[#[trigger] deps[x] as int] is Some <==> r2[deps[x] as int] is Some),
        0 <= k,
    ensures
        first_marked_from(deps, r1, k) == first_marked_from(deps, r2, k),
    decreases deps.len() - k,
{
    if k < deps.len() {
        lemma_first_marked_from_same(deps, r1, r2, k + 1);
    }
}

/// The first item of `deps` that is marked, if any.
fn first_marked(deps: &Vec<usize>, r: &Vec<Option<Cause>>) -> (f: Option<usize>)
    requires
        forall|k: int| 0 <= k < deps@.len() ==> #[trigger] deps@[k] < r@.len(),
    ensures
        f matches Some(j) ==> deps@.contains(j) && r@[j as int] is Some,
        f is None ==> forall|k: int| 0 <= k < deps@.len() ==> r@[#[trigger] deps@[k] as int] is None,
        f == first_marked_from(deps@, r@, 0),
{
    let mut k: usize = 0;
    while k < deps.len()
        invariant
            k <= deps@.len(),
            forall|x: int| 0 <= x < deps@.len() ==> #[trigger] deps@[x] < r@.len(),
            forall|x: int| 0 <= x < k ==> r@[#[trigger] deps@[x] as int] is None,
            first_marked_from(deps@, r@, 0) == first_marked_from(deps@, r@, k as int),
        decreases deps.len() - k,
    {
        let j = deps[k];
        proof {
            lemma_first_marked_from_prefix(deps@, r@, 0, k as int);
        }
        if r[j].is_some() {
            assert(deps@[k as int] == j);
            return Some(j);
        }
        k = k + 1;
    }
    None
}

/// Marks the unsupported items: those with a reason of their own, then,
/// pass after pass, every item that uses a marked one, until a pass marks
/// nothing.
pub fn propagate_unsupported(uses: &Vec<Vec<usize>>, intrinsic: &Vec<bool>) -> (r: Vec<Option<Cause>>)
    requires
        support_input_wf(uses@, intrinsic@),
    ensures
        is_support_status(uses@, intrinsic@, r@),
{
    let n = intrinsic.len();
    let mut r: Vec<Option<Cause>> = Vec::new();
    let mut x: usize = 0;
    while x < n
        invariant
            n == intrinsic@.len(),
            x <= n,
            r@.len() == x,
            forall|i: int| 0 <= i < x ==> (#[trigger] r@[i] == Some(Cause::Intrinsic) <==> intrinsic@[i]),
            forall|i: int| 0 <= i < x ==> (#[trigger] r@[i] is None <==> !intrinsic@[i]),
        decreases n - x,
    {
        if intrinsic[x] {
            r.push(Some(Cause::Intrinsic));
        } else {
            r.push(None);
        }
        x = x + 1;
    }
    let ghost mut count: nat = num_marked(r@);
    proof {
        lemma_num_marked_bound(r@);
        assert forall|s: Set<int>| is_closed(uses@, intrinsic@, s) implies marked_set(r@).subset_of(s) by {
            assert forall|i: int| marked_set(r@).contains(i) implies s.contains(i) by {
                assert(intrinsic@[i]);
            }
        }
    }
    loop
        invariant
            support_input_wf(uses@, intrinsic@),
            n == intrinsic@.len(),
            r@.len() == n,
            count == num_marked(r@),
            count <= n,
            forall|s: Set<int>| is_closed(uses@, intrinsic@, s) ==> marked_set(r@).subset_of(s),
            forall|i: int| 0 <= i < n ==> (#[trigger] r@[i] == Some(Cause::Intrinsic) <==> intrinsic@[i]),
            forall|i: int| 0 <= i < n ==> #[trigger] cause_justified(uses@, r@, i),
        ensures
            r@.len() == n,
            forall|s: Set<int>| is_closed(uses@, intrinsic@, s) ==> marked_set(r@).subset_of(s),
            forall|i: int| 0 <= i < n ==> (#[trigger] r@[i] == Some(Cause::Intrinsic) <==> intrinsic@[i]),
            forall|i: int| 0 <= i < n ==> #[trigger] cause_justified(uses@, r@, i),
            forall|i: int, j: int|
                0 <= i < n && 0 <= j < n && #[trigger] uses_item(uses@, i, j) && r@[j] is Some ==> r@[i] is Some,
        decreases n - count,
    {
        let mut changed = false;
        let ghost start = count;
        let mut i: usize = 0;
        while i < n
            invariant
                support_input_wf(uses@, intrinsic@),
                n == intrinsic@.len(),
                r@.len() == n,
                i <= n,
                count == num_marked(r@),
                count <= n,
                count >= start,
                changed ==> count > start,
                forall|s: Set<int>| is_closed(uses@, intrinsic@, s) ==> marked_set(r@).subset_of(s),
                forall|k: int| 0 <= k < n ==> (#[trigger] r@[k] == Some(Cause::Intrinsic) <==> intrinsic@[k]),
                forall|k: int| 0 <= k < n ==> #[trigger] cause_justified(uses@, r@, k),
                !changed ==> forall|k: int, j: int|
                    0 <= k < i && 0 <= j < n && #[trigger] uses_item(uses@, k, j) && r@[j] is Some ==> r@[k] is Some,
            decreases n - i,
        {
            if r[i].is_none() {
                proof {
                    assert forall|k: int| 0 <= k < uses@[i as int]@.len() implies #[trigger] uses@[i as int]@[k] < r@.len() by {}
                }
                match first_marked(&uses[i], &r) {
                    Some(j) => {
                        let ghost before = r@;
                        r.set(i, Some(Cause::Uses(j)));
                        proof {
                            lemma_num_marked_set(before, i as int, Cause::Uses(j));
                            lemma_num_marked_bound(r@);
                            count = count + 1;
                            assert forall|s: Set<int>| is_closed(uses@, intrinsic@, s) implies marked_set(r@).subset_of(s) by {
                                assert(marked_set(before).subset_of(s));
                                assert(s.contains(j as int));
                                assert(uses_item(uses@, i as int, j as int));
                                assert forall|k: int| marked_set(r@).contains(k) implies s.contains(k) by {
                                    if k != i {
                                        assert(marked_set(before).contains(k));
                                    }
                                }
                            }
                            assert forall|k: int| 0 <= k < n implies #[trigger] cause_justified(uses@, r@, k) by {
                                if k != i {
                                    assert(r@[k] == before[k]);
                                    assert(cause_justified(uses@, before, k));
                                }
                            }
                        }
                        changed = true;
                    },
                    None => {
                        proof {
                            assert forall|j: int| 0 <= j < n && #[trigger] uses_item(uses@, i as int, j) implies r@[j] is None by {
                                let k = choose|k: int| 0 <= k < uses@[i as int]@.len() && uses@[i as int]@[k] == j as usize;
                                assert(r@[uses@[i as int]@[k] as int] is None);
                            }
                        }
                    },
                }
            }
            i = i + 1;
        }
        if !changed {
            break ;
        }
    }
    proof {
        assert forall|i: int, j: int|
            0 <= i < n && 0 <= j < n && #[trigger] uses_item(uses@, i, j) && marked_set(r@).contains(j)
            implies marked_set(r@).contains(i) by {}
    }
    // Each item unsupported through a use cites the first unsupported item
    // it uses.
    let ghost fixed = r@;
    let mut k: usize = 0;
    while k < n
        invariant
            support_input_wf(uses@, intrinsic@),
            n == intrinsic@.len(),
            fixed.len() == n,
            r@.len() == n,
            k <= n,
            forall|x: int| 0 <= x < n ==> (#[trigger] r@[x] is Some <==> fixed[x] is Some),
            forall|x: int| 0 <= x < n ==> (#[trigger] r@[x] == Some(Cause::Intrinsic) <==> fixed[x] == Some(Cause::Intrinsic)),
            forall|x: int| 0 <= x < n ==> #[trigger] cause_justified(uses@, r@, x),
            forall|x: int| 0 <= x < k ==> #[trigger] cites_first(uses@, r@, x),
        decreases n - k,
    {
        if let Some(Cause::Uses(_)) = r[k] {
            proof {
                assert forall|x: int| 0 <= x < uses@[k as int]@.len() implies #[trigger] uses@[k as int]@[x] < r@.len() by {}
            }
            let found = first_marked(&uses[k], &r);
            proof {
                assert(cause_justified(uses@, r@, k as int));
                if found is None {
                    if let Some(Cause::Uses(j0)) = r@[k as int] {
                        let y = choose|y: int| 0 <= y < uses@[k as int]@.len() && uses@[k as int]@[y] == j0;
                        assert(r@[uses@[k as int]@[y] as int] is None);
                    }
                }
            }
            if let Some(j) = found {
                let ghost before = r@;
                r.set(k, Some(Cause::Uses(j)));
                proof {
                    assert forall|x: int| 0 <= x < n implies #[trigger] cause_justified(uses@, r@, x) by {
                        if x != k {
                            assert(r@[x] == before[x]);
                            assert(cause_justified(uses@, before, x));
                        }
                    }
                    assert forall|x: int| 0 <= x <= k implies #[trigger] cites_first(uses@, r@, x) by {
                        assert forall|y: int| 0 <= y < uses@[x]@.len() implies (r@[#[trigger] uses@[x]@[y] as int] is Some <==> before[uses@[x]@[y] as int] is Some) by {
                            assert(uses@[x]@[y] < n);
                        }
                        lemma_first_marked_from_same(uses@[x]@, r@, before, 0);
                        if x != k {
                            assert(r@[x] == before[x]);
                            assert(cites_first(uses@, before, x));
                        }
                    }
                }
            }
        }
        k = k + 1;
    }
    proof {
        assert(marked_set(r@) =~= marked_set(fixed));
        assert forall|i: int| 0 <= i < n implies #[trigger] cites_first(uses@, r@, i) by {}
    }
    r
}

/// A user of an unsupported item is unsupported, and names an unsupported
/// item as its cause.
pub proof fn lemma_user_of_unsupported_is_unsupported(
    uses: Seq<Vec<usize>>,
    intrinsic: Seq<bool>,
    r: Seq<Option<Cause>>,
    i: int,
    j: int,
)
    requires
        support_input_wf(uses, intrinsic),
        is_support_status(uses, intrinsic, r),
        0 <= i < r.len(),
        0 <= j < r.len(),
        uses_item(uses, i, j),
        r[j] is Some,
    ensures
        r[i] is Some,
        cause_justified(uses, r, i),
{
    assert(marked_set(r).contains(j));
}

/// The status is determined by the uses (through their views) and the
/// items' own reasons: two statuses that meet the contract are equal.
pub proof fn lemma_support_status_unique(
    u1: Seq<Vec<usize>>,
    u2: Seq<Vec<usize>>,
    intrinsic: Seq<bool>,
    r1: Seq<Option<Cause>>,
    r2: Seq<Option<Cause>>,
)
    requires
        support_input_wf(u1, intrinsic),
        u2.len() == u1.len(),
        forall|i: int| 0 <= i < u1.len() ==> (#[trigger] u1[i])@ == u2[i]@,
        is_support_status(u1, intrinsic, r1),
        is_support_status(u2, intrinsic, r2),
    ensures
        r1 == r2,
{
    let n = r1.len();
    let m1 = marked_set(r1);
    let m2 = marked_set(r2);
    assert forall|i: int, j: int|
        0 <= i < u2.len() && 0 <= j < u2.len() && #[trigger] uses_item(u2, i, j) && m1.contains(j)
        implies m1.contains(i) by {
        assert(u1[i]@ == u2[i]@);
        assert(uses_item(u1, i, j));
    }
    assert(is_closed(u2, intrinsic, m1));
    assert(m2.subset_of(m1));
    assert forall|i: int, j: int|
        0 <= i < u1.len() && 0 <= j < u1.len() && #[trigger] uses_item(u1, i, j) && m2.contains(j)
        implies m2.contains(i) by {
        assert(u1[i]@ == u2[i]@);
        assert(uses_item(u2, i, j));
    }
    assert(is_closed(u1, intrinsic, m2));
    assert(m1.subset_of(m2));
    assert forall|i: int| 0 <= i < n implies r1[i] == r2[i] by {
        assert(m1.contains(i) == m2.contains(i));
        if r1[i] is Some {
            if r1[i] == Some(Cause::Intrinsic) {
                assert(intrinsic[i]);
            } else {
                assert(r2[i] != Some(Cause::Intrinsic));
                assert(cites_first(u1, r1, i));
                assert(cites_first(u2, r2, i));
                let deps = u1[i]@;
                assert(deps == u2[i]@);
                assert forall|x: int| 0 <= x < deps.len() implies (r1[#[trigger] deps[x] as int] is Some <==> r2[deps[x] as int] is Some) by {
                    assert(deps[x] < u1.len());
                    assert(m1.contains(deps[x] as int) == m2.contains(deps[x] as int));
                }
                lemma_first_marked_from_same(deps, r1, r2, 0);
            }
        }
    }
    assert(r1 =~= r2);
}

} // verus!
