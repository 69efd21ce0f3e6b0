//! The whole run: every item is checked, support is propagated, items are
//! ordered and split by container, and each supported item of the current
//! target gets its binding.
use vstd::prelude::*;
use crate::binder::{
    bind_item, binding_matches, lemma_binding_unique, own_error, same_binding, ItemBinding,
    UnsupportedReason,
};
use crate::ir::{find_decl, is_first_with_id, spec_item_id, CcType, Field, FuncParam, Item, IR};
use crate::lifetimes::param_types;
use crate::ordering::{
    chunk_views, is_chunking_of, is_emission_order_of, item_of, order_items, spec_chunks,
    spec_emission_order, split_into_chunks, view_of, Chunk, DependencyGraph, Emission, EmissionOrder,
};
use crate::support::{
    is_support_status, lemma_support_status_unique, propagate_unsupported, support_input_wf, Cause,
};
use crate::type_mapper::{collect_decl_refs, decl_refs};

verus! {

/// Every type occurrence of an item: parameters then return type, fields,
/// or the underlying type.
pub open spec fn item_types(item: Item) -> Seq<CcType> {
    match item {
        Item::Func(f) => param_types(f.params@).push(f.return_type),
        Item::Record(r) => field_types(r.fields@),
        Item::Enum(e) => seq![e.underlying_type],
        Item::TypeAlias(a) => seq![a.underlying_type],
        _ => Seq::empty(),
    }
}

pub open spec fn field_types(fs: Seq<Field>) -> Seq<CcType> {
    fs.map_values(|f: Field| f.type_)
}

/// The declarations named by a sequence of types: by value, and behind a
/// pointer or reference.
pub open spec fn seq_refs(ts: Seq<CcType>) -> (Seq<u64>, Seq<u64>)
    decreases ts.len(),
{
    if ts.len() == 0 {
        (Seq::empty(), Seq::empty())
    } else {
        let rest = seq_refs(ts.drop_last());
        let last = decl_refs(ts.last(), false);
        (rest.0 + last.0, rest.1 + last.1)
    }
}

/// The record that owns a member function.
pub open spec fn parent_id(item: Item) -> Option<u64> {
    match item {
        Item::Func(f) => match f.member_func_metadata {
            Some(m) => Some(m.record_id),
            None => None,
        },
        _ => None,
    }
}

/// Declarations an item needs defined before it: those its types hold by
/// value, and its owning record.
pub open spec fn by_value_ids(item: Item) -> Seq<u64> {
    match parent_id(item) {
        Some(p) => seq_refs(item_types(item)).0.push(p),
        None => seq_refs(item_types(item)).0,
    }
}

pub open spec fn by_reference_ids(item: Item) -> Seq<u64> {
    seq_refs(item_types(item)).1
}

/// The index of the first item with id `id`.
pub open spec fn spec_find(items: Seq<Item>, id: u64) -> Option<int> {
    if exists|i: int| is_first_with_id(items, id, i) {
        Some(choose|i: int| is_first_with_id(items, id, i))
    } else {
        None
    }
}

pub proof fn lemma_first_with_id_unique(items: Seq<Item>, id: u64, i: int, j: int)
    requires
        is_first_with_id(items, id, i),
        is_first_with_id(items, id, j),
    ensures
        i == j,
{
    if i < j {
        assert(spec_item_id(items[i]) == Some(id));
    } else if j < i {
        assert(spec_item_id(items[j]) == Some(id));
    }
}

/// The indices of the ids that resolve, in order.
pub open spec fn resolve_ids(items: Seq<Item>, ids: Seq<u64>) -> Seq<usize>
    decreases ids.len(),
{
    if ids.len() == 0 {
        Seq::empty()
    } else {
        let rest = resolve_ids(items, ids.drop_last());
        match spec_find(items, ids.last()) {
            Some(i) => rest.push(i as usize),
            None => rest,
        }
    }
}

/// The first id that names no item.
pub open spec fn first_unresolved(items: Seq<Item>, ids: Seq<u64>) -> Option<u64>
    decreases ids.len(),
{
    if ids.len() == 0 {
        None
    } else {
        match first_unresolved(items, ids.drop_last()) {
            Some(x) => Some(x),
            None => if spec_find(items, ids.last()) is None {
                Some(ids.last())
            } else {
                None
            },
        }
    }
}

/// Looks up an id, with the result stated through `spec_find`.
pub fn lookup(items: &Vec<Item>, id: u64) -> (r: Option<usize>)
    ensures
        match r {
            Some(i) => spec_find(items@, id) == Some(i as int),
            None => spec_find(items@, id) is None,
        },
        r matches Some(i) ==> i < items@.len(),
{
    let r = find_decl(items, id);
    proof {
        match r {
            Some(i) => {
                assert(is_first_with_id(items@, id, i as int));
                let c = choose|c: int| is_first_with_id(items@, id, c);
                lemma_first_with_id_unique(items@, id, i as int, c);
            },
            None => {
                if exists|i: int| is_first_with_id(items@, id, i) {
                    let c = choose|c: int| is_first_with_id(items@, id, c);
                    assert(spec_item_id(items@[c]) == Some(id));
                }
            },
        }
    }
    r
}

/// Resolves ids to item indices, and reports the first id that names no
/// item.
pub fn resolve(items: &Vec<Item>, ids: &Vec<u64>) -> (r: (Vec<usize>, Option<u64>))
    ensures
        r.0@ == resolve_ids(items@, ids@),
        r.1 == first_unresolved(items@, ids@),
        forall|k: int| 0 <= k < r.0@.len() ==> #[trigger] r.0@[k] < items@.len(),
{
    let mut out: Vec<usize> = Vec::new();
    let mut missing: Option<u64> = None;
    let mut k: usize = 0;
    while k < ids.len()
        invariant
            k <= ids@.len(),
            out@ == resolve_ids(items@, ids@.subrange(0, k as int)),
            missing == first_unresolved(items@, ids@.subrange(0, k as int)),
            forall|x: int| 0 <= x < out@.len() ==> #[trigger] out@[x] < items@.len(),
        decreases ids.len() - k,
    {
        let ghost prev = ids@.subrange(0, k as int);
        let ghost next = ids@.subrange(0, k + 1);
        assert(next.drop_last() =~= prev);
        assert(next.last() == ids@[k as int]);
        match lookup(items, ids[k]) {
            Some(i) => {
                out.push(i);
            },
            None => {
                if missing.is_none() {
                    missing = Some(ids[k]);
                }
            },
        }
        k = k + 1;
    }
    assert(ids@.subrange(0, ids@.len() as int) =~= ids@);
    (out, missing)
}

/// Appends the declarations named by each parameter type.
fn collect_param_refs(params: &Vec<FuncParam>, by_value: &mut Vec<u64>, by_reference: &mut Vec<u64>)
    ensures
        final(by_value)@ == old(by_value)@ + seq_refs(param_types(params@)).0,
        final(by_reference)@ == old(by_reference)@ + seq_refs(param_types(params@)).1,
{
    let ghost v0 = by_value@;
    let ghost r0 = by_reference@;
    let mut k: usize = 0;
    while k < params.len()
        invariant
            k <= params@.len(),
            by_value@ == v0 + seq_refs(param_types(params@.subrange(0, k as int))).0,
            by_reference@ == r0 + seq_refs(param_types(params@.subrange(0, k as int))).1,
        decreases params.len() - k,
    {
        let ghost prev = param_types(params@.subrange(0, k as int));
        let ghost next = param_types(params@.subrange(0, k + 1));
        assert(next.drop_last() =~= prev);
        assert(next.last() == params@[k as int].type_);
        collect_decl_refs(&params[k].type_, false, by_value, by_reference);
        k = k + 1;
        assert(by_value@ =~= v0 + seq_refs(param_types(params@.subrange(0, k as int))).0);
        assert(by_reference@ =~= r0 + seq_refs(param_types(params@.subrange(0, k as int))).1);
    }
    assert(params@.subrange(0, params@.len() as int) =~= params@);
}

/// Appends the declarations named by each field type.
fn collect_field_refs(fields: &Vec<Field>, by_value: &mut Vec<u64>, by_reference: &mut Vec<u64>)
    ensures
        final(by_value)@ == old(by_value)@ + seq_refs(field_types(fields@)).0,
        final(by_reference)@ == old(by_reference)@ + seq_refs(field_types(fields@)).1,
{
    let ghost v0 = by_value@;
    let ghost r0 = by_reference@;
    let mut k: usize = 0;
    while k < fields.len()
        invariant
            k <= fields@.len(),
            by_value@ == v0 + seq_refs(field_types(fields@.subrange(0, k as int))).0,
            by_reference@ == r0 + seq_refs(field_types(fields@.subrange(0, k as int))).1,
        decreases fields.len() - k,
    {
        let ghost prev = field_types(fields@.subrange(0, k as int));
        let ghost next = field_types(fields@.subrange(0, k + 1));
        assert(next.drop_last() =~= prev);
        assert(next.last() == fields@[k as int].type_);
        collect_decl_refs(&fields[k].type_, false, by_value, by_reference);
        k = k + 1;
        assert(by_value@ =~= v0 + seq_refs(field_types(fields@.subrange(0, k as int))).0);
        assert(by_reference@ =~= r0 + seq_refs(field_types(fields@.subrange(0, k as int))).1);
    }
    assert(fields@.subrange(0, fields@.len() as int) =~= fields@);
}

/// The declaration ids an item names, by value and by reference.
pub fn item_refs(item: &Item) -> (r: (Vec<u64>, Vec<u64>))
    ensures
        r.0@ == by_value_ids(*item),
        r.1@ == by_reference_ids(*item),
{
    let mut by_value: Vec<u64> = Vec::new();
    let mut by_reference: Vec<u64> = Vec::new();
    match item {
        Item::Func(f) => {
            collect_param_refs(&f.params, &mut by_value, &mut by_reference);
            collect_decl_refs(&f.return_type, false, &mut by_value, &mut by_reference);
            proof {
                let ts = param_types(f.params@).push(f.return_type);
                assert(ts.drop_last() =~= param_types(f.params@));
            }
            assert(by_value@ =~= seq_refs(item_types(*item)).0);
            assert(by_reference@ =~= seq_refs(item_types(*item)).1);
            match &f.member_func_metadata {
                Some(m) => by_value.push(m.record_id),
                None => {},
            }
        },
        Item::Record(r) => {
            collect_field_refs(&r.fields, &mut by_value, &mut by_reference);
            assert(by_value@ =~= seq_refs(item_types(*item)).0);
            assert(by_reference@ =~= seq_refs(item_types(*item)).1);
        },
        Item::Enum(e) => {
            collect_decl_refs(&e.underlying_type, false, &mut by_value, &mut by_reference);
            assert(seq![e.underlying_type].drop_last() =~= Seq::<CcType>::empty());
            assert(seq![e.underlying_type].last() == e.underlying_type);
            assert(seq_refs(Seq::<CcType>::empty()).0 =~= Seq::<u64>::empty());
            assert(seq_refs(Seq::<CcType>::empty()).1 =~= Seq::<u64>::empty());
            assert(by_value@ =~= seq_refs(item_types(*item)).0);
            assert(by_reference@ =~= seq_refs(item_types(*item)).1);
        },
        Item::TypeAlias(a) => {
            collect_decl_refs(&a.underlying_type, false, &mut by_value, &mut by_reference);
            assert(seq![a.underlying_type].drop_last() =~= Seq::<CcType>::empty());
            assert(seq![a.underlying_type].last() == a.underlying_type);
            assert(seq_refs(Seq::<CcType>::empty()).0 =~= Seq::<u64>::empty());
            assert(seq_refs(Seq::<CcType>::empty()).1 =~= Seq::<u64>::empty());
            assert(by_value@ =~= seq_refs(item_types(*item)).0);
            assert(by_reference@ =~= seq_refs(item_types(*item)).1);
        },
        _ => {
            assert(by_value@ =~= seq_refs(item_types(*item)).0);
            assert(by_reference@ =~= seq_refs(item_types(*item)).1);
        },
    }
    (by_value, by_reference)
}

/// Why an item cannot be bound, before anything is propagated: its own
/// error, else the first declaration it names that the IR does not hold.
pub open spec fn intrinsic_reason(items: Seq<Item>, item: Item) -> Option<UnsupportedReason> {
    match own_error(item) {
        Some(e) => Some(e),
        None => match first_unresolved(items, by_value_ids(item)) {
            Some(id) => Some(UnsupportedReason::UnknownDecl(id)),
            None => match first_unresolved(items, by_reference_ids(item)) {
                Some(id) => Some(UnsupportedReason::UnknownDecl(id)),
                None => None,
            },
        },
    }
}

pub open spec fn owning_target(item: Item) -> Seq<char> {
    match item {
        Item::Func(f) => f.owning_target@,
        Item::Record(r) => r.owning_target@,
        Item::Enum(e) => e.owning_target@,
        Item::TypeAlias(a) => a.owning_target@,
        Item::Namespace(n) => n.owning_target@,
        Item::UnsupportedItem(u) => u.owning_target@,
    }
}

pub open spec fn enclosing_namespace(item: Item) -> Option<u64> {
    match item {
        Item::Func(f) => f.enclosing_namespace_id,
        Item::Record(r) => r.enclosing_namespace_id,
        Item::Enum(e) => e.enclosing_namespace_id,
        Item::TypeAlias(a) => a.enclosing_namespace_id,
        Item::Namespace(n) => n.enclosing_namespace_id,
        Item::UnsupportedItem(_) => None,
    }
}

/// The index of the namespace an item sits in, or the number of items for
/// the top level.
pub open spec fn spec_container(items: Seq<Item>, item: Item) -> usize {
    match enclosing_namespace(item) {
        Some(id) => match spec_find(items, id) {
            Some(k) => k as usize,
            None => items.len() as usize,
        },
        None => items.len() as usize,
    }
}

/// What is emitted for item `i`: nothing of an item of another target; the
/// reason of an unsupported item (its own, or the unsupported item it
/// uses); otherwise its binding.
pub open spec fn item_binding_ok(
    items: Seq<Item>,
    current_target: Seq<char>,
    i: int,
    status: Option<Cause>,
    b: ItemBinding,
) -> bool {
    if owning_target(items[i]) != current_target {
        b is OtherTarget
    } else {
        match status {
            Some(Cause::Intrinsic) => intrinsic_reason(items, items[i]) matches Some(e) && b == ItemBinding::Unsupported(e),
            Some(Cause::Uses(j)) => b == ItemBinding::Unsupported(UnsupportedReason::DependsOn(j)),
            None => binding_matches(items, items[i], b),
        }
    }
}

/// Everything one run produces from an IR.
#[derive(Debug)]
pub struct Bindings {
    pub items: Vec<ItemBinding>,
    pub graph: DependencyGraph,
    /// Everything each item uses: by value, then by reference.
    pub uses: Vec<Vec<usize>>,
    pub status: Vec<Option<Cause>>,
    pub order: EmissionOrder,
    pub containers: Vec<usize>,
    pub chunks: Vec<Chunk>,
}

pub open spec fn intrinsic_flags(items: Seq<Item>) -> Seq<bool> {
    Seq::new(items.len(), |i: int| intrinsic_reason(items, items[i]) is Some)
}

/// The result of a run on `ir`, clause by clause.
pub open spec fn is_bindings_of(ir: IR, b: Bindings) -> bool {
    let items = ir.items@;
    let n = items.len();
    &&& b.items@.len() == n
    &&& b.graph.by_value@.len() == n
    &&& b.graph.by_reference@.len() == n
    &&& b.uses@.len() == n
    &&& forall|i: int| 0 <= i < n ==> (#[trigger] b.graph.by_value@[i])@ == resolve_ids(items, by_value_ids(items[i]))
    &&& forall|i: int| 0 <= i < n ==> (#[trigger] b.graph.by_reference@[i])@ == resolve_ids(items, by_reference_ids(items[i]))
    &&& forall|i: int| 0 <= i < n ==> (#[trigger] b.uses@[i])@ == b.graph.by_value@[i]@ + b.graph.by_reference@[i]@
    &&& b.graph.wf()
    &&& support_input_wf(b.uses@, intrinsic_flags(items))
    &&& is_support_status(b.uses@, intrinsic_flags(items), b.status@)
    &&& forall|i: int| 0 <= i < n ==> item_binding_ok(items, ir.current_target@, i, b.status@[i], #[trigger] b.items@[i])
    &&& is_emission_order_of(b.graph, b.order)
    &&& b.order.sequence@ == spec_emission_order(view_of(b.graph.by_value@), view_of(b.graph.by_reference@)).seq
    &&& b.order.definition_slot@ == spec_emission_order(view_of(b.graph.by_value@), view_of(b.graph.by_reference@)).slot
    &&& b.order.forward_slot@ == spec_emission_order(view_of(b.graph.by_value@), view_of(b.graph.by_reference@)).fwd
    &&& b.containers@ == Seq::new(n, |i: int| spec_container(items, items[i]))
    &&& is_chunking_of(b.chunks@, b.order.sequence@, b.containers@)
    &&& chunk_views(b.chunks@) == spec_chunks(b.order.sequence@, b.containers@)
}

fn owning_target_of(item: &Item) -> (s: &String)
    ensures
        s@ == owning_target(*item),
{
    match item {
        Item::Func(f) => &f.owning_target,
        Item::Record(r) => &r.owning_target,
        Item::Enum(e) => &e.owning_target,
        Item::TypeAlias(a) => &a.owning_target,
        Item::Namespace(n) => &n.owning_target,
        Item::UnsupportedItem(u) => &u.owning_target,
    }
}

fn container_of(items: &Vec<Item>, item: &Item) -> (c: usize)
    ensures
        c == spec_container(items@, *item),
{
    let ns = match item {
        Item::Func(f) => f.enclosing_namespace_id,
        Item::Record(r) => r.enclosing_namespace_id,
        Item::Enum(e) => e.enclosing_namespace_id,
        Item::TypeAlias(a) => a.enclosing_namespace_id,
        Item::Namespace(n) => n.enclosing_namespace_id,
        Item::UnsupportedItem(_) => None,
    };
    match ns {
        Some(id) => match lookup(items, id) {
            Some(k) => k,
            None => items.len(),
        },
        None => items.len(),
    }
}

fn concat(a: &Vec<usize>, b: &Vec<usize>) -> (r: Vec<usize>)
    ensures
        r@ == a@ + b@,
{
    let mut r: Vec<usize> = Vec::new();
    let mut k: usize = 0;
    while k < a.len()
        invariant
            k <= a@.len(),
            r@ == a@.subrange(0, k as int),
        decreases a.len() - k,
    {
        r.push(a[k]);
        k = k + 1;
        assert(r@ =~= a@.subrange(0, k as int));
    }
    k = 0;
    while k < b.len()
        invariant
            k <= b@.len(),
            r@ == a@ + b@.subrange(0, k as int),
        decreases b.len() - k,
    {
        r.push(b[k]);
        k = k + 1;
        assert(r@ =~= a@ + b@.subrange(0, k as int));
    }
    assert(b@.subrange(0, b@.len() as int) =~= b@);
    r
}

/// Runs the whole generator on `ir`.
pub fn generate(ir: &IR) -> (b: Bindings)
    ensures
        is_bindings_of(*ir, b),
{
    let items = &ir.items;
    let n = items.len();
    let mut by_value: Vec<Vec<usize>> = Vec::new();
    let mut by_reference: Vec<Vec<usize>> = Vec::new();
    let mut uses: Vec<Vec<usize>> = Vec::new();
    let mut intrinsic: Vec<bool> = Vec::new();
    let mut reasons: Vec<Option<UnsupportedReason>> = Vec::new();
    let mut i: usize = 0;
    while i < n
        invariant
            n == items@.len(),
            i <= n,
            by_value@.len() == i,
            by_reference@.len() == i,
            uses@.len() == i,
            intrinsic@.len() == i,
            reasons@.len() == i,
            forall|k: int| 0 <= k < i ==> (#[trigger] by_value@[k])@ == resolve_ids(items@, by_value_ids(items@[k])),
            forall|k: int| 0 <= k < i ==> (#[trigger] by_reference@[k])@ == resolve_ids(items@, by_reference_ids(items@[k])),
            forall|k: int| 0 <= k < i ==> (#[trigger] uses@[k])@ == by_value@[k]@ + by_reference@[k]@,
            forall|k: int, x: int| 0 <= k < i && 0 <= x < by_value@[k]@.len() ==> #[trigger] by_value@[k]@[x] < n,
            forall|k: int, x: int| 0 <= k < i && 0 <= x < by_reference@[k]@.len() ==> #[trigger] by_reference@[k]@[x] < n,
            forall|k: int| 0 <= k < i ==> #[trigger] reasons@[k] == intrinsic_reason(items@, items@[k]),
            forall|k: int| 0 <= k < i ==> #[trigger] intrinsic@[k] == (reasons@[k] is Some),
        decreases n - i,
    {
        let item = &items[i];
        let (v_ids, r_ids) = item_refs(item);
        let (v_idx, v_missing) = resolve(items, &v_ids);
        let (r_idx, r_missing) = resolve(items, &r_ids);
        let reason = match bind_item(items, item) {
            Err(e) => Some(e),
            Ok(_) => match v_missing {
                Some(id) => Some(UnsupportedReason::UnknownDecl(id)),
                None => match r_missing {
                    Some(id) => Some(UnsupportedReason::UnknownDecl(id)),
                    None => None,
                },
            },
        };
        uses.push(concat(&v_idx, &r_idx));
        by_value.push(v_idx);
        by_reference.push(r_idx);
        intrinsic.push(reason.is_some());
        reasons.push(reason);
        i = i + 1;
    }
    let graph = DependencyGraph { by_value, by_reference };
    proof {
        assert forall|k: int, x: int| 0 <= k < uses@.len() && 0 <= x < uses@[k]@.len() implies #[trigger] uses@[k]@[x] < uses@.len() by {
            let v = graph.by_value@[k]@;
            if x >= v.len() {
                assert(uses@[k]@[x] == graph.by_reference@[k]@[x - v.len()]);
            }
        }
    }
    let status = propagate_unsupported(&uses, &intrinsic);
    proof {
        assert(intrinsic@ =~= intrinsic_flags(items@));
    }
    let mut out: Vec<ItemBinding> = Vec::new();
    i = 0;
    while i < n
        invariant
            n == items@.len(),
            i <= n,
            status@.len() == n,
            reasons@.len() == n,
            out@.len() == i,
            forall|k: int| 0 <= k < n ==> #[trigger] reasons@[k] == intrinsic_reason(items@, items@[k]),
            forall|k: int| 0 <= k < n ==> (#[trigger] status@[k] == Some(Cause::Intrinsic) <==> intrinsic_flags(items@)[k]),
            forall|k: int| 0 <= k < i ==> item_binding_ok(items@, ir.current_target@, k, status@[k], #[trigger] out@[k]),
        decreases n - i,
    {
        let item = &items[i];
        let b = if *owning_target_of(item) != ir.current_target {
            ItemBinding::OtherTarget
        } else {
            match status[i] {
                Some(Cause::Intrinsic) => {
                    assert(intrinsic_flags(items@)[i as int]);
                    match reasons[i] {
                        Some(e) => ItemBinding::Unsupported(e),
                        None => ItemBinding::Unsupported(UnsupportedReason::FrontEnd),
                    }
                },
                Some(Cause::Uses(j)) => ItemBinding::Unsupported(UnsupportedReason::DependsOn(j)),
                None => {
                    assert(!intrinsic_flags(items@)[i as int]);
                    match bind_item(items, item) {
                        Ok(b) => b,
                        Err(e) => ItemBinding::Unsupported(e),
                    }
                },
            }
        };
        out.push(b);
        i = i + 1;
    }
    let order = order_items(&graph);
    let mut containers: Vec<usize> = Vec::new();
    i = 0;
    while i < n
        invariant
            n == items@.len(),
            i <= n,
            containers@ == Seq::new(i as nat, |k: int| spec_container(items@, items@[k])),
        decreases n - i,
    {
        containers.push(container_of(items, &items[i]));
        i = i + 1;
        assert(containers@ =~= Seq::new(i as nat, |k: int| spec_container(items@, items@[k])));
    }
    proof {
        assert forall|p: int| 0 <= p < order.sequence@.len() implies item_of(#[trigger] order.sequence@[p]) < containers@.len() by {
            match order.sequence@[p] {
                Emission::Definition(x) => {},
                Emission::ForwardDecl(x) => {},
            }
        }
    }
    let chunks = split_into_chunks(&order.sequence, &containers);
    Bindings { items: out, graph, uses, status, order, containers, chunks }
}

/// Running the generator twice on the same IR gives the same output: the
/// same dependencies, support status, emission order, chunks and, item by
/// item, the same binding.
pub proof fn lemma_generation_is_deterministic(ir: IR, b1: Bindings, b2: Bindings)
    requires
        is_bindings_of(ir, b1),
        is_bindings_of(ir, b2),
    ensures
        view_of(b1.graph.by_value@) == view_of(b2.graph.by_value@),
        view_of(b1.graph.by_reference@) == view_of(b2.graph.by_reference@),
        view_of(b1.uses@) == view_of(b2.uses@),
        b1.status@ == b2.status@,
        b1.order.sequence@ == b2.order.sequence@,
        b1.order.definition_slot@ == b2.order.definition_slot@,
        b1.order.forward_slot@ == b2.order.forward_slot@,
        b1.containers@ == b2.containers@,
        chunk_views(b1.chunks@) == chunk_views(b2.chunks@),
        b1.items@.len() == b2.items@.len(),
        forall|i: int| 0 <= i < b1.items@.len() ==> same_binding(#[trigger] b1.items@[i], b2.items@[i]),
{
    let items = ir.items@;
    let n = items.len();
    assert(view_of(b1.graph.by_value@) =~= view_of(b2.graph.by_value@)) by {
        assert forall|i: int| 0 <= i < n implies b1.graph.by_value@[i]@ == b2.graph.by_value@[i]@ by {
            assert(b1.graph.by_value@[i]@ == resolve_ids(items, by_value_ids(items[i])));
            assert(b2.graph.by_value@[i]@ == resolve_ids(items, by_value_ids(items[i])));
        }
    }
    assert(view_of(b1.graph.by_reference@) =~= view_of(b2.graph.by_reference@)) by {
        assert forall|i: int| 0 <= i < n implies b1.graph.by_reference@[i]@ == b2.graph.by_reference@[i]@ by {
            assert(b1.graph.by_reference@[i]@ == resolve_ids(items, by_reference_ids(items[i])));
            assert(b2.graph.by_reference@[i]@ == resolve_ids(items, by_reference_ids(items[i])));
        }
    }
    assert forall|i: int| 0 <= i < n implies (#[trigger] b1.uses@[i])@ == b2.uses@[i]@ by {
        assert(b1.uses@[i]@ == b1.graph.by_value@[i]@ + b1.graph.by_reference@[i]@);
        assert(b2.uses@[i]@ == b2.graph.by_value@[i]@ + b2.graph.by_reference@[i]@);
        assert(view_of(b1.graph.by_value@)[i] == view_of(b2.graph.by_value@)[i]);
        assert(view_of(b1.graph.by_reference@)[i] == view_of(b2.graph.by_reference@)[i]);
    }
    assert(view_of(b1.uses@) =~= view_of(b2.uses@));
    lemma_support_status_unique(b1.uses@, b2.uses@, intrinsic_flags(items), b1.status@, b2.status@);
    assert forall|i: int| 0 <= i < b1.items@.len() implies same_binding(#[trigger] b1.items@[i], b2.items@[i]) by {
        assert(item_binding_ok(items, ir.current_target@, i, b1.status@[i], b1.items@[i]));
        assert(item_binding_ok(items, ir.current_target@, i, b2.status@[i], b2.items@[i]));
        if owning_target(items[i]) == ir.current_target@ && b1.status@[i] is None {
            lemma_binding_unique(items, items[i], b1.items@[i], b2.items@[i]);
        }
    }
}

/// An item that uses an unsupported item is itself unsupported; when it
/// belongs to the current target its binding gives a reason, and a
/// propagated reason names an unsupported item that it uses.
pub proof fn lemma_user_of_unsupported_item(ir: IR, b: Bindings, i: int, j: int)
    requires
        is_bindings_of(ir, b),
        0 <= i < ir.items@.len(),
        0 <= j < ir.items@.len(),
        b.uses@[i]@.contains(j as usize),
        b.status@[j] is Some,
    ensures
        b.status@[i] is Some,
        owning_target(ir.items@[i]) == ir.current_target@ ==> b.items@[i] is Unsupported,
        b.items@[i] matches ItemBinding::Unsupported(UnsupportedReason::DependsOn(k)) ==> {
            &&& b.status@[k as int] is Some
            &&& b.uses@[i]@.contains(k)
        },
{
    let items = ir.items@;
    crate::support::lemma_user_of_unsupported_is_unsupported(b.uses@, intrinsic_flags(items), b.status@, i, j);
    assert(item_binding_ok(items, ir.current_target@, i, b.status@[i], b.items@[i]));
    assert(crate::support::cause_justified(b.uses@, b.status@, i));
    if owning_target(items[i]) == ir.current_target@ {
        if b.status@[i] == Some(Cause::Intrinsic) {
            assert(intrinsic_flags(items)[i]);
        }
    }
}

} // verus!
