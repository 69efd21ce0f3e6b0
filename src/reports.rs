//! The record of every rejection: the item's scoped name, the reason and
//! where it was declared, in item order, for the current target's items.
use vstd::prelude::*;
use crate::binder::{ItemBinding, UnsupportedReason};
use crate::generator::{is_bindings_of, lookup, spec_find, Bindings};
use crate::support::{support_input_wf, Cause};
use crate::ir::{Func, Item, SourceLoc, UnqualifiedIdentifier, IR};

verus! {

#[derive(Debug)]
pub struct UnsupportedReport {
    pub item: usize,
    pub name: String,
    pub reason: UnsupportedReason,
    /// The front end's own message, for an item it could not import.
    pub message: String,
    /// The scoped name of the unsupported item that is cited, for an item
    /// unsupported through a use.
    pub cited: String,
    /// For an item unsupported through a use: every unsupported item it
    /// uses, in the order of its uses.
    pub blocked_by: Vec<usize>,
    pub filename: String,
    pub line: u64,
    pub column: u64,
}

pub open spec fn item_loc(item: Item) -> SourceLoc {
    match item {
        Item::Func(f) => f.source_loc,
        Item::Record(r) => r.source_loc,
        Item::Enum(e) => e.source_loc,
        Item::TypeAlias(a) => a.source_loc,
        Item::Namespace(n) => n.source_loc,
        Item::UnsupportedItem(u) => u.source_loc,
    }
}

/// `name` prefixed by the name of the namespace `ns`, when it names one.
pub open spec fn qualified(items: Seq<Item>, ns: Option<u64>, name: Seq<char>) -> Seq<char> {
    match ns {
        Some(id) => match spec_find(items, id) {
            Some(k) => match items[k] {
                Item::Namespace(n) => n.name@ + "::"@ + name,
                _ => name,
            },
            None => name,
        },
        None => name,
    }
}

/// The record a member function belongs to, by name (also when the front
/// end could not import that record).
pub open spec fn owner_name(items: Seq<Item>, f: Func) -> Option<Seq<char>> {
    match f.member_func_metadata {
        Some(m) => match spec_find(items, m.record_id) {
            Some(k) => match items[k] {
                Item::Record(r) => Some(r.identifier@),
                Item::UnsupportedItem(u) => Some(u.name@),
                _ => None,
            },
            None => None,
        },
        None => None,
    }
}

/// A function's own name: its identifier, `Rec` for a constructor of
/// `Rec`, `~Rec` for its destructor, `operator` followed by the operator.
pub open spec fn func_base_name(items: Seq<Item>, f: Func) -> Seq<char> {
    let owner = match owner_name(items, f) {
        Some(o) => o,
        None => Seq::empty(),
    };
    match f.name {
        UnqualifiedIdentifier::Identifier(s) => s@,
        UnqualifiedIdentifier::Constructor => owner,
        UnqualifiedIdentifier::Destructor => "~"@ + owner,
        UnqualifiedIdentifier::Operator(op) => "operator"@ + op@,
    }
}

/// The scoped name of an item: a member is named through its record,
/// anything else through its namespace.
pub open spec fn scoped_name(items: Seq<Item>, item: Item) -> Seq<char> {
    match item {
        Item::Func(f) => match owner_name(items, f) {
            Some(o) => o + "::"@ + func_base_name(items, f),
            None => qualified(items, f.enclosing_namespace_id, func_base_name(items, f)),
        },
        Item::Record(r) => qualified(items, r.enclosing_namespace_id, r.identifier@),
        Item::Enum(e) => qualified(items, e.enclosing_namespace_id, e.identifier@),
        Item::TypeAlias(a) => qualified(items, a.enclosing_namespace_id, a.identifier@),
        Item::Namespace(n) => qualified(items, n.enclosing_namespace_id, n.name@),
        Item::UnsupportedItem(u) => u.name@,
    }
}

/// The unsupported items among `bs`, with their reasons, in order.
pub open spec fn rejected(bs: Seq<ItemBinding>) -> Seq<(usize, UnsupportedReason)>
    decreases bs.len(),
{
    if bs.len() == 0 {
        Seq::empty()
    } else {
        let prev = rejected(bs.drop_last());
        match bs.last() {
            ItemBinding::Unsupported(e) => prev.push(((bs.len() - 1) as usize, e)),
            _ => prev,
        }
    }
}

fn copy_string(s: &String) -> (r: String)
    ensures
        r@ == s@,
{
    s.clone()
}

fn join(a: &String, sep: &str, b: &String) -> (r: String)
    ensures
        r@ == a@ + sep@ + b@,
{
    let mut r = a.clone();
    r.append(sep);
    r.append(b.as_str());
    r
}

fn namespace_qualified(items: &Vec<Item>, ns: Option<u64>, name: String) -> (r: String)
    ensures
        r@ == qualified(items@, ns, name@),
{
    match ns {
        Some(id) => match lookup(items, id) {
            Some(k) => match &items[k] {
                Item::Namespace(n) => join(&n.name, "::", &name),
                _ => name,
            },
            None => name,
        },
        None => name,
    }
}

fn owner_of(items: &Vec<Item>, f: &Func) -> (r: Option<String>)
    ensures
        match r {
            Some(s) => owner_name(items@, *f) == Some(s@),
            None => owner_name(items@, *f) is None,
        },
{
    match &f.member_func_metadata {
        Some(m) => match lookup(items, m.record_id) {
            Some(k) => match &items[k] {
                Item::Record(r) => Some(copy_string(&r.identifier)),
                Item::UnsupportedItem(u) => Some(copy_string(&u.name)),
                _ => None,
            },
            None => None,
        },
        None => None,
    }
}

fn func_name(items: &Vec<Item>, f: &Func) -> (r: String)
    ensures
        r@ == func_base_name(items@, *f),
{
    let owner = match owner_of(items, f) {
        Some(o) => o,
        None => String::new(),
    };
    match &f.name {
        UnqualifiedIdentifier::Identifier(s) => copy_string(s),
        UnqualifiedIdentifier::Constructor => owner,
        UnqualifiedIdentifier::Destructor => {
            let mut r = "~".to_owned();
            r.append(owner.as_str());
            r
        },
        UnqualifiedIdentifier::Operator(op) => {
            let mut r = "operator".to_owned();
            r.append(op.as_str());
            r
        },
    }
}

pub fn item_name(items: &Vec<Item>, item: &Item) -> (r: String)
    ensures
        r@ == scoped_name(items@, *item),
{
    match item {
        Item::Func(f) => match owner_of(items, f) {
            Some(o) => join(&o, "::", &func_name(items, f)),
            None => namespace_qualified(items, f.enclosing_namespace_id, func_name(items, f)),
        },
        Item::Record(r) => namespace_qualified(items, r.enclosing_namespace_id, copy_string(&r.identifier)),
        Item::Enum(e) => namespace_qualified(items, e.enclosing_namespace_id, copy_string(&e.identifier)),
        Item::TypeAlias(a) => namespace_qualified(items, a.enclosing_namespace_id, copy_string(&a.identifier)),
        Item::Namespace(n) => namespace_qualified(items, n.enclosing_namespace_id, copy_string(&n.name)),
        Item::UnsupportedItem(u) => copy_string(&u.name),
    }
}

fn message_of(item: &Item) -> (r: String)
    ensures
        r@ == front_end_message(*item),
{
    match item {
        Item::UnsupportedItem(u) => copy_string(&u.message),
        _ => String::new(),
    }
}

fn cited_of(items: &Vec<Item>, reason: UnsupportedReason) -> (r: String)
    ensures
        r@ == cited_name(items@, reason),
{
    match reason {
        UnsupportedReason::DependsOn(j) => if j < items.len() {
            item_name(items, &items[j])
        } else {
            String::new()
        },
        _ => String::new(),
    }
}

fn blocking_items(ds: &Vec<usize>, status: &Vec<Option<Cause>>) -> (r: Vec<usize>)
    requires
        forall|k: int| 0 <= k < ds@.len() ==> #[trigger] ds@[k] < status@.len(),
    ensures
        r@ == unsupported_among(ds@, status@),
{
    let mut out: Vec<usize> = Vec::new();
    let mut k: usize = 0;
    while k < ds.len()
        invariant
            k <= ds@.len(),
            forall|x: int| 0 <= x < ds@.len() ==> #[trigger] ds@[x] < status@.len(),
            out@ == unsupported_among(ds@.subrange(0, k as int), status@),
        decreases ds.len() - k,
    {
        let ghost next = ds@.subrange(0, k + 1);
        assert(next.drop_last() =~= ds@.subrange(0, k as int));
        assert(next.last() == ds@[k as int]);
        if status[ds[k]].is_some() {
            out.push(ds[k]);
        }
        k = k + 1;
    }
    assert(ds@.subrange(0, ds@.len() as int) =~= ds@);
    out
}

fn loc_of(item: &Item) -> (l: &SourceLoc)
    ensures
        *l == item_loc(*item),
{
    match item {
        Item::Func(f) => &f.source_loc,
        Item::Record(r) => &r.source_loc,
        Item::Enum(e) => &e.source_loc,
        Item::TypeAlias(a) => &a.source_loc,
        Item::Namespace(n) => &n.source_loc,
        Item::UnsupportedItem(u) => &u.source_loc,
    }
}

/// The message the front end gave, for an item it could not import.
pub open spec fn front_end_message(item: Item) -> Seq<char> {
    match item {
        Item::UnsupportedItem(u) => u.message@,
        _ => Seq::empty(),
    }
}

/// The scoped name of the item a propagated reason cites.
pub open spec fn cited_name(items: Seq<Item>, reason: UnsupportedReason) -> Seq<char> {
    match reason {
        UnsupportedReason::DependsOn(j) => if j < items.len() {
            scoped_name(items, items[j as int])
        } else {
            Seq::empty()
        },
        _ => Seq::empty(),
    }
}

/// The items of `ds` that `status` marks unsupported, in order.
pub open spec fn unsupported_among(ds: Seq<usize>, status: Seq<Option<Cause>>) -> Seq<usize>
    decreases ds.len(),
{
    if ds.len() == 0 {
        Seq::empty()
    } else {
        let prev = unsupported_among(ds.drop_last(), status);
        if status[ds.last() as int] is Some {
            prev.push(ds.last())
        } else {
            prev
        }
    }
}

pub proof fn lemma_unsupported_among_contains(ds: Seq<usize>, status: Seq<Option<Cause>>, j: usize)
    requires
        ds.contains(j),
        status[j as int] is Some,
    ensures
        unsupported_among(ds, status).contains(j),
    decreases ds.len(),
{
    let k = choose|k: int| 0 <= k < ds.len() && ds[k] == j;
    if k == ds.len() - 1 {
        assert(unsupported_among(ds, status).last() == j);
    } else {
        assert(ds.drop_last()[k] == j);
        lemma_unsupported_among_contains(ds.drop_last(), status, j);
        let prev = unsupported_among(ds.drop_last(), status);
        let i = choose|i: int| 0 <= i < prev.len() && prev[i] == j;
        if status[ds.last() as int] is Some {
            assert(prev.push(ds.last())[i] == j);
        }
    }
}

/// The blocking items recorded for a rejected item.
pub open spec fn spec_blocked_by(b: Bindings, entry: (usize, UnsupportedReason)) -> Seq<usize> {
    match entry.1 {
        UnsupportedReason::DependsOn(_) => unsupported_among(b.uses@[entry.0 as int]@, b.status@),
        _ => Seq::empty(),
    }
}

pub open spec fn report_matches(items: Seq<Item>, entry: (usize, UnsupportedReason), r: UnsupportedReport) -> bool {
    let loc = item_loc(items[entry.0 as int]);
    &&& r.item == entry.0
    &&& r.reason == entry.1
    &&& r.name@ == scoped_name(items, items[entry.0 as int])
    &&& r.message@ == front_end_message(items[entry.0 as int])
    &&& r.cited@ == cited_name(items, entry.1)
    &&& r.filename@ == loc.filename@
    &&& r.line == loc.line
    &&& r.column == loc.column
}

/// One report per unsupported item of the current target, in item order.
pub fn unsupported_reports(ir: &IR, b: &Bindings) -> (r: Vec<UnsupportedReport>)
    requires
        is_bindings_of(*ir, *b),
    ensures
        r@.len() == rejected(b.items@).len(),
        forall|k: int| 0 <= k < r@.len() ==> report_matches(ir.items@, rejected(b.items@)[k], #[trigger] r@[k]),
        forall|k: int| 0 <= k < r@.len() ==> (#[trigger] r@[k]).blocked_by@ == spec_blocked_by(*b, rejected(b.items@)[k]),
{
    let bindings = &b.items;
    let mut out: Vec<UnsupportedReport> = Vec::new();
    let mut i: usize = 0;
    while i < bindings.len()
        invariant
            is_bindings_of(*ir, *b),
            bindings == &b.items,
            bindings@.len() == ir.items@.len(),
            i <= bindings@.len(),
            out@.len() == rejected(bindings@.subrange(0, i as int)).len(),
            forall|k: int| 0 <= k < out@.len() ==> report_matches(ir.items@, rejected(bindings@.subrange(0, i as int))[k], #[trigger] out@[k]),
            forall|k: int| 0 <= k < out@.len() ==> (#[trigger] out@[k]).blocked_by@ == spec_blocked_by(*b, rejected(bindings@.subrange(0, i as int))[k]),
        decreases bindings.len() - i,
    {
        let ghost prev = bindings@.subrange(0, i as int);
        let ghost next = bindings@.subrange(0, i + 1);
        assert(next.drop_last() =~= prev);
        assert(next.last() == bindings@[i as int]);
        if let ItemBinding::Unsupported(e) = &bindings[i] {
            let item = &ir.items[i];
            let loc = loc_of(item);
            let blocked_by = match e {
                UnsupportedReason::DependsOn(_) => {
                    proof {
                        assert(support_input_wf(b.uses@, crate::generator::intrinsic_flags(ir.items@)));
                        assert forall|x: int| 0 <= x < b.uses@[i as int]@.len() implies #[trigger] b.uses@[i as int]@[x] < b.status@.len() by {}
                    }
                    blocking_items(&b.uses[i], &b.status)
                },
                _ => Vec::new(),
            };
            let report = UnsupportedReport {
                item: i,
                name: item_name(&ir.items, item),
                reason: *e,
                message: message_of(item),
                cited: cited_of(&ir.items, *e),
                blocked_by,
                filename: copy_string(&loc.filename),
                line: loc.line,
                column: loc.column,
            };
            out.push(report);
        }
        i = i + 1;
    }
    assert(bindings@.subrange(0, bindings@.len() as int) =~= bindings@);
    out
}

/// A rejected item that uses an unsupported item `j` and is rejected
/// through a use records `j` among the items that block it.
pub proof fn lemma_report_cites_every_unsupported_use(b: Bindings, i: int, j: usize)
    requires
        0 <= i < b.uses@.len(),
        b.uses@[i]@.contains(j),
        b.status@[j as int] is Some,
        b.items@[i] matches ItemBinding::Unsupported(UnsupportedReason::DependsOn(_)),
    ensures
        unsupported_among(b.uses@[i]@, b.status@).contains(j),
{
    lemma_unsupported_among_contains(b.uses@[i]@, b.status@, j);
}

} // verus!
