//! Checks one item on its own and, when it can be bound, builds its binding.
use vstd::prelude::*;
use crate::generator::{field_types, lookup, spec_find};
use crate::ir::{AccessSpecifier, CcType, Field, Func, FuncParam, Item, Record, UnqualifiedIdentifier};
use crate::layout::{
    abi_class_as_declared, check_folding_preserves_abi, folding_preserves_abi, layout_assertions,
    record_fits, spec_layout_assertions, true_abi_class, AbiClass, LayoutAssertion,
};
use crate::lifetimes::{
    elide_lifetimes, elision_failure, param_lifetime, param_types, return_lifetime, ElidedLifetimes,
    ElisionError,
};
use crate::special_members::{
    constructor_trait, record_capabilities, spec_capabilities, spec_constructor_trait,
    ConstructorTrait, RecordCapabilities,
};
use crate::thunks::{is_thunk_plan_of, plan_thunk, ThunkInput, ThunkPlan};
use crate::type_mapper::{map_type, mapped_type, RsType, TypeError};

verus! {

/// Why an item is not bound.
#[derive(Clone, Copy, Debug, PartialEq, Eq, Structural)]
pub enum UnsupportedReason {
    /// The front end could not import the declaration; its message says why.
    FrontEnd,
    Type(TypeError),
    Elision(ElisionError),
    /// A declaration id that names no item.
    UnknownDecl(u64),
    /// The parameter at this index has an empty name.
    UnnamedParameter(usize),
    /// Folding the non-public fields into opaque storage would change how
    /// values of the record are passed, or could not be checked (a
    /// non-public field that is not a scalar).
    OpaqueStorageChangesAbi,
    /// The item uses the item at this index, which is unsupported.
    DependsOn(usize),
}

#[derive(Debug)]
pub struct RecordBinding {
    pub capabilities: RecordCapabilities,
    pub layout: Vec<LayoutAssertion>,
    pub field_types: Vec<RsType>,
    /// Non-public fields are emitted as opaque storage.
    pub has_opaque_fields: bool,
    /// How values of the record are passed, when every field is a scalar.
    pub abi_class: Option<AbiClass>,
}

#[derive(Debug)]
pub struct FuncBinding {
    pub lifetimes: ElidedLifetimes,
    pub param_types: Vec<RsType>,
    pub return_type: RsType,
    pub thunk_input: ThunkInput,
    pub thunk: ThunkPlan,
    pub constructor_trait: Option<ConstructorTrait>,
}

#[derive(Debug)]
pub enum ItemBinding {
    Record(RecordBinding),
    Func(FuncBinding),
    Enum(RsType),
    TypeAlias(RsType),
    Namespace,
    Unsupported(UnsupportedReason),
    /// Belongs to another target: its bindings are generated there.
    OtherTarget,
}

pub open spec fn has_receiver(f: Func) -> bool {
    match f.member_func_metadata {
        Some(m) => m.instance_method_metadata is Some,
        None => false,
    }
}

pub open spec fn is_explicit_ctor(f: Func) -> bool {
    match f.member_func_metadata {
        Some(m) => match m.instance_method_metadata {
            Some(im) => im.is_explicit_ctor,
            None => false,
        },
        None => false,
    }
}

pub open spec fn is_virtual(f: Func) -> bool {
    match f.member_func_metadata {
        Some(m) => match m.instance_method_metadata {
            Some(im) => im.is_virtual,
            None => false,
        },
        None => false,
    }
}

/// The lifetime each parameter's top-level reference gets.
pub open spec fn func_param_lifetimes(f: Func) -> Seq<Option<u64>> {
    let ts = param_types(f.params@);
    if f.has_lifetime_elision {
        Seq::new(ts.len(), |i: int| param_lifetime(ts, i))
    } else {
        Seq::new(ts.len(), |i: int| None::<u64>)
    }
}

pub open spec fn func_return_lifetime(f: Func) -> Option<u64> {
    if f.has_lifetime_elision {
        return_lifetime(param_types(f.params@), f.return_type, has_receiver(f))
    } else {
        None
    }
}

/// The first type error among `ts[k..]`, each mapped with its lifetime.
pub open spec fn first_type_error(ts: Seq<CcType>, lts: Seq<Option<u64>>, k: int) -> Option<TypeError>
    decreases ts.len() - k,
{
    if k < 0 || k >= ts.len() {
        None
    } else {
        match mapped_type(ts[k], lts[k]) {
            Err(e) => Some(e),
            Ok(_) => first_type_error(ts, lts, k + 1),
        }
    }
}

/// The first parameter in `params[k..]` whose name is empty.
pub open spec fn first_unnamed(params: Seq<FuncParam>, k: int) -> Option<usize>
    decreases params.len() - k,
{
    if k < 0 || k >= params.len() {
        None
    } else if params[k].identifier@.len() == 0 {
        Some(k as usize)
    } else {
        first_unnamed(params, k + 1)
    }
}

/// Why a function cannot be bound on its own: an unnamed parameter, then a
/// failed elision, then a parameter or return type without counterpart.
pub open spec fn func_error(f: Func) -> Option<UnsupportedReason> {
    let ts = param_types(f.params@);
    if let Some(k) = first_unnamed(f.params@, 0) {
        Some(UnsupportedReason::UnnamedParameter(k))
    } else {
        match elision_failure(
            ts,
            f.return_type,
            has_receiver(f),
            f.name is Constructor,
            f.has_lifetime_elision,
        ) {
            Some(e) => Some(UnsupportedReason::Elision(e)),
            None => match first_type_error(ts, func_param_lifetimes(f), 0) {
                Some(e) => Some(UnsupportedReason::Type(e)),
                None => match mapped_type(f.return_type, func_return_lifetime(f)) {
                    Err(e) => Some(UnsupportedReason::Type(e)),
                    Ok(_) => None,
                },
            },
        }
    }
}

pub open spec fn has_hidden_field(r: Record) -> bool {
    exists|k: int| 0 <= k < r.fields@.len() && (#[trigger] r.fields@[k]).access != AccessSpecifier::Public
}

pub open spec fn no_lifetimes(n: nat) -> Seq<Option<u64>> {
    Seq::new(n, |i: int| None::<u64>)
}

pub open spec fn record_error(r: Record) -> Option<UnsupportedReason> {
    let ts = field_types(r.fields@);
    match first_type_error(ts, no_lifetimes(ts.len()), 0) {
        Some(e) => Some(UnsupportedReason::Type(e)),
        None => if has_hidden_field(r) && !(record_fits(r) && folding_preserves_abi(r)) {
            Some(UnsupportedReason::OpaqueStorageChangesAbi)
        } else {
            None
        },
    }
}

/// Why an item cannot be bound, judged on the item alone.
pub open spec fn own_error(item: Item) -> Option<UnsupportedReason> {
    match item {
        Item::Func(f) => func_error(f),
        Item::Record(r) => record_error(r),
        Item::Enum(e) => match mapped_type(e.underlying_type, None) {
            Err(x) => Some(UnsupportedReason::Type(x)),
            Ok(_) => None,
        },
        Item::TypeAlias(a) => match mapped_type(a.underlying_type, None) {
            Err(x) => Some(UnsupportedReason::Type(x)),
            Ok(_) => None,
        },
        Item::Namespace(_) => None,
        Item::UnsupportedItem(_) => Some(UnsupportedReason::FrontEnd),
    }
}

/// A field of type `t` is itself trivial for calls: anything but a record
/// that the front end found otherwise.
pub open spec fn field_type_trivial_abi(items: Seq<Item>, t: CcType) -> bool {
    match t {
        CcType::Decl(id) => match spec_find(items, id) {
            Some(i) => match items[i] {
                Item::Record(r) => r.is_trivial_abi,
                _ => true,
            },
            None => true,
        },
        _ => true,
    }
}

pub open spec fn fields_trivial_abi(items: Seq<Item>, r: Record) -> bool {
    forall|k: int| 0 <= k < r.fields@.len() ==> field_type_trivial_abi(items, #[trigger] r.fields@[k].type_)
}

/// The capabilities of `r`, its fields looked up in `items`.
pub open spec fn record_caps(items: Seq<Item>, r: Record) -> RecordCapabilities {
    spec_capabilities(r, fields_trivial_abi(items, r))
}

/// Whether a value of type `t` can be passed by value as it stands: all
/// but records that are not moved freely.
pub open spec fn spec_movable(items: Seq<Item>, t: CcType) -> bool {
    match t {
        CcType::Decl(id) => match spec_find(items, id) {
            Some(i) => match items[i] {
                Item::Record(r) => record_caps(items, r).is_unpin,
                _ => true,
            },
            None => true,
        },
        _ => true,
    }
}

/// The trait a constructor becomes, when its record is found.
pub open spec fn spec_func_constructor_trait(items: Seq<Item>, f: Func) -> Option<ConstructorTrait> {
    if f.name is Constructor && f.params@.len() >= 1 {
        match f.member_func_metadata {
            Some(m) => match spec_find(items, m.record_id) {
                Some(i) => match items[i] {
                    Item::Record(r) => Some(
                        spec_constructor_trait(
                            r,
                            record_caps(items, r),
                            param_types(f.params@).drop_first(),
                            is_explicit_ctor(f),
                        ),
                    ),
                    _ => None,
                },
                None => None,
            },
            None => None,
        }
    } else {
        None
    }
}

pub open spec fn func_binding_matches(items: Seq<Item>, f: Func, b: FuncBinding) -> bool {
    let ts = param_types(f.params@);
    let lts = func_param_lifetimes(f);
    &&& b.lifetimes.param_lifetimes@ == lts
    &&& b.lifetimes.return_lifetime == func_return_lifetime(f)
    &&& b.lifetimes.lifetime_params@ == (if f.has_lifetime_elision {
        Seq::new(crate::lifetimes::refs_before(ts, ts.len() as int), |k: int| k as u64)
    } else {
        Seq::empty()
    })
    &&& b.param_types@.len() == ts.len()
    &&& forall|i: int| 0 <= i < ts.len() ==> Ok::<RsType, TypeError>(#[trigger] b.param_types@[i]) == mapped_type(ts[i], lts[i])
    &&& Ok::<RsType, TypeError>(b.return_type) == mapped_type(f.return_type, func_return_lifetime(f))
    &&& b.thunk_input.mangled_name@ == f.mangled_name@
    &&& b.thunk_input.is_inline == f.is_inline
    &&& b.thunk_input.is_virtual == is_virtual(f)
    &&& b.thunk_input.is_constructor == f.name is Constructor
    &&& b.thunk_input.is_destructor == f.name is Destructor
    &&& b.thunk_input.returns_void == f.return_type is Void
    &&& b.thunk_input.param_movable@ == Seq::new(ts.len(), |i: int| spec_movable(items, ts[i]))
    &&& b.thunk_input.return_movable == spec_movable(items, f.return_type)
    &&& is_thunk_plan_of(b.thunk_input, b.thunk)
    &&& b.constructor_trait == spec_func_constructor_trait(items, f)
}

pub open spec fn record_binding_matches(items: Seq<Item>, r: Record, b: RecordBinding) -> bool {
    let ts = field_types(r.fields@);
    &&& b.capabilities == record_caps(items, r)
    &&& b.layout@ == spec_layout_assertions(r)
    &&& b.field_types@.len() == ts.len()
    &&& forall|i: int| 0 <= i < ts.len() ==> Ok::<RsType, TypeError>(#[trigger] b.field_types@[i]) == mapped_type(ts[i], None)
    &&& b.has_opaque_fields == has_hidden_field(r)
    &&& b.abi_class == spec_record_abi_class(r)
}

pub open spec fn spec_record_abi_class(r: Record) -> Option<AbiClass> {
    if record_fits(r) {
        true_abi_class(r)
    } else {
        None
    }
}

/// The binding of an item that is supported.
pub open spec fn binding_matches(items: Seq<Item>, item: Item, b: ItemBinding) -> bool {
    match item {
        Item::Func(f) => b matches ItemBinding::Func(fb) && func_binding_matches(items, f, fb),
        Item::Record(r) => b matches ItemBinding::Record(rb) && record_binding_matches(items, r, rb),
        Item::Enum(e) => b matches ItemBinding::Enum(t) && Ok::<RsType, TypeError>(t) == mapped_type(e.underlying_type, None),
        Item::TypeAlias(a) => b matches ItemBinding::TypeAlias(t) && Ok::<RsType, TypeError>(t) == mapped_type(a.underlying_type, None),
        Item::Namespace(_) => b is Namespace,
        Item::UnsupportedItem(_) => false,
    }
}

/// Maps `types[k]` with `lifetimes[k]`, for each `k`, stopping at the first
/// error.
fn map_types_of_params(params: &Vec<FuncParam>, lifetimes: &Vec<Option<u64>>) -> (r: Result<Vec<RsType>, TypeError>)
    requires
        lifetimes@.len() == params@.len(),
    ensures
        ({
            let ts = param_types(params@);
            match r {
                Err(e) => first_type_error(ts, lifetimes@, 0) == Some(e),
                Ok(v) => {
                    &&& first_type_error(ts, lifetimes@, 0) is None
                    &&& v@.len() == ts.len()
                    &&& forall|i: int| 0 <= i < ts.len() ==> Ok::<RsType, TypeError>(#[trigger] v@[i]) == mapped_type(ts[i], lifetimes@[i])
                }
            }
        }),
{
    let ghost ts = param_types(params@);
    let mut out: Vec<RsType> = Vec::new();
    let mut k: usize = 0;
    while k < params.len()
        invariant
            ts == param_types(params@),
            lifetimes@.len() == params@.len(),
            k <= params@.len(),
            first_type_error(ts, lifetimes@, 0) == first_type_error(ts, lifetimes@, k as int),
            out@.len() == k,
            forall|i: int| 0 <= i < k ==> Ok::<RsType, TypeError>(#[trigger] out@[i]) == mapped_type(ts[i], lifetimes@[i]),
        decreases params.len() - k,
    {
        assert(ts[k as int] == params@[k as int].type_);
        match map_type(&params[k].type_, lifetimes[k]) {
            Ok(t) => {
                out.push(t);
            },
            Err(e) => {
                return Err(e);
            },
        }
        k = k + 1;
    }
    Ok(out)
}

fn map_types_of_fields(fields: &Vec<Field>) -> (r: Result<Vec<RsType>, TypeError>)
    ensures
        ({
            let ts = field_types(fields@);
            match r {
                Err(e) => first_type_error(ts, no_lifetimes(ts.len()), 0) == Some(e),
                Ok(v) => {
                    &&& first_type_error(ts, no_lifetimes(ts.len()), 0) is None
                    &&& v@.len() == ts.len()
                    &&& forall|i: int| 0 <= i < ts.len() ==> Ok::<RsType, TypeError>(#[trigger] v@[i]) == mapped_type(ts[i], None)
                }
            }
        }),
{
    let ghost ts = field_types(fields@);
    let ghost lts = no_lifetimes(ts.len());
    let mut out: Vec<RsType> = Vec::new();
    let mut k: usize = 0;
    while k < fields.len()
        invariant
            ts == field_types(fields@),
            lts == no_lifetimes(ts.len()),
            k <= fields@.len(),
            first_type_error(ts, lts, 0) == first_type_error(ts, lts, k as int),
            out@.len() == k,
            forall|i: int| 0 <= i < k ==> Ok::<RsType, TypeError>(#[trigger] out@[i]) == mapped_type(ts[i], None),
        decreases fields.len() - k,
    {
        assert(ts[k as int] == fields@[k as int].type_);
        assert(lts[k as int] is None);
        match map_type(&fields[k].type_, None) {
            Ok(t) => {
                out.push(t);
            },
            Err(e) => {
                return Err(e);
            },
        }
        k = k + 1;
    }
    Ok(out)
}

fn field_trivial_abi(items: &Vec<Item>, t: &CcType) -> (b: bool)
    ensures
        b == field_type_trivial_abi(items@, *t),
{
    match t {
        CcType::Decl(id) => match lookup(items, *id) {
            Some(i) => match &items[i] {
                Item::Record(r) => r.is_trivial_abi,
                _ => true,
            },
            None => true,
        },
        _ => true,
    }
}

/// The capabilities of `r`, its fields looked up in `items`.
pub fn capabilities_in(items: &Vec<Item>, r: &Record) -> (c: RecordCapabilities)
    ensures
        c == record_caps(items@, *r),
{
    let mut all = true;
    let mut k: usize = 0;
    while k < r.fields.len()
        invariant
            k <= r.fields@.len(),
            all <==> forall|x: int| 0 <= x < k ==> field_type_trivial_abi(items@, #[trigger] r.fields@[x].type_),
        decreases r.fields.len() - k,
    {
        if !field_trivial_abi(items, &r.fields[k].type_) {
            all = false;
        }
        k = k + 1;
    }
    record_capabilities(r, all)
}

fn movable(items: &Vec<Item>, t: &CcType) -> (b: bool)
    ensures
        b == spec_movable(items@, *t),
{
    match t {
        CcType::Decl(id) => match lookup(items, *id) {
            Some(i) => match &items[i] {
                Item::Record(r) => capabilities_in(items, r).is_unpin,
                _ => true,
            },
            None => true,
        },
        _ => true,
    }
}

fn thunk_input_of(items: &Vec<Item>, f: &Func) -> (t: ThunkInput)
    ensures
        t.mangled_name@ == f.mangled_name@,
        t.is_inline == f.is_inline,
        t.is_virtual == is_virtual(*f),
        t.is_constructor == f.name is Constructor,
        t.is_destructor == f.name is Destructor,
        t.returns_void == f.return_type is Void,
        t.param_movable@ == Seq::new(f.params@.len(), |i: int| spec_movable(items@, param_types(f.params@)[i])),
        t.return_movable == spec_movable(items@, f.return_type),
{
    let mut param_movable: Vec<bool> = Vec::new();
    let mut k: usize = 0;
    while k < f.params.len()
        invariant
            k <= f.params@.len(),
            param_movable@ == Seq::new(k as nat, |i: int| spec_movable(items@, param_types(f.params@)[i])),
        decreases f.params.len() - k,
    {
        param_movable.push(movable(items, &f.params[k].type_));
        k = k + 1;
        assert(param_movable@ =~= Seq::new(k as nat, |i: int| spec_movable(items@, param_types(f.params@)[i])));
    }
    let virt = match &f.member_func_metadata {
        Some(m) => match &m.instance_method_metadata {
            Some(im) => im.is_virtual,
            None => false,
        },
        None => false,
    };
    let is_ctor = match &f.name {
        UnqualifiedIdentifier::Constructor => true,
        _ => false,
    };
    let is_dtor = match &f.name {
        UnqualifiedIdentifier::Destructor => true,
        _ => false,
    };
    let returns_void = match &f.return_type {
        CcType::Void => true,
        _ => false,
    };
    ThunkInput {
        mangled_name: f.mangled_name.clone(),
        is_inline: f.is_inline,
        is_virtual: virt,
        is_constructor: is_ctor,
        is_destructor: is_dtor,
        returns_void,
        param_movable,
        return_movable: movable(items, &f.return_type),
    }
}

fn func_constructor_trait(items: &Vec<Item>, f: &Func) -> (c: Option<ConstructorTrait>)
    ensures
        c == spec_func_constructor_trait(items@, *f),
{
    let is_ctor = match &f.name {
        UnqualifiedIdentifier::Constructor => true,
        _ => false,
    };
    if !is_ctor || f.params.len() < 1 {
        return None;
    }
    let explicit = match &f.member_func_metadata {
        Some(m) => match &m.instance_method_metadata {
            Some(im) => im.is_explicit_ctor,
            None => false,
        },
        None => false,
    };
    match &f.member_func_metadata {
        Some(m) => match lookup(items, m.record_id) {
            Some(i) => match &items[i] {
                Item::Record(r) => Some(constructor_trait(r, capabilities_in(items, r), &f.params, explicit)),
                _ => None,
            },
            None => None,
        },
        None => None,
    }
}

fn find_unnamed(params: &Vec<FuncParam>) -> (r: Option<usize>)
    ensures
        r == first_unnamed(params@, 0),
{
    let mut k: usize = 0;
    while k < params.len()
        invariant
            k <= params@.len(),
            first_unnamed(params@, 0) == first_unnamed(params@, k as int),
        decreases params.len() - k,
    {
        if params[k].identifier.as_str().is_empty() {
            return Some(k);
        }
        k = k + 1;
    }
    None
}

/// Binds a function, or says why it cannot be bound on its own.
pub fn bind_func(items: &Vec<Item>, f: &Func) -> (r: Result<FuncBinding, UnsupportedReason>)
    ensures
        match r {
            Err(e) => func_error(*f) == Some(e),
            Ok(b) => func_error(*f) is None && func_binding_matches(items@, *f, b),
        },
{
    if let Some(k) = find_unnamed(&f.params) {
        return Err(UnsupportedReason::UnnamedParameter(k));
    }
    let receiver = match &f.member_func_metadata {
        Some(m) => m.instance_method_metadata.is_some(),
        None => false,
    };
    let is_ctor = match &f.name {
        UnqualifiedIdentifier::Constructor => true,
        _ => false,
    };
    let lifetimes = match elide_lifetimes(&f.params, &f.return_type, receiver, is_ctor, f.has_lifetime_elision) {
        Ok(l) => l,
        Err(e) => {
            return Err(UnsupportedReason::Elision(e));
        },
    };
    assert(lifetimes.param_lifetimes@ =~= func_param_lifetimes(*f));
    assert(!f.has_lifetime_elision ==> lifetimes.lifetime_params@ =~= Seq::<u64>::empty());
    let mapped_params = match map_types_of_params(&f.params, &lifetimes.param_lifetimes) {
        Ok(v) => v,
        Err(e) => {
            return Err(UnsupportedReason::Type(e));
        },
    };
    let return_type = match map_type(&f.return_type, lifetimes.return_lifetime) {
        Ok(t) => t,
        Err(e) => {
            return Err(UnsupportedReason::Type(e));
        },
    };
    let thunk_input = thunk_input_of(items, f);
    let thunk = plan_thunk(&thunk_input);
    let constructor_trait = func_constructor_trait(items, f);
    proof {
        assert(thunk_input.param_movable@ =~= Seq::new(
            param_types(f.params@).len(),
            |i: int| spec_movable(items@, param_types(f.params@)[i]),
        ));
    }
    Ok(FuncBinding { lifetimes, param_types: mapped_params, return_type, thunk_input, thunk, constructor_trait })
}

fn fields_fit(r: &Record) -> (b: bool)
    ensures
        b == record_fits(*r),
{
    let mut k: usize = 0;
    while k < r.fields.len()
        invariant
            k <= r.fields@.len(),
            forall|i: int| 0 <= i < k ==> crate::layout::field_fits(#[trigger] r.fields@[i]),
        decreases r.fields.len() - k,
    {
        let f = &r.fields[k];
        if f.offset > u64::MAX - 8 || f.size > u64::MAX - f.offset {
            return false;
        }
        k = k + 1;
    }
    true
}

fn hidden_field(r: &Record) -> (b: bool)
    ensures
        b == has_hidden_field(*r),
{
    let mut k: usize = 0;
    while k < r.fields.len()
        invariant
            k <= r.fields@.len(),
            forall|i: int| 0 <= i < k ==> (#[trigger] r.fields@[i]).access == AccessSpecifier::Public,
        decreases r.fields.len() - k,
    {
        match r.fields[k].access {
            AccessSpecifier::Public => {},
            _ => {
                return true;
            },
        }
        k = k + 1;
    }
    false
}

/// Binds a record, or says why it cannot be bound on its own.
pub fn bind_record(items: &Vec<Item>, r: &Record) -> (res: Result<RecordBinding, UnsupportedReason>)
    ensures
        match res {
            Err(e) => record_error(*r) == Some(e),
            Ok(b) => record_error(*r) is None && record_binding_matches(items@, *r, b),
        },
{
    let field_types = match map_types_of_fields(&r.fields) {
        Ok(v) => v,
        Err(e) => {
            return Err(UnsupportedReason::Type(e));
        },
    };
    let hidden = hidden_field(r);
    if hidden {
        if !fields_fit(r) || !check_folding_preserves_abi(r) {
            return Err(UnsupportedReason::OpaqueStorageChangesAbi);
        }
    }
    let abi_class = if fields_fit(r) {
        abi_class_as_declared(r)
    } else {
        None
    };
    Ok(RecordBinding {
        capabilities: capabilities_in(items, r),
        layout: layout_assertions(r),
        field_types,
        has_opaque_fields: hidden,
        abi_class,
    })
}

/// Binds an item judged on its own, or says why it cannot be bound.
pub fn bind_item(items: &Vec<Item>, item: &Item) -> (r: Result<ItemBinding, UnsupportedReason>)
    ensures
        match r {
            Err(e) => own_error(*item) == Some(e),
            Ok(b) => own_error(*item) is None && binding_matches(items@, *item, b),
        },
{
    match item {
        Item::Func(f) => match bind_func(items, f) {
            Ok(b) => Ok(ItemBinding::Func(b)),
            Err(e) => Err(e),
        },
        Item::Record(r) => match bind_record(items, r) {
            Ok(b) => Ok(ItemBinding::Record(b)),
            Err(e) => Err(e),
        },
        Item::Enum(e) => match map_type(&e.underlying_type, None) {
            Ok(t) => Ok(ItemBinding::Enum(t)),
            Err(x) => Err(UnsupportedReason::Type(x)),
        },
        Item::TypeAlias(a) => match map_type(&a.underlying_type, None) {
            Ok(t) => Ok(ItemBinding::TypeAlias(t)),
            Err(x) => Err(UnsupportedReason::Type(x)),
        },
        Item::Namespace(_) => Ok(ItemBinding::Namespace),
        Item::UnsupportedItem(_) => Err(UnsupportedReason::FrontEnd),
    }
}

pub open spec fn link_view(l: Option<String>) -> Option<Seq<char>> {
    match l {
        Some(s) => Some(s@),
        None => None,
    }
}

pub open spec fn same_thunk_input(a: ThunkInput, b: ThunkInput) -> bool {
    &&& a.mangled_name@ == b.mangled_name@
    &&& a.is_inline == b.is_inline
    &&& a.is_virtual == b.is_virtual
    &&& a.is_constructor == b.is_constructor
    &&& a.is_destructor == b.is_destructor
    &&& a.returns_void == b.returns_void
    &&& a.param_movable@ == b.param_movable@
    &&& a.return_movable == b.return_movable
}

pub open spec fn same_thunk_plan(a: ThunkPlan, b: ThunkPlan) -> bool {
    &&& a.thunk_name@ == b.thunk_name@
    &&& link_view(a.link_name) == link_view(b.link_name)
    &&& a.params@ == b.params@
    &&& a.result == b.result
}

pub open spec fn same_func_binding(a: FuncBinding, b: FuncBinding) -> bool {
    &&& a.lifetimes.lifetime_params@ == b.lifetimes.lifetime_params@
    &&& a.lifetimes.param_lifetimes@ == b.lifetimes.param_lifetimes@
    &&& a.lifetimes.return_lifetime == b.lifetimes.return_lifetime
    &&& a.param_types@ == b.param_types@
    &&& a.return_type == b.return_type
    &&& same_thunk_input(a.thunk_input, b.thunk_input)
    &&& same_thunk_plan(a.thunk, b.thunk)
    &&& a.constructor_trait == b.constructor_trait
}

pub open spec fn same_record_binding(a: RecordBinding, b: RecordBinding) -> bool {
    &&& a.capabilities == b.capabilities
    &&& a.layout@ == b.layout@
    &&& a.field_types@ == b.field_types@
    &&& a.has_opaque_fields == b.has_opaque_fields
    &&& a.abi_class == b.abi_class
}

/// Two bindings with the same content (their vectors and strings compared
/// by their views).
pub open spec fn same_binding(a: ItemBinding, b: ItemBinding) -> bool {
    match (a, b) {
        (ItemBinding::Record(x), ItemBinding::Record(y)) => same_record_binding(x, y),
        (ItemBinding::Func(x), ItemBinding::Func(y)) => same_func_binding(x, y),
        (ItemBinding::Enum(x), ItemBinding::Enum(y)) => x == y,
        (ItemBinding::TypeAlias(x), ItemBinding::TypeAlias(y)) => x == y,
        (ItemBinding::Namespace, ItemBinding::Namespace) => true,
        (ItemBinding::Unsupported(x), ItemBinding::Unsupported(y)) => x == y,
        (ItemBinding::OtherTarget, ItemBinding::OtherTarget) => true,
        _ => false,
    }
}

/// The binding of a supported item is determined by the item and the IR.
pub proof fn lemma_binding_unique(items: Seq<Item>, item: Item, a: ItemBinding, b: ItemBinding)
    requires
        binding_matches(items, item, a),
        binding_matches(items, item, b),
    ensures
        same_binding(a, b),
{
    match item {
        Item::Func(f) => {
            let (x, y) = match (a, b) {
                (ItemBinding::Func(x), ItemBinding::Func(y)) => (x, y),
                _ => arbitrary(),
            };
            let ts = param_types(f.params@);
            assert forall|i: int| 0 <= i < ts.len() implies x.param_types@[i] == y.param_types@[i] by {
                assert(Ok::<RsType, TypeError>(x.param_types@[i]) == mapped_type(ts[i], func_param_lifetimes(f)[i]));
                assert(Ok::<RsType, TypeError>(y.param_types@[i]) == mapped_type(ts[i], func_param_lifetimes(f)[i]));
            }
            assert(x.param_types@ =~= y.param_types@);
            assert(x.thunk.params@ =~= y.thunk.params@);
            assert(x.thunk_input.param_movable@ =~= y.thunk_input.param_movable@);
        },
        Item::Record(r) => {
            let (x, y) = match (a, b) {
                (ItemBinding::Record(x), ItemBinding::Record(y)) => (x, y),
                _ => arbitrary(),
            };
            let ts = field_types(r.fields@);
            assert forall|i: int| 0 <= i < ts.len() implies x.field_types@[i] == y.field_types@[i] by {
                assert(Ok::<RsType, TypeError>(x.field_types@[i]) == mapped_type(ts[i], None));
                assert(Ok::<RsType, TypeError>(y.field_types@[i]) == mapped_type(ts[i], None));
            }
            assert(x.field_types@ =~= y.field_types@);
        },
        _ => {},
    }
}

} // verus!
