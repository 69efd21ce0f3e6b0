//! What a record's special members allow on the destination side: moving
//! freely, copying, dropping, and which trait each constructor becomes.
use vstd::prelude::*;
use crate::ir::{AccessSpecifier, CcType, FuncParam, Record, SpecialMemberDefinition, SpecialMemberFunc};
use crate::lifetimes::param_types;

verus! {

#[derive(Clone, Copy, Debug, PartialEq, Eq, Structural)]
pub enum DropKind {
    /// Nothing to run: no `Drop` impl.
    Trivial,
    /// `Drop` calls the destructor through a thunk.
    Thunk,
    /// The destructor is deleted or not public.
    Unavailable,
}

#[derive(Clone, Copy, Debug, PartialEq, Eq, Structural)]
pub struct RecordCapabilities {
    /// Values may be moved freely (trivial ABI and not derivable from);
    /// otherwise they stay pinned and are built in place.
    pub is_unpin: bool,
    /// `Clone` and `Copy` are derived rather than bound.
    pub derive_copy: bool,
    pub drop: DropKind,
}

pub open spec fn is_public(m: SpecialMemberFunc, d: SpecialMemberDefinition) -> bool {
    m.definition == d && m.access == AccessSpecifier::Public
}

pub open spec fn spec_drop_kind(r: Record) -> DropKind {
    match r.destructor {
        None => DropKind::Trivial,
        Some(d) => match d.definition {
            SpecialMemberDefinition::Trivial => DropKind::Trivial,
            SpecialMemberDefinition::NontrivialUserDefined => if d.access == AccessSpecifier::Public {
                DropKind::Thunk
            } else {
                DropKind::Unavailable
            },
            SpecialMemberDefinition::Deleted => DropKind::Unavailable,
        },
    }
}

pub open spec fn is_deleted(m: Option<SpecialMemberFunc>) -> bool {
    match m {
        Some(f) => f.definition == SpecialMemberDefinition::Deleted,
        None => false,
    }
}

/// A value can be relocated by copying its bytes only if it can be
/// destroyed and at least one of its copy and move constructors exists.
pub open spec fn members_allow_relocation(r: Record) -> bool {
    !is_deleted(r.destructor) && !(is_deleted(r.copy_constructor) && is_deleted(r.move_constructor))
}

/// A record is moved freely when the front end found it trivial for calls,
/// its fields held by value are too (`fields_trivial_abi`), its special
/// members allow relocation, and it is not a possible base of further
/// derivation: the two languages disagree on slicing and aliasing of
/// bases.  Copying is derived only for such a record whose copy constructor
/// is trivial and public.
pub open spec fn spec_capabilities(r: Record, fields_trivial_abi: bool) -> RecordCapabilities {
    let unpin = r.is_trivial_abi && fields_trivial_abi && members_allow_relocation(r) && !r.is_inheritable;
    RecordCapabilities {
        is_unpin: unpin,
        derive_copy: unpin && match r.copy_constructor {
            Some(c) => is_public(c, SpecialMemberDefinition::Trivial),
            None => false,
        },
        drop: spec_drop_kind(r),
    }
}

fn deleted(m: &Option<SpecialMemberFunc>) -> (b: bool)
    ensures
        b == is_deleted(*m),
{
    match m {
        Some(f) => f.definition == SpecialMemberDefinition::Deleted,
        None => false,
    }
}

pub fn record_capabilities(r: &Record, fields_trivial_abi: bool) -> (c: RecordCapabilities)
    ensures
        c == spec_capabilities(*r, fields_trivial_abi),
{
    let relocatable = !deleted(&r.destructor) && !(deleted(&r.copy_constructor) && deleted(&r.move_constructor));
    let unpin = r.is_trivial_abi && fields_trivial_abi && relocatable && !r.is_inheritable;
    let trivial_copy = match r.copy_constructor {
        Some(c) => c.definition == SpecialMemberDefinition::Trivial && c.access == AccessSpecifier::Public,
        None => false,
    };
    let drop = match r.destructor {
        None => DropKind::Trivial,
        Some(d) => match d.definition {
            SpecialMemberDefinition::Trivial => DropKind::Trivial,
            SpecialMemberDefinition::NontrivialUserDefined => if d.access == AccessSpecifier::Public {
                DropKind::Thunk
            } else {
                DropKind::Unavailable
            },
            SpecialMemberDefinition::Deleted => DropKind::Unavailable,
        },
    };
    RecordCapabilities { is_unpin: unpin, derive_copy: unpin && trivial_copy, drop }
}

/// The destination-side form of a bound constructor.
#[derive(Clone, Copy, Debug, PartialEq, Eq, Structural)]
pub enum ConstructorTrait {
    /// `Default`, for the default constructor.
    Default,
    /// `Clone`, for a copy constructor that is not trivially derived.
    Clone,
    /// `From<T>`, for a constructor of one argument that is not explicit.
    From,
    /// In-place construction, for a record that is not moved freely.
    CtorNew,
    /// No trait: an explicit or multi-argument constructor, or a trivial
    /// copy constructor already covered by the derived `Clone`.
    NoTrait,
}

/// The argument is `const R&` for the record `record_id` itself.
pub open spec fn is_copy_argument(t: CcType, record_id: u64) -> bool {
    match t {
        CcType::LValueRef { pointee, is_const } => is_const && *pointee == CcType::Decl(record_id),
        _ => false,
    }
}

/// The member exists, is not deleted, and is public.
pub open spec fn usable(m: Option<SpecialMemberFunc>) -> bool {
    match m {
        Some(f) => f.definition != SpecialMemberDefinition::Deleted && f.access == AccessSpecifier::Public,
        None => false,
    }
}

/// The trait for a constructor of `r` whose parameters after the receiver
/// are `args`.  A default or copy constructor that the record reports as
/// deleted or not public gives no trait.
pub open spec fn spec_constructor_trait(
    r: Record,
    caps: RecordCapabilities,
    args: Seq<CcType>,
    is_explicit: bool,
) -> ConstructorTrait {
    if !caps.is_unpin {
        ConstructorTrait::CtorNew
    } else if args.len() == 0 {
        if usable(r.default_constructor) {
            ConstructorTrait::Default
        } else {
            ConstructorTrait::NoTrait
        }
    } else if args.len() == 1 && is_copy_argument(args[0], r.id) {
        if caps.derive_copy || !usable(r.copy_constructor) {
            ConstructorTrait::NoTrait
        } else {
            ConstructorTrait::Clone
        }
    } else if args.len() == 1 && !is_explicit {
        ConstructorTrait::From
    } else {
        ConstructorTrait::NoTrait
    }
}

fn usable_member(m: &Option<SpecialMemberFunc>) -> (b: bool)
    ensures
        b == usable(*m),
{
    match m {
        Some(f) => f.definition != SpecialMemberDefinition::Deleted && f.access == AccessSpecifier::Public,
        None => false,
    }
}

fn copy_argument(t: &CcType, record_id: u64) -> (b: bool)
    ensures
        b == is_copy_argument(*t, record_id),
{
    match t {
        CcType::LValueRef { pointee, is_const } => {
            if !*is_const {
                return false;
            }
            match &**pointee {
                CcType::Decl(id) => *id == record_id,
                _ => false,
            }
        },
        _ => false,
    }
}

/// The trait for a constructor of `r` with parameters `params`, the
/// receiver first.
pub fn constructor_trait(
    r: &Record,
    caps: RecordCapabilities,
    params: &Vec<FuncParam>,
    is_explicit: bool,
) -> (t: ConstructorTrait)
    requires
        params@.len() >= 1,
    ensures
        t == spec_constructor_trait(*r, caps, param_types(params@).drop_first(), is_explicit),
{
    let ghost args = param_types(params@).drop_first();
    assert(args.len() == params@.len() - 1);
    if !caps.is_unpin {
        ConstructorTrait::CtorNew
    } else if params.len() == 1 {
        if usable_member(&r.default_constructor) {
            ConstructorTrait::Default
        } else {
            ConstructorTrait::NoTrait
        }
    } else if params.len() == 2 && copy_argument(&params[1].type_, r.id) {
        assert(args[0] == params@[1].type_);
        if caps.derive_copy || !usable_member(&r.copy_constructor) {
            ConstructorTrait::NoTrait
        } else {
            ConstructorTrait::Clone
        }
    } else if params.len() == 2 && !is_explicit {
        assert(args[0] == params@[1].type_);
        ConstructorTrait::From
    } else {
        ConstructorTrait::NoTrait
    }
}

} // verus!
