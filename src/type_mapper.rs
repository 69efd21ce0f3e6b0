//! Maps each source-language type occurrence to its destination-language
//! counterpart.
use vstd::prelude::*;
use crate::ir::{CcBuiltin, CcType};

verus! {

/// Destination-language primitive types.
#[derive(Clone, Copy, Debug, PartialEq, Eq, Structural)]
pub enum RsPrim {
    Bool,
    I8,
    U8,
    I16,
    U16,
    I32,
    U32,
    I64,
    U64,
    Isize,
    Usize,
    F32,
    F64,
}

/// A destination-language type.  A user-defined type is named by the
/// declaration id of its source, so that a type alias keeps its own name
/// rather than that of the type it stands for.
#[derive(Debug, PartialEq, Eq)]
pub enum RsType {
    Unit,
    Prim(RsPrim),
    Decl(u64),
    ConstPtr(Box<RsType>),
    MutPtr(Box<RsType>),
    SharedRef { pointee: Box<RsType>, lifetime: u64 },
    MutRef { pointee: Box<RsType>, lifetime: u64 },
    RvalueRef { pointee: Box<RsType>, lifetime: u64 },
}

/// Why a type has no counterpart.
#[derive(Clone, Copy, Debug, PartialEq, Eq, Structural)]
pub enum TypeError {
    /// Volatile-qualified types are not supported.
    Volatile,
    /// An rvalue reference needs a lifetime to be represented.
    RvalueRefWithoutLifetime,
}

/// The fixed table of builtin types: the same bit width and signedness,
/// whatever spelling the source used.  `char` is signed on the supported
/// targets, and `char32_t` and `wchar_t` are plain integers since not every
/// value of theirs is a valid character on the destination side.
pub open spec fn builtin_prim(b: CcBuiltin) -> RsPrim {
    match b {
        CcBuiltin::Bool => RsPrim::Bool,
        CcBuiltin::Char => RsPrim::I8,
        CcBuiltin::SignedChar => RsPrim::I8,
        CcBuiltin::UnsignedChar => RsPrim::U8,
        CcBuiltin::Char16 => RsPrim::U16,
        CcBuiltin::Char32 => RsPrim::U32,
        CcBuiltin::WChar => RsPrim::I32,
        CcBuiltin::Short => RsPrim::I16,
        CcBuiltin::Int => RsPrim::I32,
        CcBuiltin::Long => RsPrim::I64,
        CcBuiltin::LongLong => RsPrim::I64,
        CcBuiltin::UnsignedShort => RsPrim::U16,
        CcBuiltin::UnsignedInt => RsPrim::U32,
        CcBuiltin::UnsignedLong => RsPrim::U64,
        CcBuiltin::UnsignedLongLong => RsPrim::U64,
        CcBuiltin::Int8 => RsPrim::I8,
        CcBuiltin::Int16 => RsPrim::I16,
        CcBuiltin::Int32 => RsPrim::I32,
        CcBuiltin::Int64 => RsPrim::I64,
        CcBuiltin::UInt8 => RsPrim::U8,
        CcBuiltin::UInt16 => RsPrim::U16,
        CcBuiltin::UInt32 => RsPrim::U32,
        CcBuiltin::UInt64 => RsPrim::U64,
        CcBuiltin::PtrDiff => RsPrim::Isize,
        CcBuiltin::Size => RsPrim::Usize,
        CcBuiltin::IntPtr => RsPrim::Isize,
        CcBuiltin::UIntPtr => RsPrim::Usize,
        CcBuiltin::Float => RsPrim::F32,
        CcBuiltin::Double => RsPrim::F64,
    }
}

/// Size in bytes of a primitive on the supported (64-bit) targets; it is
/// also its alignment.
pub open spec fn prim_size(p: RsPrim) -> u64 {
    match p {
        RsPrim::Bool | RsPrim::I8 | RsPrim::U8 => 1,
        RsPrim::I16 | RsPrim::U16 => 2,
        RsPrim::I32 | RsPrim::U32 | RsPrim::F32 => 4,
        RsPrim::I64 | RsPrim::U64 | RsPrim::Isize | RsPrim::Usize | RsPrim::F64 => 8,
    }
}

pub fn map_builtin(b: CcBuiltin) -> (r: RsPrim)
    ensures
        r == builtin_prim(b),
{
    match b {
        CcBuiltin::Bool => RsPrim::Bool,
        CcBuiltin::Char => RsPrim::I8,
        CcBuiltin::SignedChar => RsPrim::I8,
        CcBuiltin::UnsignedChar => RsPrim::U8,
        CcBuiltin::Char16 => RsPrim::U16,
        CcBuiltin::Char32 => RsPrim::U32,
        CcBuiltin::WChar => RsPrim::I32,
        CcBuiltin::Short => RsPrim::I16,
        CcBuiltin::Int => RsPrim::I32,
        CcBuiltin::Long => RsPrim::I64,
        CcBuiltin::LongLong => RsPrim::I64,
        CcBuiltin::UnsignedShort => RsPrim::U16,
        CcBuiltin::UnsignedInt => RsPrim::U32,
        CcBuiltin::UnsignedLong => RsPrim::U64,
        CcBuiltin::UnsignedLongLong => RsPrim::U64,
        CcBuiltin::Int8 => RsPrim::I8,
        CcBuiltin::Int16 => RsPrim::I16,
        CcBuiltin::Int32 => RsPrim::I32,
        CcBuiltin::Int64 => RsPrim::I64,
        CcBuiltin::UInt8 => RsPrim::U8,
        CcBuiltin::UInt16 => RsPrim::U16,
        CcBuiltin::UInt32 => RsPrim::U32,
        CcBuiltin::UInt64 => RsPrim::U64,
        CcBuiltin::PtrDiff => RsPrim::Isize,
        CcBuiltin::Size => RsPrim::Usize,
        CcBuiltin::IntPtr => RsPrim::Isize,
        CcBuiltin::UIntPtr => RsPrim::Usize,
        CcBuiltin::Float => RsPrim::F32,
        CcBuiltin::Double => RsPrim::F64,
    }
}

/// The counterpart of `t`.  A reference at the top level takes `lifetime`
/// when one was assigned; without one an lvalue reference becomes a raw
/// pointer and an rvalue reference has no counterpart.  References nested
/// under another pointer or reference always become raw pointers.
pub open spec fn mapped_type(t: CcType, lifetime: Option<u64>) -> Result<RsType, TypeError>
    decreases t,
{
    match t {
        CcType::Void => Ok(RsType::Unit),
        CcType::Builtin(b) => Ok(RsType::Prim(builtin_prim(b))),
        CcType::Decl(id) => Ok(RsType::Decl(id)),
        CcType::Pointer { pointee, is_const } => match mapped_type(*pointee, None) {
            Ok(p) => if is_const {
                Ok(RsType::ConstPtr(Box::new(p)))
            } else {
                Ok(RsType::MutPtr(Box::new(p)))
            },
            Err(e) => Err(e),
        },
        CcType::LValueRef { pointee, is_const } => match mapped_type(*pointee, None) {
            Ok(p) => match lifetime {
                Some(l) => if is_const {
                    Ok(RsType::SharedRef { pointee: Box::new(p), lifetime: l })
                } else {
                    Ok(RsType::MutRef { pointee: Box::new(p), lifetime: l })
                },
                None => if is_const {
                    Ok(RsType::ConstPtr(Box::new(p)))
                } else {
                    Ok(RsType::MutPtr(Box::new(p)))
                },
            },
            Err(e) => Err(e),
        },
        CcType::RValueRef { pointee, is_const } => match mapped_type(*pointee, None) {
            Ok(p) => match lifetime {
                Some(l) => Ok(RsType::RvalueRef { pointee: Box::new(p), lifetime: l }),
                None => Err(TypeError::RvalueRefWithoutLifetime),
            },
            Err(e) => Err(e),
        },
        CcType::Volatile(_) => Err(TypeError::Volatile),
    }
}

pub fn map_type(t: &CcType, lifetime: Option<u64>) -> (r: Result<RsType, TypeError>)
    ensures
        r == mapped_type(*t, lifetime),
    decreases t,
{
    match t {
        CcType::Void => Ok(RsType::Unit),
        CcType::Builtin(b) => Ok(RsType::Prim(map_builtin(*b))),
        CcType::Decl(id) => Ok(RsType::Decl(*id)),
        CcType::Pointer { pointee, is_const } => match map_type(pointee, None) {
            Ok(p) => if *is_const {
                Ok(RsType::ConstPtr(Box::new(p)))
            } else {
                Ok(RsType::MutPtr(Box::new(p)))
            },
            Err(e) => Err(e),
        },
        CcType::LValueRef { pointee, is_const } => match map_type(pointee, None) {
            Ok(p) => match lifetime {
                Some(l) => if *is_const {
                    Ok(RsType::SharedRef { pointee: Box::new(p), lifetime: l })
                } else {
                    Ok(RsType::MutRef { pointee: Box::new(p), lifetime: l })
                },
                None => if *is_const {
                    Ok(RsType::ConstPtr(Box::new(p)))
                } else {
                    Ok(RsType::MutPtr(Box::new(p)))
                },
            },
            Err(e) => Err(e),
        },
        CcType::RValueRef { pointee, is_const: _ } => match map_type(pointee, None) {
            Ok(p) => match lifetime {
                Some(l) => Ok(RsType::RvalueRef { pointee: Box::new(p), lifetime: l }),
                None => Err(TypeError::RvalueRefWithoutLifetime),
            },
            Err(e) => Err(e),
        },
        CcType::Volatile(_) => Err(TypeError::Volatile),
    }
}

/// The declarations that `t` names, split into those it holds by value
/// (`t` is the declaration itself) and those behind a pointer or reference.
pub open spec fn decl_refs(t: CcType, indirect: bool) -> (Seq<u64>, Seq<u64>)
    decreases t,
{
    match t {
        CcType::Decl(id) => if indirect {
            (Seq::empty(), seq![id])
        } else {
            (seq![id], Seq::empty())
        },
        CcType::Pointer { pointee, is_const: _ } => decl_refs(*pointee, true),
        CcType::LValueRef { pointee, is_const: _ } => decl_refs(*pointee, true),
        CcType::RValueRef { pointee, is_const: _ } => decl_refs(*pointee, true),
        CcType::Volatile(inner) => decl_refs(*inner, indirect),
        _ => (Seq::empty(), Seq::empty()),
    }
}

/// Appends the declarations that `t` names to `by_value` and `by_reference`.
pub fn collect_decl_refs(
    t: &CcType,
    indirect: bool,
    by_value: &mut Vec<u64>,
    by_reference: &mut Vec<u64>,
)
    ensures
        final(by_value)@ == old(by_value)@ + decl_refs(*t, indirect).0,
        final(by_reference)@ == old(by_reference)@ + decl_refs(*t, indirect).1,
    decreases t,
{
    match t {
        CcType::Decl(id) => {
            if indirect {
                by_reference.push(*id);
                assert(by_value@ =~= old(by_value)@ + Seq::<u64>::empty());
            } else {
                by_value.push(*id);
                assert(by_reference@ =~= old(by_reference)@ + Seq::<u64>::empty());
            }
        },
        CcType::Pointer { pointee, is_const: _ } => collect_decl_refs(pointee, true, by_value, by_reference),
        CcType::LValueRef { pointee, is_const: _ } => collect_decl_refs(pointee, true, by_value, by_reference),
        CcType::RValueRef { pointee, is_const: _ } => collect_decl_refs(pointee, true, by_value, by_reference),
        CcType::Volatile(inner) => collect_decl_refs(inner, indirect, by_value, by_reference),
        _ => {
            assert(by_value@ =~= old(by_value)@ + Seq::<u64>::empty());
            assert(by_reference@ =~= old(by_reference)@ + Seq::<u64>::empty());
        },
    }
}

} // verus!
