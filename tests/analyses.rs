use crubit::ir::{
    AccessSpecifier, CcBuiltin, CcType, Field, FuncParam, Record, SourceLoc, SpecialMemberDefinition,
    SpecialMemberFunc,
};
use crubit::layout::{abi_class_as_declared, abi_class_folded, check_folding_preserves_abi, classify_leaves, AbiClass, Leaf, RegClass};
use crubit::lifetimes::{elide_lifetimes, ElisionError};
use crubit::ordering::{order_items, split_into_chunks, DependencyGraph, Emission};
use crubit::special_members::{constructor_trait, record_capabilities, ConstructorTrait, DropKind};
use crubit::support::{propagate_unsupported, Cause};
use crubit::thunks::{plan_thunk, ThunkInput, ThunkParam, ThunkReturn};
use crubit::type_mapper::{map_builtin, map_type, RsPrim, RsType, TypeError};

fn member(definition: SpecialMemberDefinition, access: AccessSpecifier) -> Option<SpecialMemberFunc> {
    Some(SpecialMemberFunc { definition, access })
}

fn record_with(fields: Vec<Field>, size: u64, alignment: u64) -> Record {
    let trivial = member(SpecialMemberDefinition::Trivial, AccessSpecifier::Public);
    Record {
        id: 1,
        identifier: "R".to_string(),
        owning_target: "//test:testing_target".to_string(),
        doc_comment: None,
        fields,
        default_constructor: trivial,
        copy_constructor: trivial,
        move_constructor: trivial,
        destructor: trivial,
        size,
        alignment,
        is_trivial_abi: true,
        is_inheritable: false,
        override_alignment: false,
        enclosing_namespace_id: None,
        source_loc: SourceLoc { filename: "r.h".to_string(), line: 1, column: 1 },
    }
}

fn one_field(b: CcBuiltin, access: AccessSpecifier, size: u64) -> Field {
    Field { identifier: "f".to_string(), type_: CcType::Builtin(b), access, offset: 0, size, alignment: size }
}

fn params(types: Vec<CcType>) -> Vec<FuncParam> {
    types.into_iter().enumerate().map(|(i, t)| FuncParam { identifier: format!("__param_{}", i), type_: t }).collect()
}

fn int_ref() -> CcType {
    CcType::LValueRef { pointee: Box::new(CcType::Builtin(CcBuiltin::Int)), is_const: false }
}

#[test]
fn builtin_types_map_bit_exactly() {
    let table = [
        (CcBuiltin::Bool, RsPrim::Bool),
        (CcBuiltin::Char, RsPrim::I8),
        (CcBuiltin::UnsignedChar, RsPrim::U8),
        (CcBuiltin::SignedChar, RsPrim::I8),
        (CcBuiltin::Char16, RsPrim::U16),
        (CcBuiltin::Char32, RsPrim::U32),
        (CcBuiltin::WChar, RsPrim::I32),
        (CcBuiltin::Short, RsPrim::I16),
        (CcBuiltin::Int, RsPrim::I32),
        (CcBuiltin::Long, RsPrim::I64),
        (CcBuiltin::LongLong, RsPrim::I64),
        (CcBuiltin::UnsignedShort, RsPrim::U16),
        (CcBuiltin::UnsignedInt, RsPrim::U32),
        (CcBuiltin::UnsignedLong, RsPrim::U64),
        (CcBuiltin::UnsignedLongLong, RsPrim::U64),
        (CcBuiltin::Int8, RsPrim::I8),
        (CcBuiltin::Int16, RsPrim::I16),
        (CcBuiltin::Int32, RsPrim::I32),
        (CcBuiltin::Int64, RsPrim::I64),
        (CcBuiltin::UInt8, RsPrim::U8),
        (CcBuiltin::UInt16, RsPrim::U16),
        (CcBuiltin::UInt32, RsPrim::U32),
        (CcBuiltin::UInt64, RsPrim::U64),
        (CcBuiltin::PtrDiff, RsPrim::Isize),
        (CcBuiltin::Size, RsPrim::Usize),
        (CcBuiltin::IntPtr, RsPrim::Isize),
        (CcBuiltin::UIntPtr, RsPrim::Usize),
        (CcBuiltin::Float, RsPrim::F32),
        (CcBuiltin::Double, RsPrim::F64),
    ];
    for (cc, rs) in table {
        assert_eq!(map_builtin(cc), rs);
    }
    assert_eq!(map_builtin(CcBuiltin::Long), map_builtin(CcBuiltin::Int64));
}

#[test]
fn references_map_by_lifetime() {
    let const_ref = CcType::LValueRef { pointee: Box::new(CcType::Builtin(CcBuiltin::Int)), is_const: true };
    assert_eq!(map_type(&const_ref, None), Ok(RsType::ConstPtr(Box::new(RsType::Prim(RsPrim::I32)))));
    assert_eq!(
        map_type(&const_ref, Some(2)),
        Ok(RsType::SharedRef { pointee: Box::new(RsType::Prim(RsPrim::I32)), lifetime: 2 })
    );
    let rvalue = CcType::RValueRef { pointee: Box::new(CcType::Decl(4)), is_const: false };
    assert_eq!(map_type(&rvalue, None), Err(TypeError::RvalueRefWithoutLifetime));
    assert_eq!(map_type(&rvalue, Some(1)), Ok(RsType::RvalueRef { pointee: Box::new(RsType::Decl(4)), lifetime: 1 }));
    let volatile = CcType::Volatile(Box::new(CcType::Builtin(CcBuiltin::Int)));
    assert_eq!(map_type(&volatile, None), Err(TypeError::Volatile));
    assert_eq!(map_type(&CcType::Void, None), Ok(RsType::Unit));
}

#[test]
fn private_integer_field_classifies_like_public_one() {
    let private = record_with(vec![one_field(CcBuiltin::Int32, AccessSpecifier::Private, 4)], 4, 4);
    let public = record_with(vec![one_field(CcBuiltin::Int32, AccessSpecifier::Public, 4)], 4, 4);
    let expected = Some(AbiClass::Registers(RegClass::Integer, RegClass::NoClass));
    assert_eq!(abi_class_as_declared(&public), expected);
    assert_eq!(abi_class_folded(&public), expected);
    assert_eq!(abi_class_as_declared(&private), expected);
    assert_eq!(abi_class_folded(&private), expected);
    assert!(check_folding_preserves_abi(&private));
}

#[test]
fn private_float_field_keeps_its_class_when_folded() {
    let private = record_with(vec![one_field(CcBuiltin::Float, AccessSpecifier::Private, 4)], 4, 4);
    let expected = Some(AbiClass::Registers(RegClass::Sse, RegClass::NoClass));
    assert_eq!(abi_class_as_declared(&private), expected);
    assert_eq!(abi_class_folded(&private), expected);
    assert!(check_folding_preserves_abi(&private));
}

#[test]
fn folding_a_field_of_wrong_size_changes_class() {
    let mut f = one_field(CcBuiltin::Int32, AccessSpecifier::Private, 8);
    f.offset = 4;
    let odd = record_with(vec![f], 12, 4);
    assert_eq!(abi_class_as_declared(&odd), Some(AbiClass::Registers(RegClass::Integer, RegClass::NoClass)));
    assert_eq!(abi_class_folded(&odd), Some(AbiClass::Registers(RegClass::Integer, RegClass::Integer)));
    assert!(!check_folding_preserves_abi(&odd));
}

#[test]
fn classification_edge_cases() {
    let big = vec![Leaf { offset: 0, size: 8, align: 8, class: RegClass::Integer }];
    assert_eq!(classify_leaves(&big, 24), AbiClass::Memory);
    let misaligned = vec![Leaf { offset: 1, size: 4, align: 4, class: RegClass::Integer }];
    assert_eq!(classify_leaves(&misaligned, 5), AbiClass::Memory);
    let mixed = vec![
        Leaf { offset: 0, size: 4, align: 4, class: RegClass::Sse },
        Leaf { offset: 4, size: 4, align: 4, class: RegClass::Integer },
        Leaf { offset: 8, size: 8, align: 8, class: RegClass::Sse },
    ];
    assert_eq!(classify_leaves(&mixed, 16), AbiClass::Registers(RegClass::Integer, RegClass::Sse));
    assert_eq!(classify_leaves(&vec![], 1), AbiClass::Registers(RegClass::NoClass, RegClass::NoClass));
}

#[test]
fn constructors_become_traits() {
    let mut r = record_with(vec![], 4, 4);
    r.copy_constructor = member(SpecialMemberDefinition::NontrivialUserDefined, AccessSpecifier::Public);
    r.destructor = member(SpecialMemberDefinition::NontrivialUserDefined, AccessSpecifier::Public);
    let caps = record_capabilities(&r, true);
    assert!(caps.is_unpin);
    assert!(!caps.derive_copy);
    assert_eq!(caps.drop, DropKind::Thunk);
    let this = CcType::LValueRef { pointee: Box::new(CcType::Decl(1)), is_const: false };
    let copy_arg = CcType::LValueRef { pointee: Box::new(CcType::Decl(1)), is_const: true };
    let plain = CcType::Builtin(CcBuiltin::Int);
    assert_eq!(constructor_trait(&r, caps, &params(vec![this.clone_shape()]), false), ConstructorTrait::Default);
    assert_eq!(constructor_trait(&r, caps, &params(vec![this.clone_shape(), copy_arg]), false), ConstructorTrait::Clone);
    assert_eq!(constructor_trait(&r, caps, &params(vec![this.clone_shape(), plain.clone_shape()]), false), ConstructorTrait::From);
    assert_eq!(constructor_trait(&r, caps, &params(vec![this.clone_shape(), plain.clone_shape()]), true), ConstructorTrait::NoTrait);
    let mut no_default = record_with(vec![], 4, 4);
    no_default.default_constructor = member(SpecialMemberDefinition::Deleted, AccessSpecifier::Public);
    no_default.copy_constructor = member(SpecialMemberDefinition::NontrivialUserDefined, AccessSpecifier::Private);
    let caps2 = record_capabilities(&no_default, true);
    let copy_arg2 = CcType::LValueRef { pointee: Box::new(CcType::Decl(1)), is_const: true };
    assert_eq!(constructor_trait(&no_default, caps2, &params(vec![this.clone_shape()]), false), ConstructorTrait::NoTrait);
    assert_eq!(constructor_trait(&no_default, caps2, &params(vec![this.clone_shape(), copy_arg2]), false), ConstructorTrait::NoTrait);
    r.is_inheritable = true;
    let pinned = record_capabilities(&r, true);
    assert_eq!(constructor_trait(&r, pinned, &params(vec![this]), false), ConstructorTrait::CtorNew);
}

trait CloneShape {
    fn clone_shape(&self) -> CcType;
}

impl CloneShape for CcType {
    fn clone_shape(&self) -> CcType {
        match self {
            CcType::Void => CcType::Void,
            CcType::Builtin(b) => CcType::Builtin(*b),
            CcType::Decl(id) => CcType::Decl(*id),
            CcType::Pointer { pointee, is_const } => CcType::Pointer { pointee: Box::new(pointee.clone_shape()), is_const: *is_const },
            CcType::LValueRef { pointee, is_const } => CcType::LValueRef { pointee: Box::new(pointee.clone_shape()), is_const: *is_const },
            CcType::RValueRef { pointee, is_const } => CcType::RValueRef { pointee: Box::new(pointee.clone_shape()), is_const: *is_const },
            CcType::Volatile(inner) => CcType::Volatile(Box::new(inner.clone_shape())),
        }
    }
}

#[test]
fn deleted_and_private_destructors() {
    let mut r = record_with(vec![], 1, 1);
    r.destructor = member(SpecialMemberDefinition::Deleted, AccessSpecifier::Public);
    assert_eq!(record_capabilities(&r, true).drop, DropKind::Unavailable);
    r.destructor = member(SpecialMemberDefinition::NontrivialUserDefined, AccessSpecifier::Private);
    assert_eq!(record_capabilities(&r, true).drop, DropKind::Unavailable);
    r.destructor = None;
    assert_eq!(record_capabilities(&r, true).drop, DropKind::Trivial);
}

#[test]
fn elision_assigns_fresh_lifetimes_left_to_right() {
    let this = CcType::LValueRef { pointee: Box::new(CcType::Decl(1)), is_const: false };
    let ps = params(vec![this, CcType::Builtin(CcBuiltin::Int), int_ref(), int_ref()]);
    let l = elide_lifetimes(&ps, &int_ref(), true, false, true).unwrap();
    assert_eq!(l.lifetime_params, vec![0, 1, 2]);
    assert_eq!(l.param_lifetimes, vec![Some(0), None, Some(1), Some(2)]);
    assert_eq!(l.return_lifetime, Some(0));
}

#[test]
fn method_return_borrows_from_its_one_reference_param() {
    let this = CcType::LValueRef { pointee: Box::new(CcType::Decl(1)), is_const: false };
    let ps = params(vec![this, CcType::Builtin(CcBuiltin::Int), int_ref()]);
    let l = elide_lifetimes(&ps, &int_ref(), true, false, true).unwrap();
    assert_eq!(l.lifetime_params, vec![0, 1]);
    assert_eq!(l.param_lifetimes, vec![Some(0), None, Some(1)]);
    assert_eq!(l.return_lifetime, Some(1));
    let only_this = params(vec![CcType::LValueRef { pointee: Box::new(CcType::Decl(1)), is_const: false }]);
    assert_eq!(elide_lifetimes(&only_this, &int_ref(), true, false, true).unwrap().return_lifetime, Some(0));
}

#[test]
fn single_reference_param_lends_its_lifetime() {
    let ps = params(vec![CcType::Builtin(CcBuiltin::Int), int_ref()]);
    let l = elide_lifetimes(&ps, &int_ref(), false, false, true).unwrap();
    assert_eq!(l.lifetime_params, vec![0]);
    assert_eq!(l.param_lifetimes, vec![None, Some(0)]);
    assert_eq!(l.return_lifetime, l.param_lifetimes[1]);
}

#[test]
fn elision_errors() {
    let none = params(vec![]);
    assert_eq!(elide_lifetimes(&none, &int_ref(), false, false, true).unwrap_err(), ElisionError::AmbiguousReturn);
    let this = params(vec![CcType::LValueRef { pointee: Box::new(CcType::Decl(1)), is_const: false }]);
    assert_eq!(elide_lifetimes(&this, &CcType::Void, true, true, false).unwrap_err(), ElisionError::UnsafeConstructor);
    assert_eq!(elide_lifetimes(&this, &CcType::Void, true, false, false).unwrap_err(), ElisionError::ReceiverWithoutLifetime);
    let free = elide_lifetimes(&params(vec![int_ref()]), &int_ref(), false, false, false).unwrap();
    assert!(free.lifetime_params.is_empty());
    assert_eq!(free.param_lifetimes, vec![None]);
    assert_eq!(free.return_lifetime, None);
}

#[test]
fn propagation_reaches_transitive_users() {
    let uses = vec![vec![], vec![0], vec![1], vec![3], vec![]];
    let intrinsic = vec![true, false, false, false, false];
    let r = propagate_unsupported(&uses, &intrinsic);
    assert_eq!(r, vec![Some(Cause::Intrinsic), Some(Cause::Uses(0)), Some(Cause::Uses(1)), None, None]);
    let backwards = vec![vec![1], vec![2], vec![], ];
    let r = propagate_unsupported(&backwards, &vec![false, false, true]);
    assert_eq!(r, vec![Some(Cause::Uses(1)), Some(Cause::Uses(2)), Some(Cause::Intrinsic)]);
    assert_eq!(propagate_unsupported(&vec![], &vec![]), vec![]);
}

#[test]
fn order_keeps_source_order_when_free() {
    let g = DependencyGraph { by_value: vec![vec![], vec![], vec![]], by_reference: vec![vec![], vec![], vec![]] };
    let o = order_items(&g);
    assert_eq!(o.sequence, vec![Emission::Definition(0), Emission::Definition(1), Emission::Definition(2)]);
    let empty = order_items(&DependencyGraph { by_value: vec![], by_reference: vec![] });
    assert!(empty.sequence.is_empty());
}

#[test]
fn order_puts_used_definitions_first() {
    let g = DependencyGraph { by_value: vec![vec![2], vec![0], vec![]], by_reference: vec![vec![], vec![], vec![]] };
    let o = order_items(&g);
    assert_eq!(o.sequence, vec![Emission::Definition(2), Emission::Definition(0), Emission::Definition(1)]);
    assert_eq!(o.definition_slot, vec![1, 2, 0]);
}

#[test]
fn chunks_split_by_container() {
    let seq = vec![Emission::Definition(0), Emission::Definition(1), Emission::ForwardDecl(2), Emission::Definition(2)];
    let containers = vec![7, 7, 9];
    let chunks = split_into_chunks(&seq, &containers);
    assert_eq!(chunks.len(), 2);
    assert_eq!(chunks[0].container, 7);
    assert_eq!(chunks[0].emissions, vec![Emission::Definition(0), Emission::Definition(1)]);
    assert_eq!(chunks[1].container, 9);
    assert_eq!(chunks[1].emissions, vec![Emission::ForwardDecl(2), Emission::Definition(2)]);
    assert!(split_into_chunks(&vec![], &containers).is_empty());
}

#[test]
fn thunk_for_nonmovable_result_builds_in_place() {
    let t = ThunkInput {
        mangled_name: "_Z4makev".to_string(),
        is_inline: false,
        is_virtual: false,
        is_constructor: false,
        is_destructor: false,
        returns_void: false,
        param_movable: vec![true],
        return_movable: false,
    };
    let p = plan_thunk(&t);
    assert_eq!(p.thunk_name, "__rust_thunk___Z4makev");
    assert_eq!(p.link_name, None);
    assert_eq!(p.params, vec![ThunkParam::ByValue(0)]);
    assert_eq!(p.result, ThunkReturn::InPlace);
    let direct = plan_thunk(&ThunkInput { return_movable: true, ..t });
    assert_eq!(direct.link_name, Some("_Z4makev".to_string()));
    assert_eq!(direct.result, ThunkReturn::Value);
}

#[test]
fn relocation_needs_trivial_fields_and_members() {
    let r = record_with(vec![], 4, 4);
    assert!(record_capabilities(&r, true).is_unpin);
    assert!(!record_capabilities(&r, false).is_unpin);
    let mut no_moves = record_with(vec![], 4, 4);
    no_moves.copy_constructor = member(SpecialMemberDefinition::Deleted, AccessSpecifier::Public);
    no_moves.move_constructor = member(SpecialMemberDefinition::Deleted, AccessSpecifier::Public);
    assert!(!record_capabilities(&no_moves, true).is_unpin);
    let mut copy_only = record_with(vec![], 4, 4);
    copy_only.move_constructor = member(SpecialMemberDefinition::Deleted, AccessSpecifier::Public);
    assert!(record_capabilities(&copy_only, true).is_unpin);
    let mut no_dtor = record_with(vec![], 4, 4);
    no_dtor.destructor = member(SpecialMemberDefinition::Deleted, AccessSpecifier::Public);
    assert!(!record_capabilities(&no_dtor, true).is_unpin);
}
