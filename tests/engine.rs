use crubit::binder::{ItemBinding, UnsupportedReason};
use crubit::generator::{generate, Bindings};
use crubit::ir::{
    AccessSpecifier, CcBuiltin, CcType, Field, Func, FuncParam, InstanceMethodMetadata, Item,
    MemberFuncMetadata, Namespace, Record, ReferenceQualification, SourceLoc, SpecialMemberDefinition,
    SpecialMemberFunc, UnqualifiedIdentifier, UnsupportedItem, IR,
};
use crubit::layout::{AbiClass, LayoutAssertion, RegClass};
use crubit::lifetimes::ElisionError;
use crubit::ordering::Emission;
use crubit::emitter::{push_decimal, render_layout_assertions, render_notes};
use crubit::reports::unsupported_reports;
use crubit::special_members::ConstructorTrait;
use crubit::support::Cause;
use crubit::thunks::{ThunkParam, ThunkReturn};
use crubit::type_mapper::{RsPrim, RsType, TypeError};

const TARGET: &str = "//test:testing_target";

fn loc() -> SourceLoc {
    SourceLoc { filename: "ir_from_cc_virtual_header.h".to_string(), line: 3, column: 1 }
}

fn cc_int() -> CcType {
    CcType::Builtin(CcBuiltin::Int)
}

fn trivial_member() -> Option<SpecialMemberFunc> {
    Some(SpecialMemberFunc { definition: SpecialMemberDefinition::Trivial, access: AccessSpecifier::Public })
}

fn field(name: &str, type_: CcType, access: AccessSpecifier, offset: u64, size: u64) -> Field {
    Field { identifier: name.to_string(), type_, access, offset, size, alignment: size }
}

fn record(id: u64, name: &str, fields: Vec<Field>, size: u64, alignment: u64, ns: Option<u64>) -> Record {
    Record {
        id,
        identifier: name.to_string(),
        owning_target: TARGET.to_string(),
        doc_comment: None,
        fields,
        default_constructor: trivial_member(),
        copy_constructor: trivial_member(),
        move_constructor: trivial_member(),
        destructor: trivial_member(),
        size,
        alignment,
        is_trivial_abi: true,
        is_inheritable: false,
        override_alignment: false,
        enclosing_namespace_id: ns,
        source_loc: loc(),
    }
}

fn func(name: &str, mangled: &str, params: Vec<(&str, CcType)>, return_type: CcType, ns: Option<u64>) -> Func {
    Func {
        name: UnqualifiedIdentifier::Identifier(name.to_string()),
        owning_target: TARGET.to_string(),
        mangled_name: mangled.to_string(),
        doc_comment: None,
        return_type,
        params: params
            .into_iter()
            .map(|(n, t)| FuncParam { identifier: n.to_string(), type_: t })
            .collect(),
        is_inline: false,
        member_func_metadata: None,
        has_lifetime_elision: false,
        enclosing_namespace_id: ns,
        source_loc: loc(),
    }
}

fn method_of(mut f: Func, record_id: u64, receiver_record: u64) -> Func {
    f.member_func_metadata = Some(MemberFuncMetadata {
        record_id,
        instance_method_metadata: Some(InstanceMethodMetadata {
            reference: ReferenceQualification::Unqualified,
            is_const: false,
            is_virtual: false,
            is_explicit_ctor: false,
        }),
    });
    f.params.insert(
        0,
        FuncParam {
            identifier: "__this".to_string(),
            type_: CcType::LValueRef { pointee: Box::new(CcType::Decl(receiver_record)), is_const: false },
        },
    );
    f
}

fn namespace(id: u64, name: &str) -> Namespace {
    Namespace {
        id,
        name: name.to_string(),
        owning_target: TARGET.to_string(),
        enclosing_namespace_id: None,
        source_loc: loc(),
    }
}

fn ir(items: Vec<Item>) -> IR {
    IR { items, current_target: TARGET.to_string() }
}

fn mut_ref(t: CcType) -> CcType {
    CcType::LValueRef { pointee: Box::new(t), is_const: false }
}

fn func_binding(b: &Bindings, i: usize) -> &crubit::binder::FuncBinding {
    match &b.items[i] {
        ItemBinding::Func(f) => f,
        other => panic!("item {} is not a bound function: {:?}", i, other),
    }
}

fn record_binding(b: &Bindings, i: usize) -> &crubit::binder::RecordBinding {
    match &b.items[i] {
        ItemBinding::Record(r) => r,
        other => panic!("item {} is not a bound record: {:?}", i, other),
    }
}

fn definitions(b: &Bindings) -> Vec<usize> {
    b.order
        .sequence
        .iter()
        .filter_map(|e| match e {
            Emission::Definition(i) => Some(*i),
            Emission::ForwardDecl(_) => None,
        })
        .collect()
}

#[test]
fn point_with_stable_layout() {
    let point = record(
        1,
        "Point",
        vec![
            field("x", CcType::Builtin(CcBuiltin::Int32), AccessSpecifier::Public, 0, 4),
            field("y", CcType::Builtin(CcBuiltin::Int32), AccessSpecifier::Public, 4, 4),
        ],
        8,
        4,
        None,
    );
    let b = generate(&ir(vec![Item::Record(point)]));
    let r = record_binding(&b, 0);
    assert_eq!(
        r.layout,
        vec![
            LayoutAssertion::Size(8),
            LayoutAssertion::Alignment(4),
            LayoutAssertion::FieldOffset { field: 0, offset: 0 },
            LayoutAssertion::FieldOffset { field: 1, offset: 4 },
        ]
    );
    assert_eq!(r.field_types, vec![RsType::Prim(RsPrim::I32), RsType::Prim(RsPrim::I32)]);
    assert!(!r.has_opaque_fields);
    assert_eq!(r.abi_class, Some(AbiClass::Registers(RegClass::Integer, RegClass::NoClass)));
    assert!(r.capabilities.is_unpin);
    assert!(r.capabilities.derive_copy);
}

#[test]
fn private_field_keeps_offset_assertion() {
    let s = record(
        1,
        "SomeStruct",
        vec![
            field("public_int", cc_int(), AccessSpecifier::Public, 0, 4),
            field("protected_int", cc_int(), AccessSpecifier::Protected, 4, 4),
            field("private_int", cc_int(), AccessSpecifier::Private, 8, 4),
        ],
        12,
        4,
        None,
    );
    let b = generate(&ir(vec![Item::Record(s)]));
    let r = record_binding(&b, 0);
    assert!(r.has_opaque_fields);
    assert_eq!(
        r.layout,
        vec![
            LayoutAssertion::Size(12),
            LayoutAssertion::Alignment(4),
            LayoutAssertion::FieldOffset { field: 0, offset: 0 },
            LayoutAssertion::FieldOffset { field: 1, offset: 4 },
            LayoutAssertion::FieldOffset { field: 2, offset: 8 },
        ]
    );
}

#[test]
fn private_integer_field_is_folded() {
    let private = record(1, "StructInteger", vec![field("0", cc_int(), AccessSpecifier::Private, 0, 4)], 4, 4, None);
    let b = generate(&ir(vec![Item::Record(private)]));
    assert!(record_binding(&b, 0).has_opaque_fields);
}

#[test]
fn private_float_field_keeps_sse_class() {
    let private = record(
        1,
        "StructFloat",
        vec![field("0", CcType::Builtin(CcBuiltin::Float), AccessSpecifier::Private, 0, 4)],
        4,
        4,
        None,
    );
    let b = generate(&ir(vec![Item::Record(private)]));
    let r = record_binding(&b, 0);
    assert!(r.has_opaque_fields);
    assert_eq!(r.abi_class, Some(AbiClass::Registers(RegClass::Sse, RegClass::NoClass)));
}

#[test]
fn packed_private_fields_keep_memory_class() {
    let packed = record(
        1,
        "StructMemory",
        vec![
            field("_padding", CcType::Builtin(CcBuiltin::UInt8), AccessSpecifier::Private, 0, 1),
            field("i", CcType::Builtin(CcBuiltin::Int32), AccessSpecifier::Private, 1, 4),
        ],
        5,
        1,
        None,
    );
    let b = generate(&ir(vec![Item::Record(packed)]));
    let r = record_binding(&b, 0);
    assert!(r.has_opaque_fields);
    assert_eq!(r.abi_class, Some(AbiClass::Memory));
    assert_eq!(
        r.layout,
        vec![
            LayoutAssertion::Size(5),
            LayoutAssertion::Alignment(1),
            LayoutAssertion::FieldOffset { field: 0, offset: 0 },
            LayoutAssertion::FieldOffset { field: 1, offset: 1 },
        ]
    );
}

#[test]
fn private_record_field_cannot_be_checked() {
    let inner = record(1, "Inner", vec![field("x", cc_int(), AccessSpecifier::Public, 0, 4)], 4, 4, None);
    let outer = record(2, "Outer", vec![field("inner", CcType::Decl(1), AccessSpecifier::Private, 0, 4)], 4, 4, None);
    let b = generate(&ir(vec![Item::Record(inner), Item::Record(outer)]));
    assert!(matches!(b.items[1], ItemBinding::Unsupported(UnsupportedReason::OpaqueStorageChangesAbi)));
}

#[test]
fn private_field_with_inconsistent_size_is_refused() {
    let odd = record(1, "Odd", vec![field("x", cc_int(), AccessSpecifier::Private, 4, 8)], 12, 4, None);
    let b = generate(&ir(vec![Item::Record(odd)]));
    assert!(matches!(b.items[0], ItemBinding::Unsupported(UnsupportedReason::OpaqueStorageChangesAbi)));
}

#[test]
fn mutually_referencing_modules_define_structs_first() {
    let items = vec![
        Item::Namespace(namespace(10, "m1")),
        Item::Record(record(1, "S1", vec![field("0", cc_int(), AccessSpecifier::Public, 0, 4)], 4, 4, Some(10))),
        Item::Func(func("create_s2", "create_s2", vec![], CcType::Decl(2), Some(10))),
        Item::Func(func("get_int_from_s2", "get_int_from_s2", vec![("s2", CcType::Decl(2))], cc_int(), Some(10))),
        Item::Namespace(namespace(20, "m2")),
        Item::Record(record(2, "S2", vec![field("0", cc_int(), AccessSpecifier::Public, 0, 4)], 4, 4, Some(20))),
        Item::Func(func("create_s1", "create_s1", vec![], CcType::Decl(1), Some(20))),
        Item::Func(func("get_int_from_s1", "get_int_from_s1", vec![("s1", CcType::Decl(1))], cc_int(), Some(20))),
    ];
    let b = generate(&ir(items));
    assert_eq!(definitions(&b), vec![0, 1, 4, 5, 2, 3, 6, 7]);
    assert_eq!(b.order.sequence.len(), 8);
    let chunks: Vec<(usize, Vec<Emission>)> = b.chunks.iter().map(|c| (c.container, c.emissions.clone())).collect();
    assert_eq!(
        chunks,
        vec![
            (8, vec![Emission::Definition(0)]),
            (0, vec![Emission::Definition(1)]),
            (8, vec![Emission::Definition(4)]),
            (4, vec![Emission::Definition(5)]),
            (0, vec![Emission::Definition(2), Emission::Definition(3)]),
            (4, vec![Emission::Definition(6), Emission::Definition(7)]),
        ]
    );
}

#[test]
fn pointer_use_before_definition_is_forward_declared() {
    let items = vec![
        Item::Func(func(
            "get_int_from_s1",
            "get_int_from_s1",
            vec![("s1", CcType::Pointer { pointee: Box::new(CcType::Decl(1)), is_const: true })],
            cc_int(),
            None,
        )),
        Item::Func(func("create_s1", "create_s1", vec![], CcType::Decl(1), None)),
        Item::Record(record(1, "S1", vec![field("0", cc_int(), AccessSpecifier::Private, 0, 4)], 4, 4, None)),
    ];
    let b = generate(&ir(items));
    assert_eq!(
        b.order.sequence,
        vec![Emission::ForwardDecl(2), Emission::Definition(0), Emission::Definition(2), Emission::Definition(1)]
    );
    assert_eq!(b.order.forward_slot, vec![None, None, Some(0)]);
    assert_eq!(b.order.definition_slot, vec![1, 3, 2]);
}

#[test]
fn by_value_cycle_gets_a_forward_declaration() {
    let a = record(1, "A", vec![field("b", CcType::Decl(2), AccessSpecifier::Public, 0, 4)], 4, 4, None);
    let c = record(2, "B", vec![field("a", CcType::Decl(1), AccessSpecifier::Public, 0, 4)], 4, 4, None);
    let b = generate(&ir(vec![Item::Record(a), Item::Record(c)]));
    assert_eq!(
        b.order.sequence,
        vec![Emission::ForwardDecl(1), Emission::Definition(0), Emission::Definition(1)]
    );
}

#[test]
fn self_reference_needs_no_forward_declaration() {
    let s = record(
        1,
        "SomeStruct",
        vec![field("ptr", CcType::Pointer { pointee: Box::new(CcType::Decl(1)), is_const: false }, AccessSpecifier::Public, 0, 8)],
        8,
        8,
        None,
    );
    let b = generate(&ir(vec![Item::Record(s)]));
    assert_eq!(b.order.sequence, vec![Emission::Definition(0)]);
    assert_eq!(
        record_binding(&b, 0).field_types,
        vec![RsType::MutPtr(Box::new(RsType::Decl(1)))]
    );
}

#[test]
fn method_with_reference_param_gets_two_lifetimes() {
    let mut f = method_of(func("f", "_ZN1S1fERi", vec![("i", mut_ref(cc_int()))], mut_ref(cc_int()), None), 1, 1);
    f.has_lifetime_elision = true;
    let s = record(1, "S", vec![], 1, 1, None);
    let b = generate(&ir(vec![Item::Record(s), Item::Func(f)]));
    let fb = func_binding(&b, 1);
    assert_eq!(fb.lifetimes.lifetime_params, vec![0, 1]);
    assert_eq!(fb.lifetimes.param_lifetimes, vec![Some(0), Some(1)]);
    assert_eq!(fb.lifetimes.return_lifetime, Some(1));
    assert_eq!(
        fb.param_types,
        vec![
            RsType::MutRef { pointee: Box::new(RsType::Decl(1)), lifetime: 0 },
            RsType::MutRef { pointee: Box::new(RsType::Prim(RsPrim::I32)), lifetime: 1 },
        ]
    );
    assert_eq!(fb.return_type, RsType::MutRef { pointee: Box::new(RsType::Prim(RsPrim::I32)), lifetime: 1 });
}

#[test]
fn free_function_return_borrows_from_its_reference_param() {
    let mut f = func("free_function", "_Z13free_functionRi", vec![("p1", mut_ref(cc_int()))], mut_ref(cc_int()), None);
    f.has_lifetime_elision = true;
    let b = generate(&ir(vec![Item::Func(f)]));
    let fb = func_binding(&b, 0);
    assert_eq!(fb.lifetimes.lifetime_params, vec![0]);
    assert_eq!(fb.lifetimes.param_lifetimes, vec![Some(0)]);
    assert_eq!(fb.lifetimes.return_lifetime, Some(0));
    assert_eq!(fb.thunk.link_name, Some("_Z13free_functionRi".to_string()));
    assert_eq!(fb.thunk.thunk_name, "__rust_thunk___Z13free_functionRi");
}

#[test]
fn ambiguous_return_lifetime_is_unsupported() {
    let mut f = func(
        "two",
        "_Z3twoRiS_",
        vec![("a", mut_ref(cc_int())), ("b", mut_ref(cc_int()))],
        mut_ref(cc_int()),
        None,
    );
    f.has_lifetime_elision = true;
    let b = generate(&ir(vec![Item::Func(f)]));
    assert!(matches!(b.items[0], ItemBinding::Unsupported(UnsupportedReason::Elision(ElisionError::AmbiguousReturn))));
}

#[test]
fn method_without_elision_is_unsupported() {
    let f = method_of(func("operator=", "_ZN5OuteraSERKS_", vec![], CcType::Void, None), 1, 1);
    let b = generate(&ir(vec![Item::Record(record(1, "Outer", vec![], 1, 1, None)), Item::Func(f)]));
    assert!(matches!(
        b.items[1],
        ItemBinding::Unsupported(UnsupportedReason::Elision(ElisionError::ReceiverWithoutLifetime))
    ));
}

#[test]
fn constructor_without_elision_is_unsupported() {
    let mut f = method_of(func("Outer", "_ZN5OuterC1Ev", vec![], CcType::Void, None), 1, 1);
    f.name = UnqualifiedIdentifier::Constructor;
    let b = generate(&ir(vec![Item::Record(record(1, "Outer", vec![], 1, 1, None)), Item::Func(f)]));
    assert!(matches!(
        b.items[1],
        ItemBinding::Unsupported(UnsupportedReason::Elision(ElisionError::UnsafeConstructor))
    ));
}

#[test]
fn user_of_unsupported_type_is_unsupported() {
    let items = vec![
        Item::UnsupportedItem(UnsupportedItem {
            id: Some(5),
            name: "my_namespace::Unsupported".to_string(),
            message: "Items in namespaces are not supported yet".to_string(),
            owning_target: TARGET.to_string(),
            source_loc: loc(),
        }),
        Item::Func(func(
            "f",
            "_Z1fPN12my_namespace11UnsupportedE",
            vec![("unsupported", CcType::Pointer { pointee: Box::new(CcType::Decl(5)), is_const: false })],
            CcType::Void,
            None,
        )),
        Item::Record(record(1, "S", vec![field("unsupported", CcType::Decl(5), AccessSpecifier::Public, 0, 1)], 1, 1, None)),
        Item::Func(func("g", "_Z1gv", vec![], CcType::Decl(1), None)),
    ];
    let b = generate(&ir(items));
    assert_eq!(b.status, vec![Some(Cause::Intrinsic), Some(Cause::Uses(0)), Some(Cause::Uses(0)), Some(Cause::Uses(2))]);
    assert!(matches!(b.items[0], ItemBinding::Unsupported(UnsupportedReason::FrontEnd)));
    assert!(matches!(b.items[1], ItemBinding::Unsupported(UnsupportedReason::DependsOn(0))));
    assert!(matches!(b.items[2], ItemBinding::Unsupported(UnsupportedReason::DependsOn(0))));
    assert!(matches!(b.items[3], ItemBinding::Unsupported(UnsupportedReason::DependsOn(2))));
}

#[test]
fn member_of_unsupported_record_is_unsupported() {
    let items = vec![
        Item::UnsupportedItem(UnsupportedItem {
            id: Some(7),
            name: "SomeStruct::NestedStruct".to_string(),
            message: "Nested classes are not supported yet".to_string(),
            owning_target: TARGET.to_string(),
            source_loc: loc(),
        }),
        Item::Func({
            let mut f = func("StaticMemberFunction", "_ZN10SomeStruct12NestedStruct20StaticMemberFunctionEv", vec![], CcType::Void, None);
            f.member_func_metadata = Some(MemberFuncMetadata { record_id: 7, instance_method_metadata: None });
            f
        }),
    ];
    let b = generate(&ir(items));
    assert!(matches!(b.items[1], ItemBinding::Unsupported(UnsupportedReason::DependsOn(0))));
}

#[test]
fn unsupported_item_of_dependency_is_not_reported() {
    let items = vec![
        Item::UnsupportedItem(UnsupportedItem {
            id: Some(5),
            name: "my_namespace::StructFromNamespaceIsUnsupported".to_string(),
            message: "Items in namespaces are not supported yet".to_string(),
            owning_target: "//test:dependency".to_string(),
            source_loc: loc(),
        }),
        Item::Record(record(1, "MyOtherStruct", vec![field("my_struct", CcType::Decl(5), AccessSpecifier::Public, 0, 1)], 1, 1, None)),
    ];
    let b = generate(&ir(items));
    assert!(matches!(b.items[0], ItemBinding::OtherTarget));
    assert!(matches!(b.items[1], ItemBinding::Unsupported(UnsupportedReason::DependsOn(0))));
}

#[test]
fn unknown_declaration_is_unsupported() {
    let b = generate(&ir(vec![Item::Func(func("f", "_Z1f3Foo", vec![("x", CcType::Decl(99))], CcType::Void, None))]));
    assert!(matches!(b.items[0], ItemBinding::Unsupported(UnsupportedReason::UnknownDecl(99))));
}

#[test]
fn volatile_return_is_unsupported() {
    let f = func(
        "foo",
        "_Z3foov",
        vec![],
        CcType::Pointer { pointee: Box::new(CcType::Volatile(Box::new(cc_int()))), is_const: false },
        None,
    );
    let b = generate(&ir(vec![Item::Func(f)]));
    assert!(matches!(b.items[0], ItemBinding::Unsupported(UnsupportedReason::Type(TypeError::Volatile))));
}

#[test]
fn typedef_keeps_its_own_name() {
    let alias = crubit::ir::TypeAlias {
        id: 3,
        identifier: "MyTypedef".to_string(),
        owning_target: TARGET.to_string(),
        underlying_type: cc_int(),
        enclosing_namespace_id: None,
        source_loc: loc(),
    };
    let f = func("f", "_Z1fi", vec![("my_typedef", CcType::Decl(3))], CcType::Void, None);
    let b = generate(&ir(vec![Item::TypeAlias(alias), Item::Func(f)]));
    assert!(matches!(&b.items[0], ItemBinding::TypeAlias(RsType::Prim(RsPrim::I32))));
    assert_eq!(func_binding(&b, 1).param_types, vec![RsType::Decl(3)]);
    assert_eq!(definitions(&b), vec![0, 1]);
}

#[test]
fn thunks_for_trivial_and_nonfinal_types() {
    let trivial = record(1, "Trivial", vec![field("trivial_field", cc_int(), AccessSpecifier::Public, 0, 4)], 4, 4, None);
    let mut nonfinal = record(2, "TrivialNonfinal", vec![field("trivial_field", cc_int(), AccessSpecifier::Public, 0, 4)], 4, 4, None);
    nonfinal.is_inheritable = true;
    let by_value = func("TakesByValue", "_ZN2ns12TakesByValueENS_7TrivialE", vec![("trivial", CcType::Decl(1))], CcType::Void, None);
    let nonfinal_by_value = func(
        "TakesTrivialNonfinalByValue",
        "_ZN2ns27TakesTrivialNonfinalByValueENS_15TrivialNonfinalE",
        vec![("trivial", CcType::Decl(2))],
        CcType::Void,
        None,
    );
    let mut ctor = method_of(func("Trivial", "_ZN2ns7TrivialC1Ev", vec![], CcType::Void, None), 1, 1);
    ctor.name = UnqualifiedIdentifier::Constructor;
    ctor.is_inline = true;
    ctor.has_lifetime_elision = true;
    let b = generate(&ir(vec![
        Item::Record(trivial),
        Item::Record(nonfinal),
        Item::Func(by_value),
        Item::Func(nonfinal_by_value),
        Item::Func(ctor),
    ]));
    let direct = func_binding(&b, 2);
    assert_eq!(direct.thunk.link_name, Some("_ZN2ns12TakesByValueENS_7TrivialE".to_string()));
    assert_eq!(direct.thunk.params, vec![ThunkParam::ByValue(0)]);
    assert_eq!(direct.thunk.result, ThunkReturn::Nothing);
    let wrapped = func_binding(&b, 3);
    assert_eq!(wrapped.thunk.link_name, None);
    assert_eq!(wrapped.thunk.params, vec![ThunkParam::ByPointer(0)]);
    let ctor = func_binding(&b, 4);
    assert_eq!(ctor.thunk.thunk_name, "__rust_thunk___ZN2ns7TrivialC1Ev");
    assert_eq!(ctor.thunk.link_name, None);
    assert_eq!(ctor.thunk.params, vec![ThunkParam::UninitStorage]);
    assert_eq!(ctor.thunk.result, ThunkReturn::Nothing);
    assert_eq!(ctor.constructor_trait, Some(ConstructorTrait::Default));
    let r = record_binding(&b, 1);
    assert!(!r.capabilities.is_unpin);
    assert!(!r.capabilities.derive_copy);
}

#[test]
fn running_twice_gives_identical_output() {
    let make = || {
        ir(vec![
            Item::Namespace(namespace(10, "m1")),
            Item::Record(record(1, "S1", vec![field("0", cc_int(), AccessSpecifier::Private, 0, 4)], 4, 4, Some(10))),
            Item::Func(func("create_s2", "create_s2", vec![], CcType::Decl(2), Some(10))),
            Item::Record(record(2, "S2", vec![field("0", cc_int(), AccessSpecifier::Public, 0, 4)], 4, 4, None)),
        ])
    };
    let first = format!("{:?}", generate(&make()));
    let second = format!("{:?}", generate(&make()));
    assert_eq!(first, second);
}

#[test]
fn unnamed_parameter_is_unsupported() {
    let f = func("multiply", "_Z8multiplyii", vec![("a", cc_int()), ("", cc_int())], cc_int(), None);
    let b = generate(&ir(vec![Item::Func(f)]));
    assert!(matches!(b.items[0], ItemBinding::Unsupported(UnsupportedReason::UnnamedParameter(1))));
}

#[test]
fn record_holding_nontrivial_record_is_pinned() {
    let mut inner = record(1, "Inner", vec![field("x", cc_int(), AccessSpecifier::Public, 0, 4)], 4, 4, None);
    inner.is_trivial_abi = false;
    let outer = record(2, "Outer", vec![field("inner", CcType::Decl(1), AccessSpecifier::Public, 0, 4)], 4, 4, None);
    let b = generate(&ir(vec![Item::Record(inner), Item::Record(outer)]));
    assert!(!record_binding(&b, 0).capabilities.is_unpin);
    assert!(!record_binding(&b, 1).capabilities.is_unpin);
    assert!(!record_binding(&b, 1).capabilities.derive_copy);
}

#[test]
fn rejections_are_reported_with_scoped_names() {
    let items = vec![
        Item::UnsupportedItem(UnsupportedItem {
            id: Some(7),
            name: "SomeStruct::NestedStruct".to_string(),
            message: "Nested classes are not supported yet".to_string(),
            owning_target: TARGET.to_string(),
            source_loc: SourceLoc { filename: "nested.h".to_string(), line: 4, column: 3 },
        }),
        Item::Func({
            let mut f = func("StaticMemberFunction", "_ZN10SomeStruct12NestedStruct20StaticMemberFunctionEv", vec![], CcType::Void, None);
            f.member_func_metadata = Some(MemberFuncMetadata { record_id: 7, instance_method_metadata: None });
            f
        }),
        Item::Record(record(1, "Outer", vec![], 1, 1, None)),
        Item::Func({
            let mut f = method_of(func("Outer", "_ZN5OuterC1Ev", vec![], CcType::Void, None), 1, 1);
            f.name = UnqualifiedIdentifier::Constructor;
            f
        }),
        Item::Func({
            let mut f = method_of(func("=", "_ZN5OuteraSERKS_", vec![], CcType::Void, None), 1, 1);
            f.name = UnqualifiedIdentifier::Operator("=".to_string());
            f
        }),
    ];
    let input = ir(items);
    let b = generate(&input);
    let reports = unsupported_reports(&input, &b);
    let names: Vec<&str> = reports.iter().map(|r| r.name.as_str()).collect();
    assert_eq!(
        names,
        vec!["SomeStruct::NestedStruct", "SomeStruct::NestedStruct::StaticMemberFunction", "Outer::Outer", "Outer::operator="]
    );
    assert_eq!(reports[0].reason, UnsupportedReason::FrontEnd);
    assert_eq!((reports[0].filename.as_str(), reports[0].line, reports[0].column), ("nested.h", 4, 3));
    assert_eq!(reports[1].reason, UnsupportedReason::DependsOn(0));
    assert_eq!(reports[2].reason, UnsupportedReason::Elision(ElisionError::UnsafeConstructor));
    assert_eq!(reports[3].reason, UnsupportedReason::Elision(ElisionError::ReceiverWithoutLifetime));
    assert_eq!(reports.iter().map(|r| r.item).collect::<Vec<_>>(), vec![0, 1, 3, 4]);
}

#[test]
fn namespaced_item_is_named_through_its_namespace() {
    let items = vec![
        Item::Namespace(namespace(10, "my_namespace")),
        Item::Func(func("f", "_ZN12my_namespace1fEv", vec![], CcType::Volatile(Box::new(cc_int())), Some(10))),
    ];
    let input = ir(items);
    let b = generate(&input);
    let reports = unsupported_reports(&input, &b);
    assert_eq!(reports.len(), 1);
    assert_eq!(reports[0].name, "my_namespace::f");
    assert_eq!(reports[0].reason, UnsupportedReason::Type(TypeError::Volatile));
}

#[test]
fn notes_and_layout_assertions_as_text() {
    let items = vec![
        Item::UnsupportedItem(UnsupportedItem {
            id: Some(7),
            name: "SomeStruct::NestedStruct".to_string(),
            message: "Nested classes are not supported yet".to_string(),
            owning_target: TARGET.to_string(),
            source_loc: SourceLoc { filename: "nested.h".to_string(), line: 4, column: 3 },
        }),
        Item::Record(record(1, "S", vec![field("n", CcType::Decl(7), AccessSpecifier::Public, 0, 1)], 1, 1, None)),
        Item::Func(func("f", "_Z1fv", vec![], CcType::Decl(99), None)),
    ];
    let input = ir(items);
    let b = generate(&input);
    let reports = unsupported_reports(&input, &b);
    assert_eq!(reports[1].cited, "SomeStruct::NestedStruct");
    assert_eq!(
        render_notes(&reports),
        "// Generated from: nested.h;l=4\n\
         // Error while generating bindings for item 'SomeStruct::NestedStruct' (not supported):\n\
         // Nested classes are not supported yet\n\n\
         // Generated from: ir_from_cc_virtual_header.h;l=3\n\
         // Error while generating bindings for item 'S' (not supported):\n\
         // Depends on unsupported item 'SomeStruct::NestedStruct'\n\n\
         // Generated from: ir_from_cc_virtual_header.h;l=3\n\
         // Error while generating bindings for item 'f' (not supported):\n\
         // Unknown declaration with id 99\n\n"
    );
    let point = record(
        1,
        "Point",
        vec![
            field("x", CcType::Builtin(CcBuiltin::Int32), AccessSpecifier::Public, 0, 4),
            field("y", CcType::Builtin(CcBuiltin::Int32), AccessSpecifier::Public, 4, 4),
        ],
        8,
        4,
        None,
    );
    assert_eq!(
        render_layout_assertions(&point),
        "const _: () = assert!(::core::mem::size_of::<crate::Point>() == 8);\n\
         const _: () = assert!(::core::mem::align_of::<crate::Point>() == 4);\n\
         const _: () = assert!(::core::mem::offset_of!(crate::Point, x) == 0);\n\
         const _: () = assert!(::core::mem::offset_of!(crate::Point, y) == 4);\n"
    );
}

#[test]
fn decimal_rendering() {
    for (n, text) in [(0u64, "0"), (7, "7"), (10, "10"), (312, "312"), (4294967295, "4294967295"), (u64::MAX, "18446744073709551615")] {
        let mut s = String::from("#");
        push_decimal(&mut s, n);
        assert_eq!(s, format!("#{}", text));
    }
}

#[test]
fn report_lists_every_unsupported_use() {
    let unsupported = |id: u64, name: &str| {
        Item::UnsupportedItem(UnsupportedItem {
            id: Some(id),
            name: name.to_string(),
            message: "Unions are not supported yet".to_string(),
            owning_target: TARGET.to_string(),
            source_loc: loc(),
        })
    };
    let items = vec![
        unsupported(5, "U1"),
        unsupported(6, "U2"),
        Item::Func(func(
            "f",
            "_Z1fP2U1P2U2",
            vec![
                ("a", CcType::Pointer { pointee: Box::new(CcType::Decl(5)), is_const: false }),
                ("b", CcType::Pointer { pointee: Box::new(CcType::Decl(6)), is_const: false }),
            ],
            CcType::Void,
            None,
        )),
    ];
    let input = ir(items);
    let b = generate(&input);
    let reports = unsupported_reports(&input, &b);
    assert_eq!(reports.len(), 3);
    assert!(reports[0].blocked_by.is_empty());
    assert_eq!(reports[2].item, 2);
    assert_eq!(reports[2].reason, UnsupportedReason::DependsOn(0));
    assert_eq!(reports[2].blocked_by, vec![0, 1]);
}
