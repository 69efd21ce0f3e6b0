use crubit::samples::abi_classification::{StructInteger, StructMemory};
use crubit::samples::fwd_decls;
use crubit::samples::reordering_m1::{create_s2, get_int_from_s2, S1};
use crubit::samples::reordering_m2::{create_s1, get_int_from_s1, S2};
use crubit::samples::trivial_type::{Trivial, TrivialWithDefaulted};
use crubit::samples::types::{Color, SomeStruct};
use crubit::samples::{default_repr, repr_c};

#[test]
fn repr_c_point_round_trip() {
    let p = repr_c::create(3, -4);
    assert_eq!(p.y, -4);
    assert_eq!(repr_c::get_x(p), 3);
}

#[test]
fn default_repr_point_round_trip() {
    let p = default_repr::create(7, 8);
    assert_eq!(p.y, 8);
    assert_eq!(default_repr::get_x(p), 7);
}

#[test]
fn struct_integer_multiplies() {
    let x = StructInteger::create(6);
    let y = StructInteger::create(-7);
    assert_eq!(StructInteger::inspect(StructInteger::multiply(x, y)), -42);
}

#[test]
fn struct_memory_multiplies() {
    let x = StructMemory::create(11);
    let y = StructMemory::create(12);
    assert_eq!(StructMemory::inspect(StructMemory::multiply(x, y)), 132);
}

#[test]
fn reordering_structs_cross_reference() {
    assert_eq!(get_int_from_s2(create_s2()), 123);
    assert_eq!(get_int_from_s1(create_s1()), 456);
    assert_eq!(get_int_from_s1(S1(5)), 5);
    assert_eq!(get_int_from_s2(S2(6)), 6);
}

#[test]
fn forward_declared_struct_is_usable() {
    let s = fwd_decls::create_s1();
    assert_eq!(fwd_decls::get_int_from_s1(&s), 456);
}

#[test]
fn trivial_types_default_to_zero() {
    let t: Trivial = Default::default();
    assert_eq!(t.trivial_field, 0);
    let u: TrivialWithDefaulted = Default::default();
    assert_eq!(u.trivial_field, 0);
    let copy = t;
    assert_eq!(copy, t);
    let _s: SomeStruct = Default::default();
}

#[test]
fn color_converts_both_ways() {
    assert_eq!(Color::kRed().0, 0);
    assert_eq!(Color::kBlue().0, 1);
    assert_eq!(Color::kLimeGreen().0, 4294967295);
    let c: Color = 4u32.into();
    assert_eq!(c, Color(4));
    let v: u32 = Color::kBlue().into();
    assert_eq!(v, 1);
}
