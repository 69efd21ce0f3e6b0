//! First of two modules whose items refer to each other's structs by value.
use vstd::prelude::*;
use crate::samples::reordering_m2::S2;

verus! {

#[derive(Clone, Copy, Debug, PartialEq, Eq, Structural)]
pub struct S1(pub i32);

pub fn create_s2() -> (r: S2)
    ensures
        r.0 == 123,
{
    S2(123)
}

pub fn get_int_from_s2(s2: S2) -> (r: i32)
    ensures
        r == s2.0,
{
    s2.0
}

} // verus!
