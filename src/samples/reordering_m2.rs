//! Second of two modules whose items refer to each other's structs by value.
use vstd::prelude::*;
use crate::samples::reordering_m1::S1;

verus! {

#[derive(Clone, Copy, Debug, PartialEq, Eq, Structural)]
pub struct S2(pub i32);

pub fn create_s1() -> (r: S1)
    ensures
        r.0 == 456,
{
    S1(456)
}

pub fn get_int_from_s1(s1: S1) -> (r: i32)
    ensures
        r == s1.0,
{
    s1.0
}

} // verus!
