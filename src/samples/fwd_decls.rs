//! A function that refers to a struct before the struct is declared.
use vstd::prelude::*;

verus! {

pub fn get_int_from_s1(s1: &S1) -> (r: i32)
    ensures
        r == s1@,
{
    s1.0
}

pub fn create_s1() -> (r: S1)
    ensures
        r@ == 456,
{
    S1(456)
}

#[derive(Clone, Copy, Debug)]
pub struct S1(i32);

impl View for S1 {
    type V = i32;

    closed spec fn view(&self) -> i32 {
        self.0
    }
}

} // verus!
