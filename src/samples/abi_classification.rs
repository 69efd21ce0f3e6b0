//! Structs whose private fields exercise the three System V ABI classes:
//! integer, SSE (not representable here) and memory.
use vstd::prelude::*;

verus! {

/// Passed in an integer register.
#[derive(Clone, Copy, Debug)]
pub struct StructInteger(i32);

/// Packed, so its `i32` field is misaligned and the struct is passed in memory.
#[derive(Clone, Copy, Debug)]
pub struct StructMemory {
    _padding: u8,
    i: i32,
}

impl View for StructInteger {
    type V = i32;

    closed spec fn view(&self) -> i32 {
        self.0
    }
}

impl View for StructMemory {
    /// The padding byte, then the value.
    type V = (u8, i32);

    closed spec fn view(&self) -> (u8, i32) {
        (self._padding, self.i)
    }
}

impl StructInteger {
    pub fn create(i: i32) -> (r: Self)
        ensures
            r@ == i,
    {
        Self(i)
    }

    pub fn multiply(x: Self, y: Self) -> (r: Self)
        requires
            i32::MIN <= x@ * y@ <= i32::MAX,
        ensures
            r@ == x@ * y@,
    {
        Self(x.0 * y.0)
    }

    pub fn inspect(s: Self) -> (r: i32)
        ensures
            r == s@,
    {
        s.0
    }
}

impl StructMemory {
    pub fn create(i: i32) -> (r: Self)
        ensures
            r@ == (0u8, i),
    {
        Self { _padding: 0, i }
    }

    /// The padding of the result is 0, whatever the padding of the inputs.
    pub fn multiply(x: Self, y: Self) -> (r: Self)
        requires
            i32::MIN <= x@.1 * y@.1 <= i32::MAX,
        ensures
            r@.0 == 0,
            r@.1 == x@.1 * y@.1,
    {
        Self::create(x.i * y.i)
    }

    pub fn inspect(s: Self) -> (r: i32)
        ensures
            r == s@.1,
    {
        s.i
    }
}

} // verus!
