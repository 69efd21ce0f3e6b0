//! Destination-side types for a header of assorted declarations.
use vstd::prelude::*;

verus! {

/// An empty C++ struct: one byte of storage that carries no field.
#[derive(Clone, Copy, Debug)]
pub struct SomeStruct {
    non_field_data: [u8; 1],
}

impl View for SomeStruct {
    type V = u8;

    /// The byte of storage.
    closed spec fn view(&self) -> u8 {
        self.non_field_data[0]
    }
}

impl Default for SomeStruct {
    fn default() -> (r: Self)
        ensures
            r@ == 0,
    {
        SomeStruct { non_field_data: [0u8; 1] }
    }
}

/// A C++ enum with an underlying `unsigned int`, bound as a transparent
/// wrapper so that every value of the underlying type is representable.
#[derive(Clone, Copy, Debug, PartialEq, Eq, Structural)]
pub struct Color(pub u32);

#[allow(non_snake_case)]
impl Color {
    pub fn kRed() -> (r: Color)
        ensures
            r.0 == 0,
    {
        Color(0)
    }

    pub fn kBlue() -> (r: Color)
        ensures
            r.0 == 1,
    {
        Color(1)
    }

    pub fn kLimeGreen() -> (r: Color)
        ensures
            r.0 == 4294967295,
    {
        Color(4294967295)
    }
}

impl From<u32> for Color {
    fn from(value: u32) -> (r: Color) {
        Color(value)
    }
}

impl vstd::std_specs::convert::FromSpecImpl<u32> for Color {
    open spec fn obeys_from_spec() -> bool {
        true
    }

    open spec fn from_spec(v: u32) -> Color {
        Color(v)
    }
}

impl From<Color> for u32 {
    fn from(value: Color) -> (r: u32) {
        value.0
    }
}

impl vstd::std_specs::convert::FromSpecImpl<Color> for u32 {
    open spec fn obeys_from_spec() -> bool {
        true
    }

    open spec fn from_spec(v: Color) -> u32 {
        v.0
    }
}

} // verus!
