//! Destination-side type for a C++ class whose only members are private.
use vstd::prelude::*;

verus! {

/// One byte of storage; the class is neither `Copy` nor `Default` here.
#[derive(Debug)]
pub struct Outer {
    non_field_data: [u8; 1],
}

} // verus!
