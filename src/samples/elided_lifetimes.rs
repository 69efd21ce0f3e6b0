//! Destination-side type for an empty C++ struct whose members use elided
//! reference lifetimes.
use vstd::prelude::*;

verus! {

/// Keeps the empty C++ struct from being zero-sized on this side.
#[derive(Clone, Copy, Debug)]
pub struct S {
    placeholder: u8,
}

} // verus!
