//! Destination-side types for C++ structs whose special members are trivial.
use vstd::prelude::*;

verus! {

/// Implicitly defined special members, all trivial: the type is `Copy`.
#[derive(Clone, Copy, Debug, PartialEq, Eq, Structural)]
pub struct Trivial {
    pub trivial_field: i32,
}

/// Explicitly defaulted special members, still trivial: the type is `Copy`.
#[derive(Clone, Copy, Debug, PartialEq, Eq, Structural)]
pub struct TrivialWithDefaulted {
    pub trivial_field: i32,
}

/// Trivial, hence trivially relocatable, but not final: it is never handed
/// out as a plain movable value, so it has no `Copy` and no `Default`.
#[derive(Debug)]
pub struct TrivialNonfinal {
    pub trivial_field: i32,
}

impl Default for Trivial {
    /// The storage is zeroed and the trivial constructor leaves it so.
    fn default() -> (r: Self)
        ensures
            r.trivial_field == 0,
    {
        Trivial { trivial_field: 0 }
    }
}

impl Default for TrivialWithDefaulted {
    /// The storage is zeroed and the defaulted constructor leaves it so.
    fn default() -> (r: Self)
        ensures
            r.trivial_field == 0,
    {
        TrivialWithDefaulted { trivial_field: 0 }
    }
}

} // verus!
