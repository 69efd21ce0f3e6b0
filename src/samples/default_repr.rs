//! A struct with the default (unspecified) Rust layout and two free functions over it.
use vstd::prelude::*;

verus! {

#[derive(Clone, Copy, Debug, PartialEq, Eq, Structural)]
pub struct Point {
    pub x: i32,
    pub y: i32,
}

pub fn create(x: i32, y: i32) -> (r: Point)
    ensures
        r.x == x,
        r.y == y,
{
    Point { x, y }
}

pub fn get_x(p: Point) -> (r: i32)
    ensures
        r == p.x,
{
    p.x
}

} // verus!
