use vstd::prelude::*;

verus! {

/// A pixel coordinate.
#[derive(Clone, Copy, Debug, PartialEq, Eq, Structural)]
pub struct Point {
    pub x: u32,
    pub y: u32,
}

impl Point {
    pub fn new(x: u32, y: u32) -> (p: Self)
        ensures
            p.x == x,
            p.y == y,
    {
        Self { x, y }
    }

    pub fn from_tuple(p: &(u32, u32)) -> (q: Self)
        ensures
            q.x == p.0,
            q.y == p.1,
    {
        Self { x: p.0, y: p.1 }
    }

    pub fn from_array(p: &[u32; 2]) -> (q: Self)
        ensures
            q.x == p[0],
            q.y == p[1],
    {
        Self { x: p[0], y: p[1] }
    }
}

impl Default for Point {
    /// The origin.
    fn default() -> (p: Self)
        ensures
            p.x == 0,
            p.y == 0,
    {
        Self { x: 0, y: 0 }
    }
}

} // verus!
