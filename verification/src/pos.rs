use vstd::prelude::*;

verus! {

/// A position on the canvas: a pair of signed coordinates, so that shapes
/// partly off the canvas can be described before clipping.
#[derive(Eq, PartialEq, Structural, Debug, Copy, Clone)]
pub struct Pos {
    pub x: i32,
    pub y: i32,
}

impl Pos {
    pub fn new(x: i32, y: i32) -> (r: Self)
        ensures
            r == (Pos { x, y }),
    {
        Self { x, y }
    }
}

impl Default for Pos {
    fn default() -> (r: Self)
        ensures
            r == (Pos { x: 0, y: 0 }),
    {
        Self { x: 0, y: 0 }
    }
}

} // verus!
