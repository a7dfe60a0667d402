//! A two-dimensional position in character-cell coordinates, used by the
//! text buffer to record where the cursor stood before and after an edit.

use vstd::prelude::*;

verus! {

#[derive(Clone, Copy, PartialEq, Eq, Structural, Debug)]
pub struct Vector2D {
    pub x: u32,
    pub y: u32,
}

impl Vector2D {
    pub fn new(x: u32, y: u32) -> (r: Self)
        ensures
            r == (Vector2D { x, y }),
    {
        Self { x, y }
    }
}

} // verus!
