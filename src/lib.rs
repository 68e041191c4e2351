//! Renders a grid of RGBA pixels as text colored with terminal escape sequences.
use vstd::prelude::*;

pub mod codec;
pub mod grid;
pub mod half_block;
pub mod render;
pub mod runs;

verus! {

/// True when `test` lies inside a grid of the given `(width, height)`.
pub fn is_valid_position(test: (u32, u32), dimensions: (u32, u32)) -> (r: bool)
    ensures
        r == (test.0 < dimensions.0 && test.1 < dimensions.1),
{
    test.0 < dimensions.0 && test.1 < dimensions.1
}

} // verus!
