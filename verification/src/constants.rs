use vstd::prelude::*;

verus! {

/// Width of the playing grid, in tiles.
pub const MAP_WIDTH: u8 = 8;

/// Height of the playing grid, in tiles.
pub const MAP_HEIGHT: u8 = 9;

} // verus!
