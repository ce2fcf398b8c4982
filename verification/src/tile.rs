//! Global tile ids.

use vstd::prelude::*;

verus! {

/// The id of a tile in the one numbering that all tilesets of a map share.
#[derive(Debug, PartialEq, Eq, Clone, Copy, Structural)]
pub struct Gid(pub u32);

impl Gid {
    /// The id that stands for no tile.
    pub fn empty() -> (g: Gid)
        ensures
            g == Gid(0),
    {
        Gid(0)
    }
}

} // verus!
