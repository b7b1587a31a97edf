//! Integer geometry: resolved sizes and local positions.

use vstd::prelude::*;

verus! {

/// A resolved two-dimensional extent, in integer layout units.
#[derive(Debug, Clone, Copy, PartialEq, Eq, Hash, Structural)]
pub struct Size {
    pub width: u32,
    pub height: u32,
}

/// A position in the local coordinate space of a render node.
#[derive(Debug, Clone, Copy, PartialEq, Eq, Hash, Structural)]
pub struct Offset {
    pub x: u32,
    pub y: u32,
}

impl Size {
    /// Whether a local position lies inside the half-open box `[0, width) x [0, height)`.
    pub open spec fn spec_contains(self, p: Offset) -> bool {
        p.x < self.width && p.y < self.height
    }

    /// Bounds check used by hit testing: the position is within this extent.
    pub fn contains(&self, p: Offset) -> (r: bool)
        ensures
            r == self.spec_contains(p),
    {
        p.x < self.width && p.y < self.height
    }
}

} // verus!
