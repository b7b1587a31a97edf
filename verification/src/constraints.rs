//! The constraint model: the size ranges a parent imposes on a child.
//!
//! Constraint values are immutable, compared structurally, and hashable so
//! that a relayout boundary can skip recomputation when it is re-handed the
//! constraints it was last laid out with.  A sliver constraint can always be
//! projected to a plain box constraint when an axis-aware ancestor needs to
//! query a box-only descendant.

use vstd::prelude::*;
use crate::geometry::Size;

verus! {

/// The capability every constraint family offers: a well-formedness test
/// (each axis admits at least one size).  Layout is only ever performed
/// under well-formed constraints; handing out an ill-formed constraint is a
/// contract violation on the caller.
pub trait Constraints: Sized {
    /// Whether every axis range is non-empty (min at most max).
    spec fn well_formed(&self) -> bool;
}

/// Independent closed ranges for width and height.
#[derive(Debug, Clone, Copy, PartialEq, Eq, Hash, Structural)]
pub struct BoxConstraints {
    pub min_width: u32,
    pub max_width: u32,
    pub min_height: u32,
    pub max_height: u32,
}

impl Constraints for BoxConstraints {
    open spec fn well_formed(&self) -> bool {
        self.min_width <= self.max_width && self.min_height <= self.max_height
    }
}

/// The value `v` moved into the closed range `[lo, hi]`.
pub open spec fn spec_clamp(v: u32, lo: u32, hi: u32) -> u32 {
    if v < lo {
        lo
    } else if v > hi {
        hi
    } else {
        v
    }
}

/// Exec twin of [`spec_clamp`].
pub fn clamp(v: u32, lo: u32, hi: u32) -> (r: u32)
    ensures
        r == spec_clamp(v, lo, hi),
{
    if v < lo {
        lo
    } else if v > hi {
        hi
    } else {
        v
    }
}

impl BoxConstraints {
    /// A range that admits exactly the sizes between the minima and maxima.
    pub open spec fn satisfied_by(self, s: Size) -> bool {
        &&& self.min_width <= s.width <= self.max_width
        &&& self.min_height <= s.height <= self.max_height
    }

    /// The size nearest to `s` that satisfies these constraints.
    pub open spec fn spec_constrain(self, s: Size) -> Size {
        Size {
            width: spec_clamp(s.width, self.min_width, self.max_width),
            height: spec_clamp(s.height, self.min_height, self.max_height),
        }
    }

    /// The smallest admissible size.
    pub open spec fn spec_smallest(self) -> Size {
        Size { width: self.min_width, height: self.min_height }
    }

    /// The largest admissible size.
    pub open spec fn spec_biggest(self) -> Size {
        Size { width: self.max_width, height: self.max_height }
    }

    /// Clamp a candidate size into these constraints.
    pub fn constrain(&self, s: Size) -> (r: Size)
        requires
            self.well_formed(),
        ensures
            r == self.spec_constrain(s),
            self.satisfied_by(r),
    {
        Size {
            width: clamp(s.width, self.min_width, self.max_width),
            height: clamp(s.height, self.min_height, self.max_height),
        }
    }

    /// The loose constraints from zero up to `s`, handed to children that may
    /// occupy any part of their parent's resolved extent.
    pub fn loose(s: Size) -> (r: BoxConstraints)
        ensures
            r == (BoxConstraints {
                min_width: 0,
                max_width: s.width,
                min_height: 0,
                max_height: s.height,
            }),
            r.well_formed(),
    {
        BoxConstraints { min_width: 0, max_width: s.width, min_height: 0, max_height: s.height }
    }
}

/// One-dimensional scroll-axis constraints: how far the viewport has
/// scrolled, how much paint extent remains, and the box range available on
/// the cross axis.
#[derive(Debug, Clone, Copy, PartialEq, Eq, Hash, Structural)]
pub struct SliverConstraints {
    /// How far this sliver has been scrolled past; irrelevant to the box
    /// projection.
    pub scroll_offset: u32,
    /// The smallest admissible cross-axis extent.
    pub cross_axis_min: u32,
    /// The largest admissible cross-axis extent.
    pub cross_axis_max: u32,
    /// The paint extent remaining along the main axis.
    pub main_axis_extent: u32,
}

impl Constraints for SliverConstraints {
    open spec fn well_formed(&self) -> bool {
        self.cross_axis_min <= self.cross_axis_max
    }
}

impl SliverConstraints {
    /// The box constraints this sliver constraint projects to: the cross
    /// axis becomes the width range, the remaining main-axis extent bounds
    /// the height from zero.
    pub open spec fn box_projection(self) -> BoxConstraints {
        BoxConstraints {
            min_width: self.cross_axis_min,
            max_width: self.cross_axis_max,
            min_height: 0,
            max_height: self.main_axis_extent,
        }
    }

    /// Reduce this scroll-axis constraint to a plain box constraint, for an
    /// axis-aware ancestor querying a box-only descendant.  The projection
    /// is total and a pure function of the box-relevant fields.
    pub fn as_box_constrains(&self) -> (r: BoxConstraints)
        ensures
            r == self.box_projection(),
            self.well_formed() ==> r.well_formed(),
    {
        BoxConstraints {
            min_width: self.cross_axis_min,
            max_width: self.cross_axis_max,
            min_height: 0,
            max_height: self.main_axis_extent,
        }
    }
}

/// Two sliver constraints that agree on every box-relevant field (the cross
/// axis range and the remaining main-axis extent) project to equal box
/// constraints, whatever their scroll offsets.
pub proof fn lemma_box_projection_ignores_scroll(a: SliverConstraints, b: SliverConstraints)
    requires
        a.cross_axis_min == b.cross_axis_min,
        a.cross_axis_max == b.cross_axis_max,
        a.main_axis_extent == b.main_axis_extent,
    ensures
        a.box_projection() == b.box_projection(),
{
}

} // verus!
