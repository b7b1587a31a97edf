//! The render-object protocol: the capability contract every node kind
//! implements, independent of geometry kind.

pub mod render_box;

pub use render_box::LeafBox;
pub use render_box::RenderBox;
pub use render_box::RenderBoxObject;

use vstd::prelude::*;
use crate::constraints::Constraints;
use crate::hit::HitTestEntry;
use crate::hit::PointEvent;

verus! {

/// The protocol a render object of any constraint family implements.
///
/// A mutation marks layout dirty rather than recomputing eagerly; the
/// pipeline owner later drives [`RenderObject::perform_layout`] over the
/// dirty nodes, so that multiple sequential writes are coalesced into one
/// layout pass.
pub trait RenderObject {
    /// The constraint family this object is laid out under.
    type Constraints: Constraints;

    /// The dirty-layout flag: true from a call to
    /// [`RenderObject::mark_needs_layout`] until the next successful
    /// [`RenderObject::perform_layout`].
    spec fn needs_layout_spec(&self) -> bool;

    /// Whether the constraints are the only input to the sizing algorithm
    /// (in particular, children have no impact).  Answering false is always
    /// correct; answering true lets the pipeline skip recomputation when the
    /// constraints have not changed.
    spec fn sized_by_parent_spec(&self) -> bool;

    /// Mark this render object's layout information as dirty, scheduling a
    /// visual update instead of recomputing eagerly.
    fn mark_needs_layout(&mut self)
        ensures
            final(self).needs_layout_spec(),
    ;

    /// Exec view of [`RenderObject::sized_by_parent_spec`]: whether this
    /// object's size is a pure function of the incoming constraints.
    fn sized_by_paren(&self) -> (r: bool)
        ensures
            r == self.sized_by_parent_spec(),
    ;

    /// Do the kind-specific layout work.  May only be invoked with
    /// well-formed constraints; afterwards the object is clean.  If
    /// [`RenderObject::sized_by_paren`] answers true, this step must not
    /// change the object's own size: that work belongs to a separate resize
    /// step keyed on the constraints alone.
    fn perform_layout(&mut self, constraints: &Self::Constraints)
        requires
            constraints.well_formed(),
        ensures
            !final(self).needs_layout_spec(),
    ;

    /// Whether this render object repaints separately from its parent, so
    /// that paint invalidation below it does not force ancestors to repaint.
    /// The answer must not change over the lifetime of the object.
    fn is_repaint_boundary() -> bool {
        false
    }

    /// Handle a pointer event that was matched to this object during hit
    /// testing.  The default does nothing.
    fn handle_event(&mut self, event: PointEvent, entry: Box<HitTestEntry>) {
        let _ = event;
        let _ = entry;
    }
}

} // verus!
