//! The two-dimensional specialization of the render-object protocol: size
//! resolution against box bounds and depth-ordered hit-test delegation.

use vstd::prelude::*;
use crate::constraints::BoxConstraints;
use crate::geometry::Offset;
use crate::geometry::Size;
use crate::hit::BoxHitTestResult;
use crate::hit::HitTestEntry;
use crate::hit::PointEvent;
use crate::rendering::RenderObject;

verus! {

/// The box protocol.  A box absorbs a hit when the position lies within its
/// resolved bounds and either a child or the box itself claims it; children
/// get first refusal, in reverse paint order, so the visually topmost child
/// wins.  The caller transforms the position into this box's local space
/// before calling in.
pub trait RenderBox {
    /// The resolved size of this box, fixed by the preceding layout pass.
    spec fn size_spec(&self) -> Size;

    /// The identity recorded in this box's hit-test entries.
    spec fn id_spec(&self) -> usize;

    /// Whether this box's own (non-child) area absorbs a hit at `pos`,
    /// given that `pos` is already known to lie within the bounds.
    spec fn absorbs_self(&self, pos: Offset) -> bool;

    /// Whether some child absorbs a hit at `pos`.
    spec fn children_absorb(&self, pos: Offset) -> bool;

    /// The entries the children append when one of them absorbs a hit at
    /// `pos`: the absorbing child's subtree, innermost first.
    spec fn child_entries(&self, pos: Offset) -> Seq<HitTestEntry>;

    /// The resolved size, for the bounds check.
    fn size(&self) -> (s: Size)
        ensures
            s == self.size_spec(),
    ;

    /// The identity recorded in hit-test entries.
    fn id(&self) -> (i: usize)
        ensures
            i == self.id_spec(),
    ;

    /// Override point for boxes whose own area should absorb hits (for
    /// example opaque leaf content).  The default absorbs nothing.
    fn hit_test_self(&self, pos: Offset) -> (r: bool)
        ensures
            r == self.absorbs_self(pos),
    ;

    /// Override point for containers.  Children must be tested in reverse
    /// paint order, and entries are appended only when a child absorbs the
    /// hit.  The default has no children and absorbs nothing.
    fn hit_test_children(&self, result: &mut BoxHitTestResult, pos: Offset) -> (r: bool)
        ensures
            r == self.children_absorb(pos),
            r ==> final(result)@ == old(result)@ + self.child_entries(pos),
            !r ==> final(result)@ == old(result)@,
    ;

    /// Determine the set of render objects located at `pos`: only proceed
    /// when `pos` is within bounds, give the children first refusal, fall
    /// back to this box's own area, and append this box's entry after its
    /// children's when the hit is absorbed.
    fn hit_test(&self, result: &mut BoxHitTestResult, pos: Offset) -> (r: bool)
        ensures
            r == (self.size_spec().spec_contains(pos) && (self.children_absorb(pos)
                || self.absorbs_self(pos))),
            r ==> final(result)@ == old(result)@ + (if self.children_absorb(pos) {
                self.child_entries(pos)
            } else {
                Seq::<HitTestEntry>::empty()
            }) + seq![(HitTestEntry { node: self.id_spec(), position: pos })],
            !r ==> final(result)@ == old(result)@,
    {
        if self.size().contains(pos) {
            if self.hit_test_children(result, pos) || self.hit_test_self(pos) {
                result.add(HitTestEntry { node: self.id(), position: pos });
                true
            } else {
                false
            }
        } else {
            false
        }
    }

    /// Handle a pointer event matched to this box; the entry carries the
    /// position in local coordinates.  The default does nothing.
    fn handle_event(&mut self, event: PointEvent, entry: Box<HitTestEntry>) {
        let _ = event;
        let _ = entry;
    }
}

/// A childless box: a fixed extent that absorbs hits over its whole bounds
/// exactly when it is opaque.
pub struct LeafBox {
    /// Identity recorded in hit-test entries.
    pub id: usize,
    /// Resolved extent of this leaf.
    pub size: Size,
    /// Whether the leaf's own area absorbs hits.
    pub opaque: bool,
}

impl RenderBox for LeafBox {
    open spec fn size_spec(&self) -> Size {
        self.size
    }

    open spec fn id_spec(&self) -> usize {
        self.id
    }

    open spec fn absorbs_self(&self, pos: Offset) -> bool {
        self.opaque
    }

    open spec fn children_absorb(&self, pos: Offset) -> bool {
        false
    }

    open spec fn child_entries(&self, pos: Offset) -> Seq<HitTestEntry> {
        Seq::empty()
    }

    fn size(&self) -> Size {
        self.size
    }

    fn id(&self) -> usize {
        self.id
    }

    fn hit_test_self(&self, pos: Offset) -> bool {
        self.opaque
    }

    fn hit_test_children(&self, result: &mut BoxHitTestResult, pos: Offset) -> bool {
        false
    }
}

/// Adapter that lets any box take part in the generic render-object
/// protocol: it carries the dirty-layout flag and the constraints the box
/// was last laid out with.
#[derive(Debug)]
pub struct RenderBoxObject<R: RenderBox> {
    inner: R,
    needs_layout: bool,
    constraints: Option<BoxConstraints>,
}

impl<R: RenderBox> RenderBoxObject<R> {
    /// Wrap a box; a freshly created render object needs layout.
    pub fn new(inner: R) -> (r: RenderBoxObject<R>)
        ensures
            r.needs_layout_spec(),
            r.inner_spec() == inner,
    {
        RenderBoxObject { inner, needs_layout: true, constraints: None }
    }

    /// The wrapped box.
    pub closed spec fn inner_spec(&self) -> R {
        self.inner
    }

    /// The constraints of the last completed layout, if any.
    pub closed spec fn constraints_spec(&self) -> Option<BoxConstraints> {
        self.constraints
    }

    /// Read access to the wrapped box.
    pub fn inner(&self) -> (r: &R)
        ensures
            r == self.inner_spec(),
    {
        &self.inner
    }
}

impl<R: RenderBox> RenderObject for RenderBoxObject<R> {
    type Constraints = BoxConstraints;

    closed spec fn needs_layout_spec(&self) -> bool {
        self.needs_layout
    }

    closed spec fn sized_by_parent_spec(&self) -> bool {
        false
    }

    fn mark_needs_layout(&mut self)
        ensures
            final(self).inner_spec() == old(self).inner_spec(),
            final(self).constraints_spec() == old(self).constraints_spec(),
    {
        self.needs_layout = true;
    }

    fn sized_by_paren(&self) -> bool {
        false
    }

    fn perform_layout(&mut self, constraints: &BoxConstraints)
        ensures
            final(self).inner_spec() == old(self).inner_spec(),
            final(self).constraints_spec() == Some(*constraints),
    {
        self.needs_layout = false;
        self.constraints = Some(*constraints);
    }

    fn handle_event(&mut self, event: PointEvent, entry: Box<HitTestEntry>) {
        self.inner.handle_event(event, entry);
    }
}

} // verus!
