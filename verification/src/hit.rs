//! The hit-test result accumulator and the pointer event record.

use vstd::prelude::*;
use crate::geometry::Offset;

verus! {

/// An immutable record that a node was hit: the node's identity and the
/// pointer position in that node's local coordinate space at the time of the
/// hit.  The local position is what re-derives the global position through
/// the coordinate transforms recorded on the way down.
#[derive(Debug, Clone, Copy, PartialEq, Eq, Structural)]
pub struct HitTestEntry {
    /// Identity of the node that was hit.
    pub node: usize,
    /// Pointer position in that node's local coordinate space.
    pub position: Offset,
}

/// A pointer event, delivered to the nodes a hit-test pass matched.
#[derive(Debug, Clone, Copy, PartialEq, Eq, Structural)]
pub struct PointEvent {
    /// The event position in the local space of the node it is handed to.
    pub position: Offset,
}

/// The ordered sequence of entries built during one hit-test pass.  Order is
/// significant: the innermost (visually topmost) node's entry comes first
/// among the entries appended by the subtree that absorbed the hit, and each
/// ancestor appends its own entry after its children's.
pub struct BoxHitTestResult {
    entries: Vec<HitTestEntry>,
}

impl View for BoxHitTestResult {
    type V = Seq<HitTestEntry>;

    closed spec fn view(&self) -> Seq<HitTestEntry> {
        self.entries@
    }
}

impl BoxHitTestResult {
    /// An empty accumulator.
    pub fn new() -> (r: BoxHitTestResult)
        ensures
            r@ == Seq::<HitTestEntry>::empty(),
    {
        BoxHitTestResult { entries: Vec::new() }
    }

    /// Append one entry; every earlier entry keeps its place.
    pub fn add(&mut self, e: HitTestEntry)
        ensures
            final(self)@ == old(self)@.push(e),
    {
        self.entries.push(e);
    }

    /// How many nodes have been recorded so far.
    pub fn len(&self) -> (n: usize)
        ensures
            n == self@.len(),
    {
        self.entries.len()
    }

    /// The entry at position `i` in hit order.
    pub fn get(&self, i: usize) -> (e: HitTestEntry)
        requires
            i < self@.len(),
        ensures
            e == self@[i as int],
    {
        self.entries[i]
    }

    /// Whether no node has been hit so far.
    pub fn is_empty(&self) -> (r: bool)
        ensures
            r == (self@.len() == 0),
    {
        self.entries.len() == 0
    }
}

} // verus!
