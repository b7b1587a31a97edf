//! The pipeline owner: the render-node arena, the dirty-list scheduler that
//! batches needs-layout and needs-paint requests, the incremental layout
//! pass over dirty relayout boundaries, and depth-ordered hit testing.
//!
//! The tree is an arena of nodes addressed by stable indices.  Child links
//! are the only ownership edges and always point at larger indices; parent
//! links are plain back-indices, so upward walks for dirty propagation are
//! cycle-free and O(1) per step.

use vstd::prelude::*;
use crate::constraints::BoxConstraints;
use crate::constraints::Constraints;
use crate::geometry::Offset;
use crate::geometry::Size;
use crate::hit::BoxHitTestResult;
use crate::hit::HitTestEntry;

verus! {

/// The closed set of node kinds: each kind fixes the sizing algorithm and
/// the constraints handed to children.
#[derive(Debug, Clone, Copy, PartialEq, Eq, Structural)]
pub enum NodeKind {
    /// Fills the largest size the constraints allow.
    Expand,
    /// Requests a fixed extent, clamped into the constraints.
    Fixed { width: u32, height: u32 },
    /// Width is a share (per cent) of the maximum width, clamped; height
    /// resolves to the minimum ("auto" for a leaf).
    PercentWidth { percent: u32 },
    /// Takes the resolved size of its first child, clamped into the
    /// constraints; declares at the call site that it uses that child's
    /// size, so the child's future size changes dirty this node too.
    WrapChild,
}

/// One render node in the arena.
pub struct RenderNode {
    /// The sizing algorithm of this node.
    pub kind: NodeKind,
    /// Back-reference for dirty propagation; `None` for a detached root.
    pub parent: Option<usize>,
    /// Exclusively owned children, in paint order; every child index is
    /// larger than this node's own index.
    pub children: Vec<usize>,
    /// Position of this node's origin in its parent's coordinate space.
    pub offset: Offset,
    /// Whether this node's own (non-child) area absorbs hits.
    pub opaque: bool,
    /// Fixed for the lifetime of the node: isolates paint invalidation.
    pub repaint_boundary: bool,
    /// Computed during layout: this node can re-lay-out independently.
    pub relayout_boundary: bool,
    /// Dirty-layout flag.
    pub needs_layout: bool,
    /// Dirty-paint flag.
    pub needs_paint: bool,
    /// The constraints of the last completed layout.
    pub constraints: Option<BoxConstraints>,
    /// The resolved size of the last completed layout.
    pub size: Option<Size>,
    /// False once the node has been removed from the tree.
    pub alive: bool,
}

/// The child link from `i` to `c` is sound: it points down the arena, the
/// child points back, and a live parent never owns a removed child.
pub open spec fn child_ok(ns: Seq<RenderNode>, i: int, c: usize) -> bool {
    &&& i < c as int
    &&& (c as int) < ns.len()
    &&& ns[c as int].parent == Some((i as usize))
    &&& (ns[i].alive ==> ns[c as int].alive)
}

/// The parent link of `i` is sound: it points up the arena at a node that
/// owns `i`.
pub open spec fn parent_ok(ns: Seq<RenderNode>, i: int) -> bool {
    ns[i].parent is Some ==> {
        let p = ns[i].parent->0 as int;
        &&& 0 <= p < i
        &&& ns[p].children@.contains((i as usize))
    }
}

/// All child links of `i` are sound and no child is owned twice.
pub open spec fn children_ok(ns: Seq<RenderNode>, i: int) -> bool {
    let cs = ns[i].children@;
    &&& forall|k: int| 0 <= k < cs.len() ==> child_ok(ns, i, #[trigger] cs[k])
    &&& forall|k1: int, k2: int| 0 <= k1 < k2 < cs.len() ==> cs[k1] != cs[k2]
}

/// The arena is a forest: parent and child links agree and point the right
/// way, so every upward walk terminates and every subtree lies at larger
/// indices.
pub open spec fn tree_wf(ns: Seq<RenderNode>) -> bool {
    &&& forall|i: int| 0 <= i < ns.len() ==> #[trigger] parent_ok(ns, i)
    &&& forall|i: int| 0 <= i < ns.len() ==> #[trigger] children_ok(ns, i)
}

/// A node's cached geometry is consistent: size and constraints are cached
/// together, the cached constraints are well-formed, and the resolved size
/// satisfies them.
pub open spec fn node_geometry_ok(n: RenderNode) -> bool {
    &&& (n.size is Some <==> n.constraints is Some)
    &&& (n.constraints is Some ==> n.constraints->0.well_formed()
        && n.constraints->0.satisfied_by(n.size->0))
}

/// Every node's cached geometry is consistent.
pub open spec fn geometry_ok(ns: Seq<RenderNode>) -> bool {
    forall|i: int| 0 <= i < ns.len() ==> node_geometry_ok(#[trigger] ns[i])
}

/// A dirty list holds in-range indices with no duplicates.
pub open spec fn dirty_ok(d: Seq<usize>, n: int) -> bool {
    &&& forall|k: int| 0 <= k < d.len() ==> (#[trigger] d[k]) < n
    &&& forall|k1: int, k2: int| 0 <= k1 < k2 < d.len() ==> d[k1] != d[k2]
}

/// The pipeline owner: the arena of render nodes together with the two
/// dirty sets it batches between frames.
pub struct PipelineOwner {
    nodes: Vec<RenderNode>,
    dirty_layout: Vec<usize>,
    dirty_paint: Vec<usize>,
}

impl PipelineOwner {
    /// The nodes of the arena, for specification purposes.
    pub closed spec fn nodes_seq(&self) -> Seq<RenderNode> {
        self.nodes@
    }

    /// The pending relayout boundaries, in registration order.
    pub closed spec fn dirty_layout_seq(&self) -> Seq<usize> {
        self.dirty_layout@
    }

    /// The pending repaint boundaries, in registration order.
    pub closed spec fn dirty_paint_seq(&self) -> Seq<usize> {
        self.dirty_paint@
    }

    /// The structural invariant every operation preserves.
    pub open spec fn wf(&self) -> bool {
        &&& tree_wf(self.nodes_seq())
        &&& geometry_ok(self.nodes_seq())
        &&& dirty_ok(self.dirty_layout_seq(), self.nodes_seq().len() as int)
        &&& dirty_ok(self.dirty_paint_seq(), self.nodes_seq().len() as int)
    }

    /// An empty pipeline owner with no attached tree.
    pub fn new() -> (r: PipelineOwner)
        ensures
            r.wf(),
            r.nodes_seq() == Seq::<RenderNode>::empty(),
            r.dirty_layout_seq() == Seq::<usize>::empty(),
            r.dirty_paint_seq() == Seq::<usize>::empty(),
    {
        PipelineOwner { nodes: Vec::new(), dirty_layout: Vec::new(), dirty_paint: Vec::new() }
    }

    /// Number of slots in the arena, removed nodes included.
    pub fn node_count(&self) -> (n: usize)
        ensures
            n == self.nodes_seq().len(),
    {
        self.nodes.len()
    }

    /// Create a detached root node.  It starts dirty, with no cached
    /// geometry, and is not a relayout boundary until laid out.
    pub fn add_root(&mut self, kind: NodeKind, opaque: bool, repaint_boundary: bool) -> (i:
        usize)
        requires
            old(self).wf(),
        ensures
            final(self).wf(),
            i as int == old(self).nodes_seq().len(),
            final(self).nodes_seq().len() == old(self).nodes_seq().len() + 1,
            forall|j: int| 0 <= j < old(self).nodes_seq().len() ==> final(self).nodes_seq()[j]
                == old(self).nodes_seq()[j],
            is_fresh_node(final(self).nodes_seq()[i as int], kind, None,
                Offset { x: 0, y: 0 }, opaque, repaint_boundary),
            final(self).dirty_layout_seq() == old(self).dirty_layout_seq(),
            final(self).dirty_paint_seq() == old(self).dirty_paint_seq(),
    {
        let i = self.nodes.len();
        self.nodes.push(RenderNode {
            kind,
            parent: None,
            children: Vec::new(),
            offset: Offset { x: 0, y: 0 },
            opaque,
            repaint_boundary,
            relayout_boundary: false,
            needs_layout: true,
            needs_paint: true,
            constraints: None,
            size: None,
            alive: true,
        });
        proof {
            assert forall|j: int| 0 <= j < self.nodes@.len() implies #[trigger] parent_ok(
                self.nodes@, j) by {
                assert(parent_ok(old(self).nodes@, j) || j == i as int);
            }
            assert forall|j: int| 0 <= j < self.nodes@.len() implies #[trigger] children_ok(
                self.nodes@, j) by {
                if j < i as int {
                    assert(children_ok(old(self).nodes@, j));
                    assert forall|k: int| 0 <= k < self.nodes@[j].children@.len() implies child_ok(
                        self.nodes@, j, #[trigger] self.nodes@[j].children@[k]) by {
                        assert(child_ok(old(self).nodes@, j, old(self).nodes@[j].children@[k]));
                    }
                }
            }
            assert forall|j: int| 0 <= j < self.nodes@.len() implies node_geometry_ok(
                #[trigger] self.nodes@[j]) by {
                if j < i as int {
                    assert(node_geometry_ok(old(self).nodes@[j]));
                }
            }
        }
        i
    }

    /// Attach a new child under `parent`, at the end of the paint order,
    /// positioned at `offset` in the parent's coordinate space.  The child
    /// starts dirty and detached from any cached geometry.
    pub fn add_child(&mut self, parent: usize, kind: NodeKind, offset: Offset, opaque: bool,
        repaint_boundary: bool) -> (i: usize)
        requires
            old(self).wf(),
            parent < old(self).nodes_seq().len(),
            old(self).nodes_seq()[parent as int].alive,
        ensures
            final(self).wf(),
            i as int == old(self).nodes_seq().len(),
            final(self).nodes_seq().len() == old(self).nodes_seq().len() + 1,
            forall|j: int| 0 <= j < old(self).nodes_seq().len() && j != parent as int ==> final(
                self).nodes_seq()[j] == old(self).nodes_seq()[j],
            final(self).nodes_seq()[parent as int] == (RenderNode {
                children: final(self).nodes_seq()[parent as int].children,
                ..old(self).nodes_seq()[parent as int]
            }),
            final(self).nodes_seq()[parent as int].children@ == old(self).nodes_seq()[
                parent as int].children@.push((i as usize)),
            is_fresh_node(final(self).nodes_seq()[i as int], kind, Some((parent as usize)),
                offset, opaque, repaint_boundary),
            final(self).dirty_layout_seq() == old(self).dirty_layout_seq(),
            final(self).dirty_paint_seq() == old(self).dirty_paint_seq(),
    {
        let i = self.nodes.len();
        self.nodes.push(RenderNode {
            kind,
            parent: Some(parent),
            children: Vec::new(),
            offset,
            opaque,
            repaint_boundary,
            relayout_boundary: false,
            needs_layout: true,
            needs_paint: true,
            constraints: None,
            size: None,
            alive: true,
        });
        self.nodes[parent].children.push(i);
        proof {
            let ns = self.nodes@;
            let ns0 = old(self).nodes@;
            assert forall|j: int| 0 <= j < ns.len() implies #[trigger] parent_ok(ns, j) by {
                if j < i as int {
                    assert(parent_ok(ns0, j));
                    if ns[j].parent is Some {
                        let p = ns[j].parent->0 as int;
                        assert(ns0[p].children@.contains((j as usize)));
                        let w = choose|w: int| 0 <= w < ns0[p].children@.len() && ns0[p].children@[
                            w] == j as usize;
                        assert(ns[p].children@[w] == j as usize);
                    }
                } else {
                    assert(ns[parent as int].children@.last() == i as usize);
                }
            }
            assert forall|j: int| 0 <= j < ns.len() implies #[trigger] children_ok(ns, j) by {
                if j != parent as int && j < i as int {
                    assert(children_ok(ns0, j));
                    assert forall|k: int| 0 <= k < ns[j].children@.len() implies child_ok(ns, j,
                        #[trigger] ns[j].children@[k]) by {
                        assert(child_ok(ns0, j, ns0[j].children@[k]));
                    }
                } else if j == parent as int {
                    assert(children_ok(ns0, j));
                    assert forall|k: int| 0 <= k < ns[j].children@.len() implies child_ok(ns, j,
                        #[trigger] ns[j].children@[k]) by {
                        if k < ns0[j].children@.len() {
                            assert(child_ok(ns0, j, ns0[j].children@[k]));
                        }
                    }
                    assert forall|k1: int, k2: int| 0 <= k1 < k2 < ns[j].children@.len() implies
                        ns[j].children@[k1] != ns[j].children@[k2] by {
                        if k2 < ns0[j].children@.len() {
                            assert(child_ok(ns0, j, ns0[j].children@[k1]));
                        } else {
                            assert(child_ok(ns0, j, ns0[j].children@[k1]));
                            assert(ns[j].children@[k2] == i as usize);
                        }
                    }
                }
            }
            assert forall|j: int| 0 <= j < ns.len() implies node_geometry_ok(#[trigger] ns[j])
                by {
                if j < i as int {
                    assert(node_geometry_ok(ns0[j]));
                }
            }
        }
        i
    }
}

/// The state every freshly created node starts in: dirty, childless, with
/// no cached geometry.
pub open spec fn is_fresh_node(n: RenderNode, kind: NodeKind, parent: Option<usize>,
    offset: Offset, opaque: bool, repaint_boundary: bool) -> bool {
    &&& n.kind == kind
    &&& n.parent == parent
    &&& n.children@ == Seq::<usize>::empty()
    &&& n.offset == offset
    &&& n.opaque == opaque
    &&& n.repaint_boundary == repaint_boundary
    &&& !n.relayout_boundary
    &&& n.needs_layout
    &&& n.needs_paint
    &&& n.constraints is None
    &&& n.size is None
    &&& n.alive
}

/// The flag that `mark` sets, chosen by phase: layout or paint.
pub open spec fn flag_set(n: RenderNode, for_layout: bool) -> RenderNode {
    if for_layout {
        RenderNode { needs_layout: true, ..n }
    } else {
        RenderNode { needs_paint: true, ..n }
    }
}

/// The boundary that stops upward dirty propagation, chosen by phase.
pub open spec fn is_boundary(n: RenderNode, for_layout: bool) -> bool {
    if for_layout {
        n.relayout_boundary
    } else {
        n.repaint_boundary
    }
}

/// Whether the upward walk stops at `i`: a boundary, or a detached root.
pub open spec fn stops_mark(ns: Seq<RenderNode>, i: int, for_layout: bool) -> bool {
    is_boundary(ns[i], for_layout) || ns[i].parent is None
}

/// The node that a dirty mark at `i` registers with the pipeline owner: the
/// nearest boundary at or above `i` (the root, failing that).
pub open spec fn spec_mark_target(ns: Seq<RenderNode>, i: int, for_layout: bool) -> int
    decreases i,
{
    if stops_mark(ns, i, for_layout) {
        i
    } else {
        let p = ns[i].parent->0 as int;
        if 0 <= p < i {
            spec_mark_target(ns, p, for_layout)
        } else {
            i
        }
    }
}

/// Whether `j` lies on the propagation path of a mark at `i`: between `i`
/// and its nearest boundary, both inclusive.
pub open spec fn on_mark_path(ns: Seq<RenderNode>, i: int, j: int, for_layout: bool) -> bool
    decreases i,
{
    if j == i {
        true
    } else if stops_mark(ns, i, for_layout) {
        false
    } else {
        let p = ns[i].parent->0 as int;
        if 0 <= p < i {
            on_mark_path(ns, p, j, for_layout)
        } else {
            false
        }
    }
}

/// The arena after a dirty mark at `i`: the phase's flag is set on every
/// node on the propagation path, nothing else changes.
pub open spec fn spec_mark(ns: Seq<RenderNode>, i: int, for_layout: bool) -> Seq<RenderNode>
    decreases i,
{
    let ns1 = ns.update(i, flag_set(ns[i], for_layout));
    if stops_mark(ns, i, for_layout) {
        ns1
    } else {
        let p = ns[i].parent->0 as int;
        if 0 <= p < i {
            spec_mark(ns1, p, for_layout)
        } else {
            ns1
        }
    }
}

/// A dirty list after registering `b`: appended unless already pending
/// (marking an already-registered boundary a second time is a no-op).
pub open spec fn spec_enqueue(d: Seq<usize>, b: usize) -> Seq<usize> {
    if d.contains(b) {
        d
    } else {
        d.push(b)
    }
}

/// The fields dirty propagation reads: both arenas agree on parents and
/// boundary flags everywhere.
pub open spec fn same_mark_shape(a: Seq<RenderNode>, b: Seq<RenderNode>) -> bool {
    &&& a.len() == b.len()
    &&& forall|j: int| 0 <= j < a.len() ==> ((#[trigger] b[j]).parent == a[j].parent
        && b[j].relayout_boundary == a[j].relayout_boundary
        && b[j].repaint_boundary == a[j].repaint_boundary)
}

/// A node on a propagation path lies at or below the mark in the arena.
pub proof fn lemma_on_mark_path_le(ns: Seq<RenderNode>, i: int, j: int, for_layout: bool)
    requires
        on_mark_path(ns, i, j, for_layout),
    ensures
        j <= i,
    decreases i,
{
    if j != i && !stops_mark(ns, i, for_layout) {
        let p = ns[i].parent->0 as int;
        if 0 <= p < i {
            lemma_on_mark_path_le(ns, p, j, for_layout);
        }
    }
}

/// Propagation paths depend only on parents and boundary flags.
pub proof fn lemma_on_mark_path_congruent(a: Seq<RenderNode>, b: Seq<RenderNode>, i: int,
    j: int, for_layout: bool)
    requires
        0 <= i < a.len(),
        same_mark_shape(a, b),
    ensures
        on_mark_path(a, i, j, for_layout) == on_mark_path(b, i, j, for_layout),
    decreases i,
{
    if j != i && !stops_mark(a, i, for_layout) {
        let p = a[i].parent->0 as int;
        if 0 <= p < i {
            lemma_on_mark_path_congruent(a, b, p, j, for_layout);
        }
    }
}

/// The registered boundary depends only on parents and boundary flags.
pub proof fn lemma_mark_target_congruent(a: Seq<RenderNode>, b: Seq<RenderNode>, i: int,
    for_layout: bool)
    requires
        0 <= i < a.len(),
        same_mark_shape(a, b),
    ensures
        spec_mark_target(a, i, for_layout) == spec_mark_target(b, i, for_layout),
    decreases i,
{
    if !stops_mark(a, i, for_layout) {
        let p = a[i].parent->0 as int;
        if 0 <= p < i {
            lemma_mark_target_congruent(a, b, p, for_layout);
        }
    }
}

/// Pointwise reading of [`spec_mark`]: exactly the nodes on the propagation
/// path carry the phase's flag afterwards, and no other field of any node
/// changes.
pub proof fn lemma_mark_pointwise(ns: Seq<RenderNode>, i: int, for_layout: bool)
    requires
        0 <= i < ns.len(),
    ensures
        spec_mark(ns, i, for_layout).len() == ns.len(),
        forall|j: int| 0 <= j < ns.len() ==> #[trigger] spec_mark(ns, i, for_layout)[j] == (
        if on_mark_path(ns, i, j, for_layout) {
            flag_set(ns[j], for_layout)
        } else {
            ns[j]
        }),
    decreases i,
{
    let ns1 = ns.update(i, flag_set(ns[i], for_layout));
    assert(same_mark_shape(ns, ns1));
    if !stops_mark(ns, i, for_layout) {
        let p = ns[i].parent->0 as int;
        if 0 <= p < i {
            lemma_mark_pointwise(ns1, p, for_layout);
            assert forall|j: int| 0 <= j < ns.len() implies #[trigger] spec_mark(ns, i,
                for_layout)[j] == (if on_mark_path(ns, i, j, for_layout) {
                flag_set(ns[j], for_layout)
            } else {
                ns[j]
            }) by {
                lemma_on_mark_path_congruent(ns1, ns, p, j, for_layout);
                if j == i {
                    if on_mark_path(ns, p, i, for_layout) {
                        lemma_on_mark_path_le(ns, p, i, for_layout);
                    }
                    assert(flag_set(flag_set(ns[i], for_layout), for_layout) == flag_set(ns[i],
                        for_layout));
                }
            }
        }
    }
}

/// The registered boundary really is one: it lies on the propagation path,
/// at or below the mark, and propagation stops there.
pub proof fn lemma_mark_target_props(ns: Seq<RenderNode>, i: int, for_layout: bool)
    requires
        tree_wf(ns),
        0 <= i < ns.len(),
    ensures
        0 <= spec_mark_target(ns, i, for_layout) <= i,
        on_mark_path(ns, i, spec_mark_target(ns, i, for_layout), for_layout),
        stops_mark(ns, spec_mark_target(ns, i, for_layout), for_layout),
    decreases i,
{
    if !stops_mark(ns, i, for_layout) {
        assert(parent_ok(ns, i));
        let p = ns[i].parent->0 as int;
        lemma_mark_target_props(ns, p, for_layout);
    }
}

/// Marking a node dirty twice before the next flush has exactly the same
/// observable effect as marking it once: the flags and the dirty list come
/// out identical.
pub proof fn lemma_mark_idempotent(ns: Seq<RenderNode>, d: Seq<usize>, i: int,
    for_layout: bool)
    requires
        0 <= i < ns.len(),
    ensures
        spec_mark(spec_mark(ns, i, for_layout), i, for_layout) == spec_mark(ns, i, for_layout),
        spec_enqueue(spec_enqueue(d, spec_mark_target(ns, i, for_layout) as usize),
            spec_mark_target(spec_mark(ns, i, for_layout), i, for_layout) as usize)
            == spec_enqueue(d, spec_mark_target(ns, i, for_layout) as usize),
{
    let ns1 = spec_mark(ns, i, for_layout);
    lemma_mark_pointwise(ns, i, for_layout);
    assert(same_mark_shape(ns, ns1));
    lemma_mark_target_congruent(ns, ns1, i, for_layout);
    lemma_mark_pointwise(ns1, i, for_layout);
    assert forall|j: int| 0 <= j < ns.len() implies #[trigger] spec_mark(ns1, i, for_layout)[j]
        == ns1[j] by {
        lemma_on_mark_path_congruent(ns, ns1, i, j, for_layout);
        if on_mark_path(ns, i, j, for_layout) {
            assert(flag_set(flag_set(ns[j], for_layout), for_layout) == flag_set(ns[j],
                for_layout));
        }
    }
    assert(spec_mark(ns1, i, for_layout) =~= ns1);
    let t = spec_mark_target(ns, i, for_layout) as usize;
    let d1 = spec_enqueue(d, t);
    if !d.contains(t) {
        assert(d1[d.len() as int] == t);
    }
    assert(d1.contains(t));
}

/// Propagation: a mark at `i` flags every node on the path from `i` up to
/// its nearest boundary, leaves every other node untouched, and registers
/// exactly that boundary with the pipeline owner.
pub proof fn lemma_mark_propagates_to_boundary(ns: Seq<RenderNode>, d: Seq<usize>, i: int,
    for_layout: bool)
    requires
        tree_wf(ns),
        0 <= i < ns.len(),
    ensures
        0 <= spec_mark_target(ns, i, for_layout) <= i,
        stops_mark(ns, spec_mark_target(ns, i, for_layout), for_layout),
        on_mark_path(ns, i, spec_mark_target(ns, i, for_layout), for_layout),
        forall|j: int| 0 <= j < ns.len() && on_mark_path(ns, i, j, for_layout)
            ==> #[trigger] spec_mark(ns, i, for_layout)[j] == flag_set(ns[j], for_layout),
        forall|j: int| 0 <= j < ns.len() && !on_mark_path(ns, i, j, for_layout)
            ==> #[trigger] spec_mark(ns, i, for_layout)[j] == ns[j],
        spec_enqueue(d, spec_mark_target(ns, i, for_layout) as usize).contains((
        spec_mark_target(ns, i, for_layout) as usize)),
{
    lemma_mark_target_props(ns, i, for_layout);
    lemma_mark_pointwise(ns, i, for_layout);
    let t = spec_mark_target(ns, i, for_layout) as usize;
    let d1 = spec_enqueue(d, t);
    if !d.contains(t) {
        assert(d1[d.len() as int] == t);
    }
}

impl PipelineOwner {
    /// Walk from `j` to its nearest boundary, setting the phase's dirty
    /// flag on the way; the boundary is returned for registration.
    fn mark_up(&mut self, j: usize, for_layout: bool) -> (b: usize)
        requires
            tree_wf(old(self).nodes@),
            (j as int) < old(self).nodes@.len(),
        ensures
            final(self).nodes@ == spec_mark(old(self).nodes@, j as int, for_layout),
            b as int == spec_mark_target(old(self).nodes@, j as int, for_layout),
            final(self).dirty_layout@ == old(self).dirty_layout@,
            final(self).dirty_paint@ == old(self).dirty_paint@,
        decreases j,
    {
        if for_layout {
            self.nodes[j].needs_layout = true;
        } else {
            self.nodes[j].needs_paint = true;
        }
        proof {
            assert(self.nodes@ =~= old(self).nodes@.update(j as int, flag_set(old(
                self).nodes@[j as int], for_layout)));
        }
        let boundary = if for_layout {
            self.nodes[j].relayout_boundary
        } else {
            self.nodes[j].repaint_boundary
        };
        if boundary {
            return j;
        }
        let par = self.nodes[j].parent;
        match par {
            None => j,
            Some(p) => {
                proof {
                    assert(parent_ok(old(self).nodes@, j as int));
                    lemma_tree_wf_flag_change(old(self).nodes@, self.nodes@);
                }
                let b = self.mark_up(p, for_layout);
                proof {
                    assert(same_mark_shape(old(self).nodes@, old(self).nodes@.update(j as int,
                        flag_set(old(self).nodes@[j as int], for_layout))));
                    lemma_mark_target_congruent(old(self).nodes@.update(j as int, flag_set(old(
                        self).nodes@[j as int], for_layout)), old(self).nodes@, p as int,
                        for_layout);
                }
                b
            },
        }
    }

    /// Whether `x` is already registered in the layout dirty list.
    fn dirty_layout_contains(&self, x: usize) -> (r: bool)
        ensures
            r == self.dirty_layout@.contains(x),
    {
        let mut k: usize = 0;
        let mut present = false;
        while k < self.dirty_layout.len()
            invariant
                k <= self.dirty_layout@.len(),
                present == exists|m: int| 0 <= m < k as int && self.dirty_layout@[m] == x,
            decreases self.dirty_layout@.len() - k,
        {
            if self.dirty_layout[k] == x {
                present = true;
            }
            k += 1;
        }
        present
    }

    /// Whether `x` is already registered in the paint dirty list.
    fn dirty_paint_contains(&self, x: usize) -> (r: bool)
        ensures
            r == self.dirty_paint@.contains(x),
    {
        let mut k: usize = 0;
        let mut present = false;
        while k < self.dirty_paint.len()
            invariant
                k <= self.dirty_paint@.len(),
                present == exists|m: int| 0 <= m < k as int && self.dirty_paint@[m] == x,
            decreases self.dirty_paint@.len() - k,
        {
            if self.dirty_paint[k] == x {
                present = true;
            }
            k += 1;
        }
        present
    }

    /// Mark `i`'s layout information dirty.  If `i` is a relayout boundary
    /// it is registered with this owner's layout dirty list; otherwise the
    /// call walks to the parent, because a size change at a non-boundary
    /// child necessarily changes the parent's own layout.  Repeated calls
    /// before the next flush are no-ops.
    pub fn mark_needs_layout(&mut self, i: usize)
        requires
            old(self).wf(),
            (i as int) < old(self).nodes_seq().len(),
        ensures
            final(self).wf(),
            final(self).nodes_seq() == spec_mark(old(self).nodes_seq(), i as int, true),
            final(self).dirty_layout_seq() == spec_enqueue(old(self).dirty_layout_seq(),
                spec_mark_target(old(self).nodes_seq(), i as int, true) as usize),
            final(self).dirty_paint_seq() == old(self).dirty_paint_seq(),
    {
        proof {
            lemma_mark_target_props(self.nodes@, i as int, true);
            lemma_mark_pointwise(self.nodes@, i as int, true);
        }
        let b = self.mark_up(i, true);
        let present = self.dirty_layout_contains(b);
        if !present {
            self.dirty_layout.push(b);
        }
        proof {
            let ns0 = old(self).nodes@;
            let ns = self.nodes@;
            lemma_tree_wf_flag_change(ns0, ns);
            assert forall|j: int| 0 <= j < ns.len() implies node_geometry_ok(#[trigger] ns[j])
                by {
                assert(node_geometry_ok(ns0[j]));
            }
        }
    }

    /// Mark `i`'s paint dirty.  A repaint boundary is registered with the
    /// paint dirty list; below a boundary the call walks to the parent.
    /// Repeated calls before the next flush are no-ops.
    pub fn mark_needs_paint(&mut self, i: usize)
        requires
            old(self).wf(),
            (i as int) < old(self).nodes_seq().len(),
        ensures
            final(self).wf(),
            final(self).nodes_seq() == spec_mark(old(self).nodes_seq(), i as int, false),
            final(self).dirty_paint_seq() == spec_enqueue(old(self).dirty_paint_seq(),
                spec_mark_target(old(self).nodes_seq(), i as int, false) as usize),
            final(self).dirty_layout_seq() == old(self).dirty_layout_seq(),
    {
        proof {
            lemma_mark_target_props(self.nodes@, i as int, false);
            lemma_mark_pointwise(self.nodes@, i as int, false);
        }
        let b = self.mark_up(i, false);
        let present = self.dirty_paint_contains(b);
        if !present {
            self.dirty_paint.push(b);
        }
        proof {
            let ns0 = old(self).nodes@;
            let ns = self.nodes@;
            lemma_tree_wf_flag_change(ns0, ns);
            assert forall|j: int| 0 <= j < ns.len() implies node_geometry_ok(#[trigger] ns[j])
                by {
                assert(node_geometry_ok(ns0[j]));
            }
        }
    }
}

/// A well-formed tree stays well-formed when only dirty flags, boundary
/// flags or cached geometry change.
pub proof fn lemma_tree_wf_flag_change(a: Seq<RenderNode>, b: Seq<RenderNode>)
    requires
        tree_wf(a),
        a.len() == b.len(),
        forall|j: int| 0 <= j < a.len() ==> ((#[trigger] b[j]).parent == a[j].parent
            && b[j].children@ == a[j].children@ && b[j].alive == a[j].alive),
    ensures
        tree_wf(b),
{
    assert forall|i: int| 0 <= i < b.len() implies #[trigger] parent_ok(b, i) by {
        assert(parent_ok(a, i));
    }
    assert forall|i: int| 0 <= i < b.len() implies #[trigger] children_ok(b, i) by {
        assert(children_ok(a, i));
        assert forall|k: int| 0 <= k < b[i].children@.len() implies child_ok(b, i,
            #[trigger] b[i].children@[k]) by {
            assert(child_ok(a, i, a[i].children@[k]));
        }
    }
}


/// Whether this kind's size is a pure function of the incoming constraints
/// (children cannot affect it).
pub open spec fn spec_sized_by_parent(k: NodeKind) -> bool {
    !(k is WrapChild)
}

/// The percentage policy: the requested share of the maximum width, clamped
/// into the admissible range.
pub open spec fn spec_percent_width(percent: u32, c: BoxConstraints) -> u32 {
    let w = (percent * c.max_width) / 100;
    if w < c.min_width {
        c.min_width
    } else if w > c.max_width {
        c.max_width
    } else {
        w as u32
    }
}

/// The resize step: the size a node of kind `k` resolves from constraints
/// alone.  For the kinds whose size children can affect this is only the
/// fallback used when there is no child.
pub open spec fn spec_resize(k: NodeKind, c: BoxConstraints) -> Size {
    match k {
        NodeKind::Expand => Size { width: c.max_width, height: c.max_height },
        NodeKind::Fixed { width, height } => c.spec_constrain(Size { width, height }),
        NodeKind::PercentWidth { percent } => Size {
            width: spec_percent_width(percent, c),
            height: c.min_height,
        },
        NodeKind::WrapChild => Size { width: c.min_width, height: c.min_height },
    }
}

/// The sub-constraints a node of kind `k`, laid out under `c`, hands each
/// of its children: loose within its own resolved extent, or for a
/// wrapping node the incoming maxima loosened.
pub open spec fn spec_child_constraints(k: NodeKind, c: BoxConstraints) -> BoxConstraints {
    if spec_sized_by_parent(k) {
        let s = spec_resize(k, c);
        BoxConstraints { min_width: 0, max_width: s.width, min_height: 0, max_height: s.height }
    } else {
        BoxConstraints {
            min_width: 0,
            max_width: c.max_width,
            min_height: 0,
            max_height: c.max_height,
        }
    }
}

/// The resize step always resolves a size satisfying well-formed
/// constraints.
pub proof fn lemma_resize_satisfies(k: NodeKind, c: BoxConstraints)
    requires
        c.well_formed(),
    ensures
        c.satisfied_by(spec_resize(k, c)),
{
}

/// The arena after one layout pass rooted at `i` under constraints `c`,
/// with `pus` recording whether the parent declared that it uses `i`'s
/// size.  Children are laid out in order under the sub-constraints the
/// kind computes; afterwards the node's own geometry, dirty-layout flag
/// and relayout-boundary flag are resolved.  `n` bounds the recursion and
/// equals the arena length for every well-formed call.
pub open spec fn spec_layout(ns: Seq<RenderNode>, n: int, i: int, c: BoxConstraints,
    pus: bool) -> Seq<RenderNode>
    decreases n - i, ns[i].children@.len() + 1,
{
    if !(0 <= i && i < ns.len() && i < n) {
        ns
    } else {
        let k = ns[i].kind;
        let boundary = !pus || spec_sized_by_parent(k) || ns[i].parent is None;
        let cc = spec_child_constraints(k, c);
        let kids = ns[i].children@;
        let ns1 = spec_layout_kids(ns, n, i, kids, 0, cc, k is WrapChild);
        let size = if spec_sized_by_parent(k) {
            spec_resize(k, c)
        } else if kids.len() > 0 && i < kids[0] as int && (kids[0] as int) < ns1.len() {
            match ns1[kids[0] as int].size {
                Some(s) => c.spec_constrain(s),
                None => Size { width: c.min_width, height: c.min_height },
            }
        } else {
            Size { width: c.min_width, height: c.min_height }
        };
        ns1.update(i, RenderNode {
            relayout_boundary: boundary,
            needs_layout: false,
            constraints: Some(c),
            size: Some(size),
            ..ns1[i]
        })
    }
}

/// Lay out the children `kids[k..]` of node `i` in paint order under the
/// sub-constraints `cc`; a wrapping parent declares that it uses its first
/// child's size.
pub open spec fn spec_layout_kids(ns: Seq<RenderNode>, n: int, i: int, kids: Seq<usize>,
    k: int, cc: BoxConstraints, wrap: bool) -> Seq<RenderNode>
    decreases n - i, kids.len() - k,
{
    if 0 <= k < kids.len() {
        let ch = kids[k] as int;
        let ns1 = if i < ch && ch < n {
            spec_layout(ns, n, ch, cc, wrap && k == 0)
        } else {
            ns
        };
        spec_layout_kids(ns1, n, i, kids, k + 1, cc, wrap)
    } else {
        ns
    }
}

/// The fields a layout pass never touches, on any node: the tree structure,
/// the node kinds and properties, and the paint flags.
pub open spec fn layout_untouched(a: Seq<RenderNode>, b: Seq<RenderNode>) -> bool {
    &&& a.len() == b.len()
    &&& forall|j: int| 0 <= j < a.len() ==> ((#[trigger] b[j]).kind == a[j].kind
        && b[j].parent == a[j].parent
        && b[j].children@ == a[j].children@
        && b[j].offset == a[j].offset
        && b[j].opaque == a[j].opaque
        && b[j].repaint_boundary == a[j].repaint_boundary
        && b[j].needs_paint == a[j].needs_paint
        && b[j].alive == a[j].alive)
}

/// Exec twin of [`spec_sized_by_parent`].
pub fn sized_by_parent_of(k: NodeKind) -> (r: bool)
    ensures
        r == spec_sized_by_parent(k),
{
    match k {
        NodeKind::WrapChild => false,
        _ => true,
    }
}

/// Exec twin of [`spec_percent_width`].
pub fn percent_width(percent: u32, c: &BoxConstraints) -> (r: u32)
    requires
        c.well_formed(),
    ensures
        r == spec_percent_width(percent, *c),
{
    proof {
        assert((percent as int) * (c.max_width as int) < 0x10000000000000000) by (nonlinear_arith)
            requires
                percent < 0x100000000,
                c.max_width < 0x100000000,
        ;
    }
    let w = (percent as u64) * (c.max_width as u64) / 100;
    if w < c.min_width as u64 {
        c.min_width
    } else if w > c.max_width as u64 {
        c.max_width
    } else {
        w as u32
    }
}

/// Exec twin of [`spec_resize`].
pub fn resize_of(k: NodeKind, c: &BoxConstraints) -> (s: Size)
    requires
        c.well_formed(),
    ensures
        s == spec_resize(k, *c),
        c.satisfied_by(s) || k is WrapChild,
{
    proof {
        lemma_resize_satisfies(k, *c);
    }
    match k {
        NodeKind::Expand => Size { width: c.max_width, height: c.max_height },
        NodeKind::Fixed { width, height } => c.constrain(Size { width, height }),
        NodeKind::PercentWidth { percent } => Size {
            width: percent_width(percent, c),
            height: c.min_height,
        },
        NodeKind::WrapChild => Size { width: c.min_width, height: c.min_height },
    }
}

/// Exec twin of [`spec_child_constraints`].
pub fn child_constraints_of(k: NodeKind, c: &BoxConstraints) -> (r: BoxConstraints)
    requires
        c.well_formed(),
    ensures
        r == spec_child_constraints(k, *c),
        r.well_formed(),
{
    if sized_by_parent_of(k) {
        let s = resize_of(k, c);
        BoxConstraints::loose(s)
    } else {
        BoxConstraints {
            min_width: 0,
            max_width: c.max_width,
            min_height: 0,
            max_height: c.max_height,
        }
    }
}


impl PipelineOwner {
    /// One layout pass rooted at `i`: resolve this node's geometry under
    /// `c` and recurse into every child it owns.
    fn layout_node(&mut self, i: usize, c: BoxConstraints, pus: bool)
        requires
            tree_wf(old(self).nodes@),
            geometry_ok(old(self).nodes@),
            (i as int) < old(self).nodes@.len(),
            old(self).nodes@[i as int].alive,
            c.well_formed(),
        ensures
            final(self).nodes@ == spec_layout(old(self).nodes@, old(self).nodes@.len() as int,
                i as int, c, pus),
            layout_untouched(old(self).nodes@, final(self).nodes@),
            tree_wf(final(self).nodes@),
            geometry_ok(final(self).nodes@),
            final(self).nodes@[i as int].needs_layout == false,
            final(self).nodes@[i as int].constraints == Some(c),
            final(self).nodes@[i as int].size is Some,
            c.satisfied_by(final(self).nodes@[i as int].size->0),
            final(self).dirty_layout@ == old(self).dirty_layout@,
            final(self).dirty_paint@ == old(self).dirty_paint@,
        decreases old(self).nodes@.len() - i,
    {
        let ghost ns0 = self.nodes@;
        let ghost n: int = ns0.len() as int;
        let kind = self.nodes[i].kind;
        let parent_none = match self.nodes[i].parent {
            None => true,
            Some(_) => false,
        };
        let sized = sized_by_parent_of(kind);
        let boundary = !pus || sized || parent_none;
        let cc = child_constraints_of(kind, &c);
        let wrap = !sized;
        let num = self.nodes[i].children.len();
        let ghost kids0 = ns0[i as int].children@;
        let mut k: usize = 0;
        while k < num
            invariant
                tree_wf(self.nodes@),
                geometry_ok(self.nodes@),
                layout_untouched(ns0, self.nodes@),
                ns0 == old(self).nodes@,
                n == ns0.len() as int,
                (i as int) < ns0.len(),
                ns0[i as int].alive,
                c.well_formed(),
                cc.well_formed(),
                cc == spec_child_constraints(ns0[i as int].kind, c),
                kind == ns0[i as int].kind,
                wrap == (ns0[i as int].kind is WrapChild),
                kids0 == ns0[i as int].children@,
                num == kids0.len(),
                k <= num,
                spec_layout_kids(ns0, n, i as int, kids0, 0, cc, wrap) == spec_layout_kids(
                    self.nodes@, n, i as int, kids0, k as int, cc, wrap),
                self.dirty_layout@ == old(self).dirty_layout@,
                self.dirty_paint@ == old(self).dirty_paint@,
            decreases num - k,
        {
            let ch = self.nodes[i].children[k];
            proof {
                assert(children_ok(self.nodes@, i as int));
                assert(child_ok(self.nodes@, i as int, self.nodes@[i as int].children@[
                    k as int]));
            }
            let ghost prev = self.nodes@;
            self.layout_node(ch, cc, wrap && k == 0);
            proof {
                assert(spec_layout_kids(prev, n, i as int, kids0, k as int, cc, wrap)
                    == spec_layout_kids(self.nodes@, n, i as int, kids0, k as int + 1, cc,
                    wrap));
            }
            k += 1;
        }
        proof {
            assert(spec_layout_kids(self.nodes@, n, i as int, kids0, num as int, cc, wrap)
                == self.nodes@);
        }
        let ghost ns1 = self.nodes@;
        let size: Size = if sized {
            resize_of(kind, &c)
        } else if num > 0 {
            let ch0 = self.nodes[i].children[0];
            proof {
                assert(children_ok(self.nodes@, i as int));
                assert(child_ok(self.nodes@, i as int, self.nodes@[i as int].children@[0]));
            }
            match self.nodes[ch0].size {
                Some(s) => c.constrain(s),
                None => Size { width: c.min_width, height: c.min_height },
            }
        } else {
            Size { width: c.min_width, height: c.min_height }
        };
        self.nodes[i].relayout_boundary = boundary;
        self.nodes[i].needs_layout = false;
        self.nodes[i].constraints = Some(c);
        self.nodes[i].size = Some(size);
        proof {
            lemma_resize_satisfies(kind, c);
            assert(self.nodes@ =~= ns1.update(i as int, RenderNode {
                relayout_boundary: boundary,
                needs_layout: false,
                constraints: Some(c),
                size: Some(size),
                ..ns1[i as int]
            }));
            assert(self.nodes@ == spec_layout(ns0, n, i as int, c, pus));
            lemma_tree_wf_flag_change(ns1, self.nodes@);
            assert forall|j: int| 0 <= j < self.nodes@.len() implies node_geometry_ok(
                #[trigger] self.nodes@[j]) by {
                if j != i as int {
                    assert(node_geometry_ok(ns1[j]));
                }
            }
        }
    }

    /// Lay out the subtree rooted at `i` under `constraints`.  Afterwards
    /// `i` is clean and its resolved size satisfies the constraints, as
    /// does every descendant's size with respect to the sub-constraints it
    /// was handed.
    pub fn perform_layout(&mut self, i: usize, constraints: BoxConstraints)
        requires
            old(self).wf(),
            (i as int) < old(self).nodes_seq().len(),
            old(self).nodes_seq()[i as int].alive,
            constraints.well_formed(),
        ensures
            final(self).wf(),
            final(self).nodes_seq() == spec_layout(old(self).nodes_seq(), old(
                self).nodes_seq().len() as int, i as int, constraints, false),
            layout_untouched(old(self).nodes_seq(), final(self).nodes_seq()),
            final(self).nodes_seq()[i as int].needs_layout == false,
            final(self).nodes_seq()[i as int].size is Some,
            constraints.satisfied_by(final(self).nodes_seq()[i as int].size->0),
            final(self).dirty_layout_seq() == old(self).dirty_layout_seq(),
            final(self).dirty_paint_seq() == old(self).dirty_paint_seq(),
    {
        self.layout_node(i, constraints, false);
    }

    /// Drain the layout dirty list: visit each pending relayout boundary
    /// and re-lay-out the ones still alive and still dirty, each under the
    /// constraints it was last laid out with.  Entries for removed nodes
    /// and for nodes an earlier boundary already cleaned are skipped.
    pub fn flush_layout(&mut self)
        requires
            old(self).wf(),
        ensures
            final(self).wf(),
            final(self).nodes_seq() == spec_flush_layout(old(self).nodes_seq(), old(
                self).dirty_layout_seq()),
            final(self).dirty_layout_seq().len() == 0,
            final(self).dirty_paint_seq() == old(self).dirty_paint_seq(),
    {
        while self.dirty_layout.len() > 0
            invariant
                self.wf(),
                spec_flush_layout(old(self).nodes_seq(), old(self).dirty_layout_seq())
                    == spec_flush_layout(self.nodes@, self.dirty_layout@),
                self.dirty_paint@ == old(self).dirty_paint@,
            decreases self.dirty_layout@.len(),
        {
            let ghost prev_ns = self.nodes@;
            let ghost prev_d = self.dirty_layout@;
            let b = self.dirty_layout.remove(0);
            proof {
                assert(prev_d[0] == b);
                assert forall|k1: int, k2: int| 0 <= k1 < k2 < self.dirty_layout@.len()
                    implies self.dirty_layout@[k1] != self.dirty_layout@[k2] by {
                    assert(prev_d[k1 + 1] == self.dirty_layout@[k1]);
                    assert(prev_d[k2 + 1] == self.dirty_layout@[k2]);
                }
                assert(self.dirty_layout@ =~= prev_d.skip(1));
            }
            let go = self.nodes[b].alive && self.nodes[b].needs_layout;
            if go {
                let copt = self.nodes[b].constraints;
                match copt {
                    Some(c) => {
                        proof {
                            assert(node_geometry_ok(self.nodes@[b as int]));
                        }
                        self.layout_node(b, c, false);
                    },
                    None => {},
                }
            }
        }
    }
}

/// The arena after a flush of the layout dirty list `d` over `ns`: each
/// entry in order is re-laid-out under its cached constraints if it is
/// still alive, still dirty and has ever been laid out; every other entry
/// is skipped without effect.
pub open spec fn spec_flush_layout(ns: Seq<RenderNode>, d: Seq<usize>) -> Seq<RenderNode>
    decreases d.len(),
{
    if d.len() == 0 {
        ns
    } else {
        let b = d[0] as int;
        let ns1 = if 0 <= b && b < ns.len() && ns[b].alive && ns[b].needs_layout && ns[
            b].constraints is Some {
            spec_layout(ns, ns.len() as int, b, ns[b].constraints->0, false)
        } else {
            ns
        };
        spec_flush_layout(ns1, d.skip(1))
    }
}


/// A pointer position translated into a child's local coordinate space.
pub open spec fn spec_child_local(pos: Offset, off: Offset) -> Offset {
    Offset { x: (pos.x - off.x) as u32, y: (pos.y - off.y) as u32 }
}

/// The hit-test pass rooted at `i` for a position already in `i`'s local
/// space: whether the subtree absorbs the hit, and the entries it appends,
/// innermost first.  A node only absorbs when the position lies within its
/// resolved bounds; children get first refusal in reverse paint order; the
/// node's own area absorbs when it is opaque.  A node that has never been
/// laid out absorbs nothing.
pub open spec fn spec_hit(ns: Seq<RenderNode>, n: int, i: int, pos: Offset) -> (bool, Seq<
    HitTestEntry>)
    decreases n - i, ns[i].children@.len() + 1,
{
    if !(0 <= i && i < ns.len() && i < n) {
        (false, Seq::empty())
    } else {
        match ns[i].size {
            None => (false, Seq::empty()),
            Some(sz) => {
                if !sz.spec_contains(pos) {
                    (false, Seq::empty())
                } else {
                    let kids = ns[i].children@;
                    let r = spec_hit_kids(ns, n, i, kids, kids.len() as int, pos);
                    if r.0 || ns[i].opaque {
                        (true, r.1 + seq![(HitTestEntry { node: i as usize, position: pos })])
                    } else {
                        (false, Seq::empty())
                    }
                }
            },
        }
    }
}

/// Hit-test the children `kids[..k]` of node `i` in reverse paint order,
/// so the visually topmost child gets first refusal; once one absorbs the
/// hit, no earlier-painted sibling is tested.
pub open spec fn spec_hit_kids(ns: Seq<RenderNode>, n: int, i: int, kids: Seq<usize>, k: int,
    pos: Offset) -> (bool, Seq<HitTestEntry>)
    decreases n - i, k,
{
    if !(0 < k <= kids.len()) {
        (false, Seq::empty())
    } else {
        let ch = kids[k - 1] as int;
        let r = if i < ch && ch < n && pos.x >= ns[ch].offset.x && pos.y >= ns[ch].offset.y {
            spec_hit(ns, n, ch, spec_child_local(pos, ns[ch].offset))
        } else {
            (false, Seq::empty())
        };
        if r.0 {
            r
        } else {
            spec_hit_kids(ns, n, i, kids, k - 1, pos)
        }
    }
}

impl PipelineOwner {
    /// Hit-test the subtree of `i` at `pos`, appending entries to `result`.
    fn hit_node(&self, i: usize, pos: Offset, result: &mut BoxHitTestResult) -> (r: bool)
        requires
            tree_wf(self.nodes@),
            (i as int) < self.nodes@.len(),
        ensures
            r == spec_hit(self.nodes@, self.nodes@.len() as int, i as int, pos).0,
            final(result)@ == old(result)@ + spec_hit(self.nodes@, self.nodes@.len() as int,
                i as int, pos).1,
        decreases self.nodes@.len() - i, self.nodes@[i as int].children@.len() + 1,
    {
        proof {
            lemma_seq_add_empty(old(result)@);
        }
        let szopt = self.nodes[i].size;
        match szopt {
            None => false,
            Some(sz) => {
                if sz.contains(pos) {
                    let num = self.nodes[i].children.len();
                    let childhit = self.hit_kids(i, num, pos, result);
                    if childhit || self.nodes[i].opaque {
                        result.add(HitTestEntry { node: i, position: pos });
                        proof {
                            let rk = spec_hit_kids(self.nodes@, self.nodes@.len() as int,
                                i as int, self.nodes@[i as int].children@, num as int, pos);
                            assert((old(result)@ + rk.1).push(HitTestEntry {
                                node: i,
                                position: pos,
                            }) =~= old(result)@ + (rk.1 + seq![(HitTestEntry {
                                node: i,
                                position: pos,
                            })]));
                        }
                        true
                    } else {
                        proof {
                            lemma_hit_kids_no_absorb_empty(self.nodes@,
                                self.nodes@.len() as int, i as int,
                                self.nodes@[i as int].children@, num as int, pos);
                        }
                        false
                    }
                } else {
                    false
                }
            },
        }
    }

    /// Hit-test the first `k` children of `i` in reverse paint order.
    fn hit_kids(&self, i: usize, k: usize, pos: Offset, result: &mut BoxHitTestResult) -> (r:
        bool)
        requires
            tree_wf(self.nodes@),
            (i as int) < self.nodes@.len(),
            k as int <= self.nodes@[i as int].children@.len(),
        ensures
            r == spec_hit_kids(self.nodes@, self.nodes@.len() as int, i as int,
                self.nodes@[i as int].children@, k as int, pos).0,
            final(result)@ == old(result)@ + spec_hit_kids(self.nodes@,
                self.nodes@.len() as int, i as int, self.nodes@[i as int].children@, k as int,
                pos).1,
        decreases self.nodes@.len() - i, k as int,
    {
        proof {
            lemma_seq_add_empty(old(result)@);
        }
        if k == 0 {
            false
        } else {
            let ch = self.nodes[i].children[k - 1];
            proof {
                assert(children_ok(self.nodes@, i as int));
                assert(child_ok(self.nodes@, i as int, self.nodes@[i as int].children@[
                    k as int - 1]));
            }
            let off = self.nodes[ch].offset;
            let hit_child = if pos.x >= off.x && pos.y >= off.y {
                self.hit_node(ch, Offset { x: pos.x - off.x, y: pos.y - off.y }, result)
            } else {
                false
            };
            if hit_child {
                true
            } else {
                proof {
                    lemma_seq_add_empty(old(result)@);
                }
                let r = self.hit_kids(i, k - 1, pos, result);
                r
            }
        }
    }

    /// Hit-test the tree rooted at `root` at `position` (already in the
    /// root's coordinate space).  Returns whether the tree absorbed the hit
    /// and the ordered entries, innermost (visually topmost) first.
    pub fn hit_test(&self, root: usize, position: Offset) -> (res: (bool, BoxHitTestResult))
        requires
            self.wf(),
            (root as int) < self.nodes_seq().len(),
        ensures
            res.0 == spec_hit(self.nodes_seq(), self.nodes_seq().len() as int, root as int,
                position).0,
            res.1@ == spec_hit(self.nodes_seq(), self.nodes_seq().len() as int, root as int,
                position).1,
    {
        let mut result = BoxHitTestResult::new();
        let absorbed = self.hit_node(root, position, &mut result);
        (absorbed, result)
    }
}

/// Hit-test ordering: when the last-painted (visually topmost) child of
/// `i` absorbs the hit, the pass returns exactly that child's entries
/// followed by `i`'s own entry — no earlier-painted sibling contributes an
/// entry, because none is tested once the topmost child absorbs.
pub proof fn lemma_hit_topmost_child_wins(ns: Seq<RenderNode>, i: int, pos: Offset)
    requires
        tree_wf(ns),
        0 <= i < ns.len(),
        ns[i].size is Some,
        ns[i].size->0.spec_contains(pos),
        ns[i].children@.len() > 0,
        pos.x >= ns[ns[i].children@.last() as int].offset.x,
        pos.y >= ns[ns[i].children@.last() as int].offset.y,
        spec_hit(ns, ns.len() as int, ns[i].children@.last() as int, spec_child_local(pos,
            ns[ns[i].children@.last() as int].offset)).0,
    ensures
        spec_hit(ns, ns.len() as int, i, pos).0,
        spec_hit(ns, ns.len() as int, i, pos).1 == spec_hit(ns, ns.len() as int,
            ns[i].children@.last() as int, spec_child_local(pos,
            ns[ns[i].children@.last() as int].offset)).1 + seq![(HitTestEntry {
            node: i as usize,
            position: pos,
        })],
{
    let kids = ns[i].children@;
    let k = kids.len() as int;
    assert(children_ok(ns, i));
    assert(child_ok(ns, i, kids[k - 1]));
}

/// Sized-by-parent purity: a node whose kind is sized by parent resolves
/// its size from the constraints alone.  Two layout passes over arbitrary
/// arenas — in particular over trees with entirely different children —
/// resolve the same size whenever the kinds and constraints agree.
pub proof fn lemma_sized_by_parent_pure(ns1: Seq<RenderNode>, i1: int, pus1: bool,
    ns2: Seq<RenderNode>, i2: int, pus2: bool, c: BoxConstraints)
    requires
        0 <= i1 < ns1.len(),
        0 <= i2 < ns2.len(),
        ns1[i1].kind == ns2[i2].kind,
        spec_sized_by_parent(ns1[i1].kind),
    ensures
        spec_layout(ns1, ns1.len() as int, i1, c, pus1)[i1].size == Some(spec_resize(
            ns1[i1].kind, c)),
        spec_layout(ns1, ns1.len() as int, i1, c, pus1)[i1].size == spec_layout(ns2,
            ns2.len() as int, i2, c, pus2)[i2].size,
{
    lemma_layout_kids_len(ns1, ns1.len() as int, i1, ns1[i1].children@, 0,
        spec_child_constraints(ns1[i1].kind, c), ns1[i1].kind is WrapChild);
    lemma_layout_kids_len(ns2, ns2.len() as int, i2, ns2[i2].children@, 0,
        spec_child_constraints(ns2[i2].kind, c), ns2[i2].kind is WrapChild);
}

/// A layout pass never changes the arena's length.
pub proof fn lemma_layout_len(ns: Seq<RenderNode>, n: int, i: int, c: BoxConstraints,
    pus: bool)
    ensures
        spec_layout(ns, n, i, c, pus).len() == ns.len(),
    decreases n - i, ns[i].children@.len() + 1,
{
    if 0 <= i && i < ns.len() && i < n {
        lemma_layout_kids_len(ns, n, i, ns[i].children@, 0, spec_child_constraints(ns[i].kind,
            c), ns[i].kind is WrapChild);
    }
}

/// Laying out a run of children never changes the arena's length.
pub proof fn lemma_layout_kids_len(ns: Seq<RenderNode>, n: int, i: int, kids: Seq<usize>,
    k: int, cc: BoxConstraints, wrap: bool)
    ensures
        spec_layout_kids(ns, n, i, kids, k, cc, wrap).len() == ns.len(),
    decreases n - i, kids.len() - k,
{
    if 0 <= k < kids.len() {
        let ch = kids[k] as int;
        if i < ch && ch < n {
            lemma_layout_len(ns, n, ch, cc, wrap && k == 0);
            lemma_layout_kids_len(spec_layout(ns, n, ch, cc, wrap && k == 0), n, i, kids,
                k + 1, cc, wrap);
        } else {
            lemma_layout_kids_len(ns, n, i, kids, k + 1, cc, wrap);
        }
    }
}

/// Constraint satisfaction: every node that has completed a layout holds a
/// resolved size that satisfies the well-formed constraints it was handed
/// (minimum at most the size, size at most the maximum, per axis).
pub proof fn lemma_laid_out_size_satisfies(ns: Seq<RenderNode>, j: int)
    requires
        geometry_ok(ns),
        0 <= j < ns.len(),
        ns[j].size is Some,
    ensures
        ns[j].constraints is Some,
        ns[j].constraints->0.well_formed(),
        ns[j].constraints->0.satisfied_by(ns[j].size->0),
{
    assert(node_geometry_ok(ns[j]));
}


/// Appending no entries leaves an entry sequence unchanged.
pub proof fn lemma_seq_add_empty(s: Seq<HitTestEntry>)
    ensures
        s + Seq::<HitTestEntry>::empty() == s,
{
    assert(s + Seq::<HitTestEntry>::empty() =~= s);
}

/// When no child absorbs the hit, the children contribute no entries.
pub proof fn lemma_hit_kids_no_absorb_empty(ns: Seq<RenderNode>, n: int, i: int,
    kids: Seq<usize>, k: int, pos: Offset)
    ensures
        !spec_hit_kids(ns, n, i, kids, k, pos).0 ==> spec_hit_kids(ns, n, i, kids, k, pos).1
            == Seq::<HitTestEntry>::empty(),
    decreases k,
{
    if 0 < k <= kids.len() {
        lemma_hit_kids_no_absorb_empty(ns, n, i, kids, k - 1, pos);
    }
}


/// The arena after destroying the subtree rooted at `i`: `i` and, below
/// it, every node it transitively owns are no longer alive; no other field
/// of any node changes.  `n` bounds the recursion and equals the arena
/// length for every well-formed call.
pub open spec fn spec_kill(ns: Seq<RenderNode>, n: int, i: int) -> Seq<RenderNode>
    decreases n - i, ns[i].children@.len() + 1,
{
    if !(0 <= i && i < ns.len() && i < n) {
        ns
    } else {
        let ns1 = ns.update(i, RenderNode { alive: false, ..ns[i] });
        spec_kill_kids(ns1, n, i, ns[i].children@, 0)
    }
}

/// Destroy the subtrees of the children `kids[k..]` of node `i`.
pub open spec fn spec_kill_kids(ns: Seq<RenderNode>, n: int, i: int, kids: Seq<usize>,
    k: int) -> Seq<RenderNode>
    decreases n - i, kids.len() - k,
{
    if 0 <= k < kids.len() {
        let ch = kids[k] as int;
        let ns1 = if i < ch && ch < n {
            spec_kill(ns, n, ch)
        } else {
            ns
        };
        spec_kill_kids(ns1, n, i, kids, k + 1)
    } else {
        ns
    }
}

impl PipelineOwner {
    /// Destroy the subtree rooted at `i`: mark `i` dead, then its children
    /// top-down, so the tree invariant holds at every step.
    fn kill_subtree(&mut self, i: usize)
        requires
            tree_wf(old(self).nodes@),
            (i as int) < old(self).nodes@.len(),
            old(self).nodes@[i as int].parent is Some ==> !old(self).nodes@[old(
                self).nodes@[i as int].parent->0 as int].alive,
        ensures
            final(self).nodes@ == spec_kill(old(self).nodes@, old(self).nodes@.len() as int,
                i as int),
            final(self).nodes@.len() == old(self).nodes@.len(),
            forall|j: int| 0 <= j < old(self).nodes@.len() ==> ((#[trigger] final(
                self).nodes@[j]).kind == old(self).nodes@[j].kind
                && final(self).nodes@[j].parent == old(self).nodes@[j].parent
                && final(self).nodes@[j].children@ == old(self).nodes@[j].children@
                && final(self).nodes@[j].offset == old(self).nodes@[j].offset
                && final(self).nodes@[j].opaque == old(self).nodes@[j].opaque
                && final(self).nodes@[j].repaint_boundary == old(self).nodes@[
                j].repaint_boundary
                && final(self).nodes@[j].relayout_boundary == old(self).nodes@[
                j].relayout_boundary
                && final(self).nodes@[j].needs_layout == old(self).nodes@[j].needs_layout
                && final(self).nodes@[j].needs_paint == old(self).nodes@[j].needs_paint
                && final(self).nodes@[j].constraints == old(self).nodes@[j].constraints
                && final(self).nodes@[j].size == old(self).nodes@[j].size),
            forall|j: int| 0 <= j < i as int ==> final(self).nodes@[j] == old(self).nodes@[j],
            final(self).nodes@[i as int] == (RenderNode {
                alive: false,
                ..old(self).nodes@[i as int]
            }),
            forall|j: int| 0 <= j < old(self).nodes@.len() ==> ((#[trigger] final(
                self).nodes@[j]).alive ==> old(self).nodes@[j].alive),
            tree_wf(final(self).nodes@),
            final(self).dirty_layout@ == old(self).dirty_layout@,
            final(self).dirty_paint@ == old(self).dirty_paint@,
        decreases old(self).nodes@.len() - i,
    {
        let ghost ns0 = self.nodes@;
        let ghost n: int = ns0.len() as int;
        self.nodes[i].alive = false;
        proof {
            assert(self.nodes@ =~= ns0.update(i as int, RenderNode {
                alive: false,
                ..ns0[i as int]
            }));
            lemma_tree_wf_alive_off(ns0, self.nodes@, i as int);
        }
        let ghost kids0 = ns0[i as int].children@;
        let num = self.nodes[i].children.len();
        let mut k: usize = 0;
        while k < num
            invariant
                tree_wf(self.nodes@),
                tree_wf(ns0),
                ns0 == old(self).nodes@,
                n == ns0.len() as int,
                (i as int) < ns0.len(),
                kids0 == ns0[i as int].children@,
                num == kids0.len(),
                k <= num,
                self.nodes@.len() == ns0.len(),
                forall|j: int| 0 <= j < ns0.len() ==> ((#[trigger] self.nodes@[j]).kind
                    == ns0[j].kind && self.nodes@[j].parent == ns0[j].parent
                    && self.nodes@[j].children@ == ns0[j].children@
                    && self.nodes@[j].offset == ns0[j].offset
                    && self.nodes@[j].opaque == ns0[j].opaque
                    && self.nodes@[j].repaint_boundary == ns0[j].repaint_boundary
                    && self.nodes@[j].relayout_boundary == ns0[j].relayout_boundary
                    && self.nodes@[j].needs_layout == ns0[j].needs_layout
                    && self.nodes@[j].needs_paint == ns0[j].needs_paint
                    && self.nodes@[j].constraints == ns0[j].constraints
                    && self.nodes@[j].size == ns0[j].size),
                forall|j: int| 0 <= j < i as int ==> self.nodes@[j] == ns0[j],
                self.nodes@[i as int] == (RenderNode { alive: false, ..ns0[i as int] }),
                forall|j: int| 0 <= j < ns0.len() ==> ((#[trigger] self.nodes@[j]).alive
                    ==> ns0[j].alive),
                spec_kill(ns0, n, i as int) == spec_kill_kids(self.nodes@, n, i as int, kids0,
                    k as int),
                self.dirty_layout@ == old(self).dirty_layout@,
                self.dirty_paint@ == old(self).dirty_paint@,
            decreases num - k,
        {
            let ch = self.nodes[i].children[k];
            proof {
                assert(children_ok(ns0, i as int));
                assert(child_ok(ns0, i as int, ns0[i as int].children@[k as int]));
            }
            let ghost prev = self.nodes@;
            self.kill_subtree(ch);
            proof {
                assert(spec_kill_kids(prev, n, i as int, kids0, k as int) == spec_kill_kids(
                    self.nodes@, n, i as int, kids0, k as int + 1));
            }
            k += 1;
        }
        proof {
            assert(spec_kill_kids(self.nodes@, n, i as int, kids0, num as int)
                == self.nodes@);
        }
    }

    /// Remove the node `i` from the tree: detach it from its parent's
    /// paint order and destroy it together with its whole subtree.  Any
    /// entries the dirty lists still hold for destroyed nodes stay behind
    /// and are ignored by the flushes.
    #[verifier::rlimit(60)]
    pub fn remove(&mut self, i: usize)
        requires
            old(self).wf(),
            (i as int) < old(self).nodes_seq().len(),
            old(self).nodes_seq()[i as int].alive,
        ensures
            final(self).wf(),
            final(self).nodes_seq().len() == old(self).nodes_seq().len(),
            !final(self).nodes_seq()[i as int].alive,
            final(self).nodes_seq()[i as int].parent is None,
            final(self).dirty_layout_seq() == old(self).dirty_layout_seq(),
            final(self).dirty_paint_seq() == old(self).dirty_paint_seq(),
            ({
                let ns0 = old(self).nodes_seq();
                let nsf = final(self).nodes_seq();
                let n = ns0.len() as int;
                if ns0[i as int].parent is Some {
                    let p = ns0[i as int].parent->0 as int;
                    let cs0 = ns0[p].children@;
                    let mid = ns0.update(p, RenderNode {
                        children: nsf[p].children,
                        ..ns0[p]
                    }).update(i as int, RenderNode { parent: None, ..ns0[i as int] });
                    &&& nsf[p].children@ == cs0.remove(cs0.index_of((i as usize)))
                    &&& nsf == spec_kill(mid, n, i as int)
                } else {
                    final(self).nodes_seq() == spec_kill(ns0.update(i as int, RenderNode {
                        parent: None,
                        ..ns0[i as int]
                    }), n, i as int)
                }
            }),
    {
        let ghost ns0 = self.nodes@;
        let ghost n: int = ns0.len() as int;
        let arena_len = self.nodes.len();
        proof {
            assert(ns0.len() == arena_len as int);
        }
        let par = self.nodes[i].parent;
        match par {
            Some(p) => {
                proof {
                    assert(parent_ok(ns0, i as int));
                    assert(children_ok(ns0, p as int));
                }
                let ghost cs0 = ns0[p as int].children@;
                let clen = self.nodes[p].children.len();
                let mut k: usize = 0;
                while self.nodes[p].children[k] != i
                    invariant
                        self == old(self),
                        tree_wf(ns0),
                        ns0 == self.nodes@,
                        (p as int) < ns0.len(),
                        cs0 == ns0[p as int].children@,
                        cs0.contains((i as usize)),
                        cs0.len() == clen as int,
                        k < cs0.len(),
                        forall|m: int| 0 <= m < k as int ==> cs0[m] != i as usize,
                    decreases cs0.len() - k,
                {
                    k += 1;
                    proof {
                        if k as int == cs0.len() {
                            let w = choose|w: int| 0 <= w < cs0.len() && cs0[w] == i as usize;
                            assert(false);
                        }
                    }
                }
                proof {
                    assert(cs0[k as int] == i as usize);
                    let w = cs0.index_of((i as usize));
                    assert(cs0[w] == i as usize && 0 <= w < cs0.len());
                    if w != k as int {
                        assert(children_ok(ns0, p as int));
                        assert(false);
                    }
                }
                self.nodes[p].children.remove(k);
                self.nodes[i].parent = None;
                proof {
                    let mid = ns0.update(p as int, RenderNode {
                        children: self.nodes@[p as int].children,
                        ..ns0[p as int]
                    }).update(i as int, RenderNode { parent: None, ..ns0[i as int] });
                    assert(self.nodes@ =~= mid);
                    lemma_tree_wf_unlink(ns0, self.nodes@, i as int, p as int, k as int);
                }
                self.kill_subtree(i);
            },
            None => {
                self.nodes[i].parent = None;
                proof {
                    assert(self.nodes@ =~= ns0.update(i as int, RenderNode {
                        parent: None,
                        ..ns0[i as int]
                    }));
                    lemma_tree_wf_flag_parent_none(ns0, self.nodes@, i as int);
                }
                self.kill_subtree(i);
            },
        }
        proof {
            assert forall|j: int| 0 <= j < self.nodes@.len() implies node_geometry_ok(
                #[trigger] self.nodes@[j]) by {
                assert(node_geometry_ok(ns0[j]));
            }
        }
    }

    /// Drain the paint dirty list: each registered repaint boundary that is
    /// still alive and still marked has its paint flag cleared as its
    /// isolated surface is handed to the paint collaborator; entries for
    /// removed nodes are skipped.
    pub fn flush_paint(&mut self)
        requires
            old(self).wf(),
        ensures
            final(self).wf(),
            final(self).nodes_seq() == spec_flush_paint(old(self).nodes_seq(), old(
                self).dirty_paint_seq()),
            final(self).dirty_paint_seq().len() == 0,
            final(self).dirty_layout_seq() == old(self).dirty_layout_seq(),
    {
        while self.dirty_paint.len() > 0
            invariant
                self.wf(),
                spec_flush_paint(old(self).nodes_seq(), old(self).dirty_paint_seq())
                    == spec_flush_paint(self.nodes@, self.dirty_paint@),
                self.dirty_layout@ == old(self).dirty_layout@,
            decreases self.dirty_paint@.len(),
        {
            let ghost prev_ns = self.nodes@;
            let ghost prev_d = self.dirty_paint@;
            let b = self.dirty_paint.remove(0);
            proof {
                assert(prev_d[0] == b);
                assert forall|k1: int, k2: int| 0 <= k1 < k2 < self.dirty_paint@.len() implies
                    self.dirty_paint@[k1] != self.dirty_paint@[k2] by {
                    assert(prev_d[k1 + 1] == self.dirty_paint@[k1]);
                    assert(prev_d[k2 + 1] == self.dirty_paint@[k2]);
                }
                assert(self.dirty_paint@ =~= prev_d.skip(1));
            }
            if self.nodes[b].alive && self.nodes[b].needs_paint {
                self.nodes[b].needs_paint = false;
                proof {
                    assert(self.nodes@ =~= prev_ns.update(b as int, RenderNode {
                        needs_paint: false,
                        ..prev_ns[b as int]
                    }));
                    lemma_tree_wf_flag_change(prev_ns, self.nodes@);
                    assert forall|j: int| 0 <= j < self.nodes@.len() implies node_geometry_ok(
                        #[trigger] self.nodes@[j]) by {
                        assert(node_geometry_ok(prev_ns[j]));
                    }
                }
            }
        }
    }
}

/// The arena after a flush of the paint dirty list `d`: each entry in
/// order has its paint flag cleared if it is still alive and still marked;
/// every other entry is skipped without effect.
pub open spec fn spec_flush_paint(ns: Seq<RenderNode>, d: Seq<usize>) -> Seq<RenderNode>
    decreases d.len(),
{
    if d.len() == 0 {
        ns
    } else {
        let b = d[0] as int;
        let ns1 = if 0 <= b && b < ns.len() && ns[b].alive && ns[b].needs_paint {
            ns.update(b, RenderNode { needs_paint: false, ..ns[b] })
        } else {
            ns
        };
        spec_flush_paint(ns1, d.skip(1))
    }
}

/// Turning one node's alive flag off preserves the tree invariant when the
/// node's parent link is absent or its parent is already dead.
pub proof fn lemma_tree_wf_alive_off(a: Seq<RenderNode>, b: Seq<RenderNode>, i: int)
    requires
        tree_wf(a),
        0 <= i < a.len(),
        b == a.update(i, RenderNode { alive: false, ..a[i] }),
        a[i].parent is Some ==> !a[a[i].parent->0 as int].alive,
    ensures
        tree_wf(b),
{
    assert forall|j: int| 0 <= j < b.len() implies #[trigger] parent_ok(b, j) by {
        assert(parent_ok(a, j));
    }
    assert forall|j: int| 0 <= j < b.len() implies #[trigger] children_ok(b, j) by {
        assert(children_ok(a, j));
        assert forall|k: int| 0 <= k < b[j].children@.len() implies child_ok(b, j,
            #[trigger] b[j].children@[k]) by {
            assert(child_ok(a, j, a[j].children@[k]));
        }
    }
}

/// Detaching a node that already has no parent changes nothing.
pub proof fn lemma_tree_wf_flag_parent_none(a: Seq<RenderNode>, b: Seq<RenderNode>, i: int)
    requires
        tree_wf(a),
        0 <= i < a.len(),
        a[i].parent is None,
        b == a.update(i, RenderNode { parent: None, ..a[i] }),
    ensures
        tree_wf(b),
{
    assert(b =~= a);
}

/// Unlinking child `i` (at position `k`) from its parent `p`'s paint order
/// and clearing its back-reference keeps the tree invariant.
pub proof fn lemma_tree_wf_unlink(a: Seq<RenderNode>, b: Seq<RenderNode>, i: int, p: int,
    k: int)
    requires
        tree_wf(a),
        a.len() <= usize::MAX as int,
        0 <= i < a.len(),
        0 <= p < a.len(),
        a[i].parent == Some((p as usize)),
        0 <= k < a[p].children@.len(),
        a[p].children@[k] == i as usize,
        b.len() == a.len(),
        b[p].children@ == a[p].children@.remove(k),
        b[p] == (RenderNode { children: b[p].children, ..a[p] }),
        b[i] == (RenderNode { parent: None, ..a[i] }),
        forall|j: int| 0 <= j < a.len() && j != i && j != p ==> b[j] == a[j],
        i != p,
    ensures
        tree_wf(b),
{
    let cs0 = a[p].children@;
    let cs1 = b[p].children@;
    assert(children_ok(a, p));
    assert forall|j: int| 0 <= j < b.len() implies #[trigger] parent_ok(b, j) by {
        assert(parent_ok(a, j));
        if j != i && b[j].parent is Some {
            let q = b[j].parent->0 as int;
            assert(a[q].children@.contains((j as usize)));
            if q == p {
                let w = choose|w: int| 0 <= w < cs0.len() && cs0[w] == j as usize;
                assert(w != k);
                if w < k {
                    assert(cs1[w] == j as usize);
                } else {
                    assert(cs1[w - 1] == j as usize);
                }
            }
        }
    }
    assert forall|j: int| 0 <= j < b.len() implies #[trigger] children_ok(b, j) by {
        assert(children_ok(a, j));
        if j == p {
            assert forall|m: int| 0 <= m < cs1.len() implies child_ok(b, p,
                #[trigger] cs1[m]) by {
                let m0 = if m < k {
                    m
                } else {
                    m + 1
                };
                assert(cs1[m] == cs0[m0]);
                assert(child_ok(a, p, cs0[m0]));
                assert(cs0[m0] != i as usize);
            }
            assert forall|m1: int, m2: int| 0 <= m1 < m2 < cs1.len() implies cs1[m1]
                != cs1[m2] by {
                let w1 = if m1 < k {
                    m1
                } else {
                    m1 + 1
                };
                let w2 = if m2 < k {
                    m2
                } else {
                    m2 + 1
                };
                assert(cs1[m1] == cs0[w1] && cs1[m2] == cs0[w2]);
            }
        } else {
            assert forall|m: int| 0 <= m < b[j].children@.len() implies child_ok(b, j,
                #[trigger] b[j].children@[m]) by {
                assert(child_ok(a, j, a[j].children@[m]));
                assert(a[j].children@[m] != i as usize);
            }
        }
    }
}


impl PipelineOwner {
    /// The resolved size of `i`, if it has completed a layout.
    pub fn resolved_size(&self, i: usize) -> (r: Option<Size>)
        requires
            (i as int) < self.nodes_seq().len(),
        ensures
            r == self.nodes_seq()[i as int].size,
    {
        self.nodes[i].size
    }

    /// The constraints `i` was last laid out with, if any.
    pub fn node_constraints(&self, i: usize) -> (r: Option<BoxConstraints>)
        requires
            (i as int) < self.nodes_seq().len(),
        ensures
            r == self.nodes_seq()[i as int].constraints,
    {
        self.nodes[i].constraints
    }

    /// Whether `i`'s layout information is dirty.
    pub fn node_needs_layout(&self, i: usize) -> (r: bool)
        requires
            (i as int) < self.nodes_seq().len(),
        ensures
            r == self.nodes_seq()[i as int].needs_layout,
    {
        self.nodes[i].needs_layout
    }

    /// Whether `i`'s paint is dirty.
    pub fn node_needs_paint(&self, i: usize) -> (r: bool)
        requires
            (i as int) < self.nodes_seq().len(),
        ensures
            r == self.nodes_seq()[i as int].needs_paint,
    {
        self.nodes[i].needs_paint
    }

    /// Whether `i` is still part of the tree.
    pub fn node_alive(&self, i: usize) -> (r: bool)
        requires
            (i as int) < self.nodes_seq().len(),
        ensures
            r == self.nodes_seq()[i as int].alive,
    {
        self.nodes[i].alive
    }

    /// Whether the last layout classified `i` as a relayout boundary.
    pub fn node_is_relayout_boundary(&self, i: usize) -> (r: bool)
        requires
            (i as int) < self.nodes_seq().len(),
        ensures
            r == self.nodes_seq()[i as int].relayout_boundary,
    {
        self.nodes[i].relayout_boundary
    }

    /// The parent of `i`, if it has one.
    pub fn node_parent(&self, i: usize) -> (r: Option<usize>)
        requires
            (i as int) < self.nodes_seq().len(),
        ensures
            r == self.nodes_seq()[i as int].parent,
    {
        self.nodes[i].parent
    }

    /// How many relayout boundaries are pending layout.
    pub fn dirty_layout_len(&self) -> (n: usize)
        ensures
            n == self.dirty_layout_seq().len(),
    {
        self.dirty_layout.len()
    }

    /// How many repaint boundaries are pending paint.
    pub fn dirty_paint_len(&self) -> (n: usize)
        ensures
            n == self.dirty_paint_seq().len(),
    {
        self.dirty_paint.len()
    }

    /// Whether `i` is registered in the layout dirty list.
    pub fn layout_dirty_pending(&self, i: usize) -> (r: bool)
        ensures
            r == self.dirty_layout_seq().contains(i),
    {
        self.dirty_layout_contains(i)
    }

    /// Whether `i` is registered in the paint dirty list.
    pub fn paint_dirty_pending(&self, i: usize) -> (r: bool)
        ensures
            r == self.dirty_paint_seq().contains(i),
    {
        self.dirty_paint_contains(i)
    }
}


impl PipelineOwner {
    /// The dirty-marking variant for a node whose sizing algorithm — and
    /// with it the answer to sized-by-parent — changes at runtime.  The
    /// cached relayout-boundary classification rests on the old answer, so
    /// it is discarded before the mark propagates: the node can no longer
    /// stop the walk itself, and the next layout pass reclassifies it.
    pub fn mark_needs_layout_for_sized_by_parent_change(&mut self, i: usize, kind: NodeKind)
        requires
            old(self).wf(),
            (i as int) < old(self).nodes_seq().len(),
        ensures
            final(self).wf(),
            ({
                let staged = old(self).nodes_seq().update(i as int, RenderNode {
                    kind,
                    relayout_boundary: false,
                    ..old(self).nodes_seq()[i as int]
                });
                &&& final(self).nodes_seq() == spec_mark(staged, i as int, true)
                &&& final(self).dirty_layout_seq() == spec_enqueue(old(
                    self).dirty_layout_seq(), spec_mark_target(staged, i as int, true) as usize)
            }),
            final(self).dirty_paint_seq() == old(self).dirty_paint_seq(),
    {
        let ghost ns0 = self.nodes@;
        self.nodes[i].kind = kind;
        self.nodes[i].relayout_boundary = false;
        proof {
            assert(self.nodes@ =~= ns0.update(i as int, RenderNode {
                kind,
                relayout_boundary: false,
                ..ns0[i as int]
            }));
            lemma_tree_wf_flag_change(ns0, self.nodes@);
            assert forall|j: int| 0 <= j < self.nodes@.len() implies node_geometry_ok(
                #[trigger] self.nodes@[j]) by {
                assert(node_geometry_ok(ns0[j]));
            }
        }
        self.mark_needs_layout(i);
    }
}


} // verus!
