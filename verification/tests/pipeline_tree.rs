use render_core::BoxConstraints;
use render_core::NodeKind;
use render_core::Offset;
use render_core::PipelineOwner;
use render_core::Size;

fn box_100() -> BoxConstraints {
    BoxConstraints { min_width: 0, max_width: 100, min_height: 0, max_height: 100 }
}

/// Root with box constraints width and height in [0, 100]; one child with
/// width 50% and automatic height.  After layout the child is 50 wide and
/// the root's own size is untouched by the child.
#[test]
fn test() {
    let mut owner = PipelineOwner::new();
    let root = owner.add_root(NodeKind::Expand, false, true);
    let child = owner.add_child(
        root,
        NodeKind::PercentWidth { percent: 50 },
        Offset { x: 0, y: 0 },
        false,
        false,
    );
    owner.perform_layout(root, box_100());
    assert_eq!(owner.resolved_size(root), Some(Size { width: 100, height: 100 }));
    assert_eq!(owner.resolved_size(child), Some(Size { width: 50, height: 0 }));
}

#[test]
fn percent_width_clamps_into_range() {
    let mut owner = PipelineOwner::new();
    let root = owner.add_root(NodeKind::Expand, false, true);
    let over = owner.add_child(
        root,
        NodeKind::PercentWidth { percent: 150 },
        Offset { x: 0, y: 0 },
        false,
        false,
    );
    owner.perform_layout(root, box_100());
    assert_eq!(owner.resolved_size(over), Some(Size { width: 100, height: 0 }));
}

#[test]
fn fixed_child_clamped_by_parent_extent() {
    let mut owner = PipelineOwner::new();
    let root = owner.add_root(NodeKind::Fixed { width: 40, height: 40 }, false, true);
    let child = owner.add_child(
        root,
        NodeKind::Fixed { width: 60, height: 10 },
        Offset { x: 0, y: 0 },
        false,
        false,
    );
    owner.perform_layout(root, box_100());
    assert_eq!(owner.resolved_size(root), Some(Size { width: 40, height: 40 }));
    // the child is laid out loosely within the parent's 40x40 extent
    assert_eq!(owner.resolved_size(child), Some(Size { width: 40, height: 10 }));
}

#[test]
fn sizes_satisfy_constraints_after_layout() {
    let mut owner = PipelineOwner::new();
    let c = BoxConstraints { min_width: 30, max_width: 80, min_height: 10, max_height: 60 };
    let root = owner.add_root(NodeKind::WrapChild, false, true);
    let child = owner.add_child(
        root,
        NodeKind::Fixed { width: 200, height: 1 },
        Offset { x: 0, y: 0 },
        false,
        false,
    );
    owner.perform_layout(root, c);
    let rs = owner.resolved_size(root).unwrap();
    assert!(c.min_width <= rs.width && rs.width <= c.max_width);
    assert!(c.min_height <= rs.height && rs.height <= c.max_height);
    // the wrapping root takes its child's size, clamped into its range
    let cs = owner.resolved_size(child).unwrap();
    assert_eq!(cs, Size { width: 80, height: 1 });
    assert_eq!(rs, Size { width: 80, height: 10 });
}

/// A node whose size is a pure function of the constraints resolves the
/// same size with and without children.
#[test]
fn sized_by_parent_ignores_children() {
    let c = box_100();
    let mut lone = PipelineOwner::new();
    let a = lone.add_root(NodeKind::Fixed { width: 30, height: 40 }, false, true);
    lone.perform_layout(a, c);

    let mut crowded = PipelineOwner::new();
    let b = crowded.add_root(NodeKind::Fixed { width: 30, height: 40 }, false, true);
    crowded.add_child(b, NodeKind::Expand, Offset { x: 0, y: 0 }, false, false);
    crowded.add_child(b, NodeKind::Fixed { width: 1, height: 1 }, Offset { x: 0, y: 0 }, false, false);
    crowded.perform_layout(b, c);

    assert_eq!(lone.resolved_size(a), crowded.resolved_size(b));
    assert_eq!(lone.resolved_size(a), Some(Size { width: 30, height: 40 }));
}

fn wrap_chain() -> (PipelineOwner, usize, usize, usize, usize) {
    let mut owner = PipelineOwner::new();
    let root = owner.add_root(NodeKind::Expand, false, true);
    let c1 = owner.add_child(root, NodeKind::WrapChild, Offset { x: 0, y: 0 }, false, false);
    let c2 = owner.add_child(c1, NodeKind::WrapChild, Offset { x: 0, y: 0 }, false, false);
    let c3 = owner.add_child(c2, NodeKind::WrapChild, Offset { x: 0, y: 0 }, false, false);
    owner.perform_layout(root, box_100());
    (owner, root, c1, c2, c3)
}

/// Marking a non-boundary descendant dirty flags every node up to the
/// nearest relayout boundary and enqueues exactly that boundary.
#[test]
fn mark_propagates_to_nearest_boundary() {
    let (mut owner, root, c1, c2, c3) = wrap_chain();
    // after layout: root and c1 are relayout boundaries, c2 and c3 are not
    assert!(owner.node_is_relayout_boundary(root));
    assert!(owner.node_is_relayout_boundary(c1));
    assert!(!owner.node_is_relayout_boundary(c2));
    assert!(!owner.node_is_relayout_boundary(c3));

    owner.mark_needs_layout(c3);
    assert!(owner.node_needs_layout(c3));
    assert!(owner.node_needs_layout(c2));
    assert!(owner.node_needs_layout(c1));
    assert!(!owner.node_needs_layout(root));
    assert!(owner.layout_dirty_pending(c1));
    assert!(!owner.layout_dirty_pending(c2));
    assert!(!owner.layout_dirty_pending(c3));
    assert!(!owner.layout_dirty_pending(root));
    assert_eq!(owner.dirty_layout_len(), 1);
}

/// Marking the same node again before the flush changes nothing.
#[test]
fn mark_needs_layout_idempotent() {
    let (mut owner, root, c1, c2, c3) = wrap_chain();
    owner.mark_needs_layout(c3);
    owner.mark_needs_layout(c3);
    owner.mark_needs_layout(c3);
    assert_eq!(owner.dirty_layout_len(), 1);
    assert!(owner.layout_dirty_pending(c1));
    assert!(owner.node_needs_layout(c3));
    assert!(owner.node_needs_layout(c2));
    assert!(owner.node_needs_layout(c1));
    assert!(!owner.node_needs_layout(root));

    owner.flush_layout();
    assert_eq!(owner.dirty_layout_len(), 0);
    assert!(!owner.node_needs_layout(c1));
    assert!(!owner.node_needs_layout(c2));
    assert!(!owner.node_needs_layout(c3));
}

/// Removing a node that is still registered in the dirty set must neither
/// fail nor lay the removed subtree out when the owner flushes.
#[test]
fn remove_pending_node_then_flush() {
    let (mut owner, _root, c1, c2, c3) = wrap_chain();
    owner.mark_needs_layout(c3);
    assert!(owner.layout_dirty_pending(c1));

    owner.remove(c1);
    assert!(!owner.node_alive(c1));
    assert!(!owner.node_alive(c2));
    assert!(!owner.node_alive(c3));

    owner.flush_layout();
    assert_eq!(owner.dirty_layout_len(), 0);
    // the removed nodes were skipped: their dirty flags were never cleared
    assert!(owner.node_needs_layout(c1));
    assert!(owner.node_needs_layout(c2));
}

/// Paint marking mirrors layout marking, scoped by repaint boundaries.
#[test]
fn mark_needs_paint_registers_boundary() {
    let mut owner = PipelineOwner::new();
    let root = owner.add_root(NodeKind::Expand, false, true);
    let mid = owner.add_child(root, NodeKind::Expand, Offset { x: 0, y: 0 }, false, true);
    let leaf = owner.add_child(mid, NodeKind::Expand, Offset { x: 0, y: 0 }, false, false);
    owner.perform_layout(root, box_100());

    owner.mark_needs_paint(leaf);
    owner.mark_needs_paint(leaf);
    assert!(owner.paint_dirty_pending(mid));
    assert!(!owner.paint_dirty_pending(leaf));
    assert!(!owner.paint_dirty_pending(root));
    assert_eq!(owner.dirty_paint_len(), 1);

    owner.flush_paint();
    assert_eq!(owner.dirty_paint_len(), 0);
    assert!(!owner.node_needs_paint(mid));
}

/// Overlapping siblings: the child painted last is on top, gets first
/// refusal, and once it absorbs the hit the earlier-painted sibling is
/// never recorded.
#[test]
fn hit_test_prefers_topmost_child() {
    let mut owner = PipelineOwner::new();
    let root = owner.add_root(NodeKind::Expand, false, true);
    let a = owner.add_child(root, NodeKind::Fixed { width: 60, height: 60 }, Offset { x: 0, y: 0 }, true, false);
    let b = owner.add_child(root, NodeKind::Fixed { width: 60, height: 60 }, Offset { x: 20, y: 20 }, true, false);
    owner.perform_layout(root, box_100());

    let (absorbed, entries) = owner.hit_test(root, Offset { x: 30, y: 30 });
    assert!(absorbed);
    assert_eq!(entries.len(), 2);
    // innermost first: B's entry, in B's local coordinates, then the root's
    assert_eq!(entries.get(0).node, b);
    assert_eq!(entries.get(0).position, Offset { x: 10, y: 10 });
    assert_eq!(entries.get(1).node, root);
    assert_eq!(entries.get(1).position, Offset { x: 30, y: 30 });
    assert!(entries.get(0).node != a && entries.get(1).node != a);
}

/// When the topmost child lets the hit pass through, the sibling painted
/// below gets its turn.
#[test]
fn hit_test_falls_through_transparent_top() {
    let mut owner = PipelineOwner::new();
    let root = owner.add_root(NodeKind::Expand, false, true);
    let a = owner.add_child(root, NodeKind::Fixed { width: 60, height: 60 }, Offset { x: 0, y: 0 }, true, false);
    let _b = owner.add_child(root, NodeKind::Fixed { width: 60, height: 60 }, Offset { x: 20, y: 20 }, false, false);
    owner.perform_layout(root, box_100());

    let (absorbed, entries) = owner.hit_test(root, Offset { x: 30, y: 30 });
    assert!(absorbed);
    assert_eq!(entries.len(), 2);
    assert_eq!(entries.get(0).node, a);
    assert_eq!(entries.get(0).position, Offset { x: 30, y: 30 });
    assert_eq!(entries.get(1).node, root);
}

/// A hit outside the root's bounds is absorbed by nobody.
#[test]
fn hit_test_outside_bounds_misses() {
    let mut owner = PipelineOwner::new();
    let root = owner.add_root(NodeKind::Fixed { width: 10, height: 10 }, true, true);
    owner.perform_layout(root, box_100());
    let (absorbed, entries) = owner.hit_test(root, Offset { x: 10, y: 0 });
    assert!(!absorbed);
    assert_eq!(entries.len(), 0);
}

/// Re-laying out after a dirty mark recomputes exactly the dirty boundary's
/// subtree with the cached constraints.
#[test]
fn flush_layout_recomputes_dirty_subtree() {
    let (mut owner, _root, c1, c2, c3) = wrap_chain();
    assert_eq!(owner.resolved_size(c3), Some(Size { width: 0, height: 0 }));
    owner.mark_needs_layout(c3);
    owner.flush_layout();
    assert!(!owner.node_needs_layout(c1));
    assert!(!owner.node_needs_layout(c2));
    assert!(!owner.node_needs_layout(c3));
    assert_eq!(owner.resolved_size(c3), Some(Size { width: 0, height: 0 }));
    assert_eq!(owner.dirty_layout_len(), 0);
}

/// Changing a node's sizing kind at runtime discards the stale boundary
/// classification, so the mark propagates past the node to its parent's
/// boundary.
#[test]
fn sized_by_parent_change_reclassifies() {
    let mut owner = PipelineOwner::new();
    let root = owner.add_root(NodeKind::Expand, false, true);
    let mid = owner.add_child(root, NodeKind::Fixed { width: 10, height: 10 }, Offset { x: 0, y: 0 }, false, false);
    owner.perform_layout(root, box_100());
    // a fixed-size child is its own relayout boundary
    assert!(owner.node_is_relayout_boundary(mid));

    owner.mark_needs_layout_for_sized_by_parent_change(mid, NodeKind::WrapChild);
    // the stale classification is gone and the mark reached the root
    assert!(!owner.node_is_relayout_boundary(mid));
    assert!(owner.node_needs_layout(mid));
    assert!(owner.node_needs_layout(root));
    assert!(owner.layout_dirty_pending(root));

    owner.flush_layout();
    assert!(!owner.node_needs_layout(mid));
    // the next pass reclassified the node under its new kind
    assert_eq!(owner.resolved_size(mid), Some(Size { width: 0, height: 0 }));
}

/// Terminal case of dirty marking: a detached root with no boundary
/// ancestor is itself marked and registered.
#[test]
fn mark_detached_root_registers_root() {
    let mut owner = PipelineOwner::new();
    let root = owner.add_root(NodeKind::WrapChild, false, false);
    owner.mark_needs_layout(root);
    assert!(owner.node_needs_layout(root));
    assert!(owner.layout_dirty_pending(root));
    assert_eq!(owner.dirty_layout_len(), 1);
    // never laid out, so the flush has no constraints to re-use and skips it
    owner.flush_layout();
    assert_eq!(owner.dirty_layout_len(), 0);
    assert!(owner.resolved_size(root).is_none());
}

/// The caller-side contract of hit testing: positions are translated into
/// each child's local space on the way down, and every recorded entry
/// carries the position in its own node's space.
#[test]
fn hit_test_translates_through_nested_offsets() {
    let mut owner = PipelineOwner::new();
    let root = owner.add_root(NodeKind::Expand, false, true);
    let mid = owner.add_child(root, NodeKind::Fixed { width: 80, height: 80 }, Offset { x: 10, y: 5 }, false, false);
    let leaf = owner.add_child(mid, NodeKind::Fixed { width: 20, height: 20 }, Offset { x: 30, y: 40 }, true, false);
    owner.perform_layout(root, box_100());

    let (absorbed, entries) = owner.hit_test(root, Offset { x: 45, y: 50 });
    assert!(absorbed);
    assert_eq!(entries.len(), 3);
    assert_eq!(entries.get(0).node, leaf);
    assert_eq!(entries.get(0).position, Offset { x: 5, y: 5 });
    assert_eq!(entries.get(1).node, mid);
    assert_eq!(entries.get(1).position, Offset { x: 35, y: 45 });
    assert_eq!(entries.get(2).node, root);
    assert_eq!(entries.get(2).position, Offset { x: 45, y: 50 });
}
