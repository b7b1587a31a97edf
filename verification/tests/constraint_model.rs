use render_core::BoxConstraints;
use render_core::BoxHitTestResult;
use render_core::HitTestEntry;
use render_core::LeafBox;
use render_core::Offset;
use render_core::RenderBox;
use render_core::Size;
use render_core::SliverConstraints;

#[test]
fn constrain_clamps_each_axis() {
    let c = BoxConstraints { min_width: 10, max_width: 100, min_height: 20, max_height: 50 };
    assert_eq!(
        c.constrain(Size { width: 5, height: 60 }),
        Size { width: 10, height: 50 }
    );
    assert_eq!(
        c.constrain(Size { width: 150, height: 5 }),
        Size { width: 100, height: 20 }
    );
    assert_eq!(
        c.constrain(Size { width: 40, height: 30 }),
        Size { width: 40, height: 30 }
    );
}

#[test]
fn loose_ranges_from_zero() {
    let c = BoxConstraints::loose(Size { width: 70, height: 30 });
    assert_eq!(c.min_width, 0);
    assert_eq!(c.max_width, 70);
    assert_eq!(c.min_height, 0);
    assert_eq!(c.max_height, 30);
}

#[test]
fn sliver_projection_exact_fields() {
    let s = SliverConstraints {
        scroll_offset: 42,
        cross_axis_min: 5,
        cross_axis_max: 20,
        main_axis_extent: 7,
    };
    let b = s.as_box_constrains();
    assert_eq!(b.min_width, 5);
    assert_eq!(b.max_width, 20);
    assert_eq!(b.min_height, 0);
    assert_eq!(b.max_height, 7);
}

#[test]
fn sliver_projection_ignores_scroll_offset() {
    let a = SliverConstraints {
        scroll_offset: 0,
        cross_axis_min: 3,
        cross_axis_max: 11,
        main_axis_extent: 99,
    };
    let b = SliverConstraints { scroll_offset: 123456, ..a };
    assert_eq!(a.as_box_constrains(), b.as_box_constrains());
}

#[test]
fn size_contains_is_half_open() {
    let s = Size { width: 10, height: 10 };
    assert!(s.contains(Offset { x: 0, y: 0 }));
    assert!(s.contains(Offset { x: 9, y: 9 }));
    assert!(!s.contains(Offset { x: 10, y: 9 }));
    assert!(!s.contains(Offset { x: 9, y: 10 }));
}

#[test]
fn accumulator_keeps_order() {
    let mut r = BoxHitTestResult::new();
    assert!(r.is_empty());
    r.add(HitTestEntry { node: 7, position: Offset { x: 1, y: 2 } });
    r.add(HitTestEntry { node: 3, position: Offset { x: 4, y: 5 } });
    assert_eq!(r.len(), 2);
    assert_eq!(r.get(0), HitTestEntry { node: 7, position: Offset { x: 1, y: 2 } });
    assert_eq!(r.get(1), HitTestEntry { node: 3, position: Offset { x: 4, y: 5 } });
}

#[test]
fn opaque_leaf_absorbs_within_bounds() {
    let leaf = LeafBox { id: 9, size: Size { width: 10, height: 10 }, opaque: true };
    let mut r = BoxHitTestResult::new();
    assert!(leaf.hit_test(&mut r, Offset { x: 5, y: 5 }));
    assert_eq!(r.len(), 1);
    assert_eq!(r.get(0), HitTestEntry { node: 9, position: Offset { x: 5, y: 5 } });
}

#[test]
fn leaf_passes_through_outside_bounds_or_transparent() {
    let leaf = LeafBox { id: 9, size: Size { width: 10, height: 10 }, opaque: true };
    let mut r = BoxHitTestResult::new();
    assert!(!leaf.hit_test(&mut r, Offset { x: 10, y: 5 }));
    assert!(r.is_empty());

    let ghostly = LeafBox { id: 9, size: Size { width: 10, height: 10 }, opaque: false };
    assert!(!ghostly.hit_test(&mut r, Offset { x: 5, y: 5 }));
    assert!(r.is_empty());
}
