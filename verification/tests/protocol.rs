use render_core::BoxConstraints;
use render_core::LeafBox;
use render_core::RenderBoxObject;
use render_core::RenderObject;
use render_core::Size;

#[test]
fn render_box_object_layout_lifecycle() {
    let leaf = LeafBox { id: 1, size: Size { width: 4, height: 4 }, opaque: true };
    let mut obj = RenderBoxObject::new(leaf);
    assert!(!obj.sized_by_paren());
    let c = BoxConstraints { min_width: 0, max_width: 10, min_height: 0, max_height: 10 };
    obj.perform_layout(&c);
    obj.mark_needs_layout();
    obj.perform_layout(&c);
    assert_eq!(obj.inner().id, 1);
}

#[test]
fn repaint_boundary_defaults_to_false() {
    assert!(!RenderBoxObject::<LeafBox>::is_repaint_boundary());
}
