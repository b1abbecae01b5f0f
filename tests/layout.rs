use tuine::canvas::Canvas;
use tuine::component::TmpComponent;
use tuine::context::{DrawContext, StateContext, BuildContext};
use tuine::geometry::{clamp_u16, Bounds, Rect, Size};
use tuine::layout::{LayoutNode, Placement};
use tuine::state::StateStore;
use tuine::widget::{Column, FlexColumn, MemSimple, SizedBox};

fn lay<C: TmpComponent<(), ()>>(c: &C, b: Bounds) -> (Size, LayoutNode) {
    let mut node = LayoutNode::new();
    let s = TmpComponent::<(), ()>::layout(c, b, &mut node);
    (s, node)
}

#[test]
fn clamp_keeps_values_in_range() {
    assert_eq!(clamp_u16(5, 1, 9), 5);
    assert_eq!(clamp_u16(0, 1, 9), 1);
    assert_eq!(clamp_u16(12, 1, 9), 9);
    assert_eq!(clamp_u16(4, 7, 3), 7);
}

#[test]
fn constrain_forces_size_into_bounds() {
    let b = Bounds::new(2, 10, 3, 6);
    assert_eq!(b.constrain(Size::new(1, 8)), Size::new(2, 6));
    assert_eq!(b.constrain(Size::new(4, 4)), Size::new(4, 4));
    assert!(b.is_satisfied_by(Size::new(10, 3)));
    assert!(!b.is_satisfied_by(Size::new(11, 3)));
}

#[test]
fn constrain_on_malformed_bounds_keeps_minimum() {
    let b = Bounds::new(9, 4, 0, 0);
    assert_eq!(b.constrain(Size::new(7, 7)), Size::new(9, 0));
}

#[test]
fn tight_and_loose_bounds() {
    assert_eq!(Bounds::tight(Size::new(3, 4)), Bounds::new(3, 3, 4, 4));
    assert_eq!(Bounds::loose(Size::new(3, 4)), Bounds::new(0, 3, 0, 4));
}

#[test]
fn sub_region_is_clipped_to_parent() {
    let r = Rect::new(10, 5, 20, 4);
    assert_eq!(r.sub_region(2, 1, Size::new(5, 2)), Rect::new(12, 6, 5, 2));
    assert_eq!(r.sub_region(18, 3, Size::new(5, 2)), Rect::new(28, 8, 2, 1));
    assert!(r.sub_region(20, 0, Size::new(5, 2)).is_empty());
}

#[test]
fn fixed_leaf_gets_its_intrinsic_size() {
    let leaf = SizedBox::new(10, 2);
    let (s, node) = lay(&leaf, Bounds::new(0, 80, 0, 24));
    assert_eq!(s, Size::new(10, 2));
    assert_eq!(node.size, Size::new(0, 0));
    assert!(node.placements.is_empty());
    assert!(node.children.is_empty());
}

#[test]
fn layout_result_lies_within_bounds() {
    let leaf = SizedBox::new(100, 0);
    let b = Bounds::new(5, 40, 3, 9);
    let (s, _) = lay(&leaf, b);
    assert!(b.is_satisfied_by(s));
    assert_eq!(s, Size::new(40, 3));
}

#[test]
fn mem_simple_takes_full_width_and_two_rows() {
    let m = MemSimple::new();
    assert_eq!(lay(&m, Bounds::new(0, 80, 0, 24)).0, Size::new(80, 2));
    assert_eq!(lay(&m, Bounds::new(0, 80, 0, 1)).0, Size::new(80, 1));
    assert_eq!(lay(&m, Bounds::new(0, 80, 5, 24)).0, Size::new(80, 5));
}

#[test]
fn mem_simple_on_malformed_bounds_keeps_minimum_height() {
    let m = MemSimple::new();
    assert_eq!(lay(&m, Bounds::new(0, 80, 5, 3)).0, Size::new(80, 5));
}

#[test]
fn leaf_layout_leaves_node_alone() {
    let m = MemSimple::new();
    let mut node = LayoutNode::new();
    node.size = Size::new(3, 4);
    let _ = TmpComponent::<(), ()>::layout(&m, Bounds::new(0, 80, 0, 24), &mut node);
    assert_eq!(node.size, Size::new(3, 4));
    assert!(node.placements.is_empty());
}

#[test]
fn mem_simple_on_zero_size_bounds() {
    let m = MemSimple::new();
    assert_eq!(lay(&m, Bounds::new(0, 0, 0, 0)).0, Size::new(0, 0));
}

#[test]
fn parent_clamps_child_height() {
    let col = Column::new(vec![SizedBox::new(5, 2)]);
    let (s, node) = lay(&col, Bounds::new(0, 80, 0, 1));
    assert_eq!(s, Size::new(5, 1));
    assert_eq!(node.placements[0], Placement { x: 0, y: 0, size: Size::new(5, 1) });
    assert_eq!(node.children[0].size, Size::new(5, 1));
}

#[test]
fn column_stacks_children_top_to_bottom() {
    let col = Column::new(vec![SizedBox::new(4, 2), SizedBox::new(7, 3), SizedBox::new(1, 9)]);
    let (s, node) = lay(&col, Bounds::new(0, 10, 0, 10));
    assert_eq!(s, Size::new(7, 10));
    assert_eq!(node.placements.len(), 3);
    assert_eq!(node.children.len(), 3);
    assert_eq!(node.placements[0], Placement { x: 0, y: 0, size: Size::new(4, 2) });
    assert_eq!(node.placements[1], Placement { x: 0, y: 2, size: Size::new(7, 3) });
    assert_eq!(node.placements[2], Placement { x: 0, y: 5, size: Size::new(1, 5) });
    assert_eq!(node.children[1].size, Size::new(7, 3));
}

#[test]
fn column_meets_minimum_of_its_bounds() {
    let col = Column::new(vec![SizedBox::new(2, 1)]);
    let (s, _) = lay(&col, Bounds::new(6, 10, 4, 10));
    assert_eq!(s, Size::new(6, 4));
}

#[test]
fn layout_twice_gives_identical_results() {
    let col = Column::new(vec![SizedBox::new(4, 2), SizedBox::new(7, 3)]);
    let b = Bounds::new(0, 6, 0, 4);
    let (s1, n1) = lay(&col, b);
    let (s2, n2) = lay(&col, b);
    assert_eq!(s1, s2);
    assert_eq!(n1.placements, n2.placements);
}

#[test]
fn mem_simple_paints_its_label_into_region() {
    let mut m = MemSimple::new();
    let node = LayoutNode::new();
    let ctx = DrawContext { region: Rect::new(1, 2, 30, 2), node: &node };
    let mut canvas = Canvas::new();
    let mut sc: StateContext<()> = BuildContext::begin(StateStore::new()).finish();
    TmpComponent::<(), ()>::draw(&mut m, &mut sc, &ctx, &mut canvas);
    let paints = canvas.into_paints();
    assert_eq!(paints.len(), 1);
    assert_eq!(paints[0].region, Rect::new(1, 2, 30, 2));
    assert_eq!(paints[0].text, "Mem Simple");
}

#[test]
fn zero_area_draw_paints_nothing() {
    let mut m = MemSimple::new();
    let node = LayoutNode::new();
    let ctx = DrawContext { region: Rect::new(1, 2, 0, 5), node: &node };
    let mut canvas = Canvas::new();
    let mut sc: StateContext<()> = BuildContext::begin(StateStore::new()).finish();
    TmpComponent::<(), ()>::draw(&mut m, &mut sc, &ctx, &mut canvas);
    assert!(canvas.paints().is_empty());
}

#[test]
fn column_draws_children_in_their_regions() {
    let mut col = Column::new(vec![MemSimple::new(), MemSimple::new()]);
    let (_, node) = lay(&col, Bounds::new(0, 20, 0, 3));
    let ctx = DrawContext { region: Rect::new(0, 10, 20, 3), node: &node };
    let mut canvas = Canvas::new();
    let mut sc: StateContext<()> = BuildContext::begin(StateStore::new()).finish();
    TmpComponent::<(), ()>::draw(&mut col, &mut sc, &ctx, &mut canvas);
    let paints = canvas.into_paints();
    assert_eq!(paints.len(), 2);
    assert_eq!(paints[0].region, Rect::new(0, 10, 20, 2));
    assert_eq!(paints[1].region, Rect::new(0, 12, 20, 1));
}

#[test]
fn paint_skips_empty_region() {
    let mut canvas = Canvas::new();
    assert!(!canvas.paint(Rect::new(0, 0, 0, 0), String::from("x")));
    assert!(canvas.paint(Rect::new(0, 0, 1, 1), String::from("x")));
    assert_eq!(canvas.paints().len(), 1);
}

fn heights(node: &LayoutNode) -> Vec<(u16, u16)> {
    node.placements.iter().map(|p| (p.y, p.size.height)).collect()
}

#[test]
fn flex_column_gives_fixed_children_their_rows_first() {
    let col = FlexColumn::new(vec![SizedBox::new(3, 2), SizedBox::new(3, 9), SizedBox::new(3, 9)], vec![0, 1, 1]);
    let (s, node) = lay(&col, Bounds::new(0, 10, 0, 6));
    assert_eq!(s, Size::new(3, 6));
    assert_eq!(heights(&node), vec![(0, 2), (2, 2), (4, 2)]);
}

#[test]
fn flex_column_serves_minimums_in_order_when_over_constrained() {
    let col = FlexColumn::new(vec![SizedBox::new(1, 4), SizedBox::new(1, 4)], vec![]);
    let (s, node) = lay(&col, Bounds::new(0, 10, 0, 5));
    assert_eq!(s, Size::new(1, 5));
    assert_eq!(heights(&node), vec![(0, 4), (4, 1)]);
}

#[test]
fn flex_column_splits_by_weight() {
    let col = FlexColumn::new(vec![SizedBox::new(2, 20), SizedBox::new(2, 20)], vec![1, 3]);
    let (s, node) = lay(&col, Bounds::new(0, 10, 0, 8));
    assert_eq!(s, Size::new(2, 8));
    assert_eq!(heights(&node), vec![(0, 2), (2, 6)]);
}
