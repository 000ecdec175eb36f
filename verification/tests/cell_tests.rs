use gds_layout::cell::{
    BoundingBox, Cell, LayerInfo, Layout, Point, Shape, SrefInstance, ArefInstance, Offset, REAL8_ONE,
    REAL8_ZERO,
};

fn pts(v: &[(i32, i32)]) -> Vec<Point> {
    v.iter().map(|&(x, y)| Point { x, y }).collect()
}

fn sref(name: &str) -> SrefInstance {
    SrefInstance {
        cell_name: name.to_string(),
        position: Point { x: 0, y: 0 },
        rotation_deg: REAL8_ZERO,
        magnification: REAL8_ONE,
        mirror_x: false,
    }
}

#[test]
fn polygon_bounding_box_is_correct() {
    let shape = Shape::Polygon { layer: 1, datatype: 0, points: pts(&[(0, 0), (10, 0), (10, 5), (0, 5), (0, 0)]) };
    let bb = shape.bounding_box();
    assert_eq!(bb.x1, 0);
    assert_eq!(bb.y1, 0);
    assert_eq!(bb.x2, 10);
    assert_eq!(bb.y2, 5);
}

#[test]
fn text_bounding_box_is_point_at_origin() {
    let shape = Shape::Text {
        layer: 0,
        texttype: 0,
        position: Point { x: 3, y: 7 },
        string: "hello".to_string(),
        rotation_deg: REAL8_ZERO,
        magnification: REAL8_ONE,
        mirror_x: false,
    };
    let bb = shape.bounding_box();
    assert_eq!(bb.x1, 3);
    assert_eq!(bb.y1, 7);
    assert_eq!(bb.x2, 3);
    assert_eq!(bb.y2, 7);
}

#[test]
fn shape_layer_returns_correct_id() {
    let poly = Shape::Polygon { layer: 5, datatype: 0, points: pts(&[(0, 0), (1, 0), (1, 1), (0, 1), (0, 0)]) };
    let path = Shape::Path { layer: 3, datatype: 0, points: pts(&[(0, 0), (1, 1)]), width: 0, path_type: 0 };
    let text = Shape::Text {
        layer: 9,
        texttype: 0,
        position: Point { x: 0, y: 0 },
        string: "x".into(),
        rotation_deg: REAL8_ZERO,
        magnification: REAL8_ONE,
        mirror_x: false,
    };
    assert_eq!(poly.layer(), 5);
    assert_eq!(path.layer(), 3);
    assert_eq!(text.layer(), 9);
}

#[test]
fn bounding_box_overlap_detects_intersection() {
    let a = BoundingBox { x1: 0, y1: 0, x2: 10, y2: 10 };
    let b = BoundingBox { x1: 5, y1: 5, x2: 15, y2: 15 };
    let c = BoundingBox { x1: 20, y1: 20, x2: 30, y2: 30 };
    assert!(a.overlaps(&b));
    assert!(!a.overlaps(&c));
}

#[test]
fn bounding_box_touching_edges_count_as_overlap() {
    let a = BoundingBox { x1: 0, y1: 0, x2: 10, y2: 10 };
    let b = BoundingBox { x1: 10, y1: 0, x2: 20, y2: 10 };
    assert!(a.overlaps(&b));
}

#[test]
fn bounding_box_union_encompasses_both() {
    let a = BoundingBox { x1: 0, y1: 0, x2: 5, y2: 5 };
    let b = BoundingBox { x1: 3, y1: 3, x2: 10, y2: 10 };
    let u = a.union(&b);
    assert_eq!(u, BoundingBox { x1: 0, y1: 0, x2: 10, y2: 10 });
    assert_eq!(b.union(&a), u);
}

#[test]
fn bounding_box_sizes() {
    let a = BoundingBox { x1: -3, y1: 2, x2: 5, y2: 9 };
    assert_eq!(a.width(), 8);
    assert_eq!(a.height(), 7);
    let wide = BoundingBox { x1: i32::MIN, y1: 0, x2: i32::MAX, y2: 0 };
    assert_eq!(wide.width(), u32::MAX as i64);
}

#[test]
fn bounding_box_of_scattered_points() {
    let b = BoundingBox::from_points(&pts(&[(4, -2), (-7, 3), (1, 9)]));
    assert_eq!(b, BoundingBox { x1: -7, y1: -2, x2: 4, y2: 9 });
}

#[test]
fn new_cell_is_empty() {
    let c = Cell::new("UNIT");
    assert!(c.is_empty());
    assert_eq!(c.name, "UNIT");
}

#[test]
fn cell_direct_dependencies_deduplicates() {
    let mut cell = Cell::new("TOP");
    cell.srefs.push(sref("BLOCK"));
    cell.srefs.push(sref("BLOCK"));
    let deps = cell.direct_dependencies();
    assert_eq!(deps.len(), 1);
    assert_eq!(deps[0], "BLOCK");
}

#[test]
fn direct_dependencies_are_sorted_over_single_and_array_placements() {
    let mut cell = Cell::new("TOP");
    cell.srefs.push(sref("b"));
    cell.srefs.push(sref("B"));
    cell.srefs.push(sref("AB"));
    cell.arefs.push(ArefInstance {
        cell_name: "A".to_string(),
        origin: Point { x: 0, y: 0 },
        rotation_deg: REAL8_ZERO,
        magnification: REAL8_ONE,
        mirror_x: false,
        cols: 2,
        rows: 2,
        col_vector: Offset { dx: 10, dy: 0 },
        row_vector: Offset { dx: 0, dy: 10 },
    });
    cell.arefs.push(ArefInstance {
        cell_name: "b".to_string(),
        origin: Point { x: 0, y: 0 },
        rotation_deg: REAL8_ZERO,
        magnification: REAL8_ONE,
        mirror_x: false,
        cols: 1,
        rows: 1,
        col_vector: Offset { dx: 0, dy: 0 },
        row_vector: Offset { dx: 0, dy: 0 },
    });
    assert_eq!(cell.direct_dependencies(), vec!["A", "AB", "B", "b"]);
}

#[test]
fn layer_info_default_name_matches_id() {
    let layer = LayerInfo::new(7);
    assert_eq!(layer.name, "Layer 7");
    assert!(layer.visible);
    assert!(layer.color.starts_with('#'));
    assert_eq!(layer.color.len(), 7);
}

#[test]
fn layer_colors_differ_across_ids() {
    assert_ne!(LayerInfo::new(0).color, LayerInfo::new(1).color);
}

#[test]
fn layer_colors_repeat_every_twelve_ids() {
    assert_eq!(LayerInfo::new(0).color, "#3a86ff");
    assert_eq!(LayerInfo::new(12).color, "#3a86ff");
    assert_eq!(LayerInfo::new(11).color, "#f72585");
    assert_eq!(LayerInfo::new(65535).name, "Layer 65535");
    assert_eq!(LayerInfo::new(0).name, "Layer 0");
}

#[test]
fn find_top_cell_identifies_unreferenced_root() {
    let mut layout = Layout::new("TEST_LIB");
    layout.insert_cell(Cell::new("UNIT"));
    let mut block = Cell::new("BLOCK");
    block.srefs.push(sref("UNIT"));
    layout.insert_cell(block);
    let mut top = Cell::new("TOP");
    top.srefs.push(sref("BLOCK"));
    layout.insert_cell(top);
    assert_eq!(layout.find_top_cell().as_deref(), Some("TOP"));
    assert_eq!(layout.top_cell().as_deref(), Some("TOP"));
}

#[test]
fn find_top_cell_is_none_when_every_cell_is_placed() {
    let mut layout = Layout::new("LOOP");
    let mut a = Cell::new("A");
    a.srefs.push(sref("B"));
    let mut b = Cell::new("B");
    b.srefs.push(sref("A"));
    layout.insert_cell(a);
    layout.insert_cell(b);
    assert_eq!(layout.find_top_cell(), None);
    assert!(layout.top_cell().is_none());
}

#[test]
fn flat_shape_count_sums_across_cells() {
    let mut layout = Layout::new("TEST_LIB");
    let mut cell_a = Cell::new("A");
    cell_a.shapes.push(Shape::Polygon { layer: 1, datatype: 0, points: pts(&[(0, 0), (1, 0), (1, 1), (0, 1), (0, 0)]) });
    cell_a.shapes.push(Shape::Polygon { layer: 1, datatype: 0, points: pts(&[(2, 2), (3, 2), (3, 3), (2, 3), (2, 2)]) });
    let mut cell_b = Cell::new("B");
    cell_b.shapes.push(Shape::Path { layer: 2, datatype: 0, points: pts(&[(0, 0), (5, 5)]), width: 1, path_type: 0 });
    layout.insert_cell(cell_a);
    layout.insert_cell(cell_b);
    assert_eq!(layout.flat_shape_count(), 3);
}

#[test]
fn register_layer_auto_creates_info() {
    let mut layout = Layout::new("TEST_LIB");
    layout.register_layer(42);
    assert!(layout.layer(42).is_some());
    assert_eq!(layout.layer(42).unwrap().id, 42);
}

#[test]
fn layers_stay_ordered_by_id_and_registering_twice_adds_nothing() {
    let mut layout = Layout::new("L");
    layout.register_layer(5);
    layout.register_layer(1);
    layout.register_layer(9);
    layout.register_layer(5);
    let ids: Vec<u16> = layout.layers().iter().map(|l| l.id).collect();
    assert_eq!(ids, vec![1, 5, 9]);
}

#[test]
fn insert_cell_replaces_the_cell_of_the_same_name() {
    let mut layout = Layout::new("L");
    let mut first = Cell::new("X");
    first.srefs.push(sref("Y"));
    layout.insert_cell(first);
    layout.insert_cell(Cell::new("X"));
    assert_eq!(layout.cells().len(), 1);
    assert!(layout.cell("X").unwrap().is_empty());
    assert!(layout.cell("Y").is_none());
}

#[test]
fn layout_is_clone_and_debug() {
    let layout = Layout::new("CLONE_TEST");
    let cloned = layout.clone();
    assert_eq!(cloned.lib_name(), "CLONE_TEST");
    let _ = format!("{:?}", cloned);
}

#[test]
fn overlap_does_not_depend_on_order() {
    let a = BoundingBox { x1: 0, y1: 0, x2: 10, y2: 10 };
    let b = BoundingBox { x1: 10, y1: 10, x2: 20, y2: 20 };
    let c = BoundingBox { x1: 11, y1: 0, x2: 20, y2: 10 };
    assert_eq!(a.overlaps(&b), b.overlaps(&a));
    assert_eq!(a.overlaps(&c), c.overlaps(&a));
    assert!(a.overlaps(&a));
    assert!(!c.overlaps(&a));
}
