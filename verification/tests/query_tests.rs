use gds_layout::bundle::{cells_to_define, KnownCell};
use gds_layout::cell::{Cell, Layout, Point, SrefInstance, REAL8_ONE, REAL8_ZERO};
use gds_layout::query::{
    is_layer_shown, visible_shape_ids, CellDefinitionDto, CellDefinitionEntry, InstanceDto, LodLevel,
    PointBits, ShapeDto, ViewportResponse,
};

fn sref(name: &str) -> SrefInstance {
    SrefInstance {
        cell_name: name.to_string(),
        position: Point { x: 0, y: 0 },
        rotation_deg: REAL8_ZERO,
        magnification: REAL8_ONE,
        mirror_x: false,
    }
}

#[test]
fn layer_filter_excludes_hidden_layers() {
    assert_eq!(visible_shape_ids(&[1, 2], &[1]), vec![0]);
}

#[test]
fn empty_visible_layers_returns_all() {
    assert_eq!(visible_shape_ids(&[1, 2, 7], &[]), vec![0, 1, 2]);
}

#[test]
fn outline_layer_is_always_shown() {
    assert!(is_layer_shown(&[3], 999));
    assert!(!is_layer_shown(&[3], 4));
    assert_eq!(visible_shape_ids(&[999, 4, 3], &[3]), vec![0, 2]);
}

#[test]
fn shape_dto_ids_are_unique() {
    let ids = visible_shape_ids(&[1, 2, 1, 5, 2], &[1, 2]);
    let mut sorted = ids.clone();
    sorted.sort();
    sorted.dedup();
    assert_eq!(sorted.len(), ids.len());
    assert_eq!(ids, vec![0, 1, 2, 4]);
}

#[test]
fn lod_levels_are_ordered() {
    assert!(LodLevel::Cell.is_below(LodLevel::Block));
    assert!(LodLevel::Block.is_below(LodLevel::Shape));
    assert!(!LodLevel::Shape.is_below(LodLevel::Shape));
    assert_eq!(LodLevel::Shape.code(), 2);
}

#[test]
fn binary_encoding_of_an_answer() {
    let response = ViewportResponse {
        shapes: vec![
            ShapeDto::Polygon {
                id: 0,
                layer: 1,
                datatype: 2,
                points: vec![PointBits { x: 0x0102_0304_0506_0708, y: 0 }],
            },
            ShapeDto::Text {
                id: 1,
                layer: 3,
                texttype: 0,
                position: PointBits { x: 0, y: 0 },
                string: "t".to_string(),
                rotation_deg: 0,
                magnification: 0,
                mirror_x: false,
            },
            ShapeDto::Path { id: 2, layer: 0x0100, datatype: 0, points: vec![], width: 1, path_type: 5 },
        ],
        instances: vec![InstanceDto {
            cell_name: "AB".to_string(),
            transform: [1, 0, 0, 0, 0, 0],
            cols: 2,
            rows: 3,
            col_vector: PointBits { x: 0, y: 0 },
            row_vector: PointBits { x: 0, y: 0 },
        }],
        cell_definitions: vec![CellDefinitionEntry {
            name: "C".to_string(),
            definition: CellDefinitionDto { bbox: [0, 0, 0, 0], shapes: vec![], instances: vec![] },
        }],
        lod_level: LodLevel::Block,
    };
    let bytes = response.to_binary();
    let mut expected: Vec<u8> = vec![1];
    expected.extend_from_slice(&2u32.to_le_bytes());
    expected.extend_from_slice(&[0, 1, 0, 2, 0]);
    expected.extend_from_slice(&1u32.to_le_bytes());
    expected.extend_from_slice(&0x0102_0304_0506_0708u64.to_le_bytes());
    expected.extend_from_slice(&0u64.to_le_bytes());
    expected.extend_from_slice(&[1, 0, 1, 0, 0]);
    expected.extend_from_slice(&1u64.to_le_bytes());
    expected.push(5);
    expected.extend_from_slice(&0u32.to_le_bytes());
    expected.extend_from_slice(&1u32.to_le_bytes());
    expected.extend_from_slice(&2u32.to_le_bytes());
    expected.extend_from_slice(b"AB");
    expected.extend_from_slice(&1u64.to_le_bytes());
    for _ in 0..5 {
        expected.extend_from_slice(&0u64.to_le_bytes());
    }
    expected.extend_from_slice(&2u16.to_le_bytes());
    expected.extend_from_slice(&3u16.to_le_bytes());
    for _ in 0..4 {
        expected.extend_from_slice(&0u64.to_le_bytes());
    }
    expected.extend_from_slice(&1u32.to_le_bytes());
    expected.extend_from_slice(&1u32.to_le_bytes());
    expected.extend_from_slice(b"C");
    for _ in 0..4 {
        expected.extend_from_slice(&0u64.to_le_bytes());
    }
    expected.extend_from_slice(&0u32.to_le_bytes());
    expected.extend_from_slice(&0u32.to_le_bytes());
    assert_eq!(bytes, expected);
}

fn hierarchy() -> Layout {
    let mut layout = Layout::new("H");
    layout.insert_cell(Cell::new("LEAF"));
    let mut mid = Cell::new("MID");
    mid.srefs.push(sref("LEAF"));
    layout.insert_cell(mid);
    let mut top = Cell::new("TOP");
    top.srefs.push(sref("MID"));
    top.srefs.push(sref("GHOST"));
    layout.insert_cell(top);
    layout
}

#[test]
fn definitions_follow_placements_the_client_lacks() {
    let layout = hierarchy();
    let mut names = cells_to_define(&layout, &vec!["MID".to_string()], &vec![], LodLevel::Shape);
    names.sort();
    assert_eq!(names, vec!["LEAF".to_string(), "MID".to_string()]);
}

#[test]
fn definitions_stop_at_cells_the_client_has() {
    let layout = hierarchy();
    let known = vec![KnownCell { name: "MID".to_string(), lod: LodLevel::Shape }];
    let names = cells_to_define(&layout, &vec!["TOP".to_string()], &known, LodLevel::Shape);
    assert_eq!(names, vec!["TOP".to_string()]);
    let known = vec![KnownCell { name: "MID".to_string(), lod: LodLevel::Block }];
    let mut names = cells_to_define(&layout, &vec!["TOP".to_string()], &known, LodLevel::Shape);
    names.sort();
    assert_eq!(names, vec!["LEAF".to_string(), "MID".to_string(), "TOP".to_string()]);
}

#[test]
fn definitions_skip_unknown_names() {
    let layout = hierarchy();
    let names = cells_to_define(&layout, &vec!["GHOST".to_string(), "LEAF".to_string(), "LEAF".to_string()], &vec![], LodLevel::Cell);
    assert_eq!(names, vec!["LEAF".to_string()]);
}

#[test]
fn texts_do_not_change_the_encoding() {
    let polygon = || ShapeDto::Polygon { id: 0, layer: 4, datatype: 1, points: vec![PointBits { x: 7, y: 9 }] };
    let text = ShapeDto::Text {
        id: 1,
        layer: 4,
        texttype: 0,
        position: PointBits { x: 1, y: 2 },
        string: "label".to_string(),
        rotation_deg: 0,
        magnification: 0,
        mirror_x: true,
    };
    let with_text = ViewportResponse {
        shapes: vec![polygon(), text],
        instances: vec![],
        cell_definitions: vec![],
        lod_level: LodLevel::Shape,
    };
    let without = ViewportResponse { shapes: vec![polygon()], instances: vec![], cell_definitions: vec![], lod_level: LodLevel::Shape };
    assert_eq!(with_text.to_binary(), without.to_binary());
}
