use gds_layout::cell::{Offset, Point, Shape, Units, REAL8_ONE};
use gds_layout::parser::{decode_strans_mirror, decode_xy, GdsParser};
use gds_layout::reader::GdsReader;
use gds_layout::types::GdsError;

fn rec(rt: u8, dt: u8, data: &[u8]) -> Vec<u8> {
    let len = (4 + data.len()) as u16;
    let mut b = len.to_be_bytes().to_vec();
    b.push(rt);
    b.push(dt);
    b.extend_from_slice(data);
    b
}
fn i16_rec(rt: u8, v: i16) -> Vec<u8> {
    rec(rt, 0x02, &v.to_be_bytes())
}
fn i32_rec(rt: u8, v: i32) -> Vec<u8> {
    rec(rt, 0x03, &v.to_be_bytes())
}
fn str_rec(rt: u8, s: &str) -> Vec<u8> {
    let mut d = s.as_bytes().to_vec();
    if d.len() % 2 != 0 {
        d.push(0);
    }
    rec(rt, 0x06, &d)
}
fn xy_rec(pts: &[(i32, i32)]) -> Vec<u8> {
    let mut d = Vec::new();
    for (x, y) in pts {
        d.extend_from_slice(&x.to_be_bytes());
        d.extend_from_slice(&y.to_be_bytes());
    }
    rec(0x10, 0x03, &d)
}
fn nodata(rt: u8) -> Vec<u8> {
    rec(rt, 0x00, &[])
}
fn timestamps() -> Vec<u8> {
    vec![0u8; 24]
}

fn library_start(b: &mut Vec<u8>, name: &str) {
    b.extend(rec(0x00, 0x02, &0x03i16.to_be_bytes()));
    b.extend(rec(0x01, 0x02, &timestamps()));
    b.extend(str_rec(0x02, name));
    b.extend(rec(0x03, 0x05, &[0u8; 16]));
}

fn minimal_gds_with_polygon() -> Vec<u8> {
    let mut b: Vec<u8> = Vec::new();
    library_start(&mut b, "TESTLIB");
    b.extend(rec(0x05, 0x02, &timestamps())); // BGNSTR
    b.extend(str_rec(0x06, "TOP")); // STRNAME "TOP"
    b.extend(nodata(0x08)); // BOUNDARY
    b.extend(i16_rec(0x0D, 1)); // LAYER 1
    b.extend(i16_rec(0x0E, 0)); // DATATYPE 0
    b.extend(xy_rec(&[(0, 0), (10, 0), (10, 10), (0, 10), (0, 0)])); // XY 5 pts
    b.extend(nodata(0x11)); // ENDEL
    b.extend(nodata(0x07)); // ENDSTR
    b.extend(nodata(0x04)); // ENDLIB
    b
}

fn gds_with_hierarchy() -> Vec<u8> {
    let mut b: Vec<u8> = Vec::new();
    library_start(&mut b, "HIER");

    // UNIT cell: one polygon
    b.extend(rec(0x05, 0x02, &timestamps()));
    b.extend(str_rec(0x06, "UNIT"));
    b.extend(nodata(0x08));
    b.extend(i16_rec(0x0D, 2));
    b.extend(i16_rec(0x0E, 0));
    b.extend(xy_rec(&[(0, 0), (5, 0), (5, 5), (0, 5), (0, 0)]));
    b.extend(nodata(0x11));
    b.extend(nodata(0x07));

    // TOP cell: sref to UNIT
    b.extend(rec(0x05, 0x02, &timestamps()));
    b.extend(str_rec(0x06, "TOP"));
    b.extend(nodata(0x0A)); // SREF
    b.extend(str_rec(0x12, "UNIT")); // SNAME
    b.extend(xy_rec(&[(100, 200)])); // XY placement
    b.extend(nodata(0x11)); // ENDEL
    b.extend(nodata(0x07));

    b.extend(nodata(0x04));
    b
}

fn parse(bytes: Vec<u8>) -> Result<gds_layout::cell::Layout, GdsError> {
    GdsParser::new(GdsReader::new(bytes)).parse()
}

#[test]
fn parses_library_name() {
    let layout = parse(minimal_gds_with_polygon()).unwrap();
    assert_eq!(layout.lib_name(), "TESTLIB");
}

#[test]
fn parses_cell_name() {
    let layout = parse(minimal_gds_with_polygon()).unwrap();
    assert!(layout.cell("TOP").is_some());
}

#[test]
fn parses_polygon_shape() {
    let layout = parse(minimal_gds_with_polygon()).unwrap();
    let cell = layout.cell("TOP").unwrap();
    assert_eq!(cell.shapes.len(), 1);
    if let Shape::Polygon { layer, datatype, points } = &cell.shapes[0] {
        assert_eq!(*layer, 1);
        assert_eq!(*datatype, 0);
        assert_eq!(points.len(), 5);
        assert_eq!(points[0], Point { x: 0, y: 0 });
        assert_eq!(points[1], Point { x: 10, y: 0 });
    } else {
        panic!("expected Polygon");
    }
}

#[test]
fn parses_sref_instance() {
    let layout = parse(gds_with_hierarchy()).unwrap();
    let top = layout.cell("TOP").unwrap();
    assert_eq!(top.srefs.len(), 1);
    let sref = &top.srefs[0];
    assert_eq!(sref.cell_name, "UNIT");
    assert_eq!(sref.position, Point { x: 100, y: 200 });
    assert_eq!(sref.magnification, REAL8_ONE);
    assert!(!sref.mirror_x);
}

#[test]
fn find_top_cell_resolves_root() {
    let layout = parse(gds_with_hierarchy()).unwrap();
    assert_eq!(layout.top_cell().as_deref(), Some("TOP"));
}

#[test]
fn layer_auto_registered_on_parse() {
    let layout = parse(minimal_gds_with_polygon()).unwrap();
    assert!(layout.layer(1).is_some());
}

#[test]
fn returns_error_on_truncated_stream() {
    let bytes = vec![0x00, 0x06, 0x00, 0x02]; // HEADER header only, then EOF
    let result = parse(bytes);
    assert!(result.is_err());
}

#[test]
fn units_are_kept_as_their_bit_patterns() {
    let mut b: Vec<u8> = Vec::new();
    b.extend(rec(0x00, 0x02, &0x03i16.to_be_bytes()));
    b.extend(rec(0x01, 0x02, &timestamps()));
    let mut units = vec![0x3E, 0x41, 0x89, 0x37, 0x4B, 0xC6, 0xA7, 0xF0];
    units.extend_from_slice(&[0x39, 0x44, 0xB8, 0x2F, 0xA0, 0x9B, 0x5A, 0x54]);
    b.extend(rec(0x03, 0x05, &units));
    b.extend(nodata(0x04));
    let layout = parse(b).unwrap();
    assert_eq!(
        layout.units(),
        Some(Units { user_units_per_db_unit: 0x3E41_8937_4BC6_A7F0, db_unit_in_meters: 0x3944_B82F_A09B_5A54 })
    );
    assert_eq!(layout.lib_name(), "");
    assert!(layout.top_cell().is_none());
}

#[test]
fn parses_path_with_width_and_type() {
    let mut b: Vec<u8> = Vec::new();
    library_start(&mut b, "P");
    b.extend(rec(0x05, 0x02, &timestamps()));
    b.extend(str_rec(0x06, "WIRE"));
    b.extend(nodata(0x09)); // PATH
    b.extend(i16_rec(0x0D, 7));
    b.extend(i16_rec(0x0E, 3));
    b.extend(i16_rec(0x21, -5)); // PATHTYPE below zero becomes 0
    b.extend(i32_rec(0x0F, 250)); // WIDTH
    b.extend(xy_rec(&[(-1, -2), (30, 40)]));
    b.extend(nodata(0x11));
    b.extend(nodata(0x07));
    b.extend(nodata(0x04));
    let layout = parse(b).unwrap();
    let cell = layout.cell("WIRE").unwrap();
    assert_eq!(
        cell.shapes[0],
        Shape::Path {
            layer: 7,
            datatype: 3,
            points: vec![Point { x: -1, y: -2 }, Point { x: 30, y: 40 }],
            width: 250,
            path_type: 0
        }
    );
    assert!(layout.layer(7).is_some());
}

#[test]
fn parses_text_and_array_placement() {
    let mut b: Vec<u8> = Vec::new();
    library_start(&mut b, "A");
    b.extend(rec(0x05, 0x02, &timestamps()));
    b.extend(str_rec(0x06, "LEAF"));
    b.extend(nodata(0x07));
    b.extend(rec(0x05, 0x02, &timestamps()));
    b.extend(str_rec(0x06, "TOP"));
    b.extend(nodata(0x0C)); // TEXT
    b.extend(i16_rec(0x0D, 4));
    b.extend(i16_rec(0x16, 9)); // TEXTTYPE
    b.extend(rec(0x1A, 0x01, &[0x80, 0x00])); // STRANS mirrored
    b.extend(rec(0x1B, 0x05, &[0x41, 0x20, 0, 0, 0, 0, 0, 0])); // MAG
    b.extend(xy_rec(&[(3, 7)]));
    b.extend(str_rec(0x19, "hello"));
    b.extend(nodata(0x11));
    b.extend(nodata(0x0B)); // AREF
    b.extend(str_rec(0x12, "LEAF"));
    b.extend(rec(0x13, 0x02, &[0, 4, 0, 0])); // COLROW: 4 columns, 0 rows becomes 1
    b.extend(rec(0x1C, 0x05, &[0x42, 0x5A, 0, 0, 0, 0, 0, 0])); // ANGLE
    b.extend(xy_rec(&[(10, 20), (50, 20), (10, 60)]));
    b.extend(nodata(0x11));
    b.extend(nodata(0x07));
    b.extend(nodata(0x04));
    let layout = parse(b).unwrap();
    assert_eq!(layout.top_cell().as_deref(), Some("TOP"));
    let top = layout.cell("TOP").unwrap();
    match &top.shapes[0] {
        Shape::Text { layer, texttype, position, string, rotation_deg, magnification, mirror_x } => {
            assert_eq!(*layer, 4);
            assert_eq!(*texttype, 9);
            assert_eq!(*position, Point { x: 3, y: 7 });
            assert_eq!(string, "hello");
            assert_eq!(*rotation_deg, 0);
            assert_eq!(*magnification, 0x4120_0000_0000_0000);
            assert!(*mirror_x);
        },
        _ => panic!("expected Text"),
    }
    let a = &top.arefs[0];
    assert_eq!(a.cell_name, "LEAF");
    assert_eq!(a.cols, 4);
    assert_eq!(a.rows, 1);
    assert_eq!(a.rotation_deg, 0x425A_0000_0000_0000);
    assert_eq!(a.origin, Point { x: 10, y: 20 });
    assert_eq!(a.col_vector, Offset { dx: 40, dy: 0 });
    assert_eq!(a.row_vector, Offset { dx: 0, dy: 40 });
}

#[test]
fn invalid_utf8_cell_name_is_an_error() {
    let mut b: Vec<u8> = Vec::new();
    library_start(&mut b, "BAD");
    b.extend(rec(0x05, 0x02, &timestamps()));
    b.extend(rec(0x06, 0x06, &[0xFF, 0xFE]));
    b.extend(nodata(0x04));
    assert_eq!(parse(b).unwrap_err(), GdsError::InvalidAscii { record_type: 0x06 });
}

#[test]
fn later_cell_of_the_same_name_replaces_earlier() {
    let mut b: Vec<u8> = Vec::new();
    library_start(&mut b, "DUP");
    for layer in [1i16, 2i16] {
        b.extend(rec(0x05, 0x02, &timestamps()));
        b.extend(str_rec(0x06, "C"));
        b.extend(nodata(0x08));
        b.extend(i16_rec(0x0D, layer));
        b.extend(i16_rec(0x0E, 0));
        b.extend(xy_rec(&[(0, 0)]));
        b.extend(nodata(0x11));
        b.extend(nodata(0x07));
    }
    b.extend(nodata(0x04));
    let layout = parse(b).unwrap();
    assert_eq!(layout.cells().len(), 1);
    assert_eq!(layout.cell("C").unwrap().shapes[0].layer(), 2);
    assert_eq!(layout.layers().len(), 2);
}

#[test]
fn short_layer_record_halts_the_parser() {
    let mut b: Vec<u8> = Vec::new();
    library_start(&mut b, "H");
    b.extend(rec(0x0D, 0x02, &[0x01]));
    b.extend(nodata(0x04));
    assert!(GdsParser::new(GdsReader::new(b)).parse_checked().is_none());
}

#[test]
fn stream_without_endlib_is_an_error() {
    let mut b: Vec<u8> = Vec::new();
    library_start(&mut b, "OPEN");
    assert_eq!(parse(b).unwrap_err(), GdsError::UnexpectedEof);
}

#[test]
fn decoders_read_big_endian_fields() {
    assert_eq!(decode_xy(&[0, 0, 0, 1, 0xFF, 0xFF, 0xFF, 0xFF, 9]), vec![Point { x: 1, y: -1 }]);
    assert!(decode_strans_mirror(&[0x80, 0x00]));
    assert!(!decode_strans_mirror(&[0x7F, 0xFF]));
    assert!(!decode_strans_mirror(&[0x80]));
}

#[test]
fn parsed_layout_has_default_layers_for_its_shapes_and_an_unplaced_top() {
    let layout = parse(gds_with_hierarchy()).unwrap();
    let names: Vec<&str> = layout.cells().iter().map(|c| c.name.as_str()).collect();
    assert_eq!(names, vec!["UNIT", "TOP"]);
    for cell in layout.cells() {
        for shape in &cell.shapes {
            let l = shape.layer();
            assert_eq!(layout.layer(l).unwrap(), &gds_layout::cell::LayerInfo::new(l));
        }
    }
    assert_eq!(layout.layers().len(), 1);
    assert_eq!(layout.top_cell().as_deref(), Some("TOP"));
    assert!(layout.cells().iter().all(|c| c.srefs.iter().all(|s| s.cell_name != "TOP")));
}

#[test]
fn u64_fields_are_read_big_endian() {
    let d = [0xAAu8, 0x41, 0x10, 0, 0, 0, 0, 0, 0x01, 0x02, 0x03, 0x04, 0x05, 0x06, 0x07, 0x08];
    assert_eq!(gds_layout::bytes::decode_u64_at(&d, 1), 0x4110_0000_0000_0000 | 0x01);
    assert_eq!(gds_layout::bytes::decode_u64_at(&d, 8), 0x0102_0304_0506_0708);
    assert_eq!(gds_layout::bytes::decode_u64_at(&d, 0), 0xAA41_1000_0000_0000);
}
