//! What each record does to the element being read, field by field.
use vstd::prelude::*;
use crate::bytes::{be16, be64, int16, int32, padded_text};
use crate::cell::{ArefView, CellView, Offset, Point, ShapeView, SrefView};
use crate::parser::{ParseView, StateView, Step, empty_cell, step, xy_points};
use crate::types::{
    RT_ANGLE, RT_BGNSTR, RT_COLROW, RT_DATATYPE, RT_ENDEL, RT_LAYER, RT_MAG, RT_PATHTYPE, RT_SNAME, RT_STRANS,
    RT_STRING, RT_STRNAME, RT_TEXTTYPE, RT_WIDTH, RT_XY,
};

verus! {

/// The parser with the element being read replaced by `s`.
pub open spec fn reading(p: ParseView, s: StateView) -> Step {
    Step::Continue(ParseView { state: s, ..p })
}

/// Inside a text, LAYER and TEXTTYPE set its layer and text type, XY its
/// position (the first point), STRING its text, MAG and ANGLE its
/// magnification and rotation (the 8 bytes as they stand), STRANS its
/// mirroring (the top bit); DATATYPE changes nothing. Every other field
/// stays as it was.
#[verifier::rlimit(40)]
pub proof fn law_text_records(
    p: ParseView,
    d: Seq<u8>,
    layer: u16,
    texttype: u16,
    position: Point,
    string: Seq<char>,
    rotation_deg: u64,
    magnification: u64,
    mirror_x: bool,
)
    requires
        p.state == StateView::InShape(
            ShapeView::Text { layer, texttype, position, string, rotation_deg, magnification, mirror_x },
        ),
    ensures
        d.len() >= 2 ==> step(p, RT_LAYER, d) == reading(
            p,
            StateView::InShape(
                ShapeView::Text {
                    layer: int16(d[0], d[1]) as u16,
                    texttype,
                    position,
                    string,
                    rotation_deg,
                    magnification,
                    mirror_x,
                },
            ),
        ),
        d.len() >= 2 ==> step(p, RT_TEXTTYPE, d) == reading(
            p,
            StateView::InShape(
                ShapeView::Text {
                    layer,
                    texttype: int16(d[0], d[1]) as u16,
                    position,
                    string,
                    rotation_deg,
                    magnification,
                    mirror_x,
                },
            ),
        ),
        d.len() >= 8 ==> step(p, RT_XY, d) == reading(
            p,
            StateView::InShape(
                ShapeView::Text {
                    layer,
                    texttype,
                    position: Point { x: int32(d, 0) as i32, y: int32(d, 4) as i32 },
                    string,
                    rotation_deg,
                    magnification,
                    mirror_x,
                },
            ),
        ),
        padded_text(d) matches Some(t) ==> step(p, RT_STRING, d) == reading(
            p,
            StateView::InShape(
                ShapeView::Text { layer, texttype, position, string: t, rotation_deg, magnification, mirror_x },
            ),
        ),
        d.len() >= 8 ==> step(p, RT_MAG, d) == reading(
            p,
            StateView::InShape(
                ShapeView::Text {
                    layer,
                    texttype,
                    position,
                    string,
                    rotation_deg,
                    magnification: be64(d, 0) as u64,
                    mirror_x,
                },
            ),
        ),
        d.len() >= 8 ==> step(p, RT_ANGLE, d) == reading(
            p,
            StateView::InShape(
                ShapeView::Text {
                    layer,
                    texttype,
                    position,
                    string,
                    rotation_deg: be64(d, 0) as u64,
                    magnification,
                    mirror_x,
                },
            ),
        ),
        step(p, RT_STRANS, d) == reading(
            p,
            StateView::InShape(
                ShapeView::Text {
                    layer,
                    texttype,
                    position,
                    string,
                    rotation_deg,
                    magnification,
                    mirror_x: d.len() >= 2 && d[0] >= 0x80,
                },
            ),
        ),
        d.len() >= 2 ==> step(p, RT_DATATYPE, d) == Step::Continue(p),
{
    if d.len() >= 8 {
        assert(xy_points(d)[0] == Point { x: int32(d, 0) as i32, y: int32(d, 4) as i32 });
    }
}

/// Inside a path, WIDTH sets its width (a signed 32-bit value), PATHTYPE
/// its path type (negative values read as 0), XY its points (one per
/// eight bytes); TEXTTYPE and STRING change nothing.
#[verifier::rlimit(40)]
pub proof fn law_path_records(
    p: ParseView,
    d: Seq<u8>,
    layer: u16,
    datatype: u16,
    points: Seq<Point>,
    width: i32,
    path_type: u8,
)
    requires
        p.state == StateView::InShape(ShapeView::Path { layer, datatype, points, width, path_type }),
    ensures
        d.len() >= 4 ==> step(p, RT_WIDTH, d) == reading(
            p,
            StateView::InShape(ShapeView::Path { layer, datatype, points, width: int32(d, 0) as i32, path_type }),
        ),
        d.len() >= 2 ==> step(p, RT_PATHTYPE, d) == reading(
            p,
            StateView::InShape(
                ShapeView::Path {
                    layer,
                    datatype,
                    points,
                    width,
                    path_type: (if int16(d[0], d[1]) < 0 { 0 } else { int16(d[0], d[1]) }) as u8,
                },
            ),
        ),
        step(p, RT_XY, d) matches Step::Continue(q) && q.state matches StateView::InShape(
            ShapeView::Path { layer: l2, datatype: t2, points: pts, width: w2, path_type: k2 },
        ) && l2 == layer && t2 == datatype && w2 == width && k2 == path_type && pts.len() == d.len() / 8
            && (forall|k: int|
            0 <= k < pts.len() ==> #[trigger] pts[k] == Point { x: int32(d, 8 * k) as i32, y: int32(d, 8 * k + 4) as i32 }),
        d.len() >= 2 ==> step(p, RT_TEXTTYPE, d) == Step::Continue(p),
        padded_text(d) is Some ==> step(p, RT_STRING, d) == Step::Continue(p),
{
}

/// Inside a boundary, XY sets its points, one per eight bytes.
pub proof fn law_polygon_points(p: ParseView, d: Seq<u8>, layer: u16, datatype: u16, points: Seq<Point>)
    requires
        p.state == StateView::InShape(ShapeView::Polygon { layer, datatype, points }),
    ensures
        step(p, RT_XY, d) matches Step::Continue(q) && q.state matches StateView::InShape(
            ShapeView::Polygon { layer: l2, datatype: t2, points: pts },
        ) && l2 == layer && t2 == datatype && pts.len() == d.len() / 8 && (forall|k: int|
            0 <= k < pts.len() ==> #[trigger] pts[k] == Point { x: int32(d, 8 * k) as i32, y: int32(d, 8 * k + 4) as i32 }),
{
}

/// Inside a single placement, SNAME sets the placed cell's name, XY its
/// position (the first point), MAG, ANGLE and STRANS its magnification,
/// rotation and mirroring; COLROW changes nothing.
#[verifier::rlimit(40)]
pub proof fn law_sref_records(p: ParseView, d: Seq<u8>, r: SrefView)
    requires
        p.state == StateView::InSref(r),
    ensures
        padded_text(d) matches Some(t) ==> step(p, RT_SNAME, d) == reading(
            p,
            StateView::InSref(SrefView { cell_name: t, ..r }),
        ),
        d.len() >= 8 ==> step(p, RT_XY, d) == reading(
            p,
            StateView::InSref(SrefView { position: Point { x: int32(d, 0) as i32, y: int32(d, 4) as i32 }, ..r }),
        ),
        d.len() >= 8 ==> step(p, RT_MAG, d) == reading(
            p,
            StateView::InSref(SrefView { magnification: be64(d, 0) as u64, ..r }),
        ),
        d.len() >= 8 ==> step(p, RT_ANGLE, d) == reading(
            p,
            StateView::InSref(SrefView { rotation_deg: be64(d, 0) as u64, ..r }),
        ),
        step(p, RT_STRANS, d) == reading(
            p,
            StateView::InSref(SrefView { mirror_x: d.len() >= 2 && d[0] >= 0x80, ..r }),
        ),
        step(p, RT_COLROW, d) == Step::Continue(p),
{
    if d.len() >= 8 {
        assert(xy_points(d)[0] == Point { x: int32(d, 0) as i32, y: int32(d, 4) as i32 });
    }
}

/// Inside an array placement, SNAME sets the placed cell's name; XY with
/// three points sets the origin and the offsets from it to the second
/// (columns) and third (rows) point; COLROW sets the column and row counts
/// (at least 1); MAG, ANGLE and STRANS its magnification, rotation and
/// mirroring.
#[verifier::rlimit(40)]
pub proof fn law_aref_records(p: ParseView, d: Seq<u8>, a: ArefView)
    requires
        p.state == StateView::InAref(a),
    ensures
        padded_text(d) matches Some(t) ==> step(p, RT_SNAME, d) == reading(
            p,
            StateView::InAref(ArefView { cell_name: t, ..a }),
        ),
        d.len() >= 24 ==> ({
            let x0 = int32(d, 0);
            let y0 = int32(d, 4);
            step(p, RT_XY, d) == reading(
                p,
                StateView::InAref(
                    ArefView {
                        origin: Point { x: x0 as i32, y: y0 as i32 },
                        col_vector: Offset {
                            dx: (int32(d, 8) - x0) as i64,
                            dy: (int32(d, 12) - y0) as i64,
                        },
                        row_vector: Offset {
                            dx: (int32(d, 16) - x0) as i64,
                            dy: (int32(d, 20) - y0) as i64,
                        },
                        ..a
                    },
                ),
            )
        }),
        d.len() < 24 ==> step(p, RT_XY, d) == Step::Continue(p),
        d.len() >= 4 ==> step(p, RT_COLROW, d) == reading(
            p,
            StateView::InAref(
                ArefView {
                    cols: (if be16(d[0], d[1]) < 1 { 1 } else { be16(d[0], d[1]) }) as u16,
                    rows: (if be16(d[2], d[3]) < 1 { 1 } else { be16(d[2], d[3]) }) as u16,
                    ..a
                },
            ),
        ),
        d.len() >= 8 ==> step(p, RT_MAG, d) == reading(
            p,
            StateView::InAref(ArefView { magnification: be64(d, 0) as u64, ..a }),
        ),
        d.len() >= 8 ==> step(p, RT_ANGLE, d) == reading(
            p,
            StateView::InAref(ArefView { rotation_deg: be64(d, 0) as u64, ..a }),
        ),
        step(p, RT_STRANS, d) == reading(
            p,
            StateView::InAref(ArefView { mirror_x: d.len() >= 2 && d[0] >= 0x80, ..a }),
        ),
{
    if d.len() >= 24 {
        let pts = xy_points(d);
        assert(pts[0] == Point { x: int32(d, 0) as i32, y: int32(d, 4) as i32 });
        assert(pts[1] == Point { x: int32(d, 8) as i32, y: int32(d, 12) as i32 });
        assert(pts[2] == Point { x: int32(d, 16) as i32, y: int32(d, 20) as i32 });
    }
}

/// ENDEL adds a single placement being read to the cell's single
/// placements, and an array placement to its array placements.
pub proof fn law_endel_adds_the_placement(p: ParseView, c: CellView, r: SrefView, a: ArefView, d: Seq<u8>)
    requires
        p.cell == Some(c),
    ensures
        p.state == StateView::InSref(r) ==> (step(p, RT_ENDEL, d) matches Step::Continue(q) && q.cell == Some(
            CellView { srefs: c.srefs.push(r), ..c },
        ) && q.state == StateView::InCell && q.layout == p.layout),
        p.state == StateView::InAref(a) ==> (step(p, RT_ENDEL, d) matches Step::Continue(q) && q.cell == Some(
            CellView { arefs: c.arefs.push(a), ..c },
        ) && q.state == StateView::InCell && q.layout == p.layout),
{
}

/// BGNSTR starts an empty cell with no name; STRNAME then names the cell.
pub proof fn law_cell_records(p: ParseView, d: Seq<u8>, c: CellView)
    ensures
        step(p, RT_BGNSTR, d) == Step::Continue(
            ParseView {
                cell: Some(
                    CellView { name: Seq::empty(), shapes: Seq::empty(), srefs: Seq::empty(), arefs: Seq::empty() },
                ),
                state: StateView::InCell,
                ..p
            },
        ),
        p.cell == Some(c) ==> (padded_text(d) matches Some(t) ==> step(p, RT_STRNAME, d) == Step::Continue(
            ParseView { cell: Some(CellView { name: t, ..c }), ..p },
        )),
{
    assert(empty_cell() =~= CellView { name: Seq::empty(), shapes: Seq::empty(), srefs: Seq::empty(), arefs: Seq::empty() });
}

} // verus!
