//! Building a layout from the records of a stream.
//!
//! The parser is a state machine over records: a BGNSTR ... ENDSTR pair
//! frames a cell, BOUNDARY, PATH, TEXT, SREF and AREF open an element whose
//! fields the following records fill in, and ENDEL adds the element to the
//! cell being read. ENDLIB ends the library; then the top cell is found.
//! Records that it does not use (properties, flags, plex, ...) are skipped.
use vstd::prelude::*;
use crate::bytes::{
    be16, be64, decode_i16, decode_i32, decode_i32_at, decode_text, decode_u16, int16, int32,
    padded_text, decode_u64_at,
};
use crate::cell::{
    ArefInstance, ArefView, Cell, CellView, Layout, LayoutView, Offset, Point, REAL8_ONE,
    REAL8_ZERO, Shape, ShapeView, SrefInstance, SrefView, Units, top_cell_of, with_cell,
    with_layers_of,
};
use crate::reader::{GdsReader, record_at};
use crate::types::{
    GdsError, GdsRecord, RT_ANGLE, RT_AREF, RT_BGNLIB, RT_BGNSTR, RT_BOUNDARY, RT_COLROW,
    RT_DATATYPE, RT_ENDEL, RT_ENDLIB, RT_ENDSTR, RT_LAYER, RT_LIBNAME, RT_MAG, RT_PATH,
    RT_PATHTYPE, RT_SNAME, RT_SREF, RT_STRANS, RT_STRING, RT_STRNAME, RT_TEXT, RT_TEXTTYPE,
    RT_UNITS, RT_WIDTH, RT_XY, is_known_record_type,
};

verus! {

/// What the parser is reading: outside a library, in a library, in a cell,
/// or in an element (a shape, a single placement or an array placement).
#[verifier::ext_equal]
pub enum StateView {
    Start,
    InLibrary,
    InCell,
    InShape(ShapeView),
    InSref(SrefView),
    InAref(ArefView),
}

/// The whole state of the parser: the layout so far, the cell being read
/// and what is being read.
#[verifier::ext_equal]
pub struct ParseView {
    pub layout: LayoutView,
    pub cell: Option<CellView>,
    pub state: StateView,
}

/// What one record does to the parser.
pub enum Step {
    Continue(ParseView),
    Finish(ParseView),
    Fail(GdsError),
    /// A field record too short for its value, where the value is read
    /// without a check of its length.
    Halt,
}

/// How reading a whole stream ends.
pub enum Outcome {
    Parsed(ParseView),
    Failed(GdsError),
    Halted,
}

/// The points of an XY payload: a pair of big-endian 32-bit integers per
/// eight bytes; a shorter tail is dropped.
pub open spec fn xy_points(d: Seq<u8>) -> Seq<Point> {
    Seq::new(
        (d.len() / 8) as nat,
        |k: int| Point { x: int32(d, 8 * k) as i32, y: int32(d, 8 * k + 4) as i32 },
    )
}

/// The reflection bit of an STRANS payload (its top bit).
pub open spec fn strans_mirror(d: Seq<u8>) -> bool {
    d.len() >= 2 && d[0] >= 0x80
}

pub open spec fn at_least_one(v: int) -> u16 {
    if v < 1 { 1 } else { v as u16 }
}

pub open spec fn empty_cell() -> CellView {
    CellView { name: Seq::empty(), shapes: Seq::empty(), srefs: Seq::empty(), arefs: Seq::empty() }
}

pub open spec fn new_polygon() -> ShapeView {
    ShapeView::Polygon { layer: 0, datatype: 0, points: Seq::empty() }
}

pub open spec fn new_path() -> ShapeView {
    ShapeView::Path { layer: 0, datatype: 0, points: Seq::empty(), width: 0, path_type: 0 }
}

pub open spec fn new_text() -> ShapeView {
    ShapeView::Text {
        layer: 0,
        texttype: 0,
        position: Point { x: 0, y: 0 },
        string: Seq::empty(),
        rotation_deg: REAL8_ZERO,
        magnification: REAL8_ONE,
        mirror_x: false,
    }
}

pub open spec fn new_sref() -> SrefView {
    SrefView {
        cell_name: Seq::empty(),
        position: Point { x: 0, y: 0 },
        rotation_deg: REAL8_ZERO,
        magnification: REAL8_ONE,
        mirror_x: false,
    }
}

pub open spec fn new_aref() -> ArefView {
    ArefView {
        cell_name: Seq::empty(),
        origin: Point { x: 0, y: 0 },
        rotation_deg: REAL8_ZERO,
        magnification: REAL8_ONE,
        mirror_x: false,
        cols: 1,
        rows: 1,
        col_vector: Offset { dx: 0, dy: 0 },
        row_vector: Offset { dx: 0, dy: 0 },
    }
}

pub open spec fn set_layer(s: StateView, v: u16) -> StateView {
    match s {
        StateView::InShape(ShapeView::Polygon { datatype, points, .. }) => StateView::InShape(
            ShapeView::Polygon { layer: v, datatype, points },
        ),
        StateView::InShape(ShapeView::Path { datatype, points, width, path_type, .. }) => StateView::InShape(
            ShapeView::Path { layer: v, datatype, points, width, path_type },
        ),
        StateView::InShape(
            ShapeView::Text { texttype, position, string, rotation_deg, magnification, mirror_x, .. },
        ) => StateView::InShape(
            ShapeView::Text { layer: v, texttype, position, string, rotation_deg, magnification, mirror_x },
        ),
        _ => s,
    }
}

pub open spec fn set_datatype(s: StateView, v: u16) -> StateView {
    match s {
        StateView::InShape(ShapeView::Polygon { layer, points, .. }) => StateView::InShape(
            ShapeView::Polygon { layer, datatype: v, points },
        ),
        StateView::InShape(ShapeView::Path { layer, points, width, path_type, .. }) => StateView::InShape(
            ShapeView::Path { layer, datatype: v, points, width, path_type },
        ),
        _ => s,
    }
}

pub open spec fn in_text(s: StateView) -> bool {
    s matches StateView::InShape(ShapeView::Text { .. })
}

pub open spec fn in_path(s: StateView) -> bool {
    s matches StateView::InShape(ShapeView::Path { .. })
}

pub open spec fn set_texttype(s: StateView, v: u16) -> StateView {
    match s {
        StateView::InShape(
            ShapeView::Text { layer, position, string, rotation_deg, magnification, mirror_x, .. },
        ) => StateView::InShape(
            ShapeView::Text { layer, texttype: v, position, string, rotation_deg, magnification, mirror_x },
        ),
        _ => s,
    }
}

pub open spec fn set_width(s: StateView, v: i32) -> StateView {
    match s {
        StateView::InShape(ShapeView::Path { layer, datatype, points, path_type, .. }) => StateView::InShape(
            ShapeView::Path { layer, datatype, points, width: v, path_type },
        ),
        _ => s,
    }
}

pub open spec fn set_path_type(s: StateView, v: u8) -> StateView {
    match s {
        StateView::InShape(ShapeView::Path { layer, datatype, points, width, .. }) => StateView::InShape(
            ShapeView::Path { layer, datatype, points, width, path_type: v },
        ),
        _ => s,
    }
}

/// What an XY record sets: all points of a polygon or path, the first
/// point as the position of a text or single placement, the first three as
/// origin and far corners of an array placement (with fewer, nothing).
pub open spec fn set_points(s: StateView, pts: Seq<Point>) -> StateView {
    match s {
        StateView::InShape(ShapeView::Polygon { layer, datatype, .. }) => StateView::InShape(
            ShapeView::Polygon { layer, datatype, points: pts },
        ),
        StateView::InShape(ShapeView::Path { layer, datatype, width, path_type, .. }) => StateView::InShape(
            ShapeView::Path { layer, datatype, points: pts, width, path_type },
        ),
        StateView::InShape(
            ShapeView::Text { layer, texttype, string, rotation_deg, magnification, mirror_x, position },
        ) => StateView::InShape(
            ShapeView::Text {
                layer,
                texttype,
                position: if pts.len() > 0 { pts[0] } else { position },
                string,
                rotation_deg,
                magnification,
                mirror_x,
            },
        ),
        StateView::InSref(r) => StateView::InSref(
            SrefView { position: if pts.len() > 0 { pts[0] } else { r.position }, ..r },
        ),
        StateView::InAref(a) => if pts.len() >= 3 {
            StateView::InAref(
                ArefView {
                    origin: pts[0],
                    col_vector: Offset { dx: (pts[1].x - pts[0].x) as i64, dy: (pts[1].y - pts[0].y) as i64 },
                    row_vector: Offset { dx: (pts[2].x - pts[0].x) as i64, dy: (pts[2].y - pts[0].y) as i64 },
                    ..a
                },
            )
        } else {
            s
        },
        _ => s,
    }
}

pub open spec fn set_ref_name(s: StateView, n: Seq<char>) -> StateView {
    match s {
        StateView::InSref(r) => StateView::InSref(SrefView { cell_name: n, ..r }),
        StateView::InAref(a) => StateView::InAref(ArefView { cell_name: n, ..a }),
        _ => s,
    }
}

pub open spec fn set_grid(s: StateView, cols: u16, rows: u16) -> StateView {
    match s {
        StateView::InAref(a) => StateView::InAref(ArefView { cols, rows, ..a }),
        _ => s,
    }
}

pub open spec fn set_mirror(s: StateView, m: bool) -> StateView {
    match s {
        StateView::InSref(r) => StateView::InSref(SrefView { mirror_x: m, ..r }),
        StateView::InAref(a) => StateView::InAref(ArefView { mirror_x: m, ..a }),
        StateView::InShape(
            ShapeView::Text { layer, texttype, position, string, rotation_deg, magnification, .. },
        ) => StateView::InShape(
            ShapeView::Text { layer, texttype, position, string, rotation_deg, magnification, mirror_x: m },
        ),
        _ => s,
    }
}

pub open spec fn set_magnification(s: StateView, m: u64) -> StateView {
    match s {
        StateView::InSref(r) => StateView::InSref(SrefView { magnification: m, ..r }),
        StateView::InAref(a) => StateView::InAref(ArefView { magnification: m, ..a }),
        StateView::InShape(
            ShapeView::Text { layer, texttype, position, string, rotation_deg, mirror_x, .. },
        ) => StateView::InShape(
            ShapeView::Text { layer, texttype, position, string, rotation_deg, magnification: m, mirror_x },
        ),
        _ => s,
    }
}

pub open spec fn set_rotation(s: StateView, m: u64) -> StateView {
    match s {
        StateView::InSref(r) => StateView::InSref(SrefView { rotation_deg: m, ..r }),
        StateView::InAref(a) => StateView::InAref(ArefView { rotation_deg: m, ..a }),
        StateView::InShape(
            ShapeView::Text { layer, texttype, position, string, magnification, mirror_x, .. },
        ) => StateView::InShape(
            ShapeView::Text { layer, texttype, position, string, rotation_deg: m, magnification, mirror_x },
        ),
        _ => s,
    }
}

pub open spec fn set_string(s: StateView, t: Seq<char>) -> StateView {
    match s {
        StateView::InShape(
            ShapeView::Text { layer, texttype, position, rotation_deg, magnification, mirror_x, .. },
        ) => StateView::InShape(
            ShapeView::Text { layer, texttype, position, string: t, rotation_deg, magnification, mirror_x },
        ),
        _ => s,
    }
}

/// The cell after ENDEL: the element being read is added to it.
pub open spec fn close_element(cell: Option<CellView>, s: StateView) -> Option<CellView> {
    match cell {
        Some(c) => Some(
            match s {
                StateView::InShape(sh) => CellView { shapes: c.shapes.push(sh), ..c },
                StateView::InSref(r) => CellView { srefs: c.srefs.push(r), ..c },
                StateView::InAref(a) => CellView { arefs: c.arefs.push(a), ..c },
                _ => c,
            },
        ),
        None => None,
    }
}

pub open spec fn with_state(p: ParseView, s: StateView) -> ParseView {
    ParseView { state: s, ..p }
}

/// What the record of type `rt` with payload `d` does to the parser.
pub open spec fn step(p: ParseView, rt: u8, d: Seq<u8>) -> Step {
    if rt == RT_ENDLIB {
        Step::Finish(p)
    } else if rt == RT_BGNLIB {
        Step::Continue(with_state(p, StateView::InLibrary))
    } else if rt == RT_LIBNAME {
        match padded_text(d) {
            Some(t) => Step::Continue(ParseView { layout: LayoutView { lib_name: t, ..p.layout }, ..p }),
            None => Step::Fail(GdsError::InvalidAscii { record_type: RT_LIBNAME }),
        }
    } else if rt == RT_UNITS {
        if d.len() >= 16 {
            let u = Units { user_units_per_db_unit: be64(d, 0) as u64, db_unit_in_meters: be64(d, 8) as u64 };
            Step::Continue(ParseView { layout: LayoutView { units: Some(u), ..p.layout }, ..p })
        } else {
            Step::Continue(p)
        }
    } else if rt == RT_BGNSTR {
        Step::Continue(ParseView { cell: Some(empty_cell()), state: StateView::InCell, ..p })
    } else if rt == RT_STRNAME {
        match p.cell {
            Some(c) => match padded_text(d) {
                Some(t) => Step::Continue(ParseView { cell: Some(CellView { name: t, ..c }), ..p }),
                None => Step::Fail(GdsError::InvalidAscii { record_type: RT_STRNAME }),
            },
            None => Step::Continue(p),
        }
    } else if rt == RT_ENDSTR {
        match p.cell {
            Some(c) => Step::Continue(
                ParseView {
                    layout: LayoutView {
                        layers: with_layers_of(p.layout.layers, c.shapes),
                        cells: with_cell(p.layout.cells, c),
                        ..p.layout
                    },
                    cell: None,
                    state: StateView::InLibrary,
                },
            ),
            None => Step::Continue(with_state(p, StateView::InLibrary)),
        }
    } else if rt == RT_BOUNDARY {
        Step::Continue(with_state(p, StateView::InShape(new_polygon())))
    } else if rt == RT_PATH {
        Step::Continue(with_state(p, StateView::InShape(new_path())))
    } else if rt == RT_SREF {
        Step::Continue(with_state(p, StateView::InSref(new_sref())))
    } else if rt == RT_AREF {
        Step::Continue(with_state(p, StateView::InAref(new_aref())))
    } else if rt == RT_TEXT {
        Step::Continue(with_state(p, StateView::InShape(new_text())))
    } else if rt == RT_LAYER {
        if d.len() < 2 {
            Step::Halt
        } else {
            Step::Continue(with_state(p, set_layer(p.state, int16(d[0], d[1]) as u16)))
        }
    } else if rt == RT_DATATYPE {
        if d.len() < 2 {
            Step::Halt
        } else {
            Step::Continue(with_state(p, set_datatype(p.state, int16(d[0], d[1]) as u16)))
        }
    } else if rt == RT_TEXTTYPE {
        if !in_text(p.state) {
            Step::Continue(p)
        } else if d.len() < 2 {
            Step::Halt
        } else {
            Step::Continue(with_state(p, set_texttype(p.state, int16(d[0], d[1]) as u16)))
        }
    } else if rt == RT_WIDTH {
        if !in_path(p.state) {
            Step::Continue(p)
        } else if d.len() < 4 {
            Step::Halt
        } else {
            Step::Continue(with_state(p, set_width(p.state, int32(d, 0) as i32)))
        }
    } else if rt == RT_PATHTYPE {
        if !in_path(p.state) {
            Step::Continue(p)
        } else if d.len() < 2 {
            Step::Halt
        } else {
            let v = int16(d[0], d[1]);
            Step::Continue(with_state(p, set_path_type(p.state, (if v < 0 { 0 } else { v }) as u8)))
        }
    } else if rt == RT_XY {
        Step::Continue(with_state(p, set_points(p.state, xy_points(d))))
    } else if rt == RT_SNAME {
        match padded_text(d) {
            Some(n) => Step::Continue(with_state(p, set_ref_name(p.state, n))),
            None => Step::Fail(GdsError::InvalidAscii { record_type: RT_SNAME }),
        }
    } else if rt == RT_COLROW {
        if d.len() >= 4 {
            Step::Continue(
                with_state(
                    p,
                    set_grid(p.state, at_least_one(be16(d[0], d[1])), at_least_one(be16(d[2], d[3]))),
                ),
            )
        } else {
            Step::Continue(p)
        }
    } else if rt == RT_STRANS {
        Step::Continue(with_state(p, set_mirror(p.state, strans_mirror(d))))
    } else if rt == RT_MAG {
        if d.len() >= 8 {
            Step::Continue(with_state(p, set_magnification(p.state, be64(d, 0) as u64)))
        } else {
            Step::Continue(p)
        }
    } else if rt == RT_ANGLE {
        if d.len() >= 8 {
            Step::Continue(with_state(p, set_rotation(p.state, be64(d, 0) as u64)))
        } else {
            Step::Continue(p)
        }
    } else if rt == RT_STRING {
        if !in_text(p.state) {
            Step::Continue(p)
        } else {
            match padded_text(d) {
                Some(t) => Step::Continue(with_state(p, set_string(p.state, t))),
                None => Step::Fail(GdsError::InvalidAscii { record_type: RT_STRING }),
            }
        }
    } else if rt == RT_ENDEL {
        Step::Continue(
            ParseView { cell: close_element(p.cell, p.state), state: StateView::InCell, ..p },
        )
    } else {
        Step::Continue(p)
    }
}

/// Reading a record never goes backwards.
pub proof fn lemma_record_at_advances(data: Seq<u8>, pos: int)
    ensures
        record_at(data, pos) matches Ok((_, _, next)) ==> pos + 4 <= next <= data.len(),
{
}

/// Runs the parser over the records of `data` from `pos` on.
pub open spec fn run(data: Seq<u8>, pos: int, p: ParseView) -> Outcome
    decreases data.len() - pos,
{
    match record_at(data, pos) {
        Err(e) => Outcome::Failed(e),
        Ok((rt, d, next)) => {
            proof {
                lemma_record_at_advances(data, pos);
            }
            match step(p, rt, d) {
                Step::Continue(q) => run(data, next, q),
                Step::Finish(q) => Outcome::Parsed(q),
                Step::Fail(e) => Outcome::Failed(e),
                Step::Halt => Outcome::Halted,
            }
        }
    }
}

/// The parser before the first record: an empty library with no name.
pub open spec fn initial_parse() -> ParseView {
    ParseView {
        layout: LayoutView {
            lib_name: Seq::empty(),
            cells: Seq::empty(),
            layers: Seq::empty(),
            top_cell: None,
            units: None,
        },
        cell: None,
        state: StateView::Start,
    }
}

/// The layout that the parser ends with: the top cell is found once the
/// library has ended.
pub open spec fn finished_layout(p: ParseView) -> LayoutView {
    LayoutView { top_cell: top_cell_of(p.layout.cells), ..p.layout }
}

/// The points of an XY payload.
pub fn decode_xy(data: &[u8]) -> (pts: Vec<Point>)
    ensures
        pts@ == xy_points(data@),
{
    let n = data.len() / 8;
    let mut pts: Vec<Point> = Vec::new();
    let mut k: usize = 0;
    while k < n
        invariant
            n == data@.len() / 8,
            k <= n,
            pts@ =~= xy_points(data@).take(k as int),
        decreases n - k,
    {
        assert(8 * k + 8 <= data@.len()) by (nonlinear_arith)
            requires
                k < n,
                n == data@.len() / 8,
        ;
        assert(8 * k <= data.len());
        let x = decode_i32_at(data, 8 * k);
        let y = decode_i32_at(data, 8 * k + 4);
        pts.push(Point { x, y });
        k = k + 1;
        assert(pts@ =~= xy_points(data@).take(k as int));
    }
    assert(xy_points(data@).take(n as int) =~= xy_points(data@));
    pts
}

/// The text of a NUL-padded string payload of a record of type
/// `record_type`; an `InvalidAscii` error where it is not valid UTF-8.
pub fn decode_string(data: &[u8], record_type: u8) -> (r: Result<String, GdsError>)
    ensures
        match r {
            Ok(s) => padded_text(data@) == Some(s@),
            Err(e) => padded_text(data@) is None && e == GdsError::InvalidAscii { record_type },
        },
{
    match decode_text(data) {
        Some(s) => Ok(s),
        None => Err(GdsError::InvalidAscii { record_type }),
    }
}

/// The reflection bit of an STRANS payload.
pub fn decode_strans_mirror(data: &[u8]) -> (m: bool)
    ensures
        m == strans_mirror(data@),
{
    if data.len() >= 2 {
        let u = decode_u16(data);
        assert((u & 0x8000u16) != 0 <==> u >= 0x8000) by (bit_vector);
        (u & 0x8000) != 0
    } else {
        false
    }
}

enum ParserState {
    Start,
    InLibrary,
    InCell,
    InShape(Shape),
    InSref(SrefInstance),
    InAref(ArefInstance),
}

impl ParserState {
    spec fn view(&self) -> StateView {
        match *self {
            ParserState::Start => StateView::Start,
            ParserState::InLibrary => StateView::InLibrary,
            ParserState::InCell => StateView::InCell,
            ParserState::InShape(s) => StateView::InShape(s@),
            ParserState::InSref(r) => StateView::InSref(r@),
            ParserState::InAref(a) => StateView::InAref(a@),
        }
    }

    fn is_text(&self) -> (b: bool)
        ensures
            b == in_text(self.view()),
    {
        match self {
            ParserState::InShape(Shape::Text { .. }) => true,
            _ => false,
        }
    }

    fn is_path(&self) -> (b: bool)
        ensures
            b == in_path(self.view()),
    {
        match self {
            ParserState::InShape(Shape::Path { .. }) => true,
            _ => false,
        }
    }

    fn with_layer(self, v: u16) -> (r: ParserState)
        ensures
            r.view() == set_layer(self.view(), v),
    {
        match self {
            ParserState::InShape(Shape::Polygon { datatype, points, .. }) => ParserState::InShape(
                Shape::Polygon { layer: v, datatype, points },
            ),
            ParserState::InShape(Shape::Path { datatype, points, width, path_type, .. }) => ParserState::InShape(
                Shape::Path { layer: v, datatype, points, width, path_type },
            ),
            ParserState::InShape(
                Shape::Text { texttype, position, string, rotation_deg, magnification, mirror_x, .. },
            ) => ParserState::InShape(
                Shape::Text { layer: v, texttype, position, string, rotation_deg, magnification, mirror_x },
            ),
            other => other,
        }
    }

    fn with_datatype(self, v: u16) -> (r: ParserState)
        ensures
            r.view() == set_datatype(self.view(), v),
    {
        match self {
            ParserState::InShape(Shape::Polygon { layer, points, .. }) => ParserState::InShape(
                Shape::Polygon { layer, datatype: v, points },
            ),
            ParserState::InShape(Shape::Path { layer, points, width, path_type, .. }) => ParserState::InShape(
                Shape::Path { layer, datatype: v, points, width, path_type },
            ),
            other => other,
        }
    }

    fn with_texttype(self, v: u16) -> (r: ParserState)
        ensures
            r.view() == set_texttype(self.view(), v),
    {
        match self {
            ParserState::InShape(
                Shape::Text { layer, position, string, rotation_deg, magnification, mirror_x, .. },
            ) => ParserState::InShape(
                Shape::Text { layer, texttype: v, position, string, rotation_deg, magnification, mirror_x },
            ),
            other => other,
        }
    }

    fn with_width(self, v: i32) -> (r: ParserState)
        ensures
            r.view() == set_width(self.view(), v),
    {
        match self {
            ParserState::InShape(Shape::Path { layer, datatype, points, path_type, .. }) => ParserState::InShape(
                Shape::Path { layer, datatype, points, width: v, path_type },
            ),
            other => other,
        }
    }

    fn with_path_type(self, v: u8) -> (r: ParserState)
        ensures
            r.view() == set_path_type(self.view(), v),
    {
        match self {
            ParserState::InShape(Shape::Path { layer, datatype, points, width, .. }) => ParserState::InShape(
                Shape::Path { layer, datatype, points, width, path_type: v },
            ),
            other => other,
        }
    }

    fn with_points(self, pts: Vec<Point>) -> (r: ParserState)
        ensures
            r.view() == set_points(self.view(), pts@),
    {
        match self {
            ParserState::InShape(Shape::Polygon { layer, datatype, .. }) => ParserState::InShape(
                Shape::Polygon { layer, datatype, points: pts },
            ),
            ParserState::InShape(Shape::Path { layer, datatype, width, path_type, .. }) => ParserState::InShape(
                Shape::Path { layer, datatype, points: pts, width, path_type },
            ),
            ParserState::InShape(
                Shape::Text { layer, texttype, position, string, rotation_deg, magnification, mirror_x },
            ) => {
                let position = if pts.len() > 0 { pts[0] } else { position };
                ParserState::InShape(
                    Shape::Text { layer, texttype, position, string, rotation_deg, magnification, mirror_x },
                )
            },
            ParserState::InSref(mut r) => {
                if pts.len() > 0 {
                    r.position = pts[0];
                }
                ParserState::InSref(r)
            },
            ParserState::InAref(mut a) => {
                if pts.len() >= 3 {
                    a.origin = pts[0];
                    a.col_vector = Offset {
                        dx: pts[1].x as i64 - pts[0].x as i64,
                        dy: pts[1].y as i64 - pts[0].y as i64,
                    };
                    a.row_vector = Offset {
                        dx: pts[2].x as i64 - pts[0].x as i64,
                        dy: pts[2].y as i64 - pts[0].y as i64,
                    };
                }
                ParserState::InAref(a)
            },
            other => other,
        }
    }

    fn with_ref_name(self, n: String) -> (r: ParserState)
        ensures
            r.view() == set_ref_name(self.view(), n@),
    {
        match self {
            ParserState::InSref(mut r) => {
                r.cell_name = n;
                ParserState::InSref(r)
            },
            ParserState::InAref(mut a) => {
                a.cell_name = n;
                ParserState::InAref(a)
            },
            other => other,
        }
    }

    fn with_grid(self, cols: u16, rows: u16) -> (r: ParserState)
        ensures
            r.view() == set_grid(self.view(), cols, rows),
    {
        match self {
            ParserState::InAref(mut a) => {
                a.cols = cols;
                a.rows = rows;
                ParserState::InAref(a)
            },
            other => other,
        }
    }

    fn with_mirror(self, m: bool) -> (r: ParserState)
        ensures
            r.view() == set_mirror(self.view(), m),
    {
        match self {
            ParserState::InSref(mut r) => {
                r.mirror_x = m;
                ParserState::InSref(r)
            },
            ParserState::InAref(mut a) => {
                a.mirror_x = m;
                ParserState::InAref(a)
            },
            ParserState::InShape(
                Shape::Text { layer, texttype, position, string, rotation_deg, magnification, .. },
            ) => ParserState::InShape(
                Shape::Text { layer, texttype, position, string, rotation_deg, magnification, mirror_x: m },
            ),
            other => other,
        }
    }

    fn with_magnification(self, m: u64) -> (r: ParserState)
        ensures
            r.view() == set_magnification(self.view(), m),
    {
        match self {
            ParserState::InSref(mut r) => {
                r.magnification = m;
                ParserState::InSref(r)
            },
            ParserState::InAref(mut a) => {
                a.magnification = m;
                ParserState::InAref(a)
            },
            ParserState::InShape(
                Shape::Text { layer, texttype, position, string, rotation_deg, mirror_x, .. },
            ) => ParserState::InShape(
                Shape::Text { layer, texttype, position, string, rotation_deg, magnification: m, mirror_x },
            ),
            other => other,
        }
    }

    fn with_rotation(self, m: u64) -> (r: ParserState)
        ensures
            r.view() == set_rotation(self.view(), m),
    {
        match self {
            ParserState::InSref(mut r) => {
                r.rotation_deg = m;
                ParserState::InSref(r)
            },
            ParserState::InAref(mut a) => {
                a.rotation_deg = m;
                ParserState::InAref(a)
            },
            ParserState::InShape(
                Shape::Text { layer, texttype, position, string, magnification, mirror_x, .. },
            ) => ParserState::InShape(
                Shape::Text { layer, texttype, position, string, rotation_deg: m, magnification, mirror_x },
            ),
            other => other,
        }
    }

    fn with_string(self, t: String) -> (r: ParserState)
        ensures
            r.view() == set_string(self.view(), t@),
    {
        match self {
            ParserState::InShape(
                Shape::Text { layer, texttype, position, rotation_deg, magnification, mirror_x, .. },
            ) => ParserState::InShape(
                Shape::Text { layer, texttype, position, string: t, rotation_deg, magnification, mirror_x },
            ),
            other => other,
        }
    }
}

spec fn cell_view(c: Option<Cell>) -> Option<CellView> {
    match c {
        Some(c) => Some(c@),
        None => None,
    }
}

/// Adds the element being read to the cell being read.
fn finish_element(cell: Option<Cell>, state: ParserState) -> (r: Option<Cell>)
    ensures
        cell_view(r) == close_element(cell_view(cell), state.view()),
{
    match cell {
        Some(mut c) => {
            let ghost old_c = c@;
            match state {
                ParserState::InShape(sh) => {
                    c.shapes.push(sh);
                    assert(c@.shapes =~= old_c.shapes.push(sh@));
                },
                ParserState::InSref(r) => {
                    c.srefs.push(r);
                    assert(c@.srefs =~= old_c.srefs.push(r@));
                },
                ParserState::InAref(a) => {
                    c.arefs.push(a);
                    assert(c@.arefs =~= old_c.arefs.push(a@));
                },
                _ => {},
            }
            Some(c)
        },
        None => None,
    }
}

struct Machine {
    layout: Layout,
    cell: Option<Cell>,
    state: ParserState,
}

impl Machine {
    spec fn view(&self) -> ParseView {
        ParseView { layout: self.layout@, cell: cell_view(self.cell), state: self.state.view() }
    }
}

enum Signal {
    Continue(Machine),
    Finish(Machine),
    Fail(GdsError),
    Halt,
}

spec fn signal_is(r: Signal, s: Step) -> bool {
    match (r, s) {
        (Signal::Continue(m), Step::Continue(q)) => m.view() == q && m.layout.wf(),
        (Signal::Finish(m), Step::Finish(q)) => m.view() == q && m.layout.wf(),
        (Signal::Fail(e), Step::Fail(f)) => e == f,
        (Signal::Halt, Step::Halt) => true,
        _ => false,
    }
}

fn continue_with(layout: Layout, cell: Option<Cell>, state: ParserState) -> (r: Signal)
    ensures
        r == Signal::Continue(Machine { layout, cell, state }),
{
    Signal::Continue(Machine { layout, cell, state })
}

/// Applies one record, of type `rt` and payload `d`, to the parser.
#[verifier::rlimit(50)]
fn advance(m: Machine, rec: GdsRecord, Ghost(rt): Ghost<u8>, Ghost(d): Ghost<Seq<u8>>) -> (r: Signal)
    requires
        m.layout.wf(),
        rec.classifies(rt, d),
    ensures
        signal_is(r, step(m.view(), rt, d)),
{
    let ghost p = m.view();
    let Machine { layout, cell, state } = m;
    match rec {
        GdsRecord::EndLib => Signal::Finish(Machine { layout, cell, state }),
        GdsRecord::BgnLib(_) => continue_with(layout, cell, ParserState::InLibrary),
        GdsRecord::LibName(data) => match decode_string(data.as_slice(), RT_LIBNAME) {
            Ok(t) => {
                let mut layout = layout;
                layout.set_lib_name(t);
                continue_with(layout, cell, state)
            },
            Err(e) => Signal::Fail(e),
        },
        GdsRecord::Units(data) => {
            if data.len() >= 16 {
                let u = Units {
                    user_units_per_db_unit: decode_u64_at(data.as_slice(), 0),
                    db_unit_in_meters: decode_u64_at(data.as_slice(), 8),
                };
                let mut layout = layout;
                layout.set_units(u);
                continue_with(layout, cell, state)
            } else {
                continue_with(layout, cell, state)
            }
        },
        GdsRecord::BgnStr(_) => {
            let c = Cell { name: String::new(), shapes: Vec::new(), srefs: Vec::new(), arefs: Vec::new() };
            assert(c@ =~= empty_cell());
            continue_with(layout, Some(c), ParserState::InCell)
        },
        GdsRecord::StrName(data) => match cell {
            Some(mut c) => match decode_string(data.as_slice(), RT_STRNAME) {
                Ok(t) => {
                    c.name = t;
                    continue_with(layout, Some(c), state)
                },
                Err(e) => Signal::Fail(e),
            },
            None => continue_with(layout, None, state),
        },
        GdsRecord::EndStr => match cell {
            Some(c) => {
                let mut layout = layout;
                layout.insert_cell(c);
                continue_with(layout, None, ParserState::InLibrary)
            },
            None => continue_with(layout, None, ParserState::InLibrary),
        },
        GdsRecord::Boundary => {
            let sh = Shape::Polygon { layer: 0, datatype: 0, points: Vec::new() };
            assert(sh@ =~= new_polygon());
            continue_with(layout, cell, ParserState::InShape(sh))
        },
        GdsRecord::Path => {
            let sh = Shape::Path { layer: 0, datatype: 0, points: Vec::new(), width: 0, path_type: 0 };
            assert(sh@ =~= new_path());
            continue_with(layout, cell, ParserState::InShape(sh))
        },
        GdsRecord::Sref => {
            let r = SrefInstance {
                cell_name: String::new(),
                position: Point { x: 0, y: 0 },
                rotation_deg: REAL8_ZERO,
                magnification: REAL8_ONE,
                mirror_x: false,
            };
            assert(r@ =~= new_sref());
            continue_with(layout, cell, ParserState::InSref(r))
        },
        GdsRecord::Aref => {
            let a = ArefInstance {
                cell_name: String::new(),
                origin: Point { x: 0, y: 0 },
                rotation_deg: REAL8_ZERO,
                magnification: REAL8_ONE,
                mirror_x: false,
                cols: 1,
                rows: 1,
                col_vector: Offset { dx: 0, dy: 0 },
                row_vector: Offset { dx: 0, dy: 0 },
            };
            assert(a@ =~= new_aref());
            continue_with(layout, cell, ParserState::InAref(a))
        },
        GdsRecord::Text => {
            let sh = Shape::Text {
                layer: 0,
                texttype: 0,
                position: Point { x: 0, y: 0 },
                string: String::new(),
                rotation_deg: REAL8_ZERO,
                magnification: REAL8_ONE,
                mirror_x: false,
            };
            assert(sh@ =~= new_text());
            continue_with(layout, cell, ParserState::InShape(sh))
        },
        GdsRecord::Layer(data) => {
            if data.len() < 2 {
                Signal::Halt
            } else {
                let v = #[verifier::truncate] (decode_i16(data.as_slice()) as u16);
                continue_with(layout, cell, state.with_layer(v))
            }
        },
        GdsRecord::DataType(data) => {
            if data.len() < 2 {
                Signal::Halt
            } else {
                let v = #[verifier::truncate] (decode_i16(data.as_slice()) as u16);
                continue_with(layout, cell, state.with_datatype(v))
            }
        },
        GdsRecord::TextType(data) => {
            if !state.is_text() {
                continue_with(layout, cell, state)
            } else if data.len() < 2 {
                Signal::Halt
            } else {
                let v = #[verifier::truncate] (decode_i16(data.as_slice()) as u16);
                continue_with(layout, cell, state.with_texttype(v))
            }
        },
        GdsRecord::Width(data) => {
            if !state.is_path() {
                continue_with(layout, cell, state)
            } else if data.len() < 4 {
                Signal::Halt
            } else {
                let v = decode_i32(data.as_slice());
                continue_with(layout, cell, state.with_width(v))
            }
        },
        GdsRecord::PathType(data) => {
            if !state.is_path() {
                continue_with(layout, cell, state)
            } else if data.len() < 2 {
                Signal::Halt
            } else {
                let v = decode_i16(data.as_slice());
                let clamped: i16 = if v < 0 { 0 } else { v };
                continue_with(layout, cell, state.with_path_type(#[verifier::truncate] (clamped as u8)))
            }
        },
        GdsRecord::XY(data) => {
            let pts = decode_xy(data.as_slice());
            continue_with(layout, cell, state.with_points(pts))
        },
        GdsRecord::SName(data) => match decode_string(data.as_slice(), RT_SNAME) {
            Ok(n) => continue_with(layout, cell, state.with_ref_name(n)),
            Err(e) => Signal::Fail(e),
        },
        GdsRecord::ColRow(data) => {
            if data.len() >= 4 {
                let c = decode_u16(&data.as_slice()[0..2]);
                let r = decode_u16(&data.as_slice()[2..4]);
                let cols = if c < 1 { 1 } else { c };
                let rows = if r < 1 { 1 } else { r };
                continue_with(layout, cell, state.with_grid(cols, rows))
            } else {
                continue_with(layout, cell, state)
            }
        },
        GdsRecord::STrans(data) => {
            let mirror = decode_strans_mirror(data.as_slice());
            continue_with(layout, cell, state.with_mirror(mirror))
        },
        GdsRecord::Mag(data) => {
            if data.len() >= 8 {
                let mag = decode_u64_at(data.as_slice(), 0);
                continue_with(layout, cell, state.with_magnification(mag))
            } else {
                continue_with(layout, cell, state)
            }
        },
        GdsRecord::Angle(data) => {
            if data.len() >= 8 {
                let angle = decode_u64_at(data.as_slice(), 0);
                continue_with(layout, cell, state.with_rotation(angle))
            } else {
                continue_with(layout, cell, state)
            }
        },
        GdsRecord::String(data) => {
            if !state.is_text() {
                continue_with(layout, cell, state)
            } else {
                match decode_string(data.as_slice(), RT_STRING) {
                    Ok(t) => continue_with(layout, cell, state.with_string(t)),
                    Err(e) => Signal::Fail(e),
                }
            }
        },
        GdsRecord::EndEl => {
            let c = finish_element(cell, state);
            continue_with(layout, c, ParserState::InCell)
        },
        _ => continue_with(layout, cell, state),
    }
}

/// The outcome of parsing the records of `data` from `pos` on.
pub open spec fn parse_outcome(data: Seq<u8>, pos: int) -> Outcome {
    run(data, pos, initial_parse())
}

/// A parser over the records of a reader.
pub struct GdsParser {
    reader: GdsReader,
}

impl GdsParser {
    /// The bytes that the parser reads, and where it starts.
    pub closed spec fn source(&self) -> (Seq<u8>, int) {
        (self.reader.bytes(), self.reader.position())
    }

    pub fn new(reader: GdsReader) -> (p: GdsParser)
        ensures
            p.source() == (reader.bytes(), reader.position()),
    {
        GdsParser { reader }
    }

    /// Parses the stream up to ENDLIB. `None` where a record is too short
    /// for the value the parser reads from it: a LAYER or DATATYPE record,
    /// a TEXTTYPE record inside a text, or a WIDTH or PATHTYPE record inside
    /// a path.
    pub fn parse_checked(self) -> (r: Option<Result<Layout, GdsError>>)
        ensures
            match r {
                None => parse_outcome(self.source().0, self.source().1) is Halted,
                Some(Ok(l)) => parse_outcome(self.source().0, self.source().1) matches Outcome::Parsed(p)
                    && l.wf() && l@ == finished_layout(p),
                Some(Err(e)) => parse_outcome(self.source().0, self.source().1) == Outcome::Failed(e),
            },
    {
        let ghost src = self.source();
        let ghost data = self.source().0;
        let ghost start = self.source().1;
        let mut reader = self.reader;
        let layout = Layout::new("");
        proof {
            reveal_strlit("");
        }
        let mut m = Machine { layout, cell: None, state: ParserState::Start };
        assert(m.view() =~= initial_parse());
        loop
            invariant
                src == (data, start),
                self.source() == src,
                m.layout.wf(),
                reader.bytes() == data,
                run(data, reader.position(), m.view()) == parse_outcome(data, start),
            decreases data.len() - reader.position(),
        {
            let ghost pos = reader.position();
            let ghost mv = m.view();
            let rec = match reader.read_record() {
                Ok(rec) => rec,
                Err(e) => {
                    assert(run(data, pos, mv) == Outcome::Failed(e));
                    return Some(Err(e));
                },
            };
            let ghost rt = record_at(data, pos)->Ok_0.0;
            let ghost d = record_at(data, pos)->Ok_0.1;
            proof {
                lemma_record_at_advances(data, pos);
            }
            match advance(m, rec, Ghost(rt), Ghost(d)) {
                Signal::Continue(next) => {
                    m = next;
                },
                Signal::Finish(done) => {
                    assert(run(data, pos, mv) == Outcome::Parsed(done.view()));
                    let mut layout = done.layout;
                    layout.find_top_cell();
                    return Some(Ok(layout));
                },
                Signal::Fail(e) => {
                    assert(run(data, pos, mv) == Outcome::Failed(e));
                    return Some(Err(e));
                },
                Signal::Halt => {
                    assert(run(data, pos, mv) == Outcome::Halted);
                    return None;
                },
            }
        }
    }

    /// Parses the stream up to ENDLIB into a layout whose top cell is found.
    pub fn parse(self) -> (r: Result<Layout, GdsError>)
        requires
            !(parse_outcome(self.source().0, self.source().1) is Halted),
        ensures
            match (r, parse_outcome(self.source().0, self.source().1)) {
                (Ok(l), Outcome::Parsed(p)) => l.wf() && l@ == finished_layout(p),
                (Err(e), Outcome::Failed(f)) => e == f,
                _ => false,
            },
    {
        match self.parse_checked() {
            Some(r) => r,
            None => {
                proof {
                    assert(false);
                }
                Err(GdsError::UnexpectedEof)
            },
        }
    }
}

} // verus!
