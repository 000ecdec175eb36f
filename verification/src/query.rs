//! The answer to a viewport query and its binary encoding.
//!
//! Coordinates, transforms and sizes in the answer are 64-bit floats; here
//! each is held as its bit pattern, which the encoding writes little-endian.
use vstd::prelude::*;
use vstd::utf8::encode_utf8;

verus! {

/// How much detail an answer carries; `Cell` < `Block` < `Shape`.
#[derive(Debug, Clone, Copy, PartialEq, Eq)]
pub enum LodLevel {
    Cell,
    Block,
    Shape,
}

impl LodLevel {
    pub open spec fn rank(self) -> u8 {
        match self {
            LodLevel::Cell => 0,
            LodLevel::Block => 1,
            LodLevel::Shape => 2,
        }
    }

    /// The code of the level in the encoding.
    pub fn code(self) -> (c: u8)
        ensures
            c == self.rank(),
    {
        match self {
            LodLevel::Cell => 0,
            LodLevel::Block => 1,
            LodLevel::Shape => 2,
        }
    }

    /// Whether `self` carries less detail than `other`.
    pub fn is_below(self, other: LodLevel) -> (b: bool)
        ensures
            b == (self.rank() < other.rank()),
    {
        self.code() < other.code()
    }
}

/// The layer on which outlines of cells too small to draw are reported.
pub const OUTLINE_LAYER: u16 = 999;

/// A layer is shown when no layer is selected, when it is selected, or when
/// it is the outline layer.
pub open spec fn layer_shown(visible: Seq<u16>, layer: u16) -> bool {
    visible.len() == 0 || visible.contains(layer) || layer == OUTLINE_LAYER
}

/// Whether `layer` is shown under the selection `visible`.
pub fn is_layer_shown(visible: &[u16], layer: u16) -> (b: bool)
    ensures
        b == layer_shown(visible@, layer),
{
    if visible.len() == 0 || layer == OUTLINE_LAYER {
        return true;
    }
    let mut i: usize = 0;
    while i < visible.len()
        invariant
            i <= visible@.len(),
            forall|j: int| 0 <= j < i ==> visible@[j] != layer,
        decreases visible@.len() - i,
    {
        if visible[i] == layer {
            assert(visible@.contains(layer));
            return true;
        }
        i = i + 1;
    }
    false
}

/// The positions, in order, of the shapes (given by their layers) that are
/// shown; a shape's position in the list it came in is its id.
pub open spec fn shown_ids(layers: Seq<u16>, visible: Seq<u16>) -> Seq<u64>
    decreases layers.len(),
{
    if layers.len() == 0 {
        Seq::empty()
    } else {
        let rest = shown_ids(layers.drop_last(), visible);
        if layer_shown(visible, layers.last()) {
            rest.push((layers.len() - 1) as u64)
        } else {
            rest
        }
    }
}

/// The ids of the shapes, given by their layers, that are shown.
pub fn visible_shape_ids(layers: &[u16], visible: &[u16]) -> (ids: Vec<u64>)
    ensures
        ids@ == shown_ids(layers@, visible@),
{
    let mut ids: Vec<u64> = Vec::new();
    let mut i: usize = 0;
    while i < layers.len()
        invariant
            i <= layers@.len(),
            ids@ == shown_ids(layers@.take(i as int), visible@),
        decreases layers@.len() - i,
    {
        proof {
            let t = layers@.take(i + 1);
            assert(t.drop_last() =~= layers@.take(i as int));
            assert(t.last() == layers@[i as int]);
        }
        if is_layer_shown(visible, layers[i]) {
            ids.push(i as u64);
        }
        i = i + 1;
    }
    assert(layers@.take(i as int) =~= layers@);
    ids
}

/// Two 64-bit floats, by their bit patterns.
#[derive(Debug, Clone, Copy, PartialEq, Eq)]
pub struct PointBits {
    pub x: u64,
    pub y: u64,
}

/// A shape of the answer, with its id.
#[derive(Debug)]
pub enum ShapeDto {
    Polygon { id: u64, layer: u16, datatype: u16, points: Vec<PointBits> },
    Path { id: u64, layer: u16, datatype: u16, points: Vec<PointBits>, width: u64, path_type: u8 },
    Text {
        id: u64,
        layer: u16,
        texttype: u16,
        position: PointBits,
        string: String,
        rotation_deg: u64,
        magnification: u64,
        mirror_x: bool,
    },
}

#[verifier::ext_equal]
pub enum ShapeDtoView {
    Polygon { id: u64, layer: u16, datatype: u16, points: Seq<PointBits> },
    Path { id: u64, layer: u16, datatype: u16, points: Seq<PointBits>, width: u64, path_type: u8 },
    Text {
        id: u64,
        layer: u16,
        texttype: u16,
        position: PointBits,
        string: Seq<char>,
        rotation_deg: u64,
        magnification: u64,
        mirror_x: bool,
    },
}

impl View for ShapeDto {
    type V = ShapeDtoView;

    open spec fn view(&self) -> ShapeDtoView {
        match *self {
            ShapeDto::Polygon { id, layer, datatype, points } => ShapeDtoView::Polygon {
                id,
                layer,
                datatype,
                points: points@,
            },
            ShapeDto::Path { id, layer, datatype, points, width, path_type } => ShapeDtoView::Path {
                id,
                layer,
                datatype,
                points: points@,
                width,
                path_type,
            },
            ShapeDto::Text {
                id,
                layer,
                texttype,
                position,
                string,
                rotation_deg,
                magnification,
                mirror_x,
            } => ShapeDtoView::Text {
                id,
                layer,
                texttype,
                position,
                string: string@,
                rotation_deg,
                magnification,
                mirror_x,
            },
        }
    }
}

impl ShapeDtoView {
    pub open spec fn id(self) -> u64 {
        match self {
            ShapeDtoView::Polygon { id, .. } => id,
            ShapeDtoView::Path { id, .. } => id,
            ShapeDtoView::Text { id, .. } => id,
        }
    }
}

impl ShapeDto {
    pub fn id(&self) -> (i: u64)
        ensures
            i == self@.id(),
    {
        match self {
            ShapeDto::Polygon { id, .. } => *id,
            ShapeDto::Path { id, .. } => *id,
            ShapeDto::Text { id, .. } => *id,
        }
    }

    fn is_text(&self) -> (b: bool)
        ensures
            b == self@ is Text,
    {
        match self {
            ShapeDto::Text { .. } => true,
            _ => false,
        }
    }
}

/// A placement of a cell: its transform `[m11, m12, tx, m21, m22, ty]`,
/// the size of its array and the spacing of columns and rows.
#[derive(Debug)]
pub struct InstanceDto {
    pub cell_name: String,
    pub transform: [u64; 6],
    pub cols: u16,
    pub rows: u16,
    pub col_vector: PointBits,
    pub row_vector: PointBits,
}

#[verifier::ext_equal]
pub struct InstanceDtoView {
    pub cell_name: Seq<char>,
    pub transform: Seq<u64>,
    pub cols: u16,
    pub rows: u16,
    pub col_vector: PointBits,
    pub row_vector: PointBits,
}

impl View for InstanceDto {
    type V = InstanceDtoView;

    open spec fn view(&self) -> InstanceDtoView {
        InstanceDtoView {
            cell_name: self.cell_name@,
            transform: self.transform@,
            cols: self.cols,
            rows: self.rows,
            col_vector: self.col_vector,
            row_vector: self.row_vector,
        }
    }
}

/// The definition of a cell that the client lacks: its bounding box
/// `[x1, y1, x2, y2]`, its shapes and its placements.
#[derive(Debug)]
pub struct CellDefinitionDto {
    pub bbox: [u64; 4],
    pub shapes: Vec<ShapeDto>,
    pub instances: Vec<InstanceDto>,
}

/// A cell definition with the name of its cell.
#[derive(Debug)]
pub struct CellDefinitionEntry {
    pub name: String,
    pub definition: CellDefinitionDto,
}

#[verifier::ext_equal]
pub struct DefinitionView {
    pub name: Seq<char>,
    pub bbox: Seq<u64>,
    pub shapes: Seq<ShapeDtoView>,
    pub instances: Seq<InstanceDtoView>,
}

impl View for CellDefinitionEntry {
    type V = DefinitionView;

    open spec fn view(&self) -> DefinitionView {
        DefinitionView {
            name: self.name@,
            bbox: self.definition.bbox@,
            shapes: self.definition.shapes@.map_values(|s: ShapeDto| s@),
            instances: self.definition.instances@.map_values(|i: InstanceDto| i@),
        }
    }
}

/// The answer to a viewport query.
#[derive(Debug)]
pub struct ViewportResponse {
    pub shapes: Vec<ShapeDto>,
    pub instances: Vec<InstanceDto>,
    pub cell_definitions: Vec<CellDefinitionEntry>,
    pub lod_level: LodLevel,
}

#[verifier::ext_equal]
pub struct ResponseView {
    pub shapes: Seq<ShapeDtoView>,
    pub instances: Seq<InstanceDtoView>,
    pub cell_definitions: Seq<DefinitionView>,
    pub lod_level: LodLevel,
}

impl View for ViewportResponse {
    type V = ResponseView;

    open spec fn view(&self) -> ResponseView {
        ResponseView {
            shapes: self.shapes@.map_values(|s: ShapeDto| s@),
            instances: self.instances@.map_values(|i: InstanceDto| i@),
            cell_definitions: self.cell_definitions@.map_values(|d: CellDefinitionEntry| d@),
            lod_level: self.lod_level,
        }
    }
}

// ---------------------------------------------------------------------------
// The encoding

pub open spec fn le16(v: u16) -> Seq<u8> {
    seq![(v % 0x100) as u8, (v / 0x100) as u8]
}

pub open spec fn le32(v: u32) -> Seq<u8> {
    seq![
        (v % 0x100) as u8,
        ((v / 0x100) % 0x100) as u8,
        ((v / 0x1_0000) % 0x100) as u8,
        (v / 0x100_0000) as u8,
    ]
}

pub open spec fn le64(v: u64) -> Seq<u8> {
    le32((v % 0x1_0000_0000) as u32) + le32((v / 0x1_0000_0000) as u32)
}

/// A count or length as the encoding writes it: the low 32 bits.
pub open spec fn le_count(n: int) -> Seq<u8> {
    le32(n as u32)
}

/// The UTF-8 bytes of a name, after their length.
pub open spec fn name_bytes(s: Seq<char>) -> Seq<u8> {
    le_count(encode_utf8(s).len() as int) + encode_utf8(s)
}

pub open spec fn point_bytes(p: PointBits) -> Seq<u8> {
    le64(p.x) + le64(p.y)
}

pub open spec fn points_bytes(pts: Seq<PointBits>) -> Seq<u8>
    decreases pts.len(),
{
    if pts.len() == 0 { Seq::empty() } else { points_bytes(pts.drop_last()) + point_bytes(pts.last()) }
}

pub open spec fn words_bytes(ws: Seq<u64>) -> Seq<u8>
    decreases ws.len(),
{
    if ws.len() == 0 { Seq::empty() } else { words_bytes(ws.drop_last()) + le64(ws.last()) }
}

/// A polygon is tag 0, layer, datatype and points; a path is tag 1, layer,
/// datatype, width, path type and points; a text is left out.
pub open spec fn shape_bytes(s: ShapeDtoView) -> Seq<u8> {
    match s {
        ShapeDtoView::Polygon { layer, datatype, points, .. } => seq![0u8] + le16(layer) + le16(datatype)
            + le_count(points.len() as int) + points_bytes(points),
        ShapeDtoView::Path { layer, datatype, points, width, path_type, .. } => seq![1u8] + le16(layer)
            + le16(datatype) + le64(width) + seq![path_type] + le_count(points.len() as int) + points_bytes(
            points,
        ),
        ShapeDtoView::Text { .. } => Seq::empty(),
    }
}

/// The shapes that the encoding carries: all but texts.
pub open spec fn drawn(shapes: Seq<ShapeDtoView>) -> Seq<ShapeDtoView>
    decreases shapes.len(),
{
    if shapes.len() == 0 {
        Seq::empty()
    } else if shapes.last() is Text {
        drawn(shapes.drop_last())
    } else {
        drawn(shapes.drop_last()).push(shapes.last())
    }
}

pub open spec fn shape_list_bytes(shapes: Seq<ShapeDtoView>) -> Seq<u8>
    decreases shapes.len(),
{
    if shapes.len() == 0 {
        Seq::empty()
    } else {
        shape_list_bytes(shapes.drop_last()) + shape_bytes(shapes.last())
    }
}

/// The count of the drawn shapes, then each of them.
pub open spec fn shapes_bytes(shapes: Seq<ShapeDtoView>) -> Seq<u8> {
    le_count(drawn(shapes).len() as int) + shape_list_bytes(drawn(shapes))
}

pub open spec fn instance_bytes(i: InstanceDtoView) -> Seq<u8> {
    name_bytes(i.cell_name) + words_bytes(i.transform) + le16(i.cols) + le16(i.rows) + point_bytes(
        i.col_vector,
    ) + point_bytes(i.row_vector)
}

pub open spec fn instance_list_bytes(insts: Seq<InstanceDtoView>) -> Seq<u8>
    decreases insts.len(),
{
    if insts.len() == 0 {
        Seq::empty()
    } else {
        instance_list_bytes(insts.drop_last()) + instance_bytes(insts.last())
    }
}

pub open spec fn instances_bytes(insts: Seq<InstanceDtoView>) -> Seq<u8> {
    le_count(insts.len() as int) + instance_list_bytes(insts)
}

pub open spec fn definition_bytes(d: DefinitionView) -> Seq<u8> {
    name_bytes(d.name) + words_bytes(d.bbox) + shapes_bytes(d.shapes) + instances_bytes(d.instances)
}

pub open spec fn definition_list_bytes(defs: Seq<DefinitionView>) -> Seq<u8>
    decreases defs.len(),
{
    if defs.len() == 0 {
        Seq::empty()
    } else {
        definition_list_bytes(defs.drop_last()) + definition_bytes(defs.last())
    }
}

/// The encoding of an answer: the level of detail, the shapes, the
/// placements, then the count of cell definitions and each of them.
pub open spec fn response_bytes(r: ResponseView) -> Seq<u8> {
    seq![r.lod_level.rank()] + shapes_bytes(r.shapes) + instances_bytes(r.instances) + le_count(
        r.cell_definitions.len() as int,
    ) + definition_list_bytes(r.cell_definitions)
}

fn push_le16(buf: &mut Vec<u8>, v: u16)
    ensures
        final(buf)@ == old(buf)@ + le16(v),
{
    buf.push((v % 0x100) as u8);
    buf.push((v / 0x100) as u8);
    assert(buf@ =~= old(buf)@ + le16(v));
}

fn push_le32(buf: &mut Vec<u8>, v: u32)
    ensures
        final(buf)@ == old(buf)@ + le32(v),
{
    buf.push((v % 0x100) as u8);
    buf.push(((v / 0x100) % 0x100) as u8);
    buf.push(((v / 0x1_0000) % 0x100) as u8);
    buf.push((v / 0x100_0000) as u8);
    assert(buf@ =~= old(buf)@ + le32(v));
}

fn push_le64(buf: &mut Vec<u8>, v: u64)
    ensures
        final(buf)@ == old(buf)@ + le64(v),
{
    push_le32(buf, (v % 0x1_0000_0000) as u32);
    push_le32(buf, (v / 0x1_0000_0000) as u32);
    assert(buf@ =~= old(buf)@ + le64(v));
}

fn push_count(buf: &mut Vec<u8>, n: usize)
    ensures
        final(buf)@ == old(buf)@ + le_count(n as int),
{
    push_le32(buf, #[verifier::truncate] (n as u32));
}

fn push_point(buf: &mut Vec<u8>, p: PointBits)
    ensures
        final(buf)@ == old(buf)@ + point_bytes(p),
{
    push_le64(buf, p.x);
    push_le64(buf, p.y);
    assert(buf@ =~= old(buf)@ + point_bytes(p));
}

fn push_name(buf: &mut Vec<u8>, name: &String)
    ensures
        final(buf)@ == old(buf)@ + name_bytes(name@),
{
    let bytes = name.as_str().as_bytes();
    push_count(buf, bytes.len());
    buf.extend_from_slice(bytes);
    assert(buf@ =~= old(buf)@ + name_bytes(name@));
}

fn push_points(buf: &mut Vec<u8>, pts: &Vec<PointBits>)
    ensures
        final(buf)@ == old(buf)@ + points_bytes(pts@),
{
    let ghost start = buf@;
    let mut i: usize = 0;
    while i < pts.len()
        invariant
            i <= pts@.len(),
            buf@ == start + points_bytes(pts@.take(i as int)),
        decreases pts@.len() - i,
    {
        proof {
            let t = pts@.take(i + 1);
            assert(t.drop_last() =~= pts@.take(i as int));
            assert(t.last() == pts@[i as int]);
        }
        push_point(buf, pts[i]);
        i = i + 1;
        assert(buf@ =~= start + points_bytes(pts@.take(i as int)));
    }
    assert(pts@.take(i as int) =~= pts@);
}

fn push_words(buf: &mut Vec<u8>, ws: &[u64])
    ensures
        final(buf)@ == old(buf)@ + words_bytes(ws@),
{
    let ghost start = buf@;
    let mut i: usize = 0;
    while i < ws.len()
        invariant
            i <= ws@.len(),
            buf@ == start + words_bytes(ws@.take(i as int)),
        decreases ws@.len() - i,
    {
        proof {
            let t = ws@.take(i + 1);
            assert(t.drop_last() =~= ws@.take(i as int));
            assert(t.last() == ws@[i as int]);
        }
        push_le64(buf, ws[i]);
        i = i + 1;
        assert(buf@ =~= start + words_bytes(ws@.take(i as int)));
    }
    assert(ws@.take(i as int) =~= ws@);
}

fn push_shape(buf: &mut Vec<u8>, shape: &ShapeDto)
    ensures
        final(buf)@ == old(buf)@ + shape_bytes(shape@),
{
    match shape {
        ShapeDto::Polygon { layer, datatype, points, .. } => {
            buf.push(0u8);
            push_le16(buf, *layer);
            push_le16(buf, *datatype);
            push_count(buf, points.len());
            push_points(buf, points);
        },
        ShapeDto::Path { layer, datatype, points, width, path_type, .. } => {
            buf.push(1u8);
            push_le16(buf, *layer);
            push_le16(buf, *datatype);
            push_le64(buf, *width);
            buf.push(*path_type);
            push_count(buf, points.len());
            push_points(buf, points);
        },
        ShapeDto::Text { .. } => {},
    }
    assert(buf@ =~= old(buf)@ + shape_bytes(shape@));
}

/// Writes the count of the drawn shapes, then each of them.
fn push_shapes(buf: &mut Vec<u8>, shapes: &Vec<ShapeDto>)
    ensures
        final(buf)@ == old(buf)@ + shapes_bytes(shapes@.map_values(|s: ShapeDto| s@)),
{
    let ghost sv = shapes@.map_values(|s: ShapeDto| s@);
    let mut count: usize = 0;
    let mut i: usize = 0;
    while i < shapes.len()
        invariant
            i <= shapes@.len(),
            sv == shapes@.map_values(|s: ShapeDto| s@),
            count == drawn(sv.take(i as int)).len(),
            count <= i,
        decreases shapes@.len() - i,
    {
        proof {
            let t = sv.take(i + 1);
            assert(t.drop_last() =~= sv.take(i as int));
            assert(t.last() == shapes@[i as int]@);
        }
        if !shapes[i].is_text() {
            count = count + 1;
        }
        i = i + 1;
    }
    assert(sv.take(i as int) =~= sv);
    push_count(buf, count);
    let ghost start = buf@;
    let mut i: usize = 0;
    while i < shapes.len()
        invariant
            i <= shapes@.len(),
            sv == shapes@.map_values(|s: ShapeDto| s@),
            buf@ == start + shape_list_bytes(drawn(sv.take(i as int))),
        decreases shapes@.len() - i,
    {
        proof {
            let t = sv.take(i + 1);
            assert(t.drop_last() =~= sv.take(i as int));
            assert(t.last() == shapes@[i as int]@);
        }
        if !shapes[i].is_text() {
            push_shape(buf, &shapes[i]);
            proof {
                let d = drawn(sv.take(i as int));
                assert(d.push(sv[i as int]).drop_last() =~= d);
            }
        }
        i = i + 1;
        assert(buf@ =~= start + shape_list_bytes(drawn(sv.take(i as int))));
    }
    assert(sv.take(i as int) =~= sv);
    assert(buf@ =~= old(buf)@ + shapes_bytes(sv));
}

fn push_instance(buf: &mut Vec<u8>, inst: &InstanceDto)
    ensures
        final(buf)@ == old(buf)@ + instance_bytes(inst@),
{
    push_name(buf, &inst.cell_name);
    push_words(buf, inst.transform.as_slice());
    push_le16(buf, inst.cols);
    push_le16(buf, inst.rows);
    push_point(buf, inst.col_vector);
    push_point(buf, inst.row_vector);
    assert(buf@ =~= old(buf)@ + instance_bytes(inst@));
}

/// Writes the count of the placements, then each of them.
fn push_instances(buf: &mut Vec<u8>, insts: &Vec<InstanceDto>)
    ensures
        final(buf)@ == old(buf)@ + instances_bytes(insts@.map_values(|i: InstanceDto| i@)),
{
    let ghost iv = insts@.map_values(|i: InstanceDto| i@);
    push_count(buf, insts.len());
    let ghost start = buf@;
    let mut i: usize = 0;
    while i < insts.len()
        invariant
            i <= insts@.len(),
            iv == insts@.map_values(|i: InstanceDto| i@),
            buf@ == start + instance_list_bytes(iv.take(i as int)),
        decreases insts@.len() - i,
    {
        proof {
            let t = iv.take(i + 1);
            assert(t.drop_last() =~= iv.take(i as int));
            assert(t.last() == insts@[i as int]@);
        }
        push_instance(buf, &insts[i]);
        i = i + 1;
        assert(buf@ =~= start + instance_list_bytes(iv.take(i as int)));
    }
    assert(iv.take(i as int) =~= iv);
    assert(buf@ =~= old(buf)@ + instances_bytes(iv));
}

fn push_definition(buf: &mut Vec<u8>, d: &CellDefinitionEntry)
    ensures
        final(buf)@ == old(buf)@ + definition_bytes(d@),
{
    push_name(buf, &d.name);
    push_words(buf, d.definition.bbox.as_slice());
    push_shapes(buf, &d.definition.shapes);
    push_instances(buf, &d.definition.instances);
    assert(buf@ =~= old(buf)@ + definition_bytes(d@));
}

impl ViewportResponse {
    /// The binary encoding of the answer.
    pub fn to_binary(&self) -> (buf: Vec<u8>)
        ensures
            buf@ == response_bytes(self@),
    {
        let mut buf: Vec<u8> = Vec::new();
        buf.push(self.lod_level.code());
        push_shapes(&mut buf, &self.shapes);
        push_instances(&mut buf, &self.instances);
        push_count(&mut buf, self.cell_definitions.len());
        let ghost dv = self@.cell_definitions;
        let ghost start = buf@;
        let mut i: usize = 0;
        while i < self.cell_definitions.len()
            invariant
                i <= self.cell_definitions@.len(),
                dv == self.cell_definitions@.map_values(|d: CellDefinitionEntry| d@),
                buf@ == start + definition_list_bytes(dv.take(i as int)),
            decreases self.cell_definitions@.len() - i,
        {
            proof {
                let t = dv.take(i + 1);
                assert(t.drop_last() =~= dv.take(i as int));
                assert(t.last() == self.cell_definitions@[i as int]@);
            }
            push_definition(&mut buf, &self.cell_definitions[i]);
            i = i + 1;
            assert(buf@ =~= start + definition_list_bytes(dv.take(i as int)));
        }
        assert(dv.take(i as int) =~= dv);
        assert(buf@ =~= response_bytes(self@));
        buf
    }
}

} // verus!
