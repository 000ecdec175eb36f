//! The layout database: shapes, placements of cells in other cells, cells,
//! layers, and the layout that holds them.
use vstd::prelude::*;
use crate::text::{decimal, push_decimal};
use crate::order::{lemma_text_less_total, lemma_text_less_transitive, str_less, text_less};

verus! {

/// The IBM 8-byte encoding of 1.0, the default magnification.
pub const REAL8_ONE: u64 = 0x4110_0000_0000_0000;
/// The IBM 8-byte encoding of 0.0, the default angle.
pub const REAL8_ZERO: u64 = 0;

/// A point in database units.
#[derive(Debug, Clone, Copy, PartialEq, Eq)]
pub struct Point {
    pub x: i32,
    pub y: i32,
}

/// A drawn element of a cell. Coordinates are database units; angle and
/// magnification are IBM 8-byte reals kept as their bit pattern.
#[derive(Debug, Clone, PartialEq)]
pub enum Shape {
    Polygon { layer: u16, datatype: u16, points: Vec<Point> },
    Path { layer: u16, datatype: u16, points: Vec<Point>, width: i32, path_type: u8 },
    Text {
        layer: u16,
        texttype: u16,
        position: Point,
        string: String,
        rotation_deg: u64,
        magnification: u64,
        mirror_x: bool,
    },
}

#[verifier::ext_equal]
pub enum ShapeView {
    Polygon { layer: u16, datatype: u16, points: Seq<Point> },
    Path { layer: u16, datatype: u16, points: Seq<Point>, width: i32, path_type: u8 },
    Text {
        layer: u16,
        texttype: u16,
        position: Point,
        string: Seq<char>,
        rotation_deg: u64,
        magnification: u64,
        mirror_x: bool,
    },
}

impl View for Shape {
    type V = ShapeView;

    open spec fn view(&self) -> ShapeView {
        match *self {
            Shape::Polygon { layer, datatype, points } => ShapeView::Polygon {
                layer,
                datatype,
                points: points@,
            },
            Shape::Path { layer, datatype, points, width, path_type } => ShapeView::Path {
                layer,
                datatype,
                points: points@,
                width,
                path_type,
            },
            Shape::Text {
                layer,
                texttype,
                position,
                string,
                rotation_deg,
                magnification,
                mirror_x,
            } => ShapeView::Text {
                layer,
                texttype,
                position,
                string: string@,
                rotation_deg,
                magnification,
                mirror_x,
            },
        }
    }
}

impl ShapeView {
    pub open spec fn layer(self) -> u16 {
        match self {
            ShapeView::Polygon { layer, .. } => layer,
            ShapeView::Path { layer, .. } => layer,
            ShapeView::Text { layer, .. } => layer,
        }
    }

    /// The points whose bounding box is the shape's.
    pub open spec fn outline(self) -> Seq<Point> {
        match self {
            ShapeView::Polygon { points, .. } => points,
            ShapeView::Path { points, .. } => points,
            ShapeView::Text { position, .. } => seq![position],
        }
    }
}

/// An axis-aligned box, `x1 <= x2` and `y1 <= y2` where it bounds points.
#[derive(Debug, Clone, Copy, PartialEq, Eq)]
pub struct BoundingBox {
    pub x1: i32,
    pub y1: i32,
    pub x2: i32,
    pub y2: i32,
}

/// `b` is the smallest box that holds every point of `pts`: each of its
/// sides passes through a point.
pub open spec fn is_bounding_box_of(b: BoundingBox, pts: Seq<Point>) -> bool {
    &&& forall|i: int| 0 <= i < pts.len() ==> b.x1 <= #[trigger] pts[i].x <= b.x2 && b.y1 <= pts[i].y <= b.y2
    &&& exists|i: int| 0 <= i < pts.len() && #[trigger] pts[i].x == b.x1
    &&& exists|i: int| 0 <= i < pts.len() && #[trigger] pts[i].y == b.y1
    &&& exists|i: int| 0 <= i < pts.len() && #[trigger] pts[i].x == b.x2
    &&& exists|i: int| 0 <= i < pts.len() && #[trigger] pts[i].y == b.y2
}

/// The two boxes share a point; touching edges count.
pub open spec fn boxes_overlap(a: BoundingBox, b: BoundingBox) -> bool {
    a.x1 <= b.x2 && a.x2 >= b.x1 && a.y1 <= b.y2 && a.y2 >= b.y1
}

/// The smallest box that holds both boxes.
pub open spec fn box_union(a: BoundingBox, b: BoundingBox) -> BoundingBox {
    BoundingBox {
        x1: if a.x1 <= b.x1 { a.x1 } else { b.x1 },
        y1: if a.y1 <= b.y1 { a.y1 } else { b.y1 },
        x2: if a.x2 >= b.x2 { a.x2 } else { b.x2 },
        y2: if a.y2 >= b.y2 { a.y2 } else { b.y2 },
    }
}

/// `outer` holds `inner`.
pub open spec fn box_holds(outer: BoundingBox, inner: BoundingBox) -> bool {
    outer.x1 <= inner.x1 && outer.y1 <= inner.y1 && inner.x2 <= outer.x2 && inner.y2 <= outer.y2
}

/// Growing a box to take in one more point keeps it the bounding box.
proof fn lemma_box_extend(pre: Seq<Point>, p: Point, b: BoundingBox, nb: BoundingBox)
    requires
        is_bounding_box_of(b, pre),
        nb.x1 == (if p.x < b.x1 { p.x } else { b.x1 }),
        nb.y1 == (if p.y < b.y1 { p.y } else { b.y1 }),
        nb.x2 == (if p.x > b.x2 { p.x } else { b.x2 }),
        nb.y2 == (if p.y > b.y2 { p.y } else { b.y2 }),
    ensures
        is_bounding_box_of(nb, pre.push(p)),
{
    let post = pre.push(p);
    let n = pre.len() as int;
    assert(post[n] == p);
    assert forall|i: int| 0 <= i < post.len() implies nb.x1 <= #[trigger] post[i].x <= nb.x2 && nb.y1
        <= post[i].y <= nb.y2 by {
        if i < n {
            assert(post[i] == pre[i]);
            assert(b.x1 <= pre[i].x);
        }
    }
    let k1 = choose|k: int| 0 <= k < pre.len() && #[trigger] pre[k].x == b.x1;
    let k2 = choose|k: int| 0 <= k < pre.len() && #[trigger] pre[k].y == b.y1;
    let k3 = choose|k: int| 0 <= k < pre.len() && #[trigger] pre[k].x == b.x2;
    let k4 = choose|k: int| 0 <= k < pre.len() && #[trigger] pre[k].y == b.y2;
    assert(post[k1] == pre[k1]);
    assert(post[k2] == pre[k2]);
    assert(post[k3] == pre[k3]);
    assert(post[k4] == pre[k4]);
    let w1 = if p.x < b.x1 { n } else { k1 };
    let w2 = if p.y < b.y1 { n } else { k2 };
    let w3 = if p.x > b.x2 { n } else { k3 };
    let w4 = if p.y > b.y2 { n } else { k4 };
    assert(post[w1].x == nb.x1);
    assert(post[w2].y == nb.y1);
    assert(post[w3].x == nb.x2);
    assert(post[w4].y == nb.y2);
}

impl BoundingBox {
    /// The bounding box of a non-empty list of points.
    pub fn from_points(points: &[Point]) -> (b: BoundingBox)
        requires
            points@.len() > 0,
        ensures
            is_bounding_box_of(b, points@),
    {
        let mut x1 = points[0].x;
        let mut y1 = points[0].y;
        let mut x2 = x1;
        let mut y2 = y1;
        let mut i: usize = 1;
        proof {
            let first = points@.subrange(0, 1);
            assert(first[0] == points@[0]);
        }
        while i < points.len()
            invariant
                1 <= i <= points@.len(),
                is_bounding_box_of(BoundingBox { x1, y1, x2, y2 }, points@.subrange(0, i as int)),
            decreases points@.len() - i,
        {
            let x = points[i].x;
            let y = points[i].y;
            let ghost old_box = BoundingBox { x1, y1, x2, y2 };
            if x < x1 { x1 = x; }
            if y < y1 { y1 = y; }
            if x > x2 { x2 = x; }
            if y > y2 { y2 = y; }
            proof {
                lemma_box_extend(points@.subrange(0, i as int), points@[i as int], old_box,
                    BoundingBox { x1, y1, x2, y2 });
                assert(points@.subrange(0, i as int).push(points@[i as int]) =~= points@.subrange(0, i + 1));
            }
            i = i + 1;
        }
        assert(points@.subrange(0, points@.len() as int) =~= points@);
        BoundingBox { x1, y1, x2, y2 }
    }

    /// Whether the two boxes share a point; touching edges count.
    pub fn overlaps(&self, other: &BoundingBox) -> (r: bool)
        ensures
            r == boxes_overlap(*self, *other),
    {
        self.x1 <= other.x2 && self.x2 >= other.x1 && self.y1 <= other.y2 && self.y2 >= other.y1
    }

    /// The smallest box that holds both boxes.
    pub fn union(&self, other: &BoundingBox) -> (u: BoundingBox)
        ensures
            u == box_union(*self, *other),
    {
        BoundingBox {
            x1: if self.x1 <= other.x1 { self.x1 } else { other.x1 },
            y1: if self.y1 <= other.y1 { self.y1 } else { other.y1 },
            x2: if self.x2 >= other.x2 { self.x2 } else { other.x2 },
            y2: if self.y2 >= other.y2 { self.y2 } else { other.y2 },
        }
    }

    pub fn width(&self) -> (w: i64)
        ensures
            w == self.x2 - self.x1,
    {
        self.x2 as i64 - self.x1 as i64
    }

    pub fn height(&self) -> (h: i64)
        ensures
            h == self.y2 - self.y1,
    {
        self.y2 as i64 - self.y1 as i64
    }
}

impl Shape {
    /// The bounding box of the shape's points (for text, of its position).
    /// A polygon or path needs at least one point.
    pub fn bounding_box(&self) -> (b: BoundingBox)
        requires
            self@.outline().len() > 0,
        ensures
            is_bounding_box_of(b, self@.outline()),
    {
        match self {
            Shape::Polygon { points, .. } => BoundingBox::from_points(points.as_slice()),
            Shape::Path { points, .. } => BoundingBox::from_points(points.as_slice()),
            Shape::Text { position, .. } => {
                let b = BoundingBox { x1: position.x, y1: position.y, x2: position.x, y2: position.y };
                assert(self@.outline()[0] == *position);
                b
            },
        }
    }

    pub fn layer(&self) -> (l: u16)
        ensures
            l == self@.layer(),
    {
        match self {
            Shape::Polygon { layer, .. } => *layer,
            Shape::Path { layer, .. } => *layer,
            Shape::Text { layer, .. } => *layer,
        }
    }
}

/// A difference of two points.
#[derive(Debug, Clone, Copy, PartialEq, Eq)]
pub struct Offset {
    pub dx: i64,
    pub dy: i64,
}

/// A single placement of the cell named `cell_name`.
#[derive(Debug, Clone, PartialEq)]
pub struct SrefInstance {
    pub cell_name: String,
    pub position: Point,
    pub rotation_deg: u64,
    pub magnification: u64,
    pub mirror_x: bool,
}

#[verifier::ext_equal]
pub struct SrefView {
    pub cell_name: Seq<char>,
    pub position: Point,
    pub rotation_deg: u64,
    pub magnification: u64,
    pub mirror_x: bool,
}

impl View for SrefInstance {
    type V = SrefView;

    open spec fn view(&self) -> SrefView {
        SrefView {
            cell_name: self.cell_name@,
            position: self.position,
            rotation_deg: self.rotation_deg,
            magnification: self.magnification,
            mirror_x: self.mirror_x,
        }
    }
}

/// A `cols` by `rows` array of placements of the cell named `cell_name`;
/// `col_vector` and `row_vector` run from the origin to the far corners.
#[derive(Debug, Clone, PartialEq)]
pub struct ArefInstance {
    pub cell_name: String,
    pub origin: Point,
    pub rotation_deg: u64,
    pub magnification: u64,
    pub mirror_x: bool,
    pub cols: u16,
    pub rows: u16,
    pub col_vector: Offset,
    pub row_vector: Offset,
}

#[verifier::ext_equal]
pub struct ArefView {
    pub cell_name: Seq<char>,
    pub origin: Point,
    pub rotation_deg: u64,
    pub magnification: u64,
    pub mirror_x: bool,
    pub cols: u16,
    pub rows: u16,
    pub col_vector: Offset,
    pub row_vector: Offset,
}

impl View for ArefInstance {
    type V = ArefView;

    open spec fn view(&self) -> ArefView {
        ArefView {
            cell_name: self.cell_name@,
            origin: self.origin,
            rotation_deg: self.rotation_deg,
            magnification: self.magnification,
            mirror_x: self.mirror_x,
            cols: self.cols,
            rows: self.rows,
            col_vector: self.col_vector,
            row_vector: self.row_vector,
        }
    }
}

/// A named cell: its shapes and its placements of other cells.
#[derive(Debug, Clone)]
pub struct Cell {
    pub name: String,
    pub shapes: Vec<Shape>,
    pub srefs: Vec<SrefInstance>,
    pub arefs: Vec<ArefInstance>,
}

#[verifier::ext_equal]
pub struct CellView {
    pub name: Seq<char>,
    pub shapes: Seq<ShapeView>,
    pub srefs: Seq<SrefView>,
    pub arefs: Seq<ArefView>,
}

impl View for Cell {
    type V = CellView;

    open spec fn view(&self) -> CellView {
        CellView {
            name: self.name@,
            shapes: self.shapes@.map_values(|s: Shape| s@),
            srefs: self.srefs@.map_values(|s: SrefInstance| s@),
            arefs: self.arefs@.map_values(|a: ArefInstance| a@),
        }
    }
}

impl CellView {
    /// The cell places the cell named `name`, singly or as an array.
    pub open spec fn references(self, name: Seq<char>) -> bool {
        ||| exists|i: int| 0 <= i < self.srefs.len() && #[trigger] self.srefs[i].cell_name == name
        ||| exists|i: int| 0 <= i < self.arefs.len() && #[trigger] self.arefs[i].cell_name == name
    }
}

impl Cell {
    /// An empty cell.
    pub fn new(name: &str) -> (c: Cell)
        ensures
            c@.name == name@,
            c@.shapes.len() == 0,
            c@.srefs.len() == 0,
            c@.arefs.len() == 0,
    {
        Cell { name: String::from_str(name), shapes: Vec::new(), srefs: Vec::new(), arefs: Vec::new() }
    }

    /// The names of the cells that this cell places, each once, in order.
    pub fn direct_dependencies(&self) -> (deps: Vec<&str>)
        ensures
            strictly_sorted(str_views(deps@)),
            forall|n: Seq<char>| #![trigger str_views(deps@).contains(n)]
                str_views(deps@).contains(n) <==> self@.references(n),
    {
        let mut deps: Vec<&str> = Vec::new();
        assert(str_views(deps@) =~= Seq::<Seq<char>>::empty());
        let mut i: usize = 0;
        while i < self.srefs.len()
            invariant
                i <= self.srefs@.len(),
                strictly_sorted(str_views(deps@)),
                forall|n: Seq<char>| #![trigger str_views(deps@).contains(n)]
                    str_views(deps@).contains(n) <==> exists|w: int| 0 <= w < i && #[trigger] self@.srefs[w].cell_name == n,
            decreases self.srefs@.len() - i,
        {
            assert(self@.srefs[i as int] == self.srefs@[i as int]@);
            let ghost before = str_views(deps@);
            let nm = self.srefs[i].cell_name.as_str();
            insert_sorted(&mut deps, nm);
            proof {
                assert(nm@ == self@.srefs[i as int].cell_name);
                assert forall|n: Seq<char>| #![trigger str_views(deps@).contains(n)]
                    str_views(deps@).contains(n) <==> exists|w: int| 0 <= w < i + 1 && #[trigger] self@.srefs[w].cell_name == n by {
                    if before.contains(n) {
                        let w = choose|w: int| 0 <= w < i && #[trigger] self@.srefs[w].cell_name == n;
                    }
                    if exists|w: int| 0 <= w < i + 1 && #[trigger] self@.srefs[w].cell_name == n {
                        let w = choose|w: int| 0 <= w < i + 1 && #[trigger] self@.srefs[w].cell_name == n;
                        if w < i {
                            assert(before.contains(n));
                        } else {
                            assert(n == nm@);
                        }
                    }
                    if n == nm@ {
                        assert(self@.srefs[i as int].cell_name == n);
                    }
                }
            }
            i = i + 1;
        }
        let mut i: usize = 0;
        while i < self.arefs.len()
            invariant
                i <= self.arefs@.len(),
                strictly_sorted(str_views(deps@)),
                forall|n: Seq<char>| #![trigger str_views(deps@).contains(n)]
                    str_views(deps@).contains(n) <==> (exists|w: int| 0 <= w < self@.srefs.len()
                        && #[trigger] self@.srefs[w].cell_name == n) || (exists|w: int| 0 <= w < i
                        && #[trigger] self@.arefs[w].cell_name == n),
            decreases self.arefs@.len() - i,
        {
            assert(self@.arefs[i as int] == self.arefs@[i as int]@);
            let ghost before = str_views(deps@);
            let nm = self.arefs[i].cell_name.as_str();
            insert_sorted(&mut deps, nm);
            proof {
                assert(nm@ == self@.arefs[i as int].cell_name);
                assert forall|n: Seq<char>| #![trigger str_views(deps@).contains(n)]
                    str_views(deps@).contains(n) <==> (exists|w: int| 0 <= w < self@.srefs.len()
                        && #[trigger] self@.srefs[w].cell_name == n) || (exists|w: int| 0 <= w < i + 1
                        && #[trigger] self@.arefs[w].cell_name == n) by {
                    if before.contains(n) {
                    }
                    if exists|w: int| 0 <= w < i + 1 && #[trigger] self@.arefs[w].cell_name == n {
                        let w = choose|w: int| 0 <= w < i + 1 && #[trigger] self@.arefs[w].cell_name == n;
                        if w < i {
                            assert(before.contains(n));
                        } else {
                            assert(n == nm@);
                        }
                    }
                    if exists|w: int| 0 <= w < self@.srefs.len() && #[trigger] self@.srefs[w].cell_name == n {
                        assert(before.contains(n));
                    }
                    if n == nm@ {
                        assert(self@.arefs[i as int].cell_name == n);
                    }
                }
            }
            i = i + 1;
        }
        deps
    }

    /// The cell has no shapes and places no other cell.
    pub fn is_empty(&self) -> (r: bool)
        ensures
            r == (self@.shapes.len() == 0 && self@.srefs.len() == 0 && self@.arefs.len() == 0),
    {
        self.shapes.len() == 0 && self.srefs.len() == 0 && self.arefs.len() == 0
    }
}

pub open spec fn str_views(v: Seq<&str>) -> Seq<Seq<char>> {
    v.map_values(|s: &str| s@)
}

/// Each name comes before the next.
pub open spec fn strictly_sorted(names: Seq<Seq<char>>) -> bool {
    forall|i: int, j: int| 0 <= i < j < names.len() ==> text_less(#[trigger] names[i], #[trigger] names[j])
}

/// Puts `s` in its place among the sorted `names`, unless it is there.
fn insert_sorted<'a>(names: &mut Vec<&'a str>, s: &'a str)
    requires
        strictly_sorted(str_views(old(names)@)),
    ensures
        strictly_sorted(str_views(final(names)@)),
        forall|n: Seq<char>|
            #![trigger str_views(final(names)@).contains(n)]
            str_views(final(names)@).contains(n) <==> str_views(old(names)@).contains(n) || n == s@,
{
    let ghost old_v = str_views(names@);
    let mut k: usize = 0;
    while k < names.len() && str_less(names[k], s)
        invariant
            k <= names@.len(),
            str_views(names@) == old_v,
            forall|j: int| 0 <= j < k ==> text_less(#[trigger] old_v[j], s@),
        decreases names@.len() - k,
    {
        assert(old_v[k as int] == names@[k as int]@);
        k = k + 1;
    }
    if k < names.len() && !str_less(s, names[k]) {
        proof {
            assert(old_v[k as int] == names@[k as int]@);
            lemma_text_less_total(old_v[k as int], s@);
            assert(old_v[k as int] == s@);
        }
        return;
    }
    names.insert(k, s);
    proof {
        let nv = str_views(names@);
        assert(nv =~= old_v.insert(k as int, s@));
        if k < old_v.len() {
            assert(old_v[k as int] == old(names)@[k as int]@);
        }
        assert forall|i: int, j: int| 0 <= i < j < nv.len() implies text_less(#[trigger] nv[i], #[trigger] nv[j]) by {
            if j < k {
            } else if i < k && j == k {
            } else if i < k && j > k {
                assert(nv[j] == old_v[j - 1]);
                if j - 1 > k {
                    lemma_text_less_transitive(s@, old_v[k as int], old_v[j - 1]);
                }
                lemma_text_less_transitive(nv[i], s@, nv[j]);
            } else if i == k {
                assert(nv[j] == old_v[j - 1]);
                if j - 1 > k {
                    lemma_text_less_transitive(s@, old_v[k as int], old_v[j - 1]);
                }
            } else {
                assert(nv[i] == old_v[i - 1]);
                assert(nv[j] == old_v[j - 1]);
            }
        }
        assert forall|n: Seq<char>| #![trigger nv.contains(n)] nv.contains(n) <==> old_v.contains(n) || n == s@ by {
            if nv.contains(n) {
                let w = choose|w: int| 0 <= w < nv.len() && nv[w] == n;
                if w < k {
                    assert(old_v[w] == n);
                } else if w > k {
                    assert(old_v[w - 1] == n);
                }
            }
            if old_v.contains(n) {
                let w = choose|w: int| 0 <= w < old_v.len() && old_v[w] == n;
                if w < k {
                    assert(nv[w] == n);
                } else {
                    assert(nv[w + 1] == n);
                }
            }
            if n == s@ {
                assert(nv[k as int] == n);
            }
        }
    }
}

/// The colour that a layer gets by default, by `id % 12`.
pub open spec fn palette(k: int) -> Seq<char> {
    if k == 0 { "#3a86ff"@ }
    else if k == 1 { "#ff006e"@ }
    else if k == 2 { "#8338ec"@ }
    else if k == 3 { "#fb5607"@ }
    else if k == 4 { "#ffbe0b"@ }
    else if k == 5 { "#06d6a0"@ }
    else if k == 6 { "#118ab2"@ }
    else if k == 7 { "#ef233c"@ }
    else if k == 8 { "#b5179e"@ }
    else if k == 9 { "#4cc9f0"@ }
    else if k == 10 { "#4361ee"@ }
    else { "#f72585"@ }
}

/// How a layer is shown.
#[derive(Debug, Clone, PartialEq)]
pub struct LayerInfo {
    pub id: u16,
    pub name: String,
    pub color: String,
    pub visible: bool,
}

#[verifier::ext_equal]
pub struct LayerView {
    pub id: u16,
    pub name: Seq<char>,
    pub color: Seq<char>,
    pub visible: bool,
}

impl View for LayerInfo {
    type V = LayerView;

    open spec fn view(&self) -> LayerView {
        LayerView { id: self.id, name: self.name@, color: self.color@, visible: self.visible }
    }
}

/// The layer that a new layer `id` starts as: named `Layer <id>`, coloured
/// from the palette, visible.
pub open spec fn default_layer(id: u16) -> LayerView {
    LayerView { id, name: "Layer "@ + decimal(id as nat), color: palette((id % 12) as int), visible: true }
}

impl LayerInfo {
    pub fn new(id: u16) -> (l: LayerInfo)
        ensures
            l@ == default_layer(id),
    {
        let mut name = String::from_str("Layer ");
        push_decimal(&mut name, id as u64);
        LayerInfo { id, name, color: Self::color_for_id(id), visible: true }
    }

    fn color_for_id(id: u16) -> (c: String)
        ensures
            c@ == palette((id % 12) as int),
    {
        let k = id % 12;
        if k == 0 { String::from_str("#3a86ff") }
        else if k == 1 { String::from_str("#ff006e") }
        else if k == 2 { String::from_str("#8338ec") }
        else if k == 3 { String::from_str("#fb5607") }
        else if k == 4 { String::from_str("#ffbe0b") }
        else if k == 5 { String::from_str("#06d6a0") }
        else if k == 6 { String::from_str("#118ab2") }
        else if k == 7 { String::from_str("#ef233c") }
        else if k == 8 { String::from_str("#b5179e") }
        else if k == 9 { String::from_str("#4cc9f0") }
        else if k == 10 { String::from_str("#4361ee") }
        else { String::from_str("#f72585") }
    }
}

/// The two reals of a UNITS record: user units per database unit, and the
/// size of a database unit in meters.
#[derive(Debug, Clone, Copy, PartialEq, Eq)]
pub struct Units {
    pub user_units_per_db_unit: u64,
    pub db_unit_in_meters: u64,
}

pub open spec fn names_distinct(cells: Seq<CellView>) -> bool {
    forall|i: int, j: int| 0 <= i < j < cells.len() ==> #[trigger] cells[i].name != #[trigger] cells[j].name
}

pub open spec fn ids_increasing(layers: Seq<LayerView>) -> bool {
    forall|i: int, j: int| 0 <= i < j < layers.len() ==> #[trigger] layers[i].id < #[trigger] layers[j].id
}

pub open spec fn has_cell(cells: Seq<CellView>, name: Seq<char>) -> bool {
    exists|i: int| 0 <= i < cells.len() && #[trigger] cells[i].name == name
}

pub open spec fn has_layer(layers: Seq<LayerView>, id: u16) -> bool {
    exists|i: int| 0 <= i < layers.len() && #[trigger] layers[i].id == id
}

/// `k` is where a layer `id` goes to keep the ids increasing.
pub open spec fn layer_slot(layers: Seq<LayerView>, k: int, id: u16) -> bool {
    &&& 0 <= k <= layers.len()
    &&& forall|i: int| 0 <= i < k ==> #[trigger] layers[i].id < id
    &&& forall|i: int| k <= i < layers.len() ==> #[trigger] layers[i].id > id
}

/// The layers after registering `id`: a new default layer in its place by
/// id, unless a layer `id` is there already.
pub open spec fn with_layer(layers: Seq<LayerView>, id: u16) -> Seq<LayerView> {
    if has_layer(layers, id) {
        layers
    } else {
        layers.insert(choose|k: int| layer_slot(layers, k, id), default_layer(id))
    }
}

/// The layers after registering the layer of each shape, in order.
pub open spec fn with_layers_of(layers: Seq<LayerView>, shapes: Seq<ShapeView>) -> Seq<LayerView>
    decreases shapes.len(),
{
    if shapes.len() == 0 {
        layers
    } else {
        with_layer(with_layers_of(layers, shapes.drop_last()), shapes.last().layer())
    }
}

/// The cells after inserting `c`: it takes the place of the cell of the same
/// name, or comes last.
pub open spec fn with_cell(cells: Seq<CellView>, c: CellView) -> Seq<CellView> {
    if has_cell(cells, c.name) {
        cells.update(choose|i: int| 0 <= i < cells.len() && #[trigger] cells[i].name == c.name, c)
    } else {
        cells.push(c)
    }
}

/// Some cell of `cells` places the cell named `name`.
pub open spec fn is_referenced(cells: Seq<CellView>, name: Seq<char>) -> bool {
    exists|j: int| 0 <= j < cells.len() && #[trigger] cells[j].references(name)
}

/// Cell `k` is the first cell that no cell places.
pub open spec fn first_root(cells: Seq<CellView>, k: int) -> bool {
    &&& 0 <= k < cells.len()
    &&& !is_referenced(cells, cells[k].name)
    &&& forall|j: int| 0 <= j < k ==> is_referenced(cells, #[trigger] cells[j].name)
}

/// The top cell: the first cell, in the order of insertion, that no cell
/// places.
pub open spec fn top_cell_of(cells: Seq<CellView>) -> Option<Seq<char>> {
    if exists|k: int| first_root(cells, k) {
        Some(cells[choose|k: int| first_root(cells, k)].name)
    } else {
        None
    }
}

/// The number of shapes over all cells.
pub open spec fn total_shapes(cells: Seq<CellView>) -> int
    decreases cells.len(),
{
    if cells.len() == 0 { 0 } else { total_shapes(cells.drop_last()) + cells.last().shapes.len() }
}

/// A library: its cells in the order they were inserted (names distinct),
/// its layers by increasing id, its top cell and its units.
#[derive(Debug, Clone)]
pub struct Layout {
    lib_name: String,
    cells: Vec<Cell>,
    layers: Vec<LayerInfo>,
    top_cell: Option<String>,
    units: Option<Units>,
}

#[verifier::ext_equal]
pub struct LayoutView {
    pub lib_name: Seq<char>,
    pub cells: Seq<CellView>,
    pub layers: Seq<LayerView>,
    pub top_cell: Option<Seq<char>>,
    pub units: Option<Units>,
}

impl View for Layout {
    type V = LayoutView;

    closed spec fn view(&self) -> LayoutView {
        LayoutView {
            lib_name: self.lib_name@,
            cells: self.cells@.map_values(|c: Cell| c@),
            layers: self.layers@.map_values(|l: LayerInfo| l@),
            top_cell: match self.top_cell {
                Some(t) => Some(t@),
                None => None,
            },
            units: self.units,
        }
    }
}

impl LayoutView {
    pub open spec fn wf(self) -> bool {
        names_distinct(self.cells) && ids_increasing(self.layers)
    }
}

proof fn lemma_layer_slot_unique(layers: Seq<LayerView>, k1: int, k2: int, id: u16)
    requires
        layer_slot(layers, k1, id),
        layer_slot(layers, k2, id),
    ensures
        k1 == k2,
{
    if k1 < k2 {
        assert(layers[k1].id > id);
    } else if k2 < k1 {
        assert(layers[k2].id > id);
    }
}

pub(crate) proof fn lemma_cell_index_unique(cells: Seq<CellView>, i1: int, i2: int)
    requires
        names_distinct(cells),
        0 <= i1 < cells.len(),
        0 <= i2 < cells.len(),
        cells[i1].name == cells[i2].name,
    ensures
        i1 == i2,
{
    if i1 < i2 {
        assert(cells[i1].name != cells[i2].name);
    } else if i2 < i1 {
        assert(cells[i2].name != cells[i1].name);
    }
}

impl Layout {
    pub open spec fn wf(&self) -> bool {
        self@.wf()
    }

    /// An empty library named `lib_name`.
    pub fn new(lib_name: &str) -> (l: Layout)
        ensures
            l.wf(),
            l@.lib_name == lib_name@,
            l@.cells.len() == 0,
            l@.layers.len() == 0,
            l@.top_cell is None,
            l@.units is None,
    {
        let l = Layout {
            lib_name: String::from_str(lib_name),
            cells: Vec::new(),
            layers: Vec::new(),
            top_cell: None,
            units: None,
        };
        assert(l@.cells =~= Seq::<CellView>::empty());
        assert(l@.layers =~= Seq::<LayerView>::empty());
        l
    }

    pub fn lib_name(&self) -> (r: &String)
        ensures
            r@ == self@.lib_name,
    {
        &self.lib_name
    }

    pub fn cells(&self) -> (r: &Vec<Cell>)
        ensures
            r@.map_values(|c: Cell| c@) == self@.cells,
    {
        &self.cells
    }

    pub fn layers(&self) -> (r: &Vec<LayerInfo>)
        ensures
            r@.map_values(|l: LayerInfo| l@) == self@.layers,
    {
        &self.layers
    }

    pub fn top_cell(&self) -> (r: &Option<String>)
        ensures
            match *r {
                Some(t) => self@.top_cell == Some(t@),
                None => self@.top_cell is None,
            },
    {
        &self.top_cell
    }

    pub fn units(&self) -> (r: Option<Units>)
        ensures
            r == self@.units,
    {
        self.units
    }

    pub fn set_lib_name(&mut self, name: String)
        ensures
            final(self)@ == (LayoutView { lib_name: name@, ..old(self)@ }),
    {
        self.lib_name = name;
    }

    pub fn set_units(&mut self, units: Units)
        ensures
            final(self)@ == (LayoutView { units: Some(units), ..old(self)@ }),
    {
        self.units = Some(units);
    }

    /// The cell named `name`, if there is one.
    pub fn cell(&self, name: &str) -> (r: Option<&Cell>)
        requires
            self.wf(),
        ensures
            match r {
                Some(c) => c@.name == name@ && exists|i: int| 0 <= i < self@.cells.len() && self@.cells[i] == c@,
                None => !has_cell(self@.cells, name@),
            },
    {
        let wanted = String::from_str(name);
        let mut i: usize = 0;
        while i < self.cells.len()
            invariant
                i <= self.cells@.len(),
                wanted@ == name@,
                forall|j: int| 0 <= j < i ==> self.cells@[j]@.name != name@,
            decreases self.cells@.len() - i,
        {
            if self.cells[i].name == wanted {
                assert(self@.cells[i as int] == self.cells@[i as int]@);
                return Some(&self.cells[i]);
            }
            i = i + 1;
        }
        assert forall|j: int| 0 <= j < self@.cells.len() implies #[trigger] self@.cells[j].name != name@ by {
            assert(self@.cells[j] == self.cells@[j]@);
        }
        None
    }

    /// Where the cell named `name` stands among the cells, if it is there.
    pub fn cell_index(&self, name: &String) -> (r: Option<usize>)
        ensures
            match r {
                Some(k) => k < self@.cells.len() && self@.cells[k as int].name == name@,
                None => !has_cell(self@.cells, name@),
            },
    {
        let mut i: usize = 0;
        while i < self.cells.len()
            invariant
                i <= self.cells@.len(),
                forall|j: int| 0 <= j < i ==> #[trigger] self@.cells[j].name != name@,
            decreases self.cells@.len() - i,
        {
            assert(self@.cells[i as int] == self.cells@[i as int]@);
            if self.cells[i].name == *name {
                return Some(i);
            }
            i = i + 1;
        }
        None
    }

    /// The layer `id`, if there is one.
    pub fn layer(&self, id: u16) -> (r: Option<&LayerInfo>)
        requires
            self.wf(),
        ensures
            match r {
                Some(l) => l.id == id && exists|i: int| 0 <= i < self@.layers.len() && self@.layers[i] == l@,
                None => !has_layer(self@.layers, id),
            },
    {
        let mut i: usize = 0;
        while i < self.layers.len()
            invariant
                i <= self.layers@.len(),
                forall|j: int| 0 <= j < i ==> self.layers@[j].id != id,
            decreases self.layers@.len() - i,
        {
            if self.layers[i].id == id {
                assert(self@.layers[i as int] == self.layers@[i as int]@);
                return Some(&self.layers[i]);
            }
            i = i + 1;
        }
        assert forall|j: int| 0 <= j < self@.layers.len() implies #[trigger] self@.layers[j].id != id by {
            assert(self@.layers[j] == self.layers@[j]@);
        }
        None
    }

    /// Where layer `id` stands among the layers, if it is there.
    pub fn layer_index(&self, id: u16) -> (r: Option<usize>)
        ensures
            match r {
                Some(k) => k < self@.layers.len() && self@.layers[k as int].id == id,
                None => !has_layer(self@.layers, id),
            },
    {
        let mut i: usize = 0;
        while i < self.layers.len()
            invariant
                i <= self.layers@.len(),
                forall|j: int| 0 <= j < i ==> #[trigger] self@.layers[j].id != id,
            decreases self.layers@.len() - i,
        {
            assert(self@.layers[i as int] == self.layers@[i as int]@);
            if self.layers[i].id == id {
                return Some(i);
            }
            i = i + 1;
        }
        None
    }

    /// The layer at `k` in order of id.
    pub fn layer_at(&self, k: usize) -> (r: &LayerInfo)
        requires
            k < self@.layers.len(),
        ensures
            r@ == self@.layers[k as int],
    {
        &self.layers[k]
    }

    /// Puts `info` in the place of the layer at `k`, which has the same id.
    pub fn replace_layer(&mut self, k: usize, info: LayerInfo)
        requires
            old(self).wf(),
            k < old(self)@.layers.len(),
            info.id == old(self)@.layers[k as int].id,
        ensures
            final(self).wf(),
            final(self)@ == (LayoutView { layers: old(self)@.layers.update(k as int, info@), ..old(self)@ }),
    {
        let ghost before = self@;
        self.layers.set(k, info);
        assert(self@.layers =~= before.layers.update(k as int, info@));
    }

    /// Gives layer `id` a default entry unless it has one.
    pub fn register_layer(&mut self, id: u16)
        requires
            old(self).wf(),
        ensures
            final(self).wf(),
            final(self)@ == (LayoutView { layers: with_layer(old(self)@.layers, id), ..old(self)@ }),
    {
        let ghost old_layers = self@.layers;
        let mut k: usize = 0;
        while k < self.layers.len() && self.layers[k].id < id
            invariant
                k <= self.layers@.len(),
                self@.layers == old_layers,
                ids_increasing(old_layers),
                forall|j: int| 0 <= j < k ==> #[trigger] old_layers[j].id < id,
            decreases self.layers@.len() - k,
        {
            assert(old_layers[k as int] == self.layers@[k as int]@);
            k = k + 1;
        }
        if k < self.layers.len() && self.layers[k].id == id {
            assert(old_layers[k as int].id == id);
            assert(has_layer(old_layers, id));
            return;
        }
        proof {
            if k < old_layers.len() {
                assert(old_layers[k as int] == self.layers@[k as int]@);
                assert(old_layers[k as int].id > id);
            }
            assert forall|i: int| k <= i < old_layers.len() implies #[trigger] old_layers[i].id > id by {
                if i > k {
                    assert(old_layers[k as int].id < old_layers[i].id);
                }
            }
            assert(layer_slot(old_layers, k as int, id));
            assert(!has_layer(old_layers, id)) by {
                if has_layer(old_layers, id) {
                    let w = choose|i: int| 0 <= i < old_layers.len() && #[trigger] old_layers[i].id == id;
                    if w < k {
                        assert(old_layers[w].id < id);
                    } else {
                        assert(old_layers[w].id > id);
                    }
                }
            }
            let c = choose|j: int| layer_slot(old_layers, j, id);
            lemma_layer_slot_unique(old_layers, c, k as int, id);
        }
        self.layers.insert(k, LayerInfo::new(id));
        proof {
            let nl = old_layers.insert(k as int, default_layer(id));
            assert(self@.layers =~= nl);
            assert forall|i: int, j: int| 0 <= i < j < nl.len() implies #[trigger] nl[i].id < #[trigger] nl[j].id by {
                if i < k && j > k {
                    assert(nl[j] == old_layers[j - 1]);
                } else if i == k && j > k {
                    assert(nl[j] == old_layers[j - 1]);
                } else if i < k && j == k {
                } else if i > k {
                    assert(nl[j] == old_layers[j - 1]);
                    assert(nl[i] == old_layers[i - 1]);
                }
            }
        }
    }

    /// Registers the layer of each shape of `cell`, then puts `cell` in
    /// the place of the cell of the same name, or last.
    pub fn insert_cell(&mut self, cell: Cell)
        requires
            old(self).wf(),
        ensures
            final(self).wf(),
            final(self)@ == (LayoutView {
                layers: with_layers_of(old(self)@.layers, cell@.shapes),
                cells: with_cell(old(self)@.cells, cell@),
                ..old(self)@
            }),
    {
        let ghost old_view = self@;
        let mut i: usize = 0;
        while i < cell.shapes.len()
            invariant
                i <= cell.shapes@.len(),
                self.wf(),
                self@ == (LayoutView {
                    layers: with_layers_of(old_view.layers, cell@.shapes.take(i as int)),
                    ..old_view
                }),
            decreases cell.shapes@.len() - i,
        {
            let l = cell.shapes[i].layer();
            self.register_layer(l);
            proof {
                let t = cell@.shapes.take(i + 1);
                assert(t.drop_last() =~= cell@.shapes.take(i as int));
                assert(t.last() == cell.shapes@[i as int]@);
            }
            i = i + 1;
        }
        assert(cell@.shapes.take(cell@.shapes.len() as int) =~= cell@.shapes);
        let ghost mid = self@;
        let mut j: usize = 0;
        let mut found = false;
        while j < self.cells.len()
            invariant_except_break
                !found,
            invariant
                j <= self.cells@.len(),
                self@ == mid,
                forall|k: int| 0 <= k < j ==> #[trigger] mid.cells[k].name != cell@.name,
            ensures
                found ==> j < self.cells@.len() && mid.cells[j as int].name == cell@.name,
                !found ==> j == self.cells@.len(),
                self@ == mid,
                forall|k: int| 0 <= k < j ==> #[trigger] mid.cells[k].name != cell@.name,
            decreases self.cells@.len() - j,
        {
            assert(mid.cells[j as int] == self.cells@[j as int]@);
            if self.cells[j].name == cell.name {
                found = true;
                break;
            }
            j = j + 1;
        }
        if found {
            proof {
                assert(mid.cells[j as int] == self.cells@[j as int]@);
                assert(has_cell(mid.cells, cell@.name));
                let c = choose|i: int| 0 <= i < mid.cells.len() && #[trigger] mid.cells[i].name == cell@.name;
                lemma_cell_index_unique(mid.cells, c, j as int);
            }
            self.cells.set(j, cell);
            proof {
                assert(self@.cells =~= mid.cells.update(j as int, cell@));
            }
        } else {
            proof {
                assert(!has_cell(mid.cells, cell@.name)) by {
                    if has_cell(mid.cells, cell@.name) {
                        let c = choose|i: int| 0 <= i < mid.cells.len() && #[trigger] mid.cells[i].name == cell@.name;
                        assert(mid.cells[c].name != cell@.name);
                    }
                }
            }
            self.cells.push(cell);
            proof {
                assert(self@.cells =~= mid.cells.push(cell@));
            }
        }
    }

    /// The number of shapes over all cells.
    pub fn flat_shape_count(&self) -> (n: usize)
        requires
            total_shapes(self@.cells) <= usize::MAX,
        ensures
            n == total_shapes(self@.cells),
    {
        let mut n: usize = 0;
        let mut i: usize = 0;
        while i < self.cells.len()
            invariant
                i <= self.cells@.len(),
                total_shapes(self@.cells) <= usize::MAX,
                n == total_shapes(self@.cells.take(i as int)),
            decreases self.cells@.len() - i,
        {
            proof {
                let t = self@.cells.take(i + 1);
                assert(t.drop_last() =~= self@.cells.take(i as int));
                assert(t.last() == self.cells@[i as int]@);
                lemma_total_shapes_prefix(self@.cells, i + 1);
            }
            n = n + self.cells[i].shapes.len();
            i = i + 1;
        }
        assert(self@.cells.take(self@.cells.len() as int) =~= self@.cells);
        n
    }

    /// Sets the top cell to the first cell, in the order of insertion, that
    /// no cell places, or to none if every cell is placed; returns it.
    pub fn find_top_cell(&mut self) -> (r: Option<String>)
        requires
            old(self).wf(),
        ensures
            final(self).wf(),
            final(self)@ == (LayoutView { top_cell: top_cell_of(old(self)@.cells), ..old(self)@ }),
            match r {
                Some(t) => final(self)@.top_cell == Some(t@),
                None => final(self)@.top_cell is None,
            },
    {
        let ghost cells = self@.cells;
        let ghost before = self@;
        let mut k: usize = 0;
        while k < self.cells.len()
            invariant
                k <= self.cells@.len(),
                self@ == before,
                before == old(self)@,
                before.wf(),
                self@.cells == cells,
                forall|j: int| 0 <= j < k ==> is_referenced(cells, #[trigger] cells[j].name),
            decreases self.cells@.len() - k,
        {
            assert(cells[k as int] == self.cells@[k as int]@);
            if !self.is_referenced(&self.cells[k].name) {
                proof {
                    assert(first_root(cells, k as int));
                    let c = choose|c: int| first_root(cells, c);
                    lemma_first_root_unique(cells, c, k as int);
                }
                let top = self.cells[k].name.clone();
                self.top_cell = Some(top.clone());
                return Some(top);
            }
            k = k + 1;
        }
        assert(!exists|c: int| first_root(cells, c));
        self.top_cell = None;
        None
    }

    /// Whether some cell places the cell named `name`.
    fn is_referenced(&self, name: &String) -> (r: bool)
        ensures
            r == is_referenced(self@.cells, name@),
    {
        let mut j: usize = 0;
        while j < self.cells.len()
            invariant
                j <= self.cells@.len(),
                forall|i: int| 0 <= i < j ==> !(#[trigger] self@.cells[i]).references(name@),
            decreases self.cells@.len() - j,
        {
            if cell_references(&self.cells[j], name) {
                assert(self@.cells[j as int].references(name@));
                return true;
            }
            j = j + 1;
        }
        false
    }
}

/// Whether `cell` places the cell named `name`.
fn cell_references(cell: &Cell, name: &String) -> (r: bool)
    ensures
        r == cell@.references(name@),
{
    let mut i: usize = 0;
    while i < cell.srefs.len()
        invariant
            i <= cell.srefs@.len(),
            forall|k: int| 0 <= k < i ==> #[trigger] cell@.srefs[k].cell_name != name@,
        decreases cell.srefs@.len() - i,
    {
        if cell.srefs[i].cell_name == *name {
            assert(cell@.srefs[i as int].cell_name == name@);
            return true;
        }
        assert(cell@.srefs[i as int] == cell.srefs@[i as int]@);
        i = i + 1;
    }
    let mut i: usize = 0;
    while i < cell.arefs.len()
        invariant
            i <= cell.arefs@.len(),
            forall|k: int| 0 <= k < cell.srefs@.len() ==> #[trigger] cell@.srefs[k].cell_name != name@,
            forall|k: int| 0 <= k < i ==> #[trigger] cell@.arefs[k].cell_name != name@,
        decreases cell.arefs@.len() - i,
    {
        if cell.arefs[i].cell_name == *name {
            assert(cell@.arefs[i as int].cell_name == name@);
            return true;
        }
        assert(cell@.arefs[i as int] == cell.arefs@[i as int]@);
        i = i + 1;
    }
    false
}

proof fn lemma_first_root_unique(cells: Seq<CellView>, a: int, b: int)
    requires
        first_root(cells, a),
        first_root(cells, b),
    ensures
        a == b,
{
    if a < b {
        assert(is_referenced(cells, cells[a].name));
    } else if b < a {
        assert(is_referenced(cells, cells[b].name));
    }
}

/// The count of a prefix is at most the count of the whole.
proof fn lemma_total_shapes_prefix(cells: Seq<CellView>, n: int)
    requires
        0 <= n <= cells.len(),
    ensures
        total_shapes(cells.take(n)) <= total_shapes(cells),
    decreases cells.len(),
{
    if n < cells.len() {
        assert(cells.drop_last().take(n) =~= cells.take(n));
        lemma_total_shapes_prefix(cells.drop_last(), n);
    } else {
        assert(cells.take(n) =~= cells);
    }
}

} // verus!
