//! Where each value lands in the binary encoding of an answer, and how the
//! little-endian and text forms read back.
use vstd::prelude::*;
use crate::query::{
    LodLevel, PointBits, le_count, ResponseView, ShapeDtoView, drawn, le16, le32, le64, point_bytes, points_bytes,
    response_bytes, shape_bytes,
};
use crate::text::{digit_char, hex2};
use crate::bytes::{be16, be64, int16, int32};

verus! {

/// Two bytes read little-endian give back the 16-bit value.
pub proof fn law_le16_reads_back(v: u16)
    ensures
        le16(v).len() == 2,
        le16(v)[0] + 0x100 * le16(v)[1] == v,
{
}

/// Four bytes read little-endian give back the 32-bit value.
pub proof fn law_le32_reads_back(v: u32)
    ensures
        le32(v).len() == 4,
        le32(v)[0] + 0x100 * le32(v)[1] + 0x1_0000 * le32(v)[2] + 0x100_0000 * le32(v)[3] == v,
{
    let b0 = v % 0x100;
    let b1 = (v / 0x100) % 0x100;
    let b2 = (v / 0x1_0000) % 0x100;
    let b3 = v / 0x100_0000;
    assert(b0 + 0x100 * b1 + 0x1_0000 * b2 + 0x100_0000 * b3 == v) by (nonlinear_arith)
        requires
            b0 == v % 0x100,
            b1 == (v / 0x100) % 0x100,
            b2 == (v / 0x1_0000) % 0x100,
            b3 == v / 0x100_0000,
    ;
}

/// Eight bytes read little-endian give back the 64-bit value: the low
/// 32 bits first.
pub proof fn law_le64_reads_back(v: u64)
    ensures
        le64(v).len() == 8,
        le64(v).subrange(0, 4) == le32((v % 0x1_0000_0000) as u32),
        le64(v).subrange(4, 8) == le32((v / 0x1_0000_0000) as u32),
        (v % 0x1_0000_0000) + 0x1_0000_0000 * (v / 0x1_0000_0000) == v,
{
    assert(le64(v).subrange(0, 4) =~= le32((v % 0x1_0000_0000) as u32));
    assert(le64(v).subrange(4, 8) =~= le32((v / 0x1_0000_0000) as u32));
}

proof fn lemma_points_layout(pts: Seq<PointBits>)
    ensures
        points_bytes(pts).len() == 16 * pts.len(),
        forall|k: int|
            0 <= k < pts.len() ==> points_bytes(pts).subrange(16 * k, 16 * k + 8) == le64(#[trigger] pts[k].x)
                && points_bytes(pts).subrange(16 * k + 8, 16 * k + 16) == le64(pts[k].y),
    decreases pts.len(),
{
    if pts.len() > 0 {
        let rest = pts.drop_last();
        lemma_points_layout(rest);
        let last = pts.last();
        let b = points_bytes(pts);
        let r = points_bytes(rest);
        assert(b == r + point_bytes(last));
        assert(point_bytes(last) == le64(last.x) + le64(last.y));
        assert forall|k: int|
            0 <= k < pts.len() implies b.subrange(16 * k, 16 * k + 8) == le64(#[trigger] pts[k].x)
                && b.subrange(16 * k + 8, 16 * k + 16) == le64(pts[k].y) by {
            if k < rest.len() {
                assert(rest[k] == pts[k]);
                assert(b.subrange(16 * k, 16 * k + 8) =~= r.subrange(16 * k, 16 * k + 8));
                assert(b.subrange(16 * k + 8, 16 * k + 16) =~= r.subrange(16 * k + 8, 16 * k + 16));
            } else {
                assert(b.subrange(16 * k, 16 * k + 8) =~= le64(last.x));
                assert(b.subrange(16 * k + 8, 16 * k + 16) =~= le64(last.y));
            }
        }
    }
}

proof fn lemma_points_after(head: Seq<u8>, pts: Seq<PointBits>)
    ensures
        (head + points_bytes(pts)).len() == head.len() + 16 * pts.len(),
        forall|k: int|
            0 <= k < pts.len() ==> (head + points_bytes(pts)).subrange(
                head.len() + 16 * k,
                head.len() + 16 * k + 8,
            ) == le64(#[trigger] pts[k].x) && (head + points_bytes(pts)).subrange(
                head.len() + 16 * k + 8,
                head.len() + 16 * k + 16,
            ) == le64(pts[k].y),
{
    lemma_points_layout(pts);
    let pb = points_bytes(pts);
    let b = head + pb;
    let h = head.len() as int;
    assert forall|k: int| 0 <= k < pts.len() implies b.subrange(h + 16 * k, h + 16 * k + 8) == le64(
        #[trigger] pts[k].x,
    ) && b.subrange(h + 16 * k + 8, h + 16 * k + 16) == le64(pts[k].y) by {
        let x = pts[k].x;
        assert(pb.subrange(16 * k, 16 * k + 8) == le64(x));
        assert(pb.subrange(16 * k + 8, 16 * k + 16) == le64(pts[k].y));
        assert(b.subrange(h + 16 * k, h + 16 * k + 8) =~= pb.subrange(16 * k, 16 * k + 8));
        assert(b.subrange(h + 16 * k + 8, h + 16 * k + 16) =~= pb.subrange(16 * k + 8, 16 * k + 16));
    }
}

proof fn lemma_four_fields(s0: Seq<u8>, s1: Seq<u8>, s2: Seq<u8>, s3: Seq<u8>, rest: Seq<u8>)
    ensures
        ({
            let b = s0 + s1 + s2 + s3 + rest;
            let a = s0.len() as int;
            let c = a + s1.len();
            let d = c + s2.len();
            let h = d + s3.len();
            &&& b.len() == h + rest.len()
            &&& b.subrange(0, a) == s0
            &&& b.subrange(a, c) == s1
            &&& b.subrange(c, d) == s2
            &&& b.subrange(d, h) == s3
        }),
{
    let b = s0 + s1 + s2 + s3 + rest;
    let a = s0.len() as int;
    let c = a + s1.len();
    let d = c + s2.len();
    let h = d + s3.len();
    assert(b.subrange(0, a) =~= s0);
    assert(b.subrange(a, c) =~= s1);
    assert(b.subrange(c, d) =~= s2);
    assert(b.subrange(d, h) =~= s3);
}

proof fn lemma_six_fields(
    s0: Seq<u8>,
    s1: Seq<u8>,
    s2: Seq<u8>,
    s3: Seq<u8>,
    s4: Seq<u8>,
    s5: Seq<u8>,
    rest: Seq<u8>,
)
    ensures
        ({
            let b = s0 + s1 + s2 + s3 + s4 + s5 + rest;
            let a = s0.len() as int;
            let c = a + s1.len();
            let d = c + s2.len();
            let e = d + s3.len();
            let f = e + s4.len();
            let g = f + s5.len();
            &&& b.len() == g + rest.len()
            &&& b.subrange(0, a) == s0
            &&& b.subrange(a, c) == s1
            &&& b.subrange(c, d) == s2
            &&& b.subrange(d, e) == s3
            &&& b.subrange(e, f) == s4
            &&& b.subrange(f, g) == s5
        }),
{
    let b = s0 + s1 + s2 + s3 + s4 + s5 + rest;
    let a = s0.len() as int;
    let c = a + s1.len();
    let d = c + s2.len();
    let e = d + s3.len();
    let f = e + s4.len();
    let g = f + s5.len();
    assert(b.subrange(0, a) =~= s0);
    assert(b.subrange(a, c) =~= s1);
    assert(b.subrange(c, d) =~= s2);
    assert(b.subrange(d, e) =~= s3);
    assert(b.subrange(e, f) =~= s4);
    assert(b.subrange(f, g) =~= s5);
}

proof fn lemma_polygon_fields(s0: Seq<u8>, s1: Seq<u8>, s2: Seq<u8>, s3: Seq<u8>, pts: Seq<PointBits>)
    requires
        s0.len() == 1,
        s1.len() == 2,
        s2.len() == 2,
        s3.len() == 4,
    ensures
        ({
            let b = s0 + s1 + s2 + s3 + points_bytes(pts);
            &&& b.len() == 9 + 16 * pts.len()
            &&& b[0] == s0[0]
            &&& b.subrange(1, 3) == s1
            &&& b.subrange(3, 5) == s2
            &&& b.subrange(5, 9) == s3
            &&& forall|k: int|
                0 <= k < pts.len() ==> b.subrange(9 + 16 * k, 17 + 16 * k) == le64(#[trigger] pts[k].x)
                    && b.subrange(17 + 16 * k, 25 + 16 * k) == le64(pts[k].y)
        }),
{
    let pb = points_bytes(pts);
    lemma_four_fields(s0, s1, s2, s3, pb);
    let head = s0 + s1 + s2 + s3;
    lemma_points_after(head, pts);
    let b = s0 + s1 + s2 + s3 + pb;
    assert(b == head + pb);
    assert(b[0] == b.subrange(0, 1)[0]);
}

proof fn lemma_path_fields(
    s0: Seq<u8>,
    s1: Seq<u8>,
    s2: Seq<u8>,
    s3: Seq<u8>,
    s4: Seq<u8>,
    s5: Seq<u8>,
    pts: Seq<PointBits>,
)
    requires
        s0.len() == 1,
        s1.len() == 2,
        s2.len() == 2,
        s3.len() == 8,
        s4.len() == 1,
        s5.len() == 4,
    ensures
        ({
            let b = s0 + s1 + s2 + s3 + s4 + s5 + points_bytes(pts);
            &&& b.len() == 18 + 16 * pts.len()
            &&& b[0] == s0[0]
            &&& b.subrange(1, 3) == s1
            &&& b.subrange(3, 5) == s2
            &&& b.subrange(5, 13) == s3
            &&& b[13] == s4[0]
            &&& b.subrange(14, 18) == s5
            &&& forall|k: int|
                0 <= k < pts.len() ==> b.subrange(18 + 16 * k, 26 + 16 * k) == le64(#[trigger] pts[k].x)
                    && b.subrange(26 + 16 * k, 34 + 16 * k) == le64(pts[k].y)
        }),
{
    let pb = points_bytes(pts);
    lemma_six_fields(s0, s1, s2, s3, s4, s5, pb);
    let head = s0 + s1 + s2 + s3 + s4 + s5;
    lemma_points_after(head, pts);
    let b = s0 + s1 + s2 + s3 + s4 + s5 + pb;
    assert(b == head + pb);
    assert(b[0] == b.subrange(0, 1)[0]);
    assert(b[13] == b.subrange(13, 14)[0]);
}

/// A polygon is written as the tag 0, its layer, its datatype, the number
/// of its points, then each point's x and y.
pub proof fn law_polygon_layout(id: u64, layer: u16, datatype: u16, points: Seq<PointBits>)
    ensures
        ({
            let b = shape_bytes(ShapeDtoView::Polygon { id, layer, datatype, points });
            &&& b.len() == 9 + 16 * points.len()
            &&& b[0] == 0
            &&& b.subrange(1, 3) == le16(layer)
            &&& b.subrange(3, 5) == le16(datatype)
            &&& b.subrange(5, 9) == le_count(points.len() as int)
            &&& forall|k: int|
                0 <= k < points.len() ==> b.subrange(9 + 16 * k, 17 + 16 * k) == le64(#[trigger] points[k].x)
                    && b.subrange(17 + 16 * k, 25 + 16 * k) == le64(points[k].y)
        }),
{
    lemma_polygon_fields(seq![0u8], le16(layer), le16(datatype), le_count(points.len() as int), points);
}

/// A path is written as the tag 1, its layer, its datatype, its width, its
/// path type, the number of its points, then each point's x and y.
pub proof fn law_path_layout(id: u64, layer: u16, datatype: u16, points: Seq<PointBits>, width: u64, path_type: u8)
    ensures
        ({
            let b = shape_bytes(ShapeDtoView::Path { id, layer, datatype, points, width, path_type });
            &&& b.len() == 18 + 16 * points.len()
            &&& b[0] == 1
            &&& b.subrange(1, 3) == le16(layer)
            &&& b.subrange(3, 5) == le16(datatype)
            &&& b.subrange(5, 13) == le64(width)
            &&& b[13] == path_type
            &&& b.subrange(14, 18) == le_count(points.len() as int)
            &&& forall|k: int|
                0 <= k < points.len() ==> b.subrange(18 + 16 * k, 26 + 16 * k) == le64(#[trigger] points[k].x)
                    && b.subrange(26 + 16 * k, 34 + 16 * k) == le64(points[k].y)
        }),
{
    lemma_path_fields(
        seq![1u8],
        le16(layer),
        le16(datatype),
        le64(width),
        seq![path_type],
        le_count(points.len() as int),
        points,
    );
}

/// A text is not written.
pub proof fn law_text_not_written(s: ShapeDtoView)
    requires
        s is Text,
    ensures
        shape_bytes(s).len() == 0,
{
}

/// An answer starts with its level of detail (0 for cells, 1 for blocks,
/// 2 for shapes), then the number of its shapes other than texts.
#[verifier::rlimit(30)]
pub proof fn law_response_header(r: ResponseView)
    ensures
        response_bytes(r)[0] == (match r.lod_level {
            LodLevel::Cell => 0u8,
            LodLevel::Block => 1u8,
            LodLevel::Shape => 2u8,
        }),
        response_bytes(r).subrange(1, 5) == le32(drawn(r.shapes).len() as u32),
{
    let b = response_bytes(r);
    assert(b.subrange(1, 5) =~= le32(drawn(r.shapes).len() as u32));
}

/// The value of a hexadecimal digit character.
pub open spec fn hex_value(c: char) -> int {
    if '0' <= c <= '9' {
        c as int - '0' as int
    } else {
        c as int - 'A' as int + 10
    }
}

proof fn lemma_hex_digit(d: int)
    requires
        0 <= d < 16,
    ensures
        hex_value(digit_char(d)) == d,
        ('0' <= digit_char(d) <= '9') || ('A' <= digit_char(d) <= 'F'),
{
    assert('0' as int == 48);
    assert('A' as int == 65);
    if d == 0 { assert('0' as int == 48); }
    else if d == 1 { assert('1' as int == 49); }
    else if d == 2 { assert('2' as int == 50); }
    else if d == 3 { assert('3' as int == 51); }
    else if d == 4 { assert('4' as int == 52); }
    else if d == 5 { assert('5' as int == 53); }
    else if d == 6 { assert('6' as int == 54); }
    else if d == 7 { assert('7' as int == 55); }
    else if d == 8 { assert('8' as int == 56); }
    else if d == 9 { assert('9' as int == 57); }
    else if d == 10 { assert('A' as int == 65); }
    else if d == 11 { assert('B' as int == 66); }
    else if d == 12 { assert('C' as int == 67); }
    else if d == 13 { assert('D' as int == 68); }
    else if d == 14 { assert('E' as int == 69); }
    else { assert('F' as int == 70); }
}

/// The two upper-case hexadecimal digits of a byte read back as the byte,
/// the high digit first.
pub proof fn law_hex2_reads_back(b: u8)
    ensures
        hex2(b).len() == 2,
        16 * hex_value(hex2(b)[0]) + hex_value(hex2(b)[1]) == b,
        forall|k: int| 0 <= k < 2 ==> ('0' <= #[trigger] hex2(b)[k] <= '9') || ('A' <= hex2(b)[k] <= 'F'),
{
    lemma_hex_digit((b / 16) as int);
    lemma_hex_digit((b % 16) as int);
}

/// The big-endian bytes of an unsigned 32-bit value, most significant
/// first.
pub open spec fn be_bytes32(u: int) -> Seq<u8> {
    seq![(u / 0x100_0000) as u8, ((u / 0x1_0000) % 0x100) as u8, ((u / 0x100) % 0x100) as u8, (u % 0x100) as u8]
}

proof fn lemma_split32(u: int)
    requires
        0 <= u < 0x1_0000_0000,
    ensures
        (u / 0x100_0000) * 0x100_0000 + ((u / 0x1_0000) % 0x100) * 0x1_0000 + ((u / 0x100) % 0x100) * 0x100 + u
            % 0x100 == u,
        0 <= u / 0x100_0000 < 0x100,
{
    assert((u / 0x100_0000) * 0x100_0000 + ((u / 0x1_0000) % 0x100) * 0x1_0000 + ((u / 0x100) % 0x100) * 0x100
        + u % 0x100 == u) by (nonlinear_arith)
        requires
            0 <= u < 0x1_0000_0000,
    ;
    assert(0 <= u / 0x100_0000 < 0x100) by (nonlinear_arith)
        requires
            0 <= u < 0x1_0000_0000,
    ;
}

/// A signed 16-bit value written big-endian in two's complement reads back
/// as itself.
pub proof fn law_int16_reads_back(v: i16)
    ensures
        ({
            let u: int = if v < 0 { v + 0x1_0000 } else { v as int };
            &&& int16((u / 0x100) as u8, (u % 0x100) as u8) == v
            &&& be16((u / 0x100) as u8, (u % 0x100) as u8) == u
        }),
{
}

/// A signed 32-bit value written big-endian in two's complement reads back
/// as itself, wherever it stands.
pub proof fn law_int32_reads_back(v: i32, before: Seq<u8>, after: Seq<u8>)
    ensures
        ({
            let u: int = if v < 0 { v + 0x1_0000_0000 } else { v as int };
            int32(before + be_bytes32(u) + after, before.len() as int) == v
        }),
{
    let u: int = if v < 0 { v + 0x1_0000_0000 } else { v as int };
    lemma_split32(u);
    let d = before + be_bytes32(u) + after;
    let o = before.len() as int;
    assert(d[o] == (u / 0x100_0000) as u8);
    assert(d[o + 1] == ((u / 0x1_0000) % 0x100) as u8);
    assert(d[o + 2] == ((u / 0x100) % 0x100) as u8);
    assert(d[o + 3] == (u % 0x100) as u8);
}

/// An unsigned 64-bit value written big-endian, the high 32 bits first,
/// reads back as itself.
pub proof fn law_be64_reads_back(v: u64)
    ensures
        be64(be_bytes32((v / 0x1_0000_0000) as int) + be_bytes32((v % 0x1_0000_0000) as int), 0) == v,
{
    let hi: int = (v / 0x1_0000_0000) as int;
    let lo: int = (v % 0x1_0000_0000) as int;
    lemma_split32(hi);
    lemma_split32(lo);
    let d = be_bytes32(hi) + be_bytes32(lo);
    assert(d[0] == (hi / 0x100_0000) as u8);
    assert(d[4] == (lo / 0x100_0000) as u8);
    assert(d[5] == ((lo / 0x1_0000) % 0x100) as u8);
    assert(d[6] == ((lo / 0x100) % 0x100) as u8);
    assert(d[7] == (lo % 0x100) as u8);
}

} // verus!
