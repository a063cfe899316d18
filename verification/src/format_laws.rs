//! What the library writes and reads, pinned to the Mapbox Vector Tile
//! format: the ZigZag maps of geometry parameters and `sint` values, the
//! bytes of value, feature and layer messages with the field numbers and
//! geometry type numbers of `vector_tile.proto`, and the lines that a dump
//! shows for polygons.
use vstd::prelude::*;
use vstd::arithmetic::div_mod::lemma_div_denominator;
use vstd::utf8::{encode_utf8, encode_utf8_decode_utf8, encode_utf8_valid_utf8};

use crate::geometry::{
    deltas, delta_pair, encode_geometry_spec, line_cmds, line_writable, lines_cmds, points_cmds,
    polygon_rings, polygons_writable, ring_cmds, ring_writable, rings_cmds, wrap32, GeometryModel,
    MvtCoord, PolygonModel, area2, area2_prefix, cross, decode_geometry_spec,
};
use crate::geometry_roundtrip::{lemma_geometry_roundtrip, polygon_oriented};
use crate::proto::{
    decode_feature, decode_layer, decode_value, encode_feature, encode_layer, encode_tile, encode_value,
    feature_default, feature_fields, feature_step, features_fields, keys_fields, layer_default,
    layer_fields, layer_step, string_field, value_default, value_fields, value_step, values_fields,
    FeatureModel, GeomType, LayerModel, TileModel, ValueModel, ITEM_GROUP_DEPTH, LAYER_GROUP_DEPTH,
    layers_fields,
};
use crate::reader::{layer_extent, property_at, value_kind};
use crate::text::{geometry_text, path_text};
use crate::types::ValueKind;
use crate::wire::{
    apply_all, as_u64, field_bytes, field_writable, fields_bytes, fields_writable, le_bytes,
    lemma_decode_fields_bytes, lemma_fields_bytes_concat, lemma_fields_bytes_single, low32,
    packed_bytes, varint_bytes, zigzag_decode, zigzag_encode, WireField, WireValue,
};
use crate::writer::value_message;

verus! {

// ----- ZigZag -----

/// ZigZag decoding takes 0, 1, 2, 3, 4, … to 0, −1, 1, −2, 2, …: an even
/// number `2k` to `k`, an odd number `2k + 1` to `−(k + 1)`.
pub proof fn lemma_zigzag_decode_standard(k: nat)
    ensures
        zigzag_decode(2 * k) == k,
        zigzag_decode(2 * k + 1) == -(k as int) - 1,
{
}

/// ZigZag encoding takes a non-negative `v` to `2v` and a negative `v` to
/// `−2v − 1`, so that 0, −1, 1, −2, … become 0, 1, 2, 3, ….
pub proof fn lemma_zigzag_encode_standard(v: int)
    ensures
        v >= 0 ==> zigzag_encode(v) == 2 * v,
        v < 0 ==> zigzag_encode(v) == -2 * v - 1,
{
}

/// For a 32-bit value, ZigZag encoding is the bit formula
/// `(n << 1) ^ (n >> 31)`, with an arithmetic right shift.
pub proof fn lemma_zigzag_encode_i32_bits(n: i32)
    ensures
        zigzag_encode(n as int) == ((n << 1u32) ^ (n >> 31u32)) as u32,
{
    if n >= 0 {
        assert(n >= 0 ==> ((n << 1u32) ^ (n >> 31u32)) as u32 == 2 * (n as int)) by (bit_vector);
    } else {
        assert(n < 0 ==> ((n << 1u32) ^ (n >> 31u32)) as u32 == -2 * (n as int) - 1) by (bit_vector);
    }
}

// ----- geometry commands -----

/// The parameter pairs of a run of points: two per point, each pair the
/// ZigZag-encoded step, wrapped in 32 bits, from the point before (the
/// cursor, for the first).
proof fn lemma_deltas_index(ps: Seq<MvtCoord>, cur: MvtCoord)
    ensures
        deltas(ps, cur).len() == 2 * ps.len(),
        forall|i: int|
            0 <= i < ps.len() ==> {
                let prev = if i == 0 { cur } else { ps[i - 1] };
                &&& deltas(ps, cur)[2 * i] == zigzag_encode(wrap32(#[trigger] ps[i].x - prev.x)) as u32
                &&& deltas(ps, cur)[2 * i + 1] == zigzag_encode(wrap32(ps[i].y - prev.y)) as u32
            },
    decreases ps.len(),
{
    if ps.len() > 0 {
        let t = ps.drop_first();
        lemma_deltas_index(t, ps[0]);
        let d = deltas(ps, cur);
        assert(d == delta_pair(ps[0], cur) + deltas(t, ps[0]));
        assert forall|i: int| 0 <= i < ps.len() implies {
            let prev = if i == 0 { cur } else { ps[i - 1] };
            &&& d[2 * i] == zigzag_encode(wrap32(#[trigger] ps[i].x - prev.x)) as u32
            &&& d[2 * i + 1] == zigzag_encode(wrap32(ps[i].y - prev.y)) as u32
        } by {
            if i > 0 {
                assert(t[i - 1] == ps[i]);
                if i > 1 {
                    assert(t[i - 2] == ps[i - 1]);
                }
                assert(d[2 * i] == deltas(t, ps[0])[2 * (i - 1)]);
                assert(d[2 * i + 1] == deltas(t, ps[0])[2 * (i - 1) + 1]);
            }
        }
    }
}

/// The commands of a point: `MoveTo` with count 1 (command integer 9), then
/// its coordinates ZigZag-encoded.
pub proof fn lemma_point_commands(p: MvtCoord)
    ensures
        encode_geometry_spec(GeometryModel::Point(p)) == Some(
            (
                GeomType::Point,
                seq![9u32, zigzag_encode(p.x as int) as u32, zigzag_encode(p.y as int) as u32],
            ),
        ),
{
    let o = MvtCoord { x: 0, y: 0 };
    lemma_deltas_index(seq![p], o);
    assert(seq![p][0] == p);
    assert(wrap32(p.x - 0) == p.x);
    assert(wrap32(p.y - 0) == p.y);
    assert(points_cmds(seq![p]) =~= seq![9u32, zigzag_encode(p.x as int) as u32, zigzag_encode(p.y as int) as u32]);
}

/// The commands of `n` points: one `MoveTo` with count `n` (command integer
/// `8n + 1`), then each point as the ZigZag-encoded step, wrapped in 32
/// bits, from the point before it (from the origin, for the first).
pub proof fn lemma_multipoint_commands(ps: Seq<MvtCoord>)
    requires
        1 <= ps.len() <= 536870911,
    ensures
        encode_geometry_spec(GeometryModel::MultiPoint(ps)) matches Some((t, c)) && t == GeomType::Point
            && c.len() == 2 * ps.len() + 1 && c[0] == 8 * ps.len() + 1 && (forall|i: int|
            0 <= i < ps.len() ==> {
                let prev = if i == 0 { MvtCoord { x: 0, y: 0 } } else { ps[i - 1] };
                &&& c[2 * i + 1] == zigzag_encode(wrap32(#[trigger] ps[i].x - prev.x)) as u32
                &&& c[2 * i + 2] == zigzag_encode(wrap32(ps[i].y - prev.y)) as u32
            }),
{
    let o = MvtCoord { x: 0, y: 0 };
    lemma_deltas_index(ps, o);
    let c = points_cmds(ps);
    assert(c.len() == 2 * ps.len() + 1);
    assert forall|i: int| 0 <= i < ps.len() implies {
        let prev = if i == 0 { o } else { ps[i - 1] };
        &&& c[2 * i + 1] == zigzag_encode(wrap32(#[trigger] ps[i].x - prev.x)) as u32
        &&& c[2 * i + 2] == zigzag_encode(wrap32(ps[i].y - prev.y)) as u32
    } by {
        assert(c[2 * i + 1] == deltas(ps, o)[2 * i]);
        assert(c[2 * i + 2] == deltas(ps, o)[2 * i + 1]);
    }
}

/// The commands of a line string of `n` points: `MoveTo` with count 1
/// (command integer 9) to its first point, then `LineTo` with count `n − 1`
/// (command integer `8(n − 1) + 2`) through the others; every point is given
/// as the ZigZag-encoded step, wrapped in 32 bits, from the point before it
/// (from the origin, for the first).
pub proof fn lemma_line_commands(l: Seq<MvtCoord>)
    requires
        line_writable(l),
    ensures
        encode_geometry_spec(GeometryModel::LineString(l)) matches Some((t, c)) && t == GeomType::Linestring
            && c.len() == 2 * l.len() + 2 && c[0] == 9 && c[1] == zigzag_encode(l[0].x as int) as u32
            && c[2] == zigzag_encode(l[0].y as int) as u32 && c[3] == 8 * (l.len() - 1) + 2 && (forall|i: int|
            1 <= i < l.len() ==> c[2 * i + 2] == zigzag_encode(wrap32(#[trigger] l[i].x - l[i - 1].x)) as u32
                && c[2 * i + 3] == zigzag_encode(wrap32(l[i].y - l[i - 1].y)) as u32),
{
    let o = MvtCoord { x: 0, y: 0 };
    let t = l.drop_first();
    lemma_deltas_index(t, l[0]);
    assert(seq![l][0] == l);
    assert(seq![l].drop_first() =~= Seq::<Seq<MvtCoord>>::empty());
    assert(lines_cmds(Seq::<Seq<MvtCoord>>::empty(), l.last()) == Seq::<u32>::empty());
    let c = lines_cmds(seq![l], o);
    assert(c =~= line_cmds(l, o));
    assert(wrap32(l[0].x - 0) == l[0].x);
    assert(wrap32(l[0].y - 0) == l[0].y);
    assert(c.len() == 2 * l.len() + 2);
    assert(c[0] == 9);
    assert(c[3] == 8 * (l.len() - 1) + 2);
    assert forall|i: int| 1 <= i < l.len() implies c[2 * i + 2] == zigzag_encode(
        wrap32(#[trigger] l[i].x - l[i - 1].x),
    ) as u32 && c[2 * i + 3] == zigzag_encode(wrap32(l[i].y - l[i - 1].y)) as u32 by {
        assert(t[i - 1] == l[i]);
        if i > 1 {
            assert(t[i - 2] == l[i - 1]);
        }
        assert(c[2 * i + 2] == deltas(t, l[0])[2 * (i - 1)]);
        assert(c[2 * i + 3] == deltas(t, l[0])[2 * (i - 1) + 1]);
    }
}

/// The commands of a polygon with one ring of `n` positions (the last
/// repeating the first): `MoveTo` with count 1 (9) to its first position,
/// `LineTo` with count `n − 2` (`8(n − 2) + 2`) through the next ones but
/// the repeated last, each as the ZigZag-encoded step from the one before,
/// then `ClosePath` with count 1 (15).
pub proof fn lemma_ring_commands(p: PolygonModel)
    requires
        p.interiors.len() == 0,
        ring_writable(p.exterior),
    ensures
        encode_geometry_spec(GeometryModel::Polygon(p)) matches Some((t, c)) && t == GeomType::Polygon
            && c.len() == 2 * p.exterior.len() + 1 && c[0] == 9 && c[1] == zigzag_encode(
            p.exterior[0].x as int,
        ) as u32 && c[2] == zigzag_encode(p.exterior[0].y as int) as u32 && c[3] == 8 * (
        p.exterior.len() - 2) + 2 && c[2 * p.exterior.len() as int] == 15 && (forall|i: int|
            1 <= i < p.exterior.len() - 1 ==> c[2 * i + 2] == zigzag_encode(
                wrap32(#[trigger] p.exterior[i].x - p.exterior[i - 1].x),
            ) as u32 && c[2 * i + 3] == zigzag_encode(wrap32(p.exterior[i].y - p.exterior[i - 1].y))
                as u32),
{
    let o = MvtCoord { x: 0, y: 0 };
    let r = p.exterior;
    let n = r.len();
    let mid = r.subrange(1, n - 1);
    lemma_deltas_index(mid, r[0]);
    assert(polygon_rings(seq![p]) =~= seq![r]) by {
        assert(seq![p][0] == p);
        assert(seq![p].drop_first() =~= Seq::<PolygonModel>::empty());
        assert(polygon_rings(Seq::<PolygonModel>::empty()) == Seq::<Seq<MvtCoord>>::empty());
        assert(p.interiors =~= Seq::<Seq<MvtCoord>>::empty());
    }
    assert(polygons_writable(seq![p])) by {
        assert forall|i: int| 0 <= i < polygon_rings(seq![p]).len() implies ring_writable(
            #[trigger] polygon_rings(seq![p])[i],
        ) by {
            assert(polygon_rings(seq![p])[i] == r);
        }
    }
    assert(seq![r][0] == r);
    assert(seq![r].drop_first() =~= Seq::<Seq<MvtCoord>>::empty());
    assert(rings_cmds(Seq::<Seq<MvtCoord>>::empty(), r[n - 2]) == Seq::<u32>::empty());
    let c = rings_cmds(seq![r], o);
    assert(c =~= ring_cmds(r, o));
    assert(wrap32(r[0].x - 0) == r[0].x);
    assert(wrap32(r[0].y - 0) == r[0].y);
    assert(c.len() == 2 * n + 1);
    assert(c[0] == 9);
    assert(c[3] == 8 * (n - 2) + 2);
    assert(c[2 * n as int] == 15);
    assert forall|i: int| 1 <= i < n - 1 implies c[2 * i + 2] == zigzag_encode(
        wrap32(#[trigger] r[i].x - r[i - 1].x),
    ) as u32 && c[2 * i + 3] == zigzag_encode(wrap32(r[i].y - r[i - 1].y)) as u32 by {
        assert(mid[i - 1] == r[i]);
        if i > 1 {
            assert(mid[i - 2] == r[i - 1]);
        }
        assert(c[2 * i + 2] == deltas(mid, r[0])[2 * (i - 1)]);
        assert(c[2 * i + 3] == deltas(mid, r[0])[2 * (i - 1) + 1]);
    }
}

/// The square with corners (0, 0), (s, 0), (s, s) and (0, s), visited in
/// that order and closed.
pub open spec fn square_ring(s: i32) -> Seq<MvtCoord> {
    seq![
        MvtCoord { x: 0, y: 0 },
        MvtCoord { x: s, y: 0 },
        MvtCoord { x: s, y: s },
        MvtCoord { x: 0, y: s },
        MvtCoord { x: 0, y: 0 },
    ]
}

/// Ring orientation follows the surveyor's formula with the y axis pointing
/// down, as tile coordinates do: the square visited (0, 0), (s, 0), (s, s),
/// (0, s) (clockwise on screen) has area `s²`, counted positive, and so is
/// an exterior ring, which reads back as the exterior of a polygon; the
/// same square visited the other way has area `−s²`, a hole.
pub proof fn lemma_square_orientation(s: i32)
    requires
        s > 0,
    ensures
        area2(square_ring(s)) == 2 * (s as int) * (s as int),
        area2(square_ring(s).reverse()) == -2 * (s as int) * (s as int),
        ({
            let g = GeometryModel::Polygon(PolygonModel { exterior: square_ring(s), interiors: seq![] });
            encode_geometry_spec(g) matches Some((t, c)) && decode_geometry_spec(Some(t), c) == Some(g)
        }),
{
    let r = square_ring(s);
    let q = r.reverse();
    reveal_with_fuel(area2_prefix, 6);
    assert(q =~= seq![
        MvtCoord { x: 0, y: 0 },
        MvtCoord { x: 0, y: s },
        MvtCoord { x: s, y: s },
        MvtCoord { x: s, y: 0 },
        MvtCoord { x: 0, y: 0 },
    ]);
    let ss = (s as int) * (s as int);
    let o = MvtCoord { x: 0, y: 0 };
    let a = MvtCoord { x: s, y: 0 };
    let b = MvtCoord { x: s, y: s };
    let d = MvtCoord { x: 0, y: s };
    assert(r[0] == o && r[1] == a && r[2] == b && r[3] == d && r[4] == o);
    assert(q[0] == o && q[1] == d && q[2] == b && q[3] == a && q[4] == o);
    let si = s as int;
    assert(si * 0 == 0 && 0 * si == 0) by (nonlinear_arith);
    assert(cross(o, a) == 0 * 0 - si * 0);
    assert(cross(d, o) == 0 * 0 - 0 * si);
    assert(cross(o, d) == 0 * si - 0 * 0);
    assert(cross(a, o) == si * 0 - 0 * 0);
    assert(cross(a, b) == si * si - si * 0);
    assert(cross(b, d) == si * si - 0 * si);
    assert(cross(d, b) == 0 * si - si * si);
    assert(cross(b, a) == si * 0 - si * si);
    assert(cross(r[0], r[1]) == 0);
    assert(cross(r[1], r[2]) == ss);
    assert(cross(r[2], r[3]) == ss);
    assert(cross(r[3], r[4]) == 0);
    assert(area2_prefix(r, 2) == 0);
    assert(area2_prefix(r, 3) == ss);
    assert(area2_prefix(r, 4) == 2 * ss);
    assert(area2_prefix(r, 5) == 2 * ss);
    assert(area2(r) == 2 * (s as int) * (s as int)) by (nonlinear_arith)
        requires
            area2(r) == 2 * ss,
            ss == (s as int) * (s as int),
    ;
    assert(cross(q[0], q[1]) == 0);
    assert(cross(q[1], q[2]) == -ss);
    assert(cross(q[2], q[3]) == -ss);
    assert(cross(q[3], q[4]) == 0);
    assert(area2_prefix(q, 2) == 0);
    assert(area2_prefix(q, 3) == -ss);
    assert(area2_prefix(q, 4) == -2 * ss);
    assert(area2_prefix(q, 5) == -2 * ss);
    assert(area2(q) == -2 * (s as int) * (s as int)) by (nonlinear_arith)
        requires
            area2(q) == -2 * ss,
            ss == (s as int) * (s as int),
    ;
    let p = PolygonModel { exterior: r, interiors: seq![] };
    let g = GeometryModel::Polygon(p);
    assert((s as int) * (s as int) > 0) by (nonlinear_arith)
        requires
            s > 0,
    ;
    lemma_ring_commands(p);
    assert(polygon_oriented(p));
    lemma_geometry_roundtrip(g);
}

// ----- fixed-width values -----

/// A 32-bit fixed value is written least significant byte first.
pub proof fn lemma_fixed32_little_endian(v: nat)
    ensures
        le_bytes(v, 4) == seq![
            (v % 256) as u8,
            ((v / 256) % 256) as u8,
            ((v / 65536) % 256) as u8,
            ((v / 16777216) % 256) as u8,
        ],
{
    reveal_with_fuel(le_bytes, 5);
    lemma_div_denominator(v as int, 256, 256);
    lemma_div_denominator(v as int, 65536, 256);
    assert(le_bytes(v, 4) =~= seq![
        (v % 256) as u8,
        ((v / 256) % 256) as u8,
        ((v / 65536) % 256) as u8,
        ((v / 16777216) % 256) as u8,
    ]);
}

// ----- field bytes -----

proof fn lemma_single_writable(f: WireField)
    requires
        field_writable(f),
    ensures
        fields_writable(seq![f]),
{
    assert(seq![f][0] == f);
}

/// A varint field with a one-byte tag: the tag byte, then the value.
proof fn lemma_varint_field_bytes(num: u64, v: u64)
    requires
        1 <= num <= 15,
    ensures
        fields_bytes(seq![WireField { num, value: WireValue::Varint(v) }]) == seq![(num * 8) as u8]
            + varint_bytes(v as nat),
{
    let f = WireField { num, value: WireValue::Varint(v) };
    lemma_fields_bytes_single(f);
    assert(varint_bytes((num * 8) as nat) == seq![(num * 8) as u8]);
}

/// A length-delimited field with a one-byte tag: the tag byte, the length,
/// then the payload.
proof fn lemma_bytes_field_bytes(num: u64, p: Seq<u8>)
    requires
        1 <= num <= 15,
    ensures
        fields_bytes(seq![WireField { num, value: WireValue::Bytes(p) }]) == seq![(num * 8 + 2) as u8]
            + varint_bytes(p.len()) + p,
{
    let f = WireField { num, value: WireValue::Bytes(p) };
    lemma_fields_bytes_single(f);
    assert(varint_bytes((num * 8 + 2) as nat) == seq![(num * 8 + 2) as u8]);
    assert(field_bytes(f) =~= seq![(num * 8 + 2) as u8] + varint_bytes(p.len()) + p);
}

// ----- value messages -----

/// The bytes of the value message that holds a property value, as
/// `vector_tile.proto` numbers its fields: a string in field 1, a float in
/// field 2, a double in field 3, an `int` in field 4, a `uint` in field 5, a
/// `sint` (ZigZag) in field 6, a boolean in field 7; null writes nothing.
pub proof fn lemma_value_message_bytes(v: ValueKind)
    ensures
        encode_value(value_message(v)) == match v {
            ValueKind::String(s) => seq![0x0au8] + varint_bytes(encode_utf8(s).len()) + encode_utf8(s),
            ValueKind::Float(b) => seq![0x15u8] + le_bytes(b as nat, 4),
            ValueKind::Double(b) => seq![0x19u8] + le_bytes(b as nat, 8),
            ValueKind::Int(i) => seq![0x20u8] + varint_bytes(as_u64(i as int)),
            ValueKind::UInt(u) => seq![0x28u8] + varint_bytes(u as nat),
            ValueKind::SInt(i) => seq![0x30u8] + varint_bytes(zigzag_encode(i as int)),
            ValueKind::Bool(b) => seq![0x38u8, if b { 1u8 } else { 0u8 }],
            ValueKind::Null => Seq::<u8>::empty(),
        },
{
    let m = value_message(v);
    match v {
        ValueKind::String(s) => {
            assert(value_fields(m) =~= seq![string_field(1, s)]);
            lemma_bytes_field_bytes(1, encode_utf8(s));
        },
        ValueKind::Float(b) => {
            let f = WireField { num: 2, value: WireValue::Fixed32(b) };
            assert(value_fields(m) =~= seq![f]);
            lemma_fields_bytes_single(f);
            assert(varint_bytes(21) == seq![21u8]);
        },
        ValueKind::Double(b) => {
            let f = WireField { num: 3, value: WireValue::Fixed64(b) };
            assert(value_fields(m) =~= seq![f]);
            lemma_fields_bytes_single(f);
            assert(varint_bytes(25) == seq![25u8]);
        },
        ValueKind::Int(i) => {
            assert(value_fields(m) =~= seq![WireField { num: 4, value: WireValue::Varint(as_u64(i as int) as u64) }]);
            lemma_varint_field_bytes(4, as_u64(i as int) as u64);
        },
        ValueKind::UInt(u) => {
            assert(value_fields(m) =~= seq![WireField { num: 5, value: WireValue::Varint(u) }]);
            lemma_varint_field_bytes(5, u);
        },
        ValueKind::SInt(i) => {
            assert(value_fields(m) =~= seq![WireField { num: 6, value: WireValue::Varint(zigzag_encode(i as int) as u64) }]);
            lemma_varint_field_bytes(6, zigzag_encode(i as int) as u64);
        },
        ValueKind::Bool(b) => {
            let x: u64 = if b { 1 } else { 0 };
            assert(value_fields(m) =~= seq![WireField { num: 7, value: WireValue::Varint(x) }]);
            lemma_varint_field_bytes(7, x);
            assert(varint_bytes(x as nat) == seq![x as u8]);
            assert(seq![56u8] + seq![x as u8] =~= seq![0x38u8, if b { 1u8 } else { 0u8 }]);
        },
        ValueKind::Null => {
            assert(value_fields(m) =~= Seq::<WireField>::empty());
        },
    }
}

/// A value message that holds only field 7 holds a boolean: true exactly
/// when the varint is not zero.
pub proof fn lemma_bool_field_decodes(x: u64)
    ensures
        decode_value(seq![0x38u8] + varint_bytes(x as nat)) == Some(
            ValueModel { bool_value: Some(x != 0), ..value_default() },
        ),
{
    let f = WireField { num: 7, value: WireValue::Varint(x) };
    lemma_varint_field_bytes(7, x);
    lemma_single_writable(f);
    lemma_decode_fields_bytes(seq![f], ITEM_GROUP_DEPTH as nat, value_default(), value_step());
    let m = ValueModel { bool_value: Some(x != 0), ..value_default() };
    assert(crate::proto::apply_value(value_default(), f) == Some(m));
    assert(apply_all(seq![f], value_default(), value_step()) == Some(m)) by {
        assert(seq![f][0] == f);
        assert(seq![f].drop_first() =~= Seq::<WireField>::empty());
        assert(apply_all(Seq::<WireField>::empty(), m, value_step()) == Some(m));
    }
}

// ----- feature messages -----

/// The bytes of a feature message, as `vector_tile.proto` numbers its
/// fields: the id in field 1, the tags packed in field 2, the geometry type
/// in field 3 (UNKNOWN 0, POINT 1, LINESTRING 2, POLYGON 3), the geometry
/// commands packed in field 4.
#[verifier::rlimit(50)]
pub proof fn lemma_feature_bytes(f: FeatureModel)
    ensures
        encode_feature(f) == (match f.id {
            Some(id) => seq![0x08u8] + varint_bytes(id as nat),
            None => Seq::<u8>::empty(),
        }) + (if f.tags.len() > 0 {
            seq![0x12u8] + varint_bytes(packed_bytes(f.tags).len()) + packed_bytes(f.tags)
        } else {
            Seq::<u8>::empty()
        }) + (match f.geom_type {
            Some(GeomType::Unknown) => seq![0x18u8, 0u8],
            Some(GeomType::Point) => seq![0x18u8, 1u8],
            Some(GeomType::Linestring) => seq![0x18u8, 2u8],
            Some(GeomType::Polygon) => seq![0x18u8, 3u8],
            None => Seq::<u8>::empty(),
        }) + (if f.geometry.len() > 0 {
            seq![0x22u8] + varint_bytes(packed_bytes(f.geometry).len()) + packed_bytes(f.geometry)
        } else {
            Seq::<u8>::empty()
        }),
{
    let a: Seq<WireField> = match f.id {
        Some(id) => seq![WireField { num: 1, value: WireValue::Varint(id) }],
        None => seq![],
    };
    let b: Seq<WireField> = if f.tags.len() > 0 {
        seq![WireField { num: 2, value: WireValue::Bytes(packed_bytes(f.tags)) }]
    } else {
        seq![]
    };
    let c: Seq<WireField> = match f.geom_type {
        Some(t) => seq![WireField { num: 3, value: WireValue::Varint(crate::proto::geom_type_code(t) as u64) }],
        None => seq![],
    };
    let d: Seq<WireField> = if f.geometry.len() > 0 {
        seq![WireField { num: 4, value: WireValue::Bytes(packed_bytes(f.geometry)) }]
    } else {
        seq![]
    };
    assert(feature_fields(f) == a + b + c + d);
    lemma_fields_bytes_concat(a, b);
    lemma_fields_bytes_concat(a + b, c);
    lemma_fields_bytes_concat(a + b + c, d);
    if let Some(id) = f.id {
        lemma_varint_field_bytes(1, id);
    }
    if f.tags.len() > 0 {
        lemma_bytes_field_bytes(2, packed_bytes(f.tags));
    }
    if let Some(t) = f.geom_type {
        let code = crate::proto::geom_type_code(t) as u64;
        lemma_varint_field_bytes(3, code);
        assert(varint_bytes(code as nat) == seq![code as u8]);
    }
    if f.geometry.len() > 0 {
        lemma_bytes_field_bytes(4, packed_bytes(f.geometry));
    }
}

/// A feature message that holds only field 3 declares the geometry type of
/// that number in `vector_tile.proto` (0 UNKNOWN, 1 POINT, 2 LINESTRING,
/// 3 POLYGON); any other number declares none.
pub proof fn lemma_geom_type_field_decodes(c: u32)
    ensures
        decode_feature(seq![0x18u8] + varint_bytes(c as nat)) == Some(
            FeatureModel {
                geom_type: if c == 0 {
                    Some(GeomType::Unknown)
                } else if c == 1 {
                    Some(GeomType::Point)
                } else if c == 2 {
                    Some(GeomType::Linestring)
                } else if c == 3 {
                    Some(GeomType::Polygon)
                } else {
                    None
                },
                ..feature_default()
            },
        ),
{
    let f = WireField { num: 3, value: WireValue::Varint(c as u64) };
    lemma_varint_field_bytes(3, c as u64);
    lemma_single_writable(f);
    lemma_decode_fields_bytes(seq![f], ITEM_GROUP_DEPTH as nat, feature_default(), feature_step());
    assert(low32(c as nat) == c);
    let m = FeatureModel {
        geom_type: if c == 0 {
            Some(GeomType::Unknown)
        } else if c == 1 {
            Some(GeomType::Point)
        } else if c == 2 {
            Some(GeomType::Linestring)
        } else if c == 3 {
            Some(GeomType::Polygon)
        } else {
            None
        },
        ..feature_default()
    };
    assert(crate::proto::apply_feature(feature_default(), f) == Some(m));
    assert(apply_all(seq![f], feature_default(), feature_step()) == Some(m)) by {
        assert(seq![f][0] == f);
        assert(seq![f].drop_first() =~= Seq::<WireField>::empty());
        assert(apply_all(Seq::<WireField>::empty(), m, feature_step()) == Some(m));
    }
}

// ----- layer messages -----

/// The bytes of a layer message, as `vector_tile.proto` numbers its fields:
/// the name in field 1, then the features (field 2), keys (field 3) and
/// values (field 4), the extent in field 5 when it is set, and the version
/// in field 15.
pub proof fn lemma_layer_bytes(l: LayerModel)
    ensures
        encode_layer(l) == seq![0x0au8] + varint_bytes(encode_utf8(l.name).len()) + encode_utf8(l.name)
            + fields_bytes(features_fields(l.features) + keys_fields(l.keys) + values_fields(l.values))
            + (match l.extent {
            Some(e) => seq![0x28u8] + varint_bytes(e as nat),
            None => Seq::<u8>::empty(),
        }) + seq![0x78u8] + varint_bytes(l.version as nat),
{
    let n = seq![string_field(1, l.name)];
    let mid = features_fields(l.features) + keys_fields(l.keys) + values_fields(l.values);
    let e: Seq<WireField> = match l.extent {
        Some(x) => seq![WireField { num: 5, value: WireValue::Varint(x as u64) }],
        None => seq![],
    };
    let v = seq![WireField { num: 15, value: WireValue::Varint(l.version as u64) }];
    assert(layer_fields(l) =~= n + mid + e + v);
    lemma_fields_bytes_concat(n, mid);
    lemma_fields_bytes_concat(n + mid, e);
    lemma_fields_bytes_concat(n + mid + e, v);
    lemma_bytes_field_bytes(1, encode_utf8(l.name));
    if let Some(x) = l.extent {
        lemma_varint_field_bytes(5, x as u64);
    }
    lemma_varint_field_bytes(15, l.version as u64);
}

/// A layer message that holds only field 5 declares that extent, and has
/// the version that `vector_tile.proto` gives when none is written, 1.
pub proof fn lemma_extent_field_decodes(e: u32)
    ensures
        decode_layer(seq![0x28u8] + varint_bytes(e as nat)) == Some(
            LayerModel {
                version: 1,
                name: Seq::<char>::empty(),
                features: Seq::<FeatureModel>::empty(),
                keys: Seq::<Seq<char>>::empty(),
                values: Seq::<ValueModel>::empty(),
                extent: Some(e),
            },
        ),
{
    let f = WireField { num: 5, value: WireValue::Varint(e as u64) };
    lemma_varint_field_bytes(5, e as u64);
    lemma_single_writable(f);
    lemma_decode_fields_bytes(seq![f], LAYER_GROUP_DEPTH as nat, layer_default(), layer_step());
    assert(low32(e as nat) == e);
    let m = LayerModel { extent: Some(e), ..layer_default() };
    assert(crate::proto::apply_layer(layer_default(), f) == Some(m));
    assert(apply_all(seq![f], layer_default(), layer_step()) == Some(m)) by {
        assert(seq![f][0] == f);
        assert(seq![f].drop_first() =~= Seq::<WireField>::empty());
        assert(apply_all(Seq::<WireField>::empty(), m, layer_step()) == Some(m));
    }
}

/// The features of a layer are written one field 2 each, in order: the
/// tag byte, the length, then the feature's bytes.
pub proof fn lemma_features_field_bytes(f: FeatureModel, fs: Seq<FeatureModel>)
    ensures
        fields_bytes(features_fields(Seq::<FeatureModel>::empty())) == Seq::<u8>::empty(),
        fields_bytes(features_fields(seq![f] + fs)) == seq![0x12u8] + varint_bytes(
            encode_feature(f).len(),
        ) + encode_feature(f) + fields_bytes(features_fields(fs)),
{
    let x = WireField { num: 2, value: WireValue::Bytes(encode_feature(f)) };
    assert((seq![f] + fs)[0] == f);
    assert((seq![f] + fs).drop_first() =~= fs);
    assert(features_fields(seq![f] + fs) =~= seq![x] + features_fields(fs));
    lemma_fields_bytes_concat(seq![x], features_fields(fs));
    lemma_bytes_field_bytes(2, encode_feature(f));
}

/// The keys of a layer are written one field 3 each, in order: the tag
/// byte, the length, then the key's UTF-8 bytes.
pub proof fn lemma_keys_field_bytes(k: Seq<char>, ks: Seq<Seq<char>>)
    ensures
        fields_bytes(keys_fields(Seq::<Seq<char>>::empty())) == Seq::<u8>::empty(),
        fields_bytes(keys_fields(seq![k] + ks)) == seq![0x1au8] + varint_bytes(encode_utf8(k).len())
            + encode_utf8(k) + fields_bytes(keys_fields(ks)),
{
    let x = string_field(3, k);
    assert((seq![k] + ks)[0] == k);
    assert((seq![k] + ks).drop_first() =~= ks);
    assert(keys_fields(seq![k] + ks) =~= seq![x] + keys_fields(ks));
    lemma_fields_bytes_concat(seq![x], keys_fields(ks));
    lemma_bytes_field_bytes(3, encode_utf8(k));
}

/// The values of a layer are written one field 4 each, in order: the tag
/// byte, the length, then the value message's bytes.
pub proof fn lemma_values_field_bytes(v: ValueModel, vs: Seq<ValueModel>)
    ensures
        fields_bytes(values_fields(Seq::<ValueModel>::empty())) == Seq::<u8>::empty(),
        fields_bytes(values_fields(seq![v] + vs)) == seq![0x22u8] + varint_bytes(
            encode_value(v).len(),
        ) + encode_value(v) + fields_bytes(values_fields(vs)),
{
    let x = WireField { num: 4, value: WireValue::Bytes(encode_value(v)) };
    assert((seq![v] + vs)[0] == v);
    assert((seq![v] + vs).drop_first() =~= vs);
    assert(values_fields(seq![v] + vs) =~= seq![x] + values_fields(vs));
    lemma_fields_bytes_concat(seq![x], values_fields(vs));
    lemma_bytes_field_bytes(4, encode_value(v));
}

/// The layers of a tile are written one field 3 each, in order: the tag
/// byte, the length, then the layer's bytes; a tile with no layers is no
/// bytes at all.
pub proof fn lemma_tile_bytes(l: LayerModel, ls: Seq<LayerModel>)
    ensures
        encode_tile(TileModel { layers: Seq::<LayerModel>::empty() }) == Seq::<u8>::empty(),
        encode_tile(TileModel { layers: seq![l] + ls }) == seq![0x1au8] + varint_bytes(
            encode_layer(l).len(),
        ) + encode_layer(l) + encode_tile(TileModel { layers: ls }),
{
    let x = WireField { num: 3, value: WireValue::Bytes(encode_layer(l)) };
    assert((seq![l] + ls)[0] == l);
    assert((seq![l] + ls).drop_first() =~= ls);
    assert(layers_fields(seq![l] + ls) =~= seq![x] + layers_fields(ls));
    lemma_fields_bytes_concat(seq![x], layers_fields(ls));
    lemma_bytes_field_bytes(3, encode_layer(l));
}

/// A layer that declares no extent has the default extent 4096; one that
/// declares an extent has that one.
pub proof fn lemma_layer_extent_default(l: LayerModel)
    ensures
        l.extent is None ==> layer_extent(l) == 4096,
        l.extent matches Some(e) ==> layer_extent(l) == e,
{
}

/// The `i`-th tag pair of a feature names, by its first tag, a key of the
/// layer and, by its second, a value: when both indices are in range, the
/// property is that key with that value.
pub proof fn lemma_tag_pair_names_key_then_value(l: LayerModel, tags: Seq<u32>, i: nat)
    requires
        2 * i + 1 < tags.len(),
        tags[(2 * i) as int] < l.keys.len(),
        tags[(2 * i + 1) as int] < l.values.len(),
    ensures
        property_at(l, tags, i) == Ok::<(Seq<char>, ValueKind), crate::error::MvtError>(
            (l.keys[tags[(2 * i) as int] as int], value_kind(l.values[tags[(2 * i + 1) as int] as int])),
        ),
{
}

/// A value message reads as the kind of its one set field: field 1 a
/// string, 2 a float, 3 a double, 4 an `int`, 5 a `uint`, 6 a `sint`, 7 a
/// boolean, none at all null.
pub proof fn lemma_value_message_reads_back(v: ValueKind)
    ensures
        value_kind(value_message(v)) == v,
{
}

/// A layer message that holds only field 1 is named by that field's UTF-8
/// text, with version 1 and nothing else.
pub proof fn lemma_name_field_decodes(name: Seq<char>)
    requires
        encode_utf8(name).len() <= u64::MAX,
    ensures
        decode_layer(seq![0x0au8] + varint_bytes(encode_utf8(name).len()) + encode_utf8(name)) == Some(
            LayerModel {
                version: 1,
                name: name,
                features: Seq::<FeatureModel>::empty(),
                keys: Seq::<Seq<char>>::empty(),
                values: Seq::<ValueModel>::empty(),
                extent: None,
            },
        ),
{
    let f = string_field(1, name);
    lemma_bytes_field_bytes(1, encode_utf8(name));
    encode_utf8_valid_utf8(name);
    encode_utf8_decode_utf8(name);
    assert(field_writable(f));
    lemma_single_writable(f);
    lemma_decode_fields_bytes(seq![f], LAYER_GROUP_DEPTH as nat, layer_default(), layer_step());
    let m = LayerModel { name: name, ..layer_default() };
    assert(crate::proto::apply_layer(layer_default(), f) == Some(m));
    assert(apply_all(seq![f], layer_default(), layer_step()) == Some(m)) by {
        assert(seq![f][0] == f);
        assert(seq![f].drop_first() =~= Seq::<WireField>::empty());
        assert(apply_all(Seq::<WireField>::empty(), m, layer_step()) == Some(m));
    }
}

// ----- dump lines of polygons -----

/// The dump lines of a polygon: its exterior ring marked `[OUTER]`, then
/// each interior ring, in order, marked `[INNER]`.
pub proof fn lemma_polygon_lines(p: PolygonModel)
    ensures
        geometry_text(GeometryModel::Polygon(p)).len() == 1 + p.interiors.len(),
        geometry_text(GeometryModel::Polygon(p))[0] == path_text("RING"@, p.exterior, "[OUTER]"@),
        forall|i: int|
            0 <= i < p.interiors.len() ==> geometry_text(GeometryModel::Polygon(p))[i + 1]
                == path_text("RING"@, #[trigger] p.interiors[i], "[INNER]"@),
{
}

/// A multipolygon of one polygon is dumped as that polygon.
pub proof fn lemma_multipolygon_single(p: PolygonModel)
    ensures
        geometry_text(GeometryModel::MultiPolygon(seq![p])) == geometry_text(GeometryModel::Polygon(p)),
{
    assert(seq![p].drop_last() =~= Seq::<PolygonModel>::empty());
    assert(seq![p].last() == p);
    assert(crate::text::polygons_text(Seq::<PolygonModel>::empty()) == Seq::<Seq<char>>::empty());
    assert(Seq::<Seq<char>>::empty() + crate::text::polygon_text(p) =~= crate::text::polygon_text(p));
}

/// The dump lines of a multipolygon are those of its polygons, one polygon
/// after the other: splitting its polygons in two splits its lines.
pub proof fn lemma_multipolygon_concat(a: Seq<PolygonModel>, b: Seq<PolygonModel>)
    ensures
        geometry_text(GeometryModel::MultiPolygon(a + b)) == geometry_text(GeometryModel::MultiPolygon(a))
            + geometry_text(GeometryModel::MultiPolygon(b)),
    decreases b.len(),
{
    if b.len() == 0 {
        assert(a + b =~= a);
        assert(geometry_text(GeometryModel::MultiPolygon(b)) =~= Seq::<Seq<char>>::empty());
        assert(geometry_text(GeometryModel::MultiPolygon(a)) + Seq::<Seq<char>>::empty()
            =~= geometry_text(GeometryModel::MultiPolygon(a)));
    } else {
        let b0 = b.drop_last();
        lemma_multipolygon_concat(a, b0);
        assert((a + b).drop_last() =~= a + b0);
        assert((a + b).last() == b.last());
        assert(geometry_text(GeometryModel::MultiPolygon(a + b)) =~= geometry_text(
            GeometryModel::MultiPolygon(a),
        ) + geometry_text(GeometryModel::MultiPolygon(b)));
    }
}

} // verus!
