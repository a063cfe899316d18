//! The text that a tile dump shows for a geometry: one line per point, line
//! string or ring, with the coordinates written out in decimal.
use vstd::prelude::*;
use vstd::string::StringExecFns;

use crate::error::{decimal, push_decimal};
use crate::geometry::{GeometryModel, MvtCoord, MvtGeometry, MvtPolygon, PolygonModel};
use crate::proto::{strings_model, GeomType};

verus! {

/// A signed integer in decimal.
pub open spec fn int_text(v: int) -> Seq<char> {
    if v < 0 {
        "-"@ + decimal((-v) as nat)
    } else {
        decimal(v as nat)
    }
}

/// A coordinate pair: `x y`.
pub open spec fn coord_text(p: MvtCoord) -> Seq<char> {
    int_text(p.x as int) + " "@ + int_text(p.y as int)
}

/// Coordinate pairs separated by commas.
pub open spec fn coords_text(ps: Seq<MvtCoord>) -> Seq<char>
    decreases ps.len(),
{
    if ps.len() == 0 {
        seq![]
    } else if ps.len() == 1 {
        coord_text(ps[0])
    } else {
        coords_text(ps.drop_last()) + ","@ + coord_text(ps.last())
    }
}

/// The line of a point: `POINT(x,y)`.
pub open spec fn point_text(p: MvtCoord) -> Seq<char> {
    "POINT("@ + int_text(p.x as int) + ","@ + int_text(p.y as int) + ")"@
}

/// The line of a path: its kind, its number of points, its points, and a
/// suffix.
pub open spec fn path_text(kind: Seq<char>, ps: Seq<MvtCoord>, suffix: Seq<char>) -> Seq<char> {
    kind + "[count="@ + decimal(ps.len()) + "]("@ + coords_text(ps) + ")"@ + suffix
}

/// The line of a line string.
pub open spec fn line_text(l: Seq<MvtCoord>) -> Seq<char> {
    path_text("LINESTRING"@, l, ""@)
}

/// The lines of a polygon: its exterior ring, then its interior rings.
pub open spec fn polygon_text(p: PolygonModel) -> Seq<Seq<char>> {
    seq![path_text("RING"@, p.exterior, "[OUTER]"@)] + Seq::new(
        p.interiors.len(),
        |i: int| path_text("RING"@, p.interiors[i], "[INNER]"@),
    )
}

/// The lines of polygons, one polygon after the other.
pub open spec fn polygons_text(ps: Seq<PolygonModel>) -> Seq<Seq<char>>
    decreases ps.len(),
{
    if ps.len() == 0 {
        seq![]
    } else {
        polygons_text(ps.drop_last()) + polygon_text(ps.last())
    }
}

/// The lines of a geometry.
pub open spec fn geometry_text(g: GeometryModel) -> Seq<Seq<char>> {
    match g {
        GeometryModel::Point(p) => seq![point_text(p)],
        GeometryModel::MultiPoint(ps) => Seq::new(ps.len(), |i: int| point_text(ps[i])),
        GeometryModel::LineString(l) => seq![line_text(l)],
        GeometryModel::MultiLineString(ls) => Seq::new(ls.len(), |i: int| line_text(ls[i])),
        GeometryModel::Polygon(p) => polygon_text(p),
        GeometryModel::MultiPolygon(ps) => polygons_text(ps),
    }
}

/// The name a dump gives a declared geometry type.
pub open spec fn geom_type_label_text(t: Option<GeomType>) -> Seq<char> {
    match t {
        Some(GeomType::Point) => "point"@,
        Some(GeomType::Linestring) => "linestring"@,
        Some(GeomType::Polygon) => "polygon"@,
        _ => "unknown"@,
    }
}

proof fn lemma_strings_push(a: Seq<String>, s: String)
    ensures
        strings_model(a.push(s)) == strings_model(a).push(s@),
{
    assert(strings_model(a.push(s)) =~= strings_model(a).push(s@));
}

/// The name a dump gives a declared geometry type.
pub fn geom_type_label(t: Option<GeomType>) -> (r: &'static str)
    ensures
        r@ == geom_type_label_text(t),
{
    match t {
        Some(GeomType::Point) => "point",
        Some(GeomType::Linestring) => "linestring",
        Some(GeomType::Polygon) => "polygon",
        _ => "unknown",
    }
}

/// Appends a signed integer in decimal.
pub fn push_int(out: &mut String, v: i32)
    ensures
        final(out)@ == old(out)@ + int_text(v as int),
{
    if v < 0 {
        out.append("-");
        let m: i64 = -(v as i64);
        push_decimal(out, m as u64);
        assert(final(out)@ =~= old(out)@ + int_text(v as int));
    } else {
        push_decimal(out, v as u64);
    }
}

fn push_coord(out: &mut String, p: MvtCoord)
    ensures
        final(out)@ == old(out)@ + coord_text(p),
{
    push_int(out, p.x);
    out.append(" ");
    push_int(out, p.y);
    assert(final(out)@ =~= old(out)@ + coord_text(p));
}

fn push_coords(out: &mut String, ps: &Vec<MvtCoord>)
    ensures
        final(out)@ == old(out)@ + coords_text(ps@),
{
    let ghost start = out@;
    let mut i: usize = 0;
    assert(coords_text(ps@.take(0)) =~= Seq::<char>::empty());
    assert(start + Seq::<char>::empty() =~= start);
    while i < ps.len()
        invariant
            i <= ps@.len(),
            out@ == start + coords_text(ps@.take(i as int)),
        decreases ps@.len() - i,
    {
        let ghost t = ps@.take(i + 1);
        assert(t.drop_last() =~= ps@.take(i as int));
        assert(t.last() == ps@[i as int]);
        if i > 0 {
            out.append(",");
        }
        push_coord(out, ps[i]);
        if i > 0 {
            assert(out@ =~= start + coords_text(t));
        } else {
            assert(coords_text(t) == coord_text(ps@[0]));
            assert(out@ =~= start + coords_text(t));
        }
        i = i + 1;
    }
    assert(ps@.take(i as int) =~= ps@);
}

/// The line of a point.
pub fn point_line(p: MvtCoord) -> (r: String)
    ensures
        r@ == point_text(p),
{
    let mut s = String::from_str("POINT(");
    push_int(&mut s, p.x);
    s.append(",");
    push_int(&mut s, p.y);
    s.append(")");
    assert(s@ =~= point_text(p));
    s
}

/// The line of a path.
pub fn path_line(kind: &str, ps: &Vec<MvtCoord>, suffix: &str) -> (r: String)
    ensures
        r@ == path_text(kind@, ps@, suffix@),
{
    let mut s = String::from_str(kind);
    s.append("[count=");
    push_decimal(&mut s, ps.len() as u64);
    s.append("](");
    push_coords(&mut s, ps);
    s.append(")");
    s.append(suffix);
    assert(s@ =~= path_text(kind@, ps@, suffix@));
    s
}

fn push_polygon_lines(lines: &mut Vec<String>, p: &MvtPolygon)
    ensures
        strings_model(final(lines)@) == strings_model(old(lines)@) + polygon_text(p@),
{
    let ghost start = strings_model(lines@);
    lines.push(path_line("RING", &p.exterior, "[OUTER]"));
    let ghost first = seq![path_text("RING"@, p@.exterior, "[OUTER]"@)];
    assert(strings_model(lines@) =~= start + first);
    let mut i: usize = 0;
    while i < p.interiors.len()
        invariant
            i <= p.interiors@.len(),
            strings_model(lines@) == start + first + Seq::new(
                i as nat,
                |k: int| path_text("RING"@, p@.interiors[k], "[INNER]"@),
            ),
        decreases p.interiors@.len() - i,
    {
        let ghost before = lines@;
        let line = path_line("RING", &p.interiors[i], "[INNER]");
        lines.push(line);
        proof {
            lemma_strings_push(before, line);
        }
        assert(p@.interiors[i as int] == p.interiors@[i as int]@);
        assert(strings_model(lines@) =~= start + first + Seq::new(
            (i + 1) as nat,
            |k: int| path_text("RING"@, p@.interiors[k], "[INNER]"@),
        ));
        i = i + 1;
    }
    assert(start + first + Seq::new(
        i as nat,
        |k: int| path_text("RING"@, p@.interiors[k], "[INNER]"@),
    ) =~= start + polygon_text(p@));
}

/// The lines of a geometry, as a dump shows them.
pub fn geometry_lines(g: &MvtGeometry) -> (r: Vec<String>)
    ensures
        strings_model(r@) == geometry_text(g@),
{
    let mut lines: Vec<String> = Vec::new();
    match g {
        MvtGeometry::Point(p) => {
            lines.push(point_line(*p));
            assert(strings_model(lines@) =~= geometry_text(g@));
        },
        MvtGeometry::MultiPoint(ps) => {
            let mut i: usize = 0;
            while i < ps.len()
                invariant
                    i <= ps@.len(),
                    strings_model(lines@) == Seq::new(i as nat, |k: int| point_text(ps@[k])),
                decreases ps@.len() - i,
            {
                let ghost before = lines@;
                let line = point_line(ps[i]);
                lines.push(line);
                proof {
                    lemma_strings_push(before, line);
                }
                assert(strings_model(lines@) =~= Seq::new((i + 1) as nat, |k: int| point_text(ps@[k])));
                i = i + 1;
            }
            assert(strings_model(lines@) =~= geometry_text(g@));
        },
        MvtGeometry::LineString(l) => {
            lines.push(path_line("LINESTRING", l, ""));
            assert(strings_model(lines@) =~= geometry_text(g@));
        },
        MvtGeometry::MultiLineString(ls) => {
            let mut i: usize = 0;
            while i < ls.len()
                invariant
                    i <= ls@.len(),
                    strings_model(lines@) == Seq::new(i as nat, |k: int| line_text(ls@[k]@)),
                decreases ls@.len() - i,
            {
                let ghost before = lines@;
                let line = path_line("LINESTRING", &ls[i], "");
                lines.push(line);
                proof {
                    lemma_strings_push(before, line);
                }
                assert(strings_model(lines@) =~= Seq::new((i + 1) as nat, |k: int| line_text(ls@[k]@)));
                i = i + 1;
            }
            assert(strings_model(lines@) =~= geometry_text(g@));
        },
        MvtGeometry::Polygon(p) => {
            push_polygon_lines(&mut lines, p);
            assert(strings_model(lines@) =~= geometry_text(g@));
        },
        MvtGeometry::MultiPolygon(ps) => {
            let mut i: usize = 0;
            assert(strings_model(lines@) =~= polygons_text(Seq::<PolygonModel>::empty()));
            while i < ps.len()
                invariant
                    i <= ps@.len(),
                    strings_model(lines@) == polygons_text(
                        Seq::new(i as nat, |k: int| ps@[k]@),
                    ),
                decreases ps@.len() - i,
            {
                let ghost pre = Seq::new(i as nat, |k: int| ps@[k]@);
                let ghost next = Seq::new((i + 1) as nat, |k: int| ps@[k]@);
                push_polygon_lines(&mut lines, &ps[i]);
                assert(next.drop_last() =~= pre);
                assert(next.last() == ps@[i as int]@);
                i = i + 1;
            }
            assert(Seq::new(i as nat, |k: int| ps@[k]@) =~= crate::geometry::polygons_model(ps@));
            assert(strings_model(lines@) =~= geometry_text(g@));
        },
    }
    lines
}

} // verus!
