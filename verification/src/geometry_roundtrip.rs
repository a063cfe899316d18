//! Reading back a written geometry: the command stream of a geometry decodes
//! to the geometry, with a single-element multi-geometry read as its element.
use vstd::prelude::*;

use crate::geometry::{
    area2, assemble, cmd, command, decode_geometry_spec, delta_pair, delta_param, deltas,
    encode_geometry_spec, last_or, line_cmds, line_writable, lines_cmds, lines_of,
    lemma_polygon_rings_concat, lemma_polygon_rings_single, max_command_count, moved, path_events,
    points_cmds, points_of, polygon_rings, ring_cmds, ring_writable, rings_cmds, rings_of, wrap32,
    GeometryModel, MvtCoord, PathEvent, PolygonModel,
};
use crate::wire::{lemma_zigzag_roundtrip, zigzag_encode};

verus! {

/// The events of visiting `ps` with `MoveTo` (`id` 1) or `LineTo` moves.
pub open spec fn visit_events(ps: Seq<MvtCoord>, id: nat) -> Seq<PathEvent>
    decreases ps.len(),
{
    if ps.len() == 0 {
        seq![]
    } else {
        seq![if id == 1 { PathEvent::Move(ps[0]) } else { PathEvent::Line(ps[0]) }]
            + visit_events(ps.drop_first(), id)
    }
}

proof fn lemma_visit_single(p: MvtCoord)
    ensures
        visit_events(seq![p], 1) == seq![PathEvent::Move(p)],
{
    assert(seq![p].drop_first() =~= Seq::<MvtCoord>::empty());
    assert(seq![p][0] == p);
    assert(visit_events(seq![p].drop_first(), 1) == Seq::<PathEvent>::empty());
    assert(visit_events(seq![p], 1) =~= seq![PathEvent::Move(p)]);
}

proof fn lemma_wrap_back(c: i32, p: i32)
    ensures
        wrap32(c + wrap32(p - c)) == p,
{
}

/// Moving the cursor by the parameters that `deltas` writes reaches the point.
proof fn lemma_moved_delta(p: MvtCoord, cur: MvtCoord)
    ensures
        moved(cur, delta_param(p.x, cur.x), delta_param(p.y, cur.y)) == p,
{
    let dx = wrap32(p.x - cur.x);
    let dy = wrap32(p.y - cur.y);
    lemma_zigzag_roundtrip(dx);
    lemma_zigzag_roundtrip(dy);
    assert(delta_param(p.x, cur.x) as nat == zigzag_encode(dx));
    assert(delta_param(p.y, cur.y) as nat == zigzag_encode(dy));
    lemma_wrap_back(cur.x, p.x);
    lemma_wrap_back(cur.y, p.y);
}

/// With no parameters pending, the pending command id plays no part.
proof fn lemma_idle_id(cmds: Seq<u32>, cur: MvtCoord, id: nat)
    ensures
        path_events(cmds, cur, id, 0) == path_events(cmds, cur, 0, 0),
{
}

/// A command integer carries its id and count back.
proof fn lemma_cmd_fields(id: nat, n: nat)
    requires
        id <= 7,
        n <= max_command_count(),
    ensures
        cmd(id, n) as nat % 8 == id,
        cmd(id, n) as nat / 8 == n,
{
    assert(command(id, n) <= u32::MAX);
}

/// Reading the parameter pairs of `ps` visits `ps`.
proof fn lemma_deltas_events(ps: Seq<MvtCoord>, cur: MvtCoord, id: nat, rest: Seq<u32>)
    ensures
        path_events(deltas(ps, cur) + rest, cur, id, ps.len()) == match path_events(
            rest,
            last_or(ps, cur),
            id,
            0,
        ) {
            Some(r) => Some(visit_events(ps, id) + r),
            None => None,
        },
    decreases ps.len(),
{
    if ps.len() == 0 {
        assert(deltas(ps, cur) + rest =~= rest);
        assert(visit_events(ps, id) == Seq::<PathEvent>::empty());
        if let Some(r) = path_events(rest, cur, id, 0) {
            assert(Seq::<PathEvent>::empty() + r =~= r);
        }
    } else {
        let s = deltas(ps, cur) + rest;
        let tail = ps.drop_first();
        lemma_moved_delta(ps[0], cur);
        assert(s[0] == delta_param(ps[0].x, cur.x));
        assert(s[1] == delta_param(ps[0].y, cur.y));
        assert(s.skip(2) =~= deltas(tail, ps[0]) + rest);
        lemma_deltas_events(tail, ps[0], id, rest);
        if tail.len() > 0 {
            assert(last_or(tail, ps[0]) == last_or(ps, cur));
        } else {
            assert(last_or(tail, ps[0]) == ps[0]);
            assert(ps.last() == ps[0]);
        }
        if let Some(r) = path_events(rest, last_or(ps, cur), id, 0) {
            let e = if id == 1 { PathEvent::Move(ps[0]) } else { PathEvent::Line(ps[0]) };
            assert(seq![e] + (visit_events(tail, id) + r) =~= visit_events(ps, id) + r);
        }
    }
}

/// A `MoveTo` or `LineTo` command with its parameters visits its points.
proof fn lemma_command_events(ps: Seq<MvtCoord>, cur: MvtCoord, id: nat, id0: nat, rest: Seq<u32>)
    requires
        id == 1 || id == 2,
        1 <= ps.len() <= max_command_count(),
    ensures
        path_events(seq![cmd(id, ps.len())] + deltas(ps, cur) + rest, cur, id0, 0) == match path_events(
            rest,
            ps.last(),
            0,
            0,
        ) {
            Some(r) => Some(visit_events(ps, id) + r),
            None => None,
        },
{
    let s = seq![cmd(id, ps.len())] + deltas(ps, cur) + rest;
    lemma_cmd_fields(id, ps.len());
    assert(s[0] == cmd(id, ps.len()));
    assert(s.skip(1) =~= deltas(ps, cur) + rest);
    lemma_deltas_events(ps, cur, id, rest);
    lemma_idle_id(rest, ps.last(), id);
}

/// The events of a line string.
pub open spec fn line_events(l: Seq<MvtCoord>) -> Seq<PathEvent> {
    seq![PathEvent::Move(l[0])] + visit_events(l.drop_first(), 2)
}

/// The events of line strings, one after the other.
pub open spec fn lines_events(ls: Seq<Seq<MvtCoord>>) -> Seq<PathEvent>
    decreases ls.len(),
{
    if ls.len() == 0 {
        seq![]
    } else {
        line_events(ls[0]) + lines_events(ls.drop_first())
    }
}

/// The events of a ring: its points but the repeated last one, then a close.
pub open spec fn ring_events(r: Seq<MvtCoord>) -> Seq<PathEvent> {
    seq![PathEvent::Move(r[0])] + visit_events(r.subrange(1, r.len() - 1), 2) + seq![PathEvent::Close]
}

/// The events of rings, one after the other.
pub open spec fn rings_events(rs: Seq<Seq<MvtCoord>>) -> Seq<PathEvent>
    decreases rs.len(),
{
    if rs.len() == 0 {
        seq![]
    } else {
        ring_events(rs[0]) + rings_events(rs.drop_first())
    }
}

proof fn lemma_line_events(l: Seq<MvtCoord>, cur: MvtCoord, id0: nat, rest: Seq<u32>)
    requires
        line_writable(l),
    ensures
        path_events(line_cmds(l, cur) + rest, cur, id0, 0) == match path_events(
            rest,
            l.last(),
            0,
            0,
        ) {
            Some(r) => Some(line_events(l) + r),
            None => None,
        },
{
    let tail = l.drop_first();
    let second = seq![cmd(2, tail.len())] + deltas(tail, l[0]) + rest;
    assert(line_cmds(l, cur) + rest =~= seq![cmd(1, 1)] + deltas(seq![l[0]], cur) + second) by {
        assert(seq![l[0]].drop_first() =~= Seq::<MvtCoord>::empty());
        assert(seq![l[0]][0] == l[0]);
        assert(deltas(seq![l[0]].drop_first(), l[0]) == Seq::<u32>::empty());
        assert(deltas(seq![l[0]], cur) =~= delta_pair(l[0], cur));
    }
    lemma_command_events(seq![l[0]], cur, 1, id0, second);
    assert(seq![l[0]].last() == l[0]);
    lemma_command_events(tail, l[0], 2, 0, rest);
    assert(tail.last() == l.last());
    lemma_visit_single(l[0]);
    if let Some(r) = path_events(rest, l.last(), 0, 0) {
        assert(seq![PathEvent::Move(l[0])] + (visit_events(tail, 2) + r) =~= line_events(l) + r);
    }
}

proof fn lemma_lines_events(ls: Seq<Seq<MvtCoord>>, cur: MvtCoord, id0: nat)
    requires
        forall|i: int| 0 <= i < ls.len() ==> line_writable(#[trigger] ls[i]),
    ensures
        path_events(lines_cmds(ls, cur), cur, id0, 0) == Some(lines_events(ls)),
    decreases ls.len(),
{
    if ls.len() > 0 {
        let tail = ls.drop_first();
        assert(line_writable(ls[0]));
        assert forall|i: int| 0 <= i < tail.len() implies line_writable(#[trigger] tail[i]) by {
            assert(tail[i] == ls[i + 1]);
        }
        lemma_line_events(ls[0], cur, id0, lines_cmds(tail, ls[0].last()));
        lemma_lines_events(tail, ls[0].last(), 0);
    }
}

proof fn lemma_ring_events(r: Seq<MvtCoord>, cur: MvtCoord, id0: nat, rest: Seq<u32>)
    requires
        ring_writable(r),
    ensures
        path_events(ring_cmds(r, cur) + rest, cur, id0, 0) == match path_events(
            rest,
            r[r.len() - 2],
            0,
            0,
        ) {
            Some(x) => Some(ring_events(r) + x),
            None => None,
        },
{
    let mid = r.subrange(1, r.len() - 1);
    let close = seq![cmd(7, 1)] + rest;
    let second = seq![cmd(2, mid.len())] + deltas(mid, r[0]) + close;
    assert(ring_cmds(r, cur) + rest =~= seq![cmd(1, 1)] + deltas(seq![r[0]], cur) + second) by {
        assert(seq![r[0]].drop_first() =~= Seq::<MvtCoord>::empty());
        assert(seq![r[0]][0] == r[0]);
        assert(deltas(seq![r[0]].drop_first(), r[0]) == Seq::<u32>::empty());
        assert(deltas(seq![r[0]], cur) =~= delta_pair(r[0], cur));
    }
    lemma_command_events(seq![r[0]], cur, 1, id0, second);
    assert(seq![r[0]].last() == r[0]);
    lemma_command_events(mid, r[0], 2, 0, close);
    assert(mid.last() == r[r.len() - 2]);
    lemma_cmd_fields(7, 1);
    assert(close[0] == cmd(7, 1));
    assert(close.skip(1) =~= rest);
    lemma_visit_single(r[0]);
    if let Some(x) = path_events(rest, r[r.len() - 2], 0, 0) {
        assert(seq![PathEvent::Move(r[0])] + (visit_events(mid, 2) + (seq![PathEvent::Close] + x))
            =~= ring_events(r) + x);
    }
}

proof fn lemma_rings_events(rs: Seq<Seq<MvtCoord>>, cur: MvtCoord, id0: nat)
    requires
        forall|i: int| 0 <= i < rs.len() ==> ring_writable(#[trigger] rs[i]),
    ensures
        path_events(rings_cmds(rs, cur), cur, id0, 0) == Some(rings_events(rs)),
    decreases rs.len(),
{
    if rs.len() > 0 {
        let tail = rs.drop_first();
        assert(ring_writable(rs[0]));
        assert forall|i: int| 0 <= i < tail.len() implies ring_writable(#[trigger] tail[i]) by {
            assert(tail[i] == rs[i + 1]);
        }
        lemma_ring_events(rs[0], cur, id0, rings_cmds(tail, rs[0][rs[0].len() - 2]));
        lemma_rings_events(tail, rs[0][rs[0].len() - 2], 0);
    }
}

// ----- from events back to paths -----

proof fn lemma_points_of_visit(ps: Seq<MvtCoord>)
    ensures
        points_of(visit_events(ps, 1)) == Some(ps),
    decreases ps.len(),
{
    if ps.len() > 0 {
        let e = visit_events(ps, 1);
        assert(e.drop_first() =~= visit_events(ps.drop_first(), 1));
        lemma_points_of_visit(ps.drop_first());
        assert(seq![ps[0]] + ps.drop_first() =~= ps);
    }
}

/// `LineTo` events extend the line being read.
proof fn lemma_lines_of_visit(
    ps: Seq<MvtCoord>,
    more: Seq<PathEvent>,
    acc: Seq<Seq<MvtCoord>>,
    open: Seq<MvtCoord>,
)
    requires
        open.len() >= 1,
    ensures
        lines_of(visit_events(ps, 2) + more, acc, open) == lines_of(more, acc, open + ps),
    decreases ps.len(),
{
    if ps.len() == 0 {
        assert(visit_events(ps, 2) + more =~= more);
        assert(open + ps =~= open);
    } else {
        let e = visit_events(ps, 2) + more;
        assert(e[0] == PathEvent::Line(ps[0]));
        assert(e.drop_first() =~= visit_events(ps.drop_first(), 2) + more);
        lemma_lines_of_visit(ps.drop_first(), more, acc, open.push(ps[0]));
        assert(open.push(ps[0]) + ps.drop_first() =~= open + ps);
    }
}

/// The line being read, added to the finished ones when it has two points.
pub open spec fn flush(acc: Seq<Seq<MvtCoord>>, open: Seq<MvtCoord>) -> Seq<Seq<MvtCoord>> {
    if open.len() >= 2 { acc.push(open) } else { acc }
}

proof fn lemma_lines_of_events(ls: Seq<Seq<MvtCoord>>, acc: Seq<Seq<MvtCoord>>, open: Seq<MvtCoord>)
    requires
        open.len() == 0 || open.len() >= 2,
        forall|i: int| 0 <= i < ls.len() ==> line_writable(#[trigger] ls[i]),
    ensures
        lines_of(lines_events(ls), acc, open) == Some(flush(acc, open) + ls),
    decreases ls.len(),
{
    if ls.len() == 0 {
        assert(flush(acc, open) + ls =~= flush(acc, open));
    } else {
        let l = ls[0];
        let tail = ls.drop_first();
        assert(line_writable(l));
        assert forall|i: int| 0 <= i < tail.len() implies line_writable(#[trigger] tail[i]) by {
            assert(tail[i] == ls[i + 1]);
        }
        let e = lines_events(ls);
        let rest = visit_events(l.drop_first(), 2) + lines_events(tail);
        assert(e =~= seq![PathEvent::Move(l[0])] + rest);
        assert(e[0] == PathEvent::Move(l[0]));
        assert(e.drop_first() =~= rest);
        lemma_lines_of_visit(l.drop_first(), lines_events(tail), flush(acc, open), seq![l[0]]);
        assert(seq![l[0]] + l.drop_first() =~= l);
        lemma_lines_of_events(tail, flush(acc, open), l);
        assert(flush(flush(acc, open), l) + tail =~= flush(acc, open) + ls);
    }
}

/// `LineTo` events extend the ring being read.
proof fn lemma_rings_of_visit(
    ps: Seq<MvtCoord>,
    more: Seq<PathEvent>,
    acc: Seq<Seq<MvtCoord>>,
    open: Seq<MvtCoord>,
)
    requires
        open.len() >= 1,
    ensures
        rings_of(visit_events(ps, 2) + more, acc, open) == rings_of(more, acc, open + ps),
    decreases ps.len(),
{
    if ps.len() == 0 {
        assert(visit_events(ps, 2) + more =~= more);
        assert(open + ps =~= open);
    } else {
        let e = visit_events(ps, 2) + more;
        assert(e[0] == PathEvent::Line(ps[0]));
        assert(e.drop_first() =~= visit_events(ps.drop_first(), 2) + more);
        lemma_rings_of_visit(ps.drop_first(), more, acc, open.push(ps[0]));
        assert(open.push(ps[0]) + ps.drop_first() =~= open + ps);
    }
}

proof fn lemma_rings_of_events(rs: Seq<Seq<MvtCoord>>, acc: Seq<Seq<MvtCoord>>)
    requires
        forall|i: int| 0 <= i < rs.len() ==> ring_writable(#[trigger] rs[i]),
    ensures
        rings_of(rings_events(rs), acc, seq![]) == Some(acc + rs),
    decreases rs.len(),
{
    if rs.len() == 0 {
        assert(acc + rs =~= acc);
    } else {
        let r = rs[0];
        let tail = rs.drop_first();
        assert(ring_writable(r));
        assert forall|i: int| 0 <= i < tail.len() implies ring_writable(#[trigger] tail[i]) by {
            assert(tail[i] == rs[i + 1]);
        }
        let mid = r.subrange(1, r.len() - 1);
        let after = seq![PathEvent::Close] + rings_events(tail);
        let e = rings_events(rs);
        assert(e =~= seq![PathEvent::Move(r[0])] + (visit_events(mid, 2) + after));
        assert(e[0] == PathEvent::Move(r[0]));
        assert(e.drop_first() =~= visit_events(mid, 2) + after);
        lemma_rings_of_visit(mid, after, acc, seq![r[0]]);
        let open = seq![r[0]] + mid;
        assert(open =~= r.subrange(0, r.len() - 1));
        assert(after[0] == PathEvent::Close);
        assert(after.drop_first() =~= rings_events(tail));
        assert(open.push(open[0]) =~= r);
        lemma_rings_of_events(tail, acc.push(r));
        assert(acc.push(r) + tail =~= acc + rs);
    }
}

// ----- from rings back to polygons -----

/// A polygon whose exterior has positive area and whose holes have negative
/// area, as the format requires.
pub open spec fn polygon_oriented(p: PolygonModel) -> bool {
    &&& area2(p.exterior) > 0
    &&& forall|i: int| 0 <= i < p.interiors.len() ==> area2(#[trigger] p.interiors[i]) < 0
}

proof fn lemma_assemble_holes(ints: Seq<Seq<MvtCoord>>, more: Seq<Seq<MvtCoord>>, acc: Seq<PolygonModel>)
    requires
        acc.len() > 0,
        forall|i: int| 0 <= i < ints.len() ==> area2(#[trigger] ints[i]) < 0,
    ensures
        assemble(ints + more, acc) == assemble(
            more,
            acc.update(
                acc.len() - 1,
                PolygonModel { exterior: acc.last().exterior, interiors: acc.last().interiors + ints },
            ),
        ),
    decreases ints.len(),
{
    let last = acc.last();
    if ints.len() == 0 {
        assert(ints + more =~= more);
        assert(last.interiors + ints =~= last.interiors);
        assert(acc.update(acc.len() - 1, PolygonModel { exterior: last.exterior, interiors: last.interiors }) =~= acc);
    } else {
        let s = ints + more;
        assert(s[0] == ints[0]);
        assert(area2(ints[0]) < 0);
        assert(s.drop_first() =~= ints.drop_first() + more);
        let acc2 = acc.update(
            acc.len() - 1,
            PolygonModel { exterior: last.exterior, interiors: last.interiors.push(ints[0]) },
        );
        let tail = ints.drop_first();
        assert forall|i: int| 0 <= i < tail.len() implies area2(#[trigger] tail[i]) < 0 by {
            assert(tail[i] == ints[i + 1]);
        }
        lemma_assemble_holes(tail, more, acc2);
        assert(acc2.last() == PolygonModel { exterior: last.exterior, interiors: last.interiors.push(ints[0]) });
        assert(last.interiors.push(ints[0]) + tail =~= last.interiors + ints);
        assert(acc2.update(acc2.len() - 1, PolygonModel { exterior: last.exterior, interiors: last.interiors.push(ints[0]) + tail })
            =~= acc.update(acc.len() - 1, PolygonModel { exterior: last.exterior, interiors: last.interiors + ints }));
    }
}

proof fn lemma_assemble_polygons(ps: Seq<PolygonModel>, acc: Seq<PolygonModel>)
    requires
        forall|i: int| 0 <= i < ps.len() ==> polygon_oriented(#[trigger] ps[i]),
    ensures
        assemble(polygon_rings(ps), acc) == Some(acc + ps),
    decreases ps.len(),
{
    if ps.len() == 0 {
        assert(acc + ps =~= acc);
    } else {
        let p = ps[0];
        let tail = ps.drop_first();
        assert(polygon_oriented(p));
        assert forall|i: int| 0 <= i < tail.len() implies polygon_oriented(#[trigger] tail[i]) by {
            assert(tail[i] == ps[i + 1]);
        }
        let rings = polygon_rings(ps);
        assert(rings =~= seq![p.exterior] + (p.interiors + polygon_rings(tail)));
        assert(rings[0] == p.exterior);
        assert(rings.drop_first() =~= p.interiors + polygon_rings(tail));
        let acc1 = acc.push(PolygonModel { exterior: p.exterior, interiors: seq![] });
        lemma_assemble_holes(p.interiors, polygon_rings(tail), acc1);
        assert(Seq::<Seq<MvtCoord>>::empty() + p.interiors =~= p.interiors);
        let acc2 = acc1.update(acc1.len() - 1, PolygonModel { exterior: p.exterior, interiors: Seq::<Seq<MvtCoord>>::empty() + p.interiors });
        assert(acc2 =~= acc.push(p));
        lemma_assemble_polygons(tail, acc.push(p));
        assert(acc.push(p) + tail =~= acc + ps);
    }
}

// ----- the law -----

/// What decoding gives back for a geometry: a multi-geometry of exactly one
/// element is read as that element.
pub open spec fn normalized(g: GeometryModel) -> GeometryModel {
    match g {
        GeometryModel::MultiPoint(ps) => if ps.len() == 1 { GeometryModel::Point(ps[0]) } else { g },
        GeometryModel::MultiLineString(ls) => if ls.len() == 1 {
            GeometryModel::LineString(ls[0])
        } else {
            g
        },
        GeometryModel::MultiPolygon(ps) => if ps.len() == 1 { GeometryModel::Polygon(ps[0]) } else { g },
        _ => g,
    }
}

/// Every polygon of a geometry has the ring orientation the format requires.
pub open spec fn geometry_oriented(g: GeometryModel) -> bool {
    match g {
        GeometryModel::Polygon(p) => polygon_oriented(p),
        GeometryModel::MultiPolygon(ps) => forall|i: int| 0 <= i < ps.len() ==> polygon_oriented(#[trigger] ps[i]),
        _ => true,
    }
}

/// A geometry that can be written, with its polygons oriented as the format
/// requires, decodes from its command stream to itself (a single-element
/// multi-geometry to its element).
pub proof fn lemma_geometry_roundtrip(g: GeometryModel)
    requires
        encode_geometry_spec(g) is Some,
        geometry_oriented(g),
    ensures
        ({
            let (t, cmds) = encode_geometry_spec(g).unwrap();
            decode_geometry_spec(Some(t), cmds) == Some(normalized(g))
        }),
{
    let origin = MvtCoord { x: 0, y: 0 };
    match g {
        GeometryModel::Point(p) => {
            let ps = seq![p];
            lemma_command_events(ps, origin, 1, 0, seq![]);
            assert(points_cmds(ps) + Seq::<u32>::empty() =~= points_cmds(ps));
            assert(path_events(Seq::<u32>::empty(), p, 0, 0) == Some(Seq::<PathEvent>::empty()));
            assert(visit_events(ps, 1) + Seq::<PathEvent>::empty() =~= visit_events(ps, 1));
            lemma_points_of_visit(ps);
        },
        GeometryModel::MultiPoint(ps) => {
            if ps.len() > 0 {
                lemma_command_events(ps, origin, 1, 0, seq![]);
                assert(points_cmds(ps) + Seq::<u32>::empty() =~= points_cmds(ps));
                assert(path_events(Seq::<u32>::empty(), ps.last(), 0, 0) == Some(Seq::<PathEvent>::empty()));
                assert(visit_events(ps, 1) + Seq::<PathEvent>::empty() =~= visit_events(ps, 1));
            } else {
                assert(points_cmds(ps) == Seq::<u32>::empty());
                assert(visit_events(ps, 1) == Seq::<PathEvent>::empty());
            }
            lemma_points_of_visit(ps);
        },
        GeometryModel::LineString(l) => {
            let ls = seq![l];
            assert(ls[0] == l);
            lemma_lines_events(ls, origin, 0);
            lemma_lines_of_events(ls, seq![], seq![]);
            assert(flush(seq![], seq![]) + ls =~= ls);
        },
        GeometryModel::MultiLineString(ls) => {
            lemma_lines_events(ls, origin, 0);
            lemma_lines_of_events(ls, seq![], seq![]);
            assert(flush(seq![], seq![]) + ls =~= ls);
        },
        GeometryModel::Polygon(p) => {
            let ps = seq![p];
            let rs = polygon_rings(ps);
            assert(ps[0] == p);
            assert forall|i: int| 0 <= i < rs.len() implies ring_writable(#[trigger] rs[i]) by {}
            lemma_rings_events(rs, origin, 0);
            lemma_rings_of_events(rs, seq![]);
            assert(Seq::<Seq<MvtCoord>>::empty() + rs =~= rs);
            lemma_assemble_polygons(ps, seq![]);
            assert(Seq::<PolygonModel>::empty() + ps =~= ps);
        },
        GeometryModel::MultiPolygon(ps) => {
            let rs = polygon_rings(ps);
            assert forall|i: int| 0 <= i < rs.len() implies ring_writable(#[trigger] rs[i]) by {}
            lemma_rings_events(rs, origin, 0);
            lemma_rings_of_events(rs, seq![]);
            assert(Seq::<Seq<MvtCoord>>::empty() + rs =~= rs);
            lemma_assemble_polygons(ps, seq![]);
            assert(Seq::<PolygonModel>::empty() + ps =~= ps);
        },
    }
}


/// The polygons that rings are grouped into hold those rings, in order,
/// after the rings of the polygons grouped before.
proof fn lemma_assemble_rings(rings: Seq<Seq<MvtCoord>>, acc: Seq<PolygonModel>, qs: Seq<PolygonModel>)
    requires
        assemble(rings, acc) == Some(qs),
    ensures
        polygon_rings(qs) == polygon_rings(acc) + rings,
    decreases rings.len(),
{
    if rings.len() == 0 {
        assert(polygon_rings(acc) + rings =~= polygon_rings(acc));
    } else {
        let r = rings[0];
        let tail = rings.drop_first();
        let a = area2(r);
        if a > 0 {
            let p = PolygonModel { exterior: r, interiors: seq![] };
            let acc2 = acc.push(p);
            lemma_assemble_rings(tail, acc2, qs);
            assert(acc2 =~= acc + seq![p]);
            lemma_polygon_rings_concat(acc, seq![p]);
            lemma_polygon_rings_single(p);
            assert(seq![p.exterior] + p.interiors =~= seq![r]);
            assert(polygon_rings(acc2) + tail =~= polygon_rings(acc) + rings);
        } else {
            let last = acc.last();
            let front = acc.drop_last();
            let p = PolygonModel { exterior: last.exterior, interiors: last.interiors.push(r) };
            let acc2 = acc.update(acc.len() - 1, p);
            lemma_assemble_rings(tail, acc2, qs);
            assert(acc =~= front + seq![last]);
            assert(acc2 =~= front + seq![p]);
            lemma_polygon_rings_concat(front, seq![last]);
            lemma_polygon_rings_concat(front, seq![p]);
            lemma_polygon_rings_single(last);
            lemma_polygon_rings_single(p);
            assert(polygon_rings(acc2) =~= polygon_rings(acc) + seq![r]);
            assert(polygon_rings(acc2) + tail =~= polygon_rings(acc) + rings);
        }
    }
}

/// Writing a geometry that was read from a written one gives the same type
/// and command stream: a single-element multi-geometry is written as its
/// element, and rings regrouped into polygons by their orientation are
/// written in the same order.
pub proof fn lemma_geometry_rewrite(g: GeometryModel)
    requires
        encode_geometry_spec(g) is Some,
        decode_geometry_spec(Some(encode_geometry_spec(g).unwrap().0), encode_geometry_spec(g).unwrap().1) is Some,
    ensures
        encode_geometry_spec(
            decode_geometry_spec(Some(encode_geometry_spec(g).unwrap().0), encode_geometry_spec(g).unwrap().1).unwrap(),
        ) == encode_geometry_spec(g),
{
    let origin = MvtCoord { x: 0, y: 0 };
    let (t, c) = encode_geometry_spec(g).unwrap();
    let d = decode_geometry_spec(Some(t), c).unwrap();
    match g {
        GeometryModel::Polygon(_) | GeometryModel::MultiPolygon(_) => {
            let ps = match g {
                GeometryModel::Polygon(p) => seq![p],
                GeometryModel::MultiPolygon(ps) => ps,
                _ => seq![],
            };
            let rs = polygon_rings(ps);
            assert(c == rings_cmds(rs, origin));
            assert forall|i: int| 0 <= i < rs.len() implies ring_writable(#[trigger] rs[i]) by {}
            lemma_rings_events(rs, origin, 0);
            lemma_rings_of_events(rs, seq![]);
            assert(Seq::<Seq<MvtCoord>>::empty() + rs =~= rs);
            let qs = assemble(rs, seq![]).unwrap();
            lemma_assemble_rings(rs, seq![], qs);
            assert(polygon_rings(Seq::<PolygonModel>::empty()) + rs =~= rs);
            assert(polygon_rings(qs) == rs);
            if qs.len() == 1 {
                assert(qs =~= seq![qs[0]]);
                assert(d == GeometryModel::Polygon(qs[0]));
            } else {
                assert(d == GeometryModel::MultiPolygon(qs));
            }
        },
        _ => {
            lemma_geometry_roundtrip(g);
            assert(d == normalized(g));
            match g {
                GeometryModel::MultiPoint(ps) => {
                    if ps.len() == 1 {
                        assert(ps =~= seq![ps[0]]);
                    }
                },
                GeometryModel::MultiLineString(ls) => {
                    if ls.len() == 1 {
                        assert(ls =~= seq![ls[0]]);
                        assert(line_writable(ls[0]));
                    }
                },
                _ => {},
            }
        },
    }
}

} // verus!
